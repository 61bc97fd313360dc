//! Control characters and numbers in text.

use std::borrow::Cow;

use vstd::prelude::*;
use vstd::std_specs::iter::*;
use vstd::string::*;

use crate::width::push_repeated;

verus! {

/// `String::push`: appends one character at the end of the string.
pub assume_specification[ String::push ](s: &mut String, c: char)
    ensures
        final(s)@ == old(s)@.push(c),
;

/// The control characters of ASCII: C0 and DEL.
pub open spec fn is_control(c: char) -> bool {
    c as u32 <= 0x1f || c as u32 == 0x7f
}

/// What may be shown of untrusted text: tabs, newlines if asked for, and whatever is no control
/// character.
pub open spec fn is_displayable(c: char, keep_newlines: bool) -> bool {
    c == '\t' || (c == '\n' && keep_newlines) || !is_control(c)
}

/// `s` without the characters that may not be shown.
pub open spec fn sanitized(s: Seq<char>, keep_newlines: bool) -> Seq<char> {
    s.filter(|c: char| is_displayable(c, keep_newlines))
}

/// Text with nothing to drop, and no other, stays as it is.
pub proof fn lemma_sanitized_unchanged(s: Seq<char>, keep_newlines: bool)
    ensures
        sanitized(s, keep_newlines).len() <= s.len(),
        sanitized(s, keep_newlines) == s <==> forall|i: int|
            0 <= i < s.len() ==> is_displayable(#[trigger] s[i], keep_newlines),
    decreases s.len(),
{
    let pred = |c: char| is_displayable(c, keep_newlines);
    reveal(Seq::filter);
    s.lemma_filter_len(pred);
    if s.len() > 0 {
        let t = s.drop_last();
        t.lemma_filter_len(pred);
        lemma_sanitized_unchanged(t, keep_newlines);
        assert(s == t.push(s.last()));
        if sanitized(s, keep_newlines) == s {
            assert(s.drop_last() == t);
            assert(sanitized(t, keep_newlines) == t);
            assert forall|i: int| 0 <= i < s.len() implies is_displayable(
                #[trigger] s[i],
                keep_newlines,
            ) by {
                if i < t.len() {
                    assert(t[i] == s[i]);
                }
            }
        }
        if forall|i: int| 0 <= i < s.len() ==> is_displayable(#[trigger] s[i], keep_newlines) {
            assert forall|i: int| 0 <= i < t.len() implies is_displayable(
                #[trigger] t[i],
                keep_newlines,
            ) by {
                assert(t[i] == s[i]);
            }
        }
    }
}

fn displayable(c: char, keep_newlines: bool) -> (r: bool)
    ensures
        r == is_displayable(c, keep_newlines),
{
    c == '\t' || (c == '\n' && keep_newlines) || !(c <= '\u{1f}' || c == '\u{7f}')
}

/// Drops C0 control characters (`\x00..=\x1f`) and DEL (`\x7f`) from untrusted text before it is
/// written to formatted output, so that it cannot move the cursor, recolor the terminal or forge a
/// line.
///
/// Source lines keep their newlines, single-line texts such as messages do not. Tabs stay: they are
/// expanded later. Text with nothing to drop is borrowed, not copied.
pub fn sanitize_for_display<'a>(s: &'a str, keep_newlines: bool) -> (r: Cow<'a, str>)
    ensures
        r@ == sanitized(s@, keep_newlines),
        r is Borrowed <==> sanitized(s@, keep_newlines) == s@,
{
    let ghost pred = |c: char| is_displayable(c, keep_newlines);
    let mut needs: bool = false;
    for c in it: s.chars()
        invariant
            it.seq() == s@,
            needs <==> exists|i: int|
                0 <= i < it.index() && !is_displayable(#[trigger] s@[i], keep_newlines),
    {
        if !displayable(c, keep_newlines) {
            needs = true;
        }
    }
    proof {
        lemma_sanitized_unchanged(s@, keep_newlines);
    }
    if !needs {
        return Cow::Borrowed(s);
    }
    let mut out = String::new();
    assert(out@ == s@.take(0).filter(pred)) by {
        reveal(Seq::filter);
    }
    for c in it: s.chars()
        invariant
            it.seq() == s@,
            pred == |c: char| is_displayable(c, keep_newlines),
            out@ == s@.take(it.index() as int).filter(pred),
    {
        proof {
            reveal(Seq::filter);
            assert(s@.take(it.index() + 1).drop_last() == s@.take(it.index() as int));
        }
        if displayable(c, keep_newlines) {
            out.push(c);
        }
    }
    assert(s@.take(s@.len() as int) == s@);
    Cow::Owned(out)
}

/// The text that `c` holds.
pub(crate) fn cow_str<'a>(c: &'a Cow<'a, str>) -> (r: &'a str)
    ensures
        r@ == c@,
{
    match c {
        Cow::Borrowed(b) => b,
        Cow::Owned(o) => o.as_str(),
    }
}

/// Whether two texts are the same.
pub(crate) fn same_text(a: &str, b: &str) -> (r: bool)
    ensures
        r == (a@ == b@),
{
    let mut left = a.chars();
    let mut right = b.chars();
    let ghost mut k: int = 0;
    assert(a@.skip(0) == a@ && b@.skip(0) == b@);
    loop
        invariant
            0 <= k <= a@.len(),
            k <= b@.len(),
            IteratorSpec::remaining(&left) == a@.skip(k),
            IteratorSpec::remaining(&right) == b@.skip(k),
            a@.take(k) == b@.take(k),
        decreases a@.len() - k,
    {
        match (left.next(), right.next()) {
            (None, None) => {
                assert(a@.take(k) == a@ && b@.take(k) == b@);
                return true;
            },
            (Some(x), Some(y)) => {
                assert(a@.skip(k)[0] == a@[k] && b@.skip(k)[0] == b@[k]);
                if x != y {
                    return false;
                }
                proof {
                    assert(a@.skip(k).drop_first() == a@.skip(k + 1));
                    assert(b@.skip(k).drop_first() == b@.skip(k + 1));
                    assert(a@.take(k + 1) == a@.take(k).push(x));
                    assert(b@.take(k + 1) == b@.take(k).push(y));
                    k = k + 1;
                }
            },
            (None, Some(y)) => {
                assert(a@.len() != b@.len());
                return false;
            },
            (Some(x), None) => {
                assert(a@.len() != b@.len());
                return false;
            },
        }
    }
}

/// The decimal digit of a value below 10.
pub open spec fn digit(d: nat) -> char {
    ('0' as u8 + d) as char
}

/// `n` in decimal notation.
pub open spec fn decimal(n: nat) -> Seq<char>
    decreases n,
{
    if n < 10 {
        seq![digit(n)]
    } else {
        decimal(n / 10).push(digit(n % 10))
    }
}

/// Appends `n` to `out` in decimal notation.
fn push_decimal(out: &mut String, n: usize)
    ensures
        final(out)@ == old(out)@ + decimal(n as nat),
    decreases n,
{
    if n >= 10 {
        push_decimal(out, n / 10);
    }
    let d: u8 = (n % 10) as u8;
    out.push(('0' as u8 + d) as char);
    assert(out@ == old(out)@ + decimal(n as nat));
}

/// Writes `n` in decimal notation.
pub fn usize_to_string(n: usize) -> (r: String)
    ensures
        r@ == decimal(n as nat),
{
    let mut out = String::new();
    push_decimal(&mut out, n);
    out
}

/// `s` with spaces before it, up to `width` characters.
pub open spec fn right_aligned(s: Seq<char>, width: nat) -> Seq<char> {
    crate::width::repeated(
        ' ',
        if s.len() < width {
            (width - s.len()) as nat
        } else {
            0
        },
    ) + s
}

/// The number of characters of `n` in decimal notation.
pub fn decimal_len(n: usize) -> (r: usize)
    ensures
        r == decimal(n as nat).len(),
{
    usize_to_string(n).as_str().unicode_len()
}

/// Writes `n` in decimal notation, right-aligned in `width` characters.
pub fn padded_number(n: usize, width: usize) -> (r: String)
    ensures
        r@ == right_aligned(decimal(n as nat), width as nat),
{
    let len = decimal_len(n);
    let mut out = String::new();
    if len < width {
        push_repeated(&mut out, ' ', (width - len) as u128);
    } else {
        push_repeated(&mut out, ' ', 0);
    }
    push_decimal(&mut out, n);
    out
}

} // verus!
