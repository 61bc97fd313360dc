//! Columns of text on a terminal.

use unicode_width::UnicodeWidthStr;
use vstd::prelude::*;
use vstd::std_specs::iter::*;
use vstd::string::*;

use crate::offsets;
use crate::offsets::char_len;

verus! {

/// The number of columns in which `unicode_width` shows a text.
pub uninterp spec fn display_width(s: Seq<char>) -> nat;

/// Text of the ASCII characters from the space to the tilde.
pub open spec fn is_printable_ascii(s: Seq<char>) -> bool {
    forall|i: int| 0 <= i < s.len() ==> ' ' <= #[trigger] s[i] <= '~'
}

/// `UnicodeWidthStr::width`: the columns of `s`. The result depends on the text alone, and each
/// printable ASCII character of a text that holds no others takes one column.
#[verifier::external_body]
fn str_width(s: &str) -> (w: usize)
    ensures
        w == display_width(s@),
        is_printable_ascii(s@) ==> w == s@.len(),
{
    UnicodeWidthStr::width(s)
}

/// The columns of a character on its own.
pub open spec fn char_columns(c: char) -> nat {
    display_width(seq![c])
}

/// How far `c` moves a cursor that stands at column `col`: a tab to the next tab stop, any other
/// character by its own width.
pub open spec fn advance(c: char, col: nat, tab_width: nat) -> nat {
    if c != '\t' {
        char_columns(c)
    } else if tab_width == 0 {
        0
    } else {
        (tab_width - col % tab_width) as nat
    }
}

/// The column that is reached when `s` is written from column 0.
pub open spec fn columns(s: Seq<char>, tab_width: nat) -> nat
    decreases s.len(),
{
    if s.len() == 0 {
        0
    } else {
        columns(s.drop_last(), tab_width) + advance(
            s.last(),
            columns(s.drop_last(), tab_width),
            tab_width,
        )
    }
}

/// `n` times the character `c`.
pub open spec fn repeated(c: char, n: nat) -> Seq<char> {
    Seq::new(n, |i: int| c)
}

/// `s` with each tab replaced by the spaces up to the next tab stop.
pub open spec fn expanded(s: Seq<char>, tab_width: nat) -> Seq<char>
    decreases s.len(),
{
    if s.len() == 0 {
        seq![]
    } else if s.last() == '\t' {
        expanded(s.drop_last(), tab_width) + repeated(
            ' ',
            advance('\t', columns(s.drop_last(), tab_width), tab_width),
        )
    } else {
        expanded(s.drop_last(), tab_width).push(s.last())
    }
}

/// The number of characters of `s` that begin before byte `offset`.
pub open spec fn chars_started(s: Seq<char>, offset: int) -> nat
    decreases s.len(),
{
    if s.len() == 0 || offset <= 0 {
        0
    } else {
        1 + chars_started(s.drop_first(), offset - offsets::byte_len(s.take(1)))
    }
}

/// The number of leading characters of `s` whose columns, added up, are at most `room`.
pub open spec fn chars_fitting(s: Seq<char>, room: int) -> nat
    decreases s.len(),
{
    if s.len() == 0 || char_columns(s[0]) > room {
        0
    } else {
        1 + chars_fitting(s.drop_first(), room - char_columns(s[0]))
    }
}

/// `s`, or, where it is wider than `max`, what fits beside an ellipsis. A `max` of 0 sets no limit.
pub open spec fn truncated(s: Seq<char>, max: nat) -> Seq<char> {
    if max == 0 || display_width(s) <= max {
        s
    } else {
        s.take(chars_fitting(s, max - 1) as int).push('…')
    }
}

/// `chars_started` counts the characters before the first that begins at or after `offset`.
pub proof fn lemma_chars_started(s: Seq<char>, offset: int)
    ensures
        chars_started(s, offset) <= s.len(),
        forall|i: int|
            0 <= i < s.len() ==> (i < chars_started(s, offset) <==> #[trigger] offsets::byte_len(
                s.take(i),
            ) < offset),
    decreases s.len(),
{
    assert(s.take(0) == Seq::<char>::empty());
    if s.len() > 0 {
        let t = s.drop_first();
        let first = s.take(1);
        let rest = offset - offsets::byte_len(first);
        lemma_chars_started(t, rest);
        assert forall|i: int| 0 <= i < s.len() implies (i < chars_started(s, offset)
            <==> #[trigger] offsets::byte_len(s.take(i)) < offset) by {
            if i > 0 {
                assert(s.take(i) == first + t.take(i - 1));
                offsets::lemma_encode_concat(first, t.take(i - 1));
            }
        }
    }
}

/// In printable ASCII, characters are counted as bytes are.
proof fn lemma_ascii_offsets(s: Seq<char>)
    requires
        is_printable_ascii(s),
    ensures
        forall|i: int|
            0 <= i <= s.len() ==> #[trigger] chars_started(s, i) == i,
{
    assert forall|i: int| 0 <= i <= s.len() implies #[trigger] chars_started(s, i) == i by {
        lemma_ascii_chars_started(s, i);
    }
}

proof fn lemma_ascii_chars_started(s: Seq<char>, i: int)
    requires
        is_printable_ascii(s),
        0 <= i <= s.len(),
    ensures
        chars_started(s, i) == i,
    decreases s.len(),
{
    if i > 0 {
        let first = s.take(1);
        assert(first == seq![s[0]]);
        offsets::lemma_encode_one(s[0]);
        assert(s[0] <= '~');
        lemma_ascii_chars_started(s.drop_first(), i - 1);
    }
}

/// The columns of one character.
fn char_width(c: char) -> (w: usize)
    ensures
        w == char_columns(c),
        ' ' <= c <= '~' ==> w == 1,
{
    let mut one = String::new();
    one.push(c);
    assert(one@ == seq![c]);
    str_width(one.as_str())
}

/// How far `c` moves a cursor at `col`.
fn step(c: char, col: u128, tab_width: usize) -> (n: u128)
    ensures
        n == advance(c, col as nat, tab_width as nat),
        ' ' <= c <= '~' ==> n == 1,
        n <= 0xffff_ffff_ffff_ffff,
{
    if c != '\t' {
        char_width(c) as u128
    } else if tab_width == 0 {
        0
    } else {
        let stop: u128 = tab_width as u128;
        stop - col % stop
    }
}

/// Appends `n` times `c` to `out`.
pub(crate) fn push_repeated(out: &mut String, c: char, n: u128)
    ensures
        final(out)@ == old(out)@ + repeated(c, n as nat),
{
    let mut i: u128 = 0;
    assert(out@ == old(out)@ + repeated(c, 0));
    while i < n
        invariant
            i <= n,
            out@ == old(out)@ + repeated(c, i as nat),
        decreases n - i,
    {
        out.push(c);
        i += 1;
        assert(out@ == old(out)@ + repeated(c, i as nat));
    }
}

/// Replaces the tabs of `line` by spaces up to the next multiple of `tab_width` columns.
pub fn expand_tabs(line: &str, tab_width: usize) -> (r: String)
    ensures
        r@ == expanded(line@, tab_width as nat),
{
    let n = line.unicode_len();
    let mut out = String::new();
    let mut col: u128 = 0;
    for c in it: line.chars()
        invariant
            it.seq() == line@,
            n == line@.len(),
            col == columns(line@.take(it.index() as int), tab_width as nat),
            col <= it.index() * 0xffff_ffff_ffff_ffff,
            out@ == expanded(line@.take(it.index() as int), tab_width as nat),
    {
        assert(line@.take(it.index() + 1).drop_last() == line@.take(it.index() as int));
        let n_cols = step(c, col, tab_width);
        if c == '\t' {
            push_repeated(&mut out, ' ', n_cols);
        } else {
            out.push(c);
        }
        col = col + n_cols;
    }
    assert(line@.take(line@.len() as int) == line@);
    out
}

/// Cuts `line` to at most `max` columns, with an ellipsis for what is left out.
pub fn truncate_line(line: &str, max: usize) -> (r: String)
    ensures
        r@ == truncated(line@, max as nat),
        is_printable_ascii(line@) ==> r@ == (if max == 0 || line@.len() <= max {
            line@
        } else {
            line@.take(max - 1).push('…')
        }),
{
    if max == 0 {
        return line.to_owned();
    }
    let w = str_width(line);
    if w <= max {
        return line.to_owned();
    }
    let mut out = String::new();
    let mut acc: usize = 0;
    let ghost mut k: int = 0;
    let mut chars = line.chars();
    assert(line@.skip(0) == line@);
    assert(line@.take(0) == out@);
    loop
        invariant_except_break
            0 <= k <= line@.len(),
            acc < max,
            IteratorSpec::remaining(&chars) == line@.skip(k),
            out@ == line@.take(k),
            chars_fitting(line@, max - 1) == k + chars_fitting(line@.skip(k), max - 1 - acc),
            is_printable_ascii(line@) ==> acc == k && max < line@.len(),
        ensures
            0 <= k <= line@.len(),
            out@ == line@.take(k),
            k == chars_fitting(line@, max - 1),
            is_printable_ascii(line@) ==> k == max - 1,
        decreases line@.len() - k,
    {
        match chars.next() {
            None => {
                break;
            },
            Some(c) => {
                assert(line@.skip(k)[0] == line@[k]);
                let cw = char_width(c);
                if cw >= max - acc {
                    break;
                }
                out.push(c);
                acc = acc + cw;
                proof {
                    assert(line@.skip(k).drop_first() == line@.skip(k + 1));
                    assert(line@.take(k + 1) == line@.take(k).push(c));
                    k = k + 1;
                }
            },
        }
    }
    out.push('…');
    out
}

/// The columns of what of `line` begins before byte `byte_offset_0based`.
pub fn display_width_prefix(line: &str, byte_offset_0based: usize, tab_width: usize) -> (r: u128)
    ensures
        r == columns(
            line@.take(chars_started(line@, byte_offset_0based as int) as int),
            tab_width as nat,
        ),
        is_printable_ascii(line@) && byte_offset_0based <= line@.len() ==> r == byte_offset_0based,
{
    assert(line@.take(0) == Seq::<char>::empty());
    display_width_range(line, 0, byte_offset_0based, tab_width)
}

/// The columns of what of `line` begins at byte `start_byte_0based` or after it, and before
/// `end_byte_0based`. Tab stops count from the start of that range.
pub fn display_width_range(
    line: &str,
    start_byte_0based: usize,
    end_byte_0based: usize,
    tab_width: usize,
) -> (r: u128)
    ensures
        end_byte_0based <= start_byte_0based ==> r == 0,
        start_byte_0based < end_byte_0based ==> r == columns(
            line@.subrange(
                chars_started(line@, start_byte_0based as int) as int,
                chars_started(line@, end_byte_0based as int) as int,
            ),
            tab_width as nat,
        ),
        is_printable_ascii(line@) && start_byte_0based <= end_byte_0based <= line@.len() ==> r
            == end_byte_0based - start_byte_0based,
{
    if end_byte_0based <= start_byte_0based {
        return 0;
    }
    let total = offsets::str_len(line);
    let n = line.unicode_len();
    let mut width: u128 = 0;
    let mut byte_seen: usize = 0;
    let ghost a = chars_started(line@, start_byte_0based as int) as int;
    let ghost b = chars_started(line@, end_byte_0based as int) as int;
    let ghost mut k: int = 0;
    let mut chars = line.chars();
    proof {
        lemma_chars_started(line@, start_byte_0based as int);
        lemma_chars_started(line@, end_byte_0based as int);
        assert(line@.take(0) == Seq::<char>::empty());
        if is_printable_ascii(line@) {
            lemma_ascii_offsets(line@);
        }
        if b < a {
            assert(offsets::byte_len(line@.take(b)) < start_byte_0based);
        }
        assert(line@.subrange(a, a) == Seq::<char>::empty());
    }
    loop
        invariant_except_break
            0 <= k <= b,
            byte_seen == offsets::byte_len(line@.take(k)),
            IteratorSpec::remaining(&chars) == line@.skip(k),
            width == columns(line@.subrange(a, if k < a { a } else { k }), tab_width as nat),
            width <= k * 0xffff_ffff_ffff_ffff,
            is_printable_ascii(line@) ==> width == (if k < a {
                0
            } else {
                k - a
            }),
        invariant
            start_byte_0based < end_byte_0based,
            total == offsets::byte_len(line@),
            n == line@.len(),
            a == chars_started(line@, start_byte_0based as int),
            b == chars_started(line@, end_byte_0based as int),
            0 <= a <= b <= line@.len(),
            forall|i: int|
                0 <= i < line@.len() ==> (i < a <==> #[trigger] offsets::byte_len(line@.take(i))
                    < start_byte_0based),
            forall|i: int|
                0 <= i < line@.len() ==> (i < b <==> #[trigger] offsets::byte_len(line@.take(i))
                    < end_byte_0based),
        ensures
            width == columns(line@.subrange(a, b), tab_width as nat),
            is_printable_ascii(line@) ==> width == b - a,
        decreases line@.len() - k,
    {
        match chars.next() {
            None => {
                break;
            },
            Some(c) => {
                assert(line@.skip(k)[0] == line@[k]);
                if byte_seen >= end_byte_0based {
                    break;
                }
                if byte_seen >= start_byte_0based {
                    assert(line@.subrange(a, k + 1).drop_last() == line@.subrange(a, k));
                    width = width + step(c, width, tab_width);
                }
                proof {
                    assert(line@.take(k + 1) == line@.take(k).push(c));
                    offsets::lemma_byte_len_push(line@.take(k), c);
                    offsets::lemma_byte_len_take_monotonic(line@, k + 1, line@.len() as int);
                    assert(line@.take(line@.len() as int) == line@);
                    assert(line@.skip(k).drop_first() == line@.skip(k + 1));
                    k = k + 1;
                }
                byte_seen = byte_seen + char_len(c);
            },
        }
    }
    width
}

} // verus!
