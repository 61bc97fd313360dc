//! Splitting text into lines.

use vstd::prelude::*;
use vstd::std_specs::iter::*;
use vstd::string::*;

use crate::offsets;
use crate::offsets::{char_len, split_str};

verus! {

/// The position of the first newline of `s`, or its length where there is none.
pub open spec fn first_newline(s: Seq<char>) -> nat
    decreases s.len(),
{
    if s.len() == 0 || s[0] == '\n' {
        0
    } else {
        1 + first_newline(s.drop_first())
    }
}

/// The pieces of `s` between its newlines.
pub open spec fn pieces_of(s: Seq<char>) -> Seq<Seq<char>>
    decreases s.len(),
{
    let k = first_newline(s) as int;
    if k >= s.len() {
        seq![s]
    } else {
        seq![s.take(k)] + pieces_of(s.skip(k + 1))
    }
}

/// `s` without a carriage return at its end.
pub open spec fn without_cr(s: Seq<char>) -> Seq<char> {
    if s.len() > 0 && s.last() == '\r' {
        s.drop_last()
    } else {
        s
    }
}

/// The lines of `s`: each ends in a newline, or in a carriage return and a newline, and the last
/// may end with the text. The line endings are no part of them.
pub open spec fn lines_of(s: Seq<char>) -> Seq<Seq<char>>
    decreases s.len(),
{
    let k = first_newline(s) as int;
    if s.len() == 0 {
        seq![]
    } else if k >= s.len() {
        seq![s]
    } else {
        seq![without_cr(s.take(k))] + lines_of(s.skip(k + 1))
    }
}

/// `first_newline` is at most the length, no newline comes before it, and one stands there unless
/// it is the end.
pub proof fn lemma_first_newline(s: Seq<char>)
    ensures
        first_newline(s) <= s.len(),
        forall|i: int| 0 <= i < first_newline(s) ==> s[i] != '\n',
        first_newline(s) < s.len() ==> s[first_newline(s) as int] == '\n',
    decreases s.len(),
{
    if s.len() == 0 || s[0] == '\n' {
    } else {
        let t = s.drop_first();
        lemma_first_newline(t);
        assert forall|i: int| 0 <= i < first_newline(s) implies s[i] != '\n' by {
            if i > 0 {
                assert(s[i] == t[i - 1]);
            }
        }
    }
}

proof fn lemma_first_newline_unique(s: Seq<char>, k: int)
    requires
        0 <= k <= s.len(),
        forall|i: int| 0 <= i < k ==> s[i] != '\n',
        k < s.len() ==> s[k] == '\n',
    ensures
        first_newline(s) == k,
{
    lemma_first_newline(s);
}

/// The views of borrowed texts.
pub open spec fn texts(v: Seq<&str>) -> Seq<Seq<char>> {
    v.map_values(|t: &str| t@)
}

/// Splits off what comes before the first newline of `s`, and, where there is one, what comes
/// after it.
fn split_first_line<'a>(s: &'a str) -> (r: (&'a str, Option<&'a str>))
    ensures
        first_newline(s@) <= s@.len(),
        r.0@ == s@.take(first_newline(s@) as int),
        r.1 matches Some(rest) ==> first_newline(s@) < s@.len() && rest@ == s@.skip(
            first_newline(s@) as int + 1,
        ),
        r.1 is None ==> first_newline(s@) == s@.len(),
{
    let total = offsets::str_len(s);
    let mut at: usize = 0;
    let mut found: bool = false;
    let ghost mut k: int = 0;
    proof {
        assert(s@.take(0) == Seq::<char>::empty());
    }
    let mut chars = s.chars();
    loop
        invariant_except_break
            total == offsets::byte_len(s@),
            0 <= k <= s@.len(),
            at == offsets::byte_len(s@.take(k)),
            forall|i: int| 0 <= i < k ==> s@[i] != '\n',
            IteratorSpec::remaining(&chars) == s@.skip(k),
            !found,
        ensures
            0 <= k <= s@.len(),
            at == offsets::byte_len(s@.take(k)),
            forall|i: int| 0 <= i < k ==> s@[i] != '\n',
            found ==> k < s@.len() && s@[k] == '\n',
            !found ==> k == s@.len(),
        decreases s@.len() - k,
    {
        match chars.next() {
            None => {
                break;
            },
            Some(c) => {
                assert(s@.skip(k)[0] == s@[k]);
                if c == '\n' {
                    found = true;
                    break;
                }
                proof {
                    assert(s@.take(k + 1) == s@.take(k).push(c));
                    offsets::lemma_byte_len_push(s@.take(k), c);
                    offsets::lemma_byte_len_take_monotonic(s@, k + 1, s@.len() as int);
                    assert(s@.take(s@.len() as int) == s@);
                    assert(s@.skip(k).drop_first() == s@.skip(k + 1));
                    k = k + 1;
                }
                at = at + char_len(c);
            },
        }
    }
    proof {
        lemma_first_newline_unique(s@, k);
    }
    let (line, rest) = split_str(s, at, Ghost(k));
    if found {
        proof {
            assert(rest@.take(1) == seq!['\n']);
        }
        let one = char_len('\n');
        let after = split_str(rest, one, Ghost(1)).1;
        assert(s@.skip(k).skip(1) == s@.skip(k + 1));
        (line, Some(after))
    } else {
        (line, None)
    }
}

/// Drops a carriage return at the end of `s`.
fn strip_cr<'a>(s: &'a str) -> (r: &'a str)
    ensures
        r@ == without_cr(s@),
{
    let n = s.unicode_len();
    if n > 0 && s.get_char(n - 1) == '\r' {
        let ghost k = s@.len() - 1;
        proof {
            assert(s@ == s@.take(k).push('\r'));
            offsets::lemma_byte_len_push(s@.take(k), '\r');
        }
        let total = offsets::str_len(s);
        let one = char_len('\r');
        let r = split_str(s, total - one, Ghost(k)).0;
        assert(s@.take(k) == s@.drop_last());
        r
    } else {
        s
    }
}

/// Splits `s` at its newlines. There is always at least one piece.
pub fn split_newlines<'a>(s: &'a str) -> (r: Vec<&'a str>)
    ensures
        texts(r@) == pieces_of(s@),
{
    let mut out: Vec<&'a str> = Vec::new();
    let mut rest: &'a str = s;
    loop
        invariant_except_break
            pieces_of(s@) == texts(out@) + pieces_of(rest@),
        ensures
            texts(out@) == pieces_of(s@),
        decreases rest@.len(),
    {
        let ghost before = out@;
        let (piece, after) = split_first_line(rest);
        out.push(piece);
        assert(texts(out@) == texts(before).push(piece@));
        match after {
            None => {
                assert(rest@.take(rest@.len() as int) == rest@);
                assert(pieces_of(rest@) == seq![rest@]);
                assert(texts(out@) == texts(before) + seq![rest@]);
                break;
            },
            Some(t) => {
                assert(pieces_of(rest@) == seq![piece@] + pieces_of(t@));
                assert(texts(out@) + pieces_of(t@) == texts(before) + (seq![piece@] + pieces_of(
                    t@,
                )));
                rest = t;
            },
        }
    }
    out
}

/// Splits `s` into its lines.
pub fn split_lines<'a>(s: &'a str) -> (r: Vec<&'a str>)
    ensures
        texts(r@) == lines_of(s@),
{
    let mut out: Vec<&'a str> = Vec::new();
    let mut rest: &'a str = s;
    while !rest.is_empty()
        invariant
            lines_of(s@) == texts(out@) + lines_of(rest@),
        decreases rest@.len(),
    {
        let ghost before = out@;
        let (piece, after) = split_first_line(rest);
        match after {
            None => {
                out.push(piece);
                assert(rest@.take(rest@.len() as int) == rest@);
                assert(texts(out@) == texts(before).push(piece@));
                rest = "";
                proof {
                    reveal_strlit("");
                    assert(lines_of(rest@) == Seq::<Seq<char>>::empty());
                }
            },
            Some(t) => {
                let line = strip_cr(piece);
                out.push(line);
                assert(texts(out@) == texts(before).push(line@));
                assert(texts(out@) + lines_of(t@) == texts(before) + (seq![line@] + lines_of(t@)));
                rest = t;
            },
        }
    }
    out
}

} // verus!
