//! Byte offsets into UTF-8 text.

use vstd::prelude::*;
use vstd::string::*;
use vstd::utf8::*;

verus! {

/// The number of bytes that `s` takes in UTF-8.
pub open spec fn byte_len(s: Seq<char>) -> nat {
    encode_utf8(s).len()
}

/// The number of leading characters of `s` that lie entirely within its first `idx` bytes.
pub open spec fn chars_within(s: Seq<char>, idx: int) -> nat
    decreases s.len(),
{
    if s.len() == 0 || idx < byte_len(s.take(1)) {
        0
    } else {
        1 + chars_within(s.drop_first(), idx - byte_len(s.take(1)))
    }
}

/// The largest character boundary of `s` at or below byte `idx`.
pub open spec fn boundary_floor(s: Seq<char>, idx: int) -> nat {
    byte_len(s.take(chars_within(s, idx) as int))
}

/// What lies between two byte offsets of `s`, given in any order, each moved down to the nearest
/// character boundary.
pub open spec fn snapped_slice(s: Seq<char>, a: int, b: int) -> Seq<char> {
    let i = chars_within(s, a) as int;
    let j = chars_within(s, b) as int;
    if i <= j {
        s.subrange(i, j)
    } else {
        s.subrange(j, i)
    }
}

/// A character on its own takes the bytes of its encoding.
pub proof fn lemma_encode_one(c: char)
    ensures
        encode_utf8(seq![c]) == encode_scalar(c as u32),
        1 <= encode_scalar(c as u32).len() <= 4,
        byte_len(seq![c]) == encode_scalar(c as u32).len(),
{
    let s = seq![c];
    assert(s.drop_first() == Seq::<char>::empty());
    assert(encode_utf8(s) == encode_scalar(c as u32) + encode_utf8(s.drop_first()));
    assert(encode_utf8(s.drop_first()) == Seq::<u8>::empty());
}

/// Text is encoded character by character.
pub proof fn lemma_encode_concat(a: Seq<char>, b: Seq<char>)
    ensures
        encode_utf8(a + b) == encode_utf8(a) + encode_utf8(b),
        byte_len(a + b) == byte_len(a) + byte_len(b),
    decreases a.len(),
{
    if a.len() == 0 {
        assert(a + b == b);
    } else {
        lemma_encode_concat(a.drop_first(), b);
        assert((a + b).drop_first() == a.drop_first() + b);
    }
}

pub proof fn lemma_byte_len_push(s: Seq<char>, c: char)
    ensures
        byte_len(s.push(c)) == byte_len(s) + byte_len(seq![c]),
        1 <= byte_len(seq![c]) <= 4,
{
    lemma_encode_one(c);
    lemma_encode_concat(s, seq![c]);
    assert(s.push(c) == s + seq![c]);
}

/// Longer prefixes take more bytes.
pub proof fn lemma_byte_len_take_monotonic(s: Seq<char>, i: int, j: int)
    requires
        0 <= i <= j <= s.len(),
    ensures
        byte_len(s.take(i)) + (j - i) <= byte_len(s.take(j)),
    decreases j - i,
{
    if i < j {
        lemma_byte_len_take_monotonic(s, i, j - 1);
        lemma_byte_len_push(s.take(j - 1), s[j - 1]);
        assert(s.take(j) == s.take(j - 1).push(s[j - 1]));
    }
}

/// `chars_within` counts the prefix that fits: that prefix does, and one character more does not.
pub proof fn lemma_chars_within(s: Seq<char>, idx: int)
    ensures
        chars_within(s, idx) <= s.len(),
        0 <= idx ==> boundary_floor(s, idx) <= idx,
        chars_within(s, idx) < s.len() ==> idx < byte_len(
            s.take(chars_within(s, idx) as int + 1),
        ),
    decreases s.len(),
{
    assert(s.take(0) == Seq::<char>::empty());
    if s.len() == 0 || idx < byte_len(s.take(1)) {
    } else {
        let t = s.drop_first();
        let first = s.take(1);
        lemma_chars_within(t, idx - byte_len(first));
        let k = chars_within(t, idx - byte_len(first)) as int;
        assert(s.take(k + 1) == first + t.take(k));
        lemma_encode_concat(first, t.take(k));
        if k < t.len() {
            assert(s.take(k + 2) == first + t.take(k + 1));
            lemma_encode_concat(first, t.take(k + 1));
        }
        lemma_encode_one(s[0]);
        assert(first == seq![s[0]]);
    }
}

/// An offset that ends a prefix of `k` characters has exactly those within it.
pub proof fn lemma_chars_within_unique(s: Seq<char>, idx: int, k: int)
    requires
        0 <= k <= s.len(),
        byte_len(s.take(k)) <= idx,
        k < s.len() ==> idx < byte_len(s.take(k + 1)),
    ensures
        chars_within(s, idx) == k,
{
    lemma_chars_within(s, idx);
    let n = chars_within(s, idx) as int;
    if n < k {
        lemma_byte_len_take_monotonic(s, n + 1, k);
    } else if k < n {
        lemma_byte_len_take_monotonic(s, k + 1, n);
    }
}

/// The character boundaries of a text are the ends of its prefixes.
pub proof fn lemma_boundary_of_prefix(s: Seq<char>, k: int)
    requires
        0 <= k <= s.len(),
    ensures
        is_char_boundary(encode_utf8(s), byte_len(s.take(k)) as int),
        encode_utf8(s).subrange(0, byte_len(s.take(k)) as int) == encode_utf8(s.take(k)),
        encode_utf8(s).subrange(byte_len(s.take(k)) as int, byte_len(s) as int) == encode_utf8(
            s.skip(k),
        ),
        byte_len(s.take(k)) + byte_len(s.skip(k)) == byte_len(s),
    decreases k,
{
    broadcast use encode_utf8_valid_utf8;

    lemma_encode_concat(s.take(k), s.skip(k));
    assert(s == s.take(k) + s.skip(k));
    if k > 0 {
        let t = s.drop_first();
        let first = s.take(1);
        lemma_boundary_of_prefix(t, k - 1);
        encode_utf8_first_scalar(s);
        lemma_encode_one(s[0]);
        assert(first == seq![s[0]]);
        assert(s.take(k) == first + t.take(k - 1));
        lemma_encode_concat(first, t.take(k - 1));
        assert(pop_first_scalar(encode_utf8(s)) == encode_utf8(t));
    } else {
        assert(s.take(0) == Seq::<char>::empty());
    }
}

/// Every character boundary of a text is the end of one of its prefixes.
pub proof fn lemma_boundary_is_prefix(s: Seq<char>, idx: int) -> (k: int)
    requires
        is_char_boundary(encode_utf8(s), idx),
    ensures
        0 <= k <= s.len(),
        idx == byte_len(s.take(k)),
    decreases s.len(),
{
    broadcast use encode_utf8_valid_utf8;

    if idx == 0 {
        assert(s.take(0) == Seq::<char>::empty());
        0
    } else {
        let t = s.drop_first();
        let first = s.take(1);
        encode_utf8_first_scalar(s);
        lemma_encode_one(s[0]);
        assert(first == seq![s[0]]);
        assert(pop_first_scalar(encode_utf8(s)) == encode_utf8(t));
        let k = lemma_boundary_is_prefix(t, idx - byte_len(first));
        assert(s.take(k + 1) == first + t.take(k));
        lemma_encode_concat(first, t.take(k));
        k + 1
    }
}

/// UTF-8 tells texts apart.
pub proof fn lemma_encode_injective(a: Seq<char>, b: Seq<char>)
    requires
        encode_utf8(a) == encode_utf8(b),
    ensures
        a == b,
{
    encode_utf8_decode_utf8(a);
    encode_utf8_decode_utf8(b);
}

/// The number of bytes of `c` in UTF-8.
pub fn char_len(c: char) -> (n: usize)
    ensures
        n == byte_len(seq![c]),
        1 <= n <= 4,
{
    proof {
        lemma_encode_one(c);
    }
    if c <= '\u{7f}' {
        1
    } else if c <= '\u{7ff}' {
        2
    } else if c <= '\u{ffff}' {
        3
    } else {
        4
    }
}

/// The number of bytes of `s`.
pub fn str_len(s: &str) -> (n: usize)
    ensures
        n == byte_len(s@),
{
    s.as_bytes().len()
}

/// Splits `s` after its first `k` characters, which take `at` bytes.
pub(crate) fn split_str<'a>(s: &'a str, at: usize, Ghost(k): Ghost<int>) -> (r: (&'a str, &'a str))
    requires
        0 <= k <= s@.len(),
        at == byte_len(s@.take(k)),
    ensures
        r.0@ == s@.take(k),
        r.1@ == s@.skip(k),
{
    proof {
        lemma_boundary_of_prefix(s@, k);
    }
    let r = s.split_at(at);
    proof {
        lemma_encode_injective(r.0@, s@.take(k));
        lemma_encode_injective(r.1@, s@.skip(k));
    }
    r
}

/// Snaps `idx` down to the nearest character boundary of `s`.
///
/// Untrusted `column` and `length` fields yield byte offsets that may land inside a multi-byte
/// character, where slicing would panic.
pub fn floor_char_boundary(s: &str, idx: usize) -> (r: usize)
    ensures
        r == boundary_floor(s@, idx as int),
        r <= idx,
        is_char_boundary(s.spec_bytes(), r as int),
        forall|j: int|
            r < j <= idx ==> !(#[trigger] is_char_boundary(s.spec_bytes(), j)),
{
    broadcast use {encode_utf8_valid_utf8, is_char_boundary_start_end_of_seq};

    let len = str_len(s);
    let mut i: usize = if idx < len {
        idx
    } else {
        len
    };
    while i > 0 && !s.is_char_boundary(i)
        invariant
            i <= len,
            i <= idx,
            len == byte_len(s@),
            forall|j: int|
                i < j <= idx ==> !(#[trigger] is_char_boundary(s.spec_bytes(), j)),
        decreases i,
    {
        i -= 1;
    }
    proof {
        let k = lemma_boundary_is_prefix(s@, i as int);
        if k < s@.len() && byte_len(s@.take(k + 1)) <= idx {
            lemma_boundary_of_prefix(s@, k + 1);
            lemma_byte_len_take_monotonic(s@, k, k + 1);
        }
        lemma_chars_within_unique(s@, idx as int, k);
    }
    i
}

/// Takes `s[start..end]` with both offsets clamped and snapped to character boundaries, and with
/// the two exchanged where `end` comes first.
pub fn safe_slice<'a>(s: &'a str, start: usize, end: usize) -> (r: &'a str)
    ensures
        r@ == snapped_slice(s@, start as int, end as int),
{
    let mut start_at = floor_char_boundary(s, start);
    let mut end_at = floor_char_boundary(s, end);
    let ghost mut i = chars_within(s@, start as int) as int;
    let ghost mut j = chars_within(s@, end as int) as int;
    proof {
        lemma_chars_within(s@, start as int);
        lemma_chars_within(s@, end as int);
        if i < j {
            lemma_byte_len_take_monotonic(s@, i, j);
        } else if j < i {
            lemma_byte_len_take_monotonic(s@, j, i);
        }
    }
    if end_at < start_at {
        std::mem::swap(&mut start_at, &mut end_at);
        proof {
            let t = i;
            i = j;
            j = t;
        }
    }
    let upto = split_str(s, end_at, Ghost(j)).0;
    assert(upto@.take(i) == s@.take(i));
    let r = split_str(upto, start_at, Ghost(i)).1;
    assert(r@ == s@.subrange(i, j));
    r
}

} // verus!
