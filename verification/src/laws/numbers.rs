//! Numbers as they are written.

use vstd::prelude::*;
use vstd::string::*;

use crate::layout;
use crate::text;

verus! {

/// The number that a sequence of decimal digits stands for.
pub open spec fn value_of(digits: Seq<char>) -> int
    decreases digits.len(),
{
    if digits.len() == 0 {
        0
    } else {
        value_of(digits.drop_last()) * 10 + (digits.last() as int - '0' as int)
    }
}

/// A number is written with the digits whose value it is, without leading zeros.
pub proof fn law_decimal_stands_for_its_number(n: nat)
    ensures
        value_of(text::decimal(n)) == n,
        text::decimal(n).len() > 0,
        text::decimal(n)[0] == '0' ==> n == 0 && text::decimal(n).len() == 1,
        forall|i: int|
            0 <= i < text::decimal(n).len() ==> '0' <= #[trigger] text::decimal(n)[i] <= '9',
    decreases n,
{
    let all = text::decimal(n);
    if n < 10 {
        assert(all.drop_last() == Seq::<char>::empty());
        assert(value_of(Seq::<char>::empty()) == 0);
        assert(all.last() == text::digit(n));
    } else {
        let most = text::decimal(n / 10);
        law_decimal_stands_for_its_number(n / 10);
        assert(all.drop_last() == most);
        assert(all.last() == text::digit(n % 10));
        assert(all[0] == most[0]);
        assert forall|i: int| 0 <= i < all.len() implies '0' <= #[trigger] all[i] <= '9' by {
            if i < most.len() {
                assert(all[i] == most[i]);
            }
        }
    }
}

/// Aligned text stands at the right, behind spaces, and is cut nowhere.
pub proof fn law_aligned_text_stands_at_the_right(s: Seq<char>, width: nat)
    ensures
        text::right_aligned(s, width).len() == if s.len() < width {
            width
        } else {
            s.len()
        },
        text::right_aligned(s, width).skip(text::right_aligned(s, width).len() - s.len()) == s,
        forall|i: int|
            0 <= i < text::right_aligned(s, width).len() - s.len() ==> (
            #[trigger] text::right_aligned(s, width)[i]) == ' ',
{
}

proof fn lemma_decimal_len_monotonic(a: nat, b: nat)
    requires
        a <= b,
    ensures
        text::decimal(a).len() <= text::decimal(b).len(),
    decreases b,
{
    if a >= 10 {
        lemma_decimal_len_monotonic(a / 10, b / 10);
    } else {
        assert(text::decimal(b).len() >= 1);
    }
}

/// A gutter is wide enough for every number up to its last, and no wider than that last number and
/// two columns ask.
pub proof fn law_gutter_fits_its_numbers(last: nat)
    ensures
        layout::gutter_width(last) >= 2,
        layout::gutter_width(last) == 2 || layout::gutter_width(last) == text::decimal(last).len(),
        forall|n: nat|
            n <= last ==> (#[trigger] text::decimal(n)).len() <= layout::gutter_width(last),
{
    assert forall|n: nat| n <= last implies (#[trigger] text::decimal(n)).len()
        <= layout::gutter_width(last) by {
        lemma_decimal_len_monotonic(n, last);
    }
}

} // verus!
