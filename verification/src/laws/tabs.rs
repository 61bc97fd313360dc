//! Tabs and cut lines.

use vstd::prelude::*;
use vstd::string::*;

use crate::layout;
use crate::layout::Setting;
use crate::text;
use crate::width;

verus! {

/// Expanded text holds no tab.
pub proof fn law_expanded_text_holds_no_tab(s: Seq<char>, tab_width: nat)
    ensures
        forall|i: int|
            0 <= i < width::expanded(s, tab_width).len() ==> #[trigger] width::expanded(
                s,
                tab_width,
            )[i] != '\t',
    decreases s.len(),
{
    if s.len() > 0 {
        let before = width::expanded(s.drop_last(), tab_width);
        let all = width::expanded(s, tab_width);
        law_expanded_text_holds_no_tab(s.drop_last(), tab_width);
        assert forall|i: int| 0 <= i < all.len() implies #[trigger] all[i] != '\t' by {
            if i < before.len() {
                assert(all[i] == before[i]);
            }
        }
    }
}

/// Text without tabs stays as it is.
pub proof fn law_text_without_tabs_stays(s: Seq<char>, tab_width: nat)
    requires
        forall|i: int| 0 <= i < s.len() ==> #[trigger] s[i] != '\t',
    ensures
        width::expanded(s, tab_width) == s,
    decreases s.len(),
{
    if s.len() > 0 {
        let t = s.drop_last();
        assert forall|i: int| 0 <= i < t.len() implies #[trigger] t[i] != '\t' by {
            assert(t[i] == s[i]);
        }
        law_text_without_tabs_stays(t, tab_width);
        assert(s[s.len() - 1] != '\t');
    }
}

/// A tab always moves to a tab stop, and always to a later column.
pub proof fn law_tabs_reach_tab_stops(s: Seq<char>, tab_width: nat)
    requires
        tab_width > 0,
    ensures
        width::columns(s.push('\t'), tab_width) % tab_width == 0,
        width::columns(s, tab_width) < width::columns(s.push('\t'), tab_width),
        width::columns(s.push('\t'), tab_width) <= width::columns(s, tab_width) + tab_width,
{
    let col = width::columns(s, tab_width);
    assert(s.push('\t').drop_last() == s);
    vstd::arithmetic::div_mod::lemma_fundamental_div_mod(col as int, tab_width as int);
    let q = col / tab_width;
    assert(col + (tab_width - col % tab_width) == tab_width * q + tab_width);
    assert((tab_width * q + tab_width) % tab_width == 0) by (nonlinear_arith)
        requires
            tab_width > 0,
    ;
}

/// The columns of the characters of `s`, each on its own.
pub open spec fn sum_of_columns(s: Seq<char>) -> nat
    decreases s.len(),
{
    if s.len() == 0 {
        0
    } else {
        width::display_width(seq![s[0]]) + sum_of_columns(s.drop_first())
    }
}

pub(crate) proof fn lemma_fitting(s: Seq<char>, room: int)
    ensures
        width::chars_fitting(s, room) <= s.len(),
        0 <= room ==> sum_of_columns(s.take(width::chars_fitting(s, room) as int)) <= room,
        width::chars_fitting(s, room) < s.len() ==> room < sum_of_columns(
            s.take(width::chars_fitting(s, room) as int + 1),
        ),
    decreases s.len(),
{
    if s.len() > 0 {
        let first = width::char_columns(s[0]);
        if first > room {
            let one = s.take(1);
            assert(one.drop_first() == Seq::<char>::empty());
            assert(sum_of_columns(Seq::<char>::empty()) == 0);
        } else {
            let t = s.drop_first();
            lemma_fitting(t, room - first);
            let k = width::chars_fitting(t, room - first) as int;
            assert(s.take(k + 1).drop_first() == t.take(k));
            if k < t.len() {
                assert(s.take(k + 2).drop_first() == t.take(k + 1));
            }
        }
    }
}

/// What is left of a line that is too wide leaves room for the ellipsis, and one character more
/// would not.
pub proof fn law_cut_line_fits(s: Seq<char>, max: nat)
    ensures
        0 < max < width::display_width(s) ==> {
            let kept = width::chars_fitting(s, max - 1) as int;
            &&& 0 <= kept <= s.len()
            &&& width::truncated(s, max) == s.take(kept).push('…')
            &&& sum_of_columns(s.take(kept)) + 1 <= max
            &&& kept < s.len() ==> max < sum_of_columns(s.take(kept + 1)) + 1
        },
{
    lemma_fitting(s, max - 1);
}

/// A line that is not too wide is not cut, and a limit of 0 cuts none.
pub proof fn law_fitting_line_stays(s: Seq<char>, max: nat)
    ensures
        max == 0 || width::display_width(s) <= max ==> width::truncated(s, max) == s,
{
}

proof fn lemma_spaces_fill_columns(s: Seq<char>, n: nat, tab_width: nat)
    requires
        width::char_columns(' ') == 1,
    ensures
        width::columns(s + width::repeated(' ', n), tab_width) == width::columns(s, tab_width) + n,
    decreases n,
{
    let all = s + width::repeated(' ', n);
    if n == 0 {
        assert(all == s);
    } else {
        lemma_spaces_fill_columns(s, (n - 1) as nat, tab_width);
        assert(all.drop_last() == s + width::repeated(' ', (n - 1) as nat));
    }
}

/// Expanding tabs moves nothing: where a space takes one column, text ends in the same column
/// before and after. Carets that are placed by the one therefore stand below the other.
pub proof fn law_expanding_keeps_columns(s: Seq<char>, tab_width: nat)
    ensures
        width::char_columns(' ') == 1 ==> width::columns(width::expanded(s, tab_width), tab_width)
            == width::columns(s, tab_width),
    decreases s.len(),
{
    if s.len() > 0 && width::char_columns(' ') == 1 {
        let t = s.drop_last();
        let before = width::expanded(t, tab_width);
        law_expanding_keeps_columns(t, tab_width);
        if s.last() == '\t' {
            lemma_spaces_fill_columns(
                before,
                width::advance('\t', width::columns(t, tab_width), tab_width),
                tab_width,
            );
        } else {
            assert(before.push(s.last()).drop_last() == before);
        }
    }
}

/// Text is as wide as its characters on their own, but for its tabs.
pub proof fn law_columns_add_up(s: Seq<char>, c: char, tab_width: nat)
    ensures
        width::columns(Seq::<char>::empty(), tab_width) == 0,
        c != '\t' ==> width::columns(s.push(c), tab_width) == width::columns(s, tab_width)
            + width::display_width(seq![c]),
        c == '\t' && tab_width == 0 ==> width::columns(s.push(c), tab_width) == width::columns(
            s,
            tab_width,
        ),
{
    assert(s.push(c).drop_last() == s);
}

/// Expanding goes character by character: a tab becomes spaces, as many as it moves the cursor, and
/// every other character stays.
pub proof fn law_only_tabs_are_expanded(s: Seq<char>, c: char, tab_width: nat)
    ensures
        width::expanded(Seq::<char>::empty(), tab_width) == Seq::<char>::empty(),
        c != '\t' ==> width::expanded(s.push(c), tab_width) == width::expanded(s, tab_width).push(c),
        c == '\t' ==> {
            let before = width::expanded(s, tab_width);
            let after = width::expanded(s.push(c), tab_width);
            &&& after.len() - before.len() == width::columns(s.push(c), tab_width)
                - width::columns(s, tab_width)
            &&& after.take(before.len() as int) == before
            &&& forall|i: int| before.len() <= i < after.len() ==> #[trigger] after[i] == ' '
        },
{
    assert(s.push(c).drop_last() == s);
}

/// A line is shown with its tabs expanded. With a maximum width it is shown whole where it takes no
/// more columns than that as it is shown, and otherwise as the longest part from its start that
/// leaves a column for the ellipsis behind it.
pub proof fn law_shown_line_keeps_to_the_maximum(raw: Seq<char>, st: Setting)
    ensures
        ({
            let whole = width::expanded(text::sanitized(raw, true), st.tab_width);
            let max = st.max_line_width;
            let shown = layout::shown_line(raw, st);
            if max == 0 || width::display_width(whole) <= max {
                shown == whole
            } else {
                exists|k: int|
                    {
                        &&& 0 <= k <= whole.len()
                        &&& shown == #[trigger] whole.take(k) + seq!['…']
                        &&& sum_of_columns(whole.take(k)) + 1 <= max
                        &&& k < whole.len() ==> max < sum_of_columns(whole.take(k + 1)) + 1
                    }
            }
        }),
        forall|i: int|
            0 <= i < layout::shown_line(raw, st).len() ==> #[trigger] layout::shown_line(raw, st)[i]
                != '\t',
{
    let whole = width::expanded(text::sanitized(raw, true), st.tab_width);
    let max = st.max_line_width;
    let shown = layout::shown_line(raw, st);
    law_expanded_text_holds_no_tab(text::sanitized(raw, true), st.tab_width);
    if 0 < max < width::display_width(whole) {
        law_cut_line_fits(whole, max);
        let k = width::chars_fitting(whole, max - 1) as int;
        assert(shown == whole.take(k) + seq!['…']);
        assert forall|i: int| 0 <= i < shown.len() implies #[trigger] shown[i] != '\t' by {
            if i < k {
                assert(shown[i] == whole[i]);
            }
        }
    }
}

/// The columns of text without tabs are those of its characters on their own.
proof fn lemma_sum_of_columns(s: Seq<char>)
    ensures
        sum_of_columns(Seq::<char>::empty()) == 0,
        s.len() > 0 ==> sum_of_columns(s) == sum_of_columns(s.drop_last()) + width::display_width(
            seq![s.last()],
        ),
    decreases s.len(),
{
    if s.len() == 1 {
        assert(s.drop_first() == Seq::<char>::empty());
        assert(s.drop_last() == Seq::<char>::empty());
    } else if s.len() > 1 {
        lemma_sum_of_columns(s.drop_first());
        assert(s.drop_first().drop_last() == s.drop_last().drop_first());
        assert(s.drop_last()[0] == s[0]);
    }
}

/// Where the ellipsis takes one column, a line that is cut is shown in no more columns than the
/// maximum, counted as carets are placed.
pub proof fn law_shown_columns_keep_to_the_maximum(raw: Seq<char>, st: Setting)
    ensures
        ({
            let shown = layout::shown_line(raw, st);
            let whole = width::expanded(text::sanitized(raw, true), st.tab_width);
            0 < st.max_line_width < width::display_width(whole) && width::display_width(seq!['…'])
                == 1 ==> width::columns(shown, st.tab_width) <= st.max_line_width
        }),
{
    let whole = width::expanded(text::sanitized(raw, true), st.tab_width);
    let max = st.max_line_width;
    let shown = layout::shown_line(raw, st);
    if 0 < max < width::display_width(whole) && width::display_width(seq!['…']) == 1 {
        law_shown_line_keeps_to_the_maximum(raw, st);
        let k = choose|k: int|
            {
                &&& 0 <= k <= whole.len()
                &&& shown == #[trigger] whole.take(k) + seq!['…']
                &&& sum_of_columns(whole.take(k)) + 1 <= max
                &&& k < whole.len() ==> max < sum_of_columns(whole.take(k + 1)) + 1
            };
        let kept = whole.take(k);
        law_expanded_text_holds_no_tab(text::sanitized(raw, true), st.tab_width);
        assert forall|i: int| 0 <= i < kept.len() implies #[trigger] kept[i] != '\t' by {
            assert(kept[i] == whole[i]);
        }
        lemma_columns_without_tabs(kept, st.tab_width);
        assert(shown == kept.push('…'));
        law_columns_add_up(kept, '…', st.tab_width);
    }
}

proof fn lemma_columns_without_tabs(s: Seq<char>, tab_width: nat)
    requires
        forall|i: int| 0 <= i < s.len() ==> #[trigger] s[i] != '\t',
    ensures
        width::columns(s, tab_width) == sum_of_columns(s),
    decreases s.len(),
{
    lemma_sum_of_columns(s);
    if s.len() > 0 {
        let t = s.drop_last();
        assert forall|i: int| 0 <= i < t.len() implies #[trigger] t[i] != '\t' by {
            assert(t[i] == s[i]);
        }
        lemma_columns_without_tabs(t, tab_width);
        assert(s[s.len() - 1] != '\t');
    } else {
        assert(s == Seq::<char>::empty());
    }
}

} // verus!
