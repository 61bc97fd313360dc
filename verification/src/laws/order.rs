//! The order of labels and files.

use vstd::prelude::*;
use vstd::string::*;

use crate::diagnostic::LabelView;
use crate::layout;

verus! {

/// Labels whose columns do not decrease.
pub open spec fn is_sorted(labels: Seq<LabelView>) -> bool {
    forall|i: int, j: int|
        0 <= i <= j < labels.len() ==> (#[trigger] labels[i]).span.column <= (
        #[trigger] labels[j]).span.column
}

/// The labels of a given column, in their order.
pub open spec fn in_column(labels: Seq<LabelView>, column: nat) -> Seq<LabelView> {
    labels.filter(|l: LabelView| l.span.column == column)
}

proof fn lemma_inserted(sorted: Seq<LabelView>, label: LabelView)
    requires
        is_sorted(sorted),
    ensures
        is_sorted(layout::inserted(sorted, label)),
        layout::inserted(sorted, label).to_multiset() == sorted.to_multiset().insert(label),
        forall|i: int|
            0 <= i < layout::inserted(sorted, label).len() ==> {
                ||| #[trigger] layout::inserted(sorted, label)[i] == label
                ||| sorted.contains(layout::inserted(sorted, label)[i])
            },
    decreases sorted.len(),
{
    broadcast use vstd::seq_lib::group_to_multiset_ensures;

    if sorted.len() == 0 || sorted.last().span.column <= label.span.column {
        let all = sorted.push(label);
        assert forall|i: int| 0 <= i < all.len() implies (#[trigger] all[i] == label
            || sorted.contains(all[i])) by {
            if i < sorted.len() {
                assert(all[i] == sorted[i]);
            }
        }
        assert forall|i: int, j: int| 0 <= i <= j < all.len() implies (
        #[trigger] all[i]).span.column <= (#[trigger] all[j]).span.column by {
            if i < sorted.len() {
                assert(sorted[i].span.column <= sorted[sorted.len() - 1].span.column);
            }
        }
    } else {
        let t = sorted.drop_last();
        assert(is_sorted(t));
        lemma_inserted(t, label);
        let some = layout::inserted(t, label);
        let all = some.push(sorted.last());
        assert(sorted == t.push(sorted.last()));
        assert(all.to_multiset() =~= sorted.to_multiset().insert(label));
        assert forall|i: int| 0 <= i < all.len() implies (#[trigger] all[i] == label
            || sorted.contains(all[i])) by {
            if i < some.len() {
                assert(all[i] == some[i]);
                if some[i] != label {
                    let k = choose|k: int| 0 <= k < t.len() && t[k] == some[i];
                    assert(sorted[k] == all[i]);
                }
            } else {
                assert(sorted[sorted.len() - 1] == all[i]);
            }
        }
        assert forall|i: int, j: int| 0 <= i <= j < all.len() implies (
        #[trigger] all[i]).span.column <= (#[trigger] all[j]).span.column by {
            if j < some.len() {
                assert(some[i].span.column <= some[j].span.column);
            } else if i < some.len() {
                if some[i] != label {
                    let k = choose|k: int| 0 <= k < t.len() && t[k] == some[i];
                    assert(sorted[k].span.column <= sorted[sorted.len() - 1].span.column);
                }
            }
        }
    }
}

proof fn lemma_inserted_in_column(sorted: Seq<LabelView>, label: LabelView, column: nat)
    requires
        is_sorted(sorted),
    ensures
        in_column(layout::inserted(sorted, label), column) == if label.span.column == column {
            in_column(sorted, column).push(label)
        } else {
            in_column(sorted, column)
        },
    decreases sorted.len(),
{
    reveal(Seq::filter);
    if sorted.len() == 0 || sorted.last().span.column <= label.span.column {
        assert(sorted.push(label).drop_last() == sorted);
    } else {
        let t = sorted.drop_last();
        assert(is_sorted(t));
        lemma_inserted_in_column(t, label, column);
        let some = layout::inserted(t, label);
        assert(some.push(sorted.last()).drop_last() == some);
    }
}

/// Labels on a line come out sorted by column. None is lost or made up, and those of one column
/// stay in their order.
pub proof fn law_labels_are_sorted_stably(labels: Seq<LabelView>)
    ensures
        is_sorted(layout::by_column(labels)),
        layout::by_column(labels).to_multiset() == labels.to_multiset(),
        forall|column: nat|
            #[trigger] in_column(layout::by_column(labels), column) == in_column(labels, column),
    decreases labels.len(),
{
    broadcast use vstd::seq_lib::group_to_multiset_ensures;

    if labels.len() > 0 {
        let t = labels.drop_last();
        law_labels_are_sorted_stably(t);
        lemma_inserted(layout::by_column(t), labels.last());
        assert(labels == t.push(labels.last()));
        assert forall|column: nat| #[trigger] in_column(layout::by_column(labels), column)
            == in_column(labels, column) by {
            reveal(Seq::filter);
            lemma_inserted_in_column(layout::by_column(t), labels.last(), column);
            assert(in_column(layout::by_column(t), column) == in_column(t, column));
        }
    } else {
        assert(layout::by_column(labels) == labels);
    }
}

/// Every file with a label has a section, no file has two, and each section is of a file with a
/// label.
pub proof fn law_files_are_listed_once(labels: Seq<LabelView>)
    ensures
        layout::files_of(labels).no_duplicates(),
        forall|i: int|
            0 <= i < labels.len() ==> layout::files_of(labels).contains(
                (#[trigger] labels[i]).span.file,
            ),
        forall|k: int|
            0 <= k < layout::files_of(labels).len() ==> exists|i: int|
                0 <= i < labels.len() && (#[trigger] labels[i]).span.file
                    == #[trigger] layout::files_of(labels)[k],
    decreases labels.len(),
{
    if labels.len() > 0 {
        let t = labels.drop_last();
        law_files_are_listed_once(t);
        let before = layout::files_of(t);
        let now = layout::files_of(labels);
        let last = labels[labels.len() - 1];
        assert forall|i: int| 0 <= i < labels.len() implies now.contains(
            (#[trigger] labels[i]).span.file,
        ) by {
            if i < t.len() {
                assert(t[i] == labels[i]);
                let k = choose|k: int| 0 <= k < before.len() && before[k] == t[i].span.file;
                assert(now[k] == before[k]);
            } else if !before.contains(last.span.file) {
                assert(now[now.len() - 1] == last.span.file);
            }
        }
        assert forall|k: int| 0 <= k < now.len() implies exists|i: int|
            0 <= i < labels.len() && (#[trigger] labels[i]).span.file == #[trigger] now[k] by {
            if k < before.len() {
                let i = choose|i: int|
                    0 <= i < t.len() && (#[trigger] t[i]).span.file == before[k];
                assert(labels[i] == t[i]);
            } else {
                assert(labels[labels.len() - 1].span.file == now[k]);
            }
        }
    }
}

/// What a label marks begins at column 1 or later and takes at least one byte, unless it begins
/// where columns end. It ends with its line, unless it begins past the end of it.
pub proof fn law_labels_mark_something(label: LabelView, n: nat, raw: Seq<char>)
    requires
        label.span.column <= usize::MAX,
    ensures
        ({
            let (start, end) = layout::columns_on(label, n, raw);
            &&& 1 <= start
            &&& start < end || start == usize::MAX
            &&& end <= layout::max(crate::offsets::byte_len(raw) + 1, start + 1)
        }),
{
}

} // verus!
