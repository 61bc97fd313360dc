//! The sections of a diagnostic, one per file.

use vstd::prelude::*;
use vstd::string::*;

use crate::diagnostic::{LabelStyle, LabelView};
use crate::document::RunView;
use crate::laws::order;
use crate::layout;
use crate::layout::Setting;
use crate::style::TextStyle;

verus! {

/// Whether label `k` stands for all of them: it is primary and none before it is, or it is the first
/// and none is primary.
pub open spec fn stands_for(labels: Seq<LabelView>, k: int) -> bool {
    &&& 0 <= k < labels.len()
    &&& {
        ||| labels[k].style == LabelStyle::Primary && forall|i: int|
            0 <= i < k ==> (#[trigger] labels[i]).style != LabelStyle::Primary
        ||| k == 0 && forall|i: int|
            0 <= i < labels.len() ==> (#[trigger] labels[i]).style != LabelStyle::Primary
    }
}

/// The label that heads a file is its first primary one, or its first where none is primary.
pub proof fn law_first_primary_label_leads(labels: Seq<LabelView>)
    requires
        labels.len() > 0,
    ensures
        exists|k: int| #[trigger]
            stands_for(labels, k) && layout::leading_label(labels) == labels[k],
        forall|k: int| #[trigger]
            stands_for(labels, k) ==> layout::leading_label(labels) == labels[k],
{
    layout::lemma_first_primary(labels);
    let f = layout::first_primary(labels) as int;
    let k = if f < labels.len() {
        f
    } else {
        0
    };
    assert(stands_for(labels, k));
    assert forall|j: int| #[trigger] stands_for(labels, j) implies layout::leading_label(labels)
        == labels[j] by {
        if f < labels.len() {
            assert(labels[f].style == LabelStyle::Primary);
            if j < f {
                assert(labels[j].style != LabelStyle::Primary);
            }
        }
    }
}

/// Files come in the order in which labels first name them: before the first label of a file, labels
/// name only the files before it.
pub proof fn law_files_come_in_order(labels: Seq<LabelView>, k: int)
    requires
        0 <= k < layout::files_of(labels).len(),
    ensures
        exists|i: int|
            {
                &&& 0 <= i < labels.len()
                &&& (#[trigger] labels[i]).span.file == layout::files_of(labels)[k]
                &&& forall|j: int|
                    0 <= j < i ==> layout::files_of(labels).take(k).contains(
                        (#[trigger] labels[j]).span.file,
                    )
            },
    decreases labels.len(),
{
    let t = labels.drop_last();
    let before = layout::files_of(t);
    let now = layout::files_of(labels);
    if k < before.len() {
        law_files_come_in_order(t, k);
        let i = choose|i: int|
            {
                &&& 0 <= i < t.len()
                &&& (#[trigger] t[i]).span.file == before[k]
                &&& forall|j: int|
                    0 <= j < i ==> before.take(k).contains((#[trigger] t[j]).span.file)
            };
        assert(labels[i] == t[i]);
        assert(now.take(k) == before.take(k));
        assert forall|j: int| 0 <= j < i implies now.take(k).contains(
            (#[trigger] labels[j]).span.file,
        ) by {
            assert(labels[j] == t[j]);
        }
    } else {
        let i = labels.len() - 1;
        order::law_files_are_listed_once(t);
        assert(now.take(k) == before);
        assert(labels[i].span.file == now[k]);
        assert forall|j: int| 0 <= j < i implies now.take(k).contains(
            (#[trigger] labels[j]).span.file,
        ) by {
            assert(labels[j] == t[j]);
        }
    }
}

/// The sections of files, each with the location of the label that stands for the file before it,
/// and a blank line behind it unless it is the last.
pub open spec fn sections(labels: Seq<LabelView>, st: Setting, n: nat) -> Seq<Seq<RunView>> {
    let files = layout::files_of(labels);
    Seq::new(
        n,
        |k: int|
            {
                let mine = labels.filter(|l: LabelView| l.span.file == files[k]);
                layout::location(layout::leading_label(mine)) + layout::file_section(mine, st) + (
                if k == files.len() - 1 {
                    Seq::<RunView>::empty()
                } else {
                    seq![("\n"@, TextStyle::Plain)]
                })
            },
    )
}

proof fn lemma_sections(labels: Seq<LabelView>, st: Setting, n: nat)
    requires
        n <= layout::files_of(labels).len(),
    ensures
        layout::file_blocks(labels, st, n) == sections(labels, st, n).flatten(),
    decreases n,
{
    broadcast use Seq::lemma_flatten_push;

    let files = layout::files_of(labels);
    if n > 0 {
        let m = (n - 1) as nat;
        lemma_sections(labels, st, m);
        let mine = layout::labels_in(labels, files[m as int]);
        let place = layout::location(layout::leading_label(mine));
        let section = layout::file_section(mine, st);
        let gap = layout::between(n, files.len());
        let last = sections(labels, st, n)[m as int];
        assert(last == place + section + gap);
        assert(sections(labels, st, n) == sections(labels, st, m).push(last));
        let before = layout::file_blocks(labels, st, m);
        assert(before + place + section + gap == before + (place + section + gap));
    } else {
        assert(sections(labels, st, 0) == Seq::<Seq<RunView>>::empty());
    }
}

/// Labels are shown file by file. Each file has the location of the label that stands for it and
/// below that its section, and blank lines keep the files apart.
pub proof fn law_labels_are_grouped_by_file(labels: Seq<LabelView>, st: Setting)
    ensures
        layout::file_blocks(labels, st, layout::files_of(labels).len()) == sections(
            labels,
            st,
            layout::files_of(labels).len(),
        ).flatten(),
{
    lemma_sections(labels, st, layout::files_of(labels).len());
}

/// Whether line `n` belongs to a section: it is in the source, and no further than the context from
/// the lines between the first label and the last.
pub open spec fn is_shown(labels: Seq<LabelView>, st: Setting, n: int) -> bool {
    &&& 1 <= n <= st.lines.len()
    &&& exists|i: int|
        0 <= i < labels.len() && (#[trigger] labels[i]).span.line <= n + st.context_lines
    &&& exists|i: int|
        0 <= i < labels.len() && n <= (#[trigger] labels[i]).span.line + st.context_lines
}

proof fn lemma_min_line(labels: Seq<LabelView>)
    requires
        labels.len() > 0,
    ensures
        forall|i: int|
            0 <= i < labels.len() ==> layout::min_line(labels) <= (#[trigger] labels[i]).span.line,
        exists|i: int|
            0 <= i < labels.len() && (#[trigger] labels[i]).span.line == layout::min_line(labels),
    decreases labels.len(),
{
    let last = labels.len() - 1;
    if last == 0 {
        assert(labels[0].span.line == layout::min_line(labels));
    } else {
        let t = labels.drop_last();
        lemma_min_line(t);
        let k = choose|i: int|
            0 <= i < t.len() && (#[trigger] t[i]).span.line == layout::min_line(t);
        assert(labels[k] == t[k]);
        assert(labels[last] == labels.last());
        assert forall|i: int| 0 <= i < labels.len() implies layout::min_line(labels) <= (
        #[trigger] labels[i]).span.line by {
            if i < last {
                assert(labels[i] == t[i]);
            }
        }
    }
}

proof fn lemma_max_line(labels: Seq<LabelView>)
    requires
        labels.len() > 0,
    ensures
        forall|i: int|
            0 <= i < labels.len() ==> (#[trigger] labels[i]).span.line <= layout::max_line(labels),
        exists|i: int|
            0 <= i < labels.len() && (#[trigger] labels[i]).span.line == layout::max_line(labels),
    decreases labels.len(),
{
    let last = labels.len() - 1;
    let t = labels.drop_last();
    assert(labels[last] == labels.last());
    if last > 0 {
        lemma_max_line(t);
        let k = choose|i: int|
            0 <= i < t.len() && (#[trigger] t[i]).span.line == layout::max_line(t);
        assert(labels[k] == t[k]);
        assert forall|i: int| 0 <= i < labels.len() implies (#[trigger] labels[i]).span.line
            <= layout::max_line(labels) by {
            if i < last {
                assert(labels[i] == t[i]);
            }
        }
    } else {
        assert(layout::max_line(t) == 0);
    }
}

/// The rows of the lines from `first` to `last`, each with its labels.
pub open spec fn blocks(
    labels: Seq<LabelView>,
    st: Setting,
    gutter: nat,
    first: int,
    last: int,
) -> Seq<Seq<RunView>> {
    Seq::new(
        if first <= last {
            (last - first + 1) as nat
        } else {
            0
        },
        |k: int| layout::line_block(labels, st, gutter, (first + k) as nat),
    )
}

proof fn lemma_blocks(labels: Seq<LabelView>, st: Setting, gutter: nat, n: nat)
    ensures
        layout::source_rows(labels, st, gutter, n) == blocks(
            labels,
            st,
            gutter,
            layout::first_shown(labels, st) as int,
            n as int,
        ).flatten(),
    decreases n,
{
    broadcast use Seq::lemma_flatten_push;

    let first = layout::first_shown(labels, st) as int;
    if n >= first {
        lemma_blocks(labels, st, gutter, (n - 1) as nat);
        assert(blocks(labels, st, gutter, first, n as int) == blocks(
            labels,
            st,
            gutter,
            first,
            n - 1,
        ).push(layout::line_block(labels, st, gutter, n)));
    } else {
        assert(blocks(labels, st, gutter, first, n as int) == Seq::<Seq<RunView>>::empty());
    }
}

/// Whether the section of `labels` shows the lines from `first` to `last`, which are exactly those
/// that belong to it, in their order and with their numbers, between two lines with an empty gutter.
/// The gutter is as wide as the number of the last line of the source that the labels and their
/// context reach.
pub open spec fn shows_from_to(labels: Seq<LabelView>, st: Setting, first: int, last: int) -> bool {
    let gutter = layout::gutter_width(last as nat);
    &&& 0 <= last <= st.lines.len()
    &&& forall|i: int|
        0 <= i < labels.len() && (#[trigger] labels[i]).span.line + st.context_lines
            <= st.lines.len() ==> labels[i].span.line + st.context_lines <= last
    &&& last == st.lines.len() || exists|i: int|
        0 <= i < labels.len() && last == (#[trigger] labels[i]).span.line + st.context_lines
    &&& forall|n: int| first <= n <= last <==> #[trigger] is_shown(labels, st, n)
    &&& layout::file_section(labels, st) == layout::rule(gutter) + blocks(
        labels,
        st,
        gutter,
        first,
        last,
    ).flatten() + layout::rule(gutter)
}

/// A section shows the lines that belong to it. A file with a label on line 0 has no section.
pub proof fn law_section_shows_its_lines(labels: Seq<LabelView>, st: Setting)
    requires
        labels.len() > 0,
    ensures
        (exists|i: int| 0 <= i < labels.len() && (#[trigger] labels[i]).span.line == 0)
            ==> layout::file_section(labels, st) == Seq::<RunView>::empty(),
        (forall|i: int| 0 <= i < labels.len() ==> (#[trigger] labels[i]).span.line > 0)
            ==> exists|first: int, last: int| #[trigger] shows_from_to(labels, st, first, last),
{
    lemma_min_line(labels);
    lemma_max_line(labels);
    let lo = choose|i: int|
        0 <= i < labels.len() && (#[trigger] labels[i]).span.line == layout::min_line(labels);
    let hi = choose|i: int|
        0 <= i < labels.len() && (#[trigger] labels[i]).span.line == layout::max_line(labels);
    if exists|i: int| 0 <= i < labels.len() && (#[trigger] labels[i]).span.line == 0 {
        let i = choose|i: int| 0 <= i < labels.len() && (#[trigger] labels[i]).span.line == 0;
        assert(layout::min_line(labels) <= labels[i].span.line);
    }
    if forall|i: int| 0 <= i < labels.len() ==> (#[trigger] labels[i]).span.line > 0 {
        assert(labels[lo].span.line > 0);
        let first = layout::first_shown(labels, st) as int;
        let last = layout::last_shown(labels, st) as int;
        let gutter = layout::gutter_width(last as nat);
        lemma_blocks(labels, st, gutter, last as nat);
        assert forall|n: int| first <= n <= last <==> #[trigger] is_shown(labels, st, n) by {
            if first <= n <= last {
                assert(labels[lo].span.line <= n + st.context_lines);
                assert(n <= labels[hi].span.line + st.context_lines);
            }
        }
        assert(last == st.lines.len() || last == labels[hi].span.line + st.context_lines);
        assert(layout::file_section(labels, st) == layout::rule(gutter) + blocks(
            labels,
            st,
            gutter,
            first,
            last,
        ).flatten() + layout::rule(gutter));
        assert(shows_from_to(labels, st, first, last));
    }
}

/// A label on a line of the source has that line in its section.
pub proof fn law_labelled_lines_are_shown(labels: Seq<LabelView>, st: Setting, i: int)
    requires
        0 <= i < labels.len(),
        1 <= labels[i].span.line <= st.lines.len(),
    ensures
        is_shown(labels, st, labels[i].span.line as int),
{
    assert(labels[i].span.line <= labels[i].span.line + st.context_lines);
}

} // verus!
