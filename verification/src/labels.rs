//! Where labels lie, and in what order.

use vstd::prelude::*;
use vstd::string::*;
use vstd::utf8::*;

use crate::diagnostic;
use crate::diagnostic::{Label, LabelStyle, LabelView};
use crate::layout;
use crate::offsets;
use crate::text::same_text;

verus! {

/// The last line of a label. Without per-line offsets a label ends on the line on which it begins;
/// a span of several lines is several labels.
fn end_line_of(label: &Label) -> (r: usize)
    ensures
        r == layout::end_line(label@),
{
    label.span.line
}

/// Whether a label marks something on `line`.
pub fn label_touches(label: &Label, line: usize) -> (r: bool)
    ensures
        r == layout::touches(label@, line as nat),
        r == (line == label.span.line),
{
    line >= label.span.line && line <= end_line_of(label)
}

/// The columns that a label marks on `line`, which reads `raw_line`.
pub fn label_columns_on_line(label: &Label, line: usize, raw_line: &str) -> (r: (usize, usize))
    ensures
        (r.0 as nat, r.1 as nat) == layout::columns_on(label@, line as nat, raw_line@),
        line == label.span.line && 1 <= label.span.column && 1 <= label.span.length
            && label.span.column + label.span.length <= encode_utf8(raw_line@).len() + 1
            && label.span.column + label.span.length <= usize::MAX ==> r.0 == label.span.column
            && r.1 == label.span.column + label.span.length,
{
    let start_line = label.span.line;
    let line_end_col = offsets::str_len(raw_line).saturating_add(1);

    let start_col = if line == start_line && label.span.column > 1 {
        label.span.column
    } else {
        1
    };
    let end_col = if line == start_line && end_line_of(label) == line {
        let to = label.span.column.saturating_add(label.span.length);
        let least = label.span.column.saturating_add(1);
        if to < least {
            least
        } else {
            to
        }
    } else {
        line_end_col
    };
    let clamped = if end_col < line_end_col {
        end_col
    } else {
        line_end_col
    };
    let least = start_col.saturating_add(1);
    (
        start_col,
        if clamped < least {
            least
        } else {
            clamped
        },
    )
}

/// The distinct files of labels, in the order in which they first occur.
pub fn distinct_files<'a>(labels: &'a Vec<Label>) -> (r: Vec<&'a str>)
    ensures
        crate::lines::texts(r@) == layout::files_of(diagnostic::label_views(labels@)),
{
    let mut files: Vec<&'a str> = Vec::new();
    let ghost views = diagnostic::label_views(labels@);
    let n = labels.len();
    let mut i: usize = 0;
    assert(crate::lines::texts(files@) == layout::files_of(views.take(0)));
    while i < n
        invariant
            i <= n,
            n == labels@.len(),
            views == diagnostic::label_views(labels@),
            crate::lines::texts(files@) == layout::files_of(views.take(i as int)),
        decreases n - i,
    {
        let file: &'a str = labels[i].span.file.as_str();
        assert(views.take(i + 1).drop_last() == views.take(i as int));
        assert(views.take(i + 1).last().span.file == file@);
        let ghost known = crate::lines::texts(files@);
        let m = files.len();
        let mut found: bool = false;
        let mut j: usize = 0;
        while j < m
            invariant
                j <= m,
                m == files@.len(),
                known == crate::lines::texts(files@),
                found <==> exists|k: int| 0 <= k < j && #[trigger] known[k] == file@,
            decreases m - j,
        {
            assert(known[j as int] == files@[j as int]@);
            if same_text(files[j], file) {
                found = true;
            }
            j += 1;
        }
        if !found {
            files.push(file);
            assert(crate::lines::texts(files@) == known.push(file@));
        }
        i += 1;
    }
    assert(views.take(n as int) == views);
    files
}

/// The labels that lie in `file`.
pub fn labels_in_file<'a>(labels: &'a Vec<Label>, file: &str) -> (r: Vec<&'a Label>)
    ensures
        diagnostic::label_ref_views(r@) == layout::labels_in(
            diagnostic::label_views(labels@),
            file@,
        ),
{
    let mut out: Vec<&'a Label> = Vec::new();
    let ghost views = diagnostic::label_views(labels@);
    let ghost pred = |l: LabelView| l.span.file == file@;
    let n = labels.len();
    let mut i: usize = 0;
    proof {
        reveal(Seq::filter);
        assert(diagnostic::label_ref_views(out@) == views.take(0).filter(pred));
    }
    while i < n
        invariant
            i <= n,
            n == labels@.len(),
            views == diagnostic::label_views(labels@),
            pred == |l: LabelView| l.span.file == file@,
            diagnostic::label_ref_views(out@) == views.take(i as int).filter(pred),
        decreases n - i,
    {
        proof {
            reveal(Seq::filter);
            assert(views.take(i + 1).drop_last() == views.take(i as int));
            assert(views.take(i + 1).last() == labels@[i as int]@);
        }
        let ghost before = diagnostic::label_ref_views(out@);
        if same_text(labels[i].span.file.as_str(), file) {
            out.push(&labels[i]);
            assert(diagnostic::label_ref_views(out@) == before.push(labels@[i as int]@));
        }
        i += 1;
    }
    assert(views.take(n as int) == views);
    out
}

/// The label that stands for its file.
pub fn leading_label<'a>(labels: &Vec<&'a Label>) -> (r: &'a Label)
    requires
        labels@.len() > 0,
    ensures
        r@ == layout::leading_label(diagnostic::label_ref_views(labels@)),
        exists|k: int|
            {
                &&& 0 <= k < labels@.len()
                &&& r == #[trigger] labels@[k]
                &&& {
                    ||| r.style == LabelStyle::Primary && forall|i: int|
                        0 <= i < k ==> (#[trigger] labels@[i]).style != LabelStyle::Primary
                    ||| k == 0 && forall|i: int|
                        0 <= i < labels@.len() ==> (#[trigger] labels@[i]).style
                            != LabelStyle::Primary
                }
            },
{
    let ghost views = diagnostic::label_ref_views(labels@);
    let n = labels.len();
    let mut i: usize = 0;
    assert(views.skip(0) == views);
    while i < n
        invariant
            i <= n,
            n == labels@.len(),
            n > 0,
            views == diagnostic::label_ref_views(labels@),
            forall|j: int| 0 <= j < i ==> (#[trigger] labels@[j]).style != LabelStyle::Primary,
            layout::first_primary(views) == i + layout::first_primary(views.skip(i as int)),
        decreases n - i,
    {
        assert(views.skip(i as int)[0] == labels@[i as int]@);
        assert(views.skip(i as int).drop_first() == views.skip(i + 1));
        if labels[i].style == LabelStyle::Primary {
            return labels[i];
        }
        i += 1;
    }
    assert(views[0] == labels@[0]@);
    labels[0]
}

/// The smallest and the largest line of labels.
pub fn line_range(labels: &Vec<&Label>) -> (r: (usize, usize))
    ensures
        r.0 == layout::min_line(diagnostic::label_ref_views(labels@)),
        r.1 == layout::max_line(diagnostic::label_ref_views(labels@)),
{
    let ghost views = diagnostic::label_ref_views(labels@);
    let n = labels.len();
    if n == 0 {
        return (0, 0);
    }
    let mut lo: usize = labels[0].span.line;
    let mut hi: usize = labels[0].span.line;
    let mut i: usize = 1;
    assert(views.take(1).drop_last() == Seq::<LabelView>::empty());
    assert(layout::max_line(Seq::<LabelView>::empty()) == 0);
    while i < n
        invariant
            1 <= i <= n,
            n == labels@.len(),
            views == diagnostic::label_ref_views(labels@),
            lo == layout::min_line(views.take(i as int)),
            hi == layout::max_line(views.take(i as int)),
        decreases n - i,
    {
        assert(views.take(i + 1).drop_last() == views.take(i as int));
        let line = labels[i].span.line;
        if line < lo {
            lo = line;
        }
        if line > hi {
            hi = line;
        }
        i += 1;
    }
    assert(views.take(n as int) == views);
    (lo, hi)
}

/// Inserts `label` into labels that are sorted by column, after those of its own column.
fn insert_by_column<'a>(sorted: &mut Vec<&'a Label>, label: &'a Label)
    ensures
        diagnostic::label_ref_views(final(sorted)@) == layout::inserted(
            diagnostic::label_ref_views(old(sorted)@),
            label@,
        ),
{
    let ghost views = diagnostic::label_ref_views(sorted@);
    let mut at = sorted.len();
    assert(views.take(at as int) == views);
    assert(views.skip(at as int) == Seq::<LabelView>::empty());
    while at > 0 && sorted[at - 1].span.column > label.span.column
        invariant
            at <= sorted@.len(),
            views == diagnostic::label_ref_views(sorted@),
            layout::inserted(views, label@) == layout::inserted(views.take(at as int), label@)
                + views.skip(at as int),
        decreases at,
    {
        let ghost whole = views.take(at as int);
        assert(whole.drop_last() == views.take(at - 1));
        assert(whole.last() == views[at - 1]);
        assert(layout::inserted(whole, label@) == layout::inserted(
            views.take(at - 1),
            label@,
        ).push(views[at - 1]));
        assert(layout::inserted(views.take(at - 1), label@).push(views[at - 1]) + views.skip(
            at as int,
        ) == layout::inserted(views.take(at - 1), label@) + views.skip(at - 1));
        at -= 1;
    }
    proof {
        if at > 0 {
            assert(views.take(at as int).last() == views[at - 1]);
        }
        assert(layout::inserted(views.take(at as int), label@) == views.take(at as int).push(
            label@,
        ));
    }
    sorted.insert(at, label);
    assert(diagnostic::label_ref_views(sorted@) == views.take(at as int).push(label@) + views.skip(
        at as int,
    ));
}

/// The labels that touch `line`, sorted by column.
pub fn labels_on_line<'a>(labels: &Vec<&'a Label>, line: usize) -> (r: Vec<&'a Label>)
    ensures
        diagnostic::label_ref_views(r@) == layout::labels_on(
            diagnostic::label_ref_views(labels@),
            line as nat,
        ),
{
    let mut out: Vec<&'a Label> = Vec::new();
    let ghost views = diagnostic::label_ref_views(labels@);
    let ghost pred = |l: LabelView| layout::touches(l, line as nat);
    let n = labels.len();
    let mut i: usize = 0;
    proof {
        reveal(Seq::filter);
        assert(views.take(0).filter(pred) == Seq::<LabelView>::empty());
        assert(diagnostic::label_ref_views(out@) == Seq::<LabelView>::empty());
    }
    while i < n
        invariant
            i <= n,
            n == labels@.len(),
            views == diagnostic::label_ref_views(labels@),
            pred == |l: LabelView| layout::touches(l, line as nat),
            diagnostic::label_ref_views(out@) == layout::by_column(
                views.take(i as int).filter(pred),
            ),
        decreases n - i,
    {
        proof {
            reveal(Seq::filter);
            assert(views.take(i + 1).drop_last() == views.take(i as int));
            assert(views.take(i + 1).last() == labels@[i as int]@);
        }
        if label_touches(labels[i], line) {
            let ghost some = views.take(i as int).filter(pred);
            assert(some.push(labels@[i as int]@).drop_last() == some);
            insert_by_column(&mut out, labels[i]);
        }
        i += 1;
    }
    assert(views.take(n as int) == views);
    out
}

} // verus!
