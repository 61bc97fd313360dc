//! What of a text is shown in which style.

use vstd::prelude::*;

use crate::document;
use crate::document::RunView;
use crate::style;
use crate::style::TextStyle;

verus! {

/// The texts of runs, one after the other.
pub open spec fn text_of(runs: Seq<RunView>) -> Seq<char>
    decreases runs.len(),
{
    if runs.len() == 0 {
        seq![]
    } else {
        text_of(runs.drop_last()) + runs.last().0
    }
}

/// The plain text of runs is the texts of all of them, and no more.
pub proof fn law_plain_text_is_the_texts(runs: Seq<RunView>)
    ensures
        document::plain_text(runs) == text_of(runs),
    decreases runs.len(),
{
    if runs.len() > 0 {
        law_plain_text_is_the_texts(runs.drop_last());
        assert(runs == runs.drop_last().push(runs.last()));
        document::lemma_plain_text_push(runs.drop_last(), runs.last());
    } else {
        assert(runs == Seq::<RunView>::empty());
        broadcast use document::lemma_plain_text_empty;

    }
}

/// What of runs is shown in a style, one after the other.
pub open spec fn in_style(runs: Seq<RunView>, style: TextStyle) -> Seq<char>
    decreases runs.len(),
{
    if runs.len() == 0 {
        seq![]
    } else if runs.last().1 == style {
        in_style(runs.drop_last(), style) + runs.last().0
    } else {
        in_style(runs.drop_last(), style)
    }
}

pub broadcast proof fn lemma_in_style_empty(style: TextStyle)
    ensures
        #[trigger] in_style(Seq::<RunView>::empty(), style) == Seq::<char>::empty(),
{
}

pub broadcast proof fn lemma_in_style_push(runs: Seq<RunView>, run: RunView, style: TextStyle)
    ensures
        #[trigger] in_style(runs.push(run), style) == if run.1 == style {
            in_style(runs, style) + run.0
        } else {
            in_style(runs, style)
        },
{
    assert(runs.push(run).drop_last() == runs);
}

pub broadcast proof fn lemma_in_style_add(a: Seq<RunView>, b: Seq<RunView>, style: TextStyle)
    ensures
        #[trigger] in_style(a + b, style) == in_style(a, style) + in_style(b, style),
    decreases b.len(),
{
    if b.len() == 0 {
        assert(a + b == a);
    } else {
        lemma_in_style_add(a, b.drop_last(), style);
        assert((a + b).drop_last() == a + b.drop_last());
    }
}

pub broadcast group group_in_style {
    lemma_in_style_empty,
    lemma_in_style_push,
    lemma_in_style_add,
}

/// Parts are put together one behind the other.
pub proof fn law_parts_are_joined(parts: Seq<Seq<char>>, part: Seq<char>)
    ensures
        document::joined(Seq::<Seq<char>>::empty()) == Seq::<char>::empty(),
        document::joined(parts.push(part)) == document::joined(parts) + part,
{
    assert(parts.push(part).drop_last() == parts);
}

/// Runs are rendered one by one: the last of them as its style asks, behind a rendering of the
/// others.
pub proof fn law_runs_are_rendered_one_by_one(
    runs: Seq<RunView>,
    run: RunView,
    color: bool,
    out: Seq<char>,
)
    requires
        document::is_rendering(runs.push(run), color, out),
    ensures
        exists|before: Seq<char>, part: Seq<char>|
            {
                &&& #[trigger] document::is_rendering(runs, color, before)
                &&& #[trigger] style::shown(run.0, run.1, color, part)
                &&& color ==> document::is_painted(run.0, run.1, part)
                &&& out == before + part
            },
{
    let all = runs.push(run);
    let parts = choose|parts: Seq<Seq<char>>| #[trigger]
        document::shown_as(all, color, parts) && out == document::joined(parts);
    let some = parts.drop_last();
    let part = parts[runs.len() as int];
    assert forall|i: int| 0 <= i < runs.len() implies style::shown(
        runs[i].0,
        runs[i].1,
        color,
        #[trigger] some[i],
    ) by {
        assert(some[i] == parts[i]);
        assert(all[i] == runs[i]);
    }
    if color {
        assert forall|i: int| 0 <= i < runs.len() implies document::is_painted(
            runs[i].0,
            runs[i].1,
            #[trigger] some[i],
        ) by {
            assert(some[i] == parts[i]);
            assert(all[i] == runs[i]);
        }
    }
    assert(document::shown_as(runs, color, some));
    assert(all[runs.len() as int] == run);
    assert(style::shown(run.0, run.1, color, part));
    assert(document::is_rendering(runs, color, document::joined(some)));
}

} // verus!
