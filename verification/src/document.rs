//! Text in the making: a sequence of runs, each with its style.

use vstd::prelude::*;
use vstd::string::*;

use crate::style;
use crate::style::TextStyle;

verus! {

/// Text in one style.
#[derive(Debug)]
struct Run {
    text: String,
    style: TextStyle,
}

/// The value of a run: its text and its style.
pub type RunView = (Seq<char>, TextStyle);

/// Text that is built run by run.
#[derive(Debug)]
pub struct Document {
    runs: Vec<Run>,
}

impl View for Document {
    type V = Seq<RunView>;

    closed spec fn view(&self) -> Seq<RunView> {
        self.runs@.map_values(|r: Run| (r.text@, r.style))
    }
}

/// All the parts, one after the other.
pub open spec fn joined(parts: Seq<Seq<char>>) -> Seq<char>
    decreases parts.len(),
{
    if parts.len() == 0 {
        seq![]
    } else {
        joined(parts.drop_last()) + parts.last()
    }
}

/// The text of runs without their styles.
pub open spec fn plain_text(runs: Seq<RunView>) -> Seq<char> {
    joined(runs.map_values(|r: RunView| r.0))
}

/// Whether `out` is what `colored` may give for `text` when it is asked for `style`.
pub open spec fn is_painted(text: Seq<char>, style: TextStyle, out: Seq<char>) -> bool {
    exists|t: &str, s: String|
        t@ == text && s@ == out && #[trigger] style::is_paint_of(t, style, s)
}

/// Whether `parts` are what the runs may become, one by one. With colors on, each run that has a
/// style is handed to `colored`, and its part is what came back.
pub open spec fn shown_as(runs: Seq<RunView>, color: bool, parts: Seq<Seq<char>>) -> bool {
    &&& parts.len() == runs.len()
    &&& forall|i: int|
        0 <= i < runs.len() ==> style::shown(runs[i].0, runs[i].1, color, #[trigger] parts[i])
    &&& color ==> forall|i: int|
        0 <= i < runs.len() ==> is_painted(runs[i].0, runs[i].1, #[trigger] parts[i])
}

/// Whether `out` is what the runs may look like: each shown in its style, one after the other.
pub open spec fn is_rendering(runs: Seq<RunView>, color: bool, out: Seq<char>) -> bool {
    exists|parts: Seq<Seq<char>>| #[trigger] shown_as(runs, color, parts) && out == joined(parts)
}

/// Without colors there is one rendering: the plain text.
pub proof fn lemma_plain_rendering(runs: Seq<RunView>, out: Seq<char>)
    ensures
        is_rendering(runs, false, out) <==> out == plain_text(runs),
{
    let plain = runs.map_values(|r: RunView| r.0);
    assert(shown_as(runs, false, plain));
    if is_rendering(runs, false, out) {
        let parts = choose|parts: Seq<Seq<char>>| #[trigger]
            shown_as(runs, false, parts) && out == joined(parts);
        assert(parts == plain);
    }
}

/// The text of two sequences of runs is the text of one behind that of the other.
pub proof fn lemma_plain_text_concat(a: Seq<RunView>, b: Seq<RunView>)
    ensures
        plain_text(a + b) == plain_text(a) + plain_text(b),
    decreases b.len(),
{
    let f = |r: RunView| r.0;
    if b.len() == 0 {
        assert(a + b == a);
        assert(b.map_values(f) == Seq::<Seq<char>>::empty());
    } else {
        lemma_plain_text_concat(a, b.drop_last());
        assert((a + b).drop_last() == a + b.drop_last());
        assert((a + b).map_values(f).drop_last() == (a + b.drop_last()).map_values(f));
        assert(b.map_values(f).drop_last() == b.drop_last().map_values(f));
        assert(plain_text(a) + (plain_text(b.drop_last()) + b.last().0) == plain_text(a)
            + plain_text(b.drop_last()) + b.last().0);
    }
}

/// One more run adds its text at the end.
pub broadcast proof fn lemma_plain_text_push(runs: Seq<RunView>, run: RunView)
    ensures
        #[trigger] plain_text(runs.push(run)) == plain_text(runs) + run.0,
{
    let f = |r: RunView| r.0;
    assert(runs.push(run).map_values(f).drop_last() == runs.map_values(f));
    assert(runs.push(run).map_values(f).last() == run.0);
}

/// The text of two sequences of runs is the text of one behind that of the other.
pub broadcast proof fn lemma_plain_text_add(a: Seq<RunView>, b: Seq<RunView>)
    ensures
        #[trigger] plain_text(a + b) == plain_text(a) + plain_text(b),
{
    lemma_plain_text_concat(a, b);
}

/// Without runs there is no text.
pub broadcast proof fn lemma_plain_text_empty()
    ensures
        #[trigger] plain_text(Seq::<RunView>::empty()) == Seq::<char>::empty(),
{
    assert(Seq::<RunView>::empty().map_values(|r: RunView| r.0) == Seq::<Seq<char>>::empty());
}

pub broadcast group group_plain_text {
    lemma_plain_text_push,
    lemma_plain_text_add,
    lemma_plain_text_empty,
}

/// The text of runs ends as their last run does, if that is not empty.
pub proof fn lemma_last_char(runs: Seq<RunView>)
    requires
        runs.len() > 0,
        runs.last().0.len() > 0,
    ensures
        plain_text(runs).len() >= runs.last().0.len(),
        plain_text(runs).last() == runs.last().0.last(),
{
    let parts = runs.map_values(|r: RunView| r.0);
    assert(plain_text(runs) == joined(parts.drop_last()) + parts.last());
}

impl Document {
    /// A document without text.
    pub fn new() -> (r: Document)
        ensures
            r@ == Seq::<RunView>::empty(),
    {
        let r = Document { runs: Vec::new() };
        assert(r@ == Seq::<RunView>::empty());
        r
    }

    /// Appends `text` in `style`.
    pub fn put(&mut self, text: &str, style: TextStyle)
        ensures
            final(self)@ == old(self)@.push((text@, style)),
    {
        self.runs.push(Run { text: text.to_owned(), style });
        assert(self@ == old(self)@.push((text@, style)));
    }

    /// The text of the document, in color if `color` is on.
    pub fn render(&self, color: bool) -> (out: String)
        ensures
            is_rendering(self@, color, out@),
            !color ==> out@ == plain_text(self@),
    {
        let mut out = String::new();
        let ghost mut parts: Seq<Seq<char>> = seq![];
        let n = self.runs.len();
        let mut i: usize = 0;
        while i < n
            invariant
                i <= n,
                n == self@.len(),
                n == self.runs@.len(),
                forall|j: int|
                    0 <= j < n ==> self@[j] == (
                        #[trigger] self.runs@[j].text@,
                        self.runs@[j].style,
                    ),
                shown_as(self@.take(i as int), color, parts),
                out@ == joined(parts),
            decreases n - i,
        {
            let part = style::paint(self.runs[i].text.as_str(), self.runs[i].style, color);
            out.append(part.as_str());
            proof {
                let longer = parts.push(part@);
                assert(longer.drop_last() == parts);
                assert forall|j: int| 0 <= j < i + 1 implies style::shown(
                    self@.take(i + 1)[j].0,
                    self@.take(i + 1)[j].1,
                    color,
                    #[trigger] longer[j],
                ) by {
                    if j < i {
                        assert(longer[j] == parts[j]);
                        assert(self@.take(i as int)[j] == self@[j]);
                    }
                }
                if color {
                    assert forall|j: int| 0 <= j < i + 1 implies is_painted(
                        self@.take(i + 1)[j].0,
                        self@.take(i + 1)[j].1,
                        #[trigger] longer[j],
                    ) by {
                        if j < i {
                            assert(longer[j] == parts[j]);
                            assert(self@.take(i as int)[j] == self@[j]);
                        }
                    }
                }
                parts = longer;
            }
            i += 1;
        }
        proof {
            assert(self@.take(n as int) == self@);
            lemma_plain_rendering(self@, out@);
        }
        out
    }
}

} // verus!
