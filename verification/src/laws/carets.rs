//! What the carets below a source line point at.

use vstd::prelude::*;
use vstd::string::*;
use vstd::utf8::*;

use crate::diagnostic::{LabelStyle, LabelView, Severity};
use crate::document;
use crate::document::RunView;
use crate::laws::emphasis;
use crate::laws::order;
use crate::laws::reading;
use crate::layout;
use crate::layout::{Mark, Setting};
use crate::offsets;
use crate::style;
use crate::style::TextStyle;
use crate::text;
use crate::width;

verus! {

broadcast use document::group_plain_text;

/// On its own line a label marks the columns from its own on, as many bytes as it is long, however
/// many characters these are. A length of 0 counts as 1, column 0 as column 1. What reaches past the
/// end of the line is left out, but for one column.
pub proof fn law_label_marks_its_columns(label: LabelView, raw: Seq<char>)
    requires
        label.span.column <= usize::MAX,
        label.span.length <= usize::MAX,
        encode_utf8(raw).len() < usize::MAX,
    ensures
        ({
            let column = label.span.column;
            let line_end = encode_utf8(raw).len() + 1;
            let (start, end) = layout::columns_on(label, label.span.line, raw);
            &&& start == if column == 0 {
                1
            } else {
                column
            }
            &&& 1 <= column && 1 <= label.span.length && column + label.span.length <= line_end
                ==> end == column + label.span.length
            &&& 1 <= column < line_end && label.span.length == 0 ==> end == column + 1
            &&& 1 <= column < line_end && line_end < column + label.span.length ==> end == line_end
            &&& line_end <= column < usize::MAX ==> end == column + 1
            &&& column == usize::MAX ==> end == column
            &&& column == 0 && label.span.length <= 1 ==> end == 2
            &&& column == 0 && 2 <= label.span.length <= line_end && 2 <= line_end ==> end
                == label.span.length
            &&& column == 0 && line_end < label.span.length && 2 <= line_end ==> end == line_end
        }),
{
}

/// Whether the first `k` characters of `s`, and no more of them, begin before byte `offset`.
pub open spec fn begin_before(s: Seq<char>, offset: int, k: int) -> bool {
    &&& 0 <= k <= s.len()
    &&& forall|i: int| 0 <= i < k ==> encode_utf8(#[trigger] s.take(i)).len() < offset
    &&& k < s.len() ==> offset <= encode_utf8(s.take(k)).len()
}

proof fn lemma_begin_before(s: Seq<char>, offset: int, k: int)
    requires
        begin_before(s, offset, k),
    ensures
        width::chars_started(s, offset) == k,
{
    width::lemma_chars_started(s, offset);
    let n = width::chars_started(s, offset) as int;
    if n < k {
        assert(offsets::byte_len(s.take(n)) < offset);
    } else if k < n {
        assert(offsets::byte_len(s.take(k)) < offset);
    }
}

/// The carets of a label stand behind the columns of the characters that begin before what it marks,
/// and are as many as the characters that begin in it take columns, but at least one.
pub proof fn law_carets_measure_what_is_marked(
    label: LabelView,
    raw: Seq<char>,
    tab_width: nat,
    n: nat,
    p: int,
    q: int,
)
    requires
        begin_before(raw, layout::columns_on(label, n, raw).0 - 1, p),
        begin_before(raw, layout::columns_on(label, n, raw).1 - 1, q),
        label.span.column <= usize::MAX,
    ensures
        ({
            let m = layout::mark_below(label, raw, tab_width, n);
            let taken = if p < q {
                width::columns(raw.subrange(p, q), tab_width)
            } else {
                0
            };
            &&& m.label == label
            &&& m.pad == width::columns(raw.take(p), tab_width)
            &&& m.len == if taken == 0 {
                1
            } else {
                taken
            }
        }),
{
    let (start, end) = layout::columns_on(label, n, raw);
    lemma_begin_before(raw, start - 1, p);
    lemma_begin_before(raw, end - 1, q);
    if q < p {
        assert(encode_utf8(raw.take(q)).len() < start - 1);
    }
    if p == q {
        assert(raw.subrange(p, q) == Seq::<char>::empty());
    }
}

/// A label that covers a stretch of its line has its carets exactly below that stretch: behind as
/// many columns as the text before it takes, and as many as the stretch takes itself.
pub proof fn law_carets_stand_below_what_is_marked(
    label: LabelView,
    before: Seq<char>,
    marked: Seq<char>,
    after: Seq<char>,
    tab_width: nat,
)
    requires
        marked.len() > 0,
        label.span.column == encode_utf8(before).len() + 1,
        label.span.length == encode_utf8(marked).len(),
        encode_utf8(before + marked + after).len() < usize::MAX,
    ensures
        ({
            let m = layout::mark_below(label, before + marked + after, tab_width, label.span.line);
            &&& m.pad == width::columns(before, tab_width)
            &&& m.len == if width::columns(marked, tab_width) == 0 {
                1
            } else {
                width::columns(marked, tab_width)
            }
        }),
{
    let raw = before + marked + after;
    offsets::lemma_encode_concat(before + marked, after);
    offsets::lemma_encode_concat(before, marked);
    offsets::lemma_byte_len_take_monotonic(marked, 0, marked.len() as int);
    assert(marked.take(marked.len() as int) == marked);
    law_label_marks_its_columns(label, raw);
    let p = before.len() as int;
    let q = p + marked.len();
    assert(raw.take(p) == before);
    assert(raw.take(q) == before + marked);
    assert(raw.subrange(p, q) == marked);
    lemma_prefix_begins(raw, p);
    lemma_prefix_begins(raw, q);
    law_carets_measure_what_is_marked(label, raw, tab_width, label.span.line, p, q);
}

proof fn lemma_prefix_begins(s: Seq<char>, k: int)
    requires
        0 <= k <= s.len(),
    ensures
        begin_before(s, encode_utf8(s.take(k)).len() as int, k),
{
    assert forall|i: int| 0 <= i < k implies encode_utf8(#[trigger] s.take(i)).len() < encode_utf8(
        s.take(k),
    ).len() by {
        offsets::lemma_byte_len_take_monotonic(s, i, k);
    }
}

/// The column in which the carets of label `j` begin: its own, or the first behind the carets before
/// it where these reach further.
pub open spec fn caret_start(marks: Seq<Mark>, j: int) -> nat
    decreases j,
{
    if j <= 0 {
        marks[0].pad
    } else if marks[j].pad < caret_start(marks, j - 1) + marks[j - 1].len {
        caret_start(marks, j - 1) + marks[j - 1].len
    } else {
        marks[j].pad
    }
}

/// Whether `row` consists of the carets of `marks`: each label has its sign in its columns, and
/// everything else is blank.
pub open spec fn is_caret_line(row: Seq<char>, marks: Seq<Mark>) -> bool {
    &&& row.len() == caret_start(marks, marks.len() - 1) + marks.last().len
    &&& forall|j: int, c: int|
        0 <= j < marks.len() && #[trigger] caret_start(marks, j) <= c < caret_start(marks, j)
            + marks[j].len ==> #[trigger] row[c] == if marks[j].label.style == LabelStyle::Primary {
            '^'
        } else {
            '-'
        }
    &&& forall|c: int|
        0 <= c < row.len() && (forall|j: int|
            0 <= j < marks.len() ==> !(#[trigger] caret_start(marks, j) <= c < caret_start(marks, j)
                + marks[j].len)) ==> #[trigger] row[c] == ' '
}

proof fn lemma_caret_start_prefix(marks: Seq<Mark>, j: int)
    requires
        0 <= j < marks.len() - 1,
    ensures
        caret_start(marks.drop_last(), j) == caret_start(marks, j),
    decreases j,
{
    if j > 0 {
        lemma_caret_start_prefix(marks, j - 1);
    }
}

proof fn lemma_caret_order(marks: Seq<Mark>, i: int, j: int)
    requires
        0 <= i < j < marks.len(),
    ensures
        caret_start(marks, i) + marks[i].len <= caret_start(marks, j),
    decreases j - i,
{
    if i < j - 1 {
        lemma_caret_order(marks, i, j - 1);
    }
}

proof fn lemma_carets(marks: Seq<Mark>, severity: Severity)
    requires
        marks.len() > 0,
    ensures
        is_caret_line(document::plain_text(layout::carets(marks, severity)), marks),
        layout::caret_end(marks) == caret_start(marks, marks.len() - 1) + marks.last().len,
    decreases marks.len(),
{
    let row = document::plain_text(layout::carets(marks, severity));
    let rest = marks.drop_last();
    let before = document::plain_text(layout::carets(rest, severity));
    let m = marks.last();
    let last = marks.len() - 1;
    let sign = layout::underline(m.label.style);
    let gap = width::repeated(' ', layout::less(m.pad, layout::caret_end(rest)));
    let stroke = width::repeated(sign, m.len);
    assert(row == before + gap + stroke);
    let start = caret_start(marks, last) as int;
    if rest.len() > 0 {
        lemma_carets(rest, severity);
        lemma_caret_start_prefix(marks, last - 1);
        assert(rest.last() == marks[last - 1]);
        assert(before.len() == layout::caret_end(rest));
        assert(before.len() == caret_start(marks, last - 1) + marks[last - 1].len);
    } else {
        assert(before == Seq::<char>::empty());
        assert(layout::caret_end(rest) == 0);
    }
    assert(before.len() + gap.len() == start);
    assert forall|j: int, c: int|
        0 <= j < marks.len() && #[trigger] caret_start(marks, j) <= c < caret_start(marks, j)
            + marks[j].len implies #[trigger] row[c] == if marks[j].label.style
        == LabelStyle::Primary {
        '^'
    } else {
        '-'
    } by {
        if j < last {
            lemma_caret_start_prefix(marks, j);
            assert(rest[j] == marks[j]);
            if j < last - 1 {
                lemma_caret_order(marks, j, last - 1);
            }
            assert(row[c] == before[c]);
        } else {
            assert(row[c] == stroke[c - start]);
        }
    }
    assert forall|c: int|
        0 <= c < row.len() && (forall|j: int|
            0 <= j < marks.len() ==> !(#[trigger] caret_start(marks, j) <= c < caret_start(marks, j)
                + marks[j].len)) implies #[trigger] row[c] == ' ' by {
        assert(!(caret_start(marks, last) <= c < caret_start(marks, last) + marks[last].len));
        if c < before.len() {
            assert(row[c] == before[c]);
            assert forall|j: int| 0 <= j < rest.len() implies !(#[trigger] caret_start(rest, j) <= c
                < caret_start(rest, j) + rest[j].len) by {
                lemma_caret_start_prefix(marks, j);
                assert(rest[j] == marks[j]);
                assert(!(caret_start(marks, j) <= c < caret_start(marks, j) + marks[j].len));
            }
        } else {
            assert(row[c] == gap[c - before.len()]);
        }
    }
}

/// Carets that do not run into one another stand in their own columns, and those of the last label
/// end the row.
pub proof fn law_carets_keep_their_columns(marks: Seq<Mark>, j: int)
    requires
        0 <= j < marks.len(),
        forall|i: int|
            0 < i < marks.len() ==> marks[i - 1].pad + marks[i - 1].len <= (
            #[trigger] marks[i]).pad,
    ensures
        caret_start(marks, j) == marks[j].pad,
    decreases j,
{
    if j > 0 {
        law_carets_keep_their_columns(marks, j - 1);
        assert(marks[j - 1].pad + marks[j - 1].len <= marks[j].pad);
    }
}

/// Each label has carets in its own color: that of the severity where it is primary, blue where it
/// is not.
pub proof fn law_carets_have_their_own_color(marks: Seq<Mark>, severity: Severity)
    ensures
        layout::carets(marks, severity).len() == 2 * marks.len(),
        forall|j: int|
            0 <= j < marks.len() ==> #[trigger] layout::carets(marks, severity)[2 * j + 1] == (
                Seq::new(
                    marks[j].len,
                    |i: int|
                        if marks[j].label.style == LabelStyle::Primary {
                            '^'
                        } else {
                            '-'
                        },
                ),
                if marks[j].label.style == LabelStyle::Secondary {
                    TextStyle::BlueBold
                } else {
                    match severity {
                        Severity::Error => TextStyle::RedBold,
                        Severity::Warning => TextStyle::YellowBold,
                        Severity::Note => TextStyle::CyanBold,
                        Severity::Help => TextStyle::GreenBold,
                    }
                },
            ),
    decreases marks.len(),
{
    if marks.len() > 0 {
        let rest = marks.drop_last();
        law_carets_have_their_own_color(rest, severity);
        let all = layout::carets(marks, severity);
        assert forall|j: int| 0 <= j < marks.len() implies #[trigger] all[2 * j + 1] == (
            Seq::new(
                marks[j].len,
                |i: int|
                    if marks[j].label.style == LabelStyle::Primary {
                        '^'
                    } else {
                        '-'
                    },
            ),
            if marks[j].label.style == LabelStyle::Secondary {
                TextStyle::BlueBold
            } else {
                match severity {
                    Severity::Error => TextStyle::RedBold,
                    Severity::Warning => TextStyle::YellowBold,
                    Severity::Note => TextStyle::CyanBold,
                    Severity::Help => TextStyle::GreenBold,
                }
            },
        ) by {
            if j < rest.len() {
                assert(all[2 * j + 1] == layout::carets(rest, severity)[2 * j + 1]);
                assert(rest[j] == marks[j]);
            } else {
                assert(all[2 * j + 1].0 == width::repeated(
                    layout::underline(marks[j].label.style),
                    marks[j].len,
                ));
                assert(all[2 * j + 1].0 =~= Seq::new(
                    marks[j].len,
                    |i: int|
                        if marks[j].label.style == LabelStyle::Primary {
                            '^'
                        } else {
                            '-'
                        },
                ));
            }
        }
    }
}

/// A row below a source line reads as an empty gutter, the carets of all its labels, and the message
/// of the last of them behind these. The note of that label follows on a line of its own, below the
/// first column of the label.
pub proof fn law_caret_row_reads(marks: Seq<Mark>, st: Setting, gutter: nat)
    requires
        marks.len() > 0,
    ensures
        exists|row: Seq<char>| #[trigger]
            is_caret_line(row, marks) && document::plain_text(layout::caret_row(marks, st, gutter))
                == "  "@ + reading::spaces(gutter) + " | "@ + row + message_text(
                marks.last().label.message,
            ) + "\n"@ + note_text(marks.last().label.note, marks.last().pad, st.color, gutter),
{
    reading::lemma_literals();
    lemma_carets(marks, st.severity);
    reveal_with_fuel(emphasis::text_of, 12);
    let m = marks.last();
    let lead: Seq<RunView> = seq![
        ("  "@, TextStyle::Plain),
        (width::repeated(' ', gutter), TextStyle::Plain),
        (" "@, TextStyle::Plain),
        ("|"@, TextStyle::BlueBold),
        (" "@, TextStyle::Plain),
    ];
    let carets = layout::carets(marks, st.severity);
    let msg = layout::label_message(m.label, st.severity);
    let newline: Seq<RunView> = seq![("\n"@, TextStyle::Plain)];
    let note = layout::label_note(m, st.color, gutter);
    assert(layout::caret_row(marks, st, gutter) == lead + carets + msg + newline + note);
    emphasis::law_plain_text_is_the_texts(lead);
    emphasis::law_plain_text_is_the_texts(msg);
    emphasis::law_plain_text_is_the_texts(newline);
    assert(width::repeated(' ', gutter) == reading::spaces(gutter));
    assert(document::plain_text(lead) == "  "@ + reading::spaces(gutter) + " | "@);
    assert(document::plain_text(msg) == message_text(m.label.message));
    lemma_note_reads(m, st.color, gutter);
    let row = document::plain_text(carets);
    assert(is_caret_line(row, marks));
}

proof fn lemma_note_reads(m: Mark, color: bool, gutter: nat)
    ensures
        document::plain_text(layout::label_note(m, color, gutter)) == note_text(
            m.label.note,
            m.pad,
            color,
            gutter,
        ),
{
    reading::lemma_literals();
    reveal_with_fuel(emphasis::text_of, 12);
    emphasis::law_plain_text_is_the_texts(layout::label_note(m, color, gutter));
    assert(width::repeated(' ', gutter) == reading::spaces(gutter));
    assert(width::repeated(' ', m.pad) == reading::spaces(m.pad));
}

/// How the message of a label reads behind its carets.
pub open spec fn message_text(message: Option<Seq<char>>) -> Seq<char> {
    match message {
        Some(msg) => " "@ + text::sanitized(msg, false),
        None => ""@,
    }
}

/// How the note of a label reads below carets that begin behind `pad` columns. Without colors a word
/// tells it from a message.
pub open spec fn note_text(note: Option<Seq<char>>, pad: nat, color: bool, gutter: nat) -> Seq<
    char,
> {
    match note {
        Some(n) => "  "@ + reading::spaces(gutter) + " | "@ + reading::spaces(pad) + "↳ "@ + (
        if color {
            ""@
        } else {
            "note: "@
        }) + text::sanitized(n, false) + "\n"@,
        None => ""@,
    }
}

/// A message is shown in the color of its label, and its note in that of notes.
pub proof fn law_messages_have_the_color_of_their_label(
    m: Mark,
    severity: Severity,
    color: bool,
    gutter: nat,
)
    ensures
        m.label.message matches Some(msg) ==> emphasis::in_style(
            layout::label_message(m.label, severity),
            style::style_of_label(severity, m.label.style),
        ) == text::sanitized(msg, false),
        m.label.note matches Some(note) ==> emphasis::in_style(
            layout::label_note(m, color, gutter),
            TextStyle::CyanItalic,
        ) == text::sanitized(note, false),
{
    reveal_with_fuel(emphasis::in_style, 12);
}

/// The rows of a stack, one per label, each with one label less than the row above it.
pub open spec fn stacked(marks: Seq<Mark>, st: Setting, gutter: nat) -> Seq<Seq<RunView>> {
    Seq::new(
        marks.len(),
        |k: int| layout::caret_row(marks.take(marks.len() - k), st, gutter),
    )
}

proof fn lemma_stacked(marks: Seq<Mark>, st: Setting, gutter: nat, n: nat)
    requires
        n <= marks.len(),
    ensures
        layout::caret_rows(marks, st, gutter, n) == stacked(
            marks.take(n as int),
            st,
            gutter,
        ).flatten(),
    decreases n,
{
    let rows = stacked(marks.take(n as int), st, gutter);
    if n > 0 {
        lemma_stacked(marks, st, gutter, (n - 1) as nat);
        assert(marks.take(n as int).take(n as int) == marks.take(n as int));
        assert(rows.drop_first() == stacked(marks.take(n - 1), st, gutter)) by {
            let fewer = stacked(marks.take(n - 1), st, gutter);
            assert forall|k: int| 0 <= k < n - 1 implies #[trigger] rows.drop_first()[k]
                == fewer[k] by {
                assert(marks.take(n as int).take(n - (k + 1)) == marks.take(n - 1).take(
                    n - 1 - k,
                ));
            }
        }
        assert(rows.first() == layout::caret_row(marks.take(n as int), st, gutter));
    }
}

/// Below a source line its labels are stacked: with `sorted` the labels of the line from left to
/// right, row `k` has the carets of all of them but the last `k`, and with that the message of the
/// last whose carets it has.
pub proof fn law_labels_are_stacked(labels: Seq<LabelView>, st: Setting, gutter: nat, n: nat)
    requires
        1 <= n <= st.lines.len(),
    ensures
        ({
            let raw = st.lines[n - 1];
            let sorted = layout::labels_on(labels, n);
            let marks = Seq::new(
                sorted.len(),
                |j: int| layout::mark_below(sorted[j], raw, st.tab_width, n),
            );
            layout::line_block(labels, st, gutter, n) == layout::source_row(raw, st, gutter, n)
                + stacked(marks, st, gutter).flatten()
        }),
{
    let raw = st.lines[n - 1];
    let sorted = layout::labels_on(labels, n);
    let marks = Seq::new(
        sorted.len(),
        |j: int| layout::mark_below(sorted[j], raw, st.tab_width, n),
    );
    assert(layout::marks_on(labels, st, n) == marks);
    assert(marks.take(marks.len() as int) == marks);
    lemma_stacked(marks, st, gutter, marks.len());
}

/// The labels of a line are those whose span names it, sorted by column; those of one column stay in
/// their order.
pub proof fn law_labels_of_a_line(labels: Seq<LabelView>, n: nat)
    ensures
        order::is_sorted(layout::labels_on(labels, n)),
        layout::labels_on(labels, n).to_multiset() == labels.filter(
            |l: LabelView| l.span.line == n,
        ).to_multiset(),
        forall|column: nat| #[trigger]
            order::in_column(layout::labels_on(labels, n), column) == order::in_column(
                labels.filter(|l: LabelView| l.span.line == n),
                column,
            ),
{
    let on_line = |l: LabelView| l.span.line == n;
    let touching = |l: LabelView| layout::touches(l, n);
    assert(on_line =~= touching);
    order::law_labels_are_sorted_stably(labels.filter(touching));
}

/// On a line that is not its own a label would mark everything.
pub proof fn law_other_lines_are_marked_whole(label: LabelView, n: nat, raw: Seq<char>)
    requires
        n != label.span.line,
        encode_utf8(raw).len() < usize::MAX,
    ensures
        layout::columns_on(label, n, raw).0 == 1,
        layout::columns_on(label, n, raw).1 == if raw.len() == 0 {
            2
        } else {
            encode_utf8(raw).len() + 1
        },
{
    offsets::lemma_byte_len_take_monotonic(raw, 0, raw.len() as int);
    assert(raw.take(raw.len() as int) == raw);
    if raw.len() == 0 {
        assert(raw == Seq::<char>::empty());
    }
}

/// The bar between the gutter and what is below a source line is blue.
pub proof fn law_bars_are_blue(marks: Seq<Mark>, st: Setting, gutter: nat)
    requires
        marks.len() > 0,
    ensures
        layout::caret_row(marks, st, gutter)[3] == ("|"@, TextStyle::BlueBold),
        marks.last().label.note is Some ==> layout::label_note(marks.last(), st.color, gutter)[3]
            == ("|"@, TextStyle::BlueBold),
{
}

proof fn lemma_caret_rows_of_fewer(marks: Seq<Mark>, st: Setting, gutter: nat, n: nat)
    requires
        n < marks.len(),
    ensures
        layout::caret_rows(marks.drop_last(), st, gutter, n) == layout::caret_rows(
            marks,
            st,
            gutter,
            n,
        ),
    decreases n,
{
    if n > 0 {
        lemma_caret_rows_of_fewer(marks, st, gutter, (n - 1) as nat);
        assert(marks.drop_last().take(n as int) == marks.take(n as int));
    }
}

/// The first row of a stack has the carets of all its labels, each in its columns, and the message
/// of the rightmost behind them. Everything below that row is the stack of the labels without the
/// rightmost. A stack of no labels has no rows.
pub proof fn law_stack_loses_its_rightmost_label(marks: Seq<Mark>, st: Setting, gutter: nat)
    ensures
        marks.len() == 0 ==> layout::caret_rows(marks, st, gutter, 0) == Seq::<RunView>::empty(),
        marks.len() > 0 ==> exists|row: Seq<char>| #[trigger]
            is_caret_line(row, marks) && document::plain_text(
                layout::caret_rows(marks, st, gutter, marks.len()),
            ) == "  "@ + reading::spaces(gutter) + " | "@ + row + (match marks.last().label.message {
                Some(msg) => " "@ + text::sanitized(msg, false),
                None => ""@,
            }) + "\n"@ + (match marks.last().label.note {
                Some(note) => "  "@ + reading::spaces(gutter) + " | "@ + reading::spaces(
                    marks.last().pad,
                ) + "↳ "@ + (if st.color {
                    ""@
                } else {
                    "note: "@
                }) + text::sanitized(note, false) + "\n"@,
                None => ""@,
            }) + document::plain_text(
                layout::caret_rows(
                    marks.drop_last(),
                    st,
                    gutter,
                    (marks.len() - 1) as nat,
                ),
            ),
{
    if marks.len() > 0 {
        let n = (marks.len() - 1) as nat;
        law_caret_row_reads(marks, st, gutter);
        lemma_caret_rows_of_fewer(marks, st, gutter, n);
        assert(marks.take(marks.len() as int) == marks);
        let first = layout::caret_row(marks, st, gutter);
        let below = layout::caret_rows(marks.drop_last(), st, gutter, n);
        assert(layout::caret_rows(marks, st, gutter, marks.len()) == first + below);
        assert(document::plain_text(first + below) == document::plain_text(first)
            + document::plain_text(below));
    }
}

} // verus!
