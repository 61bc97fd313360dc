//! What a rendered diagnostic consists of.

use vstd::prelude::*;
use vstd::string::*;

use crate::diagnostic::{
    Applicability, DiagnosticView, LabelStyle, LabelView, Severity, SuggestionView,
};
use crate::document::RunView;
use crate::lines;
use crate::offsets;
use crate::source;
use crate::style;
use crate::style::TextStyle;
use crate::text;
use crate::width;

verus! {

/// Tunables for rendered output.
#[derive(Debug, Clone, Copy)]
pub struct RenderOptions {
    /// Tab stop width when expanding tabs in source lines.
    pub tab_width: usize,
    /// Number of context lines printed above and below each label region.
    pub context_lines: usize,
    /// Maximum rendered line width before truncation. `0` disables truncation.
    pub max_line_width: usize,
    /// Use ANSI color codes.
    pub color: bool,
}

impl Default for RenderOptions {
    fn default() -> (r: Self)
        ensures
            r == (RenderOptions { tab_width: 4, context_lines: 0, max_line_width: 0, color: true }),
    {
        RenderOptions { tab_width: 4, context_lines: 0, max_line_width: 0, color: true }
    }
}

/// The larger of two numbers.
pub open spec fn max(a: nat, b: nat) -> nat {
    if a < b {
        b
    } else {
        a
    }
}

/// The smaller of two numbers.
pub open spec fn min(a: nat, b: nat) -> nat {
    if a < b {
        a
    } else {
        b
    }
}

/// A number, or the largest of its type where it is too large for that.
pub open spec fn capped(a: nat) -> nat {
    min(a, usize::MAX as nat)
}

/// `a` less `b`, or 0 where `b` is the larger.
pub open spec fn less(a: nat, b: nat) -> nat {
    if a < b {
        0
    } else {
        (a - b) as nat
    }
}

/// The header line: severity, code, message and, where there is one, the link.
pub open spec fn header(
    severity: Severity,
    code: Seq<char>,
    message: Seq<char>,
    url: Option<Seq<char>>,
) -> Seq<RunView> {
    let sev = style::style_of_severity(severity);
    seq![
        (style::severity_text(severity), sev),
        (": ["@, TextStyle::Plain),
        (code, sev),
        ("]: "@, TextStyle::Plain),
        (text::sanitized(message, false), TextStyle::Plain),
    ] + link(url) + seq![("\n"@, TextStyle::Plain)]
}

/// Where to read more, at the end of the header.
pub open spec fn link(url: Option<Seq<char>>) -> Seq<RunView> {
    match url {
        Some(u) => seq![
            (" "@, TextStyle::Plain),
            ("(see "@ + u + ")"@, TextStyle::BlueItalic),
        ],
        None => seq![],
    }
}

/// The files of labels, each once, in the order in which they first occur.
pub open spec fn files_of(labels: Seq<LabelView>) -> Seq<Seq<char>>
    decreases labels.len(),
{
    if labels.len() == 0 {
        seq![]
    } else {
        let before = files_of(labels.drop_last());
        if before.contains(labels.last().span.file) {
            before
        } else {
            before.push(labels.last().span.file)
        }
    }
}

/// A file that is listed has a label in it.
pub proof fn lemma_file_has_label(labels: Seq<LabelView>, i: int)
    requires
        0 <= i < files_of(labels).len(),
    ensures
        labels_in(labels, files_of(labels)[i]).len() > 0,
    decreases labels.len(),
{
    reveal(Seq::filter);
    let file = files_of(labels)[i];
    let t = labels.drop_last();
    if i < files_of(t).len() {
        lemma_file_has_label(t, i);
    }
}

/// The labels that lie in `file`.
pub open spec fn labels_in(labels: Seq<LabelView>, file: Seq<char>) -> Seq<LabelView> {
    labels.filter(|l: LabelView| l.span.file == file)
}

/// The position of the first primary label, or the length where there is none.
pub open spec fn first_primary(labels: Seq<LabelView>) -> nat
    decreases labels.len(),
{
    if labels.len() == 0 || labels[0].style == LabelStyle::Primary {
        0
    } else {
        1 + first_primary(labels.drop_first())
    }
}

/// No primary label comes before the first, and it is one, unless there is none.
pub proof fn lemma_first_primary(labels: Seq<LabelView>)
    ensures
        first_primary(labels) <= labels.len(),
        forall|i: int| 0 <= i < first_primary(labels) ==> labels[i].style != LabelStyle::Primary,
        first_primary(labels) < labels.len() ==> labels[first_primary(labels) as int].style
            == LabelStyle::Primary,
    decreases labels.len(),
{
    if labels.len() > 0 && labels[0].style != LabelStyle::Primary {
        let t = labels.drop_first();
        lemma_first_primary(t);
        assert forall|i: int| 0 <= i < first_primary(labels) implies labels[i].style
            != LabelStyle::Primary by {
            if i > 0 {
                assert(labels[i] == t[i - 1]);
            }
        }
    }
}

/// The label that stands for a file: its first primary one, or its first.
pub open spec fn leading_label(labels: Seq<LabelView>) -> LabelView {
    if first_primary(labels) < labels.len() {
        labels[first_primary(labels) as int]
    } else {
        labels[0]
    }
}

/// The line that says where a label is.
pub open spec fn location(label: LabelView) -> Seq<RunView> {
    seq![
        ("  "@, TextStyle::Plain),
        ("-->"@, TextStyle::BlueBold),
        (" "@, TextStyle::Plain),
        (label.span.file, TextStyle::WhiteBold),
        (":"@, TextStyle::Plain),
        (text::decimal(label.span.line), TextStyle::WhiteBold),
        (":"@, TextStyle::Plain),
        (text::decimal(label.span.column), TextStyle::WhiteBold),
        ("\n"@, TextStyle::Plain),
    ]
}

/// What the sections of a diagnostic have in common.
#[verifier::ext_equal]
pub struct Setting {
    pub lines: Seq<Seq<char>>,
    pub tab_width: nat,
    pub context_lines: nat,
    pub max_line_width: nat,
    pub severity: Severity,
    pub color: bool,
}

/// The setting of a diagnostic of a given severity.
pub open spec fn setting(
    lines: Seq<Seq<char>>,
    options: RenderOptions,
    severity: Severity,
    color: bool,
) -> Setting {
    Setting {
        lines,
        tab_width: options.tab_width as nat,
        context_lines: options.context_lines as nat,
        max_line_width: options.max_line_width as nat,
        severity,
        color,
    }
}

/// The sections of the first `n` files, with blank lines between them.
pub open spec fn file_blocks(labels: Seq<LabelView>, st: Setting, n: nat) -> Seq<RunView>
    decreases n,
{
    if n == 0 {
        seq![]
    } else {
        let files = files_of(labels);
        let mine = labels_in(labels, files[n - 1]);
        file_blocks(labels, st, (n - 1) as nat) + location(leading_label(mine)) + file_section(
            mine,
            st,
        ) + between(n, files.len())
    }
}

/// The blank line after section `n` of `total`, unless it is the last.
pub open spec fn between(n: nat, total: nat) -> Seq<RunView> {
    if n < total {
        seq![("\n"@, TextStyle::Plain)]
    } else {
        seq![]
    }
}

/// The smallest line of labels.
pub open spec fn min_line(labels: Seq<LabelView>) -> nat
    decreases labels.len(),
{
    if labels.len() == 0 {
        0
    } else if labels.len() == 1 {
        labels[0].span.line
    } else {
        min(min_line(labels.drop_last()), labels.last().span.line)
    }
}

/// The largest line of labels.
pub open spec fn max_line(labels: Seq<LabelView>) -> nat
    decreases labels.len(),
{
    if labels.len() == 0 {
        0
    } else {
        max(max_line(labels.drop_last()), labels.last().span.line)
    }
}

/// The first line that a section shows.
pub open spec fn first_shown(labels: Seq<LabelView>, st: Setting) -> nat {
    max(less(min_line(labels), st.context_lines), 1)
}

/// The last line that a section shows.
pub open spec fn last_shown(labels: Seq<LabelView>, st: Setting) -> nat {
    min(max_line(labels) + st.context_lines, st.lines.len())
}

/// The width of a gutter in which the numbers up to `last` are shown.
pub open spec fn gutter_width(last: nat) -> nat {
    max(text::decimal(last).len(), 2)
}

/// A line with nothing but an empty gutter.
pub open spec fn rule(gutter: nat) -> Seq<RunView> {
    seq![
        ("  "@, TextStyle::Plain),
        (width::repeated(' ', gutter), TextStyle::Plain),
        (" "@, TextStyle::Plain),
        ("|"@, TextStyle::BlueBold),
        ("\n"@, TextStyle::Plain),
    ]
}

/// The source lines of one file with its labels. A label on line 0 points at no source text, and
/// nothing is shown of such a file.
pub open spec fn file_section(labels: Seq<LabelView>, st: Setting) -> Seq<RunView> {
    if min_line(labels) == 0 {
        seq![]
    } else {
        let gutter = gutter_width(last_shown(labels, st));
        rule(gutter) + source_rows(labels, st, gutter, last_shown(labels, st)) + rule(gutter)
    }
}

/// The rows of a section from its first line to line `n`.
pub open spec fn source_rows(labels: Seq<LabelView>, st: Setting, gutter: nat, n: nat) -> Seq<
    RunView,
>
    decreases n,
{
    if n < first_shown(labels, st) {
        seq![]
    } else {
        source_rows(labels, st, gutter, (n - 1) as nat) + line_block(labels, st, gutter, n)
    }
}

/// Source line `n`, with the labels on it below.
pub open spec fn line_block(labels: Seq<LabelView>, st: Setting, gutter: nat, n: nat) -> Seq<
    RunView,
> {
    source_row(raw_line(st.lines, n), st, gutter, n) + caret_rows(
        marks_on(labels, st, n),
        st,
        gutter,
        labels_on(labels, n).len(),
    )
}

/// Line `n` as it stands in the source, empty past its end.
pub open spec fn raw_line(lines: Seq<Seq<char>>, n: nat) -> Seq<char> {
    match source::line_at(lines, n) {
        Some(l) => l,
        None => seq![],
    }
}

/// A source line as it is shown: cleaned, with its tabs expanded, cut to the maximum width.
pub open spec fn shown_line(raw: Seq<char>, st: Setting) -> Seq<char> {
    width::truncated(
        width::expanded(text::sanitized(raw, true), st.tab_width),
        st.max_line_width,
    )
}

/// The row of source line `n`.
pub open spec fn source_row(raw: Seq<char>, st: Setting, gutter: nat, n: nat) -> Seq<RunView> {
    seq![
        ("  "@, TextStyle::Plain),
        (text::right_aligned(text::decimal(n), gutter), TextStyle::BlueBold),
        (" "@, TextStyle::Plain),
        ("|"@, TextStyle::BlueBold),
        (" "@, TextStyle::Plain),
        (shown_line(raw, st), TextStyle::Plain),
        ("\n"@, TextStyle::Plain),
    ]
}

/// `label` put into a sequence that is sorted by column, after those of the same column.
pub open spec fn inserted(sorted: Seq<LabelView>, label: LabelView) -> Seq<LabelView>
    decreases sorted.len(),
{
    if sorted.len() == 0 || sorted.last().span.column <= label.span.column {
        sorted.push(label)
    } else {
        inserted(sorted.drop_last(), label).push(sorted.last())
    }
}

/// Labels sorted by column. Those of the same column stay in their order.
pub open spec fn by_column(labels: Seq<LabelView>) -> Seq<LabelView>
    decreases labels.len(),
{
    if labels.len() == 0 {
        seq![]
    } else {
        inserted(by_column(labels.drop_last()), labels.last())
    }
}

/// The last line of a label: labels do not reach past the line on which they begin.
pub open spec fn end_line(label: LabelView) -> nat {
    label.span.line
}

/// Whether a label marks something on line `n`.
pub open spec fn touches(label: LabelView, n: nat) -> bool {
    label.span.line <= n <= end_line(label)
}

/// The labels that mark something on line `n`, by column.
pub open spec fn labels_on(labels: Seq<LabelView>, n: nat) -> Seq<LabelView> {
    by_column(labels.filter(|l: LabelView| touches(l, n)))
}

/// The columns, in bytes from 1, that a label marks on line `n`: the first, and the one after the
/// last. They mark at least one byte and end with the line, unless they begin past its end.
pub open spec fn columns_on(label: LabelView, n: nat, raw: Seq<char>) -> (nat, nat) {
    let line_end = capped(offsets::byte_len(raw) + 1);
    let start = if n == label.span.line {
        max(label.span.column, 1)
    } else {
        1
    };
    let end = if n == label.span.line {
        max(
            capped(label.span.column + label.span.length),
            capped(label.span.column + 1),
        )
    } else {
        line_end
    };
    (start, max(min(end, line_end), capped(start + 1)))
}

/// A label with the place of its carets: the columns before them, and how many they are.
#[verifier::ext_equal]
pub struct Mark {
    pub pad: nat,
    pub len: nat,
    pub label: LabelView,
}

/// The carets of a label on line `n`, which reads `raw`.
pub open spec fn mark_below(label: LabelView, raw: Seq<char>, tab_width: nat, n: nat) -> Mark {
    let (start, end) = columns_on(label, n, raw);
    Mark {
        pad: width::columns(raw.take(width::chars_started(raw, start - 1) as int), tab_width),
        len: max(range_columns(raw, start, end, tab_width), 1),
        label,
    }
}

/// The carets of labels on line `n`, which reads `raw`.
pub open spec fn marks_below(
    labels: Seq<LabelView>,
    raw: Seq<char>,
    tab_width: nat,
    n: nat,
) -> Seq<Mark> {
    labels.map_values(|l: LabelView| mark_below(l, raw, tab_width, n))
}

/// The screen columns of a range of byte columns of a line.
pub open spec fn range_columns(raw: Seq<char>, start: nat, end: nat, tab_width: nat) -> nat {
    if end <= start {
        0
    } else {
        width::columns(
            raw.subrange(
                width::chars_started(raw, start - 1) as int,
                width::chars_started(raw, end - 1) as int,
            ),
            tab_width,
        )
    }
}

/// The carets of the labels on line `n`.
pub open spec fn marks_on(labels: Seq<LabelView>, st: Setting, n: nat) -> Seq<Mark> {
    marks_below(labels_on(labels, n), raw_line(st.lines, n), st.tab_width, n)
}

/// The column in which a row of carets ends.
pub open spec fn caret_end(marks: Seq<Mark>) -> nat
    decreases marks.len(),
{
    if marks.len() == 0 {
        0
    } else {
        max(caret_end(marks.drop_last()), marks.last().pad) + marks.last().len
    }
}

/// The character that underlines a label.
pub open spec fn underline(style: LabelStyle) -> char {
    match style {
        LabelStyle::Primary => '^',
        LabelStyle::Secondary => '-',
    }
}

/// The carets of `marks` from left to right. Where labels overlap, the later carets follow the
/// earlier ones.
pub open spec fn carets(marks: Seq<Mark>, severity: Severity) -> Seq<RunView>
    decreases marks.len(),
{
    if marks.len() == 0 {
        seq![]
    } else {
        let m = marks.last();
        carets(marks.drop_last(), severity).push(
            (
                width::repeated(' ', less(m.pad, caret_end(marks.drop_last()))),
                TextStyle::Plain,
            ),
        ).push(
            (
                width::repeated(underline(m.label.style), m.len),
                style::style_of_label(severity, m.label.style),
            ),
        )
    }
}

/// The row of carets of `marks`, with the message of the last of them, and its note below.
pub open spec fn caret_row(marks: Seq<Mark>, st: Setting, gutter: nat) -> Seq<RunView> {
    seq![
        ("  "@, TextStyle::Plain),
        (width::repeated(' ', gutter), TextStyle::Plain),
        (" "@, TextStyle::Plain),
        ("|"@, TextStyle::BlueBold),
        (" "@, TextStyle::Plain),
    ] + carets(marks, st.severity) + label_message(marks.last().label, st.severity) + seq![
        ("\n"@, TextStyle::Plain),
    ] + label_note(marks.last(), st.color, gutter)
}

/// The message of a label, behind its carets.
pub open spec fn label_message(label: LabelView, severity: Severity) -> Seq<RunView> {
    match label.message {
        Some(msg) => seq![
            (" "@, TextStyle::Plain),
            (
                text::sanitized(msg, false),
                style::style_of_label(severity, label.style),
            ),
        ],
        None => seq![],
    }
}

/// The note of a label, below its carets. Where there are no colors to tell it from a message, a
/// word does.
pub open spec fn label_note(m: Mark, color: bool, gutter: nat) -> Seq<RunView> {
    match m.label.note {
        Some(note) => seq![
            ("  "@, TextStyle::Plain),
            (width::repeated(' ', gutter), TextStyle::Plain),
            (" "@, TextStyle::Plain),
            ("|"@, TextStyle::BlueBold),
            (" "@, TextStyle::Plain),
            (width::repeated(' ', m.pad), TextStyle::Plain),
            ("↳ "@, TextStyle::Plain),
            (
                if color {
                    ""@
                } else {
                    "note: "@
                },
                TextStyle::Plain,
            ),
            (text::sanitized(note, false), TextStyle::CyanItalic),
            ("\n"@, TextStyle::Plain),
        ],
        None => seq![],
    }
}

/// The rows below a source line, for its first `n` labels: the first row has the carets of all of
/// them and the message of the last, each further row those of one label less.
pub open spec fn caret_rows(marks: Seq<Mark>, st: Setting, gutter: nat, n: nat) -> Seq<RunView>
    decreases n,
{
    if n == 0 {
        seq![]
    } else {
        caret_row(marks.take(n as int), st, gutter) + caret_rows(
            marks,
            st,
            gutter,
            (n - 1) as nat,
        )
    }
}

/// A remark below the source lines: `= word: content`.
pub open spec fn remark(word: Seq<char>, content: Seq<char>) -> Seq<RunView> {
    seq![
        ("   "@, TextStyle::Plain),
        ("="@, TextStyle::BlueBold),
        (" "@, TextStyle::Plain),
        (word, TextStyle::CyanBold),
        (": "@, TextStyle::Plain),
        (text::sanitized(content, false), TextStyle::Plain),
        ("\n"@, TextStyle::Plain),
    ]
}

/// The first `n` notes.
pub open spec fn notes(all: Seq<Seq<char>>, n: nat) -> Seq<RunView>
    decreases n,
{
    if n == 0 {
        seq![]
    } else {
        notes(all, (n - 1) as nat) + remark("note"@, all[n - 1])
    }
}

/// The help, where there is any.
pub open spec fn help(text: Option<Seq<char>>) -> Seq<RunView> {
    match text {
        Some(h) => remark("help"@, h),
        None => seq![],
    }
}

/// The byte offsets of a line that a suggestion replaces.
pub open spec fn replaced_bytes(s: SuggestionView, line: Seq<char>) -> (nat, nat) {
    let bytes = offsets::byte_len(line);
    let start = min(less(s.span.column, 1), bytes);
    (start, min(start + s.span.length, bytes))
}

/// What of a line stays before the replacement.
pub open spec fn kept_prefix(s: SuggestionView, line: Seq<char>) -> Seq<char> {
    offsets::snapped_slice(line, 0, replaced_bytes(s, line).0 as int)
}

/// What of a line stays behind the replacement.
pub open spec fn kept_suffix(s: SuggestionView, line: Seq<char>) -> Seq<char> {
    offsets::snapped_slice(
        line,
        replaced_bytes(s, line).1 as int,
        offsets::byte_len(line) as int,
    )
}

/// Pieces with `head` before the first and `tail` behind the last.
pub open spec fn spliced(head: Seq<char>, pieces: Seq<Seq<char>>, tail: Seq<char>) -> Seq<
    Seq<char>,
> {
    Seq::new(
        pieces.len(),
        |i: int|
            (if i == 0 {
                head
            } else {
                seq![]
            }) + pieces[i] + (if i == pieces.len() - 1 {
                tail
            } else {
                seq![]
            }),
    )
}

/// The lines that a suggestion makes of a line.
pub open spec fn rewritten(s: SuggestionView, line: Seq<char>) -> Seq<Seq<char>> {
    spliced(kept_prefix(s, line), lines::pieces_of(s.replacement), kept_suffix(s, line))
}

/// A row of a diff: a line number, a sign and the line.
pub open spec fn diff_row(
    n: nat,
    gutter: nat,
    sign: Seq<char>,
    sign_style: TextStyle,
    body: Seq<char>,
    body_style: TextStyle,
) -> Seq<RunView> {
    seq![
        ("  "@, TextStyle::Plain),
        (text::right_aligned(text::decimal(n), gutter), TextStyle::BlueBold),
        (" "@, TextStyle::Plain),
        (sign, sign_style),
        (" "@, TextStyle::Plain),
        (text::sanitized(body, false), body_style),
        ("\n"@, TextStyle::Plain),
    ]
}

/// The first `n` new lines of a diff whose old line has number `line`.
pub open spec fn added_rows(new_lines: Seq<Seq<char>>, line: nat, gutter: nat, n: nat) -> Seq<
    RunView,
>
    decreases n,
{
    if n == 0 {
        seq![]
    } else {
        added_rows(new_lines, line, gutter, (n - 1) as nat) + diff_row(
            capped((line + (n - 1)) as nat),
            gutter,
            "+"@,
            TextStyle::GreenBold,
            new_lines[n - 1],
            TextStyle::Green,
        )
    }
}

/// The first `n` lines of a replacement whose place is not in the source.
pub open spec fn loose_rows(new_lines: Seq<Seq<char>>, n: nat) -> Seq<RunView>
    decreases n,
{
    if n == 0 {
        seq![]
    } else {
        loose_rows(new_lines, (n - 1) as nat) + seq![
            ("       "@, TextStyle::Plain),
            (text::sanitized(new_lines[n - 1], false), TextStyle::Green),
            ("\n"@, TextStyle::Plain),
        ]
    }
}

/// The diff of a suggestion: the line as it is, and the lines that it becomes. Where the line is
/// not in the source, the replacement alone.
pub open spec fn suggestion_diff(s: SuggestionView, lines: Seq<Seq<char>>) -> Seq<RunView> {
    match source::line_at(lines, s.span.line) {
        None => loose_rows(
            lines::lines_of(s.replacement),
            lines::lines_of(s.replacement).len(),
        ),
        Some(line) => diff(s.span.line, line, rewritten(s, line)),
    }
}

/// Line `n`, and the lines that take its place.
pub open spec fn diff(n: nat, line: Seq<char>, new_lines: Seq<Seq<char>>) -> Seq<RunView> {
    let gutter = gutter_width(capped(n + less(new_lines.len(), 1)));
    rule(gutter) + diff_row(n, gutter, "-"@, TextStyle::RedBold, line, TextStyle::Red)
        + added_rows(new_lines, n, gutter, new_lines.len()) + rule(gutter)
}

/// How far a suggestion may be trusted, where that is known.
pub open spec fn applicability(a: Applicability) -> Seq<RunView> {
    let kind = match a {
        Applicability::MachineApplicable => "auto-applicable"@,
        Applicability::MaybeIncorrect => "review needed"@,
        Applicability::HasPlaceholders => "has placeholders"@,
        Applicability::Unspecified => ""@,
    };
    if a == Applicability::Unspecified {
        seq![]
    } else {
        seq![
            ("       ("@, TextStyle::Plain),
            (kind, TextStyle::Dimmed),
            (")\n"@, TextStyle::Plain),
        ]
    }
}

/// What introduces a suggestion.
pub open spec fn suggestion_title(s: SuggestionView) -> Seq<char> {
    match s.message {
        Some(m) => m,
        None => "try this:"@,
    }
}

/// The first `n` suggestions.
pub open spec fn suggestions(all: Seq<SuggestionView>, lines: Seq<Seq<char>>, n: nat) -> Seq<RunView>
    decreases n,
{
    if n == 0 {
        seq![]
    } else {
        let s = all[n - 1];
        suggestions(all, lines, (n - 1) as nat) + remark("help"@, suggestion_title(s))
            + suggestion_diff(s, lines) + applicability(s.applicability)
    }
}

/// A whole diagnostic, followed by a blank line.
pub open spec fn layout(
    d: DiagnosticView,
    code: Seq<char>,
    url: Option<Seq<char>>,
    lines: Seq<Seq<char>>,
    options: RenderOptions,
    color: bool,
) -> Seq<RunView> {
    header(d.severity, code, d.message, url) + file_blocks(
        d.labels,
        setting(lines, options, d.severity, color),
        files_of(d.labels).len(),
    ) + notes(d.notes, d.notes.len()) + help(d.help) + suggestions(
        d.suggestions,
        lines,
        d.suggestions.len(),
    ) + seq![("\n"@, TextStyle::Plain)]
}

} // verus!
