//! Control characters do not reach the output.

use vstd::prelude::*;
use vstd::string::*;

use crate::diagnostic::{DiagnosticView, LabelView, Severity, SuggestionView};
use crate::document;
use crate::document::RunView;
use crate::laws::output;
use crate::laws::tabs;
use crate::layout;
use crate::layout::{Mark, RenderOptions, Setting};
use crate::lines;
use crate::source;
use crate::style;
use crate::style::TextStyle;
use crate::text;
use crate::width;

verus! {

/// Text of displayable characters.
pub open spec fn is_clean(s: Seq<char>, keep_newlines: bool) -> bool {
    forall|i: int| 0 <= i < s.len() ==> text::is_displayable(#[trigger] s[i], keep_newlines)
}

/// Sanitized text holds nothing that may not be shown.
pub proof fn law_sanitized_is_clean(s: Seq<char>, keep_newlines: bool)
    ensures
        is_clean(text::sanitized(s, keep_newlines), keep_newlines),
    decreases s.len(),
{
    reveal(Seq::filter);
    if s.len() > 0 {
        law_sanitized_is_clean(s.drop_last(), keep_newlines);
    }
}

/// Sanitizing twice is sanitizing once.
pub proof fn law_sanitizing_is_idempotent(s: Seq<char>, keep_newlines: bool)
    ensures
        text::sanitized(text::sanitized(s, keep_newlines), keep_newlines) == text::sanitized(
            s,
            keep_newlines,
        ),
{
    law_sanitized_is_clean(s, keep_newlines);
    text::lemma_sanitized_unchanged(text::sanitized(s, keep_newlines), keep_newlines);
}

proof fn lemma_sanitized_concat(a: Seq<char>, b: Seq<char>, keep_newlines: bool)
    ensures
        text::sanitized(a + b, keep_newlines) == text::sanitized(a, keep_newlines)
            + text::sanitized(b, keep_newlines),
    decreases b.len(),
{
    reveal(Seq::filter);
    if b.len() == 0 {
        assert(a + b == a);
    } else {
        lemma_sanitized_concat(a, b.drop_last(), keep_newlines);
        assert((a + b).drop_last() == a + b.drop_last());
    }
}

/// Visible text survives sanitizing as it stands, whatever is around it.
pub proof fn law_visible_text_survives(
    before: Seq<char>,
    visible: Seq<char>,
    after: Seq<char>,
    keep_newlines: bool,
)
    requires
        is_clean(visible, keep_newlines),
    ensures
        text::sanitized(before + visible + after, keep_newlines) == text::sanitized(
            before,
            keep_newlines,
        ) + visible + text::sanitized(after, keep_newlines),
{
    lemma_sanitized_concat(before + visible, after, keep_newlines);
    lemma_sanitized_concat(before, visible, keep_newlines);
    text::lemma_sanitized_unchanged(visible, keep_newlines);
}

/// Sanitizing goes character by character. It drops the characters below the space and DEL, and
/// keeps every other; of those below the space it keeps the tab, and the newline if asked to.
pub proof fn law_sanitizing_drops_controls_only(
    before: Seq<char>,
    c: char,
    after: Seq<char>,
    keep_newlines: bool,
)
    ensures
        text::sanitized(Seq::<char>::empty(), keep_newlines) == Seq::<char>::empty(),
        text::sanitized(before + seq![c] + after, keep_newlines) == text::sanitized(
            before,
            keep_newlines,
        ) + (if c == '\t' || (c == '\n' && keep_newlines) || (c >= ' ' && c != '\u{7f}') {
            seq![c]
        } else {
            seq![]
        }) + text::sanitized(after, keep_newlines),
{
    reveal(Seq::filter);
    lemma_sanitized_concat(before + seq![c], after, keep_newlines);
    lemma_sanitized_concat(before, seq![c], keep_newlines);
    assert(seq![c].drop_last() == Seq::<char>::empty());
    assert(text::sanitized(Seq::<char>::empty(), keep_newlines) == Seq::<char>::empty());
    assert(text::sanitized(seq![c], keep_newlines) == if text::is_displayable(c, keep_newlines) {
        seq![c]
    } else {
        seq![]
    });
}

/// Runs whose text may all be shown, newlines included.
pub open spec fn are_clean(runs: Seq<RunView>) -> bool {
    forall|i: int| 0 <= i < runs.len() ==> is_clean(#[trigger] runs[i].0, true)
}

proof fn lemma_clean_concat(a: Seq<RunView>, b: Seq<RunView>)
    requires
        are_clean(a),
        are_clean(b),
    ensures
        are_clean(a + b),
{
}

proof fn lemma_single_line_is_clean(s: Seq<char>)
    ensures
        is_clean(text::sanitized(s, false), true),
{
    law_sanitized_is_clean(s, false);
    let t = text::sanitized(s, false);
    assert forall|i: int| 0 <= i < t.len() implies text::is_displayable(#[trigger] t[i], true) by {
        assert(text::is_displayable(t[i], false));
    }
}

pub(crate) proof fn lemma_decimal_is_clean(n: nat)
    ensures
        is_clean(text::decimal(n), true),
        is_clean(text::decimal(n), false),
    decreases n,
{
    if n >= 10 {
        lemma_decimal_is_clean(n / 10);
    }
}

proof fn lemma_expanded_is_clean(s: Seq<char>, tab_width: nat)
    requires
        is_clean(s, true),
    ensures
        is_clean(width::expanded(s, tab_width), true),
    decreases s.len(),
{
    if s.len() > 0 {
        let t = s.drop_last();
        assert forall|i: int| 0 <= i < t.len() implies text::is_displayable(
            #[trigger] t[i],
            true,
        ) by {
            assert(t[i] == s[i]);
        }
        lemma_expanded_is_clean(t, tab_width);
        assert(text::is_displayable(s[s.len() - 1], true));
    }
}

proof fn lemma_shown_line_is_clean(raw: Seq<char>, st: Setting)
    ensures
        is_clean(layout::shown_line(raw, st), true),
{
    let safe = text::sanitized(raw, true);
    law_sanitized_is_clean(raw, true);
    lemma_expanded_is_clean(safe, st.tab_width);
    let wide = width::expanded(safe, st.tab_width);
    tabs::lemma_fitting(wide, st.max_line_width - 1);
}

/// Labels whose file names may be shown.
pub open spec fn have_clean_files(labels: Seq<LabelView>) -> bool {
    forall|i: int| 0 <= i < labels.len() ==> is_clean(#[trigger] labels[i].span.file, true)
}

proof fn lemma_literals_are_clean()
    ensures
        is_clean(""@, true),
        is_clean(" "@, true),
        is_clean("  "@, true),
        is_clean("   "@, true),
        is_clean("       "@, true),
        is_clean("\n"@, true),
        is_clean("|"@, true),
        is_clean(":"@, true),
        is_clean(": "@, true),
        is_clean("="@, true),
        is_clean("-->"@, true),
        is_clean("-"@, true),
        is_clean("+"@, true),
        is_clean("note"@, true),
        is_clean("help"@, true),
        is_clean("note: "@, true),
        is_clean("↳ "@, true),
        is_clean(": ["@, true),
        is_clean("]: "@, true),
        is_clean("(see "@, true),
        is_clean(")"@, true),
        is_clean("       ("@, true),
        is_clean(")\n"@, true),
        is_clean("auto-applicable"@, true),
        is_clean("review needed"@, true),
        is_clean("has placeholders"@, true),
        is_clean("error"@, true),
        is_clean("warning"@, true),
{
    reveal_strlit("");
    reveal_strlit(" ");
    reveal_strlit("  ");
    reveal_strlit("   ");
    reveal_strlit("       ");
    reveal_strlit("\n");
    reveal_strlit("|");
    reveal_strlit(":");
    reveal_strlit(": ");
    reveal_strlit("=");
    reveal_strlit("-->");
    reveal_strlit("-");
    reveal_strlit("+");
    reveal_strlit("note");
    reveal_strlit("help");
    reveal_strlit("note: ");
    reveal_strlit("↳ ");
    reveal_strlit(": [");
    reveal_strlit("]: ");
    reveal_strlit("(see ");
    reveal_strlit(")");
    reveal_strlit("       (");
    reveal_strlit(")\n");
    reveal_strlit("auto-applicable");
    reveal_strlit("review needed");
    reveal_strlit("has placeholders");
    reveal_strlit("error");
    reveal_strlit("warning");
}

proof fn lemma_header_is_clean(
    severity: Severity,
    code: Seq<char>,
    message: Seq<char>,
    url: Option<Seq<char>>,
)
    requires
        is_clean(code, true),
        url matches Some(u) ==> is_clean(u, true),
    ensures
        are_clean(layout::header(severity, code, message, url)),
{
    lemma_literals_are_clean();
    lemma_single_line_is_clean(message);
    assert(are_clean(layout::link(url)));
}

proof fn lemma_rule_is_clean(gutter: nat)
    ensures
        are_clean(layout::rule(gutter)),
{
    lemma_literals_are_clean();
}

proof fn lemma_source_row_is_clean(raw: Seq<char>, st: Setting, gutter: nat, n: nat)
    ensures
        are_clean(layout::source_row(raw, st, gutter, n)),
{
    lemma_literals_are_clean();
    lemma_decimal_is_clean(n);
    lemma_shown_line_is_clean(raw, st);
}

proof fn lemma_carets_are_clean(marks: Seq<Mark>, severity: Severity)
    ensures
        are_clean(layout::carets(marks, severity)),
    decreases marks.len(),
{
    if marks.len() > 0 {
        lemma_carets_are_clean(marks.drop_last(), severity);
    }
}

proof fn lemma_caret_row_is_clean(marks: Seq<Mark>, st: Setting, gutter: nat)
    ensures
        are_clean(layout::caret_row(marks, st, gutter)),
{
    lemma_literals_are_clean();
    lemma_carets_are_clean(marks, st.severity);
    let label = marks.last().label;
    if let Some(msg) = label.message {
        lemma_single_line_is_clean(msg);
    }
    if let Some(note) = label.note {
        lemma_single_line_is_clean(note);
    }
    assert(are_clean(layout::label_message(label, st.severity)));
    assert(are_clean(layout::label_note(marks.last(), st.color, gutter)));
}

proof fn lemma_caret_rows_are_clean(marks: Seq<Mark>, st: Setting, gutter: nat, n: nat)
    ensures
        are_clean(layout::caret_rows(marks, st, gutter, n)),
    decreases n,
{
    if n > 0 {
        lemma_caret_row_is_clean(marks.take(n as int), st, gutter);
        lemma_caret_rows_are_clean(marks, st, gutter, (n - 1) as nat);
    }
}

proof fn lemma_source_rows_are_clean(labels: Seq<LabelView>, st: Setting, gutter: nat, n: nat)
    ensures
        are_clean(layout::source_rows(labels, st, gutter, n)),
    decreases n,
{
    if n >= layout::first_shown(labels, st) {
        lemma_source_rows_are_clean(labels, st, gutter, (n - 1) as nat);
        lemma_source_row_is_clean(layout::raw_line(st.lines, n), st, gutter, n);
        lemma_caret_rows_are_clean(
            layout::marks_on(labels, st, n),
            st,
            gutter,
            layout::labels_on(labels, n).len(),
        );
        lemma_clean_concat(
            layout::source_rows(labels, st, gutter, (n - 1) as nat),
            layout::line_block(labels, st, gutter, n),
        );
    }
}

proof fn lemma_file_blocks_are_clean(labels: Seq<LabelView>, st: Setting, n: nat)
    requires
        have_clean_files(labels),
        n <= layout::files_of(labels).len(),
    ensures
        are_clean(layout::file_blocks(labels, st, n)),
    decreases n,
{
    if n > 0 {
        let file = layout::files_of(labels)[n - 1];
        let mine = layout::labels_in(labels, file);
        lemma_file_blocks_are_clean(labels, st, (n - 1) as nat);
        lemma_literals_are_clean();
        let lead = layout::leading_label(mine);
        lemma_leading_label(labels, (n - 1) as nat);
        lemma_decimal_is_clean(lead.span.line);
        lemma_decimal_is_clean(lead.span.column);
        assert(are_clean(layout::location(lead)));
        let last = layout::last_shown(mine, st);
        lemma_rule_is_clean(layout::gutter_width(last));
        lemma_source_rows_are_clean(mine, st, layout::gutter_width(last), last);
        assert(are_clean(layout::file_section(mine, st)));
        assert(are_clean(layout::between(n, layout::files_of(labels).len())));
    }
}

/// The label that stands for a file is one of the labels, and lies in that file.
proof fn lemma_leading_label(labels: Seq<LabelView>, i: nat)
    requires
        i < layout::files_of(labels).len(),
    ensures
        ({
            let file = layout::files_of(labels)[i as int];
            let lead = layout::leading_label(layout::labels_in(labels, file));
            &&& labels.contains(lead)
            &&& lead.span.file == file
        }),
{
    let file = layout::files_of(labels)[i as int];
    let pred = |l: LabelView| l.span.file == file;
    let mine = layout::labels_in(labels, file);
    layout::lemma_file_has_label(labels, i as int);
    let lead = layout::leading_label(mine);
    layout::lemma_first_primary(mine);
    let k = if layout::first_primary(mine) < mine.len() {
        layout::first_primary(mine) as int
    } else {
        0
    };
    assert(mine[k] == lead);
    labels.lemma_filter_contains_rev(pred, lead);
    labels.lemma_filter_pred(pred, k);
}

proof fn lemma_remark_is_clean(word: Seq<char>, content: Seq<char>)
    requires
        is_clean(word, true),
    ensures
        are_clean(layout::remark(word, content)),
{
    lemma_literals_are_clean();
    lemma_single_line_is_clean(content);
}

proof fn lemma_notes_are_clean(all: Seq<Seq<char>>, n: nat)
    ensures
        are_clean(layout::notes(all, n)),
    decreases n,
{
    lemma_literals_are_clean();
    if n > 0 {
        lemma_notes_are_clean(all, (n - 1) as nat);
        lemma_remark_is_clean("note"@, all[n - 1]);
    }
}

proof fn lemma_diff_row_is_clean(
    n: nat,
    gutter: nat,
    sign: Seq<char>,
    sign_style: TextStyle,
    body: Seq<char>,
    body_style: TextStyle,
)
    requires
        is_clean(sign, true),
    ensures
        are_clean(layout::diff_row(n, gutter, sign, sign_style, body, body_style)),
{
    lemma_literals_are_clean();
    lemma_decimal_is_clean(n);
    lemma_single_line_is_clean(body);
}

proof fn lemma_added_rows_are_clean(new_lines: Seq<Seq<char>>, line: nat, gutter: nat, n: nat)
    ensures
        are_clean(layout::added_rows(new_lines, line, gutter, n)),
    decreases n,
{
    lemma_literals_are_clean();
    if n > 0 {
        lemma_added_rows_are_clean(new_lines, line, gutter, (n - 1) as nat);
        lemma_diff_row_is_clean(
            layout::capped((line + (n - 1)) as nat),
            gutter,
            "+"@,
            TextStyle::GreenBold,
            new_lines[n - 1],
            TextStyle::Green,
        );
    }
}

proof fn lemma_loose_rows_are_clean(new_lines: Seq<Seq<char>>, n: nat)
    ensures
        are_clean(layout::loose_rows(new_lines, n)),
    decreases n,
{
    lemma_literals_are_clean();
    if n > 0 {
        lemma_loose_rows_are_clean(new_lines, (n - 1) as nat);
        lemma_single_line_is_clean(new_lines[n - 1]);
    }
}

proof fn lemma_suggestion_diff_is_clean(s: SuggestionView, lines: Seq<Seq<char>>)
    ensures
        are_clean(layout::suggestion_diff(s, lines)),
{
    lemma_literals_are_clean();
    let loose = lines::lines_of(s.replacement);
    lemma_loose_rows_are_clean(loose, loose.len());
    if let Some(line) = source::line_at(lines, s.span.line) {
        let new_lines = layout::rewritten(s, line);
        let gutter = layout::gutter_width(
            layout::capped(s.span.line + layout::less(new_lines.len(), 1)),
        );
        lemma_rule_is_clean(gutter);
        lemma_diff_row_is_clean(
            s.span.line,
            gutter,
            "-"@,
            TextStyle::RedBold,
            line,
            TextStyle::Red,
        );
        lemma_added_rows_are_clean(new_lines, s.span.line, gutter, new_lines.len());
    }
}

proof fn lemma_suggestions_are_clean(all: Seq<SuggestionView>, lines: Seq<Seq<char>>, n: nat)
    ensures
        are_clean(layout::suggestions(all, lines, n)),
    decreases n,
{
    lemma_literals_are_clean();
    if n > 0 {
        let s = all[n - 1];
        lemma_suggestions_are_clean(all, lines, (n - 1) as nat);
        lemma_remark_is_clean("help"@, layout::suggestion_title(s));
        lemma_suggestion_diff_is_clean(s, lines);
        assert(are_clean(layout::applicability(s.applicability)));
    }
}

proof fn lemma_plain_text_is_clean(runs: Seq<RunView>)
    requires
        are_clean(runs),
    ensures
        is_clean(document::plain_text(runs), true),
    decreases runs.len(),
{
    let parts = runs.map_values(|r: RunView| r.0);
    if runs.len() > 0 {
        let t = runs.drop_last();
        assert forall|i: int| 0 <= i < t.len() implies is_clean(#[trigger] t[i].0, true) by {
            assert(t[i] == runs[i]);
        }
        lemma_plain_text_is_clean(t);
        assert(t.map_values(|r: RunView| r.0) == parts.drop_last());
        assert(is_clean(runs[runs.len() - 1].0, true));
    }
}

/// The runs of a diagnostic are clean, as long as its code, link and file names are.
proof fn lemma_layout_is_clean(
    d: DiagnosticView,
    code: Seq<char>,
    url: Option<Seq<char>>,
    lines: Seq<Seq<char>>,
    options: RenderOptions,
    color: bool,
)
    requires
        is_clean(code, true),
        url matches Some(u) ==> is_clean(u, true),
        have_clean_files(d.labels),
    ensures
        are_clean(layout::layout(d, code, url, lines, options, color)),
{
    lemma_literals_are_clean();
    lemma_header_is_clean(d.severity, code, d.message, url);
    lemma_file_blocks_are_clean(
        d.labels,
        layout::setting(lines, options, d.severity, color),
        layout::files_of(d.labels).len(),
    );
    lemma_notes_are_clean(d.notes, d.notes.len());
    if let Some(h) = d.help {
        lemma_remark_is_clean("help"@, h);
    }
    assert(are_clean(layout::help(d.help)));
    lemma_suggestions_are_clean(d.suggestions, lines, d.suggestions.len());
}

/// The text of a diagnostic holds no C0 control characters but tabs and newlines, and no DEL,
/// whatever its source, messages, notes and replacements hold, as long as its code, link and file
/// names hold none.
pub proof fn law_plain_output_is_clean(
    d: DiagnosticView,
    code: Seq<char>,
    url: Option<Seq<char>>,
    lines: Seq<Seq<char>>,
    options: RenderOptions,
    color: bool,
)
    requires
        is_clean(code, true),
        url matches Some(u) ==> is_clean(u, true),
        have_clean_files(d.labels),
    ensures
        is_clean(
            document::plain_text(layout::layout(d, code, url, lines, options, color)),
            true,
        ),
{
    lemma_layout_is_clean(d, code, url, lines, options, color);
    lemma_plain_text_is_clean(layout::layout(d, code, url, lines, options, color));
}

/// Whether `part` is `text`, which is clean, alone or with terminal sequences of `style` around it.
pub open spec fn is_clean_part(text: Seq<char>, style: TextStyle, part: Seq<char>) -> bool {
    &&& is_clean(text, true)
    &&& {
        ||| part == text
        ||| part == text + style::turn_off()
        ||| part == style::turn_on(style) + text + style::turn_off()
    }
}

/// With colors on, each part of the output is clean text, and the only terminal sequences are those
/// that turn its style on before it and off behind it.
pub proof fn law_colored_output_is_clean(
    d: DiagnosticView,
    code: Seq<char>,
    url: Option<Seq<char>>,
    lines: Seq<Seq<char>>,
    options: RenderOptions,
    parts: Seq<Seq<char>>,
)
    requires
        is_clean(code, true),
        url matches Some(u) ==> is_clean(u, true),
        have_clean_files(d.labels),
        document::shown_as(layout::layout(d, code, url, lines, options, true), true, parts),
    ensures
        ({
            let runs = layout::layout(d, code, url, lines, options, true);
            &&& parts.len() == runs.len()
            &&& forall|i: int|
                0 <= i < runs.len() ==> is_clean_part(runs[i].0, runs[i].1, #[trigger] parts[i])
        }),
{
    let runs = layout::layout(d, code, url, lines, options, true);
    lemma_layout_is_clean(d, code, url, lines, options, true);
    assert forall|i: int| 0 <= i < runs.len() implies is_clean_part(
        runs[i].0,
        runs[i].1,
        #[trigger] parts[i],
    ) by {
        let text = runs[i].0;
        assert(is_clean(text, true));
        assert forall|j: int| 0 <= j < text.len() implies #[trigger] text[j] != '\u{1b}' by {
            assert(text::is_displayable(text[j], true));
        }
        output::law_colors_keep_the_text(text, runs[i].1, true, parts[i]);
    }
}

} // verus!
