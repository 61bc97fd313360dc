//! What a rendered diagnostic is sure to show.

use vstd::prelude::*;
use vstd::string::*;

use crate::diagnostic::{DiagnosticView, LabelView, SuggestionView};
use crate::document;
use crate::document::RunView;
use crate::laws::order;
use crate::layout;
use crate::layout::{Mark, RenderOptions, Setting};
use crate::lines;
use crate::source;
use crate::style;
use crate::style::TextStyle;
use crate::text;

verus! {

/// Whether `part` stands somewhere in `whole`.
pub open spec fn occurs(part: Seq<char>, whole: Seq<char>) -> bool {
    exists|i: int|
        0 <= i <= whole.len() - part.len() && #[trigger] whole.subrange(i, i + part.len()) == part
}

proof fn lemma_occurs_between(before: Seq<char>, part: Seq<char>, after: Seq<char>)
    ensures
        occurs(part, before + part + after),
{
    let i = before.len() as int;
    assert((before + part + after).subrange(i, i + part.len()) == part);
}

/// The text of a run is part of the text of all runs.
proof fn lemma_run_occurs(runs: Seq<RunView>, run: RunView)
    requires
        runs.contains(run),
    ensures
        occurs(run.0, document::plain_text(runs)),
{
    let k = choose|k: int| 0 <= k < runs.len() && runs[k] == run;
    let before = runs.take(k);
    let one = seq![run];
    let after = runs.skip(k + 1);
    assert(runs == before + one + after);
    document::lemma_plain_text_concat(before + one, after);
    document::lemma_plain_text_concat(before, one);
    assert(document::plain_text(one) == run.0) by {
        let parts = one.map_values(|r: RunView| r.0);
        assert(parts.drop_last() == Seq::<Seq<char>>::empty());
        assert(document::joined(parts.drop_last()) == Seq::<char>::empty());
        assert(document::joined(parts) == document::joined(parts.drop_last()) + parts.last());
        assert(parts.last() == run.0);
    }
    lemma_occurs_between(document::plain_text(before), run.0, document::plain_text(after));
}

proof fn lemma_in_concat(a: Seq<RunView>, b: Seq<RunView>, run: RunView)
    ensures
        a.contains(run) || b.contains(run) ==> (a + b).contains(run),
{
    if a.contains(run) {
        let k = choose|k: int| 0 <= k < a.len() && a[k] == run;
        assert((a + b)[k] == run);
    } else if b.contains(run) {
        let k = choose|k: int| 0 <= k < b.len() && b[k] == run;
        assert((a + b)[a.len() + k] == run);
    }
}

proof fn lemma_in_layout(
    d: DiagnosticView,
    code: Seq<char>,
    url: Option<Seq<char>>,
    lines: Seq<Seq<char>>,
    options: RenderOptions,
    color: bool,
    run: RunView,
)
    requires
        ({
            ||| layout::header(d.severity, code, d.message, url).contains(run)
            ||| layout::file_blocks(
                d.labels,
                layout::setting(lines, options, d.severity, color),
                layout::files_of(d.labels).len(),
            ).contains(run)
            ||| layout::notes(d.notes, d.notes.len()).contains(run)
            ||| layout::help(d.help).contains(run)
            ||| layout::suggestions(d.suggestions, lines, d.suggestions.len()).contains(run)
        }),
    ensures
        layout::layout(d, code, url, lines, options, color).contains(run),
{
    let h = layout::header(d.severity, code, d.message, url);
    let f = layout::file_blocks(
        d.labels,
        layout::setting(lines, options, d.severity, color),
        layout::files_of(d.labels).len(),
    );
    let n = layout::notes(d.notes, d.notes.len());
    let p = layout::help(d.help);
    let s = layout::suggestions(d.suggestions, lines, d.suggestions.len());
    lemma_in_concat(h, f, run);
    lemma_in_concat(h + f, n, run);
    lemma_in_concat(h + f + n, p, run);
    lemma_in_concat(h + f + n + p, s, run);
    lemma_in_concat(h + f + n + p + s, seq![("\n"@, TextStyle::Plain)], run);
}

/// Every diagnostic shows its code and its message. Of the message, what may not be shown on one
/// line is left out.
pub proof fn law_code_and_message_are_shown(
    d: DiagnosticView,
    code: Seq<char>,
    url: Option<Seq<char>>,
    lines: Seq<Seq<char>>,
    options: RenderOptions,
    color: bool,
)
    ensures
        occurs(code, document::plain_text(layout::layout(d, code, url, lines, options, color))),
        occurs(
            text::sanitized(d.message, false),
            document::plain_text(layout::layout(d, code, url, lines, options, color)),
        ),
{
    let h = layout::header(d.severity, code, d.message, url);
    let all = layout::layout(d, code, url, lines, options, color);
    let shown_code = (code, style::style_of_severity(d.severity));
    let shown_message = (text::sanitized(d.message, false), TextStyle::Plain);
    assert(h[2] == shown_code);
    assert(h[4] == shown_message);
    lemma_in_layout(d, code, url, lines, options, color, shown_code);
    lemma_in_layout(d, code, url, lines, options, color, shown_message);
    lemma_run_occurs(all, shown_code);
    lemma_run_occurs(all, shown_message);
}

proof fn lemma_message_in_row(marks: Seq<Mark>, st: Setting, gutter: nat)
    requires
        marks.len() > 0,
        marks.last().label.message is Some,
    ensures
        layout::caret_row(marks, st, gutter).contains(
            (
                text::sanitized(marks.last().label.message->0, false),
                style::style_of_label(st.severity, marks.last().label.style),
            ),
        ),
{
    let label = marks.last().label;
    let run = (
        text::sanitized(label.message->0, false),
        style::style_of_label(st.severity, label.style),
    );
    let msg = layout::label_message(label, st.severity);
    assert(msg[1] == run);
    let lead: Seq<RunView> = seq![
        ("  "@, TextStyle::Plain),
        (crate::width::repeated(' ', gutter), TextStyle::Plain),
        (" "@, TextStyle::Plain),
        ("|"@, TextStyle::BlueBold),
        (" "@, TextStyle::Plain),
    ];
    let carets = layout::carets(marks, st.severity);
    let newline: Seq<RunView> = seq![("\n"@, TextStyle::Plain)];
    let note = layout::label_note(marks.last(), st.color, gutter);
    lemma_in_concat(lead + carets, msg, run);
    lemma_in_concat(lead + carets + msg, newline, run);
    lemma_in_concat(lead + carets + msg + newline, note, run);
}

proof fn lemma_message_in_rows(marks: Seq<Mark>, st: Setting, gutter: nat, n: nat, k: int)
    requires
        0 <= k < n <= marks.len(),
        marks[k].label.message is Some,
    ensures
        layout::caret_rows(marks, st, gutter, n).contains(
            (
                text::sanitized(marks[k].label.message->0, false),
                style::style_of_label(st.severity, marks[k].label.style),
            ),
        ),
    decreases n,
{
    let run = (
        text::sanitized(marks[k].label.message->0, false),
        style::style_of_label(st.severity, marks[k].label.style),
    );
    let first = marks.take(n as int);
    if k == n - 1 {
        assert(first.last() == marks[k]);
        lemma_message_in_row(first, st, gutter);
    } else {
        lemma_message_in_rows(marks, st, gutter, (n - 1) as nat, k);
    }
    lemma_in_concat(
        layout::caret_row(first, st, gutter),
        layout::caret_rows(marks, st, gutter, (n - 1) as nat),
        run,
    );
}

proof fn lemma_message_in_block(
    labels: Seq<LabelView>,
    st: Setting,
    gutter: nat,
    label: LabelView,
)
    requires
        labels.contains(label),
        label.message is Some,
    ensures
        layout::line_block(labels, st, gutter, label.span.line).contains(
            (
                text::sanitized(label.message->0, false),
                style::style_of_label(st.severity, label.style),
            ),
        ),
{
    broadcast use vstd::seq_lib::group_to_multiset_ensures;

    let n = label.span.line;
    let touching = labels.filter(|l: LabelView| layout::touches(l, n));
    let i = choose|i: int| 0 <= i < labels.len() && labels[i] == label;
    labels.lemma_filter_contains(|l: LabelView| layout::touches(l, n), i);
    let sorted = layout::labels_on(labels, n);
    order::law_labels_are_sorted_stably(touching);
    assert(touching.to_multiset().count(label) > 0);
    assert(sorted.to_multiset().count(label) > 0);
    assert(sorted.contains(label));
    let k = choose|k: int| 0 <= k < sorted.len() && sorted[k] == label;
    let marks = layout::marks_on(labels, st, n);
    assert(marks[k].label == label);
    lemma_message_in_rows(marks, st, gutter, sorted.len(), k);
    lemma_in_concat(
        layout::source_row(layout::raw_line(st.lines, n), st, gutter, n),
        layout::caret_rows(marks, st, gutter, sorted.len()),
        (
            text::sanitized(label.message->0, false),
            style::style_of_label(st.severity, label.style),
        ),
    );
}

proof fn lemma_block_in_rows(
    labels: Seq<LabelView>,
    st: Setting,
    gutter: nat,
    n: nat,
    line: nat,
    run: RunView,
)
    requires
        layout::first_shown(labels, st) <= line <= n,
        layout::line_block(labels, st, gutter, line).contains(run),
    ensures
        layout::source_rows(labels, st, gutter, n).contains(run),
    decreases n,
{
    if line < n {
        lemma_block_in_rows(labels, st, gutter, (n - 1) as nat, line, run);
    }
    lemma_in_concat(
        layout::source_rows(labels, st, gutter, (n - 1) as nat),
        layout::line_block(labels, st, gutter, n),
        run,
    );
}

proof fn lemma_line_range(labels: Seq<LabelView>, k: int)
    requires
        0 <= k < labels.len(),
    ensures
        layout::min_line(labels) <= labels[k].span.line <= layout::max_line(labels),
    decreases labels.len(),
{
    if k < labels.len() - 1 {
        lemma_line_range(labels.drop_last(), k);
        assert(labels.drop_last()[k] == labels[k]);
    }
}

proof fn lemma_min_line_is_a_line(labels: Seq<LabelView>)
    requires
        labels.len() > 0,
    ensures
        exists|k: int|
            0 <= k < labels.len() && (#[trigger] labels[k]).span.line == layout::min_line(labels),
    decreases labels.len(),
{
    if labels.len() == 1 {
        assert(labels[0].span.line == layout::min_line(labels));
    } else {
        let t = labels.drop_last();
        lemma_min_line_is_a_line(t);
        let k = choose|k: int|
            0 <= k < t.len() && (#[trigger] t[k]).span.line == layout::min_line(t);
        assert(labels[k] == t[k]);
        assert(labels[labels.len() - 1] == labels.last());
    }
}

proof fn lemma_section_in_blocks(
    labels: Seq<LabelView>,
    st: Setting,
    n: nat,
    k: int,
    run: RunView,
)
    requires
        0 <= k < n <= layout::files_of(labels).len(),
        layout::file_section(layout::labels_in(labels, layout::files_of(labels)[k]), st).contains(
            run,
        ),
    ensures
        layout::file_blocks(labels, st, n).contains(run),
    decreases n,
{
    let files = layout::files_of(labels);
    let mine = layout::labels_in(labels, files[n - 1]);
    let before = layout::file_blocks(labels, st, (n - 1) as nat);
    let place = layout::location(layout::leading_label(mine));
    let section = layout::file_section(mine, st);
    if k < n - 1 {
        lemma_section_in_blocks(labels, st, (n - 1) as nat, k, run);
    }
    lemma_in_concat(before, place, run);
    lemma_in_concat(before + place, section, run);
    lemma_in_concat(before + place + section, layout::between(n, files.len()), run);
}

/// The message of every label on a line of the source is shown, unless another label in its file
/// has line 0. Of the message, what may not be shown on one line is left out.
pub proof fn law_label_messages_are_shown(
    d: DiagnosticView,
    code: Seq<char>,
    url: Option<Seq<char>>,
    lines: Seq<Seq<char>>,
    options: RenderOptions,
    color: bool,
    label: LabelView,
)
    requires
        d.labels.contains(label),
        label.message is Some,
        label.span.line <= lines.len(),
        forall|i: int|
            0 <= i < d.labels.len() && (#[trigger] d.labels[i]).span.file == label.span.file
                ==> d.labels[i].span.line > 0,
    ensures
        occurs(
            text::sanitized(label.message->0, false),
            document::plain_text(layout::layout(d, code, url, lines, options, color)),
        ),
{
    let st = layout::setting(lines, options, d.severity, color);
    let file = label.span.file;
    let run = (
        text::sanitized(label.message->0, false),
        style::style_of_label(d.severity, label.style),
    );
    let i = choose|i: int| 0 <= i < d.labels.len() && d.labels[i] == label;
    order::law_files_are_listed_once(d.labels);
    assert(layout::files_of(d.labels).contains(d.labels[i].span.file));
    let k = choose|k: int|
        0 <= k < layout::files_of(d.labels).len() && layout::files_of(d.labels)[k] == file;

    let in_file = |l: LabelView| l.span.file == file;
    let mine = layout::labels_in(d.labels, file);
    d.labels.lemma_filter_contains(in_file, i);
    let j = choose|j: int| 0 <= j < mine.len() && mine[j] == label;
    lemma_line_range(mine, j);
    lemma_min_line_is_a_line(mine);
    let m = choose|m: int|
        0 <= m < mine.len() && (#[trigger] mine[m]).span.line == layout::min_line(mine);
    d.labels.lemma_filter_contains_rev(in_file, mine[m]);
    d.labels.lemma_filter_pred(in_file, m);
    let w = choose|w: int| 0 <= w < d.labels.len() && d.labels[w] == mine[m];
    assert(d.labels[w].span.line > 0);

    let last = layout::last_shown(mine, st);
    let gutter = layout::gutter_width(last);
    lemma_message_in_block(mine, st, gutter, label);
    lemma_block_in_rows(mine, st, gutter, last, label.span.line, run);
    let edge = layout::rule(gutter);
    let rows = layout::source_rows(mine, st, gutter, last);
    lemma_in_concat(edge, rows, run);
    lemma_in_concat(edge + rows, edge, run);
    lemma_section_in_blocks(d.labels, st, layout::files_of(d.labels).len(), k, run);
    lemma_in_layout(d, code, url, lines, options, color, run);
    lemma_run_occurs(layout::layout(d, code, url, lines, options, color), run);
}

proof fn lemma_note_in_notes(all: Seq<Seq<char>>, n: nat, k: int)
    requires
        0 <= k < n <= all.len(),
    ensures
        layout::notes(all, n).contains((text::sanitized(all[k], false), TextStyle::Plain)),
    decreases n,
{
    let run = (text::sanitized(all[k], false), TextStyle::Plain);
    let row = layout::remark("note"@, all[n - 1]);
    if k < n - 1 {
        lemma_note_in_notes(all, (n - 1) as nat, k);
    } else {
        assert(row[5] == run);
    }
    lemma_in_concat(layout::notes(all, (n - 1) as nat), row, run);
}

/// Every note is shown, and the help. What of them may not be shown on one line is left out.
pub proof fn law_notes_and_help_are_shown(
    d: DiagnosticView,
    code: Seq<char>,
    url: Option<Seq<char>>,
    lines: Seq<Seq<char>>,
    options: RenderOptions,
    color: bool,
)
    ensures
        forall|k: int|
            0 <= k < d.notes.len() ==> occurs(
                text::sanitized(#[trigger] d.notes[k], false),
                document::plain_text(layout::layout(d, code, url, lines, options, color)),
            ),
        d.help matches Some(h) ==> occurs(
            text::sanitized(h, false),
            document::plain_text(layout::layout(d, code, url, lines, options, color)),
        ),
{
    let all = layout::layout(d, code, url, lines, options, color);
    assert forall|k: int| 0 <= k < d.notes.len() implies occurs(
        text::sanitized(#[trigger] d.notes[k], false),
        document::plain_text(all),
    ) by {
        let run = (text::sanitized(d.notes[k], false), TextStyle::Plain);
        lemma_note_in_notes(d.notes, d.notes.len(), k);
        lemma_in_layout(d, code, url, lines, options, color, run);
        lemma_run_occurs(all, run);
    }
    if let Some(h) = d.help {
        let run = (text::sanitized(h, false), TextStyle::Plain);
        assert(layout::help(d.help)[5] == run);
        lemma_in_layout(d, code, url, lines, options, color, run);
        lemma_run_occurs(all, run);
    }
}

proof fn lemma_suggestion_in_suggestions(
    d: DiagnosticView,
    lines: Seq<Seq<char>>,
    n: nat,
    k: int,
    run: RunView,
)
    requires
        0 <= k < n <= d.suggestions.len(),
        ({
            ||| layout::remark("help"@, layout::suggestion_title(d.suggestions[k])).contains(run)
            ||| layout::suggestion_diff(d.suggestions[k], lines).contains(run)
        }),
    ensures
        layout::suggestions(d.suggestions, lines, n).contains(run),
    decreases n,
{
    let s = d.suggestions[n - 1];
    let before = layout::suggestions(d.suggestions, lines, (n - 1) as nat);
    let title = layout::remark("help"@, layout::suggestion_title(s));
    let diff = layout::suggestion_diff(s, lines);
    if k < n - 1 {
        lemma_suggestion_in_suggestions(d, lines, (n - 1) as nat, k, run);
    }
    lemma_in_concat(before, title, run);
    lemma_in_concat(before + title, diff, run);
    lemma_in_concat(before + title + diff, layout::applicability(s.applicability), run);
}

proof fn lemma_line_in_added_rows(new_lines: Seq<Seq<char>>, line: nat, gutter: nat, n: nat, k: int)
    requires
        0 <= k < n <= new_lines.len(),
    ensures
        layout::added_rows(new_lines, line, gutter, n).contains(
            (text::sanitized(new_lines[k], false), TextStyle::Green),
        ),
    decreases n,
{
    let run = (text::sanitized(new_lines[k], false), TextStyle::Green);
    let row = layout::diff_row(
        layout::capped((line + (n - 1)) as nat),
        gutter,
        "+"@,
        TextStyle::GreenBold,
        new_lines[n - 1],
        TextStyle::Green,
    );
    if k < n - 1 {
        lemma_line_in_added_rows(new_lines, line, gutter, (n - 1) as nat, k);
    } else {
        assert(row[5] == run);
    }
    lemma_in_concat(layout::added_rows(new_lines, line, gutter, (n - 1) as nat), row, run);
}

/// A diff shows the old line and each new one.
proof fn lemma_lines_in_diff(line: nat, old_line: Seq<char>, new_lines: Seq<Seq<char>>)
    ensures
        layout::diff(line, old_line, new_lines).contains(
            (text::sanitized(old_line, false), TextStyle::Red),
        ),
        forall|k: int|
            0 <= k < new_lines.len() ==> layout::diff(line, old_line, new_lines).contains(
                (text::sanitized(#[trigger] new_lines[k], false), TextStyle::Green),
            ),
{
    let gutter = layout::gutter_width(
        layout::capped(line + layout::less(new_lines.len(), 1)),
    );
    let edge = layout::rule(gutter);
    let minus = layout::diff_row(line, gutter, "-"@, TextStyle::RedBold, old_line, TextStyle::Red);
    let plus = layout::added_rows(new_lines, line, gutter, new_lines.len());
    let gone = (text::sanitized(old_line, false), TextStyle::Red);
    assert(minus[5] == gone);
    lemma_in_concat(edge, minus, gone);
    lemma_in_concat(edge + minus, plus, gone);
    lemma_in_concat(edge + minus + plus, edge, gone);
    assert forall|k: int| 0 <= k < new_lines.len() implies layout::diff(
        line,
        old_line,
        new_lines,
    ).contains((text::sanitized(#[trigger] new_lines[k], false), TextStyle::Green)) by {
        let run = (text::sanitized(new_lines[k], false), TextStyle::Green);
        lemma_line_in_added_rows(new_lines, line, gutter, new_lines.len(), k);
        lemma_in_concat(edge + minus, plus, run);
        lemma_in_concat(edge + minus + plus, edge, run);
    }
}

proof fn lemma_line_in_loose_rows(new_lines: Seq<Seq<char>>, n: nat, k: int)
    requires
        0 <= k < n <= new_lines.len(),
    ensures
        layout::loose_rows(new_lines, n).contains(
            (text::sanitized(new_lines[k], false), TextStyle::Green),
        ),
    decreases n,
{
    let run = (text::sanitized(new_lines[k], false), TextStyle::Green);
    let row: Seq<RunView> = seq![
        ("       "@, TextStyle::Plain),
        (text::sanitized(new_lines[n - 1], false), TextStyle::Green),
        ("\n"@, TextStyle::Plain),
    ];
    if k < n - 1 {
        lemma_line_in_loose_rows(new_lines, (n - 1) as nat, k);
    } else {
        assert(row[1] == run);
    }
    lemma_in_concat(layout::loose_rows(new_lines, (n - 1) as nat), row, run);
}

/// The lines that a suggestion proposes: what it makes of its line or, where that is not in the
/// source, the lines of its replacement.
pub open spec fn proposed(s: SuggestionView, lines: Seq<Seq<char>>) -> Seq<Seq<char>> {
    match source::line_at(lines, s.span.line) {
        Some(line) => layout::rewritten(s, line),
        None => lines::lines_of(s.replacement),
    }
}

/// Every suggestion shows its title, the line that it changes, where that is in the source, and
/// every line that it proposes. What of them may not be shown on one line is left out.
pub proof fn law_suggestions_are_shown(
    d: DiagnosticView,
    code: Seq<char>,
    url: Option<Seq<char>>,
    lines: Seq<Seq<char>>,
    options: RenderOptions,
    color: bool,
    k: int,
)
    requires
        0 <= k < d.suggestions.len(),
    ensures
        ({
            let out = document::plain_text(layout::layout(d, code, url, lines, options, color));
            let s = d.suggestions[k];
            &&& occurs(text::sanitized(layout::suggestion_title(s), false), out)
            &&& source::line_at(lines, s.span.line) matches Some(line) ==> occurs(
                text::sanitized(line, false),
                out,
            )
            &&& forall|i: int|
                0 <= i < proposed(s, lines).len() ==> occurs(
                    text::sanitized(#[trigger] proposed(s, lines)[i], false),
                    out,
                )
        }),
{
    let all = layout::layout(d, code, url, lines, options, color);
    let s = d.suggestions[k];
    let n = d.suggestions.len();
    let title = (text::sanitized(layout::suggestion_title(s), false), TextStyle::Plain);
    assert(layout::remark("help"@, layout::suggestion_title(s))[5] == title);
    lemma_suggestion_in_suggestions(d, lines, n, k, title);
    lemma_in_layout(d, code, url, lines, options, color, title);
    lemma_run_occurs(all, title);
    if let Some(line) = source::line_at(lines, s.span.line) {
        let gone = (text::sanitized(line, false), TextStyle::Red);
        lemma_lines_in_diff(s.span.line, line, layout::rewritten(s, line));
        lemma_suggestion_in_suggestions(d, lines, n, k, gone);
        lemma_in_layout(d, code, url, lines, options, color, gone);
        lemma_run_occurs(all, gone);
    }
    assert forall|i: int| 0 <= i < proposed(s, lines).len() implies occurs(
        text::sanitized(#[trigger] proposed(s, lines)[i], false),
        document::plain_text(all),
    ) by {
        let run = (text::sanitized(proposed(s, lines)[i], false), TextStyle::Green);
        if source::line_at(lines, s.span.line) is None {
            lemma_line_in_loose_rows(proposed(s, lines), proposed(s, lines).len(), i);
        }
        lemma_suggestion_in_suggestions(d, lines, n, k, run);
        lemma_in_layout(d, code, url, lines, options, color, run);
        lemma_run_occurs(all, run);
    }
}

} // verus!
