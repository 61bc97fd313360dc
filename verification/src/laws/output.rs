//! Whole diagnostics.

use vstd::prelude::*;
use vstd::string::*;

use crate::diagnostic::{
    Diagnostic, DiagnosticCode, DiagnosticView, Label, LabelView, Severity, Span, SpanView,
    SuggestionView,
};
use crate::document;
use crate::document::RunView;
use crate::formatter::DiagnosticFormatter;
use crate::layout;
use crate::layout::{Mark, RenderOptions, Setting};
use crate::lines;
use crate::source;
use crate::style;
use crate::style::TextStyle;
use crate::width;

verus! {

/// Runs whose text ends a line, without a style in which the newline could be painted.
spec fn ends_line(runs: Seq<RunView>) -> bool {
    &&& runs.len() > 0
    &&& runs.last().0.len() > 0
    &&& runs.last().0.last() == '\n'
    &&& runs.last().1 == TextStyle::Plain
}

/// Runs that are empty or whose text ends a line.
spec fn whole_lines(runs: Seq<RunView>) -> bool {
    runs.len() == 0 || ends_line(runs)
}

proof fn lemma_whole_lines_concat(a: Seq<RunView>, b: Seq<RunView>)
    requires
        whole_lines(a),
        whole_lines(b),
    ensures
        whole_lines(a + b),
        ends_line(a) ==> ends_line(a + b),
{
    if b.len() == 0 {
        assert(a + b == a);
    } else {
        assert((a + b).last() == b.last());
    }
}

proof fn lemma_ends()
    ensures
        "\n"@.len() == 1,
        "\n"@.last() == '\n',
        ")\n"@.len() == 2,
        ")\n"@.last() == '\n',
{
    reveal_strlit("\n");
    reveal_strlit(")\n");
}

proof fn lemma_file_section_is_whole(labels: Seq<LabelView>, st: Setting)
    ensures
        whole_lines(layout::file_section(labels, st)),
{
    lemma_ends();
}

proof fn lemma_file_blocks_are_whole(labels: Seq<LabelView>, st: Setting, n: nat)
    ensures
        whole_lines(layout::file_blocks(labels, st, n)),
    decreases n,
{
    lemma_ends();
    if n > 0 {
        let files = layout::files_of(labels);
        let mine = layout::labels_in(labels, files[n - 1]);
        let before = layout::file_blocks(labels, st, (n - 1) as nat);
        let place = layout::location(layout::leading_label(mine));
        let section = layout::file_section(mine, st);
        let gap = layout::between(n, files.len());
        lemma_file_blocks_are_whole(labels, st, (n - 1) as nat);
        lemma_file_section_is_whole(mine, st);
        lemma_whole_lines_concat(before, place);
        lemma_whole_lines_concat(before + place, section);
        lemma_whole_lines_concat(before + place + section, gap);
    }
}

proof fn lemma_notes_are_whole(all: Seq<Seq<char>>, n: nat)
    ensures
        whole_lines(layout::notes(all, n)),
    decreases n,
{
    lemma_ends();
    if n > 0 {
        lemma_notes_are_whole(all, (n - 1) as nat);
        lemma_whole_lines_concat(
            layout::notes(all, (n - 1) as nat),
            layout::remark("note"@, all[n - 1]),
        );
    }
}

proof fn lemma_loose_rows_are_whole(new_lines: Seq<Seq<char>>, n: nat)
    ensures
        whole_lines(layout::loose_rows(new_lines, n)),
{
    lemma_ends();
}

proof fn lemma_suggestions_are_whole(all: Seq<SuggestionView>, lines: Seq<Seq<char>>, n: nat)
    ensures
        whole_lines(layout::suggestions(all, lines, n)),
    decreases n,
{
    lemma_ends();
    if n > 0 {
        let s = all[n - 1];
        let before = layout::suggestions(all, lines, (n - 1) as nat);
        let title = layout::remark("help"@, layout::suggestion_title(s));
        let diff = layout::suggestion_diff(s, lines);
        lemma_suggestions_are_whole(all, lines, (n - 1) as nat);
        lemma_loose_rows_are_whole(
            lines::lines_of(s.replacement),
            lines::lines_of(s.replacement).len(),
        );
        lemma_whole_lines_concat(before, title);
        lemma_whole_lines_concat(before + title, diff);
        lemma_whole_lines_concat(before + title + diff, layout::applicability(s.applicability));
    }
}

/// Every diagnostic ends with a blank line, with colors and without, so that those that follow one
/// another stay apart.
pub proof fn law_output_ends_with_a_blank_line(
    d: DiagnosticView,
    code: Seq<char>,
    url: Option<Seq<char>>,
    lines: Seq<Seq<char>>,
    options: RenderOptions,
    color: bool,
    out: Seq<char>,
)
    requires
        document::is_rendering(layout::layout(d, code, url, lines, options, color), color, out),
    ensures
        out.len() >= 2,
        out[out.len() - 1] == '\n',
        out[out.len() - 2] == '\n',
{
    lemma_ends();
    let h = layout::header(d.severity, code, d.message, url);
    let f = layout::file_blocks(
        d.labels,
        layout::setting(lines, options, d.severity, color),
        layout::files_of(d.labels).len(),
    );
    let n = layout::notes(d.notes, d.notes.len());
    let p = layout::help(d.help);
    let s = layout::suggestions(d.suggestions, lines, d.suggestions.len());
    lemma_file_blocks_are_whole(
        d.labels,
        layout::setting(lines, options, d.severity, color),
        layout::files_of(d.labels).len(),
    );
    lemma_notes_are_whole(d.notes, d.notes.len());
    lemma_suggestions_are_whole(d.suggestions, lines, d.suggestions.len());
    lemma_whole_lines_concat(h, f);
    lemma_whole_lines_concat(h + f, n);
    lemma_whole_lines_concat(h + f + n, p);
    lemma_whole_lines_concat(h + f + n + p, s);
    let body = h + f + n + p + s;
    let end: Seq<RunView> = seq![("\n"@, TextStyle::Plain)];
    let runs = body + end;
    assert(runs == layout::layout(d, code, url, lines, options, color));
    let parts = choose|parts: Seq<Seq<char>>| #[trigger]
        document::shown_as(runs, color, parts) && out == document::joined(parts);
    let k = body.len() as int;
    assert(runs[k - 1] == body.last());
    assert(parts[k - 1] == body.last().0);
    assert(runs[k] == end[0]);
    assert(parts[k] == "\n"@);
    let before = parts.drop_last();
    assert(document::joined(parts) == document::joined(before) + parts.last());
    assert(document::joined(before) == document::joined(before.drop_last()) + before.last());
}

/// What is shown of a suggestion: its title, its diff, and how far it may be trusted.
pub open spec fn suggestion_block(s: SuggestionView, lines: Seq<Seq<char>>) -> Seq<RunView> {
    layout::remark("help"@, layout::suggestion_title(s)) + layout::suggestion_diff(s, lines)
        + layout::applicability(s.applicability)
}

/// Suggestions are shown one after the other, in their order, with nothing between them.
pub proof fn law_suggestions_follow_one_another(all: Seq<SuggestionView>, lines: Seq<Seq<char>>)
    ensures
        layout::suggestions(all, lines, all.len()) == all.map_values(
            |s: SuggestionView| suggestion_block(s, lines),
        ).flatten(),
{
    let blocks = all.map_values(|s: SuggestionView| suggestion_block(s, lines));
    lemma_suggestion_blocks(all, lines, all.len());
    assert(blocks.take(all.len() as int) == blocks);
    blocks.lemma_flatten_and_flatten_alt_are_equivalent();
}

proof fn lemma_suggestion_blocks(all: Seq<SuggestionView>, lines: Seq<Seq<char>>, n: nat)
    requires
        n <= all.len(),
    ensures
        layout::suggestions(all, lines, n) == all.map_values(
            |s: SuggestionView| suggestion_block(s, lines),
        ).take(n as int).flatten_alt(),
    decreases n,
{
    let blocks = all.map_values(|s: SuggestionView| suggestion_block(s, lines));
    if n > 0 {
        let s = all[n - 1];
        let some = blocks.take(n as int);
        lemma_suggestion_blocks(all, lines, (n - 1) as nat);
        assert(some.drop_last() == blocks.take(n - 1));
        assert(some.last() == suggestion_block(s, lines));
        let before = layout::suggestions(all, lines, (n - 1) as nat);
        let title = layout::remark("help"@, layout::suggestion_title(s));
        let diff = layout::suggestion_diff(s, lines);
        let trust = layout::applicability(s.applicability);
        assert(before + title + diff + trust == before + (title + diff + trust));
    }
}

/// Without colors a diagnostic has one rendering, its text: `format` with colors off gives what
/// `format_plain` gives.
pub proof fn law_no_color_is_plain<C: DiagnosticCode>(
    f: DiagnosticFormatter<'_, '_, C>,
    out: Seq<char>,
)
    ensures
        f.renders(false, out) <==> f.reads(out),
{
    assert forall|code: &str, url: Option<&str>|
        document::is_rendering(
            #[trigger] f.runs(code@, source::line_text(url), false),
            false,
            out,
        ) <==> out == document::plain_text(f.runs(code@, source::line_text(url), false)) by {
        document::lemma_plain_rendering(f.runs(code@, source::line_text(url), false), out);
    }
}

/// The text of a diagnostic is determined by what its code says of itself: if that does not
/// change, neither does the text.
pub proof fn law_plain_output_is_deterministic<C: DiagnosticCode>(
    f: DiagnosticFormatter<'_, '_, C>,
    code: Seq<char>,
    url: Option<Seq<char>>,
    out: Seq<char>,
)
    requires
        forall|c: &str|
            call_ensures(C::code, (&f.diagnostic().code,), c) ==> c@ == code,
        forall|u: Option<&str>|
            call_ensures(C::url, (&f.diagnostic().code,), u) ==> source::line_text(u) == url,
        f.reads(out),
    ensures
        out == document::plain_text(f.runs(code, url, false)),
        out == document::plain_text(
            layout::layout(f.diagnostic()@, code, url, f.lines(), f.options(), false),
        ),
{
}

/// What a diagnostic is rendered to is a rendering of its layout, with what its code says of itself.
pub proof fn law_output_renders_the_layout<C: DiagnosticCode>(
    f: DiagnosticFormatter<'_, '_, C>,
    code: Seq<char>,
    url: Option<Seq<char>>,
    color: bool,
    out: Seq<char>,
)
    requires
        forall|c: &str| call_ensures(C::code, (&f.diagnostic().code,), c) ==> c@ == code,
        forall|u: Option<&str>|
            call_ensures(C::url, (&f.diagnostic().code,), u) ==> match u {
                Some(link) => url == Some(link@),
                None => url is None,
            },
        f.renders(color, out),
    ensures
        document::is_rendering(
            layout::layout(f.diagnostic()@, code, url, f.lines(), f.options(), color),
            color,
            out,
        ),
{
}

/// The value of a diagnostic holds everything that the diagnostic says, in its order.
pub proof fn law_values_hold_everything<C: DiagnosticCode>(d: Diagnostic<C>)
    ensures
        d@.severity == d.severity,
        d@.message == d.message@,
        d@.labels.len() == d.labels@.len(),
        forall|i: int|
            0 <= i < d.labels@.len() ==> is_value_of(#[trigger] d@.labels[i], d.labels@[i]),
        d@.notes.len() == d.notes@.len(),
        forall|i: int| 0 <= i < d.notes@.len() ==> #[trigger] d@.notes[i] == d.notes@[i]@,
        d.help matches Some(h) ==> d@.help == Some(h@),
        d.help is None ==> d@.help is None,
        d@.suggestions.len() == d.suggestions@.len(),
        forall|i: int|
            0 <= i < d.suggestions@.len() ==> {
                let v = #[trigger] d@.suggestions[i];
                let s = d.suggestions@[i];
                &&& is_place_of(v.span, s.span)
                &&& v.replacement == s.replacement@
                &&& (s.message matches Some(m) ==> v.message == Some(m@))
                &&& (s.message is None ==> v.message is None)
                &&& v.applicability == s.applicability
            },
{
}

/// Whether `v` is the place that `s` names.
pub open spec fn is_place_of(v: SpanView, s: Span) -> bool {
    &&& v.file == s.file@
    &&& v.line == s.line
    &&& v.column == s.column
    &&& v.length == s.length
}

/// Whether `v` holds everything of label `l`.
pub open spec fn is_value_of(v: LabelView, l: Label) -> bool {
    &&& is_place_of(v.span, l.span)
    &&& v.style == l.style
    &&& l.message matches Some(m) ==> v.message == Some(m@)
    &&& l.message is None ==> v.message is None
    &&& l.note matches Some(m) ==> v.note == Some(m@)
    &&& l.note is None ==> v.note is None
}

/// Formatters over the same lines render the same: whether the lines were cached or split for the
/// occasion makes no difference.
pub proof fn law_only_the_lines_matter<C: DiagnosticCode>(
    f: DiagnosticFormatter<'_, '_, C>,
    g: DiagnosticFormatter<'_, '_, C>,
    color: bool,
    out: Seq<char>,
)
    requires
        f.diagnostic() == g.diagnostic(),
        f.lines() == g.lines(),
        f.options() == g.options(),
    ensures
        f.renders(color, out) <==> g.renders(color, out),
        f.reads(out) <==> g.reads(out),
{
}

/// A row of carets is as wide as the columns that it fills, and the carets of its last label fill
/// the last of them. They begin in the column of the label, unless earlier carets reach that far.
pub proof fn law_carets_stand_in_their_columns(marks: Seq<Mark>, severity: Severity)
    requires
        marks.len() > 0,
    ensures
        ({
            let row = document::plain_text(layout::carets(marks, severity));
            let before = layout::caret_end(marks.drop_last());
            let m = marks.last();
            let at = layout::max(before, m.pad) as int;
            &&& row.len() == layout::caret_end(marks)
            &&& row.skip(at) == width::repeated(layout::underline(m.label.style), m.len)
            &&& row.take(before as int) == document::plain_text(
                layout::carets(marks.drop_last(), severity),
            )
            &&& row.subrange(before as int, at) == width::repeated(' ', (at - before) as nat)
        }),
    decreases marks.len(), 0int,
{
    let rest = marks.drop_last();
    let before = layout::caret_end(rest);
    let m = marks.last();
    let gap = width::repeated(' ', layout::less(m.pad, before));
    let mark = width::repeated(layout::underline(m.label.style), m.len);
    let runs = layout::carets(marks, severity);
    let fewer = layout::carets(rest, severity);
    let two: Seq<RunView> = seq![
        (gap, TextStyle::Plain),
        (mark, style::style_of_label(severity, m.label.style)),
    ];
    assert(runs == fewer + two);
    document::lemma_plain_text_concat(fewer, two);
    lemma_caret_width(rest, severity);
    assert(document::plain_text(two) == gap + mark) by {
        let parts = two.map_values(|r: RunView| r.0);
        let one = parts.drop_last();
        assert(one.drop_last() == Seq::<Seq<char>>::empty());
        assert(document::joined(one.drop_last()) == Seq::<char>::empty());
        assert(document::joined(one) == document::joined(one.drop_last()) + one.last());
        assert(document::joined(parts) == document::joined(one) + parts.last());
        assert(one.last() == gap);
        assert(parts.last() == mark);
    }
}

proof fn lemma_caret_width(marks: Seq<Mark>, severity: Severity)
    ensures
        document::plain_text(layout::carets(marks, severity)).len() == layout::caret_end(marks),
    decreases marks.len(), 1int,
{
    if marks.len() > 0 {
        law_carets_stand_in_their_columns(marks, severity);
    } else {
        assert(layout::carets(marks, severity).map_values(|r: RunView| r.0) == Seq::<
            Seq<char>,
        >::empty());
    }
}

/// Text that holds no escape character.
pub open spec fn holds_no_escape(s: Seq<char>) -> bool {
    forall|i: int| 0 <= i < s.len() ==> #[trigger] s[i] != '\u{1b}'
}

proof fn lemma_restored(text: Seq<char>, mark: Seq<char>)
    requires
        holds_no_escape(text),
    ensures
        style::restored(text, mark) == text,
    decreases text.len(),
{
    if text.len() >= 4 {
        assert(text.take(4)[0] == text[0]);
        let t = text.drop_first();
        assert forall|i: int| 0 <= i < t.len() implies #[trigger] t[i] != '\u{1b}' by {
            assert(t[i] == text[i + 1]);
        }
        lemma_restored(t, mark);
        assert(seq![text[0]] + t == text);
    }
}

/// Colors change nothing of the text itself: it comes out as it is, alone or between terminal
/// sequences.
pub proof fn law_colors_keep_the_text(
    text: Seq<char>,
    style: TextStyle,
    color: bool,
    out: Seq<char>,
)
    requires
        holds_no_escape(text),
        style::shown(text, style, color, out),
    ensures
        ({
            ||| out == text
            ||| color && out == text + style::turn_off()
            ||| color && out == style::turn_on(style) + text + style::turn_off()
        }),
{
    if out != text {
        let on = style::turn_on(style);
        let (lead, again) = choose|lead: bool, again: bool|
            #![auto]
            out == style::if_then(lead, on) + style::restored(text, style::if_then(again, on))
                + style::turn_off();
        lemma_restored(text, style::if_then(again, on));
        assert(Seq::<char>::empty() + text == text);
    }
}

} // verus!
