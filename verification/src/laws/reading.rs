//! How the rows of a diagnostic read, and what of them is emphasized.

use vstd::prelude::*;
use vstd::string::*;

use crate::diagnostic::{Applicability, DiagnosticView, LabelView, Severity, SuggestionView};
use crate::document;
use crate::document::RunView;
use crate::laws::emphasis;
use crate::layout;
use crate::layout::{RenderOptions, Setting};
use crate::lines;
use crate::style;
use crate::style::TextStyle;
use crate::text;

verus! {

broadcast use {document::group_plain_text, emphasis::group_in_style};

/// `n` spaces.
pub open spec fn spaces(n: nat) -> Seq<char> {
    Seq::new(n, |i: int| ' ')
}

pub(crate) proof fn lemma_literals()
    ensures
        ""@ == Seq::<char>::empty(),
        " "@ == seq![' '],
        "  "@ == seq![' ', ' '],
        "   "@ == seq![' ', ' ', ' '],
        "|"@ == seq!['|'],
        "="@ == seq!['='],
        ":"@ == seq![':'],
        ": "@ == seq![':', ' '],
        "\n"@ == seq!['\n'],
        "-->"@ == seq!['-', '-', '>'],
        "  --> "@ == seq![' ', ' ', '-', '-', '>', ' '],
        " | "@ == seq![' ', '|', ' '],
        " |\n"@ == seq![' ', '|', '\n'],
        "   = "@ == seq![' ', ' ', ' ', '=', ' '],
        "       "@ == seq![' ', ' ', ' ', ' ', ' ', ' ', ' '],
        "       ("@ == seq![' ', ' ', ' ', ' ', ' ', ' ', ' ', '('],
        ")\n"@ == seq![')', '\n'],
        ")"@ == seq![')'],
        "(see "@ == seq!['(', 's', 'e', 'e', ' '],
        " (see "@ == seq![' ', '(', 's', 'e', 'e', ' '],
{
    reveal_strlit("");
    reveal_strlit(" ");
    reveal_strlit("  ");
    reveal_strlit("   ");
    reveal_strlit("|");
    reveal_strlit("=");
    reveal_strlit(":");
    reveal_strlit(": ");
    reveal_strlit("\n");
    reveal_strlit("-->");
    reveal_strlit("  --> ");
    reveal_strlit(" | ");
    reveal_strlit(" |\n");
    reveal_strlit("   = ");
    reveal_strlit("       ");
    reveal_strlit("       (");
    reveal_strlit(")\n");
    reveal_strlit(")");
    reveal_strlit("(see ");
    reveal_strlit(" (see ");
}

/// The header reads `severity: [code]: message`, with the link behind it where there is one. The
/// word and the code are shown as the severity asks, the link as a link.
pub proof fn law_header_reads(
    severity: Severity,
    code: Seq<char>,
    message: Seq<char>,
    url: Option<Seq<char>>,
)
    ensures
        ({
            let row = layout::header(severity, code, message, url);
            let word = match severity {
                Severity::Error => "error"@,
                Severity::Warning => "warning"@,
                Severity::Note => "note"@,
                Severity::Help => "help"@,
            };
            let color = match severity {
                Severity::Error => TextStyle::RedBold,
                Severity::Warning => TextStyle::YellowBold,
                Severity::Note => TextStyle::CyanBold,
                Severity::Help => TextStyle::GreenBold,
            };
            let link = match url {
                Some(u) => "(see "@ + u + ")"@,
                None => ""@,
            };
            &&& document::plain_text(row) == word + ": ["@ + code + "]: "@ + text::sanitized(
                message,
                false,
            ) + (if url is Some {
                " "@
            } else {
                ""@
            }) + link + "\n"@
            &&& emphasis::in_style(row, color) == word + code
            &&& emphasis::in_style(row, TextStyle::BlueItalic) == link
        }),
{
    lemma_literals();
    reveal_with_fuel(emphasis::text_of, 6);
    reveal_with_fuel(emphasis::in_style, 6);
    let sev = style::style_of_severity(severity);
    let head: Seq<RunView> = seq![
        (style::severity_text(severity), sev),
        (": ["@, TextStyle::Plain),
        (code, sev),
        ("]: "@, TextStyle::Plain),
        (text::sanitized(message, false), TextStyle::Plain),
    ];
    let link = layout::link(url);
    let end: Seq<RunView> = seq![("\n"@, TextStyle::Plain)];
    assert(layout::header(severity, code, message, url) == head + link + end);
    emphasis::law_plain_text_is_the_texts(head);
    emphasis::law_plain_text_is_the_texts(link);
    emphasis::law_plain_text_is_the_texts(end);
    assert(emphasis::in_style(head, sev) == style::severity_text(severity) + code);
    assert(emphasis::in_style(link, sev) == Seq::<char>::empty());
    assert(emphasis::in_style(head, TextStyle::BlueItalic) == Seq::<char>::empty());
}

/// The location reads `  --> file:line:column`, with the place itself emphasized.
pub proof fn law_location_reads(label: LabelView)
    ensures
        ({
            let row = layout::location(label);
            let line = text::decimal(label.span.line);
            let column = text::decimal(label.span.column);
            &&& document::plain_text(row) == "  --> "@ + label.span.file + ":"@ + line + ":"@
                + column + "\n"@
            &&& emphasis::in_style(row, TextStyle::WhiteBold) == label.span.file + line + column
            &&& emphasis::in_style(row, TextStyle::BlueBold) == "-->"@
        }),
{
    reveal_with_fuel(emphasis::text_of, 10);
    reveal_with_fuel(emphasis::in_style, 10);
    emphasis::law_plain_text_is_the_texts(layout::location(label));
    lemma_literals();
}

/// A line with an empty gutter reads as the bar behind as many spaces as the gutter has columns.
pub proof fn law_rule_reads(gutter: nat)
    ensures
        document::plain_text(layout::rule(gutter)) == "  "@ + spaces(gutter) + " |\n"@,
        emphasis::in_style(layout::rule(gutter), TextStyle::BlueBold) == "|"@,
{
    reveal_with_fuel(emphasis::text_of, 10);
    reveal_with_fuel(emphasis::in_style, 10);
    emphasis::law_plain_text_is_the_texts(layout::rule(gutter));
    assert(crate::width::repeated(' ', gutter) == spaces(gutter));
    lemma_literals();
}

/// A source row reads `number | line`, with the number at the right of the gutter.
pub proof fn law_source_row_reads(raw: Seq<char>, st: Setting, gutter: nat, n: nat)
    ensures
        ({
            let row = layout::source_row(raw, st, gutter, n);
            let number = text::right_aligned(text::decimal(n), gutter);
            &&& document::plain_text(row) == "  "@ + number + " | "@ + layout::shown_line(raw, st)
                + "\n"@
            &&& emphasis::in_style(row, TextStyle::BlueBold) == number + "|"@
        }),
{
    reveal_with_fuel(emphasis::text_of, 10);
    reveal_with_fuel(emphasis::in_style, 10);
    emphasis::law_plain_text_is_the_texts(layout::source_row(raw, st, gutter, n));
    lemma_literals();
}

/// A remark reads `   = word: content`, on one line.
pub proof fn law_remark_reads(word: Seq<char>, content: Seq<char>)
    ensures
        ({
            let row = layout::remark(word, content);
            &&& document::plain_text(row) == "   = "@ + word + ": "@ + text::sanitized(
                content,
                false,
            ) + "\n"@
            &&& emphasis::in_style(row, TextStyle::BlueBold) == "="@
            &&& emphasis::in_style(row, TextStyle::CyanBold) == word
        }),
{
    reveal_with_fuel(emphasis::text_of, 10);
    reveal_with_fuel(emphasis::in_style, 10);
    emphasis::law_plain_text_is_the_texts(layout::remark(word, content));
    lemma_literals();
}

/// How a row of a diff reads: `number sign line`.
pub open spec fn diff_row_text(n: nat, gutter: nat, sign: Seq<char>, body: Seq<char>) -> Seq<char> {
    "  "@ + text::right_aligned(text::decimal(n), gutter) + " "@ + sign + " "@ + text::sanitized(
        body,
        false,
    ) + "\n"@
}

proof fn lemma_diff_row_reads(
    n: nat,
    gutter: nat,
    sign: Seq<char>,
    sign_style: TextStyle,
    body: Seq<char>,
    body_style: TextStyle,
)
    ensures
        document::plain_text(layout::diff_row(n, gutter, sign, sign_style, body, body_style))
            == diff_row_text(n, gutter, sign, body),
{
    reveal_with_fuel(emphasis::text_of, 10);
    reveal_with_fuel(emphasis::in_style, 10);
    emphasis::law_plain_text_is_the_texts(
        layout::diff_row(n, gutter, sign, sign_style, body, body_style),
    );
}

/// How the new lines of a diff read: line `k` of them has the number `line + k`, as far as numbers
/// go, and a plus sign.
pub open spec fn added_texts(new_lines: Seq<Seq<char>>, line: nat, gutter: nat, n: nat) -> Seq<
    Seq<char>,
> {
    Seq::new(
        n,
        |k: int|
            diff_row_text(
                if line + k <= usize::MAX {
                    (line + k) as nat
                } else {
                    usize::MAX as nat
                },
                gutter,
                "+"@,
                new_lines[k],
            ),
    )
}

proof fn lemma_added_rows_read(new_lines: Seq<Seq<char>>, line: nat, gutter: nat, n: nat)
    ensures
        document::plain_text(layout::added_rows(new_lines, line, gutter, n)) == added_texts(
            new_lines,
            line,
            gutter,
            n,
        ).flatten(),
    decreases n,
{
    broadcast use Seq::lemma_flatten_push;

    if n > 0 {
        let m = (n - 1) as nat;
        lemma_added_rows_read(new_lines, line, gutter, m);
        lemma_diff_row_reads(
            layout::capped((line + m) as nat),
            gutter,
            "+"@,
            TextStyle::GreenBold,
            new_lines[m as int],
            TextStyle::Green,
        );
        let row = added_texts(new_lines, line, gutter, n)[m as int];
        assert(added_texts(new_lines, line, gutter, n) == added_texts(
            new_lines,
            line,
            gutter,
            m,
        ).push(row));
    } else {
        assert(added_texts(new_lines, line, gutter, 0) == Seq::<Seq<char>>::empty());
    }
}

proof fn lemma_added_styles(new_lines: Seq<Seq<char>>, line: nat, gutter: nat, n: nat)
    ensures
        ({
            let rows = layout::added_rows(new_lines, line, gutter, n);
            &&& emphasis::in_style(rows, TextStyle::RedBold) == Seq::<char>::empty()
            &&& emphasis::in_style(rows, TextStyle::Red) == Seq::<char>::empty()
            &&& emphasis::in_style(rows, TextStyle::GreenBold) == Seq::new(n, |k: int| '+')
            &&& emphasis::in_style(rows, TextStyle::Green) == clean_texts(new_lines, n).flatten()
        }),
    decreases n,
{
    reveal_with_fuel(emphasis::in_style, 10);
    broadcast use Seq::lemma_flatten_push;

    reveal_strlit("+");
    if n > 0 {
        let m = (n - 1) as nat;
        lemma_added_styles(new_lines, line, gutter, m);
        assert(clean_texts(new_lines, n) == clean_texts(new_lines, m).push(
            text::sanitized(new_lines[m as int], false),
        ));
        assert(Seq::new(n, |k: int| '+') == Seq::new(m, |k: int| '+') + "+"@);
        let row = layout::diff_row(
            layout::capped((line + m) as nat),
            gutter,
            "+"@,
            TextStyle::GreenBold,
            new_lines[m as int],
            TextStyle::Green,
        );
        assert(emphasis::in_style(row, TextStyle::RedBold) == Seq::<char>::empty());
        assert(emphasis::in_style(row, TextStyle::Red) == Seq::<char>::empty());
        assert(emphasis::in_style(row, TextStyle::GreenBold) == "+"@);
        assert(emphasis::in_style(row, TextStyle::Green) == text::sanitized(
            new_lines[m as int],
            false,
        ));
    } else {
        assert(clean_texts(new_lines, 0) == Seq::<Seq<char>>::empty());
    }
}

/// What may be shown of the first `n` lines.
pub open spec fn clean_texts(all: Seq<Seq<char>>, n: nat) -> Seq<Seq<char>> {
    Seq::new(n, |k: int| text::sanitized(all[k], false))
}

/// A diff reads as an empty line, the old line with a minus sign, the new ones with plus signs and
/// numbers that go on from the old, and an empty line. What goes is red, what comes is green.
pub proof fn law_diff_reads(n: nat, line: Seq<char>, new_lines: Seq<Seq<char>>)
    requires
        new_lines.len() > 0,
    ensures
        ({
            let rows = layout::diff(n, line, new_lines);
            let last = (n + new_lines.len() - 1) as nat;
            let gutter = layout::gutter_width(
                if last <= usize::MAX {
                    last
                } else {
                    usize::MAX as nat
                },
            );
            let edge = "  "@ + spaces(gutter) + " |\n"@;
            &&& document::plain_text(rows) == edge + diff_row_text(n, gutter, "-"@, line)
                + added_texts(new_lines, n, gutter, new_lines.len()).flatten() + edge
            &&& emphasis::in_style(rows, TextStyle::RedBold) == "-"@
            &&& emphasis::in_style(rows, TextStyle::Red) == text::sanitized(line, false)
            &&& emphasis::in_style(rows, TextStyle::GreenBold) == Seq::new(
                new_lines.len(),
                |k: int| '+',
            )
            &&& emphasis::in_style(rows, TextStyle::Green) == clean_texts(
                new_lines,
                new_lines.len(),
            ).flatten()
        }),
{
    let gutter = layout::gutter_width(layout::capped((n + new_lines.len() - 1) as nat));
    let edge = layout::rule(gutter);
    let minus = layout::diff_row(n, gutter, "-"@, TextStyle::RedBold, line, TextStyle::Red);
    let plus = layout::added_rows(new_lines, n, gutter, new_lines.len());
    law_rule_reads(gutter);
    lemma_diff_row_reads(n, gutter, "-"@, TextStyle::RedBold, line, TextStyle::Red);
    lemma_added_rows_read(new_lines, n, gutter, new_lines.len());
    lemma_added_styles(new_lines, n, gutter, new_lines.len());
    lemma_edge_and_minus_styles(n, gutter, line);
    assert(layout::diff(n, line, new_lines) == edge + minus + plus + edge);
}

proof fn lemma_edge_and_minus_styles(n: nat, gutter: nat, line: Seq<char>)
    ensures
        ({
            let edge = layout::rule(gutter);
            let minus = layout::diff_row(n, gutter, "-"@, TextStyle::RedBold, line, TextStyle::Red);
            &&& emphasis::in_style(minus, TextStyle::RedBold) == "-"@
            &&& emphasis::in_style(minus, TextStyle::Red) == text::sanitized(line, false)
            &&& emphasis::in_style(minus, TextStyle::GreenBold) == Seq::<char>::empty()
            &&& emphasis::in_style(minus, TextStyle::Green) == Seq::<char>::empty()
            &&& emphasis::in_style(edge, TextStyle::RedBold) == Seq::<char>::empty()
            &&& emphasis::in_style(edge, TextStyle::Red) == Seq::<char>::empty()
            &&& emphasis::in_style(edge, TextStyle::GreenBold) == Seq::<char>::empty()
            &&& emphasis::in_style(edge, TextStyle::Green) == Seq::<char>::empty()
        }),
{
    reveal_with_fuel(emphasis::in_style, 10);
}

/// How lines read that have no place in the source.
pub open spec fn loose_texts(new_lines: Seq<Seq<char>>, n: nat) -> Seq<Seq<char>> {
    Seq::new(n, |k: int| "       "@ + text::sanitized(new_lines[k], false) + "\n"@)
}

proof fn lemma_loose_rows_read(new_lines: Seq<Seq<char>>, n: nat)
    ensures
        document::plain_text(layout::loose_rows(new_lines, n)) == loose_texts(
            new_lines,
            n,
        ).flatten(),
        emphasis::in_style(layout::loose_rows(new_lines, n), TextStyle::Green) == clean_texts(
            new_lines,
            n,
        ).flatten(),
    decreases n,
{
    reveal_with_fuel(emphasis::text_of, 10);
    reveal_with_fuel(emphasis::in_style, 10);
    broadcast use Seq::lemma_flatten_push;

    if n > 0 {
        let m = (n - 1) as nat;
        lemma_loose_rows_read(new_lines, m);
        assert(loose_texts(new_lines, n) == loose_texts(new_lines, m).push(
            "       "@ + text::sanitized(new_lines[m as int], false) + "\n"@,
        ));
        assert(clean_texts(new_lines, n) == clean_texts(new_lines, m).push(
            text::sanitized(new_lines[m as int], false),
        ));
        let row: Seq<RunView> = seq![
            ("       "@, TextStyle::Plain),
            (text::sanitized(new_lines[m as int], false), TextStyle::Green),
            ("\n"@, TextStyle::Plain),
        ];
        emphasis::law_plain_text_is_the_texts(row);
        assert(document::plain_text(row) == "       "@ + text::sanitized(
            new_lines[m as int],
            false,
        ) + "\n"@);
        assert(emphasis::in_style(row, TextStyle::Green) == text::sanitized(
            new_lines[m as int],
            false,
        ));
    } else {
        assert(loose_texts(new_lines, 0) == Seq::<Seq<char>>::empty());
        assert(clean_texts(new_lines, 0) == Seq::<Seq<char>>::empty());
    }
}

/// A suggestion on a line of the source is a diff of that line. One on any other line shows the
/// lines of its replacement.
pub proof fn law_suggestion_shows_a_diff_or_its_replacement(
    s: SuggestionView,
    lines: Seq<Seq<char>>,
)
    ensures
        1 <= s.span.line <= lines.len() ==> layout::suggestion_diff(s, lines) == layout::diff(
            s.span.line,
            lines[s.span.line - 1],
            layout::rewritten(s, lines[s.span.line - 1]),
        ),
        !(1 <= s.span.line <= lines.len()) ==> {
            let rows = layout::suggestion_diff(s, lines);
            let all = lines::lines_of(s.replacement);
            &&& document::plain_text(rows) == loose_texts(all, all.len()).flatten()
            &&& emphasis::in_style(rows, TextStyle::Green) == clean_texts(all, all.len()).flatten()
        },
{
    let all = lines::lines_of(s.replacement);
    lemma_loose_rows_read(all, all.len());
}

/// What is known of a suggestion stands below it in brackets, dimmed. Where nothing is known,
/// nothing does. Its title is its message, or says to try it.
pub proof fn law_suggestion_words(s: SuggestionView)
    ensures
        ({
            let row = layout::applicability(s.applicability);
            let word = match s.applicability {
                Applicability::MachineApplicable => "auto-applicable"@,
                Applicability::MaybeIncorrect => "review needed"@,
                Applicability::HasPlaceholders => "has placeholders"@,
                Applicability::Unspecified => ""@,
            };
            &&& document::plain_text(row) == if s.applicability == Applicability::Unspecified {
                ""@
            } else {
                "       ("@ + word + ")\n"@
            }
            &&& emphasis::in_style(row, TextStyle::Dimmed) == word
        }),
        s.message matches Some(m) ==> layout::suggestion_title(s) == m,
        s.message is None ==> layout::suggestion_title(s) == "try this:"@,
{
    reveal_with_fuel(emphasis::text_of, 10);
    reveal_with_fuel(emphasis::in_style, 10);
    emphasis::law_plain_text_is_the_texts(layout::applicability(s.applicability));
    lemma_literals();
}

/// How notes read.
pub open spec fn note_texts(all: Seq<Seq<char>>, n: nat) -> Seq<Seq<char>> {
    Seq::new(n, |k: int| "   = note: "@ + text::sanitized(all[k], false) + "\n"@)
}

proof fn lemma_note_word()
    ensures
        "   = note: "@ == "   = "@ + "note"@ + ": "@,
        "   = help: "@ == "   = "@ + "help"@ + ": "@,
{
    lemma_literals();
    reveal_strlit("   = note: ");
    reveal_strlit("   = help: ");
    reveal_strlit("note");
    reveal_strlit("help");
}

/// Notes read `   = note: text`, one after the other, and the help reads `   = help: text`.
pub proof fn law_notes_and_help_read(all: Seq<Seq<char>>, n: nat, help: Option<Seq<char>>)
    requires
        n <= all.len(),
    ensures
        document::plain_text(layout::notes(all, n)) == note_texts(all, n).flatten(),
        document::plain_text(layout::help(help)) == match help {
            Some(h) => "   = help: "@ + text::sanitized(h, false) + "\n"@,
            None => ""@,
        },
    decreases n,
{
    broadcast use Seq::lemma_flatten_push;

    lemma_literals();
    lemma_note_word();
    if let Some(h) = help {
        law_remark_reads("help"@, h);
    }
    if n > 0 {
        let m = (n - 1) as nat;
        law_notes_and_help_read(all, m, help);
        law_remark_reads("note"@, all[m as int]);
        assert(note_texts(all, n) == note_texts(all, m).push(
            "   = note: "@ + text::sanitized(all[m as int], false) + "\n"@,
        ));
    } else {
        assert(note_texts(all, 0) == Seq::<Seq<char>>::empty());
    }
}

/// A diagnostic consists of its header, the sections of its files, its notes, its help and its
/// suggestions, in this order, and a blank line.
pub proof fn law_output_is_its_sections(
    d: DiagnosticView,
    code: Seq<char>,
    url: Option<Seq<char>>,
    lines: Seq<Seq<char>>,
    options: RenderOptions,
    color: bool,
)
    ensures
        layout::layout(d, code, url, lines, options, color) == layout::header(
            d.severity,
            code,
            d.message,
            url,
        ) + layout::file_blocks(
            d.labels,
            (Setting {
                lines,
                tab_width: options.tab_width as nat,
                context_lines: options.context_lines as nat,
                max_line_width: options.max_line_width as nat,
                severity: d.severity,
                color,
            }),
            layout::files_of(d.labels).len(),
        ) + layout::notes(d.notes, d.notes.len()) + layout::help(d.help) + layout::suggestions(
            d.suggestions,
            lines,
            d.suggestions.len(),
        ) + seq![("\n"@, TextStyle::Plain)],
{
}

proof fn lemma_notes_of_fewer(all: Seq<Seq<char>>, note: Seq<char>, n: nat)
    requires
        n <= all.len(),
    ensures
        layout::notes(all.push(note), n) == layout::notes(all, n),
    decreases n,
{
    if n > 0 {
        lemma_notes_of_fewer(all, note, (n - 1) as nat);
        assert(all.push(note)[n - 1] == all[n - 1]);
    }
}

/// One more note adds its line behind the others and changes nothing else of them.
pub proof fn law_one_more_note(all: Seq<Seq<char>>, note: Seq<char>)
    ensures
        document::plain_text(layout::notes(all.push(note), all.len() + 1)) == document::plain_text(
            layout::notes(all, all.len()),
        ) + "   = note: "@ + text::sanitized(note, false) + "\n"@,
{
    lemma_note_word();
    lemma_notes_of_fewer(all, note, all.len());
    law_remark_reads("note"@, note);
    assert(all.push(note)[all.len() as int] == note);
}

proof fn lemma_added_rows_of_fewer(
    all: Seq<Seq<char>>,
    new_line: Seq<char>,
    line: nat,
    gutter: nat,
    n: nat,
)
    requires
        n <= all.len(),
    ensures
        layout::added_rows(all.push(new_line), line, gutter, n) == layout::added_rows(
            all,
            line,
            gutter,
            n,
        ),
    decreases n,
{
    if n > 0 {
        lemma_added_rows_of_fewer(all, new_line, line, gutter, (n - 1) as nat);
        assert(all.push(new_line)[n - 1] == all[n - 1]);
    }
}

/// One more new line adds a row with the next number behind the others and changes nothing else of
/// them.
pub proof fn law_one_more_new_line(
    all: Seq<Seq<char>>,
    new_line: Seq<char>,
    line: nat,
    gutter: nat,
)
    requires
        line + all.len() <= usize::MAX,
    ensures
        document::plain_text(layout::added_rows(all.push(new_line), line, gutter, all.len() + 1))
            == document::plain_text(layout::added_rows(all, line, gutter, all.len())) + "  "@
            + text::right_aligned(text::decimal(line + all.len()), gutter) + " "@ + "+"@ + " "@
            + text::sanitized(new_line, false) + "\n"@,
{
    lemma_added_rows_of_fewer(all, new_line, line, gutter, all.len());
    lemma_diff_row_reads(
        line + all.len(),
        gutter,
        "+"@,
        TextStyle::GreenBold,
        new_line,
        TextStyle::Green,
    );
    assert(all.push(new_line)[all.len() as int] == new_line);
}

proof fn lemma_suggestions_of_fewer(
    all: Seq<SuggestionView>,
    s: SuggestionView,
    lines: Seq<Seq<char>>,
    n: nat,
)
    requires
        n <= all.len(),
    ensures
        layout::suggestions(all.push(s), lines, n) == layout::suggestions(all, lines, n),
    decreases n,
{
    if n > 0 {
        lemma_suggestions_of_fewer(all, s, lines, (n - 1) as nat);
        assert(all.push(s)[n - 1] == all[n - 1]);
    }
}

/// One more suggestion adds its title, its diff and what is known of it behind the others and
/// changes nothing else of them.
pub proof fn law_one_more_suggestion(
    all: Seq<SuggestionView>,
    s: SuggestionView,
    lines: Seq<Seq<char>>,
)
    ensures
        document::plain_text(layout::suggestions(all.push(s), lines, all.len() + 1))
            == document::plain_text(layout::suggestions(all, lines, all.len())) + "   = help: "@
            + text::sanitized(
            match s.message {
                Some(m) => m,
                None => "try this:"@,
            },
            false,
        ) + "\n"@ + document::plain_text(layout::suggestion_diff(s, lines)) + document::plain_text(
            layout::applicability(s.applicability),
        ),
{
    lemma_note_word();
    lemma_suggestions_of_fewer(all, s, lines, all.len());
    law_remark_reads("help"@, layout::suggestion_title(s));
    assert(all.push(s)[all.len() as int] == s);
}

} // verus!
