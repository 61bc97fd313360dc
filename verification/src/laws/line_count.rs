//! Untrusted text cannot add lines to the output.

use vstd::prelude::*;
use vstd::string::*;

use crate::diagnostic::{DiagnosticView, LabelView, Severity, SuggestionView};
use crate::document;
use crate::document::RunView;
use crate::laws::clean;
use crate::laws::tabs;
use crate::layout;
use crate::layout::{Mark, RenderOptions, Setting};
use crate::source;
use crate::style::TextStyle;
use crate::text;
use crate::width;

verus! {

/// The number of newlines in `s`.
pub open spec fn line_breaks(s: Seq<char>) -> nat
    decreases s.len(),
{
    if s.len() == 0 {
        0
    } else {
        line_breaks(s.drop_last()) + if s.last() == '\n' {
            1nat
        } else {
            0nat
        }
    }
}

/// The number of newlines in runs.
pub open spec fn run_breaks(runs: Seq<RunView>) -> nat
    decreases runs.len(),
{
    if runs.len() == 0 {
        0
    } else {
        run_breaks(runs.drop_last()) + line_breaks(runs.last().0)
    }
}

proof fn lemma_line_breaks_concat(a: Seq<char>, b: Seq<char>)
    ensures
        line_breaks(a + b) == line_breaks(a) + line_breaks(b),
    decreases b.len(),
{
    if b.len() == 0 {
        assert(a + b == a);
    } else {
        lemma_line_breaks_concat(a, b.drop_last());
        assert((a + b).drop_last() == a + b.drop_last());
    }
}

proof fn lemma_run_breaks_concat(a: Seq<RunView>, b: Seq<RunView>)
    ensures
        run_breaks(a + b) == run_breaks(a) + run_breaks(b),
    decreases b.len(),
{
    if b.len() == 0 {
        assert(a + b == a);
    } else {
        lemma_run_breaks_concat(a, b.drop_last());
        assert((a + b).drop_last() == a + b.drop_last());
    }
}

/// The newlines of runs are those of their text.
pub proof fn lemma_plain_text_breaks(runs: Seq<RunView>)
    ensures
        line_breaks(document::plain_text(runs)) == run_breaks(runs),
    decreases runs.len(),
{
    let parts = runs.map_values(|r: RunView| r.0);
    if runs.len() > 0 {
        lemma_plain_text_breaks(runs.drop_last());
        assert(runs.drop_last().map_values(|r: RunView| r.0) == parts.drop_last());
        lemma_line_breaks_concat(document::joined(parts.drop_last()), parts.last());
    }
}

proof fn lemma_no_breaks(s: Seq<char>)
    requires
        forall|i: int| 0 <= i < s.len() ==> #[trigger] s[i] != '\n',
    ensures
        line_breaks(s) == 0,
    decreases s.len(),
{
    if s.len() > 0 {
        let t = s.drop_last();
        assert forall|i: int| 0 <= i < t.len() implies #[trigger] t[i] != '\n' by {
            assert(t[i] == s[i]);
        }
        lemma_no_breaks(t);
        assert(s[s.len() - 1] != '\n');
    }
}

proof fn lemma_clean_line_has_no_breaks(s: Seq<char>)
    requires
        clean::is_clean(s, false),
    ensures
        line_breaks(s) == 0,
{
    assert forall|i: int| 0 <= i < s.len() implies #[trigger] s[i] != '\n' by {
        assert(text::is_displayable(s[i], false));
    }
    lemma_no_breaks(s);
}

proof fn lemma_sanitized_has_no_breaks(s: Seq<char>)
    ensures
        line_breaks(text::sanitized(s, false)) == 0,
{
    clean::law_sanitized_is_clean(s, false);
    lemma_clean_line_has_no_breaks(text::sanitized(s, false));
}

proof fn lemma_number_has_no_breaks(n: nat, gutter: nat)
    ensures
        line_breaks(text::decimal(n)) == 0,
        line_breaks(text::right_aligned(text::decimal(n), gutter)) == 0,
{
    clean::lemma_decimal_is_clean(n);
    lemma_clean_line_has_no_breaks(text::decimal(n));
    lemma_clean_line_has_no_breaks(text::right_aligned(text::decimal(n), gutter));
}

proof fn lemma_repeated_has_no_breaks(c: char, n: nat)
    requires
        c != '\n',
    ensures
        line_breaks(width::repeated(c, n)) == 0,
{
    lemma_no_breaks(width::repeated(c, n));
}

proof fn lemma_literal_breaks()
    ensures
        line_breaks(""@) == 0,
        line_breaks(" "@) == 0,
        line_breaks("  "@) == 0,
        line_breaks("   "@) == 0,
        line_breaks("       "@) == 0,
        line_breaks("\n"@) == 1,
        line_breaks("|"@) == 0,
        line_breaks(":"@) == 0,
        line_breaks(": "@) == 0,
        line_breaks("="@) == 0,
        line_breaks("-->"@) == 0,
        line_breaks("-"@) == 0,
        line_breaks("+"@) == 0,
        line_breaks("note"@) == 0,
        line_breaks("help"@) == 0,
        line_breaks("note: "@) == 0,
        line_breaks("↳ "@) == 0,
        line_breaks(": ["@) == 0,
        line_breaks("]: "@) == 0,
        line_breaks("(see "@) == 0,
        line_breaks(")"@) == 0,
        line_breaks("error"@) == 0,
        line_breaks("warning"@) == 0,
{
    reveal_strlit("");
    reveal_strlit(" ");
    reveal_strlit("  ");
    reveal_strlit("   ");
    reveal_strlit("       ");
    reveal_strlit("\n");
    reveal_strlit("|");
    reveal_strlit(":");
    reveal_strlit(": ");
    reveal_strlit("=");
    reveal_strlit("-->");
    reveal_strlit("-");
    reveal_strlit("+");
    reveal_strlit("note");
    reveal_strlit("help");
    reveal_strlit("note: ");
    reveal_strlit("↳ ");
    reveal_strlit(": [");
    reveal_strlit("]: ");
    reveal_strlit("(see ");
    reveal_strlit(")");
    reveal_strlit("error");
    reveal_strlit("warning");
    lemma_no_breaks(""@);
    lemma_no_breaks(" "@);
    lemma_no_breaks("  "@);
    lemma_no_breaks("   "@);
    lemma_no_breaks("       "@);
    lemma_no_breaks("\n"@.drop_last());
    lemma_no_breaks("|"@);
    lemma_no_breaks(":"@);
    lemma_no_breaks(": "@);
    lemma_no_breaks("="@);
    lemma_no_breaks("-->"@);
    lemma_no_breaks("-"@);
    lemma_no_breaks("+"@);
    lemma_no_breaks("note"@);
    lemma_no_breaks("help"@);
    lemma_no_breaks("note: "@);
    lemma_no_breaks("↳ "@);
    lemma_no_breaks(": ["@);
    lemma_no_breaks("]: "@);
    lemma_no_breaks("(see "@);
    lemma_no_breaks(")"@);
    lemma_no_breaks("error"@);
    lemma_no_breaks("warning"@);
}

/// The header is one line, whatever the message holds, unless the code or the link breaks it.
pub proof fn law_header_is_one_line(
    severity: Severity,
    code: Seq<char>,
    message: Seq<char>,
    url: Option<Seq<char>>,
)
    requires
        line_breaks(code) == 0,
        url matches Some(u) ==> line_breaks(u) == 0,
    ensures
        line_breaks(document::plain_text(layout::header(severity, code, message, url))) == 1,
        document::plain_text(layout::header(severity, code, message, url)).last() == '\n',
{
    lemma_header_breaks(severity, code, message, url);
    let runs = layout::header(severity, code, message, url);
    lemma_plain_text_breaks(runs);
    reveal_strlit("\n");
    document::lemma_last_char(runs);
}

/// How many newlines the code and the link of a header hold.
spec fn given_breaks(code: Seq<char>, url: Option<Seq<char>>) -> nat {
    line_breaks(code) + match url {
        Some(u) => line_breaks(u),
        None => 0,
    }
}

proof fn lemma_header_breaks(
    severity: Severity,
    code: Seq<char>,
    message: Seq<char>,
    url: Option<Seq<char>>,
)
    ensures
        run_breaks(layout::header(severity, code, message, url)) == given_breaks(code, url) + 1,
{
    lemma_literal_breaks();
    lemma_sanitized_has_no_breaks(message);
    let sev = crate::style::style_of_severity(severity);
    let a: Seq<RunView> = seq![
        (crate::style::severity_text(severity), sev),
        (": ["@, TextStyle::Plain),
        (code, sev),
        ("]: "@, TextStyle::Plain),
        (text::sanitized(message, false), TextStyle::Plain),
    ];
    let end: Seq<RunView> = seq![("\n"@, TextStyle::Plain)];
    reveal_with_fuel(run_breaks, 7);
    lemma_run_breaks_concat(a + layout::link(url), end);
    lemma_run_breaks_concat(a, layout::link(url));
    if let Some(u) = url {
        lemma_line_breaks_concat("(see "@ + u, ")"@);
        lemma_line_breaks_concat("(see "@, u);
    }
}

/// A note, a help or the title of a suggestion is one line, whatever it says.
pub proof fn law_remark_is_one_line(word: Seq<char>, content: Seq<char>)
    requires
        line_breaks(word) == 0,
    ensures
        run_breaks(layout::remark(word, content)) == 1,
        line_breaks(document::plain_text(layout::remark(word, content))) == 1,
{
    lemma_literal_breaks();
    lemma_sanitized_has_no_breaks(content);
    reveal_with_fuel(run_breaks, 9);
    lemma_plain_text_breaks(layout::remark(word, content));
}

/// A row of a diff is one line, whatever it shows.
pub proof fn law_diff_row_is_one_line(
    n: nat,
    gutter: nat,
    sign: Seq<char>,
    sign_style: TextStyle,
    body: Seq<char>,
    body_style: TextStyle,
)
    requires
        line_breaks(sign) == 0,
    ensures
        run_breaks(layout::diff_row(n, gutter, sign, sign_style, body, body_style)) == 1,
        line_breaks(
            document::plain_text(
                layout::diff_row(n, gutter, sign, sign_style, body, body_style),
            ),
        ) == 1,
{
    lemma_literal_breaks();
    lemma_sanitized_has_no_breaks(body);
    lemma_number_has_no_breaks(n, gutter);
    reveal_with_fuel(run_breaks, 9);
    lemma_plain_text_breaks(layout::diff_row(n, gutter, sign, sign_style, body, body_style));
}

proof fn lemma_expanded_has_no_breaks(s: Seq<char>, tab_width: nat)
    requires
        forall|i: int| 0 <= i < s.len() ==> #[trigger] s[i] != '\n',
    ensures
        forall|i: int|
            0 <= i < width::expanded(s, tab_width).len() ==> #[trigger] width::expanded(
                s,
                tab_width,
            )[i] != '\n',
    decreases s.len(),
{
    if s.len() > 0 {
        let t = s.drop_last();
        assert forall|i: int| 0 <= i < t.len() implies #[trigger] t[i] != '\n' by {
            assert(t[i] == s[i]);
        }
        lemma_expanded_has_no_breaks(t, tab_width);
        assert(s[s.len() - 1] != '\n');
        let before = width::expanded(t, tab_width);
        let all = width::expanded(s, tab_width);
        assert forall|i: int| 0 <= i < all.len() implies #[trigger] all[i] != '\n' by {
            if i < before.len() {
                assert(all[i] == before[i]);
            }
        }
    }
}

/// The row of a source line is one line.
pub proof fn law_source_row_is_one_line(raw: Seq<char>, st: Setting, gutter: nat, n: nat)
    requires
        forall|i: int| 0 <= i < raw.len() ==> #[trigger] raw[i] != '\n',
    ensures
        line_breaks(document::plain_text(layout::source_row(raw, st, gutter, n))) == 1,
{
    let safe = text::sanitized(raw, true);
    assert forall|i: int| 0 <= i < safe.len() implies #[trigger] safe[i] != '\n' by {
        assert(safe.contains(safe[i]));
        raw.lemma_filter_contains_rev(|c: char| text::is_displayable(c, true), safe[i]);
    }
    lemma_expanded_has_no_breaks(safe, st.tab_width);
    let wide = width::expanded(safe, st.tab_width);
    tabs::lemma_fitting(wide, st.max_line_width - 1);
    lemma_no_breaks(layout::shown_line(raw, st));
    lemma_literal_breaks();
    lemma_number_has_no_breaks(n, gutter);
    reveal_with_fuel(run_breaks, 9);
    lemma_plain_text_breaks(layout::source_row(raw, st, gutter, n));
}

proof fn lemma_carets_have_no_breaks(marks: Seq<Mark>, severity: Severity)
    ensures
        run_breaks(layout::carets(marks, severity)) == 0,
    decreases marks.len(),
{
    if marks.len() > 0 {
        let m = marks.last();
        let before = layout::carets(marks.drop_last(), severity);
        lemma_carets_have_no_breaks(marks.drop_last(), severity);
        let gap = (
            width::repeated(' ', layout::less(m.pad, layout::caret_end(marks.drop_last()))),
            TextStyle::Plain,
        );
        lemma_repeated_has_no_breaks(
            ' ',
            layout::less(m.pad, layout::caret_end(marks.drop_last())),
        );
        lemma_repeated_has_no_breaks(layout::underline(m.label.style), m.len);
        let all = layout::carets(marks, severity);
        assert(all.drop_last() == before.push(gap));
        assert(before.push(gap).drop_last() == before);
        assert(run_breaks(before.push(gap)) == 0);
    }
}

proof fn lemma_lead_breaks(gutter: nat)
    ensures
        run_breaks(
            seq![
                ("  "@, TextStyle::Plain),
                (width::repeated(' ', gutter), TextStyle::Plain),
                (" "@, TextStyle::Plain),
                ("|"@, TextStyle::BlueBold),
                (" "@, TextStyle::Plain),
            ],
        ) == 0,
{
    lemma_literal_breaks();
    lemma_repeated_has_no_breaks(' ', gutter);
    reveal_with_fuel(run_breaks, 7);
}

proof fn lemma_label_message_breaks(label: LabelView, severity: Severity)
    ensures
        run_breaks(layout::label_message(label, severity)) == 0,
{
    if let Some(m) = label.message {
        lemma_literal_breaks();
        lemma_sanitized_has_no_breaks(m);
        reveal_with_fuel(run_breaks, 4);
    }
}

proof fn lemma_label_note_breaks(m: Mark, color: bool, gutter: nat)
    ensures
        run_breaks(layout::label_note(m, color, gutter)) == if m.label.note is Some {
            1nat
        } else {
            0nat
        },
{
    if let Some(n) = m.label.note {
        lemma_literal_breaks();
        lemma_repeated_has_no_breaks(' ', gutter);
        lemma_repeated_has_no_breaks(' ', m.pad);
        lemma_sanitized_has_no_breaks(n);
        reveal_with_fuel(run_breaks, 12);
    }
}

/// The row of a label is one line, and so is the row of its note, whatever they say.
pub proof fn law_caret_row_is_one_line(marks: Seq<Mark>, st: Setting, gutter: nat)
    ensures
        run_breaks(layout::caret_row(marks, st, gutter)) == if marks.last().label.note is Some {
            2nat
        } else {
            1nat
        },
        line_breaks(document::plain_text(layout::caret_row(marks, st, gutter)))
            == if marks.last().label.note is Some {
            2nat
        } else {
            1nat
        },
{
    let lead: Seq<RunView> = seq![
        ("  "@, TextStyle::Plain),
        (width::repeated(' ', gutter), TextStyle::Plain),
        (" "@, TextStyle::Plain),
        ("|"@, TextStyle::BlueBold),
        (" "@, TextStyle::Plain),
    ];
    let carets = layout::carets(marks, st.severity);
    let message = layout::label_message(marks.last().label, st.severity);
    let end: Seq<RunView> = seq![("\n"@, TextStyle::Plain)];
    let note = layout::label_note(marks.last(), st.color, gutter);
    lemma_lead_breaks(gutter);
    lemma_carets_have_no_breaks(marks, st.severity);
    lemma_label_message_breaks(marks.last().label, st.severity);
    lemma_label_note_breaks(marks.last(), st.color, gutter);
    assert(run_breaks(end) == 1) by {
        lemma_literal_breaks();
        reveal_with_fuel(run_breaks, 2);
    }
    lemma_run_breaks_concat(lead + carets + message + end, note);
    lemma_run_breaks_concat(lead + carets + message, end);
    lemma_run_breaks_concat(lead + carets, message);
    lemma_run_breaks_concat(lead, carets);
    lemma_plain_text_breaks(layout::caret_row(marks, st, gutter));
}

/// Two labels that differ at most in what they say.
pub open spec fn marks_same(a: LabelView, b: LabelView) -> bool {
    &&& a.span == b.span
    &&& a.style == b.style
    &&& a.message is Some <==> b.message is Some
    &&& a.note is Some <==> b.note is Some
}

/// Labels that differ, one by one, at most in what they say.
pub open spec fn all_mark_same(a: Seq<LabelView>, b: Seq<LabelView>) -> bool {
    &&& a.len() == b.len()
    &&& forall|i: int| 0 <= i < a.len() ==> marks_same(#[trigger] a[i], b[i])
}

/// Two suggestions that differ at most in their titles.
pub open spec fn replaces_same(a: SuggestionView, b: SuggestionView) -> bool {
    &&& a.span == b.span
    &&& a.replacement == b.replacement
    &&& a.applicability == b.applicability
}

/// Two diagnostics that differ at most in what their message, labels, notes, help and suggestion
/// titles say.
pub open spec fn points_same(a: DiagnosticView, b: DiagnosticView) -> bool {
    &&& a.severity == b.severity
    &&& all_mark_same(a.labels, b.labels)
    &&& a.notes.len() == b.notes.len()
    &&& a.help is Some <==> b.help is Some
    &&& a.suggestions.len() == b.suggestions.len()
    &&& forall|i: int|
        0 <= i < a.suggestions.len() ==> replaces_same(
            #[trigger] a.suggestions[i],
            b.suggestions[i],
        )
}

proof fn lemma_drop_last_same(a: Seq<LabelView>, b: Seq<LabelView>)
    requires
        all_mark_same(a, b),
        a.len() > 0,
    ensures
        all_mark_same(a.drop_last(), b.drop_last()),
        marks_same(a.last(), b.last()),
{
    assert forall|i: int| 0 <= i < a.len() - 1 implies marks_same(
        #[trigger] a.drop_last()[i],
        b.drop_last()[i],
    ) by {
        assert(marks_same(a[i], b[i]));
    }
    assert(marks_same(a[a.len() - 1], b[a.len() - 1]));
}

proof fn lemma_filter_same(
    a: Seq<LabelView>,
    b: Seq<LabelView>,
    pred: spec_fn(LabelView) -> bool,
)
    requires
        all_mark_same(a, b),
        forall|x: LabelView, y: LabelView| marks_same(x, y) ==> pred(x) == pred(y),
    ensures
        all_mark_same(a.filter(pred), b.filter(pred)),
    decreases a.len(),
{
    reveal(Seq::filter);
    if a.len() > 0 {
        lemma_drop_last_same(a, b);
        lemma_filter_same(a.drop_last(), b.drop_last(), pred);
        assert(pred(a.last()) == pred(b.last()));
    }
}

proof fn lemma_files_same(a: Seq<LabelView>, b: Seq<LabelView>)
    requires
        all_mark_same(a, b),
    ensures
        layout::files_of(a) == layout::files_of(b),
    decreases a.len(),
{
    if a.len() > 0 {
        lemma_drop_last_same(a, b);
        lemma_files_same(a.drop_last(), b.drop_last());
    }
}

proof fn lemma_inserted_same(a: Seq<LabelView>, b: Seq<LabelView>, x: LabelView, y: LabelView)
    requires
        all_mark_same(a, b),
        marks_same(x, y),
    ensures
        all_mark_same(layout::inserted(a, x), layout::inserted(b, y)),
    decreases a.len(),
{
    if a.len() > 0 {
        lemma_drop_last_same(a, b);
        lemma_inserted_same(a.drop_last(), b.drop_last(), x, y);
    }
}

proof fn lemma_by_column_same(a: Seq<LabelView>, b: Seq<LabelView>)
    requires
        all_mark_same(a, b),
    ensures
        all_mark_same(layout::by_column(a), layout::by_column(b)),
    decreases a.len(),
{
    if a.len() > 0 {
        lemma_drop_last_same(a, b);
        lemma_by_column_same(a.drop_last(), b.drop_last());
        lemma_inserted_same(
            layout::by_column(a.drop_last()),
            layout::by_column(b.drop_last()),
            a.last(),
            b.last(),
        );
    }
}

proof fn lemma_line_range_same(a: Seq<LabelView>, b: Seq<LabelView>)
    requires
        all_mark_same(a, b),
    ensures
        layout::min_line(a) == layout::min_line(b),
        layout::max_line(a) == layout::max_line(b),
    decreases a.len(),
{
    if a.len() > 0 {
        assert(marks_same(a[0], b[0]));
        lemma_drop_last_same(a, b);
        lemma_line_range_same(a.drop_last(), b.drop_last());
    }
}

proof fn lemma_caret_rows_same(a: Seq<Mark>, b: Seq<Mark>, st: Setting, gutter: nat, n: nat)
    requires
        a.len() == b.len(),
        forall|i: int| 0 <= i < a.len() ==> marks_same(#[trigger] a[i].label, b[i].label),
        n <= a.len(),
    ensures
        run_breaks(layout::caret_rows(a, st, gutter, n)) == run_breaks(
            layout::caret_rows(b, st, gutter, n),
        ),
    decreases n,
{
    if n > 0 {
        lemma_caret_rows_same(a, b, st, gutter, (n - 1) as nat);
        law_caret_row_is_one_line(a.take(n as int), st, gutter);
        law_caret_row_is_one_line(b.take(n as int), st, gutter);
        assert(marks_same(a[n - 1].label, b[n - 1].label));
        assert(a.take(n as int).last() == a[n - 1]);
        assert(b.take(n as int).last() == b[n - 1]);
        lemma_run_breaks_concat(
            layout::caret_row(a.take(n as int), st, gutter),
            layout::caret_rows(a, st, gutter, (n - 1) as nat),
        );
        lemma_run_breaks_concat(
            layout::caret_row(b.take(n as int), st, gutter),
            layout::caret_rows(b, st, gutter, (n - 1) as nat),
        );
    }
}

proof fn lemma_line_block_same(
    a: Seq<LabelView>,
    b: Seq<LabelView>,
    st: Setting,
    gutter: nat,
    n: nat,
)
    requires
        all_mark_same(a, b),
    ensures
        run_breaks(layout::line_block(a, st, gutter, n)) == run_breaks(
            layout::line_block(b, st, gutter, n),
        ),
{
    let pred = |l: LabelView| layout::touches(l, n);
    lemma_filter_same(a, b, pred);
    lemma_by_column_same(a.filter(pred), b.filter(pred));
    let x = layout::labels_on(a, n);
    let y = layout::labels_on(b, n);
    let p = layout::marks_on(a, st, n);
    let q = layout::marks_on(b, st, n);
    assert forall|i: int| 0 <= i < p.len() implies marks_same(#[trigger] p[i].label, q[i].label) by {
        assert(p[i].label == x[i]);
        assert(q[i].label == y[i]);
        assert(marks_same(x[i], y[i]));
    }
    lemma_caret_rows_same(p, q, st, gutter, x.len());
    let row = layout::source_row(layout::raw_line(st.lines, n), st, gutter, n);
    lemma_run_breaks_concat(row, layout::caret_rows(p, st, gutter, x.len()));
    lemma_run_breaks_concat(row, layout::caret_rows(q, st, gutter, y.len()));
}

proof fn lemma_source_rows_same(
    a: Seq<LabelView>,
    b: Seq<LabelView>,
    st: Setting,
    gutter: nat,
    n: nat,
)
    requires
        all_mark_same(a, b),
    ensures
        run_breaks(layout::source_rows(a, st, gutter, n)) == run_breaks(
            layout::source_rows(b, st, gutter, n),
        ),
    decreases n,
{
    lemma_line_range_same(a, b);
    if n >= layout::first_shown(a, st) {
        lemma_source_rows_same(a, b, st, gutter, (n - 1) as nat);
        lemma_line_block_same(a, b, st, gutter, n);
        lemma_run_breaks_concat(
            layout::source_rows(a, st, gutter, (n - 1) as nat),
            layout::line_block(a, st, gutter, n),
        );
        lemma_run_breaks_concat(
            layout::source_rows(b, st, gutter, (n - 1) as nat),
            layout::line_block(b, st, gutter, n),
        );
    }
}

proof fn lemma_file_section_same(a: Seq<LabelView>, b: Seq<LabelView>, st: Setting)
    requires
        all_mark_same(a, b),
    ensures
        run_breaks(layout::file_section(a, st)) == run_breaks(layout::file_section(b, st)),
{
    lemma_line_range_same(a, b);
    let last = layout::last_shown(a, st);
    let gutter = layout::gutter_width(last);
    let edge = layout::rule(gutter);
    let x = layout::source_rows(a, st, gutter, last);
    let y = layout::source_rows(b, st, gutter, last);
    lemma_source_rows_same(a, b, st, gutter, last);
    lemma_run_breaks_concat(edge + x, edge);
    lemma_run_breaks_concat(edge, x);
    lemma_run_breaks_concat(edge + y, edge);
    lemma_run_breaks_concat(edge, y);
}

proof fn lemma_first_primary_same(a: Seq<LabelView>, b: Seq<LabelView>)
    requires
        all_mark_same(a, b),
    ensures
        layout::first_primary(a) == layout::first_primary(b),
    decreases a.len(),
{
    if a.len() > 0 {
        assert(marks_same(a[0], b[0]));
        let x = a.drop_first();
        let y = b.drop_first();
        assert forall|i: int| 0 <= i < x.len() implies marks_same(#[trigger] x[i], y[i]) by {
            assert(marks_same(a[i + 1], b[i + 1]));
        }
        lemma_first_primary_same(x, y);
    }
}

proof fn lemma_file_blocks_same(a: Seq<LabelView>, b: Seq<LabelView>, st: Setting, n: nat)
    requires
        all_mark_same(a, b),
        n <= layout::files_of(a).len(),
    ensures
        run_breaks(layout::file_blocks(a, st, n)) == run_breaks(layout::file_blocks(b, st, n)),
    decreases n,
{
    lemma_files_same(a, b);
    if n > 0 {
        let file = layout::files_of(a)[n - 1];
        let pred = |l: LabelView| l.span.file == file;
        lemma_filter_same(a, b, pred);
        let x = layout::labels_in(a, file);
        let y = layout::labels_in(b, file);
        lemma_file_blocks_same(a, b, st, (n - 1) as nat);
        layout::lemma_file_has_label(a, n - 1);
        lemma_first_primary_same(x, y);
        layout::lemma_first_primary(x);
        let p = layout::leading_label(x);
        let q = layout::leading_label(y);
        assert(marks_same(x[0], y[0]));
        if layout::first_primary(x) < x.len() {
            assert(marks_same(
                x[layout::first_primary(x) as int],
                y[layout::first_primary(x) as int],
            ));
        }
        assert(layout::location(p) == layout::location(q));
        lemma_file_section_same(x, y, st);
        let gap = layout::between(n, layout::files_of(a).len());
        let fa = layout::file_blocks(a, st, (n - 1) as nat);
        let fb = layout::file_blocks(b, st, (n - 1) as nat);
        lemma_run_breaks_concat(fa + layout::location(p) + layout::file_section(x, st), gap);
        lemma_run_breaks_concat(fa + layout::location(p), layout::file_section(x, st));
        lemma_run_breaks_concat(fa, layout::location(p));
        lemma_run_breaks_concat(fb + layout::location(q) + layout::file_section(y, st), gap);
        lemma_run_breaks_concat(fb + layout::location(q), layout::file_section(y, st));
        lemma_run_breaks_concat(fb, layout::location(q));
    }
}

proof fn lemma_notes_breaks(all: Seq<Seq<char>>, n: nat)
    ensures
        run_breaks(layout::notes(all, n)) == n,
    decreases n,
{
    if n > 0 {
        lemma_literal_breaks();
        lemma_notes_breaks(all, (n - 1) as nat);
        law_remark_is_one_line("note"@, all[n - 1]);
        lemma_run_breaks_concat(
            layout::notes(all, (n - 1) as nat),
            layout::remark("note"@, all[n - 1]),
        );
    }
}

proof fn lemma_help_breaks(help: Option<Seq<char>>)
    ensures
        run_breaks(layout::help(help)) == if help is Some {
            1nat
        } else {
            0nat
        },
{
    if let Some(h) = help {
        lemma_literal_breaks();
        law_remark_is_one_line("help"@, h);
    }
}

proof fn lemma_suggestions_same(
    a: Seq<SuggestionView>,
    b: Seq<SuggestionView>,
    lines: Seq<Seq<char>>,
    n: nat,
)
    requires
        a.len() == b.len(),
        forall|i: int| 0 <= i < a.len() ==> replaces_same(#[trigger] a[i], b[i]),
        n <= a.len(),
    ensures
        run_breaks(layout::suggestions(a, lines, n)) == run_breaks(
            layout::suggestions(b, lines, n),
        ),
    decreases n,
{
    if n > 0 {
        let s = a[n - 1];
        let t = b[n - 1];
        assert(replaces_same(s, t));
        lemma_literal_breaks();
        lemma_suggestions_same(a, b, lines, (n - 1) as nat);
        let x = layout::remark("help"@, layout::suggestion_title(s));
        let y = layout::remark("help"@, layout::suggestion_title(t));
        law_remark_is_one_line("help"@, layout::suggestion_title(s));
        law_remark_is_one_line("help"@, layout::suggestion_title(t));
        let diff = layout::suggestion_diff(s, lines);
        assert(diff == layout::suggestion_diff(t, lines)) by {
            if let Some(line) = source::line_at(lines, s.span.line) {
                assert(layout::rewritten(s, line) == layout::rewritten(t, line));
            }
        }
        let kind = layout::applicability(s.applicability);
        let fa = layout::suggestions(a, lines, (n - 1) as nat);
        let fb = layout::suggestions(b, lines, (n - 1) as nat);
        lemma_run_breaks_concat(fa + x + diff, kind);
        lemma_run_breaks_concat(fa + x, diff);
        lemma_run_breaks_concat(fa, x);
        lemma_run_breaks_concat(fb + y + diff, kind);
        lemma_run_breaks_concat(fb + y, diff);
        lemma_run_breaks_concat(fb, y);
    }
}

/// What a diagnostic says does not change how many lines it takes: a newline in its message, in
/// that of a label, in a note, a help or a title starts no new line.
pub proof fn law_words_add_no_lines(
    a: DiagnosticView,
    b: DiagnosticView,
    code: Seq<char>,
    url: Option<Seq<char>>,
    lines: Seq<Seq<char>>,
    options: RenderOptions,
    color: bool,
)
    requires
        points_same(a, b),
    ensures
        line_breaks(document::plain_text(layout::layout(a, code, url, lines, options, color)))
            == line_breaks(
            document::plain_text(layout::layout(b, code, url, lines, options, color)),
        ),
{
    let st = layout::setting(lines, options, a.severity, color);
    let n = layout::files_of(a.labels).len();
    lemma_files_same(a.labels, b.labels);
    lemma_header_breaks(a.severity, code, a.message, url);
    lemma_header_breaks(b.severity, code, b.message, url);
    lemma_file_blocks_same(a.labels, b.labels, st, n);
    lemma_notes_breaks(a.notes, a.notes.len());
    lemma_notes_breaks(b.notes, b.notes.len());
    lemma_help_breaks(a.help);
    lemma_help_breaks(b.help);
    lemma_suggestions_same(a.suggestions, b.suggestions, lines, a.suggestions.len());
    lemma_layout_breaks(a, code, url, lines, options, color);
    lemma_layout_breaks(b, code, url, lines, options, color);
}

proof fn lemma_layout_breaks(
    d: DiagnosticView,
    code: Seq<char>,
    url: Option<Seq<char>>,
    lines: Seq<Seq<char>>,
    options: RenderOptions,
    color: bool,
)
    ensures
        line_breaks(document::plain_text(layout::layout(d, code, url, lines, options, color)))
            == run_breaks(layout::header(d.severity, code, d.message, url)) + run_breaks(
            layout::file_blocks(
                d.labels,
                layout::setting(lines, options, d.severity, color),
                layout::files_of(d.labels).len(),
            ),
        ) + run_breaks(layout::notes(d.notes, d.notes.len())) + run_breaks(layout::help(d.help))
            + run_breaks(layout::suggestions(d.suggestions, lines, d.suggestions.len()))
            + run_breaks(seq![("\n"@, TextStyle::Plain)]),
{
    let h = layout::header(d.severity, code, d.message, url);
    let f = layout::file_blocks(
        d.labels,
        layout::setting(lines, options, d.severity, color),
        layout::files_of(d.labels).len(),
    );
    let n = layout::notes(d.notes, d.notes.len());
    let p = layout::help(d.help);
    let s = layout::suggestions(d.suggestions, lines, d.suggestions.len());
    let e: Seq<RunView> = seq![("\n"@, TextStyle::Plain)];
    lemma_run_breaks_concat(h + f + n + p + s, e);
    lemma_run_breaks_concat(h + f + n + p, s);
    lemma_run_breaks_concat(h + f + n, p);
    lemma_run_breaks_concat(h + f, n);
    lemma_run_breaks_concat(h, f);
    lemma_plain_text_breaks(layout::layout(d, code, url, lines, options, color));
}

} // verus!
