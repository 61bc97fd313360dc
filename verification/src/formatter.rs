//! Rendering of one diagnostic.

use vstd::prelude::*;
use vstd::string::*;

use crate::diagnostic;
use crate::diagnostic::{
    Applicability, Diagnostic, DiagnosticCode, Label, LabelStyle, Severity, Suggestion,
};
use crate::document;
use crate::document::Document;
use crate::labels;
use crate::labels::label_columns_on_line;
use crate::layout;
use crate::layout::RenderOptions;
use crate::lines;
use crate::offsets;
use crate::source;
use crate::source::{CacheRef, SourceCache};
use crate::style;
use crate::style::TextStyle;
use crate::text;
use crate::text::{cow_str, sanitize_for_display};
use crate::width;

verus! {

/// Renders one diagnostic at a time. Holds a borrowed or owned line cache and the active
/// [`RenderOptions`].
pub struct DiagnosticFormatter<'a, 'src, C: DiagnosticCode> {
    diagnostic: &'a Diagnostic<C>,
    cache: CacheRef<'a, 'src>,
    options: RenderOptions,
}

/// A label with the place of its carets.
struct CaretMark<'b> {
    pad: u128,
    len: u128,
    label: &'b Label,
}

impl<'b> View for CaretMark<'b> {
    type V = layout::Mark;

    closed spec fn view(&self) -> layout::Mark {
        layout::Mark { pad: self.pad as nat, len: self.len as nat, label: self.label@ }
    }
}

/// The views of caret places.
spec fn mark_views(v: Seq<CaretMark<'_>>) -> Seq<layout::Mark> {
    v.map_values(|m: CaretMark<'_>| m@)
}

/// Appending five parts one by one appends their concatenation.
proof fn lemma_concat_five(
    s: Seq<document::RunView>,
    a: Seq<document::RunView>,
    b: Seq<document::RunView>,
    c: Seq<document::RunView>,
    d: Seq<document::RunView>,
    e: Seq<document::RunView>,
)
    ensures
        s + a + b + c + d + e == s + (a + b + c + d + e),
{
}

/// A column, or the largest `u128` where it is larger than that.
spec fn cap128(n: nat) -> nat {
    layout::min(n, u128::MAX as nat)
}

/// Puts `s` on one line of `out`, without its control characters.
fn put_clean(out: &mut Document, s: &str, style: TextStyle)
    ensures
        final(out)@ == old(out)@.push((text::sanitized(s@, false), style)),
{
    let clean = sanitize_for_display(s, false);
    out.put(cow_str(&clean), style);
}

/// Puts `n` spaces into `out`.
fn put_spaces(out: &mut Document, n: u128)
    ensures
        final(out)@ == old(out)@.push((width::repeated(' ', n as nat), TextStyle::Plain)),
{
    let mut spaces = String::new();
    width::push_repeated(&mut spaces, ' ', n);
    assert(spaces@ == width::repeated(' ', n as nat));
    out.put(spaces.as_str(), TextStyle::Plain);
}

/// The width of a gutter for line numbers up to `last`.
fn gutter_width(last: usize) -> (r: usize)
    ensures
        r == layout::gutter_width(last as nat),
{
    let n = text::decimal_len(last);
    if n < 2 {
        2
    } else {
        n
    }
}

/// Puts a line with an empty gutter into `out`.
fn put_rule(out: &mut Document, gutter_w: usize)
    ensures
        final(out)@ == old(out)@ + layout::rule(gutter_w as nat),
{
    out.put("  ", TextStyle::Plain);
    put_spaces(out, gutter_w as u128);
    out.put(" ", TextStyle::Plain);
    out.put("|", TextStyle::BlueBold);
    out.put("\n", TextStyle::Plain);
    assert(out@ == old(out)@ + layout::rule(gutter_w as nat));
}

/// Puts a remark into `out`.
fn put_remark(out: &mut Document, word: &str, content: &str)
    ensures
        final(out)@ == old(out)@ + layout::remark(word@, content@),
{
    out.put("   ", TextStyle::Plain);
    out.put("=", TextStyle::BlueBold);
    out.put(" ", TextStyle::Plain);
    out.put(word, TextStyle::CyanBold);
    out.put(": ", TextStyle::Plain);
    put_clean(out, content, TextStyle::Plain);
    out.put("\n", TextStyle::Plain);
    assert(out@ == old(out)@ + layout::remark(word@, content@));
}

/// Puts a row of a diff into `out`.
fn put_diff_row(
    out: &mut Document,
    n: usize,
    gutter_w: usize,
    sign: &str,
    sign_style: TextStyle,
    body: &str,
    body_style: TextStyle,
)
    ensures
        final(out)@ == old(out)@ + layout::diff_row(
            n as nat,
            gutter_w as nat,
            sign@,
            sign_style,
            body@,
            body_style,
        ),
{
    out.put("  ", TextStyle::Plain);
    let number = text::padded_number(n, gutter_w);
    out.put(number.as_str(), TextStyle::BlueBold);
    out.put(" ", TextStyle::Plain);
    out.put(sign, sign_style);
    out.put(" ", TextStyle::Plain);
    put_clean(out, body, body_style);
    out.put("\n", TextStyle::Plain);
    assert(out@ == old(out)@ + layout::diff_row(
        n as nat,
        gutter_w as nat,
        sign@,
        sign_style,
        body@,
        body_style,
    ));
}

impl<'a, 'src, C: DiagnosticCode> DiagnosticFormatter<'a, 'src, C> {
    /// The diagnostic that is rendered.
    pub closed spec fn diagnostic(&self) -> Diagnostic<C> {
        *self.diagnostic
    }

    /// The lines of the source text.
    pub closed spec fn lines(&self) -> Seq<Seq<char>> {
        self.cache@
    }

    /// The active options.
    pub closed spec fn options(&self) -> RenderOptions {
        self.options
    }

    /// What the sections of the diagnostic have in common.
    spec fn setting(&self, color: bool) -> layout::Setting {
        layout::setting(self.cache@, self.options, self.diagnostic.severity, color)
    }

    /// Construct from a raw source string. For repeated formatting against the same source, build
    /// a [`SourceCache`] once and use [`DiagnosticFormatter::with_cache`].
    pub fn new(diagnostic: &'a Diagnostic<C>, source: &str) -> (r: Self)
        ensures
            r.diagnostic() == *diagnostic,
            r.lines() == lines::lines_of(source@),
            r.options() == (RenderOptions {
                tab_width: 4,
                context_lines: 0,
                max_line_width: 0,
                color: true,
            }),
    {
        DiagnosticFormatter {
            diagnostic,
            cache: CacheRef::owned(source),
            options: RenderOptions::default(),
        }
    }

    /// Construct from a pre-built [`SourceCache`]. Cheap; reuse the cache across many diagnostics
    /// over the same source.
    pub fn with_cache(diagnostic: &'a Diagnostic<C>, cache: &'a SourceCache<'src>) -> (r: Self)
        ensures
            r.diagnostic() == *diagnostic,
            r.lines() == cache@,
            r.options() == (RenderOptions {
                tab_width: 4,
                context_lines: 0,
                max_line_width: 0,
                color: true,
            }),
    {
        DiagnosticFormatter {
            diagnostic,
            cache: CacheRef::borrowed(cache),
            options: RenderOptions::default(),
        }
    }

    /// Override [`RenderOptions`].
    pub fn with_options(self, options: RenderOptions) -> (r: Self)
        ensures
            r.diagnostic() == self.diagnostic(),
            r.lines() == self.lines(),
            r.options() == options,
    {
        DiagnosticFormatter { diagnostic: self.diagnostic, cache: self.cache, options }
    }

    fn underline_char(style: LabelStyle) -> (r: char)
        ensures
            r == layout::underline(style),
    {
        match style {
            LabelStyle::Primary => '^',
            LabelStyle::Secondary => '-',
        }
    }

    fn write_header(&self, out: &mut Document, code: &str, url: Option<&str>)
        ensures
            final(out)@ == old(out)@ + layout::header(
                self.diagnostic.severity,
                code@,
                self.diagnostic.message@,
                source::line_text(url),
            ),
    {
        let severity = self.diagnostic.severity;
        let sev = style::severity_style(severity);
        out.put(style::severity_word(severity), sev);
        out.put(": [", TextStyle::Plain);
        out.put(code, sev);
        out.put("]: ", TextStyle::Plain);
        put_clean(out, self.diagnostic.message.as_str(), TextStyle::Plain);
        if let Some(u) = url {
            out.put(" ", TextStyle::Plain);
            let mut see = "(see ".to_owned();
            see.append(u);
            see.append(")");
            out.put(see.as_str(), TextStyle::BlueItalic);
        }
        out.put("\n", TextStyle::Plain);
        assert(out@ == old(out)@ + layout::header(
            severity,
            code@,
            self.diagnostic.message@,
            source::line_text(url),
        ));
    }

    /// Where the carets of `label` go below `line_num`, which reads `raw_line`.
    fn caret_mark<'b>(
        &self,
        label: &'b Label,
        line_num: usize,
        raw_line: &str,
    ) -> (r: CaretMark<'b>)
        ensures
            r@ == layout::mark_below(
                label@,
                raw_line@,
                self.options.tab_width as nat,
                line_num as nat,
            ),
    {
        let (col_start, col_end) = label_columns_on_line(label, line_num, raw_line);
        let pad = width::display_width_prefix(raw_line, col_start - 1, self.options.tab_width);
        let marked = width::display_width_range(
            raw_line,
            col_start - 1,
            col_end - 1,
            self.options.tab_width,
        );
        CaretMark {
            pad,
            len: if marked < 1 {
                1
            } else {
                marked
            },
            label,
        }
    }

    /// Renders all labels on one source line as a stacked block.
    ///
    /// Layout:
    ///   row 0  : carets for every label, message of the last (rightmost) label
    ///   row 1  : carets up to the last but one, message of that label
    ///   ...
    ///   last   : caret for the first label, message of the first label
    ///
    /// Each label keeps its own color. The optional note of a label follows its message row.
    fn write_caret_block(
        &self,
        out: &mut Document,
        sorted: &Vec<&Label>,
        line_num: usize,
        raw_line: &str,
        gutter_w: usize,
        color: bool,
    )
        ensures
            final(out)@ == old(out)@ + layout::caret_rows(
                layout::marks_below(
                    diagnostic::label_ref_views(sorted@),
                    raw_line@,
                    self.options.tab_width as nat,
                    line_num as nat,
                ),
                self.setting(color),
                gutter_w as nat,
                sorted@.len(),
            ),
    {
        let ghost st = self.setting(color);
        let ghost marks = layout::marks_below(
            diagnostic::label_ref_views(sorted@),
            raw_line@,
            self.options.tab_width as nat,
            line_num as nat,
        );
        let n = sorted.len();
        let mut infos: Vec<CaretMark<'_>> = Vec::new();
        let mut i: usize = 0;
        while i < n
            invariant
                i <= n,
                n == sorted@.len(),
                marks == layout::marks_below(
                    diagnostic::label_ref_views(sorted@),
                    raw_line@,
                    self.options.tab_width as nat,
                    line_num as nat,
                ),
                mark_views(infos@) == marks.take(i as int),
            decreases n - i,
        {
            let ghost before = infos@;
            let info = self.caret_mark(sorted[i], line_num, raw_line);
            infos.push(info);
            assert(mark_views(infos@) == mark_views(before).push(info@));
            i += 1;
            assert(mark_views(infos@) == marks.take(i as int));
        }
        assert(marks.take(n as int) == marks);

        let mut m: usize = n;
        while m > 0
            invariant
                m <= n,
                n == infos@.len(),
                n == marks.len(),
                mark_views(infos@) == marks,
                st == self.setting(color),
                old(out)@ + layout::caret_rows(marks, st, gutter_w as nat, n as nat) == out@
                    + layout::caret_rows(marks, st, gutter_w as nat, m as nat),
            decreases m,
        {
            let ghost so_far = out@;
            self.write_caret_row(out, &infos, m, gutter_w, color);
            proof {
                let row = layout::caret_row(marks.take(m as int), st, gutter_w as nat);
                let rest = layout::caret_rows(marks, st, gutter_w as nat, (m - 1) as nat);
                assert(so_far + (row + rest) == (so_far + row) + rest);
            }
            m -= 1;
        }
        assert(out@ == old(out)@ + layout::caret_rows(marks, st, gutter_w as nat, n as nat));
    }

    /// Writes the carets of the first `m` labels, with the message and the note of the last of
    /// them.
    fn write_caret_row(
        &self,
        out: &mut Document,
        infos: &Vec<CaretMark<'_>>,
        m: usize,
        gutter_w: usize,
        color: bool,
    )
        requires
            0 < m <= infos@.len(),
        ensures
            final(out)@ == old(out)@ + layout::caret_row(
                mark_views(infos@).take(m as int),
                self.setting(color),
                gutter_w as nat,
            ),
    {
        let severity = self.diagnostic.severity;
        let ghost marks = mark_views(infos@);
        out.put("  ", TextStyle::Plain);
        put_spaces(out, gutter_w as u128);
        out.put(" ", TextStyle::Plain);
        out.put("|", TextStyle::BlueBold);
        out.put(" ", TextStyle::Plain);
        let ghost start = out@;

        let mut cursor: u128 = 0;
        let mut i: usize = 0;
        assert(layout::carets(marks.take(0), severity) == Seq::<document::RunView>::empty());
        assert(start == start + layout::carets(marks.take(0), severity));
        while i < m
            invariant
                i <= m,
                m <= infos@.len(),
                marks == mark_views(infos@),
                cursor == cap128(layout::caret_end(marks.take(i as int))),
                out@ == start + layout::carets(marks.take(i as int), severity),
            decreases m - i,
        {
            let info = &infos[i];
            assert(marks[i as int] == info@);
            assert(marks.take(i + 1).drop_last() == marks.take(i as int));
            assert(marks.take(i + 1).last() == info@);
            let gap = info.pad.saturating_sub(cursor);
            put_spaces(out, gap);
            let mut underline = String::new();
            width::push_repeated(
                &mut underline,
                Self::underline_char(info.label.style),
                info.len,
            );
            assert(underline@ == width::repeated(
                layout::underline(info.label.style),
                info.len as nat,
            ));
            out.put(underline.as_str(), style::label_style(severity, info.label.style));
            if cursor < info.pad {
                cursor = info.pad;
            }
            cursor = cursor.saturating_add(info.len);
            i += 1;
            assert(out@ == start + layout::carets(marks.take(i as int), severity));
        }

        let last = &infos[m - 1];
        assert(marks.take(m as int).last() == last@);
        let ghost before_message = out@;
        Self::write_label_message(out, last.label, severity);
        out.put("\n", TextStyle::Plain);
        let ghost before_note = out@;
        Self::write_label_note(out, last, gutter_w, color);
        proof {
            let st = self.setting(color);
            let all = marks.take(m as int);
            let lead = seq![
                ("  "@, TextStyle::Plain),
                (width::repeated(' ', gutter_w as nat), TextStyle::Plain),
                (" "@, TextStyle::Plain),
                ("|"@, TextStyle::BlueBold),
                (" "@, TextStyle::Plain),
            ];
            let carets = layout::carets(all, severity);
            let msg = layout::label_message(last.label@, severity);
            let newline = seq![("\n"@, TextStyle::Plain)];
            let note = layout::label_note(last@, color, gutter_w as nat);
            assert(start == old(out)@ + lead);
            assert(before_note == before_message + msg + newline);
            lemma_concat_five(old(out)@, lead, carets, msg, newline, note);
        }
    }

    /// Writes the message of a label, where it has one.
    fn write_label_message(out: &mut Document, label: &Label, severity: Severity)
        ensures
            final(out)@ == old(out)@ + layout::label_message(label@, severity),
    {
        if let Some(msg) = &label.message {
            out.put(" ", TextStyle::Plain);
            put_clean(out, msg.as_str(), style::label_style(severity, label.style));
        }
        assert(out@ == old(out)@ + layout::label_message(label@, severity));
    }

    /// Writes the note of a label, where it has one, under its carets.
    fn write_label_note(out: &mut Document, info: &CaretMark<'_>, gutter_w: usize, color: bool)
        ensures
            final(out)@ == old(out)@ + layout::label_note(info@, color, gutter_w as nat),
    {
        if let Some(note) = &info.label.note {
            out.put("  ", TextStyle::Plain);
            put_spaces(out, gutter_w as u128);
            out.put(" ", TextStyle::Plain);
            out.put("|", TextStyle::BlueBold);
            out.put(" ", TextStyle::Plain);
            put_spaces(out, info.pad);
            out.put("↳ ", TextStyle::Plain);
            out.put(
                if color {
                    ""
                } else {
                    "note: "
                },
                TextStyle::Plain,
            );
            put_clean(out, note.as_str(), TextStyle::CyanItalic);
            out.put("\n", TextStyle::Plain);
        }
        assert(out@ == old(out)@ + layout::label_note(info@, color, gutter_w as nat));
    }

    /// Writes the row of source line `line_num`, which reads `raw`.
    fn write_source_row(
        &self,
        out: &mut Document,
        line_num: usize,
        raw: &str,
        gutter_w: usize,
        color: bool,
    )
        ensures
            final(out)@ == old(out)@ + layout::source_row(
                raw@,
                self.setting(color),
                gutter_w as nat,
                line_num as nat,
            ),
    {
        let safe_raw = sanitize_for_display(raw, true);
        let expanded = width::expand_tabs(cow_str(&safe_raw), self.options.tab_width);
        let truncated = width::truncate_line(expanded.as_str(), self.options.max_line_width);
        let number = text::padded_number(line_num, gutter_w);
        out.put("  ", TextStyle::Plain);
        out.put(number.as_str(), TextStyle::BlueBold);
        out.put(" ", TextStyle::Plain);
        out.put("|", TextStyle::BlueBold);
        out.put(" ", TextStyle::Plain);
        out.put(truncated.as_str(), TextStyle::Plain);
        out.put("\n", TextStyle::Plain);
        assert(out@ == old(out)@ + layout::source_row(
            raw@,
            self.setting(color),
            gutter_w as nat,
            line_num as nat,
        ));
    }

    /// Writes source line `line_num` with the labels on it.
    fn write_line_block(
        &self,
        out: &mut Document,
        labels: &Vec<&Label>,
        line_num: usize,
        gutter_w: usize,
        color: bool,
    )
        ensures
            final(out)@ == old(out)@ + layout::line_block(
                diagnostic::label_ref_views(labels@),
                self.setting(color),
                gutter_w as nat,
                line_num as nat,
            ),
    {
        let ghost st = self.setting(color);
        let ghost views = diagnostic::label_ref_views(labels@);
        let raw = match self.cache.line(line_num) {
            Some(l) => l,
            None => "",
        };
        proof {
            reveal_strlit("");
            assert(raw@ == layout::raw_line(st.lines, line_num as nat));
        }
        self.write_source_row(out, line_num, raw, gutter_w, color);
        let ghost so_far = out@;
        let on_line = labels::labels_on_line(labels, line_num);
        self.write_caret_block(out, &on_line, line_num, raw, gutter_w, color);
        proof {
            let row = layout::source_row(raw@, st, gutter_w as nat, line_num as nat);
            let marks = layout::marks_on(views, st, line_num as nat);
            let rows = layout::caret_rows(
                marks,
                st,
                gutter_w as nat,
                layout::labels_on(views, line_num as nat).len(),
            );
            assert(diagnostic::label_ref_views(on_line@).len() == on_line@.len());
            assert(out@ == so_far + rows);
            assert(old(out)@ + row + rows == old(out)@ + (row + rows));
        }
    }

    /// Writes the source lines that the labels of one file touch, and the context around them.
    fn write_file_section(&self, out: &mut Document, labels: &Vec<&Label>, color: bool)
        ensures
            final(out)@ == old(out)@ + layout::file_section(
                diagnostic::label_ref_views(labels@),
                self.setting(color),
            ),
    {
        let ghost st = self.setting(color);
        let ghost views = diagnostic::label_ref_views(labels@);
        let (min_line, max_line) = labels::line_range(labels);
        if min_line == 0 {
            assert(out@ == old(out)@ + layout::file_section(views, st));
            return ;
        }
        let above = min_line.saturating_sub(self.options.context_lines);
        let start = if above < 1 {
            1
        } else {
            above
        };
        let below = max_line.saturating_add(self.options.context_lines);
        let total = self.cache.len();
        let end = if below < total {
            below
        } else {
            total
        };
        assert(start == layout::first_shown(views, st));
        assert(end == layout::last_shown(views, st));

        let gutter_w = gutter_width(end);
        put_rule(out, gutter_w);
        let ghost top = out@;

        let count = if start <= end {
            end - start + 1
        } else {
            0
        };
        let mut i: usize = 0;
        assert(layout::source_rows(views, st, gutter_w as nat, (start - 1) as nat)
            == Seq::<document::RunView>::empty());
        assert(top == top + layout::source_rows(views, st, gutter_w as nat, (start - 1) as nat));
        while i < count
            invariant
                i <= count,
                count == (if start <= end {
                    end - start + 1
                } else {
                    0
                }),
                start == layout::first_shown(views, st),
                st == self.setting(color),
                views == diagnostic::label_ref_views(labels@),
                out@ == top + layout::source_rows(
                    views,
                    st,
                    gutter_w as nat,
                    (start + i - 1) as nat,
                ),
            decreases count - i,
        {
            let line_num = start + i;
            let ghost so_far = out@;
            self.write_line_block(out, labels, line_num, gutter_w, color);
            proof {
                let before = layout::source_rows(
                    views,
                    st,
                    gutter_w as nat,
                    (start + i - 1) as nat,
                );
                let block = layout::line_block(views, st, gutter_w as nat, line_num as nat);
                assert(out@ == so_far + block);
                assert(top + before + block == top + (before + block));
            }
            i += 1;
        }
        put_rule(out, gutter_w);
        proof {
            let rows = layout::source_rows(views, st, gutter_w as nat, (start + i - 1) as nat);
            if end < start {
                assert(layout::source_rows(views, st, gutter_w as nat, end as nat)
                    == Seq::<document::RunView>::empty());
            }
            assert(rows == layout::source_rows(views, st, gutter_w as nat, end as nat));
            let edge = layout::rule(gutter_w as nat);
            assert(out@ == old(out)@ + edge + rows + edge);
            assert(out@ == old(out)@ + layout::file_section(views, st));
        }
    }

    /// Writes where the leading label of a file is.
    fn write_location(out: &mut Document, label: &Label)
        ensures
            final(out)@ == old(out)@ + layout::location(label@),
    {
        let line = text::usize_to_string(label.span.line);
        let column = text::usize_to_string(label.span.column);
        out.put("  ", TextStyle::Plain);
        out.put("-->", TextStyle::BlueBold);
        out.put(" ", TextStyle::Plain);
        out.put(label.span.file.as_str(), TextStyle::WhiteBold);
        out.put(":", TextStyle::Plain);
        out.put(line.as_str(), TextStyle::WhiteBold);
        out.put(":", TextStyle::Plain);
        out.put(column.as_str(), TextStyle::WhiteBold);
        out.put("\n", TextStyle::Plain);
        assert(out@ == old(out)@ + layout::location(label@));
    }

    /// Writes one section per file, so that diagnostics over several files read as such.
    fn write_labels_grouped(&self, out: &mut Document, color: bool)
        ensures
            final(out)@ == old(out)@ + layout::file_blocks(
                self.diagnostic@.labels,
                self.setting(color),
                layout::files_of(self.diagnostic@.labels).len(),
            ),
    {
        let ghost st = self.setting(color);
        let ghost views = self.diagnostic@.labels;
        let files = labels::distinct_files(&self.diagnostic.labels);
        let n = files.len();
        let mut idx: usize = 0;
        assert(out@ == out@ + layout::file_blocks(views, st, 0));
        while idx < n
            invariant
                idx <= n,
                n == files@.len(),
                lines::texts(files@) == layout::files_of(views),
                views == diagnostic::label_views(self.diagnostic.labels@),
                st == self.setting(color),
                out@ == old(out)@ + layout::file_blocks(views, st, idx as nat),
            decreases n - idx,
        {
            let ghost so_far = out@;
            let file = files[idx];
            assert(file@ == layout::files_of(views)[idx as int]);
            let in_file = labels::labels_in_file(&self.diagnostic.labels, file);
            proof {
                layout::lemma_file_has_label(views, idx as int);
                assert(diagnostic::label_ref_views(in_file@).len() == in_file@.len());
            }
            let primary = labels::leading_label(&in_file);
            Self::write_location(out, primary);
            self.write_file_section(out, &in_file, color);
            let ghost before_gap = out@;
            if idx + 1 < n {
                out.put("\n", TextStyle::Plain);
            }
            proof {
                let mine = layout::labels_in(views, file@);
                let place = layout::location(layout::leading_label(mine));
                let section = layout::file_section(mine, st);
                let gap = layout::between((idx + 1) as nat, n as nat);
                assert(out@ == before_gap + gap);
                let before = layout::file_blocks(views, st, idx as nat);
                lemma_concat_five(old(out)@, before, place, section, gap, seq![]);
                assert(old(out)@ + before + place + section + gap + seq![] == out@);
                assert(before + place + section + gap + seq![] == before + place + section + gap);
            }
            idx += 1;
        }
    }

    fn write_notes_help(&self, out: &mut Document)
        ensures
            final(out)@ == old(out)@ + layout::notes(
                self.diagnostic@.notes,
                self.diagnostic@.notes.len(),
            ) + layout::help(self.diagnostic@.help),
    {
        let ghost notes = self.diagnostic@.notes;
        let n = self.diagnostic.notes.len();
        let mut i: usize = 0;
        assert(out@ == out@ + layout::notes(notes, 0));
        while i < n
            invariant
                i <= n,
                n == self.diagnostic.notes@.len(),
                notes == diagnostic::string_views(self.diagnostic.notes@),
                out@ == old(out)@ + layout::notes(notes, i as nat),
            decreases n - i,
        {
            put_remark(out, "note", self.diagnostic.notes[i].as_str());
            i += 1;
            assert(out@ == old(out)@ + layout::notes(notes, i as nat));
        }
        let ghost before_help = out@;
        if let Some(help) = &self.diagnostic.help {
            put_remark(out, "help", help.as_str());
        }
        assert(out@ == before_help + layout::help(self.diagnostic@.help));
    }

    fn write_suggestions(&self, out: &mut Document)
        ensures
            final(out)@ == old(out)@ + layout::suggestions(
                self.diagnostic@.suggestions,
                self.cache@,
                self.diagnostic@.suggestions.len(),
            ),
    {
        let ghost all = self.diagnostic@.suggestions;
        let n = self.diagnostic.suggestions.len();
        let mut i: usize = 0;
        assert(out@ == out@ + layout::suggestions(all, self.cache@, 0));
        while i < n
            invariant
                i <= n,
                n == self.diagnostic.suggestions@.len(),
                all == diagnostic::suggestion_views(self.diagnostic.suggestions@),
                out@ == old(out)@ + layout::suggestions(all, self.cache@, i as nat),
            decreases n - i,
        {
            let s = &self.diagnostic.suggestions[i];
            assert(all[i as int] == s@);
            let title = match &s.message {
                Some(m) => m.as_str(),
                None => "try this:",
            };
            put_remark(out, "help", title);
            self.write_suggestion_diff(out, s);
            Self::write_applicability(out, s);
            proof {
                let before = layout::suggestions(all, self.cache@, i as nat);
                let head = layout::remark("help"@, layout::suggestion_title(s@));
                let diff = layout::suggestion_diff(s@, self.cache@);
                let kind = layout::applicability(s.applicability);
                lemma_concat_five(old(out)@, before, head, diff, kind, seq![]);
                assert(old(out)@ + before + head + diff + kind + seq![] == out@);
                assert(before + head + diff + kind + seq![] == before + head + diff + kind);
            }
            i += 1;
        }
    }

    /// Renders a suggestion as minus and plus lines. Falls back to the replacement alone when the
    /// source line is not available (line 0, or past the end).
    fn write_suggestion_diff(&self, out: &mut Document, s: &Suggestion)
        ensures
            final(out)@ == old(out)@ + layout::suggestion_diff(s@, self.cache@),
    {
        let line_num = s.span.line;
        match self.cache.line(line_num) {
            None => {
                Self::write_loose_replacement(out, s);
            },
            Some(orig_line) => {
                // Offsets past the line, or inside a character, are tolerated.
                let line_bytes = offsets::str_len(orig_line);
                let col0 = s.span.column.saturating_sub(1);
                let start = if col0 < line_bytes {
                    col0
                } else {
                    line_bytes
                };
                let to = start.saturating_add(s.span.length);
                let end = if to < line_bytes {
                    to
                } else {
                    line_bytes
                };
                assert((start as nat, end as nat) == layout::replaced_bytes(s@, orig_line@));
                let prefix = offsets::safe_slice(orig_line, 0, start);
                let suffix = offsets::safe_slice(orig_line, end, line_bytes);
                let new_lines = splice(prefix, s.replacement.as_str(), suffix);
                self.write_diff_lines(out, line_num, orig_line, &new_lines);
            },
        }
    }

    /// Writes the lines of a replacement whose place is not in the source.
    fn write_loose_replacement(out: &mut Document, s: &Suggestion)
        ensures
            final(out)@ == old(out)@ + layout::loose_rows(
                lines::lines_of(s.replacement@),
                lines::lines_of(s.replacement@).len(),
            ),
    {
        let new_lines = lines::split_lines(s.replacement.as_str());
        let ghost texts = lines::lines_of(s.replacement@);
        let n = new_lines.len();
        assert(texts.len() == n);
        let mut i: usize = 0;
        assert(out@ == out@ + layout::loose_rows(texts, 0));
        while i < n
            invariant
                i <= n,
                n == new_lines@.len(),
                texts == lines::texts(new_lines@),
                out@ == old(out)@ + layout::loose_rows(texts, i as nat),
            decreases n - i,
        {
            out.put("       ", TextStyle::Plain);
            put_clean(out, new_lines[i], TextStyle::Green);
            out.put("\n", TextStyle::Plain);
            i += 1;
            assert(out@ == old(out)@ + layout::loose_rows(texts, i as nat));
        }
    }

    /// Writes the diff between line `line_num` and the lines that take its place.
    fn write_diff_lines(
        &self,
        out: &mut Document,
        line_num: usize,
        orig_line: &str,
        new_lines: &Vec<String>,
    )
        ensures
            final(out)@ == old(out)@ + layout::diff(
                line_num as nat,
                orig_line@,
                diagnostic::string_views(new_lines@),
            ),
    {
        let ghost texts = diagnostic::string_views(new_lines@);
        let n = new_lines.len();
        let last_line = line_num.saturating_add(n.saturating_sub(1));
        let gutter_w = gutter_width(last_line);
        put_rule(out, gutter_w);
        put_diff_row(
            out,
            line_num,
            gutter_w,
            "-",
            TextStyle::RedBold,
            orig_line,
            TextStyle::Red,
        );
        let ghost top = out@;
        let mut i: usize = 0;
        assert(top == top + layout::added_rows(texts, line_num as nat, gutter_w as nat, 0));
        while i < n
            invariant
                i <= n,
                n == new_lines@.len(),
                texts == diagnostic::string_views(new_lines@),
                out@ == top + layout::added_rows(
                    texts,
                    line_num as nat,
                    gutter_w as nat,
                    i as nat,
                ),
            decreases n - i,
        {
            put_diff_row(
                out,
                line_num.saturating_add(i),
                gutter_w,
                "+",
                TextStyle::GreenBold,
                new_lines[i].as_str(),
                TextStyle::Green,
            );
            i += 1;
            assert(out@ == top + layout::added_rows(
                texts,
                line_num as nat,
                gutter_w as nat,
                i as nat,
            ));
        }
        put_rule(out, gutter_w);
        proof {
            let edge = layout::rule(gutter_w as nat);
            let minus = layout::diff_row(
                line_num as nat,
                gutter_w as nat,
                "-"@,
                TextStyle::RedBold,
                orig_line@,
                TextStyle::Red,
            );
            let plus = layout::added_rows(texts, line_num as nat, gutter_w as nat, n as nat);
            lemma_concat_five(old(out)@, edge, minus, plus, edge, seq![]);
            assert(old(out)@ + edge + minus + plus + edge + seq![] == out@);
            assert(edge + minus + plus + edge + seq![] == edge + minus + plus + edge);
        }
    }

    fn write_applicability(out: &mut Document, s: &Suggestion)
        ensures
            final(out)@ == old(out)@ + layout::applicability(s.applicability),
    {
        let kind = match s.applicability {
            Applicability::MachineApplicable => "auto-applicable",
            Applicability::MaybeIncorrect => "review needed",
            Applicability::HasPlaceholders => "has placeholders",
            Applicability::Unspecified => {
                assert(out@ == old(out)@ + layout::applicability(s.applicability));
                return ;
            },
        };
        out.put("       (", TextStyle::Plain);
        out.put(kind, TextStyle::Dimmed);
        out.put(")\n", TextStyle::Plain);
        assert(out@ == old(out)@ + layout::applicability(s.applicability));
    }

    /// Lays the diagnostic out, given what its code says of itself.
    pub fn lay_out(&self, code: &str, url: Option<&str>, color: bool) -> (r: Document)
        ensures
            r@ == self.runs(code@, source::line_text(url), color),
    {
        let mut out = Document::new();
        self.write_header(&mut out, code, url);
        self.write_labels_grouped(&mut out, color);
        self.write_notes_help(&mut out);
        self.write_suggestions(&mut out);
        // Trailing blank line so consecutive diagnostics don't visually merge.
        out.put("\n", TextStyle::Plain);
        assert(out@ == self.runs(code@, source::line_text(url), color));
        out
    }

    /// What the diagnostic consists of when its code shows itself as `code` and links to `url`.
    pub open spec fn runs(&self, code: Seq<char>, url: Option<Seq<char>>, color: bool) -> Seq<
        document::RunView,
    > {
        layout::layout(self.diagnostic()@, code, url, self.lines(), self.options(), color)
    }

    /// Whether `out` is what the diagnostic may look like, with colors or without, for some code
    /// and link that its code may return.
    pub open spec fn renders(&self, color: bool, out: Seq<char>) -> bool {
        exists|code: &str, url: Option<&str>|
            {
                &&& #[trigger] call_ensures(C::code, (&self.diagnostic().code,), code)
                &&& #[trigger] call_ensures(C::url, (&self.diagnostic().code,), url)
                &&& document::is_rendering(
                    self.runs(code@, source::line_text(url), color),
                    color,
                    out,
                )
            }
    }

    /// Whether `out` is the text of the diagnostic, for some code and link that its code may
    /// return.
    pub open spec fn reads(&self, out: Seq<char>) -> bool {
        exists|code: &str, url: Option<&str>|
            {
                &&& #[trigger] call_ensures(C::code, (&self.diagnostic().code,), code)
                &&& #[trigger] call_ensures(C::url, (&self.diagnostic().code,), url)
                &&& out == document::plain_text(
                    self.runs(code@, source::line_text(url), false),
                )
            }
    }

    /// Asks the diagnostic's code for what it says of itself, and renders the diagnostic with that.
    fn format_inner(&self, color: bool) -> (r: String)
        ensures
            self.renders(color, r@),
            !color ==> self.reads(r@),
    {
        let code = self.diagnostic.code.code();
        let url = self.diagnostic.code.url();
        self.lay_out(code, url, color).render(color)
    }

    /// Pretty (colored) format. Falls back to plain if `options.color = false`.
    pub fn format(&self) -> (r: String)
        ensures
            self.renders(self.options().color, r@),
            !self.options().color ==> self.reads(r@),
    {
        self.format_inner(self.options.color)
    }

    /// Plain (no color, deterministic) format. Suitable for CI logs.
    pub fn format_plain(&self) -> (r: String)
        ensures
            self.reads(r@),
    {
        self.format_inner(false)
    }
}

/// The lines that come of `replacement` between `prefix` and `suffix`: the first line gets the
/// prefix, the last the suffix.
fn splice(prefix: &str, replacement: &str, suffix: &str) -> (r: Vec<String>)
    ensures
        diagnostic::string_views(r@) == layout::spliced(
            prefix@,
            lines::pieces_of(replacement@),
            suffix@,
        ),
{
    let pieces = lines::split_newlines(replacement);
    let ghost texts = lines::pieces_of(replacement@);
    let ghost want = layout::spliced(prefix@, texts, suffix@);
    let n = pieces.len();
    assert(texts.len() == n);
    let mut out: Vec<String> = Vec::new();
    let mut i: usize = 0;
    while i < n
        invariant
            i <= n,
            n == pieces@.len(),
            texts == lines::texts(pieces@),
            want == layout::spliced(prefix@, texts, suffix@),
            diagnostic::string_views(out@) == want.take(i as int),
        decreases n - i,
    {
        let ghost before = diagnostic::string_views(out@);
        let mut line = String::new();
        if i == 0 {
            line.append(prefix);
        }
        line.append(pieces[i]);
        if i == n - 1 {
            line.append(suffix);
        }
        assert(line@ == want[i as int]);
        out.push(line);
        i += 1;
        assert(diagnostic::string_views(out@) == before.push(line@));
        assert(diagnostic::string_views(out@) == want.take(i as int));
    }
    assert(want.take(n as int) == want);
    out
}

} // verus!
