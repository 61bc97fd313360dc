//! The parts that rendering is made of.

use std::borrow::Cow;

use duck_diag::labels::{
    distinct_files, label_columns_on_line, label_touches, labels_in_file, labels_on_line,
    leading_label, line_range,
};
use duck_diag::lines::{split_lines, split_newlines};
use duck_diag::offsets::{char_len, floor_char_boundary, safe_slice, str_len};
use duck_diag::text::{decimal_len, padded_number, sanitize_for_display, usize_to_string};
use duck_diag::width::{
    display_width_prefix, display_width_range, expand_tabs, truncate_line,
};
use duck_diag::{
    Diagnostic, DiagnosticCode, DiagnosticFormatter, Label, LabelStyle, Severity, Span, Suggestion,
};

struct Code;

impl DiagnosticCode for Code {
    fn code(&self) -> &str {
        "E0001"
    }
    fn severity(&self) -> Severity {
        Severity::Error
    }
}

fn label(file: &str, line: usize, column: usize, length: usize) -> Label {
    Label::primary(Span::new(file, line, column, length), None)
}

// ---------- control characters ----------

#[test]
fn sanitizing_drops_control_characters() {
    assert_eq!(sanitize_for_display("a\x00b\x1fc\x7fd", false), "abcd");
    assert_eq!(sanitize_for_display("a\tb\nc", false), "a\tbc");
    assert_eq!(sanitize_for_display("a\tb\nc\r", true), "a\tb\nc");
    assert_eq!(sanitize_for_display("é\u{a0}日🦆", false), "é\u{a0}日🦆");
}

#[test]
fn sanitizing_keeps_what_is_not_ascii() {
    assert_eq!(sanitize_for_display("d\u{80}e\u{9f}f", false), "d\u{80}e\u{9f}f");
    assert_eq!(sanitize_for_display("a\u{85}b", false), "a\u{85}b");
    assert!(matches!(sanitize_for_display("a\u{85}b", false), Cow::Borrowed(_)));
}

#[test]
fn sanitizing_twice_is_sanitizing_once() {
    let once = sanitize_for_display("a\x1b[2Jb\nc", false).into_owned();
    assert_eq!(sanitize_for_display(&once, false), once);
}

#[test]
fn clean_text_is_borrowed() {
    assert!(matches!(sanitize_for_display("clean\ttext", false), Cow::Borrowed("clean\ttext")));
    assert!(matches!(sanitize_for_display("a\nb", true), Cow::Borrowed(_)));
    assert!(matches!(sanitize_for_display("a\nb", false), Cow::Owned(_)));
}

#[test]
fn visible_text_survives() {
    assert_eq!(sanitize_for_display("\x1bvisible\r", false), "visible");
}

// ---------- numbers ----------

#[test]
fn numbers_in_decimal() {
    assert_eq!(usize_to_string(0), "0");
    assert_eq!(usize_to_string(10), "10");
    assert_eq!(usize_to_string(907), "907");
    assert_eq!(usize_to_string(usize::MAX), usize::MAX.to_string());
    assert_eq!(decimal_len(99), 2);
    assert_eq!(decimal_len(100), 3);
    assert_eq!(padded_number(7, 3), "  7");
    assert_eq!(padded_number(1234, 3), "1234");
}

// ---------- offsets ----------

#[test]
fn lengths_in_bytes() {
    assert_eq!(char_len('a'), 1);
    assert_eq!(char_len('é'), 2);
    assert_eq!(char_len('日'), 3);
    assert_eq!(char_len('🦆'), 4);
    assert_eq!(str_len("aé日🦆"), 10);
}

#[test]
fn boundaries_are_found_below() {
    let s = "aé日🦆";
    let floors: Vec<usize> = (0..=12).map(|i| floor_char_boundary(s, i)).collect();
    assert_eq!(floors, vec![0, 1, 1, 3, 3, 3, 6, 6, 6, 6, 10, 10, 10]);
    assert_eq!(floor_char_boundary(s, usize::MAX), 10);
    assert_eq!(floor_char_boundary("", 5), 0);
}

#[test]
fn slices_snap_and_clamp() {
    assert_eq!(safe_slice("café", 0, 4), "caf");
    assert_eq!(safe_slice("café", 4, 5), "é");
    assert_eq!(safe_slice("café", 3, usize::MAX), "é");
    assert_eq!(safe_slice("café", 9, 9), "");
}

#[test]
fn slices_take_their_ends_in_any_order() {
    assert_eq!(safe_slice("abcdef", 4, 1), "bcd");
    assert_eq!(safe_slice("abcdef", 1, 4), "bcd");
}

#[test]
fn slices_between_boundaries_are_exact() {
    let s = "aé日🦆";
    for (i, _) in s.char_indices() {
        for (j, _) in s.char_indices() {
            if i <= j {
                assert_eq!(safe_slice(s, i, j), &s[i..j]);
            }
        }
    }
}

// ---------- lines ----------

#[test]
fn texts_are_split_into_lines() {
    for s in ["", "a", "a\n", "a\r\nb", "\n\n", "a\rb\r\n\r", "é\n日\n", "\r\n"] {
        assert_eq!(split_lines(s), s.lines().collect::<Vec<&str>>());
        assert_eq!(split_newlines(s), s.split('\n').collect::<Vec<&str>>());
        assert_eq!(split_newlines(s).join("\n"), s);
        assert!(split_lines(s).iter().all(|l| !l.contains('\n')));
    }
}

// ---------- columns ----------

#[test]
fn tabs_reach_tab_stops() {
    assert_eq!(expand_tabs("a\tb", 4), "a   b");
    assert_eq!(expand_tabs("abcd\tb", 4), "abcd    b");
    assert_eq!(expand_tabs("日\tb", 4), "日  b");
    assert_eq!(expand_tabs("\t\t", 2), "    ");
    assert_eq!(expand_tabs("a\tb", 0), "ab");
    assert_eq!(expand_tabs("no tabs", 4), "no tabs");
    assert!(!expand_tabs("\ta\t\tb", 3).contains('\t'));
}

#[test]
fn expanding_keeps_columns() {
    let line = "a\tbc\t日\td";
    let shown = expand_tabs(line, 4);
    assert_eq!(
        display_width_prefix(line, line.len(), 4),
        display_width_prefix(&shown, shown.len(), 4)
    );
}

#[test]
fn lines_are_cut_to_fit() {
    assert_eq!(truncate_line("abcdef", 0), "abcdef");
    assert_eq!(truncate_line("abcdef", 6), "abcdef");
    assert_eq!(truncate_line("abcdef", 5), "abcd…");
    assert_eq!(truncate_line("abcdef", 1), "…");
    assert_eq!(truncate_line("日本語", 6), "日本語");
    assert_eq!(truncate_line("日本語", 5), "日本…");
    assert_eq!(truncate_line("日本語", 4), "日…");
}

#[test]
fn widths_of_prefixes() {
    assert_eq!(display_width_prefix("abc", 2, 4), 2);
    assert_eq!(display_width_prefix("日本", 3, 4), 2);
    // A character counts when it begins before the offset.
    assert_eq!(display_width_prefix("日本", 4, 4), 4);
    assert_eq!(display_width_prefix("a\tb", 2, 4), 4);
    assert_eq!(display_width_prefix("a\tb", 2, 0), 1);
    assert_eq!(display_width_prefix("abc", usize::MAX, 4), 3);
}

#[test]
fn widths_of_ranges() {
    assert_eq!(display_width_range("abcdef", 1, 4, 4), 3);
    assert_eq!(display_width_range("abcdef", 4, 1, 4), 0);
    assert_eq!(display_width_range("abcdef", 2, 2, 4), 0);
    assert_eq!(display_width_range("a日b", 1, 4, 4), 2);
    assert_eq!(display_width_range("a\tb", 1, 2, 4), 4);
    assert_eq!(display_width_range("abc", 1, usize::MAX, 4), 2);
}

// ---------- labels ----------

#[test]
fn labels_touch_their_own_line() {
    let l = label("t.rs", 2, 1, 100);
    assert!(!label_touches(&l, 1));
    assert!(label_touches(&l, 2));
    assert!(!label_touches(&l, 3));
}

#[test]
fn labels_mark_at_least_one_column() {
    assert_eq!(label_columns_on_line(&label("t.rs", 1, 2, 3), 1, "abcdef"), (2, 5));
    assert_eq!(label_columns_on_line(&label("t.rs", 1, 2, 0), 1, "abcdef"), (2, 3));
    assert_eq!(label_columns_on_line(&label("t.rs", 1, 0, 0), 1, "abcdef"), (1, 2));
    assert_eq!(label_columns_on_line(&label("t.rs", 1, 5, 9), 1, "abcdef"), (5, 7));
    assert_eq!(label_columns_on_line(&label("t.rs", 1, 9, 3), 1, "abcdef"), (9, 10));
    assert_eq!(label_columns_on_line(&label("t.rs", 1, 2, 3), 2, "abcdef"), (1, 7));
    assert_eq!(
        label_columns_on_line(&label("t.rs", 1, usize::MAX, 1), 1, "abc"),
        (usize::MAX, usize::MAX)
    );
}

#[test]
fn files_are_listed_once_in_order() {
    let labels = vec![label("b", 1, 1, 1), label("a", 1, 1, 1), label("b", 2, 1, 1)];
    assert_eq!(distinct_files(&labels), vec!["b", "a"]);
    let in_b = labels_in_file(&labels, "b");
    assert_eq!(in_b.iter().map(|l| l.span.line).collect::<Vec<usize>>(), vec![1, 2]);
    assert_eq!(line_range(&in_b), (1, 2));
    assert_eq!(line_range(&Vec::new()), (0, 0));
}

#[test]
fn labels_are_sorted_stably() {
    let named = |column: usize, name: &str| Label {
        message: Some(name.to_string()),
        ..label("t.rs", 1, column, 1)
    };
    let labels = vec![named(5, "a"), named(2, "b"), named(5, "c"), named(2, "d"), named(1, "e")];
    let mut refs: Vec<&Label> = labels.iter().collect();
    let other = label("t.rs", 2, 1, 1);
    refs.push(&other);
    let names: Vec<&str> = labels_on_line(&refs, 1)
        .into_iter()
        .map(|l| l.message.as_deref().unwrap())
        .collect();
    assert_eq!(names, vec!["e", "b", "d", "a", "c"]);
}

#[test]
fn first_primary_label_leads() {
    let second = label("t.rs", 2, 1, 1);
    let first = Label { style: LabelStyle::Secondary, ..label("t.rs", 1, 1, 1) };
    assert_eq!(leading_label(&vec![&first, &second]).span.line, 2);
    assert_eq!(leading_label(&vec![&first]).span.line, 1);
}

// ---------- whole output ----------

#[test]
fn output_ends_with_a_blank_line() {
    let bare = Diagnostic::new(Code, "m");
    let full = Diagnostic::new(Code, "m")
        .with_label(label("t.rs", 1, 1, 1))
        .with_note("n")
        .with_suggestion(Suggestion::new(Span::new("t.rs", 1, 1, 1), "y"));
    for d in [bare, full] {
        assert!(DiagnosticFormatter::new(&d, "x").format_plain().ends_with("\n\n"));
    }
}

#[test]
fn words_add_no_lines() {
    let count = |word: &str| {
        let mut s = Suggestion::new(Span::new("t.rs", 1, 1, 1), "y");
        s.message = Some(word.to_string());
        let mut l = label("t.rs", 1, 1, 1);
        l.message = Some(word.to_string());
        l.note = Some(word.to_string());
        let mut d =
            Diagnostic::new(Code, word).with_label(l).with_note(word).with_suggestion(s);
        d.help = Some(word.to_string());
        let out = DiagnosticFormatter::new(&d, "x").format_plain();
        out.chars().filter(|c| *c == '\n').count()
    };
    assert_eq!(count("plain"), count("forged\n\r\nlines\n"));
}

#[test]
fn everything_is_shown() {
    let mut l = label("t.rs", 1, 1, 1);
    l.message = Some("label\x07 text".to_string());
    let mut d = Diagnostic::new(Code, "message\n text")
        .with_label(l)
        .with_note("note\x1b text")
        .with_suggestion(Suggestion::new(Span::new("t.rs", 1, 2, 1), "1\n2"));
    d.help = Some("help text".to_string());
    let out = DiagnosticFormatter::new(&d, "abc").format_plain();
    for part in
        ["E0001", "message text", "label text", "note text", "help text", "try this:", "a1", "2c"]
    {
        assert!(out.contains(part), "{part} is missing");
    }
}

#[test]
fn hostile_input_gives_clean_output() {
    let hostile = "a\x1b[2J\r\x08\x7f\nb";
    let mut l = label("t.rs", 1, 1, 1);
    l.message = Some(hostile.to_string());
    l.note = Some(hostile.to_string());
    let mut d = Diagnostic::new(Code, hostile)
        .with_label(l)
        .with_note(hostile)
        .with_suggestion(Suggestion::new(Span::new("t.rs", 1, 1, 1), hostile))
        .with_suggestion(Suggestion::new(Span::new("t.rs", 9, 1, 1), hostile));
    d.help = Some(hostile.to_string());
    let out = DiagnosticFormatter::new(&d, hostile).format_plain();
    assert!(!out.chars().any(|c| c.is_control() && c != '\n' && c != '\t'));
}
