//! Rendering with colors switched on.

use colored::control::set_override;
use duck_diag::document::Document;
use duck_diag::style::{label_style, paint, severity_style, severity_word, TextStyle};
use duck_diag::{
    Applicability, Diagnostic, DiagnosticCode, DiagnosticFormatter, Label, LabelStyle, Severity,
    Span, Suggestion,
};

struct Code;

impl DiagnosticCode for Code {
    fn code(&self) -> &str {
        "E0001"
    }
    fn severity(&self) -> Severity {
        Severity::Error
    }
    fn url(&self) -> Option<&str> {
        Some("here")
    }
}

/// `s` without its terminal sequences.
fn without_sequences(s: &str) -> String {
    let mut out = String::new();
    let mut inside = false;
    for c in s.chars() {
        if c == '\x1b' {
            inside = true;
        } else if inside {
            inside = c != 'm';
        } else {
            out.push(c);
        }
    }
    out
}

#[test]
fn each_style_has_its_sequence() {
    set_override(true);
    for (style, on) in [
        (TextStyle::Red, "\x1b[31m"),
        (TextStyle::RedBold, "\x1b[1;31m"),
        (TextStyle::Green, "\x1b[32m"),
        (TextStyle::GreenBold, "\x1b[1;32m"),
        (TextStyle::YellowBold, "\x1b[1;33m"),
        (TextStyle::BlueBold, "\x1b[1;34m"),
        (TextStyle::BlueItalic, "\x1b[3;34m"),
        (TextStyle::CyanBold, "\x1b[1;36m"),
        (TextStyle::CyanItalic, "\x1b[3;36m"),
        (TextStyle::WhiteBold, "\x1b[1;37m"),
        (TextStyle::Dimmed, "\x1b[2m"),
    ] {
        assert_eq!(paint("x y", style, true), format!("{on}x y\x1b[0m"));
        assert_eq!(paint("", style, true), format!("{on}\x1b[0m"));
        assert_eq!(paint("x y", style, false), "x y");
    }
    assert_eq!(paint("x y", TextStyle::Plain, true), "x y");
}

#[test]
fn style_is_restored_after_a_reset() {
    set_override(true);
    assert_eq!(
        paint("a\x1b[0mb", TextStyle::Red, true),
        "\x1b[31ma\x1b[0m\x1b[31mb\x1b[0m"
    );
    assert_eq!(
        paint("a\x1b[0m", TextStyle::Red, true),
        "\x1b[31ma\x1b[0m\x1b[31m\x1b[0m"
    );
}

#[test]
fn words_and_styles_of_severities() {
    assert_eq!(severity_word(Severity::Error), "error");
    assert_eq!(severity_word(Severity::Help), "help");
    assert_eq!(severity_style(Severity::Error), TextStyle::RedBold);
    assert_eq!(severity_style(Severity::Warning), TextStyle::YellowBold);
    assert_eq!(severity_style(Severity::Note), TextStyle::CyanBold);
    assert_eq!(severity_style(Severity::Help), TextStyle::GreenBold);
    assert_eq!(label_style(Severity::Warning, LabelStyle::Primary), TextStyle::YellowBold);
    assert_eq!(label_style(Severity::Warning, LabelStyle::Secondary), TextStyle::BlueBold);
}

#[test]
fn document_renders_run_by_run() {
    set_override(true);
    let mut d = Document::new();
    d.put("a", TextStyle::Plain);
    d.put("b", TextStyle::Green);
    d.put("\n", TextStyle::Plain);
    assert_eq!(d.render(true), "a\x1b[32mb\x1b[0m\n");
    assert_eq!(d.render(false), "ab\n");
}

#[test]
fn colored_header() {
    set_override(true);
    let d = Diagnostic::new(Code, "m");
    assert_eq!(
        DiagnosticFormatter::new(&d, "").format(),
        "\x1b[1;31merror\x1b[0m: [\x1b[1;31mE0001\x1b[0m]: m \x1b[3;34m(see here)\x1b[0m\n\n"
    );
}

#[test]
fn colored_label_note_needs_no_word() {
    set_override(true);
    let mut label = Label::primary(Span::new("t.rs", 1, 2, 1), None);
    label.note = Some("why".to_string());
    let d = Diagnostic::new(Code, "m").with_label(label);
    let out = DiagnosticFormatter::new(&d, "abc").format();
    assert!(out.contains("     \x1b[1;34m|\x1b[0m  ↳ \x1b[3;36mwhy\x1b[0m\n"));
}

#[test]
fn colors_keep_the_text() {
    set_override(true);
    let mut s = Suggestion::new(Span::new("t.rs", 1, 5, 1), "y");
    s.applicability = Applicability::MachineApplicable;
    let d = Diagnostic::new(Code, "expected\x1b[0m semicolon")
        .with_label(Label::primary(Span::new("t.rs", 1, 5, 1), Some("he\x1b[31mre".to_string())))
        .with_note("n")
        .with_suggestion(s);
    let f = DiagnosticFormatter::new(&d, "let x = 1;");
    let colored = f.format();
    assert_ne!(colored, f.format_plain());
    assert_eq!(without_sequences(&colored), f.format_plain());
}

#[test]
fn colored_output_ends_with_a_blank_line() {
    set_override(true);
    let mut s = Suggestion::new(Span::new("t.rs", 1, 1, 1), "y");
    s.applicability = Applicability::MaybeIncorrect;
    let bare = Diagnostic::new(Code, "m");
    let full = Diagnostic::new(Code, "m").with_suggestion(s);
    for d in [bare, full] {
        assert!(DiagnosticFormatter::new(&d, "x").format().ends_with("\n\n"));
    }
}

#[test]
fn colored_output_holds_only_its_own_sequences() {
    set_override(true);
    let hostile = "a\x1b[2J\r\x08\x7f\nb";
    let d = Diagnostic::new(Code, hostile)
        .with_label(Label::primary(Span::new("t.rs", 1, 1, 1), Some(hostile.to_string())))
        .with_note(hostile)
        .with_suggestion(Suggestion::new(Span::new("t.rs", 1, 1, 1), hostile));
    let out = DiagnosticFormatter::new(&d, hostile).format();
    assert!(out.contains('\x1b'));
    assert!(!out.contains("\x1b[2J"));
    assert!(!without_sequences(&out).chars().any(|c| c.is_control() && c != '\n'));
}
