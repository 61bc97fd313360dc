//! Whole diagnostics, character by character.

use duck_diag::{
    Applicability, Diagnostic, DiagnosticCode, DiagnosticFormatter, Label, LabelStyle,
    RenderOptions, Severity, SourceCache, Span, Suggestion,
};

#[derive(Debug, Clone, Copy)]
struct Code(Severity);

impl DiagnosticCode for Code {
    fn code(&self) -> &str {
        "E0001"
    }
    fn severity(&self) -> Severity {
        self.0
    }
}

#[derive(Debug, Clone, Copy)]
struct Documented;

impl DiagnosticCode for Documented {
    fn code(&self) -> &str {
        "W0042"
    }
    fn severity(&self) -> Severity {
        Severity::Warning
    }
    fn url(&self) -> Option<&str> {
        Some("https://example.com/W0042")
    }
}

fn error(message: &str) -> Diagnostic<Code> {
    Diagnostic::new(Code(Severity::Error), message)
}

fn primary(line: usize, column: usize, length: usize, message: &str) -> Label {
    Label::primary(Span::new("t.rs", line, column, length), Some(message.to_string()))
}

fn secondary(line: usize, column: usize, length: usize, message: &str) -> Label {
    Label {
        style: LabelStyle::Secondary,
        ..primary(line, column, length, message)
    }
}

fn options() -> RenderOptions {
    RenderOptions { color: false, ..RenderOptions::default() }
}

#[test]
fn bare_diagnostic_is_a_header_and_a_blank_line() {
    let d = error("m");
    assert_eq!(DiagnosticFormatter::new(&d, "").format_plain(), "error: [E0001]: m\n\n");
}

#[test]
fn each_severity_has_its_word() {
    for (severity, word) in [
        (Severity::Error, "error"),
        (Severity::Warning, "warning"),
        (Severity::Note, "note"),
        (Severity::Help, "help"),
    ] {
        let d = Diagnostic::new(Code(severity), "m");
        let out = DiagnosticFormatter::new(&d, "").format_plain();
        assert_eq!(out, format!("{word}: [E0001]: m\n\n"));
    }
}

#[test]
fn link_ends_the_header() {
    let d = Diagnostic::new(Documented, "m");
    assert_eq!(
        DiagnosticFormatter::new(&d, "").format_plain(),
        "warning: [W0042]: m (see https://example.com/W0042)\n\n"
    );
}

#[test]
fn label_and_suggestion() {
    let d = error("expected semicolon")
        .with_label(primary(1, 5, 1, "here"))
        .with_suggestion(Suggestion::new(Span::new("t.rs", 1, 5, 1), "y"));
    let want = "\
error: [E0001]: expected semicolon
  --> t.rs:1:5
     |
   1 | let x = 1;
     |     ^ here
     |
   = help: try this:
     |
   1 - let x = 1;
   1 + let y = 1;
     |

";
    let out = DiagnosticFormatter::new(&d, "let x = 1;\nlet y = 2;").format_plain();
    assert_eq!(out, want);
}

#[test]
fn labels_on_one_line_are_stacked_by_column() {
    let d = error("unknown name")
        .with_label(primary(1, 13, 5, "unknown"))
        .with_label(secondary(1, 5, 5, "declared here"));
    let want = "\
error: [E0001]: unknown name
  --> t.rs:1:13
     |
   1 | let total = price + tax;
     |     -----   ^^^^^ unknown
     |     ----- declared here
     |

";
    let out = DiagnosticFormatter::new(&d, "let total = price + tax;").format_plain();
    assert_eq!(out, want);
}

#[test]
fn overlapping_labels_follow_one_another() {
    let d = error("m").with_label(primary(1, 1, 4, "a")).with_label(secondary(1, 2, 2, "b"));
    let want = "\
error: [E0001]: m
  --> t.rs:1:1
     |
   1 | abcdef
     | ^^^^-- b
     | ^^^^ a
     |

";
    assert_eq!(DiagnosticFormatter::new(&d, "abcdef").format_plain(), want);
}

#[test]
fn label_without_message_has_carets_alone() {
    let d = error("m").with_label(Label::primary(Span::new("t.rs", 1, 2, 3), None));
    let want = "\
error: [E0001]: m
  --> t.rs:1:2
     |
   1 | abcdef
     |  ^^^
     |

";
    assert_eq!(DiagnosticFormatter::new(&d, "abcdef").format_plain(), want);
}

#[test]
fn label_note_follows_its_row() {
    let mut label = primary(1, 3, 2, "msg");
    label.note = Some("because\nof this".to_string());
    let d = error("m").with_label(label);
    let want = "\
error: [E0001]: m
  --> t.rs:1:3
     |
   1 | abcdef
     |   ^^ msg
     |   ↳ note: becauseof this
     |

";
    assert_eq!(DiagnosticFormatter::new(&d, "abcdef").format_plain(), want);
}

#[test]
fn files_have_sections_of_their_own() {
    let d = error("m")
        .with_label(Label::primary(Span::new("b.rs", 1, 1, 1), Some("one".to_string())))
        .with_label(Label::primary(Span::new("a.rs", 2, 1, 1), Some("two".to_string())))
        .with_label(Label {
            style: LabelStyle::Secondary,
            ..Label::primary(Span::new("b.rs", 1, 3, 1), Some("three".to_string()))
        });
    let want = "\
error: [E0001]: m
  --> b.rs:1:1
     |
   1 | x y
     | ^ - three
     | ^ one
     |

  --> a.rs:2:1
     |
   2 | z
     | ^ two
     |

";
    assert_eq!(DiagnosticFormatter::new(&d, "x y\nz\n").format_plain(), want);
}

#[test]
fn location_is_that_of_the_first_primary_label() {
    let d = error("m").with_label(secondary(1, 1, 1, "s")).with_label(primary(2, 2, 1, "p"));
    let out = DiagnosticFormatter::new(&d, "ab\ncd").format_plain();
    assert!(out.contains("  --> t.rs:2:2\n"));
    let d = error("m").with_label(secondary(1, 1, 1, "s")).with_label(secondary(2, 2, 1, "t"));
    let out = DiagnosticFormatter::new(&d, "ab\ncd").format_plain();
    assert!(out.contains("  --> t.rs:1:1\n"));
}

#[test]
fn context_lines_surround_the_labels() {
    let d = error("m").with_label(primary(3, 1, 1, "here"));
    let source = "one\ntwo\nthree\nfour\nfive";
    let want = "\
error: [E0001]: m
  --> t.rs:3:1
     |
   2 | two
   3 | three
     | ^ here
   4 | four
     |

";
    let opts = RenderOptions { context_lines: 1, ..options() };
    assert_eq!(DiagnosticFormatter::new(&d, source).with_options(opts).format(), want);
    let opts = RenderOptions { context_lines: usize::MAX, ..options() };
    let out = DiagnosticFormatter::new(&d, source).with_options(opts).format();
    assert!(out.contains("   1 | one\n") && out.contains("   5 | five\n"));
}

#[test]
fn lines_between_labels_are_shown() {
    let d = error("m").with_label(primary(3, 1, 1, "b")).with_label(secondary(1, 1, 1, "a"));
    let want = "\
error: [E0001]: m
  --> t.rs:3:1
     |
   1 | x
     | - a
   2 | y
   3 | z
     | ^ b
     |

";
    assert_eq!(DiagnosticFormatter::new(&d, "x\ny\nz").format_plain(), want);
}

#[test]
fn gutter_grows_with_the_line_number() {
    let source = "x\n".repeat(120);
    let d = error("m").with_label(primary(100, 1, 1, "here"));
    let want = "\
error: [E0001]: m
  --> t.rs:100:1
      |
  100 | x
      | ^ here
      |

";
    assert_eq!(DiagnosticFormatter::new(&d, &source).format_plain(), want);
}

#[test]
fn line_zero_shows_no_source() {
    let d = error("m").with_label(primary(0, 0, 0, "nowhere"));
    assert_eq!(
        DiagnosticFormatter::new(&d, "abc").format_plain(),
        "error: [E0001]: m\n  --> t.rs:0:0\n\n"
    );
}

#[test]
fn label_past_the_source_shows_no_line() {
    let d = error("m").with_label(primary(9, 1, 1, "nowhere"));
    assert_eq!(
        DiagnosticFormatter::new(&d, "a\nb").format_plain(),
        "error: [E0001]: m\n  --> t.rs:9:1\n     |\n     |\n\n"
    );
}

#[test]
fn tabs_are_expanded_and_carets_follow() {
    let d = error("m").with_label(primary(1, 2, 3, "here"));
    let want = "\
error: [E0001]: m
  --> t.rs:1:2
     |
   1 |     let x
     |     ^^^ here
     |

";
    assert_eq!(DiagnosticFormatter::new(&d, "\tlet x").format_plain(), want);
    let opts = RenderOptions { tab_width: 0, ..options() };
    let out = DiagnosticFormatter::new(&d, "\tlet x").with_options(opts).format();
    assert!(out.contains("   1 | let x\n     | ^^^ here\n"));
}

#[test]
fn wide_characters_take_two_columns() {
    let d = error("m").with_label(primary(1, 8, 1, "x")).with_label(secondary(1, 1, 6, "wide"));
    let want = "\
error: [E0001]: m
  --> t.rs:1:8
     |
   1 | 日本 x
     | ---- ^ x
     | ---- wide
     |

";
    assert_eq!(DiagnosticFormatter::new(&d, "日本 x").format_plain(), want);
}

#[test]
fn long_lines_are_cut() {
    let d = error("m").with_label(primary(1, 1, 1, "here"));
    let opts = RenderOptions { max_line_width: 5, ..options() };
    let out = DiagnosticFormatter::new(&d, "abcdefghij").with_options(opts).format();
    assert!(out.contains("   1 | abcd…\n"));
    let out = DiagnosticFormatter::new(&d, "abcde").with_options(opts).format();
    assert!(out.contains("   1 | abcde\n"));
}

#[test]
fn notes_and_help_are_remarks() {
    let mut d = error("m").with_note("first").with_note("sec\x07ond\n");
    d.help = Some("try\nharder".to_string());
    let want = "\
error: [E0001]: m
   = note: first
   = note: second
   = help: tryharder

";
    assert_eq!(DiagnosticFormatter::new(&d, "").format_plain(), want);
}

#[test]
fn suggestion_of_several_lines() {
    let mut s = Suggestion::new(Span::new("t.rs", 1, 5, 1), "a\nb");
    s.message = Some("split it".to_string());
    let d = error("m").with_suggestion(s);
    let want = "\
error: [E0001]: m
   = help: split it
     |
   1 - let x = 1;
   1 + let a
   2 + b = 1;
     |

";
    assert_eq!(DiagnosticFormatter::new(&d, "let x = 1;").format_plain(), want);
}

#[test]
fn suggestions_follow_one_another() {
    let mut first = Suggestion::new(Span::new("t.rs", 0, 1, 1), "one");
    first.message = Some("first".to_string());
    first.applicability = Applicability::MaybeIncorrect;
    let d = error("m")
        .with_suggestion(first)
        .with_suggestion(Suggestion::new(Span::new("t.rs", 1, 1, 1), "y"));
    let want = "\
error: [E0001]: m
   = help: first
       one
       (review needed)
   = help: try this:
     |
   1 - x
   1 + y
     |

";
    assert_eq!(DiagnosticFormatter::new(&d, "x").format_plain(), want);
}

#[test]
fn suggestion_out_of_the_source_shows_its_replacement() {
    for line in [0, 7] {
        let s = Suggestion::new(Span::new("t.rs", line, 1, 1), "use a;\r\nuse b;\n");
        let d = error("m").with_suggestion(s);
        assert_eq!(
            DiagnosticFormatter::new(&d, "x").format_plain(),
            "error: [E0001]: m\n   = help: try this:\n       use a;\n       use b;\n\n"
        );
    }
}

#[test]
fn suggestion_inside_a_character_snaps_to_its_start() {
    let d = error("m").with_suggestion(Suggestion::new(Span::new("t.rs", 1, 9, 1), "e"));
    let out = DiagnosticFormatter::new(&d, "let café = 1;").format_plain();
    assert!(out.contains("   1 - let café = 1;\n   1 + let cafe = 1;\n"));
}

#[test]
fn suggestion_past_the_line_appends() {
    let d = error("m")
        .with_label(primary(1, usize::MAX, usize::MAX, "huge"))
        .with_suggestion(Suggestion::new(Span::new("t.rs", 1, usize::MAX, usize::MAX), "patched"));
    let want = format!(
        "\
error: [E0001]: m
  --> t.rs:1:{}
     |
   1 | abc
     |    ^ huge
     |
   = help: try this:
     |
   1 - abc
   1 + abcpatched
     |

",
        usize::MAX
    );
    assert_eq!(DiagnosticFormatter::new(&d, "abc").format_plain(), want);
}

#[test]
fn applicability_is_told_where_known() {
    for (applicability, tail) in [
        (Applicability::MachineApplicable, "       (auto-applicable)\n"),
        (Applicability::MaybeIncorrect, "       (review needed)\n"),
        (Applicability::HasPlaceholders, "       (has placeholders)\n"),
        (Applicability::Unspecified, ""),
    ] {
        let mut s = Suggestion::new(Span::new("t.rs", 0, 1, 1), "fix");
        s.applicability = applicability;
        let d = error("m").with_suggestion(s);
        assert_eq!(
            DiagnosticFormatter::new(&d, "").format_plain(),
            format!("error: [E0001]: m\n   = help: try this:\n       fix\n{tail}\n")
        );
    }
}

#[test]
fn default_options() {
    let o = RenderOptions::default();
    assert_eq!((o.tab_width, o.context_lines, o.max_line_width, o.color), (4, 0, 0, true));
}

#[test]
fn cache_knows_its_lines() {
    let cache = SourceCache::new("one\r\ntwo\n\nfour\r");
    assert_eq!(cache.len(), 4);
    assert!(!cache.is_empty());
    assert_eq!(cache.line(0), None);
    assert_eq!(cache.line(1), Some("one"));
    assert_eq!(cache.line(2), Some("two"));
    assert_eq!(cache.line(3), Some(""));
    assert_eq!(cache.line(4), Some("four\r"));
    assert_eq!(cache.line(5), None);
    assert_eq!(cache.line(usize::MAX), None);
    assert!(SourceCache::new("").is_empty());
    assert_eq!(SourceCache::new("").len(), 0);
}

#[test]
fn cache_gives_what_the_source_gives() {
    let source = "let x = 1;\n\tlet y = 2;";
    let d = error("m").with_label(primary(2, 2, 3, "here"));
    let cache = SourceCache::new(source);
    assert_eq!(
        DiagnosticFormatter::with_cache(&d, &cache).format_plain(),
        DiagnosticFormatter::new(&d, source).format_plain()
    );
}

#[test]
fn format_without_color_is_plain() {
    let d = error("m").with_label(primary(1, 1, 1, "here")).with_note("n");
    let f = DiagnosticFormatter::new(&d, "x").with_options(options());
    assert_eq!(f.format(), f.format_plain());
}

#[test]
fn plain_output_is_the_same_each_time() {
    let d = error("m").with_label(primary(1, 1, 1, "here")).with_note("n");
    let f = DiagnosticFormatter::new(&d, "x");
    assert_eq!(f.format_plain(), f.format_plain());
}
