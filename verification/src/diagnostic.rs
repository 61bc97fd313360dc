//! What a diagnostic says and where it points.

use vstd::prelude::*;
use vstd::string::*;

verus! {

/// How serious a diagnostic is.
#[derive(Debug, Clone, Copy, PartialEq, Eq, Structural)]
pub enum Severity {
    Error,
    Warning,
    Note,
    Help,
}

/// Whether a label marks the culprit or something that explains it.
#[derive(Debug, Clone, Copy, PartialEq, Eq, Structural)]
pub enum LabelStyle {
    Primary,
    Secondary,
}

/// How far a suggestion may be applied without looking.
#[derive(Debug, Clone, Copy, PartialEq, Eq, Structural)]
pub enum Applicability {
    MachineApplicable,
    MaybeIncorrect,
    HasPlaceholders,
    Unspecified,
}

/// The codes by which a compiler tells its diagnostics apart.
pub trait DiagnosticCode {
    /// The code as it is shown.
    fn code(&self) -> &str;

    /// How serious diagnostics of this code are.
    fn severity(&self) -> Severity;

    /// Where the code is documented. Nowhere, unless a code says otherwise.
    fn url(&self) -> (r: Option<&str>)
        default_ensures
            r is None,
    {
        None
    }
}

/// A stretch of one source line. `line` and `column` count from 1, `column` and `length` in bytes;
/// line 0 marks a span that stands for no source text.
#[derive(Debug, Clone)]
pub struct Span {
    pub file: String,
    pub line: usize,
    pub column: usize,
    pub length: usize,
}

/// The value of a [`Span`].
#[verifier::ext_equal]
pub struct SpanView {
    pub file: Seq<char>,
    pub line: nat,
    pub column: nat,
    pub length: nat,
}

impl View for Span {
    type V = SpanView;

    open spec fn view(&self) -> SpanView {
        SpanView {
            file: self.file@,
            line: self.line as nat,
            column: self.column as nat,
            length: self.length as nat,
        }
    }
}

impl Span {
    /// A span of `length` bytes at `line` and `column` of `file`.
    pub fn new(file: &str, line: usize, column: usize, length: usize) -> (r: Span)
        ensures
            r@ == (SpanView {
                file: file@,
                line: line as nat,
                column: column as nat,
                length: length as nat,
            }),
            r.file@ == file@,
            r.line == line,
            r.column == column,
            r.length == length,
    {
        Span { file: file.to_owned(), line, column, length }
    }
}

/// The text of an optional string.
pub open spec fn text_of(t: Option<String>) -> Option<Seq<char>> {
    match t {
        Some(s) => Some(s@),
        None => None,
    }
}

/// A marked span, with what is said about it.
#[derive(Debug, Clone)]
pub struct Label {
    pub span: Span,
    pub style: LabelStyle,
    pub message: Option<String>,
    pub note: Option<String>,
}

/// The value of a [`Label`].
#[verifier::ext_equal]
pub struct LabelView {
    pub span: SpanView,
    pub style: LabelStyle,
    pub message: Option<Seq<char>>,
    pub note: Option<Seq<char>>,
}

impl View for Label {
    type V = LabelView;

    open spec fn view(&self) -> LabelView {
        LabelView {
            span: self.span@,
            style: self.style,
            message: text_of(self.message),
            note: text_of(self.note),
        }
    }
}

impl Label {
    /// A label on the culprit.
    pub fn primary(span: Span, message: Option<String>) -> (r: Label)
        ensures
            r@ == (LabelView {
                span: span@,
                style: LabelStyle::Primary,
                message: text_of(message),
                note: None,
            }),
            r.span == span,
            r.style == LabelStyle::Primary,
            r.message == message,
            r.note is None,
    {
        Label { span, style: LabelStyle::Primary, message, note: None }
    }
}

/// A replacement for a span of source text.
#[derive(Debug, Clone)]
pub struct Suggestion {
    pub span: Span,
    pub replacement: String,
    pub message: Option<String>,
    pub applicability: Applicability,
}

/// The value of a [`Suggestion`].
#[verifier::ext_equal]
pub struct SuggestionView {
    pub span: SpanView,
    pub replacement: Seq<char>,
    pub message: Option<Seq<char>>,
    pub applicability: Applicability,
}

impl View for Suggestion {
    type V = SuggestionView;

    open spec fn view(&self) -> SuggestionView {
        SuggestionView {
            span: self.span@,
            replacement: self.replacement@,
            message: text_of(self.message),
            applicability: self.applicability,
        }
    }
}

impl Suggestion {
    /// A suggestion to put `replacement` where `span` is.
    pub fn new(span: Span, replacement: &str) -> (r: Suggestion)
        ensures
            r@ == (SuggestionView {
                span: span@,
                replacement: replacement@,
                message: None,
                applicability: Applicability::Unspecified,
            }),
            r.span == span,
            r.replacement@ == replacement@,
            r.message is None,
            r.applicability == Applicability::Unspecified,
    {
        Suggestion {
            span,
            replacement: replacement.to_owned(),
            message: None,
            applicability: Applicability::Unspecified,
        }
    }
}

/// The views of labels.
pub open spec fn label_views(v: Seq<Label>) -> Seq<LabelView> {
    v.map_values(|l: Label| l@)
}

/// The views of borrowed labels.
pub open spec fn label_ref_views(v: Seq<&Label>) -> Seq<LabelView> {
    v.map_values(|l: &Label| l@)
}

/// The views of strings.
pub open spec fn string_views(v: Seq<String>) -> Seq<Seq<char>> {
    v.map_values(|s: String| s@)
}

/// The views of suggestions.
pub open spec fn suggestion_views(v: Seq<Suggestion>) -> Seq<SuggestionView> {
    v.map_values(|s: Suggestion| s@)
}

/// One message to the user, with everything that goes with it.
#[derive(Debug, Clone)]
pub struct Diagnostic<C: DiagnosticCode> {
    pub code: C,
    pub severity: Severity,
    pub message: String,
    pub labels: Vec<Label>,
    pub notes: Vec<String>,
    pub help: Option<String>,
    pub suggestions: Vec<Suggestion>,
}

/// The value of a [`Diagnostic`], its code apart.
#[verifier::ext_equal]
pub struct DiagnosticView {
    pub severity: Severity,
    pub message: Seq<char>,
    pub labels: Seq<LabelView>,
    pub notes: Seq<Seq<char>>,
    pub help: Option<Seq<char>>,
    pub suggestions: Seq<SuggestionView>,
}

impl<C: DiagnosticCode> View for Diagnostic<C> {
    type V = DiagnosticView;

    open spec fn view(&self) -> DiagnosticView {
        DiagnosticView {
            severity: self.severity,
            message: self.message@,
            labels: label_views(self.labels@),
            notes: string_views(self.notes@),
            help: text_of(self.help),
            suggestions: suggestion_views(self.suggestions@),
        }
    }
}

impl<C: DiagnosticCode> Diagnostic<C> {
    /// A diagnostic that says `message`, as serious as its code.
    pub fn new(code: C, message: &str) -> (r: Self)
        ensures
            r.code == code,
            call_ensures(C::severity, (&code,), r.severity),
            r@ == (DiagnosticView {
                severity: r.severity,
                message: message@,
                labels: seq![],
                notes: seq![],
                help: None,
                suggestions: seq![],
            }),
            r.message@ == message@,
            r.labels@.len() == 0,
            r.notes@.len() == 0,
            r.help is None,
            r.suggestions@.len() == 0,
    {
        let severity = code.severity();
        Diagnostic {
            code,
            severity,
            message: message.to_owned(),
            labels: Vec::new(),
            notes: Vec::new(),
            help: None,
            suggestions: Vec::new(),
        }
    }

    /// The same diagnostic with one more label.
    pub fn with_label(self, label: Label) -> (r: Self)
        ensures
            r.code == self.code,
            r@ == (DiagnosticView { labels: self@.labels.push(label@), ..self@ }),
            r.labels@ == self.labels@.push(label),
            r.severity == self.severity,
            r.message == self.message,
            r.notes == self.notes,
            r.help == self.help,
            r.suggestions == self.suggestions,
    {
        let mut r = self;
        r.labels.push(label);
        assert(r@ =~= (DiagnosticView { labels: self@.labels.push(label@), ..self@ }));
        r
    }

    /// The same diagnostic with one more note.
    pub fn with_note(self, note: &str) -> (r: Self)
        ensures
            r.code == self.code,
            r@ == (DiagnosticView { notes: self@.notes.push(note@), ..self@ }),
            r.notes@.len() == self.notes@.len() + 1,
            r.notes@.drop_last() == self.notes@,
            r.notes@.last()@ == note@,
            r.severity == self.severity,
            r.message == self.message,
            r.labels == self.labels,
            r.help == self.help,
            r.suggestions == self.suggestions,
    {
        let mut r = self;
        r.notes.push(note.to_owned());
        assert(r@ =~= (DiagnosticView { notes: self@.notes.push(note@), ..self@ }));
        r
    }

    /// The same diagnostic with one more suggestion.
    pub fn with_suggestion(self, suggestion: Suggestion) -> (r: Self)
        ensures
            r.code == self.code,
            r@ == (DiagnosticView { suggestions: self@.suggestions.push(suggestion@), ..self@ }),
            r.suggestions@ == self.suggestions@.push(suggestion),
            r.severity == self.severity,
            r.message == self.message,
            r.labels == self.labels,
            r.notes == self.notes,
            r.help == self.help,
    {
        let mut r = self;
        r.suggestions.push(suggestion);
        assert(r@ =~= (DiagnosticView {
            suggestions: self@.suggestions.push(suggestion@),
            ..self@
        }));
        r
    }
}

} // verus!
