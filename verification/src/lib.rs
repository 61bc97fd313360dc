//! Rendering of compiler-style diagnostics as text.
//!
//! A [`Diagnostic`] says what is wrong and points at source text by its labels. A
//! [`DiagnosticFormatter`] renders it: a header, the labelled source lines with carets below them,
//! notes, help, and suggestions as diffs. [`layout`] states what the rendering consists of, and
//! [`laws`] what follows from that.

pub mod diagnostic;
pub mod document;
pub mod formatter;
pub mod labels;
pub mod laws;
pub mod layout;
pub mod lines;
pub mod offsets;
pub mod source;
pub mod style;
pub mod text;
pub mod width;

pub use crate::diagnostic::{
    Applicability, Diagnostic, DiagnosticCode, Label, LabelStyle, Severity, Span, Suggestion,
};
pub use crate::formatter::DiagnosticFormatter;
pub use crate::layout::RenderOptions;
pub use crate::source::SourceCache;
