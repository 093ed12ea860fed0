use vstd::prelude::*;

use crate::span::Span;

verus! {

/// A diagnostic: a level, a message, and labelled spans of source text.
#[derive(Debug, Clone, PartialEq, Eq)]
pub struct Diagnostic {
    pub level: Level,
    pub message: String,
    pub labels: DiagnosticLabels,
}

impl Diagnostic {
    /// The span of the diagnostic: that of its primary label.
    pub fn span(&self) -> (r: Span)
        ensures
            r == self.labels.primary_label.span,
    {
        self.labels.primary_label.span
    }
}

#[derive(Debug, Clone, Copy, PartialEq, Eq, Structural)]
pub enum Level {
    /// A compilation error.
    Error,
    /// A warning or lint.
    Warn,
    /// An informational message.
    Note,
}

/// The main label of a diagnostic and its secondary ones.
#[derive(Debug, Clone, PartialEq, Eq)]
pub struct DiagnosticLabels {
    pub primary_label: DiagnosticLabel,
    pub sublabels: Vec<DiagnosticLabel>,
}

/// A span of source text with a message about it.
#[derive(Debug, Clone, PartialEq, Eq)]
pub struct DiagnosticLabel {
    pub span: Span,
    pub message: String,
}

impl Default for DiagnosticLabel {
    fn default() -> (r: DiagnosticLabel)
        ensures
            r.span.spec_is_dummy(),
            r.message@.len() == 0,
    {
        DiagnosticLabel { span: Span::dummy(), message: String::new() }
    }
}

impl Default for DiagnosticLabels {
    fn default() -> (r: DiagnosticLabels)
        ensures
            r.primary_label.span.spec_is_dummy(),
            r.primary_label.message@.len() == 0,
            r.sublabels@.len() == 0,
    {
        DiagnosticLabels { primary_label: DiagnosticLabel::default(), sublabels: Vec::new() }
    }
}

} // verus!
