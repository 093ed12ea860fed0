use std::rc::Rc;

use vstd::prelude::*;

use crate::diagnostic::{Diagnostic, DiagnosticLabels, Level};
use crate::diagnostic_builder::DiagnosticBuilder;
use crate::source_map::SourceMap;

verus! {

/// Where diagnostics go: a terminal, a file, a list. Users of the library
/// supply their own.
pub trait Emitter {
    /// Emits one diagnostic.
    fn emit_diagnostic(&mut self, diag: &Diagnostic);

    /// The source map that this emitter reads source text from, if any.
    fn source_map(&self) -> Option<Rc<SourceMap>>;
}

/// An emitter that drops every diagnostic.
pub struct SilentEmitter {}

impl Emitter for SilentEmitter {
    fn emit_diagnostic(&mut self, diag: &Diagnostic) {
    }

    fn source_map(&self) -> Option<Rc<SourceMap>> {
        None
    }
}

/// Hands diagnostics to its emitter, one at a time, and records what it
/// handed over.
pub struct DiagnosticEngine<E: Emitter> {
    pub(crate) inner: DiagnosticEngineInner<E>,
}

pub struct DiagnosticEngineInner<E: Emitter> {
    emitter: E,
    emitted: Ghost<Seq<Diagnostic>>,
}

impl<E: Emitter> DiagnosticEngine<E> {
    /// Every diagnostic handed to the emitter so far, in order.
    pub closed spec fn emitted(&self) -> Seq<Diagnostic> {
        self.inner.emitted@
    }

    pub fn with_emitter(emitter: E) -> (r: DiagnosticEngine<E>)
        ensures
            r.emitted() == Seq::<Diagnostic>::empty(),
    {
        DiagnosticEngine { inner: DiagnosticEngineInner { emitter, emitted: Ghost(Seq::empty()) } }
    }

    pub fn emitter(&self) -> &E {
        &self.inner.emitter
    }

    /// Starts a diagnostic of the given level and message, with a dummy
    /// primary span and no sublabel.
    pub fn create_diagnostic(&self, level: Level, msg: String) -> (r: DiagnosticBuilder<()>)
        ensures
            r.is_emittable(),
            r.diagnostic().level == level,
            r.diagnostic().message@ == msg@,
            r.diagnostic().labels.primary_label.span.spec_is_dummy(),
            r.diagnostic().labels.primary_label.message@.len() == 0,
            r.diagnostic().labels.sublabels@.len() == 0,
    {
        DiagnosticBuilder::new(
            Diagnostic { level, message: msg, labels: DiagnosticLabels::default() },
        )
    }

    pub fn create_err(&self, msg: String) -> (r: DiagnosticBuilder<()>)
        ensures
            r.is_emittable(),
            r.diagnostic().level == Level::Error,
            r.diagnostic().message@ == msg@,
            r.diagnostic().labels.primary_label.span.spec_is_dummy(),
            r.diagnostic().labels.primary_label.message@.len() == 0,
            r.diagnostic().labels.sublabels@.len() == 0,
    {
        self.create_diagnostic(Level::Error, msg)
    }

    pub fn create_warn(&self, msg: String) -> (r: DiagnosticBuilder<()>)
        ensures
            r.is_emittable(),
            r.diagnostic().level == Level::Warn,
            r.diagnostic().message@ == msg@,
            r.diagnostic().labels.primary_label.span.spec_is_dummy(),
            r.diagnostic().labels.primary_label.message@.len() == 0,
            r.diagnostic().labels.sublabels@.len() == 0,
    {
        self.create_diagnostic(Level::Warn, msg)
    }

    pub fn create_note(&self, msg: String) -> (r: DiagnosticBuilder<()>)
        ensures
            r.is_emittable(),
            r.diagnostic().level == Level::Note,
            r.diagnostic().message@ == msg@,
            r.diagnostic().labels.primary_label.span.spec_is_dummy(),
            r.diagnostic().labels.primary_label.message@.len() == 0,
            r.diagnostic().labels.sublabels@.len() == 0,
    {
        self.create_diagnostic(Level::Note, msg)
    }

    /// Hands the diagnostic to the emitter.
    pub fn emit_diagnostic(&mut self, diagnostic: &Diagnostic)
        ensures
            final(self).emitted() == old(self).emitted().push(*diagnostic),
    {
        self.inner.emitter.emit_diagnostic(diagnostic);
        self.inner.emitted = Ghost(self.inner.emitted@.push(*diagnostic));
    }
}

} // verus!
