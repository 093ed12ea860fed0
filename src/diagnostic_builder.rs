use std::marker::PhantomData;

use vstd::prelude::*;

use crate::diagnostic::{Diagnostic, DiagnosticLabel};
use crate::diagnostic_engine::{DiagnosticEngine, Emitter};
use crate::span::Span;

verus! {

/// Builds a diagnostic step by step. A builder is used once: `emit` hands
/// its diagnostic to an engine and `cancel` drops it, and either takes the
/// builder.
pub struct DiagnosticBuilder<G> {
    state: DiagnosticBuilderState,
    diagnostic: Diagnostic,
    _marker: PhantomData<G>,
}

/// Whether a builder may still emit.
#[derive(Clone, Copy, Debug, PartialEq, Eq, Structural)]
pub enum DiagnosticBuilderState {
    Emittable,
    EmittedOrCancelled,
}

/// What emitting a diagnostic gives back.
pub trait EmissionGuarantee: Sized {
    /// Hands the builder's diagnostic to the engine and closes the builder.
    fn emit_diagnostic_with_guarantee<E: Emitter>(
        db: &mut DiagnosticBuilder<Self>,
        engine: &mut DiagnosticEngine<E>,
    ) -> (r: Self)
        requires
            old(db).is_emittable(),
        ensures
            final(engine).emitted() == old(engine).emitted().push(old(db).diagnostic()),
            !final(db).is_emittable(),
            final(db).diagnostic() == old(db).diagnostic(),
    ;
}

/// Proof that a diagnostic was emitted.
pub struct EmissionGuaranted;

impl EmissionGuarantee for EmissionGuaranted {
    fn emit_diagnostic_with_guarantee<E: Emitter>(
        db: &mut DiagnosticBuilder<Self>,
        engine: &mut DiagnosticEngine<E>,
    ) -> Self {
        engine.emit_diagnostic(&db.diagnostic);
        db.state = DiagnosticBuilderState::EmittedOrCancelled;
        EmissionGuaranted
    }
}

impl EmissionGuarantee for () {
    fn emit_diagnostic_with_guarantee<E: Emitter>(
        db: &mut DiagnosticBuilder<Self>,
        engine: &mut DiagnosticEngine<E>,
    ) -> Self {
        db.state = DiagnosticBuilderState::EmittedOrCancelled;
        engine.emit_diagnostic(&db.diagnostic);
    }
}

impl<G> DiagnosticBuilder<G> {
    pub closed spec fn is_emittable(&self) -> bool {
        self.state == DiagnosticBuilderState::Emittable
    }

    pub closed spec fn diagnostic(&self) -> Diagnostic {
        self.diagnostic
    }

    pub fn new(diagnostic: Diagnostic) -> (r: DiagnosticBuilder<G>)
        ensures
            r.is_emittable(),
            r.diagnostic() == diagnostic,
    {
        DiagnosticBuilder {
            state: DiagnosticBuilderState::Emittable,
            diagnostic,
            _marker: PhantomData,
        }
    }

    /// The diagnostic built so far.
    pub fn get_diagnostic(&self) -> (r: &Diagnostic)
        ensures
            *r == self.diagnostic(),
    {
        &self.diagnostic
    }

    /// Sets the span and message of the primary label.
    pub fn set_primary_label(self, span: Span, msg: String) -> (r: DiagnosticBuilder<G>)
        ensures
            r.is_emittable() == self.is_emittable(),
            r.diagnostic().level == self.diagnostic().level,
            r.diagnostic().message == self.diagnostic().message,
            r.diagnostic().labels.primary_label.span == span,
            r.diagnostic().labels.primary_label.message@ == msg@,
            r.diagnostic().labels.sublabels == self.diagnostic().labels.sublabels,
    {
        let mut b = self;
        b.diagnostic.labels.primary_label = DiagnosticLabel { span, message: msg };
        b
    }

    /// Sets the span of the primary label, which must still be the dummy
    /// span.
    pub fn set_primary_span(self, span: Span) -> (r: DiagnosticBuilder<G>)
        requires
            self.diagnostic().labels.primary_label.span.spec_is_dummy(),
        ensures
            r.is_emittable() == self.is_emittable(),
            r.diagnostic().level == self.diagnostic().level,
            r.diagnostic().message == self.diagnostic().message,
            r.diagnostic().labels.primary_label.span == span,
            r.diagnostic().labels.primary_label.message
                == self.diagnostic().labels.primary_label.message,
            r.diagnostic().labels.sublabels == self.diagnostic().labels.sublabels,
    {
        let mut b = self;
        b.diagnostic.labels.primary_label.span = span;
        b
    }

    /// Adds a sublabel.
    pub fn add_sublabel(self, span: Span, msg: String) -> (r: DiagnosticBuilder<G>)
        ensures
            r.is_emittable() == self.is_emittable(),
            r.diagnostic().level == self.diagnostic().level,
            r.diagnostic().message == self.diagnostic().message,
            r.diagnostic().labels.primary_label == self.diagnostic().labels.primary_label,
            r.diagnostic().labels.sublabels@ == self.diagnostic().labels.sublabels@.push(
                DiagnosticLabel { span, message: msg },
            ),
    {
        let mut b = self;
        b.diagnostic.labels.sublabels.push(DiagnosticLabel { span, message: msg });
        b
    }

    /// Adds a sublabel with no message.
    pub fn add_subspan(self, span: Span) -> (r: DiagnosticBuilder<G>)
        ensures
            r.is_emittable() == self.is_emittable(),
            r.diagnostic().level == self.diagnostic().level,
            r.diagnostic().message == self.diagnostic().message,
            r.diagnostic().labels.primary_label == self.diagnostic().labels.primary_label,
            r.diagnostic().labels.sublabels@.len() == self.diagnostic().labels.sublabels@.len()
                + 1,
            r.diagnostic().labels.sublabels@.drop_last() == self.diagnostic().labels.sublabels@,
            r.diagnostic().labels.sublabels@.last().span == span,
            r.diagnostic().labels.sublabels@.last().message@.len() == 0,
    {
        let mut b = self;
        b.diagnostic.labels.sublabels.push(DiagnosticLabel { span, message: String::new() });
        proof {
            assert(b.diagnostic.labels.sublabels@.drop_last() =~= self.diagnostic.labels.sublabels@);
        }
        b
    }

    /// Drops the diagnostic without emitting it.
    pub fn cancel(self) {
        let mut b = self;
        b.state = DiagnosticBuilderState::EmittedOrCancelled;
    }
}

impl<G: EmissionGuarantee> DiagnosticBuilder<G> {
    /// Hands the diagnostic to the engine, once: the builder is used up.
    pub fn emit<E: Emitter>(self, engine: &mut DiagnosticEngine<E>) -> (r: G)
        requires
            self.is_emittable(),
        ensures
            final(engine).emitted() == old(engine).emitted().push(self.diagnostic()),
    {
        let mut b = self;
        G::emit_diagnostic_with_guarantee(&mut b, engine)
    }
}

} // verus!
