use vstd::prelude::*;

use crate::diagnostics::types::{Diagnostic, DiagnosticKind, DiagnosticLevel, ReportStage};
use crate::range::Range;

verus! {

/// Collects the diagnostics of one step of the analysis, in the order they are reported.
#[derive(Debug)]
pub struct DiagnosticReporter {
    diagnostics: Vec<Diagnostic>,
    stage: ReportStage,
}

impl DiagnosticReporter {
    /// The diagnostics reported so far, oldest first.
    pub closed spec fn spec_diagnostics(&self) -> Seq<Diagnostic> {
        self.diagnostics@
    }

    pub closed spec fn spec_stage(&self) -> ReportStage {
        self.stage
    }

    pub fn new(stage: ReportStage) -> (r: DiagnosticReporter)
        ensures
            r.spec_stage() == stage,
            r.spec_diagnostics().len() == 0,
    {
        DiagnosticReporter { stage, diagnostics: Vec::new() }
    }

    /// Reports an error of the reporter's stage.
    pub fn error(&mut self, range: Range, kind: DiagnosticKind)
        ensures
            final(self).spec_stage() == old(self).spec_stage(),
            final(self).spec_diagnostics() == old(self).spec_diagnostics().push(
                Diagnostic { level: DiagnosticLevel::Error, stage: old(self).spec_stage(), kind, range },
            ),
    {
        let stage = self.stage;
        self.diagnostics.push(Diagnostic { level: DiagnosticLevel::Error, stage, kind, range });
    }

    /// Reports a warning of the reporter's stage.
    pub fn warning(&mut self, range: Range, kind: DiagnosticKind)
        ensures
            final(self).spec_stage() == old(self).spec_stage(),
            final(self).spec_diagnostics() == old(self).spec_diagnostics().push(
                Diagnostic { level: DiagnosticLevel::Warning, stage: old(self).spec_stage(), kind, range },
            ),
    {
        let stage = self.stage;
        self.diagnostics.push(Diagnostic { level: DiagnosticLevel::Warning, stage, kind, range });
    }

    /// The diagnostics of `self` followed by those of `other`.
    pub fn merge(self, other: DiagnosticReporter) -> (r: DiagnosticReporter)
        ensures
            r.spec_stage() == self.spec_stage(),
            r.spec_diagnostics() == self.spec_diagnostics() + other.spec_diagnostics(),
    {
        let mut this = self;
        let mut other = other;
        this.diagnostics.append(&mut other.diagnostics);
        this
    }

    pub fn into_diagnostics_vec(self) -> (r: Vec<Diagnostic>)
        ensures
            r@ == self.spec_diagnostics(),
    {
        self.diagnostics
    }
}

/// Merging keeps every diagnostic in order, and is associative.
pub proof fn lemma_merge_associative(a: Seq<Diagnostic>, b: Seq<Diagnostic>, c: Seq<Diagnostic>)
    ensures
        (a + b) + c == a + (b + c),
{
    assert((a + b) + c =~= a + (b + c));
}

} // verus!
