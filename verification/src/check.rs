//! Entry points of the checking passes: the slot pass followed by the
//! derived-field and cross-slot checks, or the cross-slot checks alone.

use vstd::prelude::*;
use crate::cross_slot::{self, cross_slot_diags};
use crate::derived::{self, module_derived_diags};
use crate::diagnostic::{Diagnostic, DiagnosticView, diags_view, lemma_diags_view_append, concat_map};
use crate::project::{Project, ModuleAggregate};
use crate::slots::{self, module_slot_diags};

verus! {

/// The diagnostics of a checking run.
#[derive(Debug)]
pub struct CheckOutput {
    pub diagnostics: Vec<Diagnostic>,
}

/// Everything the slot pass, the derived-field check and the cross-slot
/// checks report, in that order.
pub open spec fn slot_pass_diags(mods: Seq<ModuleAggregate>) -> Seq<DiagnosticView> {
    concat_map(mods, |m: ModuleAggregate| module_slot_diags(m))
        + concat_map(mods, |m: ModuleAggregate| module_derived_diags(m))
        + cross_slot_diags(mods)
}

/// Run the slot pass, then the derived-field check, then the cross-slot
/// checks, over the whole project.
pub fn run_slot_pass(project: &Project) -> (r: CheckOutput)
    ensures
        diags_view(r.diagnostics@) == slot_pass_diags(project.spec_modules()),
{
    let mut diagnostics = slots::run(project);
    let mut d = derived::run(project);
    let mut c = cross_slot::run(project);
    proof {
        lemma_diags_view_append(diagnostics@, d@);
    }
    diagnostics.append(&mut d);
    proof {
        lemma_diags_view_append(diagnostics@, c@);
    }
    diagnostics.append(&mut c);
    CheckOutput { diagnostics }
}

/// Run the cross-slot checks alone.
pub fn run_cross_slot(project: &Project) -> (r: CheckOutput)
    ensures
        diags_view(r.diagnostics@) == cross_slot_diags(project.spec_modules()),
{
    CheckOutput { diagnostics: cross_slot::run(project) }
}

} // verus!
