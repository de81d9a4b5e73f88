//! The `check` command's decisions: which passes run, their combined
//! diagnostics, and the closing summary line.

use vstd::prelude::*;
use crate::check::{run_slot_pass, run_cross_slot, slot_pass_diags};
use crate::cross_slot::cross_slot_diags;
use crate::diagnostic::{Diagnostic, DiagnosticLabel, DiagnosticView, diags_view, lemma_diags_view_append};
use crate::facts::{module_names_wf, module_names_are_wf};
use crate::index_map::{modules_len, modules_get_index};
use crate::obligations::obligation_diags;
use crate::project::Project;
use crate::resolve::Resolved;
use crate::text::{owned, decimal, spec_decimal};

verus! {

/// Which passes a `check` runs.
#[derive(Debug, Clone, Copy, PartialEq, Eq, Structural)]
pub struct PassSelection {
    pub resolve: bool,
    pub slots: bool,
    pub obligations: bool,
}

/// With no pass requested, every pass runs; otherwise exactly the
/// requested ones.
pub fn select_passes(slots: bool, obligations: bool, resolve: bool) -> (r: PassSelection)
    ensures
        r.resolve == (resolve || (!slots && !obligations && !resolve)),
        r.slots == (slots || (!slots && !obligations && !resolve)),
        r.obligations == (obligations || (!slots && !obligations && !resolve)),
{
    let run_all = !slots && !obligations && !resolve;
    PassSelection { resolve: resolve || run_all, slots: slots || run_all, obligations: obligations || run_all }
}

/// Every module of the project names actions in its authentication
/// mappings by non-empty qualified names.
pub fn project_names_wf(project: &Project) -> (r: bool)
    ensures
        r == forall|i: int| 0 <= i < project.spec_modules().len() ==> module_names_wf(#[trigger] project.spec_modules()[i]),
{
    let ghost mods = project.spec_modules();
    let n = modules_len(&project.modules);
    let mut i: usize = 0;
    while i < n
        invariant
            n == mods.len(),
            mods == project.spec_modules(),
            i <= n,
            forall|k: int| 0 <= k < i ==> module_names_wf(#[trigger] mods[k]),
        decreases n - i,
    {
        match modules_get_index(&project.modules, i) {
            Some((_key, module)) => {
                proof {
                    assert(*module == mods[i as int]);
                }
                if !module_names_are_wf(module) {
                    return false;
                }
            },
            None => {},
        }
        i += 1;
    }
    true
}

/// What a `check` reports after parsing, pass by pass: the module-graph
/// diagnostics, the slot pass (with the derived-field and cross-slot
/// checks) followed by the cross-slot checks once more, and the
/// obligations.
pub open spec fn passes_diags(r: Resolved, sel: PassSelection, strict: bool) -> Seq<DiagnosticView> {
    let mods = r.project.spec_modules();
    (if sel.resolve { diags_view(r.diagnostics@) } else { Seq::empty() })
        + (if sel.slots { slot_pass_diags(mods) + cross_slot_diags(mods) } else { Seq::empty() })
        + (if sel.obligations { obligation_diags(mods, strict) } else { Seq::empty() })
}

/// Run the selected passes over a built project. `None` exactly when the
/// obligation pass is selected and some authentication mapping names its
/// action by an empty qualified name.
pub fn run_passes(resolved: &Resolved, sel: PassSelection, strict: bool) -> (r: Option<Vec<Diagnostic>>)
    ensures
        r is None <==> sel.obligations && !(forall|i: int| 0 <= i < resolved.project.spec_modules().len()
            ==> module_names_wf(#[trigger] resolved.project.spec_modules()[i])),
        r matches Some(d) ==> diags_view(d@) == passes_diags(*resolved, sel, strict),
{
    let project = &resolved.project;
    let wf = project_names_wf(project);
    if sel.obligations && !wf {
        return None;
    }
    let mut all: Vec<Diagnostic> = Vec::new();
    if sel.resolve {
        let mut i: usize = 0;
        while i < resolved.diagnostics.len()
            invariant
                i <= resolved.diagnostics@.len(),
                diags_view(all@) == diags_view(resolved.diagnostics@.subrange(0, i as int)),
            decreases resolved.diagnostics@.len() - i,
        {
            let d = copy_diagnostic(&resolved.diagnostics[i]);
            proof {
                crate::diagnostic::lemma_diags_view_push(all@, d);
                let pre = resolved.diagnostics@.subrange(0, i + 1);
                assert(pre =~= resolved.diagnostics@.subrange(0, i as int).push(resolved.diagnostics@[i as int]));
                crate::diagnostic::lemma_diags_view_push(resolved.diagnostics@.subrange(0, i as int), resolved.diagnostics@[i as int]);
            }
            all.push(d);
            i += 1;
        }
        proof {
            assert(resolved.diagnostics@.subrange(0, i as int) =~= resolved.diagnostics@);
        }
    } else {
        proof {
            assert(diags_view(all@) =~= Seq::<DiagnosticView>::empty());
        }
    }
    let ghost after_resolve = diags_view(all@);
    if sel.slots {
        let mut a = run_slot_pass(project).diagnostics;
        let mut b = run_cross_slot(project).diagnostics;
        proof {
            lemma_diags_view_append(all@, a@);
        }
        all.append(&mut a);
        proof {
            lemma_diags_view_append(all@, b@);
        }
        all.append(&mut b);
    }
    proof {
        let mods = project.spec_modules();
        assert(diags_view(all@) =~= after_resolve
            + (if sel.slots { slot_pass_diags(mods) + cross_slot_diags(mods) } else { Seq::empty() }));
    }
    let ghost after_slots = diags_view(all@);
    if sel.obligations {
        let mut o = crate::obligations::run(project, strict).diagnostics;
        proof {
            lemma_diags_view_append(all@, o@);
        }
        all.append(&mut o);
    }
    proof {
        let mods = project.spec_modules();
        assert(diags_view(all@) =~= after_slots
            + (if sel.obligations { obligation_diags(mods, strict) } else { Seq::empty() }));
    }
    Some(all)
}

/// A copy of a diagnostic.
pub fn copy_diagnostic(d: &Diagnostic) -> (r: Diagnostic)
    ensures
        r@ == d@,
{
    let mut labels: Vec<DiagnosticLabel> = Vec::new();
    let mut i: usize = 0;
    while i < d.labels.len()
        invariant
            i <= d.labels@.len(),
            labels@.len() == i,
            forall|k: int| 0 <= k < i ==> (#[trigger] labels@[k]).span == d.labels@[k].span
                && labels@[k].message@ == d.labels@[k].message@,
        decreases d.labels@.len() - i,
    {
        labels.push(DiagnosticLabel {
            span: d.labels[i].span,
            message: d.labels[i].message.clone(),
        });
        i += 1;
    }
    let help: Option<String> = match &d.help {
        Some(h) => Some(h.clone()),
        None => None,
    };
    let r = Diagnostic { code: d.code, message: d.message.clone(), primary_span: d.primary_span, labels, help };
    proof {
        assert(r@.labels =~= d@.labels);
    }
    r
}

/// The closing line of a check and whether it failed: errors fail the
/// check; warnings alone do not.
pub open spec fn spec_summary(errors: nat, warnings: nat, files: nat) -> (bool, Seq<char>) {
    if errors > 0 {
        (true, "surfacide: "@ + spec_decimal(errors) + " error(s), "@ + spec_decimal(warnings) + " warning(s)"@)
    } else if warnings > 0 {
        (false, "surfacide: "@ + spec_decimal(warnings) + " warning(s)"@)
    } else {
        (false, "surfacide: "@ + spec_decimal(files) + " file(s) checked, no diagnostics"@)
    }
}

pub fn summary_line(errors: usize, warnings: usize, files: usize) -> (r: (bool, String))
    ensures
        r.0 == spec_summary(errors as nat, warnings as nat, files as nat).0,
        r.1@ == spec_summary(errors as nat, warnings as nat, files as nat).1,
{
    let mut m = owned("surfacide: ");
    if errors > 0 {
        m.append(decimal(errors).as_str());
        m.append(" error(s), ");
        m.append(decimal(warnings).as_str());
        m.append(" warning(s)");
        (true, m)
    } else if warnings > 0 {
        m.append(decimal(warnings).as_str());
        m.append(" warning(s)");
        (false, m)
    } else {
        m.append(decimal(files).as_str());
        m.append(" file(s) checked, no diagnostics");
        (false, m)
    }
}

} // verus!
