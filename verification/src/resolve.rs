//! Module graph construction.
//!
//! Parsed module files are ingested into a [`Project`], grouped by their
//! module header; then, per module:
//!
//! - an action name declared again (as an action or an internal action)
//!   in the module's surface blocks is `E_DUPLICATE_ACTION_NAME`,
//!   pointing back at the latest earlier declaration of that name;
//! - every `surface { … }` block after the first is
//!   `E_DUPLICATE_SURFACE_BLOCK`.

use vstd::prelude::*;
use crate::codes::{Code, ErrorKind};
use crate::decl::{Decl, ModuleFile};
use crate::diagnostic::{Diagnostic, DiagnosticView, diags_view, plain, lemma_diags_view_push, concat_map,
    lemma_concat_map_step};
use crate::ident::Ident;
use crate::index_map::{name_span_entries, name_spans_new, name_spans_insert, previous, lemma_previous_inserted,
    modules_len, modules_get_index, key_index, module_entries, lemma_key_index};
use crate::project::{Project, ModuleAggregate, module_views, ingest_all, files_of, decls_of, lemma_ingest_collects_files};
use crate::span::{FileId, FileRegistry, Span};
use crate::surface::{ActionDecl, InternalActionDecl, SurfaceBlock};
use crate::text::{owned, decimal, spec_decimal};
use crate::collect::{add_all, lemma_add_all_no_dups};
use indexmap::IndexMap;

verus! {

/// A project with the diagnostics found while building it.
#[derive(Debug)]
pub struct Resolved {
    pub project: Project,
    pub diagnostics: Vec<Diagnostic>,
}

/// The action names of a surface with their spans, marking internal
/// actions: actions first, then internal actions.
pub open spec fn surface_action_names(s: SurfaceBlock) -> Seq<(Seq<char>, Span, bool)> {
    concat_map(s.actions@, |a: ActionDecl| seq![(a.name.name@, a.name.span, false)])
        + concat_map(s.internal_actions@, |ia: InternalActionDecl| seq![(ia.action.name.name@, ia.action.name.span, true)])
}

pub open spec fn decl_action_names(d: Decl) -> Seq<(Seq<char>, Span, bool)> {
    match d {
        Decl::Surface(s) => surface_action_names(s),
        _ => Seq::empty(),
    }
}

/// Every action name of the module's surface blocks, in order.
pub open spec fn module_action_names(m: ModuleAggregate) -> Seq<(Seq<char>, Span, bool)> {
    concat_map(m.decls@, |d: Decl| decl_action_names(d))
}

/// The span of the latest declaration of `key` among `names`.
pub open spec fn latest_span(names: Seq<(Seq<char>, Span, bool)>, key: Seq<char>) -> Option<Span>
    decreases names.len(),
{
    if names.len() == 0 {
        None
    } else if names.last().0 == key {
        Some(names.last().1)
    } else {
        latest_span(names.drop_last(), key)
    }
}

pub open spec fn dup_action_message(internal: bool, name: Seq<char>, module: Seq<char>) -> Seq<char> {
    (if internal { "internal_action"@ } else { "action"@ }) + " `"@ + name + "` declared more than once in module `"@
        + module + "`"@
}

/// The diagnostic for declaring `n` after `names`, if it repeats one.
pub open spec fn dup_of(names: Seq<(Seq<char>, Span, bool)>, n: (Seq<char>, Span, bool), module: Seq<char>) -> Seq<DiagnosticView> {
    match latest_span(names, n.0) {
        Some(prev) => seq![plain(Code::Error(ErrorKind::DuplicateActionName),
            dup_action_message(n.2, n.0, module), n.1).with_label(prev, "previous declaration here"@)],
        None => Seq::empty(),
    }
}

/// One `E_DUPLICATE_ACTION_NAME` per name declared again.
pub open spec fn dup_action_diags(names: Seq<(Seq<char>, Span, bool)>, module: Seq<char>) -> Seq<DiagnosticView>
    decreases names.len(),
{
    if names.len() == 0 {
        Seq::empty()
    } else {
        dup_action_diags(names.drop_last(), module) + dup_of(names.drop_last(), names.last(), module)
    }
}

/// The spans of the module's surface blocks, in order.
pub open spec fn module_surface_spans(m: ModuleAggregate) -> Seq<Span> {
    concat_map(m.decls@, |d: Decl| match d {
        Decl::Surface(s) => seq![s.span],
        _ => Seq::empty(),
    })
}

pub open spec fn surface_dup_message(module: Seq<char>, count: nat) -> Seq<char> {
    "module `"@ + module + "` has "@ + spec_decimal(count) + " `surface { … }` blocks; at most one allowed"@
}

/// One `E_DUPLICATE_SURFACE_BLOCK` per surface block after the first.
pub open spec fn surface_dup_diags(m: ModuleAggregate) -> Seq<DiagnosticView> {
    let spans = module_surface_spans(m);
    if spans.len() > 1 {
        concat_map(spans.subrange(1, spans.len() as int), |sp: Span|
            seq![plain(Code::Error(ErrorKind::DuplicateSurfaceBlock), surface_dup_message(m.name.spec_dotted(), spans.len()), sp)
                .with_label(spans[0], "first declared here"@)])
    } else {
        Seq::empty()
    }
}

pub open spec fn module_resolve_diags(m: ModuleAggregate) -> Seq<DiagnosticView> {
    dup_action_diags(module_action_names(m), m.name.spec_dotted()) + surface_dup_diags(m)
}

/// Record one action name, reporting it if it was declared before.
fn note_action(name: &Ident, internal: bool, module_name: &str, seen: &mut IndexMap<String, Span>,
    Ghost(names): Ghost<Seq<(Seq<char>, Span, bool)>>, out: &mut Vec<Diagnostic>)
    requires
        forall|k: Seq<char>| previous(name_span_entries(*old(seen)), k) == #[trigger] latest_span(names, k),
    ensures
        forall|k: Seq<char>| previous(name_span_entries(*final(seen)), k)
            == #[trigger] latest_span(names.push((name.name@, name.span, internal)), k),
        diags_view(final(out)@) == diags_view(old(out)@) + dup_of(names, (name.name@, name.span, internal), module_name@),
{
    let ghost next = names.push((name.name@, name.span, internal));
    let ghost before = name_span_entries(*seen);
    proof {
        assert(next.drop_last() =~= names);
    }
    let prev = name_spans_insert(seen, name.name.clone(), name.span);
    proof {
        assert forall|k: Seq<char>| previous(name_span_entries(*seen), k) == #[trigger] latest_span(next, k) by {
            lemma_previous_inserted(before, name.name@, name.span, k);
            assert(previous(before, k) == latest_span(names, k));
        }
        assert(prev == latest_span(names, name.name@));
    }
    match prev {
        Some(prev_span) => {
            let mut m = owned(if internal { "internal_action" } else { "action" });
            m.append(" `");
            m.append(name.name.as_str());
            m.append("` declared more than once in module `");
            m.append(module_name);
            m.append("`");
            let d = Diagnostic::error(ErrorKind::DuplicateActionName, m.as_str(), name.span)
                .with_label(prev_span, "previous declaration here");
            proof {
                lemma_diags_view_push(out@, d);
                assert(diags_view(out@).push(d@) =~= diags_view(out@) + seq![d@]);
            }
            out.push(d);
        },
        None => {
            proof {
                assert(diags_view(out@) + Seq::<DiagnosticView>::empty() =~= diags_view(out@));
            }
        },
    }
}

/// The per-module checks.
fn check_module(module: &ModuleAggregate, out: &mut Vec<Diagnostic>)
    ensures
        diags_view(final(out)@) == diags_view(old(out)@) + module_resolve_diags(*module),
{
    let ghost h = diags_view(out@);
    let module_name = module.name.dotted();
    let ghost mname = module.name.spec_dotted();
    let mut surface_count: usize = 0;
    let mut surface_spans: Vec<Span> = Vec::new();
    let mut action_seen: IndexMap<String, Span> = name_spans_new();
    let ghost fd = |d: Decl| decl_action_names(d);
    let ghost fs = |d: Decl| match d {
        Decl::Surface(s) => seq![s.span],
        _ => Seq::empty(),
    };
    let mut j: usize = 0;
    proof {
        assert(module.decls@.subrange(0, 0) =~= Seq::<Decl>::empty());
        assert(h + dup_action_diags(Seq::empty(), mname) =~= h);
    }
    while j < module.decls.len()
        invariant
            j <= module.decls@.len(),
            module_name@ == mname,
            fd == (|d: Decl| decl_action_names(d)),
            fs == (|d: Decl| match d {
                Decl::Surface(s) => seq![s.span],
                _ => Seq::empty(),
            }),
            surface_spans@ == concat_map(module.decls@.subrange(0, j as int), fs),
            surface_count == surface_spans@.len(),
            surface_count <= j,
            forall|k: Seq<char>| previous(name_span_entries(action_seen), k)
                == #[trigger] latest_span(concat_map(module.decls@.subrange(0, j as int), fd), k),
            diags_view(out@) == h + dup_action_diags(concat_map(module.decls@.subrange(0, j as int), fd), mname),
        decreases module.decls@.len() - j,
    {
        proof {
            lemma_concat_map_step(module.decls@, j as int, fd);
            lemma_concat_map_step(module.decls@, j as int, fs);
        }
        let ghost pre = concat_map(module.decls@.subrange(0, j as int), fd);
        match &module.decls[j] {
            Decl::Surface(s) => {
                surface_count += 1;
                surface_spans.push(s.span);
                let ghost fa = |a: ActionDecl| seq![(a.name.name@, a.name.span, false)];
                let ghost fi = |ia: InternalActionDecl| seq![(ia.action.name.name@, ia.action.name.span, true)];
                let mut k: usize = 0;
                proof {
                    assert(s.actions@.subrange(0, 0) =~= Seq::<ActionDecl>::empty());
                    assert(pre + concat_map(Seq::<ActionDecl>::empty(), fa) =~= pre);
                }
                while k < s.actions.len()
                    invariant
                        k <= s.actions@.len(),
                        module_name@ == mname,
                        fa == (|a: ActionDecl| seq![(a.name.name@, a.name.span, false)]),
                        forall|q: Seq<char>| previous(name_span_entries(action_seen), q)
                            == #[trigger] latest_span(pre + concat_map(s.actions@.subrange(0, k as int), fa), q),
                        diags_view(out@) == h + dup_action_diags(pre + concat_map(s.actions@.subrange(0, k as int), fa), mname),
                    decreases s.actions@.len() - k,
                {
                    proof {
                        lemma_concat_map_step(s.actions@, k as int, fa);
                    }
                    let ghost names = pre + concat_map(s.actions@.subrange(0, k as int), fa);
                    let a = &s.actions[k];
                    let ghost d0 = dup_action_diags(names, mname);
                    note_action(&a.name, false, module_name.as_str(), &mut action_seen, Ghost(names), out);
                    proof {
                        let next = names.push((a.name.name@, a.name.span, false));
                        assert(pre + concat_map(s.actions@.subrange(0, k + 1), fa) =~= next);
                        assert(next.drop_last() =~= names);
                        assert(diags_view(out@) =~= h + dup_action_diags(next, mname));
                    }
                    k += 1;
                }
                proof {
                    assert(s.actions@.subrange(0, k as int) =~= s.actions@);
                }
                let ghost pre2 = pre + concat_map(s.actions@, fa);
                let mut k: usize = 0;
                proof {
                    assert(s.internal_actions@.subrange(0, 0) =~= Seq::<InternalActionDecl>::empty());
                    assert(pre2 + concat_map(Seq::<InternalActionDecl>::empty(), fi) =~= pre2);
                }
                while k < s.internal_actions.len()
                    invariant
                        k <= s.internal_actions@.len(),
                        module_name@ == mname,
                        fi == (|ia: InternalActionDecl| seq![(ia.action.name.name@, ia.action.name.span, true)]),
                        forall|q: Seq<char>| previous(name_span_entries(action_seen), q)
                            == #[trigger] latest_span(pre2 + concat_map(s.internal_actions@.subrange(0, k as int), fi), q),
                        diags_view(out@) == h + dup_action_diags(pre2 + concat_map(s.internal_actions@.subrange(0, k as int), fi), mname),
                    decreases s.internal_actions@.len() - k,
                {
                    proof {
                        lemma_concat_map_step(s.internal_actions@, k as int, fi);
                    }
                    let ghost names = pre2 + concat_map(s.internal_actions@.subrange(0, k as int), fi);
                    let ia = &s.internal_actions[k];
                    let ghost d0 = dup_action_diags(names, mname);
                    note_action(&ia.action.name, true, module_name.as_str(), &mut action_seen, Ghost(names), out);
                    proof {
                        let next = names.push((ia.action.name.name@, ia.action.name.span, true));
                        assert(pre2 + concat_map(s.internal_actions@.subrange(0, k + 1), fi) =~= next);
                        assert(next.drop_last() =~= names);
                        assert(diags_view(out@) =~= h + dup_action_diags(next, mname));
                    }
                    k += 1;
                }
                proof {
                    assert(s.internal_actions@.subrange(0, k as int) =~= s.internal_actions@);
                    assert(pre2 + concat_map(s.internal_actions@, fi) =~= pre + surface_action_names(*s));
                    assert(surface_spans@ =~= concat_map(module.decls@.subrange(0, j + 1), fs));
                }
            },
            _ => {
                proof {
                    assert(pre + Seq::<(Seq<char>, Span, bool)>::empty() =~= pre);
                    assert(surface_spans@ + Seq::<Span>::empty() =~= surface_spans@);
                }
            },
        }
        j += 1;
    }
    proof {
        assert(module.decls@.subrange(0, j as int) =~= module.decls@);
    }
    let ghost spans = surface_spans@;
    let ghost mid = diags_view(out@);
    if surface_count > 1 {
        let count_text = decimal(surface_count);
        let ghost ft = |sp: Span|
            seq![plain(Code::Error(ErrorKind::DuplicateSurfaceBlock), surface_dup_message(mname, spans.len()), sp)
                .with_label(spans[0], "first declared here"@)];
        let ghost tail = spans.subrange(1, spans.len() as int);
        let mut t: usize = 1;
        proof {
            assert(tail.subrange(0, 0) =~= Seq::<Span>::empty());
            assert(mid + concat_map(Seq::<Span>::empty(), ft) =~= mid);
        }
        while t < surface_spans.len()
            invariant
                1 <= t <= surface_spans@.len(),
                spans == surface_spans@,
                surface_count == spans.len(),
                tail == spans.subrange(1, spans.len() as int),
                count_text@ == spec_decimal(surface_count as nat),
                module_name@ == mname,
                ft == (|sp: Span|
                    seq![plain(Code::Error(ErrorKind::DuplicateSurfaceBlock), surface_dup_message(mname, spans.len()), sp)
                        .with_label(spans[0], "first declared here"@)]),
                diags_view(out@) == mid + concat_map(tail.subrange(0, t - 1), ft),
            decreases surface_spans@.len() - t,
        {
            proof {
                lemma_concat_map_step(tail, t - 1, ft);
                assert(tail[t - 1] == spans[t as int]);
            }
            let mut m = owned("module `");
            m.append(module_name.as_str());
            m.append("` has ");
            m.append(count_text.as_str());
            m.append(" `surface { … }` blocks; at most one allowed");
            let d = Diagnostic::error(ErrorKind::DuplicateSurfaceBlock, m.as_str(), surface_spans[t])
                .with_label(surface_spans[0], "first declared here");
            proof {
                lemma_diags_view_push(out@, d);
                assert(diags_view(out@).push(d@) =~= diags_view(out@) + ft(spans[t as int]));
            }
            out.push(d);
            t += 1;
        }
        proof {
            assert(tail.subrange(0, t - 1) =~= tail);
            assert(diags_view(out@) =~= h + module_resolve_diags(*module));
        }
    } else {
        proof {
            assert(diags_view(out@) =~= h + module_resolve_diags(*module));
        }
    }
}

/// Build a project from parsed module files and the file registry, then
/// report duplicate action names and duplicate surface blocks, module by
/// module.
pub fn build_project(parsed: Vec<(FileId, ModuleFile)>, files: FileRegistry) -> (r: Resolved)
    ensures
        r.project.files == files,
        module_views(r.project.modules) == ingest_all(Seq::empty(), parsed@),
        diags_view(r.diagnostics@) == concat_map(r.project.spec_modules(), |m: ModuleAggregate| module_resolve_diags(m)),
{
    let mut project = Project::new();
    project.files = files;
    let ghost all = parsed@;
    let mut rest = parsed;
    let total = rest.len();
    let mut k: usize = 0;
    proof {
        assert(module_views(project.modules) =~= Seq::<(Seq<char>, crate::project::ModuleView)>::empty());
        assert(all.subrange(0, 0) =~= Seq::<(FileId, ModuleFile)>::empty());
        assert(all.subrange(0, all.len() as int) =~= all);
    }
    while rest.len() > 0
        invariant
            k <= all.len(),
            all.len() == total,
            rest@ == all.subrange(k as int, all.len() as int),
            project.files == files,
            module_views(project.modules) == ingest_all(Seq::empty(), all.subrange(0, k as int)),
        decreases rest@.len(),
    {
        let (file_id, module) = rest.remove(0);
        proof {
            assert(all.subrange(0, k + 1).drop_last() =~= all.subrange(0, k as int));
            assert(all.subrange(0, k + 1).last() == all[k as int]);
            assert(rest@ =~= all.subrange(k + 1, all.len() as int));
        }
        project.ingest_file(file_id, module);
        k += 1;
    }
    proof {
        assert(all.subrange(0, k as int) =~= all);
    }

    let ghost mods = project.spec_modules();
    let ghost fm = |m: ModuleAggregate| module_resolve_diags(m);
    let mut diagnostics: Vec<Diagnostic> = Vec::new();
    let n = modules_len(&project.modules);
    let mut i: usize = 0;
    proof {
        assert(mods.subrange(0, 0) =~= Seq::<ModuleAggregate>::empty());
        assert(diags_view(diagnostics@) =~= Seq::<DiagnosticView>::empty());
    }
    while i < n
        invariant
            n == mods.len(),
            mods == project.spec_modules(),
            i <= n,
            fm == (|m: ModuleAggregate| module_resolve_diags(m)),
            diags_view(diagnostics@) == concat_map(mods.subrange(0, i as int), fm),
        decreases n - i,
    {
        proof {
            lemma_concat_map_step(mods, i as int, fm);
        }
        match modules_get_index(&project.modules, i) {
            Some((_key, module)) => {
                proof {
                    assert(*module == mods[i as int]);
                }
                check_module(module, &mut diagnostics);
            },
            None => {},
        }
        i += 1;
    }
    proof {
        assert(mods.subrange(0, i as int) =~= mods);
    }
    Resolved { project, diagnostics }
}

/// A project with no modules and no diagnostics: the registry-less
/// entry point keeps nothing of its argument.
pub fn resolve(_project: &Project) -> (r: Resolved)
    ensures
        module_views(r.project.modules).len() == 0,
        r.project.files.spec_entries().len() == 0,
        r.diagnostics@.len() == 0,
{
    let project = Project::new();
    proof {
        assert(module_views(project.modules).len() == 0);
    }
    Resolved { project, diagnostics: Vec::new() }
}

// ---- laws ----

proof fn lemma_latest_span_absent(names: Seq<(Seq<char>, Span, bool)>, key: Seq<char>)
    requires
        forall|i: int| 0 <= i < names.len() ==> (#[trigger] names[i]).0 != key,
    ensures
        latest_span(names, key) is None,
    decreases names.len(),
{
    if names.len() > 0 {
        assert forall|i: int| 0 <= i < names.drop_last().len() implies (#[trigger] names.drop_last()[i]).0 != key by {
            assert(names.drop_last()[i] == names[i]);
        }
        lemma_latest_span_absent(names.drop_last(), key);
    }
}

/// Names that are pairwise distinct raise no duplicate-name diagnostic.
pub proof fn lemma_distinct_action_names_are_clean(names: Seq<(Seq<char>, Span, bool)>, module: Seq<char>)
    requires
        forall|i: int, j: int| 0 <= i < j < names.len() ==> (#[trigger] names[i]).0 != (#[trigger] names[j]).0,
    ensures
        dup_action_diags(names, module).len() == 0,
    decreases names.len(),
{
    if names.len() > 0 {
        let pre = names.drop_last();
        assert forall|i: int, j: int| 0 <= i < j < pre.len() implies (#[trigger] pre[i]).0 != (#[trigger] pre[j]).0 by {
            assert(pre[i] == names[i]);
            assert(pre[j] == names[j]);
        }
        lemma_distinct_action_names_are_clean(pre, module);
        assert forall|i: int| 0 <= i < pre.len() implies (#[trigger] pre[i]).0 != names.last().0 by {
            assert(pre[i] == names[i]);
        }
        lemma_latest_span_absent(pre, names.last().0);
    }
}

/// A module reports one `E_DUPLICATE_SURFACE_BLOCK` for each surface
/// block beyond the first, and none when it has at most one.
pub proof fn lemma_one_diagnostic_per_extra_surface(m: ModuleAggregate)
    ensures
        surface_dup_diags(m).len() == if module_surface_spans(m).len() > 1 {
            module_surface_spans(m).len() - 1
        } else {
            0
        },
        forall|i: int| 0 <= i < surface_dup_diags(m).len()
            ==> (#[trigger] surface_dup_diags(m)[i]).code == Code::Error(ErrorKind::DuplicateSurfaceBlock),
{
    let spans = module_surface_spans(m);
    if spans.len() > 1 {
        let f = |sp: Span|
            seq![plain(Code::Error(ErrorKind::DuplicateSurfaceBlock), surface_dup_message(m.name.spec_dotted(), spans.len()), sp)
                .with_label(spans[0], "first declared here"@)];
        let rest = spans.subrange(1, spans.len() as int);
        crate::diagnostic::lemma_concat_map_singletons(rest, f);
        assert forall|i: int| 0 <= i < surface_dup_diags(m).len()
            implies (#[trigger] surface_dup_diags(m)[i]).code == Code::Error(ErrorKind::DuplicateSurfaceBlock) by {
            assert(surface_dup_diags(m)[i] == f(rest[i])[0]);
        }
    }
}

/// The names declared, in order.
pub open spec fn action_keys(names: Seq<(Seq<char>, Span, bool)>) -> Seq<Seq<char>> {
    names.map_values(|n: (Seq<char>, Span, bool)| n.0)
}

proof fn lemma_latest_span_iff(names: Seq<(Seq<char>, Span, bool)>, key: Seq<char>)
    ensures
        latest_span(names, key) is Some <==> action_keys(names).contains(key),
    decreases names.len(),
{
    if names.len() > 0 {
        lemma_latest_span_iff(names.drop_last(), key);
        assert(action_keys(names) =~= action_keys(names.drop_last()).push(names.last().0));
        assert(action_keys(names)[names.len() - 1] == names.last().0);
        if action_keys(names).contains(key) && names.last().0 != key {
            let i = choose|i: int| 0 <= i < action_keys(names).len() && action_keys(names)[i] == key;
            assert(i != names.len() - 1);
            assert(action_keys(names.drop_last())[i] == key);
        }
        if action_keys(names.drop_last()).contains(key) {
            let i = choose|i: int| 0 <= i < action_keys(names.drop_last()).len() && action_keys(names.drop_last())[i] == key;
            assert(action_keys(names)[i] == key);
        }
    }
}

/// Each declaration of an action name after its first gets exactly one
/// `E_DUPLICATE_ACTION_NAME`: there are as many of them as declarations
/// beyond the distinct names.
pub proof fn lemma_duplicate_action_count(names: Seq<(Seq<char>, Span, bool)>, module: Seq<char>)
    ensures
        dup_action_diags(names, module).len() + add_all(Seq::<Seq<char>>::empty(), action_keys(names)).len() == names.len(),
        forall|i: int| 0 <= i < dup_action_diags(names, module).len()
            ==> (#[trigger] dup_action_diags(names, module)[i]).code == Code::Error(ErrorKind::DuplicateActionName),
    decreases names.len(),
{
    if names.len() > 0 {
        let pre = names.drop_last();
        let key = names.last().0;
        lemma_duplicate_action_count(pre, module);
        lemma_latest_span_iff(pre, key);
        lemma_add_all_no_dups(Seq::<Seq<char>>::empty(), action_keys(pre));
        assert(action_keys(names).drop_last() =~= action_keys(pre));
        assert(action_keys(names).last() == key);
        let d = dup_action_diags(names, module);
        assert(d == dup_action_diags(pre, module) + dup_of(pre, names.last(), module));
        assert forall|i: int| 0 <= i < d.len() implies (#[trigger] d[i]).code == Code::Error(ErrorKind::DuplicateActionName) by {
            if i < dup_action_diags(pre, module).len() {
                assert(d[i] == dup_action_diags(pre, module)[i]);
            }
        }
    }
}

/// What module-graph construction reports for a module, counted by
/// code: one `E_DUPLICATE_ACTION_NAME` per action declaration beyond the
/// distinct names, one `E_DUPLICATE_SURFACE_BLOCK` per surface block
/// beyond the first, and nothing else.
pub proof fn lemma_resolve_diagnostic_counts(m: ModuleAggregate)
    ensures
        ({
            let names = module_action_names(m);
            let spans = module_surface_spans(m);
            let dups = names.len() - add_all(Seq::<Seq<char>>::empty(), action_keys(names)).len();
            let extra = if spans.len() > 1 { spans.len() - 1 } else { 0 };
            &&& module_resolve_diags(m).len() == dups + extra
            &&& forall|i: int| 0 <= i < dups
                ==> (#[trigger] module_resolve_diags(m)[i]).code == Code::Error(ErrorKind::DuplicateActionName)
            &&& forall|i: int| dups <= i < dups + extra
                ==> (#[trigger] module_resolve_diags(m)[i]).code == Code::Error(ErrorKind::DuplicateSurfaceBlock)
        }),
{
    let names = module_action_names(m);
    let a = dup_action_diags(names, m.name.spec_dotted());
    let b = surface_dup_diags(m);
    lemma_duplicate_action_count(names, m.name.spec_dotted());
    lemma_one_diagnostic_per_extra_surface(m);
    assert forall|i: int| 0 <= i < a.len() implies (#[trigger] (a + b)[i]) == a[i] by {}
    assert forall|i: int| a.len() <= i < a.len() + b.len() implies (#[trigger] (a + b)[i]) == b[i - a.len()] by {}
}

/// After module-graph construction, the module of every header name
/// `key` used by some file holds the declarations of exactly the files
/// with that header, in file order, and its part of the diagnostics
/// counts as [`lemma_resolve_diagnostic_counts`] says: one
/// `E_DUPLICATE_ACTION_NAME` per action declaration beyond the distinct
/// names of those files' surfaces, one `E_DUPLICATE_SURFACE_BLOCK` per
/// surface block beyond the first, and nothing else.
pub proof fn lemma_build_project_counts_per_header(parsed: Seq<(FileId, ModuleFile)>, project: Project, key: Seq<char>)
    requires
        module_views(project.modules) == ingest_all(Seq::empty(), parsed),
        files_of(parsed, key).len() > 0,
    ensures
        key_index(module_entries(project.modules), key) matches Some(i) && {
            let m = module_entries(project.modules)[i].1;
            let names = module_action_names(m);
            let spans = module_surface_spans(m);
            let dups = names.len() - add_all(Seq::<Seq<char>>::empty(), action_keys(names)).len();
            let extra = if spans.len() > 1 { spans.len() - 1 } else { 0 };
            &&& m.decls@ == decls_of(parsed, key)
            &&& m.name.spec_dotted() == key
            &&& module_resolve_diags(m).len() == dups + extra
            &&& forall|j: int| 0 <= j < dups
                ==> (#[trigger] module_resolve_diags(m)[j]).code == Code::Error(ErrorKind::DuplicateActionName)
            &&& forall|j: int| dups <= j < dups + extra
                ==> (#[trigger] module_resolve_diags(m)[j]).code == Code::Error(ErrorKind::DuplicateSurfaceBlock)
        },
{
    let entries = module_entries(project.modules);
    let views = module_views(project.modules);
    lemma_ingest_collects_files(parsed, key);
    assert forall|j: int| 0 <= j < entries.len() implies entries[j].0 == views[j].0 by {}
    crate::index_map::lemma_key_index_same_keys(entries, views, key);
    let i = key_index(views, key).unwrap();
    lemma_key_index(views, key);
    assert(views[i].1 == entries[i].1@);
    lemma_resolve_diagnostic_counts(entries[i].1);
}

} // verus!
