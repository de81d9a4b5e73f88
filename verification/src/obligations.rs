//! Static-obligation derivation.
//!
//! Rules, per module:
//!
//! - **R-AVAIL-CHANNEL**: a compose channel `from S to T` derives
//!   `availability_depends_on(T)`.
//! - **R-WRITE-CONFLICT**: a `cross_visible` aux variable written by two
//!   or more distinct substrates derives `write_conflict(<aux>)`.
//! - **R-TRUST-PARAM-AUTH**: an action with a trust-bearing
//!   `auth_channel` whose realising substrate authenticates by
//!   `param.<x>` derives `trust_transitive`.
//! - **R-FRESHNESS-CHANNEL**: an action with `freshness: strong` or
//!   `bounded(…)` in a module with a compose channel derives
//!   `freshness_channel`.
//!
//! An obligation is discharged by an `acknowledged { … }` entry in the
//! compose block or in any (partial) substrate of the module:
//! `availability_depends_on` by an entry naming the target,
//! `write_conflict` by one naming the aux or an unscoped one, and
//! `trust_transitive` / `freshness_channel` by any entry of the kind.
//! An undischarged obligation is a warning, or `E_OBLIGATION_UNHANDLED`
//! in strict mode. An acknowledgement of a kind that no rule derived in
//! its module is `W_ACK_NO_RULE`, which strict mode likewise reports as
//! `E_OBLIGATION_UNHANDLED`: in strict mode every diagnostic of the pass
//! is an error.

use vstd::prelude::*;
use crate::codes::{Code, ErrorKind, WarningKind};
use crate::collect::{pairs_view, add_all, set_insert_name, pair_key_index};
use crate::compose::{AcknowledgedArg, AcknowledgedBlock, AcknowledgedEntry, ObligationKind};
use crate::decl::Decl;
use crate::diagnostic::{Diagnostic, DiagnosticView, diags_view, plain, lemma_diags_view_push,
    concat_map, lemma_concat_map_step, lemma_concat_map_empty, lemma_concat_map_pointwise, lemma_pointwise_append, pointwise};
use crate::facts::{Facts, facts_of, triples_view, extract, module_names_wf, module_channels, module_owners,
    module_writers, module_param_auth, module_fresh, first_segment};
use crate::index_map::{module_entries, previous, lemma_key_index};
use crate::project::{Project, ModuleAggregate};
use crate::span::Span;
use crate::surface::{ActionDecl, InternalActionDecl, SurfaceBlock};
use crate::text::{owned, str_eq, names_view};

verus! {

#[derive(Debug)]
pub struct ObligationsOutput {
    pub diagnostics: Vec<Diagnostic>,
}

// ---- acknowledgements ----

/// The name an acknowledgement argument refers to, if any.
pub open spec fn spec_ack_arg_name(a: AcknowledgedArg) -> Option<Seq<char>> {
    match a {
        AcknowledgedArg::Component(qn) => first_segment(qn.segments@),
        AcknowledgedArg::Field(id) => Some(id.name@),
        AcknowledgedArg::Action(id) => Some(id.name@),
        AcknowledgedArg::Other(_) => None,
    }
}

pub open spec fn entry_acks(e: AcknowledgedEntry) -> Seq<(ObligationKind, Seq<char>)> {
    concat_map(e.args@, |a: AcknowledgedArg| match spec_ack_arg_name(a) {
        Some(n) => seq![(e.kind, n)],
        None => Seq::empty(),
    })
}

pub open spec fn block_acks(b: AcknowledgedBlock) -> Seq<(ObligationKind, Seq<char>)> {
    concat_map(b.entries@, |e: AcknowledgedEntry| entry_acks(e))
}

/// The acknowledged block a declaration carries, if any.
pub open spec fn ack_block_of(d: Decl) -> Option<AcknowledgedBlock> {
    match d {
        Decl::Substrate(s) => s.acknowledged,
        Decl::PartialSubstrate(p) => p.block.acknowledged,
        Decl::Compose(c) => c.acknowledged,
        _ => None,
    }
}

pub open spec fn decl_acks(d: Decl) -> Seq<(ObligationKind, Seq<char>)> {
    match ack_block_of(d) {
        Some(b) => block_acks(b),
        None => Seq::empty(),
    }
}

/// Every `(kind, name)` acknowledged in the module.
pub open spec fn module_acks(m: ModuleAggregate) -> Seq<(ObligationKind, Seq<char>)> {
    concat_map(m.decls@, |d: Decl| decl_acks(d))
}

pub open spec fn has_kind(s: Seq<(ObligationKind, Seq<char>)>, k: ObligationKind) -> bool {
    exists|i: int| 0 <= i < s.len() && (#[trigger] s[i]).0 == k
}

pub open spec fn acks_view(v: Seq<(ObligationKind, String)>) -> Seq<(ObligationKind, Seq<char>)> {
    v.map_values(|p: (ObligationKind, String)| (p.0, p.1@))
}

// ---- spans ----

pub open spec fn compose_span(decls: Seq<Decl>, name: Seq<char>) -> Option<Span>
    decreases decls.len(),
{
    if decls.len() == 0 {
        None
    } else {
        let rest = compose_span(decls.subrange(1, decls.len() as int), name);
        match decls[0] {
            Decl::Compose(c) => if c.name.name@ == name { Some(c.span) } else { rest },
            _ => rest,
        }
    }
}

pub open spec fn substrate_span(decls: Seq<Decl>, name: Seq<char>) -> Option<Span>
    decreases decls.len(),
{
    if decls.len() == 0 {
        None
    } else {
        let rest = substrate_span(decls.subrange(1, decls.len() as int), name);
        match decls[0] {
            Decl::Substrate(s) => if s.name.name@ == name { Some(s.span) } else { rest },
            Decl::PartialSubstrate(p) => if p.block.name.name@ == name { Some(p.block.span) } else { rest },
            _ => rest,
        }
    }
}

pub open spec fn first_action_span(actions: Seq<ActionDecl>, name: Seq<char>) -> Option<Span>
    decreases actions.len(),
{
    if actions.len() == 0 {
        None
    } else if actions[0].name.name@ == name {
        Some(actions[0].name.span)
    } else {
        first_action_span(actions.subrange(1, actions.len() as int), name)
    }
}

pub open spec fn first_internal_span(actions: Seq<InternalActionDecl>, name: Seq<char>) -> Option<Span>
    decreases actions.len(),
{
    if actions.len() == 0 {
        None
    } else if actions[0].action.name.name@ == name {
        Some(actions[0].action.name.span)
    } else {
        first_internal_span(actions.subrange(1, actions.len() as int), name)
    }
}

pub open spec fn surface_action_span(s: SurfaceBlock, name: Seq<char>) -> Option<Span> {
    match first_action_span(s.actions@, name) {
        Some(sp) => Some(sp),
        None => first_internal_span(s.internal_actions@, name),
    }
}

pub open spec fn action_span(decls: Seq<Decl>, name: Seq<char>) -> Option<Span>
    decreases decls.len(),
{
    if decls.len() == 0 {
        None
    } else {
        let rest = action_span(decls.subrange(1, decls.len() as int), name);
        match decls[0] {
            Decl::Surface(s) => match surface_action_span(s, name) {
                Some(sp) => Some(sp),
                None => rest,
            },
            _ => rest,
        }
    }
}

pub open spec fn or_synthetic(s: Option<Span>) -> Span {
    match s {
        Some(x) => x,
        None => Span::spec_synthetic(),
    }
}

// ---- messages ----

/// An undischarged obligation: a warning of the rule's kind, or in
/// strict mode `E_OBLIGATION_UNHANDLED`.
pub open spec fn obligation_diag(strict: bool, w: WarningKind, msg: Seq<char>, span: Span, help: Seq<char>) -> DiagnosticView {
    if strict {
        plain(Code::Error(ErrorKind::ObligationUnhandled), msg, span).with_help(help)
    } else {
        plain(Code::Warning(w), msg, span).with_help(help)
    }
}

pub open spec fn avail_message(compose: Seq<char>, to: Seq<char>) -> Seq<char> {
    "compose `"@ + compose + "` channels depend on substrate `"@ + to + "` (R-AVAIL-CHANNEL)"@
}

pub open spec fn avail_help() -> Seq<char> {
    "add `acknowledged { availability_depends_on: [<S>, because: \"...\"] }` to the compose or to either partial substrate"@
}

pub open spec fn write_message(aux: Seq<char>, writers: Seq<char>) -> Seq<char> {
    "cross_visible aux `"@ + aux + "` is written by multiple substrates ("@ + writers + "); R-WRITE-CONFLICT"@
}

pub open spec fn write_help() -> Seq<char> {
    "add `acknowledged { write_conflict: { <aux>: serialized_by(<Component>) because: \"...\" } }` to compose or owning substrate"@
}

pub open spec fn trust_message(action: Seq<char>) -> Seq<char> {
    "action `"@ + action + "` carries trust-bearing auth_channel and uses `param.<x>` for actor identity; R-TRUST-PARAM-AUTH"@
}

pub open spec fn trust_help() -> Seq<char> {
    "add `acknowledged { trust_transitive: [<SigningAuthority> because: \"...\"] }` naming the key-management story (any module-level `trust_transitive` ack discharges this)"@
}

pub open spec fn strong_message(action: Seq<char>) -> Seq<char> {
    "action `"@ + action + "` declares `freshness: strong` but is realised via a compose channel; R-FRESHNESS-CHANNEL"@
}

pub open spec fn strong_help() -> Seq<char> {
    "either weaken `freshness:` to `eventual(<epoch>)`, add a synchronous-ack channel, or `acknowledged { freshness_channel: [...] because: \"...\" }`"@
}

pub open spec fn bounded_message(action: Seq<char>) -> Seq<char> {
    "action `"@ + action + "` declares a bounded freshness epoch but is realised via a compose channel; R-FRESHNESS-CHANNEL"@
}

pub open spec fn bounded_help() -> Seq<char> {
    "either weaken `freshness:` to `eventual(<epoch>)`, widen the `n=` bound, add a synchronous-ack channel, or `acknowledged { freshness_channel: [...] because: \"...\" }`"@
}

pub open spec fn orphan_message(kind: ObligationKind, name: Seq<char>) -> Seq<char> {
    "acknowledged "@ + kind.spec_name() + "(`"@ + name + "`), but no v0.10 rule derives this obligation in this module"@
}

pub open spec fn orphan_help() -> Seq<char> {
    "this acknowledgement is recorded but not mechanically discharged; consider opening a TODO for a future rule, or remove if intentional"@
}

/// Names joined by `, `.
pub open spec fn join_names(s: Seq<Seq<char>>) -> Seq<char>
    decreases s.len(),
{
    if s.len() == 0 {
        Seq::empty()
    } else if s.len() == 1 {
        s[0]
    } else {
        join_names(s.drop_last()) + ", "@ + s.last()
    }
}

// ---- the rules ----

pub open spec fn avail_diags(m: ModuleAggregate, strict: bool) -> Seq<DiagnosticView> {
    concat_map(module_channels(m), |t: (Seq<char>, Seq<char>, Seq<char>)|
        if module_acks(m).contains((ObligationKind::AvailabilityDependsOn, t.2)) {
            Seq::empty()
        } else {
            seq![obligation_diag(strict, WarningKind::AvailabilityClosureWeaker, avail_message(t.0, t.2),
                or_synthetic(compose_span(m.decls@, t.0)), avail_help())]
        })
}

/// The aux names written anywhere, each once, in first-seen order.
pub open spec fn write_auxes(ws: Seq<(Seq<char>, Seq<char>)>) -> Seq<Seq<char>> {
    add_all(Seq::empty(), ws.map_values(|p: (Seq<char>, Seq<char>)| p.1))
}

/// The substrates that write `aux`, in first-seen order.
pub open spec fn writers_of(ws: Seq<(Seq<char>, Seq<char>)>, aux: Seq<char>) -> Seq<Seq<char>> {
    concat_map(ws, |p: (Seq<char>, Seq<char>)| if p.1 == aux { seq![p.0] } else { Seq::empty() })
}

pub open spec fn write_discharged(m: ModuleAggregate, aux: Seq<char>) -> bool {
    module_acks(m).contains((ObligationKind::WriteConflict, aux))
        || module_acks(m).contains((ObligationKind::WriteConflict, Seq::<char>::empty()))
}

pub open spec fn owner_of(m: ModuleAggregate, aux: Seq<char>) -> Seq<char> {
    match previous(module_owners(m), aux) {
        Some(o) => o,
        None => Seq::empty(),
    }
}

pub open spec fn write_diag_of(m: ModuleAggregate, strict: bool, aux: Seq<char>) -> Seq<DiagnosticView> {
    if writers_of(module_writers(m), aux).len() >= 2 && !write_discharged(m, aux) {
        seq![obligation_diag(strict, WarningKind::WriteConflict,
            write_message(aux, join_names(writers_of(module_writers(m), aux))),
            or_synthetic(substrate_span(m.decls@, owner_of(m, aux))), write_help())]
    } else {
        Seq::empty()
    }
}

/// One diagnostic per aux written by two or more substrates, unless an
/// acknowledgement discharges it.
pub open spec fn write_diags(m: ModuleAggregate, strict: bool) -> Seq<DiagnosticView> {
    concat_map(write_auxes(module_writers(m)), |aux: Seq<char>| write_diag_of(m, strict, aux))
}

pub open spec fn trust_diag_of(m: ModuleAggregate, strict: bool, a: Seq<char>) -> Seq<DiagnosticView> {
    if has_kind(module_acks(m), ObligationKind::TrustTransitive) {
        Seq::empty()
    } else {
        seq![obligation_diag(strict, WarningKind::TrustParamAuth, trust_message(a),
            or_synthetic(action_span(m.decls@, a)), trust_help())]
    }
}

pub open spec fn trust_diags(m: ModuleAggregate, strict: bool) -> Seq<DiagnosticView> {
    concat_map(module_param_auth(m), |a: Seq<char>| trust_diag_of(m, strict, a))
}

pub open spec fn fresh_diag_of(m: ModuleAggregate, strict: bool, a: Seq<char>, strong: bool) -> Seq<DiagnosticView> {
    if has_kind(module_acks(m), ObligationKind::FreshnessChannel) {
        Seq::empty()
    } else if strong {
        seq![obligation_diag(strict, WarningKind::FreshnessChannel, strong_message(a),
            or_synthetic(action_span(m.decls@, a)), strong_help())]
    } else {
        seq![obligation_diag(strict, WarningKind::FreshnessChannel, bounded_message(a),
            or_synthetic(action_span(m.decls@, a)), bounded_help())]
    }
}

pub open spec fn fresh_diags(m: ModuleAggregate, strict: bool) -> Seq<DiagnosticView> {
    concat_map(module_fresh(m, true), |a: Seq<char>| fresh_diag_of(m, strict, a, true))
        + concat_map(module_fresh(m, false), |a: Seq<char>| fresh_diag_of(m, strict, a, false))
}

pub open spec fn derived_avail(m: ModuleAggregate) -> Seq<(ObligationKind, Seq<char>)> {
    concat_map(module_channels(m), |t: (Seq<char>, Seq<char>, Seq<char>)| seq![(ObligationKind::AvailabilityDependsOn, t.2)])
}

pub open spec fn derived_write(m: ModuleAggregate) -> Seq<(ObligationKind, Seq<char>)> {
    concat_map(write_auxes(module_writers(m)), |aux: Seq<char>|
        if writers_of(module_writers(m), aux).len() >= 2 { seq![(ObligationKind::WriteConflict, aux)] } else { Seq::empty() })
}

pub open spec fn derived_names(names: Seq<Seq<char>>, k: ObligationKind) -> Seq<(ObligationKind, Seq<char>)> {
    concat_map(names, |a: Seq<char>| seq![(k, a)])
}

/// The obligations the module derives, in derivation order.
pub open spec fn module_derived(m: ModuleAggregate) -> Seq<(ObligationKind, Seq<char>)> {
    derived_avail(m) + derived_write(m)
        + derived_names(module_param_auth(m), ObligationKind::TrustTransitive)
        + derived_names(module_fresh(m, true), ObligationKind::FreshnessChannel)
        + derived_names(module_fresh(m, false), ObligationKind::FreshnessChannel)
}

pub open spec fn orphan_entry_diags(e: AcknowledgedEntry, derived: Seq<(ObligationKind, Seq<char>)>, strict: bool) -> Seq<DiagnosticView> {
    if has_kind(derived, e.kind) {
        Seq::empty()
    } else {
        concat_map(e.args@, |a: AcknowledgedArg| match spec_ack_arg_name(a) {
            Some(n) => seq![obligation_diag(strict, WarningKind::AckNoRule, orphan_message(e.kind, n), e.span, orphan_help())],
            None => Seq::empty(),
        })
    }
}

pub open spec fn orphan_block_diags(b: AcknowledgedBlock, derived: Seq<(ObligationKind, Seq<char>)>, strict: bool) -> Seq<DiagnosticView> {
    concat_map(b.entries@, |e: AcknowledgedEntry| orphan_entry_diags(e, derived, strict))
}

pub open spec fn orphan_diags(m: ModuleAggregate, strict: bool) -> Seq<DiagnosticView> {
    concat_map(m.decls@, |d: Decl| match ack_block_of(d) {
        Some(b) => orphan_block_diags(b, module_derived(m), strict),
        None => Seq::empty(),
    })
}

/// Everything the pass reports for one module, rule by rule, then the
/// orphan acknowledgements.
pub open spec fn module_obligation_diags(m: ModuleAggregate, strict: bool) -> Seq<DiagnosticView> {
    avail_diags(m, strict) + write_diags(m, strict) + trust_diags(m, strict) + fresh_diags(m, strict) + orphan_diags(m, strict)
}

pub open spec fn obligation_diags(mods: Seq<ModuleAggregate>, strict: bool) -> Seq<DiagnosticView> {
    concat_map(mods, |m: ModuleAggregate| module_obligation_diags(m, strict))
}

/// A param-auth action of a module that no `trust_transitive`
/// acknowledgement discharges is reported by the pass: a
/// `W_TRUST_PARAM_AUTH` naming it, or in strict mode
/// `E_OBLIGATION_UNHANDLED`.
pub proof fn lemma_param_auth_action_is_reported(m: ModuleAggregate, strict: bool, a: Seq<char>)
    requires
        crate::facts::module_param_auth(m).contains(a),
        !has_kind(module_acks(m), ObligationKind::TrustTransitive),
    ensures
        exists|d: DiagnosticView| #[trigger] module_obligation_diags(m, strict).contains(d)
            && d.code == (if strict { Code::Error(ErrorKind::ObligationUnhandled) } else { Code::Warning(WarningKind::TrustParamAuth) })
            && d.message == "action `"@ + a + "` carries trust-bearing auth_channel and uses `param.<x>` for actor identity; R-TRUST-PARAM-AUTH"@,
{
    let pa = crate::facts::module_param_auth(m);
    let k = choose|k: int| 0 <= k < pa.len() && pa[k] == a;
    let f = |x: Seq<char>| trust_diag_of(m, strict, x);
    let d = trust_diag_of(m, strict, a)[0];
    assert(f(pa[k]).contains(d)) by {
        assert(f(pa[k])[0] == d);
    }
    crate::diagnostic::lemma_concat_map_contains(pa, f, k, d);
    let t = trust_diags(m, strict);
    let before = avail_diags(m, strict) + write_diags(m, strict);
    let all = module_obligation_diags(m, strict);
    assert(all == before + t + fresh_diags(m, strict) + orphan_diags(m, strict));
    let q = choose|q: int| 0 <= q < t.len() && t[q] == d;
    assert(all[before.len() + q] == d);
    assert(all.contains(d));
    assert(d.message == trust_message(a));
}

// ---- exec ----

/// The name an acknowledgement argument refers to.
fn ack_arg_name(arg: &AcknowledgedArg) -> (r: Option<String>)
    ensures
        r matches Some(s) ==> spec_ack_arg_name(*arg) == Some(s@),
        r is None ==> spec_ack_arg_name(*arg) is None,
{
    match arg {
        AcknowledgedArg::Component(qn) => {
            if qn.segments.len() > 0 {
                Some(qn.segments[0].name.clone())
            } else {
                None
            }
        },
        AcknowledgedArg::Field(id) => Some(id.name.clone()),
        AcknowledgedArg::Action(id) => Some(id.name.clone()),
        AcknowledgedArg::Other(_) => None,
    }
}

/// Record every `(kind, name)` of an acknowledged block.
fn collect_acks(block: &AcknowledgedBlock, out: &mut Vec<(ObligationKind, String)>)
    ensures
        acks_view(final(out)@) == acks_view(old(out)@) + block_acks(*block),
{
    let ghost fe = |e: AcknowledgedEntry| entry_acks(e);
    let ghost h = acks_view(out@);
    let mut i: usize = 0;
    proof {
        assert(block.entries@.subrange(0, 0) =~= Seq::<AcknowledgedEntry>::empty());
        assert(h + concat_map(Seq::<AcknowledgedEntry>::empty(), fe) =~= h);
    }
    while i < block.entries.len()
        invariant
            i <= block.entries@.len(),
            fe == (|e: AcknowledgedEntry| entry_acks(e)),
            acks_view(out@) == h + concat_map(block.entries@.subrange(0, i as int), fe),
        decreases block.entries@.len() - i,
    {
        proof {
            lemma_concat_map_step(block.entries@, i as int, fe);
        }
        let entry = &block.entries[i];
        let ghost fa = |a: AcknowledgedArg| match spec_ack_arg_name(a) {
            Some(n) => seq![(entry.kind, n)],
            None => Seq::empty(),
        };
        let ghost h2 = acks_view(out@);
        let mut j: usize = 0;
        proof {
            assert(entry.args@.subrange(0, 0) =~= Seq::<AcknowledgedArg>::empty());
            assert(h2 + concat_map(Seq::<AcknowledgedArg>::empty(), fa) =~= h2);
        }
        while j < entry.args.len()
            invariant
                j <= entry.args@.len(),
                fa == (|a: AcknowledgedArg| match spec_ack_arg_name(a) {
                    Some(n) => seq![(entry.kind, n)],
                    None => Seq::empty(),
                }),
                acks_view(out@) == h2 + concat_map(entry.args@.subrange(0, j as int), fa),
            decreases entry.args@.len() - j,
        {
            proof {
                lemma_concat_map_step(entry.args@, j as int, fa);
            }
            let ghost before = acks_view(out@);
            match ack_arg_name(&entry.args[j]) {
                Some(name) => {
                    let ghost n = name@;
                    out.push((entry.kind, name));
                    proof {
                        assert(acks_view(out@) =~= before + seq![(entry.kind, n)]);
                    }
                },
                None => {
                    proof {
                        assert(before + Seq::<(ObligationKind, Seq<char>)>::empty() =~= before);
                    }
                },
            }
            j += 1;
        }
        proof {
            assert(entry.args@.subrange(0, j as int) =~= entry.args@);
        }
        i += 1;
    }
    proof {
        assert(block.entries@.subrange(0, i as int) =~= block.entries@);
    }
}

fn ack_block<'a>(d: &'a Decl) -> (r: Option<&'a AcknowledgedBlock>)
    ensures
        r matches Some(b) ==> ack_block_of(*d) == Some(*b),
        r is None ==> ack_block_of(*d) is None,
{
    match d {
        Decl::Substrate(s) => match &s.acknowledged {
            Some(a) => Some(a),
            None => None,
        },
        Decl::PartialSubstrate(p) => match &p.block.acknowledged {
            Some(a) => Some(a),
            None => None,
        },
        Decl::Compose(c) => match &c.acknowledged {
            Some(a) => Some(a),
            None => None,
        },
        _ => None,
    }
}

fn collect_module_acks(module: &ModuleAggregate) -> (r: Vec<(ObligationKind, String)>)
    ensures
        acks_view(r@) == module_acks(*module),
{
    let ghost f = |d: Decl| decl_acks(d);
    let mut out: Vec<(ObligationKind, String)> = Vec::new();
    let mut i: usize = 0;
    proof {
        assert(module.decls@.subrange(0, 0) =~= Seq::<Decl>::empty());
        assert(acks_view(out@) =~= Seq::<(ObligationKind, Seq<char>)>::empty());
    }
    while i < module.decls.len()
        invariant
            i <= module.decls@.len(),
            f == (|d: Decl| decl_acks(d)),
            acks_view(out@) == concat_map(module.decls@.subrange(0, i as int), f),
        decreases module.decls@.len() - i,
    {
        proof {
            lemma_concat_map_step(module.decls@, i as int, f);
        }
        match ack_block(&module.decls[i]) {
            Some(a) => collect_acks(a, &mut out),
            None => {
                proof {
                    assert(acks_view(out@) + Seq::<(ObligationKind, Seq<char>)>::empty() =~= acks_view(out@));
                }
            },
        }
        i += 1;
    }
    proof {
        assert(module.decls@.subrange(0, i as int) =~= module.decls@);
    }
    out
}

fn acks_contain(acks: &Vec<(ObligationKind, String)>, kind: ObligationKind, name: &str) -> (r: bool)
    ensures
        r == acks_view(acks@).contains((kind, name@)),
{
    let mut i: usize = 0;
    while i < acks.len()
        invariant
            i <= acks@.len(),
            forall|j: int| 0 <= j < i ==> acks_view(acks@)[j] != (kind, name@),
        decreases acks@.len() - i,
    {
        if acks[i].0 == kind && str_eq(acks[i].1.as_str(), name) {
            proof {
                assert(acks_view(acks@)[i as int] == (kind, name@));
            }
            return true;
        }
        i += 1;
    }
    false
}

fn acks_have_kind(acks: &Vec<(ObligationKind, String)>, kind: ObligationKind) -> (r: bool)
    ensures
        r == has_kind(acks_view(acks@), kind),
{
    let mut i: usize = 0;
    while i < acks.len()
        invariant
            i <= acks@.len(),
            forall|j: int| 0 <= j < i ==> (#[trigger] acks_view(acks@)[j]).0 != kind,
        decreases acks@.len() - i,
    {
        if acks[i].0 == kind {
            proof {
                assert(acks_view(acks@)[i as int].0 == kind);
            }
            return true;
        }
        i += 1;
    }
    false
}

fn make_diag(strict: bool, medium_warning: WarningKind, msg: &str, span: Span, help: &str) -> (r: Diagnostic)
    ensures
        r@ == obligation_diag(strict, medium_warning, msg@, span, help@),
{
    if strict {
        Diagnostic::error(ErrorKind::ObligationUnhandled, msg, span).with_help(help)
    } else {
        Diagnostic::warning(medium_warning, msg, span).with_help(help)
    }
}

fn compose_span_in(module: &ModuleAggregate, compose_name: &str) -> (r: Option<Span>)
    ensures
        r == compose_span(module.decls@, compose_name@),
{
    let mut i: usize = 0;
    proof {
        assert(module.decls@.subrange(0, module.decls@.len() as int) =~= module.decls@);
    }
    while i < module.decls.len()
        invariant
            i <= module.decls@.len(),
            compose_span(module.decls@, compose_name@)
                == compose_span(module.decls@.subrange(i as int, module.decls@.len() as int), compose_name@),
        decreases module.decls@.len() - i,
    {
        proof {
            let rest = module.decls@.subrange(i as int, module.decls@.len() as int);
            assert(rest[0] == module.decls@[i as int]);
            assert(rest.subrange(1, rest.len() as int) =~= module.decls@.subrange(i + 1, module.decls@.len() as int));
        }
        match &module.decls[i] {
            Decl::Compose(c) => {
                if str_eq(c.name.name.as_str(), compose_name) {
                    return Some(c.span);
                }
            },
            _ => {},
        }
        i += 1;
    }
    None
}

fn substrate_span_in(module: &ModuleAggregate, name: &str) -> (r: Option<Span>)
    ensures
        r == substrate_span(module.decls@, name@),
{
    let mut i: usize = 0;
    proof {
        assert(module.decls@.subrange(0, module.decls@.len() as int) =~= module.decls@);
    }
    while i < module.decls.len()
        invariant
            i <= module.decls@.len(),
            substrate_span(module.decls@, name@)
                == substrate_span(module.decls@.subrange(i as int, module.decls@.len() as int), name@),
        decreases module.decls@.len() - i,
    {
        proof {
            let rest = module.decls@.subrange(i as int, module.decls@.len() as int);
            assert(rest[0] == module.decls@[i as int]);
            assert(rest.subrange(1, rest.len() as int) =~= module.decls@.subrange(i + 1, module.decls@.len() as int));
        }
        match &module.decls[i] {
            Decl::Substrate(s) => {
                if str_eq(s.name.name.as_str(), name) {
                    return Some(s.span);
                }
            },
            Decl::PartialSubstrate(p) => {
                if str_eq(p.block.name.name.as_str(), name) {
                    return Some(p.block.span);
                }
            },
            _ => {},
        }
        i += 1;
    }
    None
}

fn surface_span_of(s: &SurfaceBlock, action_name: &str) -> (r: Option<Span>)
    ensures
        r == surface_action_span(*s, action_name@),
{
    let mut i: usize = 0;
    proof {
        assert(s.actions@.subrange(0, s.actions@.len() as int) =~= s.actions@);
    }
    while i < s.actions.len()
        invariant
            i <= s.actions@.len(),
            first_action_span(s.actions@, action_name@)
                == first_action_span(s.actions@.subrange(i as int, s.actions@.len() as int), action_name@),
        decreases s.actions@.len() - i,
    {
        proof {
            let rest = s.actions@.subrange(i as int, s.actions@.len() as int);
            assert(rest[0] == s.actions@[i as int]);
            assert(rest.subrange(1, rest.len() as int) =~= s.actions@.subrange(i + 1, s.actions@.len() as int));
        }
        if str_eq(s.actions[i].name.name.as_str(), action_name) {
            return Some(s.actions[i].name.span);
        }
        i += 1;
    }
    let mut i: usize = 0;
    proof {
        assert(s.internal_actions@.subrange(0, s.internal_actions@.len() as int) =~= s.internal_actions@);
    }
    while i < s.internal_actions.len()
        invariant
            i <= s.internal_actions@.len(),
            first_action_span(s.actions@, action_name@) is None,
            first_internal_span(s.internal_actions@, action_name@)
                == first_internal_span(s.internal_actions@.subrange(i as int, s.internal_actions@.len() as int), action_name@),
        decreases s.internal_actions@.len() - i,
    {
        proof {
            let rest = s.internal_actions@.subrange(i as int, s.internal_actions@.len() as int);
            assert(rest[0] == s.internal_actions@[i as int]);
            assert(rest.subrange(1, rest.len() as int)
                =~= s.internal_actions@.subrange(i + 1, s.internal_actions@.len() as int));
        }
        if str_eq(s.internal_actions[i].action.name.name.as_str(), action_name) {
            return Some(s.internal_actions[i].action.name.span);
        }
        i += 1;
    }
    None
}

fn action_span_in(module: &ModuleAggregate, action_name: &str) -> (r: Option<Span>)
    ensures
        r == action_span(module.decls@, action_name@),
{
    let mut i: usize = 0;
    proof {
        assert(module.decls@.subrange(0, module.decls@.len() as int) =~= module.decls@);
    }
    while i < module.decls.len()
        invariant
            i <= module.decls@.len(),
            action_span(module.decls@, action_name@)
                == action_span(module.decls@.subrange(i as int, module.decls@.len() as int), action_name@),
        decreases module.decls@.len() - i,
    {
        proof {
            let rest = module.decls@.subrange(i as int, module.decls@.len() as int);
            assert(rest[0] == module.decls@[i as int]);
            assert(rest.subrange(1, rest.len() as int) =~= module.decls@.subrange(i + 1, module.decls@.len() as int));
        }
        match &module.decls[i] {
            Decl::Surface(s) => {
                match surface_span_of(s, action_name) {
                    Some(sp) => {
                        return Some(sp);
                    },
                    None => {},
                }
            },
            _ => {},
        }
        i += 1;
    }
    None
}

fn span_or_synthetic(s: Option<Span>) -> (r: Span)
    ensures
        r == or_synthetic(s),
{
    match s {
        Some(x) => x,
        None => Span::synthetic(),
    }
}

/// Names joined by `, `.
fn join(names: &Vec<String>) -> (r: String)
    ensures
        r@ == join_names(names_view(names@)),
{
    let mut out = String::new();
    let mut i: usize = 0;
    proof {
        assert(names_view(names@).subrange(0, 0) =~= Seq::<Seq<char>>::empty());
    }
    while i < names.len()
        invariant
            i <= names@.len(),
            out@ == join_names(names_view(names@).subrange(0, i as int)),
        decreases names@.len() - i,
    {
        let ghost prev = names_view(names@).subrange(0, i as int);
        if i > 0 {
            out.append(", ");
        }
        out.append(names[i].as_str());
        proof {
            let next = names_view(names@).subrange(0, i + 1);
            assert(next.drop_last() =~= prev);
            if i == 0 {
                assert(next.len() == 1);
            }
        }
        i += 1;
    }
    proof {
        assert(names_view(names@).subrange(0, i as int) =~= names_view(names@));
    }
    out
}

fn push_diag(out: &mut Vec<Diagnostic>, d: Diagnostic)
    ensures
        diags_view(final(out)@) == diags_view(old(out)@) + seq![d@],
{
    proof {
        lemma_diags_view_push(out@, d);
        assert(diags_view(out@).push(d@) =~= diags_view(out@) + seq![d@]);
    }
    out.push(d);
}

fn same_diags(out: &Vec<Diagnostic>)
    ensures
        diags_view(out@) + Seq::<DiagnosticView>::empty() == diags_view(out@),
{
    proof {
        assert(diags_view(out@) + Seq::<DiagnosticView>::empty() =~= diags_view(out@));
    }
}

/// Report every acknowledgement of a kind that no rule derived.
fn report_orphan_acks(block: &AcknowledgedBlock, derived: &Vec<(ObligationKind, String)>, strict: bool, out: &mut Vec<Diagnostic>)
    ensures
        diags_view(final(out)@) == diags_view(old(out)@) + orphan_block_diags(*block, acks_view(derived@), strict),
{
    let ghost dv = acks_view(derived@);
    let ghost fe = |e: AcknowledgedEntry| orphan_entry_diags(e, dv, strict);
    let ghost h = diags_view(out@);
    let mut i: usize = 0;
    proof {
        assert(block.entries@.subrange(0, 0) =~= Seq::<AcknowledgedEntry>::empty());
        assert(h + concat_map(Seq::<AcknowledgedEntry>::empty(), fe) =~= h);
    }
    while i < block.entries.len()
        invariant
            i <= block.entries@.len(),
            dv == acks_view(derived@),
            fe == (|e: AcknowledgedEntry| orphan_entry_diags(e, dv, strict)),
            diags_view(out@) == h + concat_map(block.entries@.subrange(0, i as int), fe),
        decreases block.entries@.len() - i,
    {
        proof {
            lemma_concat_map_step(block.entries@, i as int, fe);
        }
        let entry = &block.entries[i];
        if acks_have_kind(derived, entry.kind) {
            same_diags(out);
        } else {
            let ghost fa = |a: AcknowledgedArg| match spec_ack_arg_name(a) {
                Some(n) => seq![obligation_diag(strict, WarningKind::AckNoRule, orphan_message(entry.kind, n), entry.span, orphan_help())],
                None => Seq::empty(),
            };
            let ghost h2 = diags_view(out@);
            let mut j: usize = 0;
            proof {
                assert(entry.args@.subrange(0, 0) =~= Seq::<AcknowledgedArg>::empty());
                assert(h2 + concat_map(Seq::<AcknowledgedArg>::empty(), fa) =~= h2);
            }
            while j < entry.args.len()
                invariant
                    j <= entry.args@.len(),
                    fa == (|a: AcknowledgedArg| match spec_ack_arg_name(a) {
                        Some(n) => seq![obligation_diag(strict, WarningKind::AckNoRule, orphan_message(entry.kind, n), entry.span, orphan_help())],
                        None => Seq::empty(),
                    }),
                    diags_view(out@) == h2 + concat_map(entry.args@.subrange(0, j as int), fa),
                decreases entry.args@.len() - j,
            {
                proof {
                    lemma_concat_map_step(entry.args@, j as int, fa);
                }
                match ack_arg_name(&entry.args[j]) {
                    Some(name) => {
                        let mut m = owned("acknowledged ");
                        m.append(entry.kind.name());
                        m.append("(`");
                        m.append(name.as_str());
                        m.append("`), but no v0.10 rule derives this obligation in this module");
                        let d = make_diag(strict, WarningKind::AckNoRule, m.as_str(), entry.span,
                            "this acknowledgement is recorded but not mechanically discharged; consider opening a TODO for a future rule, or remove if intentional");
                        push_diag(out, d);
                    },
                    None => same_diags(out),
                }
                j += 1;
            }
            proof {
                assert(entry.args@.subrange(0, j as int) =~= entry.args@);
            }
        }
        i += 1;
    }
    proof {
        assert(block.entries@.subrange(0, i as int) =~= block.entries@);
    }
}

/// R-AVAIL-CHANNEL.
fn rule_avail(module: &ModuleAggregate, facts: &Facts, acked: &Vec<(ObligationKind, String)>, strict: bool,
    derived: &mut Vec<(ObligationKind, String)>, out: &mut Vec<Diagnostic>)
    requires
        facts_of(*facts, *module),
        acks_view(acked@) == module_acks(*module),
    ensures
        acks_view(final(derived)@) == acks_view(old(derived)@) + derived_avail(*module),
        diags_view(final(out)@) == diags_view(old(out)@) + avail_diags(*module, strict),
{
    let ghost chans = module_channels(*module);
    let ghost fd = |t: (Seq<char>, Seq<char>, Seq<char>)| seq![(ObligationKind::AvailabilityDependsOn, t.2)];
    let ghost fo = |t: (Seq<char>, Seq<char>, Seq<char>)|
        if module_acks(*module).contains((ObligationKind::AvailabilityDependsOn, t.2)) {
            Seq::empty()
        } else {
            seq![obligation_diag(strict, WarningKind::AvailabilityClosureWeaker, avail_message(t.0, t.2),
                or_synthetic(compose_span(module.decls@, t.0)), avail_help())]
        };
    let ghost hd = acks_view(derived@);
    let ghost ho = diags_view(out@);
    let mut i: usize = 0;
    proof {
        assert(chans.subrange(0, 0) =~= Seq::<(Seq<char>, Seq<char>, Seq<char>)>::empty());
        assert(hd + concat_map(Seq::<(Seq<char>, Seq<char>, Seq<char>)>::empty(), fd) =~= hd);
        assert(ho + concat_map(Seq::<(Seq<char>, Seq<char>, Seq<char>)>::empty(), fo) =~= ho);
    }
    while i < facts.channels.len()
        invariant
            i <= facts.channels@.len(),
            chans == triples_view(facts.channels@),
            acks_view(acked@) == module_acks(*module),
            fd == (|t: (Seq<char>, Seq<char>, Seq<char>)| seq![(ObligationKind::AvailabilityDependsOn, t.2)]),
            fo == (|t: (Seq<char>, Seq<char>, Seq<char>)|
                if module_acks(*module).contains((ObligationKind::AvailabilityDependsOn, t.2)) {
                    Seq::empty()
                } else {
                    seq![obligation_diag(strict, WarningKind::AvailabilityClosureWeaker, avail_message(t.0, t.2),
                        or_synthetic(compose_span(module.decls@, t.0)), avail_help())]
                }),
            acks_view(derived@) == hd + concat_map(chans.subrange(0, i as int), fd),
            diags_view(out@) == ho + concat_map(chans.subrange(0, i as int), fo),
        decreases facts.channels@.len() - i,
    {
        proof {
            lemma_concat_map_step(chans, i as int, fd);
            lemma_concat_map_step(chans, i as int, fo);
        }
        let (compose_name, _from, to) = &facts.channels[i];
        let ghost t = chans[i as int];
        proof {
            assert(t == (compose_name@, _from@, to@));
        }
        let ghost dbefore = acks_view(derived@);
        derived.push((ObligationKind::AvailabilityDependsOn, to.clone()));
        proof {
            assert(acks_view(derived@) =~= dbefore + fd(t));
        }
        if !acks_contain(acked, ObligationKind::AvailabilityDependsOn, to.as_str()) {
            let span = span_or_synthetic(compose_span_in(module, compose_name.as_str()));
            let mut m = owned("compose `");
            m.append(compose_name.as_str());
            m.append("` channels depend on substrate `");
            m.append(to.as_str());
            m.append("` (R-AVAIL-CHANNEL)");
            let d = make_diag(strict, WarningKind::AvailabilityClosureWeaker, m.as_str(), span,
                "add `acknowledged { availability_depends_on: [<S>, because: \"...\"] }` to the compose or to either partial substrate");
            push_diag(out, d);
        } else {
            same_diags(out);
        }
        i += 1;
    }
    proof {
        assert(chans.subrange(0, i as int) =~= chans);
    }
}

/// The distinct aux names of the writers, in first-seen order.
fn writer_auxes(writers: &Vec<(String, String)>) -> (r: Vec<String>)
    ensures
        names_view(r@) == write_auxes(pairs_view(writers@)),
{
    let ghost ws = pairs_view(writers@);
    let ghost f = |p: (Seq<char>, Seq<char>)| p.1;
    let mut out: Vec<String> = Vec::new();
    let mut i: usize = 0;
    proof {
        assert(ws.subrange(0, 0).map_values(f) =~= Seq::<Seq<char>>::empty());
        assert(names_view(out@) =~= Seq::<Seq<char>>::empty());
    }
    while i < writers.len()
        invariant
            i <= writers@.len(),
            ws == pairs_view(writers@),
            f == (|p: (Seq<char>, Seq<char>)| p.1),
            names_view(out@) == add_all(Seq::empty(), ws.subrange(0, i as int).map_values(f)),
        decreases writers@.len() - i,
    {
        let ghost pre = ws.subrange(0, i as int).map_values(f);
        let ghost next = ws.subrange(0, i + 1).map_values(f);
        proof {
            assert(next =~= pre.push(writers@[i as int].1@));
            assert(next.drop_last() =~= pre);
        }
        set_insert_name(&mut out, writers[i].1.clone());
        i += 1;
    }
    proof {
        assert(ws.subrange(0, i as int) =~= ws);
    }
    out
}

/// The substrates that write `aux`, in first-seen order.
fn writers_for(writers: &Vec<(String, String)>, aux: &str) -> (r: Vec<String>)
    ensures
        names_view(r@) == writers_of(pairs_view(writers@), aux@),
{
    let ghost ws = pairs_view(writers@);
    let ghost f = |p: (Seq<char>, Seq<char>)| if p.1 == aux@ { seq![p.0] } else { Seq::empty() };
    let mut out: Vec<String> = Vec::new();
    let mut i: usize = 0;
    proof {
        assert(ws.subrange(0, 0) =~= Seq::<(Seq<char>, Seq<char>)>::empty());
        assert(names_view(out@) =~= Seq::<Seq<char>>::empty());
    }
    while i < writers.len()
        invariant
            i <= writers@.len(),
            ws == pairs_view(writers@),
            f == (|p: (Seq<char>, Seq<char>)| if p.1 == aux@ { seq![p.0] } else { Seq::empty() }),
            names_view(out@) == concat_map(ws.subrange(0, i as int), f),
        decreases writers@.len() - i,
    {
        proof {
            lemma_concat_map_step(ws, i as int, f);
        }
        let ghost before = names_view(out@);
        if str_eq(writers[i].1.as_str(), aux) {
            out.push(writers[i].0.clone());
            proof {
                assert(names_view(out@) =~= before + f(ws[i as int]));
            }
        } else {
            proof {
                assert(before + f(ws[i as int]) =~= before);
            }
        }
        i += 1;
    }
    proof {
        assert(ws.subrange(0, i as int) =~= ws);
    }
    out
}

/// R-WRITE-CONFLICT.
fn rule_write_conflict(module: &ModuleAggregate, facts: &Facts, acked: &Vec<(ObligationKind, String)>, strict: bool,
    derived: &mut Vec<(ObligationKind, String)>, out: &mut Vec<Diagnostic>)
    requires
        facts_of(*facts, *module),
        acks_view(acked@) == module_acks(*module),
    ensures
        acks_view(final(derived)@) == acks_view(old(derived)@) + derived_write(*module),
        diags_view(final(out)@) == diags_view(old(out)@) + write_diags(*module, strict),
{
    let ghost ws = module_writers(*module);
    let auxes = writer_auxes(&facts.cross_visible_writers);
    let ghost av = names_view(auxes@);
    let ghost fd = |aux: Seq<char>|
        if writers_of(ws, aux).len() >= 2 { seq![(ObligationKind::WriteConflict, aux)] } else { Seq::empty() };
    let ghost fo = |aux: Seq<char>| write_diag_of(*module, strict, aux);
    let ghost hd = acks_view(derived@);
    let ghost ho = diags_view(out@);
    proof {
        reveal_strlit("");
        assert(""@ =~= Seq::<char>::empty());
    }
    let mut k: usize = 0;
    proof {
        assert(av.subrange(0, 0) =~= Seq::<Seq<char>>::empty());
        assert(hd + concat_map(Seq::<Seq<char>>::empty(), fd) =~= hd);
        assert(ho + concat_map(Seq::<Seq<char>>::empty(), fo) =~= ho);
    }
    while k < auxes.len()
        invariant
            k <= auxes@.len(),
            av == names_view(auxes@),
            ws == pairs_view(facts.cross_visible_writers@),
            facts_of(*facts, *module),
            ""@ == Seq::<char>::empty(),
            acks_view(acked@) == module_acks(*module),
            fd == (|aux: Seq<char>|
                if writers_of(ws, aux).len() >= 2 { seq![(ObligationKind::WriteConflict, aux)] } else { Seq::empty() }),
            fo == (|aux: Seq<char>| write_diag_of(*module, strict, aux)),
            acks_view(derived@) == hd + concat_map(av.subrange(0, k as int), fd),
            diags_view(out@) == ho + concat_map(av.subrange(0, k as int), fo),
        decreases auxes@.len() - k,
    {
        proof {
            lemma_concat_map_step(av, k as int, fd);
            lemma_concat_map_step(av, k as int, fo);
        }
        let aux = &auxes[k];
        let subs = writers_for(&facts.cross_visible_writers, aux.as_str());
        let ghost dbefore = acks_view(derived@);
        if subs.len() >= 2 {
            derived.push((ObligationKind::WriteConflict, aux.clone()));
            proof {
                assert(acks_view(derived@) =~= dbefore + fd(aux@));
            }
            let discharged = acks_contain(acked, ObligationKind::WriteConflict, aux.as_str())
                || acks_contain(acked, ObligationKind::WriteConflict, "");
            if !discharged {
                proof {
                    lemma_key_index(module_owners(*module), aux@);
                }
                let owner: String = match pair_key_index(&facts.cross_visible_owners, aux.as_str()) {
                    Some(oi) => facts.cross_visible_owners[oi].1.clone(),
                    None => String::new(),
                };
                proof {
                    assert(owner@ == owner_of(*module, aux@));
                }
                let span = span_or_synthetic(substrate_span_in(module, owner.as_str()));
                let mut m = owned("cross_visible aux `");
                m.append(aux.as_str());
                m.append("` is written by multiple substrates (");
                let joined = join(&subs);
                m.append(joined.as_str());
                m.append("); R-WRITE-CONFLICT");
                let d = make_diag(strict, WarningKind::WriteConflict, m.as_str(), span,
                    "add `acknowledged { write_conflict: { <aux>: serialized_by(<Component>) because: \"...\" } }` to compose or owning substrate");
                push_diag(out, d);
            } else {
                same_diags(out);
            }
        } else {
            proof {
                assert(dbefore + fd(aux@) =~= dbefore);
            }
            same_diags(out);
        }
        k += 1;
    }
    proof {
        assert(av.subrange(0, k as int) =~= av);
    }
}

/// R-TRUST-PARAM-AUTH: any `trust_transitive` acknowledgement of the
/// module discharges it.
fn rule_trust(module: &ModuleAggregate, facts: &Facts, acked: &Vec<(ObligationKind, String)>, strict: bool,
    derived: &mut Vec<(ObligationKind, String)>, out: &mut Vec<Diagnostic>)
    requires
        facts_of(*facts, *module),
        acks_view(acked@) == module_acks(*module),
    ensures
        acks_view(final(derived)@) == acks_view(old(derived)@)
            + derived_names(module_param_auth(*module), ObligationKind::TrustTransitive),
        diags_view(final(out)@) == diags_view(old(out)@) + trust_diags(*module, strict),
{
    let any_trust = acks_have_kind(acked, ObligationKind::TrustTransitive);
    let ghost pa = module_param_auth(*module);
    let ghost fd = |a: Seq<char>| seq![(ObligationKind::TrustTransitive, a)];
    let ghost fo = |a: Seq<char>| trust_diag_of(*module, strict, a);
    let ghost hd = acks_view(derived@);
    let ghost ho = diags_view(out@);
    let mut i: usize = 0;
    proof {
        assert(pa.subrange(0, 0) =~= Seq::<Seq<char>>::empty());
        assert(hd + concat_map(Seq::<Seq<char>>::empty(), fd) =~= hd);
        assert(ho + concat_map(Seq::<Seq<char>>::empty(), fo) =~= ho);
    }
    while i < facts.param_auth_actions.len()
        invariant
            i <= facts.param_auth_actions@.len(),
            pa == names_view(facts.param_auth_actions@),
            any_trust == has_kind(module_acks(*module), ObligationKind::TrustTransitive),
            fd == (|a: Seq<char>| seq![(ObligationKind::TrustTransitive, a)]),
            fo == (|a: Seq<char>| trust_diag_of(*module, strict, a)),
            acks_view(derived@) == hd + concat_map(pa.subrange(0, i as int), fd),
            diags_view(out@) == ho + concat_map(pa.subrange(0, i as int), fo),
        decreases facts.param_auth_actions@.len() - i,
    {
        proof {
            lemma_concat_map_step(pa, i as int, fd);
            lemma_concat_map_step(pa, i as int, fo);
        }
        let action = &facts.param_auth_actions[i];
        let ghost dbefore = acks_view(derived@);
        derived.push((ObligationKind::TrustTransitive, action.clone()));
        proof {
            assert(acks_view(derived@) =~= dbefore + fd(action@));
        }
        if !any_trust {
            let span = span_or_synthetic(action_span_in(module, action.as_str()));
            let mut m = owned("action `");
            m.append(action.as_str());
            m.append("` carries trust-bearing auth_channel and uses `param.<x>` for actor identity; R-TRUST-PARAM-AUTH");
            let d = make_diag(strict, WarningKind::TrustParamAuth, m.as_str(), span,
                "add `acknowledged { trust_transitive: [<SigningAuthority> because: \"...\"] }` naming the key-management story (any module-level `trust_transitive` ack discharges this)");
            push_diag(out, d);
        } else {
            same_diags(out);
        }
        i += 1;
    }
    proof {
        assert(pa.subrange(0, i as int) =~= pa);
    }
}

/// R-FRESHNESS-CHANNEL for one of the two freshness sets: any
/// `freshness_channel` acknowledgement of the module discharges it.
fn rule_fresh(module: &ModuleAggregate, actions: &Vec<String>, strong: bool, any_fresh: bool, strict: bool,
    derived: &mut Vec<(ObligationKind, String)>, out: &mut Vec<Diagnostic>)
    requires
        any_fresh == has_kind(module_acks(*module), ObligationKind::FreshnessChannel),
    ensures
        acks_view(final(derived)@) == acks_view(old(derived)@)
            + derived_names(names_view(actions@), ObligationKind::FreshnessChannel),
        diags_view(final(out)@) == diags_view(old(out)@)
            + concat_map(names_view(actions@), |a: Seq<char>| fresh_diag_of(*module, strict, a, strong)),
{
    let ghost pa = names_view(actions@);
    let ghost fd = |a: Seq<char>| seq![(ObligationKind::FreshnessChannel, a)];
    let ghost fo = |a: Seq<char>| fresh_diag_of(*module, strict, a, strong);
    let ghost hd = acks_view(derived@);
    let ghost ho = diags_view(out@);
    let mut i: usize = 0;
    proof {
        assert(pa.subrange(0, 0) =~= Seq::<Seq<char>>::empty());
        assert(hd + concat_map(Seq::<Seq<char>>::empty(), fd) =~= hd);
        assert(ho + concat_map(Seq::<Seq<char>>::empty(), fo) =~= ho);
    }
    while i < actions.len()
        invariant
            i <= actions@.len(),
            pa == names_view(actions@),
            any_fresh == has_kind(module_acks(*module), ObligationKind::FreshnessChannel),
            fd == (|a: Seq<char>| seq![(ObligationKind::FreshnessChannel, a)]),
            fo == (|a: Seq<char>| fresh_diag_of(*module, strict, a, strong)),
            acks_view(derived@) == hd + concat_map(pa.subrange(0, i as int), fd),
            diags_view(out@) == ho + concat_map(pa.subrange(0, i as int), fo),
        decreases actions@.len() - i,
    {
        proof {
            lemma_concat_map_step(pa, i as int, fd);
            lemma_concat_map_step(pa, i as int, fo);
        }
        let action = &actions[i];
        let ghost dbefore = acks_view(derived@);
        derived.push((ObligationKind::FreshnessChannel, action.clone()));
        proof {
            assert(acks_view(derived@) =~= dbefore + fd(action@));
        }
        if !any_fresh {
            let span = span_or_synthetic(action_span_in(module, action.as_str()));
            let mut m = owned("action `");
            m.append(action.as_str());
            let d = if strong {
                m.append("` declares `freshness: strong` but is realised via a compose channel; R-FRESHNESS-CHANNEL");
                make_diag(strict, WarningKind::FreshnessChannel, m.as_str(), span,
                    "either weaken `freshness:` to `eventual(<epoch>)`, add a synchronous-ack channel, or `acknowledged { freshness_channel: [...] because: \"...\" }`")
            } else {
                m.append("` declares a bounded freshness epoch but is realised via a compose channel; R-FRESHNESS-CHANNEL");
                make_diag(strict, WarningKind::FreshnessChannel, m.as_str(), span,
                    "either weaken `freshness:` to `eventual(<epoch>)`, widen the `n=` bound, add a synchronous-ack channel, or `acknowledged { freshness_channel: [...] because: \"...\" }`")
            };
            push_diag(out, d);
        } else {
            same_diags(out);
        }
        i += 1;
    }
    proof {
        assert(pa.subrange(0, i as int) =~= pa);
    }
}

/// The whole pass over one module.
#[verifier::spinoff_prover]
#[verifier::rlimit(40)]
fn run_module(module: &ModuleAggregate, facts: &Facts, strict: bool, out: &mut Vec<Diagnostic>)
    requires
        facts_of(*facts, *module),
    ensures
        diags_view(final(out)@) == diags_view(old(out)@) + module_obligation_diags(*module, strict),
{
    let ghost h = diags_view(out@);
    let acked = collect_module_acks(module);
    let mut derived: Vec<(ObligationKind, String)> = Vec::new();
    rule_avail(module, facts, &acked, strict, &mut derived, out);
    rule_write_conflict(module, facts, &acked, strict, &mut derived, out);
    rule_trust(module, facts, &acked, strict, &mut derived, out);
    let any_fresh = acks_have_kind(&acked, ObligationKind::FreshnessChannel);
    rule_fresh(module, &facts.strong_freshness_via_channel, true, any_fresh, strict, &mut derived, out);
    rule_fresh(module, &facts.bounded_freshness_via_channel, false, any_fresh, strict, &mut derived, out);
    proof {
        assert(acks_view(derived@) =~= module_derived(*module));
    }
    let ghost before_orphans = diags_view(out@);
    let ghost fb = |d: Decl| match ack_block_of(d) {
        Some(b) => orphan_block_diags(b, module_derived(*module), strict),
        None => Seq::empty(),
    };
    let mut i: usize = 0;
    proof {
        assert(module.decls@.subrange(0, 0) =~= Seq::<Decl>::empty());
        assert(before_orphans + concat_map(Seq::<Decl>::empty(), fb) =~= before_orphans);
    }
    while i < module.decls.len()
        invariant
            i <= module.decls@.len(),
            acks_view(derived@) == module_derived(*module),
            fb == (|d: Decl| match ack_block_of(d) {
                Some(b) => orphan_block_diags(b, module_derived(*module), strict),
                None => Seq::empty(),
            }),
            diags_view(out@) == before_orphans + concat_map(module.decls@.subrange(0, i as int), fb),
        decreases module.decls@.len() - i,
    {
        proof {
            lemma_concat_map_step(module.decls@, i as int, fb);
        }
        match ack_block(&module.decls[i]) {
            Some(ack) => report_orphan_acks(ack, &derived, strict, out),
            None => same_diags(out),
        }
        i += 1;
    }
    proof {
        assert(module.decls@.subrange(0, i as int) =~= module.decls@);
        assert(diags_view(out@) =~= h + module_obligation_diags(*module, strict));
    }
}

/// Derive every module's obligations and report the undischarged ones
/// and the orphan acknowledgements, module by module.
pub fn run(project: &Project, strict: bool) -> (r: ObligationsOutput)
    requires
        forall|i: int| 0 <= i < project.spec_modules().len() ==> module_names_wf(#[trigger] project.spec_modules()[i]),
    ensures
        diags_view(r.diagnostics@) == obligation_diags(project.spec_modules(), strict),
        strict ==> forall|i: int| 0 <= i < r.diagnostics@.len()
            ==> (#[trigger] r.diagnostics@[i])@.code == Code::Error(ErrorKind::ObligationUnhandled),
        !strict ==> forall|i: int| 0 <= i < r.diagnostics@.len() ==> (#[trigger] r.diagnostics@[i])@.code is Warning,
{
    let all_facts = extract(project);
    let ghost mods = project.spec_modules();
    let ghost entries = module_entries(project.modules);
    let ghost fm = |m: ModuleAggregate| module_obligation_diags(m, strict);
    let mut diagnostics: Vec<Diagnostic> = Vec::new();
    let n = crate::index_map::modules_len(&project.modules);
    let mut i: usize = 0;
    proof {
        assert(mods.subrange(0, 0) =~= Seq::<ModuleAggregate>::empty());
        assert(diags_view(diagnostics@) =~= Seq::<DiagnosticView>::empty());
    }
    while i < n
        invariant
            n == mods.len(),
            mods == project.spec_modules(),
            entries == module_entries(project.modules),
            all_facts@.len() == entries.len(),
            forall|k: int| #![trigger all_facts@[k]] 0 <= k < all_facts@.len() ==> all_facts@[k].0@ == entries[k].0
                && facts_of(all_facts@[k].1, entries[k].1),
            i <= n,
            fm == (|m: ModuleAggregate| module_obligation_diags(m, strict)),
            diags_view(diagnostics@) == concat_map(mods.subrange(0, i as int), fm),
        decreases n - i,
    {
        proof {
            lemma_concat_map_step(mods, i as int, fm);
        }
        match crate::index_map::modules_get_index(&project.modules, i) {
            Some((_key, module)) => {
                proof {
                    assert(mods[i as int] == entries[i as int].1);
                    let _ = all_facts@[i as int];
                }
                run_module(module, &all_facts[i].1, strict, &mut diagnostics);
            },
            None => {},
        }
        i += 1;
    }
    proof {
        assert(mods.subrange(0, i as int) =~= mods);
        lemma_strict_reports_only_unhandled_obligations(mods);
        let dv = diags_view(diagnostics@);
        assert forall|k: int| 0 <= k < diagnostics@.len() implies
            (strict ==> (#[trigger] diagnostics@[k])@.code == Code::Error(ErrorKind::ObligationUnhandled))
            && (!strict ==> diagnostics@[k]@.code is Warning) by {
            assert(dv[k] == diagnostics@[k]@);
        }
    }
    ObligationsOutput { diagnostics }
}

// ---- laws ----

/// `s` is `w` as strict mode reports it: same text, place, labels and
/// help; `w` is a warning and `s` is `E_OBLIGATION_UNHANDLED`.
pub open spec fn promoted(s: DiagnosticView, w: DiagnosticView) -> bool {
    &&& s.message == w.message
    &&& s.primary_span == w.primary_span
    &&& s.labels == w.labels
    &&& s.help == w.help
    &&& w.code is Warning
    &&& s.code == Code::Error(ErrorKind::ObligationUnhandled)
}

proof fn lemma_orphans_promoted(m: ModuleAggregate)
    ensures
        pointwise(orphan_diags(m, true), orphan_diags(m, false), |s: DiagnosticView, w: DiagnosticView| promoted(s, w)),
{
    let rel = |s: DiagnosticView, w: DiagnosticView| promoted(s, w);
    let derived = module_derived(m);
    let ft = |d: Decl| match ack_block_of(d) {
        Some(b) => orphan_block_diags(b, derived, true),
        None => Seq::empty(),
    };
    let ff = |d: Decl| match ack_block_of(d) {
        Some(b) => orphan_block_diags(b, derived, false),
        None => Seq::empty(),
    };
    assert forall|i: int| 0 <= i < m.decls@.len() implies pointwise(ft(#[trigger] m.decls@[i]), ff(m.decls@[i]), rel) by {
        match ack_block_of(m.decls@[i]) {
            Some(b) => {
                let et = |e: AcknowledgedEntry| orphan_entry_diags(e, derived, true);
                let ef = |e: AcknowledgedEntry| orphan_entry_diags(e, derived, false);
                assert forall|j: int| 0 <= j < b.entries@.len() implies pointwise(et(#[trigger] b.entries@[j]),
                    ef(b.entries@[j]), rel) by {
                    let e = b.entries@[j];
                    if !has_kind(derived, e.kind) {
                        let at = |a: AcknowledgedArg| match spec_ack_arg_name(a) {
                            Some(n) => seq![obligation_diag(true, WarningKind::AckNoRule, orphan_message(e.kind, n), e.span, orphan_help())],
                            None => Seq::empty(),
                        };
                        let af = |a: AcknowledgedArg| match spec_ack_arg_name(a) {
                            Some(n) => seq![obligation_diag(false, WarningKind::AckNoRule, orphan_message(e.kind, n), e.span, orphan_help())],
                            None => Seq::empty(),
                        };
                        assert forall|k: int| 0 <= k < e.args@.len() implies pointwise(at(#[trigger] e.args@[k]),
                            af(e.args@[k]), rel) by {}
                        lemma_concat_map_pointwise(e.args@, at, af, rel);
                    }
                }
                lemma_concat_map_pointwise(b.entries@, et, ef, rel);
            },
            None => {},
        }
    }
    lemma_concat_map_pointwise(m.decls@, ft, ff, rel);
}

/// Strict mode changes no diagnostic's text, place or help, nor their
/// number or order: every diagnostic of the default run is a warning,
/// and strict mode reports each of them, orphan acknowledgements
/// included, as `E_OBLIGATION_UNHANDLED`.
pub proof fn lemma_strict_promotes_unhandled_obligations(m: ModuleAggregate)
    ensures
        pointwise(module_obligation_diags(m, true), module_obligation_diags(m, false),
            |s: DiagnosticView, w: DiagnosticView| promoted(s, w)),
{
    let rel = |s: DiagnosticView, w: DiagnosticView| promoted(s, w);
    let at = |t: (Seq<char>, Seq<char>, Seq<char>)|
        if module_acks(m).contains((ObligationKind::AvailabilityDependsOn, t.2)) {
            Seq::empty()
        } else {
            seq![obligation_diag(true, WarningKind::AvailabilityClosureWeaker, avail_message(t.0, t.2),
                or_synthetic(compose_span(m.decls@, t.0)), avail_help())]
        };
    let af = |t: (Seq<char>, Seq<char>, Seq<char>)|
        if module_acks(m).contains((ObligationKind::AvailabilityDependsOn, t.2)) {
            Seq::empty()
        } else {
            seq![obligation_diag(false, WarningKind::AvailabilityClosureWeaker, avail_message(t.0, t.2),
                or_synthetic(compose_span(m.decls@, t.0)), avail_help())]
        };
    let chans = module_channels(m);
    assert forall|i: int| 0 <= i < chans.len() implies pointwise(at(#[trigger] chans[i]), af(chans[i]), rel) by {}
    lemma_concat_map_pointwise(chans, at, af, rel);

    let wt = |aux: Seq<char>| write_diag_of(m, true, aux);
    let wf = |aux: Seq<char>| write_diag_of(m, false, aux);
    let auxes = write_auxes(module_writers(m));
    assert forall|i: int| 0 <= i < auxes.len() implies pointwise(wt(#[trigger] auxes[i]), wf(auxes[i]), rel) by {}
    lemma_concat_map_pointwise(auxes, wt, wf, rel);

    let tt = |a: Seq<char>| trust_diag_of(m, true, a);
    let tf = |a: Seq<char>| trust_diag_of(m, false, a);
    let pa = module_param_auth(m);
    assert forall|i: int| 0 <= i < pa.len() implies pointwise(tt(#[trigger] pa[i]), tf(pa[i]), rel) by {}
    lemma_concat_map_pointwise(pa, tt, tf, rel);

    let st = |a: Seq<char>| fresh_diag_of(m, true, a, true);
    let sf = |a: Seq<char>| fresh_diag_of(m, false, a, true);
    let strong = module_fresh(m, true);
    assert forall|i: int| 0 <= i < strong.len() implies pointwise(st(#[trigger] strong[i]), sf(strong[i]), rel) by {}
    lemma_concat_map_pointwise(strong, st, sf, rel);

    let bt = |a: Seq<char>| fresh_diag_of(m, true, a, false);
    let bf = |a: Seq<char>| fresh_diag_of(m, false, a, false);
    let bounded = module_fresh(m, false);
    assert forall|i: int| 0 <= i < bounded.len() implies pointwise(bt(#[trigger] bounded[i]), bf(bounded[i]), rel) by {}
    lemma_concat_map_pointwise(bounded, bt, bf, rel);

    lemma_orphans_promoted(m);
    lemma_pointwise_append(avail_diags(m, true), avail_diags(m, false), write_diags(m, true), write_diags(m, false), rel);
    lemma_pointwise_append(avail_diags(m, true) + write_diags(m, true), avail_diags(m, false) + write_diags(m, false),
        trust_diags(m, true), trust_diags(m, false), rel);
    lemma_pointwise_append(concat_map(strong, st), concat_map(strong, sf), concat_map(bounded, bt), concat_map(bounded, bf), rel);
    lemma_pointwise_append(avail_diags(m, true) + write_diags(m, true) + trust_diags(m, true),
        avail_diags(m, false) + write_diags(m, false) + trust_diags(m, false), fresh_diags(m, true), fresh_diags(m, false), rel);
    lemma_pointwise_append(avail_diags(m, true) + write_diags(m, true) + trust_diags(m, true) + fresh_diags(m, true),
        avail_diags(m, false) + write_diags(m, false) + trust_diags(m, false) + fresh_diags(m, false),
        orphan_diags(m, true), orphan_diags(m, false), rel);
}

/// `--obligations-strict` turns every diagnostic of the pass into a hard
/// error: without it the pass reports only warnings, and with it each of
/// them, in the same order and with the same text, as
/// `E_OBLIGATION_UNHANDLED`.
pub proof fn lemma_strict_reports_only_unhandled_obligations(mods: Seq<ModuleAggregate>)
    ensures
        pointwise(obligation_diags(mods, true), obligation_diags(mods, false),
            |s: DiagnosticView, w: DiagnosticView| promoted(s, w)),
        forall|i: int| 0 <= i < obligation_diags(mods, true).len()
            ==> (#[trigger] obligation_diags(mods, true)[i]).code == Code::Error(ErrorKind::ObligationUnhandled),
        forall|i: int| 0 <= i < obligation_diags(mods, false).len()
            ==> (#[trigger] obligation_diags(mods, false)[i]).code is Warning,
{
    let rel = |s: DiagnosticView, w: DiagnosticView| promoted(s, w);
    let ft = |m: ModuleAggregate| module_obligation_diags(m, true);
    let ff = |m: ModuleAggregate| module_obligation_diags(m, false);
    assert forall|i: int| 0 <= i < mods.len() implies pointwise(ft(#[trigger] mods[i]), ff(mods[i]), rel) by {
        lemma_strict_promotes_unhandled_obligations(mods[i]);
    }
    lemma_concat_map_pointwise(mods, ft, ff, rel);
    assert forall|i: int| 0 <= i < obligation_diags(mods, true).len()
        implies (#[trigger] obligation_diags(mods, true)[i]).code == Code::Error(ErrorKind::ObligationUnhandled) by {
        assert(rel(obligation_diags(mods, true)[i], obligation_diags(mods, false)[i]));
    }
    assert forall|i: int| 0 <= i < obligation_diags(mods, false).len()
        implies (#[trigger] obligation_diags(mods, false)[i]).code is Warning by {
        assert(rel(obligation_diags(mods, true)[i], obligation_diags(mods, false)[i]));
    }
}

/// A channel whose target is acknowledged as an availability dependency
/// raises nothing: when every channel's target is acknowledged,
/// R-AVAIL-CHANNEL reports nothing.
pub proof fn lemma_acknowledged_channels_are_discharged(m: ModuleAggregate, strict: bool)
    requires
        forall|i: int| 0 <= i < module_channels(m).len()
            ==> module_acks(m).contains((ObligationKind::AvailabilityDependsOn, (#[trigger] module_channels(m)[i]).2)),
    ensures
        avail_diags(m, strict).len() == 0,
{
    let f = |t: (Seq<char>, Seq<char>, Seq<char>)|
        if module_acks(m).contains((ObligationKind::AvailabilityDependsOn, t.2)) {
            Seq::empty()
        } else {
            seq![obligation_diag(strict, WarningKind::AvailabilityClosureWeaker, avail_message(t.0, t.2),
                or_synthetic(compose_span(m.decls@, t.0)), avail_help())]
        };
    lemma_concat_map_empty(module_channels(m), f);
}

/// Any `trust_transitive` acknowledgement of the module discharges every
/// R-TRUST-PARAM-AUTH obligation, and any `freshness_channel`
/// acknowledgement every R-FRESHNESS-CHANNEL obligation.
pub proof fn lemma_kind_acknowledgements_discharge(m: ModuleAggregate, strict: bool)
    ensures
        has_kind(module_acks(m), ObligationKind::TrustTransitive) ==> trust_diags(m, strict).len() == 0,
        has_kind(module_acks(m), ObligationKind::FreshnessChannel) ==> fresh_diags(m, strict).len() == 0,
{
    if has_kind(module_acks(m), ObligationKind::TrustTransitive) {
        lemma_concat_map_empty(module_param_auth(m), |a: Seq<char>| trust_diag_of(m, strict, a));
    }
    if has_kind(module_acks(m), ObligationKind::FreshnessChannel) {
        lemma_concat_map_empty(module_fresh(m, true), |a: Seq<char>| fresh_diag_of(m, strict, a, true));
        lemma_concat_map_empty(module_fresh(m, false), |a: Seq<char>| fresh_diag_of(m, strict, a, false));
    }
}

} // verus!
