//! Fact extraction for the obligation pass.
//!
//! Per module, the facts the obligation rules consume:
//!
//! - `channels`: every compose channel `(compose, S_from, S_to)` whose
//!   endpoints both name a component, a channel within one substrate
//!   included;
//! - `cross_visible_owners`: each `cross_visible` auxiliary variable with
//!   the substrate that declares it (the latest declaration wins);
//! - `cross_visible_writers`: the distinct `(substrate, aux)` pairs where
//!   a component action or receive handler of the substrate writes a
//!   `cross_visible` auxiliary variable;
//! - `param_auth_actions`: the distinct surface actions whose
//!   `auth_channel` includes `bearer_token`, `signed_request` or
//!   `capability_url` and which a substrate authenticates by
//!   `param.<x>`;
//! - `strong_freshness_via_channel` / `bounded_freshness_via_channel`: the
//!   distinct surface actions with `freshness: strong` / `bounded(…)` in a
//!   module that declares a compose channel.
//!
//! Sets hold no element twice and keep first-seen order.

use vstd::prelude::*;
use crate::collect::{pairs_view, add_all, insert_all, lemma_add_all_concat, lemma_insert_all_concat,
    lemma_add_all_one, lemma_insert_all_one,
    no_dups, lemma_add_all_no_dups, set_insert_name, set_insert_pair, map_insert_pair, pair_key_index};
use crate::compose::ComposeBlock;
use crate::decl::Decl;
use crate::derived::spec_lhs_head;
use crate::diagnostic::{concat_map, lemma_concat_map_step, lemma_concat_map_contains};
use crate::expr::{Expr, ExprKind};
use crate::index_map::{key_index, module_entries, modules_len, modules_get_index};
use crate::project::{Project, ModuleAggregate};
use crate::slot::{AuthChannelTag, FreshnessValue, SlotAssign, SlotKind, SlotValue};
use crate::substrate::{AuthRhs, AuthenticationMapping, AuxiliaryVar, ChannelDecl, Component,
    ComponentAction, ReceivesHandler, ReplicateBlock, SubstrateBlock};
use crate::surface::{ActionDecl, EffectBlock, EffectMatchArm, EffectStmt, InternalActionDecl, SurfaceBlock};
use crate::text::{names_view, str_eq};

verus! {

/// All facts extracted from one module.
#[derive(Debug)]
pub struct Facts {
    /// `(compose_name, S_from, S_to)`.
    pub channels: Vec<(String, String, String)>,
    /// `(aux_name, owning_substrate_name)`, one entry per aux name.
    pub cross_visible_owners: Vec<(String, String)>,
    /// `(substrate, aux_name)`: a substrate that writes the aux.
    pub cross_visible_writers: Vec<(String, String)>,
    /// Actions with a trust-bearing channel authenticated by `param.<x>`.
    pub param_auth_actions: Vec<String>,
    /// Actions with `freshness: strong` realised through a channel.
    pub strong_freshness_via_channel: Vec<String>,
    /// Actions with `freshness: bounded(…)` realised through a channel.
    pub bounded_freshness_via_channel: Vec<String>,
}

pub open spec fn triples_view(v: Seq<(String, String, String)>) -> Seq<(Seq<char>, Seq<char>, Seq<char>)> {
    v.map_values(|t: (String, String, String)| (t.0@, t.1@, t.2@))
}

pub open spec fn derefs<T>(v: Seq<&T>) -> Seq<T> {
    v.map_values(|x: &T| *x)
}

// ---- the blocks of a module ----

pub open spec fn decl_substrates(d: Decl) -> Seq<SubstrateBlock> {
    match d {
        Decl::Substrate(s) => seq![s],
        Decl::PartialSubstrate(p) => seq![p.block],
        _ => Seq::empty(),
    }
}

pub open spec fn decl_composes(d: Decl) -> Seq<ComposeBlock> {
    match d {
        Decl::Compose(c) => seq![c],
        _ => Seq::empty(),
    }
}

pub open spec fn decl_surfaces(d: Decl) -> Seq<SurfaceBlock> {
    match d {
        Decl::Surface(s) => seq![s],
        _ => Seq::empty(),
    }
}

/// The substrates (full and partial) of a module, in declaration order.
pub open spec fn module_substrates(m: ModuleAggregate) -> Seq<SubstrateBlock> {
    concat_map(m.decls@, |d: Decl| decl_substrates(d))
}

pub open spec fn module_composes(m: ModuleAggregate) -> Seq<ComposeBlock> {
    concat_map(m.decls@, |d: Decl| decl_composes(d))
}

pub open spec fn module_surfaces(m: ModuleAggregate) -> Seq<SurfaceBlock> {
    concat_map(m.decls@, |d: Decl| decl_surfaces(d))
}

// ---- channels ----

pub open spec fn first_segment(segs: Seq<crate::ident::Ident>) -> Option<Seq<char>> {
    if segs.len() > 0 {
        Some(segs[0].name@)
    } else {
        None
    }
}

pub open spec fn channel_fact(c: ComposeBlock, ch: ChannelDecl) -> Seq<(Seq<char>, Seq<char>, Seq<char>)> {
    match (first_segment(ch.from_comp.segments@), first_segment(ch.to_comp.segments@)) {
        (Some(f), Some(t)) => seq![(c.name.name@, f, t)],
        _ => Seq::empty(),
    }
}

pub open spec fn module_channels(m: ModuleAggregate) -> Seq<(Seq<char>, Seq<char>, Seq<char>)> {
    concat_map(module_composes(m), |c: ComposeBlock| concat_map(c.channels@, |ch: ChannelDecl| channel_fact(c, ch)))
}

// ---- owners ----

pub open spec fn aux_owner_items(s: SubstrateBlock) -> Seq<(Seq<char>, Seq<char>)> {
    match s.auxiliary {
        Some(aux) => concat_map(aux.vars@, |v: AuxiliaryVar| if v.cross_visible {
            seq![(v.name.name@, s.name.name@)]
        } else {
            Seq::empty()
        }),
        None => Seq::empty(),
    }
}

pub open spec fn module_owners(m: ModuleAggregate) -> Seq<(Seq<char>, Seq<char>)> {
    insert_all(Seq::empty(), concat_map(module_substrates(m), |s: SubstrateBlock| aux_owner_items(s)))
}

// ---- writers ----

pub open spec fn target_writes(target: Expr, owners: Seq<(Seq<char>, Seq<char>)>, sub: Seq<char>) -> Seq<(Seq<char>, Seq<char>)> {
    match spec_lhs_head(target) {
        Some(id) => if key_index(owners, id.name@) is Some { seq![(sub, id.name@)] } else { Seq::empty() },
        None => Seq::empty(),
    }
}

/// The writes to owned aux names in one statement, nested blocks
/// included, in source order.
pub open spec fn stmt_writes(s: EffectStmt, owners: Seq<(Seq<char>, Seq<char>)>, sub: Seq<char>) -> Seq<(Seq<char>, Seq<char>)>
    decreases s,
{
    match s {
        EffectStmt::Assign { target, .. } => target_writes(target, owners, sub),
        EffectStmt::AddAssign { target, .. } => target_writes(target, owners, sub),
        EffectStmt::SubAssign { target, .. } => target_writes(target, owners, sub),
        EffectStmt::DeleteKey { target, .. } => target_writes(target, owners, sub),
        EffectStmt::SeqSnoc { target, .. } => target_writes(target, owners, sub),
        EffectStmt::IfElse { then_block, else_block, .. } =>
            stmts_writes(then_block.stmts@, owners, sub) + match else_block {
                Some(eb) => stmts_writes(eb.stmts@, owners, sub),
                None => Seq::empty(),
            },
        EffectStmt::For { body, .. } => stmts_writes(body.stmts@, owners, sub),
        EffectStmt::Match { arms, .. } => arms_writes(arms@, owners, sub),
        EffectStmt::IfLetSome { then_block, else_block, .. } =>
            stmts_writes(then_block.stmts@, owners, sub) + match else_block {
                Some(eb) => stmts_writes(eb.stmts@, owners, sub),
                None => Seq::empty(),
            },
        _ => Seq::empty(),
    }
}

pub open spec fn stmts_writes(ss: Seq<EffectStmt>, owners: Seq<(Seq<char>, Seq<char>)>, sub: Seq<char>) -> Seq<(Seq<char>, Seq<char>)>
    decreases ss,
{
    if ss.len() == 0 {
        Seq::empty()
    } else {
        stmts_writes(ss.subrange(0, ss.len() - 1), owners, sub) + stmt_writes(ss[ss.len() - 1], owners, sub)
    }
}

pub open spec fn arms_writes(arms: Seq<EffectMatchArm>, owners: Seq<(Seq<char>, Seq<char>)>, sub: Seq<char>) -> Seq<(Seq<char>, Seq<char>)>
    decreases arms,
{
    if arms.len() == 0 {
        Seq::empty()
    } else {
        arms_writes(arms.subrange(0, arms.len() - 1), owners, sub)
            + stmts_writes(arms[arms.len() - 1].body.stmts@, owners, sub)
    }
}

pub open spec fn opt_block_writes(b: Option<EffectBlock>, owners: Seq<(Seq<char>, Seq<char>)>, sub: Seq<char>) -> Seq<(Seq<char>, Seq<char>)> {
    match b {
        Some(eb) => stmts_writes(eb.stmts@, owners, sub),
        None => Seq::empty(),
    }
}

pub open spec fn component_writes(c: Component, owners: Seq<(Seq<char>, Seq<char>)>, sub: Seq<char>) -> Seq<(Seq<char>, Seq<char>)> {
    concat_map(c.actions@, |a: ComponentAction| stmts_writes(a.body.stmts@, owners, sub))
        + concat_map(c.receives@, |h: ReceivesHandler| stmts_writes(h.body.stmts@, owners, sub))
}

pub open spec fn substrate_writes(s: SubstrateBlock, owners: Seq<(Seq<char>, Seq<char>)>) -> Seq<(Seq<char>, Seq<char>)> {
    concat_map(s.components@, |c: Component| component_writes(c, owners, s.name.name@))
        + concat_map(s.replicates@, |r: ReplicateBlock| component_writes(r.component, owners, s.name.name@))
}

pub open spec fn module_writers(m: ModuleAggregate) -> Seq<(Seq<char>, Seq<char>)> {
    add_all(Seq::empty(), concat_map(module_substrates(m), |s: SubstrateBlock| substrate_writes(s, module_owners(m))))
}

// ---- param-auth actions ----

pub open spec fn bearer_like(t: AuthChannelTag) -> bool {
    t == AuthChannelTag::BearerToken || t == AuthChannelTag::SignedRequest || t == AuthChannelTag::CapabilityUrl
}

pub open spec fn slot_has_trust(sa: SlotAssign) -> bool {
    sa.kind == SlotKind::AuthChannel && match sa.value {
        SlotValue::AuthChannel(v) => exists|i: int| 0 <= i < v.channels@.len() && bearer_like(#[trigger] v.channels@[i]),
        _ => false,
    }
}

pub open spec fn has_trust_channel(a: ActionDecl) -> bool {
    exists|i: int| 0 <= i < a.slots@.len() && slot_has_trust(#[trigger] a.slots@[i])
}

pub open spec fn mapping_hits(mp: AuthenticationMapping, a: ActionDecl) -> Seq<Seq<char>> {
    if mp.surface_action.segments@.last().name@ == a.name.name@ && mp.rhs is Param {
        seq![a.name.name@]
    } else {
        Seq::empty()
    }
}

pub open spec fn auth_hits(s: SubstrateBlock, a: ActionDecl) -> Seq<Seq<char>> {
    match s.authentication {
        Some(auth) => concat_map(auth.mappings@, |mp: AuthenticationMapping| mapping_hits(mp, a)),
        None => Seq::empty(),
    }
}

pub open spec fn action_auth_hits(subs: Seq<SubstrateBlock>, a: ActionDecl) -> Seq<Seq<char>> {
    if has_trust_channel(a) {
        concat_map(subs, |s: SubstrateBlock| auth_hits(s, a))
    } else {
        Seq::empty()
    }
}

/// An action whose `auth_channel` slot lists `bearer_token`,
/// `signed_request` or `capability_url`, and which some substrate's
/// `authentication` block maps to a parameter, is a param-auth action.
pub proof fn lemma_param_authed_bearer_action_is_a_fact(subs: Seq<SubstrateBlock>, a: ActionDecl, i: int, k: int,
    si: int, mi: int)
    requires
        0 <= i < a.slots@.len(),
        a.slots@[i].kind == SlotKind::AuthChannel,
        a.slots@[i].value matches SlotValue::AuthChannel(v) && 0 <= k < v.channels@.len()
            && (v.channels@[k] == AuthChannelTag::BearerToken || v.channels@[k] == AuthChannelTag::SignedRequest
                || v.channels@[k] == AuthChannelTag::CapabilityUrl),
        0 <= si < subs.len(),
        subs[si].authentication matches Some(auth) && 0 <= mi < auth.mappings@.len()
            && auth.mappings@[mi].surface_action.segments@.len() > 0
            && auth.mappings@[mi].surface_action.segments@.last().name@ == a.name.name@
            && auth.mappings@[mi].rhs is Param,
    ensures
        action_auth_hits(subs, a).contains(a.name.name@),
{
    assert(slot_has_trust(a.slots@[i]));
    assert(has_trust_channel(a));
    let auth = subs[si].authentication.unwrap();
    let g = |mp: AuthenticationMapping| mapping_hits(mp, a);
    assert(mapping_hits(auth.mappings@[mi], a) == seq![a.name.name@]);
    assert(g(auth.mappings@[mi]).contains(a.name.name@)) by {
        assert(g(auth.mappings@[mi])[0] == a.name.name@);
    }
    lemma_concat_map_contains(auth.mappings@, g, mi, a.name.name@);
    let f = |s: SubstrateBlock| auth_hits(s, a);
    assert(f(subs[si]) == concat_map(auth.mappings@, g));
    lemma_concat_map_contains(subs, f, si, a.name.name@);
}

/// At module level: an action or internal action of one of the module's
/// surfaces whose `auth_channel` lists `bearer_token`, `signed_request`
/// or `capability_url`, and which one of the module's substrates
/// authenticates by a parameter, is among the module's param-auth facts.
pub proof fn lemma_module_param_auth_holds_bearer_actions(m: ModuleAggregate, sfi: int, internal: bool, ak: int,
    i: int, k: int, si: int, mi: int)
    requires
        0 <= sfi < module_surfaces(m).len(),
        internal ==> 0 <= ak < module_surfaces(m)[sfi].internal_actions@.len(),
        !internal ==> 0 <= ak < module_surfaces(m)[sfi].actions@.len(),
        ({
            let a = if internal { module_surfaces(m)[sfi].internal_actions@[ak].action } else { module_surfaces(m)[sfi].actions@[ak] };
            let subs = module_substrates(m);
            &&& 0 <= i < a.slots@.len()
            &&& a.slots@[i].kind == SlotKind::AuthChannel
            &&& a.slots@[i].value matches SlotValue::AuthChannel(v) && 0 <= k < v.channels@.len()
                && (v.channels@[k] == AuthChannelTag::BearerToken || v.channels@[k] == AuthChannelTag::SignedRequest
                    || v.channels@[k] == AuthChannelTag::CapabilityUrl)
            &&& 0 <= si < subs.len()
            &&& subs[si].authentication matches Some(auth) && 0 <= mi < auth.mappings@.len()
                && auth.mappings@[mi].surface_action.segments@.len() > 0
                && auth.mappings@[mi].surface_action.segments@.last().name@ == a.name.name@
                && auth.mappings@[mi].rhs is Param
        }),
    ensures
        module_param_auth(m).contains(
            (if internal { module_surfaces(m)[sfi].internal_actions@[ak].action } else { module_surfaces(m)[sfi].actions@[ak] }).name.name@),
{
    let sf = module_surfaces(m)[sfi];
    let subs = module_substrates(m);
    let a = if internal { sf.internal_actions@[ak].action } else { sf.actions@[ak] };
    let n = a.name.name@;
    lemma_param_authed_bearer_action_is_a_fact(subs, a, i, k, si, mi);
    let fa = |x: ActionDecl| action_auth_hits(subs, x);
    let fb = |ia: InternalActionDecl| action_auth_hits(subs, ia.action);
    let pa = concat_map(sf.actions@, fa);
    let pb = concat_map(sf.internal_actions@, fb);
    if internal {
        lemma_concat_map_contains(sf.internal_actions@, fb, ak, n);
        let q = choose|q: int| 0 <= q < pb.len() && pb[q] == n;
        assert((pa + pb)[pa.len() + q] == n);
    } else {
        lemma_concat_map_contains(sf.actions@, fa, ak, n);
        let q = choose|q: int| 0 <= q < pa.len() && pa[q] == n;
        assert((pa + pb)[q] == n);
    }
    assert(surface_auth_hits(sf, subs) == pa + pb);
    let g = |x: SurfaceBlock| surface_auth_hits(x, subs);
    lemma_concat_map_contains(module_surfaces(m), g, sfi, n);
    assert(no_dups(Seq::<Seq<char>>::empty()));
    lemma_add_all_no_dups(Seq::<Seq<char>>::empty(), concat_map(module_surfaces(m), g));
}

/// An action none of whose `auth_channel` slots lists `bearer_token`,
/// `signed_request` or `capability_url` is no param-auth action,
/// whatever the substrates map.
pub proof fn lemma_action_without_bearer_channel_is_no_fact(subs: Seq<SubstrateBlock>, a: ActionDecl)
    requires
        forall|i: int| 0 <= i < a.slots@.len() && (#[trigger] a.slots@[i]).kind == SlotKind::AuthChannel
            ==> match a.slots@[i].value {
                SlotValue::AuthChannel(v) => forall|k: int| 0 <= k < v.channels@.len()
                    ==> (#[trigger] v.channels@[k] != AuthChannelTag::BearerToken && v.channels@[k] != AuthChannelTag::SignedRequest
                        && v.channels@[k] != AuthChannelTag::CapabilityUrl),
                _ => true,
            },
    ensures
        action_auth_hits(subs, a).len() == 0,
{
    if has_trust_channel(a) {
        let i = choose|i: int| 0 <= i < a.slots@.len() && slot_has_trust(#[trigger] a.slots@[i]);
        match a.slots@[i].value {
            SlotValue::AuthChannel(v) => {
                let k = choose|k: int| 0 <= k < v.channels@.len() && bearer_like(#[trigger] v.channels@[k]);
                assert(a.slots@[i].kind == SlotKind::AuthChannel);
                assert(v.channels@[k] != AuthChannelTag::BearerToken);
            },
            _ => {},
        }
    }
}

pub open spec fn surface_auth_hits(sf: SurfaceBlock, subs: Seq<SubstrateBlock>) -> Seq<Seq<char>> {
    concat_map(sf.actions@, |a: ActionDecl| action_auth_hits(subs, a))
        + concat_map(sf.internal_actions@, |ia: InternalActionDecl| action_auth_hits(subs, ia.action))
}

pub open spec fn module_param_auth(m: ModuleAggregate) -> Seq<Seq<char>> {
    add_all(Seq::empty(), concat_map(module_surfaces(m), |sf: SurfaceBlock| surface_auth_hits(sf, module_substrates(m))))
}

// ---- freshness realised through a channel ----

pub open spec fn slot_fresh(sa: SlotAssign, strong: bool) -> bool {
    sa.kind == SlotKind::Freshness && if strong {
        sa.value matches SlotValue::Freshness(FreshnessValue::Strong)
    } else {
        sa.value matches SlotValue::Freshness(FreshnessValue::Bounded { .. })
    }
}

pub open spec fn action_fresh(a: ActionDecl, strong: bool) -> Seq<Seq<char>> {
    concat_map(a.slots@, |sa: SlotAssign| if slot_fresh(sa, strong) { seq![a.name.name@] } else { Seq::empty() })
}

pub open spec fn surface_fresh(sf: SurfaceBlock, strong: bool) -> Seq<Seq<char>> {
    concat_map(sf.actions@, |a: ActionDecl| action_fresh(a, strong))
        + concat_map(sf.internal_actions@, |ia: InternalActionDecl| action_fresh(ia.action, strong))
}

pub open spec fn module_fresh(m: ModuleAggregate, strong: bool) -> Seq<Seq<char>> {
    if module_channels(m).len() == 0 {
        Seq::empty()
    } else {
        add_all(Seq::empty(), concat_map(module_surfaces(m), |sf: SurfaceBlock| surface_fresh(sf, strong)))
    }
}

// ---- the facts of a module ----

/// Every authentication mapping of the module names an action by a
/// non-empty qualified name.
pub open spec fn module_names_wf(m: ModuleAggregate) -> bool {
    forall|i: int| 0 <= i < module_substrates(m).len() ==> match (#[trigger] module_substrates(m)[i]).authentication {
        Some(auth) => forall|j: int| 0 <= j < auth.mappings@.len() ==> (#[trigger] auth.mappings@[j]).surface_action.wf(),
        None => true,
    }
}

/// `f` holds exactly the facts of module `m`.
pub open spec fn facts_of(f: Facts, m: ModuleAggregate) -> bool {
    &&& triples_view(f.channels@) == module_channels(m)
    &&& pairs_view(f.cross_visible_owners@) == module_owners(m)
    &&& pairs_view(f.cross_visible_writers@) == module_writers(m)
    &&& names_view(f.param_auth_actions@) == module_param_auth(m)
    &&& names_view(f.strong_freshness_via_channel@) == module_fresh(m, true)
    &&& names_view(f.bounded_freshness_via_channel@) == module_fresh(m, false)
}

/// The fact sets hold no element twice, and each holds exactly the
/// candidates found.
pub proof fn lemma_fact_sets_have_no_repeats(m: ModuleAggregate)
    ensures
        no_dups(module_writers(m)),
        no_dups(module_param_auth(m)),
        no_dups(module_fresh(m, true)),
        no_dups(module_fresh(m, false)),
{
    lemma_add_all_no_dups(Seq::<(Seq<char>, Seq<char>)>::empty(),
        concat_map(module_substrates(m), |s: SubstrateBlock| substrate_writes(s, module_owners(m))));
    lemma_add_all_no_dups(Seq::<Seq<char>>::empty(),
        concat_map(module_surfaces(m), |sf: SurfaceBlock| surface_auth_hits(sf, module_substrates(m))));
    lemma_add_all_no_dups(Seq::<Seq<char>>::empty(),
        concat_map(module_surfaces(m), |sf: SurfaceBlock| surface_fresh(sf, true)));
    lemma_add_all_no_dups(Seq::<Seq<char>>::empty(),
        concat_map(module_surfaces(m), |sf: SurfaceBlock| surface_fresh(sf, false)));
}

proof fn lemma_add_all_empty<T>(h: Seq<T>, done: Seq<T>)
    ensures
        add_all(h, done + Seq::<T>::empty()) == add_all(h, done),
{
    assert(done + Seq::<T>::empty() =~= done);
}

// ---- exec ----

fn substrates_of(module: &ModuleAggregate) -> (r: Vec<&SubstrateBlock>)
    ensures
        derefs(r@) == module_substrates(*module),
{
    let ghost f = |d: Decl| decl_substrates(d);
    let mut out: Vec<&SubstrateBlock> = Vec::new();
    let mut i: usize = 0;
    proof {
        assert(module.decls@.subrange(0, 0) =~= Seq::<Decl>::empty());
        assert(derefs(out@) =~= Seq::<SubstrateBlock>::empty());
    }
    while i < module.decls.len()
        invariant
            i <= module.decls@.len(),
            f == (|d: Decl| decl_substrates(d)),
            derefs(out@) == concat_map(module.decls@.subrange(0, i as int), f),
        decreases module.decls@.len() - i,
    {
        proof {
            lemma_concat_map_step(module.decls@, i as int, f);
        }
        let ghost before = out@;
        match &module.decls[i] {
            Decl::Substrate(s) => out.push(s),
            Decl::PartialSubstrate(p) => out.push(&p.block),
            _ => {},
        }
        proof {
            assert(derefs(out@) =~= derefs(before) + decl_substrates(module.decls@[i as int]));
        }
        i += 1;
    }
    proof {
        assert(module.decls@.subrange(0, i as int) =~= module.decls@);
    }
    out
}

fn composes_of(module: &ModuleAggregate) -> (r: Vec<&ComposeBlock>)
    ensures
        derefs(r@) == module_composes(*module),
{
    let ghost f = |d: Decl| decl_composes(d);
    let mut out: Vec<&ComposeBlock> = Vec::new();
    let mut i: usize = 0;
    proof {
        assert(module.decls@.subrange(0, 0) =~= Seq::<Decl>::empty());
        assert(derefs(out@) =~= Seq::<ComposeBlock>::empty());
    }
    while i < module.decls.len()
        invariant
            i <= module.decls@.len(),
            f == (|d: Decl| decl_composes(d)),
            derefs(out@) == concat_map(module.decls@.subrange(0, i as int), f),
        decreases module.decls@.len() - i,
    {
        proof {
            lemma_concat_map_step(module.decls@, i as int, f);
        }
        let ghost before = out@;
        match &module.decls[i] {
            Decl::Compose(c) => out.push(c),
            _ => {},
        }
        proof {
            assert(derefs(out@) =~= derefs(before) + decl_composes(module.decls@[i as int]));
        }
        i += 1;
    }
    proof {
        assert(module.decls@.subrange(0, i as int) =~= module.decls@);
    }
    out
}

fn surfaces_of(module: &ModuleAggregate) -> (r: Vec<&SurfaceBlock>)
    ensures
        derefs(r@) == module_surfaces(*module),
{
    let ghost f = |d: Decl| decl_surfaces(d);
    let mut out: Vec<&SurfaceBlock> = Vec::new();
    let mut i: usize = 0;
    proof {
        assert(module.decls@.subrange(0, 0) =~= Seq::<Decl>::empty());
        assert(derefs(out@) =~= Seq::<SurfaceBlock>::empty());
    }
    while i < module.decls.len()
        invariant
            i <= module.decls@.len(),
            f == (|d: Decl| decl_surfaces(d)),
            derefs(out@) == concat_map(module.decls@.subrange(0, i as int), f),
        decreases module.decls@.len() - i,
    {
        proof {
            lemma_concat_map_step(module.decls@, i as int, f);
        }
        let ghost before = out@;
        match &module.decls[i] {
            Decl::Surface(s) => out.push(s),
            _ => {},
        }
        proof {
            assert(derefs(out@) =~= derefs(before) + decl_surfaces(module.decls@[i as int]));
        }
        i += 1;
    }
    proof {
        assert(module.decls@.subrange(0, i as int) =~= module.decls@);
    }
    out
}

fn first_segment_name(qn: &crate::ident::QualifiedName) -> (r: Option<String>)
    ensures
        r matches Some(s) ==> first_segment(qn.segments@) == Some(s@),
        r is None ==> first_segment(qn.segments@) is None,
{
    if qn.segments.len() > 0 {
        Some(qn.segments[0].name.clone())
    } else {
        None
    }
}

fn push_channels(c: &ComposeBlock, out: &mut Vec<(String, String, String)>)
    ensures
        triples_view(final(out)@) == triples_view(old(out)@)
            + concat_map(c.channels@, |ch: ChannelDecl| channel_fact(*c, ch)),
{
    let ghost f = |ch: ChannelDecl| channel_fact(*c, ch);
    let ghost h = triples_view(out@);
    let mut i: usize = 0;
    proof {
        assert(c.channels@.subrange(0, 0) =~= Seq::<ChannelDecl>::empty());
        assert(h + concat_map(Seq::<ChannelDecl>::empty(), f) =~= h);
    }
    while i < c.channels.len()
        invariant
            i <= c.channels@.len(),
            f == (|ch: ChannelDecl| channel_fact(*c, ch)),
            triples_view(out@) == h + concat_map(c.channels@.subrange(0, i as int), f),
        decreases c.channels@.len() - i,
    {
        proof {
            lemma_concat_map_step(c.channels@, i as int, f);
        }
        let ch = &c.channels[i];
        let ghost before = out@;
        match (first_segment_name(&ch.from_comp), first_segment_name(&ch.to_comp)) {
            (Some(from), Some(to)) => {
                out.push((c.name.name.clone(), from, to));
            },
            _ => {},
        }
        proof {
            assert(triples_view(out@) =~= triples_view(before) + channel_fact(*c, c.channels@[i as int]));
        }
        i += 1;
    }
    proof {
        assert(c.channels@.subrange(0, i as int) =~= c.channels@);
    }
}

fn insert_owners(s: &SubstrateBlock, owners: &mut Vec<(String, String)>)
    ensures
        pairs_view(final(owners)@) == insert_all(pairs_view(old(owners)@), aux_owner_items(*s)),
{
    match &s.auxiliary {
        Some(aux) => {
            let ghost f = |v: AuxiliaryVar| if v.cross_visible {
                seq![(v.name.name@, s.name.name@)]
            } else {
                Seq::empty()
            };
            let ghost h = pairs_view(owners@);
            let mut i: usize = 0;
            proof {
                assert(aux.vars@.subrange(0, 0) =~= Seq::<AuxiliaryVar>::empty());
            }
            while i < aux.vars.len()
                invariant
                    i <= aux.vars@.len(),
                    f == (|v: AuxiliaryVar| if v.cross_visible {
                        seq![(v.name.name@, s.name.name@)]
                    } else {
                        Seq::empty()
                    }),
                    pairs_view(owners@) == insert_all(h, concat_map(aux.vars@.subrange(0, i as int), f)),
                decreases aux.vars@.len() - i,
            {
                proof {
                    lemma_concat_map_step(aux.vars@, i as int, f);
                }
                let var = &aux.vars[i];
                let ghost done = concat_map(aux.vars@.subrange(0, i as int), f);
                if var.cross_visible {
                    map_insert_pair(owners, var.name.name.clone(), s.name.name.clone());
                    proof {
                        let one = seq![(var.name.name@, s.name.name@)];
                        assert(f(aux.vars@[i as int]) == one);
                        lemma_insert_all_concat(h, done, one);
                        lemma_insert_all_one(insert_all(h, done), var.name.name@, s.name.name@);
                    }
                } else {
                    proof {
                        assert(done + Seq::<(Seq<char>, Seq<char>)>::empty() =~= done);
                    }
                }
                i += 1;
            }
            proof {
                assert(aux.vars@.subrange(0, i as int) =~= aux.vars@);
            }
        },
        None => {},
    }
}

fn target_head_name(e: &Expr) -> (r: Option<&str>)
    ensures
        r matches Some(n) ==> spec_lhs_head(*e) matches Some(id) && id.name@ == n@,
        r is None ==> spec_lhs_head(*e) is None,
{
    match &*e.kind {
        ExprKind::Ident(id) => Some(id.name.as_str()),
        ExprKind::Path(p) => Some(p.head.name.as_str()),
        _ => None,
    }
}

fn write_target(target: &Expr, owners: &Vec<(String, String)>, substrate: &str, out: &mut Vec<(String, String)>)
    ensures
        pairs_view(final(out)@) == add_all(pairs_view(old(out)@), target_writes(*target, pairs_view(owners@), substrate@)),
{
    match target_head_name(target) {
        Some(name) => {
            if pair_key_index(owners, name).is_some() {
                let ghost before = pairs_view(out@);
                set_insert_pair(out, crate::text::owned(substrate), crate::text::owned(name));
                proof {
                    lemma_add_all_one(before, (substrate@, name@));
                }
            }
        },
        None => {},
    }
}

fn collect_writers(block: &EffectBlock, owners: &Vec<(String, String)>, substrate: &str, out: &mut Vec<(String, String)>)
    ensures
        pairs_view(final(out)@) == add_all(pairs_view(old(out)@), stmts_writes(block.stmts@, pairs_view(owners@), substrate@)),
    decreases block, 1int,
{
    let ghost ov = pairs_view(owners@);
    let ghost h = pairs_view(out@);
    let mut i: usize = 0;
    proof {
        assert(block.stmts@.subrange(0, 0) =~= Seq::<EffectStmt>::empty());
    }
    while i < block.stmts.len()
        invariant
            i <= block.stmts@.len(),
            ov == pairs_view(owners@),
            pairs_view(out@) == add_all(h, stmts_writes(block.stmts@.subrange(0, i as int), ov, substrate@)),
        decreases block.stmts@.len() - i,
    {
        let ghost pre = block.stmts@.subrange(0, i + 1);
        proof {
            assert(pre.subrange(0, pre.len() - 1) =~= block.stmts@.subrange(0, i as int));
            assert(pre[pre.len() - 1] == block.stmts@[i as int]);
            assert(decreases_to!(block => block.stmts));
            assert(decreases_to!(block.stmts => block.stmts@));
            assert(decreases_to!(block.stmts@ => block.stmts@[i as int]));
        }
        collect_stmt_writers(&block.stmts[i], owners, substrate, out);
        proof {
            lemma_add_all_concat(h, stmts_writes(block.stmts@.subrange(0, i as int), ov, substrate@),
                stmt_writes(block.stmts@[i as int], ov, substrate@));
        }
        i += 1;
    }
    proof {
        assert(block.stmts@.subrange(0, i as int) =~= block.stmts@);
    }
}

fn collect_optional_writers(b: &Option<EffectBlock>, owners: &Vec<(String, String)>, substrate: &str,
    out: &mut Vec<(String, String)>)
    ensures
        pairs_view(final(out)@) == add_all(pairs_view(old(out)@), match *b {
            Some(eb) => stmts_writes(eb.stmts@, pairs_view(owners@), substrate@),
            None => Seq::empty(),
        }),
    decreases b, 2int,
{
    match b {
        Some(eb) => collect_writers(eb, owners, substrate, out),
        None => {},
    }
}

fn collect_stmt_writers(s: &EffectStmt, owners: &Vec<(String, String)>, substrate: &str, out: &mut Vec<(String, String)>)
    ensures
        pairs_view(final(out)@) == add_all(pairs_view(old(out)@), stmt_writes(*s, pairs_view(owners@), substrate@)),
    decreases s, 3int,
{
    let ghost ov = pairs_view(owners@);
    let ghost h = pairs_view(out@);
    match s {
        EffectStmt::Assign { target, .. } => write_target(target, owners, substrate, out),
        EffectStmt::AddAssign { target, .. } => write_target(target, owners, substrate, out),
        EffectStmt::SubAssign { target, .. } => write_target(target, owners, substrate, out),
        EffectStmt::DeleteKey { target, .. } => write_target(target, owners, substrate, out),
        EffectStmt::SeqSnoc { target, .. } => write_target(target, owners, substrate, out),
        EffectStmt::IfElse { then_block, else_block, .. } => {
            collect_writers(then_block, owners, substrate, out);
            collect_optional_writers(else_block, owners, substrate, out);
            proof {
                lemma_add_all_concat(h, stmts_writes(then_block.stmts@, ov, substrate@), opt_block_writes(*else_block, ov, substrate@));
            }
        },
        EffectStmt::For { body, .. } => collect_writers(body, owners, substrate, out),
        EffectStmt::Match { arms, .. } => {
            let mut i: usize = 0;
            proof {
                assert(arms@.subrange(0, 0) =~= Seq::<EffectMatchArm>::empty());
            }
            while i < arms.len()
                invariant
                    i <= arms@.len(),
                    ov == pairs_view(owners@),
                    s is Match,
                    *arms == s->arms,
                    pairs_view(out@) == add_all(h, arms_writes(arms@.subrange(0, i as int), ov, substrate@)),
                decreases arms@.len() - i,
            {
                let ghost pre = arms@.subrange(0, i + 1);
                proof {
                    assert(pre.subrange(0, pre.len() - 1) =~= arms@.subrange(0, i as int));
                    assert(pre[pre.len() - 1] == arms@[i as int]);
                    assert(decreases_to!(*s => s->arms));
                    assert(decreases_to!(*arms => arms@));
                    assert(decreases_to!(arms@ => arms@[i as int]));
                    assert(decreases_to!(arms@[i as int] => arms@[i as int].body));
                }
                collect_writers(&arms[i].body, owners, substrate, out);
                proof {
                    lemma_add_all_concat(h, arms_writes(arms@.subrange(0, i as int), ov, substrate@),
                        stmts_writes(arms@[i as int].body.stmts@, ov, substrate@));
                }
                i += 1;
            }
            proof {
                assert(arms@.subrange(0, i as int) =~= arms@);
            }
        },
        EffectStmt::IfLetSome { then_block, else_block, .. } => {
            collect_writers(then_block, owners, substrate, out);
            collect_optional_writers(else_block, owners, substrate, out);
            proof {
                lemma_add_all_concat(h, stmts_writes(then_block.stmts@, ov, substrate@), opt_block_writes(*else_block, ov, substrate@));
            }
        },
        _ => {},
    }
}

fn component_writers(c: &Component, owners: &Vec<(String, String)>, substrate: &str, out: &mut Vec<(String, String)>)
    ensures
        pairs_view(final(out)@) == add_all(pairs_view(old(out)@), component_writes(*c, pairs_view(owners@), substrate@)),
{
    let ghost ov = pairs_view(owners@);
    let ghost fa = |a: ComponentAction| stmts_writes(a.body.stmts@, ov, substrate@);
    let ghost fr = |h: ReceivesHandler| stmts_writes(h.body.stmts@, ov, substrate@);
    let ghost h = pairs_view(out@);
    let mut i: usize = 0;
    proof {
        assert(c.actions@.subrange(0, 0) =~= Seq::<ComponentAction>::empty());
    }
    while i < c.actions.len()
        invariant
            i <= c.actions@.len(),
            ov == pairs_view(owners@),
            fa == (|a: ComponentAction| stmts_writes(a.body.stmts@, ov, substrate@)),
            pairs_view(out@) == add_all(h, concat_map(c.actions@.subrange(0, i as int), fa)),
        decreases c.actions@.len() - i,
    {
        proof {
            lemma_concat_map_step(c.actions@, i as int, fa);
        }
        collect_writers(&c.actions[i].body, owners, substrate, out);
        proof {
            lemma_add_all_concat(h, concat_map(c.actions@.subrange(0, i as int), fa), fa(c.actions@[i as int]));
        }
        i += 1;
    }
    proof {
        assert(c.actions@.subrange(0, i as int) =~= c.actions@);
    }
    let ghost mid = concat_map(c.actions@, fa);
    let mut i: usize = 0;
    proof {
        assert(c.receives@.subrange(0, 0) =~= Seq::<ReceivesHandler>::empty());
        assert(mid + concat_map(Seq::<ReceivesHandler>::empty(), fr) =~= mid);
    }
    while i < c.receives.len()
        invariant
            i <= c.receives@.len(),
            ov == pairs_view(owners@),
            fr == (|h: ReceivesHandler| stmts_writes(h.body.stmts@, ov, substrate@)),
            pairs_view(out@) == add_all(h, mid + concat_map(c.receives@.subrange(0, i as int), fr)),
        decreases c.receives@.len() - i,
    {
        proof {
            lemma_concat_map_step(c.receives@, i as int, fr);
        }
        collect_writers(&c.receives[i].body, owners, substrate, out);
        proof {
            let done = mid + concat_map(c.receives@.subrange(0, i as int), fr);
            lemma_add_all_concat(h, done, fr(c.receives@[i as int]));
            assert(done + fr(c.receives@[i as int]) =~= mid + concat_map(c.receives@.subrange(0, i + 1), fr));
        }
        i += 1;
    }
    proof {
        assert(c.receives@.subrange(0, i as int) =~= c.receives@);
    }
}

fn substrate_writers(s: &SubstrateBlock, owners: &Vec<(String, String)>, out: &mut Vec<(String, String)>)
    ensures
        pairs_view(final(out)@) == add_all(pairs_view(old(out)@), substrate_writes(*s, pairs_view(owners@))),
{
    let ghost ov = pairs_view(owners@);
    let ghost sub = s.name.name@;
    let ghost fc = |c: Component| component_writes(c, ov, sub);
    let ghost fr = |r: ReplicateBlock| component_writes(r.component, ov, sub);
    let ghost h = pairs_view(out@);
    let sub_name = s.name.name.as_str();
    let mut i: usize = 0;
    proof {
        assert(s.components@.subrange(0, 0) =~= Seq::<Component>::empty());
    }
    while i < s.components.len()
        invariant
            i <= s.components@.len(),
            ov == pairs_view(owners@),
            sub_name@ == sub,
            fc == (|c: Component| component_writes(c, ov, sub)),
            pairs_view(out@) == add_all(h, concat_map(s.components@.subrange(0, i as int), fc)),
        decreases s.components@.len() - i,
    {
        proof {
            lemma_concat_map_step(s.components@, i as int, fc);
        }
        component_writers(&s.components[i], owners, sub_name, out);
        proof {
            lemma_add_all_concat(h, concat_map(s.components@.subrange(0, i as int), fc), fc(s.components@[i as int]));
        }
        i += 1;
    }
    proof {
        assert(s.components@.subrange(0, i as int) =~= s.components@);
    }
    let ghost mid = concat_map(s.components@, fc);
    let mut i: usize = 0;
    proof {
        assert(s.replicates@.subrange(0, 0) =~= Seq::<ReplicateBlock>::empty());
        assert(mid + concat_map(Seq::<ReplicateBlock>::empty(), fr) =~= mid);
    }
    while i < s.replicates.len()
        invariant
            i <= s.replicates@.len(),
            ov == pairs_view(owners@),
            sub_name@ == sub,
            fr == (|r: ReplicateBlock| component_writes(r.component, ov, sub)),
            pairs_view(out@) == add_all(h, mid + concat_map(s.replicates@.subrange(0, i as int), fr)),
        decreases s.replicates@.len() - i,
    {
        proof {
            lemma_concat_map_step(s.replicates@, i as int, fr);
        }
        component_writers(&s.replicates[i].component, owners, sub_name, out);
        proof {
            let done = mid + concat_map(s.replicates@.subrange(0, i as int), fr);
            lemma_add_all_concat(h, done, fr(s.replicates@[i as int]));
            assert(done + fr(s.replicates@[i as int]) =~= mid + concat_map(s.replicates@.subrange(0, i + 1), fr));
        }
        i += 1;
    }
    proof {
        assert(s.replicates@.subrange(0, i as int) =~= s.replicates@);
    }
}

fn is_bearer_like(t: AuthChannelTag) -> (r: bool)
    ensures
        r == bearer_like(t),
{
    match t {
        AuthChannelTag::BearerToken | AuthChannelTag::SignedRequest | AuthChannelTag::CapabilityUrl => true,
        _ => false,
    }
}

fn action_has_trust_channel(a: &ActionDecl) -> (r: bool)
    ensures
        r == has_trust_channel(*a),
{
    let mut i: usize = 0;
    while i < a.slots.len()
        invariant
            i <= a.slots@.len(),
            forall|j: int| 0 <= j < i ==> !slot_has_trust(#[trigger] a.slots@[j]),
        decreases a.slots@.len() - i,
    {
        let s = &a.slots[i];
        if s.kind == SlotKind::AuthChannel {
            match &s.value {
                SlotValue::AuthChannel(v) => {
                    let mut k: usize = 0;
                    while k < v.channels.len()
                        invariant
                            k <= v.channels@.len(),
                            i < a.slots@.len(),
                            a.slots@[i as int].kind == SlotKind::AuthChannel,
                            a.slots@[i as int].value matches SlotValue::AuthChannel(w) && w == *v,
                            forall|j: int| 0 <= j < k ==> !bearer_like(#[trigger] v.channels@[j]),
                        decreases v.channels@.len() - k,
                    {
                        if is_bearer_like(v.channels[k]) {
                            proof {
                                assert(slot_has_trust(a.slots@[i as int]));
                            }
                            return true;
                        }
                        k += 1;
                    }
                },
                _ => {},
            }
        }
        i += 1;
    }
    false
}

fn push_auth_hits(sub: &SubstrateBlock, a: &ActionDecl, out: &mut Vec<String>)
    requires
        sub.authentication matches Some(auth) ==> forall|j: int| 0 <= j < auth.mappings@.len()
            ==> (#[trigger] auth.mappings@[j]).surface_action.wf(),
    ensures
        names_view(final(out)@) == add_all(names_view(old(out)@), auth_hits(*sub, *a)),
{
    match &sub.authentication {
        Some(auth) => {
            let ghost f = |mp: AuthenticationMapping| mapping_hits(mp, *a);
            let ghost h = names_view(out@);
            let mut i: usize = 0;
            proof {
                assert(auth.mappings@.subrange(0, 0) =~= Seq::<AuthenticationMapping>::empty());
            }
            while i < auth.mappings.len()
                invariant
                    i <= auth.mappings@.len(),
                    forall|j: int| 0 <= j < auth.mappings@.len() ==> (#[trigger] auth.mappings@[j]).surface_action.wf(),
                    f == (|mp: AuthenticationMapping| mapping_hits(mp, *a)),
                    names_view(out@) == add_all(h, concat_map(auth.mappings@.subrange(0, i as int), f)),
                decreases auth.mappings@.len() - i,
            {
                proof {
                    lemma_concat_map_step(auth.mappings@, i as int, f);
                }
                let mapping = &auth.mappings[i];
                let ghost done = concat_map(auth.mappings@.subrange(0, i as int), f);
                let is_param = match &mapping.rhs {
                    AuthRhs::Param(_) => true,
                    _ => false,
                };
                if str_eq(mapping.surface_action.last().name.as_str(), a.name.name.as_str()) && is_param {
                    set_insert_name(out, a.name.name.clone());
                    proof {
                        let one = seq![a.name.name@];
                        assert(f(auth.mappings@[i as int]) == one);
                        lemma_add_all_concat(h, done, one);
                        lemma_add_all_one(add_all(h, done), a.name.name@);
                    }
                } else {
                    proof {
                        assert(is_param == (mapping.rhs is Param));
                        assert(f(auth.mappings@[i as int]) == Seq::<Seq<char>>::empty());
                        lemma_add_all_empty(h, done);
                    }
                }
                i += 1;
            }
            proof {
                assert(auth.mappings@.subrange(0, i as int) =~= auth.mappings@);
            }
        },
        None => {},
    }
}

fn action_param_auth(subs: &Vec<&SubstrateBlock>, a: &ActionDecl, out: &mut Vec<String>)
    requires
        forall|i: int| 0 <= i < derefs(subs@).len() ==> match (#[trigger] derefs(subs@)[i]).authentication {
            Some(auth) => forall|j: int| 0 <= j < auth.mappings@.len() ==> (#[trigger] auth.mappings@[j]).surface_action.wf(),
            None => true,
        },
    ensures
        names_view(final(out)@) == add_all(names_view(old(out)@), action_auth_hits(derefs(subs@), *a)),
{
    if !action_has_trust_channel(a) {
        return;
    }
    let ghost sv = derefs(subs@);
    let ghost f = |s: SubstrateBlock| auth_hits(s, *a);
    let ghost h = names_view(out@);
    let mut k: usize = 0;
    proof {
        assert(sv.subrange(0, 0) =~= Seq::<SubstrateBlock>::empty());
    }
    while k < subs.len()
        invariant
            k <= subs@.len(),
            sv == derefs(subs@),
            forall|i: int| 0 <= i < sv.len() ==> match (#[trigger] sv[i]).authentication {
                Some(auth) => forall|j: int| 0 <= j < auth.mappings@.len() ==> (#[trigger] auth.mappings@[j]).surface_action.wf(),
                None => true,
            },
            f == (|s: SubstrateBlock| auth_hits(s, *a)),
            names_view(out@) == add_all(h, concat_map(sv.subrange(0, k as int), f)),
        decreases subs@.len() - k,
    {
        proof {
            lemma_concat_map_step(sv, k as int, f);
            assert(sv[k as int] == *subs@[k as int]);
        }
        push_auth_hits(subs[k], a, out);
        proof {
            lemma_add_all_concat(h, concat_map(sv.subrange(0, k as int), f), f(sv[k as int]));
        }
        k += 1;
    }
    proof {
        assert(sv.subrange(0, k as int) =~= sv);
    }
}

fn surface_param_auth(subs: &Vec<&SubstrateBlock>, sf: &SurfaceBlock, out: &mut Vec<String>)
    requires
        forall|i: int| 0 <= i < derefs(subs@).len() ==> match (#[trigger] derefs(subs@)[i]).authentication {
            Some(auth) => forall|j: int| 0 <= j < auth.mappings@.len() ==> (#[trigger] auth.mappings@[j]).surface_action.wf(),
            None => true,
        },
    ensures
        names_view(final(out)@) == add_all(names_view(old(out)@), surface_auth_hits(*sf, derefs(subs@))),
{
    let ghost sv = derefs(subs@);
    let ghost fa = |a: ActionDecl| action_auth_hits(sv, a);
    let ghost fi = |ia: InternalActionDecl| action_auth_hits(sv, ia.action);
    let ghost h = names_view(out@);
    let mut i: usize = 0;
    proof {
        assert(sf.actions@.subrange(0, 0) =~= Seq::<ActionDecl>::empty());
    }
    while i < sf.actions.len()
        invariant
            i <= sf.actions@.len(),
            sv == derefs(subs@),
            forall|i: int| 0 <= i < sv.len() ==> match (#[trigger] sv[i]).authentication {
                Some(auth) => forall|j: int| 0 <= j < auth.mappings@.len() ==> (#[trigger] auth.mappings@[j]).surface_action.wf(),
                None => true,
            },
            fa == (|a: ActionDecl| action_auth_hits(sv, a)),
            names_view(out@) == add_all(h, concat_map(sf.actions@.subrange(0, i as int), fa)),
        decreases sf.actions@.len() - i,
    {
        proof {
            lemma_concat_map_step(sf.actions@, i as int, fa);
        }
        action_param_auth(subs, &sf.actions[i], out);
        proof {
            lemma_add_all_concat(h, concat_map(sf.actions@.subrange(0, i as int), fa), fa(sf.actions@[i as int]));
        }
        i += 1;
    }
    proof {
        assert(sf.actions@.subrange(0, i as int) =~= sf.actions@);
    }
    let ghost mid = concat_map(sf.actions@, fa);
    let mut i: usize = 0;
    proof {
        assert(sf.internal_actions@.subrange(0, 0) =~= Seq::<InternalActionDecl>::empty());
        assert(mid + concat_map(Seq::<InternalActionDecl>::empty(), fi) =~= mid);
    }
    while i < sf.internal_actions.len()
        invariant
            i <= sf.internal_actions@.len(),
            sv == derefs(subs@),
            forall|i: int| 0 <= i < sv.len() ==> match (#[trigger] sv[i]).authentication {
                Some(auth) => forall|j: int| 0 <= j < auth.mappings@.len() ==> (#[trigger] auth.mappings@[j]).surface_action.wf(),
                None => true,
            },
            fi == (|ia: InternalActionDecl| action_auth_hits(sv, ia.action)),
            names_view(out@) == add_all(h, mid + concat_map(sf.internal_actions@.subrange(0, i as int), fi)),
        decreases sf.internal_actions@.len() - i,
    {
        proof {
            lemma_concat_map_step(sf.internal_actions@, i as int, fi);
        }
        action_param_auth(subs, &sf.internal_actions[i].action, out);
        proof {
            let done = mid + concat_map(sf.internal_actions@.subrange(0, i as int), fi);
            lemma_add_all_concat(h, done, fi(sf.internal_actions@[i as int]));
            assert(done + fi(sf.internal_actions@[i as int]) =~= mid + concat_map(sf.internal_actions@.subrange(0, i + 1), fi));
        }
        i += 1;
    }
    proof {
        assert(sf.internal_actions@.subrange(0, i as int) =~= sf.internal_actions@);
    }
}

fn action_freshness(a: &ActionDecl, strong: &mut Vec<String>, bounded: &mut Vec<String>)
    ensures
        names_view(final(strong)@) == add_all(names_view(old(strong)@), action_fresh(*a, true)),
        names_view(final(bounded)@) == add_all(names_view(old(bounded)@), action_fresh(*a, false)),
{
    let ghost fs = |sa: SlotAssign| if slot_fresh(sa, true) { seq![a.name.name@] } else { Seq::<Seq<char>>::empty() };
    let ghost fb = |sa: SlotAssign| if slot_fresh(sa, false) { seq![a.name.name@] } else { Seq::<Seq<char>>::empty() };
    let ghost hs = names_view(strong@);
    let ghost hb = names_view(bounded@);
    let mut i: usize = 0;
    proof {
        assert(a.slots@.subrange(0, 0) =~= Seq::<SlotAssign>::empty());
    }
    while i < a.slots.len()
        invariant
            i <= a.slots@.len(),
            fs == (|sa: SlotAssign| if slot_fresh(sa, true) { seq![a.name.name@] } else { Seq::<Seq<char>>::empty() }),
            fb == (|sa: SlotAssign| if slot_fresh(sa, false) { seq![a.name.name@] } else { Seq::<Seq<char>>::empty() }),
            names_view(strong@) == add_all(hs, concat_map(a.slots@.subrange(0, i as int), fs)),
            names_view(bounded@) == add_all(hb, concat_map(a.slots@.subrange(0, i as int), fb)),
        decreases a.slots@.len() - i,
    {
        proof {
            lemma_concat_map_step(a.slots@, i as int, fs);
            lemma_concat_map_step(a.slots@, i as int, fb);
        }
        let ghost ds = concat_map(a.slots@.subrange(0, i as int), fs);
        let ghost db = concat_map(a.slots@.subrange(0, i as int), fb);
        let s = &a.slots[i];
        let ghost one = seq![a.name.name@];
        proof {
            assert(one.drop_last() =~= Seq::<Seq<char>>::empty());
            lemma_add_all_empty(hs, ds);
            lemma_add_all_empty(hb, db);
        }
        if s.kind == SlotKind::Freshness {
            match &s.value {
                SlotValue::Freshness(FreshnessValue::Strong) => {
                    set_insert_name(strong, a.name.name.clone());
                    proof {
                        assert(fs(a.slots@[i as int]) == one);
                        assert(fb(a.slots@[i as int]) == Seq::<Seq<char>>::empty());
                        lemma_add_all_concat(hs, ds, one);
                        lemma_add_all_one(add_all(hs, ds), a.name.name@);
                    }
                },
                SlotValue::Freshness(FreshnessValue::Bounded { .. }) => {
                    set_insert_name(bounded, a.name.name.clone());
                    proof {
                        assert(fb(a.slots@[i as int]) == one);
                        assert(fs(a.slots@[i as int]) == Seq::<Seq<char>>::empty());
                        lemma_add_all_concat(hb, db, one);
                        lemma_add_all_one(add_all(hb, db), a.name.name@);
                    }
                },
                _ => {},
            }
        }
        i += 1;
    }
    proof {
        assert(a.slots@.subrange(0, i as int) =~= a.slots@);
    }
}

fn surface_freshness(sf: &SurfaceBlock, strong: &mut Vec<String>, bounded: &mut Vec<String>)
    ensures
        names_view(final(strong)@) == add_all(names_view(old(strong)@), surface_fresh(*sf, true)),
        names_view(final(bounded)@) == add_all(names_view(old(bounded)@), surface_fresh(*sf, false)),
{
    let ghost fs = |a: ActionDecl| action_fresh(a, true);
    let ghost fb = |a: ActionDecl| action_fresh(a, false);
    let ghost gs = |ia: InternalActionDecl| action_fresh(ia.action, true);
    let ghost gb = |ia: InternalActionDecl| action_fresh(ia.action, false);
    let ghost hs = names_view(strong@);
    let ghost hb = names_view(bounded@);
    let mut i: usize = 0;
    proof {
        assert(sf.actions@.subrange(0, 0) =~= Seq::<ActionDecl>::empty());
    }
    while i < sf.actions.len()
        invariant
            i <= sf.actions@.len(),
            fs == (|a: ActionDecl| action_fresh(a, true)),
            fb == (|a: ActionDecl| action_fresh(a, false)),
            names_view(strong@) == add_all(hs, concat_map(sf.actions@.subrange(0, i as int), fs)),
            names_view(bounded@) == add_all(hb, concat_map(sf.actions@.subrange(0, i as int), fb)),
        decreases sf.actions@.len() - i,
    {
        proof {
            lemma_concat_map_step(sf.actions@, i as int, fs);
            lemma_concat_map_step(sf.actions@, i as int, fb);
        }
        action_freshness(&sf.actions[i], strong, bounded);
        proof {
            lemma_add_all_concat(hs, concat_map(sf.actions@.subrange(0, i as int), fs), fs(sf.actions@[i as int]));
            lemma_add_all_concat(hb, concat_map(sf.actions@.subrange(0, i as int), fb), fb(sf.actions@[i as int]));
        }
        i += 1;
    }
    proof {
        assert(sf.actions@.subrange(0, i as int) =~= sf.actions@);
    }
    let ghost ms = concat_map(sf.actions@, fs);
    let ghost mb = concat_map(sf.actions@, fb);
    let mut i: usize = 0;
    proof {
        assert(sf.internal_actions@.subrange(0, 0) =~= Seq::<InternalActionDecl>::empty());
        assert(ms + concat_map(Seq::<InternalActionDecl>::empty(), gs) =~= ms);
        assert(mb + concat_map(Seq::<InternalActionDecl>::empty(), gb) =~= mb);
    }
    while i < sf.internal_actions.len()
        invariant
            i <= sf.internal_actions@.len(),
            gs == (|ia: InternalActionDecl| action_fresh(ia.action, true)),
            gb == (|ia: InternalActionDecl| action_fresh(ia.action, false)),
            names_view(strong@) == add_all(hs, ms + concat_map(sf.internal_actions@.subrange(0, i as int), gs)),
            names_view(bounded@) == add_all(hb, mb + concat_map(sf.internal_actions@.subrange(0, i as int), gb)),
        decreases sf.internal_actions@.len() - i,
    {
        proof {
            lemma_concat_map_step(sf.internal_actions@, i as int, gs);
            lemma_concat_map_step(sf.internal_actions@, i as int, gb);
        }
        action_freshness(&sf.internal_actions[i].action, strong, bounded);
        proof {
            let ds = ms + concat_map(sf.internal_actions@.subrange(0, i as int), gs);
            let db = mb + concat_map(sf.internal_actions@.subrange(0, i as int), gb);
            lemma_add_all_concat(hs, ds, gs(sf.internal_actions@[i as int]));
            lemma_add_all_concat(hb, db, gb(sf.internal_actions@[i as int]));
            assert(ds + gs(sf.internal_actions@[i as int]) =~= ms + concat_map(sf.internal_actions@.subrange(0, i + 1), gs));
            assert(db + gb(sf.internal_actions@[i as int]) =~= mb + concat_map(sf.internal_actions@.subrange(0, i + 1), gb));
        }
        i += 1;
    }
    proof {
        assert(sf.internal_actions@.subrange(0, i as int) =~= sf.internal_actions@);
    }
}

/// The facts of one module.
pub fn extract_module(module: &ModuleAggregate) -> (r: Facts)
    requires
        module_names_wf(*module),
    ensures
        facts_of(r, *module),
{
    let substrates = substrates_of(module);
    let composes = composes_of(module);
    let surfaces = surfaces_of(module);
    let ghost subs = module_substrates(*module);
    let ghost comps = module_composes(*module);
    let ghost surfs = module_surfaces(*module);

    // Channels, per compose.
    let mut channels: Vec<(String, String, String)> = Vec::new();
    let ghost fc = |c: ComposeBlock| concat_map(c.channels@, |ch: ChannelDecl| channel_fact(c, ch));
    let mut i: usize = 0;
    proof {
        assert(comps.subrange(0, 0) =~= Seq::<ComposeBlock>::empty());
        assert(triples_view(channels@) =~= Seq::<(Seq<char>, Seq<char>, Seq<char>)>::empty());
    }
    while i < composes.len()
        invariant
            i <= composes@.len(),
            derefs(composes@) == comps,
            fc == (|c: ComposeBlock| concat_map(c.channels@, |ch: ChannelDecl| channel_fact(c, ch))),
            triples_view(channels@) == concat_map(comps.subrange(0, i as int), fc),
        decreases composes@.len() - i,
    {
        proof {
            lemma_concat_map_step(comps, i as int, fc);
            assert(comps[i as int] == *composes@[i as int]);
        }
        push_channels(composes[i], &mut channels);
        i += 1;
    }
    proof {
        assert(comps.subrange(0, i as int) =~= comps);
    }

    // Cross-visible aux ownership.
    let mut owners: Vec<(String, String)> = Vec::new();
    let ghost fo = |s: SubstrateBlock| aux_owner_items(s);
    let mut i: usize = 0;
    proof {
        assert(subs.subrange(0, 0) =~= Seq::<SubstrateBlock>::empty());
        assert(pairs_view(owners@) =~= Seq::<(Seq<char>, Seq<char>)>::empty());
    }
    while i < substrates.len()
        invariant
            i <= substrates@.len(),
            derefs(substrates@) == subs,
            fo == (|s: SubstrateBlock| aux_owner_items(s)),
            pairs_view(owners@) == insert_all(Seq::empty(), concat_map(subs.subrange(0, i as int), fo)),
        decreases substrates@.len() - i,
    {
        proof {
            lemma_concat_map_step(subs, i as int, fo);
            assert(subs[i as int] == *substrates@[i as int]);
        }
        insert_owners(substrates[i], &mut owners);
        proof {
            lemma_insert_all_concat(Seq::empty(), concat_map(subs.subrange(0, i as int), fo), fo(subs[i as int]));
        }
        i += 1;
    }
    proof {
        assert(subs.subrange(0, i as int) =~= subs);
    }

    // Writers of cross-visible aux variables.
    let mut writers: Vec<(String, String)> = Vec::new();
    let ghost ov = pairs_view(owners@);
    let ghost fw = |s: SubstrateBlock| substrate_writes(s, ov);
    let mut i: usize = 0;
    proof {
        assert(pairs_view(writers@) =~= Seq::<(Seq<char>, Seq<char>)>::empty());
    }
    while i < substrates.len()
        invariant
            i <= substrates@.len(),
            derefs(substrates@) == subs,
            ov == pairs_view(owners@),
            fw == (|s: SubstrateBlock| substrate_writes(s, ov)),
            pairs_view(writers@) == add_all(Seq::empty(), concat_map(subs.subrange(0, i as int), fw)),
        decreases substrates@.len() - i,
    {
        proof {
            lemma_concat_map_step(subs, i as int, fw);
            assert(subs[i as int] == *substrates@[i as int]);
        }
        substrate_writers(substrates[i], &owners, &mut writers);
        proof {
            lemma_add_all_concat(Seq::empty(), concat_map(subs.subrange(0, i as int), fw), fw(subs[i as int]));
        }
        i += 1;
    }
    proof {
        assert(subs.subrange(0, i as int) =~= subs);
    }

    // Param-auth actions with a trust-bearing channel.
    let mut param_auth: Vec<String> = Vec::new();
    let ghost fp = |sf: SurfaceBlock| surface_auth_hits(sf, subs);
    let mut i: usize = 0;
    proof {
        assert(surfs.subrange(0, 0) =~= Seq::<SurfaceBlock>::empty());
        assert(names_view(param_auth@) =~= Seq::<Seq<char>>::empty());
    }
    while i < surfaces.len()
        invariant
            i <= surfaces@.len(),
            derefs(surfaces@) == surfs,
            derefs(substrates@) == subs,
            subs == module_substrates(*module),
            module_names_wf(*module),
            fp == (|sf: SurfaceBlock| surface_auth_hits(sf, subs)),
            names_view(param_auth@) == add_all(Seq::empty(), concat_map(surfs.subrange(0, i as int), fp)),
        decreases surfaces@.len() - i,
    {
        proof {
            lemma_concat_map_step(surfs, i as int, fp);
            assert(surfs[i as int] == *surfaces@[i as int]);
        }
        surface_param_auth(&substrates, surfaces[i], &mut param_auth);
        proof {
            lemma_add_all_concat(Seq::empty(), concat_map(surfs.subrange(0, i as int), fp), fp(surfs[i as int]));
        }
        i += 1;
    }
    proof {
        assert(surfs.subrange(0, i as int) =~= surfs);
    }

    // Strong / bounded freshness realised through a channel.
    let mut strong: Vec<String> = Vec::new();
    let mut bounded: Vec<String> = Vec::new();
    proof {
        assert(names_view(strong@) =~= Seq::<Seq<char>>::empty());
        assert(names_view(bounded@) =~= Seq::<Seq<char>>::empty());
    }
    if channels.len() > 0 {
        let ghost fs = |sf: SurfaceBlock| surface_fresh(sf, true);
        let ghost fb = |sf: SurfaceBlock| surface_fresh(sf, false);
        let mut i: usize = 0;
        while i < surfaces.len()
            invariant
                i <= surfaces@.len(),
                derefs(surfaces@) == surfs,
                fs == (|sf: SurfaceBlock| surface_fresh(sf, true)),
                fb == (|sf: SurfaceBlock| surface_fresh(sf, false)),
                names_view(strong@) == add_all(Seq::empty(), concat_map(surfs.subrange(0, i as int), fs)),
                names_view(bounded@) == add_all(Seq::empty(), concat_map(surfs.subrange(0, i as int), fb)),
            decreases surfaces@.len() - i,
        {
            proof {
                lemma_concat_map_step(surfs, i as int, fs);
                lemma_concat_map_step(surfs, i as int, fb);
                assert(surfs[i as int] == *surfaces@[i as int]);
            }
            surface_freshness(surfaces[i], &mut strong, &mut bounded);
            proof {
                lemma_add_all_concat(Seq::empty(), concat_map(surfs.subrange(0, i as int), fs), fs(surfs[i as int]));
                lemma_add_all_concat(Seq::empty(), concat_map(surfs.subrange(0, i as int), fb), fb(surfs[i as int]));
            }
            i += 1;
        }
        proof {
            assert(surfs.subrange(0, i as int) =~= surfs);
        }
    }

    Facts {
        channels,
        cross_visible_owners: owners,
        cross_visible_writers: writers,
        param_auth_actions: param_auth,
        strong_freshness_via_channel: strong,
        bounded_freshness_via_channel: bounded,
    }
}

/// The facts of every module, in module order, each with its module key.
pub fn extract(project: &Project) -> (r: Vec<(String, Facts)>)
    requires
        forall|i: int| 0 <= i < project.spec_modules().len() ==> module_names_wf(#[trigger] project.spec_modules()[i]),
    ensures
        r@.len() == module_entries(project.modules).len(),
        forall|i: int| #![trigger r@[i]] 0 <= i < r@.len() ==> r@[i].0@ == module_entries(project.modules)[i].0
            && facts_of(r@[i].1, module_entries(project.modules)[i].1),
{
    let ghost entries = module_entries(project.modules);
    let mut out: Vec<(String, Facts)> = Vec::new();
    let n = modules_len(&project.modules);
    let mut i: usize = 0;
    while i < n
        invariant
            n == entries.len(),
            entries == module_entries(project.modules),
            i <= n,
            forall|i: int| 0 <= i < project.spec_modules().len() ==> module_names_wf(#[trigger] project.spec_modules()[i]),
            out@.len() == i,
            forall|k: int| #![trigger out@[k]] 0 <= k < i ==> out@[k].0@ == entries[k].0 && facts_of(out@[k].1, entries[k].1),
        decreases n - i,
    {
        match modules_get_index(&project.modules, i) {
            Some((key, module)) => {
                proof {
                    assert(project.spec_modules()[i as int] == entries[i as int].1);
                }
                let f = extract_module(module);
                out.push((key.clone(), f));
            },
            None => {
                proof {
                    assert(false);
                }
            },
        }
        i += 1;
    }
    out
}

/// Whether every authentication mapping of the module names its action by
/// a non-empty qualified name.
pub fn module_names_are_wf(module: &ModuleAggregate) -> (r: bool)
    ensures
        r == module_names_wf(*module),
{
    let subs = substrates_of(module);
    let ghost sv = module_substrates(*module);
    let mut k: usize = 0;
    while k < subs.len()
        invariant
            k <= subs@.len(),
            derefs(subs@) == sv,
            sv == module_substrates(*module),
            forall|i: int| 0 <= i < k ==> match (#[trigger] sv[i]).authentication {
                Some(auth) => forall|j: int| 0 <= j < auth.mappings@.len() ==> (#[trigger] auth.mappings@[j]).surface_action.wf(),
                None => true,
            },
        decreases subs@.len() - k,
    {
        proof {
            assert(sv[k as int] == *subs@[k as int]);
        }
        match &subs[k].authentication {
            Some(auth) => {
                let mut j: usize = 0;
                while j < auth.mappings.len()
                    invariant
                        j <= auth.mappings@.len(),
                        k < sv.len(),
                        sv == module_substrates(*module),
                        sv[k as int].authentication == Some(*auth),
                        forall|q: int| 0 <= q < j ==> (#[trigger] auth.mappings@[q]).surface_action.wf(),
                    decreases auth.mappings@.len() - j,
                {
                    if auth.mappings[j].surface_action.segments.len() == 0 {
                        proof {
                            assert(!auth.mappings@[j as int].surface_action.wf());
                            let bad = sv[k as int];
                            assert(!(match bad.authentication {
                                Some(a) => forall|q: int| 0 <= q < a.mappings@.len() ==> (#[trigger] a.mappings@[q]).surface_action.wf(),
                                None => true,
                            }));
                        }
                        return false;
                    }
                    j += 1;
                }
            },
            None => {},
        }
        k += 1;
    }
    true
}

} // verus!
