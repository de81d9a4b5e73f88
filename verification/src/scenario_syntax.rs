//! Scenario declarations read off their syntax trees.

use vstd::prelude::*;
use crate::cst::{CstNode, field_index, named_of_kind, node_span, node_text, text_of};
use crate::diagnostic::{Diagnostic, DiagnosticView, diags_view};
use crate::expr::CallArg;
use crate::expr_syntax::{is_content, nid_is, id_is, fid, expr_is, expr_diags, carg_is, carg_diags, content_count,
    first_content_node, convert_expr, convert_call_arg};
use crate::ident::{Ident, QualifiedName};
use crate::scenario::{Scenario, ScenarioActor, ScenarioClause, ScenarioKind};
use crate::span::{FileId, Span};
use crate::text::{owned, str_eq};
use crate::type_syntax::{generics_have_base, lemma_all_generics, find_field};

verus! {

// ---- the parts of a scenario ----

/// Which part of a scenario a child kind holds (0: none).
pub open spec fn part_tag(kd: Seq<char>) -> u8 {
    if kd == "scenario_kind"@ { 1 }
    else if kd == "scenario_tags"@ { 2 }
    else if kd == "scenario_actors"@ { 3 }
    else if kd == "scenario_given"@ { 4 }
    else if kd == "scenario_when"@ { 5 }
    else if kd == "scenario_then"@ { 6 }
    else if kd == "scenario_requires"@ { 7 }
    else { 0 }
}

/// The title without its surrounding quotes.
pub open spec fn title_text(n: CstNode, src: Seq<char>) -> Seq<char> {
    let raw = match field_index(n.children@, "title"@) {
        Some(j) => node_text(n.children@[j], src),
        None => Seq::empty(),
    };
    if raw.len() >= 2 && raw[0] == '"' && raw.last() == '"' { raw.subrange(1, raw.len() - 1) } else { raw }
}

pub open spec fn kind_value(c: CstNode, src: Seq<char>) -> ScenarioKind {
    let v = match field_index(c.children@, "value"@) {
        Some(j) => node_text(c.children@[j], src),
        None => "safety"@,
    };
    if v == "liveness"@ { ScenarioKind::Liveness } else if v == "forbidden"@ { ScenarioKind::Forbidden } else { ScenarioKind::Safety }
}

/// The kind the last `scenario_kind` child gives, `Safety` without one.
pub open spec fn scen_kind(cs: Seq<CstNode>, src: Seq<char>) -> ScenarioKind
    decreases cs.len(),
{
    if cs.len() == 0 {
        ScenarioKind::Safety
    } else if is_content(cs.last()) && part_tag(cs.last().kind@) == 1 {
        kind_value(cs.last(), src)
    } else {
        scen_kind(cs.drop_last(), src)
    }
}

/// The `identifier` children filling field `f`.
pub open spec fn field_nodes(cs: Seq<CstNode>, f: Seq<char>) -> Seq<CstNode>
    decreases cs.len(),
{
    if cs.len() == 0 {
        Seq::empty()
    } else {
        field_nodes(cs.drop_last(), f) + if (cs.last().field matches Some(g) && g@ == f) && cs.last().kind@ == "identifier"@ {
            seq![cs.last()]
        } else {
            Seq::empty()
        }
    }
}

/// The identifiers in field `f` of the parts tagged `tag`, in order.
pub open spec fn group_nodes(cs: Seq<CstNode>, tag: u8, f: Seq<char>) -> Seq<CstNode>
    decreases cs.len(),
{
    if cs.len() == 0 {
        Seq::empty()
    } else {
        group_nodes(cs.drop_last(), tag, f) + if is_content(cs.last()) && part_tag(cs.last().kind@) == tag {
            field_nodes(cs.last().children@, f)
        } else {
            Seq::empty()
        }
    }
}

pub open spec fn ids_are(ids: Seq<Ident>, ns: Seq<CstNode>, src: Seq<char>, file: FileId) -> bool {
    ids.len() == ns.len() && forall|i: int| 0 <= i < ns.len() ==> #[trigger] nid_is(ids[i], ns[i], src, file)
}

pub open spec fn actor_nodes(cs: Seq<CstNode>) -> Seq<CstNode>
    decreases cs.len(),
{
    if cs.len() == 0 {
        Seq::empty()
    } else {
        actor_nodes(cs.drop_last()) + if is_content(cs.last()) && part_tag(cs.last().kind@) == 3 {
            named_of_kind(cs.last().children@, "scenario_actor"@)
        } else {
            Seq::empty()
        }
    }
}

pub open spec fn actor_is(a: ScenarioActor, n: CstNode, src: Seq<char>, file: FileId) -> bool {
    &&& a.span == node_span(n, file)
    &&& fid(a.name, n, "name"@, "<missing>"@, node_span(n, file), src, file)
    &&& fid(a.actor_ty, n, "type"@, "<missing>"@, node_span(n, file), src, file)
}

pub open spec fn actors_are(acts: Seq<ScenarioActor>, ns: Seq<CstNode>, src: Seq<char>, file: FileId) -> bool {
    acts.len() == ns.len() && forall|i: int| 0 <= i < ns.len() ==> #[trigger] actor_is(acts[i], ns[i], src, file)
}

// ---- clauses ----

/// Which step a `when` child is (0: none).
pub open spec fn when_tag(kd: Seq<char>) -> u8 {
    if kd == "scenario_call"@ { 1 } else if kd == "atomic_when"@ { 2 } else { 0 }
}

/// Which outcome a `then` child is (0: a predicate).
pub open spec fn then_tag(kd: Seq<char>) -> u8 {
    if kd == "fails_with_clause"@ { 1 }
    else if kd == "observed_clause"@ || kd == "eventually_observed_clause"@ { 2 }
    else if kd == "eventually_clause"@ { 3 }
    else { 0 }
}

/// Whether a `then` child yields a clause.
pub open spec fn then_counts(g: CstNode) -> bool {
    is_content(g) && !(then_tag(g.kind@) == 3 && first_content_node(g.children@) is None)
}

pub open spec fn when_count(gs: Seq<CstNode>) -> nat
    decreases gs.len(),
{
    if gs.len() == 0 { 0 } else { when_count(gs.drop_last())
        + if is_content(gs.last()) && when_tag(gs.last().kind@) != 0 { 1nat } else { 0nat } }
}

pub open spec fn then_count(gs: Seq<CstNode>) -> nat
    decreases gs.len(),
{
    if gs.len() == 0 { 0 } else { then_count(gs.drop_last()) + if then_counts(gs.last()) { 1nat } else { 0nat } }
}

/// How many clauses a part contributes.
pub open spec fn part_count(c: CstNode) -> nat {
    if !is_content(c) { 0 }
    else if part_tag(c.kind@) == 4 { content_count(c.children@) }
    else if part_tag(c.kind@) == 5 { when_count(c.children@) }
    else if part_tag(c.kind@) == 6 { then_count(c.children@) }
    else { 0 }
}

pub open spec fn given_is(cl: Seq<ScenarioClause>, gs: Seq<CstNode>, src: Seq<char>, file: FileId) -> bool
    decreases gs.len(),
{
    if gs.len() == 0 {
        cl.len() == 0
    } else if is_content(gs.last()) {
        cl.len() > 0 && (cl.last() matches ScenarioClause::Given { predicate, span }
            && expr_is(predicate, gs.last(), src, file) && span == node_span(gs.last(), file))
            && given_is(cl.drop_last(), gs.drop_last(), src, file)
    } else {
        given_is(cl, gs.drop_last(), src, file)
    }
}

/// The arguments of a `does` step: its content children but the actor
/// and the action.
pub open spec fn sargs_is(args: Seq<CallArg>, cs: Seq<CstNode>, s1: Option<int>, s2: Option<int>, src: Seq<char>,
    file: FileId) -> bool
    decreases cs.len(),
{
    if cs.len() == 0 {
        args.len() == 0
    } else if is_content(cs.last()) && s1 != Some(cs.len() - 1) && s2 != Some(cs.len() - 1) {
        args.len() > 0 && args.last().name is None && expr_is(args.last().value, cs.last(), src, file)
            && args.last().span == node_span(cs.last(), file) && sargs_is(args.drop_last(), cs.drop_last(), s1, s2, src, file)
    } else {
        sargs_is(args, cs.drop_last(), s1, s2, src, file)
    }
}

pub open spec fn call_clause_is(x: ScenarioClause, n: CstNode, src: Seq<char>, file: FileId) -> bool {
    let span = node_span(n, file);
    x matches ScenarioClause::When { actor, action, args, span: s } && s == span
        && fid(actor, n, "actor"@, "<missing>"@, span, src, file)
        && action.segments@.len() == 1 && fid(action.segments@[0], n, "action"@, "<missing>"@, span, src, file)
        && action.span == action.segments@[0].span
        && sargs_is(args@, n.children@, field_index(n.children@, "actor"@), field_index(n.children@, "action"@), src, file)
}

pub open spec fn steps_is(ss: Seq<ScenarioClause>, cs: Seq<CstNode>, src: Seq<char>, file: FileId) -> bool
    decreases cs.len(),
{
    if cs.len() == 0 {
        ss.len() == 0
    } else if cs.last().named && when_tag(cs.last().kind@) == 1 {
        ss.len() > 0 && call_clause_is(ss.last(), cs.last(), src, file) && steps_is(ss.drop_last(), cs.drop_last(), src, file)
    } else {
        steps_is(ss, cs.drop_last(), src, file)
    }
}

pub open spec fn when_item_is(x: ScenarioClause, g: CstNode, src: Seq<char>, file: FileId) -> bool {
    if when_tag(g.kind@) == 1 {
        call_clause_is(x, g, src, file)
    } else {
        x matches ScenarioClause::WhenAtomic { steps, span } && span == node_span(g, file) && steps_is(steps@, g.children@, src, file)
    }
}

pub open spec fn when_is(cl: Seq<ScenarioClause>, gs: Seq<CstNode>, src: Seq<char>, file: FileId) -> bool
    decreases gs.len(),
{
    if gs.len() == 0 {
        cl.len() == 0
    } else if is_content(gs.last()) && when_tag(gs.last().kind@) != 0 {
        cl.len() > 0 && when_item_is(cl.last(), gs.last(), src, file) && when_is(cl.drop_last(), gs.drop_last(), src, file)
    } else {
        when_is(cl, gs.drop_last(), src, file)
    }
}

/// The `call_arg` children's arguments.
pub open spec fn obs_args_is(args: Seq<CallArg>, cs: Seq<CstNode>, src: Seq<char>, file: FileId) -> bool
    decreases cs.len(),
{
    if cs.len() == 0 {
        args.len() == 0
    } else if cs.last().named && cs.last().kind@ == "call_arg"@ {
        args.len() > 0 && carg_is(args.last(), cs.last(), src, file) && obs_args_is(args.drop_last(), cs.drop_last(), src, file)
    } else {
        obs_args_is(args, cs.drop_last(), src, file)
    }
}

pub open spec fn observed_is(x: ScenarioClause, g: CstNode, src: Seq<char>, file: FileId) -> bool {
    let span = node_span(g, file);
    x matches ScenarioClause::Observed { event, args, by_actor, span: s } && s == span
        && fid(event, g, "event"@, "<missing>"@, span, src, file)
        && obs_args_is(args@, g.children@, src, file)
        && match field_index(g.children@, "actor"@) {
            Some(j) => if g.children@[j].kind@ == "identifier"@ {
                nid_is(by_actor, g.children@[j], src, file)
            } else {
                id_is(by_actor, "_"@, span)
            },
            None => id_is(by_actor, "_"@, span),
        }
}

pub open spec fn then_item_is(x: ScenarioClause, g: CstNode, src: Seq<char>, file: FileId) -> bool {
    let span = node_span(g, file);
    let t = then_tag(g.kind@);
    if t == 1 {
        x matches ScenarioClause::ThenFailsWith { error_name, span: s } && s == span
            && fid(error_name, g, "error"@, "<missing>"@, span, src, file)
    } else if t == 2 {
        observed_is(x, g, src, file)
    } else if t == 3 {
        x matches ScenarioClause::Then { predicate, span: s } && s == span
            && expr_is(predicate, first_content_node(g.children@).unwrap(), src, file)
    } else {
        x matches ScenarioClause::Then { predicate, span: s } && s == span && expr_is(predicate, g, src, file)
    }
}

pub open spec fn then_is(cl: Seq<ScenarioClause>, gs: Seq<CstNode>, src: Seq<char>, file: FileId) -> bool
    decreases gs.len(),
{
    if gs.len() == 0 {
        cl.len() == 0
    } else if then_counts(gs.last()) {
        cl.len() > 0 && then_item_is(cl.last(), gs.last(), src, file) && then_is(cl.drop_last(), gs.drop_last(), src, file)
    } else {
        then_is(cl, gs.drop_last(), src, file)
    }
}

/// The clauses one part contributes.
pub open spec fn part_clauses_is(cl: Seq<ScenarioClause>, c: CstNode, src: Seq<char>, file: FileId) -> bool {
    if !is_content(c) {
        cl.len() == 0
    } else if part_tag(c.kind@) == 4 {
        given_is(cl, c.children@, src, file)
    } else if part_tag(c.kind@) == 5 {
        when_is(cl, c.children@, src, file)
    } else if part_tag(c.kind@) == 6 {
        then_is(cl, c.children@, src, file)
    } else {
        cl.len() == 0
    }
}

/// The clauses of the parts, in order.
pub open spec fn clauses_is(cl: Seq<ScenarioClause>, cs: Seq<CstNode>, src: Seq<char>, file: FileId) -> bool
    decreases cs.len(),
{
    if cs.len() == 0 {
        cl.len() == 0
    } else {
        let m = part_count(cs.last());
        cl.len() >= m && part_clauses_is(cl.subrange(cl.len() - m, cl.len() as int), cs.last(), src, file)
            && clauses_is(cl.subrange(0, cl.len() - m), cs.drop_last(), src, file)
    }
}

/// The scenario a `scenario_decl` node spells, with the doc comment found
/// above it.
pub open spec fn scenario_is(s: Scenario, n: CstNode, src: Seq<char>, file: FileId, doc: Option<Seq<char>>) -> bool {
    let cs = n.children@;
    &&& s.title@ == title_text(n, src)
    &&& s.kind == scen_kind(cs, src)
    &&& ids_are(s.tags@, group_nodes(cs, 2, "tag"@), src, file)
    &&& actors_are(s.actors@, actor_nodes(cs), src, file)
    &&& clauses_is(s.clauses@, cs, src, file)
    &&& ids_are(s.requires_in@, group_nodes(cs, 7, "substrate"@), src, file)
    &&& crate::decl_syntax::dview(s.doc) == doc
    &&& s.span == node_span(n, file)
}

// ---- the diagnostics of reading a scenario ----

pub open spec fn given_diags(gs: Seq<CstNode>, src: Seq<char>, file: FileId) -> Seq<DiagnosticView>
    decreases gs.len(),
{
    if gs.len() == 0 { Seq::empty() } else {
        given_diags(gs.drop_last(), src, file) + if is_content(gs.last()) { expr_diags(gs.last(), src, file) } else { Seq::empty() }
    }
}

pub open spec fn sargs_diags(cs: Seq<CstNode>, s1: Option<int>, s2: Option<int>, src: Seq<char>, file: FileId) -> Seq<DiagnosticView>
    decreases cs.len(),
{
    if cs.len() == 0 { Seq::empty() } else {
        sargs_diags(cs.drop_last(), s1, s2, src, file)
            + if is_content(cs.last()) && s1 != Some(cs.len() - 1) && s2 != Some(cs.len() - 1) {
                expr_diags(cs.last(), src, file)
            } else {
                Seq::empty()
            }
    }
}

pub open spec fn call_diags(n: CstNode, src: Seq<char>, file: FileId) -> Seq<DiagnosticView> {
    sargs_diags(n.children@, field_index(n.children@, "actor"@), field_index(n.children@, "action"@), src, file)
}

pub open spec fn steps_diags(cs: Seq<CstNode>, src: Seq<char>, file: FileId) -> Seq<DiagnosticView>
    decreases cs.len(),
{
    if cs.len() == 0 { Seq::empty() } else {
        steps_diags(cs.drop_last(), src, file)
            + if cs.last().named && when_tag(cs.last().kind@) == 1 { call_diags(cs.last(), src, file) } else { Seq::empty() }
    }
}

pub open spec fn when_item_diags(g: CstNode, src: Seq<char>, file: FileId) -> Seq<DiagnosticView> {
    if when_tag(g.kind@) == 1 { call_diags(g, src, file) } else { steps_diags(g.children@, src, file) }
}

pub open spec fn when_diags(gs: Seq<CstNode>, src: Seq<char>, file: FileId) -> Seq<DiagnosticView>
    decreases gs.len(),
{
    if gs.len() == 0 { Seq::empty() } else {
        when_diags(gs.drop_last(), src, file)
            + if is_content(gs.last()) && when_tag(gs.last().kind@) != 0 { when_item_diags(gs.last(), src, file) } else { Seq::empty() }
    }
}

pub open spec fn obs_args_diags(cs: Seq<CstNode>, src: Seq<char>, file: FileId) -> Seq<DiagnosticView>
    decreases cs.len(),
{
    if cs.len() == 0 { Seq::empty() } else {
        obs_args_diags(cs.drop_last(), src, file)
            + if cs.last().named && cs.last().kind@ == "call_arg"@ { carg_diags(cs.last(), src, file) } else { Seq::empty() }
    }
}

pub open spec fn then_item_diags(g: CstNode, src: Seq<char>, file: FileId) -> Seq<DiagnosticView> {
    let t = then_tag(g.kind@);
    if t == 1 {
        Seq::empty()
    } else if t == 2 {
        obs_args_diags(g.children@, src, file)
    } else if t == 3 {
        expr_diags(first_content_node(g.children@).unwrap(), src, file)
    } else {
        expr_diags(g, src, file)
    }
}

pub open spec fn then_diags(gs: Seq<CstNode>, src: Seq<char>, file: FileId) -> Seq<DiagnosticView>
    decreases gs.len(),
{
    if gs.len() == 0 { Seq::empty() } else {
        then_diags(gs.drop_last(), src, file) + if then_counts(gs.last()) { then_item_diags(gs.last(), src, file) } else { Seq::empty() }
    }
}

pub open spec fn part_diags(c: CstNode, src: Seq<char>, file: FileId) -> Seq<DiagnosticView> {
    if !is_content(c) { Seq::empty() }
    else if part_tag(c.kind@) == 4 { given_diags(c.children@, src, file) }
    else if part_tag(c.kind@) == 5 { when_diags(c.children@, src, file) }
    else if part_tag(c.kind@) == 6 { then_diags(c.children@, src, file) }
    else { Seq::empty() }
}

pub open spec fn scenario_diags(cs: Seq<CstNode>, src: Seq<char>, file: FileId) -> Seq<DiagnosticView>
    decreases cs.len(),
{
    if cs.len() == 0 { Seq::empty() } else { scenario_diags(cs.drop_last(), src, file) + part_diags(cs.last(), src, file) }
}

// ---- exec ----

fn part_tag_of(kd: &str) -> (r: u8)
    ensures
        r == part_tag(kd@),
{
    if str_eq(kd, "scenario_kind") { 1 }
    else if str_eq(kd, "scenario_tags") { 2 }
    else if str_eq(kd, "scenario_actors") { 3 }
    else if str_eq(kd, "scenario_given") { 4 }
    else if str_eq(kd, "scenario_when") { 5 }
    else if str_eq(kd, "scenario_then") { 6 }
    else if str_eq(kd, "scenario_requires") { 7 }
    else { 0 }
}

fn when_tag_of(kd: &str) -> (r: u8)
    ensures
        r == when_tag(kd@),
{
    if str_eq(kd, "scenario_call") { 1 } else if str_eq(kd, "atomic_when") { 2 } else { 0 }
}

fn then_tag_of(kd: &str) -> (r: u8)
    ensures
        r == then_tag(kd@),
{
    if str_eq(kd, "fails_with_clause") { 1 }
    else if str_eq(kd, "observed_clause") || str_eq(kd, "eventually_observed_clause") { 2 }
    else if str_eq(kd, "eventually_clause") { 3 }
    else { 0 }
}

fn title_of(node: &CstNode, src: &str) -> (r: String)
    ensures
        r@ == title_text(*node, src@),
{
    proof {
        reveal_strlit("");
    }
    let raw: &str = match find_field(node, "title") {
        Some(j) => text_of(&node.children[j], src),
        None => "",
    };
    let n = raw.unicode_len();
    if n >= 2 && raw.get_char(0) == '"' && raw.get_char(n - 1) == '"' {
        owned(raw.substring_char(1, n - 1))
    } else {
        owned(raw)
    }
}

fn kind_of(c: &CstNode, src: &str) -> (r: ScenarioKind)
    ensures
        r == kind_value(*c, src@),
{
    let v: &str = match find_field(c, "value") {
        Some(j) => text_of(&c.children[j], src),
        None => "safety",
    };
    if str_eq(v, "liveness") {
        ScenarioKind::Liveness
    } else if str_eq(v, "forbidden") {
        ScenarioKind::Forbidden
    } else {
        ScenarioKind::Safety
    }
}

/// Appends the identifiers in field `f` of `c`.
pub(crate) fn push_field_idents(c: &CstNode, f: &str, src: &str, file: FileId, ids: &mut Vec<Ident>, ns: Ghost<Seq<CstNode>>)
    requires
        ids_are(old(ids)@, ns@, src@, file),
    ensures
        ids_are(final(ids)@, ns@ + field_nodes(c.children@, f@), src@, file),
{
    let ghost cs = c.children@;
    let mut j: usize = 0;
    proof {
        assert(cs.subrange(0, 0) =~= Seq::<CstNode>::empty());
        assert(ns@ + field_nodes(Seq::<CstNode>::empty(), f@) =~= ns@);
    }
    while j < c.children.len()
        invariant
            j <= cs.len(),
            cs == c.children@,
            ids_are(ids@, ns@ + field_nodes(cs.subrange(0, j as int), f@), src@, file),
        decreases cs.len() - j,
    {
        let ghost pre = cs.subrange(0, j + 1);
        let ghost before = ns@ + field_nodes(cs.subrange(0, j as int), f@);
        proof {
            assert(pre.drop_last() =~= cs.subrange(0, j as int));
            assert(pre.last() == cs[j as int]);
        }
        let k = &c.children[j];
        let hit = match &k.field {
            Some(g) => str_eq(g.as_str(), f),
            None => false,
        };
        if hit && str_eq(k.kind.as_str(), "identifier") {
            let ghost old_ids = ids@;
            ids.push(crate::expr_syntax::node_ident(k, src, file));
            proof {
                assert(ns@ + field_nodes(pre, f@) =~= before.push(cs[j as int]));
                assert forall|i: int| 0 <= i < before.len() + 1 implies #[trigger] nid_is(ids@[i], before.push(cs[j as int])[i], src@, file) by {
                    if i < before.len() {
                        assert(ids@[i] == old_ids[i]);
                    }
                }
            }
        } else {
            proof {
                assert(ns@ + field_nodes(pre, f@) =~= before);
            }
        }
        j += 1;
    }
    proof {
        assert(cs.subrange(0, j as int) =~= cs);
    }
}

/// Appends the actors of a `scenario_actors` part.
fn push_actors(c: &CstNode, src: &str, file: FileId, acts: &mut Vec<ScenarioActor>, ns: Ghost<Seq<CstNode>>)
    requires
        actors_are(old(acts)@, ns@, src@, file),
    ensures
        actors_are(final(acts)@, ns@ + named_of_kind(c.children@, "scenario_actor"@), src@, file),
{
    let items = crate::cst::named_children_of(c, "scenario_actor");
    let ghost ks = named_of_kind(c.children@, "scenario_actor"@);
    let ghost base = acts@;
    let mut i: usize = 0;
    while i < items.len()
        invariant
            i <= items@.len(),
            items@.len() == ks.len(),
            forall|j: int| 0 <= j < items@.len() ==> *(#[trigger] items@[j]) == ks[j],
            acts@.len() == ns@.len() + i,
            actors_are(base, ns@, src@, file),
            forall|j: int| 0 <= j < ns@.len() ==> acts@[j] == base[j],
            forall|j: int| 0 <= j < i ==> #[trigger] actor_is(acts@[ns@.len() + j], ks[j], src@, file),
        decreases items@.len() - i,
    {
        let a = items[i];
        let aspan = Span::new(file, a.start, a.end);
        let name = crate::expr_syntax::field_ident(a, "name", "<missing>", aspan, src, file);
        let actor_ty = crate::expr_syntax::field_ident(a, "type", "<missing>", aspan, src, file);
        acts.push(ScenarioActor { name, actor_ty, span: aspan });
        i += 1;
    }
    proof {
        let all = ns@ + ks;
        assert forall|j: int| 0 <= j < all.len() implies #[trigger] actor_is(acts@[j], all[j], src@, file) by {
            if j >= ns@.len() {
                assert(all[j] == ks[j - ns@.len()]);
                assert(actor_is(acts@[ns@.len() + (j - ns@.len())], ks[j - ns@.len()], src@, file));
            } else {
                assert(all[j] == ns@[j]);
                assert(acts@[j] == base[j]);
                assert(actor_is(base[j], ns@[j], src@, file));
            }
        }
    }
}

fn given_clauses(g: &CstNode, src: &str, file: FileId, out: &mut Vec<Diagnostic>) -> (r: Vec<ScenarioClause>)
    requires
        generics_have_base(*g),
    ensures
        given_is(r@, g.children@, src@, file),
        r@.len() == content_count(g.children@),
        diags_view(final(out)@) == diags_view(old(out)@) + given_diags(g.children@, src@, file),
{
    let ghost cs = g.children@;
    let ghost h = diags_view(out@);
    let mut cl: Vec<ScenarioClause> = Vec::new();
    let mut i: usize = 0;
    proof {
        assert(cs.subrange(0, 0) =~= Seq::<CstNode>::empty());
        assert(h + Seq::<DiagnosticView>::empty() =~= h);
    }
    while i < g.children.len()
        invariant
            i <= cs.len(),
            cs == g.children@,
            generics_have_base(*g),
            given_is(cl@, cs.subrange(0, i as int), src@, file),
            cl@.len() == content_count(cs.subrange(0, i as int)),
            diags_view(out@) == h + given_diags(cs.subrange(0, i as int), src@, file),
        decreases cs.len() - i,
    {
        let ghost pre = cs.subrange(0, i + 1);
        proof {
            assert(pre.drop_last() =~= cs.subrange(0, i as int));
            assert(pre.last() == cs[i as int]);
        }
        let c = &g.children[i];
        if crate::expr_syntax::is_content_node(c) {
            proof {
                lemma_all_generics(cs, i as int);
            }
            let span = Span::new(file, c.start, c.end);
            let predicate = convert_expr(c, src, file, out);
            let ghost before = cl@;
            cl.push(ScenarioClause::Given { predicate, span });
            proof {
                assert(cl@.drop_last() =~= before);
            }
        }
        i += 1;
    }
    proof {
        assert(cs.subrange(0, i as int) =~= cs);
    }
    cl
}

fn call_clause(n: &CstNode, src: &str, file: FileId, out: &mut Vec<Diagnostic>) -> (r: ScenarioClause)
    requires
        generics_have_base(*n),
    ensures
        call_clause_is(r, *n, src@, file),
        diags_view(final(out)@) == diags_view(old(out)@) + call_diags(*n, src@, file),
{
    let span = Span::new(file, n.start, n.end);
    let actor = crate::expr_syntax::field_ident(n, "actor", "<missing>", span, src, file);
    let action_id = crate::expr_syntax::field_ident(n, "action", "<missing>", span, src, file);
    let ghost aid = action_id;
    let mut segs: Vec<Ident> = Vec::new();
    segs.push(action_id);
    proof {
        assert(aid.span.spec_merge(aid.span) == aid.span);
    }
    let action = QualifiedName::new(segs);
    let s1 = find_field(n, "actor");
    let s2 = find_field(n, "action");
    let ghost g1 = crate::cst::field_index(n.children@, "actor"@);
    let ghost g2 = crate::cst::field_index(n.children@, "action"@);
    let ghost cs = n.children@;
    let ghost h = diags_view(out@);
    let mut args: Vec<CallArg> = Vec::new();
    let mut i: usize = 0;
    proof {
        assert(cs.subrange(0, 0) =~= Seq::<CstNode>::empty());
        assert(h + Seq::<DiagnosticView>::empty() =~= h);
    }
    while i < n.children.len()
        invariant
            i <= cs.len(),
            cs == n.children@,
            generics_have_base(*n),
            s1 matches Some(a) ==> g1 == Some(a as int),
            s1 is None ==> g1 is None,
            s2 matches Some(a) ==> g2 == Some(a as int),
            s2 is None ==> g2 is None,
            sargs_is(args@, cs.subrange(0, i as int), g1, g2, src@, file),
            diags_view(out@) == h + sargs_diags(cs.subrange(0, i as int), g1, g2, src@, file),
        decreases cs.len() - i,
    {
        let ghost pre = cs.subrange(0, i + 1);
        proof {
            assert(pre.drop_last() =~= cs.subrange(0, i as int));
            assert(pre.last() == cs[i as int]);
            assert(pre.len() - 1 == i);
        }
        let c = &n.children[i];
        let skip1 = match s1 { Some(a) => a == i, None => false };
        let skip2 = match s2 { Some(a) => a == i, None => false };
        if crate::expr_syntax::is_content_node(c) && !skip1 && !skip2 {
            proof {
                lemma_all_generics(cs, i as int);
            }
            let cspan = Span::new(file, c.start, c.end);
            let value = convert_expr(c, src, file, out);
            let ghost before = args@;
            args.push(CallArg { name: None, value, span: cspan });
            proof {
                assert(args@.drop_last() =~= before);
            }
        }
        i += 1;
    }
    proof {
        assert(cs.subrange(0, i as int) =~= cs);
    }
    ScenarioClause::When { actor, action, args, span }
}

fn steps_of(g: &CstNode, src: &str, file: FileId, out: &mut Vec<Diagnostic>) -> (r: Vec<ScenarioClause>)
    requires
        generics_have_base(*g),
    ensures
        steps_is(r@, g.children@, src@, file),
        diags_view(final(out)@) == diags_view(old(out)@) + steps_diags(g.children@, src@, file),
{
    let ghost cs = g.children@;
    let ghost h = diags_view(out@);
    let mut cl: Vec<ScenarioClause> = Vec::new();
    let mut i: usize = 0;
    proof {
        assert(cs.subrange(0, 0) =~= Seq::<CstNode>::empty());
        assert(h + Seq::<DiagnosticView>::empty() =~= h);
    }
    while i < g.children.len()
        invariant
            i <= cs.len(),
            cs == g.children@,
            generics_have_base(*g),
            steps_is(cl@, cs.subrange(0, i as int), src@, file),
            diags_view(out@) == h + steps_diags(cs.subrange(0, i as int), src@, file),
        decreases cs.len() - i,
    {
        let ghost pre = cs.subrange(0, i + 1);
        proof {
            assert(pre.drop_last() =~= cs.subrange(0, i as int));
            assert(pre.last() == cs[i as int]);
        }
        let c = &g.children[i];
        if c.named && when_tag_of(c.kind.as_str()) == 1 {
            proof {
                lemma_all_generics(cs, i as int);
            }
            let x = call_clause(c, src, file, out);
            let ghost before = cl@;
            cl.push(x);
            proof {
                assert(cl@.drop_last() =~= before);
            }
        }
        i += 1;
    }
    proof {
        assert(cs.subrange(0, i as int) =~= cs);
    }
    cl
}

fn when_clauses(g: &CstNode, src: &str, file: FileId, out: &mut Vec<Diagnostic>) -> (r: Vec<ScenarioClause>)
    requires
        generics_have_base(*g),
    ensures
        when_is(r@, g.children@, src@, file),
        r@.len() == when_count(g.children@),
        diags_view(final(out)@) == diags_view(old(out)@) + when_diags(g.children@, src@, file),
{
    let ghost cs = g.children@;
    let ghost h = diags_view(out@);
    let mut cl: Vec<ScenarioClause> = Vec::new();
    let mut i: usize = 0;
    proof {
        assert(cs.subrange(0, 0) =~= Seq::<CstNode>::empty());
        assert(h + Seq::<DiagnosticView>::empty() =~= h);
    }
    while i < g.children.len()
        invariant
            i <= cs.len(),
            cs == g.children@,
            generics_have_base(*g),
            when_is(cl@, cs.subrange(0, i as int), src@, file),
            cl@.len() == when_count(cs.subrange(0, i as int)),
            diags_view(out@) == h + when_diags(cs.subrange(0, i as int), src@, file),
        decreases cs.len() - i,
    {
        let ghost pre = cs.subrange(0, i + 1);
        proof {
            assert(pre.drop_last() =~= cs.subrange(0, i as int));
            assert(pre.last() == cs[i as int]);
        }
        let c = &g.children[i];
        if crate::expr_syntax::is_content_node(c) {
            let t = when_tag_of(c.kind.as_str());
            if t != 0 {
                proof {
                    lemma_all_generics(cs, i as int);
                }
                let x = if t == 1 {
                    call_clause(c, src, file, out)
                } else {
                    let steps = steps_of(c, src, file, out);
                    ScenarioClause::WhenAtomic { steps, span: Span::new(file, c.start, c.end) }
                };
                let ghost before = cl@;
                cl.push(x);
                proof {
                    assert(cl@.drop_last() =~= before);
                }
            }
        }
        i += 1;
    }
    proof {
        assert(cs.subrange(0, i as int) =~= cs);
    }
    cl
}

fn observed_clause(g: &CstNode, src: &str, file: FileId, out: &mut Vec<Diagnostic>) -> (r: ScenarioClause)
    requires
        generics_have_base(*g),
    ensures
        observed_is(r, *g, src@, file),
        diags_view(final(out)@) == diags_view(old(out)@) + obs_args_diags(g.children@, src@, file),
{
    let span = Span::new(file, g.start, g.end);
    let event = crate::expr_syntax::field_ident(g, "event", "<missing>", span, src, file);
    let by_actor = match find_field(g, "actor") {
        Some(j) => if str_eq(g.children[j].kind.as_str(), "identifier") {
            crate::expr_syntax::node_ident(&g.children[j], src, file)
        } else {
            Ident::new("_", span)
        },
        None => Ident::new("_", span),
    };
    let ghost cs = g.children@;
    let ghost h = diags_view(out@);
    let mut args: Vec<CallArg> = Vec::new();
    let mut i: usize = 0;
    proof {
        assert(cs.subrange(0, 0) =~= Seq::<CstNode>::empty());
        assert(h + Seq::<DiagnosticView>::empty() =~= h);
    }
    while i < g.children.len()
        invariant
            i <= cs.len(),
            cs == g.children@,
            generics_have_base(*g),
            obs_args_is(args@, cs.subrange(0, i as int), src@, file),
            diags_view(out@) == h + obs_args_diags(cs.subrange(0, i as int), src@, file),
        decreases cs.len() - i,
    {
        let ghost pre = cs.subrange(0, i + 1);
        proof {
            assert(pre.drop_last() =~= cs.subrange(0, i as int));
            assert(pre.last() == cs[i as int]);
        }
        let c = &g.children[i];
        if c.named && str_eq(c.kind.as_str(), "call_arg") {
            proof {
                lemma_all_generics(cs, i as int);
            }
            let a = convert_call_arg(c, src, file, out);
            let ghost before = args@;
            args.push(a);
            proof {
                assert(args@.drop_last() =~= before);
            }
        }
        i += 1;
    }
    proof {
        assert(cs.subrange(0, i as int) =~= cs);
    }
    ScenarioClause::Observed { event, args, by_actor, span }
}

fn then_clauses(g: &CstNode, src: &str, file: FileId, out: &mut Vec<Diagnostic>) -> (r: Vec<ScenarioClause>)
    requires
        generics_have_base(*g),
    ensures
        then_is(r@, g.children@, src@, file),
        r@.len() == then_count(g.children@),
        diags_view(final(out)@) == diags_view(old(out)@) + then_diags(g.children@, src@, file),
{
    let ghost cs = g.children@;
    let ghost h = diags_view(out@);
    let mut cl: Vec<ScenarioClause> = Vec::new();
    let mut i: usize = 0;
    proof {
        assert(cs.subrange(0, 0) =~= Seq::<CstNode>::empty());
        assert(h + Seq::<DiagnosticView>::empty() =~= h);
    }
    while i < g.children.len()
        invariant
            i <= cs.len(),
            cs == g.children@,
            generics_have_base(*g),
            then_is(cl@, cs.subrange(0, i as int), src@, file),
            cl@.len() == then_count(cs.subrange(0, i as int)),
            diags_view(out@) == h + then_diags(cs.subrange(0, i as int), src@, file),
        decreases cs.len() - i,
    {
        let ghost pre = cs.subrange(0, i + 1);
        proof {
            assert(pre.drop_last() =~= cs.subrange(0, i as int));
            assert(pre.last() == cs[i as int]);
        }
        let c = &g.children[i];
        if crate::expr_syntax::is_content_node(c) {
            proof {
                lemma_all_generics(cs, i as int);
            }
            let span = Span::new(file, c.start, c.end);
            let t = then_tag_of(c.kind.as_str());
            let x: Option<ScenarioClause> = if t == 1 {
                let error_name = crate::expr_syntax::field_ident(c, "error", "<missing>", span, src, file);
                Some(ScenarioClause::ThenFailsWith { error_name, span })
            } else if t == 2 {
                Some(observed_clause(c, src, file, out))
            } else if t == 3 {
                match crate::expr_syntax::nth_content(c, 0, Ghost(span), Ghost(src@), Ghost(file)) {
                    Some(k) => {
                        proof {
                            lemma_all_generics(c.children@, k as int);
                        }
                        let predicate = convert_expr(&c.children[k], src, file, out);
                        Some(ScenarioClause::Then { predicate, span })
                    },
                    None => None,
                }
            } else {
                let predicate = convert_expr(c, src, file, out);
                Some(ScenarioClause::Then { predicate, span })
            };
            if let Some(x) = x {
                let ghost before = cl@;
                cl.push(x);
                proof {
                    assert(cl@.drop_last() =~= before);
                }
            }
        }
        i += 1;
    }
    proof {
        assert(cs.subrange(0, i as int) =~= cs);
    }
    cl
}

/// A `scenario_decl` node: its title, kind, tags, actors, clauses and
/// required substrates, with the doc comment found above it.
pub fn convert_scenario_decl(node: &CstNode, src: &str, file: FileId, doc: Option<String>, out: &mut Vec<Diagnostic>)
    -> (r: Option<Scenario>)
    requires
        generics_have_base(*node),
    ensures
        r matches Some(s) && scenario_is(s, *node, src@, file, crate::decl_syntax::dview(doc)),
        diags_view(final(out)@) == diags_view(old(out)@) + scenario_diags(node.children@, src@, file),
{
    let span = Span::new(file, node.start, node.end);
    let title = title_of(node, src);
    let ghost cs = node.children@;
    let ghost h = diags_view(out@);
    let mut kind = ScenarioKind::Safety;
    let mut tags: Vec<Ident> = Vec::new();
    let mut actors: Vec<ScenarioActor> = Vec::new();
    let mut clauses: Vec<ScenarioClause> = Vec::new();
    let mut requires_in: Vec<Ident> = Vec::new();
    let mut i: usize = 0;
    proof {
        assert(cs.subrange(0, 0) =~= Seq::<CstNode>::empty());
        assert(h + Seq::<DiagnosticView>::empty() =~= h);
    }
    while i < node.children.len()
        invariant
            i <= cs.len(),
            cs == node.children@,
            generics_have_base(*node),
            kind == scen_kind(cs.subrange(0, i as int), src@),
            ids_are(tags@, group_nodes(cs.subrange(0, i as int), 2, "tag"@), src@, file),
            actors_are(actors@, actor_nodes(cs.subrange(0, i as int)), src@, file),
            clauses_is(clauses@, cs.subrange(0, i as int), src@, file),
            ids_are(requires_in@, group_nodes(cs.subrange(0, i as int), 7, "substrate"@), src@, file),
            diags_view(out@) == h + scenario_diags(cs.subrange(0, i as int), src@, file),
        decreases cs.len() - i,
    {
        let ghost pre = cs.subrange(0, i + 1);
        let ghost prev = cs.subrange(0, i as int);
        let ghost old_clauses = clauses@;
        proof {
            assert(pre.drop_last() =~= prev);
            assert(pre.last() == cs[i as int]);
        }
        let c = &node.children[i];
        let content = crate::expr_syntax::is_content_node(c);
        let t = if content { part_tag_of(c.kind.as_str()) } else { 0 };
        proof {
            lemma_all_generics(cs, i as int);
        }
        if content && t == 1 {
            kind = kind_of(c, src);
        } else if content && t == 2 {
            push_field_idents(c, "tag", src, file, &mut tags, Ghost(group_nodes(prev, 2, "tag"@)));
        } else if content && t == 3 {
            push_actors(c, src, file, &mut actors, Ghost(actor_nodes(prev)));
        } else if content && t == 7 {
            push_field_idents(c, "substrate", src, file, &mut requires_in, Ghost(group_nodes(prev, 7, "substrate"@)));
        } else if content && (t == 4 || t == 5 || t == 6) {
            let mut local = if t == 4 {
                given_clauses(c, src, file, out)
            } else if t == 5 {
                when_clauses(c, src, file, out)
            } else {
                then_clauses(c, src, file, out)
            };
            let ghost gl = local@;
            clauses.append(&mut local);
            proof {
                let m = part_count(cs[i as int]);
                assert(m == gl.len());
                assert(clauses@ == old_clauses + gl);
                assert(clauses@.subrange(clauses@.len() - m, clauses@.len() as int) =~= gl);
                assert(clauses@.subrange(0, clauses@.len() - m) =~= old_clauses);
                assert(part_clauses_is(gl, cs[i as int], src@, file));
            }
        }
        proof {
            if !(content && (t == 4 || t == 5 || t == 6)) {
                assert(part_count(cs[i as int]) == 0);
                assert(clauses@.subrange(clauses@.len() as int, clauses@.len() as int) =~= Seq::<ScenarioClause>::empty());
                assert(clauses@.subrange(0, clauses@.len() as int) =~= clauses@);
                assert(part_diags(cs[i as int], src@, file) == Seq::<DiagnosticView>::empty());
            }
            assert(group_nodes(pre, 2, "tag"@) =~= group_nodes(prev, 2, "tag"@)
                + if content && t == 2 { field_nodes(cs[i as int].children@, "tag"@) } else { Seq::<CstNode>::empty() });
            assert(group_nodes(pre, 7, "substrate"@) =~= group_nodes(prev, 7, "substrate"@)
                + if content && t == 7 { field_nodes(cs[i as int].children@, "substrate"@) } else { Seq::<CstNode>::empty() });
            assert(actor_nodes(pre) =~= actor_nodes(prev)
                + if content && t == 3 { named_of_kind(cs[i as int].children@, "scenario_actor"@) } else { Seq::<CstNode>::empty() });
        }
        i += 1;
    }
    proof {
        assert(cs.subrange(0, i as int) =~= cs);
    }
    Some(Scenario { title, kind, tags, actors, clauses, requires_in, doc, span })
}

} // verus!
