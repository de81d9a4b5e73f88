//! Top-level declarations read off their syntax trees: type aliases,
//! actors, events, constants, externs, observables, history predicates
//! and attackers.

use vstd::prelude::*;
use crate::cst::{CstNode, field_index, first_child_index, node_span, node_text, text_of};
use crate::decl::{ActorBinder, ActorDecl, AttackerCapability, AttackerDecl, ConstDecl, EventDecl, EventField, ExternDecl,
    HistoryPredicateDecl, ObservableDecl, Param, TypeAliasDecl};
use crate::diagnostic::{Diagnostic, DiagnosticView, diags_view};
use crate::effect_syntax::{hf, fc, fx, fx_diags};
use crate::expr::{Expr, ExprKind};
use crate::expr_syntax::{is_content, nid_is, id_is, fid, expr_is, expr_diags, convert_expr};
use crate::ident::{Ident, QualifiedName};
use crate::span::{FileId, Span};
use crate::text::{owned, str_eq};
use crate::ty::{Type, TypeKind};
use crate::type_syntax::{generics_have_base, lemma_all_generics, find_field, type_is, type_diags, named_one, named_at,
    convert_type_expr};

verus! {

// ---- fields ----

/// The text of a doc comment, if there is one.
pub open spec fn dview(d: Option<String>) -> Option<Seq<char>> {
    match d {
        Some(s) => Some(s@),
        None => None,
    }
}

/// The one-segment `<missing>` type at `span`.
pub open spec fn missing_ty(t: Type, span: Span) -> bool {
    t.span == span && named_one(t.kind, "<missing>"@, span)
}

/// The type in field `f`, or the `<missing>` type at `span`.
pub open spec fn ty_or_missing(t: Type, n: CstNode, f: Seq<char>, span: Span, src: Seq<char>, file: FileId) -> bool {
    if hf(n, f) { type_is(t, fc(n, f), src, file) } else { missing_ty(t, span) }
}

pub open spec fn ty_diags(n: CstNode, f: Seq<char>, src: Seq<char>, file: FileId) -> Seq<DiagnosticView> {
    if hf(n, f) { type_diags(fc(n, f), src, file) } else { Seq::empty() }
}

/// The identifier in field `f`, if there is one.
pub open spec fn oid_is(o: Option<Ident>, n: CstNode, f: Seq<char>, src: Seq<char>, file: FileId) -> bool {
    if hf(n, f) { o matches Some(id) && nid_is(id, fc(n, f), src, file) } else { o is None }
}

// ---- parameters ----

/// A name, a type and a span read from a `param` node.
pub open spec fn nts_is(name: Ident, ty: Type, span: Span, n: CstNode, src: Seq<char>, file: FileId) -> bool {
    &&& span == node_span(n, file)
    &&& fid(name, n, "name"@, "<missing>"@, node_span(n, file), src, file)
    &&& ty_or_missing(ty, n, "type"@, node_span(n, file), src, file)
}

/// The parameters of the named `param` children, in order.
pub open spec fn params_in(ps: Seq<Param>, cs: Seq<CstNode>, src: Seq<char>, file: FileId) -> bool
    decreases cs.len(),
{
    if cs.len() == 0 {
        ps.len() == 0
    } else if cs.last().named && cs.last().kind@ == "param"@ {
        ps.len() > 0 && nts_is(ps.last().name, ps.last().ty, ps.last().span, cs.last(), src, file)
            && params_in(ps.drop_last(), cs.drop_last(), src, file)
    } else {
        params_in(ps, cs.drop_last(), src, file)
    }
}

pub open spec fn fields_in(fs: Seq<EventField>, cs: Seq<CstNode>, src: Seq<char>, file: FileId) -> bool
    decreases cs.len(),
{
    if cs.len() == 0 {
        fs.len() == 0
    } else if cs.last().named && cs.last().kind@ == "param"@ {
        fs.len() > 0 && nts_is(fs.last().name, fs.last().ty, fs.last().span, cs.last(), src, file)
            && fields_in(fs.drop_last(), cs.drop_last(), src, file)
    } else {
        fields_in(fs, cs.drop_last(), src, file)
    }
}

pub open spec fn params_diags(cs: Seq<CstNode>, src: Seq<char>, file: FileId) -> Seq<DiagnosticView>
    decreases cs.len(),
{
    if cs.len() == 0 {
        Seq::empty()
    } else {
        params_diags(cs.drop_last(), src, file)
            + if cs.last().named && cs.last().kind@ == "param"@ { ty_diags(cs.last(), "type"@, src, file) } else { Seq::empty() }
    }
}

/// The parameters of the first `param_list` child, none without one.
pub open spec fn plist_is(ps: Seq<Param>, n: CstNode, src: Seq<char>, file: FileId) -> bool {
    match first_child_index(n.children@, "param_list"@) {
        Some(j) => params_in(ps, n.children@[j].children@, src, file),
        None => ps.len() == 0,
    }
}

pub open spec fn plist_diags(n: CstNode, src: Seq<char>, file: FileId) -> Seq<DiagnosticView> {
    match first_child_index(n.children@, "param_list"@) {
        Some(j) => params_diags(n.children@[j].children@, src, file),
        None => Seq::empty(),
    }
}

// ---- declarations ----

pub open spec fn type_alias_is(r: Option<TypeAliasDecl>, n: CstNode, src: Seq<char>, file: FileId, doc: Option<Seq<char>>) -> bool {
    if hf(n, "name"@) && (hf(n, "value"@) || hf(n, "type"@)) {
        r matches Some(d) && nid_is(d.name, fc(n, "name"@), src, file) && dview(d.doc) == doc && d.span == node_span(n, file)
            && type_is(d.ty, if hf(n, "value"@) { fc(n, "value"@) } else { fc(n, "type"@) }, src, file)
    } else {
        r is None
    }
}

pub open spec fn type_alias_diags(n: CstNode, src: Seq<char>, file: FileId) -> Seq<DiagnosticView> {
    if !hf(n, "name"@) { Seq::empty() }
    else if hf(n, "value"@) { type_diags(fc(n, "value"@), src, file) }
    else { ty_diags(n, "type"@, src, file) }
}

pub open spec fn actor_is(r: Option<ActorDecl>, n: CstNode, src: Seq<char>, file: FileId, doc: Option<Seq<char>>) -> bool {
    if hf(n, "name"@) {
        r matches Some(d) && nid_is(d.name, fc(n, "name"@), src, file) && oid_is(d.extends, n, "parent"@, src, file)
            && dview(d.doc) == doc && d.span == node_span(n, file)
    } else {
        r is None
    }
}

pub open spec fn event_is(r: Option<EventDecl>, n: CstNode, src: Seq<char>, file: FileId, doc: Option<Seq<char>>) -> bool {
    if hf(n, "name"@) {
        r matches Some(d) && nid_is(d.name, fc(n, "name"@), src, file) && dview(d.doc) == doc && d.span == node_span(n, file)
            && match first_child_index(n.children@, "param_list"@) {
                Some(j) => fields_in(d.fields@, n.children@[j].children@, src, file),
                None => d.fields@.len() == 0,
            }
    } else {
        r is None
    }
}

/// A declaration of a name and a required type (`const`, `extern`).
pub open spec fn named_typed_is(name: Ident, ty: Type, n: CstNode, src: Seq<char>, file: FileId) -> bool {
    nid_is(name, fc(n, "name"@), src, file) && type_is(ty, fc(n, "type"@), src, file)
}

pub open spec fn const_is(r: Option<ConstDecl>, n: CstNode, src: Seq<char>, file: FileId, doc: Option<Seq<char>>) -> bool {
    if hf(n, "name"@) && hf(n, "type"@) {
        r matches Some(d) && named_typed_is(d.name, d.ty, n, src, file) && dview(d.doc) == doc && d.span == node_span(n, file)
    } else {
        r is None
    }
}

pub open spec fn extern_is(r: Option<ExternDecl>, n: CstNode, src: Seq<char>, file: FileId, doc: Option<Seq<char>>) -> bool {
    if hf(n, "name"@) && hf(n, "type"@) {
        r matches Some(d) && named_typed_is(d.name, d.ty, n, src, file) && dview(d.doc) == doc && d.span == node_span(n, file)
    } else {
        r is None
    }
}

pub open spec fn named_type_diags(n: CstNode, src: Seq<char>, file: FileId) -> Seq<DiagnosticView> {
    if hf(n, "name"@) { ty_diags(n, "type"@, src, file) } else { Seq::empty() }
}

/// Whether an observable's required fields are there.
pub open spec fn observable_complete(n: CstNode, actor: bool) -> bool {
    (actor ==> hf(n, "actor_var"@) && hf(n, "actor_type"@)) && hf(n, "name"@) && hf(n, "return_type"@) && hf(n, "body"@)
}

/// An `observable` declaration, or with `actor` an `observable for`
/// declaration whose actor variable and type it binds.
pub open spec fn observable_is(r: Option<ObservableDecl>, n: CstNode, actor: bool, src: Seq<char>, file: FileId,
    doc: Option<Seq<char>>) -> bool {
    if observable_complete(n, actor) {
        r matches Some(d) && nid_is(d.name, fc(n, "name"@), src, file) && plist_is(d.params@, n, src, file)
            && type_is(d.return_ty, fc(n, "return_type"@), src, file) && expr_is(d.body, fc(n, "body"@), src, file)
            && dview(d.doc) == doc && d.span == node_span(n, file)
            && if actor {
                d.for_actor matches Some(b) && nid_is(b.name, fc(n, "actor_var"@), src, file)
                    && nid_is(b.actor_ty, fc(n, "actor_type"@), src, file) && b.span == b.name.span
            } else {
                d.for_actor is None
            }
    } else {
        r is None
    }
}

pub open spec fn observable_diags(n: CstNode, actor: bool, src: Seq<char>, file: FileId) -> Seq<DiagnosticView> {
    if (actor ==> hf(n, "actor_var"@) && hf(n, "actor_type"@)) && hf(n, "name"@) {
        plist_diags(n, src, file) + if hf(n, "return_type"@) {
            type_diags(fc(n, "return_type"@), src, file) + fx_diags(n, "body"@, src, file)
        } else {
            Seq::empty()
        }
    } else {
        Seq::empty()
    }
}

pub open spec fn history_is(r: Option<HistoryPredicateDecl>, n: CstNode, src: Seq<char>, file: FileId,
    doc: Option<Seq<char>>) -> bool {
    if hf(n, "name"@) && hf(n, "body"@) {
        r matches Some(d) && nid_is(d.name, fc(n, "name"@), src, file) && plist_is(d.params@, n, src, file)
            && expr_is(d.body, fc(n, "body"@), src, file) && dview(d.doc) == doc && d.span == node_span(n, file)
    } else {
        r is None
    }
}

pub open spec fn history_diags(n: CstNode, src: Seq<char>, file: FileId) -> Seq<DiagnosticView> {
    if hf(n, "name"@) { plist_diags(n, src, file) + fx_diags(n, "body"@, src, file) } else { Seq::empty() }
}

// ---- attackers ----

/// Which clause of an attacker a child kind is (0: none).
pub open spec fn atk_tag(kd: Seq<char>) -> u8 {
    if kd == "attacker_controls"@ { 1 }
    else if kd == "attacker_initial"@ { 2 }
    else if kd == "attacker_may"@ { 3 }
    else if kd == "attacker_goal"@ { 4 }
    else { 0 }
}

/// Whether a child sets the attacker part tagged `t`.
pub open spec fn sets_part(c: CstNode, t: u8) -> bool {
    is_content(c) && atk_tag(c.kind@) == t && (t == 2 ==> hf(c, "predicate"@)) && (t == 3 ==> hf(c, "var"@))
}

/// The last child that sets part `t`.
pub open spec fn last_part(cs: Seq<CstNode>, t: u8) -> Option<CstNode>
    decreases cs.len(),
{
    if cs.len() == 0 { None } else if sets_part(cs.last(), t) { Some(cs.last()) } else { last_part(cs.drop_last(), t) }
}

/// The first content child of a goal that is not a `call_arg`.
pub open spec fn goal_inner(cs: Seq<CstNode>) -> Option<CstNode>
    decreases cs.len(),
{
    if cs.len() == 0 { None }
    else if is_content(cs[0]) && cs[0].kind@ != "call_arg"@ { Some(cs[0]) }
    else { goal_inner(cs.drop_first()) }
}

pub open spec fn goal_is(e: Expr, c: CstNode, src: Seq<char>, file: FileId) -> bool {
    match goal_inner(c.children@) {
        Some(g) => expr_is(e, g, src, file),
        None => e.span == node_span(c, file) && (*e.kind matches ExprKind::LitString(s) && s@ == node_text(c, src)),
    }
}

pub open spec fn goal_diags(c: CstNode, src: Seq<char>, file: FileId) -> Seq<DiagnosticView> {
    match goal_inner(c.children@) {
        Some(g) => expr_diags(g, src, file),
        None => Seq::empty(),
    }
}

pub open spec fn controls_is(p: Param, c: CstNode, src: Seq<char>, file: FileId) -> bool {
    let span = node_span(c, file);
    &&& p.span == span
    &&& fid(p.name, c, "var"@, "<missing>"@, span, src, file)
    &&& p.ty.span == span
    &&& p.ty.kind matches TypeKind::Named(q) && q.segments@.len() == 1
        && fid(q.segments@[0], c, "type"@, "<missing>"@, span, src, file) && q.span == q.segments@[0].span
}

pub open spec fn attacker_is(r: Option<AttackerDecl>, n: CstNode, src: Seq<char>, file: FileId, doc: Option<Seq<char>>) -> bool {
    let cs = n.children@;
    let span = node_span(n, file);
    if hf(n, "name"@) {
        r matches Some(d) && nid_is(d.name, fc(n, "name"@), src, file) && dview(d.doc) == doc && d.span == span
            && match last_part(cs, 1) {
                Some(c) => controls_is(d.controls, c, src, file),
                None => d.controls.span == span && id_is(d.controls.name, "<missing>"@, span) && missing_ty(d.controls.ty, span),
            }
            && match last_part(cs, 2) {
                Some(c) => expr_is(d.initial, fc(c, "predicate"@), src, file),
                None => d.initial.span == span && *d.initial.kind == ExprKind::LitBool(true),
            }
            && (d.may matches AttackerCapability::AnyAllowedFor(v) && match last_part(cs, 3) {
                Some(c) => nid_is(v, fc(c, "var"@), src, file),
                None => id_is(v, "<missing>"@, span),
            })
            && match last_part(cs, 4) {
                Some(c) => goal_is(d.goal, c, src, file),
                None => d.goal.span == span && *d.goal.kind == ExprKind::LitBool(true),
            }
    } else {
        r is None
    }
}

/// The expressions read from the attacker's clauses, in order.
pub open spec fn attacker_parts_diags(cs: Seq<CstNode>, src: Seq<char>, file: FileId) -> Seq<DiagnosticView>
    decreases cs.len(),
{
    if cs.len() == 0 {
        Seq::empty()
    } else {
        attacker_parts_diags(cs.drop_last(), src, file) + if sets_part(cs.last(), 2) {
            expr_diags(fc(cs.last(), "predicate"@), src, file)
        } else if sets_part(cs.last(), 4) {
            goal_diags(cs.last(), src, file)
        } else {
            Seq::empty()
        }
    }
}

pub open spec fn attacker_diags(n: CstNode, src: Seq<char>, file: FileId) -> Seq<DiagnosticView> {
    if hf(n, "name"@) { attacker_parts_diags(n.children@, src, file) } else { Seq::empty() }
}


// ---- exec ----

/// The `<missing>` type at `span`.
pub(crate) fn missing_type(span: Span) -> (r: Type)
    ensures
        missing_ty(r, span),
{
    Type { kind: named_at("<missing>", span), span }
}

/// The type in field `f`, or the `<missing>` type at `span`.
pub(crate) fn field_type(n: &CstNode, f: &str, span: Span, src: &str, file: FileId, out: &mut Vec<Diagnostic>) -> (r: Type)
    requires
        generics_have_base(*n),
    ensures
        ty_or_missing(r, *n, f@, span, src@, file),
        diags_view(final(out)@) == diags_view(old(out)@) + ty_diags(*n, f@, src@, file),
{
    match find_field(n, f) {
        Some(j) => {
            proof {
                lemma_all_generics(n.children@, j as int);
            }
            convert_type_expr(&n.children[j], src, file, out)
        },
        None => {
            proof {
                assert(diags_view(out@) =~= diags_view(out@) + Seq::<DiagnosticView>::empty());
            }
            missing_type(span)
        },
    }
}

/// The identifier in field `f`, if there is one.
pub(crate) fn opt_field_ident(n: &CstNode, f: &str, src: &str, file: FileId) -> (r: Option<Ident>)
    ensures
        oid_is(r, *n, f@, src@, file),
{
    match find_field(n, f) {
        Some(j) => Some(crate::expr_syntax::node_ident(&n.children[j], src, file)),
        None => None,
    }
}

/// The expression in field `j`, which `find_field` gave for `f`.
pub(crate) fn expr_at(n: &CstNode, j: usize, f: Ghost<Seq<char>>, src: &str, file: FileId, out: &mut Vec<Diagnostic>) -> (r: Expr)
    requires
        generics_have_base(*n),
        field_index(n.children@, f@) == Some(j as int),
        j < n.children@.len(),
    ensures
        fx(r, *n, f@, src@, file),
        expr_is(r, fc(*n, f@), src@, file),
        diags_view(final(out)@) == diags_view(old(out)@) + fx_diags(*n, f@, src@, file),
        diags_view(final(out)@) == diags_view(old(out)@) + expr_diags(fc(*n, f@), src@, file),
{
    proof {
        lemma_all_generics(n.children@, j as int);
    }
    convert_expr(&n.children[j], src, file, out)
}

/// The type in field `j`, which `find_field` gave for `f`.
pub(crate) fn type_at(n: &CstNode, j: usize, f: Ghost<Seq<char>>, src: &str, file: FileId, out: &mut Vec<Diagnostic>) -> (r: Type)
    requires
        generics_have_base(*n),
        field_index(n.children@, f@) == Some(j as int),
        j < n.children@.len(),
    ensures
        type_is(r, fc(*n, f@), src@, file),
        diags_view(final(out)@) == diags_view(old(out)@) + type_diags(fc(*n, f@), src@, file),
        diags_view(final(out)@) == diags_view(old(out)@) + ty_diags(*n, f@, src@, file),
{
    proof {
        lemma_all_generics(n.children@, j as int);
    }
    convert_type_expr(&n.children[j], src, file, out)
}

/// The parameters of the named `param` children of `p`.
pub fn convert_params(p: &CstNode, src: &str, file: FileId, out: &mut Vec<Diagnostic>) -> (r: Vec<Param>)
    requires
        generics_have_base(*p),
    ensures
        params_in(r@, p.children@, src@, file),
        diags_view(final(out)@) == diags_view(old(out)@) + params_diags(p.children@, src@, file),
{
    let ghost cs = p.children@;
    let ghost h = diags_view(out@);
    let mut ps: Vec<Param> = Vec::new();
    let mut i: usize = 0;
    proof {
        assert(cs.subrange(0, 0) =~= Seq::<CstNode>::empty());
        assert(h + Seq::<DiagnosticView>::empty() =~= h);
    }
    while i < p.children.len()
        invariant
            i <= cs.len(),
            cs == p.children@,
            generics_have_base(*p),
            params_in(ps@, cs.subrange(0, i as int), src@, file),
            diags_view(out@) == h + params_diags(cs.subrange(0, i as int), src@, file),
        decreases cs.len() - i,
    {
        let ghost pre = cs.subrange(0, i + 1);
        proof {
            assert(pre.drop_last() =~= cs.subrange(0, i as int));
            assert(pre.last() == cs[i as int]);
        }
        let c = &p.children[i];
        if c.named && str_eq(c.kind.as_str(), "param") {
            proof {
                lemma_all_generics(cs, i as int);
            }
            let span = Span::new(file, c.start, c.end);
            let name = crate::expr_syntax::field_ident(c, "name", "<missing>", span, src, file);
            let ty = field_type(c, "type", span, src, file, out);
            let ghost before = ps@;
            ps.push(Param { name, ty, span });
            proof {
                assert(ps@.drop_last() =~= before);
            }
        }
        i += 1;
    }
    proof {
        assert(cs.subrange(0, i as int) =~= cs);
    }
    ps
}

/// The parameters of `n`'s first `param_list` child.
pub(crate) fn param_list_of(n: &CstNode, src: &str, file: FileId, out: &mut Vec<Diagnostic>) -> (r: Vec<Param>)
    requires
        generics_have_base(*n),
    ensures
        plist_is(r@, *n, src@, file),
        diags_view(final(out)@) == diags_view(old(out)@) + plist_diags(*n, src@, file),
{
    match crate::expr_syntax::first_of_kind(n, "param_list", Ghost(src@), Ghost(file), Ghost(Span::spec_synthetic())) {
        Some(j) => {
            proof {
                lemma_all_generics(n.children@, j as int);
            }
            convert_params(&n.children[j], src, file, out)
        },
        None => {
            proof {
                assert(diags_view(out@) =~= diags_view(out@) + Seq::<DiagnosticView>::empty());
            }
            Vec::new()
        },
    }
}

/// A `type` declaration: its name and its type (`value` field, else
/// `type`), or `None` without them.
pub fn convert_type_alias(n: &CstNode, src: &str, file: FileId, doc: Option<String>, out: &mut Vec<Diagnostic>)
    -> (r: Option<TypeAliasDecl>)
    requires
        generics_have_base(*n),
    ensures
        type_alias_is(r, *n, src@, file, dview(doc)),
        diags_view(final(out)@) == diags_view(old(out)@) + type_alias_diags(*n, src@, file),
{
    proof {
        assert(diags_view(out@) =~= diags_view(out@) + Seq::<DiagnosticView>::empty());
    }
    let jn = match find_field(n, "name") { Some(j) => j, None => return None };
    let name = crate::expr_syntax::node_ident(&n.children[jn], src, file);
    let ty = match find_field(n, "value") {
        Some(j) => type_at(n, j, Ghost("value"@), src, file, out),
        None => match find_field(n, "type") {
            Some(j) => type_at(n, j, Ghost("type"@), src, file, out),
            None => return None,
        },
    };
    Some(TypeAliasDecl { name, ty, doc, span: Span::new(file, n.start, n.end) })
}

/// An `actor` declaration, or `None` without a name.
pub fn convert_actor(n: &CstNode, src: &str, file: FileId, doc: Option<String>) -> (r: Option<ActorDecl>)
    ensures
        actor_is(r, *n, src@, file, dview(doc)),
{
    let jn = match find_field(n, "name") { Some(j) => j, None => return None };
    let name = crate::expr_syntax::node_ident(&n.children[jn], src, file);
    let extends = opt_field_ident(n, "parent", src, file);
    Some(ActorDecl { name, extends, doc, span: Span::new(file, n.start, n.end) })
}

/// The event fields of the named `param` children of `p`.
fn convert_event_fields(p: &CstNode, src: &str, file: FileId, out: &mut Vec<Diagnostic>) -> (r: Vec<EventField>)
    requires
        generics_have_base(*p),
    ensures
        fields_in(r@, p.children@, src@, file),
        diags_view(final(out)@) == diags_view(old(out)@) + params_diags(p.children@, src@, file),
{
    let ghost cs = p.children@;
    let ghost h = diags_view(out@);
    let mut fs: Vec<EventField> = Vec::new();
    let mut i: usize = 0;
    proof {
        assert(cs.subrange(0, 0) =~= Seq::<CstNode>::empty());
        assert(h + Seq::<DiagnosticView>::empty() =~= h);
    }
    while i < p.children.len()
        invariant
            i <= cs.len(),
            cs == p.children@,
            generics_have_base(*p),
            fields_in(fs@, cs.subrange(0, i as int), src@, file),
            diags_view(out@) == h + params_diags(cs.subrange(0, i as int), src@, file),
        decreases cs.len() - i,
    {
        let ghost pre = cs.subrange(0, i + 1);
        proof {
            assert(pre.drop_last() =~= cs.subrange(0, i as int));
            assert(pre.last() == cs[i as int]);
        }
        let c = &p.children[i];
        if c.named && str_eq(c.kind.as_str(), "param") {
            proof {
                lemma_all_generics(cs, i as int);
            }
            let span = Span::new(file, c.start, c.end);
            let name = crate::expr_syntax::field_ident(c, "name", "<missing>", span, src, file);
            let ty = field_type(c, "type", span, src, file, out);
            let ghost before = fs@;
            fs.push(EventField { name, ty, span });
            proof {
                assert(fs@.drop_last() =~= before);
            }
        }
        i += 1;
    }
    proof {
        assert(cs.subrange(0, i as int) =~= cs);
    }
    fs
}

/// An `event` declaration: its name and the fields of its parameter
/// list, or `None` without a name.
pub fn convert_event(n: &CstNode, src: &str, file: FileId, doc: Option<String>, out: &mut Vec<Diagnostic>)
    -> (r: Option<EventDecl>)
    requires
        generics_have_base(*n),
    ensures
        event_is(r, *n, src@, file, dview(doc)),
        diags_view(final(out)@) == diags_view(old(out)@)
            + if hf(*n, "name"@) { plist_diags(*n, src@, file) } else { Seq::<DiagnosticView>::empty() },
{
    proof {
        assert(diags_view(out@) =~= diags_view(out@) + Seq::<DiagnosticView>::empty());
    }
    let jn = match find_field(n, "name") { Some(j) => j, None => return None };
    let name = crate::expr_syntax::node_ident(&n.children[jn], src, file);
    let fields = match crate::expr_syntax::first_of_kind(n, "param_list", Ghost(src@), Ghost(file), Ghost(Span::spec_synthetic())) {
        Some(j) => {
            proof {
                lemma_all_generics(n.children@, j as int);
            }
            convert_event_fields(&n.children[j], src, file, out)
        },
        None => Vec::new(),
    };
    Some(EventDecl { name, fields, doc, span: Span::new(file, n.start, n.end) })
}

/// A `const` declaration: its name and type, or `None` without them.
pub fn convert_const(n: &CstNode, src: &str, file: FileId, doc: Option<String>, out: &mut Vec<Diagnostic>)
    -> (r: Option<ConstDecl>)
    requires
        generics_have_base(*n),
    ensures
        const_is(r, *n, src@, file, dview(doc)),
        diags_view(final(out)@) == diags_view(old(out)@) + named_type_diags(*n, src@, file),
{
    proof {
        assert(diags_view(out@) =~= diags_view(out@) + Seq::<DiagnosticView>::empty());
    }
    let jn = match find_field(n, "name") { Some(j) => j, None => return None };
    let name = crate::expr_syntax::node_ident(&n.children[jn], src, file);
    let jt = match find_field(n, "type") { Some(j) => j, None => return None };
    let ty = type_at(n, jt, Ghost("type"@), src, file, out);
    Some(ConstDecl { name, ty, doc, span: Span::new(file, n.start, n.end) })
}

/// An `extern` declaration: its name and type, or `None` without them.
pub fn convert_extern(n: &CstNode, src: &str, file: FileId, doc: Option<String>, out: &mut Vec<Diagnostic>)
    -> (r: Option<ExternDecl>)
    requires
        generics_have_base(*n),
    ensures
        extern_is(r, *n, src@, file, dview(doc)),
        diags_view(final(out)@) == diags_view(old(out)@) + named_type_diags(*n, src@, file),
{
    proof {
        assert(diags_view(out@) =~= diags_view(out@) + Seq::<DiagnosticView>::empty());
    }
    let jn = match find_field(n, "name") { Some(j) => j, None => return None };
    let name = crate::expr_syntax::node_ident(&n.children[jn], src, file);
    let jt = match find_field(n, "type") { Some(j) => j, None => return None };
    let ty = type_at(n, jt, Ghost("type"@), src, file, out);
    Some(ExternDecl { name, ty, doc, span: Span::new(file, n.start, n.end) })
}

/// An observable declaration (with `actor`, the `observable for` form):
/// `None` when a required field is missing.
pub fn convert_observable(n: &CstNode, actor: bool, src: &str, file: FileId, doc: Option<String>, out: &mut Vec<Diagnostic>)
    -> (r: Option<ObservableDecl>)
    requires
        generics_have_base(*n),
    ensures
        observable_is(r, *n, actor, src@, file, dview(doc)),
        diags_view(final(out)@) == diags_view(old(out)@) + observable_diags(*n, actor, src@, file),
{
    let ghost h = diags_view(out@);
    proof {
        assert(h =~= h + Seq::<DiagnosticView>::empty());
    }
    let mut for_actor: Option<ActorBinder> = None;
    if actor {
        let ja = match find_field(n, "actor_var") { Some(j) => j, None => return None };
        let jt = match find_field(n, "actor_type") { Some(j) => j, None => return None };
        let var = crate::expr_syntax::node_ident(&n.children[ja], src, file);
        let actor_ty = crate::expr_syntax::node_ident(&n.children[jt], src, file);
        let vspan = var.span;
        for_actor = Some(ActorBinder { name: var, actor_ty, span: vspan });
    }
    let jn = match find_field(n, "name") { Some(j) => j, None => return None };
    let name = crate::expr_syntax::node_ident(&n.children[jn], src, file);
    let params = param_list_of(n, src, file, out);
    let ghost d1 = diags_view(out@);
    let jr = match find_field(n, "return_type") {
        Some(j) => j,
        None => {
            proof {
                assert(d1 =~= h + observable_diags(*n, actor, src@, file));
            }
            return None;
        },
    };
    let return_ty = type_at(n, jr, Ghost("return_type"@), src, file, out);
    let jb = match find_field(n, "body") {
        Some(j) => j,
        None => {
            proof {
                assert(diags_view(out@) =~= h + observable_diags(*n, actor, src@, file));
            }
            return None;
        },
    };
    let body = expr_at(n, jb, Ghost("body"@), src, file, out);
    proof {
        assert(diags_view(out@) =~= h + observable_diags(*n, actor, src@, file));
    }
    Some(ObservableDecl { name, for_actor, params, return_ty, body, doc, span: Span::new(file, n.start, n.end) })
}

/// A history predicate: its name, parameters and body, or `None`
/// without a name or a body.
pub fn convert_history_predicate(n: &CstNode, src: &str, file: FileId, doc: Option<String>, out: &mut Vec<Diagnostic>)
    -> (r: Option<HistoryPredicateDecl>)
    requires
        generics_have_base(*n),
    ensures
        history_is(r, *n, src@, file, dview(doc)),
        diags_view(final(out)@) == diags_view(old(out)@) + history_diags(*n, src@, file),
{
    let ghost h = diags_view(out@);
    proof {
        assert(h =~= h + Seq::<DiagnosticView>::empty());
    }
    let jn = match find_field(n, "name") { Some(j) => j, None => return None };
    let name = crate::expr_syntax::node_ident(&n.children[jn], src, file);
    let params = param_list_of(n, src, file, out);
    let jb = match find_field(n, "body") {
        Some(j) => j,
        None => {
            proof {
                assert(diags_view(out@) =~= h + history_diags(*n, src@, file));
            }
            return None;
        },
    };
    let body = expr_at(n, jb, Ghost("body"@), src, file, out);
    proof {
        assert(diags_view(out@) =~= h + history_diags(*n, src@, file));
    }
    Some(HistoryPredicateDecl { name, params, body, doc, span: Span::new(file, n.start, n.end) })
}


fn atk_tag_of(kd: &str) -> (r: u8)
    ensures
        r == atk_tag(kd@),
{
    if str_eq(kd, "attacker_controls") { 1 }
    else if str_eq(kd, "attacker_initial") { 2 }
    else if str_eq(kd, "attacker_may") { 3 }
    else if str_eq(kd, "attacker_goal") { 4 }
    else { 0 }
}

/// The index of the first content child of `c` that is not a `call_arg`.
fn goal_inner_index(c: &CstNode) -> (r: Option<usize>)
    ensures
        match r {
            Some(i) => i < c.children@.len() && goal_inner(c.children@) == Some(c.children@[i as int]),
            None => goal_inner(c.children@) is None,
        },
{
    let ghost cs = c.children@;
    let n = c.children.len();
    let mut i: usize = 0;
    proof {
        assert(cs.subrange(0, n as int) =~= cs);
    }
    while i < n
        invariant
            n == cs.len(),
            cs == c.children@,
            i <= n,
            goal_inner(cs) == goal_inner(cs.subrange(i as int, n as int)),
        decreases n - i,
    {
        proof {
            let sub = cs.subrange(i as int, n as int);
            assert(sub[0] == cs[i as int]);
            assert(sub.drop_first() =~= cs.subrange(i + 1, n as int));
        }
        let k = &c.children[i];
        if crate::expr_syntax::is_content_node(k) && !str_eq(k.kind.as_str(), "call_arg") {
            return Some(i);
        }
        i += 1;
    }
    proof {
        assert(cs.subrange(n as int, n as int) =~= Seq::<CstNode>::empty());
    }
    None
}

fn convert_goal(c: &CstNode, src: &str, file: FileId, out: &mut Vec<Diagnostic>) -> (r: Expr)
    requires
        generics_have_base(*c),
    ensures
        goal_is(r, *c, src@, file),
        diags_view(final(out)@) == diags_view(old(out)@) + goal_diags(*c, src@, file),
{
    match goal_inner_index(c) {
        Some(i) => {
            proof {
                lemma_all_generics(c.children@, i as int);
            }
            convert_expr(&c.children[i], src, file, out)
        },
        None => {
            proof {
                assert(diags_view(out@) =~= diags_view(out@) + Seq::<DiagnosticView>::empty());
            }
            Expr { kind: Box::new(ExprKind::LitString(owned(text_of(c, src)))), span: Span::new(file, c.start, c.end) }
        },
    }
}

/// An `attacker` declaration: what it controls, its initial condition,
/// its capability and its goal, each from the last clause that gives
/// it, with defaults for the missing ones; `None` without a name.
pub fn convert_attacker(n: &CstNode, src: &str, file: FileId, doc: Option<String>, out: &mut Vec<Diagnostic>)
    -> (r: Option<AttackerDecl>)
    requires
        generics_have_base(*n),
    ensures
        attacker_is(r, *n, src@, file, dview(doc)),
        diags_view(final(out)@) == diags_view(old(out)@) + attacker_diags(*n, src@, file),
{
    let ghost h = diags_view(out@);
    proof {
        assert(h =~= h + Seq::<DiagnosticView>::empty());
    }
    let jn = match find_field(n, "name") { Some(j) => j, None => return None };
    let name = crate::expr_syntax::node_ident(&n.children[jn], src, file);
    let span = Span::new(file, n.start, n.end);
    let ghost cs = n.children@;
    let mut controls: Option<Param> = None;
    let mut initial: Option<Expr> = None;
    let mut may: Option<Ident> = None;
    let mut goal: Option<Expr> = None;
    let mut i: usize = 0;
    proof {
        assert(cs.subrange(0, 0) =~= Seq::<CstNode>::empty());
    }
    while i < n.children.len()
        invariant
            i <= cs.len(),
            cs == n.children@,
            generics_have_base(*n),
            match last_part(cs.subrange(0, i as int), 1) {
                Some(c) => controls matches Some(p) && controls_is(p, c, src@, file),
                None => controls is None,
            },
            match last_part(cs.subrange(0, i as int), 2) {
                Some(c) => initial matches Some(e) && expr_is(e, fc(c, "predicate"@), src@, file),
                None => initial is None,
            },
            match last_part(cs.subrange(0, i as int), 3) {
                Some(c) => may matches Some(v) && nid_is(v, fc(c, "var"@), src@, file),
                None => may is None,
            },
            match last_part(cs.subrange(0, i as int), 4) {
                Some(c) => goal matches Some(e) && goal_is(e, c, src@, file),
                None => goal is None,
            },
            diags_view(out@) == h + attacker_parts_diags(cs.subrange(0, i as int), src@, file),
        decreases cs.len() - i,
    {
        let ghost pre = cs.subrange(0, i + 1);
        proof {
            assert(pre.drop_last() =~= cs.subrange(0, i as int));
            assert(pre.last() == cs[i as int]);
        }
        let c = &n.children[i];
        proof {
            lemma_all_generics(cs, i as int);
        }
        if crate::expr_syntax::is_content_node(c) {
            let t = atk_tag_of(c.kind.as_str());
            if t == 1 {
                let cspan = Span::new(file, c.start, c.end);
                let var = crate::expr_syntax::field_ident(c, "var", "<missing>", cspan, src, file);
                let ty_id = crate::expr_syntax::field_ident(c, "type", "<missing>", cspan, src, file);
                let ghost tid = ty_id;
                let mut segs: Vec<Ident> = Vec::new();
                segs.push(ty_id);
                proof {
                    assert(tid.span.spec_merge(tid.span) == tid.span);
                }
                let ty = Type { kind: TypeKind::Named(QualifiedName::new(segs)), span: cspan };
                controls = Some(Param { name: var, ty, span: cspan });
                proof {
                    assert(diags_view(out@) =~= h + attacker_parts_diags(pre, src@, file));
                }
            } else if t == 2 {
                match find_field(c, "predicate") {
                    Some(j) => {
                        initial = Some(expr_at(c, j, Ghost("predicate"@), src, file, out));
                    },
                    None => {
                        proof {
                            assert(diags_view(out@) =~= h + attacker_parts_diags(pre, src@, file));
                        }
                    },
                }
            } else if t == 3 {
                match find_field(c, "var") {
                    Some(j) => {
                        may = Some(crate::expr_syntax::node_ident(&c.children[j], src, file));
                    },
                    None => {},
                }
                proof {
                    assert(diags_view(out@) =~= h + attacker_parts_diags(pre, src@, file));
                }
            } else if t == 4 {
                goal = Some(convert_goal(c, src, file, out));
            } else {
                proof {
                    assert(diags_view(out@) =~= h + attacker_parts_diags(pre, src@, file));
                }
            }
        } else {
            proof {
                assert(diags_view(out@) =~= h + attacker_parts_diags(pre, src@, file));
            }
        }
        i += 1;
    }
    proof {
        assert(cs.subrange(0, i as int) =~= cs);
    }
    let controls = match controls {
        Some(p) => p,
        None => Param { name: Ident::new("<missing>", span), ty: missing_type(span), span },
    };
    let initial = match initial {
        Some(e) => e,
        None => Expr { kind: Box::new(ExprKind::LitBool(true)), span },
    };
    let may = match may {
        Some(v) => AttackerCapability::AnyAllowedFor(v),
        None => AttackerCapability::AnyAllowedFor(Ident::new("<missing>", span)),
    };
    let goal = match goal {
        Some(e) => e,
        None => Expr { kind: Box::new(ExprKind::LitBool(true)), span },
    };
    Some(AttackerDecl { name, controls, initial, may, goal, doc, span })
}

} // verus!
