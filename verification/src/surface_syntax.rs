//! Surface blocks read off their syntax trees: state fields, `init`
//! assignments, defaults, properties, actions and observables.

use vstd::prelude::*;
use crate::cst::{CstNode, field_index, first_child_index, node_span, node_text, text_of};
use crate::decl::{ActorBinder, ObservableDecl};
use crate::decl_syntax::{dview, ty_or_missing, ty_diags, plist_is, plist_diags, observable_is, observable_diags,
    observable_complete, field_type, param_list_of, expr_at, convert_observable};
use crate::diagnostic::{Diagnostic, DiagnosticView, diags_view};
use crate::effect_syntax::{hf, fc, fx_diags, stmts_is, stmts_diags, convert_effect_block};
use crate::expr::{Expr, ExprKind};
use crate::expr_syntax::{is_content, nid_is, id_is, fid, expr_is, expr_diags, convert_expr};
use crate::fairness_syntax::{spec_find, find_str, fairness_is, convert_fairness_decl};
use crate::ident::Ident;
use crate::slot::{SlotAssign, SlotKind, SlotValue};
use crate::slot_syntax::{field_node, slot_value_is, convert_slot_assign, convert_slot_value};
use crate::span::{FileId, Span};
use crate::substrate::FairnessSpec;
use crate::surface::{ActionDecl, DefaultsBlock, DerivedShape, EffectBlock, InitAssignment, InternalActionDecl, Property,
    PropertyKind, RaisesClause, RetentionClass, StateField, StateFieldKind, SurfaceBlock};
use crate::syntax::{spec_doc_string_text, spec_retention_class, doc_string_text, retention_class_from_slot_value};
use crate::text::str_eq;
use crate::type_syntax::{generics_have_base, lemma_all_generics, find_field, type_is, convert_type_expr};
use crate::cst::id_view;

verus! {

// ---- slot assignments ----

/// The slot assignment a `slot_assign` node spells.
pub open spec fn slot_assign_is(a: SlotAssign, n: CstNode, src: Seq<char>, file: FileId) -> bool {
    &&& a.span == node_span(n, file)
    &&& a.kind == match field_node(n, "slot"@) {
        Some(c) => match SlotKind::spec_from_name(node_text(c, src)) {
            Some(k) => k,
            None => SlotKind::Idempotency,
        },
        None => SlotKind::Idempotency,
    }
    &&& match field_node(n, "value"@) {
        Some(v) => slot_value_is(a.value, v, src, file),
        None => a.value matches SlotValue::Unknown(id) && id_view(id) == ("<missing>"@, node_span(n, file)),
    }
}

/// The slot assignments of the named `slot_assign` children.
pub open spec fn slots_in(ss: Seq<SlotAssign>, cs: Seq<CstNode>, src: Seq<char>, file: FileId) -> bool
    decreases cs.len(),
{
    if cs.len() == 0 {
        ss.len() == 0
    } else if cs.last().named && cs.last().kind@ == "slot_assign"@ {
        ss.len() > 0 && slot_assign_is(ss.last(), cs.last(), src, file) && slots_in(ss.drop_last(), cs.drop_last(), src, file)
    } else {
        slots_in(ss, cs.drop_last(), src, file)
    }
}

// ---- properties ----

pub open spec fn ends_expr(k: Seq<char>) -> bool {
    k.len() >= 5 && k.subrange(k.len() - 5, k.len() as int) == "_expr"@
}

/// The node kinds a property body can be.
pub open spec fn body_kind(k: Seq<char>) -> bool {
    ends_expr(k) || k == "field_access"@ || k == "index_expr"@ || k == "indexed_path"@ || k == "tuple_expr"@
        || k == "set_expr"@ || k == "seq_literal"@ || k == "map_literal"@ || k == "record_expr"@ || k == "string"@
        || k == "number"@ || k == "bool_lit"@ || k == "none_lit"@ || k == "wildcard"@ || k == "param_ref"@
        || k == "some_call"@ || k == "comprehension"@ || k == "qualified_name"@
}

pub open spec fn body_candidate(c: CstNode, i: int, name_idx: Option<int>) -> bool {
    c.named && if c.kind@ == "identifier"@ { name_idx != Some(i) } else { body_kind(c.kind@) }
}

/// The last child that can be a property's body.
pub open spec fn body_idx(cs: Seq<CstNode>, name_idx: Option<int>) -> Option<int>
    decreases cs.len(),
{
    if cs.len() == 0 { None }
    else if body_candidate(cs.last(), cs.len() - 1, name_idx) { Some(cs.len() - 1) }
    else { body_idx(cs.drop_last(), name_idx) }
}

pub open spec fn prop_kind(t: Seq<char>) -> PropertyKind {
    if spec_find(t, "always"@) is Some { PropertyKind::Safety }
    else if spec_find(t, "eventually"@) is Some { PropertyKind::Liveness }
    else { PropertyKind::Safety }
}

pub open spec fn property_is(r: Option<Property>, n: CstNode, src: Seq<char>, file: FileId, doc: Option<Seq<char>>) -> bool {
    let cs = n.children@;
    let span = node_span(n, file);
    if hf(n, "name"@) {
        r matches Some(p) && nid_is(p.name, fc(n, "name"@), src, file) && p.kind == prop_kind(node_text(n, src))
            && dview(p.doc) == doc && p.span == span
            && match body_idx(cs, field_index(cs, "name"@)) {
                Some(j) => expr_is(p.body, cs[j], src, file),
                None => p.body.span == span && *p.body.kind == ExprKind::LitBool(true),
            }
    } else {
        r is None
    }
}

pub open spec fn property_diags(n: CstNode, src: Seq<char>, file: FileId) -> Seq<DiagnosticView> {
    let cs = n.children@;
    if hf(n, "name"@) {
        match body_idx(cs, field_index(cs, "name"@)) {
            Some(j) => expr_diags(cs[j], src, file),
            None => Seq::empty(),
        }
    } else {
        Seq::empty()
    }
}

// ---- state fields ----

pub open spec fn sf_tag(kd: Seq<char>) -> u8 {
    if kd == "derived_modifier"@ { 1 } else if kd == "retention_modifier"@ { 2 } else if kd == "private_modifier"@ { 3 } else { 0 }
}

pub open spec fn sets_mod(c: CstNode, t: u8) -> bool {
    is_content(c) && sf_tag(c.kind@) == t && (t == 2 ==> hf(c, "value"@))
}

pub open spec fn last_mod(cs: Seq<CstNode>, t: u8) -> Option<CstNode>
    decreases cs.len(),
{
    if cs.len() == 0 { None } else if sets_mod(cs.last(), t) { Some(cs.last()) } else { last_mod(cs.drop_last(), t) }
}

pub open spec fn derived_is(k: StateFieldKind, c: CstNode, src: Seq<char>, file: FileId) -> bool {
    k matches StateFieldKind::Derived { shape, of_type }
        && shape == (if hf(c, "shape"@) { DerivedShape::spec_from_name(node_text(fc(c, "shape"@), src)) } else { None })
        && if hf(c, "of"@) { of_type matches Some(t) && type_is(t, fc(c, "of"@), src, file) } else { of_type is None }
}

pub open spec fn retention_is(r: Option<RetentionClass>, c: CstNode, src: Seq<char>, file: FileId) -> bool {
    exists|sv: SlotValue| slot_value_is(sv, fc(c, "value"@), src, file) && r == spec_retention_class(sv)
}

pub open spec fn mods_diags(cs: Seq<CstNode>, src: Seq<char>, file: FileId) -> Seq<DiagnosticView>
    decreases cs.len(),
{
    if cs.len() == 0 {
        Seq::empty()
    } else {
        mods_diags(cs.drop_last(), src, file) + if sets_mod(cs.last(), 1) { ty_diags(cs.last(), "of"@, src, file) } else { Seq::empty() }
    }
}

pub open spec fn state_field_is(f: StateField, n: CstNode, src: Seq<char>, file: FileId, doc: Option<Seq<char>>) -> bool {
    let cs = n.children@;
    let span = node_span(n, file);
    &&& fid(f.name, n, "name"@, "<missing>"@, span, src, file)
    &&& ty_or_missing(f.ty, n, "type"@, span, src, file)
    &&& match last_mod(cs, 1) {
        Some(c) => derived_is(f.kind, c, src, file),
        None => f.kind == StateFieldKind::Plain,
    }
    &&& match last_mod(cs, 2) {
        Some(c) => retention_is(f.retention, c, src, file),
        None => f.retention is None,
    }
    &&& f.private == (last_mod(cs, 3) is Some)
    &&& dview(f.doc) == doc
    &&& f.span == span
}

pub open spec fn state_field_diags(n: CstNode, src: Seq<char>, file: FileId) -> Seq<DiagnosticView> {
    ty_diags(n, "type"@, src, file) + mods_diags(n.children@, src, file)
}

// ---- init assignments and raises ----

pub open spec fn init_some(f: CstNode) -> bool {
    f.kind@ == "assign_effect"@ && hf(f, "target"@) && fc(f, "target"@).kind@ == "identifier"@ && hf(f, "value"@)
}

pub open spec fn init_is(a: InitAssignment, f: CstNode, src: Seq<char>, file: FileId) -> bool {
    nid_is(a.name, fc(f, "target"@), src, file) && expr_is(a.value, fc(f, "value"@), src, file) && a.span == node_span(f, file)
}

pub open spec fn raise_is(r: RaisesClause, e: CstNode, src: Seq<char>, file: FileId) -> bool {
    let span = node_span(e, file);
    &&& r.span == span
    &&& fid(r.name, e, "name"@, "<missing>"@, span, src, file)
    &&& if hf(e, "guard"@) { expr_is(r.guard, fc(e, "guard"@), src, file) } else { r.guard.span == span && *r.guard.kind == ExprKind::LitBool(true) }
}

pub open spec fn raises_in(rs: Seq<RaisesClause>, cs: Seq<CstNode>, src: Seq<char>, file: FileId) -> bool
    decreases cs.len(),
{
    if cs.len() == 0 {
        rs.len() == 0
    } else if cs.last().named && cs.last().kind@ == "raises_entry"@ {
        rs.len() > 0 && raise_is(rs.last(), cs.last(), src, file) && raises_in(rs.drop_last(), cs.drop_last(), src, file)
    } else {
        raises_in(rs, cs.drop_last(), src, file)
    }
}

pub open spec fn raises_diags(cs: Seq<CstNode>, src: Seq<char>, file: FileId) -> Seq<DiagnosticView>
    decreases cs.len(),
{
    if cs.len() == 0 {
        Seq::empty()
    } else {
        raises_diags(cs.drop_last(), src, file)
            + if cs.last().named && cs.last().kind@ == "raises_entry"@ { fx_diags(cs.last(), "guard"@, src, file) } else { Seq::empty() }
    }
}

// ---- actions ----

/// The guard of the first `when_clause` child, if it has one.
pub open spec fn when_guard(cs: Seq<CstNode>) -> Option<CstNode> {
    match first_child_index(cs, "when_clause"@) {
        Some(j) => if hf(cs[j], "guard"@) { Some(fc(cs[j], "guard"@)) } else { None },
        None => None,
    }
}

pub open spec fn when_is(w: Option<Expr>, cs: Seq<CstNode>, src: Seq<char>, file: FileId) -> bool {
    match when_guard(cs) {
        Some(g) => w matches Some(e) && expr_is(e, g, src, file),
        None => w is None,
    }
}

pub open spec fn when_diags(cs: Seq<CstNode>, src: Seq<char>, file: FileId) -> Seq<DiagnosticView> {
    match when_guard(cs) {
        Some(g) => expr_diags(g, src, file),
        None => Seq::empty(),
    }
}

/// The effect block of the first `then_block` child, or an empty one at
/// `span`.
pub open spec fn body_block_is(b: EffectBlock, cs: Seq<CstNode>, span: Span, src: Seq<char>, file: FileId) -> bool {
    match first_child_index(cs, "then_block"@) {
        Some(j) => b.span == node_span(cs[j], file) && stmts_is(b.stmts@, cs[j].children@, None, None, src, file),
        None => b.span == span && b.stmts@.len() == 0,
    }
}

pub open spec fn body_block_diags(cs: Seq<CstNode>, src: Seq<char>, file: FileId) -> Seq<DiagnosticView> {
    match first_child_index(cs, "then_block"@) {
        Some(j) => stmts_diags(cs[j].children@, None, None, src, file),
        None => Seq::empty(),
    }
}

pub open spec fn actor_binder_is(a: ActorBinder, cs: Seq<CstNode>, span: Span, src: Seq<char>, file: FileId) -> bool {
    match first_child_index(cs, "by_clause"@) {
        Some(j) => fid(a.name, cs[j], "var"@, "<missing>"@, span, src, file)
            && fid(a.actor_ty, cs[j], "type"@, "<missing>"@, span, src, file) && a.span == a.name.span,
        None => id_is(a.name, "<no-actor>"@, span) && id_is(a.actor_ty, "<missing>"@, span) && a.span == span,
    }
}

pub open spec fn raises_of(rs: Seq<RaisesClause>, cs: Seq<CstNode>, src: Seq<char>, file: FileId) -> bool {
    match first_child_index(cs, "raises_block"@) {
        Some(j) => raises_in(rs, cs[j].children@, src, file),
        None => rs.len() == 0,
    }
}

pub open spec fn raises_of_diags(cs: Seq<CstNode>, src: Seq<char>, file: FileId) -> Seq<DiagnosticView> {
    match first_child_index(cs, "raises_block"@) {
        Some(j) => raises_diags(cs[j].children@, src, file),
        None => Seq::empty(),
    }
}

/// The action an action declaration with a name spells.
pub open spec fn action_is(a: ActionDecl, n: CstNode, internal: bool, src: Seq<char>, file: FileId, doc: Option<Seq<char>>) -> bool {
    let cs = n.children@;
    let span = node_span(n, file);
    &&& nid_is(a.name, fc(n, "name"@), src, file)
    &&& plist_is(a.params@, n, src, file)
    &&& if hf(n, "return_type"@) { a.return_ty matches Some(t) && type_is(t, fc(n, "return_type"@), src, file) } else { a.return_ty is None }
    &&& actor_binder_is(a.actor, cs, span, src, file)
    &&& when_is(a.when_pre, cs, src, file)
    &&& raises_of(a.raises@, cs, src, file)
    &&& slots_in(a.slots@, cs, src, file)
    &&& body_block_is(a.body, cs, span, src, file)
    &&& dview(a.doc) == doc
    &&& a.span == span
    &&& a.is_internal == internal
}

pub open spec fn action_diags(n: CstNode, src: Seq<char>, file: FileId) -> Seq<DiagnosticView> {
    let cs = n.children@;
    if hf(n, "name"@) {
        ty_diags(n, "return_type"@, src, file) + plist_diags(n, src, file) + when_diags(cs, src, file)
            + raises_of_diags(cs, src, file) + body_block_diags(cs, src, file)
    } else {
        Seq::empty()
    }
}


// ---- surface blocks ----

/// The doc comment waiting for the next declaration: the text of the
/// last content child if it is a `doc_string`.
pub open spec fn pending(cs: Seq<CstNode>, src: Seq<char>) -> Option<Seq<char>>
    decreases cs.len(),
{
    if cs.len() == 0 {
        None
    } else if is_content(cs.last()) {
        if sb_tag(cs.last().kind@) == 1 { Some(spec_doc_string_text(node_text(cs.last(), src))) } else { None }
    } else {
        pending(cs.drop_last(), src)
    }
}

/// Which item of a `state` block a child kind is (0: none).
pub open spec fn st_tag(kd: Seq<char>) -> u8 {
    if kd == "doc_string"@ { 1 } else if kd == "state_field"@ { 2 } else { 0 }
}

/// The doc comment waiting inside a `state` block: a `doc_string` not yet
/// taken by a state field.
pub open spec fn ipending(cs: Seq<CstNode>, src: Seq<char>) -> Option<Seq<char>>
    decreases cs.len(),
{
    if cs.len() == 0 {
        None
    } else if is_content(cs.last()) && st_tag(cs.last().kind@) == 1 {
        Some(spec_doc_string_text(node_text(cs.last(), src)))
    } else if is_content(cs.last()) && st_tag(cs.last().kind@) == 2 {
        None
    } else {
        ipending(cs.drop_last(), src)
    }
}

/// The state fields of a `state` block's children.
pub open spec fn fields_of(fs: Seq<StateField>, cs: Seq<CstNode>, src: Seq<char>, file: FileId) -> bool
    decreases cs.len(),
{
    if cs.len() == 0 {
        fs.len() == 0
    } else if is_content(cs.last()) && st_tag(cs.last().kind@) == 2 {
        fs.len() > 0 && state_field_is(fs.last(), cs.last(), src, file, ipending(cs.drop_last(), src))
            && fields_of(fs.drop_last(), cs.drop_last(), src, file)
    } else {
        fields_of(fs, cs.drop_last(), src, file)
    }
}

pub open spec fn fields_count(cs: Seq<CstNode>) -> nat
    decreases cs.len(),
{
    if cs.len() == 0 { 0 } else { fields_count(cs.drop_last())
        + if is_content(cs.last()) && st_tag(cs.last().kind@) == 2 { 1nat } else { 0nat } }
}

pub open spec fn fields_diags(cs: Seq<CstNode>, src: Seq<char>, file: FileId) -> Seq<DiagnosticView>
    decreases cs.len(),
{
    if cs.len() == 0 { Seq::empty() } else { fields_diags(cs.drop_last(), src, file)
        + if is_content(cs.last()) && st_tag(cs.last().kind@) == 2 { state_field_diags(cs.last(), src, file) } else { Seq::empty() } }
}

/// The `init` assignments of an `init` block's children.
pub open spec fn inits_of(is: Seq<InitAssignment>, cs: Seq<CstNode>, src: Seq<char>, file: FileId) -> bool
    decreases cs.len(),
{
    if cs.len() == 0 {
        is.len() == 0
    } else if is_content(cs.last()) && init_some(cs.last()) {
        is.len() > 0 && init_is(is.last(), cs.last(), src, file) && inits_of(is.drop_last(), cs.drop_last(), src, file)
    } else {
        inits_of(is, cs.drop_last(), src, file)
    }
}

pub open spec fn inits_count(cs: Seq<CstNode>) -> nat
    decreases cs.len(),
{
    if cs.len() == 0 { 0 } else { inits_count(cs.drop_last()) + if is_content(cs.last()) && init_some(cs.last()) { 1nat } else { 0nat } }
}

pub open spec fn inits_diags(cs: Seq<CstNode>, src: Seq<char>, file: FileId) -> Seq<DiagnosticView>
    decreases cs.len(),
{
    if cs.len() == 0 { Seq::empty() } else { inits_diags(cs.drop_last(), src, file)
        + if is_content(cs.last()) && init_some(cs.last()) { expr_diags(fc(cs.last(), "value"@), src, file) } else { Seq::empty() } }
}

/// Which part of a surface block a child kind is (0: none).
pub open spec fn sb_tag(kd: Seq<char>) -> u8 {
    if kd == "doc_string"@ { 1 }
    else if kd == "state_block"@ { 2 }
    else if kd == "init_block"@ { 3 }
    else if kd == "defaults_block"@ { 4 }
    else if kd == "fairness_decl"@ { 5 }
    else if kd == "property_decl"@ { 6 }
    else if kd == "action_decl"@ { 7 }
    else if kd == "internal_action_decl"@ { 8 }
    else if kd == "observable_decl"@ { 9 }
    else if kd == "actor_observable_decl"@ { 10 }
    else { 0 }
}

pub open spec fn is_part(c: CstNode, t: u8) -> bool {
    is_content(c) && sb_tag(c.kind@) == t
}

pub open spec fn sb_state(fs: Seq<StateField>, cs: Seq<CstNode>, src: Seq<char>, file: FileId) -> bool
    decreases cs.len(),
{
    if cs.len() == 0 {
        fs.len() == 0
    } else {
        let m = if is_part(cs.last(), 2) { fields_count(cs.last().children@) } else { 0 };
        fs.len() >= m && (is_part(cs.last(), 2) ==> fields_of(fs.subrange(fs.len() - m, fs.len() as int), cs.last().children@, src, file))
            && sb_state(fs.subrange(0, fs.len() - m), cs.drop_last(), src, file)
    }
}

pub open spec fn sb_init(is: Seq<InitAssignment>, cs: Seq<CstNode>, src: Seq<char>, file: FileId) -> bool
    decreases cs.len(),
{
    if cs.len() == 0 {
        is.len() == 0
    } else {
        let m = if is_part(cs.last(), 3) { inits_count(cs.last().children@) } else { 0 };
        is.len() >= m && (is_part(cs.last(), 3) ==> inits_of(is.subrange(is.len() - m, is.len() as int), cs.last().children@, src, file))
            && sb_init(is.subrange(0, is.len() - m), cs.drop_last(), src, file)
    }
}

pub open spec fn sb_fairness(fs: Seq<FairnessSpec>, cs: Seq<CstNode>, src: Seq<char>, file: FileId) -> bool
    decreases cs.len(),
{
    if cs.len() == 0 {
        fs.len() == 0
    } else if is_part(cs.last(), 5) && hf(cs.last(), "target"@) {
        fs.len() > 0 && fairness_is(Some(fs.last()), cs.last(), src, file) && sb_fairness(fs.drop_last(), cs.drop_last(), src, file)
    } else {
        sb_fairness(fs, cs.drop_last(), src, file)
    }
}

pub open spec fn sb_props(ps: Seq<Property>, cs: Seq<CstNode>, src: Seq<char>, file: FileId) -> bool
    decreases cs.len(),
{
    if cs.len() == 0 {
        ps.len() == 0
    } else if is_part(cs.last(), 6) && hf(cs.last(), "name"@) {
        ps.len() > 0 && property_is(Some(ps.last()), cs.last(), src, file, pending(cs.drop_last(), src))
            && sb_props(ps.drop_last(), cs.drop_last(), src, file)
    } else {
        sb_props(ps, cs.drop_last(), src, file)
    }
}

pub open spec fn sb_actions(acts: Seq<ActionDecl>, cs: Seq<CstNode>, src: Seq<char>, file: FileId) -> bool
    decreases cs.len(),
{
    if cs.len() == 0 {
        acts.len() == 0
    } else if is_part(cs.last(), 7) && hf(cs.last(), "name"@) {
        acts.len() > 0 && action_is(acts.last(), cs.last(), false, src, file, pending(cs.drop_last(), src))
            && sb_actions(acts.drop_last(), cs.drop_last(), src, file)
    } else {
        sb_actions(acts, cs.drop_last(), src, file)
    }
}

pub open spec fn sb_internal(acts: Seq<InternalActionDecl>, cs: Seq<CstNode>, src: Seq<char>, file: FileId) -> bool
    decreases cs.len(),
{
    if cs.len() == 0 {
        acts.len() == 0
    } else if is_part(cs.last(), 8) && hf(cs.last(), "name"@) {
        acts.len() > 0 && action_is(acts.last().action, cs.last(), true, src, file, pending(cs.drop_last(), src))
            && sb_internal(acts.drop_last(), cs.drop_last(), src, file)
    } else {
        sb_internal(acts, cs.drop_last(), src, file)
    }
}

pub open spec fn obs_part(c: CstNode) -> bool {
    (is_part(c, 9) && observable_complete(c, false)) || (is_part(c, 10) && observable_complete(c, true))
}

pub open spec fn sb_obs(os: Seq<ObservableDecl>, cs: Seq<CstNode>, src: Seq<char>, file: FileId) -> bool
    decreases cs.len(),
{
    if cs.len() == 0 {
        os.len() == 0
    } else if obs_part(cs.last()) {
        os.len() > 0 && observable_is(Some(os.last()), cs.last(), is_part(cs.last(), 10), src, file, pending(cs.drop_last(), src))
            && sb_obs(os.drop_last(), cs.drop_last(), src, file)
    } else {
        sb_obs(os, cs.drop_last(), src, file)
    }
}

/// The last `defaults` block.
pub open spec fn last_defaults(cs: Seq<CstNode>) -> Option<CstNode>
    decreases cs.len(),
{
    if cs.len() == 0 { None } else if is_part(cs.last(), 4) { Some(cs.last()) } else { last_defaults(cs.drop_last()) }
}

pub open spec fn defaults_is(d: Option<DefaultsBlock>, cs: Seq<CstNode>, src: Seq<char>, file: FileId) -> bool {
    match last_defaults(cs) {
        Some(c) => d matches Some(b) && b.span == node_span(c, file) && slots_in(b.slots@, c.children@, src, file),
        None => d is None,
    }
}

pub open spec fn part_diags(c: CstNode, src: Seq<char>, file: FileId) -> Seq<DiagnosticView> {
    if !is_content(c) { Seq::empty() }
    else if sb_tag(c.kind@) == 2 { fields_diags(c.children@, src, file) }
    else if sb_tag(c.kind@) == 3 { inits_diags(c.children@, src, file) }
    else if sb_tag(c.kind@) == 6 { property_diags(c, src, file) }
    else if sb_tag(c.kind@) == 7 || sb_tag(c.kind@) == 8 { action_diags(c, src, file) }
    else if sb_tag(c.kind@) == 9 { observable_diags(c, false, src, file) }
    else if sb_tag(c.kind@) == 10 { observable_diags(c, true, src, file) }
    else { Seq::empty() }
}

pub open spec fn sb_diags(cs: Seq<CstNode>, src: Seq<char>, file: FileId) -> Seq<DiagnosticView>
    decreases cs.len(),
{
    if cs.len() == 0 { Seq::empty() } else { sb_diags(cs.drop_last(), src, file) + part_diags(cs.last(), src, file) }
}

/// The surface block a `surface_block` node spells.
pub open spec fn surface_block_is(b: SurfaceBlock, n: CstNode, src: Seq<char>, file: FileId, doc: Option<Seq<char>>) -> bool {
    let cs = n.children@;
    &&& sb_state(b.state@, cs, src, file)
    &&& sb_init(b.init@, cs, src, file)
    &&& sb_fairness(b.fairness@, cs, src, file)
    &&& sb_props(b.properties@, cs, src, file)
    &&& defaults_is(b.defaults, cs, src, file)
    &&& sb_actions(b.actions@, cs, src, file)
    &&& sb_internal(b.internal_actions@, cs, src, file)
    &&& sb_obs(b.observables@, cs, src, file)
    &&& b.span == node_span(n, file)
    &&& dview(b.doc) == doc
}

// ---- exec ----

/// The slot assignments of the named `slot_assign` children of `n`.
pub fn slot_assigns_of(n: &CstNode, src: &str, file: FileId) -> (r: Vec<SlotAssign>)
    ensures
        slots_in(r@, n.children@, src@, file),
{
    let ghost cs = n.children@;
    let mut ss: Vec<SlotAssign> = Vec::new();
    let mut i: usize = 0;
    proof {
        assert(cs.subrange(0, 0) =~= Seq::<CstNode>::empty());
    }
    while i < n.children.len()
        invariant
            i <= cs.len(),
            cs == n.children@,
            slots_in(ss@, cs.subrange(0, i as int), src@, file),
        decreases cs.len() - i,
    {
        let ghost pre = cs.subrange(0, i + 1);
        proof {
            assert(pre.drop_last() =~= cs.subrange(0, i as int));
            assert(pre.last() == cs[i as int]);
        }
        let c = &n.children[i];
        if c.named && str_eq(c.kind.as_str(), "slot_assign") {
            let a = convert_slot_assign(c, src, file);
            let ghost before = ss@;
            ss.push(a);
            proof {
                assert(ss@.drop_last() =~= before);
            }
        }
        i += 1;
    }
    proof {
        assert(cs.subrange(0, i as int) =~= cs);
    }
    ss
}

fn ends_with_expr(k: &str) -> (r: bool)
    ensures
        r == ends_expr(k@),
{
    let n = k.unicode_len();
    n >= 5 && str_eq(k.substring_char(n - 5, n), "_expr")
}

fn is_body_kind(k: &str) -> (r: bool)
    ensures
        r == body_kind(k@),
{
    ends_with_expr(k) || str_eq(k, "field_access") || str_eq(k, "index_expr") || str_eq(k, "indexed_path")
        || str_eq(k, "tuple_expr") || str_eq(k, "set_expr") || str_eq(k, "seq_literal") || str_eq(k, "map_literal")
        || str_eq(k, "record_expr") || str_eq(k, "string") || str_eq(k, "number") || str_eq(k, "bool_lit")
        || str_eq(k, "none_lit") || str_eq(k, "wildcard") || str_eq(k, "param_ref") || str_eq(k, "some_call")
        || str_eq(k, "comprehension") || str_eq(k, "qualified_name")
}

fn body_index(n: &CstNode, name_idx: Option<usize>) -> (r: Option<usize>)
    ensures
        match r {
            Some(j) => j < n.children@.len() && body_idx(n.children@, crate::effect_syntax::oi(name_idx)) == Some(j as int),
            None => body_idx(n.children@, crate::effect_syntax::oi(name_idx)) is None,
        },
{
    let ghost cs = n.children@;
    let ghost ni = crate::effect_syntax::oi(name_idx);
    let mut i: usize = n.children.len();
    proof {
        assert(cs.subrange(0, i as int) =~= cs);
    }
    while i > 0
        invariant
            i <= cs.len(),
            cs == n.children@,
            ni == crate::effect_syntax::oi(name_idx),
            body_idx(cs, ni) == body_idx(cs.subrange(0, i as int), ni),
        decreases i,
    {
        proof {
            let sub = cs.subrange(0, i as int);
            assert(sub.last() == cs[i - 1]);
            assert(sub.drop_last() =~= cs.subrange(0, i - 1));
            assert(sub.len() - 1 == i - 1);
        }
        let c = &n.children[i - 1];
        let hit = c.named && if str_eq(c.kind.as_str(), "identifier") {
            match name_idx { Some(a) => a != i - 1, None => true }
        } else {
            is_body_kind(c.kind.as_str())
        };
        if hit {
            return Some(i - 1);
        }
        i -= 1;
    }
    proof {
        assert(cs.subrange(0, 0) =~= Seq::<CstNode>::empty());
    }
    None
}

/// A property declaration: its name, whether it is a safety or liveness
/// property, and its body; `None` without a name.
pub fn convert_property_decl(n: &CstNode, src: &str, file: FileId, doc: Option<String>, out: &mut Vec<Diagnostic>)
    -> (r: Option<Property>)
    requires
        generics_have_base(*n),
    ensures
        property_is(r, *n, src@, file, dview(doc)),
        diags_view(final(out)@) == diags_view(old(out)@) + property_diags(*n, src@, file),
{
    proof {
        assert(diags_view(out@) =~= diags_view(out@) + Seq::<DiagnosticView>::empty());
    }
    let jn = match find_field(n, "name") { Some(j) => j, None => return None };
    let name = crate::expr_syntax::node_ident(&n.children[jn], src, file);
    let span = Span::new(file, n.start, n.end);
    let raw = text_of(n, src);
    let kind = if find_str(raw, "always").is_some() {
        PropertyKind::Safety
    } else if find_str(raw, "eventually").is_some() {
        PropertyKind::Liveness
    } else {
        PropertyKind::Safety
    };
    let body = match body_index(n, Some(jn)) {
        Some(j) => {
            proof {
                lemma_all_generics(n.children@, j as int);
            }
            convert_expr(&n.children[j], src, file, out)
        },
        None => Expr { kind: Box::new(ExprKind::LitBool(true)), span },
    };
    Some(Property { name, kind, body, doc, span })
}

fn sf_tag_of(kd: &str) -> (r: u8)
    ensures
        r == sf_tag(kd@),
{
    if str_eq(kd, "derived_modifier") { 1 } else if str_eq(kd, "retention_modifier") { 2 }
    else if str_eq(kd, "private_modifier") { 3 } else { 0 }
}

/// A state field: its name, type, modifiers and doc comment.
pub fn convert_state_field(n: &CstNode, src: &str, file: FileId, doc: Option<String>, out: &mut Vec<Diagnostic>)
    -> (r: StateField)
    requires
        generics_have_base(*n),
    ensures
        state_field_is(r, *n, src@, file, dview(doc)),
        diags_view(final(out)@) == diags_view(old(out)@) + state_field_diags(*n, src@, file),
{
    let span = Span::new(file, n.start, n.end);
    let name = crate::expr_syntax::field_ident(n, "name", "<missing>", span, src, file);
    let ty = field_type(n, "type", span, src, file, out);
    let ghost h = diags_view(out@);
    let ghost cs = n.children@;
    let mut kind = StateFieldKind::Plain;
    let mut retention: Option<RetentionClass> = None;
    let mut private = false;
    let mut i: usize = 0;
    proof {
        assert(cs.subrange(0, 0) =~= Seq::<CstNode>::empty());
        assert(h + Seq::<DiagnosticView>::empty() =~= h);
    }
    while i < n.children.len()
        invariant
            i <= cs.len(),
            cs == n.children@,
            generics_have_base(*n),
            match last_mod(cs.subrange(0, i as int), 1) {
                Some(c) => derived_is(kind, c, src@, file),
                None => kind == StateFieldKind::Plain,
            },
            match last_mod(cs.subrange(0, i as int), 2) {
                Some(c) => retention_is(retention, c, src@, file),
                None => retention is None,
            },
            private == (last_mod(cs.subrange(0, i as int), 3) is Some),
            diags_view(out@) == h + mods_diags(cs.subrange(0, i as int), src@, file),
        decreases cs.len() - i,
    {
        let ghost pre = cs.subrange(0, i + 1);
        proof {
            assert(pre.drop_last() =~= cs.subrange(0, i as int));
            assert(pre.last() == cs[i as int]);
            lemma_all_generics(cs, i as int);
        }
        let c = &n.children[i];
        let content = crate::expr_syntax::is_content_node(c);
        let t = if content { sf_tag_of(c.kind.as_str()) } else { 0 };
        if content && t == 1 {
            let shape = match find_field(c, "shape") {
                Some(j) => DerivedShape::from_name(crate::expr_syntax::node_ident(&c.children[j], src, file).as_str()),
                None => None,
            };
            let of_type = match find_field(c, "of") {
                Some(j) => {
                    proof {
                        lemma_all_generics(c.children@, j as int);
                    }
                    Some(convert_type_expr(&c.children[j], src, file, out))
                },
                None => {
                    proof {
                        assert(diags_view(out@) =~= diags_view(out@) + Seq::<DiagnosticView>::empty());
                    }
                    None
                },
            };
            kind = StateFieldKind::Derived { shape, of_type };
        } else if content && t == 2 {
            match find_field(c, "value") {
                Some(j) => {
                    let sv = convert_slot_value(&c.children[j], src, file);
                    retention = retention_class_from_slot_value(&sv);
                },
                None => {},
            }
            proof {
                assert(diags_view(out@) =~= h + mods_diags(pre, src@, file));
            }
        } else if content && t == 3 {
            private = true;
            proof {
                assert(diags_view(out@) =~= h + mods_diags(pre, src@, file));
            }
        } else {
            proof {
                assert(diags_view(out@) =~= h + mods_diags(pre, src@, file));
            }
        }
        i += 1;
    }
    proof {
        assert(cs.subrange(0, i as int) =~= cs);
    }
    StateField { name, ty, kind, retention, private, doc, span }
}

/// An `init` assignment `x := e` with an identifier target, else `None`.
pub fn convert_init_assignment(f: &CstNode, src: &str, file: FileId, out: &mut Vec<Diagnostic>) -> (r: Option<InitAssignment>)
    requires
        generics_have_base(*f),
    ensures
        init_some(*f) ==> (r matches Some(a) && init_is(a, *f, src@, file)),
        !init_some(*f) ==> r is None,
        diags_view(final(out)@) == diags_view(old(out)@)
            + if init_some(*f) { expr_diags(fc(*f, "value"@), src@, file) } else { Seq::<DiagnosticView>::empty() },
{
    proof {
        assert(diags_view(out@) =~= diags_view(out@) + Seq::<DiagnosticView>::empty());
    }
    if !str_eq(f.kind.as_str(), "assign_effect") {
        return None;
    }
    let jt = match find_field(f, "target") { Some(j) => j, None => return None };
    if !str_eq(f.children[jt].kind.as_str(), "identifier") {
        return None;
    }
    let name = crate::expr_syntax::node_ident(&f.children[jt], src, file);
    let jv = match find_field(f, "value") { Some(j) => j, None => return None };
    let value = expr_at(f, jv, Ghost("value"@), src, file, out);
    Some(InitAssignment { name, value, span: Span::new(file, f.start, f.end) })
}

fn convert_raises_of(n: &CstNode, src: &str, file: FileId, out: &mut Vec<Diagnostic>) -> (r: Vec<RaisesClause>)
    requires
        generics_have_base(*n),
    ensures
        raises_in(r@, n.children@, src@, file),
        diags_view(final(out)@) == diags_view(old(out)@) + raises_diags(n.children@, src@, file),
{
    let ghost cs = n.children@;
    let ghost h = diags_view(out@);
    let mut rs: Vec<RaisesClause> = Vec::new();
    let mut i: usize = 0;
    proof {
        assert(cs.subrange(0, 0) =~= Seq::<CstNode>::empty());
        assert(h + Seq::<DiagnosticView>::empty() =~= h);
    }
    while i < n.children.len()
        invariant
            i <= cs.len(),
            cs == n.children@,
            generics_have_base(*n),
            raises_in(rs@, cs.subrange(0, i as int), src@, file),
            diags_view(out@) == h + raises_diags(cs.subrange(0, i as int), src@, file),
        decreases cs.len() - i,
    {
        let ghost pre = cs.subrange(0, i + 1);
        proof {
            assert(pre.drop_last() =~= cs.subrange(0, i as int));
            assert(pre.last() == cs[i as int]);
        }
        let e = &n.children[i];
        if e.named && str_eq(e.kind.as_str(), "raises_entry") {
            proof {
                lemma_all_generics(cs, i as int);
            }
            let span = Span::new(file, e.start, e.end);
            let name = crate::expr_syntax::field_ident(e, "name", "<missing>", span, src, file);
            let guard = match find_field(e, "guard") {
                Some(j) => expr_at(e, j, Ghost("guard"@), src, file, out),
                None => {
                    proof {
                        assert(diags_view(out@) =~= diags_view(out@) + Seq::<DiagnosticView>::empty());
                    }
                    Expr { kind: Box::new(ExprKind::LitBool(true)), span }
                },
            };
            let ghost before = rs@;
            rs.push(RaisesClause { name, guard, span });
            proof {
                assert(rs@.drop_last() =~= before);
            }
        }
        i += 1;
    }
    proof {
        assert(cs.subrange(0, i as int) =~= cs);
    }
    rs
}

pub(crate) fn first_idx(n: &CstNode, kind: &str) -> (r: Option<usize>)
    ensures
        match r {
            Some(j) => first_child_index(n.children@, kind@) == Some(j as int) && j < n.children@.len(),
            None => first_child_index(n.children@, kind@) is None,
        },
{
    crate::expr_syntax::first_of_kind(n, kind, Ghost(Seq::empty()), Ghost(FileId(0)), Ghost(Span::spec_synthetic()))
}

/// An action declaration (`internal` for the internal form): `None`
/// without a name.
#[verifier::spinoff_prover]
#[verifier::rlimit(60)]
pub fn convert_action_decl(n: &CstNode, internal: bool, src: &str, file: FileId, doc: Option<String>, out: &mut Vec<Diagnostic>)
    -> (r: Option<ActionDecl>)
    requires
        generics_have_base(*n),
    ensures
        hf(*n, "name"@) ==> (r matches Some(a) && action_is(a, *n, internal, src@, file, dview(doc))),
        !hf(*n, "name"@) ==> r is None,
        diags_view(final(out)@) == diags_view(old(out)@) + action_diags(*n, src@, file),
{
    let ghost h = diags_view(out@);
    let ghost cs = n.children@;
    proof {
        assert(h =~= h + Seq::<DiagnosticView>::empty());
    }
    let jn = match find_field(n, "name") { Some(j) => j, None => return None };
    let span = Span::new(file, n.start, n.end);
    let name = crate::expr_syntax::node_ident(&n.children[jn], src, file);
    let return_ty = match find_field(n, "return_type") {
        Some(j) => Some(crate::decl_syntax::type_at(n, j, Ghost("return_type"@), src, file, out)),
        None => {
            proof {
                assert(diags_view(out@) =~= diags_view(out@) + Seq::<DiagnosticView>::empty());
            }
            None
        },
    };
    let params = param_list_of(n, src, file, out);
    let actor = match first_idx(n, "by_clause") {
        Some(j) => {
            let by = &n.children[j];
            let var = crate::expr_syntax::field_ident(by, "var", "<missing>", span, src, file);
            let actor_ty = crate::expr_syntax::field_ident(by, "type", "<missing>", span, src, file);
            let aspan = var.span;
            ActorBinder { name: var, actor_ty, span: aspan }
        },
        None => ActorBinder { name: Ident::new("<no-actor>", span), actor_ty: Ident::new("<missing>", span), span },
    };
    let d2 = Ghost(diags_view(out@));
    let when_pre = match first_idx(n, "when_clause") {
        Some(j) => {
            proof {
                lemma_all_generics(cs, j as int);
            }
            match find_field(&n.children[j], "guard") {
                Some(k) => Some(expr_at(&n.children[j], k, Ghost("guard"@), src, file, out)),
                None => None,
            }
        },
        None => None,
    };
    proof {
        assert(diags_view(out@) =~= d2@ + when_diags(cs, src@, file));
    }
    let d3 = Ghost(diags_view(out@));
    let raises = match first_idx(n, "raises_block") {
        Some(j) => {
            proof {
                lemma_all_generics(cs, j as int);
            }
            convert_raises_of(&n.children[j], src, file, out)
        },
        None => Vec::new(),
    };
    proof {
        assert(diags_view(out@) =~= d3@ + raises_of_diags(cs, src@, file));
    }
    let d4 = Ghost(diags_view(out@));
    let slots = slot_assigns_of(n, src, file);
    let body = match first_idx(n, "then_block") {
        Some(j) => {
            proof {
                lemma_all_generics(cs, j as int);
            }
            convert_effect_block(&n.children[j], src, file, out)
        },
        None => EffectBlock { stmts: Vec::new(), span },
    };
    proof {
        assert(diags_view(out@) =~= d4@ + body_block_diags(cs, src@, file));
        assert(diags_view(out@) =~= h + action_diags(*n, src@, file));
    }
    Some(ActionDecl { name, params, return_ty, actor, when_pre, raises, slots, body, doc, span, is_internal: internal })
}


/// The state fields of a `state` block, each with the doc comment above
/// it.
pub fn convert_state_block(n: &CstNode, src: &str, file: FileId, out: &mut Vec<Diagnostic>) -> (r: Vec<StateField>)
    requires
        generics_have_base(*n),
    ensures
        fields_of(r@, n.children@, src@, file),
        r@.len() == fields_count(n.children@),
        diags_view(final(out)@) == diags_view(old(out)@) + fields_diags(n.children@, src@, file),
{
    let ghost cs = n.children@;
    let ghost h = diags_view(out@);
    let mut fs: Vec<StateField> = Vec::new();
    let mut inner_doc: Option<String> = None;
    let mut i: usize = 0;
    proof {
        assert(cs.subrange(0, 0) =~= Seq::<CstNode>::empty());
        assert(h + Seq::<DiagnosticView>::empty() =~= h);
    }
    while i < n.children.len()
        invariant
            i <= cs.len(),
            cs == n.children@,
            generics_have_base(*n),
            fields_of(fs@, cs.subrange(0, i as int), src@, file),
            fs@.len() == fields_count(cs.subrange(0, i as int)),
            dview(inner_doc) == ipending(cs.subrange(0, i as int), src@),
            diags_view(out@) == h + fields_diags(cs.subrange(0, i as int), src@, file),
        decreases cs.len() - i,
    {
        let ghost pre = cs.subrange(0, i + 1);
        proof {
            assert(pre.drop_last() =~= cs.subrange(0, i as int));
            assert(pre.last() == cs[i as int]);
        }
        let c = &n.children[i];
        if crate::expr_syntax::is_content_node(c) {
            let t: u8 = if str_eq(c.kind.as_str(), "doc_string") { 1 } else if str_eq(c.kind.as_str(), "state_field") { 2 } else { 0 };
            proof {
                assert(t == st_tag(c.kind@));
            }
            if t == 1 {
                inner_doc = Some(doc_string_text(text_of(c, src)));
            } else if t == 2 {
                proof {
                    lemma_all_generics(cs, i as int);
                }
                let d = inner_doc;
                inner_doc = None;
                let f = convert_state_field(c, src, file, d, out);
                let ghost before = fs@;
                fs.push(f);
                proof {
                    assert(fs@.drop_last() =~= before);
                }
            }
        }
        i += 1;
    }
    proof {
        assert(cs.subrange(0, i as int) =~= cs);
    }
    fs
}

/// The assignments of an `init` block.
pub fn convert_init_block(n: &CstNode, src: &str, file: FileId, out: &mut Vec<Diagnostic>) -> (r: Vec<InitAssignment>)
    requires
        generics_have_base(*n),
    ensures
        inits_of(r@, n.children@, src@, file),
        r@.len() == inits_count(n.children@),
        diags_view(final(out)@) == diags_view(old(out)@) + inits_diags(n.children@, src@, file),
{
    let ghost cs = n.children@;
    let ghost h = diags_view(out@);
    let mut is: Vec<InitAssignment> = Vec::new();
    let mut i: usize = 0;
    proof {
        assert(cs.subrange(0, 0) =~= Seq::<CstNode>::empty());
        assert(h + Seq::<DiagnosticView>::empty() =~= h);
    }
    while i < n.children.len()
        invariant
            i <= cs.len(),
            cs == n.children@,
            generics_have_base(*n),
            inits_of(is@, cs.subrange(0, i as int), src@, file),
            is@.len() == inits_count(cs.subrange(0, i as int)),
            diags_view(out@) == h + inits_diags(cs.subrange(0, i as int), src@, file),
        decreases cs.len() - i,
    {
        let ghost pre = cs.subrange(0, i + 1);
        proof {
            assert(pre.drop_last() =~= cs.subrange(0, i as int));
            assert(pre.last() == cs[i as int]);
        }
        let c = &n.children[i];
        if crate::expr_syntax::is_content_node(c) {
            proof {
                lemma_all_generics(cs, i as int);
            }
            match convert_init_assignment(c, src, file, out) {
                Some(a) => {
                    let ghost before = is@;
                    is.push(a);
                    proof {
                        assert(is@.drop_last() =~= before);
                    }
                },
                None => {},
            }
        }
        i += 1;
    }
    proof {
        assert(cs.subrange(0, i as int) =~= cs);
    }
    is
}

fn sb_tag_of(kd: &str) -> (r: u8)
    ensures
        r == sb_tag(kd@),
{
    if str_eq(kd, "doc_string") { 1 }
    else if str_eq(kd, "state_block") { 2 }
    else if str_eq(kd, "init_block") { 3 }
    else if str_eq(kd, "defaults_block") { 4 }
    else if str_eq(kd, "fairness_decl") { 5 }
    else if str_eq(kd, "property_decl") { 6 }
    else if str_eq(kd, "action_decl") { 7 }
    else if str_eq(kd, "internal_action_decl") { 8 }
    else if str_eq(kd, "observable_decl") { 9 }
    else if str_eq(kd, "actor_observable_decl") { 10 }
    else { 0 }
}

/// A surface block: its state, `init` assignments, fairness, properties,
/// defaults, actions and observables, each declaration with the doc
/// comment right above it.
#[verifier::spinoff_prover]
#[verifier::rlimit(80)]
pub fn convert_surface_block(node: &CstNode, src: &str, file: FileId, doc: Option<String>, out: &mut Vec<Diagnostic>)
    -> (r: Option<SurfaceBlock>)
    requires
        generics_have_base(*node),
    ensures
        r matches Some(b) && surface_block_is(b, *node, src@, file, dview(doc)),
        diags_view(final(out)@) == diags_view(old(out)@) + sb_diags(node.children@, src@, file),
{
    let ghost cs = node.children@;
    let ghost h = diags_view(out@);
    let mut state: Vec<StateField> = Vec::new();
    let mut init: Vec<InitAssignment> = Vec::new();
    let mut defaults: Option<DefaultsBlock> = None;
    let mut fairness: Vec<FairnessSpec> = Vec::new();
    let mut properties: Vec<Property> = Vec::new();
    let mut actions: Vec<ActionDecl> = Vec::new();
    let mut internal_actions: Vec<InternalActionDecl> = Vec::new();
    let mut observables: Vec<ObservableDecl> = Vec::new();
    let mut pending_doc: Option<String> = None;
    let mut i: usize = 0;
    proof {
        assert(cs.subrange(0, 0) =~= Seq::<CstNode>::empty());
        assert(h + Seq::<DiagnosticView>::empty() =~= h);
    }
    while i < node.children.len()
        invariant
            i <= cs.len(),
            cs == node.children@,
            generics_have_base(*node),
            sb_state(state@, cs.subrange(0, i as int), src@, file),
            sb_init(init@, cs.subrange(0, i as int), src@, file),
            sb_fairness(fairness@, cs.subrange(0, i as int), src@, file),
            sb_props(properties@, cs.subrange(0, i as int), src@, file),
            defaults_is(defaults, cs.subrange(0, i as int), src@, file),
            sb_actions(actions@, cs.subrange(0, i as int), src@, file),
            sb_internal(internal_actions@, cs.subrange(0, i as int), src@, file),
            sb_obs(observables@, cs.subrange(0, i as int), src@, file),
            dview(pending_doc) == pending(cs.subrange(0, i as int), src@),
            diags_view(out@) == h + sb_diags(cs.subrange(0, i as int), src@, file),
        decreases cs.len() - i,
    {
        let ghost pre = cs.subrange(0, i + 1);
        let ghost prev = cs.subrange(0, i as int);
        let ghost st0 = state@;
        let ghost in0 = init@;
        proof {
            assert(pre.drop_last() =~= prev);
            assert(pre.last() == cs[i as int]);
            lemma_all_generics(cs, i as int);
        }
        let c = &node.children[i];
        let content = crate::expr_syntax::is_content_node(c);
        let t = if content { sb_tag_of(c.kind.as_str()) } else { 0 };
        let mut d: Option<String> = None;
        if content {
            d = pending_doc;
            pending_doc = None;
        }
        if content && t == 1 {
            pending_doc = Some(doc_string_text(text_of(c, src)));
        } else if content && t == 2 {
            let mut fs = convert_state_block(c, src, file, out);
            let ghost gf = fs@;
            state.append(&mut fs);
            proof {
                let m = gf.len();
                assert(state@ == st0 + gf);
                assert(state@.subrange(state@.len() - m, state@.len() as int) =~= gf);
                assert(state@.subrange(0, state@.len() - m) =~= st0);
            }
        } else if content && t == 3 {
            let mut is = convert_init_block(c, src, file, out);
            let ghost gi = is@;
            init.append(&mut is);
            proof {
                let m = gi.len();
                assert(init@ == in0 + gi);
                assert(init@.subrange(init@.len() - m, init@.len() as int) =~= gi);
                assert(init@.subrange(0, init@.len() - m) =~= in0);
            }
        } else if content && t == 4 {
            defaults = Some(DefaultsBlock { slots: slot_assigns_of(c, src, file), span: Span::new(file, c.start, c.end) });
        } else if content && t == 5 {
            match convert_fairness_decl(c, src, file) {
                Some(f) => {
                    let ghost before = fairness@;
                    fairness.push(f);
                    proof {
                        assert(fairness@.drop_last() =~= before);
                    }
                },
                None => {},
            }
        } else if content && t == 6 {
            match convert_property_decl(c, src, file, d, out) {
                Some(p) => {
                    let ghost before = properties@;
                    properties.push(p);
                    proof {
                        assert(properties@.drop_last() =~= before);
                    }
                },
                None => {},
            }
        } else if content && (t == 7 || t == 8) {
            match convert_action_decl(c, t == 8, src, file, d, out) {
                Some(a) => {
                    if t == 8 {
                        let ghost before = internal_actions@;
                        internal_actions.push(InternalActionDecl { action: a });
                        proof {
                            assert(internal_actions@.drop_last() =~= before);
                        }
                    } else {
                        let ghost before = actions@;
                        actions.push(a);
                        proof {
                            assert(actions@.drop_last() =~= before);
                        }
                    }
                },
                None => {},
            }
        } else if content && (t == 9 || t == 10) {
            match convert_observable(c, t == 10, src, file, d, out) {
                Some(o) => {
                    let ghost before = observables@;
                    observables.push(o);
                    proof {
                        assert(observables@.drop_last() =~= before);
                    }
                },
                None => {},
            }
        }
        proof {
            if !(content && t == 2) {
                assert(state@.subrange(state@.len() as int, state@.len() as int) =~= Seq::<StateField>::empty());
                assert(state@.subrange(0, state@.len() as int) =~= state@);
            }
            if !(content && t == 3) {
                assert(init@.subrange(init@.len() as int, init@.len() as int) =~= Seq::<InitAssignment>::empty());
                assert(init@.subrange(0, init@.len() as int) =~= init@);
            }
            assert(diags_view(out@) =~= h + sb_diags(pre, src@, file));
        }
        i += 1;
    }
    proof {
        assert(cs.subrange(0, i as int) =~= cs);
    }
    Some(SurfaceBlock {
        state,
        init,
        fairness,
        properties,
        defaults,
        actions,
        internal_actions,
        observables,
        span: Span::new(file, node.start, node.end),
        doc,
    })
}

} // verus!
