//! The parts of substrate blocks read off their syntax trees:
//! components, replicates, channels, auxiliary variables,
//! authentication, maps, realizations, `internal` entries and epochs.

use vstd::prelude::*;
use crate::cst::{CstNode, field_index, first_child_index, named_of_kind, node_span, node_text, text_of};
use crate::decl::Param;
use crate::decl_syntax::{dview, ty_or_missing, ty_diags, params_in, params_diags, field_type, expr_at, type_at,
    convert_params};
use crate::diagnostic::{Diagnostic, DiagnosticView, diags_view};
use crate::effect_syntax::{hf, fc, fx_diags};
use crate::expr::{Expr, ExprKind, PathExpr};
use crate::expr_syntax::{is_content, nid_is, id_is, fid, expr_is, expr_diags, qn_is, first_content_node, convert_expr};
use crate::fairness_syntax::{ftarget_is, parse_fairness_target};
use crate::ident::{Ident, QualifiedName};
use crate::path_text::{endpoint_is, parse_channel_endpoint, rpath_is, parse_realization_path, ientry_is,
    convert_internal_entry};
use crate::span::{FileId, Span};
use crate::substrate::{AuthRhs, AuthenticationBlock, AuthenticationMapping, AuxiliaryBlock, AuxiliaryKind, AuxiliaryVar,
    ChannelDecl, ChannelMultiplicity, ChannelSelector, Component, ComponentAction, EpochDecl, FairnessTarget, InternalBlock,
    InternalEntry, MapsBlock, MapsEntry, RealizesBlock, RealizesClause, RealizesTarget, ReceivesHandler, ReplicateBlock};
use crate::surface::{BranchLabel, EffectBlock, InitAssignment, StateField};
use crate::compose::AcknowledgedBlock;
use crate::compose_syntax::{ack_block_is, ack_entries_diags, chans_in, last_of, convert_acknowledged_block};
use crate::fairness_syntax::convert_fairness_decl;
use crate::substrate::{SubstrateBlock, PartialSubstrateBlock, FairnessSpec};
use crate::surface_syntax::sb_fairness;
use crate::surface_syntax::{pending, fields_of, fields_count, fields_diags, inits_of, inits_count, inits_diags, action_is,
    action_diags, when_is, when_diags, body_block_is, body_block_diags, convert_state_block, convert_init_block,
    convert_action_decl};
use crate::syntax::{spec_trim, trim, doc_string_text};
use crate::text::str_eq;
use crate::type_syntax::{generics_have_base, lemma_all_generics, find_field, type_is};

verus! {

/// The one-segment `<missing>` name at `span`.
pub open spec fn missing_qn(q: QualifiedName, span: Span) -> bool {
    q.segments@.len() == 1 && id_is(q.segments@[0], "<missing>"@, span) && q.span == span
}

// ---- components ----

/// Which part of a component a child kind is (0: none).
pub open spec fn comp_tag(kd: Seq<char>) -> u8 {
    if kd == "doc_string"@ { 1 }
    else if kd == "state_block"@ { 2 }
    else if kd == "init_block"@ { 3 }
    else if kd == "component_action_decl"@ { 4 }
    else if kd == "receives_decl"@ { 5 }
    else { 0 }
}

pub open spec fn is_cpart(c: CstNode, t: u8) -> bool {
    is_content(c) && comp_tag(c.kind@) == t
}

/// A component action: an action declaration without an actor, slots or
/// an internal mark.
pub open spec fn caction_is(a: ComponentAction, n: CstNode, src: Seq<char>, file: FileId, doc: Option<Seq<char>>) -> bool {
    exists|d: crate::surface::ActionDecl| action_is(d, n, false, src, file, doc) && a.name == d.name && a.params == d.params
        && a.return_ty == d.return_ty && a.when_pre == d.when_pre && a.raises == d.raises && a.body == d.body
        && a.doc == d.doc && a.span == d.span
}

/// The node naming a `receives` handler's message.
pub open spec fn msg_node(n: CstNode) -> Option<CstNode> {
    if hf(n, "msg"@) { Some(fc(n, "msg"@)) }
    else if hf(n, "message"@) { Some(fc(n, "message"@)) }
    else if hf(n, "name"@) { Some(fc(n, "name"@)) }
    else { None }
}

pub open spec fn receives_is(h: ReceivesHandler, n: CstNode, src: Seq<char>, file: FileId, doc: Option<Seq<char>>) -> bool {
    let cs = n.children@;
    let span = node_span(n, file);
    &&& msg_node(n) matches Some(m) && nid_is(h.message, m, src, file)
    &&& if hf(n, "channel"@) { nid_is(h.from_channel, fc(n, "channel"@), src, file) }
        else if hf(n, "from"@) { nid_is(h.from_channel, fc(n, "from"@), src, file) }
        else { id_is(h.from_channel, "<missing>"@, span) }
    &&& params_in(h.params@, cs, src, file)
    &&& when_is(h.when_pre, cs, src, file)
    &&& body_block_is(h.body, cs, span, src, file)
    &&& dview(h.doc) == doc
    &&& h.span == span
}

pub open spec fn receives_diags(n: CstNode, src: Seq<char>, file: FileId) -> Seq<DiagnosticView> {
    let cs = n.children@;
    if msg_node(n) is Some { params_diags(cs, src, file) + when_diags(cs, src, file) + body_block_diags(cs, src, file) }
    else { Seq::empty() }
}

pub open spec fn cm_state(fs: Seq<StateField>, cs: Seq<CstNode>, src: Seq<char>, file: FileId) -> bool
    decreases cs.len(),
{
    if cs.len() == 0 {
        fs.len() == 0
    } else {
        let m = if is_cpart(cs.last(), 2) { fields_count(cs.last().children@) } else { 0 };
        fs.len() >= m && (is_cpart(cs.last(), 2) ==> fields_of(fs.subrange(fs.len() - m, fs.len() as int), cs.last().children@, src, file))
            && cm_state(fs.subrange(0, fs.len() - m), cs.drop_last(), src, file)
    }
}

pub open spec fn cm_init(is: Seq<InitAssignment>, cs: Seq<CstNode>, src: Seq<char>, file: FileId) -> bool
    decreases cs.len(),
{
    if cs.len() == 0 {
        is.len() == 0
    } else {
        let m = if is_cpart(cs.last(), 3) { inits_count(cs.last().children@) } else { 0 };
        is.len() >= m && (is_cpart(cs.last(), 3) ==> inits_of(is.subrange(is.len() - m, is.len() as int), cs.last().children@, src, file))
            && cm_init(is.subrange(0, is.len() - m), cs.drop_last(), src, file)
    }
}

pub open spec fn cm_actions(acts: Seq<ComponentAction>, cs: Seq<CstNode>, src: Seq<char>, file: FileId) -> bool
    decreases cs.len(),
{
    if cs.len() == 0 {
        acts.len() == 0
    } else if is_cpart(cs.last(), 4) && hf(cs.last(), "name"@) {
        acts.len() > 0 && caction_is(acts.last(), cs.last(), src, file, pending(cs.drop_last(), src))
            && cm_actions(acts.drop_last(), cs.drop_last(), src, file)
    } else {
        cm_actions(acts, cs.drop_last(), src, file)
    }
}

pub open spec fn cm_receives(hs: Seq<ReceivesHandler>, cs: Seq<CstNode>, src: Seq<char>, file: FileId) -> bool
    decreases cs.len(),
{
    if cs.len() == 0 {
        hs.len() == 0
    } else if is_cpart(cs.last(), 5) && msg_node(cs.last()) is Some {
        hs.len() > 0 && receives_is(hs.last(), cs.last(), src, file, pending(cs.drop_last(), src))
            && cm_receives(hs.drop_last(), cs.drop_last(), src, file)
    } else {
        cm_receives(hs, cs.drop_last(), src, file)
    }
}

pub open spec fn cpart_diags(c: CstNode, src: Seq<char>, file: FileId) -> Seq<DiagnosticView> {
    if is_cpart(c, 2) { fields_diags(c.children@, src, file) }
    else if is_cpart(c, 3) { inits_diags(c.children@, src, file) }
    else if is_cpart(c, 4) { action_diags(c, src, file) }
    else if is_cpart(c, 5) { receives_diags(c, src, file) }
    else { Seq::empty() }
}

pub open spec fn cm_diags(cs: Seq<CstNode>, src: Seq<char>, file: FileId) -> Seq<DiagnosticView>
    decreases cs.len(),
{
    if cs.len() == 0 { Seq::empty() } else { cm_diags(cs.drop_last(), src, file) + cpart_diags(cs.last(), src, file) }
}

pub open spec fn component_is(c: Component, n: CstNode, src: Seq<char>, file: FileId, doc: Option<Seq<char>>) -> bool {
    let cs = n.children@;
    &&& nid_is(c.name, fc(n, "name"@), src, file)
    &&& cm_state(c.state@, cs, src, file)
    &&& cm_init(c.init@, cs, src, file)
    &&& cm_actions(c.actions@, cs, src, file)
    &&& cm_receives(c.receives@, cs, src, file)
    &&& dview(c.doc) == doc
    &&& c.span == node_span(n, file)
}

pub open spec fn component_diags(n: CstNode, src: Seq<char>, file: FileId) -> Seq<DiagnosticView> {
    if hf(n, "name"@) { cm_diags(n.children@, src, file) } else { Seq::empty() }
}

pub open spec fn replicate_some(n: CstNode) -> bool {
    hf(n, "id"@) && hf(n, "id_type"@) && hf(n, "id_set"@) && hf(n, "name"@)
}

pub open spec fn replicate_is(r: ReplicateBlock, n: CstNode, src: Seq<char>, file: FileId, doc: Option<Seq<char>>) -> bool {
    nid_is(r.id_param, fc(n, "id"@), src, file) && type_is(r.id_ty, fc(n, "id_type"@), src, file)
        && expr_is(r.id_domain, fc(n, "id_set"@), src, file) && component_is(r.component, n, src, file, doc)
}

pub open spec fn replicate_diags(n: CstNode, src: Seq<char>, file: FileId) -> Seq<DiagnosticView> {
    if hf(n, "id"@) {
        ty_diags(n, "id_type"@, src, file) + if hf(n, "id_type"@) {
            fx_diags(n, "id_set"@, src, file) + if hf(n, "id_set"@) { component_diags(n, src, file) } else { Seq::empty() }
        } else {
            Seq::empty()
        }
    } else {
        Seq::empty()
    }
}

// ---- channels ----

pub open spec fn channel_is(c: ChannelDecl, n: CstNode, src: Seq<char>, file: FileId) -> bool {
    let span = node_span(n, file);
    &&& nid_is(c.name, fc(n, "name"@), src, file)
    &&& if hf(n, "from"@) { endpoint_is(c.from_comp, c.from_mult, fc(n, "from"@), src, file) }
        else { missing_qn(c.from_comp, span) && c.from_mult == ChannelMultiplicity::One }
    &&& if hf(n, "to"@) { endpoint_is(c.to_comp, c.to_mult, fc(n, "to"@), src, file) }
        else { missing_qn(c.to_comp, span) && c.to_mult == ChannelMultiplicity::One }
    &&& c.span == span
}

// ---- auxiliary variables ----

pub open spec fn aux_init_some(c: CstNode, src: Seq<char>) -> bool {
    hf(c, "init"@) && spec_trim(node_text(fc(c, "init"@), src)) != "*"@
}

pub open spec fn auxvar_is(v: AuxiliaryVar, c: CstNode, src: Seq<char>, file: FileId) -> bool {
    let span = node_span(c, file);
    let k = if hf(c, "kind"@) { node_text(fc(c, "kind"@), src) } else { "history"@ };
    &&& v.span == span
    &&& v.kind == (if k == "prophecy"@ { AuxiliaryKind::Prophetic } else { AuxiliaryKind::History })
    &&& fid(v.name, c, "name"@, "<missing>"@, span, src, file)
    &&& ty_or_missing(v.ty, c, "type"@, span, src, file)
    &&& if aux_init_some(c, src) { v.init matches Some(e) && expr_is(e, fc(c, "init"@), src, file) } else { v.init is None }
    &&& v.cross_visible == hf(c, "cross_visible"@)
    &&& if hf(c, "invariant"@) { v.invariant matches Some(e) && expr_is(e, fc(c, "invariant"@), src, file) } else { v.invariant is None }
}

pub open spec fn auxvar_diags(c: CstNode, src: Seq<char>, file: FileId) -> Seq<DiagnosticView> {
    ty_diags(c, "type"@, src, file)
        + (if aux_init_some(c, src) { expr_diags(fc(c, "init"@), src, file) } else { Seq::empty() })
        + fx_diags(c, "invariant"@, src, file)
}

pub open spec fn auxvars_in(vs: Seq<AuxiliaryVar>, cs: Seq<CstNode>, src: Seq<char>, file: FileId) -> bool
    decreases cs.len(),
{
    if cs.len() == 0 {
        vs.len() == 0
    } else if is_content(cs.last()) && cs.last().kind@ == "aux_decl"@ {
        vs.len() > 0 && auxvar_is(vs.last(), cs.last(), src, file) && auxvars_in(vs.drop_last(), cs.drop_last(), src, file)
    } else {
        auxvars_in(vs, cs.drop_last(), src, file)
    }
}

pub open spec fn auxvars_diags(cs: Seq<CstNode>, src: Seq<char>, file: FileId) -> Seq<DiagnosticView>
    decreases cs.len(),
{
    if cs.len() == 0 { Seq::empty() } else { auxvars_diags(cs.drop_last(), src, file)
        + if is_content(cs.last()) && cs.last().kind@ == "aux_decl"@ { auxvar_diags(cs.last(), src, file) } else { Seq::empty() } }
}

// ---- authentication ----

pub open spec fn rhs_is(r: AuthRhs, s: CstNode, src: Seq<char>, file: FileId) -> bool {
    if s.kind@ == "param_ref"@ {
        match first_child_index(s.children@, "identifier"@) {
            Some(j) => r matches AuthRhs::Param(id) && nid_is(id, s.children@[j], src, file),
            None => r matches AuthRhs::Param(id) && id_is(id, "<missing>"@, node_span(s, file)),
        }
    } else if s.kind@ == "system"@ {
        r matches AuthRhs::System
    } else {
        exists|e: Expr| expr_is(e, s, src, file) && match *e.kind {
            ExprKind::Path(p) => r == AuthRhs::Path(p),
            _ => r matches AuthRhs::Path(p) && id_is(p.head, node_text(s, src), node_span(s, file)) && p.accessors@.len() == 0,
        }
    }
}

pub open spec fn rhs_expr(s: CstNode) -> bool {
    s.kind@ != "param_ref"@ && s.kind@ != "system"@
}

pub open spec fn amap_is(m: AuthenticationMapping, c: CstNode, src: Seq<char>, file: FileId) -> bool {
    let span = node_span(c, file);
    &&& m.span == span
    &&& if hf(c, "action"@) { qn_is(m.surface_action, fc(c, "action"@), src, file) } else { missing_qn(m.surface_action, span) }
    &&& if hf(c, "source"@) { rhs_is(m.rhs, fc(c, "source"@), src, file) } else { m.rhs matches AuthRhs::System }
}

pub open spec fn amap_diags(c: CstNode, src: Seq<char>, file: FileId) -> Seq<DiagnosticView> {
    if hf(c, "source"@) && rhs_expr(fc(c, "source"@)) { expr_diags(fc(c, "source"@), src, file) } else { Seq::empty() }
}

pub open spec fn amaps_in(ms: Seq<AuthenticationMapping>, cs: Seq<CstNode>, src: Seq<char>, file: FileId) -> bool
    decreases cs.len(),
{
    if cs.len() == 0 {
        ms.len() == 0
    } else if cs.last().named && cs.last().kind@ == "auth_mapping"@ {
        ms.len() > 0 && amap_is(ms.last(), cs.last(), src, file) && amaps_in(ms.drop_last(), cs.drop_last(), src, file)
    } else {
        amaps_in(ms, cs.drop_last(), src, file)
    }
}

pub open spec fn amaps_diags(cs: Seq<CstNode>, src: Seq<char>, file: FileId) -> Seq<DiagnosticView>
    decreases cs.len(),
{
    if cs.len() == 0 { Seq::empty() } else { amaps_diags(cs.drop_last(), src, file)
        + if cs.last().named && cs.last().kind@ == "auth_mapping"@ { amap_diags(cs.last(), src, file) } else { Seq::empty() } }
}

// ---- maps ----

pub open spec fn mentry_is(m: MapsEntry, c: CstNode, src: Seq<char>, file: FileId) -> bool {
    let span = node_span(c, file);
    &&& m.span == span
    &&& fid(m.field, c, "field"@, "<missing>"@, span, src, file)
    &&& if hf(c, "value"@) { expr_is(m.value, fc(c, "value"@), src, file) } else { m.value.span == span && *m.value.kind == ExprKind::LitNone }
}

pub open spec fn mentries_in(ms: Seq<MapsEntry>, cs: Seq<CstNode>, src: Seq<char>, file: FileId) -> bool
    decreases cs.len(),
{
    if cs.len() == 0 {
        ms.len() == 0
    } else if cs.last().named && cs.last().kind@ == "maps_entry"@ {
        ms.len() > 0 && mentry_is(ms.last(), cs.last(), src, file) && mentries_in(ms.drop_last(), cs.drop_last(), src, file)
    } else {
        mentries_in(ms, cs.drop_last(), src, file)
    }
}

pub open spec fn mentries_diags(cs: Seq<CstNode>, src: Seq<char>, file: FileId) -> Seq<DiagnosticView>
    decreases cs.len(),
{
    if cs.len() == 0 { Seq::empty() } else { mentries_diags(cs.drop_last(), src, file)
        + if cs.last().named && cs.last().kind@ == "maps_entry"@ { fx_diags(cs.last(), "value"@, src, file) } else { Seq::empty() } }
}

// ---- realizations ----

pub open spec fn selector_is(x: ChannelSelector, s: CstNode, src: Seq<char>, file: FileId) -> bool {
    if hf(s, "star"@) { x == ChannelSelector::Star { span: node_span(s, file) } }
    else if hf(s, "name"@) { x matches ChannelSelector::Specific(id) && nid_is(id, fc(s, "name"@), src, file) }
    else { x matches ChannelSelector::Unspecified }
}

/// Whether a child of a realization clause is one of its arguments.
pub open spec fn rarg_child(c: CstNode, i: int, ti: Option<int>, ai: Option<int>) -> bool {
    is_content(c) && ti != Some(i) && ai != Some(i) && c.kind@ != "channel_selector"@ && c.kind@ != "when_clause"@
        && (c.kind@ == "identifier"@ || (c.kind@ == "identifier_expr"@ && first_child_index(c.children@, "identifier"@) is Some))
}

pub open spec fn rarg_node(c: CstNode) -> CstNode {
    if c.kind@ == "identifier"@ { c } else { c.children@[first_child_index(c.children@, "identifier"@).unwrap()] }
}

pub open spec fn rargs_is(ids: Seq<Ident>, cs: Seq<CstNode>, ti: Option<int>, ai: Option<int>, src: Seq<char>, file: FileId) -> bool
    decreases cs.len(),
{
    if cs.len() == 0 {
        ids.len() == 0
    } else if rarg_child(cs.last(), cs.len() - 1, ti, ai) {
        ids.len() > 0 && nid_is(ids.last(), rarg_node(cs.last()), src, file) && rargs_is(ids.drop_last(), cs.drop_last(), ti, ai, src, file)
    } else {
        rargs_is(ids, cs.drop_last(), ti, ai, src, file)
    }
}

pub open spec fn rtarget_is(t: RealizesTarget, n: CstNode, src: Seq<char>, file: FileId) -> bool {
    if hf(n, "target"@) {
        let tn = fc(n, "target"@);
        if tn.kind@ == "EXTERNAL"@ { t matches RealizesTarget::External }
        else if tn.kind@ == "stutter"@ { t matches RealizesTarget::Stutter }
        else { rpath_is(t, tn, src, file) }
    } else {
        t matches RealizesTarget::External
    }
}

pub open spec fn rclause_is(r: RealizesClause, n: CstNode, fs: Seq<(Ident, Expr)>, src: Seq<char>, file: FileId) -> bool {
    let cs = n.children@;
    let span = node_span(n, file);
    let sels = named_of_kind(cs, "channel_selector"@);
    &&& r.span == span
    &&& r.surface_action.segments@.len() == 2 && id_is(r.surface_action.segments@[0], "surface"@, span)
        && fid(r.surface_action.segments@[1], n, "action"@, "<missing>"@, span, src, file)
        && r.surface_action.span == span.spec_merge(r.surface_action.segments@[1].span)
    &&& if sels.len() > 0 { selector_is(r.channel_selector, sels[0], src, file) } else { r.channel_selector matches ChannelSelector::Unspecified }
    &&& if sels.len() > 1 && hf(sels[1], "name"@) {
            r.branch_label matches Some(b) && nid_is(b.name, fc(sels[1], "name"@), src, file) && b.span == node_span(sels[1], file)
        } else {
            r.branch_label is None
        }
    &&& rargs_is(r.args@, cs, field_index(cs, "target"@), field_index(cs, "action"@), src, file)
    &&& rtarget_is(r.target, n, src, file)
    &&& when_is(r.when_guard, cs, src, file)
    &&& r.for_some@ == fs
}

/// The clause node of a `realizes` entry and the `for some` binding it
/// comes with.
pub open spec fn rentry_clause(e: CstNode) -> Option<CstNode> {
    match first_content_node(e.children@) {
        Some(inner) => if inner.kind@ == "realizes_clause"@ {
            Some(inner)
        } else if inner.kind@ == "for_some_realizes"@ {
            match first_child_index(inner.children@, "realizes_clause"@) {
                Some(j) => Some(inner.children@[j]),
                None => None,
            }
        } else {
            None
        },
        None => None,
    }
}

pub open spec fn forsome_is(fs: Seq<(Ident, Expr)>, e: CstNode, src: Seq<char>, file: FileId) -> bool {
    match first_content_node(e.children@) {
        Some(inner) => if inner.kind@ == "for_some_realizes"@ && hf(inner, "var"@) && hf(inner, "set"@) {
            fs.len() == 1 && nid_is(fs[0].0, fc(inner, "var"@), src, file) && expr_is(fs[0].1, fc(inner, "set"@), src, file)
        } else {
            fs.len() == 0
        },
        None => fs.len() == 0,
    }
}

pub open spec fn rentry_diags(e: CstNode, src: Seq<char>, file: FileId) -> Seq<DiagnosticView> {
    match first_content_node(e.children@) {
        Some(inner) => if inner.kind@ == "realizes_clause"@ {
            when_diags(inner.children@, src, file)
        } else if inner.kind@ == "for_some_realizes"@ {
            fx_diags(inner, "set"@, src, file) + match first_child_index(inner.children@, "realizes_clause"@) {
                Some(j) => when_diags(inner.children@[j].children@, src, file),
                None => Seq::empty(),
            }
        } else {
            Seq::empty()
        },
        None => Seq::empty(),
    }
}

pub open spec fn rclauses_in(rs: Seq<RealizesClause>, cs: Seq<CstNode>, src: Seq<char>, file: FileId) -> bool
    decreases cs.len(),
{
    if cs.len() == 0 {
        rs.len() == 0
    } else if cs.last().named && cs.last().kind@ == "realizes_entry"@ && rentry_clause(cs.last()) is Some {
        rs.len() > 0 && (exists|fs: Seq<(Ident, Expr)>| forsome_is(fs, cs.last(), src, file)
            && rclause_is(rs.last(), rentry_clause(cs.last()).unwrap(), fs, src, file))
            && rclauses_in(rs.drop_last(), cs.drop_last(), src, file)
    } else {
        rclauses_in(rs, cs.drop_last(), src, file)
    }
}

pub open spec fn rclauses_diags(cs: Seq<CstNode>, src: Seq<char>, file: FileId) -> Seq<DiagnosticView>
    decreases cs.len(),
{
    if cs.len() == 0 { Seq::empty() } else { rclauses_diags(cs.drop_last(), src, file)
        + if cs.last().named && cs.last().kind@ == "realizes_entry"@ { rentry_diags(cs.last(), src, file) } else { Seq::empty() } }
}

// ---- internal entries and epochs ----

pub open spec fn ientries_in(es: Seq<InternalEntry>, cs: Seq<CstNode>, src: Seq<char>, file: FileId) -> bool
    decreases cs.len(),
{
    if cs.len() == 0 {
        es.len() == 0
    } else if cs.last().named && cs.last().kind@ == "internal_entry"@ {
        (es.len() > 0 && ientry_is(Some(es.last()), cs.last(), src, file) && ientries_in(es.drop_last(), cs.drop_last(), src, file))
            || (ientry_is(None, cs.last(), src, file) && ientries_in(es, cs.drop_last(), src, file))
    } else {
        ientries_in(es, cs.drop_last(), src, file)
    }
}

pub open spec fn advance_kind(c: CstNode) -> bool {
    (c.field matches Some(g) && g@ == "advances_on"@)
        && (c.kind@ == "indexed_path"@ || c.kind@ == "identifier"@ || c.kind@ == "fairness_path"@)
}

pub open spec fn advances_in(ts: Seq<FairnessTarget>, cs: Seq<CstNode>, src: Seq<char>, file: FileId) -> bool
    decreases cs.len(),
{
    if cs.len() == 0 {
        ts.len() == 0
    } else if advance_kind(cs.last()) {
        ts.len() > 0 && ftarget_is(ts.last(), cs.last(), src, file) && advances_in(ts.drop_last(), cs.drop_last(), src, file)
    } else {
        advances_in(ts, cs.drop_last(), src, file)
    }
}

pub open spec fn epoch_is(e: EpochDecl, n: CstNode, src: Seq<char>, file: FileId) -> bool {
    &&& nid_is(e.name, fc(n, "name"@), src, file)
    &&& advances_in(e.advances_on@, n.children@, src, file)
    &&& crate::scenario_syntax::ids_are(e.covers@, crate::scenario_syntax::field_nodes(n.children@, "covers"@), src, file)
    &&& e.doc is None
    &&& e.span == node_span(n, file)
}

// ---- blocks ----

pub open spec fn aux_block_is(b: AuxiliaryBlock, n: CstNode, src: Seq<char>, file: FileId) -> bool {
    auxvars_in(b.vars@, n.children@, src, file) && b.span == node_span(n, file)
}

pub open spec fn auth_block_is(b: AuthenticationBlock, n: CstNode, src: Seq<char>, file: FileId) -> bool {
    amaps_in(b.mappings@, n.children@, src, file) && b.span == node_span(n, file)
}

pub open spec fn maps_block_is(b: MapsBlock, n: CstNode, src: Seq<char>, file: FileId) -> bool {
    mentries_in(b.mappings@, n.children@, src, file) && b.span == node_span(n, file)
}

pub open spec fn realizes_block_is(b: RealizesBlock, n: CstNode, src: Seq<char>, file: FileId) -> bool {
    rclauses_in(b.clauses@, n.children@, src, file) && b.span == node_span(n, file)
}

pub open spec fn internal_block_is(b: InternalBlock, n: CstNode, src: Seq<char>, file: FileId) -> bool {
    ientries_in(b.entries@, n.children@, src, file) && b.span == node_span(n, file)
}

// ---- the substrate block ----

/// Which part of a substrate block a child kind is (0: none).
pub open spec fn sub_tag(kd: Seq<char>) -> u8 {
    if kd == "doc_string"@ { 1 }
    else if kd == "component_decl"@ { 2 }
    else if kd == "replicate_decl"@ { 3 }
    else if kd == "channel_decl"@ { 4 }
    else if kd == "auxiliary_block"@ { 5 }
    else if kd == "authentication_block"@ { 6 }
    else if kd == "maps_block"@ { 7 }
    else if kd == "realizes_block"@ { 8 }
    else if kd == "internal_block"@ { 9 }
    else if kd == "fairness_decl"@ { 10 }
    else if kd == "epoch_decl"@ { 11 }
    else if kd == "acknowledged_block"@ { 12 }
    else { 0 }
}

pub open spec fn is_sp(c: CstNode, t: u8) -> bool {
    is_content(c) && sub_tag(c.kind@) == t
}

pub open spec fn subs_components(ps: Seq<Component>, cs: Seq<CstNode>, src: Seq<char>, file: FileId) -> bool
    decreases cs.len(),
{
    if cs.len() == 0 {
        ps.len() == 0
    } else if is_sp(cs.last(), 2) && hf(cs.last(), "name"@) {
        ps.len() > 0 && component_is(ps.last(), cs.last(), src, file, pending(cs.drop_last(), src))
            && subs_components(ps.drop_last(), cs.drop_last(), src, file)
    } else {
        subs_components(ps, cs.drop_last(), src, file)
    }
}

pub open spec fn subs_replicates(ps: Seq<ReplicateBlock>, cs: Seq<CstNode>, src: Seq<char>, file: FileId) -> bool
    decreases cs.len(),
{
    if cs.len() == 0 {
        ps.len() == 0
    } else if is_sp(cs.last(), 3) && replicate_some(cs.last()) {
        ps.len() > 0 && replicate_is(ps.last(), cs.last(), src, file, pending(cs.drop_last(), src))
            && subs_replicates(ps.drop_last(), cs.drop_last(), src, file)
    } else {
        subs_replicates(ps, cs.drop_last(), src, file)
    }
}

pub open spec fn subs_epochs(ps: Seq<EpochDecl>, cs: Seq<CstNode>, src: Seq<char>, file: FileId) -> bool
    decreases cs.len(),
{
    if cs.len() == 0 {
        ps.len() == 0
    } else if is_sp(cs.last(), 11) && hf(cs.last(), "name"@) {
        ps.len() > 0 && epoch_is(ps.last(), cs.last(), src, file) && subs_epochs(ps.drop_last(), cs.drop_last(), src, file)
    } else {
        subs_epochs(ps, cs.drop_last(), src, file)
    }
}

pub open spec fn sub_part_diags(c: CstNode, src: Seq<char>, file: FileId) -> Seq<DiagnosticView> {
    if is_sp(c, 2) { component_diags(c, src, file) }
    else if is_sp(c, 3) { replicate_diags(c, src, file) }
    else if is_sp(c, 5) { auxvars_diags(c.children@, src, file) }
    else if is_sp(c, 6) { amaps_diags(c.children@, src, file) }
    else if is_sp(c, 7) { mentries_diags(c.children@, src, file) }
    else if is_sp(c, 8) { rclauses_diags(c.children@, src, file) }
    else if is_sp(c, 12) { ack_entries_diags(c.children@, src, file) }
    else { Seq::empty() }
}

pub open spec fn subs_diags(cs: Seq<CstNode>, src: Seq<char>, file: FileId) -> Seq<DiagnosticView>
    decreases cs.len(),
{
    if cs.len() == 0 { Seq::empty() } else { subs_diags(cs.drop_last(), src, file) + sub_part_diags(cs.last(), src, file) }
}

/// The diagnostics of reading a substrate block.
pub open spec fn substrate_block_diags(n: CstNode, src: Seq<char>, file: FileId) -> Seq<DiagnosticView> {
    subs_diags(n.children@, src, file)
}

/// The substrate block a node spells: its name (`<missing>` without
/// one), the surface it realizes, and its parts, each declaration with
/// the doc comment right above it; of the blocks that stand once
/// (`auxiliary`, `authentication`, `maps`, `realizes`, `internal`,
/// `acknowledged`) the last one written.
pub open spec fn substrate_block_is(b: SubstrateBlock, n: CstNode, src: Seq<char>, file: FileId, doc: Option<Seq<char>>) -> bool {
    let cs = n.children@;
    let span = node_span(n, file);
    &&& fid(b.name, n, "name"@, "<missing>"@, span, src, file)
    &&& if hf(n, "surface"@) { b.realizes_target matches Some(q) && qn_is(q, fc(n, "surface"@), src, file) } else { b.realizes_target is None }
    &&& subs_components(b.components@, cs, src, file)
    &&& subs_replicates(b.replicates@, cs, src, file)
    &&& chans_in(b.channels@, cs, src, file)
    &&& match last_of(cs, "auxiliary_block"@) {
        Some(x) => b.auxiliary matches Some(a) && aux_block_is(a, x, src, file),
        None => b.auxiliary is None,
    }
    &&& match last_of(cs, "authentication_block"@) {
        Some(x) => b.authentication matches Some(a) && auth_block_is(a, x, src, file),
        None => b.authentication is None,
    }
    &&& match last_of(cs, "maps_block"@) {
        Some(x) => b.maps matches Some(a) && maps_block_is(a, x, src, file),
        None => b.maps is None,
    }
    &&& match last_of(cs, "realizes_block"@) {
        Some(x) => b.realizes matches Some(a) && realizes_block_is(a, x, src, file),
        None => b.realizes is None,
    }
    &&& match last_of(cs, "internal_block"@) {
        Some(x) => b.internal matches Some(a) && internal_block_is(a, x, src, file),
        None => b.internal is None,
    }
    &&& sb_fairness(b.fairness@, cs, src, file)
    &&& subs_epochs(b.epochs@, cs, src, file)
    &&& match last_of(cs, "acknowledged_block"@) {
        Some(x) => b.acknowledged matches Some(a) && ack_block_is(a, x, src, file),
        None => b.acknowledged is None,
    }
    &&& dview(b.doc) == doc
    &&& b.span == span
}

// ---- exec ----

/// The one-segment `<missing>` name at `span`.
fn missing_qname(span: Span) -> (r: QualifiedName)
    ensures
        missing_qn(r, span),
{
    let mut v: Vec<Ident> = Vec::new();
    v.push(Ident::new("<missing>", span));
    QualifiedName::new(v)
}

fn comp_tag_of(kd: &str) -> (r: u8)
    ensures
        r == comp_tag(kd@),
{
    if str_eq(kd, "doc_string") { 1 }
    else if str_eq(kd, "state_block") { 2 }
    else if str_eq(kd, "init_block") { 3 }
    else if str_eq(kd, "component_action_decl") { 4 }
    else if str_eq(kd, "receives_decl") { 5 }
    else { 0 }
}

/// The guard of the first `when` clause among the children of `n`.
pub(crate) fn when_of(n: &CstNode, src: &str, file: FileId, out: &mut Vec<Diagnostic>) -> (r: Option<Expr>)
    requires
        generics_have_base(*n),
    ensures
        when_is(r, n.children@, src@, file),
        diags_view(final(out)@) == diags_view(old(out)@) + when_diags(n.children@, src@, file),
{
    match crate::surface_syntax::first_idx(n, "when_clause") {
        Some(j) => {
            proof {
                lemma_all_generics(n.children@, j as int);
            }
            match find_field(&n.children[j], "guard") {
                Some(k) => Some(expr_at(&n.children[j], k, Ghost("guard"@), src, file, out)),
                None => {
                    proof {
                        assert(diags_view(out@) =~= diags_view(out@) + Seq::<DiagnosticView>::empty());
                    }
                    None
                },
            }
        },
        None => {
            proof {
                assert(diags_view(out@) =~= diags_view(out@) + Seq::<DiagnosticView>::empty());
            }
            None
        },
    }
}

/// The effect block of the first `then_block` child of `n`, or an empty
/// one at `span`.
pub(crate) fn body_of(n: &CstNode, span: Span, src: &str, file: FileId, out: &mut Vec<Diagnostic>) -> (r: EffectBlock)
    requires
        generics_have_base(*n),
    ensures
        body_block_is(r, n.children@, span, src@, file),
        diags_view(final(out)@) == diags_view(old(out)@) + body_block_diags(n.children@, src@, file),
{
    match crate::surface_syntax::first_idx(n, "then_block") {
        Some(j) => {
            proof {
                lemma_all_generics(n.children@, j as int);
            }
            crate::effect_syntax::convert_effect_block(&n.children[j], src, file, out)
        },
        None => {
            proof {
                assert(diags_view(out@) =~= diags_view(out@) + Seq::<DiagnosticView>::empty());
            }
            EffectBlock { stmts: Vec::new(), span }
        },
    }
}

/// A `receives` handler: `None` without the message it handles.
pub fn convert_receives_decl(n: &CstNode, src: &str, file: FileId, doc: Option<String>, out: &mut Vec<Diagnostic>)
    -> (r: Option<ReceivesHandler>)
    requires
        generics_have_base(*n),
    ensures
        msg_node(*n) is Some ==> (r matches Some(h) && receives_is(h, *n, src@, file, dview(doc))),
        msg_node(*n) is None ==> r is None,
        diags_view(final(out)@) == diags_view(old(out)@) + receives_diags(*n, src@, file),
{
    let ghost h = diags_view(out@);
    let ghost cs = n.children@;
    let span = Span::new(file, n.start, n.end);
    let jm = match find_field(n, "msg") {
        Some(j) => j,
        None => match find_field(n, "message") {
            Some(j) => j,
            None => match find_field(n, "name") {
                Some(j) => j,
                None => {
                    proof {
                        assert(h =~= h + Seq::<DiagnosticView>::empty());
                    }
                    return None;
                },
            },
        },
    };
    let message = crate::expr_syntax::node_ident(&n.children[jm], src, file);
    let from_channel = match find_field(n, "channel") {
        Some(j) => crate::expr_syntax::node_ident(&n.children[j], src, file),
        None => match find_field(n, "from") {
            Some(j) => crate::expr_syntax::node_ident(&n.children[j], src, file),
            None => Ident::new("<missing>", span),
        },
    };
    let params = convert_params(n, src, file, out);
    let d1 = Ghost(diags_view(out@));
    let when_pre = when_of(n, src, file, out);
    let d2 = Ghost(diags_view(out@));
    let body = body_of(n, span, src, file, out);
    proof {
        assert(diags_view(out@) =~= h + receives_diags(*n, src@, file));
    }
    Some(ReceivesHandler { message, params, from_channel, when_pre, body, doc, span })
}

/// A component, or the component part of a replicate block: `None`
/// without a name.
#[verifier::spinoff_prover]
#[verifier::rlimit(60)]
pub fn convert_component(n: &CstNode, src: &str, file: FileId, doc: Option<String>, out: &mut Vec<Diagnostic>)
    -> (r: Option<Component>)
    requires
        generics_have_base(*n),
    ensures
        hf(*n, "name"@) ==> (r matches Some(c) && component_is(c, *n, src@, file, dview(doc))),
        !hf(*n, "name"@) ==> r is None,
        diags_view(final(out)@) == diags_view(old(out)@) + component_diags(*n, src@, file),
{
    let ghost cs = n.children@;
    let ghost h = diags_view(out@);
    let jn = match find_field(n, "name") {
        Some(j) => j,
        None => {
            proof {
                assert(h =~= h + Seq::<DiagnosticView>::empty());
            }
            return None;
        },
    };
    let name = crate::expr_syntax::node_ident(&n.children[jn], src, file);
    let mut state: Vec<StateField> = Vec::new();
    let mut init: Vec<InitAssignment> = Vec::new();
    let mut actions: Vec<ComponentAction> = Vec::new();
    let mut receives: Vec<ReceivesHandler> = Vec::new();
    let mut pending_doc: Option<String> = None;
    let mut i: usize = 0;
    proof {
        assert(cs.subrange(0, 0) =~= Seq::<CstNode>::empty());
        assert(h + Seq::<DiagnosticView>::empty() =~= h);
    }
    while i < n.children.len()
        invariant
            i <= cs.len(),
            cs == n.children@,
            generics_have_base(*n),
            cm_state(state@, cs.subrange(0, i as int), src@, file),
            cm_init(init@, cs.subrange(0, i as int), src@, file),
            cm_actions(actions@, cs.subrange(0, i as int), src@, file),
            cm_receives(receives@, cs.subrange(0, i as int), src@, file),
            dview(pending_doc) == pending(cs.subrange(0, i as int), src@),
            diags_view(out@) == h + cm_diags(cs.subrange(0, i as int), src@, file),
        decreases cs.len() - i,
    {
        let ghost pre = cs.subrange(0, i + 1);
        let ghost prev = cs.subrange(0, i as int);
        let ghost st0 = state@;
        let ghost in0 = init@;
        proof {
            assert(pre.drop_last() =~= prev);
            assert(pre.last() == cs[i as int]);
            lemma_all_generics(cs, i as int);
        }
        let c = &n.children[i];
        let content = crate::expr_syntax::is_content_node(c);
        let t = if content { comp_tag_of(c.kind.as_str()) } else { 0 };
        let mut d: Option<String> = None;
        if content {
            d = pending_doc;
            pending_doc = None;
        }
        if content && t == 1 {
            pending_doc = Some(doc_string_text(text_of(c, src)));
        } else if content && t == 2 {
            let mut fs = convert_state_block(c, src, file, out);
            let ghost gf = fs@;
            state.append(&mut fs);
            proof {
                let m = gf.len();
                assert(state@ == st0 + gf);
                assert(state@.subrange(state@.len() - m, state@.len() as int) =~= gf);
                assert(state@.subrange(0, state@.len() - m) =~= st0);
            }
        } else if content && t == 3 {
            let mut is = convert_init_block(c, src, file, out);
            let ghost gi = is@;
            init.append(&mut is);
            proof {
                let m = gi.len();
                assert(init@ == in0 + gi);
                assert(init@.subrange(init@.len() - m, init@.len() as int) =~= gi);
                assert(init@.subrange(0, init@.len() - m) =~= in0);
            }
        } else if content && t == 4 {
            match convert_action_decl(c, false, src, file, d, out) {
                Some(a) => {
                    let ghost before = actions@;
                    let ca = ComponentAction { name: a.name, params: a.params, return_ty: a.return_ty, when_pre: a.when_pre,
                        raises: a.raises, body: a.body, doc: a.doc, span: a.span };
                    proof {
                        assert(caction_is(ca, *c, src@, file, pending(prev, src@)));
                    }
                    actions.push(ca);
                    proof {
                        assert(actions@.drop_last() =~= before);
                    }
                },
                None => {},
            }
        } else if content && t == 5 {
            match convert_receives_decl(c, src, file, d, out) {
                Some(rh) => {
                    let ghost before = receives@;
                    receives.push(rh);
                    proof {
                        assert(receives@.drop_last() =~= before);
                    }
                },
                None => {},
            }
        }
        proof {
            if !(content && t == 2) {
                assert(state@.subrange(state@.len() as int, state@.len() as int) =~= Seq::<StateField>::empty());
                assert(state@.subrange(0, state@.len() as int) =~= state@);
            }
            if !(content && t == 3) {
                assert(init@.subrange(init@.len() as int, init@.len() as int) =~= Seq::<InitAssignment>::empty());
                assert(init@.subrange(0, init@.len() as int) =~= init@);
            }
            assert(diags_view(out@) =~= h + cm_diags(pre, src@, file));
        }
        i += 1;
    }
    proof {
        assert(cs.subrange(0, i as int) =~= cs);
    }
    Some(Component { name, state, init, actions, receives, doc, span: Span::new(file, n.start, n.end) })
}

/// A replicate block: `None` without its id, id type, id set or name.
pub fn convert_replicate(n: &CstNode, src: &str, file: FileId, doc: Option<String>, out: &mut Vec<Diagnostic>)
    -> (r: Option<ReplicateBlock>)
    requires
        generics_have_base(*n),
    ensures
        replicate_some(*n) ==> (r matches Some(b) && replicate_is(b, *n, src@, file, dview(doc))),
        !replicate_some(*n) ==> r is None,
        diags_view(final(out)@) == diags_view(old(out)@) + replicate_diags(*n, src@, file),
{
    let ghost h = diags_view(out@);
    let ji = match find_field(n, "id") {
        Some(j) => j,
        None => {
            proof {
                assert(h =~= h + Seq::<DiagnosticView>::empty());
            }
            return None;
        },
    };
    let id_param = crate::expr_syntax::node_ident(&n.children[ji], src, file);
    let jt = match find_field(n, "id_type") {
        Some(j) => j,
        None => {
            proof {
                assert(h =~= h + Seq::<DiagnosticView>::empty() + Seq::<DiagnosticView>::empty());
            }
            return None;
        },
    };
    let id_ty = type_at(n, jt, Ghost("id_type"@), src, file, out);
    let d1 = Ghost(diags_view(out@));
    let js = match find_field(n, "id_set") {
        Some(j) => j,
        None => {
            proof {
                assert(diags_view(out@) =~= h + replicate_diags(*n, src@, file));
            }
            return None;
        },
    };
    let id_domain = expr_at(n, js, Ghost("id_set"@), src, file, out);
    let d2 = Ghost(diags_view(out@));
    let comp = convert_component(n, src, file, doc, out);
    proof {
        assert(diags_view(out@) =~= h + replicate_diags(*n, src@, file));
    }
    match comp {
        Some(component) => Some(ReplicateBlock { component, id_param, id_ty, id_domain }),
        None => None,
    }
}

/// A channel declaration: `None` without a name.
pub fn convert_channel_decl(n: &CstNode, src: &str, file: FileId) -> (r: Option<ChannelDecl>)
    ensures
        hf(*n, "name"@) ==> (r matches Some(c) && channel_is(c, *n, src@, file)),
        !hf(*n, "name"@) ==> r is None,
{
    let span = Span::new(file, n.start, n.end);
    let jn = match find_field(n, "name") { Some(j) => j, None => return None };
    let name = crate::expr_syntax::node_ident(&n.children[jn], src, file);
    let (from_comp, from_mult) = match find_field(n, "from") {
        Some(j) => parse_channel_endpoint(&n.children[j], src, file),
        None => (missing_qname(span), ChannelMultiplicity::One),
    };
    let (to_comp, to_mult) = match find_field(n, "to") {
        Some(j) => parse_channel_endpoint(&n.children[j], src, file),
        None => (missing_qname(span), ChannelMultiplicity::One),
    };
    Some(ChannelDecl { name, from_comp, from_mult, to_comp, to_mult, span })
}

/// The first content child of `n`.
fn first_content_idx(n: &CstNode) -> (r: Option<usize>)
    ensures
        match r {
            Some(i) => i < n.children@.len() && first_content_node(n.children@) == Some(n.children@[i as int]),
            None => first_content_node(n.children@) is None,
        },
{
    let ghost cs = n.children@;
    let mut i: usize = 0;
    proof {
        assert(cs.subrange(0, cs.len() as int) =~= cs);
    }
    while i < n.children.len()
        invariant
            i <= cs.len(),
            cs == n.children@,
            first_content_node(cs) == first_content_node(cs.subrange(i as int, cs.len() as int)),
        decreases cs.len() - i,
    {
        let ghost sub = cs.subrange(i as int, cs.len() as int);
        proof {
            assert(sub[0] == cs[i as int]);
            assert(sub.drop_first() =~= cs.subrange(i + 1, cs.len() as int));
        }
        if crate::expr_syntax::is_content_node(&n.children[i]) {
            return Some(i);
        }
        i += 1;
    }
    None
}

/// An auxiliary variable declaration.
pub fn convert_aux_decl(c: &CstNode, src: &str, file: FileId, out: &mut Vec<Diagnostic>) -> (r: AuxiliaryVar)
    requires
        generics_have_base(*c),
    ensures
        auxvar_is(r, *c, src@, file),
        diags_view(final(out)@) == diags_view(old(out)@) + auxvar_diags(*c, src@, file),
{
    proof {
        reveal_strlit("prophecy");
        reveal_strlit("history");
        reveal_strlit("*");
    }
    let ghost h = diags_view(out@);
    let span = Span::new(file, c.start, c.end);
    let kind = match find_field(c, "kind") {
        Some(j) => if str_eq(text_of(&c.children[j], src), "prophecy") { AuxiliaryKind::Prophetic } else { AuxiliaryKind::History },
        None => AuxiliaryKind::History,
    };
    let name = crate::expr_syntax::field_ident(c, "name", "<missing>", span, src, file);
    let ty = field_type(c, "type", span, src, file, out);
    let d1 = Ghost(diags_view(out@));
    let init = match find_field(c, "init") {
        Some(j) => if str_eq(trim(text_of(&c.children[j], src)), "*") {
            proof {
                assert(diags_view(out@) =~= diags_view(out@) + Seq::<DiagnosticView>::empty());
            }
            None
        } else {
            Some(expr_at(c, j, Ghost("init"@), src, file, out))
        },
        None => {
            proof {
                assert(diags_view(out@) =~= diags_view(out@) + Seq::<DiagnosticView>::empty());
            }
            None
        },
    };
    let d2 = Ghost(diags_view(out@));
    let cross_visible = find_field(c, "cross_visible").is_some();
    let inv = match find_field(c, "invariant") {
        Some(j) => Some(expr_at(c, j, Ghost("invariant"@), src, file, out)),
        None => {
            proof {
                assert(diags_view(out@) =~= diags_view(out@) + Seq::<DiagnosticView>::empty());
            }
            None
        },
    };
    proof {
        assert(diags_view(out@) =~= h + auxvar_diags(*c, src@, file));
        if !hf(*c, "kind"@) {
            assert("history"@.len() == 7);
            assert("prophecy"@.len() == 8);
            assert("history"@ != "prophecy"@);
        }
        assert(aux_init_some(*c, src@) ==> init is Some);
        assert(cross_visible == hf(*c, "cross_visible"@));
    }
    AuxiliaryVar { kind, name, ty, init, cross_visible, invariant: inv, span }
}

/// An `auxiliary` block: its `aux_decl` children.
pub fn convert_auxiliary_block(n: &CstNode, src: &str, file: FileId, out: &mut Vec<Diagnostic>) -> (r: AuxiliaryBlock)
    requires
        generics_have_base(*n),
    ensures
        aux_block_is(r, *n, src@, file),
        diags_view(final(out)@) == diags_view(old(out)@) + auxvars_diags(n.children@, src@, file),
{
    let ghost cs = n.children@;
    let ghost h = diags_view(out@);
    let mut vars: Vec<AuxiliaryVar> = Vec::new();
    let mut i: usize = 0;
    proof {
        assert(cs.subrange(0, 0) =~= Seq::<CstNode>::empty());
        assert(h + Seq::<DiagnosticView>::empty() =~= h);
    }
    while i < n.children.len()
        invariant
            i <= cs.len(),
            cs == n.children@,
            generics_have_base(*n),
            auxvars_in(vars@, cs.subrange(0, i as int), src@, file),
            diags_view(out@) == h + auxvars_diags(cs.subrange(0, i as int), src@, file),
        decreases cs.len() - i,
    {
        let ghost pre = cs.subrange(0, i + 1);
        proof {
            assert(pre.drop_last() =~= cs.subrange(0, i as int));
            assert(pre.last() == cs[i as int]);
            lemma_all_generics(cs, i as int);
        }
        let c = &n.children[i];
        if crate::expr_syntax::is_content_node(c) && str_eq(c.kind.as_str(), "aux_decl") {
            let v = convert_aux_decl(c, src, file, out);
            let ghost before = vars@;
            vars.push(v);
            proof {
                assert(vars@.drop_last() =~= before);
            }
        }
        proof {
            assert(diags_view(out@) =~= h + auxvars_diags(pre, src@, file));
        }
        i += 1;
    }
    proof {
        assert(cs.subrange(0, i as int) =~= cs);
    }
    AuxiliaryBlock { vars, span: Span::new(file, n.start, n.end) }
}

/// One `auth_mapping`: a surface action and where its actor comes from.
pub fn convert_auth_mapping(c: &CstNode, src: &str, file: FileId, out: &mut Vec<Diagnostic>) -> (r: AuthenticationMapping)
    requires
        generics_have_base(*c),
    ensures
        amap_is(r, *c, src@, file),
        diags_view(final(out)@) == diags_view(old(out)@) + amap_diags(*c, src@, file),
{
    let span = Span::new(file, c.start, c.end);
    let surface_action = match find_field(c, "action") {
        Some(j) => crate::cst::convert_qualified_name(&c.children[j], src, file),
        None => missing_qname(span),
    };
    let rhs = match find_field(c, "source") {
        Some(j) => {
            let s = &c.children[j];
            if str_eq(s.kind.as_str(), "param_ref") {
                proof {
                    assert(diags_view(out@) =~= diags_view(out@) + Seq::<DiagnosticView>::empty());
                }
                match crate::surface_syntax::first_idx(s, "identifier") {
                    Some(k) => AuthRhs::Param(crate::expr_syntax::node_ident(&s.children[k], src, file)),
                    None => AuthRhs::Param(Ident::new("<missing>", Span::new(file, s.start, s.end))),
                }
            } else if str_eq(s.kind.as_str(), "system") {
                proof {
                    assert(diags_view(out@) =~= diags_view(out@) + Seq::<DiagnosticView>::empty());
                }
                AuthRhs::System
            } else {
                proof {
                    lemma_all_generics(c.children@, j as int);
                }
                let e = convert_expr(s, src, file, out);
                let ghost ge = e;
                let sspan = Span::new(file, s.start, s.end);
                match *e.kind {
                    ExprKind::Path(p) => {
                        proof {
                            assert(expr_is(ge, *s, src@, file));
                        }
                        AuthRhs::Path(p)
                    },
                    _ => {
                        proof {
                            assert(expr_is(ge, *s, src@, file));
                        }
                        AuthRhs::Path(PathExpr { head: Ident::new(text_of(s, src), sspan), accessors: Vec::new() })
                    },
                }
            }
        },
        None => {
            proof {
                assert(diags_view(out@) =~= diags_view(out@) + Seq::<DiagnosticView>::empty());
            }
            AuthRhs::System
        },
    };
    AuthenticationMapping { surface_action, rhs, span }
}

/// An `authentication` block: its `auth_mapping` children.
pub fn convert_authentication_block(n: &CstNode, src: &str, file: FileId, out: &mut Vec<Diagnostic>) -> (r: AuthenticationBlock)
    requires
        generics_have_base(*n),
    ensures
        auth_block_is(r, *n, src@, file),
        diags_view(final(out)@) == diags_view(old(out)@) + amaps_diags(n.children@, src@, file),
{
    let ghost cs = n.children@;
    let ghost h = diags_view(out@);
    let mut ms: Vec<AuthenticationMapping> = Vec::new();
    let mut i: usize = 0;
    proof {
        assert(cs.subrange(0, 0) =~= Seq::<CstNode>::empty());
        assert(h + Seq::<DiagnosticView>::empty() =~= h);
    }
    while i < n.children.len()
        invariant
            i <= cs.len(),
            cs == n.children@,
            generics_have_base(*n),
            amaps_in(ms@, cs.subrange(0, i as int), src@, file),
            diags_view(out@) == h + amaps_diags(cs.subrange(0, i as int), src@, file),
        decreases cs.len() - i,
    {
        let ghost pre = cs.subrange(0, i + 1);
        proof {
            assert(pre.drop_last() =~= cs.subrange(0, i as int));
            assert(pre.last() == cs[i as int]);
            lemma_all_generics(cs, i as int);
        }
        let c = &n.children[i];
        if c.named && str_eq(c.kind.as_str(), "auth_mapping") {
            let m = convert_auth_mapping(c, src, file, out);
            let ghost before = ms@;
            ms.push(m);
            proof {
                assert(ms@.drop_last() =~= before);
            }
        }
        proof {
            assert(diags_view(out@) =~= h + amaps_diags(pre, src@, file));
        }
        i += 1;
    }
    proof {
        assert(cs.subrange(0, i as int) =~= cs);
    }
    AuthenticationBlock { mappings: ms, span: Span::new(file, n.start, n.end) }
}

/// A `maps` block: its `maps_entry` children.
pub fn convert_maps_block(n: &CstNode, src: &str, file: FileId, out: &mut Vec<Diagnostic>) -> (r: MapsBlock)
    requires
        generics_have_base(*n),
    ensures
        maps_block_is(r, *n, src@, file),
        diags_view(final(out)@) == diags_view(old(out)@) + mentries_diags(n.children@, src@, file),
{
    let ghost cs = n.children@;
    let ghost h = diags_view(out@);
    let mut ms: Vec<MapsEntry> = Vec::new();
    let mut i: usize = 0;
    proof {
        assert(cs.subrange(0, 0) =~= Seq::<CstNode>::empty());
        assert(h + Seq::<DiagnosticView>::empty() =~= h);
    }
    while i < n.children.len()
        invariant
            i <= cs.len(),
            cs == n.children@,
            generics_have_base(*n),
            mentries_in(ms@, cs.subrange(0, i as int), src@, file),
            diags_view(out@) == h + mentries_diags(cs.subrange(0, i as int), src@, file),
        decreases cs.len() - i,
    {
        let ghost pre = cs.subrange(0, i + 1);
        proof {
            assert(pre.drop_last() =~= cs.subrange(0, i as int));
            assert(pre.last() == cs[i as int]);
            lemma_all_generics(cs, i as int);
        }
        let c = &n.children[i];
        if c.named && str_eq(c.kind.as_str(), "maps_entry") {
            let espan = Span::new(file, c.start, c.end);
            let field = crate::expr_syntax::field_ident(c, "field", "<missing>", espan, src, file);
            let value = match find_field(c, "value") {
                Some(j) => expr_at(c, j, Ghost("value"@), src, file, out),
                None => {
                    proof {
                        assert(diags_view(out@) =~= diags_view(out@) + Seq::<DiagnosticView>::empty());
                    }
                    Expr { kind: Box::new(ExprKind::LitNone), span: espan }
                },
            };
            let ghost before = ms@;
            ms.push(MapsEntry { field, value, span: espan });
            proof {
                assert(ms@.drop_last() =~= before);
            }
        }
        proof {
            assert(diags_view(out@) =~= h + mentries_diags(pre, src@, file));
        }
        i += 1;
    }
    proof {
        assert(cs.subrange(0, i as int) =~= cs);
    }
    MapsBlock { mappings: ms, span: Span::new(file, n.start, n.end) }
}

fn selector_of(s: &CstNode, src: &str, file: FileId) -> (r: ChannelSelector)
    ensures
        selector_is(r, *s, src@, file),
{
    if find_field(s, "star").is_some() {
        ChannelSelector::Star { span: Span::new(file, s.start, s.end) }
    } else {
        match find_field(s, "name") {
            Some(j) => ChannelSelector::Specific(crate::expr_syntax::node_ident(&s.children[j], src, file)),
            None => ChannelSelector::Unspecified,
        }
    }
}

/// A realization clause, with the `for some` binding it comes with.
#[verifier::rlimit(30)]
pub fn convert_realizes_clause(n: &CstNode, src: &str, file: FileId, for_some: Vec<(Ident, Expr)>, out: &mut Vec<Diagnostic>)
    -> (r: RealizesClause)
    requires
        generics_have_base(*n),
    ensures
        rclause_is(r, *n, for_some@, src@, file),
        diags_view(final(out)@) == diags_view(old(out)@) + when_diags(n.children@, src@, file),
{
    proof {
        reveal_strlit("surface");
    }
    let ghost cs = n.children@;
    let span = Span::new(file, n.start, n.end);
    let action_id = crate::expr_syntax::field_ident(n, "action", "<missing>", span, src, file);
    let mut segs: Vec<Ident> = Vec::new();
    segs.push(Ident::new("surface", span));
    segs.push(action_id);
    let surface_action = QualifiedName::new(segs);
    let sels = crate::cst::named_children_of(n, "channel_selector");
    let channel_selector = if sels.len() > 0 { selector_of(sels[0], src, file) } else { ChannelSelector::Unspecified };
    let branch_label = if sels.len() > 1 {
        match find_field(sels[1], "name") {
            Some(j) => Some(BranchLabel {
                name: crate::expr_syntax::node_ident(&sels[1].children[j], src, file),
                span: Span::new(file, sels[1].start, sels[1].end),
            }),
            None => None,
        }
    } else {
        None
    };
    let ti = find_field(n, "target");
    let ai = find_field(n, "action");
    let ghost gti = field_index(cs, "target"@);
    let ghost gai = field_index(cs, "action"@);
    let mut args: Vec<Ident> = Vec::new();
    let mut i: usize = 0;
    proof {
        assert(cs.subrange(0, 0) =~= Seq::<CstNode>::empty());
    }
    while i < n.children.len()
        invariant
            i <= cs.len(),
            cs == n.children@,
            gti == field_index(cs, "target"@),
            gai == field_index(cs, "action"@),
            ti matches Some(t) ==> gti == Some(t as int),
            ti is None ==> gti is None,
            ai matches Some(t) ==> gai == Some(t as int),
            ai is None ==> gai is None,
            rargs_is(args@, cs.subrange(0, i as int), gti, gai, src@, file),
        decreases cs.len() - i,
    {
        let ghost pre = cs.subrange(0, i + 1);
        proof {
            assert(pre.drop_last() =~= cs.subrange(0, i as int));
            assert(pre.last() == cs[i as int]);
            assert(pre.len() - 1 == i);
        }
        let c = &n.children[i];
        let is_t = match ti { Some(t) => t == i, None => false };
        let is_a = match ai { Some(t) => t == i, None => false };
        if crate::expr_syntax::is_content_node(c) && !is_t && !is_a && !str_eq(c.kind.as_str(), "channel_selector")
            && !str_eq(c.kind.as_str(), "when_clause") {
            if str_eq(c.kind.as_str(), "identifier") {
                let ghost before = args@;
                args.push(crate::expr_syntax::node_ident(c, src, file));
                proof {
                    assert(args@.drop_last() =~= before);
                }
            } else if str_eq(c.kind.as_str(), "identifier_expr") {
                match crate::surface_syntax::first_idx(c, "identifier") {
                    Some(k) => {
                        let ghost before = args@;
                        args.push(crate::expr_syntax::node_ident(&c.children[k], src, file));
                        proof {
                            assert(args@.drop_last() =~= before);
                        }
                    },
                    None => {},
                }
            }
        }
        i += 1;
    }
    proof {
        assert(cs.subrange(0, i as int) =~= cs);
    }
    let target = match find_field(n, "target") {
        Some(j) => {
            let tn = &n.children[j];
            if str_eq(tn.kind.as_str(), "EXTERNAL") {
                RealizesTarget::External
            } else if str_eq(tn.kind.as_str(), "stutter") {
                RealizesTarget::Stutter
            } else {
                parse_realization_path(tn, src, file)
            }
        },
        None => RealizesTarget::External,
    };
    let when_guard = when_of(n, src, file, out);
    RealizesClause { surface_action, args, channel_selector, branch_label, target, when_guard, for_some, span }
}

/// One `realizes` entry: its clause, with the `for some` binding when
/// it has one; `None` when it holds no clause.
pub fn convert_realizes_entry(e: &CstNode, src: &str, file: FileId, out: &mut Vec<Diagnostic>) -> (r: Option<RealizesClause>)
    requires
        generics_have_base(*e),
    ensures
        rentry_clause(*e) matches Some(cn) ==> (r matches Some(rc)
            && exists|fs: Seq<(Ident, Expr)>| forsome_is(fs, *e, src@, file) && rclause_is(rc, cn, fs, src@, file)),
        rentry_clause(*e) is None ==> r is None,
        diags_view(final(out)@) == diags_view(old(out)@) + rentry_diags(*e, src@, file),
{
    proof {
        reveal_strlit("realizes_clause");
        reveal_strlit("for_some_realizes");
    }
    let ghost h = diags_view(out@);
    match first_content_idx(e) {
        None => {
            proof {
                assert(h =~= h + Seq::<DiagnosticView>::empty());
            }
            None
        },
        Some(k) => {
            proof {
                lemma_all_generics(e.children@, k as int);
            }
            let inner = &e.children[k];
            if str_eq(inner.kind.as_str(), "realizes_clause") {
                let none: Vec<(Ident, Expr)> = Vec::new();
                proof {
                    assert(none@ =~= Seq::<(Ident, Expr)>::empty());
                    assert(first_content_node(e.children@) == Some(*inner));
                    assert(inner.kind@ == "realizes_clause"@);
                    assert("realizes_clause"@.len() == 15);
                    assert("for_some_realizes"@.len() == 17);
                    assert(forsome_is(none@, *e, src@, file));
                }
                let rc = convert_realizes_clause(inner, src, file, none, out);
                Some(rc)
            } else if str_eq(inner.kind.as_str(), "for_some_realizes") {
                let var = match find_field(inner, "var") {
                    Some(j) => Some(crate::expr_syntax::node_ident(&inner.children[j], src, file)),
                    None => None,
                };
                let set_expr = match find_field(inner, "set") {
                    Some(j) => Some(expr_at(inner, j, Ghost("set"@), src, file, out)),
                    None => {
                        proof {
                            assert(diags_view(out@) =~= diags_view(out@) + Seq::<DiagnosticView>::empty());
                        }
                        None
                    },
                };
                let d1 = Ghost(diags_view(out@));
                let mut fs: Vec<(Ident, Expr)> = Vec::new();
                match (var, set_expr) {
                    (Some(v), Some(x)) => {
                        fs.push((v, x));
                    },
                    _ => {},
                }
                let ghost gfs = fs@;
                proof {
                    assert(forsome_is(gfs, *e, src@, file));
                }
                match crate::surface_syntax::first_idx(inner, "realizes_clause") {
                    Some(j) => {
                        proof {
                            lemma_all_generics(inner.children@, j as int);
                        }
                        let rc = convert_realizes_clause(&inner.children[j], src, file, fs, out);
                        proof {
                            assert(diags_view(out@) =~= h + rentry_diags(*e, src@, file));
                        }
                        Some(rc)
                    },
                    None => {
                        proof {
                            assert(diags_view(out@) =~= h + rentry_diags(*e, src@, file));
                        }
                        None
                    },
                }
            } else {
                proof {
                    assert(h =~= h + Seq::<DiagnosticView>::empty());
                }
                None
            }
        },
    }
}

/// A `realizes` block: the clauses of its `realizes_entry` children.
pub fn convert_realizes_block(n: &CstNode, src: &str, file: FileId, out: &mut Vec<Diagnostic>) -> (r: RealizesBlock)
    requires
        generics_have_base(*n),
    ensures
        realizes_block_is(r, *n, src@, file),
        diags_view(final(out)@) == diags_view(old(out)@) + rclauses_diags(n.children@, src@, file),
{
    let ghost cs = n.children@;
    let ghost h = diags_view(out@);
    let mut clauses: Vec<RealizesClause> = Vec::new();
    let mut i: usize = 0;
    proof {
        assert(cs.subrange(0, 0) =~= Seq::<CstNode>::empty());
        assert(h + Seq::<DiagnosticView>::empty() =~= h);
    }
    while i < n.children.len()
        invariant
            i <= cs.len(),
            cs == n.children@,
            generics_have_base(*n),
            rclauses_in(clauses@, cs.subrange(0, i as int), src@, file),
            diags_view(out@) == h + rclauses_diags(cs.subrange(0, i as int), src@, file),
        decreases cs.len() - i,
    {
        let ghost pre = cs.subrange(0, i + 1);
        proof {
            assert(pre.drop_last() =~= cs.subrange(0, i as int));
            assert(pre.last() == cs[i as int]);
            lemma_all_generics(cs, i as int);
        }
        let c = &n.children[i];
        if c.named && str_eq(c.kind.as_str(), "realizes_entry") {
            match convert_realizes_entry(c, src, file, out) {
                Some(rc) => {
                    let ghost before = clauses@;
                    clauses.push(rc);
                    proof {
                        assert(clauses@.drop_last() =~= before);
                    }
                },
                None => {},
            }
        }
        proof {
            assert(diags_view(out@) =~= h + rclauses_diags(pre, src@, file));
        }
        i += 1;
    }
    proof {
        assert(cs.subrange(0, i as int) =~= cs);
    }
    RealizesBlock { clauses, span: Span::new(file, n.start, n.end) }
}

/// An `internal` block: the entries its `internal_entry` children name.
pub fn convert_internal_block(n: &CstNode, src: &str, file: FileId) -> (r: InternalBlock)
    ensures
        internal_block_is(r, *n, src@, file),
{
    let ghost cs = n.children@;
    let mut entries: Vec<InternalEntry> = Vec::new();
    let mut i: usize = 0;
    proof {
        assert(cs.subrange(0, 0) =~= Seq::<CstNode>::empty());
    }
    while i < n.children.len()
        invariant
            i <= cs.len(),
            cs == n.children@,
            ientries_in(entries@, cs.subrange(0, i as int), src@, file),
        decreases cs.len() - i,
    {
        let ghost pre = cs.subrange(0, i + 1);
        proof {
            assert(pre.drop_last() =~= cs.subrange(0, i as int));
            assert(pre.last() == cs[i as int]);
        }
        let c = &n.children[i];
        if c.named && str_eq(c.kind.as_str(), "internal_entry") {
            match convert_internal_entry(c, src, file) {
                Some(x) => {
                    let ghost before = entries@;
                    entries.push(x);
                    proof {
                        assert(entries@.drop_last() =~= before);
                    }
                },
                None => {},
            }
        }
        i += 1;
    }
    proof {
        assert(cs.subrange(0, i as int) =~= cs);
    }
    InternalBlock { entries, span: Span::new(file, n.start, n.end) }
}

/// An `epoch` declaration: `None` without a name.
pub fn convert_epoch_decl(n: &CstNode, src: &str, file: FileId) -> (r: Option<EpochDecl>)
    ensures
        hf(*n, "name"@) ==> (r matches Some(e) && epoch_is(e, *n, src@, file)),
        !hf(*n, "name"@) ==> r is None,
{
    let ghost cs = n.children@;
    let jn = match find_field(n, "name") { Some(j) => j, None => return None };
    let name = crate::expr_syntax::node_ident(&n.children[jn], src, file);
    let mut advances_on: Vec<FairnessTarget> = Vec::new();
    let mut i: usize = 0;
    proof {
        assert(cs.subrange(0, 0) =~= Seq::<CstNode>::empty());
    }
    while i < n.children.len()
        invariant
            i <= cs.len(),
            cs == n.children@,
            advances_in(advances_on@, cs.subrange(0, i as int), src@, file),
        decreases cs.len() - i,
    {
        let ghost pre = cs.subrange(0, i + 1);
        proof {
            assert(pre.drop_last() =~= cs.subrange(0, i as int));
            assert(pre.last() == cs[i as int]);
        }
        let c = &n.children[i];
        let hit = match &c.field {
            Some(g) => str_eq(g.as_str(), "advances_on"),
            None => false,
        };
        if hit && (str_eq(c.kind.as_str(), "indexed_path") || str_eq(c.kind.as_str(), "identifier")
            || str_eq(c.kind.as_str(), "fairness_path")) {
            let ghost before = advances_on@;
            advances_on.push(parse_fairness_target(c, src, file));
            proof {
                assert(advances_on@.drop_last() =~= before);
            }
        }
        i += 1;
    }
    proof {
        assert(cs.subrange(0, i as int) =~= cs);
    }
    let mut covers: Vec<Ident> = Vec::new();
    proof {
        assert(Seq::<CstNode>::empty() + crate::scenario_syntax::field_nodes(cs, "covers"@)
            =~= crate::scenario_syntax::field_nodes(cs, "covers"@));
    }
    crate::scenario_syntax::push_field_idents(n, "covers", src, file, &mut covers, Ghost(Seq::empty()));
    Some(EpochDecl { name, advances_on, covers, doc: None, span: Span::new(file, n.start, n.end) })
}

fn sub_tag_of(kd: &str) -> (r: u8)
    ensures
        r == sub_tag(kd@),
{
    if str_eq(kd, "doc_string") { 1 }
    else if str_eq(kd, "component_decl") { 2 }
    else if str_eq(kd, "replicate_decl") { 3 }
    else if str_eq(kd, "channel_decl") { 4 }
    else if str_eq(kd, "auxiliary_block") { 5 }
    else if str_eq(kd, "authentication_block") { 6 }
    else if str_eq(kd, "maps_block") { 7 }
    else if str_eq(kd, "realizes_block") { 8 }
    else if str_eq(kd, "internal_block") { 9 }
    else if str_eq(kd, "fairness_decl") { 10 }
    else if str_eq(kd, "epoch_decl") { 11 }
    else if str_eq(kd, "acknowledged_block") { 12 }
    else { 0 }
}

/// The kinds behind the part tags, told apart by length.
proof fn lemma_sub_kinds()
    ensures
        "doc_string"@.len() == 10, "component_decl"@.len() == 14, "replicate_decl"@.len() == 14,
        "channel_decl"@.len() == 12, "auxiliary_block"@.len() == 15, "authentication_block"@.len() == 20,
        "maps_block"@.len() == 10, "realizes_block"@.len() == 14, "internal_block"@.len() == 14,
        "fairness_decl"@.len() == 13, "epoch_decl"@.len() == 10, "acknowledged_block"@.len() == 18,
        "state_block"@.len() == 11, "init_block"@.len() == 10, "defaults_block"@.len() == 14,
        "doc_string"@ != "maps_block"@, "doc_string"@ != "epoch_decl"@, "maps_block"@ != "epoch_decl"@,
        "realizes_block"@ != "internal_block"@, "component_decl"@ != "replicate_decl"@,
        "component_decl"@ != "realizes_block"@, "component_decl"@ != "internal_block"@,
        "replicate_decl"@ != "realizes_block"@, "replicate_decl"@ != "internal_block"@,
        "defaults_block"@ != "realizes_block"@, "defaults_block"@ != "internal_block"@,
        "defaults_block"@ != "component_decl"@, "defaults_block"@ != "replicate_decl"@,
        "init_block"@ != "maps_block"@, "init_block"@ != "epoch_decl"@, "init_block"@ != "doc_string"@,
{
    reveal_strlit("doc_string");
    reveal_strlit("component_decl");
    reveal_strlit("replicate_decl");
    reveal_strlit("channel_decl");
    reveal_strlit("auxiliary_block");
    reveal_strlit("authentication_block");
    reveal_strlit("maps_block");
    reveal_strlit("realizes_block");
    reveal_strlit("internal_block");
    reveal_strlit("fairness_decl");
    reveal_strlit("epoch_decl");
    reveal_strlit("acknowledged_block");
    reveal_strlit("state_block");
    reveal_strlit("init_block");
    reveal_strlit("defaults_block");
    assert("doc_string"@[0] != "maps_block"@[0]);
    assert("doc_string"@[0] != "epoch_decl"@[0]);
    assert("maps_block"@[0] != "epoch_decl"@[0]);
    assert("realizes_block"@[0] != "internal_block"@[0]);
    assert("component_decl"@[0] != "replicate_decl"@[0]);
    assert("component_decl"@[0] != "realizes_block"@[0]);
    assert("component_decl"@[0] != "internal_block"@[0]);
    assert("replicate_decl"@[2] != "realizes_block"@[2]);
    assert("replicate_decl"@[0] != "internal_block"@[0]);
    assert("defaults_block"@[0] != "realizes_block"@[0]);
    assert("defaults_block"@[0] != "internal_block"@[0]);
    assert("defaults_block"@[0] != "component_decl"@[0]);
    assert("defaults_block"@[0] != "replicate_decl"@[0]);
    assert("init_block"@[0] != "maps_block"@[0]);
    assert("init_block"@[0] != "epoch_decl"@[0]);
    assert("init_block"@[0] != "doc_string"@[0]);
}

/// A substrate block (a partial one too): its name, the surface it
/// realizes, and its parts, each declaration with the doc comment right
/// above it.
#[verifier::spinoff_prover]
#[verifier::rlimit(100)]
pub fn build_substrate_block(node: &CstNode, src: &str, file: FileId, doc: Option<String>, out: &mut Vec<Diagnostic>)
    -> (r: SubstrateBlock)
    requires
        generics_have_base(*node),
    ensures
        substrate_block_is(r, *node, src@, file, dview(doc)),
        diags_view(final(out)@) == diags_view(old(out)@) + substrate_block_diags(*node, src@, file),
{
    let ghost cs = node.children@;
    let ghost h = diags_view(out@);
    let span = Span::new(file, node.start, node.end);
    let name = crate::expr_syntax::field_ident(node, "name", "<missing>", span, src, file);
    let realizes_target = match find_field(node, "surface") {
        Some(j) => Some(crate::cst::convert_qualified_name(&node.children[j], src, file)),
        None => None,
    };
    let mut components: Vec<Component> = Vec::new();
    let mut replicates: Vec<ReplicateBlock> = Vec::new();
    let mut channels: Vec<ChannelDecl> = Vec::new();
    let mut auxiliary: Option<AuxiliaryBlock> = None;
    let mut authentication: Option<AuthenticationBlock> = None;
    let mut maps: Option<MapsBlock> = None;
    let mut realizes: Option<RealizesBlock> = None;
    let mut internal: Option<InternalBlock> = None;
    let mut fairness: Vec<FairnessSpec> = Vec::new();
    let mut epochs: Vec<EpochDecl> = Vec::new();
    let mut acknowledged: Option<AcknowledgedBlock> = None;
    let mut pending_doc: Option<String> = None;
    let mut i: usize = 0;
    proof {
        assert(cs.subrange(0, 0) =~= Seq::<CstNode>::empty());
        assert(h + Seq::<DiagnosticView>::empty() =~= h);
    }
    while i < node.children.len()
        invariant
            i <= cs.len(),
            cs == node.children@,
            generics_have_base(*node),
            subs_components(components@, cs.subrange(0, i as int), src@, file),
            subs_replicates(replicates@, cs.subrange(0, i as int), src@, file),
            chans_in(channels@, cs.subrange(0, i as int), src@, file),
            match last_of(cs.subrange(0, i as int), "auxiliary_block"@) {
                Some(x) => auxiliary matches Some(a) && aux_block_is(a, x, src@, file),
                None => auxiliary is None,
            },
            match last_of(cs.subrange(0, i as int), "authentication_block"@) {
                Some(x) => authentication matches Some(a) && auth_block_is(a, x, src@, file),
                None => authentication is None,
            },
            match last_of(cs.subrange(0, i as int), "maps_block"@) {
                Some(x) => maps matches Some(a) && maps_block_is(a, x, src@, file),
                None => maps is None,
            },
            match last_of(cs.subrange(0, i as int), "realizes_block"@) {
                Some(x) => realizes matches Some(a) && realizes_block_is(a, x, src@, file),
                None => realizes is None,
            },
            match last_of(cs.subrange(0, i as int), "internal_block"@) {
                Some(x) => internal matches Some(a) && internal_block_is(a, x, src@, file),
                None => internal is None,
            },
            sb_fairness(fairness@, cs.subrange(0, i as int), src@, file),
            subs_epochs(epochs@, cs.subrange(0, i as int), src@, file),
            match last_of(cs.subrange(0, i as int), "acknowledged_block"@) {
                Some(x) => acknowledged matches Some(a) && ack_block_is(a, x, src@, file),
                None => acknowledged is None,
            },
            dview(pending_doc) == pending(cs.subrange(0, i as int), src@),
            diags_view(out@) == h + subs_diags(cs.subrange(0, i as int), src@, file),
        decreases cs.len() - i,
    {
        let ghost pre = cs.subrange(0, i + 1);
        proof {
            assert(pre.drop_last() =~= cs.subrange(0, i as int));
            assert(pre.last() == cs[i as int]);
            lemma_all_generics(cs, i as int);
            lemma_sub_kinds();
        }
        let c = &node.children[i];
        let content = crate::expr_syntax::is_content_node(c);
        let t = if content { sub_tag_of(c.kind.as_str()) } else { 0 };
        let mut d: Option<String> = None;
        if content {
            d = pending_doc;
            pending_doc = None;
        }
        if content && t == 1 {
            pending_doc = Some(doc_string_text(text_of(c, src)));
        } else if content && t == 2 {
            match convert_component(c, src, file, d, out) {
                Some(x) => {
                    let ghost before = components@;
                    components.push(x);
                    proof {
                        assert(components@.drop_last() =~= before);
                    }
                },
                None => {},
            }
        } else if content && t == 3 {
            match convert_replicate(c, src, file, d, out) {
                Some(x) => {
                    let ghost before = replicates@;
                    replicates.push(x);
                    proof {
                        assert(replicates@.drop_last() =~= before);
                    }
                },
                None => {},
            }
        } else if content && t == 4 {
            match convert_channel_decl(c, src, file) {
                Some(x) => {
                    let ghost before = channels@;
                    channels.push(x);
                    proof {
                        assert(channels@.drop_last() =~= before);
                    }
                },
                None => {},
            }
        } else if content && t == 5 {
            auxiliary = Some(convert_auxiliary_block(c, src, file, out));
        } else if content && t == 6 {
            authentication = Some(convert_authentication_block(c, src, file, out));
        } else if content && t == 7 {
            maps = Some(convert_maps_block(c, src, file, out));
        } else if content && t == 8 {
            realizes = Some(convert_realizes_block(c, src, file, out));
        } else if content && t == 9 {
            internal = Some(convert_internal_block(c, src, file));
        } else if content && t == 10 {
            match convert_fairness_decl(c, src, file) {
                Some(x) => {
                    let ghost before = fairness@;
                    fairness.push(x);
                    proof {
                        assert(fairness@.drop_last() =~= before);
                    }
                },
                None => {},
            }
        } else if content && t == 11 {
            match convert_epoch_decl(c, src, file) {
                Some(x) => {
                    let ghost before = epochs@;
                    epochs.push(x);
                    proof {
                        assert(epochs@.drop_last() =~= before);
                    }
                },
                None => {},
            }
        } else if content && t == 12 {
            acknowledged = Some(convert_acknowledged_block(c, src, file, out));
        }
        proof {
            assert(diags_view(out@) =~= h + subs_diags(pre, src@, file));
        }
        i += 1;
    }
    proof {
        assert(cs.subrange(0, i as int) =~= cs);
    }
    SubstrateBlock {
        name,
        realizes_target,
        components,
        replicates,
        channels,
        auxiliary,
        authentication,
        maps,
        realizes,
        internal,
        fairness,
        epochs,
        acknowledged,
        doc,
        span,
    }
}

/// A substrate block.
pub fn convert_substrate_block(node: &CstNode, src: &str, file: FileId, doc: Option<String>, out: &mut Vec<Diagnostic>)
    -> (r: SubstrateBlock)
    requires
        generics_have_base(*node),
    ensures
        substrate_block_is(r, *node, src@, file, dview(doc)),
        diags_view(final(out)@) == diags_view(old(out)@) + substrate_block_diags(*node, src@, file),
{
    build_substrate_block(node, src, file, doc, out)
}

/// A partial substrate block: the block, with the names in its `field`
/// fields that it owns.
pub fn convert_partial_substrate_block(node: &CstNode, src: &str, file: FileId, doc: Option<String>, out: &mut Vec<Diagnostic>)
    -> (r: PartialSubstrateBlock)
    requires
        generics_have_base(*node),
    ensures
        crate::scenario_syntax::ids_are(r.owns@, crate::scenario_syntax::field_nodes(node.children@, "field"@), src@, file),
        substrate_block_is(r.block, *node, src@, file, dview(doc)),
        diags_view(final(out)@) == diags_view(old(out)@) + substrate_block_diags(*node, src@, file),
{
    let mut owns: Vec<Ident> = Vec::new();
    proof {
        assert(Seq::<CstNode>::empty() + crate::scenario_syntax::field_nodes(node.children@, "field"@)
            =~= crate::scenario_syntax::field_nodes(node.children@, "field"@));
    }
    crate::scenario_syntax::push_field_idents(node, "field", src, file, &mut owns, Ghost(Seq::empty()));
    let block = build_substrate_block(node, src, file, doc, out);
    PartialSubstrateBlock { block, owns }
}

} // verus!
