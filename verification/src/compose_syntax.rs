//! Compose blocks and `acknowledged { … }` entries read off their syntax
//! trees: which obligation kind an acknowledgement names, its arguments,
//! its resolution and the reason it gives.

use vstd::prelude::*;
use crate::codes::{Code, ErrorKind};
use crate::compose::{AcknowledgedArg, AcknowledgedBlock, AcknowledgedEntry, AcknowledgedResolution, ComposeBlock, ObligationKind};
use crate::decl_syntax::dview;
use crate::fairness_syntax::convert_fairness_decl;
use crate::substrate::{ChannelDecl, FairnessSpec, RealizesBlock};
use crate::substrate_syntax::{channel_is, realizes_block_is, rclauses_diags, convert_channel_decl, convert_realizes_block};
use crate::surface_syntax::sb_fairness;
use crate::cst::{CstNode, first_child_index, node_span, node_text, text_of};
use crate::diagnostic::{Diagnostic, DiagnosticView, diags_view, plain, lemma_diags_view_push};
use crate::effect_syntax::{hf, fc, fx_diags};
use crate::expr::{Expr, ExprKind, PathAccessor};
use crate::expr_syntax::{is_content, nid_is, id_is, expr_is, expr_diags, convert_expr};
use crate::decl_syntax::expr_at;
use crate::ident::{Ident, QualifiedName};
use crate::span::{FileId, Span};
use crate::syntax::is_triple_quoted;
use crate::text::{str_eq, owned};
use crate::type_syntax::{generics_have_base, lemma_all_generics, find_field};

verus! {

// ---- the kind ----

/// The text of an entry's `kind` field, empty without one.
pub open spec fn ack_kind_text(n: CstNode, src: Seq<char>) -> Seq<char> {
    if hf(n, "kind"@) { node_text(fc(n, "kind"@), src) } else { Seq::empty() }
}

/// The obligation kind an entry names; `information_flow` stands in for
/// a name that is none of them.
pub open spec fn ack_kind_of(n: CstNode, src: Seq<char>) -> ObligationKind {
    match ObligationKind::spec_from_name(ack_kind_text(n, src)) {
        Some(k) => k,
        None => ObligationKind::InformationFlow,
    }
}

pub open spec fn ack_kind_list() -> Seq<char> {
    "availability_depends_on, availability_consistency, availability_channel_class, trust_transitive, information_flow, pii_anon, write_conflict, replay_amplification, retention_propagation, actor_view_leak, derived_write, freshness_channel"@
}

pub open spec fn msg_unknown_ack(k: Seq<char>) -> Seq<char> {
    "unknown acknowledgement kind `"@ + k + "`; expected one of: "@ + ack_kind_list()
}

/// The error for a kind name that is none of the obligation kinds, at
/// the name (or at the entry without one).
pub open spec fn ack_kind_diags(n: CstNode, src: Seq<char>, file: FileId) -> Seq<DiagnosticView> {
    if ObligationKind::spec_from_name(ack_kind_text(n, src)) is None {
        seq![plain(Code::Error(ErrorKind::SurfaceSlotUnknownValue), msg_unknown_ack(ack_kind_text(n, src)),
            if hf(n, "kind"@) { node_span(fc(n, "kind"@), file) } else { node_span(n, file) })]
    } else {
        Seq::empty()
    }
}

// ---- `because:` ----

/// A reason string without its quotes: `"""…"""` first, else `"…"`.
pub open spec fn unquote(raw: Seq<char>) -> Seq<char> {
    if is_triple_quoted(raw) {
        raw.subrange(3, raw.len() - 3)
    } else if raw.len() >= 2 && raw[0] == '"' && raw.last() == '"' {
        raw.subrange(1, raw.len() - 1)
    } else {
        raw
    }
}

/// The reason an `ack_because` node gives, with the node's span.
pub open spec fn because_of(c: CstNode, src: Seq<char>, file: FileId) -> Option<(Seq<char>, Span)> {
    if hf(c, "reason"@) { Some((unquote(node_text(fc(c, "reason"@), src)), node_span(c, file))) } else { None }
}

/// The last reason given among the children `cs` of an item, the
/// child at `vi` (a map item's value) aside.
pub open spec fn because_in(cs: Seq<CstNode>, vi: Option<int>, src: Seq<char>, file: FileId) -> Option<(Seq<char>, Span)>
    decreases cs.len(),
{
    if cs.len() == 0 {
        None
    } else if is_content(cs.last()) && cs.last().kind@ == "ack_because"@ && vi != Some(cs.len() - 1)
        && because_of(cs.last(), src, file) is Some {
        because_of(cs.last(), src, file)
    } else {
        because_in(cs.drop_last(), vi, src, file)
    }
}

// ---- resolutions ----

/// Whether a map item's value reads as a resolution call.
pub open spec fn res_some(c: CstNode) -> bool {
    &&& c.kind@ == "call_expr"@
    &&& hf(c, "callee"@)
    &&& (fc(c, "callee"@).kind@ == "identifier"@ || fc(c, "callee"@).kind@ == "identifier_expr"@)
    &&& first_child_index(c.children@, "call_args"@) is Some
}

pub open spec fn callee_name(k: CstNode, src: Seq<char>) -> Seq<char> {
    if k.kind@ == "identifier"@ {
        node_text(k, src)
    } else {
        match first_child_index(k.children@, "identifier"@) {
            Some(j) => node_text(k.children@[j], src),
            None => Seq::empty(),
        }
    }
}

/// The argument values of a resolution call: each argument's `value`, or
/// `none` at the argument.
pub open spec fn res_args_is(es: Seq<Expr>, cs: Seq<CstNode>, src: Seq<char>, file: FileId) -> bool
    decreases cs.len(),
{
    if cs.len() == 0 {
        es.len() == 0
    } else if is_content(cs.last()) {
        es.len() > 0 && (if hf(cs.last(), "value"@) {
            expr_is(es.last(), fc(cs.last(), "value"@), src, file)
        } else {
            es.last().span == node_span(cs.last(), file) && *es.last().kind == ExprKind::LitNone
        }) && res_args_is(es.drop_last(), cs.drop_last(), src, file)
    } else {
        res_args_is(es, cs.drop_last(), src, file)
    }
}

pub open spec fn res_args_diags(cs: Seq<CstNode>, src: Seq<char>, file: FileId) -> Seq<DiagnosticView>
    decreases cs.len(),
{
    if cs.len() == 0 {
        Seq::empty()
    } else {
        res_args_diags(cs.drop_last(), src, file) + if is_content(cs.last()) { fx_diags(cs.last(), "value"@, src, file) } else { Seq::empty() }
    }
}

pub open spec fn call_args_node(c: CstNode) -> CstNode {
    c.children@[first_child_index(c.children@, "call_args"@).unwrap()]
}

pub open spec fn res_is(r: AcknowledgedResolution, c: CstNode, src: Seq<char>, file: FileId) -> bool {
    r matches AcknowledgedResolution::Other(id, es) && id_is(id, callee_name(fc(c, "callee"@), src), node_span(c, file))
        && res_args_is(es@, call_args_node(c).children@, src, file)
}

pub open spec fn res_diags(c: CstNode, src: Seq<char>, file: FileId) -> Seq<DiagnosticView> {
    if res_some(c) { res_args_diags(call_args_node(c).children@, src, file) } else { Seq::empty() }
}

// ---- arguments ----

pub open spec fn field_names(accs: Seq<PathAccessor>) -> Option<Seq<Ident>>
    decreases accs.len(),
{
    if accs.len() == 0 {
        Some(Seq::empty())
    } else {
        match accs.last() {
            PathAccessor::Field(f) => match field_names(accs.drop_last()) {
                Some(s) => Some(s.push(f)),
                None => None,
            },
            _ => None,
        }
    }
}

/// The name segments an expression spells: an identifier, or a path of
/// `.field` steps.
pub open spec fn expr_segs(e: Expr) -> Option<Seq<Ident>> {
    match *e.kind {
        ExprKind::Ident(i) => Some(seq![i]),
        ExprKind::Path(p) => match field_names(p.accessors@) {
            Some(fs) => Some(seq![p.head] + fs),
            None => None,
        },
        _ => None,
    }
}

pub open spec fn qn_of(q: QualifiedName, segs: Seq<Ident>) -> bool {
    q.segments@ == segs && q.span == segs[0].span.spec_merge(segs.last().span)
}

/// An argument read from an expression: a component name when the
/// expression spells one (its segments read from one file), the
/// expression itself otherwise.
pub open spec fn arg_from_expr(a: AcknowledgedArg, e: Expr) -> bool {
    match expr_segs(e) {
        Some(s) => if s[0].span.file == s.last().span.file {
            a matches AcknowledgedArg::Component(q) && qn_of(q, s)
        } else {
            a == AcknowledgedArg::Other(e)
        },
        None => a == AcknowledgedArg::Other(e),
    }
}

pub open spec fn ack_arg_is(a: AcknowledgedArg, c: CstNode, src: Seq<char>, file: FileId) -> bool {
    if c.kind@ == "identifier"@ {
        a matches AcknowledgedArg::Component(q) && q.segments@.len() == 1 && nid_is(q.segments@[0], c, src, file)
            && qn_of(q, q.segments@)
    } else {
        exists|e: Expr| expr_is(e, c, src, file) && arg_from_expr(a, e)
    }
}

pub open spec fn ack_arg_diags(c: CstNode, src: Seq<char>, file: FileId) -> Seq<DiagnosticView> {
    if c.kind@ == "identifier"@ { Seq::empty() } else { expr_diags(c, src, file) }
}

// ---- items ----

/// Whether child `i` of an item is an argument (`vi`: the value child of
/// a map item).
pub open spec fn is_arg_child(c: CstNode, i: int, vi: Option<int>) -> bool {
    is_content(c) && if vi == Some(i) { !res_some(c) } else { c.kind@ != "ack_because"@ }
}

pub open spec fn item_args(args: Seq<AcknowledgedArg>, cs: Seq<CstNode>, vi: Option<int>, src: Seq<char>, file: FileId) -> bool
    decreases cs.len(),
{
    if cs.len() == 0 {
        args.len() == 0
    } else if is_arg_child(cs.last(), cs.len() - 1, vi) {
        args.len() > 0 && ack_arg_is(args.last(), cs.last(), src, file) && item_args(args.drop_last(), cs.drop_last(), vi, src, file)
    } else {
        item_args(args, cs.drop_last(), vi, src, file)
    }
}

pub open spec fn item_args_count(cs: Seq<CstNode>, vi: Option<int>) -> nat
    decreases cs.len(),
{
    if cs.len() == 0 { 0 } else { item_args_count(cs.drop_last(), vi) + if is_arg_child(cs.last(), cs.len() - 1, vi) { 1nat } else { 0nat } }
}

pub open spec fn child_diags(c: CstNode, i: int, vi: Option<int>, src: Seq<char>, file: FileId) -> Seq<DiagnosticView> {
    if !is_content(c) { Seq::empty() }
    else if vi == Some(i) && res_some(c) { res_diags(c, src, file) }
    else if is_arg_child(c, i, vi) { ack_arg_diags(c, src, file) }
    else { Seq::empty() }
}

pub open spec fn item_diags(cs: Seq<CstNode>, vi: Option<int>, src: Seq<char>, file: FileId) -> Seq<DiagnosticView>
    decreases cs.len(),
{
    if cs.len() == 0 { Seq::empty() } else { item_diags(cs.drop_last(), vi, src, file) + child_diags(cs.last(), cs.len() - 1, vi, src, file) }
}

/// The resolution child of an item, if its value reads as one.
pub open spec fn res_in(cs: Seq<CstNode>, vi: Option<int>) -> Option<CstNode> {
    match vi {
        Some(j) => if 0 <= j < cs.len() && is_content(cs[j]) && res_some(cs[j]) { Some(cs[j]) } else { None },
        None => None,
    }
}

pub open spec fn is_item(c: CstNode, map: bool) -> bool {
    c.named && c.kind@ == (if map { "ack_map_item"@ } else { "ack_list_item"@ })
}

pub open spec fn vidx(c: CstNode, map: bool) -> Option<int> {
    if map { crate::cst::field_index(c.children@, "value"@) } else { None }
}

pub open spec fn items_args(args: Seq<AcknowledgedArg>, is: Seq<CstNode>, map: bool, src: Seq<char>, file: FileId) -> bool
    decreases is.len(),
{
    if is.len() == 0 {
        args.len() == 0
    } else {
        let c = is.last();
        let m = if is_item(c, map) { item_args_count(c.children@, vidx(c, map)) } else { 0 };
        args.len() >= m && (is_item(c, map) ==> item_args(args.subrange(args.len() - m, args.len() as int), c.children@, vidx(c, map), src, file))
            && items_args(args.subrange(0, args.len() - m), is.drop_last(), map, src, file)
    }
}

pub open spec fn items_diags(is: Seq<CstNode>, map: bool, src: Seq<char>, file: FileId) -> Seq<DiagnosticView>
    decreases is.len(),
{
    if is.len() == 0 { Seq::empty() } else { items_diags(is.drop_last(), map, src, file)
        + if is_item(is.last(), map) { item_diags(is.last().children@, vidx(is.last(), map), src, file) } else { Seq::empty() } }
}

pub open spec fn res_items(is: Seq<CstNode>, map: bool) -> Option<CstNode>
    decreases is.len(),
{
    if is.len() == 0 { None }
    else if is_item(is.last(), map) && res_in(is.last().children@, vidx(is.last(), map)) is Some { res_in(is.last().children@, vidx(is.last(), map)) }
    else { res_items(is.drop_last(), map) }
}

pub open spec fn because_items(is: Seq<CstNode>, map: bool, src: Seq<char>, file: FileId) -> Option<(Seq<char>, Span)>
    decreases is.len(),
{
    if is.len() == 0 { None }
    else if is_item(is.last(), map) && because_in(is.last().children@, vidx(is.last(), map), src, file) is Some {
        because_in(is.last().children@, vidx(is.last(), map), src, file)
    } else {
        because_items(is.drop_last(), map, src, file)
    }
}

// ---- entries ----

/// The first content child that is an `ack_list` or an `ack_map`.
pub open spec fn ack_body(cs: Seq<CstNode>) -> Option<CstNode>
    decreases cs.len(),
{
    if cs.len() == 0 { None }
    else if is_content(cs[0]) && (cs[0].kind@ == "ack_list"@ || cs[0].kind@ == "ack_map"@) { Some(cs[0]) }
    else { ack_body(cs.drop_first()) }
}

pub open spec fn because_view(b: Option<String>, s: Option<Span>) -> Option<(Seq<char>, Span)> {
    match (b, s) {
        (Some(t), Some(sp)) => Some((t@, sp)),
        _ => None,
    }
}

/// The acknowledgement an `ack_entry` node spells.
pub open spec fn ack_entry_is(r: AcknowledgedEntry, n: CstNode, src: Seq<char>, file: FileId) -> bool {
    &&& r.kind == ack_kind_of(n, src)
    &&& r.span == node_span(n, file)
    &&& (r.because is Some <==> r.because_span is Some)
    &&& match ack_body(n.children@) {
        Some(b) => {
            let map = b.kind@ == "ack_map"@;
            &&& items_args(r.args@, b.children@, map, src, file)
            &&& match res_items(b.children@, map) {
                Some(c) => r.resolution matches Some(x) && res_is(x, c, src, file),
                None => r.resolution is None,
            }
            &&& because_view(r.because, r.because_span) == because_items(b.children@, map, src, file)
        },
        None => r.args@.len() == 0 && r.resolution is None && r.because is None,
    }
}

pub open spec fn ack_entry_diags(n: CstNode, src: Seq<char>, file: FileId) -> Seq<DiagnosticView> {
    ack_kind_diags(n, src, file) + match ack_body(n.children@) {
        Some(b) => items_diags(b.children@, b.kind@ == "ack_map"@, src, file),
        None => Seq::empty(),
    }
}

// ---- blocks ----

pub open spec fn ack_entries_in(es: Seq<AcknowledgedEntry>, cs: Seq<CstNode>, src: Seq<char>, file: FileId) -> bool
    decreases cs.len(),
{
    if cs.len() == 0 {
        es.len() == 0
    } else if cs.last().named && cs.last().kind@ == "ack_entry"@ {
        es.len() > 0 && ack_entry_is(es.last(), cs.last(), src, file) && ack_entries_in(es.drop_last(), cs.drop_last(), src, file)
    } else {
        ack_entries_in(es, cs.drop_last(), src, file)
    }
}

pub open spec fn ack_entries_diags(cs: Seq<CstNode>, src: Seq<char>, file: FileId) -> Seq<DiagnosticView>
    decreases cs.len(),
{
    if cs.len() == 0 { Seq::empty() } else { ack_entries_diags(cs.drop_last(), src, file)
        + if cs.last().named && cs.last().kind@ == "ack_entry"@ { ack_entry_diags(cs.last(), src, file) } else { Seq::empty() } }
}

/// The `acknowledged { … }` block a node spells: its `ack_entry` children.
pub open spec fn ack_block_is(b: AcknowledgedBlock, n: CstNode, src: Seq<char>, file: FileId) -> bool {
    ack_entries_in(b.entries@, n.children@, src, file) && b.span == node_span(n, file)
}

/// Which part of a compose block a child kind is (0: none).
pub open spec fn compose_tag(kd: Seq<char>) -> u8 {
    if kd == "channel_decl"@ { 1 }
    else if kd == "realizes_block"@ { 2 }
    else if kd == "acknowledged_block"@ { 3 }
    else { 0 }
}

pub open spec fn is_cp(c: CstNode, t: u8) -> bool {
    is_content(c) && compose_tag(c.kind@) == t
}

/// The channels declared among `cs` (each with a name).
pub open spec fn chans_in(chs: Seq<ChannelDecl>, cs: Seq<CstNode>, src: Seq<char>, file: FileId) -> bool
    decreases cs.len(),
{
    if cs.len() == 0 {
        chs.len() == 0
    } else if is_content(cs.last()) && cs.last().kind@ == "channel_decl"@ && hf(cs.last(), "name"@) {
        chs.len() > 0 && channel_is(chs.last(), cs.last(), src, file) && chans_in(chs.drop_last(), cs.drop_last(), src, file)
    } else {
        chans_in(chs, cs.drop_last(), src, file)
    }
}

/// The last content child of kind `kd`.
pub open spec fn last_of(cs: Seq<CstNode>, kd: Seq<char>) -> Option<CstNode>
    decreases cs.len(),
{
    if cs.len() == 0 { None } else if is_content(cs.last()) && cs.last().kind@ == kd { Some(cs.last()) } else { last_of(cs.drop_last(), kd) }
}

pub open spec fn compose_part_diags(c: CstNode, src: Seq<char>, file: FileId) -> Seq<DiagnosticView> {
    if is_cp(c, 2) { rclauses_diags(c.children@, src, file) }
    else if is_cp(c, 3) { ack_entries_diags(c.children@, src, file) }
    else { Seq::empty() }
}

pub open spec fn compose_parts_diags(cs: Seq<CstNode>, src: Seq<char>, file: FileId) -> Seq<DiagnosticView>
    decreases cs.len(),
{
    if cs.len() == 0 { Seq::empty() } else { compose_parts_diags(cs.drop_last(), src, file) + compose_part_diags(cs.last(), src, file) }
}

/// The compose block a node spells.
pub open spec fn compose_is(c: ComposeBlock, n: CstNode, src: Seq<char>, file: FileId, doc: Option<Seq<char>>) -> bool {
    let cs = n.children@;
    &&& nid_is(c.name, fc(n, "name"@), src, file)
    &&& crate::scenario_syntax::ids_are(c.members@, crate::scenario_syntax::field_nodes(cs, "part"@), src, file)
    &&& chans_in(c.channels@, cs, src, file)
    &&& match last_of(cs, "realizes_block"@) {
        Some(x) => c.realizes matches Some(r) && realizes_block_is(r, x, src, file),
        None => c.realizes is None,
    }
    &&& match last_of(cs, "acknowledged_block"@) {
        Some(x) => c.acknowledged matches Some(a) && ack_block_is(a, x, src, file),
        None => c.acknowledged is None,
    }
    &&& sb_fairness(c.fairness@, cs, src, file)
    &&& dview(c.doc) == doc
    &&& c.span == node_span(n, file)
}

pub open spec fn compose_diags(n: CstNode, src: Seq<char>, file: FileId) -> Seq<DiagnosticView> {
    if hf(n, "name"@) { compose_parts_diags(n.children@, src, file) } else { Seq::empty() }
}

// ---- exec ----

pub open spec fn pair_view(r: Option<(String, Span)>) -> Option<(Seq<char>, Span)> {
    match r {
        Some(p) => Some((p.0@, p.1)),
        None => None,
    }
}

/// A reason string without its quotes.
pub fn unquote_str(raw: &str) -> (r: String)
    ensures
        r@ == unquote(raw@),
{
    let n = raw.unicode_len();
    let q = crate::syntax::is_quote_at;
    let tq = n >= 6 && q(raw, 0) && q(raw, 1) && q(raw, 2) && q(raw, n - 3) && q(raw, n - 2) && q(raw, n - 1);
    proof {
        if n >= 6 {
            assert(tq == is_triple_quoted(raw@)) by {
                if tq {
                    assert(raw@.subrange(0, 3) =~= crate::syntax::triple_quote());
                    assert(raw@.subrange(n - 3, n as int) =~= crate::syntax::triple_quote());
                }
                if is_triple_quoted(raw@) {
                    assert(raw@.subrange(0, 3)[0] == raw@[0]);
                    assert(raw@.subrange(0, 3)[1] == raw@[1]);
                    assert(raw@.subrange(0, 3)[2] == raw@[2]);
                    assert(raw@.subrange(n - 3, n as int)[0] == raw@[n - 3]);
                    assert(raw@.subrange(n - 3, n as int)[1] == raw@[n - 2]);
                    assert(raw@.subrange(n - 3, n as int)[2] == raw@[n - 1]);
                }
            }
        }
    }
    if tq {
        owned(raw.substring_char(3, n - 3))
    } else if n >= 2 && q(raw, 0) && q(raw, n - 1) {
        owned(raw.substring_char(1, n - 1))
    } else {
        owned(raw)
    }
}

/// The reason an `ack_because` node gives, with the node's span.
pub fn extract_because(c: &CstNode, src: &str, file: FileId) -> (r: Option<(String, Span)>)
    ensures
        pair_view(r) == because_of(*c, src@, file),
{
    match find_field(c, "reason") {
        Some(j) => Some((unquote_str(text_of(&c.children[j], src)), Span::new(file, c.start, c.end))),
        None => None,
    }
}

/// A map item's value read as a resolution call: the callee's name at
/// the value's span, with the call's argument values.
pub fn resolution_from_value(c: &CstNode, src: &str, file: FileId, out: &mut Vec<Diagnostic>) -> (r: Option<AcknowledgedResolution>)
    requires
        generics_have_base(*c),
    ensures
        res_some(*c) ==> (r matches Some(x) && res_is(x, *c, src@, file)),
        !res_some(*c) ==> r is None,
        diags_view(final(out)@) == diags_view(old(out)@) + res_diags(*c, src@, file),
{
    let ghost h = diags_view(out@);
    proof {
        assert(h =~= h + Seq::<DiagnosticView>::empty());
    }
    if !str_eq(c.kind.as_str(), "call_expr") {
        return None;
    }
    let jk = match find_field(c, "callee") { Some(j) => j, None => return None };
    let k = &c.children[jk];
    let name: String = if str_eq(k.kind.as_str(), "identifier") {
        owned(text_of(k, src))
    } else if str_eq(k.kind.as_str(), "identifier_expr") {
        match crate::surface_syntax::first_idx(k, "identifier") {
            Some(j) => owned(text_of(&k.children[j], src)),
            None => owned(""),
        }
    } else {
        return None;
    };
    proof {
        reveal_strlit("");
        assert(name@ == callee_name(fc(*c, "callee"@), src@));
    }
    let ja = match crate::surface_syntax::first_idx(c, "call_args") { Some(j) => j, None => return None };
    proof {
        lemma_all_generics(c.children@, ja as int);
    }
    let a = &c.children[ja];
    let ghost cs = a.children@;
    let mut es: Vec<Expr> = Vec::new();
    let mut i: usize = 0;
    proof {
        assert(cs.subrange(0, 0) =~= Seq::<CstNode>::empty());
    }
    while i < a.children.len()
        invariant
            i <= cs.len(),
            cs == a.children@,
            generics_have_base(*a),
            res_args_is(es@, cs.subrange(0, i as int), src@, file),
            diags_view(out@) == h + res_args_diags(cs.subrange(0, i as int), src@, file),
        decreases cs.len() - i,
    {
        let ghost pre = cs.subrange(0, i + 1);
        proof {
            assert(pre.drop_last() =~= cs.subrange(0, i as int));
            assert(pre.last() == cs[i as int]);
            lemma_all_generics(cs, i as int);
        }
        let ai = &a.children[i];
        if crate::expr_syntax::is_content_node(ai) {
            let e = match find_field(ai, "value") {
                Some(j) => expr_at(ai, j, Ghost("value"@), src, file, out),
                None => {
                    proof {
                        assert(diags_view(out@) =~= diags_view(out@) + Seq::<DiagnosticView>::empty());
                    }
                    Expr { kind: Box::new(ExprKind::LitNone), span: Span::new(file, ai.start, ai.end) }
                },
            };
            let ghost before = es@;
            es.push(e);
            proof {
                assert(es@.drop_last() =~= before);
            }
        }
        proof {
            assert(diags_view(out@) =~= h + res_args_diags(pre, src@, file));
        }
        i += 1;
    }
    proof {
        assert(cs.subrange(0, i as int) =~= cs);
    }
    Some(AcknowledgedResolution::Other(Ident::new(name.as_str(), Span::new(file, c.start, c.end)), es))
}

/// The component name an expression spells, when it spells one.
fn expr_qname(e: &Expr) -> (r: Option<QualifiedName>)
    ensures
        match expr_segs(*e) {
            Some(s) => if s[0].span.file == s.last().span.file { r matches Some(q) && qn_of(q, s) } else { r is None },
            None => r is None,
        },
{
    match &*e.kind {
        ExprKind::Ident(i) => {
            let mut v: Vec<Ident> = Vec::new();
            v.push(i.clone());
            proof {
                assert(v@ =~= seq![*i]);
            }
            Some(QualifiedName::new(v))
        },
        ExprKind::Path(p) => {
            let mut fs: Vec<Ident> = Vec::new();
            let mut k: usize = 0;
            while k < p.accessors.len()
                invariant
                    k <= p.accessors@.len(),
                    field_names(p.accessors@.subrange(0, k as int)) == Some(fs@),
                    *e.kind == ExprKind::Path(*p),
                decreases p.accessors@.len() - k,
            {
                proof {
                    assert(p.accessors@.subrange(0, k + 1).drop_last() =~= p.accessors@.subrange(0, k as int));
                }
                match &p.accessors[k] {
                    PathAccessor::Field(f) => {
                        fs.push(f.clone());
                    },
                    _ => {
                        proof {
                            assert(p.accessors@.subrange(0, k + 1).last() == p.accessors@[k as int]);
                            assert(field_names(p.accessors@.subrange(0, k + 1)) is None);
                            lemma_field_names_prefix(p.accessors@, k as int + 1);
                            assert(*e.kind == ExprKind::Path(*p));
                            assert(expr_segs(*e) is None);
                        }
                        return None;
                    },
                }
                k += 1;
            }
            proof {
                assert(p.accessors@.subrange(0, k as int) =~= p.accessors@);
            }
            let ghost gfs = fs@;
            let mut segs: Vec<Ident> = Vec::new();
            segs.push(p.head.clone());
            segs.append(&mut fs);
            let last = segs.len() - 1;
            proof {
                assert(segs@ =~= seq![p.head] + gfs);
                assert(expr_segs(*e) == Some(segs@));
                assert(segs@.last() == segs@[last as int]);
            }
            if segs[0].span.file.0 == segs[last].span.file.0 {
                Some(QualifiedName::new(segs))
            } else {
                None
            }
        },
        _ => None,
    }
}

/// A prefix that spells no field chain leaves the whole accessor list
/// spelling none.
proof fn lemma_field_names_prefix(accs: Seq<PathAccessor>, k: int)
    requires
        0 <= k <= accs.len(),
        field_names(accs.subrange(0, k)) is None,
    ensures
        field_names(accs) is None,
    decreases accs.len() - k,
{
    if k < accs.len() {
        assert(accs.subrange(0, k + 1).drop_last() =~= accs.subrange(0, k));
        lemma_field_names_prefix(accs, k + 1);
    } else {
        assert(accs.subrange(0, k) =~= accs);
    }
}

/// One acknowledgement argument.
pub fn ack_arg(c: &CstNode, src: &str, file: FileId, out: &mut Vec<Diagnostic>) -> (r: AcknowledgedArg)
    requires
        generics_have_base(*c),
    ensures
        ack_arg_is(r, *c, src@, file),
        diags_view(final(out)@) == diags_view(old(out)@) + ack_arg_diags(*c, src@, file),
{
    if str_eq(c.kind.as_str(), "identifier") {
        proof {
            assert(diags_view(out@) =~= diags_view(out@) + Seq::<DiagnosticView>::empty());
        }
        let mut v: Vec<Ident> = Vec::new();
        v.push(crate::expr_syntax::node_ident(c, src, file));
        AcknowledgedArg::Component(QualifiedName::new(v))
    } else {
        let e = convert_expr(c, src, file, out);
        let q = expr_qname(&e);
        let r = match q {
            Some(q) => AcknowledgedArg::Component(q),
            None => AcknowledgedArg::Other(e),
        };
        proof {
            assert(arg_from_expr(r, e));
        }
        r
    }
}

/// One item of an acknowledgement's list (`map` false) or map: its
/// arguments, the resolution its value reads as, and the last reason it
/// gives.
#[verifier::rlimit(30)]
pub fn convert_ack_item(item: &CstNode, map: bool, src: &str, file: FileId, out: &mut Vec<Diagnostic>)
    -> (r: (Vec<AcknowledgedArg>, Option<AcknowledgedResolution>, Option<(String, Span)>))
    requires
        generics_have_base(*item),
    ensures
        item_args(r.0@, item.children@, vidx(*item, map), src@, file),
        r.0@.len() == item_args_count(item.children@, vidx(*item, map)),
        match res_in(item.children@, vidx(*item, map)) {
            Some(c) => r.1 matches Some(x) && res_is(x, c, src@, file),
            None => r.1 is None,
        },
        pair_view(r.2) == because_in(item.children@, vidx(*item, map), src@, file),
        diags_view(final(out)@) == diags_view(old(out)@) + item_diags(item.children@, vidx(*item, map), src@, file),
{
    let ghost cs = item.children@;
    let ghost h = diags_view(out@);
    let ghost gvi = vidx(*item, map);
    let vi: Option<usize> = if map { find_field(item, "value") } else { None };
    let mut args: Vec<AcknowledgedArg> = Vec::new();
    let mut resolution: Option<AcknowledgedResolution> = None;
    let mut because: Option<(String, Span)> = None;
    let mut i: usize = 0;
    proof {
        assert(cs.subrange(0, 0) =~= Seq::<CstNode>::empty());
        assert(h + Seq::<DiagnosticView>::empty() =~= h);
    }
    while i < item.children.len()
        invariant
            i <= cs.len(),
            cs == item.children@,
            generics_have_base(*item),
            gvi == vidx(*item, map),
            vi matches Some(j) ==> gvi == Some(j as int),
            vi is None ==> gvi is None,
            item_args(args@, cs.subrange(0, i as int), gvi, src@, file),
            args@.len() == item_args_count(cs.subrange(0, i as int), gvi),
            match res_in(cs.subrange(0, i as int), gvi) {
                Some(c) => resolution matches Some(x) && res_is(x, c, src@, file),
                None => resolution is None,
            },
            pair_view(because) == because_in(cs.subrange(0, i as int), gvi, src@, file),
            diags_view(out@) == h + item_diags(cs.subrange(0, i as int), gvi, src@, file),
        decreases cs.len() - i,
    {
        let ghost pre = cs.subrange(0, i + 1);
        let ghost prev = cs.subrange(0, i as int);
        proof {
            assert(pre.drop_last() =~= prev);
            assert(pre.last() == cs[i as int]);
            assert(pre.len() - 1 == i);
            lemma_all_generics(cs, i as int);
            assert forall|j: int| 0 <= j < i implies #[trigger] pre[j] == prev[j] by {}
        }
        let c = &item.children[i];
        let content = crate::expr_syntax::is_content_node(c);
        let is_v = match vi { Some(j) => j == i, None => false };
        if content && is_v {
            match resolution_from_value(c, src, file, out) {
                Some(x) => {
                    resolution = Some(x);
                },
                None => {
                    let a = ack_arg(c, src, file, out);
                    let ghost before = args@;
                    args.push(a);
                    proof {
                        assert(args@.drop_last() =~= before);
                    }
                },
            }
        } else if content && str_eq(c.kind.as_str(), "ack_because") {
            proof {
                assert(diags_view(out@) =~= diags_view(out@) + Seq::<DiagnosticView>::empty());
            }
            match extract_because(c, src, file) {
                Some(b) => {
                    because = Some(b);
                },
                None => {},
            }
        } else if content {
            let a = ack_arg(c, src, file, out);
            let ghost before = args@;
            args.push(a);
            proof {
                assert(args@.drop_last() =~= before);
            }
        }
        proof {
            assert(diags_view(out@) =~= h + item_diags(pre, gvi, src@, file));
        }
        i += 1;
    }
    proof {
        assert(cs.subrange(0, i as int) =~= cs);
    }
    (args, resolution, because)
}

/// The first content child that is an `ack_list` or an `ack_map`.
fn ack_body_idx(n: &CstNode) -> (r: Option<usize>)
    ensures
        match r {
            Some(i) => i < n.children@.len() && ack_body(n.children@) == Some(n.children@[i as int]),
            None => ack_body(n.children@) is None,
        },
{
    let ghost cs = n.children@;
    let mut i: usize = 0;
    proof {
        assert(cs.subrange(0, cs.len() as int) =~= cs);
    }
    while i < n.children.len()
        invariant
            i <= cs.len(),
            cs == n.children@,
            ack_body(cs) == ack_body(cs.subrange(i as int, cs.len() as int)),
        decreases cs.len() - i,
    {
        let ghost sub = cs.subrange(i as int, cs.len() as int);
        proof {
            assert(sub[0] == cs[i as int]);
            assert(sub.drop_first() =~= cs.subrange(i + 1, cs.len() as int));
        }
        let c = &n.children[i];
        if crate::expr_syntax::is_content_node(c) && (str_eq(c.kind.as_str(), "ack_list") || str_eq(c.kind.as_str(), "ack_map")) {
            return Some(i);
        }
        i += 1;
    }
    None
}

/// An `ack_entry`: the obligation kind it names (an unknown name is an
/// error, and reads as `information_flow`), its arguments, its
/// resolution and its reason.
#[verifier::rlimit(40)]
pub fn convert_ack_entry(n: &CstNode, src: &str, file: FileId, out: &mut Vec<Diagnostic>) -> (r: AcknowledgedEntry)
    requires
        generics_have_base(*n),
    ensures
        ack_entry_is(r, *n, src@, file),
        diags_view(final(out)@) == diags_view(old(out)@) + ack_entry_diags(*n, src@, file),
{
    proof {
        reveal_strlit("");
    }
    let ghost h = diags_view(out@);
    let span = Span::new(file, n.start, n.end);
    let (kind_name, kspan): (&str, Span) = match find_field(n, "kind") {
        Some(j) => (text_of(&n.children[j], src), Span::new(file, n.children[j].start, n.children[j].end)),
        None => ("", span),
    };
    proof {
        assert(kind_name@ == ack_kind_text(*n, src@));
    }
    let kind = match ObligationKind::from_name(kind_name) {
        Some(k) => {
            proof {
                assert(h =~= h + Seq::<DiagnosticView>::empty());
            }
            k
        },
        None => {
            let mut m = owned("unknown acknowledgement kind `");
            m.append(kind_name);
            m.append("`; expected one of: ");
            m.append("availability_depends_on, availability_consistency, availability_channel_class, trust_transitive, information_flow, pii_anon, write_conflict, replay_amplification, retention_propagation, actor_view_leak, derived_write, freshness_channel");
            let d = Diagnostic::error(ErrorKind::SurfaceSlotUnknownValue, m.as_str(), kspan);
            proof {
                lemma_diags_view_push(out@, d);
                assert(kind_name@ == ack_kind_text(*n, src@));
                assert(kspan == (if hf(*n, "kind"@) { node_span(fc(*n, "kind"@), file) } else { node_span(*n, file) }));
                assert(m@ == msg_unknown_ack(ack_kind_text(*n, src@)));
                assert(d@ == plain(Code::Error(ErrorKind::SurfaceSlotUnknownValue), msg_unknown_ack(ack_kind_text(*n, src@)),
                    if hf(*n, "kind"@) { node_span(fc(*n, "kind"@), file) } else { node_span(*n, file) }));
                assert(diags_view(out@).push(d@) =~= h + ack_kind_diags(*n, src@, file));
            }
            out.push(d);
            ObligationKind::InformationFlow
        },
    };
    let d1 = Ghost(diags_view(out@));
    let mut args: Vec<AcknowledgedArg> = Vec::new();
    let mut resolution: Option<AcknowledgedResolution> = None;
    let mut because: Option<String> = None;
    let mut because_span: Option<Span> = None;
    match ack_body_idx(n) {
        Some(bi) => {
            proof {
                lemma_all_generics(n.children@, bi as int);
            }
            let b = &n.children[bi];
            let map = str_eq(b.kind.as_str(), "ack_map");
            let ghost cs = b.children@;
            let mut i: usize = 0;
            proof {
                assert(cs.subrange(0, 0) =~= Seq::<CstNode>::empty());
                assert(d1@ + Seq::<DiagnosticView>::empty() =~= d1@);
            }
            while i < b.children.len()
                invariant
                    i <= cs.len(),
                    cs == b.children@,
                    generics_have_base(*b),
                    items_args(args@, cs.subrange(0, i as int), map, src@, file),
                    match res_items(cs.subrange(0, i as int), map) {
                        Some(c) => resolution matches Some(x) && res_is(x, c, src@, file),
                        None => resolution is None,
                    },
                    because is Some <==> because_span is Some,
                    because_view(because, because_span) == because_items(cs.subrange(0, i as int), map, src@, file),
                    diags_view(out@) == d1@ + items_diags(cs.subrange(0, i as int), map, src@, file),
                decreases cs.len() - i,
            {
                let ghost pre = cs.subrange(0, i + 1);
                let ghost a0 = args@;
                proof {
                    assert(pre.drop_last() =~= cs.subrange(0, i as int));
                    assert(pre.last() == cs[i as int]);
                    lemma_all_generics(cs, i as int);
                }
                let c = &b.children[i];
                let want = if map { "ack_map_item" } else { "ack_list_item" };
                proof {
                    reveal_strlit("ack_map_item");
                    reveal_strlit("ack_list_item");
                }
                if c.named && str_eq(c.kind.as_str(), want) {
                    let (mut a, rs, bc) = convert_ack_item(c, map, src, file, out);
                    let ghost ga = a@;
                    args.append(&mut a);
                    proof {
                        let m = ga.len();
                        assert(args@ == a0 + ga);
                        assert(args@.subrange(args@.len() - m, args@.len() as int) =~= ga);
                        assert(args@.subrange(0, args@.len() - m) =~= a0);
                    }
                    match rs {
                        Some(x) => {
                            resolution = Some(x);
                        },
                        None => {},
                    }
                    match bc {
                        Some(p) => {
                            because = Some(p.0);
                            because_span = Some(p.1);
                        },
                        None => {},
                    }
                } else {
                    proof {
                        assert(args@.subrange(args@.len() as int, args@.len() as int) =~= Seq::<AcknowledgedArg>::empty());
                        assert(args@.subrange(0, args@.len() as int) =~= args@);
                    }
                }
                proof {
                    assert(diags_view(out@) =~= d1@ + items_diags(pre, map, src@, file));
                }
                i += 1;
            }
            proof {
                assert(cs.subrange(0, i as int) =~= cs);
                assert(map == (b.kind@ == "ack_map"@));
                assert(ack_body(n.children@) == Some(*b));
                assert(diags_view(out@) =~= h + ack_entry_diags(*n, src@, file));
            }
        },
        None => {
            proof {
                assert(diags_view(out@) =~= h + ack_entry_diags(*n, src@, file));
            }
        },
    }
    AcknowledgedEntry { kind, args, resolution, because, because_span, span }
}

/// An `acknowledged { … }` block: its `ack_entry` children.
pub fn convert_acknowledged_block(n: &CstNode, src: &str, file: FileId, out: &mut Vec<Diagnostic>) -> (r: AcknowledgedBlock)
    requires
        generics_have_base(*n),
    ensures
        ack_block_is(r, *n, src@, file),
        diags_view(final(out)@) == diags_view(old(out)@) + ack_entries_diags(n.children@, src@, file),
{
    let ghost cs = n.children@;
    let ghost h = diags_view(out@);
    let mut es: Vec<AcknowledgedEntry> = Vec::new();
    let mut i: usize = 0;
    proof {
        assert(cs.subrange(0, 0) =~= Seq::<CstNode>::empty());
        assert(h + Seq::<DiagnosticView>::empty() =~= h);
    }
    while i < n.children.len()
        invariant
            i <= cs.len(),
            cs == n.children@,
            generics_have_base(*n),
            ack_entries_in(es@, cs.subrange(0, i as int), src@, file),
            diags_view(out@) == h + ack_entries_diags(cs.subrange(0, i as int), src@, file),
        decreases cs.len() - i,
    {
        let ghost pre = cs.subrange(0, i + 1);
        proof {
            assert(pre.drop_last() =~= cs.subrange(0, i as int));
            assert(pre.last() == cs[i as int]);
            lemma_all_generics(cs, i as int);
        }
        let c = &n.children[i];
        if c.named && str_eq(c.kind.as_str(), "ack_entry") {
            let e = convert_ack_entry(c, src, file, out);
            let ghost before = es@;
            es.push(e);
            proof {
                assert(es@.drop_last() =~= before);
            }
        }
        proof {
            assert(diags_view(out@) =~= h + ack_entries_diags(pre, src@, file));
        }
        i += 1;
    }
    proof {
        assert(cs.subrange(0, i as int) =~= cs);
    }
    AcknowledgedBlock { entries: es, span: Span::new(file, n.start, n.end) }
}

/// A compose block: `None` without a name.
#[verifier::rlimit(40)]
pub fn convert_compose_block(n: &CstNode, src: &str, file: FileId, doc: Option<String>, out: &mut Vec<Diagnostic>)
    -> (r: Option<ComposeBlock>)
    requires
        generics_have_base(*n),
    ensures
        hf(*n, "name"@) ==> (r matches Some(c) && compose_is(c, *n, src@, file, dview(doc))),
        !hf(*n, "name"@) ==> r is None,
        diags_view(final(out)@) == diags_view(old(out)@) + compose_diags(*n, src@, file),
{
    proof {
        reveal_strlit("channel_decl");
        reveal_strlit("realizes_block");
        reveal_strlit("acknowledged_block");
    }
    let ghost cs = n.children@;
    let ghost h = diags_view(out@);
    let jn = match find_field(n, "name") {
        Some(j) => j,
        None => {
            proof {
                assert(h =~= h + Seq::<DiagnosticView>::empty());
            }
            return None;
        },
    };
    let name = crate::expr_syntax::node_ident(&n.children[jn], src, file);
    let mut members: Vec<Ident> = Vec::new();
    proof {
        assert(Seq::<CstNode>::empty() + crate::scenario_syntax::field_nodes(cs, "part"@)
            =~= crate::scenario_syntax::field_nodes(cs, "part"@));
    }
    crate::scenario_syntax::push_field_idents(n, "part", src, file, &mut members, Ghost(Seq::empty()));
    let mut channels: Vec<ChannelDecl> = Vec::new();
    let mut realizes: Option<RealizesBlock> = None;
    let mut acknowledged: Option<AcknowledgedBlock> = None;
    let mut fairness: Vec<FairnessSpec> = Vec::new();
    let mut i: usize = 0;
    proof {
        assert(cs.subrange(0, 0) =~= Seq::<CstNode>::empty());
        assert(h + Seq::<DiagnosticView>::empty() =~= h);
    }
    while i < n.children.len()
        invariant
            i <= cs.len(),
            cs == n.children@,
            generics_have_base(*n),
            chans_in(channels@, cs.subrange(0, i as int), src@, file),
            match last_of(cs.subrange(0, i as int), "realizes_block"@) {
                Some(x) => realizes matches Some(r) && realizes_block_is(r, x, src@, file),
                None => realizes is None,
            },
            match last_of(cs.subrange(0, i as int), "acknowledged_block"@) {
                Some(x) => acknowledged matches Some(a) && ack_block_is(a, x, src@, file),
                None => acknowledged is None,
            },
            sb_fairness(fairness@, cs.subrange(0, i as int), src@, file),
            diags_view(out@) == h + compose_parts_diags(cs.subrange(0, i as int), src@, file),
        decreases cs.len() - i,
    {
        let ghost pre = cs.subrange(0, i + 1);
        proof {
            assert(pre.drop_last() =~= cs.subrange(0, i as int));
            assert(pre.last() == cs[i as int]);
            lemma_all_generics(cs, i as int);
        }
        proof {
            reveal_strlit("channel_decl");
            reveal_strlit("realizes_block");
            reveal_strlit("acknowledged_block");
            reveal_strlit("fairness_decl");
            assert("channel_decl"@.len() == 12);
            assert("realizes_block"@.len() == 14);
            assert("acknowledged_block"@.len() == 18);
            assert("fairness_decl"@.len() == 13);
        }
        let c = &n.children[i];
        if crate::expr_syntax::is_content_node(c) {
            if str_eq(c.kind.as_str(), "channel_decl") {
                match convert_channel_decl(c, src, file) {
                    Some(ch) => {
                        let ghost before = channels@;
                        channels.push(ch);
                        proof {
                            assert(channels@.drop_last() =~= before);
                        }
                    },
                    None => {},
                }
            } else if str_eq(c.kind.as_str(), "realizes_block") {
                realizes = Some(convert_realizes_block(c, src, file, out));
            } else if str_eq(c.kind.as_str(), "acknowledged_block") {
                acknowledged = Some(convert_acknowledged_block(c, src, file, out));
            } else if str_eq(c.kind.as_str(), "fairness_decl") {
                proof {
                    reveal_strlit("doc_string");
                    reveal_strlit("state_block");
                    reveal_strlit("init_block");
                    reveal_strlit("defaults_block");
                    assert("doc_string"@.len() == 10);
                    assert("state_block"@.len() == 11);
                    assert("init_block"@.len() == 10);
                    assert("defaults_block"@.len() == 14);
                    assert(crate::surface_syntax::sb_tag(c.kind@) == 5);
                }
                match convert_fairness_decl(c, src, file) {
                    Some(f) => {
                        let ghost before = fairness@;
                        fairness.push(f);
                        proof {
                            assert(fairness@.drop_last() =~= before);
                        }
                    },
                    None => {},
                }
            }
        }
        proof {
            assert(diags_view(out@) =~= h + compose_parts_diags(pre, src@, file));
        }
        i += 1;
    }
    proof {
        assert(cs.subrange(0, i as int) =~= cs);
    }
    Some(ComposeBlock { name, members, channels, realizes, acknowledged, fairness, doc, span: Span::new(file, n.start, n.end) })
}

} // verus!
