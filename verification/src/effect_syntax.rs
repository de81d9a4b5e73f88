//! Effect statements read off their syntax trees.

use vstd::prelude::*;
use crate::cst::{CstNode, field_index, node_span, node_text, text_of};
use crate::diagnostic::{Diagnostic, DiagnosticView, diags_view};
use crate::expr::{CallArg, Expr, MatchPattern};
use crate::expr_syntax::{is_content, nid_is, id_is, expr_is, expr_diags, qn_is, convert_expr};
use crate::ident::{Ident, QualifiedName};
use crate::scenario_syntax::{obs_args_is, obs_args_diags};
use crate::span::{FileId, Span};
use crate::surface::{BranchLabel, EffectBlock, EffectMatchArm, EffectStmt};
use crate::text::str_eq;
use crate::type_syntax::{generics_have_base, lemma_all_generics, find_field};

verus! {

/// Which statement a node kind is (0: none).
pub open spec fn eff_tag(kd: Seq<char>) -> u8 {
    if kd == "assign_effect"@ { 1 }
    else if kd == "compound_assign_effect"@ { 2 }
    else if kd == "map_assign_effect"@ { 3 }
    else if kd == "delete_effect"@ { 4 }
    else if kd == "snoc_effect"@ { 5 }
    else if kd == "emit_effect"@ { 6 }
    else if kd == "return_effect"@ { 7 }
    else if kd == "let_effect"@ { 8 }
    else if kd == "if_effect"@ { 9 }
    else if kd == "for_effect"@ { 10 }
    else if kd == "match_effect"@ { 11 }
    else if kd == "if_let_effect"@ { 12 }
    else if kd == "sends_effect"@ { 13 }
    else { 0 }
}

pub open spec fn hf(n: CstNode, f: Seq<char>) -> bool {
    field_index(n.children@, f) is Some
}

/// The child filling field `f` (meaningful when there is one).
pub open spec fn fc(n: CstNode, f: Seq<char>) -> CstNode {
    n.children@[field_index(n.children@, f).unwrap()]
}

/// The expression in field `f`, which `n` has.
pub open spec fn fx(e: Expr, n: CstNode, f: Seq<char>, src: Seq<char>, file: FileId) -> bool {
    hf(n, f) && expr_is(e, fc(n, f), src, file)
}

pub open spec fn fx_diags(n: CstNode, f: Seq<char>, src: Seq<char>, file: FileId) -> Seq<DiagnosticView> {
    if hf(n, f) { expr_diags(fc(n, f), src, file) } else { Seq::empty() }
}

/// Whether a node is a statement whose required fields are all there.
pub open spec fn stmt_some(n: CstNode) -> bool {
    let t = eff_tag(n.kind@);
    if t == 1 || t == 2 || t == 3 || t == 5 { hf(n, "target"@) && hf(n, "value"@) }
    else if t == 4 { hf(n, "target"@) }
    else if t == 6 { hf(n, "event"@) }
    else if t == 7 { hf(n, "value"@) }
    else if t == 8 { hf(n, "name"@) && hf(n, "value"@) }
    else if t == 9 { hf(n, "guard"@) }
    else if t == 10 { hf(n, "var"@) && hf(n, "iter"@) }
    else if t == 11 { hf(n, "scrutinee"@) }
    else if t == 12 { hf(n, "binding"@) && hf(n, "value"@) }
    else if t == 13 { hf(n, "msg"@) }
    else { false }
}

/// The label in field `f` of `n`, if it names one.
pub open spec fn blabel_is(l: Option<BranchLabel>, n: CstNode, f: Seq<char>, src: Seq<char>, file: FileId) -> bool {
    if hf(n, f) && hf(fc(n, f), "name"@) {
        l matches Some(b) && b.span == node_span(fc(n, f), file) && nid_is(b.name, fc(fc(n, f), "name"@), src, file)
    } else {
        l is None
    }
}

/// The index of the last `else_clause` content child.
pub open spec fn else_idx(cs: Seq<CstNode>) -> Option<int>
    decreases cs.len(),
{
    if cs.len() == 0 { None }
    else if is_content(cs.last()) && cs.last().kind@ == "else_clause"@ { Some(cs.len() - 1) }
    else { else_idx(cs.drop_last()) }
}

pub proof fn lemma_else_idx(cs: Seq<CstNode>)
    ensures
        else_idx(cs) matches Some(j) ==> 0 <= j < cs.len() && is_content(cs[j]) && cs[j].kind@ == "else_clause"@,
    decreases cs.len(),
{
    if cs.len() > 0 {
        lemma_else_idx(cs.drop_last());
        if let Some(j) = else_idx(cs.drop_last()) {
            assert(cs.drop_last()[j] == cs[j]);
        }
    }
}

/// What a `match_pattern` node of a statement stands for.
pub open spec fn epat_is(p: MatchPattern, n: CstNode, src: Seq<char>, file: FileId) -> bool {
    match first_kept(n.children@, field_index(n.children@, "binding"@), None) {
        Some(c) => if c.kind@ == "wildcard"@ {
            p == MatchPattern::Wildcard
        } else if c.kind@ == "identifier"@ {
            let t = node_text(c, src);
            if t == "None"@ {
                p == MatchPattern::None_
            } else if t == "Some"@ {
                p matches MatchPattern::Some_(id) && if hf(n, "binding"@) {
                    nid_is(id, fc(n, "binding"@), src, file)
                } else {
                    id_is(id, "_"@, node_span(n, file))
                }
            } else {
                p == MatchPattern::Wildcard
            }
        } else {
            p == MatchPattern::Wildcard
        },
        None => p == MatchPattern::Wildcard,
    }
}

/// The first content child whose index is neither `s1` nor `s2`.
pub open spec fn first_kept(cs: Seq<CstNode>, s1: Option<int>, s2: Option<int>) -> Option<CstNode> {
    first_kept_from(cs, 0, s1, s2)
}

pub open spec fn first_kept_from(cs: Seq<CstNode>, i: int, s1: Option<int>, s2: Option<int>) -> Option<CstNode>
    decreases cs.len() - i,
{
    if i >= cs.len() || i < 0 { None }
    else if is_content(cs[i]) && s1 != Some(i) && s2 != Some(i) { Some(cs[i]) }
    else { first_kept_from(cs, i + 1, s1, s2) }
}

// ---- statements and blocks ----

/// The statement a node holds, when `stmt_some` holds of it.
pub open spec fn stmt_val_is(s: EffectStmt, n: CstNode, src: Seq<char>, file: FileId) -> bool
    decreases n, 3int,
{
    proof {
        lemma_else_idx(n.children@);
    }
    let cs = n.children@;
    let span = node_span(n, file);
    let t = eff_tag(n.kind@);
    if t == 1 || t == 3 {
        s matches EffectStmt::Assign { target, value, span: sp } && sp == span
            && fx(target, n, "target"@, src, file) && fx(value, n, "value"@, src, file)
    } else if t == 2 {
        let op = if hf(n, "op"@) { node_text(fc(n, "op"@), src) } else { "+="@ };
        if op == "-="@ {
            s matches EffectStmt::SubAssign { target, value, span: sp } && sp == span
                && fx(target, n, "target"@, src, file) && fx(value, n, "value"@, src, file)
        } else {
            s matches EffectStmt::AddAssign { target, value, span: sp } && sp == span
                && fx(target, n, "target"@, src, file) && fx(value, n, "value"@, src, file)
        }
    } else if t == 4 {
        s matches EffectStmt::DeleteKey { target, span: sp } && sp == span && fx(target, n, "target"@, src, file)
    } else if t == 5 {
        s matches EffectStmt::SeqSnoc { target, value, span: sp } && sp == span
            && fx(target, n, "target"@, src, file) && fx(value, n, "value"@, src, file)
    } else if t == 6 {
        s matches EffectStmt::Emit { event, args, span: sp } && sp == span
            && nid_is(event, fc(n, "event"@), src, file) && obs_args_is(args@, cs, src, file)
    } else if t == 7 {
        s matches EffectStmt::Return { value, span: sp } && sp == span && fx(value, n, "value"@, src, file)
    } else if t == 8 {
        s matches EffectStmt::Let { name, value, span: sp } && sp == span
            && nid_is(name, fc(n, "name"@), src, file) && fx(value, n, "value"@, src, file)
    } else if t == 9 {
        s matches EffectStmt::IfElse { cond, then_label, then_block, else_label, else_block, span: sp } && sp == span
            && fx(cond, n, "guard"@, src, file)
            && blabel_is(then_label, n, "then_label"@, src, file)
            && then_block.span == span && then_is(then_block.stmts@, cs, src, file)
            && match else_idx(cs) {
                Some(j) => blabel_is(else_label, cs[j], "else_label"@, src, file)
                    && (else_block matches Some(b) && b.span == node_span(cs[j], file)
                        && stmts_is(b.stmts@, cs[j].children@, None, None, src, file)),
                None => else_label is None && else_block is None,
            }
    } else if t == 10 {
        s matches EffectStmt::For { name, domain, body, span: sp } && sp == span
            && nid_is(name, fc(n, "var"@), src, file) && fx(domain, n, "iter"@, src, file)
            && body.span == span
            && stmts_is(body.stmts@, cs, field_index(cs, "var"@), field_index(cs, "iter"@), src, file)
    } else if t == 11 {
        s matches EffectStmt::Match { scrutinee, arms, span: sp } && sp == span
            && fx(scrutinee, n, "scrutinee"@, src, file) && arms_is(arms@, cs, src, file)
    } else if t == 12 {
        s matches EffectStmt::IfLetSome { name, source, then_block, else_block, span: sp } && sp == span
            && nid_is(name, fc(n, "binding"@), src, file) && fx(source, n, "value"@, src, file)
            && then_block.span == span && else_block is None
            && stmts_is(then_block.stmts@, cs, field_index(cs, "binding"@), field_index(cs, "value"@), src, file)
    } else {
        s matches EffectStmt::Sends { message, args, to_channel, to_component, to_instance, span: sp } && sp == span
            && nid_is(message, fc(n, "msg"@), src, file) && obs_args_is(args@, cs, src, file)
            && if hf(n, "dest"@) {
                let d = fc(n, "dest"@);
                if d.kind@ == "identifier"@ {
                    (to_channel matches Some(c) && nid_is(c, d, src, file)) && to_component is None && to_instance is None
                } else if d.kind@ == "qualified_name"@ {
                    to_channel is None && (to_component matches Some(q) && qn_is(q, d, src, file)) && to_instance is None
                } else {
                    to_channel is None && to_component is None && (to_instance matches Some(e) && expr_is(e, d, src, file))
                }
            } else {
                to_channel is None && to_component is None && to_instance is None
            }
    }
}

/// The statements of the content children but those at `s1` and `s2`.
pub open spec fn stmts_is(ss: Seq<EffectStmt>, cs: Seq<CstNode>, s1: Option<int>, s2: Option<int>, src: Seq<char>,
    file: FileId) -> bool
    decreases cs, 0int,
{
    if cs.len() == 0 {
        ss.len() == 0
    } else if is_content(cs.last()) && s1 != Some(cs.len() - 1) && s2 != Some(cs.len() - 1) && stmt_some(cs.last()) {
        ss.len() > 0 && stmt_val_is(ss.last(), cs.last(), src, file) && stmts_is(ss.drop_last(), cs.drop_last(), s1, s2, src, file)
    } else {
        stmts_is(ss, cs.drop_last(), s1, s2, src, file)
    }
}

/// The statements of an `if` before its `else`: content children that
/// are not `else_clause`.
pub open spec fn then_is(ss: Seq<EffectStmt>, cs: Seq<CstNode>, src: Seq<char>, file: FileId) -> bool
    decreases cs, 0int,
{
    if cs.len() == 0 {
        ss.len() == 0
    } else if is_content(cs.last()) && cs.last().kind@ != "else_clause"@ && stmt_some(cs.last()) {
        ss.len() > 0 && stmt_val_is(ss.last(), cs.last(), src, file) && then_is(ss.drop_last(), cs.drop_last(), src, file)
    } else {
        then_is(ss, cs.drop_last(), src, file)
    }
}

pub open spec fn arm_is(a: EffectMatchArm, c: CstNode, src: Seq<char>, file: FileId) -> bool
    decreases c, 2int,
{
    proof {
        crate::cst::lemma_field_index(c.children@, "body"@);
    }
    let span = node_span(c, file);
    &&& a.span == span
    &&& if hf(c, "pattern"@) { epat_is(a.pattern, fc(c, "pattern"@), src, file) } else { a.pattern == MatchPattern::Wildcard }
    &&& if hf(c, "body"@) {
        let b = fc(c, "body"@);
        a.body.span == node_span(b, file) && if b.kind@ == "then_block"@ {
            stmts_is(a.body.stmts@, b.children@, None, None, src, file)
        } else {
            a.body.stmts@.len() == 0
        }
    } else {
        a.body.span == span && a.body.stmts@.len() == 0
    }
}

pub open spec fn arms_is(arms: Seq<EffectMatchArm>, cs: Seq<CstNode>, src: Seq<char>, file: FileId) -> bool
    decreases cs, 0int,
{
    if cs.len() == 0 {
        arms.len() == 0
    } else if cs.last().named && cs.last().kind@ == "match_arm"@ {
        arms.len() > 0 && arm_is(arms.last(), cs.last(), src, file) && arms_is(arms.drop_last(), cs.drop_last(), src, file)
    } else {
        arms_is(arms, cs.drop_last(), src, file)
    }
}

// ---- the diagnostics of reading statements ----

pub open spec fn stmt_diags(n: CstNode, src: Seq<char>, file: FileId) -> Seq<DiagnosticView>
    decreases n, 3int,
{
    let cs = n.children@;
    let t = eff_tag(n.kind@);
    if t == 1 || t == 2 || t == 3 || t == 5 {
        if hf(n, "target"@) { fx_diags(n, "target"@, src, file) + fx_diags(n, "value"@, src, file) } else { Seq::empty() }
    } else if t == 4 {
        fx_diags(n, "target"@, src, file)
    } else if t == 6 {
        if hf(n, "event"@) { obs_args_diags(cs, src, file) } else { Seq::empty() }
    } else if t == 7 {
        fx_diags(n, "value"@, src, file)
    } else if t == 8 {
        if hf(n, "name"@) { fx_diags(n, "value"@, src, file) } else { Seq::empty() }
    } else if t == 9 {
        if hf(n, "guard"@) { fx_diags(n, "guard"@, src, file) + then_diags(cs, src, file) } else { Seq::empty() }
    } else if t == 10 {
        if hf(n, "var"@) && hf(n, "iter"@) {
            fx_diags(n, "iter"@, src, file) + stmts_diags(cs, field_index(cs, "var"@), field_index(cs, "iter"@), src, file)
        } else {
            Seq::empty()
        }
    } else if t == 11 {
        if hf(n, "scrutinee"@) { fx_diags(n, "scrutinee"@, src, file) + arms_diags(cs, src, file) } else { Seq::empty() }
    } else if t == 12 {
        if hf(n, "binding"@) && hf(n, "value"@) {
            fx_diags(n, "value"@, src, file) + stmts_diags(cs, field_index(cs, "binding"@), field_index(cs, "value"@), src, file)
        } else {
            Seq::empty()
        }
    } else if t == 13 {
        if hf(n, "msg"@) {
            obs_args_diags(cs, src, file) + if hf(n, "dest"@) && fc(n, "dest"@).kind@ != "identifier"@
                && fc(n, "dest"@).kind@ != "qualified_name"@ {
                expr_diags(fc(n, "dest"@), src, file)
            } else {
                Seq::empty()
            }
        } else {
            Seq::empty()
        }
    } else {
        Seq::empty()
    }
}

pub open spec fn stmts_diags(cs: Seq<CstNode>, s1: Option<int>, s2: Option<int>, src: Seq<char>, file: FileId) -> Seq<DiagnosticView>
    decreases cs, 0int,
{
    if cs.len() == 0 {
        Seq::empty()
    } else {
        stmts_diags(cs.drop_last(), s1, s2, src, file)
            + if is_content(cs.last()) && s1 != Some(cs.len() - 1) && s2 != Some(cs.len() - 1) {
                stmt_diags(cs.last(), src, file)
            } else {
                Seq::empty()
            }
    }
}

/// The reading of an `if`'s children: each `else_clause`'s statements,
/// each other content child as a statement.
pub open spec fn then_diags(cs: Seq<CstNode>, src: Seq<char>, file: FileId) -> Seq<DiagnosticView>
    decreases cs, 0int,
{
    if cs.len() == 0 {
        Seq::empty()
    } else {
        then_diags(cs.drop_last(), src, file) + if !is_content(cs.last()) {
            Seq::empty()
        } else if cs.last().kind@ == "else_clause"@ {
            stmts_diags(cs.last().children@, None, None, src, file)
        } else {
            stmt_diags(cs.last(), src, file)
        }
    }
}

pub open spec fn arm_diags(c: CstNode, src: Seq<char>, file: FileId) -> Seq<DiagnosticView>
    decreases c, 2int,
{
    proof {
        crate::cst::lemma_field_index(c.children@, "body"@);
    }
    if hf(c, "body"@) && fc(c, "body"@).kind@ == "then_block"@ {
        stmts_diags(fc(c, "body"@).children@, None, None, src, file)
    } else {
        Seq::empty()
    }
}

pub open spec fn arms_diags(cs: Seq<CstNode>, src: Seq<char>, file: FileId) -> Seq<DiagnosticView>
    decreases cs, 0int,
{
    if cs.len() == 0 {
        Seq::empty()
    } else {
        arms_diags(cs.drop_last(), src, file)
            + if cs.last().named && cs.last().kind@ == "match_arm"@ { arm_diags(cs.last(), src, file) } else { Seq::empty() }
    }
}


// ---- exec ----

pub open spec fn oi(o: Option<usize>) -> Option<int> {
    match o {
        Some(a) => Some(a as int),
        None => None,
    }
}

fn eff_tag_of(kd: &str) -> (r: u8)
    ensures
        r == eff_tag(kd@),
{
    if str_eq(kd, "assign_effect") { 1 }
    else if str_eq(kd, "compound_assign_effect") { 2 }
    else if str_eq(kd, "map_assign_effect") { 3 }
    else if str_eq(kd, "delete_effect") { 4 }
    else if str_eq(kd, "snoc_effect") { 5 }
    else if str_eq(kd, "emit_effect") { 6 }
    else if str_eq(kd, "return_effect") { 7 }
    else if str_eq(kd, "let_effect") { 8 }
    else if str_eq(kd, "if_effect") { 9 }
    else if str_eq(kd, "for_effect") { 10 }
    else if str_eq(kd, "match_effect") { 11 }
    else if str_eq(kd, "if_let_effect") { 12 }
    else if str_eq(kd, "sends_effect") { 13 }
    else { 0 }
}

/// The expression in field `j` of `n`, which `find_field` gave.
fn field_expr_at(n: &CstNode, j: usize, f: Ghost<Seq<char>>, src: &str, file: FileId, out: &mut Vec<Diagnostic>) -> (r: Expr)
    requires
        generics_have_base(*n),
        field_index(n.children@, f@) == Some(j as int),
        j < n.children@.len(),
    ensures
        fx(r, *n, f@, src@, file),
        diags_view(final(out)@) == diags_view(old(out)@) + fx_diags(*n, f@, src@, file),
{
    proof {
        lemma_all_generics(n.children@, j as int);
    }
    convert_expr(&n.children[j], src, file, out)
}

/// The arguments of the `call_arg` children.
fn call_arg_children(n: &CstNode, src: &str, file: FileId, out: &mut Vec<Diagnostic>) -> (r: Vec<CallArg>)
    requires
        generics_have_base(*n),
    ensures
        obs_args_is(r@, n.children@, src@, file),
        diags_view(final(out)@) == diags_view(old(out)@) + obs_args_diags(n.children@, src@, file),
{
    let ghost cs = n.children@;
    let ghost h = diags_view(out@);
    let mut args: Vec<CallArg> = Vec::new();
    let mut i: usize = 0;
    proof {
        assert(cs.subrange(0, 0) =~= Seq::<CstNode>::empty());
        assert(h + Seq::<DiagnosticView>::empty() =~= h);
    }
    while i < n.children.len()
        invariant
            i <= cs.len(),
            cs == n.children@,
            generics_have_base(*n),
            obs_args_is(args@, cs.subrange(0, i as int), src@, file),
            diags_view(out@) == h + obs_args_diags(cs.subrange(0, i as int), src@, file),
        decreases cs.len() - i,
    {
        let ghost pre = cs.subrange(0, i + 1);
        proof {
            assert(pre.drop_last() =~= cs.subrange(0, i as int));
            assert(pre.last() == cs[i as int]);
        }
        let c = &n.children[i];
        if c.named && str_eq(c.kind.as_str(), "call_arg") {
            proof {
                lemma_all_generics(cs, i as int);
            }
            let a = crate::expr_syntax::convert_call_arg(c, src, file, out);
            let ghost before = args@;
            args.push(a);
            proof {
                assert(args@.drop_last() =~= before);
            }
        }
        i += 1;
    }
    proof {
        assert(cs.subrange(0, i as int) =~= cs);
    }
    args
}

fn branch_label(n: &CstNode, f: &str, src: &str, file: FileId) -> (r: Option<BranchLabel>)
    ensures
        blabel_is(r, *n, f@, src@, file),
{
    match find_field(n, f) {
        Some(j) => {
            let l = &n.children[j];
            match find_field(l, "name") {
                Some(k) => Some(BranchLabel {
                    name: crate::expr_syntax::node_ident(&l.children[k], src, file),
                    span: Span::new(file, l.start, l.end),
                }),
                None => None,
            }
        },
        None => None,
    }
}

fn effect_pattern(p: &CstNode, src: &str, file: FileId) -> (r: MatchPattern)
    ensures
        epat_is(r, *p, src@, file),
{
    let ghost cs = p.children@;
    let b = find_field(p, "binding");
    let ghost gb = field_index(cs, "binding"@);
    let mut i: usize = 0;
    let mut found: Option<usize> = None;
    while i < p.children.len()
        invariant
            i <= cs.len(),
            cs == p.children@,
            oi(b) == gb,
            found is None ==> first_kept(cs, gb, None) == first_kept_from(cs, i as int, gb, None),
            found matches Some(k) ==> k < cs.len() && first_kept(cs, gb, None) == Some(cs[k as int]),
        decreases cs.len() - i,
    {
        if found.is_none() {
            let skip = match b { Some(a) => a == i, None => false };
            if crate::expr_syntax::is_content_node(&p.children[i]) && !skip {
                found = Some(i);
            }
        }
        i += 1;
    }
    proof {
        if found is None {
            assert(first_kept_from(cs, i as int, gb, None) is None);
        }
    }
    match found {
        Some(k) => {
            let c = &p.children[k];
            if str_eq(c.kind.as_str(), "wildcard") {
                MatchPattern::Wildcard
            } else if str_eq(c.kind.as_str(), "identifier") {
                let t = text_of(c, src);
                if str_eq(t, "None") {
                    MatchPattern::None_
                } else if str_eq(t, "Some") {
                    match b {
                        Some(j) => MatchPattern::Some_(crate::expr_syntax::node_ident(&p.children[j], src, file)),
                        None => MatchPattern::Some_(Ident::new("_", Span::new(file, p.start, p.end))),
                    }
                } else {
                    MatchPattern::Wildcard
                }
            } else {
                MatchPattern::Wildcard
            }
        },
        None => MatchPattern::Wildcard,
    }
}


/// The statements of the content children of `n` but those at `s1` and
/// `s2`.
fn convert_stmts(n: &CstNode, s1: Option<usize>, s2: Option<usize>, src: &str, file: FileId, out: &mut Vec<Diagnostic>)
    -> (r: Vec<EffectStmt>)
    requires
        generics_have_base(*n),
    ensures
        stmts_is(r@, n.children@, oi(s1), oi(s2), src@, file),
        diags_view(final(out)@) == diags_view(old(out)@) + stmts_diags(n.children@, oi(s1), oi(s2), src@, file),
    decreases n, 2int,
{
    let ghost cs = n.children@;
    let ghost h = diags_view(out@);
    let mut ss: Vec<EffectStmt> = Vec::new();
    let mut i: usize = 0;
    proof {
        assert(cs.subrange(0, 0) =~= Seq::<CstNode>::empty());
        assert(h + Seq::<DiagnosticView>::empty() =~= h);
    }
    while i < n.children.len()
        invariant
            i <= cs.len(),
            cs == n.children@,
            generics_have_base(*n),
            stmts_is(ss@, cs.subrange(0, i as int), oi(s1), oi(s2), src@, file),
            diags_view(out@) == h + stmts_diags(cs.subrange(0, i as int), oi(s1), oi(s2), src@, file),
        decreases cs.len() - i,
    {
        let ghost pre = cs.subrange(0, i + 1);
        proof {
            assert(pre.drop_last() =~= cs.subrange(0, i as int));
            assert(pre.last() == cs[i as int]);
            assert(pre.len() - 1 == i);
        }
        let c = &n.children[i];
        let skip1 = match s1 { Some(a) => a == i, None => false };
        let skip2 = match s2 { Some(a) => a == i, None => false };
        if crate::expr_syntax::is_content_node(c) && !skip1 && !skip2 {
            proof {
                lemma_all_generics(cs, i as int);
                assert(decreases_to!(n => n.children@[i as int]));
            }
            match convert_stmt(c, src, file, out) {
                Some(x) => {
                    let ghost before = ss@;
                    ss.push(x);
                    proof {
                        assert(ss@.drop_last() =~= before);
                    }
                },
                None => {},
            }
        }
        i += 1;
    }
    proof {
        assert(cs.subrange(0, i as int) =~= cs);
    }
    ss
}

/// An `if`'s statements before its `else`, and its last `else` clause.
fn convert_then(n: &CstNode, src: &str, file: FileId, out: &mut Vec<Diagnostic>)
    -> (r: (Vec<EffectStmt>, Option<BranchLabel>, Option<EffectBlock>))
    requires
        generics_have_base(*n),
    ensures
        then_is(r.0@, n.children@, src@, file),
        match else_idx(n.children@) {
            Some(j) => blabel_is(r.1, n.children@[j], "else_label"@, src@, file)
                && (r.2 matches Some(b) && b.span == node_span(n.children@[j], file)
                    && stmts_is(b.stmts@, n.children@[j].children@, None, None, src@, file)),
            None => r.1 is None && r.2 is None,
        },
        diags_view(final(out)@) == diags_view(old(out)@) + then_diags(n.children@, src@, file),
    decreases n, 2int,
{
    let ghost cs = n.children@;
    let ghost h = diags_view(out@);
    let mut ss: Vec<EffectStmt> = Vec::new();
    let mut else_label: Option<BranchLabel> = None;
    let mut else_block: Option<EffectBlock> = None;
    let mut i: usize = 0;
    proof {
        assert(cs.subrange(0, 0) =~= Seq::<CstNode>::empty());
        assert(h + Seq::<DiagnosticView>::empty() =~= h);
    }
    while i < n.children.len()
        invariant
            i <= cs.len(),
            cs == n.children@,
            generics_have_base(*n),
            then_is(ss@, cs.subrange(0, i as int), src@, file),
            match else_idx(cs.subrange(0, i as int)) {
                Some(j) => 0 <= j < i && blabel_is(else_label, cs[j], "else_label"@, src@, file)
                    && (else_block matches Some(b) && b.span == node_span(cs[j], file)
                        && stmts_is(b.stmts@, cs[j].children@, None, None, src@, file)),
                None => else_label is None && else_block is None,
            },
            diags_view(out@) == h + then_diags(cs.subrange(0, i as int), src@, file),
        decreases cs.len() - i,
    {
        let ghost pre = cs.subrange(0, i + 1);
        proof {
            assert(pre.drop_last() =~= cs.subrange(0, i as int));
            assert(pre.last() == cs[i as int]);
            lemma_else_idx(cs.subrange(0, i as int));
            if let Some(j) = else_idx(cs.subrange(0, i as int)) {
                assert(cs.subrange(0, i as int)[j] == cs[j]);
            }
        }
        let c = &n.children[i];
        if crate::expr_syntax::is_content_node(c) {
            proof {
                lemma_all_generics(cs, i as int);
                assert(decreases_to!(n => n.children@[i as int]));
            }
            if str_eq(c.kind.as_str(), "else_clause") {
                else_label = branch_label(c, "else_label", src, file);
                let stmts = convert_stmts(c, None, None, src, file, out);
                else_block = Some(EffectBlock { stmts, span: Span::new(file, c.start, c.end) });
            } else {
                match convert_stmt(c, src, file, out) {
                    Some(x) => {
                        let ghost before = ss@;
                        ss.push(x);
                        proof {
                            assert(ss@.drop_last() =~= before);
                        }
                    },
                    None => {},
                }
            }
        }
        i += 1;
    }
    proof {
        assert(cs.subrange(0, i as int) =~= cs);
    }
    (ss, else_label, else_block)
}

fn convert_arm(c: &CstNode, src: &str, file: FileId, out: &mut Vec<Diagnostic>) -> (r: EffectMatchArm)
    requires
        generics_have_base(*c),
    ensures
        arm_is(r, *c, src@, file),
        diags_view(final(out)@) == diags_view(old(out)@) + arm_diags(*c, src@, file),
    decreases c, 2int,
{
    proof {
        crate::cst::lemma_field_index(c.children@, "body"@);
        assert(diags_view(out@) =~= diags_view(out@) + Seq::<DiagnosticView>::empty());
    }
    let span = Span::new(file, c.start, c.end);
    let pattern = match find_field(c, "pattern") {
        Some(j) => effect_pattern(&c.children[j], src, file),
        None => MatchPattern::Wildcard,
    };
    let body = match find_field(c, "body") {
        Some(j) => {
            let b = &c.children[j];
            if str_eq(b.kind.as_str(), "then_block") {
                proof {
                    lemma_all_generics(c.children@, j as int);
                    assert(decreases_to!(c => c.children@[j as int]));
                }
                let stmts = convert_stmts(b, None, None, src, file, out);
                EffectBlock { stmts, span: Span::new(file, b.start, b.end) }
            } else {
                EffectBlock { stmts: Vec::new(), span: Span::new(file, b.start, b.end) }
            }
        },
        None => EffectBlock { stmts: Vec::new(), span },
    };
    EffectMatchArm { pattern, body, span }
}

fn convert_arms(n: &CstNode, src: &str, file: FileId, out: &mut Vec<Diagnostic>) -> (r: Vec<EffectMatchArm>)
    requires
        generics_have_base(*n),
    ensures
        arms_is(r@, n.children@, src@, file),
        diags_view(final(out)@) == diags_view(old(out)@) + arms_diags(n.children@, src@, file),
    decreases n, 2int,
{
    let ghost cs = n.children@;
    let ghost h = diags_view(out@);
    let mut arms: Vec<EffectMatchArm> = Vec::new();
    let mut i: usize = 0;
    proof {
        assert(cs.subrange(0, 0) =~= Seq::<CstNode>::empty());
        assert(h + Seq::<DiagnosticView>::empty() =~= h);
    }
    while i < n.children.len()
        invariant
            i <= cs.len(),
            cs == n.children@,
            generics_have_base(*n),
            arms_is(arms@, cs.subrange(0, i as int), src@, file),
            diags_view(out@) == h + arms_diags(cs.subrange(0, i as int), src@, file),
        decreases cs.len() - i,
    {
        let ghost pre = cs.subrange(0, i + 1);
        proof {
            assert(pre.drop_last() =~= cs.subrange(0, i as int));
            assert(pre.last() == cs[i as int]);
        }
        let c = &n.children[i];
        if c.named && str_eq(c.kind.as_str(), "match_arm") {
            proof {
                lemma_all_generics(cs, i as int);
                assert(decreases_to!(n => n.children@[i as int]));
            }
            let a = convert_arm(c, src, file, out);
            let ghost before = arms@;
            arms.push(a);
            proof {
                assert(arms@.drop_last() =~= before);
            }
        }
        i += 1;
    }
    proof {
        assert(cs.subrange(0, i as int) =~= cs);
    }
    arms
}

/// One statement node: the statement it holds, or `None` when it is no
/// statement or lacks a field the statement needs.
fn convert_stmt(n: &CstNode, src: &str, file: FileId, out: &mut Vec<Diagnostic>) -> (r: Option<EffectStmt>)
    requires
        generics_have_base(*n),
    ensures
        stmt_some(*n) ==> (r matches Some(s) && stmt_val_is(s, *n, src@, file)),
        !stmt_some(*n) ==> r is None,
        diags_view(final(out)@) == diags_view(old(out)@) + stmt_diags(*n, src@, file),
    decreases n, 3int,
{
    let ghost h = diags_view(out@);
    let ghost cs = n.children@;
    let span = Span::new(file, n.start, n.end);
    let t = eff_tag_of(n.kind.as_str());
    proof {
        assert(h + Seq::<DiagnosticView>::empty() =~= h);
        lemma_else_idx(cs);
    }
    if t == 1 || t == 2 || t == 3 || t == 5 {
        let op: &str = match find_field(n, "op") {
            Some(j) => text_of(&n.children[j], src),
            None => "+=",
        };
        match find_field(n, "target") {
            None => None,
            Some(jt) => {
                let target = field_expr_at(n, jt, Ghost("target"@), src, file, out);
                match find_field(n, "value") {
                    None => {
                        proof {
                            assert(diags_view(out@) =~= h + (fx_diags(*n, "target"@, src@, file) + fx_diags(*n, "value"@, src@, file)));
                        }
                        None
                    },
                    Some(jv) => {
                        let value = field_expr_at(n, jv, Ghost("value"@), src, file, out);
                        proof {
                            assert(diags_view(out@) =~= h + (fx_diags(*n, "target"@, src@, file) + fx_diags(*n, "value"@, src@, file)));
                        }
                        if t == 2 {
                            if str_eq(op, "-=") {
                                Some(EffectStmt::SubAssign { target, value, span })
                            } else {
                                Some(EffectStmt::AddAssign { target, value, span })
                            }
                        } else if t == 5 {
                            Some(EffectStmt::SeqSnoc { target, value, span })
                        } else {
                            Some(EffectStmt::Assign { target, value, span })
                        }
                    },
                }
            },
        }
    } else if t == 4 {
        match find_field(n, "target") {
            None => None,
            Some(jt) => {
                let target = field_expr_at(n, jt, Ghost("target"@), src, file, out);
                Some(EffectStmt::DeleteKey { target, span })
            },
        }
    } else if t == 6 {
        match find_field(n, "event") {
            None => None,
            Some(je) => {
                let event = crate::expr_syntax::node_ident(&n.children[je], src, file);
                let args = call_arg_children(n, src, file, out);
                Some(EffectStmt::Emit { event, args, span })
            },
        }
    } else if t == 7 {
        match find_field(n, "value") {
            None => None,
            Some(jv) => {
                let value = field_expr_at(n, jv, Ghost("value"@), src, file, out);
                Some(EffectStmt::Return { value, span })
            },
        }
    } else if t == 8 {
        match find_field(n, "name") {
            None => None,
            Some(jn) => {
                let name = crate::expr_syntax::node_ident(&n.children[jn], src, file);
                match find_field(n, "value") {
                    None => None,
                    Some(jv) => {
                        let value = field_expr_at(n, jv, Ghost("value"@), src, file, out);
                        Some(EffectStmt::Let { name, value, span })
                    },
                }
            },
        }
    } else if t == 9 {
        match find_field(n, "guard") {
            None => None,
            Some(jg) => {
                let cond = field_expr_at(n, jg, Ghost("guard"@), src, file, out);
                let then_label = branch_label(n, "then_label", src, file);
                let (stmts, else_label, else_block) = convert_then(n, src, file, out);
                Some(EffectStmt::IfElse {
                    cond,
                    then_label,
                    then_block: EffectBlock { stmts, span },
                    else_label,
                    else_block,
                    span,
                })
            },
        }
    } else if t == 10 {
        let sv = find_field(n, "var");
        let si = find_field(n, "iter");
        match (sv, si) {
            (Some(jv), Some(ji)) => {
                let name = crate::expr_syntax::node_ident(&n.children[jv], src, file);
                let domain = field_expr_at(n, ji, Ghost("iter"@), src, file, out);
                let stmts = convert_stmts(n, sv, si, src, file, out);
                Some(EffectStmt::For { name, domain, body: EffectBlock { stmts, span }, span })
            },
            _ => None,
        }
    } else if t == 11 {
        match find_field(n, "scrutinee") {
            None => None,
            Some(js) => {
                let scrutinee = field_expr_at(n, js, Ghost("scrutinee"@), src, file, out);
                let arms = convert_arms(n, src, file, out);
                Some(EffectStmt::Match { scrutinee, arms, span })
            },
        }
    } else if t == 12 {
        let sb = find_field(n, "binding");
        let sv = find_field(n, "value");
        match (sb, sv) {
            (Some(jb), Some(jv)) => {
                let name = crate::expr_syntax::node_ident(&n.children[jb], src, file);
                let source = field_expr_at(n, jv, Ghost("value"@), src, file, out);
                let stmts = convert_stmts(n, sb, sv, src, file, out);
                Some(EffectStmt::IfLetSome { name, source, then_block: EffectBlock { stmts, span }, else_block: None, span })
            },
            _ => None,
        }
    } else if t == 13 {
        match find_field(n, "msg") {
            None => None,
            Some(jm) => {
                let message = crate::expr_syntax::node_ident(&n.children[jm], src, file);
                let args = call_arg_children(n, src, file, out);
                let ghost mid = diags_view(out@);
                let mut to_channel: Option<Ident> = None;
                let mut to_component: Option<QualifiedName> = None;
                let mut to_instance: Option<Expr> = None;
                match find_field(n, "dest") {
                    Some(jd) => {
                        let d = &n.children[jd];
                        if str_eq(d.kind.as_str(), "identifier") {
                            to_channel = Some(crate::expr_syntax::node_ident(d, src, file));
                        } else if str_eq(d.kind.as_str(), "qualified_name") {
                            to_component = Some(crate::cst::convert_qualified_name(d, src, file));
                        } else {
                            to_instance = Some(field_expr_at(n, jd, Ghost("dest"@), src, file, out));
                        }
                    },
                    None => {},
                }
                proof {
                    assert(diags_view(out@) =~= h + stmt_diags(*n, src@, file));
                }
                Some(EffectStmt::Sends { message, args, to_channel, to_component, to_instance, span })
            },
        }
    } else {
        None
    }
}

/// A statement node of an effect block: the statement it holds, or `None`
/// when it is no statement or lacks a field the statement needs.
pub fn convert_effect_stmt(node: &CstNode, source: &str, file: FileId, out: &mut Vec<Diagnostic>) -> (r: Option<EffectStmt>)
    requires
        generics_have_base(*node),
    ensures
        stmt_some(*node) ==> (r matches Some(s) && stmt_val_is(s, *node, source@, file)),
        !stmt_some(*node) ==> r is None,
        diags_view(final(out)@) == diags_view(old(out)@) + stmt_diags(*node, source@, file),
{
    convert_stmt(node, source, file, out)
}

/// An effect block node: the statements of its content children, at its
/// span.
pub fn convert_effect_block(node: &CstNode, source: &str, file: FileId, out: &mut Vec<Diagnostic>) -> (r: EffectBlock)
    requires
        generics_have_base(*node),
    ensures
        r.span == node_span(*node, file),
        stmts_is(r.stmts@, node.children@, None, None, source@, file),
        diags_view(final(out)@) == diags_view(old(out)@) + stmts_diags(node.children@, None, None, source@, file),
{
    let stmts = convert_stmts(node, None, None, source, file, out);
    EffectBlock { stmts, span: Span::new(file, node.start, node.end) }
}

} // verus!
