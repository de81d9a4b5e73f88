//! Derived-field assignment check.
//!
//! A surface state field declared `derived` (with or without a shape) is
//! read-only on the surface side: it must not be the target of `:=`,
//! `+=`, `-=`, `:+` or `delete` in any action body (nested blocks
//! included), nor be initialised in `init`. Each such write is
//! `E_DERIVED_ASSIGN`.

use vstd::prelude::*;
use crate::codes::{Code, ErrorKind};
use crate::decl::Decl;
use crate::diagnostic::{Diagnostic, DiagnosticView, diags_view, plain, lemma_diags_view_push, concat_map, lemma_concat_map_step,
    lemma_concat_map_contains};
use crate::expr::{Expr, ExprKind};
use crate::ident::Ident;
use crate::span::Span;
use crate::index_map::{modules_len, modules_get_index};
use crate::project::{Project, ModuleAggregate};
use crate::surface::{ActionDecl, EffectBlock, EffectStmt, EffectMatchArm, InitAssignment, InternalActionDecl,
    StateField, StateFieldKind, SurfaceBlock};
use crate::text::{owned, names_view, contains_name};

verus! {

/// The names of the `derived` state fields, in declaration order.
pub open spec fn derived_names(state: Seq<StateField>) -> Seq<Seq<char>>
    decreases state.len(),
{
    if state.len() == 0 {
        Seq::empty()
    } else {
        let rest = derived_names(state.drop_last());
        match state.last().kind {
            StateFieldKind::Derived { .. } => rest.push(state.last().name.name@),
            StateFieldKind::Plain => rest,
        }
    }
}

/// The head identifier of an assignment target: the identifier itself,
/// or the head of a path.
pub open spec fn spec_lhs_head(e: Expr) -> Option<Ident> {
    match *e.kind {
        ExprKind::Ident(id) => Some(id),
        ExprKind::Path(p) => Some(p.head),
        _ => None,
    }
}

pub open spec fn derived_message(name: Seq<char>) -> Seq<char> {
    "cannot assign to surface state field `"@ + name + "`: it is declared `derived`"@
}

pub open spec fn derived_help() -> Seq<char> {
    "derived fields are read-only on the surface side; the substrate's `maps` block provides the projection"@
}

/// The diagnostic for a write to derived field `at`.
pub open spec fn derived_diag(at: Ident) -> DiagnosticView {
    plain(Code::Error(ErrorKind::DerivedAssign), derived_message(at.name@), at.span).with_help(derived_help())
}

/// The diagnostic of one write target, if it names a derived field.
pub open spec fn target_diags(target: Expr, names: Seq<Seq<char>>) -> Seq<DiagnosticView> {
    match spec_lhs_head(target) {
        Some(id) => if names.contains(id.name@) { seq![derived_diag(id)] } else { Seq::empty() },
        None => Seq::empty(),
    }
}

/// The writes to derived fields in one statement, nested blocks
/// included, in source order.
pub open spec fn stmt_derived_diags(s: EffectStmt, names: Seq<Seq<char>>) -> Seq<DiagnosticView>
    decreases s,
{
    match s {
        EffectStmt::Assign { target, .. } => target_diags(target, names),
        EffectStmt::AddAssign { target, .. } => target_diags(target, names),
        EffectStmt::SubAssign { target, .. } => target_diags(target, names),
        EffectStmt::SeqSnoc { target, .. } => target_diags(target, names),
        EffectStmt::DeleteKey { target, .. } => target_diags(target, names),
        EffectStmt::IfElse { then_block, else_block, .. } =>
            stmts_derived_diags(then_block.stmts@, names) + match else_block {
                Some(eb) => stmts_derived_diags(eb.stmts@, names),
                None => Seq::empty(),
            },
        EffectStmt::For { body, .. } => stmts_derived_diags(body.stmts@, names),
        EffectStmt::Match { arms, .. } => arms_derived_diags(arms@, names),
        EffectStmt::IfLetSome { then_block, else_block, .. } =>
            stmts_derived_diags(then_block.stmts@, names) + match else_block {
                Some(eb) => stmts_derived_diags(eb.stmts@, names),
                None => Seq::empty(),
            },
        _ => Seq::empty(),
    }
}

pub open spec fn stmts_derived_diags(ss: Seq<EffectStmt>, names: Seq<Seq<char>>) -> Seq<DiagnosticView>
    decreases ss,
{
    if ss.len() == 0 {
        Seq::empty()
    } else {
        stmts_derived_diags(ss.subrange(0, ss.len() - 1), names) + stmt_derived_diags(ss[ss.len() - 1], names)
    }
}

pub open spec fn arms_derived_diags(arms: Seq<EffectMatchArm>, names: Seq<Seq<char>>) -> Seq<DiagnosticView>
    decreases arms,
{
    if arms.len() == 0 {
        Seq::empty()
    } else {
        arms_derived_diags(arms.subrange(0, arms.len() - 1), names)
            + stmts_derived_diags(arms[arms.len() - 1].body.stmts@, names)
    }
}

/// The target a statement writes: `:=`, `+=`, `-=`, `:+` and `delete`
/// write one; the other statements none.
pub open spec fn write_target(s: EffectStmt) -> Option<Expr> {
    match s {
        EffectStmt::Assign { target, .. } => Some(target),
        EffectStmt::AddAssign { target, .. } => Some(target),
        EffectStmt::SubAssign { target, .. } => Some(target),
        EffectStmt::SeqSnoc { target, .. } => Some(target),
        EffectStmt::DeleteKey { target, .. } => Some(target),
        _ => None,
    }
}

/// Every write (`:=`, `+=`, `-=`, `:+`, `delete`) whose target is the
/// identifier `id`, or a path headed by it, is reported exactly once when
/// `id` names a derived field: an `E_DERIVED_ASSIGN` at `id` saying so.
/// When `id` names no derived field, the write is not reported.
pub proof fn lemma_write_to_derived_field_is_reported(s: EffectStmt, names: Seq<Seq<char>>, id: Ident)
    requires
        write_target(s) matches Some(t) && (*t.kind == ExprKind::Ident(id) || (*t.kind matches ExprKind::Path(p) && p.head == id)),
    ensures
        names.contains(id.name@) ==> stmt_derived_diags(s, names) == seq![
            plain(Code::Error(ErrorKind::DerivedAssign),
                "cannot assign to surface state field `"@ + id.name@ + "`: it is declared `derived`"@, id.span)
            .with_help("derived fields are read-only on the surface side; the substrate's `maps` block provides the projection"@)],
        !names.contains(id.name@) ==> stmt_derived_diags(s, names).len() == 0,
{
}

/// The five write forms are judged alike: a write's report depends on its
/// target alone, so `f += e` (and `f -= e`, `f :+ e`, `delete f`) is
/// reported exactly as `f := e` is.
pub proof fn lemma_write_forms_report_alike(s: EffectStmt, t: Expr, v: Expr, sp: Span, names: Seq<Seq<char>>)
    requires
        write_target(s) == Some(t),
    ensures
        stmt_derived_diags(s, names) == stmt_derived_diags(EffectStmt::Assign { target: t, value: v, span: sp }, names),
{
}

/// A state field declared `derived` is among the derived names; one
/// declared plain is not, unless a derived field shares its name.
pub proof fn lemma_derived_names_are_the_derived_fields(state: Seq<StateField>, i: int)
    requires
        0 <= i < state.len(),
    ensures
        (state[i].kind is Derived) ==> derived_names(state).contains(state[i].name.name@),
        (forall|j: int| 0 <= j < state.len() && (#[trigger] state[j]).name.name@ == state[i].name.name@ ==> state[j].kind is Plain)
            ==> !derived_names(state).contains(state[i].name.name@),
    decreases state.len(),
{
    let rest = state.drop_last();
    let n = state[i].name.name@;
    let dr = derived_names(rest);
    let d = derived_names(state);
    assert(d == dr || (state.last().kind is Derived && d == dr.push(state.last().name.name@)));
    assert(dr.contains(n) ==> d.contains(n)) by {
        if dr.contains(n) {
            let k = choose|k: int| 0 <= k < dr.len() && dr[k] == n;
            assert(d[k] == n);
        }
    }
    assert((!dr.contains(n) && (d == dr || state.last().name.name@ != n)) ==> !d.contains(n)) by {
        if !dr.contains(n) && d != dr && state.last().name.name@ != n && d.contains(n) {
            let k = choose|k: int| 0 <= k < d.len() && d[k] == n;
            if k < dr.len() {
                assert(dr[k] == n);
            }
        }
    }
    if i == state.len() - 1 && state[i].kind is Derived {
        assert(d[d.len() - 1] == n);
    }
    if i < state.len() - 1 {
        lemma_derived_names_are_the_derived_fields(rest, i);
        assert(rest[i] == state[i]);
        if forall|j: int| 0 <= j < state.len() && (#[trigger] state[j]).name.name@ == state[i].name.name@ ==> state[j].kind is Plain {
            assert forall|j: int| 0 <= j < rest.len() && (#[trigger] rest[j]).name.name@ == rest[i].name.name@ implies rest[j].kind is Plain by {
                assert(rest[j] == state[j]);
            }
            assert(state[state.len() - 1].name.name@ == state[i].name.name@ ==> state.last().kind is Plain);
        }
    } else {
        if forall|j: int| 0 <= j < state.len() && (#[trigger] state[j]).name.name@ == state[i].name.name@ ==> state[j].kind is Plain {
            lemma_no_derived_named(rest, state[i].name.name@, state);
        }
    }
}

proof fn lemma_no_derived_named(rest: Seq<StateField>, n: Seq<char>, state: Seq<StateField>)
    requires
        rest.len() <= state.len(),
        forall|j: int| 0 <= j < rest.len() ==> rest[j] == #[trigger] state[j],
        forall|j: int| 0 <= j < state.len() && (#[trigger] state[j]).name.name@ == n ==> state[j].kind is Plain,
    ensures
        !derived_names(rest).contains(n),
    decreases rest.len(),
{
    if rest.len() > 0 {
        let k = rest.len() - 1;
        assert(rest[k] == state[k]);
        assert forall|j: int| 0 <= j < rest.drop_last().len() implies rest.drop_last()[j] == #[trigger] state[j] by {
            assert(rest.drop_last()[j] == rest[j]);
        }
        lemma_no_derived_named(rest.drop_last(), n, state);
        let dr = derived_names(rest.drop_last());
        let d = derived_names(rest);
        if d.contains(n) {
            let m = choose|m: int| 0 <= m < d.len() && d[m] == n;
            if m < dr.len() {
                assert(dr[m] == n);
            }
        }
    }
}

/// A statement's report is part of the report of any list of statements
/// holding it.
pub proof fn lemma_stmt_report_in_block(ss: Seq<EffectStmt>, j: int, names: Seq<Seq<char>>, x: DiagnosticView)
    requires
        0 <= j < ss.len(),
        stmt_derived_diags(ss[j], names).contains(x),
    ensures
        stmts_derived_diags(ss, names).contains(x),
    decreases ss.len(),
{
    let p = stmts_derived_diags(ss.subrange(0, ss.len() - 1), names);
    let c = stmts_derived_diags(ss, names);
    assert(c == p + stmt_derived_diags(ss[ss.len() - 1], names));
    if j == ss.len() - 1 {
        let q = stmt_derived_diags(ss[j], names);
        let k = choose|k: int| 0 <= k < q.len() && q[k] == x;
        assert(c[p.len() + k] == x);
    } else {
        assert(ss.subrange(0, ss.len() - 1)[j] == ss[j]);
        lemma_stmt_report_in_block(ss.subrange(0, ss.len() - 1), j, names, x);
        let k = choose|k: int| 0 <= k < p.len() && p[k] == x;
        assert(c[k] == x);
    }
}

proof fn lemma_contains_concat<T>(a: Seq<T>, b: Seq<T>, x: T)
    requires
        a.contains(x) || b.contains(x),
    ensures
        (a + b).contains(x),
{
    if a.contains(x) {
        let k = choose|k: int| 0 <= k < a.len() && a[k] == x;
        assert((a + b)[k] == x);
    } else {
        let k = choose|k: int| 0 <= k < b.len() && b[k] == x;
        assert((a + b)[a.len() + k] == x);
    }
}

/// The statement lists nested in a statement: both branches of an `if`
/// (and of an `if let`), a `for` body, each arm of a `match`.
pub open spec fn inner_blocks(s: EffectStmt) -> Seq<Seq<EffectStmt>> {
    match s {
        EffectStmt::IfElse { then_block, else_block, .. } => match else_block {
            Some(eb) => seq![then_block.stmts@, eb.stmts@],
            None => seq![then_block.stmts@],
        },
        EffectStmt::IfLetSome { then_block, else_block, .. } => match else_block {
            Some(eb) => seq![then_block.stmts@, eb.stmts@],
            None => seq![then_block.stmts@],
        },
        EffectStmt::For { body, .. } => seq![body.stmts@],
        EffectStmt::Match { arms, .. } => arms@.map_values(|a: EffectMatchArm| a.body.stmts@),
        _ => Seq::empty(),
    }
}

proof fn lemma_arm_report_in_arms(arms: Seq<EffectMatchArm>, b: int, names: Seq<Seq<char>>, x: DiagnosticView)
    requires
        0 <= b < arms.len(),
        stmts_derived_diags(arms[b].body.stmts@, names).contains(x),
    ensures
        arms_derived_diags(arms, names).contains(x),
    decreases arms.len(),
{
    let init = arms.subrange(0, arms.len() - 1);
    if b == arms.len() - 1 {
        lemma_contains_concat(arms_derived_diags(init, names), stmts_derived_diags(arms[b].body.stmts@, names), x);
    } else {
        assert(init[b] == arms[b]);
        lemma_arm_report_in_arms(init, b, names, x);
        lemma_contains_concat(arms_derived_diags(init, names),
            stmts_derived_diags(arms[arms.len() - 1].body.stmts@, names), x);
    }
}

/// Writes in nested blocks are checked too: whatever a statement inside
/// a branch, a loop body or a match arm reports is in the report of the
/// statement around it.
pub proof fn lemma_nested_write_is_reported(s: EffectStmt, b: int, j: int, names: Seq<Seq<char>>, x: DiagnosticView)
    requires
        0 <= b < inner_blocks(s).len(),
        0 <= j < inner_blocks(s)[b].len(),
        stmt_derived_diags(inner_blocks(s)[b][j], names).contains(x),
    ensures
        stmt_derived_diags(s, names).contains(x),
{
    lemma_stmt_report_in_block(inner_blocks(s)[b], j, names, x);
    match s {
        EffectStmt::IfElse { then_block, else_block, .. } => {
            let e = match else_block { Some(eb) => stmts_derived_diags(eb.stmts@, names), None => Seq::empty() };
            lemma_contains_concat(stmts_derived_diags(then_block.stmts@, names), e, x);
        },
        EffectStmt::IfLetSome { then_block, else_block, .. } => {
            let e = match else_block { Some(eb) => stmts_derived_diags(eb.stmts@, names), None => Seq::empty() };
            lemma_contains_concat(stmts_derived_diags(then_block.stmts@, names), e, x);
        },
        EffectStmt::For { .. } => {},
        EffectStmt::Match { arms, .. } => {
            assert(inner_blocks(s)[b] == arms@[b].body.stmts@);
            lemma_arm_report_in_arms(arms@, b, names, x);
        },
        _ => {},
    }
}

/// The diagnostic of a write to derived field `id`, written out.
pub open spec fn written_derived_diag(id: Ident) -> DiagnosticView {
    plain(Code::Error(ErrorKind::DerivedAssign),
        "cannot assign to surface state field `"@ + id.name@ + "`: it is declared `derived`"@, id.span)
    .with_help("derived fields are read-only on the surface side; the substrate's `maps` block provides the projection"@)
}

/// A write to a `derived` state field in the body of any action or
/// internal action of a surface is in the pass's report for that surface.
pub proof fn lemma_derived_write_in_surface_is_reported(s: SurfaceBlock, internal: bool, k: int, j: int, id: Ident, fi: int)
    requires
        internal ==> 0 <= k < s.internal_actions@.len(),
        !internal ==> 0 <= k < s.actions@.len(),
        ({
            let body = if internal { s.internal_actions@[k].action.body } else { s.actions@[k].body };
            &&& 0 <= j < body.stmts@.len()
            &&& write_target(body.stmts@[j]) matches Some(t)
            &&& (*t.kind == ExprKind::Ident(id) || (*t.kind matches ExprKind::Path(p) && p.head == id))
        }),
        0 <= fi < s.state@.len(),
        s.state@[fi].kind is Derived,
        s.state@[fi].name.name@ == id.name@,
    ensures
        derived_surface_diags(s).contains(written_derived_diag(id)),
{
    let names = derived_names(s.state@);
    lemma_derived_names_are_the_derived_fields(s.state@, fi);
    assert(names.len() > 0) by {
        let m = choose|m: int| 0 <= m < names.len() && names[m] == id.name@;
    }
    let body = if internal { s.internal_actions@[k].action.body } else { s.actions@[k].body };
    lemma_write_to_derived_field_is_reported(body.stmts@[j], names, id);
    assert(stmt_derived_diags(body.stmts@[j], names)[0] == written_derived_diag(id));
    lemma_stmt_report_in_block(body.stmts@, j, names, written_derived_diag(id));
    let init_part = concat_map(s.init@, |i: InitAssignment| if names.contains(i.name.name@) {
        seq![derived_diag(i.name)]
    } else {
        Seq::empty()
    });
    let fa = |a: ActionDecl| stmts_derived_diags(a.body.stmts@, names);
    let fb = |ia: InternalActionDecl| stmts_derived_diags(ia.action.body.stmts@, names);
    let pa = concat_map(s.actions@, fa);
    let pb = concat_map(s.internal_actions@, fb);
    let all = derived_surface_diags(s);
    assert(all == init_part + pa + pb);
    if internal {
        lemma_concat_map_contains(s.internal_actions@, fb, k, written_derived_diag(id));
        let m = choose|m: int| 0 <= m < pb.len() && pb[m] == written_derived_diag(id);
        assert(all[init_part.len() + pa.len() + m] == written_derived_diag(id));
    } else {
        lemma_concat_map_contains(s.actions@, fa, k, written_derived_diag(id));
        let m = choose|m: int| 0 <= m < pa.len() && pa[m] == written_derived_diag(id);
        assert(all[init_part.len() + m] == written_derived_diag(id));
    }
}

/// Initialising a `derived` state field in `init` is in the pass's
/// report for that surface.
pub proof fn lemma_derived_init_is_reported(s: SurfaceBlock, k: int, fi: int)
    requires
        0 <= k < s.init@.len(),
        0 <= fi < s.state@.len(),
        s.state@[fi].kind is Derived,
        s.state@[fi].name.name@ == s.init@[k].name.name@,
    ensures
        derived_surface_diags(s).contains(written_derived_diag(s.init@[k].name)),
{
    let names = derived_names(s.state@);
    lemma_derived_names_are_the_derived_fields(s.state@, fi);
    assert(names.len() > 0) by {
        let m = choose|m: int| 0 <= m < names.len() && names[m] == s.init@[k].name.name@;
    }
    let fi2 = |i: InitAssignment| if names.contains(i.name.name@) { seq![derived_diag(i.name)] } else { Seq::empty() };
    assert(fi2(s.init@[k])[0] == written_derived_diag(s.init@[k].name));
    lemma_concat_map_contains(s.init@, fi2, k, written_derived_diag(s.init@[k].name));
    let ip = concat_map(s.init@, fi2);
    let m = choose|m: int| 0 <= m < ip.len() && ip[m] == written_derived_diag(s.init@[k].name);
    let all = derived_surface_diags(s);
    assert(all[m] == written_derived_diag(s.init@[k].name));
}

/// What the pass reports for one surface: nothing when no field is
/// derived; else the derived fields set in `init`, then the writes in
/// each action, then in each internal action.
pub open spec fn derived_surface_diags(s: SurfaceBlock) -> Seq<DiagnosticView> {
    let names = derived_names(s.state@);
    if names.len() == 0 {
        Seq::empty()
    } else {
        concat_map(s.init@, |i: InitAssignment| if names.contains(i.name.name@) {
            seq![derived_diag(i.name)]
        } else {
            Seq::empty()
        }) + concat_map(s.actions@, |a: ActionDecl| stmts_derived_diags(a.body.stmts@, names))
            + concat_map(s.internal_actions@, |ia: InternalActionDecl| stmts_derived_diags(ia.action.body.stmts@, names))
    }
}

pub open spec fn decl_derived_diags(d: Decl) -> Seq<DiagnosticView> {
    match d {
        Decl::Surface(s) => derived_surface_diags(s),
        _ => Seq::empty(),
    }
}

pub open spec fn module_derived_diags(m: ModuleAggregate) -> Seq<DiagnosticView> {
    concat_map(m.decls@, |d: Decl| decl_derived_diags(d))
}

/// The names of the derived fields of a surface's state.
fn collect_derived(state: &Vec<StateField>) -> (r: Vec<String>)
    ensures
        names_view(r@) == derived_names(state@),
{
    let mut out: Vec<String> = Vec::new();
    let mut i: usize = 0;
    proof {
        assert(state@.subrange(0, 0) =~= Seq::<StateField>::empty());
        assert(names_view(out@) =~= Seq::<Seq<char>>::empty());
    }
    while i < state.len()
        invariant
            i <= state@.len(),
            names_view(out@) == derived_names(state@.subrange(0, i as int)),
        decreases state@.len() - i,
    {
        proof {
            assert(state@.subrange(0, i + 1).drop_last() =~= state@.subrange(0, i as int));
        }
        let f = &state[i];
        match &f.kind {
            StateFieldKind::Derived { .. } => {
                let ghost before = out@;
                out.push(f.name.name.clone());
                proof {
                    assert(names_view(out@) =~= names_view(before).push(f.name.name@));
                }
            },
            StateFieldKind::Plain => {},
        }
        i += 1;
    }
    proof {
        assert(state@.subrange(0, i as int) =~= state@);
    }
    out
}

/// The head identifier of an assignment target.
fn lhs_head_name(e: &Expr) -> (r: Option<&Ident>)
    ensures
        r matches Some(id) ==> spec_lhs_head(*e) == Some(*id),
        r is None ==> spec_lhs_head(*e) is None,
{
    match &*e.kind {
        ExprKind::Ident(id) => Some(id),
        ExprKind::Path(p) => Some(&p.head),
        _ => None,
    }
}

fn diagnose(at: &Ident) -> (r: Diagnostic)
    ensures
        r@ == derived_diag(*at),
{
    let mut m = owned("cannot assign to surface state field `");
    m.append(at.name.as_str());
    m.append("`: it is declared `derived`");
    Diagnostic::error(ErrorKind::DerivedAssign, m.as_str(), at.span)
        .with_help("derived fields are read-only on the surface side; the substrate's `maps` block provides the projection")
}

fn check_target(target: &Expr, derived: &Vec<String>, out: &mut Vec<Diagnostic>)
    ensures
        diags_view(final(out)@) == diags_view(old(out)@) + target_diags(*target, names_view(derived@)),
{
    match lhs_head_name(target) {
        Some(name) => {
            if contains_name(derived, name.name.as_str()) {
                let d = diagnose(name);
                proof {
                    lemma_diags_view_push(out@, d);
                    assert(diags_view(out@).push(d@) =~= diags_view(out@) + seq![d@]);
                }
                out.push(d);
            } else {
                proof {
                    assert(diags_view(out@) + Seq::<DiagnosticView>::empty() =~= diags_view(out@));
                }
            }
        },
        None => {
            proof {
                assert(diags_view(out@) + Seq::<DiagnosticView>::empty() =~= diags_view(out@));
            }
        },
    }
}

fn walk_block(b: &EffectBlock, derived: &Vec<String>, out: &mut Vec<Diagnostic>)
    ensures
        diags_view(final(out)@) == diags_view(old(out)@) + stmts_derived_diags(b.stmts@, names_view(derived@)),
    decreases b, 1int,
{
    let ghost names = names_view(derived@);
    let ghost head = diags_view(out@);
    let mut i: usize = 0;
    proof {
        assert(b.stmts@.subrange(0, 0) =~= Seq::<EffectStmt>::empty());
        assert(head + stmts_derived_diags(Seq::<EffectStmt>::empty(), names) =~= head);
    }
    while i < b.stmts.len()
        invariant
            i <= b.stmts@.len(),
            names == names_view(derived@),
            diags_view(out@) == head + stmts_derived_diags(b.stmts@.subrange(0, i as int), names),
        decreases b.stmts@.len() - i,
    {
        proof {
            let pre = b.stmts@.subrange(0, i + 1);
            assert(pre.subrange(0, pre.len() - 1) =~= b.stmts@.subrange(0, i as int));
            assert(pre[pre.len() - 1] == b.stmts@[i as int]);
            assert(decreases_to!(b => b.stmts));
            assert(decreases_to!(b.stmts => b.stmts@));
            assert(decreases_to!(b.stmts@ => b.stmts@[i as int]));
        }
        walk_stmt(&b.stmts[i], derived, out);
        i += 1;
    }
    proof {
        assert(b.stmts@.subrange(0, i as int) =~= b.stmts@);
    }
}

fn walk_optional(b: &Option<EffectBlock>, derived: &Vec<String>, out: &mut Vec<Diagnostic>)
    ensures
        diags_view(final(out)@) == diags_view(old(out)@) + match *b {
            Some(eb) => stmts_derived_diags(eb.stmts@, names_view(derived@)),
            None => Seq::empty(),
        },
    decreases b, 2int,
{
    match b {
        Some(eb) => walk_block(eb, derived, out),
        None => {
            proof {
                assert(diags_view(out@) + Seq::<DiagnosticView>::empty() =~= diags_view(out@));
            }
        },
    }
}

fn walk_stmt(s: &EffectStmt, derived: &Vec<String>, out: &mut Vec<Diagnostic>)
    ensures
        diags_view(final(out)@) == diags_view(old(out)@) + stmt_derived_diags(*s, names_view(derived@)),
    decreases s, 3int,
{
    let ghost names = names_view(derived@);
    match s {
        EffectStmt::Assign { target, .. } => check_target(target, derived, out),
        EffectStmt::AddAssign { target, .. } => check_target(target, derived, out),
        EffectStmt::SubAssign { target, .. } => check_target(target, derived, out),
        EffectStmt::SeqSnoc { target, .. } => check_target(target, derived, out),
        EffectStmt::DeleteKey { target, .. } => check_target(target, derived, out),
        EffectStmt::IfElse { then_block, else_block, .. } => {
            let ghost head = diags_view(out@);
            walk_block(then_block, derived, out);
            walk_optional(else_block, derived, out);
            proof {
                assert(diags_view(out@) =~= head + stmt_derived_diags(*s, names));
            }
        },
        EffectStmt::For { body, .. } => walk_block(body, derived, out),
        EffectStmt::Match { arms, .. } => {
            let ghost head = diags_view(out@);
            let mut i: usize = 0;
            proof {
                assert(arms@.subrange(0, 0) =~= Seq::<EffectMatchArm>::empty());
                assert(head + arms_derived_diags(Seq::<EffectMatchArm>::empty(), names) =~= head);
            }
            while i < arms.len()
                invariant
                    i <= arms@.len(),
                    names == names_view(derived@),
                    s is Match,
                    *arms == s->arms,
                    diags_view(out@) == head + arms_derived_diags(arms@.subrange(0, i as int), names),
                decreases arms@.len() - i,
            {
                proof {
                    let pre = arms@.subrange(0, i + 1);
                    assert(pre.subrange(0, pre.len() - 1) =~= arms@.subrange(0, i as int));
                    assert(pre[pre.len() - 1] == arms@[i as int]);
                    assert(decreases_to!(*s => s->arms));
                    assert(decreases_to!(*arms => arms@));
                    assert(decreases_to!(arms@ => arms@[i as int]));
                    assert(decreases_to!(arms@[i as int] => arms@[i as int].body));
                }
                walk_block(&arms[i].body, derived, out);
                i += 1;
            }
            proof {
                assert(arms@.subrange(0, i as int) =~= arms@);
            }
        },
        EffectStmt::IfLetSome { then_block, else_block, .. } => {
            let ghost head = diags_view(out@);
            walk_block(then_block, derived, out);
            walk_optional(else_block, derived, out);
            proof {
                assert(diags_view(out@) =~= head + stmt_derived_diags(*s, names));
            }
        },
        _ => {
            proof {
                assert(diags_view(out@) + Seq::<DiagnosticView>::empty() =~= diags_view(out@));
            }
        },
    }
}

/// Run the derived-field check over one surface block.
pub fn check_surface(surface: &SurfaceBlock, out: &mut Vec<Diagnostic>)
    ensures
        diags_view(final(out)@) == diags_view(old(out)@) + derived_surface_diags(*surface),
{
    let derived = collect_derived(&surface.state);
    let ghost names = derived_names(surface.state@);
    if derived.len() == 0 {
        proof {
            assert(diags_view(out@) + Seq::<DiagnosticView>::empty() =~= diags_view(out@));
        }
        return;
    }
    let ghost fi = |i: InitAssignment| if names.contains(i.name.name@) {
        seq![derived_diag(i.name)]
    } else {
        Seq::empty()
    };
    let ghost fa = |a: ActionDecl| stmts_derived_diags(a.body.stmts@, names);
    let ghost fia = |ia: InternalActionDecl| stmts_derived_diags(ia.action.body.stmts@, names);
    let ghost start = diags_view(out@);
    let mut i: usize = 0;
    proof {
        assert(surface.init@.subrange(0, 0) =~= Seq::<InitAssignment>::empty());
        assert(start + concat_map(Seq::<InitAssignment>::empty(), fi) =~= start);
    }
    while i < surface.init.len()
        invariant
            i <= surface.init@.len(),
            names_view(derived@) == names,
            fi == (|i: InitAssignment| if names.contains(i.name.name@) {
                seq![derived_diag(i.name)]
            } else {
                Seq::empty()
            }),
            diags_view(out@) == start + concat_map(surface.init@.subrange(0, i as int), fi),
        decreases surface.init@.len() - i,
    {
        let init = &surface.init[i];
        proof {
            lemma_concat_map_step(surface.init@, i as int, fi);
        }
        if contains_name(&derived, init.name.name.as_str()) {
            let d = diagnose(&init.name);
            proof {
                lemma_diags_view_push(out@, d);
                assert(diags_view(out@).push(d@) =~= diags_view(out@) + seq![d@]);
            }
            out.push(d);
        } else {
            proof {
                assert(diags_view(out@) + Seq::<DiagnosticView>::empty() =~= diags_view(out@));
            }
        }
        i += 1;
    }
    proof {
        assert(surface.init@.subrange(0, i as int) =~= surface.init@);
    }
    let ghost after_init = diags_view(out@);
    let mut i: usize = 0;
    proof {
        assert(surface.actions@.subrange(0, 0) =~= Seq::<ActionDecl>::empty());
        assert(after_init + concat_map(Seq::<ActionDecl>::empty(), fa) =~= after_init);
    }
    while i < surface.actions.len()
        invariant
            i <= surface.actions@.len(),
            names_view(derived@) == names,
            fa == (|a: ActionDecl| stmts_derived_diags(a.body.stmts@, names)),
            diags_view(out@) == after_init + concat_map(surface.actions@.subrange(0, i as int), fa),
        decreases surface.actions@.len() - i,
    {
        proof {
            lemma_concat_map_step(surface.actions@, i as int, fa);
        }
        walk_block(&surface.actions[i].body, &derived, out);
        i += 1;
    }
    proof {
        assert(surface.actions@.subrange(0, i as int) =~= surface.actions@);
    }
    let ghost after_actions = diags_view(out@);
    let mut i: usize = 0;
    proof {
        assert(surface.internal_actions@.subrange(0, 0) =~= Seq::<InternalActionDecl>::empty());
        assert(after_actions + concat_map(Seq::<InternalActionDecl>::empty(), fia) =~= after_actions);
    }
    while i < surface.internal_actions.len()
        invariant
            i <= surface.internal_actions@.len(),
            names_view(derived@) == names,
            fia == (|ia: InternalActionDecl| stmts_derived_diags(ia.action.body.stmts@, names)),
            diags_view(out@) == after_actions + concat_map(surface.internal_actions@.subrange(0, i as int), fia),
        decreases surface.internal_actions@.len() - i,
    {
        proof {
            lemma_concat_map_step(surface.internal_actions@, i as int, fia);
        }
        walk_block(&surface.internal_actions[i].action.body, &derived, out);
        i += 1;
    }
    proof {
        assert(surface.internal_actions@.subrange(0, i as int) =~= surface.internal_actions@);
    }
}

/// The derived-field check over every surface block of the project.
pub fn run(project: &Project) -> (r: Vec<Diagnostic>)
    ensures
        diags_view(r@) == concat_map(project.spec_modules(), |m: ModuleAggregate| module_derived_diags(m)),
{
    let ghost mods = project.spec_modules();
    let ghost fm = |m: ModuleAggregate| module_derived_diags(m);
    let ghost fd = |d: Decl| decl_derived_diags(d);
    let mut out: Vec<Diagnostic> = Vec::new();
    let n = modules_len(&project.modules);
    let mut i: usize = 0;
    proof {
        assert(mods.subrange(0, 0) =~= Seq::<ModuleAggregate>::empty());
        assert(diags_view(out@) =~= Seq::<DiagnosticView>::empty());
    }
    while i < n
        invariant
            n == mods.len(),
            mods == project.spec_modules(),
            i <= n,
            fm == (|m: ModuleAggregate| module_derived_diags(m)),
            fd == (|d: Decl| decl_derived_diags(d)),
            diags_view(out@) == concat_map(mods.subrange(0, i as int), fm),
        decreases n - i,
    {
        match modules_get_index(&project.modules, i) {
            Some((_key, module)) => {
                proof {
                    assert(*module == mods[i as int]);
                }
                let ghost head = diags_view(out@);
                let mut j: usize = 0;
                proof {
                    assert(module.decls@.subrange(0, 0) =~= Seq::<Decl>::empty());
                    assert(head + concat_map(Seq::<Decl>::empty(), fd) =~= head);
                }
                while j < module.decls.len()
                    invariant
                        j <= module.decls@.len(),
                        fd == (|d: Decl| decl_derived_diags(d)),
                        diags_view(out@) == head + concat_map(module.decls@.subrange(0, j as int), fd),
                    decreases module.decls@.len() - j,
                {
                    match &module.decls[j] {
                        Decl::Surface(s) => check_surface(s, &mut out),
                        _ => {
                            proof {
                                assert(diags_view(out@) + Seq::<DiagnosticView>::empty() =~= diags_view(out@));
                            }
                        },
                    }
                    proof {
                        lemma_concat_map_step(module.decls@, j as int, fd);
                    }
                    j += 1;
                }
                proof {
                    assert(module.decls@.subrange(0, j as int) =~= module.decls@);
                    lemma_concat_map_step(mods, i as int, fm);
                }
            },
            None => {},
        }
        i += 1;
    }
    proof {
        assert(mods.subrange(0, i as int) =~= mods);
    }
    out
}

} // verus!
