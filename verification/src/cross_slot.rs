//! Cross-slot consistency checks.
//!
//! - `E_FRESHNESS_UNDECLARED_EPOCH`: a `freshness` slot names an epoch
//!   that no substrate (or partial substrate) of the project declares.
//! - `E_SECRET_FLOW`: `emit E(field = <expr>)` where `<expr>` reads a
//!   state field annotated `retention: secret`.
//! - `E_ACTOR_VIEW_LEAK`: an observable with an actor-typed parameter.
//!
//! The checks are structural: a name is compared by its spelling, with
//! no resolution of shadowing locals.

use vstd::prelude::*;
use crate::codes::{Code, ErrorKind};
use crate::decl::{Decl, ObservableDecl, Param};
use crate::diagnostic::{Diagnostic, DiagnosticView, diags_view, plain, lemma_diags_view_push, concat_map, lemma_concat_map_step};
use crate::expr::{CallArg, ComprehensionBinder, Expr, ExprKind, MatchArm, PathAccessor, RecordFieldInit};
use crate::ident::Ident;
use crate::index_map::{modules_len, modules_get_index};
use crate::project::{Project, ModuleAggregate};
use crate::slot::{FreshnessValue, SlotAssign, SlotKind, SlotValue};
use crate::substrate::EpochDecl;
use crate::surface::{ActionDecl, EffectBlock, EffectMatchArm, EffectStmt, InternalActionDecl, RetentionClass,
    StateField, SurfaceBlock};
use crate::text::{owned, names_view, contains_name};
use crate::ty::TypeKind;

verus! {

// ---- path heads of an expression ----

/// The names an expression reads, in visiting order: every identifier
/// and every path head, with the sub-expressions of each form (the index
/// expressions of a path's accessors included) visited left to right.
pub open spec fn expr_heads(e: Expr) -> Seq<Seq<char>>
    decreases e,
{
    match *e.kind {
        ExprKind::Ident(id) => seq![id.name@],
        ExprKind::Path(p) => seq![p.head.name@] + accessors_heads(p.accessors@),
        ExprKind::Some_(x) => expr_heads(x),
        ExprKind::UnaryOp(_, x) => expr_heads(x),
        ExprKind::Cardinality(x) => expr_heads(x),
        ExprKind::IsTest(x, _) => expr_heads(x),
        ExprKind::Tuple(items) => exprs_heads(items@),
        ExprKind::SetLit(items) => exprs_heads(items@),
        ExprKind::SeqLit(items) => exprs_heads(items@),
        ExprKind::Record(fields) => fields_heads(fields@),
        ExprKind::MapLit(pairs) => pairs_heads(pairs@),
        ExprKind::BinOp(_, l, r) => expr_heads(l) + expr_heads(r),
        ExprKind::Cross(l, r) => expr_heads(l) + expr_heads(r),
        ExprKind::SetComprehension { binders, predicate, body } =>
            binders_heads(binders@) + opt_heads(predicate) + expr_heads(body),
        ExprKind::MapComprehension { binders, predicate, key, value } =>
            binders_heads(binders@) + opt_heads(predicate) + expr_heads(key) + expr_heads(value),
        ExprKind::Forall(b, body) => expr_heads(b.domain) + expr_heads(body),
        ExprKind::Exists(b, body) => expr_heads(b.domain) + expr_heads(body),
        ExprKind::ChooseTyped { predicate, .. } => expr_heads(predicate),
        ExprKind::ChooseBounded { domain, predicate, .. } => expr_heads(domain) + expr_heads(predicate),
        ExprKind::Aggregate(agg) => expr_heads(agg.expr) + opt_heads(agg.scope) + opt_heads(agg.fallback),
        ExprKind::IfThenElse { cond, then_branch, else_branch } =>
            expr_heads(cond) + expr_heads(then_branch) + expr_heads(else_branch),
        ExprKind::Match { scrutinee, arms } => expr_heads(scrutinee) + arms_heads(arms@),
        ExprKind::IfLetSome { source, then_branch, else_branch, .. } =>
            expr_heads(source) + expr_heads(then_branch) + expr_heads(else_branch),
        ExprKind::Let { value, body, .. } => expr_heads(value) + expr_heads(body),
        ExprKind::EventsBefore(x) => expr_heads(x),
        ExprKind::EventsAfter(x) => expr_heads(x),
        ExprKind::FirstUnbounded(x) => expr_heads(x),
        ExprKind::LastUnbounded(x) => expr_heads(x),
        ExprKind::CountUnbounded(x) => expr_heads(x),
        ExprKind::StateAt(x) => expr_heads(x),
        ExprKind::Between(a, b) => expr_heads(a) + expr_heads(b),
        ExprKind::FirstBounded(a, b) => expr_heads(a) + expr_heads(b),
        ExprKind::LastBounded(a, b) => expr_heads(a) + expr_heads(b),
        ExprKind::CountBounded(a, b) => expr_heads(a) + expr_heads(b),
        ExprKind::Call { callee, args } => expr_heads(callee) + args_heads(args@),
        ExprKind::LitNat(_) => Seq::empty(),
        ExprKind::LitInt(_) => Seq::empty(),
        ExprKind::LitBool(_) => Seq::empty(),
        ExprKind::LitString(_) => Seq::empty(),
        ExprKind::LitNone => Seq::empty(),
    }
}

pub open spec fn opt_heads(o: Option<Expr>) -> Seq<Seq<char>>
    decreases o,
{
    match o {
        Some(x) => expr_heads(x),
        None => Seq::empty(),
    }
}

/// The names read by the `[expr]` index accessors of a path, in order.
pub open spec fn accessors_heads(accs: Seq<PathAccessor>) -> Seq<Seq<char>>
    decreases accs,
{
    if accs.len() == 0 {
        Seq::empty()
    } else {
        accessors_heads(accs.subrange(0, accs.len() - 1)) + match accs[accs.len() - 1] {
            PathAccessor::Index(x) => expr_heads(x),
            _ => Seq::empty(),
        }
    }
}

pub open spec fn exprs_heads(es: Seq<Expr>) -> Seq<Seq<char>>
    decreases es,
{
    if es.len() == 0 {
        Seq::empty()
    } else {
        exprs_heads(es.subrange(0, es.len() - 1)) + expr_heads(es[es.len() - 1])
    }
}

pub open spec fn fields_heads(fs: Seq<RecordFieldInit>) -> Seq<Seq<char>>
    decreases fs,
{
    if fs.len() == 0 {
        Seq::empty()
    } else {
        fields_heads(fs.subrange(0, fs.len() - 1)) + expr_heads(fs[fs.len() - 1].value)
    }
}

pub open spec fn pairs_heads(ps: Seq<(Expr, Expr)>) -> Seq<Seq<char>>
    decreases ps,
{
    if ps.len() == 0 {
        Seq::empty()
    } else {
        pairs_heads(ps.subrange(0, ps.len() - 1)) + expr_heads(ps[ps.len() - 1].0) + expr_heads(ps[ps.len() - 1].1)
    }
}

pub open spec fn binders_heads(bs: Seq<ComprehensionBinder>) -> Seq<Seq<char>>
    decreases bs,
{
    if bs.len() == 0 {
        Seq::empty()
    } else {
        binders_heads(bs.subrange(0, bs.len() - 1)) + expr_heads(bs[bs.len() - 1].domain)
    }
}

pub open spec fn arms_heads(arms: Seq<MatchArm>) -> Seq<Seq<char>>
    decreases arms,
{
    if arms.len() == 0 {
        Seq::empty()
    } else {
        arms_heads(arms.subrange(0, arms.len() - 1)) + expr_heads(arms[arms.len() - 1].body)
    }
}

pub open spec fn args_heads(args: Seq<CallArg>) -> Seq<Seq<char>>
    decreases args,
{
    if args.len() == 0 {
        Seq::empty()
    } else {
        args_heads(args.subrange(0, args.len() - 1)) + expr_heads(args[args.len() - 1].value)
    }
}

/// The first of `heads` that is in `set`.
pub open spec fn first_in(heads: Seq<Seq<char>>, set: Seq<Seq<char>>) -> Option<Seq<char>>
    decreases heads.len(),
{
    if heads.len() == 0 {
        None
    } else if set.contains(heads[0]) {
        Some(heads[0])
    } else {
        first_in(heads.subrange(1, heads.len() as int), set)
    }
}

proof fn lemma_names_push(a: Seq<String>, s: String)
    ensures
        names_view(a.push(s)) == names_view(a) + seq![s@],
{
    assert(names_view(a.push(s)) =~= names_view(a) + seq![s@]);
}

proof fn lemma_add_empty(a: Seq<Seq<char>>)
    ensures
        a + Seq::<Seq<char>>::empty() == a,
{
    assert(a + Seq::<Seq<char>>::empty() =~= a);
}

/// Append the names `e` reads, in visiting order.
fn visit_path_heads(e: &Expr, out: &mut Vec<String>)
    ensures
        names_view(final(out)@) == names_view(old(out)@) + expr_heads(*e),
    decreases e,
{
    let ghost h = names_view(out@);
    match &*e.kind {
        ExprKind::Ident(id) => {
            proof {
                lemma_names_push(out@, id.name);
            }
            out.push(id.name.clone());
        },
        ExprKind::Path(p) => {
            proof {
                lemma_names_push(out@, p.head.name);
            }
            out.push(p.head.name.clone());
            visit_accessors(&p.accessors, out);
            proof {
                assert(names_view(out@) =~= h + expr_heads(*e));
            }
        },
        ExprKind::Some_(x) => visit_path_heads(x, out),
        ExprKind::UnaryOp(_, x) => visit_path_heads(x, out),
        ExprKind::Cardinality(x) => visit_path_heads(x, out),
        ExprKind::IsTest(x, _) => visit_path_heads(x, out),
        ExprKind::Tuple(items) => visit_exprs(items, out),
        ExprKind::SetLit(items) => visit_exprs(items, out),
        ExprKind::SeqLit(items) => visit_exprs(items, out),
        ExprKind::Record(fields) => visit_fields(fields, out),
        ExprKind::MapLit(pairs) => visit_pairs(pairs, out),
        ExprKind::BinOp(_, l, r) => {
            visit_path_heads(l, out);
            visit_path_heads(r, out);
            proof {
                assert(names_view(out@) =~= h + expr_heads(*e));
            }
        },
        ExprKind::Cross(l, r) => {
            visit_path_heads(l, out);
            visit_path_heads(r, out);
            proof {
                assert(names_view(out@) =~= h + expr_heads(*e));
            }
        },
        ExprKind::SetComprehension { binders, predicate, body } => {
            visit_binders(binders, out);
            visit_opt(predicate, out);
            visit_path_heads(body, out);
            proof {
                assert(names_view(out@) =~= h + expr_heads(*e));
            }
        },
        ExprKind::MapComprehension { binders, predicate, key, value } => {
            visit_binders(binders, out);
            visit_opt(predicate, out);
            visit_path_heads(key, out);
            visit_path_heads(value, out);
            proof {
                assert(names_view(out@) =~= h + expr_heads(*e));
            }
        },
        ExprKind::Forall(b, body) => {
            visit_path_heads(&b.domain, out);
            visit_path_heads(body, out);
            proof {
                assert(names_view(out@) =~= h + expr_heads(*e));
            }
        },
        ExprKind::Exists(b, body) => {
            visit_path_heads(&b.domain, out);
            visit_path_heads(body, out);
            proof {
                assert(names_view(out@) =~= h + expr_heads(*e));
            }
        },
        ExprKind::ChooseTyped { predicate, .. } => visit_path_heads(predicate, out),
        ExprKind::ChooseBounded { domain, predicate, .. } => {
            visit_path_heads(domain, out);
            visit_path_heads(predicate, out);
            proof {
                assert(names_view(out@) =~= h + expr_heads(*e));
            }
        },
        ExprKind::Aggregate(agg) => {
            visit_path_heads(&agg.expr, out);
            visit_opt(&agg.scope, out);
            visit_opt(&agg.fallback, out);
            proof {
                assert(names_view(out@) =~= h + expr_heads(*e));
            }
        },
        ExprKind::IfThenElse { cond, then_branch, else_branch } => {
            visit_path_heads(cond, out);
            visit_path_heads(then_branch, out);
            visit_path_heads(else_branch, out);
            proof {
                assert(names_view(out@) =~= h + expr_heads(*e));
            }
        },
        ExprKind::Match { scrutinee, arms } => {
            visit_path_heads(scrutinee, out);
            visit_arms(arms, out);
            proof {
                assert(names_view(out@) =~= h + expr_heads(*e));
            }
        },
        ExprKind::IfLetSome { source, then_branch, else_branch, .. } => {
            visit_path_heads(source, out);
            visit_path_heads(then_branch, out);
            visit_path_heads(else_branch, out);
            proof {
                assert(names_view(out@) =~= h + expr_heads(*e));
            }
        },
        ExprKind::Let { value, body, .. } => {
            visit_path_heads(value, out);
            visit_path_heads(body, out);
            proof {
                assert(names_view(out@) =~= h + expr_heads(*e));
            }
        },
        ExprKind::EventsBefore(x) => visit_path_heads(x, out),
        ExprKind::EventsAfter(x) => visit_path_heads(x, out),
        ExprKind::FirstUnbounded(x) => visit_path_heads(x, out),
        ExprKind::LastUnbounded(x) => visit_path_heads(x, out),
        ExprKind::CountUnbounded(x) => visit_path_heads(x, out),
        ExprKind::StateAt(x) => visit_path_heads(x, out),
        ExprKind::Between(a, b) => {
            visit_path_heads(a, out);
            visit_path_heads(b, out);
            proof {
                assert(names_view(out@) =~= h + expr_heads(*e));
            }
        },
        ExprKind::FirstBounded(a, b) => {
            visit_path_heads(a, out);
            visit_path_heads(b, out);
            proof {
                assert(names_view(out@) =~= h + expr_heads(*e));
            }
        },
        ExprKind::LastBounded(a, b) => {
            visit_path_heads(a, out);
            visit_path_heads(b, out);
            proof {
                assert(names_view(out@) =~= h + expr_heads(*e));
            }
        },
        ExprKind::CountBounded(a, b) => {
            visit_path_heads(a, out);
            visit_path_heads(b, out);
            proof {
                assert(names_view(out@) =~= h + expr_heads(*e));
            }
        },
        ExprKind::Call { callee, args } => {
            visit_path_heads(callee, out);
            visit_args(args, out);
            proof {
                assert(names_view(out@) =~= h + expr_heads(*e));
            }
        },
        _ => {
            proof {
                lemma_add_empty(h);
            }
        },
    }
}

fn visit_opt(o: &Option<Expr>, out: &mut Vec<String>)
    ensures
        names_view(final(out)@) == names_view(old(out)@) + opt_heads(*o),
    decreases o,
{
    match o {
        Some(x) => visit_path_heads(x, out),
        None => {
            proof {
                lemma_add_empty(names_view(out@));
            }
        },
    }
}

fn visit_accessors(accs: &Vec<PathAccessor>, out: &mut Vec<String>)
    ensures
        names_view(final(out)@) == names_view(old(out)@) + accessors_heads(accs@),
    decreases accs,
{
    let ghost h = names_view(out@);
    let mut i: usize = 0;
    proof {
        assert(accs@.subrange(0, 0) =~= Seq::<PathAccessor>::empty());
        lemma_add_empty(h);
    }
    while i < accs.len()
        invariant
            i <= accs@.len(),
            names_view(out@) == h + accessors_heads(accs@.subrange(0, i as int)),
        decreases accs@.len() - i,
    {
        let ghost pre = accs@.subrange(0, i + 1);
        proof {
            assert(pre.subrange(0, pre.len() - 1) =~= accs@.subrange(0, i as int));
            assert(decreases_to!(accs => accs@));
            assert(decreases_to!(accs@ => accs@[i as int]));
        }
        match &accs[i] {
            PathAccessor::Index(x) => {
                visit_path_heads(x, out);
            },
            _ => {
                proof {
                    lemma_add_empty(names_view(out@));
                }
            },
        }
        proof {
            assert(names_view(out@) =~= h + accessors_heads(pre));
        }
        i += 1;
    }
    proof {
        assert(accs@.subrange(0, i as int) =~= accs@);
    }
}

fn visit_exprs(es: &Vec<Expr>, out: &mut Vec<String>)
    ensures
        names_view(final(out)@) == names_view(old(out)@) + exprs_heads(es@),
    decreases es,
{
    let ghost h = names_view(out@);
    let mut i: usize = 0;
    proof {
        assert(es@.subrange(0, 0) =~= Seq::<Expr>::empty());
        lemma_add_empty(h);
    }
    while i < es.len()
        invariant
            i <= es@.len(),
            names_view(out@) == h + exprs_heads(es@.subrange(0, i as int)),
        decreases es@.len() - i,
    {
        let ghost pre = es@.subrange(0, i + 1);
        proof {
            assert(pre.subrange(0, pre.len() - 1) =~= es@.subrange(0, i as int));
            assert(decreases_to!(es => es@));
            assert(decreases_to!(es@ => es@[i as int]));
        }
        visit_path_heads(&es[i], out);
        proof {
            assert(names_view(out@) =~= h + exprs_heads(pre));
        }
        i += 1;
    }
    proof {
        assert(es@.subrange(0, i as int) =~= es@);
    }
}

fn visit_fields(fs: &Vec<RecordFieldInit>, out: &mut Vec<String>)
    ensures
        names_view(final(out)@) == names_view(old(out)@) + fields_heads(fs@),
    decreases fs,
{
    let ghost h = names_view(out@);
    let mut i: usize = 0;
    proof {
        assert(fs@.subrange(0, 0) =~= Seq::<RecordFieldInit>::empty());
        lemma_add_empty(h);
    }
    while i < fs.len()
        invariant
            i <= fs@.len(),
            names_view(out@) == h + fields_heads(fs@.subrange(0, i as int)),
        decreases fs@.len() - i,
    {
        let ghost pre = fs@.subrange(0, i + 1);
        proof {
            assert(pre.subrange(0, pre.len() - 1) =~= fs@.subrange(0, i as int));
            assert(decreases_to!(fs => fs@));
            assert(decreases_to!(fs@ => fs@[i as int]));
            assert(decreases_to!(fs@[i as int] => fs@[i as int].value));
        }
        visit_path_heads(&fs[i].value, out);
        proof {
            assert(names_view(out@) =~= h + fields_heads(pre));
        }
        i += 1;
    }
    proof {
        assert(fs@.subrange(0, i as int) =~= fs@);
    }
}

fn visit_pairs(ps: &Vec<(Expr, Expr)>, out: &mut Vec<String>)
    ensures
        names_view(final(out)@) == names_view(old(out)@) + pairs_heads(ps@),
    decreases ps,
{
    let ghost h = names_view(out@);
    let mut i: usize = 0;
    proof {
        assert(ps@.subrange(0, 0) =~= Seq::<(Expr, Expr)>::empty());
        lemma_add_empty(h);
    }
    while i < ps.len()
        invariant
            i <= ps@.len(),
            names_view(out@) == h + pairs_heads(ps@.subrange(0, i as int)),
        decreases ps@.len() - i,
    {
        let ghost pre = ps@.subrange(0, i + 1);
        proof {
            assert(pre.subrange(0, pre.len() - 1) =~= ps@.subrange(0, i as int));
            assert(decreases_to!(ps => ps@));
            assert(decreases_to!(ps@ => ps@[i as int]));
            assert(decreases_to!(ps@[i as int] => ps@[i as int].0));
            assert(decreases_to!(ps@[i as int] => ps@[i as int].1));
        }
        visit_path_heads(&ps[i].0, out);
        visit_path_heads(&ps[i].1, out);
        proof {
            assert(names_view(out@) =~= h + pairs_heads(pre));
        }
        i += 1;
    }
    proof {
        assert(ps@.subrange(0, i as int) =~= ps@);
    }
}

fn visit_binders(bs: &Vec<ComprehensionBinder>, out: &mut Vec<String>)
    ensures
        names_view(final(out)@) == names_view(old(out)@) + binders_heads(bs@),
    decreases bs,
{
    let ghost h = names_view(out@);
    let mut i: usize = 0;
    proof {
        assert(bs@.subrange(0, 0) =~= Seq::<ComprehensionBinder>::empty());
        lemma_add_empty(h);
    }
    while i < bs.len()
        invariant
            i <= bs@.len(),
            names_view(out@) == h + binders_heads(bs@.subrange(0, i as int)),
        decreases bs@.len() - i,
    {
        let ghost pre = bs@.subrange(0, i + 1);
        proof {
            assert(pre.subrange(0, pre.len() - 1) =~= bs@.subrange(0, i as int));
            assert(decreases_to!(bs => bs@));
            assert(decreases_to!(bs@ => bs@[i as int]));
            assert(decreases_to!(bs@[i as int] => bs@[i as int].domain));
        }
        visit_path_heads(&bs[i].domain, out);
        proof {
            assert(names_view(out@) =~= h + binders_heads(pre));
        }
        i += 1;
    }
    proof {
        assert(bs@.subrange(0, i as int) =~= bs@);
    }
}

fn visit_arms(arms: &Vec<MatchArm>, out: &mut Vec<String>)
    ensures
        names_view(final(out)@) == names_view(old(out)@) + arms_heads(arms@),
    decreases arms,
{
    let ghost h = names_view(out@);
    let mut i: usize = 0;
    proof {
        assert(arms@.subrange(0, 0) =~= Seq::<MatchArm>::empty());
        lemma_add_empty(h);
    }
    while i < arms.len()
        invariant
            i <= arms@.len(),
            names_view(out@) == h + arms_heads(arms@.subrange(0, i as int)),
        decreases arms@.len() - i,
    {
        let ghost pre = arms@.subrange(0, i + 1);
        proof {
            assert(pre.subrange(0, pre.len() - 1) =~= arms@.subrange(0, i as int));
            assert(decreases_to!(arms => arms@));
            assert(decreases_to!(arms@ => arms@[i as int]));
            assert(decreases_to!(arms@[i as int] => arms@[i as int].body));
        }
        visit_path_heads(&arms[i].body, out);
        proof {
            assert(names_view(out@) =~= h + arms_heads(pre));
        }
        i += 1;
    }
    proof {
        assert(arms@.subrange(0, i as int) =~= arms@);
    }
}

fn visit_args(args: &Vec<CallArg>, out: &mut Vec<String>)
    ensures
        names_view(final(out)@) == names_view(old(out)@) + args_heads(args@),
    decreases args,
{
    let ghost h = names_view(out@);
    let mut i: usize = 0;
    proof {
        assert(args@.subrange(0, 0) =~= Seq::<CallArg>::empty());
        lemma_add_empty(h);
    }
    while i < args.len()
        invariant
            i <= args@.len(),
            names_view(out@) == h + args_heads(args@.subrange(0, i as int)),
        decreases args@.len() - i,
    {
        let ghost pre = args@.subrange(0, i + 1);
        proof {
            assert(pre.subrange(0, pre.len() - 1) =~= args@.subrange(0, i as int));
            assert(decreases_to!(args => args@));
            assert(decreases_to!(args@ => args@[i as int]));
            assert(decreases_to!(args@[i as int] => args@[i as int].value));
        }
        visit_path_heads(&args[i].value, out);
        proof {
            assert(names_view(out@) =~= h + args_heads(pre));
        }
        i += 1;
    }
    proof {
        assert(args@.subrange(0, i as int) =~= args@);
    }
}

/// The first name of `heads` that is in `set`.
fn first_in_set(heads: &Vec<String>, set: &Vec<String>) -> (r: Option<String>)
    ensures
        r matches Some(x) ==> first_in(names_view(heads@), names_view(set@)) == Some(x@),
        r is None ==> first_in(names_view(heads@), names_view(set@)) is None,
{
    let ghost hv = names_view(heads@);
    let ghost sv = names_view(set@);
    let mut i: usize = 0;
    proof {
        assert(hv.subrange(0, hv.len() as int) =~= hv);
    }
    while i < heads.len()
        invariant
            i <= heads@.len(),
            hv == names_view(heads@),
            sv == names_view(set@),
            first_in(hv, sv) == first_in(hv.subrange(i as int, hv.len() as int), sv),
        decreases heads@.len() - i,
    {
        let ghost rest = hv.subrange(i as int, hv.len() as int);
        proof {
            assert(rest[0] == heads@[i as int]@);
            assert(rest.subrange(1, rest.len() as int) =~= hv.subrange(i + 1, hv.len() as int));
        }
        if contains_name(set, heads[i].as_str()) {
            return Some(heads[i].clone());
        }
        i += 1;
    }
    None
}

/// The first secret field that `e` reads, if any.
fn expr_reads_secret(e: &Expr, secret: &Vec<String>) -> (r: Option<String>)
    ensures
        r matches Some(x) ==> first_in(expr_heads(*e), names_view(secret@)) == Some(x@),
        r is None ==> first_in(expr_heads(*e), names_view(secret@)) is None,
{
    let mut heads: Vec<String> = Vec::new();
    visit_path_heads(e, &mut heads);
    proof {
        assert(names_view(Seq::<String>::empty()) + expr_heads(*e) =~= expr_heads(*e));
    }
    first_in_set(&heads, secret)
}

// ---- E_SECRET_FLOW ----

/// The names of the state fields with `retention: secret`.
pub open spec fn secret_names(state: Seq<StateField>) -> Seq<Seq<char>>
    decreases state.len(),
{
    if state.len() == 0 {
        Seq::empty()
    } else {
        let rest = secret_names(state.drop_last());
        match state.last().retention {
            Some(RetentionClass::Secret) => rest.push(state.last().name.name@),
            _ => rest,
        }
    }
}

/// How an emit argument is named in a message.
pub open spec fn arg_label(a: CallArg) -> Seq<char> {
    match a.name {
        Some(n) => n.name@,
        None => "<positional>"@,
    }
}

pub open spec fn secret_message(action: Seq<char>, event: Seq<char>, label: Seq<char>, source: Seq<char>) -> Seq<char> {
    "action `"@ + action + "` emits `"@ + event + "("@ + label + "=…)` reading secret state field `"@ + source + "`"@
}

pub open spec fn secret_help() -> Seq<char> {
    "remove the field from the emit, project it through a non-secret derived field, or weaken the field's `retention: secret` annotation"@
}

/// The diagnostic of one emit argument, if it reads a secret field.
pub open spec fn arg_secret_diags(a: CallArg, action: Ident, event: Ident, secret: Seq<Seq<char>>) -> Seq<DiagnosticView> {
    match first_in(expr_heads(a.value), secret) {
        Some(source) => seq![plain(Code::Error(ErrorKind::SecretFlow),
            secret_message(action.name@, event.name@, arg_label(a), source), a.span).with_help(secret_help())],
        None => Seq::empty(),
    }
}

/// An identifier reads its own name; a path reads its head first.
pub proof fn lemma_names_and_paths_read_themselves(e: Expr)
    ensures
        (*e.kind matches ExprKind::Ident(id)) ==> (*e.kind matches ExprKind::Ident(id) && expr_heads(e) == seq![id.name@]),
        (*e.kind matches ExprKind::Path(p)) ==> (*e.kind matches ExprKind::Path(p) && expr_heads(e).len() > 0
            && expr_heads(e)[0] == p.head.name@),
{
}

/// A binary operation (and a cross product) reads every name its left
/// operand reads, then every name its right operand reads: nothing
/// either operand reads is missed, and nothing else is read.
pub proof fn lemma_binary_operation_reads_both_operands(e: Expr, l: Expr, r: Expr)
    requires
        (*e.kind matches ExprKind::BinOp(_, x, y) && x == l && y == r) || *e.kind == ExprKind::Cross(l, r),
    ensures
        expr_heads(e).len() == expr_heads(l).len() + expr_heads(r).len(),
        forall|i: int| 0 <= i < expr_heads(l).len() ==> expr_heads(e)[i] == #[trigger] expr_heads(l)[i],
        forall|i: int| 0 <= i < expr_heads(r).len() ==> expr_heads(e)[expr_heads(l).len() + i] == #[trigger] expr_heads(r)[i],
{
}

proof fn lemma_heads_concat<T>(a: Seq<T>, b: Seq<T>, x: T)
    requires
        a.contains(x) || b.contains(x),
    ensures
        (a + b).contains(x),
{
    if a.contains(x) {
        let k = choose|k: int| 0 <= k < a.len() && a[k] == x;
        assert((a + b)[k] == x);
    } else {
        let k = choose|k: int| 0 <= k < b.len() && b[k] == x;
        assert((a + b)[a.len() + k] == x);
    }
}

/// The sub-expressions an expression is built from directly: operands,
/// items, branches, bound domains and bodies.
pub open spec fn operands(e: Expr) -> Seq<Expr> {
    match *e.kind {
        ExprKind::Some_(x) => seq![x],
        ExprKind::UnaryOp(_, x) => seq![x],
        ExprKind::IsTest(x, _) => seq![x],
        ExprKind::Cardinality(x) => seq![x],
        ExprKind::Tuple(items) => items@,
        ExprKind::SetLit(items) => items@,
        ExprKind::SeqLit(items) => items@,
        ExprKind::BinOp(_, l, r) => seq![l, r],
        ExprKind::Cross(l, r) => seq![l, r],
        ExprKind::Forall(b, body) => seq![b.domain, body],
        ExprKind::Exists(b, body) => seq![b.domain, body],
        ExprKind::ChooseTyped { predicate, .. } => seq![predicate],
        ExprKind::ChooseBounded { domain, predicate, .. } => seq![domain, predicate],
        ExprKind::IfThenElse { cond, then_branch, else_branch } => seq![cond, then_branch, else_branch],
        ExprKind::IfLetSome { source, then_branch, else_branch, .. } => seq![source, then_branch, else_branch],
        ExprKind::Let { value, body, .. } => seq![value, body],
        ExprKind::EventsBefore(x) => seq![x],
        ExprKind::EventsAfter(x) => seq![x],
        ExprKind::Between(a, b) => seq![a, b],
        ExprKind::FirstUnbounded(x) => seq![x],
        ExprKind::FirstBounded(a, b) => seq![a, b],
        ExprKind::LastUnbounded(x) => seq![x],
        ExprKind::LastBounded(a, b) => seq![a, b],
        ExprKind::CountUnbounded(x) => seq![x],
        ExprKind::CountBounded(a, b) => seq![a, b],
        ExprKind::StateAt(x) => seq![x],
        _ => Seq::empty(),
    }
}

proof fn lemma_item_heads_in_list(es: Seq<Expr>, i: int, x: Seq<char>)
    requires
        0 <= i < es.len(),
        expr_heads(es[i]).contains(x),
    ensures
        exprs_heads(es).contains(x),
    decreases es.len(),
{
    let init = es.subrange(0, es.len() - 1);
    if i < es.len() - 1 {
        assert(init[i] == es[i]);
        lemma_item_heads_in_list(init, i, x);
    }
    lemma_heads_concat(exprs_heads(init), expr_heads(es[es.len() - 1]), x);
}

/// An expression reads every name any of its operands reads: no operand,
/// item, branch, domain or body is skipped.
pub proof fn lemma_operand_reads_are_read(e: Expr, i: int, x: Seq<char>)
    requires
        0 <= i < operands(e).len(),
        expr_heads(operands(e)[i]).contains(x),
    ensures
        expr_heads(e).contains(x),
{
    let o = operands(e);
    match *e.kind {
        ExprKind::Tuple(items) => { lemma_item_heads_in_list(items@, i, x); },
        ExprKind::SetLit(items) => { lemma_item_heads_in_list(items@, i, x); },
        ExprKind::SeqLit(items) => { lemma_item_heads_in_list(items@, i, x); },
        ExprKind::IfThenElse { cond, then_branch, else_branch } => {
            if i < 2 {
                lemma_heads_concat(expr_heads(cond), expr_heads(then_branch), x);
            }
            lemma_heads_concat(expr_heads(cond) + expr_heads(then_branch), expr_heads(else_branch), x);
        },
        ExprKind::IfLetSome { source, then_branch, else_branch, .. } => {
            if i < 2 {
                lemma_heads_concat(expr_heads(source), expr_heads(then_branch), x);
            }
            lemma_heads_concat(expr_heads(source) + expr_heads(then_branch), expr_heads(else_branch), x);
        },
        ExprKind::BinOp(_, l, r) => { lemma_heads_concat(expr_heads(l), expr_heads(r), x); },
        ExprKind::Cross(l, r) => { lemma_heads_concat(expr_heads(l), expr_heads(r), x); },
        ExprKind::Forall(b, body) => { lemma_heads_concat(expr_heads(b.domain), expr_heads(body), x); },
        ExprKind::Exists(b, body) => { lemma_heads_concat(expr_heads(b.domain), expr_heads(body), x); },
        ExprKind::ChooseBounded { domain, predicate, .. } => { lemma_heads_concat(expr_heads(domain), expr_heads(predicate), x); },
        ExprKind::Let { value, body, .. } => { lemma_heads_concat(expr_heads(value), expr_heads(body), x); },
        ExprKind::Between(a, b) => { lemma_heads_concat(expr_heads(a), expr_heads(b), x); },
        ExprKind::FirstBounded(a, b) => { lemma_heads_concat(expr_heads(a), expr_heads(b), x); },
        ExprKind::LastBounded(a, b) => { lemma_heads_concat(expr_heads(a), expr_heads(b), x); },
        ExprKind::CountBounded(a, b) => { lemma_heads_concat(expr_heads(a), expr_heads(b), x); },
        _ => {},
    }
}

proof fn lemma_first_in_finds(heads: Seq<Seq<char>>, set: Seq<Seq<char>>, x: Seq<char>)
    requires
        heads.contains(x),
        set.contains(x),
    ensures
        first_in(heads, set) matches Some(y) && set.contains(y) && heads.contains(y),
    decreases heads.len(),
{
    let k = choose|k: int| 0 <= k < heads.len() && heads[k] == x;
    if !set.contains(heads[0]) {
        let tail = heads.subrange(1, heads.len() as int);
        assert(k > 0);
        assert(tail[k - 1] == x);
        lemma_first_in_finds(tail, set, x);
        let y = first_in(tail, set).unwrap();
        let m = choose|m: int| 0 <= m < tail.len() && tail[m] == y;
        assert(heads[m + 1] == y);
    } else {
        assert(heads[0] == heads[0]);
    }
}

/// An emit argument that reads a secret field anywhere in its value is
/// reported: exactly one `E_SECRET_FLOW`, at the argument, naming a
/// secret field the value reads.
pub proof fn lemma_secret_read_is_reported(a: CallArg, action: Ident, event: Ident, secret: Seq<Seq<char>>, x: Seq<char>)
    requires
        expr_heads(a.value).contains(x),
        secret.contains(x),
    ensures
        arg_secret_diags(a, action, event, secret).len() == 1,
        arg_secret_diags(a, action, event, secret)[0].code == Code::Error(ErrorKind::SecretFlow),
        arg_secret_diags(a, action, event, secret)[0].primary_span == a.span,
        exists|y: Seq<char>| secret.contains(y) && expr_heads(a.value).contains(y)
            && arg_secret_diags(a, action, event, secret)[0].message
                == "action `"@ + action.name@ + "` emits `"@ + event.name@ + "("@ + arg_label(a) + "=…)` reading secret state field `"@ + y + "`"@,
{
    lemma_first_in_finds(expr_heads(a.value), secret, x);
    let y = first_in(expr_heads(a.value), secret).unwrap();
    assert(secret.contains(y) && expr_heads(a.value).contains(y));
}

/// An emit argument whose value is a binary operation with a secret field
/// among the names either operand reads is reported.
pub proof fn lemma_secret_operand_is_reported(a: CallArg, action: Ident, event: Ident, secret: Seq<Seq<char>>,
    l: Expr, r: Expr, x: Seq<char>)
    requires
        *a.value.kind matches ExprKind::BinOp(_, p, q) && p == l && q == r,
        expr_heads(l).contains(x) || expr_heads(r).contains(x),
        secret.contains(x),
    ensures
        arg_secret_diags(a, action, event, secret).len() == 1,
        arg_secret_diags(a, action, event, secret)[0].code == Code::Error(ErrorKind::SecretFlow),
        arg_secret_diags(a, action, event, secret)[0].primary_span == a.span,
{
    lemma_binary_operation_reads_both_operands(a.value, l, r);
    let hl = expr_heads(l);
    let hr = expr_heads(r);
    let he = expr_heads(a.value);
    if hl.contains(x) {
        let k = choose|k: int| 0 <= k < hl.len() && hl[k] == x;
        assert(he[k] == hl[k]);
    } else {
        let k = choose|k: int| 0 <= k < hr.len() && hr[k] == x;
        assert(he[hl.len() + k] == hr[k]);
    }
    lemma_secret_read_is_reported(a, action, event, secret, x);
}

/// The secret flows of one statement, nested blocks included.
pub open spec fn stmt_secret_diags(s: EffectStmt, action: Ident, secret: Seq<Seq<char>>) -> Seq<DiagnosticView>
    decreases s,
{
    match s {
        EffectStmt::Emit { event, args, .. } =>
            concat_map(args@, |a: CallArg| arg_secret_diags(a, action, event, secret)),
        EffectStmt::IfElse { then_block, else_block, .. } =>
            stmts_secret_diags(then_block.stmts@, action, secret) + match else_block {
                Some(eb) => stmts_secret_diags(eb.stmts@, action, secret),
                None => Seq::empty(),
            },
        EffectStmt::IfLetSome { then_block, else_block, .. } =>
            stmts_secret_diags(then_block.stmts@, action, secret) + match else_block {
                Some(eb) => stmts_secret_diags(eb.stmts@, action, secret),
                None => Seq::empty(),
            },
        EffectStmt::For { body, .. } => stmts_secret_diags(body.stmts@, action, secret),
        EffectStmt::Match { arms, .. } => arms_secret_diags(arms@, action, secret),
        _ => Seq::empty(),
    }
}

pub open spec fn stmts_secret_diags(ss: Seq<EffectStmt>, action: Ident, secret: Seq<Seq<char>>) -> Seq<DiagnosticView>
    decreases ss,
{
    if ss.len() == 0 {
        Seq::empty()
    } else {
        stmts_secret_diags(ss.subrange(0, ss.len() - 1), action, secret)
            + stmt_secret_diags(ss[ss.len() - 1], action, secret)
    }
}

pub open spec fn arms_secret_diags(arms: Seq<EffectMatchArm>, action: Ident, secret: Seq<Seq<char>>) -> Seq<DiagnosticView>
    decreases arms,
{
    if arms.len() == 0 {
        Seq::empty()
    } else {
        arms_secret_diags(arms.subrange(0, arms.len() - 1), action, secret)
            + stmts_secret_diags(arms[arms.len() - 1].body.stmts@, action, secret)
    }
}

/// The secret flows of a surface: none without secret fields; else those
/// of each action, then of each internal action.
pub open spec fn secret_surface_diags(s: SurfaceBlock) -> Seq<DiagnosticView> {
    let secret = secret_names(s.state@);
    if secret.len() == 0 {
        Seq::empty()
    } else {
        concat_map(s.actions@, |a: ActionDecl| stmts_secret_diags(a.body.stmts@, a.name, secret))
            + concat_map(s.internal_actions@, |ia: InternalActionDecl|
                stmts_secret_diags(ia.action.body.stmts@, ia.action.name, secret))
    }
}

/// A state field kept `retention: secret` is among the secret names.
pub proof fn lemma_secret_fields_are_secret_names(state: Seq<StateField>, i: int)
    requires
        0 <= i < state.len(),
        state[i].retention == Some(RetentionClass::Secret),
    ensures
        secret_names(state).contains(state[i].name.name@),
    decreases state.len(),
{
    let rest = state.drop_last();
    let n = state[i].name.name@;
    let d = secret_names(state);
    let dr = secret_names(rest);
    if i == state.len() - 1 {
        assert(d == dr.push(n));
        assert(d[d.len() - 1] == n);
    } else {
        assert(rest[i] == state[i]);
        lemma_secret_fields_are_secret_names(rest, i);
        let k = choose|k: int| 0 <= k < dr.len() && dr[k] == n;
        assert(d == dr || d == dr.push(state.last().name.name@));
        assert(d[k] == n);
    }
}

proof fn lemma_secret_stmt_in_block(ss: Seq<EffectStmt>, j: int, action: Ident, secret: Seq<Seq<char>>, x: DiagnosticView)
    requires
        0 <= j < ss.len(),
        stmt_secret_diags(ss[j], action, secret).contains(x),
    ensures
        stmts_secret_diags(ss, action, secret).contains(x),
    decreases ss.len(),
{
    let init = ss.subrange(0, ss.len() - 1);
    if j < ss.len() - 1 {
        assert(init[j] == ss[j]);
        lemma_secret_stmt_in_block(init, j, action, secret, x);
    }
    lemma_heads_concat(stmts_secret_diags(init, action, secret), stmt_secret_diags(ss[ss.len() - 1], action, secret), x);
}

proof fn lemma_secret_arm_in_arms(arms: Seq<EffectMatchArm>, b: int, action: Ident, secret: Seq<Seq<char>>, x: DiagnosticView)
    requires
        0 <= b < arms.len(),
        stmts_secret_diags(arms[b].body.stmts@, action, secret).contains(x),
    ensures
        arms_secret_diags(arms, action, secret).contains(x),
    decreases arms.len(),
{
    let init = arms.subrange(0, arms.len() - 1);
    if b < arms.len() - 1 {
        assert(init[b] == arms[b]);
        lemma_secret_arm_in_arms(init, b, action, secret, x);
    }
    lemma_heads_concat(arms_secret_diags(init, action, secret),
        stmts_secret_diags(arms[arms.len() - 1].body.stmts@, action, secret), x);
}

/// Emits in nested blocks are checked too: whatever a statement inside a
/// branch, a loop body or a match arm reports is in the report of the
/// statement around it.
pub proof fn lemma_nested_secret_flow_is_reported(s: EffectStmt, b: int, j: int, action: Ident, secret: Seq<Seq<char>>,
    x: DiagnosticView)
    requires
        0 <= b < crate::derived::inner_blocks(s).len(),
        0 <= j < crate::derived::inner_blocks(s)[b].len(),
        stmt_secret_diags(crate::derived::inner_blocks(s)[b][j], action, secret).contains(x),
    ensures
        stmt_secret_diags(s, action, secret).contains(x),
{
    lemma_secret_stmt_in_block(crate::derived::inner_blocks(s)[b], j, action, secret, x);
    match s {
        EffectStmt::IfElse { then_block, else_block, .. } => {
            let e = match else_block { Some(eb) => stmts_secret_diags(eb.stmts@, action, secret), None => Seq::empty() };
            lemma_heads_concat(stmts_secret_diags(then_block.stmts@, action, secret), e, x);
        },
        EffectStmt::IfLetSome { then_block, else_block, .. } => {
            let e = match else_block { Some(eb) => stmts_secret_diags(eb.stmts@, action, secret), None => Seq::empty() };
            lemma_heads_concat(stmts_secret_diags(then_block.stmts@, action, secret), e, x);
        },
        EffectStmt::For { .. } => {},
        EffectStmt::Match { arms, .. } => {
            assert(crate::derived::inner_blocks(s)[b] == arms@[b].body.stmts@);
            lemma_secret_arm_in_arms(arms@, b, action, secret, x);
        },
        _ => {},
    }
}

/// The report of an emit holds the report of each of its arguments.
pub proof fn lemma_emit_reports_each_argument(s: EffectStmt, m: int, action: Ident, secret: Seq<Seq<char>>, x: DiagnosticView)
    requires
        s matches EffectStmt::Emit { event, args, .. } && 0 <= m < args@.len()
            && arg_secret_diags(args@[m], action, event, secret).contains(x),
    ensures
        stmt_secret_diags(s, action, secret).contains(x),
{
    match s {
        EffectStmt::Emit { event, args, .. } => {
            let f = |a: CallArg| arg_secret_diags(a, action, event, secret);
            crate::diagnostic::lemma_concat_map_contains(args@, f, m, x);
        },
        _ => {},
    }
}

/// An emit in the body of any action or internal action of a surface,
/// one of whose arguments reads a `retention: secret` state field, is
/// reported: the pass's report for the surface holds an
/// `E_SECRET_FLOW` at that argument.
pub proof fn lemma_secret_emit_in_surface_is_reported(s: SurfaceBlock, internal: bool, k: int, j: int, m: int, fi: int)
    requires
        internal ==> 0 <= k < s.internal_actions@.len(),
        !internal ==> 0 <= k < s.actions@.len(),
        0 <= fi < s.state@.len(),
        s.state@[fi].retention == Some(RetentionClass::Secret),
        ({
            let body = if internal { s.internal_actions@[k].action.body } else { s.actions@[k].body };
            &&& 0 <= j < body.stmts@.len()
            &&& body.stmts@[j] matches EffectStmt::Emit { args, .. } && 0 <= m < args@.len()
                && expr_heads(args@[m].value).contains(s.state@[fi].name.name@)
        }),
    ensures
        exists|d: DiagnosticView| #[trigger] secret_surface_diags(s).contains(d) && d.code == Code::Error(ErrorKind::SecretFlow)
            && (({
                let body = if internal { s.internal_actions@[k].action.body } else { s.actions@[k].body };
                body.stmts@[j] matches EffectStmt::Emit { args, .. } && d.primary_span == args@[m].span
            })),
{
    let secret = secret_names(s.state@);
    let x = s.state@[fi].name.name@;
    lemma_secret_fields_are_secret_names(s.state@, fi);
    assert(secret.len() > 0) by {
        let q = choose|q: int| 0 <= q < secret.len() && secret[q] == x;
    }
    let action = if internal { s.internal_actions@[k].action } else { s.actions@[k] };
    let body = action.body;
    match body.stmts@[j] {
        EffectStmt::Emit { event, args, .. } => {
            let a = args@[m];
            lemma_secret_read_is_reported(a, action.name, event, secret, x);
            let d = arg_secret_diags(a, action.name, event, secret)[0];
            assert(arg_secret_diags(a, action.name, event, secret).contains(d));
            lemma_emit_reports_each_argument(body.stmts@[j], m, action.name, secret, d);
            lemma_secret_stmt_in_block(body.stmts@, j, action.name, secret, d);
            let fa = |a: ActionDecl| stmts_secret_diags(a.body.stmts@, a.name, secret);
            let fb = |ia: InternalActionDecl| stmts_secret_diags(ia.action.body.stmts@, ia.action.name, secret);
            let pa = concat_map(s.actions@, fa);
            let pb = concat_map(s.internal_actions@, fb);
            assert(secret_surface_diags(s) == pa + pb);
            if internal {
                crate::diagnostic::lemma_concat_map_contains(s.internal_actions@, fb, k, d);
            } else {
                crate::diagnostic::lemma_concat_map_contains(s.actions@, fa, k, d);
            }
            lemma_heads_concat(pa, pb, d);
            assert(secret_surface_diags(s).contains(d));
        },
        _ => {},
    }
}

fn collect_secret(state: &Vec<StateField>) -> (r: Vec<String>)
    ensures
        names_view(r@) == secret_names(state@),
{
    let mut out: Vec<String> = Vec::new();
    let mut i: usize = 0;
    proof {
        assert(state@.subrange(0, 0) =~= Seq::<StateField>::empty());
        assert(names_view(out@) =~= Seq::<Seq<char>>::empty());
    }
    while i < state.len()
        invariant
            i <= state@.len(),
            names_view(out@) == secret_names(state@.subrange(0, i as int)),
        decreases state@.len() - i,
    {
        proof {
            assert(state@.subrange(0, i + 1).drop_last() =~= state@.subrange(0, i as int));
        }
        let f = &state[i];
        match &f.retention {
            Some(RetentionClass::Secret) => {
                let ghost before = out@;
                out.push(f.name.name.clone());
                proof {
                    assert(names_view(out@) =~= names_view(before).push(f.name.name@));
                }
            },
            _ => {},
        }
        i += 1;
    }
    proof {
        assert(state@.subrange(0, i as int) =~= state@);
    }
    out
}

fn push_empty(out: &Vec<Diagnostic>)
    ensures
        diags_view(out@) + Seq::<DiagnosticView>::empty() == diags_view(out@),
{
    proof {
        assert(diags_view(out@) + Seq::<DiagnosticView>::empty() =~= diags_view(out@));
    }
}

fn check_emit_args(event: &Ident, args: &Vec<CallArg>, action_name: &Ident, secret: &Vec<String>,
    out: &mut Vec<Diagnostic>)
    ensures
        diags_view(final(out)@) == diags_view(old(out)@)
            + concat_map(args@, |a: CallArg| arg_secret_diags(a, *action_name, *event, names_view(secret@))),
{
    let ghost sv = names_view(secret@);
    let ghost f = |a: CallArg| arg_secret_diags(a, *action_name, *event, sv);
    let ghost head = diags_view(out@);
    let mut i: usize = 0;
    proof {
        assert(args@.subrange(0, 0) =~= Seq::<CallArg>::empty());
        assert(head + concat_map(Seq::<CallArg>::empty(), f) =~= head);
    }
    while i < args.len()
        invariant
            i <= args@.len(),
            sv == names_view(secret@),
            f == (|a: CallArg| arg_secret_diags(a, *action_name, *event, sv)),
            diags_view(out@) == head + concat_map(args@.subrange(0, i as int), f),
        decreases args@.len() - i,
    {
        let arg = &args[i];
        proof {
            lemma_concat_map_step(args@, i as int, f);
        }
        match expr_reads_secret(&arg.value, secret) {
            Some(source) => {
                let label: String = match &arg.name {
                    Some(n) => n.name.clone(),
                    None => owned("<positional>"),
                };
                let mut m = owned("action `");
                m.append(action_name.name.as_str());
                m.append("` emits `");
                m.append(event.name.as_str());
                m.append("(");
                m.append(label.as_str());
                m.append("=…)` reading secret state field `");
                m.append(source.as_str());
                m.append("`");
                let d = Diagnostic::error(ErrorKind::SecretFlow, m.as_str(), arg.span).with_help(
                    "remove the field from the emit, project it through a non-secret derived field, or weaken the field's `retention: secret` annotation");
                proof {
                    lemma_diags_view_push(out@, d);
                    assert(diags_view(out@).push(d@) =~= diags_view(out@) + seq![d@]);
                }
                out.push(d);
            },
            None => push_empty(out),
        }
        i += 1;
    }
    proof {
        assert(args@.subrange(0, i as int) =~= args@);
    }
}

fn walk_block_emit(b: &EffectBlock, action_name: &Ident, secret: &Vec<String>, out: &mut Vec<Diagnostic>)
    ensures
        diags_view(final(out)@) == diags_view(old(out)@) + stmts_secret_diags(b.stmts@, *action_name, names_view(secret@)),
    decreases b, 1int,
{
    let ghost sv = names_view(secret@);
    let ghost head = diags_view(out@);
    let mut i: usize = 0;
    proof {
        assert(b.stmts@.subrange(0, 0) =~= Seq::<EffectStmt>::empty());
        assert(head + stmts_secret_diags(Seq::<EffectStmt>::empty(), *action_name, sv) =~= head);
    }
    while i < b.stmts.len()
        invariant
            i <= b.stmts@.len(),
            sv == names_view(secret@),
            diags_view(out@) == head + stmts_secret_diags(b.stmts@.subrange(0, i as int), *action_name, sv),
        decreases b.stmts@.len() - i,
    {
        proof {
            let pre = b.stmts@.subrange(0, i + 1);
            assert(pre.subrange(0, pre.len() - 1) =~= b.stmts@.subrange(0, i as int));
            assert(pre[pre.len() - 1] == b.stmts@[i as int]);
            assert(decreases_to!(b => b.stmts));
            assert(decreases_to!(b.stmts => b.stmts@));
            assert(decreases_to!(b.stmts@ => b.stmts@[i as int]));
        }
        walk_stmt_emit(&b.stmts[i], action_name, secret, out);
        i += 1;
    }
    proof {
        assert(b.stmts@.subrange(0, i as int) =~= b.stmts@);
    }
}

fn walk_optional_emit(b: &Option<EffectBlock>, action_name: &Ident, secret: &Vec<String>, out: &mut Vec<Diagnostic>)
    ensures
        diags_view(final(out)@) == diags_view(old(out)@) + match *b {
            Some(eb) => stmts_secret_diags(eb.stmts@, *action_name, names_view(secret@)),
            None => Seq::empty(),
        },
    decreases b, 2int,
{
    match b {
        Some(eb) => walk_block_emit(eb, action_name, secret, out),
        None => push_empty(out),
    }
}

fn walk_stmt_emit(s: &EffectStmt, action_name: &Ident, secret: &Vec<String>, out: &mut Vec<Diagnostic>)
    ensures
        diags_view(final(out)@) == diags_view(old(out)@) + stmt_secret_diags(*s, *action_name, names_view(secret@)),
    decreases s, 3int,
{
    let ghost sv = names_view(secret@);
    match s {
        EffectStmt::Emit { event, args, .. } => check_emit_args(event, args, action_name, secret, out),
        EffectStmt::IfElse { then_block, else_block, .. } => {
            let ghost head = diags_view(out@);
            walk_block_emit(then_block, action_name, secret, out);
            walk_optional_emit(else_block, action_name, secret, out);
            proof {
                assert(diags_view(out@) =~= head + stmt_secret_diags(*s, *action_name, sv));
            }
        },
        EffectStmt::IfLetSome { then_block, else_block, .. } => {
            let ghost head = diags_view(out@);
            walk_block_emit(then_block, action_name, secret, out);
            walk_optional_emit(else_block, action_name, secret, out);
            proof {
                assert(diags_view(out@) =~= head + stmt_secret_diags(*s, *action_name, sv));
            }
        },
        EffectStmt::For { body, .. } => walk_block_emit(body, action_name, secret, out),
        EffectStmt::Match { arms, .. } => {
            let ghost head = diags_view(out@);
            let mut i: usize = 0;
            proof {
                assert(arms@.subrange(0, 0) =~= Seq::<EffectMatchArm>::empty());
                assert(head + arms_secret_diags(Seq::<EffectMatchArm>::empty(), *action_name, sv) =~= head);
            }
            while i < arms.len()
                invariant
                    i <= arms@.len(),
                    sv == names_view(secret@),
                    s is Match,
                    *arms == s->arms,
                    diags_view(out@) == head + arms_secret_diags(arms@.subrange(0, i as int), *action_name, sv),
                decreases arms@.len() - i,
            {
                proof {
                    let pre = arms@.subrange(0, i + 1);
                    assert(pre.subrange(0, pre.len() - 1) =~= arms@.subrange(0, i as int));
                    assert(pre[pre.len() - 1] == arms@[i as int]);
                    assert(decreases_to!(*s => s->arms));
                    assert(decreases_to!(*arms => arms@));
                    assert(decreases_to!(arms@ => arms@[i as int]));
                    assert(decreases_to!(arms@[i as int] => arms@[i as int].body));
                }
                walk_block_emit(&arms[i].body, action_name, secret, out);
                i += 1;
            }
            proof {
                assert(arms@.subrange(0, i as int) =~= arms@);
            }
        },
        _ => push_empty(out),
    }
}

/// Report every emit argument that reads a secret state field.
pub fn check_secret_flow(surface: &SurfaceBlock, out: &mut Vec<Diagnostic>)
    ensures
        diags_view(final(out)@) == diags_view(old(out)@) + secret_surface_diags(*surface),
{
    let secret = collect_secret(&surface.state);
    let ghost sv = secret_names(surface.state@);
    if secret.len() == 0 {
        push_empty(out);
        return;
    }
    let ghost fa = |a: ActionDecl| stmts_secret_diags(a.body.stmts@, a.name, sv);
    let ghost fia = |ia: InternalActionDecl| stmts_secret_diags(ia.action.body.stmts@, ia.action.name, sv);
    let ghost start = diags_view(out@);
    let mut i: usize = 0;
    proof {
        assert(surface.actions@.subrange(0, 0) =~= Seq::<ActionDecl>::empty());
        assert(start + concat_map(Seq::<ActionDecl>::empty(), fa) =~= start);
    }
    while i < surface.actions.len()
        invariant
            i <= surface.actions@.len(),
            names_view(secret@) == sv,
            fa == (|a: ActionDecl| stmts_secret_diags(a.body.stmts@, a.name, sv)),
            diags_view(out@) == start + concat_map(surface.actions@.subrange(0, i as int), fa),
        decreases surface.actions@.len() - i,
    {
        proof {
            lemma_concat_map_step(surface.actions@, i as int, fa);
        }
        let a = &surface.actions[i];
        walk_block_emit(&a.body, &a.name, &secret, out);
        i += 1;
    }
    proof {
        assert(surface.actions@.subrange(0, i as int) =~= surface.actions@);
    }
    let ghost mid = diags_view(out@);
    let mut i: usize = 0;
    proof {
        assert(surface.internal_actions@.subrange(0, 0) =~= Seq::<InternalActionDecl>::empty());
        assert(mid + concat_map(Seq::<InternalActionDecl>::empty(), fia) =~= mid);
    }
    while i < surface.internal_actions.len()
        invariant
            i <= surface.internal_actions@.len(),
            names_view(secret@) == sv,
            fia == (|ia: InternalActionDecl| stmts_secret_diags(ia.action.body.stmts@, ia.action.name, sv)),
            diags_view(out@) == mid + concat_map(surface.internal_actions@.subrange(0, i as int), fia),
        decreases surface.internal_actions@.len() - i,
    {
        proof {
            lemma_concat_map_step(surface.internal_actions@, i as int, fia);
        }
        let a = &surface.internal_actions[i].action;
        walk_block_emit(&a.body, &a.name, &secret, out);
        i += 1;
    }
    proof {
        assert(surface.internal_actions@.subrange(0, i as int) =~= surface.internal_actions@);
    }
}


// ---- E_ACTOR_VIEW_LEAK ----

/// A named type whose last segment is an actor.
pub open spec fn spec_type_is_actor(t: TypeKind, actors: Seq<Seq<char>>) -> bool {
    match t {
        TypeKind::Named(qn) => qn.segments@.len() > 0 && actors.contains(qn.segments@.last().name@),
        _ => false,
    }
}

/// How a parameter's type is shown: a named type dotted, any other
/// `<complex>`.
pub open spec fn spec_type_display(t: TypeKind) -> Seq<char> {
    match t {
        TypeKind::Named(qn) => qn.spec_dotted(),
        _ => "<complex>"@,
    }
}

pub open spec fn leak_message(obs: Seq<char>, param: Seq<char>, ty: Seq<char>) -> Seq<char> {
    "observable `"@ + obs + "` has actor-typed parameter `"@ + param + ": "@ + ty
        + "` — actor params let callers spawn views from another actor's perspective"@
}

pub open spec fn leak_help() -> Seq<char> {
    "drop the parameter, or retype it as a non-actor index that the observable's `for <u>:` binder can dereference"@
}

/// The leak reported for one parameter of an observable, if any.
pub open spec fn param_leak_diags(o: ObservableDecl, p: Param, actors: Seq<Seq<char>>) -> Seq<DiagnosticView> {
    if spec_type_is_actor(p.ty.kind, actors) {
        seq![plain(Code::Error(ErrorKind::ActorViewLeak),
            leak_message(o.name.name@, p.name.name@, spec_type_display(p.ty.kind)), p.span).with_help(leak_help())]
    } else {
        Seq::empty()
    }
}

/// Every actor-typed parameter of every observable of the surface.
pub open spec fn leak_surface_diags(s: SurfaceBlock, actors: Seq<Seq<char>>) -> Seq<DiagnosticView> {
    concat_map(s.observables@, |o: ObservableDecl| concat_map(o.params@, |p: Param| param_leak_diags(o, p, actors)))
}

/// Whether a type names an actor.
pub fn type_is_actor(t: &TypeKind, actor_types: &Vec<String>) -> (r: bool)
    ensures
        r == spec_type_is_actor(*t, names_view(actor_types@)),
{
    match t {
        TypeKind::Named(qn) => {
            if qn.segments.len() == 0 {
                false
            } else {
                contains_name(actor_types, qn.segments[qn.segments.len() - 1].name.as_str())
            }
        },
        _ => false,
    }
}

/// A type as shown in messages.
pub fn type_display(t: &TypeKind) -> (r: String)
    ensures
        r@ == spec_type_display(*t),
{
    match t {
        TypeKind::Named(qn) => qn.dotted(),
        _ => owned("<complex>"),
    }
}

fn check_params(o: &ObservableDecl, actor_types: &Vec<String>, out: &mut Vec<Diagnostic>)
    ensures
        diags_view(final(out)@) == diags_view(old(out)@)
            + concat_map(o.params@, |p: Param| param_leak_diags(*o, p, names_view(actor_types@))),
{
    let ghost av = names_view(actor_types@);
    let ghost f = |p: Param| param_leak_diags(*o, p, av);
    let ghost head = diags_view(out@);
    let mut i: usize = 0;
    proof {
        assert(o.params@.subrange(0, 0) =~= Seq::<Param>::empty());
        assert(head + concat_map(Seq::<Param>::empty(), f) =~= head);
    }
    while i < o.params.len()
        invariant
            i <= o.params@.len(),
            av == names_view(actor_types@),
            f == (|p: Param| param_leak_diags(*o, p, av)),
            diags_view(out@) == head + concat_map(o.params@.subrange(0, i as int), f),
        decreases o.params@.len() - i,
    {
        let param = &o.params[i];
        proof {
            lemma_concat_map_step(o.params@, i as int, f);
        }
        if type_is_actor(&param.ty.kind, actor_types) {
            let mut m = owned("observable `");
            m.append(o.name.name.as_str());
            m.append("` has actor-typed parameter `");
            m.append(param.name.name.as_str());
            m.append(": ");
            let shown = type_display(&param.ty.kind);
            m.append(shown.as_str());
            m.append("` — actor params let callers spawn views from another actor's perspective");
            let d = Diagnostic::error(ErrorKind::ActorViewLeak, m.as_str(), param.span).with_help(
                "drop the parameter, or retype it as a non-actor index that the observable's `for <u>:` binder can dereference");
            proof {
                lemma_diags_view_push(out@, d);
                assert(diags_view(out@).push(d@) =~= diags_view(out@) + seq![d@]);
            }
            out.push(d);
        } else {
            push_empty(out);
        }
        i += 1;
    }
    proof {
        assert(o.params@.subrange(0, i as int) =~= o.params@);
    }
}

/// Report every observable parameter whose type is an actor.
pub fn check_actor_view_leak(surface: &SurfaceBlock, actor_types: &Vec<String>, out: &mut Vec<Diagnostic>)
    ensures
        diags_view(final(out)@) == diags_view(old(out)@) + leak_surface_diags(*surface, names_view(actor_types@)),
{
    let ghost av = names_view(actor_types@);
    let ghost f = |o: ObservableDecl| concat_map(o.params@, |p: Param| param_leak_diags(o, p, av));
    let ghost head = diags_view(out@);
    let mut i: usize = 0;
    proof {
        assert(surface.observables@.subrange(0, 0) =~= Seq::<ObservableDecl>::empty());
        assert(head + concat_map(Seq::<ObservableDecl>::empty(), f) =~= head);
    }
    while i < surface.observables.len()
        invariant
            i <= surface.observables@.len(),
            av == names_view(actor_types@),
            f == (|o: ObservableDecl| concat_map(o.params@, |p: Param| param_leak_diags(o, p, av))),
            diags_view(out@) == head + concat_map(surface.observables@.subrange(0, i as int), f),
        decreases surface.observables@.len() - i,
    {
        proof {
            lemma_concat_map_step(surface.observables@, i as int, f);
        }
        let o = &surface.observables[i];
        check_params(o, actor_types, out);
        proof {
            assert((|p: Param| param_leak_diags(*o, p, av)) == (|p: Param| param_leak_diags(surface.observables@[i as int], p, av)));
        }
        i += 1;
    }
    proof {
        assert(surface.observables@.subrange(0, i as int) =~= surface.observables@);
    }
}

// ---- E_FRESHNESS_UNDECLARED_EPOCH ----

/// The epoch a slot assignment's freshness value names, if any.
pub open spec fn freshness_epoch(sa: SlotAssign) -> Option<Ident> {
    if sa.kind != SlotKind::Freshness {
        None
    } else {
        match sa.value {
            SlotValue::Freshness(FreshnessValue::Bounded { epoch, .. }) => Some(epoch),
            SlotValue::Freshness(FreshnessValue::Eventual { epoch: Some(e) }) => Some(e),
            SlotValue::Freshness(FreshnessValue::StaleWhileRevalidate { epoch, .. }) => Some(epoch),
            _ => None,
        }
    }
}

pub open spec fn freshness_message(action: Seq<char>, epoch: Seq<char>) -> Seq<char> {
    "action `"@ + action + "` references epoch `"@ + epoch + "` in `freshness:` but no substrate declares it"@
}

pub open spec fn freshness_help() -> Seq<char> {
    "add `epoch <name> { advances_on <action-set> ; covers <field-set> }` in the realising substrate, or use `freshness: strong` / `not_applicable`"@
}

/// The diagnostic of one slot assignment naming an undeclared epoch.
pub open spec fn slot_freshness_diags(action: Ident, sa: SlotAssign, declared: Seq<Seq<char>>) -> Seq<DiagnosticView> {
    match freshness_epoch(sa) {
        Some(ep) => if declared.contains(ep.name@) {
            Seq::empty()
        } else {
            seq![plain(Code::Error(ErrorKind::FreshnessUndeclaredEpoch),
                freshness_message(action.name@, ep.name@), ep.span).with_help(freshness_help())]
        },
        None => Seq::empty(),
    }
}

pub open spec fn action_freshness_diags(a: ActionDecl, declared: Seq<Seq<char>>) -> Seq<DiagnosticView> {
    concat_map(a.slots@, |sa: SlotAssign| slot_freshness_diags(a.name, sa, declared))
}

pub open spec fn freshness_surface_diags(s: SurfaceBlock, declared: Seq<Seq<char>>) -> Seq<DiagnosticView> {
    concat_map(s.actions@, |a: ActionDecl| action_freshness_diags(a, declared))
        + concat_map(s.internal_actions@, |ia: InternalActionDecl| action_freshness_diags(ia.action, declared))
}

/// Report every freshness slot of the action naming an undeclared epoch.
pub fn check_action_freshness(action: &ActionDecl, declared: &Vec<String>, out: &mut Vec<Diagnostic>)
    ensures
        diags_view(final(out)@) == diags_view(old(out)@) + action_freshness_diags(*action, names_view(declared@)),
{
    let ghost dv = names_view(declared@);
    let ghost f = |sa: SlotAssign| slot_freshness_diags(action.name, sa, dv);
    let ghost head = diags_view(out@);
    let mut i: usize = 0;
    proof {
        assert(action.slots@.subrange(0, 0) =~= Seq::<SlotAssign>::empty());
        assert(head + concat_map(Seq::<SlotAssign>::empty(), f) =~= head);
    }
    while i < action.slots.len()
        invariant
            i <= action.slots@.len(),
            dv == names_view(declared@),
            f == (|sa: SlotAssign| slot_freshness_diags(action.name, sa, dv)),
            diags_view(out@) == head + concat_map(action.slots@.subrange(0, i as int), f),
        decreases action.slots@.len() - i,
    {
        let sa = &action.slots[i];
        proof {
            lemma_concat_map_step(action.slots@, i as int, f);
        }
        let epoch: Option<&Ident> = if sa.kind != SlotKind::Freshness {
            None
        } else {
            match &sa.value {
                SlotValue::Freshness(FreshnessValue::Bounded { epoch, .. }) => Some(epoch),
                SlotValue::Freshness(FreshnessValue::Eventual { epoch: Some(e) }) => Some(e),
                SlotValue::Freshness(FreshnessValue::StaleWhileRevalidate { epoch, .. }) => Some(epoch),
                _ => None,
            }
        };
        match epoch {
            Some(ep) => {
                if !contains_name(declared, ep.name.as_str()) {
                    let mut m = owned("action `");
                    m.append(action.name.name.as_str());
                    m.append("` references epoch `");
                    m.append(ep.name.as_str());
                    m.append("` in `freshness:` but no substrate declares it");
                    let d = Diagnostic::error(ErrorKind::FreshnessUndeclaredEpoch, m.as_str(), ep.span).with_help(
                        "add `epoch <name> { advances_on <action-set> ; covers <field-set> }` in the realising substrate, or use `freshness: strong` / `not_applicable`");
                    proof {
                        lemma_diags_view_push(out@, d);
                        assert(diags_view(out@).push(d@) =~= diags_view(out@) + seq![d@]);
                    }
                    out.push(d);
                } else {
                    push_empty(out);
                }
            },
            None => push_empty(out),
        }
        i += 1;
    }
    proof {
        assert(action.slots@.subrange(0, i as int) =~= action.slots@);
    }
}

fn check_freshness_epochs(surface: &SurfaceBlock, declared: &Vec<String>, out: &mut Vec<Diagnostic>)
    ensures
        diags_view(final(out)@) == diags_view(old(out)@) + freshness_surface_diags(*surface, names_view(declared@)),
{
    let ghost dv = names_view(declared@);
    let ghost fa = |a: ActionDecl| action_freshness_diags(a, dv);
    let ghost fia = |ia: InternalActionDecl| action_freshness_diags(ia.action, dv);
    let ghost start = diags_view(out@);
    let mut i: usize = 0;
    proof {
        assert(surface.actions@.subrange(0, 0) =~= Seq::<ActionDecl>::empty());
        assert(start + concat_map(Seq::<ActionDecl>::empty(), fa) =~= start);
    }
    while i < surface.actions.len()
        invariant
            i <= surface.actions@.len(),
            dv == names_view(declared@),
            fa == (|a: ActionDecl| action_freshness_diags(a, dv)),
            diags_view(out@) == start + concat_map(surface.actions@.subrange(0, i as int), fa),
        decreases surface.actions@.len() - i,
    {
        proof {
            lemma_concat_map_step(surface.actions@, i as int, fa);
        }
        check_action_freshness(&surface.actions[i], declared, out);
        i += 1;
    }
    proof {
        assert(surface.actions@.subrange(0, i as int) =~= surface.actions@);
    }
    let ghost mid = diags_view(out@);
    let mut i: usize = 0;
    proof {
        assert(surface.internal_actions@.subrange(0, 0) =~= Seq::<InternalActionDecl>::empty());
        assert(mid + concat_map(Seq::<InternalActionDecl>::empty(), fia) =~= mid);
    }
    while i < surface.internal_actions.len()
        invariant
            i <= surface.internal_actions@.len(),
            dv == names_view(declared@),
            fia == (|ia: InternalActionDecl| action_freshness_diags(ia.action, dv)),
            diags_view(out@) == mid + concat_map(surface.internal_actions@.subrange(0, i as int), fia),
        decreases surface.internal_actions@.len() - i,
    {
        proof {
            lemma_concat_map_step(surface.internal_actions@, i as int, fia);
        }
        check_action_freshness(&surface.internal_actions[i].action, declared, out);
        i += 1;
    }
    proof {
        assert(surface.internal_actions@.subrange(0, i as int) =~= surface.internal_actions@);
    }
}

// ---- project-wide tables and the pass ----

/// The actor names declared by one declaration.
pub open spec fn decl_actor_names(d: Decl) -> Seq<Seq<char>> {
    match d {
        Decl::Actor(a) => seq![a.name.name@],
        _ => Seq::empty(),
    }
}

/// Every actor name of the project, module by module.
pub open spec fn actor_names(mods: Seq<ModuleAggregate>) -> Seq<Seq<char>> {
    concat_map(mods, |m: ModuleAggregate| concat_map(m.decls@, |d: Decl| decl_actor_names(d)))
}

pub open spec fn epoch_list_names(es: Seq<EpochDecl>) -> Seq<Seq<char>> {
    concat_map(es, |e: EpochDecl| seq![e.name.name@])
}

/// The epoch names declared by one substrate or partial substrate.
pub open spec fn decl_epoch_names(d: Decl) -> Seq<Seq<char>> {
    match d {
        Decl::Substrate(s) => epoch_list_names(s.epochs@),
        Decl::PartialSubstrate(p) => epoch_list_names(p.block.epochs@),
        _ => Seq::empty(),
    }
}

/// Every declared epoch name of the project, module by module.
pub open spec fn epoch_names(mods: Seq<ModuleAggregate>) -> Seq<Seq<char>> {
    concat_map(mods, |m: ModuleAggregate| concat_map(m.decls@, |d: Decl| decl_epoch_names(d)))
}

/// What the pass reports for one surface: secret flows, actor-view
/// leaks, then undeclared epochs.
pub open spec fn cross_surface_diags(s: SurfaceBlock, actors: Seq<Seq<char>>, epochs: Seq<Seq<char>>) -> Seq<DiagnosticView> {
    secret_surface_diags(s) + leak_surface_diags(s, actors) + freshness_surface_diags(s, epochs)
}

pub open spec fn decl_cross_diags(d: Decl, actors: Seq<Seq<char>>, epochs: Seq<Seq<char>>) -> Seq<DiagnosticView> {
    match d {
        Decl::Surface(s) => cross_surface_diags(s, actors, epochs),
        _ => Seq::empty(),
    }
}

pub open spec fn cross_slot_diags(mods: Seq<ModuleAggregate>) -> Seq<DiagnosticView> {
    concat_map(mods, |m: ModuleAggregate| concat_map(m.decls@,
        |d: Decl| decl_cross_diags(d, actor_names(mods), epoch_names(mods))))
}

fn push_names_of_epochs(es: &Vec<EpochDecl>, out: &mut Vec<String>)
    ensures
        names_view(final(out)@) == names_view(old(out)@) + epoch_list_names(es@),
{
    let ghost h = names_view(out@);
    let ghost f = |e: EpochDecl| seq![e.name.name@];
    let mut i: usize = 0;
    proof {
        assert(es@.subrange(0, 0) =~= Seq::<EpochDecl>::empty());
        lemma_add_empty(h);
    }
    while i < es.len()
        invariant
            i <= es@.len(),
            f == (|e: EpochDecl| seq![e.name.name@]),
            names_view(out@) == h + concat_map(es@.subrange(0, i as int), f),
        decreases es@.len() - i,
    {
        proof {
            lemma_concat_map_step(es@, i as int, f);
            lemma_names_push(out@, es@[i as int].name.name);
        }
        out.push(es[i].name.name.clone());
        i += 1;
    }
    proof {
        assert(es@.subrange(0, i as int) =~= es@);
    }
}

/// The names of every actor declared in the project.
pub fn collect_actor_types(project: &Project) -> (r: Vec<String>)
    ensures
        names_view(r@) == actor_names(project.spec_modules()),
{
    let ghost mods = project.spec_modules();
    let ghost fm = |m: ModuleAggregate| concat_map(m.decls@, |d: Decl| decl_actor_names(d));
    let ghost fd = |d: Decl| decl_actor_names(d);
    let mut out: Vec<String> = Vec::new();
    let n = modules_len(&project.modules);
    let mut i: usize = 0;
    proof {
        assert(mods.subrange(0, 0) =~= Seq::<ModuleAggregate>::empty());
        assert(names_view(out@) =~= Seq::<Seq<char>>::empty());
    }
    while i < n
        invariant
            n == mods.len(),
            mods == project.spec_modules(),
            i <= n,
            fm == (|m: ModuleAggregate| concat_map(m.decls@, |d: Decl| decl_actor_names(d))),
            fd == (|d: Decl| decl_actor_names(d)),
            names_view(out@) == concat_map(mods.subrange(0, i as int), fm),
        decreases n - i,
    {
        match modules_get_index(&project.modules, i) {
            Some((_key, module)) => {
                proof {
                    assert(*module == mods[i as int]);
                }
                let ghost head = names_view(out@);
                let mut j: usize = 0;
                proof {
                    assert(module.decls@.subrange(0, 0) =~= Seq::<Decl>::empty());
                    lemma_add_empty(head);
                }
                while j < module.decls.len()
                    invariant
                        j <= module.decls@.len(),
                        fd == (|d: Decl| decl_actor_names(d)),
                        names_view(out@) == head + concat_map(module.decls@.subrange(0, j as int), fd),
                    decreases module.decls@.len() - j,
                {
                    proof {
                        lemma_concat_map_step(module.decls@, j as int, fd);
                    }
                    match &module.decls[j] {
                        Decl::Actor(a) => {
                            proof {
                                lemma_names_push(out@, a.name.name);
                            }
                            out.push(a.name.name.clone());
                        },
                        _ => {
                            proof {
                                lemma_add_empty(names_view(out@));
                            }
                        },
                    }
                    j += 1;
                }
                proof {
                    assert(module.decls@.subrange(0, j as int) =~= module.decls@);
                    lemma_concat_map_step(mods, i as int, fm);
                }
            },
            None => {},
        }
        i += 1;
    }
    proof {
        assert(mods.subrange(0, i as int) =~= mods);
    }
    out
}

/// The names of every epoch declared by a substrate or partial substrate.
pub fn collect_declared_epochs(project: &Project) -> (r: Vec<String>)
    ensures
        names_view(r@) == epoch_names(project.spec_modules()),
{
    let ghost mods = project.spec_modules();
    let ghost fm = |m: ModuleAggregate| concat_map(m.decls@, |d: Decl| decl_epoch_names(d));
    let ghost fd = |d: Decl| decl_epoch_names(d);
    let mut out: Vec<String> = Vec::new();
    let n = modules_len(&project.modules);
    let mut i: usize = 0;
    proof {
        assert(mods.subrange(0, 0) =~= Seq::<ModuleAggregate>::empty());
        assert(names_view(out@) =~= Seq::<Seq<char>>::empty());
    }
    while i < n
        invariant
            n == mods.len(),
            mods == project.spec_modules(),
            i <= n,
            fm == (|m: ModuleAggregate| concat_map(m.decls@, |d: Decl| decl_epoch_names(d))),
            fd == (|d: Decl| decl_epoch_names(d)),
            names_view(out@) == concat_map(mods.subrange(0, i as int), fm),
        decreases n - i,
    {
        match modules_get_index(&project.modules, i) {
            Some((_key, module)) => {
                proof {
                    assert(*module == mods[i as int]);
                }
                let ghost head = names_view(out@);
                let mut j: usize = 0;
                proof {
                    assert(module.decls@.subrange(0, 0) =~= Seq::<Decl>::empty());
                    lemma_add_empty(head);
                }
                while j < module.decls.len()
                    invariant
                        j <= module.decls@.len(),
                        fd == (|d: Decl| decl_epoch_names(d)),
                        names_view(out@) == head + concat_map(module.decls@.subrange(0, j as int), fd),
                    decreases module.decls@.len() - j,
                {
                    proof {
                        lemma_concat_map_step(module.decls@, j as int, fd);
                    }
                    match &module.decls[j] {
                        Decl::Substrate(s) => push_names_of_epochs(&s.epochs, &mut out),
                        Decl::PartialSubstrate(p) => push_names_of_epochs(&p.block.epochs, &mut out),
                        _ => {
                            proof {
                                lemma_add_empty(names_view(out@));
                            }
                        },
                    }
                    j += 1;
                }
                proof {
                    assert(module.decls@.subrange(0, j as int) =~= module.decls@);
                    lemma_concat_map_step(mods, i as int, fm);
                }
            },
            None => {},
        }
        i += 1;
    }
    proof {
        assert(mods.subrange(0, i as int) =~= mods);
    }
    out
}

/// The three cross-slot checks over every surface of the project.
pub fn run(project: &Project) -> (r: Vec<Diagnostic>)
    ensures
        diags_view(r@) == cross_slot_diags(project.spec_modules()),
{
    let actor_types = collect_actor_types(project);
    let declared_epochs = collect_declared_epochs(project);
    let ghost mods = project.spec_modules();
    let ghost av = actor_names(mods);
    let ghost ev = epoch_names(mods);
    let ghost fm = |m: ModuleAggregate| concat_map(m.decls@, |d: Decl| decl_cross_diags(d, av, ev));
    let ghost fd = |d: Decl| decl_cross_diags(d, av, ev);
    let mut out: Vec<Diagnostic> = Vec::new();
    let n = modules_len(&project.modules);
    let mut i: usize = 0;
    proof {
        assert(mods.subrange(0, 0) =~= Seq::<ModuleAggregate>::empty());
        assert(diags_view(out@) =~= Seq::<DiagnosticView>::empty());
    }
    while i < n
        invariant
            n == mods.len(),
            mods == project.spec_modules(),
            i <= n,
            names_view(actor_types@) == av,
            names_view(declared_epochs@) == ev,
            fm == (|m: ModuleAggregate| concat_map(m.decls@, |d: Decl| decl_cross_diags(d, av, ev))),
            fd == (|d: Decl| decl_cross_diags(d, av, ev)),
            diags_view(out@) == concat_map(mods.subrange(0, i as int), fm),
        decreases n - i,
    {
        match modules_get_index(&project.modules, i) {
            Some((_key, module)) => {
                proof {
                    assert(*module == mods[i as int]);
                }
                let ghost head = diags_view(out@);
                let mut j: usize = 0;
                proof {
                    assert(module.decls@.subrange(0, 0) =~= Seq::<Decl>::empty());
                    assert(head + concat_map(Seq::<Decl>::empty(), fd) =~= head);
                }
                while j < module.decls.len()
                    invariant
                        j <= module.decls@.len(),
                        names_view(actor_types@) == av,
                        names_view(declared_epochs@) == ev,
                        fd == (|d: Decl| decl_cross_diags(d, av, ev)),
                        diags_view(out@) == head + concat_map(module.decls@.subrange(0, j as int), fd),
                    decreases module.decls@.len() - j,
                {
                    proof {
                        lemma_concat_map_step(module.decls@, j as int, fd);
                    }
                    match &module.decls[j] {
                        Decl::Surface(s) => {
                            let ghost h0 = diags_view(out@);
                            check_secret_flow(s, &mut out);
                            check_actor_view_leak(s, &actor_types, &mut out);
                            check_freshness_epochs(s, &declared_epochs, &mut out);
                            proof {
                                assert(diags_view(out@) =~= h0 + cross_surface_diags(*s, av, ev));
                            }
                        },
                        _ => push_empty(&out),
                    }
                    j += 1;
                }
                proof {
                    assert(module.decls@.subrange(0, j as int) =~= module.decls@);
                    lemma_concat_map_step(mods, i as int, fm);
                }
            },
            None => {},
        }
        i += 1;
    }
    proof {
        assert(mods.subrange(0, i as int) =~= mods);
        assert(fm == (|m: ModuleAggregate| concat_map(m.decls@,
            |d: Decl| decl_cross_diags(d, actor_names(mods), epoch_names(mods)))));
    }
    out
}

} // verus!
