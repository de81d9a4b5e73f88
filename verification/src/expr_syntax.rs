//! Expressions read off their syntax trees.

use vstd::prelude::*;
use crate::cst::{CstNode, field_index, first_child_index, named_of_kind, node_span, node_text, source_range};
use crate::diagnostic::{Diagnostic, DiagnosticView, diags_view, plain};
use crate::expr::{AggregateExpr, AggregatorKind, BinOp, BinderPattern, Binding, CallArg, ComprehensionBinder, Expr,
    ExprKind, MatchArm, MatchPattern, PathAccessor, PathExpr, RecordFieldInit, UnaryOp};
use crate::ident::{Ident, QualifiedName};
use crate::slot_syntax::{is_comment, spec_parse_u64, parse_u64};
use crate::span::{FileId, Span};
use crate::text::{cat, owned, str_eq};
use crate::cst::text_of;
use crate::syntax::spec_trim;
use crate::type_syntax::{generics_have_base, type_diags, type_is, internal, internal_error, find_field,
    lemma_all_generics, convert_type_expr};

verus! {

// ---- plain facts about nodes ----

pub open spec fn is_content(c: CstNode) -> bool {
    c.named && !is_comment(c)
}

pub open spec fn lit(e: Expr, k: ExprKind, span: Span) -> bool {
    e.span == span && *e.kind == k
}

pub open spec fn id_is(id: Ident, name: Seq<char>, span: Span) -> bool {
    id.name@ == name && id.span == span
}

pub open spec fn nid_is(id: Ident, c: CstNode, src: Seq<char>, file: FileId) -> bool {
    id_is(id, node_text(c, src), node_span(c, file))
}

/// `id` is the identifier in field `f` of `n`, or `dflt` at `span`.
pub open spec fn fid(id: Ident, n: CstNode, f: Seq<char>, dflt: Seq<char>, span: Span, src: Seq<char>, file: FileId) -> bool {
    match field_index(n.children@, f) {
        Some(j) => nid_is(id, n.children@[j], src, file),
        None => id_is(id, dflt, span),
    }
}

/// Field `f1`, else field `f2`, else `dflt` at `span`.
pub open spec fn fid2(id: Ident, n: CstNode, f1: Seq<char>, f2: Seq<char>, dflt: Seq<char>, span: Span,
    src: Seq<char>, file: FileId) -> bool {
    match field_index(n.children@, f1) {
        Some(j) => nid_is(id, n.children@[j], src, file),
        None => fid(id, n, f2, dflt, span, src, file),
    }
}

pub open spec fn placeholder_is(k: ExprKind, n: CstNode) -> bool {
    k matches ExprKind::LitString(s) && s@ == "<unhandled:"@ + n.kind@ + ">"@
}

pub open spec fn has_field(n: CstNode, f: Seq<char>) -> bool {
    field_index(n.children@, f) is Some
}

/// What `str::parse::<i64>` accepts: an optional sign, then one or more
/// ASCII digits whose value fits in an `i64`.
pub open spec fn spec_parse_i64(s: Seq<char>) -> Option<i64> {
    let neg = s.len() > 0 && s[0] == '-';
    let d = if s.len() > 0 && (s[0] == '+' || s[0] == '-') { s.drop_first() } else { s };
    if d.len() > 0 && crate::slot_syntax::all_digits(d) {
        let v = crate::slot_syntax::digits_value(d);
        let x = if neg { -v } else { v };
        if i64::MIN <= x <= i64::MAX { Some(x as i64) } else { None }
    } else {
        None
    }
}

/// What `str::parse::<u32>` accepts.
pub open spec fn spec_parse_u32(s: Seq<char>) -> Option<u32> {
    match spec_parse_u64(s) {
        Some(v) => if v <= u32::MAX { Some(v as u32) } else { None },
        None => None,
    }
}

/// A string literal's text without its `"""` or `"` delimiters.
pub open spec fn string_text(raw: Seq<char>) -> Seq<char> {
    let q3 = seq!['"', '"', '"'];
    if raw.len() >= 6 && raw.subrange(0, 3) == q3 && raw.subrange(raw.len() - 3, raw.len() as int) == q3 {
        raw.subrange(3, raw.len() - 3)
    } else if raw.len() >= 2 && raw[0] == '"' && raw[raw.len() - 1] == '"' {
        raw.subrange(1, raw.len() - 1)
    } else {
        raw
    }
}

/// Text after a leading `.`, if it has one.
pub open spec fn after_dot(t: Seq<char>) -> Seq<char> {
    if t.len() > 0 && t[0] == '.' { t.drop_first() } else { t }
}

pub open spec fn tuple_index(c: CstNode, src: Seq<char>) -> u32 {
    match spec_parse_u32(after_dot(node_text(c, src))) {
        Some(v) => v,
        None => 0,
    }
}

pub open spec fn spec_op(t: Seq<char>) -> Option<BinOp> {
    if t == "=="@ { Some(BinOp::Eq) }
    else if t == "!="@ { Some(BinOp::NotEq) }
    else if t == "<"@ { Some(BinOp::Lt) }
    else if t == "<="@ { Some(BinOp::LtEq) }
    else if t == ">"@ { Some(BinOp::Gt) }
    else if t == ">="@ { Some(BinOp::GtEq) }
    else if t == "+"@ { Some(BinOp::Add) }
    else if t == "-"@ { Some(BinOp::Sub) }
    else if t == "*"@ { Some(BinOp::Mul) }
    else if t == "/"@ { Some(BinOp::Div) }
    else if t == "&&"@ { Some(BinOp::And) }
    else if t == "||"@ { Some(BinOp::Or) }
    else if t == "=>"@ { Some(BinOp::Implies) }
    else if t == "in"@ { Some(BinOp::In) }
    else if t == "not in"@ { Some(BinOp::NotIn) }
    else if t == "union"@ { Some(BinOp::Union) }
    else if t == "intersect"@ { Some(BinOp::Intersect) }
    else if t == "diff"@ { Some(BinOp::Diff) }
    else if t == ":+"@ { Some(BinOp::SeqSnoc) }
    else if t == "subset"@ { Some(BinOp::Subset) }
    else { None }
}

/// How each binary operator is written.
pub open spec fn binop_text(o: BinOp) -> Seq<char> {
    match o {
        BinOp::Eq => "=="@, BinOp::NotEq => "!="@, BinOp::Lt => "<"@, BinOp::LtEq => "<="@,
        BinOp::Gt => ">"@, BinOp::GtEq => ">="@, BinOp::Add => "+"@, BinOp::Sub => "-"@,
        BinOp::Mul => "*"@, BinOp::Div => "/"@, BinOp::And => "&&"@, BinOp::Or => "||"@,
        BinOp::Implies => "=>"@, BinOp::In => "in"@, BinOp::NotIn => "not in"@, BinOp::Union => "union"@,
        BinOp::Intersect => "intersect"@, BinOp::Diff => "diff"@, BinOp::SeqSnoc => ":+"@, BinOp::Subset => "subset"@,
    }
}

/// Operator text reads as the operator it spells: every operator is read
/// from the way it is written (`>=` as `GtEq`, `>` as `Gt`, ...), and an
/// operator is read only from that text, so distinct texts never read as
/// the same operator.
pub proof fn lemma_operator_text_reads_as_its_operator(o: BinOp, t: Seq<char>)
    ensures
        spec_op(binop_text(o)) == Some(o),
        spec_op(t) == Some(o) ==> t == binop_text(o),
{
    reveal_strlit("==");
    assert("=="@.len() == 2 && "=="@[0] == '=' && "=="@[1] == '=');
    reveal_strlit("!=");
    assert("!="@.len() == 2 && "!="@[0] == '!' && "!="@[1] == '=');
    reveal_strlit("<");
    assert("<"@.len() == 1 && "<"@[0] == '<');
    reveal_strlit("<=");
    assert("<="@.len() == 2 && "<="@[0] == '<' && "<="@[1] == '=');
    reveal_strlit(">");
    assert(">"@.len() == 1 && ">"@[0] == '>');
    reveal_strlit(">=");
    assert(">="@.len() == 2 && ">="@[0] == '>' && ">="@[1] == '=');
    reveal_strlit("+");
    assert("+"@.len() == 1 && "+"@[0] == '+');
    reveal_strlit("-");
    assert("-"@.len() == 1 && "-"@[0] == '-');
    reveal_strlit("*");
    assert("*"@.len() == 1 && "*"@[0] == '*');
    reveal_strlit("/");
    assert("/"@.len() == 1 && "/"@[0] == '/');
    reveal_strlit("&&");
    assert("&&"@.len() == 2 && "&&"@[0] == '&' && "&&"@[1] == '&');
    reveal_strlit("||");
    assert("||"@.len() == 2 && "||"@[0] == '|' && "||"@[1] == '|');
    reveal_strlit("=>");
    assert("=>"@.len() == 2 && "=>"@[0] == '=' && "=>"@[1] == '>');
    reveal_strlit("in");
    assert("in"@.len() == 2 && "in"@[0] == 'i' && "in"@[1] == 'n');
    reveal_strlit("not in");
    assert("not in"@.len() == 6 && "not in"@[0] == 'n' && "not in"@[1] == 'o' && "not in"@[2] == 't' && "not in"@[3] == ' ' && "not in"@[4] == 'i' && "not in"@[5] == 'n');
    reveal_strlit("union");
    assert("union"@.len() == 5 && "union"@[0] == 'u' && "union"@[1] == 'n' && "union"@[2] == 'i' && "union"@[3] == 'o' && "union"@[4] == 'n');
    reveal_strlit("intersect");
    assert("intersect"@.len() == 9 && "intersect"@[0] == 'i' && "intersect"@[1] == 'n' && "intersect"@[2] == 't' && "intersect"@[3] == 'e' && "intersect"@[4] == 'r' && "intersect"@[5] == 's' && "intersect"@[6] == 'e' && "intersect"@[7] == 'c' && "intersect"@[8] == 't');
    reveal_strlit("diff");
    assert("diff"@.len() == 4 && "diff"@[0] == 'd' && "diff"@[1] == 'i' && "diff"@[2] == 'f' && "diff"@[3] == 'f');
    reveal_strlit(":+");
    assert(":+"@.len() == 2 && ":+"@[0] == ':' && ":+"@[1] == '+');
    reveal_strlit("subset");
    assert("subset"@.len() == 6 && "subset"@[0] == 's' && "subset"@[1] == 'u' && "subset"@[2] == 'b' && "subset"@[3] == 's' && "subset"@[4] == 'e' && "subset"@[5] == 't');
}

/// The first and last content children (used for positions only).
pub open spec fn first_content_node(cs: Seq<CstNode>) -> Option<CstNode>
    decreases cs.len(),
{
    if cs.len() == 0 { None } else if is_content(cs[0]) { Some(cs[0]) } else { first_content_node(cs.drop_first()) }
}

pub open spec fn last_content_node(cs: Seq<CstNode>) -> Option<CstNode>
    decreases cs.len(),
{
    if cs.len() == 0 { None } else if is_content(cs.last()) { Some(cs.last()) } else { last_content_node(cs.drop_last()) }
}

pub open spec fn content_count(cs: Seq<CstNode>) -> nat
    decreases cs.len(),
{
    if cs.len() == 0 { 0 } else { content_count(cs.drop_last()) + if is_content(cs.last()) { 1nat } else { 0nat } }
}

/// The operator text of a binary node: the trimmed source between its
/// first and last operands.
pub open spec fn op_text(n: CstNode, src: Seq<char>) -> Seq<char> {
    spec_trim(source_range(src, first_content_node(n.children@).unwrap().end as int,
        last_content_node(n.children@).unwrap().start as int))
}

/// The qualified name a `qualified_name` node spells.
pub open spec fn qn_is(q: QualifiedName, c: CstNode, src: Seq<char>, file: FileId) -> bool {
    let ks = named_of_kind(c.children@, "identifier"@);
    &&& ks.len() > 0 ==> q.segments@.len() == ks.len() && forall|i: int| 0 <= i < ks.len()
        ==> #[trigger] nid_is(q.segments@[i], ks[i], src, file)
    &&& ks.len() == 0 ==> q.segments@.len() == 1 && id_is(q.segments@[0], "<missing>"@, node_span(c, file))
    &&& q.span == q.segments@[0].span.spec_merge(q.segments@.last().span)
}

pub open spec fn is_path_kind(k: Seq<char>) -> bool {
    k == "field_access"@ || k == "dotted_field"@ || k == "dotted_index"@ || k == "indexed_path"@
        || k == "realization_path"@ || k == "channel_path"@ || k == "fairness_path"@ || k == "index_expr"@
}


// ---- the expression a node denotes ----

pub open spec fn expr_is(e: Expr, n: CstNode, src: Seq<char>, file: FileId) -> bool
    decreases n, 5int,
{
    e.span == node_span(n, file) && ekind_is(*e.kind, n, src, file)
}

/// Which of the expression forms a node kind names (0: none).
pub open spec fn kind_tag(kd: Seq<char>) -> u8 {
    if kd == "number"@ { 1 }
    else if kd == "bool_lit"@ { 2 }
    else if kd == "string"@ { 3 }
    else if kd == "none_lit"@ { 4 }
    else if kd == "identifier"@ { 5 }
    else if kd == "identifier_expr"@ || kd == "parenthesized"@ { 6 }
    else if kd == "param_ref"@ { 7 }
    else if kd == "qualified_name"@ { 8 }
    else if is_path_kind(kd) { 9 }
    else if kd == "tuple_expr"@ { 10 }
    else if kd == "set_expr"@ { 11 }
    else if kd == "seq_literal"@ { 12 }
    else if kd == "record_expr"@ { 13 }
    else if kd == "map_literal"@ { 14 }
    else if kd == "empty_brace_expr"@ { 15 }
    else if kd == "binary_expr"@ || kd == "binary_expr_no_in"@ { 16 }
    else if kd == "neg_expr"@ || kd == "neg_expr_no_in"@ { 17 }
    else if kd == "not_expr"@ || kd == "not_expr_no_in"@ { 18 }
    else if kd == "cardinality_expr"@ { 19 }
    else if kd == "forall_expr"@ || kd == "exists_expr"@ { 20 }
    else if kd == "comprehension"@ { 21 }
    else if kd == "choose_expr"@ || kd == "choose_expr_no_in"@ { 22 }
    else if kd == "aggregate_expr"@ { 23 }
    else if kd == "if_expr"@ { 24 }
    else if kd == "match_expr"@ { 25 }
    else if kd == "if_let_expr"@ { 26 }
    else if kd == "let_expr"@ { 27 }
    else if kd == "call_expr"@ || kd == "slot_call"@ { 28 }
    else if kd == "some_call"@ { 29 }
    else { 0 }
}

pub open spec fn ekind_is(k: ExprKind, n: CstNode, src: Seq<char>, file: FileId) -> bool
    decreases n, 4int,
{
    let t = node_text(n, src);
    let span = node_span(n, file);
    let cs = n.children@;
    let tag = kind_tag(n.kind@);
    if tag == 1 {
        match spec_parse_u64(t) {
            Some(v) => k == ExprKind::LitNat(v),
            None => match spec_parse_i64(t) {
                Some(v) => k == ExprKind::LitInt(v),
                None => k matches ExprKind::LitString(s) && s@ == t,
            },
        }
    } else if tag == 2 {
        k == ExprKind::LitBool(t == "true"@)
    } else if tag == 3 {
        k matches ExprKind::LitString(s) && s@ == string_text(t)
    } else if tag == 4 {
        k == ExprKind::LitNone
    } else if tag == 5 {
        k matches ExprKind::Ident(id) && nid_is(id, n, src, file)
    } else if tag == 6 {
        ckind_is(k, cs, n, src, file)
    } else if tag == 7 {
        match first_child_index(cs, "identifier"@) {
            Some(j) => k matches ExprKind::Path(p) && id_is(p.head, "param"@, span) && p.accessors@.len() == 1
                && (p.accessors@[0] matches PathAccessor::Field(id) && nid_is(id, cs[j], src, file)),
            None => placeholder_is(k, n),
        }
    } else if tag == 8 {
        qexpr_is(k, n, src, file)
    } else if tag == 9 {
        k matches ExprKind::Path(p) && path_is(p.head, p.accessors@, n, src, file)
    } else if tag == 10 {
        k matches ExprKind::Tuple(es) && cexprs_is(es@, cs, src, file)
    } else if tag == 11 {
        k matches ExprKind::SetLit(es) && cexprs_is(es@, cs, src, file)
    } else if tag == 12 {
        k matches ExprKind::SeqLit(es) && cexprs_is(es@, cs, src, file)
    } else if tag == 13 {
        k matches ExprKind::Record(fs) && rfields_is(fs@, cs, src, file)
    } else if tag == 14 {
        k matches ExprKind::MapLit(ps) && entries_is(ps@, cs, src, file)
    } else if tag == 15 {
        k matches ExprKind::SetLit(es) && es@.len() == 0
    } else if tag == 16 {
        binary_is(k, n, src, file)
    } else if tag == 17 {
        k matches ExprKind::UnaryOp(op, e) && op == UnaryOp::Neg && cnth_is(e, cs, 0, span, src, file)
    } else if tag == 18 {
        k matches ExprKind::UnaryOp(op, e) && op == UnaryOp::Not && cnth_is(e, cs, 0, span, src, file)
    } else if tag == 19 {
        k matches ExprKind::Cardinality(e) && cnth_is(e, cs, 0, span, src, file)
    } else if tag == 20 {
        quant_is(k, n, src, file)
    } else if tag == 21 {
        compr_is(k, n, src, file)
    } else if tag == 22 {
        choose_is(k, n, src, file)
    } else if tag == 23 {
        aggr_is(k, n, src, file)
    } else if tag == 24 {
        k matches ExprKind::IfThenElse { cond, then_branch, else_branch }
            && field_or(cond, n, "cond"@, ExprKind::LitBool(false), span, src, file)
            && field_or(then_branch, n, "then"@, ExprKind::LitNone, span, src, file)
            && field_or(else_branch, n, "else"@, ExprKind::LitNone, span, src, file)
    } else if tag == 25 {
        k matches ExprKind::Match { scrutinee, arms }
            && field_or(scrutinee, n, "scrutinee"@, ExprKind::LitNone, span, src, file)
            && arms_is(arms@, cs, src, file)
    } else if tag == 26 {
        k matches ExprKind::IfLetSome { name, source, then_branch, else_branch }
            && fid2(name, n, "binding"@, "var"@, "<missing>"@, span, src, file)
            && field2_or(source, n, "value"@, "source"@, ExprKind::LitNone, span, src, file)
            && field_or(then_branch, n, "then"@, ExprKind::LitNone, span, src, file)
            && field_or(else_branch, n, "else"@, ExprKind::LitNone, span, src, file)
    } else if tag == 27 {
        k matches ExprKind::Let { name, value, body }
            && fid2(name, n, "name"@, "var"@, "<missing>"@, span, src, file)
            && field_or(value, n, "value"@, ExprKind::LitNone, span, src, file)
            && field_or(body, n, "body"@, ExprKind::LitNone, span, src, file)
    } else if tag == 28 {
        call_is(k, n, src, file)
    } else if tag == 29 {
        k matches ExprKind::Some_(e) && cnth_is(e, cs, 0, span, src, file)
    } else {
        placeholder_is(k, n)
    }
}

/// A `qualified_name` in expression position: one identifier, or a path
/// of fields.
pub open spec fn qexpr_is(k: ExprKind, n: CstNode, src: Seq<char>, file: FileId) -> bool {
    let ks = named_of_kind(n.children@, "identifier"@);
    if ks.len() <= 1 {
        k matches ExprKind::Ident(id) && if ks.len() == 1 { nid_is(id, ks[0], src, file) } else { id_is(id, "<missing>"@, node_span(n, file)) }
    } else {
        k matches ExprKind::Path(p) && nid_is(p.head, ks[0], src, file) && p.accessors@.len() == ks.len() - 1
            && forall|i: int| 0 <= i < p.accessors@.len() ==>
                (#[trigger] p.accessors@[i] matches PathAccessor::Field(id) && nid_is(id, ks[i + 1], src, file))
    }
}

/// The kind of the first content child, or the placeholder for `outer`.
pub open spec fn ckind_is(k: ExprKind, cs: Seq<CstNode>, outer: CstNode, src: Seq<char>, file: FileId) -> bool
    decreases cs, 0int,
{
    if cs.len() == 0 {
        placeholder_is(k, outer)
    } else if is_content(cs[0]) {
        ekind_is(k, cs[0], src, file)
    } else {
        ckind_is(k, cs.subrange(1, cs.len() as int), outer, src, file)
    }
}

/// The expression of the `i`-th content child, or `LitNone` at `span`.
pub open spec fn cnth_is(e: Expr, cs: Seq<CstNode>, i: nat, span: Span, src: Seq<char>, file: FileId) -> bool
    decreases cs, 0int,
{
    if cs.len() == 0 {
        lit(e, ExprKind::LitNone, span)
    } else if is_content(cs[0]) {
        if i == 0 { expr_is(e, cs[0], src, file) } else { cnth_is(e, cs.subrange(1, cs.len() as int), (i - 1) as nat, span, src, file) }
    } else {
        cnth_is(e, cs.subrange(1, cs.len() as int), i, span, src, file)
    }
}

/// The expression of the last content child.
pub open spec fn clast_is(e: Expr, cs: Seq<CstNode>, src: Seq<char>, file: FileId) -> bool
    decreases cs, 0int,
{
    if cs.len() == 0 {
        false
    } else if is_content(cs.last()) {
        expr_is(e, cs.last(), src, file)
    } else {
        clast_is(e, cs.drop_last(), src, file)
    }
}

/// The expressions of the content children, in order.
pub open spec fn cexprs_is(es: Seq<Expr>, cs: Seq<CstNode>, src: Seq<char>, file: FileId) -> bool
    decreases cs, 0int,
{
    if cs.len() == 0 {
        es.len() == 0
    } else if is_content(cs.last()) {
        es.len() > 0 && expr_is(es.last(), cs.last(), src, file) && cexprs_is(es.drop_last(), cs.drop_last(), src, file)
    } else {
        cexprs_is(es, cs.drop_last(), src, file)
    }
}

/// The expression of the first child filling field `f`.
pub open spec fn fexpr_is(e: Expr, cs: Seq<CstNode>, f: Seq<char>, src: Seq<char>, file: FileId) -> bool
    decreases cs, 0int,
{
    if cs.len() == 0 {
        false
    } else if cs[0].field matches Some(g) && g@ == f {
        expr_is(e, cs[0], src, file)
    } else {
        fexpr_is(e, cs.subrange(1, cs.len() as int), f, src, file)
    }
}

/// The expression in field `f`, or `dflt` at `span`.
pub open spec fn field_or(e: Expr, n: CstNode, f: Seq<char>, dflt: ExprKind, span: Span, src: Seq<char>, file: FileId) -> bool
    decreases n, 2int,
{
    if has_field(n, f) { fexpr_is(e, n.children@, f, src, file) } else { lit(e, dflt, span) }
}

pub open spec fn field2_or(e: Expr, n: CstNode, f1: Seq<char>, f2: Seq<char>, dflt: ExprKind, span: Span,
    src: Seq<char>, file: FileId) -> bool
    decreases n, 2int,
{
    if has_field(n, f1) {
        fexpr_is(e, n.children@, f1, src, file)
    } else if has_field(n, f2) {
        fexpr_is(e, n.children@, f2, src, file)
    } else {
        lit(e, dflt, span)
    }
}

pub open spec fn ofield_is(o: Option<Expr>, n: CstNode, f: Seq<char>, src: Seq<char>, file: FileId) -> bool
    decreases n, 2int,
{
    if has_field(n, f) { o matches Some(e) && fexpr_is(e, n.children@, f, src, file) } else { o is None }
}

pub open spec fn ofield2_is(o: Option<Expr>, n: CstNode, f1: Seq<char>, f2: Seq<char>, src: Seq<char>, file: FileId) -> bool
    decreases n, 2int,
{
    if has_field(n, f1) {
        o matches Some(e) && fexpr_is(e, n.children@, f1, src, file)
    } else if has_field(n, f2) {
        o matches Some(e) && fexpr_is(e, n.children@, f2, src, file)
    } else {
        o is None
    }
}

// ---- records, maps ----

pub open spec fn rfields_is(fs: Seq<RecordFieldInit>, cs: Seq<CstNode>, src: Seq<char>, file: FileId) -> bool
    decreases cs, 0int,
{
    if cs.len() == 0 {
        fs.len() == 0
    } else if cs.last().named && cs.last().kind@ == "record_field"@ {
        fs.len() > 0 && rfield_is(fs.last(), cs.last(), src, file) && rfields_is(fs.drop_last(), cs.drop_last(), src, file)
    } else {
        rfields_is(fs, cs.drop_last(), src, file)
    }
}

pub open spec fn rfield_is(f: RecordFieldInit, c: CstNode, src: Seq<char>, file: FileId) -> bool
    decreases c, 3int,
{
    &&& f.span == node_span(c, file)
    &&& fid(f.name, c, "name"@, "<missing>"@, node_span(c, file), src, file)
    &&& field_or(f.value, c, "value"@, ExprKind::LitNone, node_span(c, file), src, file)
}

pub open spec fn entries_is(ps: Seq<(Expr, Expr)>, cs: Seq<CstNode>, src: Seq<char>, file: FileId) -> bool
    decreases cs, 0int,
{
    if cs.len() == 0 {
        ps.len() == 0
    } else if cs.last().named && cs.last().kind@ == "map_literal_entry"@ {
        ps.len() > 0 && entry_is(ps.last(), cs.last(), src, file) && entries_is(ps.drop_last(), cs.drop_last(), src, file)
    } else {
        entries_is(ps, cs.drop_last(), src, file)
    }
}

pub open spec fn entry_is(p: (Expr, Expr), c: CstNode, src: Seq<char>, file: FileId) -> bool
    decreases c, 3int,
{
    cnth_is(p.0, c.children@, 0, node_span(c, file), src, file) && cnth_is(p.1, c.children@, 1, node_span(c, file), src, file)
}

// ---- binary operators ----

/// The result of a binary node whose operands are `l` and `r` and whose
/// operator text is `t`.
pub open spec fn bin_result(k: ExprKind, l: Expr, r: Expr, t: Seq<char>) -> bool {
    match spec_op(t) {
        Some(o) => k == ExprKind::BinOp(o, l, r),
        None => if t == "cross"@ {
            k == ExprKind::Cross(l, r)
        } else if t == "is"@ {
            match *r.kind {
                ExprKind::Ident(name) => k == ExprKind::IsTest(l, name),
                _ => k == ExprKind::LitBool(false),
            }
        } else {
            k == ExprKind::LitNone
        },
    }
}

pub open spec fn binary_is(k: ExprKind, n: CstNode, src: Seq<char>, file: FileId) -> bool
    decreases n, 3int,
{
    if content_count(n.children@) < 2 {
        k == ExprKind::LitNone
    } else {
        exists|l: Expr, r: Expr| #![trigger bin_result(k, l, r, op_text(n, src))]
            cnth_is(l, n.children@, 0, node_span(n, file), src, file) && clast_is(r, n.children@, src, file)
            && bin_result(k, l, r, op_text(n, src))
    }
}

// ---- quantifiers, comprehensions, choose ----

pub open spec fn quant_is(k: ExprKind, n: CstNode, src: Seq<char>, file: FileId) -> bool
    decreases n, 3int,
{
    let span = node_span(n, file);
    match k {
        ExprKind::Forall(b, body) => n.kind@ == "forall_expr"@ && binding_is(b, n.children@, span, src, file)
            && field_or(body, n, "body"@, ExprKind::LitBool(true), span, src, file),
        ExprKind::Exists(b, body) => n.kind@ != "forall_expr"@ && binding_is(b, n.children@, span, src, file)
            && field_or(body, n, "body"@, ExprKind::LitBool(true), span, src, file),
        _ => false,
    }
}

/// The binding of the first named `binder` child.
pub open spec fn binding_is(b: Binding, cs: Seq<CstNode>, span: Span, src: Seq<char>, file: FileId) -> bool
    decreases cs, 0int,
{
    if cs.len() == 0 {
        id_is(b.name, "<missing>"@, span) && lit(b.domain, ExprKind::LitNone, span) && b.span == b.name.span
    } else if cs[0].named && cs[0].kind@ == "binder"@ {
        fid(b.name, cs[0], "name"@, "<missing>"@, span, src, file)
            && field_or(b.domain, cs[0], "source"@, ExprKind::LitNone, span, src, file) && b.span == b.name.span
    } else {
        binding_is(b, cs.subrange(1, cs.len() as int), span, src, file)
    }
}

/// A body child of a comprehension: content, neither binder nor arrow.
pub open spec fn is_body_kid(c: CstNode) -> bool {
    is_content(c) && c.kind@ != "comp_binder"@ && c.kind@ != "comp_map_arrow"@
}

/// The expression of the `i`-th body child, or `LitNone` at `span`.
pub open spec fn bnth_is(e: Expr, cs: Seq<CstNode>, i: nat, span: Span, src: Seq<char>, file: FileId) -> bool
    decreases cs, 0int,
{
    if cs.len() == 0 {
        lit(e, ExprKind::LitNone, span)
    } else if is_body_kid(cs[0]) {
        if i == 0 { expr_is(e, cs[0], src, file) } else { bnth_is(e, cs.subrange(1, cs.len() as int), (i - 1) as nat, span, src, file) }
    } else {
        bnth_is(e, cs.subrange(1, cs.len() as int), i, span, src, file)
    }
}

/// The expression of the `i`-th body child, if there is one.
pub open spec fn bnth_opt(o: Option<Expr>, cs: Seq<CstNode>, i: nat, src: Seq<char>, file: FileId) -> bool
    decreases cs, 0int,
{
    if cs.len() == 0 {
        o is None
    } else if is_body_kid(cs[0]) {
        if i == 0 { o matches Some(e) && expr_is(e, cs[0], src, file) } else { bnth_opt(o, cs.subrange(1, cs.len() as int), (i - 1) as nat, src, file) }
    } else {
        bnth_opt(o, cs.subrange(1, cs.len() as int), i, src, file)
    }
}

pub open spec fn compr_is(k: ExprKind, n: CstNode, src: Seq<char>, file: FileId) -> bool
    decreases n, 3int,
{
    let span = node_span(n, file);
    let cs = n.children@;
    if first_child_index(cs, "comp_map_arrow"@) is Some {
        k matches ExprKind::MapComprehension { binders, predicate, key, value }
            && cbinders_is(binders@, cs, src, file)
            && bnth_is(key, cs, 0, span, src, file) && bnth_is(value, cs, 1, span, src, file)
            && bnth_opt(predicate, cs, 2, src, file)
    } else {
        k matches ExprKind::SetComprehension { binders, predicate, body }
            && cbinders_is(binders@, cs, src, file)
            && bnth_is(body, cs, 0, span, src, file) && bnth_opt(predicate, cs, 1, src, file)
    }
}

pub open spec fn cbinders_is(bs: Seq<ComprehensionBinder>, cs: Seq<CstNode>, src: Seq<char>, file: FileId) -> bool
    decreases cs, 0int,
{
    if cs.len() == 0 {
        bs.len() == 0
    } else if cs.last().named && cs.last().kind@ == "comp_binder"@ {
        bs.len() > 0 && cbinder_is(bs.last(), cs.last(), src, file) && cbinders_is(bs.drop_last(), cs.drop_last(), src, file)
    } else {
        cbinders_is(bs, cs.drop_last(), src, file)
    }
}

/// The pattern `pn` spells in binder `c`.
pub open spec fn pat_node_is(p: BinderPattern, pn: CstNode, c: CstNode, src: Seq<char>, file: FileId) -> bool {
    if pn.kind@ == "identifier"@ {
        p matches BinderPattern::Name(id, ty) && nid_is(id, pn, src, file) && match field_index(c.children@, "type"@) {
            Some(j) => ty matches Some(t) && type_is(t, c.children@[j], src, file),
            None => ty is None,
        }
    } else if pn.kind@ == "tuple_pattern"@ {
        let ks = named_of_kind(pn.children@, "identifier"@);
        p matches BinderPattern::Tuple(ids) && ids@.len() == ks.len()
            && forall|i: int| 0 <= i < ks.len() ==> #[trigger] nid_is(ids@[i], ks[i], src, file)
    } else {
        p matches BinderPattern::Name(id, ty) && id_is(id, "<missing>"@, node_span(c, file)) && ty is None
    }
}

pub open spec fn pattern_is(p: BinderPattern, c: CstNode, src: Seq<char>, file: FileId) -> bool {
    match field_index(c.children@, "name"@) {
        Some(j) => pat_node_is(p, c.children@[j], c, src, file),
        None => match field_index(c.children@, "pattern"@) {
            Some(j) => pat_node_is(p, c.children@[j], c, src, file),
            None => p matches BinderPattern::Name(id, ty) && id_is(id, "<missing>"@, node_span(c, file)) && ty is None,
        },
    }
}

pub open spec fn cbinder_is(b: ComprehensionBinder, c: CstNode, src: Seq<char>, file: FileId) -> bool
    decreases c, 3int,
{
    &&& b.span == node_span(c, file)
    &&& pattern_is(b.pattern, c, src, file)
    &&& field2_or(b.domain, c, "source"@, "domain"@, ExprKind::LitNone, node_span(c, file), src, file)
}

pub open spec fn choose_is(k: ExprKind, n: CstNode, src: Seq<char>, file: FileId) -> bool
    decreases n, 3int,
{
    let span = node_span(n, file);
    if has_field(n, "source"@) || has_field(n, "domain"@) {
        k matches ExprKind::ChooseBounded { name, domain, predicate }
            && fid(name, n, "var"@, "<missing>"@, span, src, file)
            && field_or(predicate, n, "predicate"@, ExprKind::LitBool(true), span, src, file)
            && field2_or(domain, n, "source"@, "domain"@, ExprKind::LitNone, span, src, file)
    } else if has_field(n, "type"@) {
        k matches ExprKind::ChooseTyped { name, ty, predicate }
            && fid(name, n, "var"@, "<missing>"@, span, src, file)
            && field_or(predicate, n, "predicate"@, ExprKind::LitBool(true), span, src, file)
            && type_is(ty, n.children@[field_index(n.children@, "type"@).unwrap()], src, file)
    } else {
        k matches ExprKind::ChooseBounded { name, domain, predicate }
            && fid(name, n, "var"@, "<missing>"@, span, src, file)
            && field_or(predicate, n, "predicate"@, ExprKind::LitBool(true), span, src, file)
            && lit(domain, ExprKind::LitNone, span)
    }
}

// ---- aggregates ----

pub open spec fn aggregator_of(a: AggregatorKind, c: CstNode, src: Seq<char>, file: FileId) -> bool {
    let t = node_text(c, src);
    if c.kind@ == "concat_seq_aggregator"@ {
        a matches AggregatorKind::ConcatSeq { order_by } && fid(order_by, c, "order_by"@, "<missing>"@, node_span(c, file), src, file)
    } else if t == "forall"@ {
        a == AggregatorKind::Forall
    } else if t == "sum"@ {
        a == AggregatorKind::Sum
    } else if t == "max"@ {
        a == AggregatorKind::Max
    } else if t == "min"@ {
        a == AggregatorKind::Min
    } else if t == "union_set"@ {
        a == AggregatorKind::UnionSet
    } else {
        a == AggregatorKind::Exists
    }
}

pub open spec fn aggr_is(k: ExprKind, n: CstNode, src: Seq<char>, file: FileId) -> bool
    decreases n, 3int,
{
    let span = node_span(n, file);
    let cs = n.children@;
    k matches ExprKind::Aggregate(a) && {
        &&& a.span == span
        &&& field2_or(a.expr, n, "body"@, "expr"@, ExprKind::LitNone, span, src, file)
        &&& ofield_is(a.scope, n, "scope"@, src, file)
        &&& match field_index(cs, "aggregator"@) {
            Some(j) => aggregator_of(a.aggregator, cs[j], src, file),
            None => a.aggregator == AggregatorKind::Exists,
        }
        &&& ofield2_is(a.fallback, n, "else"@, "fallback"@, src, file)
        &&& match field_index(cs, "component"@) {
            Some(j) => qn_is(a.component, cs[j], src, file),
            None => a.component.segments@.len() == 1 && id_is(a.component.segments@[0], "<aggregate>"@, span)
                && a.component.span == span,
        }
        &&& fid(a.binder, n, "binder"@, "_"@, span, src, file)
    }
}

// ---- match ----

/// The identifier of a `some_call` pattern: its first content child, or
/// `<missing>` at the call.
pub open spec fn some_ident_is(id: Ident, q: CstNode, src: Seq<char>, file: FileId) -> bool {
    match first_content_node(q.children@) {
        Some(c) => nid_is(id, c, src, file),
        None => id_is(id, "<missing>"@, node_span(q, file)),
    }
}

pub open spec fn match_pattern_is(mp: MatchPattern, c: CstNode, src: Seq<char>, file: FileId) -> bool {
    match field_index(c.children@, "pattern"@) {
        Some(j) => {
            let p = c.children@[j];
            if p.kind@ == "match_pattern"@ {
                match first_content_node(p.children@) {
                    Some(q) => if q.kind@ == "some_call"@ {
                        mp matches MatchPattern::Some_(id) && some_ident_is(id, q, src, file)
                    } else if q.kind@ == "none_lit"@ {
                        mp == MatchPattern::None_
                    } else {
                        mp == MatchPattern::Wildcard
                    },
                    None => mp == MatchPattern::Wildcard,
                }
            } else if p.kind@ == "none_lit"@ {
                mp == MatchPattern::None_
            } else if p.kind@ == "some_call"@ {
                mp matches MatchPattern::Some_(id) && some_ident_is(id, p, src, file)
            } else {
                mp == MatchPattern::Wildcard
            }
        },
        None => mp == MatchPattern::Wildcard,
    }
}

pub open spec fn arms_is(arms: Seq<MatchArm>, cs: Seq<CstNode>, src: Seq<char>, file: FileId) -> bool
    decreases cs, 0int,
{
    if cs.len() == 0 {
        arms.len() == 0
    } else if cs.last().named && cs.last().kind@ == "match_arm"@ {
        arms.len() > 0 && arm_is(arms.last(), cs.last(), src, file) && arms_is(arms.drop_last(), cs.drop_last(), src, file)
    } else {
        arms_is(arms, cs.drop_last(), src, file)
    }
}

pub open spec fn arm_is(a: MatchArm, c: CstNode, src: Seq<char>, file: FileId) -> bool
    decreases c, 3int,
{
    &&& a.span == node_span(c, file)
    &&& match_pattern_is(a.pattern, c, src, file)
    &&& field_or(a.body, c, "body"@, ExprKind::LitNone, node_span(c, file), src, file)
}

// ---- calls ----

pub open spec fn carg_is(a: CallArg, c: CstNode, src: Seq<char>, file: FileId) -> bool
    decreases c, 3int,
{
    &&& a.span == node_span(c, file)
    &&& match field_index(c.children@, "name"@) {
        Some(j) => a.name matches Some(id) && nid_is(id, c.children@[j], src, file),
        None => a.name is None,
    }
    &&& if has_field(c, "value"@) {
        fexpr_is(a.value, c.children@, "value"@, src, file)
    } else {
        cnth_is(a.value, c.children@, 0, node_span(c, file), src, file)
    }
}

/// The arguments written as content children of a `call_args` node.
pub open spec fn cargs_content_is(args: Seq<CallArg>, cs: Seq<CstNode>, src: Seq<char>, file: FileId) -> bool
    decreases cs, 0int,
{
    if cs.len() == 0 {
        args.len() == 0
    } else if is_content(cs.last()) {
        args.len() > 0 && carg_is(args.last(), cs.last(), src, file) && cargs_content_is(args.drop_last(), cs.drop_last(), src, file)
    } else {
        cargs_content_is(args, cs.drop_last(), src, file)
    }
}

/// The arguments written as `call_arg` or `named_arg` children.
pub open spec fn cargs_kinds_is(args: Seq<CallArg>, cs: Seq<CstNode>, src: Seq<char>, file: FileId) -> bool
    decreases cs, 0int,
{
    if cs.len() == 0 {
        args.len() == 0
    } else if cs.last().named && (cs.last().kind@ == "call_arg"@ || cs.last().kind@ == "named_arg"@) {
        args.len() > 0 && carg_is(args.last(), cs.last(), src, file) && cargs_kinds_is(args.drop_last(), cs.drop_last(), src, file)
    } else {
        cargs_kinds_is(args, cs.drop_last(), src, file)
    }
}

/// The arguments of the first named `call_args` child.
pub open spec fn cargs_walk_is(args: Seq<CallArg>, cs: Seq<CstNode>, src: Seq<char>, file: FileId) -> bool
    decreases cs, 0int,
{
    if cs.len() == 0 {
        false
    } else if cs[0].named && cs[0].kind@ == "call_args"@ {
        cargs_content_is(args, cs[0].children@, src, file)
    } else {
        cargs_walk_is(args, cs.subrange(1, cs.len() as int), src, file)
    }
}

pub open spec fn call_args_is(args: Seq<CallArg>, n: CstNode, src: Seq<char>, file: FileId) -> bool
    decreases n, 2int,
{
    if first_child_index(n.children@, "call_args"@) is Some {
        cargs_walk_is(args, n.children@, src, file)
    } else {
        cargs_kinds_is(args, n.children@, src, file)
    }
}

/// What a call with callee `c` and arguments `args` becomes: the
/// event-log helpers by name and arity, else a plain call.
pub open spec fn call_result(k: ExprKind, c: Expr, args: Seq<CallArg>) -> bool {
    let m = args.len();
    let plain_call = k matches ExprKind::Call { callee, args: v } && callee == c && v@ == args;
    match *c.kind {
        ExprKind::Ident(id) => {
            let nm = id.name@;
            if nm == "events_before"@ && m == 1 {
                k == ExprKind::EventsBefore(args[0].value)
            } else if nm == "events_after"@ && m == 1 {
                k == ExprKind::EventsAfter(args[0].value)
            } else if nm == "between"@ && m == 2 {
                k == ExprKind::Between(args[0].value, args[1].value)
            } else if nm == "first"@ && m == 1 {
                k == ExprKind::FirstUnbounded(args[0].value)
            } else if nm == "first"@ && m == 2 {
                k == ExprKind::FirstBounded(args[0].value, args[1].value)
            } else if nm == "last"@ && m == 1 {
                k == ExprKind::LastUnbounded(args[0].value)
            } else if nm == "last"@ && m == 2 {
                k == ExprKind::LastBounded(args[0].value, args[1].value)
            } else if nm == "count"@ && m == 1 {
                k == ExprKind::CountUnbounded(args[0].value)
            } else if nm == "count"@ && m == 2 {
                k == ExprKind::CountBounded(args[0].value, args[1].value)
            } else if nm == "state_at"@ && m == 1 {
                k == ExprKind::StateAt(args[0].value)
            } else {
                plain_call
            }
        },
        _ => plain_call,
    }
}

pub open spec fn call_is(k: ExprKind, n: CstNode, src: Seq<char>, file: FileId) -> bool
    decreases n, 3int,
{
    exists|c: Expr, args: Seq<CallArg>| #![trigger call_result(k, c, args)]
        field_or(c, n, "callee"@, ExprKind::LitNone, node_span(n, file), src, file)
        && call_args_is(args, n, src, file) && call_result(k, c, args)
}

// ---- paths ----

pub open spec fn is_dotted(c: CstNode) -> bool {
    c.named && (c.kind@ == "dotted_field"@ || c.kind@ == "dotted_index"@)
}

pub open spec fn local_count(cs: Seq<CstNode>) -> nat
    decreases cs.len(),
{
    if cs.len() == 0 { 0 } else { local_count(cs.drop_last()) + if is_dotted(cs.last()) { 1nat } else { 0nat } }
}

/// The accessor a `dotted_field` or `dotted_index` child stands for.
pub open spec fn dacc_is(a: PathAccessor, c: CstNode, src: Seq<char>, file: FileId) -> bool {
    if c.kind@ == "dotted_field"@ {
        a matches PathAccessor::Field(id) && id_is(id, after_dot(node_text(c, src)), node_span(c, file))
    } else {
        a == PathAccessor::TupleIndex(tuple_index(c, src))
    }
}

/// The accessors of the `dotted_field` / `dotted_index` children, last
/// child first.
pub open spec fn local_accs_is(part: Seq<PathAccessor>, cs: Seq<CstNode>, src: Seq<char>, file: FileId) -> bool
    decreases cs.len(),
{
    if cs.len() == 0 {
        part.len() == 0
    } else if is_dotted(cs.last()) {
        part.len() > 0 && dacc_is(part[0], cs.last(), src, file)
            && local_accs_is(part.subrange(1, part.len() as int), cs.drop_last(), src, file)
    } else {
        local_accs_is(part, cs.drop_last(), src, file)
    }
}

/// `h` and `accs` are the head and accessors the path node `n` spells:
/// accessors of deeper nodes come first.
pub open spec fn path_is(h: Ident, accs: Seq<PathAccessor>, n: CstNode, src: Seq<char>, file: FileId) -> bool
    decreases n, 3int,
{
    let kd = n.kind@;
    let cs = n.children@;
    let span = node_span(n, file);
    if kd == "field_access"@ || kd == "dotted_field"@ {
        let m = local_count(cs);
        accs.len() >= m && local_accs_is(accs.subrange(accs.len() - m, accs.len() as int), cs, src, file)
            && base_is(h, accs.subrange(0, accs.len() - m), n, src, file)
    } else if kd == "dotted_index"@ {
        id_is(h, "<missing>"@, span) && accs == seq![PathAccessor::TupleIndex(tuple_index(n, src))]
    } else if kd == "index_expr"@ || kd == "indexed_path"@ {
        if has_field(n, "index"@) {
            accs.len() >= 1 && (accs.last() matches PathAccessor::Index(e) && fexpr_is(e, cs, "index"@, src, file))
                && base_is(h, accs.drop_last(), n, src, file)
        } else {
            base_is(h, accs, n, src, file)
        }
    } else if kd == "identifier"@ {
        nid_is(h, n, src, file) && accs.len() == 0
    } else if kd == "qualified_name"@ {
        let ks = named_of_kind(cs, "identifier"@);
        if ks.len() == 0 {
            id_is(h, "<missing>"@, span) && accs.len() == 0
        } else {
            nid_is(h, ks[0], src, file) && accs.len() == ks.len() - 1
                && forall|i: int| 0 <= i < accs.len() ==>
                    (#[trigger] accs[i] matches PathAccessor::Field(id) && nid_is(id, ks[ks.len() - 1 - i], src, file))
        }
    } else {
        cpath_is(h, accs, cs, span, src, file)
    }
}

pub open spec fn base_is(h: Ident, pre: Seq<PathAccessor>, n: CstNode, src: Seq<char>, file: FileId) -> bool
    decreases n, 2int,
{
    if has_field(n, "object"@) {
        fpath_is(h, pre, n.children@, "object"@, src, file)
    } else if has_field(n, "base"@) {
        fpath_is(h, pre, n.children@, "base"@, src, file)
    } else {
        id_is(h, "<missing>"@, node_span(n, file)) && pre.len() == 0
    }
}

pub open spec fn fpath_is(h: Ident, pre: Seq<PathAccessor>, cs: Seq<CstNode>, f: Seq<char>, src: Seq<char>, file: FileId) -> bool
    decreases cs, 0int,
{
    if cs.len() == 0 {
        false
    } else if cs[0].field matches Some(g) && g@ == f {
        path_is(h, pre, cs[0], src, file)
    } else {
        fpath_is(h, pre, cs.subrange(1, cs.len() as int), f, src, file)
    }
}

pub open spec fn cpath_is(h: Ident, accs: Seq<PathAccessor>, cs: Seq<CstNode>, span: Span, src: Seq<char>, file: FileId) -> bool
    decreases cs, 0int,
{
    if cs.len() == 0 {
        id_is(h, "<missing>"@, span) && accs.len() == 0
    } else if is_content(cs[0]) {
        path_is(h, accs, cs[0], src, file)
    } else {
        cpath_is(h, accs, cs.subrange(1, cs.len() as int), span, src, file)
    }
}

// ---- the diagnostics of reading an expression ----

pub open spec fn expr_diags(n: CstNode, src: Seq<char>, file: FileId) -> Seq<DiagnosticView>
    decreases n, 5int,
{
    ekind_diags(n, src, file)
}

pub open spec fn ekind_diags(n: CstNode, src: Seq<char>, file: FileId) -> Seq<DiagnosticView>
    decreases n, 4int,
{
    let cs = n.children@;
    let tag = kind_tag(n.kind@);
    if tag == 6 {
        ckind_diags(cs, src, file)
    } else if tag == 9 {
        path_diags(n, src, file)
    } else if tag == 10 || tag == 11 || tag == 12 {
        cexprs_diags(cs, src, file)
    } else if tag == 13 {
        rfields_diags(cs, src, file)
    } else if tag == 14 {
        entries_diags(cs, src, file)
    } else if tag == 16 {
        binary_diags(n, src, file)
    } else if tag == 17 || tag == 18 || tag == 19 || tag == 29 {
        cnth_diags(cs, 0, src, file)
    } else if tag == 20 {
        binding_diags(cs, src, file) + field_diags(n, "body"@, src, file)
    } else if tag == 21 {
        compr_diags(n, src, file)
    } else if tag == 22 {
        choose_diags(n, src, file)
    } else if tag == 23 {
        field2_diags(n, "body"@, "expr"@, src, file) + field_diags(n, "scope"@, src, file)
            + field2_diags(n, "else"@, "fallback"@, src, file)
    } else if tag == 24 {
        field_diags(n, "cond"@, src, file) + field_diags(n, "then"@, src, file) + field_diags(n, "else"@, src, file)
    } else if tag == 25 {
        field_diags(n, "scrutinee"@, src, file) + arms_diags(cs, src, file)
    } else if tag == 26 {
        field2_diags(n, "value"@, "source"@, src, file) + field_diags(n, "then"@, src, file) + field_diags(n, "else"@, src, file)
    } else if tag == 27 {
        field_diags(n, "value"@, src, file) + field_diags(n, "body"@, src, file)
    } else if tag == 28 {
        field_diags(n, "callee"@, src, file) + call_args_diags(n, src, file)
    } else {
        Seq::empty()
    }
}

pub open spec fn ckind_diags(cs: Seq<CstNode>, src: Seq<char>, file: FileId) -> Seq<DiagnosticView>
    decreases cs, 0int,
{
    if cs.len() == 0 {
        Seq::empty()
    } else if is_content(cs[0]) {
        ekind_diags(cs[0], src, file)
    } else {
        ckind_diags(cs.subrange(1, cs.len() as int), src, file)
    }
}

pub open spec fn cnth_diags(cs: Seq<CstNode>, i: nat, src: Seq<char>, file: FileId) -> Seq<DiagnosticView>
    decreases cs, 0int,
{
    if cs.len() == 0 {
        Seq::empty()
    } else if is_content(cs[0]) {
        if i == 0 { expr_diags(cs[0], src, file) } else { cnth_diags(cs.subrange(1, cs.len() as int), (i - 1) as nat, src, file) }
    } else {
        cnth_diags(cs.subrange(1, cs.len() as int), i, src, file)
    }
}

pub open spec fn clast_diags(cs: Seq<CstNode>, src: Seq<char>, file: FileId) -> Seq<DiagnosticView>
    decreases cs, 0int,
{
    if cs.len() == 0 {
        Seq::empty()
    } else if is_content(cs.last()) {
        expr_diags(cs.last(), src, file)
    } else {
        clast_diags(cs.drop_last(), src, file)
    }
}

pub open spec fn cexprs_diags(cs: Seq<CstNode>, src: Seq<char>, file: FileId) -> Seq<DiagnosticView>
    decreases cs, 0int,
{
    if cs.len() == 0 {
        Seq::empty()
    } else if is_content(cs.last()) {
        cexprs_diags(cs.drop_last(), src, file) + expr_diags(cs.last(), src, file)
    } else {
        cexprs_diags(cs.drop_last(), src, file)
    }
}

pub open spec fn fexpr_diags(cs: Seq<CstNode>, f: Seq<char>, src: Seq<char>, file: FileId) -> Seq<DiagnosticView>
    decreases cs, 0int,
{
    if cs.len() == 0 {
        Seq::empty()
    } else if cs[0].field matches Some(g) && g@ == f {
        expr_diags(cs[0], src, file)
    } else {
        fexpr_diags(cs.subrange(1, cs.len() as int), f, src, file)
    }
}

pub open spec fn field_diags(n: CstNode, f: Seq<char>, src: Seq<char>, file: FileId) -> Seq<DiagnosticView>
    decreases n, 2int,
{
    fexpr_diags(n.children@, f, src, file)
}

pub open spec fn field2_diags(n: CstNode, f1: Seq<char>, f2: Seq<char>, src: Seq<char>, file: FileId) -> Seq<DiagnosticView>
    decreases n, 2int,
{
    if has_field(n, f1) { fexpr_diags(n.children@, f1, src, file) } else { fexpr_diags(n.children@, f2, src, file) }
}

pub open spec fn rfields_diags(cs: Seq<CstNode>, src: Seq<char>, file: FileId) -> Seq<DiagnosticView>
    decreases cs, 0int,
{
    if cs.len() == 0 {
        Seq::empty()
    } else if cs.last().named && cs.last().kind@ == "record_field"@ {
        rfields_diags(cs.drop_last(), src, file) + field_diags(cs.last(), "value"@, src, file)
    } else {
        rfields_diags(cs.drop_last(), src, file)
    }
}

pub open spec fn entries_diags(cs: Seq<CstNode>, src: Seq<char>, file: FileId) -> Seq<DiagnosticView>
    decreases cs, 0int,
{
    if cs.len() == 0 {
        Seq::empty()
    } else if cs.last().named && cs.last().kind@ == "map_literal_entry"@ {
        entries_diags(cs.drop_last(), src, file) + entry_diags(cs.last(), src, file)
    } else {
        entries_diags(cs.drop_last(), src, file)
    }
}

pub open spec fn entry_diags(c: CstNode, src: Seq<char>, file: FileId) -> Seq<DiagnosticView>
    decreases c, 3int,
{
    cnth_diags(c.children@, 0, src, file) + cnth_diags(c.children@, 1, src, file)
}

pub open spec fn binary_diags(n: CstNode, src: Seq<char>, file: FileId) -> Seq<DiagnosticView>
    decreases n, 3int,
{
    let t = op_text(n, src);
    if content_count(n.children@) < 2 {
        Seq::empty()
    } else {
        cnth_diags(n.children@, 0, src, file) + clast_diags(n.children@, src, file)
            + if spec_op(t) is None && t != "cross"@ && t != "is"@ {
                seq![internal("unknown binary op `"@ + t + "`"@, n, file)]
            } else {
                Seq::empty()
            }
    }
}

pub open spec fn binding_diags(cs: Seq<CstNode>, src: Seq<char>, file: FileId) -> Seq<DiagnosticView>
    decreases cs, 0int,
{
    if cs.len() == 0 {
        Seq::empty()
    } else if cs[0].named && cs[0].kind@ == "binder"@ {
        field_diags(cs[0], "source"@, src, file)
    } else {
        binding_diags(cs.subrange(1, cs.len() as int), src, file)
    }
}

pub open spec fn bnth_diags(cs: Seq<CstNode>, i: nat, src: Seq<char>, file: FileId) -> Seq<DiagnosticView>
    decreases cs, 0int,
{
    if cs.len() == 0 {
        Seq::empty()
    } else if is_body_kid(cs[0]) {
        if i == 0 { expr_diags(cs[0], src, file) } else { bnth_diags(cs.subrange(1, cs.len() as int), (i - 1) as nat, src, file) }
    } else {
        bnth_diags(cs.subrange(1, cs.len() as int), i, src, file)
    }
}

pub open spec fn compr_diags(n: CstNode, src: Seq<char>, file: FileId) -> Seq<DiagnosticView>
    decreases n, 3int,
{
    let cs = n.children@;
    if first_child_index(cs, "comp_map_arrow"@) is Some {
        cbinders_diags(cs, src, file) + bnth_diags(cs, 0, src, file) + bnth_diags(cs, 1, src, file) + bnth_diags(cs, 2, src, file)
    } else {
        cbinders_diags(cs, src, file) + bnth_diags(cs, 0, src, file) + bnth_diags(cs, 1, src, file)
    }
}

pub open spec fn cbinders_diags(cs: Seq<CstNode>, src: Seq<char>, file: FileId) -> Seq<DiagnosticView>
    decreases cs, 0int,
{
    if cs.len() == 0 {
        Seq::empty()
    } else if cs.last().named && cs.last().kind@ == "comp_binder"@ {
        cbinders_diags(cs.drop_last(), src, file) + cbinder_diags(cs.last(), src, file)
    } else {
        cbinders_diags(cs.drop_last(), src, file)
    }
}

/// The type of an identifier pattern's binder, if any.
pub open spec fn pattern_diags(c: CstNode, src: Seq<char>, file: FileId) -> Seq<DiagnosticView> {
    let pn = match field_index(c.children@, "name"@) {
        Some(j) => Some(c.children@[j]),
        None => match field_index(c.children@, "pattern"@) {
            Some(j) => Some(c.children@[j]),
            None => None,
        },
    };
    match pn {
        Some(p) => if p.kind@ == "identifier"@ {
            match field_index(c.children@, "type"@) {
                Some(j) => type_diags(c.children@[j], src, file),
                None => Seq::empty(),
            }
        } else {
            Seq::empty()
        },
        None => Seq::empty(),
    }
}

pub open spec fn pat_node_diags(pn: CstNode, c: CstNode, src: Seq<char>, file: FileId) -> Seq<DiagnosticView> {
    if pn.kind@ == "identifier"@ {
        match field_index(c.children@, "type"@) {
            Some(j) => type_diags(c.children@[j], src, file),
            None => Seq::empty(),
        }
    } else {
        Seq::empty()
    }
}

pub open spec fn cbinder_diags(c: CstNode, src: Seq<char>, file: FileId) -> Seq<DiagnosticView>
    decreases c, 3int,
{
    pattern_diags(c, src, file) + field2_diags(c, "source"@, "domain"@, src, file)
}

pub open spec fn choose_diags(n: CstNode, src: Seq<char>, file: FileId) -> Seq<DiagnosticView>
    decreases n, 3int,
{
    field_diags(n, "predicate"@, src, file) + if has_field(n, "source"@) || has_field(n, "domain"@) {
        field2_diags(n, "source"@, "domain"@, src, file)
    } else if has_field(n, "type"@) {
        type_diags(n.children@[field_index(n.children@, "type"@).unwrap()], src, file)
    } else {
        Seq::empty()
    }
}

pub open spec fn arms_diags(cs: Seq<CstNode>, src: Seq<char>, file: FileId) -> Seq<DiagnosticView>
    decreases cs, 0int,
{
    if cs.len() == 0 {
        Seq::empty()
    } else if cs.last().named && cs.last().kind@ == "match_arm"@ {
        arms_diags(cs.drop_last(), src, file) + field_diags(cs.last(), "body"@, src, file)
    } else {
        arms_diags(cs.drop_last(), src, file)
    }
}

pub open spec fn carg_diags(c: CstNode, src: Seq<char>, file: FileId) -> Seq<DiagnosticView>
    decreases c, 3int,
{
    if has_field(c, "value"@) { fexpr_diags(c.children@, "value"@, src, file) } else { cnth_diags(c.children@, 0, src, file) }
}

pub open spec fn cargs_content_diags(cs: Seq<CstNode>, src: Seq<char>, file: FileId) -> Seq<DiagnosticView>
    decreases cs, 0int,
{
    if cs.len() == 0 {
        Seq::empty()
    } else if is_content(cs.last()) {
        cargs_content_diags(cs.drop_last(), src, file) + carg_diags(cs.last(), src, file)
    } else {
        cargs_content_diags(cs.drop_last(), src, file)
    }
}

pub open spec fn cargs_kinds_diags(cs: Seq<CstNode>, src: Seq<char>, file: FileId) -> Seq<DiagnosticView>
    decreases cs, 0int,
{
    if cs.len() == 0 {
        Seq::empty()
    } else if cs.last().named && (cs.last().kind@ == "call_arg"@ || cs.last().kind@ == "named_arg"@) {
        cargs_kinds_diags(cs.drop_last(), src, file) + carg_diags(cs.last(), src, file)
    } else {
        cargs_kinds_diags(cs.drop_last(), src, file)
    }
}

pub open spec fn cargs_walk_diags(cs: Seq<CstNode>, src: Seq<char>, file: FileId) -> Seq<DiagnosticView>
    decreases cs, 0int,
{
    if cs.len() == 0 {
        Seq::empty()
    } else if cs[0].named && cs[0].kind@ == "call_args"@ {
        cargs_content_diags(cs[0].children@, src, file)
    } else {
        cargs_walk_diags(cs.subrange(1, cs.len() as int), src, file)
    }
}

pub open spec fn call_args_diags(n: CstNode, src: Seq<char>, file: FileId) -> Seq<DiagnosticView>
    decreases n, 2int,
{
    if first_child_index(n.children@, "call_args"@) is Some {
        cargs_walk_diags(n.children@, src, file)
    } else {
        cargs_kinds_diags(n.children@, src, file)
    }
}

pub open spec fn path_diags(n: CstNode, src: Seq<char>, file: FileId) -> Seq<DiagnosticView>
    decreases n, 3int,
{
    let kd = n.kind@;
    let cs = n.children@;
    if kd == "field_access"@ || kd == "dotted_field"@ {
        base_diags(n, src, file)
    } else if kd == "dotted_index"@ {
        Seq::empty()
    } else if kd == "index_expr"@ || kd == "indexed_path"@ {
        fexpr_diags(cs, "index"@, src, file) + base_diags(n, src, file)
    } else if kd == "identifier"@ || kd == "qualified_name"@ {
        Seq::empty()
    } else {
        cpath_diags(cs, src, file)
    }
}

pub open spec fn base_diags(n: CstNode, src: Seq<char>, file: FileId) -> Seq<DiagnosticView>
    decreases n, 2int,
{
    if has_field(n, "object"@) {
        fpath_diags(n.children@, "object"@, src, file)
    } else if has_field(n, "base"@) {
        fpath_diags(n.children@, "base"@, src, file)
    } else {
        Seq::empty()
    }
}

pub open spec fn fpath_diags(cs: Seq<CstNode>, f: Seq<char>, src: Seq<char>, file: FileId) -> Seq<DiagnosticView>
    decreases cs, 0int,
{
    if cs.len() == 0 {
        Seq::empty()
    } else if cs[0].field matches Some(g) && g@ == f {
        path_diags(cs[0], src, file)
    } else {
        fpath_diags(cs.subrange(1, cs.len() as int), f, src, file)
    }
}

pub open spec fn cpath_diags(cs: Seq<CstNode>, src: Seq<char>, file: FileId) -> Seq<DiagnosticView>
    decreases cs, 0int,
{
    if cs.len() == 0 {
        Seq::empty()
    } else if is_content(cs[0]) {
        path_diags(cs[0], src, file)
    } else {
        cpath_diags(cs.subrange(1, cs.len() as int), src, file)
    }
}

// ---- finding children ----

pub(crate) fn is_content_node(c: &CstNode) -> (r: bool)
    ensures
        r == is_content(*c),
{
    proof {
        reveal_strlit("line_comment");
        reveal_strlit("block_comment");
    }
    c.named && !str_eq(c.kind.as_str(), "line_comment") && !str_eq(c.kind.as_str(), "block_comment")
}

fn is_body_node(c: &CstNode) -> (r: bool)
    ensures
        r == is_body_kid(*c),
{
    proof {
        reveal_strlit("comp_binder");
        reveal_strlit("comp_map_arrow");
    }
    is_content_node(c) && !str_eq(c.kind.as_str(), "comp_binder") && !str_eq(c.kind.as_str(), "comp_map_arrow")
}

/// The `k`-th content child.
pub(crate) fn nth_content(node: &CstNode, k: usize, span: Ghost<Span>, src: Ghost<Seq<char>>, file: Ghost<FileId>) -> (r: Option<usize>)
    ensures
        match r {
            Some(i) => i < node.children@.len()
                && (forall|e: Expr| #[trigger] cnth_is(e, node.children@, k as nat, span@, src@, file@)
                    == expr_is(e, node.children@[i as int], src@, file@))
                && cnth_diags(node.children@, k as nat, src@, file@) == expr_diags(node.children@[i as int], src@, file@),
            None => (forall|e: Expr| #[trigger] cnth_is(e, node.children@, k as nat, span@, src@, file@)
                    == lit(e, ExprKind::LitNone, span@))
                && cnth_diags(node.children@, k as nat, src@, file@) == Seq::<DiagnosticView>::empty(),
        },
        k == 0 ==> match r {
            Some(i) => first_content_node(node.children@) == Some(node.children@[i as int]),
            None => first_content_node(node.children@) is None,
        },
{
    let ghost cs = node.children@;
    let n = node.children.len();
    let mut i: usize = 0;
    let mut rem: usize = k;
    proof {
        assert(cs.subrange(0, n as int) =~= cs);
    }
    while i < n
        invariant
            n == cs.len(),
            cs == node.children@,
            i <= n,
            rem <= k,
            forall|e: Expr| #[trigger] cnth_is(e, cs, k as nat, span@, src@, file@)
                == cnth_is(e, cs.subrange(i as int, n as int), rem as nat, span@, src@, file@),
            cnth_diags(cs, k as nat, src@, file@) == cnth_diags(cs.subrange(i as int, n as int), rem as nat, src@, file@),
            k == 0 ==> rem == 0 && first_content_node(cs) == first_content_node(cs.subrange(i as int, n as int)),
        decreases n - i,
    {
        let ghost sub = cs.subrange(i as int, n as int);
        proof {
            assert(sub[0] == cs[i as int]);
            assert(sub.subrange(1, sub.len() as int) =~= cs.subrange(i + 1, n as int));
        }
        proof {
            assert(sub.drop_first() =~= cs.subrange(i + 1, n as int));
        }
        if is_content_node(&node.children[i]) {
            if rem == 0 {
                proof {
                    assert forall|e: Expr| #[trigger] cnth_is(e, sub, 0, span@, src@, file@) == expr_is(e, cs[i as int], src@, file@) by {}
                }
                return Some(i);
            }
            proof {
                assert forall|e: Expr| #[trigger] cnth_is(e, sub, rem as nat, span@, src@, file@)
                    == cnth_is(e, cs.subrange(i + 1, n as int), (rem - 1) as nat, span@, src@, file@) by {}
            }
            rem = rem - 1;
        } else {
            proof {
                assert forall|e: Expr| #[trigger] cnth_is(e, sub, rem as nat, span@, src@, file@)
                    == cnth_is(e, cs.subrange(i + 1, n as int), rem as nat, span@, src@, file@) by {}
            }
        }
        i += 1;
    }
    proof {
        assert(cs.subrange(n as int, n as int) =~= Seq::<CstNode>::empty());
        assert forall|e: Expr| #[trigger] cnth_is(e, cs, k as nat, span@, src@, file@) == lit(e, ExprKind::LitNone, span@) by {
            assert(cnth_is(e, cs.subrange(n as int, n as int), rem as nat, span@, src@, file@) == lit(e, ExprKind::LitNone, span@));
        }
    }
    None
}

/// The `k`-th comprehension body child.
fn nth_body(node: &CstNode, k: usize, span: Ghost<Span>, src: Ghost<Seq<char>>, file: Ghost<FileId>) -> (r: Option<usize>)
    ensures
        match r {
            Some(i) => i < node.children@.len()
                && (forall|e: Expr| #[trigger] bnth_is(e, node.children@, k as nat, span@, src@, file@)
                    == expr_is(e, node.children@[i as int], src@, file@))
                && (forall|o: Option<Expr>| #[trigger] bnth_opt(o, node.children@, k as nat, src@, file@)
                    == (o matches Some(e) && expr_is(e, node.children@[i as int], src@, file@)))
                && bnth_diags(node.children@, k as nat, src@, file@) == expr_diags(node.children@[i as int], src@, file@),
            None => (forall|e: Expr| #[trigger] bnth_is(e, node.children@, k as nat, span@, src@, file@)
                    == lit(e, ExprKind::LitNone, span@))
                && (forall|o: Option<Expr>| #[trigger] bnth_opt(o, node.children@, k as nat, src@, file@) == (o is None))
                && bnth_diags(node.children@, k as nat, src@, file@) == Seq::<DiagnosticView>::empty(),
        },
{
    let ghost cs = node.children@;
    let n = node.children.len();
    let mut i: usize = 0;
    let mut rem: usize = k;
    proof {
        assert(cs.subrange(0, n as int) =~= cs);
    }
    while i < n
        invariant
            n == cs.len(),
            cs == node.children@,
            i <= n,
            rem <= k,
            forall|e: Expr| #[trigger] bnth_is(e, cs, k as nat, span@, src@, file@)
                == bnth_is(e, cs.subrange(i as int, n as int), rem as nat, span@, src@, file@),
            forall|o: Option<Expr>| #[trigger] bnth_opt(o, cs, k as nat, src@, file@)
                == bnth_opt(o, cs.subrange(i as int, n as int), rem as nat, src@, file@),
            bnth_diags(cs, k as nat, src@, file@) == bnth_diags(cs.subrange(i as int, n as int), rem as nat, src@, file@),
        decreases n - i,
    {
        let ghost sub = cs.subrange(i as int, n as int);
        proof {
            assert(sub[0] == cs[i as int]);
            assert(sub.subrange(1, sub.len() as int) =~= cs.subrange(i + 1, n as int));
        }
        if is_body_node(&node.children[i]) {
            if rem == 0 {
                proof {
                    assert forall|e: Expr| #[trigger] bnth_is(e, sub, 0, span@, src@, file@) == expr_is(e, cs[i as int], src@, file@) by {}
                    assert forall|o: Option<Expr>| #[trigger] bnth_opt(o, sub, 0, src@, file@)
                        == (o matches Some(e) && expr_is(e, cs[i as int], src@, file@)) by {}
                }
                return Some(i);
            }
            proof {
                assert forall|e: Expr| #[trigger] bnth_is(e, sub, rem as nat, span@, src@, file@)
                    == bnth_is(e, cs.subrange(i + 1, n as int), (rem - 1) as nat, span@, src@, file@) by {}
                assert forall|o: Option<Expr>| #[trigger] bnth_opt(o, sub, rem as nat, src@, file@)
                    == bnth_opt(o, cs.subrange(i + 1, n as int), (rem - 1) as nat, src@, file@) by {}
            }
            rem = rem - 1;
        } else {
            proof {
                assert forall|e: Expr| #[trigger] bnth_is(e, sub, rem as nat, span@, src@, file@)
                    == bnth_is(e, cs.subrange(i + 1, n as int), rem as nat, span@, src@, file@) by {}
                assert forall|o: Option<Expr>| #[trigger] bnth_opt(o, sub, rem as nat, src@, file@)
                    == bnth_opt(o, cs.subrange(i + 1, n as int), rem as nat, src@, file@) by {}
            }
        }
        i += 1;
    }
    proof {
        assert(cs.subrange(n as int, n as int) =~= Seq::<CstNode>::empty());
        assert forall|e: Expr| #[trigger] bnth_is(e, cs, k as nat, span@, src@, file@) == lit(e, ExprKind::LitNone, span@) by {
            assert(bnth_is(e, cs.subrange(n as int, n as int), rem as nat, span@, src@, file@) == lit(e, ExprKind::LitNone, span@));
        }
        assert forall|o: Option<Expr>| #[trigger] bnth_opt(o, cs, k as nat, src@, file@) == (o is None) by {
            assert(bnth_opt(o, cs.subrange(n as int, n as int), rem as nat, src@, file@) == (o is None));
        }
    }
    None
}

/// The first content child.
fn first_content_of(node: &CstNode, outer: Ghost<CstNode>, span: Ghost<Span>, src: Ghost<Seq<char>>, file: Ghost<FileId>)
    -> (r: Option<usize>)
    ensures
        match r {
            Some(i) => i < node.children@.len()
                && (forall|k: ExprKind| #[trigger] ckind_is(k, node.children@, outer@, src@, file@)
                    == ekind_is(k, node.children@[i as int], src@, file@))
                && ckind_diags(node.children@, src@, file@) == ekind_diags(node.children@[i as int], src@, file@)
                && (forall|h: Ident, a: Seq<PathAccessor>| #[trigger] cpath_is(h, a, node.children@, span@, src@, file@)
                    == path_is(h, a, node.children@[i as int], src@, file@))
                && cpath_diags(node.children@, src@, file@) == path_diags(node.children@[i as int], src@, file@),
            None => (forall|k: ExprKind| #[trigger] ckind_is(k, node.children@, outer@, src@, file@) == placeholder_is(k, outer@))
                && ckind_diags(node.children@, src@, file@) == Seq::<DiagnosticView>::empty()
                && (forall|h: Ident, a: Seq<PathAccessor>| #[trigger] cpath_is(h, a, node.children@, span@, src@, file@)
                    == (id_is(h, "<missing>"@, span@) && a.len() == 0))
                && cpath_diags(node.children@, src@, file@) == Seq::<DiagnosticView>::empty(),
        },
{
    let ghost cs = node.children@;
    let n = node.children.len();
    let mut i: usize = 0;
    proof {
        assert(cs.subrange(0, n as int) =~= cs);
    }
    while i < n
        invariant
            n == cs.len(),
            cs == node.children@,
            i <= n,
            forall|k: ExprKind| #[trigger] ckind_is(k, cs, outer@, src@, file@)
                == ckind_is(k, cs.subrange(i as int, n as int), outer@, src@, file@),
            ckind_diags(cs, src@, file@) == ckind_diags(cs.subrange(i as int, n as int), src@, file@),
            forall|h: Ident, a: Seq<PathAccessor>| #[trigger] cpath_is(h, a, cs, span@, src@, file@)
                == cpath_is(h, a, cs.subrange(i as int, n as int), span@, src@, file@),
            cpath_diags(cs, src@, file@) == cpath_diags(cs.subrange(i as int, n as int), src@, file@),
        decreases n - i,
    {
        let ghost sub = cs.subrange(i as int, n as int);
        proof {
            assert(sub[0] == cs[i as int]);
            assert(sub.subrange(1, sub.len() as int) =~= cs.subrange(i + 1, n as int));
        }
        if is_content_node(&node.children[i]) {
            proof {
                assert forall|k: ExprKind| #[trigger] ckind_is(k, sub, outer@, src@, file@) == ekind_is(k, cs[i as int], src@, file@) by {}
                assert forall|h: Ident, a: Seq<PathAccessor>| #[trigger] cpath_is(h, a, sub, span@, src@, file@)
                    == path_is(h, a, cs[i as int], src@, file@) by {}
            }
            return Some(i);
        }
        proof {
            assert forall|k: ExprKind| #[trigger] ckind_is(k, sub, outer@, src@, file@)
                == ckind_is(k, cs.subrange(i + 1, n as int), outer@, src@, file@) by {}
            assert forall|h: Ident, a: Seq<PathAccessor>| #[trigger] cpath_is(h, a, sub, span@, src@, file@)
                == cpath_is(h, a, cs.subrange(i + 1, n as int), span@, src@, file@) by {}
        }
        i += 1;
    }
    proof {
        let e = cs.subrange(n as int, n as int);
        assert(e =~= Seq::<CstNode>::empty());
        assert forall|k: ExprKind| #[trigger] ckind_is(k, cs, outer@, src@, file@) == placeholder_is(k, outer@) by {
            assert(ckind_is(k, e, outer@, src@, file@) == placeholder_is(k, outer@));
        }
        assert forall|h: Ident, a: Seq<PathAccessor>| #[trigger] cpath_is(h, a, cs, span@, src@, file@)
            == (id_is(h, "<missing>"@, span@) && a.len() == 0) by {
            assert(cpath_is(h, a, e, span@, src@, file@) == (id_is(h, "<missing>"@, span@) && a.len() == 0));
        }
    }
    None
}

/// The last content child, when there are at least two content children
/// the first of which is at `first`.
fn last_content_of(node: &CstNode, src: Ghost<Seq<char>>, file: Ghost<FileId>) -> (r: Option<usize>)
    ensures
        match r {
            Some(i) => i < node.children@.len() && last_content_node(node.children@) == Some(node.children@[i as int])
                && (forall|e: Expr| #[trigger] clast_is(e, node.children@, src@, file@)
                    == expr_is(e, node.children@[i as int], src@, file@))
                && clast_diags(node.children@, src@, file@) == expr_diags(node.children@[i as int], src@, file@),
            None => last_content_node(node.children@) is None,
        },
{
    let ghost cs = node.children@;
    let mut i: usize = node.children.len();
    proof {
        assert(cs.subrange(0, i as int) =~= cs);
    }
    while i > 0
        invariant
            i <= cs.len(),
            cs == node.children@,
            last_content_node(cs) == last_content_node(cs.subrange(0, i as int)),
            forall|e: Expr| #[trigger] clast_is(e, cs, src@, file@) == clast_is(e, cs.subrange(0, i as int), src@, file@),
            clast_diags(cs, src@, file@) == clast_diags(cs.subrange(0, i as int), src@, file@),
        decreases i,
    {
        let ghost sub = cs.subrange(0, i as int);
        proof {
            assert(sub.last() == cs[i - 1]);
            assert(sub.drop_last() =~= cs.subrange(0, i - 1));
        }
        if is_content_node(&node.children[i - 1]) {
            proof {
                assert forall|e: Expr| #[trigger] clast_is(e, sub, src@, file@) == expr_is(e, cs[i - 1], src@, file@) by {}
            }
            return Some(i - 1);
        }
        proof {
            assert forall|e: Expr| #[trigger] clast_is(e, sub, src@, file@) == clast_is(e, cs.subrange(0, i - 1), src@, file@) by {}
        }
        i -= 1;
    }
    proof {
        assert(cs.subrange(0, 0) =~= Seq::<CstNode>::empty());
    }
    None
}

/// The first named child of the given kind.
pub(crate) fn first_of_kind(node: &CstNode, kind: &str, src: Ghost<Seq<char>>, file: Ghost<FileId>, span: Ghost<Span>) -> (r: Option<usize>)
    ensures
        match r {
            Some(i) => first_child_index(node.children@, kind@) == Some(i as int) && i < node.children@.len(),
            None => first_child_index(node.children@, kind@) is None,
        },
        kind@ == "binder"@ ==> match r {
            Some(i) => (forall|b: Binding| #[trigger] binding_is(b, node.children@, span@, src@, file@)
                    == (fid(b.name, node.children@[i as int], "name"@, "<missing>"@, span@, src@, file@)
                        && field_or(b.domain, node.children@[i as int], "source"@, ExprKind::LitNone, span@, src@, file@)
                        && b.span == b.name.span))
                && binding_diags(node.children@, src@, file@) == field_diags(node.children@[i as int], "source"@, src@, file@),
            None => (forall|b: Binding| #[trigger] binding_is(b, node.children@, span@, src@, file@)
                    == (id_is(b.name, "<missing>"@, span@) && lit(b.domain, ExprKind::LitNone, span@) && b.span == b.name.span))
                && binding_diags(node.children@, src@, file@) == Seq::<DiagnosticView>::empty(),
        },
        kind@ == "call_args"@ ==> match r {
            Some(i) => (forall|a: Seq<CallArg>| #[trigger] cargs_walk_is(a, node.children@, src@, file@)
                    == cargs_content_is(a, node.children@[i as int].children@, src@, file@))
                && cargs_walk_diags(node.children@, src@, file@) == cargs_content_diags(node.children@[i as int].children@, src@, file@),
            None => true,
        },
{
    let ghost cs = node.children@;
    let n = node.children.len();
    let mut i: usize = 0;
    proof {
        crate::cst::lemma_first_child_index(cs, kind@);
        assert(cs.subrange(0, n as int) =~= cs);
    }
    while i < n
        invariant
            n == cs.len(),
            cs == node.children@,
            i <= n,
            forall|k: int| 0 <= k < i ==> !((#[trigger] cs[k]).named && cs[k].kind@ == kind@),
            first_child_index(cs, kind@) matches Some(j) ==> 0 <= j < cs.len() && cs[j].named && cs[j].kind@ == kind@
                && forall|k: int| 0 <= k < j ==> !((#[trigger] cs[k]).named && cs[k].kind@ == kind@),
            first_child_index(cs, kind@) is None ==> forall|k: int| 0 <= k < cs.len()
                ==> !((#[trigger] cs[k]).named && cs[k].kind@ == kind@),
            kind@ == "binder"@ ==> (forall|b: Binding| #[trigger] binding_is(b, cs, span@, src@, file@)
                == binding_is(b, cs.subrange(i as int, n as int), span@, src@, file@)),
            kind@ == "binder"@ ==> binding_diags(cs, src@, file@) == binding_diags(cs.subrange(i as int, n as int), src@, file@),
            kind@ == "call_args"@ ==> (forall|a: Seq<CallArg>| #[trigger] cargs_walk_is(a, cs, src@, file@)
                == cargs_walk_is(a, cs.subrange(i as int, n as int), src@, file@)),
            kind@ == "call_args"@ ==> cargs_walk_diags(cs, src@, file@) == cargs_walk_diags(cs.subrange(i as int, n as int), src@, file@),
        decreases n - i,
    {
        let ghost sub = cs.subrange(i as int, n as int);
        proof {
            assert(sub[0] == cs[i as int]);
            assert(sub.subrange(1, sub.len() as int) =~= cs.subrange(i + 1, n as int));
        }
        let c = &node.children[i];
        if c.named && str_eq(c.kind.as_str(), kind) {
            proof {
                let j = first_child_index(cs, kind@);
                if let Some(jj) = j {
                    if jj < i {
                        assert(!(cs[jj].named && cs[jj].kind@ == kind@));
                    }
                    if jj > i {
                        assert(!(cs[i as int].named && cs[i as int].kind@ == kind@));
                    }
                }
                if kind@ == "binder"@ {
                    assert forall|b: Binding| #[trigger] binding_is(b, sub, span@, src@, file@)
                        == (fid(b.name, cs[i as int], "name"@, "<missing>"@, span@, src@, file@)
                            && field_or(b.domain, cs[i as int], "source"@, ExprKind::LitNone, span@, src@, file@)
                            && b.span == b.name.span) by {}
                }
                if kind@ == "call_args"@ {
                    assert forall|a: Seq<CallArg>| #[trigger] cargs_walk_is(a, sub, src@, file@)
                        == cargs_content_is(a, cs[i as int].children@, src@, file@) by {}
                }
            }
            return Some(i);
        }
        proof {
            if kind@ == "binder"@ {
                assert forall|b: Binding| #[trigger] binding_is(b, sub, span@, src@, file@)
                    == binding_is(b, cs.subrange(i + 1, n as int), span@, src@, file@) by {}
            }
            if kind@ == "call_args"@ {
                assert forall|a: Seq<CallArg>| #[trigger] cargs_walk_is(a, sub, src@, file@)
                    == cargs_walk_is(a, cs.subrange(i + 1, n as int), src@, file@) by {}
            }
        }
        i += 1;
    }
    proof {
        let e = cs.subrange(n as int, n as int);
        assert(e =~= Seq::<CstNode>::empty());
        if kind@ == "binder"@ {
            assert forall|b: Binding| #[trigger] binding_is(b, cs, span@, src@, file@)
                == (id_is(b.name, "<missing>"@, span@) && lit(b.domain, ExprKind::LitNone, span@) && b.span == b.name.span) by {
                assert(binding_is(b, e, span@, src@, file@)
                    == (id_is(b.name, "<missing>"@, span@) && lit(b.domain, ExprKind::LitNone, span@) && b.span == b.name.span));
            }
        }
    }
    None
}

/// The field walkers read the child `field_index` names.
proof fn lemma_field_walk(cs: Seq<CstNode>, f: Seq<char>, src: Seq<char>, file: FileId)
    ensures
        match field_index(cs, f) {
            Some(j) => {
                &&& 0 <= j < cs.len()
                &&& forall|e: Expr| #[trigger] fexpr_is(e, cs, f, src, file) == expr_is(e, cs[j], src, file)
                &&& fexpr_diags(cs, f, src, file) == expr_diags(cs[j], src, file)
                &&& forall|h: Ident, a: Seq<PathAccessor>| #[trigger] fpath_is(h, a, cs, f, src, file) == path_is(h, a, cs[j], src, file)
                &&& fpath_diags(cs, f, src, file) == path_diags(cs[j], src, file)
            },
            None => {
                &&& forall|e: Expr| !#[trigger] fexpr_is(e, cs, f, src, file)
                &&& fexpr_diags(cs, f, src, file) == Seq::<DiagnosticView>::empty()
                &&& fpath_diags(cs, f, src, file) == Seq::<DiagnosticView>::empty()
            },
        },
    decreases cs.len(),
{
    crate::cst::lemma_field_index(cs, f);
    if cs.len() > 0 {
        let rest = cs.subrange(1, cs.len() as int);
        assert(rest =~= cs.drop_first());
        lemma_field_walk(rest, f, src, file);
        crate::cst::lemma_field_index(rest, f);
        if !(cs[0].field matches Some(g) && g@ == f) {
            assert forall|e: Expr| #[trigger] fexpr_is(e, cs, f, src, file) == fexpr_is(e, rest, f, src, file) by {}
            assert forall|h: Ident, a: Seq<PathAccessor>| #[trigger] fpath_is(h, a, cs, f, src, file)
                == fpath_is(h, a, rest, f, src, file) by {}
            match field_index(rest, f) {
                Some(j) => {
                    assert(rest[j] == cs[j + 1]);
                    assert(field_index(cs, f) == Some(j + 1));
                },
                None => {
                    assert(field_index(cs, f) is None);
                },
            }
        } else {
            assert(field_index(cs, f) == Some(0int));
            assert forall|e: Expr| #[trigger] fexpr_is(e, cs, f, src, file) == expr_is(e, cs[0], src, file) by {}
            assert forall|h: Ident, a: Seq<PathAccessor>| #[trigger] fpath_is(h, a, cs, f, src, file)
                == path_is(h, a, cs[0], src, file) by {}
        }
    }
}

// ---- exec: small pieces ----

/// What `str::parse::<i64>` gives, with the error dropped.
fn parse_i64(s: &str) -> (r: Option<i64>)
    ensures
        r == spec_parse_i64(s@),
{
    let n = s.unicode_len();
    let neg = n > 0 && s.get_char(0) == '-';
    let signed = n > 0 && (s.get_char(0) == '+' || s.get_char(0) == '-');
    let start: usize = if signed { 1 } else { 0 };
    proof {
        assert(neg == (s@.len() > 0 && s@[0] == '-'));
        assert(signed == (s@.len() > 0 && (s@[0] == '+' || s@[0] == '-')));
        if signed {
            assert(s@.drop_first() =~= s@.subrange(1, n as int));
        } else {
            assert(s@ =~= s@.subrange(0, n as int));
        }
        let d = s@.subrange(start as int, n as int);
        assert(d == (if s@.len() > 0 && (s@[0] == '+' || s@[0] == '-') { s@.drop_first() } else { s@ }));
    }
    let ghost d = s@.subrange(start as int, n as int);
    let dv = crate::slot_syntax::digits_u64(s, start);
    proof {
        match dv {
            Some(v) => {
                assert(d.len() > 0 && crate::slot_syntax::all_digits(d));
                crate::slot_syntax::lemma_digits_nonneg(d);
                assert(crate::slot_syntax::digits_value(d) == v);
            },
            None => {
                if d.len() > 0 && crate::slot_syntax::all_digits(d) {
                    assert(crate::slot_syntax::digits_value(d) > u64::MAX);
                    assert(spec_parse_i64(s@) is None);
                } else {
                    assert(spec_parse_i64(s@) is None);
                }
            },
        }
    }
    match dv {
        Some(v) => {
            if neg {
                if v == 9223372036854775808u64 {
                    Some(i64::MIN)
                } else if v < 9223372036854775808u64 {
                    Some(-(v as i64))
                } else {
                    None
                }
            } else if v <= 9223372036854775807u64 {
                Some(v as i64)
            } else {
                None
            }
        },
        None => None,
    }
}

/// What `str::parse::<u32>` gives, with the error dropped.
fn parse_u32(s: &str) -> (r: Option<u32>)
    ensures
        r == spec_parse_u32(s@),
{
    match crate::slot_syntax::parse_u64(s) {
        Some(v) => if v <= 4294967295u64 { Some(v as u32) } else { None },
        None => None,
    }
}

fn lit_expr(k: ExprKind, span: Span) -> (r: Expr)
    ensures
        lit(r, k, span),
{
    Expr { kind: Box::new(k), span }
}

pub(crate) fn node_ident(c: &CstNode, src: &str, file: FileId) -> (r: Ident)
    ensures
        nid_is(r, *c, src@, file),
{
    crate::cst::ident_from_node(c, src, file)
}

fn placeholder(node: &CstNode) -> (r: ExprKind)
    ensures
        placeholder_is(r, *node),
{
    proof {
        reveal_strlit("<unhandled:");
        reveal_strlit(">");
    }
    let m = cat("<unhandled:", node.kind.as_str());
    ExprKind::LitString(cat(m.as_str(), ">"))
}

fn string_of(raw: &str) -> (r: String)
    ensures
        r@ == string_text(raw@),
{
    let n = raw.unicode_len();
    if n >= 6 && raw.get_char(0) == '"' && raw.get_char(1) == '"' && raw.get_char(2) == '"'
        && raw.get_char(n - 3) == '"' && raw.get_char(n - 2) == '"' && raw.get_char(n - 1) == '"' {
        proof {
            assert(raw@.subrange(0, 3) =~= seq!['"', '"', '"']);
            assert(raw@.subrange(n - 3, n as int) =~= seq!['"', '"', '"']);
        }
        owned(raw.substring_char(3, n - 3))
    } else if n >= 2 && raw.get_char(0) == '"' && raw.get_char(n - 1) == '"' {
        proof {
            if n >= 6 {
                let q3 = seq!['"', '"', '"'];
                if raw@.subrange(0, 3) == q3 && raw@.subrange(n - 3, n as int) == q3 {
                    assert(raw@[1] == raw@.subrange(0, 3)[1]);
                    assert(raw@[2] == raw@.subrange(0, 3)[2]);
                    assert(raw@[n - 3] == raw@.subrange(n - 3, n as int)[0]);
                    assert(raw@[n - 2] == raw@.subrange(n - 3, n as int)[1]);
                }
            }
        }
        owned(raw.substring_char(1, n - 1))
    } else {
        proof {
            if n >= 6 {
                let q3 = seq!['"', '"', '"'];
                if raw@.subrange(0, 3) == q3 && raw@.subrange(n - 3, n as int) == q3 {
                    assert(raw@[0] == raw@.subrange(0, 3)[0]);
                    assert(raw@[1] == raw@.subrange(0, 3)[1]);
                    assert(raw@[2] == raw@.subrange(0, 3)[2]);
                    assert(raw@[n - 3] == raw@.subrange(n - 3, n as int)[0]);
                    assert(raw@[n - 2] == raw@.subrange(n - 3, n as int)[1]);
                    assert(raw@[n - 1] == raw@.subrange(n - 3, n as int)[2]);
                }
            }
        }
        owned(raw)
    }
}

fn tuple_index_of(c: &CstNode, src: &str) -> (r: u32)
    ensures
        r == tuple_index(*c, src@),
{
    let t = text_of(c, src);
    let n = t.unicode_len();
    let body = if n > 0 && t.get_char(0) == '.' {
        proof {
            assert(t@.subrange(1, n as int) =~= t@.drop_first());
        }
        t.substring_char(1, n)
    } else {
        t
    };
    match parse_u32(body) {
        Some(v) => v,
        None => 0,
    }
}

pub(crate) fn field_ident(node: &CstNode, f: &str, dflt: &str, span: Span, src: &str, file: FileId) -> (r: Ident)
    ensures
        fid(r, *node, f@, dflt@, span, src@, file),
{
    match find_field(node, f) {
        Some(j) => node_ident(&node.children[j], src, file),
        None => Ident::new(dflt, span),
    }
}

fn field2_ident(node: &CstNode, f1: &str, f2: &str, dflt: &str, span: Span, src: &str, file: FileId) -> (r: Ident)
    ensures
        fid2(r, *node, f1@, f2@, dflt@, span, src@, file),
{
    match find_field(node, f1) {
        Some(j) => node_ident(&node.children[j], src, file),
        None => field_ident(node, f2, dflt, span, src, file),
    }
}

// ---- exec: the conversion ----

/// An expression node: the expression it denotes, at its span, with the
/// internal errors met on the way.
pub fn convert_expr(node: &CstNode, src: &str, file: FileId, out: &mut Vec<Diagnostic>) -> (r: Expr)
    requires
        generics_have_base(*node),
    ensures
        expr_is(r, *node, src@, file),
        diags_view(final(out)@) == diags_view(old(out)@) + expr_diags(*node, src@, file),
    decreases node, 8int,
{
    let span = Span::new(file, node.start, node.end);
    let kind = convert_kind(node, src, file, out);
    Expr { kind: Box::new(kind), span }
}

fn child_expr(node: &CstNode, i: usize, src: &str, file: FileId, out: &mut Vec<Diagnostic>) -> (r: Expr)
    requires
        generics_have_base(*node),
        i < node.children@.len(),
    ensures
        expr_is(r, node.children@[i as int], src@, file),
        diags_view(final(out)@) == diags_view(old(out)@) + expr_diags(node.children@[i as int], src@, file),
    decreases node, 1int,
{
    proof {
        lemma_all_generics(node.children@, i as int);
        assert(decreases_to!(node => node.children@[i as int]));
    }
    convert_expr(&node.children[i], src, file, out)
}

fn field_expr(node: &CstNode, f: &str, src: &str, file: FileId, out: &mut Vec<Diagnostic>) -> (r: Option<Expr>)
    requires
        generics_have_base(*node),
    ensures
        match r {
            Some(e) => has_field(*node, f@) && fexpr_is(e, node.children@, f@, src@, file),
            None => !has_field(*node, f@),
        },
        diags_view(final(out)@) == diags_view(old(out)@) + fexpr_diags(node.children@, f@, src@, file),
    decreases node, 2int,
{
    proof {
        lemma_field_walk(node.children@, f@, src@, file);
    }
    match find_field(node, f) {
        Some(j) => Some(child_expr(node, j, src, file, out)),
        None => {
            proof {
                assert(diags_view(out@) =~= diags_view(out@) + Seq::<DiagnosticView>::empty());
            }
            None
        },
    }
}

fn field_or_expr(node: &CstNode, f: &str, dflt: ExprKind, span: Span, src: &str, file: FileId, out: &mut Vec<Diagnostic>)
    -> (r: Expr)
    requires
        generics_have_base(*node),
    ensures
        field_or(r, *node, f@, dflt, span, src@, file),
        diags_view(final(out)@) == diags_view(old(out)@) + field_diags(*node, f@, src@, file),
    decreases node, 3int,
{
    match field_expr(node, f, src, file, out) {
        Some(e) => e,
        None => lit_expr(dflt, span),
    }
}

fn field2_or_expr(node: &CstNode, f1: &str, f2: &str, dflt: ExprKind, span: Span, src: &str, file: FileId,
    out: &mut Vec<Diagnostic>) -> (r: Expr)
    requires
        generics_have_base(*node),
    ensures
        field2_or(r, *node, f1@, f2@, dflt, span, src@, file),
        diags_view(final(out)@) == diags_view(old(out)@) + field2_diags(*node, f1@, f2@, src@, file),
    decreases node, 3int,
{
    proof {
        lemma_field_walk(node.children@, f1@, src@, file);
    }
    match field_expr(node, f1, src, file, out) {
        Some(e) => e,
        None => match field_expr(node, f2, src, file, out) {
            Some(e) => e,
            None => lit_expr(dflt, span),
        },
    }
}

fn field2_opt_expr(node: &CstNode, f1: &str, f2: &str, src: &str, file: FileId, out: &mut Vec<Diagnostic>)
    -> (r: Option<Expr>)
    requires
        generics_have_base(*node),
    ensures
        ofield2_is(r, *node, f1@, f2@, src@, file),
        diags_view(final(out)@) == diags_view(old(out)@) + field2_diags(*node, f1@, f2@, src@, file),
    decreases node, 3int,
{
    proof {
        lemma_field_walk(node.children@, f1@, src@, file);
    }
    match field_expr(node, f1, src, file, out) {
        Some(e) => Some(e),
        None => field_expr(node, f2, src, file, out),
    }
}

fn nth_expr(node: &CstNode, k: usize, span: Span, src: &str, file: FileId, out: &mut Vec<Diagnostic>) -> (r: Expr)
    requires
        generics_have_base(*node),
    ensures
        cnth_is(r, node.children@, k as nat, span, src@, file),
        diags_view(final(out)@) == diags_view(old(out)@) + cnth_diags(node.children@, k as nat, src@, file),
    decreases node, 2int,
{
    match nth_content(node, k, Ghost(span), Ghost(src@), Ghost(file)) {
        Some(i) => child_expr(node, i, src, file, out),
        None => {
            proof {
                assert(diags_view(out@) =~= diags_view(out@) + Seq::<DiagnosticView>::empty());
            }
            lit_expr(ExprKind::LitNone, span)
        },
    }
}

fn body_expr(node: &CstNode, k: usize, span: Span, src: &str, file: FileId, out: &mut Vec<Diagnostic>) -> (r: Expr)
    requires
        generics_have_base(*node),
    ensures
        bnth_is(r, node.children@, k as nat, span, src@, file),
        diags_view(final(out)@) == diags_view(old(out)@) + bnth_diags(node.children@, k as nat, src@, file),
    decreases node, 2int,
{
    match nth_body(node, k, Ghost(span), Ghost(src@), Ghost(file)) {
        Some(i) => child_expr(node, i, src, file, out),
        None => {
            proof {
                assert(diags_view(out@) =~= diags_view(out@) + Seq::<DiagnosticView>::empty());
            }
            lit_expr(ExprKind::LitNone, span)
        },
    }
}

fn body_opt(node: &CstNode, k: usize, src: &str, file: FileId, out: &mut Vec<Diagnostic>) -> (r: Option<Expr>)
    requires
        generics_have_base(*node),
    ensures
        bnth_opt(r, node.children@, k as nat, src@, file),
        diags_view(final(out)@) == diags_view(old(out)@) + bnth_diags(node.children@, k as nat, src@, file),
    decreases node, 2int,
{
    match nth_body(node, k, Ghost(Span::spec_synthetic()), Ghost(src@), Ghost(file)) {
        Some(i) => Some(child_expr(node, i, src, file, out)),
        None => {
            proof {
                assert(diags_view(out@) =~= diags_view(out@) + Seq::<DiagnosticView>::empty());
            }
            None
        },
    }
}

// ---- exec: what each kind of node becomes ----

proof fn lemma_add2(h: Seq<DiagnosticView>, a: Seq<DiagnosticView>, b: Seq<DiagnosticView>)
    ensures
        h + a + b == h + (a + b),
{
    assert(h + a + b =~= h + (a + b));
}

proof fn lemma_add3(h: Seq<DiagnosticView>, a: Seq<DiagnosticView>, b: Seq<DiagnosticView>, c: Seq<DiagnosticView>)
    ensures
        h + a + b + c == h + (a + b + c),
{
    assert(h + a + b + c =~= h + (a + b + c));
}

fn kind_tag_of(kd: &str) -> (r: u8)
    ensures
        r == kind_tag(kd@),
{
    if str_eq(kd, "number") { 1 }
    else if str_eq(kd, "bool_lit") { 2 }
    else if str_eq(kd, "string") { 3 }
    else if str_eq(kd, "none_lit") { 4 }
    else if str_eq(kd, "identifier") { 5 }
    else if str_eq(kd, "identifier_expr") || str_eq(kd, "parenthesized") { 6 }
    else if str_eq(kd, "param_ref") { 7 }
    else if str_eq(kd, "qualified_name") { 8 }
    else if is_path_kind_str(kd) { 9 }
    else if str_eq(kd, "tuple_expr") { 10 }
    else if str_eq(kd, "set_expr") { 11 }
    else if str_eq(kd, "seq_literal") { 12 }
    else if str_eq(kd, "record_expr") { 13 }
    else if str_eq(kd, "map_literal") { 14 }
    else if str_eq(kd, "empty_brace_expr") { 15 }
    else if str_eq(kd, "binary_expr") || str_eq(kd, "binary_expr_no_in") { 16 }
    else if str_eq(kd, "neg_expr") || str_eq(kd, "neg_expr_no_in") { 17 }
    else if str_eq(kd, "not_expr") || str_eq(kd, "not_expr_no_in") { 18 }
    else if str_eq(kd, "cardinality_expr") { 19 }
    else if str_eq(kd, "forall_expr") || str_eq(kd, "exists_expr") { 20 }
    else if str_eq(kd, "comprehension") { 21 }
    else if str_eq(kd, "choose_expr") || str_eq(kd, "choose_expr_no_in") { 22 }
    else if str_eq(kd, "aggregate_expr") { 23 }
    else if str_eq(kd, "if_expr") { 24 }
    else if str_eq(kd, "match_expr") { 25 }
    else if str_eq(kd, "if_let_expr") { 26 }
    else if str_eq(kd, "let_expr") { 27 }
    else if str_eq(kd, "call_expr") || str_eq(kd, "slot_call") { 28 }
    else if str_eq(kd, "some_call") { 29 }
    else { 0 }
}

fn convert_kind(node: &CstNode, src: &str, file: FileId, out: &mut Vec<Diagnostic>) -> (r: ExprKind)
    requires
        generics_have_base(*node),
    ensures
        ekind_is(r, *node, src@, file),
        diags_view(final(out)@) == diags_view(old(out)@) + ekind_diags(*node, src@, file),
    decreases node, 7int,
{
    let ghost h = diags_view(out@);
    let ghost cs = node.children@;
    let tag = kind_tag_of(node.kind.as_str());
    let span = Span::new(file, node.start, node.end);
    proof {
        assert(h + Seq::<DiagnosticView>::empty() =~= h);
        assert(span == node_span(*node, file));
    }
    if tag == 1 {
        let t = text_of(node, src);
        match parse_u64(t) {
            Some(v) => ExprKind::LitNat(v),
            None => match parse_i64(t) {
                Some(v) => ExprKind::LitInt(v),
                None => ExprKind::LitString(owned(t)),
            },
        }
    } else if tag == 2 {
        let k = ExprKind::LitBool(str_eq(text_of(node, src), "true"));
        proof {
            assert(ekind_is(k, *node, src@, file));
        }
        k
    } else if tag == 3 {
        let k = ExprKind::LitString(string_of(text_of(node, src)));
        proof {
            assert(ekind_is(k, *node, src@, file));
        }
        k
    } else if tag == 4 {
        let k = ExprKind::LitNone;
        proof {
            assert(ekind_is(k, *node, src@, file));
        }
        k
    } else if tag == 5 {
        let k = ExprKind::Ident(node_ident(node, src, file));
        proof {
            assert(ekind_is(k, *node, src@, file));
        }
        k
    } else if tag == 6 {
        match first_content_of(node, Ghost(*node), Ghost(span), Ghost(src@), Ghost(file)) {
            Some(i) => {
                proof {
                    lemma_all_generics(cs, i as int);
                    assert(decreases_to!(node => node.children@[i as int]));
                }
                let k = convert_kind(&node.children[i], src, file, out);
                proof {
                    assert(ckind_is(k, cs, *node, src@, file));
                    assert(ekind_is(k, *node, src@, file));
                }
                k
            },
            None => {
                let k = placeholder(node);
                proof {
                    assert(ckind_is(k, cs, *node, src@, file));
                    assert(ekind_is(k, *node, src@, file));
                }
                k
            },
        }
    } else if tag == 7 {
        match first_of_kind(node, "identifier", Ghost(src@), Ghost(file), Ghost(span)) {
            Some(j) => {
                let mut accs: Vec<PathAccessor> = Vec::new();
                accs.push(PathAccessor::Field(node_ident(&node.children[j], src, file)));
                let k = ExprKind::Path(PathExpr { head: Ident::new("param", span), accessors: accs });
                proof {
                    assert(ekind_is(k, *node, src@, file));
                }
                k
            },
            None => placeholder(node),
        }
    } else if tag == 8 {
        let k = convert_qualified_expr(node, src, file);
        proof {
            assert(ekind_is(k, *node, src@, file));
        }
        k
    } else if tag == 9 {
        let (head, accessors) = convert_path(node, src, file, out);
        let k = ExprKind::Path(PathExpr { head, accessors });
        proof {
            assert(ekind_is(k, *node, src@, file));
        }
        k
    } else if tag == 10 {
        let k = ExprKind::Tuple(convert_exprs(node, src, file, out));
        proof {
            assert(ekind_is(k, *node, src@, file));
        }
        k
    } else if tag == 11 {
        let k = ExprKind::SetLit(convert_exprs(node, src, file, out));
        proof {
            assert(ekind_is(k, *node, src@, file));
        }
        k
    } else if tag == 12 {
        let k = ExprKind::SeqLit(convert_exprs(node, src, file, out));
        proof {
            assert(ekind_is(k, *node, src@, file));
        }
        k
    } else if tag == 13 {
        let k = ExprKind::Record(convert_rfields(node, src, file, out));
        proof {
            assert(ekind_is(k, *node, src@, file));
        }
        k
    } else if tag == 14 {
        let k = ExprKind::MapLit(convert_entries(node, src, file, out));
        proof {
            assert(ekind_is(k, *node, src@, file));
        }
        k
    } else if tag == 15 {
        let k = ExprKind::SetLit(Vec::new());
        proof {
            assert(ekind_is(k, *node, src@, file));
        }
        k
    } else if tag == 16 {
        let k = convert_binary(node, src, file, out);
        proof {
            assert(ekind_is(k, *node, src@, file));
        }
        k
    } else if tag == 17 {
        let k = ExprKind::UnaryOp(UnaryOp::Neg, nth_expr(node, 0, span, src, file, out));
        proof {
            assert(ekind_is(k, *node, src@, file));
        }
        k
    } else if tag == 18 {
        let k = ExprKind::UnaryOp(UnaryOp::Not, nth_expr(node, 0, span, src, file, out));
        proof {
            assert(ekind_is(k, *node, src@, file));
        }
        k
    } else if tag == 19 {
        let k = ExprKind::Cardinality(nth_expr(node, 0, span, src, file, out));
        proof {
            assert(ekind_is(k, *node, src@, file));
        }
        k
    } else if tag == 20 {
        let k = convert_quant(node, src, file, out);
        proof {
            assert(ekind_is(k, *node, src@, file));
            lemma_add2(h, binding_diags(cs, src@, file), field_diags(*node, "body"@, src@, file));
        }
        k
    } else if tag == 21 {
        let k = convert_compr(node, src, file, out);
        proof {
            assert(ekind_is(k, *node, src@, file));
        }
        k
    } else if tag == 22 {
        let k = convert_choose(node, src, file, out);
        proof {
            assert(ekind_is(k, *node, src@, file));
        }
        k
    } else if tag == 23 {
        let k = convert_aggr(node, src, file, out);
        proof {
            assert(ekind_is(k, *node, src@, file));
            lemma_add3(h, field2_diags(*node, "body"@, "expr"@, src@, file), field_diags(*node, "scope"@, src@, file),
                field2_diags(*node, "else"@, "fallback"@, src@, file));
        }
        k
    } else if tag == 24 {
        let cond = field_or_expr(node, "cond", ExprKind::LitBool(false), span, src, file, out);
        let then_branch = field_or_expr(node, "then", ExprKind::LitNone, span, src, file, out);
        let else_branch = field_or_expr(node, "else", ExprKind::LitNone, span, src, file, out);
        proof {
            lemma_add3(h, field_diags(*node, "cond"@, src@, file), field_diags(*node, "then"@, src@, file),
                field_diags(*node, "else"@, src@, file));
        }
        let k = ExprKind::IfThenElse { cond, then_branch, else_branch };
        proof {
            assert(ekind_is(k, *node, src@, file));
        }
        k
    } else if tag == 25 {
        let scrutinee = field_or_expr(node, "scrutinee", ExprKind::LitNone, span, src, file, out);
        let arms = convert_arms(node, src, file, out);
        proof {
            lemma_add2(h, field_diags(*node, "scrutinee"@, src@, file), arms_diags(cs, src@, file));
        }
        let k = ExprKind::Match { scrutinee, arms };
        proof {
            assert(ekind_is(k, *node, src@, file));
        }
        k
    } else if tag == 26 {
        let name = field2_ident(node, "binding", "var", "<missing>", span, src, file);
        let source = field2_or_expr(node, "value", "source", ExprKind::LitNone, span, src, file, out);
        let then_branch = field_or_expr(node, "then", ExprKind::LitNone, span, src, file, out);
        let else_branch = field_or_expr(node, "else", ExprKind::LitNone, span, src, file, out);
        proof {
            lemma_add3(h, field2_diags(*node, "value"@, "source"@, src@, file), field_diags(*node, "then"@, src@, file),
                field_diags(*node, "else"@, src@, file));
        }
        let k = ExprKind::IfLetSome { name, source, then_branch, else_branch };
        proof {
            assert(ekind_is(k, *node, src@, file));
        }
        k
    } else if tag == 27 {
        let name = field2_ident(node, "name", "var", "<missing>", span, src, file);
        let value = field_or_expr(node, "value", ExprKind::LitNone, span, src, file, out);
        let body = field_or_expr(node, "body", ExprKind::LitNone, span, src, file, out);
        proof {
            lemma_add2(h, field_diags(*node, "value"@, src@, file), field_diags(*node, "body"@, src@, file));
        }
        let k = ExprKind::Let { name, value, body };
        proof {
            assert(ekind_is(k, *node, src@, file));
        }
        k
    } else if tag == 28 {
        let k = convert_call(node, src, file, out);
        proof {
            assert(ekind_is(k, *node, src@, file));
            lemma_add2(h, field_diags(*node, "callee"@, src@, file), call_args_diags(*node, src@, file));
        }
        k
    } else if tag == 29 {
        let k = ExprKind::Some_(nth_expr(node, 0, span, src, file, out));
        proof {
            assert(ekind_is(k, *node, src@, file));
        }
        k
    } else {
        placeholder(node)
    }
}

fn is_path_kind_str(k: &str) -> (r: bool)
    ensures
        r == is_path_kind(k@),
{
    str_eq(k, "field_access") || str_eq(k, "dotted_field") || str_eq(k, "dotted_index") || str_eq(k, "indexed_path")
        || str_eq(k, "realization_path") || str_eq(k, "channel_path") || str_eq(k, "fairness_path")
        || str_eq(k, "index_expr")
}

/// A `qualified_name` in expression position: one identifier, or a path
/// of fields.
fn convert_qualified_expr(node: &CstNode, src: &str, file: FileId) -> (r: ExprKind)
    ensures
        qexpr_is(r, *node, src@, file),
{
    let ids = crate::cst::named_children_of(node, "identifier");
    let ghost ks = named_of_kind(node.children@, "identifier"@);
    let span = Span::new(file, node.start, node.end);
    if ids.len() == 0 {
        ExprKind::Ident(Ident::new("<missing>", span))
    } else if ids.len() == 1 {
        ExprKind::Ident(node_ident(ids[0], src, file))
    } else {
        let head = node_ident(ids[0], src, file);
        let mut accs: Vec<PathAccessor> = Vec::new();
        let mut i: usize = 1;
        while i < ids.len()
            invariant
                1 <= i <= ids@.len(),
                ids@.len() == ks.len(),
                forall|j: int| 0 <= j < ids@.len() ==> *(#[trigger] ids@[j]) == ks[j],
                accs@.len() == i - 1,
                forall|j: int| 0 <= j < accs@.len() ==>
                    (#[trigger] accs@[j] matches PathAccessor::Field(id) && nid_is(id, ks[j + 1], src@, file)),
            decreases ids@.len() - i,
        {
            accs.push(PathAccessor::Field(node_ident(ids[i], src, file)));
            i += 1;
        }
        ExprKind::Path(PathExpr { head, accessors: accs })
    }
}

/// The expressions of the content children, in order.
fn convert_exprs(node: &CstNode, src: &str, file: FileId, out: &mut Vec<Diagnostic>) -> (r: Vec<Expr>)
    requires
        generics_have_base(*node),
    ensures
        cexprs_is(r@, node.children@, src@, file),
        diags_view(final(out)@) == diags_view(old(out)@) + cexprs_diags(node.children@, src@, file),
    decreases node, 6int,
{
    let ghost cs = node.children@;
    let ghost h = diags_view(out@);
    let mut es: Vec<Expr> = Vec::new();
    let mut i: usize = 0;
    proof {
        assert(cs.subrange(0, 0) =~= Seq::<CstNode>::empty());
        assert(h + Seq::<DiagnosticView>::empty() =~= h);
    }
    while i < node.children.len()
        invariant
            i <= cs.len(),
            cs == node.children@,
            generics_have_base(*node),
            cexprs_is(es@, cs.subrange(0, i as int), src@, file),
            diags_view(out@) == h + cexprs_diags(cs.subrange(0, i as int), src@, file),
        decreases cs.len() - i,
    {
        let ghost pre = cs.subrange(0, i + 1);
        proof {
            assert(pre.drop_last() =~= cs.subrange(0, i as int));
            assert(pre.last() == cs[i as int]);
        }
        let c = &node.children[i];
        if is_content_node(c) {
            proof {
                lemma_all_generics(cs, i as int);
                assert(decreases_to!(node => node.children@[i as int]));
            }
            let ghost before = es@;
            let e = convert_expr(c, src, file, out);
            es.push(e);
            proof {
                assert(es@.drop_last() =~= before);
            }
        }
        i += 1;
    }
    proof {
        assert(cs.subrange(0, i as int) =~= cs);
    }
    es
}

/// The fields of the `record_field` children, in order.
fn convert_rfields(node: &CstNode, src: &str, file: FileId, out: &mut Vec<Diagnostic>) -> (r: Vec<RecordFieldInit>)
    requires
        generics_have_base(*node),
    ensures
        rfields_is(r@, node.children@, src@, file),
        diags_view(final(out)@) == diags_view(old(out)@) + rfields_diags(node.children@, src@, file),
    decreases node, 6int,
{
    let ghost cs = node.children@;
    let ghost h = diags_view(out@);
    let mut fs: Vec<RecordFieldInit> = Vec::new();
    let mut i: usize = 0;
    proof {
        assert(cs.subrange(0, 0) =~= Seq::<CstNode>::empty());
        assert(h + Seq::<DiagnosticView>::empty() =~= h);
    }
    while i < node.children.len()
        invariant
            i <= cs.len(),
            cs == node.children@,
            generics_have_base(*node),
            rfields_is(fs@, cs.subrange(0, i as int), src@, file),
            diags_view(out@) == h + rfields_diags(cs.subrange(0, i as int), src@, file),
        decreases cs.len() - i,
    {
        let ghost pre = cs.subrange(0, i + 1);
        proof {
            assert(pre.drop_last() =~= cs.subrange(0, i as int));
            assert(pre.last() == cs[i as int]);
        }
        let c = &node.children[i];
        if c.named && str_eq(c.kind.as_str(), "record_field") {
            proof {
                lemma_all_generics(cs, i as int);
                assert(decreases_to!(node => node.children@[i as int]));
            }
            let cspan = Span::new(file, c.start, c.end);
            let name = field_ident(c, "name", "<missing>", cspan, src, file);
            let value = field_or_expr(c, "value", ExprKind::LitNone, cspan, src, file, out);
            let ghost before = fs@;
            fs.push(RecordFieldInit { name, value, span: cspan });
            proof {
                assert(fs@.drop_last() =~= before);
                assert(rfield_is(fs@.last(), *c, src@, file));
            }
        }
        i += 1;
    }
    proof {
        assert(cs.subrange(0, i as int) =~= cs);
    }
    fs
}

/// The entries of the `map_literal_entry` children, in order.
fn convert_entries(node: &CstNode, src: &str, file: FileId, out: &mut Vec<Diagnostic>) -> (r: Vec<(Expr, Expr)>)
    requires
        generics_have_base(*node),
    ensures
        entries_is(r@, node.children@, src@, file),
        diags_view(final(out)@) == diags_view(old(out)@) + entries_diags(node.children@, src@, file),
    decreases node, 6int,
{
    let ghost cs = node.children@;
    let ghost h = diags_view(out@);
    let mut ps: Vec<(Expr, Expr)> = Vec::new();
    let mut i: usize = 0;
    proof {
        assert(cs.subrange(0, 0) =~= Seq::<CstNode>::empty());
        assert(h + Seq::<DiagnosticView>::empty() =~= h);
    }
    while i < node.children.len()
        invariant
            i <= cs.len(),
            cs == node.children@,
            generics_have_base(*node),
            entries_is(ps@, cs.subrange(0, i as int), src@, file),
            diags_view(out@) == h + entries_diags(cs.subrange(0, i as int), src@, file),
        decreases cs.len() - i,
    {
        let ghost pre = cs.subrange(0, i + 1);
        proof {
            assert(pre.drop_last() =~= cs.subrange(0, i as int));
            assert(pre.last() == cs[i as int]);
        }
        let c = &node.children[i];
        if c.named && str_eq(c.kind.as_str(), "map_literal_entry") {
            proof {
                lemma_all_generics(cs, i as int);
                assert(decreases_to!(node => node.children@[i as int]));
            }
            let cspan = Span::new(file, c.start, c.end);
            let ghost d0 = diags_view(out@);
            let k = nth_expr(c, 0, cspan, src, file, out);
            let v = nth_expr(c, 1, cspan, src, file, out);
            let ghost before = ps@;
            ps.push((k, v));
            proof {
                assert(ps@.drop_last() =~= before);
                assert(entry_is(ps@.last(), *c, src@, file));
                assert(diags_view(out@) =~= d0 + entry_diags(*c, src@, file));
            }
        }
        i += 1;
    }
    proof {
        assert(cs.subrange(0, i as int) =~= cs);
    }
    ps
}

// ---- binary operators ----

proof fn lemma_no_first_content(cs: Seq<CstNode>)
    requires
        first_content_node(cs) is None,
    ensures
        forall|k: int| 0 <= k < cs.len() ==> !is_content(#[trigger] cs[k]),
    decreases cs.len(),
{
    if cs.len() > 0 {
        lemma_no_first_content(cs.drop_first());
        assert forall|k: int| 0 <= k < cs.len() implies !is_content(#[trigger] cs[k]) by {
            if k > 0 {
                assert(cs[k] == cs.drop_first()[k - 1]);
            }
        }
    }
}

proof fn lemma_none_count(cs: Seq<CstNode>)
    requires
        forall|k: int| 0 <= k < cs.len() ==> !is_content(#[trigger] cs[k]),
    ensures
        content_count(cs) == 0,
    decreases cs.len(),
{
    if cs.len() > 0 {
        assert forall|k: int| 0 <= k < cs.drop_last().len() implies !is_content(#[trigger] cs.drop_last()[k]) by {
            assert(cs.drop_last()[k] == cs[k]);
        }
        lemma_none_count(cs.drop_last());
        assert(!is_content(cs[cs.len() - 1]));
    }
}

proof fn lemma_no_last_count(cs: Seq<CstNode>)
    requires
        last_content_node(cs) is None,
    ensures
        content_count(cs) == 0,
    decreases cs.len(),
{
    if cs.len() > 0 {
        lemma_no_last_count(cs.drop_last());
    }
}

/// The number of content children.
fn count_content(node: &CstNode) -> (r: usize)
    ensures
        r == content_count(node.children@),
{
    let ghost cs = node.children@;
    let mut n: usize = 0;
    let mut i: usize = 0;
    proof {
        assert(cs.subrange(0, 0) =~= Seq::<CstNode>::empty());
    }
    while i < node.children.len()
        invariant
            i <= cs.len(),
            cs == node.children@,
            n == content_count(cs.subrange(0, i as int)),
            n <= i,
        decreases cs.len() - i,
    {
        proof {
            let pre = cs.subrange(0, i + 1);
            assert(pre.drop_last() =~= cs.subrange(0, i as int));
            assert(pre.last() == cs[i as int]);
        }
        if is_content_node(&node.children[i]) {
            n += 1;
        }
        i += 1;
    }
    proof {
        assert(cs.subrange(0, i as int) =~= cs);
    }
    n
}

fn op_of(t: &str) -> (r: Option<BinOp>)
    ensures
        r == spec_op(t@),
{
    if str_eq(t, "==") { Some(BinOp::Eq) }
    else if str_eq(t, "!=") { Some(BinOp::NotEq) }
    else if str_eq(t, "<") { Some(BinOp::Lt) }
    else if str_eq(t, "<=") { Some(BinOp::LtEq) }
    else if str_eq(t, ">") { Some(BinOp::Gt) }
    else if str_eq(t, ">=") { Some(BinOp::GtEq) }
    else if str_eq(t, "+") { Some(BinOp::Add) }
    else if str_eq(t, "-") { Some(BinOp::Sub) }
    else if str_eq(t, "*") { Some(BinOp::Mul) }
    else if str_eq(t, "/") { Some(BinOp::Div) }
    else if str_eq(t, "&&") { Some(BinOp::And) }
    else if str_eq(t, "||") { Some(BinOp::Or) }
    else if str_eq(t, "=>") { Some(BinOp::Implies) }
    else if str_eq(t, "in") { Some(BinOp::In) }
    else if str_eq(t, "not in") { Some(BinOp::NotIn) }
    else if str_eq(t, "union") { Some(BinOp::Union) }
    else if str_eq(t, "intersect") { Some(BinOp::Intersect) }
    else if str_eq(t, "diff") { Some(BinOp::Diff) }
    else if str_eq(t, ":+") { Some(BinOp::SeqSnoc) }
    else if str_eq(t, "subset") { Some(BinOp::Subset) }
    else { None }
}

fn convert_binary(node: &CstNode, src: &str, file: FileId, out: &mut Vec<Diagnostic>) -> (r: ExprKind)
    requires
        generics_have_base(*node),
    ensures
        binary_is(r, *node, src@, file),
        diags_view(final(out)@) == diags_view(old(out)@) + binary_diags(*node, src@, file),
    decreases node, 6int,
{
    let ghost cs = node.children@;
    let ghost h = diags_view(out@);
    let span = Span::new(file, node.start, node.end);
    if count_content(node) < 2 {
        proof {
            assert(h + Seq::<DiagnosticView>::empty() =~= h);
        }
        return ExprKind::LitNone;
    }
    let i0 = match nth_content(node, 0, Ghost(span), Ghost(src@), Ghost(file)) {
        Some(i) => i,
        None => {
            proof {
                lemma_no_first_content(cs);
                lemma_none_count(cs);
            }
            return ExprKind::LitNone;
        },
    };
    let j = match last_content_of(node, Ghost(src@), Ghost(file)) {
        Some(j) => j,
        None => {
            proof {
                lemma_no_last_count(cs);
            }
            return ExprKind::LitNone;
        },
    };
    let l = child_expr(node, i0, src, file, out);
    let r = child_expr(node, j, src, file, out);
    let ghost gl = l;
    let ghost gr = r;
    let raw = crate::cst::source_slice(src, node.children[i0].end as usize, node.children[j].start as usize);
    let t = crate::syntax::trim(raw);
    proof {
        assert(t@ == op_text(*node, src@));
        assert(cnth_is(gl, cs, 0, node_span(*node, file), src@, file));
        assert(clast_is(gr, cs, src@, file));
    }
    let k = match op_of(t) {
        Some(o) => ExprKind::BinOp(o, l, r),
        None => {
            if str_eq(t, "cross") {
                ExprKind::Cross(l, r)
            } else if str_eq(t, "is") {
                let Expr { kind, span: _ } = r;
                match *kind {
                    ExprKind::Ident(name) => ExprKind::IsTest(l, name),
                    _ => ExprKind::LitBool(false),
                }
            } else {
                let m = cat("unknown binary op `", t);
                let m = cat(m.as_str(), "`");
                proof {
                    reveal_strlit("`");
                    reveal_strlit("unknown binary op `");
                }
                internal_error(m.as_str(), node, file, out);
                ExprKind::LitNone
            }
        },
    };
    proof {
        assert(bin_result(k, gl, gr, op_text(*node, src@)));
        assert(h + (cnth_diags(cs, 0, src@, file) + clast_diags(cs, src@, file)) =~= h + cnth_diags(cs, 0, src@, file) + clast_diags(cs, src@, file));
    }
    k
}

// ---- quantifiers, comprehensions, choose ----

fn convert_quant(node: &CstNode, src: &str, file: FileId, out: &mut Vec<Diagnostic>) -> (r: ExprKind)
    requires
        generics_have_base(*node),
    ensures
        quant_is(r, *node, src@, file),
        diags_view(final(out)@) == diags_view(old(out)@) + binding_diags(node.children@, src@, file)
            + field_diags(*node, "body"@, src@, file),
    decreases node, 6int,
{
    let ghost cs = node.children@;
    let span = Span::new(file, node.start, node.end);
    let b = match first_of_kind(node, "binder", Ghost(src@), Ghost(file), Ghost(span)) {
        Some(i) => {
            proof {
                reveal_strlit("binder");
                lemma_all_generics(cs, i as int);
                assert(decreases_to!(node => node.children@[i as int]));
            }
            let c = &node.children[i];
            let name = field_ident(c, "name", "<missing>", span, src, file);
            let domain = field_or_expr(c, "source", ExprKind::LitNone, span, src, file, out);
            let nspan = name.span;
            let b = Binding { name, domain, span: nspan };
            proof {
                assert(binding_is(b, node.children@, span, src@, file));
            }
            b
        },
        None => {
            proof {
                reveal_strlit("binder");
                assert(diags_view(out@) =~= diags_view(out@) + Seq::<DiagnosticView>::empty());
            }
            let name = Ident::new("<missing>", span);
            let nspan = name.span;
            let b = Binding { name, domain: lit_expr(ExprKind::LitNone, span), span: nspan };
            proof {
                assert(binding_is(b, node.children@, span, src@, file));
            }
            b
        },
    };
    let body = field_or_expr(node, "body", ExprKind::LitBool(true), span, src, file, out);
    if str_eq(node.kind.as_str(), "forall_expr") {
        ExprKind::Forall(b, body)
    } else {
        ExprKind::Exists(b, body)
    }
}

fn convert_compr(node: &CstNode, src: &str, file: FileId, out: &mut Vec<Diagnostic>) -> (r: ExprKind)
    requires
        generics_have_base(*node),
    ensures
        compr_is(r, *node, src@, file),
        diags_view(final(out)@) == diags_view(old(out)@) + compr_diags(*node, src@, file),
    decreases node, 6int,
{
    let span = Span::new(file, node.start, node.end);
    let arrow = first_of_kind(node, "comp_map_arrow", Ghost(src@), Ghost(file), Ghost(span)).is_some();
    let binders = convert_cbinders(node, src, file, out);
    if arrow {
        let key = body_expr(node, 0, span, src, file, out);
        let value = body_expr(node, 1, span, src, file, out);
        let predicate = body_opt(node, 2, src, file, out);
        ExprKind::MapComprehension { binders, predicate, key, value }
    } else {
        let body = body_expr(node, 0, span, src, file, out);
        let predicate = body_opt(node, 1, src, file, out);
        ExprKind::SetComprehension { binders, predicate, body }
    }
}

fn convert_cbinders(node: &CstNode, src: &str, file: FileId, out: &mut Vec<Diagnostic>) -> (r: Vec<ComprehensionBinder>)
    requires
        generics_have_base(*node),
    ensures
        cbinders_is(r@, node.children@, src@, file),
        diags_view(final(out)@) == diags_view(old(out)@) + cbinders_diags(node.children@, src@, file),
    decreases node, 5int,
{
    let ghost cs = node.children@;
    let ghost h = diags_view(out@);
    let mut bs: Vec<ComprehensionBinder> = Vec::new();
    let mut i: usize = 0;
    proof {
        assert(cs.subrange(0, 0) =~= Seq::<CstNode>::empty());
        assert(h + Seq::<DiagnosticView>::empty() =~= h);
    }
    while i < node.children.len()
        invariant
            i <= cs.len(),
            cs == node.children@,
            generics_have_base(*node),
            cbinders_is(bs@, cs.subrange(0, i as int), src@, file),
            diags_view(out@) == h + cbinders_diags(cs.subrange(0, i as int), src@, file),
        decreases cs.len() - i,
    {
        let ghost pre = cs.subrange(0, i + 1);
        proof {
            assert(pre.drop_last() =~= cs.subrange(0, i as int));
            assert(pre.last() == cs[i as int]);
        }
        let c = &node.children[i];
        if c.named && str_eq(c.kind.as_str(), "comp_binder") {
            proof {
                lemma_all_generics(cs, i as int);
                assert(decreases_to!(node => node.children@[i as int]));
            }
            let cspan = Span::new(file, c.start, c.end);
            let ghost d0 = diags_view(out@);
            let pattern = convert_pattern(c, src, file, out);
            let domain = field2_or_expr(c, "source", "domain", ExprKind::LitNone, cspan, src, file, out);
            let ghost before = bs@;
            bs.push(ComprehensionBinder { pattern, domain, span: cspan });
            proof {
                assert(bs@.drop_last() =~= before);
                assert(cbinder_is(bs@.last(), *c, src@, file));
                assert(diags_view(out@) =~= d0 + cbinder_diags(*c, src@, file));
            }
        }
        i += 1;
    }
    proof {
        assert(cs.subrange(0, i as int) =~= cs);
    }
    bs
}

fn convert_pat_node(pn: &CstNode, c: &CstNode, src: &str, file: FileId, out: &mut Vec<Diagnostic>) -> (r: BinderPattern)
    requires
        generics_have_base(*c),
    ensures
        pat_node_is(r, *pn, *c, src@, file),
        diags_view(final(out)@) == diags_view(old(out)@) + pat_node_diags(*pn, *c, src@, file),
{
    let ghost h = diags_view(out@);
    proof {
        reveal_strlit("tuple_pattern");
        reveal_strlit("identifier");
        assert(h =~= h + Seq::<DiagnosticView>::empty());
    }
    if str_eq(pn.kind.as_str(), "identifier") {
        let id = node_ident(pn, src, file);
        let ty = match find_field(c, "type") {
            Some(j) => {
                proof {
                    lemma_all_generics(c.children@, j as int);
                }
                Some(convert_type_expr(&c.children[j], src, file, out))
            },
            None => None,
        };
        BinderPattern::Name(id, ty)
    } else if str_eq(pn.kind.as_str(), "tuple_pattern") {
        proof {
            reveal_strlit("tuple_pattern");
            reveal_strlit("identifier");
        }
        let ids = crate::cst::named_children_of(pn, "identifier");
        let ghost ks = named_of_kind(pn.children@, "identifier"@);
        let ghost o0 = out@;
        let mut vs: Vec<Ident> = Vec::new();
        let mut i: usize = 0;
        while i < ids.len()
            invariant
                out@ == o0,
                i <= ids@.len(),
                ids@.len() == ks.len(),
                forall|j: int| 0 <= j < ids@.len() ==> *(#[trigger] ids@[j]) == ks[j],
                vs@.len() == i,
                forall|j: int| 0 <= j < i ==> #[trigger] nid_is(vs@[j], ks[j], src@, file),
            decreases ids@.len() - i,
        {
            vs.push(node_ident(ids[i], src, file));
            i += 1;
        }
        proof {
            assert(pat_node_diags(*pn, *c, src@, file) == Seq::<DiagnosticView>::empty());
            assert(diags_view(out@) == h);
        }
        BinderPattern::Tuple(vs)
    } else {
        proof {
            assert(pat_node_diags(*pn, *c, src@, file) == Seq::<DiagnosticView>::empty());
        }
        BinderPattern::Name(Ident::new("<missing>", Span::new(file, c.start, c.end)), None)
    }
}

fn convert_pattern(c: &CstNode, src: &str, file: FileId, out: &mut Vec<Diagnostic>) -> (r: BinderPattern)
    requires
        generics_have_base(*c),
    ensures
        pattern_is(r, *c, src@, file),
        diags_view(final(out)@) == diags_view(old(out)@) + pattern_diags(*c, src@, file),
{
    match find_field(c, "name") {
        Some(j) => convert_pat_node(&c.children[j], c, src, file, out),
        None => match find_field(c, "pattern") {
            Some(j) => convert_pat_node(&c.children[j], c, src, file, out),
            None => {
                proof {
                    assert(diags_view(out@) =~= diags_view(out@) + Seq::<DiagnosticView>::empty());
                }
                BinderPattern::Name(Ident::new("<missing>", Span::new(file, c.start, c.end)), None)
            },
        },
    }
}

fn convert_choose(node: &CstNode, src: &str, file: FileId, out: &mut Vec<Diagnostic>) -> (r: ExprKind)
    requires
        generics_have_base(*node),
    ensures
        choose_is(r, *node, src@, file),
        diags_view(final(out)@) == diags_view(old(out)@) + choose_diags(*node, src@, file),
    decreases node, 6int,
{
    let span = Span::new(file, node.start, node.end);
    let name = field_ident(node, "var", "<missing>", span, src, file);
    let bounded = find_field(node, "source").is_some() || find_field(node, "domain").is_some();
    let predicate = field_or_expr(node, "predicate", ExprKind::LitBool(true), span, src, file, out);
    if bounded {
        let domain = field2_or_expr(node, "source", "domain", ExprKind::LitNone, span, src, file, out);
        ExprKind::ChooseBounded { name, domain, predicate }
    } else {
        match find_field(node, "type") {
            Some(j) => {
                proof {
                    lemma_all_generics(node.children@, j as int);
                }
                let ty = convert_type_expr(&node.children[j], src, file, out);
                ExprKind::ChooseTyped { name, ty, predicate }
            },
            None => {
                proof {
                    assert(diags_view(out@) =~= diags_view(out@) + Seq::<DiagnosticView>::empty());
                }
                ExprKind::ChooseBounded { name, domain: lit_expr(ExprKind::LitNone, span), predicate }
            },
        }
    }
}

// ---- aggregates ----

fn convert_aggregator(c: &CstNode, src: &str, file: FileId) -> (r: AggregatorKind)
    ensures
        aggregator_of(r, *c, src@, file),
{
    let t = text_of(c, src);
    if str_eq(c.kind.as_str(), "concat_seq_aggregator") {
        let span = Span::new(file, c.start, c.end);
        AggregatorKind::ConcatSeq { order_by: field_ident(c, "order_by", "<missing>", span, src, file) }
    } else if str_eq(t, "forall") {
        AggregatorKind::Forall
    } else if str_eq(t, "sum") {
        AggregatorKind::Sum
    } else if str_eq(t, "max") {
        AggregatorKind::Max
    } else if str_eq(t, "min") {
        AggregatorKind::Min
    } else if str_eq(t, "union_set") {
        AggregatorKind::UnionSet
    } else {
        AggregatorKind::Exists
    }
}

fn convert_aggr(node: &CstNode, src: &str, file: FileId, out: &mut Vec<Diagnostic>) -> (r: ExprKind)
    requires
        generics_have_base(*node),
    ensures
        aggr_is(r, *node, src@, file),
        diags_view(final(out)@) == diags_view(old(out)@) + field2_diags(*node, "body"@, "expr"@, src@, file)
            + field_diags(*node, "scope"@, src@, file) + field2_diags(*node, "else"@, "fallback"@, src@, file),
    decreases node, 6int,
{
    let span = Span::new(file, node.start, node.end);
    let expr = field2_or_expr(node, "body", "expr", ExprKind::LitNone, span, src, file, out);
    let scope = field_expr(node, "scope", src, file, out);
    let aggregator = match find_field(node, "aggregator") {
        Some(j) => convert_aggregator(&node.children[j], src, file),
        None => AggregatorKind::Exists,
    };
    let fallback = field2_opt_expr(node, "else", "fallback", src, file, out);
    let component = match find_field(node, "component") {
        Some(j) => crate::cst::convert_qualified_name(&node.children[j], src, file),
        None => {
            let mut segs: Vec<Ident> = Vec::new();
            segs.push(Ident::new("<aggregate>", span));
            proof {
                assert(span.spec_merge(span) == span);
            }
            QualifiedName::new(segs)
        },
    };
    let binder = field_ident(node, "binder", "_", span, src, file);
    ExprKind::Aggregate(Box::new(AggregateExpr { component, binder, expr, scope, aggregator, fallback, span }))
}

// ---- match ----

fn some_ident(q: &CstNode, src: &str, file: FileId) -> (r: Ident)
    ensures
        some_ident_is(r, *q, src@, file),
{
    match nth_content(q, 0, Ghost(Span::spec_synthetic()), Ghost(src@), Ghost(file)) {
        Some(i) => node_ident(&q.children[i], src, file),
        None => Ident::new("<missing>", Span::new(file, q.start, q.end)),
    }
}

fn convert_match_pattern(c: &CstNode, src: &str, file: FileId) -> (r: MatchPattern)
    ensures
        match_pattern_is(r, *c, src@, file),
{
    match find_field(c, "pattern") {
        Some(j) => {
            let p = &c.children[j];
            if str_eq(p.kind.as_str(), "match_pattern") {
                match nth_content(p, 0, Ghost(Span::spec_synthetic()), Ghost(src@), Ghost(file)) {
                    Some(i) => {
                        let q = &p.children[i];
                        if str_eq(q.kind.as_str(), "some_call") {
                            MatchPattern::Some_(some_ident(q, src, file))
                        } else if str_eq(q.kind.as_str(), "none_lit") {
                            MatchPattern::None_
                        } else {
                            MatchPattern::Wildcard
                        }
                    },
                    None => MatchPattern::Wildcard,
                }
            } else if str_eq(p.kind.as_str(), "none_lit") {
                MatchPattern::None_
            } else if str_eq(p.kind.as_str(), "some_call") {
                MatchPattern::Some_(some_ident(p, src, file))
            } else {
                MatchPattern::Wildcard
            }
        },
        None => MatchPattern::Wildcard,
    }
}

fn convert_arms(node: &CstNode, src: &str, file: FileId, out: &mut Vec<Diagnostic>) -> (r: Vec<MatchArm>)
    requires
        generics_have_base(*node),
    ensures
        arms_is(r@, node.children@, src@, file),
        diags_view(final(out)@) == diags_view(old(out)@) + arms_diags(node.children@, src@, file),
    decreases node, 6int,
{
    let ghost cs = node.children@;
    let ghost h = diags_view(out@);
    let mut arms: Vec<MatchArm> = Vec::new();
    let mut i: usize = 0;
    proof {
        assert(cs.subrange(0, 0) =~= Seq::<CstNode>::empty());
        assert(h + Seq::<DiagnosticView>::empty() =~= h);
    }
    while i < node.children.len()
        invariant
            i <= cs.len(),
            cs == node.children@,
            generics_have_base(*node),
            arms_is(arms@, cs.subrange(0, i as int), src@, file),
            diags_view(out@) == h + arms_diags(cs.subrange(0, i as int), src@, file),
        decreases cs.len() - i,
    {
        let ghost pre = cs.subrange(0, i + 1);
        proof {
            assert(pre.drop_last() =~= cs.subrange(0, i as int));
            assert(pre.last() == cs[i as int]);
        }
        let c = &node.children[i];
        if c.named && str_eq(c.kind.as_str(), "match_arm") {
            proof {
                lemma_all_generics(cs, i as int);
                assert(decreases_to!(node => node.children@[i as int]));
            }
            let cspan = Span::new(file, c.start, c.end);
            let pattern = convert_match_pattern(c, src, file);
            let body = field_or_expr(c, "body", ExprKind::LitNone, cspan, src, file, out);
            let ghost before = arms@;
            arms.push(MatchArm { pattern, body, span: cspan });
            proof {
                assert(arms@.drop_last() =~= before);
                assert(arm_is(arms@.last(), *c, src@, file));
            }
        }
        i += 1;
    }
    proof {
        assert(cs.subrange(0, i as int) =~= cs);
    }
    arms
}

// ---- calls ----

/// A call argument: its name, if it is written `name = value`, and its
/// value.
pub fn convert_call_arg(c: &CstNode, src: &str, file: FileId, out: &mut Vec<Diagnostic>) -> (r: CallArg)
    requires
        generics_have_base(*c),
    ensures
        carg_is(r, *c, src@, file),
        diags_view(final(out)@) == diags_view(old(out)@) + carg_diags(*c, src@, file),
    decreases c, 4int,
{
    proof {
        lemma_field_walk(c.children@, "value"@, src@, file);
    }
    let span = Span::new(file, c.start, c.end);
    let name = match find_field(c, "name") {
        Some(j) => Some(node_ident(&c.children[j], src, file)),
        None => None,
    };
    let value = match field_expr(c, "value", src, file, out) {
        Some(e) => e,
        None => {
            proof {
                assert(diags_view(out@) =~= diags_view(out@) + Seq::<DiagnosticView>::empty());
            }
            nth_expr(c, 0, span, src, file, out)
        },
    };
    CallArg { name, value, span }
}

/// The arguments written as content children of `p`.
fn convert_cargs_content(p: &CstNode, src: &str, file: FileId, out: &mut Vec<Diagnostic>) -> (r: Vec<CallArg>)
    requires
        generics_have_base(*p),
    ensures
        cargs_content_is(r@, p.children@, src@, file),
        diags_view(final(out)@) == diags_view(old(out)@) + cargs_content_diags(p.children@, src@, file),
    decreases p, 5int,
{
    let ghost cs = p.children@;
    let ghost h = diags_view(out@);
    let mut args: Vec<CallArg> = Vec::new();
    let mut i: usize = 0;
    proof {
        assert(cs.subrange(0, 0) =~= Seq::<CstNode>::empty());
        assert(h + Seq::<DiagnosticView>::empty() =~= h);
    }
    while i < p.children.len()
        invariant
            i <= cs.len(),
            cs == p.children@,
            generics_have_base(*p),
            cargs_content_is(args@, cs.subrange(0, i as int), src@, file),
            diags_view(out@) == h + cargs_content_diags(cs.subrange(0, i as int), src@, file),
        decreases cs.len() - i,
    {
        let ghost pre = cs.subrange(0, i + 1);
        proof {
            assert(pre.drop_last() =~= cs.subrange(0, i as int));
            assert(pre.last() == cs[i as int]);
        }
        let c = &p.children[i];
        if is_content_node(c) {
            proof {
                lemma_all_generics(cs, i as int);
                assert(decreases_to!(p => p.children@[i as int]));
            }
            let a = convert_call_arg(c, src, file, out);
            let ghost before = args@;
            args.push(a);
            proof {
                assert(args@.drop_last() =~= before);
            }
        }
        i += 1;
    }
    proof {
        assert(cs.subrange(0, i as int) =~= cs);
    }
    args
}

/// The arguments written as `call_arg` or `named_arg` children of `p`.
fn convert_cargs_kinds(p: &CstNode, src: &str, file: FileId, out: &mut Vec<Diagnostic>) -> (r: Vec<CallArg>)
    requires
        generics_have_base(*p),
    ensures
        cargs_kinds_is(r@, p.children@, src@, file),
        diags_view(final(out)@) == diags_view(old(out)@) + cargs_kinds_diags(p.children@, src@, file),
    decreases p, 4int,
{
    let ghost cs = p.children@;
    let ghost h = diags_view(out@);
    let mut args: Vec<CallArg> = Vec::new();
    let mut i: usize = 0;
    proof {
        assert(cs.subrange(0, 0) =~= Seq::<CstNode>::empty());
        assert(h + Seq::<DiagnosticView>::empty() =~= h);
    }
    while i < p.children.len()
        invariant
            i <= cs.len(),
            cs == p.children@,
            generics_have_base(*p),
            cargs_kinds_is(args@, cs.subrange(0, i as int), src@, file),
            diags_view(out@) == h + cargs_kinds_diags(cs.subrange(0, i as int), src@, file),
        decreases cs.len() - i,
    {
        let ghost pre = cs.subrange(0, i + 1);
        proof {
            assert(pre.drop_last() =~= cs.subrange(0, i as int));
            assert(pre.last() == cs[i as int]);
        }
        let c = &p.children[i];
        if c.named && (str_eq(c.kind.as_str(), "call_arg") || str_eq(c.kind.as_str(), "named_arg")) {
            proof {
                lemma_all_generics(cs, i as int);
                assert(decreases_to!(p => p.children@[i as int]));
            }
            let a = convert_call_arg(c, src, file, out);
            let ghost before = args@;
            args.push(a);
            proof {
                assert(args@.drop_last() =~= before);
            }
        }
        i += 1;
    }
    proof {
        assert(cs.subrange(0, i as int) =~= cs);
    }
    args
}

fn convert_call_args(node: &CstNode, src: &str, file: FileId, out: &mut Vec<Diagnostic>) -> (r: Vec<CallArg>)
    requires
        generics_have_base(*node),
    ensures
        call_args_is(r@, *node, src@, file),
        diags_view(final(out)@) == diags_view(old(out)@) + call_args_diags(*node, src@, file),
    decreases node, 5int,
{
    proof {
        reveal_strlit("call_args");
    }
    let span = Span::new(file, node.start, node.end);
    match first_of_kind(node, "call_args", Ghost(src@), Ghost(file), Ghost(span)) {
        Some(i) => {
            proof {
                lemma_all_generics(node.children@, i as int);
                assert(decreases_to!(node => node.children@[i as int]));
            }
            let r = convert_cargs_content(&node.children[i], src, file, out);
            proof {
                assert(first_child_index(node.children@, "call_args"@) is Some);
                assert(cargs_walk_is(r@, node.children@, src@, file)
                    == cargs_content_is(r@, node.children@[i as int].children@, src@, file));
                assert(cargs_walk_is(r@, node.children@, src@, file));
                assert(call_args_is(r@, *node, src@, file));
            }
            r
        },
        None => convert_cargs_kinds(node, src, file, out),
    }
}

/// Which event-log helper a callee name and arity select (0: none).
pub open spec fn spec_call_tag(nm: Seq<char>, m: nat) -> u8 {
    if nm == "events_before"@ && m == 1 { 1 }
    else if nm == "events_after"@ && m == 1 { 2 }
    else if nm == "between"@ && m == 2 { 3 }
    else if nm == "first"@ && m == 1 { 4 }
    else if nm == "first"@ && m == 2 { 5 }
    else if nm == "last"@ && m == 1 { 6 }
    else if nm == "last"@ && m == 2 { 7 }
    else if nm == "count"@ && m == 1 { 8 }
    else if nm == "count"@ && m == 2 { 9 }
    else if nm == "state_at"@ && m == 1 { 10 }
    else { 0 }
}

fn call_tag(nm: &str, m: usize) -> (r: u8)
    ensures
        r == spec_call_tag(nm@, m as nat),
{
    if str_eq(nm, "events_before") && m == 1 { 1 }
    else if str_eq(nm, "events_after") && m == 1 { 2 }
    else if str_eq(nm, "between") && m == 2 { 3 }
    else if str_eq(nm, "first") && m == 1 { 4 }
    else if str_eq(nm, "first") && m == 2 { 5 }
    else if str_eq(nm, "last") && m == 1 { 6 }
    else if str_eq(nm, "last") && m == 2 { 7 }
    else if str_eq(nm, "count") && m == 1 { 8 }
    else if str_eq(nm, "count") && m == 2 { 9 }
    else if str_eq(nm, "state_at") && m == 1 { 10 }
    else { 0 }
}

fn convert_call(node: &CstNode, src: &str, file: FileId, out: &mut Vec<Diagnostic>) -> (r: ExprKind)
    requires
        generics_have_base(*node),
    ensures
        call_is(r, *node, src@, file),
        diags_view(final(out)@) == diags_view(old(out)@) + field_diags(*node, "callee"@, src@, file)
            + call_args_diags(*node, src@, file),
    decreases node, 6int,
{
    let span = Span::new(file, node.start, node.end);
    let callee = field_or_expr(node, "callee", ExprKind::LitNone, span, src, file, out);
    let mut args = convert_call_args(node, src, file, out);
    let ghost gc = callee;
    let ghost ga = args@;
    let m = args.len();
    let tag: u8 = match &*callee.kind {
        ExprKind::Ident(id) => call_tag(id.name.as_str(), m),
        _ => 0,
    };
    proof {
        assert(tag != 0 ==> (*gc.kind matches ExprKind::Ident(id) && spec_call_tag(id.name@, m as nat) == tag));
    }
    let k = if tag == 0 {
        ExprKind::Call { callee, args }
    } else if m == 1 {
        let a0 = args.pop().unwrap();
        proof {
            assert(a0 == ga[0]);
        }
        if tag == 1 {
            ExprKind::EventsBefore(a0.value)
        } else if tag == 2 {
            ExprKind::EventsAfter(a0.value)
        } else if tag == 4 {
            ExprKind::FirstUnbounded(a0.value)
        } else if tag == 6 {
            ExprKind::LastUnbounded(a0.value)
        } else if tag == 8 {
            ExprKind::CountUnbounded(a0.value)
        } else {
            ExprKind::StateAt(a0.value)
        }
    } else {
        let a1 = args.pop().unwrap();
        let a0 = args.pop().unwrap();
        proof {
            assert(a0 == ga[0]);
            assert(a1 == ga[1]);
        }
        if tag == 3 {
            ExprKind::Between(a0.value, a1.value)
        } else if tag == 5 {
            ExprKind::FirstBounded(a0.value, a1.value)
        } else if tag == 7 {
            ExprKind::LastBounded(a0.value, a1.value)
        } else {
            ExprKind::CountBounded(a0.value, a1.value)
        }
    };
    proof {
        assert(call_result(k, gc, ga));
    }
    k
}

// ---- paths ----

proof fn lemma_local_len(part: Seq<PathAccessor>, cs: Seq<CstNode>, src: Seq<char>, file: FileId)
    requires
        local_accs_is(part, cs, src, file),
    ensures
        part.len() == local_count(cs),
    decreases cs.len(),
{
    if cs.len() > 0 {
        if is_dotted(cs.last()) {
            lemma_local_len(part.subrange(1, part.len() as int), cs.drop_last(), src, file);
        } else {
            lemma_local_len(part, cs.drop_last(), src, file);
        }
    }
}

/// Putting a child in front of the children puts its accessor, if it has
/// one, at the end of the accessors.
proof fn lemma_local_front(part: Seq<PathAccessor>, a: PathAccessor, c: CstNode, s: Seq<CstNode>, src: Seq<char>, file: FileId)
    requires
        local_accs_is(part, s, src, file),
        is_dotted(c) ==> dacc_is(a, c, src, file),
    ensures
        is_dotted(c) ==> local_accs_is(part.push(a), seq![c] + s, src, file),
        !is_dotted(c) ==> local_accs_is(part, seq![c] + s, src, file),
    decreases s.len(),
{
    let t = seq![c] + s;
    if s.len() == 0 {
        assert(t =~= seq![c]);
        assert(t.drop_last() =~= Seq::<CstNode>::empty());
        assert(t.last() == c);
        assert(part.len() == 0);
        if is_dotted(c) {
            let q = part.push(a);
            assert(q[0] == a);
            assert(q.subrange(1, q.len() as int) =~= Seq::<PathAccessor>::empty());
            assert(local_accs_is(q.subrange(1, q.len() as int), t.drop_last(), src, file));
        } else {
            assert(local_accs_is(part, t.drop_last(), src, file));
        }
    } else {
        assert(t.last() == s.last());
        assert(t.drop_last() =~= seq![c] + s.drop_last());
        if is_dotted(s.last()) {
            let p1 = part.subrange(1, part.len() as int);
            lemma_local_front(p1, a, c, s.drop_last(), src, file);
            if is_dotted(c) {
                let q = part.push(a);
                assert(q.subrange(1, q.len() as int) =~= p1.push(a));
                assert(q[0] == part[0]);
                assert(local_accs_is(q.subrange(1, q.len() as int), t.drop_last(), src, file));
            } else {
                assert(local_accs_is(p1, t.drop_last(), src, file));
            }
        } else {
            lemma_local_front(part, a, c, s.drop_last(), src, file);
            if is_dotted(c) {
                assert(local_accs_is(part.push(a), t.drop_last(), src, file));
            } else {
                assert(local_accs_is(part, t.drop_last(), src, file));
            }
        }
    }
}

fn after_dot_str(t: &str) -> (r: &str)
    ensures
        r@ == after_dot(t@),
{
    let n = t.unicode_len();
    if n > 0 && t.get_char(0) == '.' {
        proof {
            assert(t@.subrange(1, n as int) =~= t@.drop_first());
        }
        t.substring_char(1, n)
    } else {
        t
    }
}

/// The accessors of the dotted children, last child first.
fn local_accessors(node: &CstNode, src: &str, file: FileId) -> (r: Vec<PathAccessor>)
    ensures
        local_accs_is(r@, node.children@, src@, file),
        r@.len() == local_count(node.children@),
{
    proof {
        reveal_strlit("dotted_field");
        reveal_strlit("dotted_index");
    }
    let ghost cs = node.children@;
    let n = node.children.len();
    let mut loc: Vec<PathAccessor> = Vec::new();
    let mut i: usize = n;
    proof {
        assert(cs.subrange(n as int, n as int) =~= Seq::<CstNode>::empty());
    }
    while i > 0
        invariant
            i <= n,
            n == cs.len(),
            cs == node.children@,
            local_accs_is(loc@, cs.subrange(i as int, n as int), src@, file),
        decreases i,
    {
        proof {
            assert(cs.subrange(i - 1, n as int) =~= seq![cs[i - 1]] + cs.subrange(i as int, n as int));
        }
        let c = &node.children[i - 1];
        let fieldlike = str_eq(c.kind.as_str(), "dotted_field");
        if c.named && (fieldlike || str_eq(c.kind.as_str(), "dotted_index")) {
            let a = if fieldlike {
                PathAccessor::Field(Ident::new(after_dot_str(text_of(c, src)), Span::new(file, c.start, c.end)))
            } else {
                PathAccessor::TupleIndex(tuple_index_of(c, src))
            };
            proof {
                lemma_local_front(loc@, a, cs[i - 1], cs.subrange(i as int, n as int), src@, file);
            }
            loc.push(a);
        } else {
            proof {
                lemma_local_front(loc@, PathAccessor::TupleIndex(0), cs[i - 1], cs.subrange(i as int, n as int), src@, file);
            }
        }
        i -= 1;
    }
    proof {
        assert(cs.subrange(0, n as int) =~= cs);
        lemma_local_len(loc@, cs, src@, file);
    }
    loc
}

/// The head and accessors a path node spells.
fn convert_path(node: &CstNode, src: &str, file: FileId, out: &mut Vec<Diagnostic>) -> (r: (Ident, Vec<PathAccessor>))
    requires
        generics_have_base(*node),
    ensures
        path_is(r.0, r.1@, *node, src@, file),
        diags_view(final(out)@) == diags_view(old(out)@) + path_diags(*node, src@, file),
    decreases node, 6int,
{
    let ghost cs = node.children@;
    let ghost h = diags_view(out@);
    let kd = node.kind.as_str();
    let span = Span::new(file, node.start, node.end);
    proof {
        assert(h + Seq::<DiagnosticView>::empty() =~= h);
        assert(span == node_span(*node, file));
    }
    if str_eq(kd, "field_access") || str_eq(kd, "dotted_field") {
        let (head, pre) = convert_base(node, src, file, out);
        let ghost gpre = pre@;
        let mut loc = local_accessors(node, src, file);
        let ghost gloc = loc@;
        let mut accs = pre;
        accs.append(&mut loc);
        proof {
            let m = local_count(cs);
            assert(accs@ == gpre + gloc);
            assert(accs@.subrange(accs@.len() - m, accs@.len() as int) =~= gloc);
            assert(accs@.subrange(0, accs@.len() - m) =~= gpre);
            assert(path_is(head, accs@, *node, src@, file));
            assert(diags_view(out@) == h + path_diags(*node, src@, file));
        }
        (head, accs)
    } else if str_eq(kd, "dotted_index") {
        let mut accs: Vec<PathAccessor> = Vec::new();
        accs.push(PathAccessor::TupleIndex(tuple_index_of(node, src)));
        let head = Ident::new("<missing>", span);
        proof {
            assert(accs@ =~= seq![PathAccessor::TupleIndex(tuple_index(*node, src@))]);
            assert(path_is(head, accs@, *node, src@, file));
        }
        (head, accs)
    } else if str_eq(kd, "index_expr") || str_eq(kd, "indexed_path") {
        match field_expr(node, "index", src, file, out) {
            Some(e) => {
                let (head, pre) = convert_base(node, src, file, out);
                let mut accs = pre;
                let ghost gpre = accs@;
                accs.push(PathAccessor::Index(e));
                proof {
                    assert(accs@.drop_last() =~= gpre);
                    assert(path_is(head, accs@, *node, src@, file));
                    assert(diags_view(out@) =~= h + path_diags(*node, src@, file));
                }
                (head, accs)
            },
            None => {
                proof {
                    lemma_field_walk(cs, "index"@, src@, file);
                }
                let r = convert_base(node, src, file, out);
                proof {
                    assert(path_is(r.0, r.1@, *node, src@, file));
                    assert(diags_view(out@) =~= h + path_diags(*node, src@, file));
                }
                r
            },
        }
    } else if str_eq(kd, "identifier") {
        let head = node_ident(node, src, file);
        let accs: Vec<PathAccessor> = Vec::new();
        proof {
            assert(path_is(head, accs@, *node, src@, file));
        }
        (head, accs)
    } else if str_eq(kd, "qualified_name") {
        let ids = crate::cst::named_children_of(node, "identifier");
        let ghost ks = named_of_kind(cs, "identifier"@);
        if ids.len() == 0 {
            (Ident::new("<missing>", span), Vec::new())
        } else {
            let head = node_ident(ids[0], src, file);
            let n = ids.len();
            let mut accs: Vec<PathAccessor> = Vec::new();
            let mut i: usize = 0;
            while i + 1 < n
                invariant
                    n == ids@.len(),
                    n > 0,
                    i + 1 <= n,
                    ids@.len() == ks.len(),
                    forall|j: int| 0 <= j < ids@.len() ==> *(#[trigger] ids@[j]) == ks[j],
                    accs@.len() == i,
                    forall|j: int| 0 <= j < accs@.len() ==>
                        (#[trigger] accs@[j] matches PathAccessor::Field(id) && nid_is(id, ks[ks.len() - 1 - j], src@, file)),
                decreases n - i,
            {
                accs.push(PathAccessor::Field(node_ident(ids[n - 1 - i], src, file)));
                i += 1;
            }
            proof {
                assert(path_is(head, accs@, *node, src@, file));
            }
            (head, accs)
        }
    } else {
        match first_content_of(node, Ghost(*node), Ghost(span), Ghost(src@), Ghost(file)) {
            Some(i) => {
                proof {
                    lemma_all_generics(cs, i as int);
                    assert(decreases_to!(node => node.children@[i as int]));
                }
                let r = convert_path(&node.children[i], src, file, out);
                proof {
                    assert(path_is(r.0, r.1@, cs[i as int], src@, file));
                    assert(cpath_is(r.0, r.1@, cs, span, src@, file) == path_is(r.0, r.1@, cs[i as int], src@, file));
                    assert(path_is(r.0, r.1@, *node, src@, file));
                    assert(diags_view(out@) =~= h + path_diags(*node, src@, file));
                }
                r
            },
            None => {
                let head = Ident::new("<missing>", span);
                let accs: Vec<PathAccessor> = Vec::new();
                proof {
                    assert(cpath_is(head, accs@, cs, span, src@, file));
                    assert(path_is(head, accs@, *node, src@, file));
                }
                (head, accs)
            },
        }
    }
}

/// The head and accessors of a path node's `object` or `base` field.
fn convert_base(node: &CstNode, src: &str, file: FileId, out: &mut Vec<Diagnostic>) -> (r: (Ident, Vec<PathAccessor>))
    requires
        generics_have_base(*node),
    ensures
        base_is(r.0, r.1@, *node, src@, file),
        diags_view(final(out)@) == diags_view(old(out)@) + base_diags(*node, src@, file),
    decreases node, 5int,
{
    proof {
        lemma_field_walk(node.children@, "object"@, src@, file);
        lemma_field_walk(node.children@, "base"@, src@, file);
    }
    match find_field(node, "object") {
        Some(j) => {
            proof {
                lemma_all_generics(node.children@, j as int);
                assert(decreases_to!(node => node.children@[j as int]));
            }
            let r = convert_path(&node.children[j], src, file, out);
            proof {
                assert(fpath_is(r.0, r.1@, node.children@, "object"@, src@, file));
            }
            r
        },
        None => match find_field(node, "base") {
            Some(j) => {
                proof {
                    lemma_all_generics(node.children@, j as int);
                    assert(decreases_to!(node => node.children@[j as int]));
                }
                let r = convert_path(&node.children[j], src, file, out);
                proof {
                    assert(fpath_is(r.0, r.1@, node.children@, "base"@, src@, file));
                }
                r
            },
            None => {
                proof {
                    assert(diags_view(out@) =~= diags_view(out@) + Seq::<DiagnosticView>::empty());
                }
                (Ident::new("<missing>", Span::new(file, node.start, node.end)), Vec::new())
            },
        },
    }
}

} // verus!
