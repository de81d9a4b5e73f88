//! Type expressions read off their syntax trees.

use vstd::prelude::*;
use crate::codes::{Code, ErrorKind};
use crate::cst::{CstNode, convert_qualified_name, convert_simple_type, field_index, first_child_index, ident_from_node,
    named_of_kind, node_span, node_text, simple_type_is, simple_type_name_node, text_of};
use crate::diagnostic::{Diagnostic, DiagnosticView, diags_view, plain, lemma_diags_view_append};
use crate::ident::{Ident, QualifiedName};
use crate::slot_syntax::is_comment;
use crate::span::{FileId, Span};
use crate::text::{cat, decimal, spec_decimal, str_eq};
use crate::ty::{RecordTypeField, Type, TypeKind};

verus! {

// ---- well-formed trees ----

/// Every `generic_type` node of the tree has a `base` field.
pub open spec fn generics_have_base(n: CstNode) -> bool
    decreases n, 1int,
{
    &&& (n.kind@ == "generic_type"@ ==> field_index(n.children@, "base"@) is Some)
    &&& all_generics_have_base(n.children@)
}

pub open spec fn all_generics_have_base(cs: Seq<CstNode>) -> bool
    decreases cs, 0int,
{
    cs.len() > 0 ==> generics_have_base(cs.last()) && all_generics_have_base(cs.drop_last())
}

// ---- the type a node denotes ----

/// A one-segment named type spelled `name` at `span`.
pub open spec fn named_one(k: TypeKind, name: Seq<char>, span: Span) -> bool {
    &&& k matches TypeKind::Named(q)
    &&& q.segments@.len() == 1
    &&& q.segments@[0].name@ == name
    &&& q.segments@[0].span == span
    &&& q.span == span
}

pub open spec fn internal(msg: Seq<char>, n: CstNode, file: FileId) -> DiagnosticView {
    plain(Code::Error(ErrorKind::Internal), msg, node_span(n, file))
}

/// `t` is the type the node `n` denotes: at `n`'s span, of the kind of
/// its first named child when `n` is a `type_expr`, else of `n` itself.
pub open spec fn type_is(t: Type, n: CstNode, src: Seq<char>, file: FileId) -> bool
    decreases n, 3int,
{
    &&& t.span == node_span(n, file)
    &&& if n.kind@ == "type_expr"@ {
        if has_content(n.children@) {
            content_kind_is(t.kind, n.children@, src, file, node_span(n, file))
        } else {
            named_one(t.kind, "<empty>"@, node_span(n, file))
        }
    } else {
        kind_is(t.kind, n, src, file, node_span(n, file))
    }
}

pub open spec fn has_content(cs: Seq<CstNode>) -> bool {
    exists|i: int| 0 <= i < cs.len() && (#[trigger] cs[i]).named && !is_comment(cs[i])
}

/// The kind the first named, non-comment node of `cs` denotes.
pub open spec fn content_kind_is(k: TypeKind, cs: Seq<CstNode>, src: Seq<char>, file: FileId, outer: Span) -> bool
    decreases cs, 0int,
{
    if cs.len() == 0 {
        false
    } else if cs[0].named && !is_comment(cs[0]) {
        kind_is(k, cs[0], src, file, outer)
    } else {
        content_kind_is(k, cs.subrange(1, cs.len() as int), src, file, outer)
    }
}

/// The kind a type node denotes; an unknown kind is `<unknown>` at the
/// outer type's span.
pub open spec fn kind_is(k: TypeKind, n: CstNode, src: Seq<char>, file: FileId, outer: Span) -> bool
    decreases n, 2int,
{
    if n.kind@ == "simple_type"@ {
        simple_type_is(k, node_text(simple_type_name_node(n), src), node_span(simple_type_name_node(n), file))
    } else if n.kind@ == "generic_type"@ {
        generic_is(k, n, src, file)
    } else if n.kind@ == "qualified_type"@ {
        k matches TypeKind::Named(q) && qualified_from(q, n, src, file)
    } else if n.kind@ == "record_type"@ {
        k matches TypeKind::Record(fs) && fields_are(fs@, n.children@, src, file)
    } else if n.kind@ == "tuple_type"@ {
        k matches TypeKind::Tuple(ts) && types_are(ts@, n.children@, src, file)
    } else if n.kind@ == "union_type"@ {
        k matches TypeKind::Union(ts) && types_are(ts@, n.children@, src, file)
    } else if n.kind@ == "enum_type"@ {
        k matches TypeKind::Enum(ids) && ids@.len() == named_of_kind(n.children@, "identifier"@).len()
            && forall|i: int| 0 <= i < ids@.len() ==> {
                &&& (#[trigger] ids@[i]).name@ == node_text(named_of_kind(n.children@, "identifier"@)[i], src)
                &&& ids@[i].span == node_span(named_of_kind(n.children@, "identifier"@)[i], file)
            }
    } else {
        named_one(k, "<unknown>"@, outer)
    }
}

/// `q` is the qualified name of the first `qualified_name` child of a
/// `qualified_type`, or of the node itself.
pub open spec fn qualified_from(q: QualifiedName, n: CstNode, src: Seq<char>, file: FileId) -> bool {
    let qn = match first_child_index(n.children@, "qualified_name"@) {
        Some(j) => n.children@[j],
        None => n,
    };
    let ks = named_of_kind(qn.children@, "identifier"@);
    &&& ks.len() > 0 ==> q.segments@.len() == ks.len() && forall|i: int| 0 <= i < ks.len() ==> {
        &&& (#[trigger] q.segments@[i]).name@ == node_text(ks[i], src)
        &&& q.segments@[i].span == node_span(ks[i], file)
    }
    &&& ks.len() == 0 ==> q.segments@.len() == 1 && q.segments@[0].name@ == "<missing>"@
        && q.segments@[0].span == node_span(qn, file)
}

/// The types of the named `type_expr` children among `cs`, in order.
pub open spec fn types_are(ts: Seq<Type>, cs: Seq<CstNode>, src: Seq<char>, file: FileId) -> bool
    decreases cs, 0int,
{
    if cs.len() == 0 {
        ts.len() == 0
    } else if cs.last().named && cs.last().kind@ == "type_expr"@ {
        ts.len() > 0 && type_is(ts.last(), cs.last(), src, file) && types_are(ts.drop_last(), cs.drop_last(), src, file)
    } else {
        types_are(ts, cs.drop_last(), src, file)
    }
}

/// The fields of the named `record_type_field` children among `cs`.
pub open spec fn fields_are(fs: Seq<RecordTypeField>, cs: Seq<CstNode>, src: Seq<char>, file: FileId) -> bool
    decreases cs, 0int,
{
    if cs.len() == 0 {
        fs.len() == 0
    } else if cs.last().named && cs.last().kind@ == "record_type_field"@ {
        fs.len() > 0 && field_is(fs.last(), cs.last(), src, file) && fields_are(fs.drop_last(), cs.drop_last(), src, file)
    } else {
        fields_are(fs, cs.drop_last(), src, file)
    }
}

/// A record field: its `name` field (or `<missing>`) and the type of its
/// `type` field (or a `<missing>` named type), at the field's span.
pub open spec fn field_is(f: RecordTypeField, n: CstNode, src: Seq<char>, file: FileId) -> bool
    decreases n, 2int,
{
    &&& f.span == node_span(n, file)
    &&& match field_index(n.children@, "name"@) {
        Some(j) => f.name.name@ == node_text(n.children@[j], src) && f.name.span == node_span(n.children@[j], file),
        None => f.name.name@ == "<missing>"@ && f.name.span == node_span(n, file),
    }
    &&& field_type_is(f.ty, n.children@, src, file, node_span(n, file))
}

/// The type of the first child filling the `type` field of its parent.
pub open spec fn field_type_is(t: Type, cs: Seq<CstNode>, src: Seq<char>, file: FileId, span: Span) -> bool
    decreases cs, 0int,
{
    if cs.len() == 0 {
        t.span == span && named_one(t.kind, "<missing>"@, span)
    } else if cs[0].field matches Some(f) && f@ == "type"@ {
        type_is(t, cs[0], src, file)
    } else {
        field_type_is(t, cs.subrange(1, cs.len() as int), src, file, span)
    }
}

/// A generic type: `Map` with `key` and `value` fields, `Set`, `Seq` and
/// `Optional` with one type argument; anything else a named type at the
/// base.
pub open spec fn generic_is(k: TypeKind, n: CstNode, src: Seq<char>, file: FileId) -> bool
    decreases n, 1int,
{
    let base = n.children@[field_index(n.children@, "base"@).unwrap()];
    let name = node_text(base, src);
    if field_index(n.children@, "key"@) is Some && field_index(n.children@, "value"@) is Some {
        if name == "Map"@ {
            k matches TypeKind::MapOf(kt, vt)
                && field_child_type_is(*kt, n.children@, "key"@, src, file)
                && field_child_type_is(*vt, n.children@, "value"@, src, file)
        } else {
            named_one(k, name, node_span(base, file))
        }
    } else {
        let count = named_of_kind(n.children@, "type_expr"@).len();
        if count == 1 && (name == "Set"@ || name == "Seq"@ || name == "Optional"@) {
            &&& name == "Set"@ ==> (k matches TypeKind::SetOf(b) && types_are(seq![*b], n.children@, src, file))
            &&& name == "Seq"@ ==> (k matches TypeKind::SeqOf(b) && types_are(seq![*b], n.children@, src, file))
            &&& name == "Optional"@ ==> (k matches TypeKind::Optional(b) && types_are(seq![*b], n.children@, src, file))
        } else {
            named_one(k, name, node_span(base, file))
        }
    }
}

/// The type of the first child filling field `f`.
pub open spec fn field_child_type_is(t: Type, cs: Seq<CstNode>, f: Seq<char>, src: Seq<char>, file: FileId) -> bool
    decreases cs, 0int,
{
    if cs.len() == 0 {
        false
    } else if cs[0].field matches Some(g) && g@ == f {
        type_is(t, cs[0], src, file)
    } else {
        field_child_type_is(t, cs.subrange(1, cs.len() as int), f, src, file)
    }
}

// ---- the diagnostics of reading a type ----

pub open spec fn type_diags(n: CstNode, src: Seq<char>, file: FileId) -> Seq<DiagnosticView>
    decreases n, 3int,
{
    if n.kind@ == "type_expr"@ {
        if has_content(n.children@) {
            content_diags(n.children@, src, file)
        } else {
            seq![internal("empty type_expr"@, n, file)]
        }
    } else {
        kind_diags(n, src, file)
    }
}

pub open spec fn content_diags(cs: Seq<CstNode>, src: Seq<char>, file: FileId) -> Seq<DiagnosticView>
    decreases cs, 0int,
{
    if cs.len() == 0 {
        Seq::empty()
    } else if cs[0].named && !is_comment(cs[0]) {
        kind_diags(cs[0], src, file)
    } else {
        content_diags(cs.subrange(1, cs.len() as int), src, file)
    }
}

pub open spec fn kind_diags(n: CstNode, src: Seq<char>, file: FileId) -> Seq<DiagnosticView>
    decreases n, 2int,
{
    if n.kind@ == "simple_type"@ || n.kind@ == "qualified_type"@ || n.kind@ == "enum_type"@ {
        Seq::empty()
    } else if n.kind@ == "generic_type"@ {
        generic_diags(n, src, file)
    } else if n.kind@ == "record_type"@ {
        fields_diags(n.children@, src, file)
    } else if n.kind@ == "tuple_type"@ || n.kind@ == "union_type"@ {
        types_diags(n.children@, src, file)
    } else {
        seq![internal("unhandled type kind `"@ + n.kind@ + "`"@, n, file)]
    }
}

pub open spec fn types_diags(cs: Seq<CstNode>, src: Seq<char>, file: FileId) -> Seq<DiagnosticView>
    decreases cs, 0int,
{
    if cs.len() == 0 {
        Seq::empty()
    } else if cs.last().named && cs.last().kind@ == "type_expr"@ {
        types_diags(cs.drop_last(), src, file) + type_diags(cs.last(), src, file)
    } else {
        types_diags(cs.drop_last(), src, file)
    }
}

pub open spec fn fields_diags(cs: Seq<CstNode>, src: Seq<char>, file: FileId) -> Seq<DiagnosticView>
    decreases cs, 0int,
{
    if cs.len() == 0 {
        Seq::empty()
    } else if cs.last().named && cs.last().kind@ == "record_type_field"@ {
        fields_diags(cs.drop_last(), src, file) + field_diags(cs.last(), src, file)
    } else {
        fields_diags(cs.drop_last(), src, file)
    }
}

pub open spec fn field_diags(n: CstNode, src: Seq<char>, file: FileId) -> Seq<DiagnosticView>
    decreases n, 2int,
{
    child_type_diags(n.children@, "type"@, src, file)
}

pub open spec fn child_type_diags(cs: Seq<CstNode>, f: Seq<char>, src: Seq<char>, file: FileId) -> Seq<DiagnosticView>
    decreases cs, 0int,
{
    if cs.len() == 0 {
        Seq::empty()
    } else if cs[0].field matches Some(g) && g@ == f {
        type_diags(cs[0], src, file)
    } else {
        child_type_diags(cs.subrange(1, cs.len() as int), f, src, file)
    }
}

pub open spec fn generic_diags(n: CstNode, src: Seq<char>, file: FileId) -> Seq<DiagnosticView>
    decreases n, 1int,
{
    let name = node_text(n.children@[field_index(n.children@, "base"@).unwrap()], src);
    if field_index(n.children@, "key"@) is Some && field_index(n.children@, "value"@) is Some {
        child_type_diags(n.children@, "key"@, src, file) + child_type_diags(n.children@, "value"@, src, file)
            + if name == "Map"@ {
                Seq::empty()
            } else {
                seq![internal("unexpected key/value on generic type `"@ + name + "`"@, n, file)]
            }
    } else {
        let count = named_of_kind(n.children@, "type_expr"@).len();
        types_diags(n.children@, src, file) + if count == 1 && (name == "Set"@ || name == "Seq"@ || name == "Optional"@) {
            Seq::empty()
        } else {
            seq![internal("unhandled generic type `"@ + name + "` with "@ + spec_decimal(count) + " args"@, n, file)]
        }
    }
}

// ---- lemmas ----

pub proof fn lemma_all_generics(cs: Seq<CstNode>, j: int)
    requires
        all_generics_have_base(cs),
        0 <= j < cs.len(),
    ensures
        generics_have_base(cs[j]),
    decreases cs.len(),
{
    if j < cs.len() - 1 {
        assert(cs.drop_last()[j] == cs[j]);
        lemma_all_generics(cs.drop_last(), j);
    }
}

/// The first named, non-comment child is what the content walkers read.
proof fn lemma_content(cs: Seq<CstNode>, i: int, src: Seq<char>, file: FileId)
    requires
        0 <= i < cs.len(),
        cs[i].named && !is_comment(cs[i]),
        forall|k: int| 0 <= k < i ==> !((#[trigger] cs[k]).named && !is_comment(cs[k])),
    ensures
        forall|t: TypeKind, outer: Span| content_kind_is(t, cs, src, file, outer) == kind_is(t, cs[i], src, file, outer),
        content_diags(cs, src, file) == kind_diags(cs[i], src, file),
        has_content(cs),
    decreases i,
{
    if i > 0 {
        let rest = cs.subrange(1, cs.len() as int);
        assert forall|k: int| 0 <= k < i - 1 implies !((#[trigger] rest[k]).named && !is_comment(rest[k])) by {
            assert(rest[k] == cs[k + 1]);
        }
        assert(rest[i - 1] == cs[i]);
        assert(!(cs[0].named && !is_comment(cs[0])));
        lemma_content(rest, i - 1, src, file);
        assert forall|t: TypeKind, outer: Span| content_kind_is(t, cs, src, file, outer)
            == content_kind_is(t, rest, src, file, outer) by {}
    } else {
        assert forall|t: TypeKind, outer: Span| content_kind_is(t, cs, src, file, outer)
            == kind_is(t, cs[0], src, file, outer) by {}
    }
    assert(cs[i].named && !is_comment(cs[i]));
}

proof fn lemma_no_content(cs: Seq<CstNode>)
    requires
        forall|k: int| 0 <= k < cs.len() ==> !((#[trigger] cs[k]).named && !is_comment(cs[k])),
    ensures
        !has_content(cs),
{
}

/// The field walkers read the child `field_index` names.
proof fn lemma_field_walkers(cs: Seq<CstNode>, f: Seq<char>, src: Seq<char>, file: FileId)
    ensures
        match field_index(cs, f) {
            Some(j) => {
                &&& child_type_diags(cs, f, src, file) == type_diags(cs[j], src, file)
                &&& forall|t: Type| field_child_type_is(t, cs, f, src, file) == type_is(t, cs[j], src, file)
            },
            None => {
                &&& child_type_diags(cs, f, src, file) == Seq::<DiagnosticView>::empty()
                &&& forall|t: Type| !field_child_type_is(t, cs, f, src, file)
            },
        },
    decreases cs.len(),
{
    if cs.len() > 0 {
        let rest = cs.subrange(1, cs.len() as int);
        assert(rest =~= cs.drop_first());
        lemma_field_walkers(rest, f, src, file);
        crate::cst::lemma_field_index(rest, f);
        if !(cs[0].field matches Some(g) && g@ == f) {
            assert(child_type_diags(cs, f, src, file) == child_type_diags(rest, f, src, file));
            assert forall|t: Type| field_child_type_is(t, cs, f, src, file) == field_child_type_is(t, rest, f, src, file) by {}
            match field_index(rest, f) {
                Some(j) => {
                    assert(rest[j] == cs[j + 1]);
                    assert(field_index(cs, f) == Some(j + 1));
                },
                None => {
                    assert(field_index(cs, f) is None);
                },
            }
        } else {
            assert(field_index(cs, f) == Some(0int));
            assert forall|t: Type| field_child_type_is(t, cs, f, src, file) == type_is(t, cs[0], src, file) by {}
        }
    }
}

proof fn lemma_type_field_walker(cs: Seq<CstNode>, src: Seq<char>, file: FileId, span: Span)
    ensures
        match field_index(cs, "type"@) {
            Some(j) => forall|t: Type| field_type_is(t, cs, src, file, span) == type_is(t, cs[j], src, file),
            None => forall|t: Type| field_type_is(t, cs, src, file, span)
                == (t.span == span && named_one(t.kind, "<missing>"@, span)),
        },
    decreases cs.len(),
{
    if cs.len() > 0 {
        let rest = cs.subrange(1, cs.len() as int);
        assert(rest =~= cs.drop_first());
        lemma_type_field_walker(rest, src, file, span);
        crate::cst::lemma_field_index(rest, "type"@);
        if !(cs[0].field matches Some(g) && g@ == "type"@) {
            assert forall|t: Type| field_type_is(t, cs, src, file, span) == field_type_is(t, rest, src, file, span) by {}
            match field_index(rest, "type"@) {
                Some(j) => {
                    assert(rest[j] == cs[j + 1]);
                    assert(field_index(cs, "type"@) == Some(j + 1));
                },
                None => {
                    assert(field_index(cs, "type"@) is None);
                },
            }
        } else {
            assert(field_index(cs, "type"@) == Some(0int));
            assert forall|t: Type| field_type_is(t, cs, src, file, span) == type_is(t, cs[0], src, file) by {}
        }
    }
}

proof fn lemma_types_count(ts: Seq<Type>, cs: Seq<CstNode>, src: Seq<char>, file: FileId)
    requires
        types_are(ts, cs, src, file),
    ensures
        ts.len() == named_of_kind(cs, "type_expr"@).len(),
    decreases cs.len(),
{
    if cs.len() > 0 {
        if cs.last().named && cs.last().kind@ == "type_expr"@ {
            lemma_types_count(ts.drop_last(), cs.drop_last(), src, file);
        } else {
            lemma_types_count(ts, cs.drop_last(), src, file);
        }
    }
}

// ---- exec ----

pub(crate) fn named_at(name: &str, span: Span) -> (r: TypeKind)
    ensures
        named_one(r, name@, span),
{
    let mut segs: Vec<Ident> = Vec::new();
    segs.push(Ident::new(name, span));
    let q = QualifiedName::new(segs);
    proof {
        assert(span.spec_merge(span) == span);
    }
    TypeKind::Named(q)
}

pub(crate) fn internal_error(msg: &str, node: &CstNode, file: FileId, out: &mut Vec<Diagnostic>)
    ensures
        diags_view(final(out)@) == diags_view(old(out)@) + seq![internal(msg@, *node, file)],
{
    let d = Diagnostic::error(ErrorKind::Internal, msg, Span::new(file, node.start, node.end));
    proof {
        lemma_diags_view_append(out@, seq![d]);
    }
    out.push(d);
    proof {
        assert(out@ =~= old(out)@ + seq![d]);
    }
}

pub(crate) fn find_content(node: &CstNode) -> (r: Option<usize>)
    ensures
        r matches Some(i) ==> i < node.children@.len() && node.children@[i as int].named
            && !is_comment(node.children@[i as int])
            && forall|k: int| 0 <= k < i ==> !((#[trigger] node.children@[k]).named && !is_comment(node.children@[k])),
        r is None ==> forall|k: int| 0 <= k < node.children@.len()
            ==> !((#[trigger] node.children@[k]).named && !is_comment(node.children@[k])),
{
    proof {
        reveal_strlit("line_comment");
        reveal_strlit("block_comment");
    }
    let mut i: usize = 0;
    while i < node.children.len()
        invariant
            i <= node.children@.len(),
            forall|k: int| 0 <= k < i ==> !((#[trigger] node.children@[k]).named && !is_comment(node.children@[k])),
        decreases node.children@.len() - i,
    {
        let c = &node.children[i];
        if c.named && !str_eq(c.kind.as_str(), "line_comment") && !str_eq(c.kind.as_str(), "block_comment") {
            return Some(i);
        }
        i += 1;
    }
    None
}

pub(crate) fn find_field(node: &CstNode, f: &str) -> (r: Option<usize>)
    ensures
        r matches Some(j) ==> field_index(node.children@, f@) == Some(j as int) && j < node.children@.len(),
        r is None ==> field_index(node.children@, f@) is None,
{
    proof {
        crate::cst::lemma_field_index(node.children@, f@);
    }
    let mut i: usize = 0;
    while i < node.children.len()
        invariant
            i <= node.children@.len(),
            forall|k: int| 0 <= k < i ==> !((#[trigger] node.children@[k]).field matches Some(g) && g@ == f@),
            field_index(node.children@, f@) matches Some(j) ==> 0 <= j < node.children@.len()
                && (node.children@[j].field matches Some(g) && g@ == f@)
                && forall|k: int| 0 <= k < j ==> !((#[trigger] node.children@[k]).field matches Some(g) && g@ == f@),
            field_index(node.children@, f@) is None ==> forall|k: int| 0 <= k < node.children@.len()
                ==> !((#[trigger] node.children@[k]).field matches Some(g) && g@ == f@),
        decreases node.children@.len() - i,
    {
        let c = &node.children[i];
        let hit = match &c.field {
            Some(g) => str_eq(g.as_str(), f),
            None => false,
        };
        if hit {
            proof {
                let j = field_index(node.children@, f@);
                if let Some(jj) = j {
                    if jj < i {
                        assert(!(node.children@[jj].field matches Some(g) && g@ == f@));
                    }
                    if jj > i {
                        assert(!(node.children@[i as int].field matches Some(g) && g@ == f@));
                    }
                }
            }
            return Some(i);
        }
        i += 1;
    }
    None
}

/// The type a node denotes (a `type_expr`, or a type node itself), with
/// the internal errors met on the way.
pub fn convert_type_expr(node: &CstNode, source: &str, file: FileId, out: &mut Vec<Diagnostic>) -> (r: Type)
    requires
        generics_have_base(*node),
    ensures
        type_is(r, *node, source@, file),
        diags_view(final(out)@) == diags_view(old(out)@) + type_diags(*node, source@, file),
    decreases node, 3int,
{
    proof {
        reveal_strlit("type_expr");
        reveal_strlit("<empty>");
        reveal_strlit("empty type_expr");
    }
    let span = Span::new(file, node.start, node.end);
    if str_eq(node.kind.as_str(), "type_expr") {
        match find_content(node) {
            Some(i) => {
                proof {
                    lemma_content(node.children@, i as int, source@, file);
                    lemma_all_generics(node.children@, i as int);
                    assert(decreases_to!(node => node.children@[i as int]));
                }
                let kind = convert_kind(&node.children[i], span, source, file, out);
                proof {
                    assert(kind_is(kind, node.children@[i as int], source@, file, span));
                    assert(content_kind_is(kind, node.children@, source@, file, span));
                }
                Type { kind, span }
            },
            None => {
                proof {
                    lemma_no_content(node.children@);
                }
                internal_error("empty type_expr", node, file, out);
                Type { kind: named_at("<empty>", span), span }
            },
        }
    } else {
        let kind = convert_kind(node, span, source, file, out);
        Type { kind, span }
    }
}

fn convert_kind(node: &CstNode, outer: Span, source: &str, file: FileId, out: &mut Vec<Diagnostic>) -> (r: TypeKind)
    requires
        generics_have_base(*node),
    ensures
        kind_is(r, *node, source@, file, outer),
        diags_view(final(out)@) == diags_view(old(out)@) + kind_diags(*node, source@, file),
    decreases node, 2int,
{
    proof {
        reveal_strlit("simple_type");
        reveal_strlit("generic_type");
        reveal_strlit("qualified_type");
        reveal_strlit("record_type");
        reveal_strlit("tuple_type");
        reveal_strlit("union_type");
        reveal_strlit("enum_type");
        reveal_strlit("qualified_name");
        reveal_strlit("identifier");
        reveal_strlit("<unknown>");
        reveal_strlit("unhandled type kind `");
        reveal_strlit("`");
    }
    let ghost h = diags_view(out@);
    let k = node.kind.as_str();
    if str_eq(k, "simple_type") {
        proof {
            assert(diags_view(out@) =~= h + Seq::<DiagnosticView>::empty());
        }
        convert_simple_type(node, source, file)
    } else if str_eq(k, "generic_type") {
        convert_generic(node, source, file, out)
    } else if str_eq(k, "qualified_type") {
        let qn = match crate::cst::first_child(node, "qualified_name") {
            Some(c) => c,
            None => node,
        };
        proof {
            assert(diags_view(out@) =~= h + Seq::<DiagnosticView>::empty());
        }
        TypeKind::Named(convert_qualified_name(qn, source, file))
    } else if str_eq(k, "record_type") {
        let fs = convert_fields(node, source, file, out);
        TypeKind::Record(fs)
    } else if str_eq(k, "tuple_type") {
        let ts = convert_types(node, source, file, out);
        TypeKind::Tuple(ts)
    } else if str_eq(k, "union_type") {
        let ts = convert_types(node, source, file, out);
        TypeKind::Union(ts)
    } else if str_eq(k, "enum_type") {
        let ids = crate::cst::named_children_of(node, "identifier");
        let ghost ks = named_of_kind(node.children@, "identifier"@);
        let mut vs: Vec<Ident> = Vec::new();
        let mut i: usize = 0;
        while i < ids.len()
            invariant
                i <= ids@.len(),
                ids@.len() == ks.len(),
                forall|j: int| 0 <= j < ids@.len() ==> *(#[trigger] ids@[j]) == ks[j],
                vs@.len() == i,
                forall|j: int| 0 <= j < i ==> (#[trigger] vs@[j]).name@ == node_text(ks[j], source@)
                    && vs@[j].span == node_span(ks[j], file),
            decreases ids@.len() - i,
        {
            vs.push(ident_from_node(ids[i], source, file));
            i += 1;
        }
        proof {
            assert(diags_view(out@) =~= h + Seq::<DiagnosticView>::empty());
        }
        TypeKind::Enum(vs)
    } else {
        let m = cat("unhandled type kind `", k);
        let m = cat(m.as_str(), "`");
        internal_error(m.as_str(), node, file, out);
        named_at("<unknown>", outer)
    }
}

/// The types of the named `type_expr` children, in order.
fn convert_types(node: &CstNode, source: &str, file: FileId, out: &mut Vec<Diagnostic>) -> (r: Vec<Type>)
    requires
        generics_have_base(*node),
    ensures
        types_are(r@, node.children@, source@, file),
        diags_view(final(out)@) == diags_view(old(out)@) + types_diags(node.children@, source@, file),
    decreases node, 0int,
{
    proof {
        reveal_strlit("type_expr");
    }
    let ghost cs = node.children@;
    let ghost h = diags_view(out@);
    let mut ts: Vec<Type> = Vec::new();
    let mut i: usize = 0;
    proof {
        assert(cs.subrange(0, 0) =~= Seq::<CstNode>::empty());
        assert(h + Seq::<DiagnosticView>::empty() =~= h);
    }
    while i < node.children.len()
        invariant
            i <= cs.len(),
            cs == node.children@,
            generics_have_base(*node),
            types_are(ts@, cs.subrange(0, i as int), source@, file),
            diags_view(out@) == h + types_diags(cs.subrange(0, i as int), source@, file),
        decreases cs.len() - i,
    {
        let ghost pre = cs.subrange(0, i + 1);
        proof {
            assert(pre.drop_last() =~= cs.subrange(0, i as int));
            assert(pre.last() == cs[i as int]);
        }
        let c = &node.children[i];
        if c.named && str_eq(c.kind.as_str(), "type_expr") {
            proof {
                lemma_all_generics(cs, i as int);
                assert(decreases_to!(node => node.children@[i as int]));
            }
            let ghost before = ts@;
            let t = convert_type_expr(c, source, file, out);
            ts.push(t);
            proof {
                assert(ts@.drop_last() =~= before);
            }
        }
        i += 1;
    }
    proof {
        assert(cs.subrange(0, i as int) =~= cs);
    }
    ts
}

/// The fields of the named `record_type_field` children, in order.
fn convert_fields(node: &CstNode, source: &str, file: FileId, out: &mut Vec<Diagnostic>) -> (r: Vec<RecordTypeField>)
    requires
        generics_have_base(*node),
    ensures
        fields_are(r@, node.children@, source@, file),
        diags_view(final(out)@) == diags_view(old(out)@) + fields_diags(node.children@, source@, file),
    decreases node, 0int,
{
    proof {
        reveal_strlit("record_type_field");
        reveal_strlit("name");
        reveal_strlit("type");
        reveal_strlit("<missing>");
    }
    let ghost cs = node.children@;
    let ghost h = diags_view(out@);
    let mut fs: Vec<RecordTypeField> = Vec::new();
    let mut i: usize = 0;
    proof {
        assert(cs.subrange(0, 0) =~= Seq::<CstNode>::empty());
        assert(h + Seq::<DiagnosticView>::empty() =~= h);
    }
    while i < node.children.len()
        invariant
            i <= cs.len(),
            cs == node.children@,
            generics_have_base(*node),
            fields_are(fs@, cs.subrange(0, i as int), source@, file),
            diags_view(out@) == h + fields_diags(cs.subrange(0, i as int), source@, file),
        decreases cs.len() - i,
    {
        let ghost pre = cs.subrange(0, i + 1);
        proof {
            assert(pre.drop_last() =~= cs.subrange(0, i as int));
            assert(pre.last() == cs[i as int]);
        }
        let c = &node.children[i];
        if c.named && str_eq(c.kind.as_str(), "record_type_field") {
            proof {
                lemma_all_generics(cs, i as int);
                crate::cst::lemma_field_index(c.children@, "name"@);
                lemma_type_field_walker(c.children@, source@, file, node_span(*c, file));
                lemma_field_walkers(c.children@, "type"@, source@, file);
            }
            let span = Span::new(file, c.start, c.end);
            let name = match find_field(c, "name") {
                Some(j) => ident_from_node(&c.children[j], source, file),
                None => Ident::new("<missing>", span),
            };
            let ty = match find_field(c, "type") {
                Some(j) => {
                    proof {
                        lemma_all_generics(c.children@, j as int);
                        assert(decreases_to!(node => node.children@[i as int]));
                        assert(decreases_to!(node.children@[i as int] => node.children@[i as int].children@[j as int]));
                    }
                    convert_type_expr(&c.children[j], source, file, out)
                },
                None => {
                    proof {
                        assert(diags_view(out@) =~= diags_view(out@) + Seq::<DiagnosticView>::empty());
                    }
                    Type { kind: named_at("<missing>", span), span }
                },
            };
            let ghost before = fs@;
            let field = RecordTypeField { name, ty, span };
            proof {
                assert(field_type_is(field.ty, c.children@, source@, file, node_span(*c, file)));
                assert(field_is(field, *c, source@, file));
                assert(field_diags(*c, source@, file) == child_type_diags(c.children@, "type"@, source@, file));
            }
            fs.push(field);
            proof {
                assert(fs@.drop_last() =~= before);
                assert(fields_are(fs@, pre, source@, file));
            }
        }
        i += 1;
    }
    proof {
        assert(cs.subrange(0, i as int) =~= cs);
    }
    fs
}

/// A `generic_type` node.
fn convert_generic(node: &CstNode, source: &str, file: FileId, out: &mut Vec<Diagnostic>) -> (r: TypeKind)
    requires
        generics_have_base(*node),
        node.kind@ == "generic_type"@,
    ensures
        generic_is(r, *node, source@, file),
        diags_view(final(out)@) == diags_view(old(out)@) + generic_diags(*node, source@, file),
    decreases node, 1int,
{
    proof {
        reveal_strlit("base");
        reveal_strlit("key");
        reveal_strlit("value");
        reveal_strlit("Map");
        reveal_strlit("Set");
        reveal_strlit("Seq");
        reveal_strlit("Optional");
        reveal_strlit("type_expr");
        reveal_strlit("unexpected key/value on generic type `");
        reveal_strlit("unhandled generic type `");
        reveal_strlit("` with ");
        reveal_strlit(" args");
        reveal_strlit("`");
        lemma_field_walkers(node.children@, "key"@, source@, file);
        lemma_field_walkers(node.children@, "value"@, source@, file);
        assert("Set"@ != "Seq"@) by {
            assert("Set"@[2] == 't');
            assert("Seq"@[2] == 'q');
        }
    }
    let ghost h = diags_view(out@);
    let b = match find_field(node, "base") {
        Some(j) => j,
        None => 0,
    };
    let base = &node.children[b];
    let name = text_of(base, source);
    let base_span = Span::new(file, base.start, base.end);
    let kj = find_field(node, "key");
    let vj = find_field(node, "value");
    if kj.is_some() && vj.is_some() {
        let kj = kj.unwrap();
        let vj = vj.unwrap();
        proof {
            lemma_all_generics(node.children@, kj as int);
            lemma_all_generics(node.children@, vj as int);
            assert(decreases_to!(node => node.children@[kj as int]));
            assert(decreases_to!(node => node.children@[vj as int]));
        }
        let kt = convert_type_expr(&node.children[kj], source, file, out);
        let vt = convert_type_expr(&node.children[vj], source, file, out);
        proof {
            assert(field_child_type_is(kt, node.children@, "key"@, source@, file));
            assert(field_child_type_is(vt, node.children@, "value"@, source@, file));
        }
        if str_eq(name, "Map") {
            proof {
                assert(diags_view(out@) =~= h + generic_diags(*node, source@, file));
            }
            TypeKind::MapOf(Box::new(kt), Box::new(vt))
        } else {
            let m = cat("unexpected key/value on generic type `", name);
            let m = cat(m.as_str(), "`");
            internal_error(m.as_str(), node, file, out);
            proof {
                assert(diags_view(out@) =~= h + generic_diags(*node, source@, file));
            }
            named_at(name, base_span)
        }
    } else {
        let mut ts = convert_types(node, source, file, out);
        proof {
            lemma_types_count(ts@, node.children@, source@, file);
        }
        let count = ts.len();
        if count == 1 && (str_eq(name, "Set") || str_eq(name, "Seq") || str_eq(name, "Optional")) {
            let ghost ts0 = ts@;
            let t = ts.remove(0);
            proof {
                assert(diags_view(out@) =~= h + generic_diags(*node, source@, file));
                assert(ts0 =~= seq![t]);
                assert(types_are(seq![t], node.children@, source@, file));
            }
            if str_eq(name, "Set") {
                TypeKind::SetOf(Box::new(t))
            } else if str_eq(name, "Seq") {
                TypeKind::SeqOf(Box::new(t))
            } else {
                TypeKind::Optional(Box::new(t))
            }
        } else {
            let m = cat("unhandled generic type `", name);
            let m = cat(m.as_str(), "` with ");
            let m = cat(m.as_str(), decimal(count).as_str());
            let m = cat(m.as_str(), " args");
            internal_error(m.as_str(), node, file, out);
            proof {
                assert(diags_view(out@) =~= h + generic_diags(*node, source@, file));
            }
            named_at(name, base_span)
        }
    }
}

} // verus!
