//! Concrete syntax trees as plain values, and what is read off them
//! before the AST is built: the syntax errors of a tree, the source text
//! of a node, child lookup by kind, and the built-in simple types.

use vstd::prelude::*;
use vstd::utf8::{decode_utf8, encode_utf8, encode_utf8_decode_utf8};
use vstd::string::StringSliceAdditionalSpecFns;
use crate::codes::{Code, ErrorKind};
use crate::diagnostic::{Diagnostic, DiagnosticView, concat_map, diags_view, plain, lemma_concat_map_step,
    lemma_diags_view_append};
use crate::decl::{ModuleHeader, UseDecl};
use crate::ident::{Ident, QualifiedName};
use crate::span::{FileId, Span, range_in, str_get_range};
use crate::text::{cat, is_white_space, owned, str_eq, white_space};
use crate::slot::{AuthChannelTag, AuthChannelValue, SlotValue};
use crate::ty::TypeKind;

verus! {

/// One node of a Surface syntax tree: its grammar kind, the field of its
/// parent it fills (if any), whether it is a named node, whether the
/// parser marked it as an error or as missing, its byte range in the
/// source, and all its children in order.
#[derive(Debug)]
pub struct CstNode {
    pub kind: String,
    pub field: Option<String>,
    pub named: bool,
    pub error: bool,
    pub missing: bool,
    pub start: u32,
    pub end: u32,
    pub children: Vec<CstNode>,
}

pub open spec fn node_span(n: CstNode, file: FileId) -> Span {
    Span { file, start: n.start, end: n.end }
}

/// The characters of the source between two byte offsets, or nothing
/// when the range is out of bounds or splits a character.
pub open spec fn source_range(source: Seq<char>, start: int, end: int) -> Seq<char> {
    if range_in(encode_utf8(source), start, end) {
        decode_utf8(encode_utf8(source).subrange(start, end))
    } else {
        Seq::empty()
    }
}

/// The source text a node covers.
pub open spec fn node_text(n: CstNode, source: Seq<char>) -> Seq<char> {
    source_range(source, n.start as int, n.end as int)
}

// ---- syntax errors ----

pub open spec fn skip_white(s: Seq<char>) -> Seq<char>
    decreases s.len(),
{
    if s.len() > 0 && is_white_space(s[0]) {
        skip_white(s.drop_first())
    } else {
        s
    }
}

pub open spec fn take_word(s: Seq<char>) -> Seq<char>
    decreases s.len(),
{
    if s.len() > 0 && !is_white_space(s[0]) {
        seq![s[0]] + take_word(s.drop_first())
    } else {
        Seq::empty()
    }
}

/// The first white-space separated word of `s`, or `s` itself when it
/// has none.
pub open spec fn first_word_or_all(s: Seq<char>) -> Seq<char> {
    if skip_white(s).len() > 0 {
        take_word(skip_white(s))
    } else {
        s
    }
}

/// At most the first 40 bytes a node covers.
pub open spec fn error_snippet(n: CstNode, source: Seq<char>) -> Seq<char> {
    source_range(source, n.start as int, if n.end <= n.start + 40 { n.end as int } else { n.start + 40 })
}

pub open spec fn error_message(n: CstNode, source: Seq<char>) -> Seq<char> {
    if n.missing {
        "missing `"@ + n.kind@ + "` here"@
    } else {
        "syntax error near `"@ + first_word_or_all(error_snippet(n, source)) + "`"@
    }
}

/// The parse error a node itself stands for, if it is an error or a
/// missing node.
pub open spec fn node_error(n: CstNode, source: Seq<char>, file: FileId) -> Seq<DiagnosticView> {
    if n.error || n.missing {
        seq![plain(Code::Error(ErrorKind::ParseError), error_message(n, source), node_span(n, file))]
    } else {
        Seq::empty()
    }
}

/// Every error and missing node of the tree, in pre-order.
pub open spec fn tree_errors(n: CstNode, source: Seq<char>, file: FileId) -> Seq<DiagnosticView>
    decreases n,
{
    node_error(n, source, file) + children_errors(n.children@, source, file)
}

pub open spec fn children_errors(cs: Seq<CstNode>, source: Seq<char>, file: FileId) -> Seq<DiagnosticView>
    decreases cs,
{
    if cs.len() == 0 {
        Seq::empty()
    } else {
        children_errors(cs.subrange(0, cs.len() - 1), source, file) + tree_errors(cs[cs.len() - 1], source, file)
    }
}

/// The source between two byte offsets (std `str::get`), or `""`.
pub(crate) fn source_slice(source: &str, start: usize, end: usize) -> (r: &str)
    ensures
        r@ == source_range(source@, start as int, end as int),
{
    match str_get_range(source, start, end) {
        Some(t) => {
            proof {
                encode_utf8_decode_utf8(t@);
            }
            t
        },
        None => {
            proof {
                reveal_strlit("");
            }
            ""
        },
    }
}

/// The text of a node (`""` when its range does not fit the source).
pub fn text_of<'a>(node: &CstNode, source: &'a str) -> (r: &'a str)
    ensures
        r@ == node_text(*node, source@),
{
    source_slice(source, node.start as usize, node.end as usize)
}

fn first_word(s: &str) -> (r: String)
    ensures
        r@ == first_word_or_all(s@),
{
    let n = s.unicode_len();
    let mut a: usize = 0;
    proof {
        assert(s@.subrange(0, n as int) =~= s@);
    }
    while a < n && white_space(s.get_char(a))
        invariant
            n == s@.len(),
            a <= n,
            skip_white(s@) == skip_white(s@.subrange(a as int, n as int)),
        decreases n - a,
    {
        proof {
            let rest = s@.subrange(a as int, n as int);
            assert(rest.drop_first() =~= s@.subrange(a + 1, n as int));
        }
        a += 1;
    }
    proof {
        assert(skip_white(s@.subrange(a as int, n as int)) == s@.subrange(a as int, n as int));
    }
    if a == n {
        return owned(s);
    }
    let mut b: usize = a;
    proof {
        assert(s@.subrange(a as int, a as int) =~= Seq::<char>::empty());
        assert(Seq::<char>::empty() + s@.subrange(a as int, n as int) =~= s@.subrange(a as int, n as int));
    }
    while b < n && !white_space(s.get_char(b))
        invariant
            n == s@.len(),
            a <= b <= n,
            take_word(s@.subrange(a as int, n as int))
                == s@.subrange(a as int, b as int) + take_word(s@.subrange(b as int, n as int)),
        decreases n - b,
    {
        proof {
            let rest = s@.subrange(b as int, n as int);
            assert(rest.drop_first() =~= s@.subrange(b + 1, n as int));
            assert(s@.subrange(a as int, b as int) + seq![s@[b as int]] =~= s@.subrange(a as int, b + 1));
        }
        b += 1;
    }
    proof {
        assert(take_word(s@.subrange(b as int, n as int)) == Seq::<char>::empty());
        assert(s@.subrange(a as int, b as int) + Seq::<char>::empty() =~= s@.subrange(a as int, b as int));
    }
    owned(s.substring_char(a, b))
}

fn error_diag(node: &CstNode, file: FileId, source: &str) -> (r: Diagnostic)
    requires
        node.error || node.missing,
    ensures
        seq![r@] == node_error(*node, source@, file),
{
    let span = Span::new(file, node.start, node.end);
    let msg = if node.missing {
        let m = cat("missing `", node.kind.as_str());
        proof {
            reveal_strlit("missing `");
        }
        cat(m.as_str(), "` here")
    } else {
        let cut: u64 = if (node.end as u64) <= (node.start as u64) + 40 { node.end as u64 } else { (node.start as u64) + 40 };
        let snippet = source_slice(source, node.start as usize, cut as usize);
        let word = first_word(snippet);
        let m = cat("syntax error near `", word.as_str());
        cat(m.as_str(), "`")
    };
    Diagnostic::error(ErrorKind::ParseError, msg.as_str(), span)
}

/// Record every error and missing node of the tree as `E_PARSE`, in
/// pre-order.
pub fn collect_errors(node: &CstNode, file: FileId, source: &str, out: &mut Vec<Diagnostic>)
    ensures
        diags_view(final(out)@) == diags_view(old(out)@) + tree_errors(*node, source@, file),
    decreases node,
{
    let ghost h = diags_view(out@);
    if node.error || node.missing {
        let d = error_diag(node, file, source);
        proof {
            lemma_diags_view_append(out@, seq![d]);
        }
        out.push(d);
        proof {
            assert(out@ =~= old(out)@ + seq![d]);
        }
    }
    proof {
        assert(diags_view(out@) =~= h + node_error(*node, source@, file));
    }
    let ghost h2 = diags_view(out@);
    let mut i: usize = 0;
    proof {
        assert(node.children@.subrange(0, 0) =~= Seq::<CstNode>::empty());
        assert(h2 + children_errors(Seq::<CstNode>::empty(), source@, file) =~= h2);
    }
    while i < node.children.len()
        invariant
            i <= node.children@.len(),
            diags_view(out@) == h2 + children_errors(node.children@.subrange(0, i as int), source@, file),
        decreases node.children@.len() - i,
    {
        let ghost pre = node.children@.subrange(0, i + 1);
        proof {
            assert(pre.subrange(0, pre.len() - 1) =~= node.children@.subrange(0, i as int));
            assert(decreases_to!(node => node.children));
            assert(decreases_to!(node.children => node.children@));
            assert(decreases_to!(node.children@ => node.children@[i as int]));
        }
        collect_errors(&node.children[i], file, source, out);
        proof {
            assert(diags_view(out@) =~= h2 + children_errors(pre, source@, file));
        }
        i += 1;
    }
    proof {
        assert(node.children@.subrange(0, i as int) =~= node.children@);
    }
}

// ---- children ----

/// The index of the first named child of kind `kind`.
pub open spec fn first_child_index(cs: Seq<CstNode>, kind: Seq<char>) -> Option<int>
    decreases cs.len(),
{
    if cs.len() == 0 {
        None
    } else if cs[0].named && cs[0].kind@ == kind {
        Some(0)
    } else {
        match first_child_index(cs.drop_first(), kind) {
            Some(j) => Some(j + 1),
            None => None,
        }
    }
}

pub proof fn lemma_first_child_index(cs: Seq<CstNode>, kind: Seq<char>)
    ensures
        first_child_index(cs, kind) matches Some(j) ==> 0 <= j < cs.len() && cs[j].named && cs[j].kind@ == kind
            && forall|k: int| 0 <= k < j ==> !((#[trigger] cs[k]).named && cs[k].kind@ == kind),
        first_child_index(cs, kind) is None ==> forall|k: int| 0 <= k < cs.len()
            ==> !((#[trigger] cs[k]).named && cs[k].kind@ == kind),
    decreases cs.len(),
{
    if cs.len() > 0 {
        lemma_first_child_index(cs.drop_first(), kind);
        assert forall|k: int| 1 <= k < cs.len() implies #[trigger] cs[k] == cs.drop_first()[k - 1] by {}
    }
}

/// The first named child of the given kind.
pub fn first_child<'a>(node: &'a CstNode, kind: &str) -> (r: Option<&'a CstNode>)
    ensures
        r matches Some(c) ==> first_child_index(node.children@, kind@) matches Some(j) && *c == node.children@[j],
        r is None ==> first_child_index(node.children@, kind@) is None,
{
    proof {
        lemma_first_child_index(node.children@, kind@);
    }
    let mut i: usize = 0;
    while i < node.children.len()
        invariant
            i <= node.children@.len(),
            forall|k: int| 0 <= k < i ==> !((#[trigger] node.children@[k]).named && node.children@[k].kind@ == kind@),
            first_child_index(node.children@, kind@) matches Some(j) ==> 0 <= j < node.children@.len()
                && node.children@[j].named && node.children@[j].kind@ == kind@
                && forall|k: int| 0 <= k < j ==> !((#[trigger] node.children@[k]).named && node.children@[k].kind@ == kind@),
            first_child_index(node.children@, kind@) is None ==> forall|k: int| 0 <= k < node.children@.len()
                ==> !((#[trigger] node.children@[k]).named && node.children@[k].kind@ == kind@),
        decreases node.children@.len() - i,
    {
        let c = &node.children[i];
        if c.named && str_eq(c.kind.as_str(), kind) {
            proof {
                assert(node.children@[i as int].named && node.children@[i as int].kind@ == kind@);
                let j = first_child_index(node.children@, kind@);
                if let Some(jj) = j {
                    if jj < i {
                        assert(!(node.children@[jj].named && node.children@[jj].kind@ == kind@));
                    }
                    if jj > i {
                        assert(!(node.children@[i as int].named && node.children@[i as int].kind@ == kind@));
                    }
                }
            }
            return Some(c);
        }
        i += 1;
    }
    None
}

/// The named children of the given kind, in order.
pub open spec fn named_of_kind(cs: Seq<CstNode>, kind: Seq<char>) -> Seq<CstNode> {
    concat_map(cs, |c: CstNode| if c.named && c.kind@ == kind { seq![c] } else { Seq::empty() })
}

/// The named children of the given kind.
pub fn named_children_of<'a>(node: &'a CstNode, kind: &str) -> (r: Vec<&'a CstNode>)
    ensures
        r@.len() == named_of_kind(node.children@, kind@).len(),
        forall|i: int| 0 <= i < r@.len() ==> *(#[trigger] r@[i]) == named_of_kind(node.children@, kind@)[i],
{
    let ghost f = |c: CstNode| if c.named && c.kind@ == kind@ { seq![c] } else { Seq::<CstNode>::empty() };
    let mut out: Vec<&'a CstNode> = Vec::new();
    let mut i: usize = 0;
    proof {
        assert(node.children@.subrange(0, 0) =~= Seq::<CstNode>::empty());
    }
    while i < node.children.len()
        invariant
            i <= node.children@.len(),
            f == (|c: CstNode| if c.named && c.kind@ == kind@ { seq![c] } else { Seq::<CstNode>::empty() }),
            out@.len() == concat_map(node.children@.subrange(0, i as int), f).len(),
            forall|k: int| 0 <= k < out@.len() ==> *(#[trigger] out@[k]) == concat_map(node.children@.subrange(0, i as int), f)[k],
        decreases node.children@.len() - i,
    {
        proof {
            lemma_concat_map_step(node.children@, i as int, f);
        }
        let c = &node.children[i];
        if c.named && str_eq(c.kind.as_str(), kind) {
            out.push(c);
        }
        i += 1;
    }
    proof {
        assert(node.children@.subrange(0, i as int) =~= node.children@);
    }
    out
}

/// An identifier taken from a node: its text at its span.
pub fn ident_from_node(node: &CstNode, source: &str, file: FileId) -> (r: Ident)
    ensures
        r.name@ == node_text(*node, source@),
        r.span == node_span(*node, file),
{
    Ident::new(text_of(node, source), Span::new(file, node.start, node.end))
}

/// A `qualified_name` node: one segment per `identifier` child, or a
/// single `<missing>` segment at the node when it has none.
pub fn convert_qualified_name(node: &CstNode, source: &str, file: FileId) -> (r: QualifiedName)
    ensures
        named_of_kind(node.children@, "identifier"@).len() > 0 ==> {
            &&& r.segments@.len() == named_of_kind(node.children@, "identifier"@).len()
            &&& forall|i: int| 0 <= i < r.segments@.len() ==> {
                &&& (#[trigger] r.segments@[i]).name@ == node_text(named_of_kind(node.children@, "identifier"@)[i], source@)
                &&& r.segments@[i].span == node_span(named_of_kind(node.children@, "identifier"@)[i], file)
            }
        },
        named_of_kind(node.children@, "identifier"@).len() == 0 ==> r.segments@.len() == 1
            && r.segments@[0].name@ == "<missing>"@ && r.segments@[0].span == node_span(*node, file),
        r.wf(),
        r.span == r.segments@[0].span.spec_merge(r.segments@.last().span),
{
    proof {
        reveal_strlit("identifier");
        reveal_strlit("<missing>");
    }
    let ids = named_children_of(node, "identifier");
    let ghost ks = named_of_kind(node.children@, "identifier"@);
    let mut segs: Vec<Ident> = Vec::new();
    let mut i: usize = 0;
    while i < ids.len()
        invariant
            i <= ids@.len(),
            ids@.len() == ks.len(),
            forall|k: int| 0 <= k < ids@.len() ==> *(#[trigger] ids@[k]) == ks[k],
            segs@.len() == i,
            forall|k: int| 0 <= k < i ==> (#[trigger] segs@[k]).name@ == node_text(ks[k], source@)
                && segs@[k].span == node_span(ks[k], file),
        decreases ids@.len() - i,
    {
        let id = ident_from_node(ids[i], source, file);
        segs.push(id);
        i += 1;
    }
    if segs.len() == 0 {
        let mut one: Vec<Ident> = Vec::new();
        one.push(Ident::new("<missing>", Span::new(file, node.start, node.end)));
        QualifiedName::new(one)
    } else {
        QualifiedName::new(segs)
    }
}

/// The index of the first child filling the given field of its parent.
pub open spec fn field_index(cs: Seq<CstNode>, field: Seq<char>) -> Option<int>
    decreases cs.len(),
{
    if cs.len() == 0 {
        None
    } else if cs[0].field matches Some(f) && f@ == field {
        Some(0)
    } else {
        match field_index(cs.drop_first(), field) {
            Some(j) => Some(j + 1),
            None => None,
        }
    }
}

pub proof fn lemma_field_index(cs: Seq<CstNode>, field: Seq<char>)
    ensures
        field_index(cs, field) matches Some(j) ==> 0 <= j < cs.len() && (cs[j].field matches Some(f) && f@ == field)
            && forall|k: int| 0 <= k < j ==> !((#[trigger] cs[k]).field matches Some(f) && f@ == field),
        field_index(cs, field) is None ==> forall|k: int| 0 <= k < cs.len()
            ==> !((#[trigger] cs[k]).field matches Some(f) && f@ == field),
    decreases cs.len(),
{
    if cs.len() > 0 {
        lemma_field_index(cs.drop_first(), field);
        assert forall|k: int| 1 <= k < cs.len() implies #[trigger] cs[k] == cs.drop_first()[k - 1] by {}
    }
}

fn has_field(c: &CstNode, field: &str) -> (r: bool)
    ensures
        r == (c.field matches Some(f) && f@ == field@),
{
    match &c.field {
        Some(f) => str_eq(f.as_str(), field),
        None => false,
    }
}

/// The child filling the given field (tree-sitter's
/// `child_by_field_name`).
pub fn field_child<'a>(node: &'a CstNode, field: &str) -> (r: Option<&'a CstNode>)
    ensures
        r matches Some(c) ==> field_index(node.children@, field@) matches Some(j) && *c == node.children@[j],
        r is None ==> field_index(node.children@, field@) is None,
{
    proof {
        lemma_field_index(node.children@, field@);
    }
    let mut i: usize = 0;
    while i < node.children.len()
        invariant
            i <= node.children@.len(),
            forall|k: int| 0 <= k < i ==> !((#[trigger] node.children@[k]).field matches Some(f) && f@ == field@),
            field_index(node.children@, field@) matches Some(j) ==> 0 <= j < node.children@.len()
                && (node.children@[j].field matches Some(f) && f@ == field@)
                && forall|k: int| 0 <= k < j ==> !((#[trigger] node.children@[k]).field matches Some(f) && f@ == field@),
            field_index(node.children@, field@) is None ==> forall|k: int| 0 <= k < node.children@.len()
                ==> !((#[trigger] node.children@[k]).field matches Some(f) && f@ == field@),
        decreases node.children@.len() - i,
    {
        let c = &node.children[i];
        if has_field(c, field) {
            proof {
                let j = field_index(node.children@, field@);
                if let Some(jj) = j {
                    if jj < i {
                        assert(!(node.children@[jj].field matches Some(f) && f@ == field@));
                    }
                    if jj > i {
                        assert(!(node.children@[i as int].field matches Some(f) && f@ == field@));
                    }
                }
            }
            return Some(c);
        }
        i += 1;
    }
    None
}

/// The identifier a node names: an `identifier` itself, the first
/// `identifier` of an `identifier_expr`, or the first segment of a
/// `qualified_name`; nothing for other nodes.
pub open spec fn ident_node_of(n: CstNode) -> Option<CstNode> {
    if n.kind@ == "identifier"@ {
        Some(n)
    } else if n.kind@ == "identifier_expr"@ {
        match first_child_index(n.children@, "identifier"@) {
            Some(j) => Some(n.children@[j]),
            None => None,
        }
    } else {
        None
    }
}

/// An identifier as text and place.
pub open spec fn id_view(id: Ident) -> (Seq<char>, Span) {
    (id.name@, id.span)
}

pub open spec fn opt_id_view(r: Option<Ident>) -> Option<(Seq<char>, Span)> {
    match r {
        Some(id) => Some(id_view(id)),
        None => None,
    }
}

/// The identifier a node names, as text and place: an `identifier`
/// itself, the first `identifier` of an `identifier_expr`, the first
/// segment of a `qualified_name` (`<missing>` at the node when it has
/// none); nothing for other nodes.
pub open spec fn ident_view(n: CstNode, source: Seq<char>, file: FileId) -> Option<(Seq<char>, Span)> {
    if n.kind@ == "qualified_name"@ {
        let ks = named_of_kind(n.children@, "identifier"@);
        if ks.len() > 0 {
            Some((node_text(ks[0], source), node_span(ks[0], file)))
        } else {
            Some(("<missing>"@, node_span(n, file)))
        }
    } else {
        match ident_node_of(n) {
            Some(c) => Some((node_text(c, source), node_span(c, file))),
            None => None,
        }
    }
}

/// The identifier a node names, if any (see [`ident_view`]).
pub fn ident_text_of(node: &CstNode, source: &str, file: FileId) -> (r: Option<Ident>)
    ensures
        opt_id_view(r) == ident_view(*node, source@, file),
{
    proof {
        reveal_strlit("identifier");
        reveal_strlit("identifier_expr");
        reveal_strlit("qualified_name");
    }
    if str_eq(node.kind.as_str(), "identifier") {
        Some(ident_from_node(node, source, file))
    } else if str_eq(node.kind.as_str(), "identifier_expr") {
        proof {
            assert("identifier_expr"@.len() != "qualified_name"@.len());
            assert(node.kind@ != "qualified_name"@);
        }
        match first_child(node, "identifier") {
            Some(c) => Some(ident_from_node(c, source, file)),
            None => None,
        }
    } else if str_eq(node.kind.as_str(), "qualified_name") {
        let q = convert_qualified_name(node, source, file);
        let first = q.segments[0].clone();
        proof {
            let ks = named_of_kind(node.children@, "identifier"@);
            if ks.len() > 0 {
                assert(q.segments@[0].name@ == node_text(ks[0], source@));
            }
        }
        Some(first)
    } else {
        None
    }
}

/// The auth-channel tags an identifier list names, unknown names left
/// out, in order.
pub open spec fn set_tags(ids: Seq<CstNode>, source: Seq<char>) -> Seq<AuthChannelTag> {
    concat_map(ids, |c: CstNode| match AuthChannelTag::spec_from_name(node_text(c, source)) {
        Some(t) => seq![t],
        None => Seq::empty(),
    })
}

/// A `{c1, c2, …}` auth-channel set.
pub fn convert_slot_set(node: &CstNode, source: &str) -> (r: SlotValue)
    ensures
        r matches SlotValue::AuthChannel(v) && v.set_form
            && v.channels@ == set_tags(named_of_kind(node.children@, "identifier"@), source@),
{
    proof {
        reveal_strlit("identifier");
    }
    let ids = named_children_of(node, "identifier");
    let ghost ks = named_of_kind(node.children@, "identifier"@);
    let ghost f = |c: CstNode| match AuthChannelTag::spec_from_name(node_text(c, source@)) {
        Some(t) => seq![t],
        None => Seq::<AuthChannelTag>::empty(),
    };
    let mut channels: Vec<AuthChannelTag> = Vec::new();
    let mut i: usize = 0;
    proof {
        assert(ks.subrange(0, 0) =~= Seq::<CstNode>::empty());
    }
    while i < ids.len()
        invariant
            i <= ids@.len(),
            ids@.len() == ks.len(),
            forall|k: int| 0 <= k < ids@.len() ==> *(#[trigger] ids@[k]) == ks[k],
            f == (|c: CstNode| match AuthChannelTag::spec_from_name(node_text(c, source@)) {
                Some(t) => seq![t],
                None => Seq::<AuthChannelTag>::empty(),
            }),
            channels@ == concat_map(ks.subrange(0, i as int), f),
        decreases ids@.len() - i,
    {
        proof {
            lemma_concat_map_step(ks, i as int, f);
        }
        match AuthChannelTag::from_name(text_of(ids[i], source)) {
            Some(t) => {
                channels.push(t);
            },
            None => {
                proof {
                    assert(channels@ + Seq::<AuthChannelTag>::empty() =~= channels@);
                }
            },
        }
        i += 1;
    }
    proof {
        assert(ks.subrange(0, i as int) =~= ks);
    }
    SlotValue::AuthChannel(AuthChannelValue { channels, set_form: true })
}

// ---- simple types ----

/// The node that names a simple type: its first `identifier` child, or
/// the node itself.
pub open spec fn simple_type_name_node(n: CstNode) -> CstNode {
    match first_child_index(n.children@, "identifier"@) {
        Some(j) => n.children@[j],
        None => n,
    }
}

/// `t` is the simple type spelled `name` at `span`: a built-in type, or
/// else a one-segment named type.
pub open spec fn simple_type_is(t: TypeKind, name: Seq<char>, span: Span) -> bool {
    if name == "Nat"@ {
        t == TypeKind::Nat
    } else if name == "Int"@ {
        t == TypeKind::Int
    } else if name == "Bool"@ {
        t == TypeKind::Bool
    } else if name == "String"@ {
        t == TypeKind::String
    } else if name == "Duration"@ {
        t == TypeKind::Duration
    } else {
        &&& t matches TypeKind::Named(q)
        &&& q.segments@.len() == 1
        &&& q.segments@[0].name@ == name
        &&& q.segments@[0].span == span
        &&& q.span == span
    }
}

/// A simple type node: the built-in types by name, anything else a
/// named type.
pub fn convert_simple_type(node: &CstNode, source: &str, file: FileId) -> (r: TypeKind)
    ensures
        simple_type_is(r, node_text(simple_type_name_node(*node), source@), node_span(simple_type_name_node(*node), file)),
{
    let id_node = match first_child(node, "identifier") {
        Some(c) => c,
        None => node,
    };
    proof {
        reveal_strlit("identifier");
        reveal_strlit("Nat");
        reveal_strlit("Int");
        reveal_strlit("Bool");
        reveal_strlit("String");
        reveal_strlit("Duration");
    }
    let name = text_of(id_node, source);
    if str_eq(name, "Nat") {
        TypeKind::Nat
    } else if str_eq(name, "Int") {
        TypeKind::Int
    } else if str_eq(name, "Bool") {
        TypeKind::Bool
    } else if str_eq(name, "String") {
        TypeKind::String
    } else if str_eq(name, "Duration") {
        TypeKind::Duration
    } else {
        let span = Span::new(file, id_node.start, id_node.end);
        let mut segs: Vec<Ident> = Vec::new();
        segs.push(Ident::new(name, span));
        let q = QualifiedName::new(segs);
        proof {
            assert(span.spec_merge(span) == span);
        }
        TypeKind::Named(q)
    }
}

// ---- module headers and imports ----

/// A `module_header` node: its `name` field as a qualified name, private
/// when it has a `visibility` field.
pub fn convert_module_header(node: &CstNode, source: &str, file: FileId, doc: Option<String>) -> (r: ModuleHeader)
    requires
        field_index(node.children@, "name"@) is Some,
    ensures
        ({
            let name_node = node.children@[field_index(node.children@, "name"@).unwrap()];
            let ks = named_of_kind(name_node.children@, "identifier"@);
            &&& ks.len() > 0 ==> r.name.segments@.len() == ks.len()
                && forall|i: int| 0 <= i < ks.len() ==> {
                    &&& (#[trigger] r.name.segments@[i]).name@ == node_text(ks[i], source@)
                    &&& r.name.segments@[i].span == node_span(ks[i], file)
                }
            &&& ks.len() == 0 ==> r.name.segments@.len() == 1 && r.name.segments@[0].name@ == "<missing>"@
                && r.name.segments@[0].span == node_span(name_node, file)
        }),
        r.name.wf(),
        r.private == field_index(node.children@, "visibility"@) is Some,
        r.doc == doc,
        r.span == node_span(*node, file),
{
    proof {
        reveal_strlit("name");
        reveal_strlit("visibility");
    }
    let name_node = match field_child(node, "name") {
        Some(c) => c,
        None => node,
    };
    let name = convert_qualified_name(name_node, source, file);
    let private = field_child(node, "visibility").is_some();
    ModuleHeader { name, private, doc, span: Span::new(file, node.start, node.end) }
}

/// A `use_decl` node: its first `qualified_name` child and its
/// `identifier` children; nothing when it has no qualified name.
pub fn convert_use_decl(node: &CstNode, source: &str, file: FileId) -> (r: Option<UseDecl>)
    ensures
        first_child_index(node.children@, "qualified_name"@) is None <==> r is None,
        r matches Some(u) ==> {
            let ks = named_of_kind(node.children@, "identifier"@);
            &&& u.span == node_span(*node, file)
            &&& u.module.wf()
            &&& u.items@.len() == ks.len()
            &&& forall|i: int| 0 <= i < ks.len() ==> {
                &&& (#[trigger] u.items@[i]).name@ == node_text(ks[i], source@)
                &&& u.items@[i].span == node_span(ks[i], file)
            }
        },
{
    proof {
        reveal_strlit("qualified_name");
        reveal_strlit("identifier");
    }
    let module_node = match first_child(node, "qualified_name") {
        Some(c) => c,
        None => return None,
    };
    let module = convert_qualified_name(module_node, source, file);
    let ids = named_children_of(node, "identifier");
    let ghost ks = named_of_kind(node.children@, "identifier"@);
    let mut items: Vec<Ident> = Vec::new();
    let mut i: usize = 0;
    while i < ids.len()
        invariant
            i <= ids@.len(),
            ids@.len() == ks.len(),
            forall|k: int| 0 <= k < ids@.len() ==> *(#[trigger] ids@[k]) == ks[k],
            items@.len() == i,
            forall|k: int| 0 <= k < i ==> (#[trigger] items@[k]).name@ == node_text(ks[k], source@)
                && items@[k].span == node_span(ks[k], file),
        decreases ids@.len() - i,
    {
        items.push(ident_from_node(ids[i], source, file));
        i += 1;
    }
    Some(UseDecl { module, items, span: Span::new(file, node.start, node.end) })
}

} // verus!
