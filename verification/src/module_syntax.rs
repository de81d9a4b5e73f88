//! A whole `.surf` file read off its syntax tree: the `module` header,
//! the imports, and each top-level declaration with the doc comment right
//! above it.

use vstd::prelude::*;
use crate::codes::{Code, ErrorKind};
use crate::compose_syntax::{compose_is, compose_diags, convert_compose_block};
use crate::cst::{CstNode, field_index, first_child_index, named_of_kind, node_span, node_text, text_of};
use crate::decl::{Decl, ModuleFile, ModuleHeader, UseDecl};
use crate::decl_syntax::{dview, type_alias_is, type_alias_diags, actor_is, event_is, plist_diags, const_is, extern_is,
    named_type_diags, observable_is, observable_diags, history_is, history_diags, attacker_is, attacker_diags,
    convert_type_alias, convert_actor, convert_event, convert_const, convert_extern, convert_observable,
    convert_history_predicate, convert_attacker};
use crate::diagnostic::{Diagnostic, DiagnosticView, diags_view, plain, lemma_diags_view_push};
use crate::effect_syntax::hf;
use crate::expr_syntax::is_content;
use crate::scenario_syntax::{ids_are, field_nodes, scenario_is, scenario_diags, convert_scenario_decl};
use crate::span::{FileId, Span};
use crate::substrate_syntax::{substrate_block_is, substrate_block_diags, convert_substrate_block, convert_partial_substrate_block};
use crate::surface_syntax::{property_is, property_diags, surface_block_is, sb_diags, convert_property_decl, convert_surface_block};
use crate::syntax::{doc_string_text, spec_doc_string_text};
use crate::text::{str_eq, owned};
use crate::type_syntax::{generics_have_base, lemma_all_generics};

verus! {

/// Which top-level item a child kind is (0: none the grammar has).
pub open spec fn top_tag(kd: Seq<char>) -> u8 {
    if kd == "doc_string"@ { 1 }
    else if kd == "module_header"@ { 2 }
    else if kd == "use_decl"@ { 3 }
    else if kd == "tla_block"@ { 4 }
    else if kd == "type_decl"@ { 5 }
    else if kd == "actor_decl"@ { 6 }
    else if kd == "event_decl"@ { 7 }
    else if kd == "const_decl"@ { 8 }
    else if kd == "extern_decl"@ { 9 }
    else if kd == "observable_decl"@ { 10 }
    else if kd == "actor_observable_decl"@ { 11 }
    else if kd == "history_predicate_decl"@ { 12 }
    else if kd == "attacker_decl"@ { 13 }
    else if kd == "property_decl"@ { 14 }
    else if kd == "scenario_decl"@ { 15 }
    else if kd == "surface_block"@ { 16 }
    else if kd == "substrate_block"@ { 17 }
    else if kd == "partial_substrate_block"@ { 18 }
    else if kd == "compose_block"@ { 19 }
    else { 0 }
}

pub open spec fn is_tp(c: CstNode, t: u8) -> bool {
    is_content(c) && top_tag(c.kind@) == t
}

/// Whether a child is read as a declaration (a kind the grammar does not
/// have is one too, and is an error).
pub open spec fn is_decl_child(c: CstNode) -> bool {
    is_content(c) && (top_tag(c.kind@) == 0 || top_tag(c.kind@) >= 5)
}

pub open spec fn has_header(cs: Seq<CstNode>) -> bool
    decreases cs.len(),
{
    cs.len() > 0 && (is_tp(cs.last(), 2) || has_header(cs.drop_last()))
}

/// The first `module_header` child.
pub open spec fn first_header(cs: Seq<CstNode>) -> Option<CstNode>
    decreases cs.len(),
{
    if cs.len() == 0 {
        None
    } else {
        match first_header(cs.drop_last()) {
            Some(h) => Some(h),
            None => if is_tp(cs.last(), 2) { Some(cs.last()) } else { None },
        }
    }
}

/// The doc comment waiting after `cs`: a doc string is taken by the next
/// item, a second `module` header aside.
pub open spec fn mpending(cs: Seq<CstNode>, src: Seq<char>) -> Option<Seq<char>>
    decreases cs.len(),
{
    if cs.len() == 0 {
        None
    } else if !is_content(cs.last()) {
        mpending(cs.drop_last(), src)
    } else if is_tp(cs.last(), 1) {
        Some(spec_doc_string_text(node_text(cs.last(), src)))
    } else if is_tp(cs.last(), 2) && has_header(cs.drop_last()) {
        mpending(cs.drop_last(), src)
    } else {
        None
    }
}

/// The doc comment the first header takes.
pub open spec fn header_doc(cs: Seq<CstNode>, src: Seq<char>) -> Option<Seq<char>>
    decreases cs.len(),
{
    if cs.len() == 0 {
        None
    } else if first_header(cs.drop_last()) is Some {
        header_doc(cs.drop_last(), src)
    } else if is_tp(cs.last(), 2) {
        mpending(cs.drop_last(), src)
    } else {
        None
    }
}

/// The header a `module_header` node spells (its doc aside).
pub open spec fn header_is(r: ModuleHeader, node: CstNode, src: Seq<char>, file: FileId) -> bool {
    let name_node = node.children@[field_index(node.children@, "name"@).unwrap()];
    let ks = named_of_kind(name_node.children@, "identifier"@);
    &&& ks.len() > 0 ==> r.name.segments@.len() == ks.len()
        && forall|i: int| 0 <= i < ks.len() ==> {
            &&& (#[trigger] r.name.segments@[i]).name@ == node_text(ks[i], src)
            &&& r.name.segments@[i].span == node_span(ks[i], file)
        }
    &&& ks.len() == 0 ==> r.name.segments@.len() == 1 && r.name.segments@[0].name@ == "<missing>"@
        && r.name.segments@[0].span == node_span(name_node, file)
    &&& r.name.wf()
    &&& r.private == field_index(node.children@, "visibility"@) is Some
    &&& r.span == node_span(node, file)
}

/// The import a `use_decl` node spells.
pub open spec fn use_is(u: UseDecl, node: CstNode, src: Seq<char>, file: FileId) -> bool {
    let ks = named_of_kind(node.children@, "identifier"@);
    &&& u.span == node_span(node, file)
    &&& u.module.wf()
    &&& u.items@.len() == ks.len()
    &&& forall|i: int| 0 <= i < ks.len() ==> {
        &&& (#[trigger] u.items@[i]).name@ == node_text(ks[i], src)
        &&& u.items@[i].span == node_span(ks[i], file)
    }
}

pub open spec fn uses_in(us: Seq<UseDecl>, cs: Seq<CstNode>, src: Seq<char>, file: FileId) -> bool
    decreases cs.len(),
{
    if cs.len() == 0 {
        us.len() == 0
    } else if is_tp(cs.last(), 3) && first_child_index(cs.last().children@, "qualified_name"@) is Some {
        us.len() > 0 && use_is(us.last(), cs.last(), src, file) && uses_in(us.drop_last(), cs.drop_last(), src, file)
    } else {
        uses_in(us, cs.drop_last(), src, file)
    }
}

pub open spec fn msg_unhandled(kd: Seq<char>) -> Seq<char> {
    "unhandled top-level decl kind `"@ + kd + "`"@
}

/// The declaration a top-level child spells, with the doc comment `doc`.
pub open spec fn top_decl_is(r: Option<Decl>, c: CstNode, src: Seq<char>, file: FileId, doc: Option<Seq<char>>) -> bool {
    let t = top_tag(c.kind@);
    if t == 5 {
        match r { Some(Decl::TypeAlias(x)) => type_alias_is(Some(x), c, src, file, doc), None => type_alias_is(None, c, src, file, doc), _ => false }
    } else if t == 6 {
        match r { Some(Decl::Actor(x)) => actor_is(Some(x), c, src, file, doc), None => actor_is(None, c, src, file, doc), _ => false }
    } else if t == 7 {
        match r { Some(Decl::Event(x)) => event_is(Some(x), c, src, file, doc), None => event_is(None, c, src, file, doc), _ => false }
    } else if t == 8 {
        match r { Some(Decl::Const(x)) => const_is(Some(x), c, src, file, doc), None => const_is(None, c, src, file, doc), _ => false }
    } else if t == 9 {
        match r { Some(Decl::Extern(x)) => extern_is(Some(x), c, src, file, doc), None => extern_is(None, c, src, file, doc), _ => false }
    } else if t == 10 || t == 11 {
        match r {
            Some(Decl::Observable(x)) => observable_is(Some(x), c, t == 11, src, file, doc),
            None => observable_is(None, c, t == 11, src, file, doc),
            _ => false,
        }
    } else if t == 12 {
        match r { Some(Decl::HistoryPredicate(x)) => history_is(Some(x), c, src, file, doc), None => history_is(None, c, src, file, doc), _ => false }
    } else if t == 13 {
        match r { Some(Decl::Attacker(x)) => attacker_is(Some(x), c, src, file, doc), None => attacker_is(None, c, src, file, doc), _ => false }
    } else if t == 14 {
        match r { Some(Decl::Property(x)) => property_is(Some(x), c, src, file, doc), None => property_is(None, c, src, file, doc), _ => false }
    } else if t == 15 {
        r matches Some(Decl::Scenario(x)) && scenario_is(x, c, src, file, doc)
    } else if t == 16 {
        r matches Some(Decl::Surface(x)) && surface_block_is(x, c, src, file, doc)
    } else if t == 17 {
        r matches Some(Decl::Substrate(x)) && substrate_block_is(x, c, src, file, doc)
    } else if t == 18 {
        r matches Some(Decl::PartialSubstrate(x)) && ids_are(x.owns@, field_nodes(c.children@, "field"@), src, file)
            && substrate_block_is(x.block, c, src, file, doc)
    } else if t == 19 {
        if hf(c, "name"@) { r matches Some(Decl::Compose(x)) && compose_is(x, c, src, file, doc) } else { r is None }
    } else {
        r is None
    }
}

pub open spec fn top_decl_diags(c: CstNode, src: Seq<char>, file: FileId) -> Seq<DiagnosticView> {
    let t = top_tag(c.kind@);
    if t == 5 { type_alias_diags(c, src, file) }
    else if t == 6 { Seq::empty() }
    else if t == 7 { if hf(c, "name"@) { plist_diags(c, src, file) } else { Seq::empty() } }
    else if t == 8 || t == 9 { named_type_diags(c, src, file) }
    else if t == 10 { observable_diags(c, false, src, file) }
    else if t == 11 { observable_diags(c, true, src, file) }
    else if t == 12 { history_diags(c, src, file) }
    else if t == 13 { attacker_diags(c, src, file) }
    else if t == 14 { property_diags(c, src, file) }
    else if t == 15 { scenario_diags(c.children@, src, file) }
    else if t == 16 { sb_diags(c.children@, src, file) }
    else if t == 17 || t == 18 { substrate_block_diags(c, src, file) }
    else if t == 19 { compose_diags(c, src, file) }
    else { seq![plain(Code::Error(ErrorKind::Internal), msg_unhandled(c.kind@), node_span(c, file))] }
}

pub open spec fn decls_in(ds: Seq<Decl>, cs: Seq<CstNode>, src: Seq<char>, file: FileId) -> bool
    decreases cs.len(),
{
    if cs.len() == 0 {
        ds.len() == 0
    } else if is_decl_child(cs.last()) {
        let doc = mpending(cs.drop_last(), src);
        (ds.len() > 0 && top_decl_is(Some(ds.last()), cs.last(), src, file, doc) && decls_in(ds.drop_last(), cs.drop_last(), src, file))
            || (top_decl_is(None, cs.last(), src, file, doc) && decls_in(ds, cs.drop_last(), src, file))
    } else {
        decls_in(ds, cs.drop_last(), src, file)
    }
}

pub open spec fn msg_duplicate_header() -> Seq<char> {
    "duplicate `module` header in one file"@
}

pub open spec fn mod_diags(cs: Seq<CstNode>, src: Seq<char>, file: FileId) -> Seq<DiagnosticView>
    decreases cs.len(),
{
    if cs.len() == 0 {
        Seq::empty()
    } else {
        let c = cs.last();
        mod_diags(cs.drop_last(), src, file) + if is_tp(c, 2) && has_header(cs.drop_last()) {
            seq![plain(Code::Error(ErrorKind::Internal), msg_duplicate_header(), node_span(c, file))]
        } else if is_decl_child(c) {
            top_decl_diags(c, src, file)
        } else {
            Seq::empty()
        }
    }
}

pub open spec fn msg_bad_root(kd: Seq<char>) -> Seq<char> {
    "expected `source_file` root, got `"@ + kd + "` (parser invariant)"@
}

pub open spec fn msg_missing_header() -> Seq<char> {
    "missing `module <Name>` header (every .surf file needs one)"@
}

/// The module a `source_file` tree spells: `None` for another root, or
/// without a `module` header.
pub open spec fn module_file_is(r: Option<ModuleFile>, root: CstNode, src: Seq<char>, file: FileId) -> bool {
    let cs = root.children@;
    if root.kind@ != "source_file"@ {
        r is None
    } else {
        match first_header(cs) {
            Some(hn) => r matches Some(m) && header_is(m.header, hn, src, file) && dview(m.header.doc) == header_doc(cs, src)
                && uses_in(m.uses@, cs, src, file) && decls_in(m.decls@, cs, src, file) && m.span == node_span(root, file),
            None => r is None,
        }
    }
}

/// What reading a file reports: the declarations' own diagnostics, a
/// second header, a missing one, or a root that is no `source_file`.
pub open spec fn module_file_diags(root: CstNode, src: Seq<char>, file: FileId) -> Seq<DiagnosticView> {
    let cs = root.children@;
    if root.kind@ != "source_file"@ {
        seq![plain(Code::Error(ErrorKind::Internal), msg_bad_root(root.kind@), node_span(root, file))]
    } else {
        mod_diags(cs, src, file) + if first_header(cs) is None {
            seq![plain(Code::Error(ErrorKind::ParseError), msg_missing_header(), node_span(root, file))]
        } else {
            Seq::empty()
        }
    }
}

/// Whether the header that is read carries its `name` (a grammar
/// invariant).
pub open spec fn header_named(root: CstNode) -> bool {
    first_header(root.children@) matches Some(h) ==> hf(h, "name"@)
}

// ---- exec ----

fn top_tag_of(kd: &str) -> (r: u8)
    ensures
        r == top_tag(kd@),
{
    if str_eq(kd, "doc_string") { 1 }
    else if str_eq(kd, "module_header") { 2 }
    else if str_eq(kd, "use_decl") { 3 }
    else if str_eq(kd, "tla_block") { 4 }
    else if str_eq(kd, "type_decl") { 5 }
    else if str_eq(kd, "actor_decl") { 6 }
    else if str_eq(kd, "event_decl") { 7 }
    else if str_eq(kd, "const_decl") { 8 }
    else if str_eq(kd, "extern_decl") { 9 }
    else if str_eq(kd, "observable_decl") { 10 }
    else if str_eq(kd, "actor_observable_decl") { 11 }
    else if str_eq(kd, "history_predicate_decl") { 12 }
    else if str_eq(kd, "attacker_decl") { 13 }
    else if str_eq(kd, "property_decl") { 14 }
    else if str_eq(kd, "scenario_decl") { 15 }
    else if str_eq(kd, "surface_block") { 16 }
    else if str_eq(kd, "substrate_block") { 17 }
    else if str_eq(kd, "partial_substrate_block") { 18 }
    else if str_eq(kd, "compose_block") { 19 }
    else { 0 }
}

proof fn lemma_has_first(cs: Seq<CstNode>)
    ensures
        has_header(cs) == first_header(cs) is Some,
    decreases cs.len(),
{
    if cs.len() > 0 {
        lemma_has_first(cs.drop_last());
    }
}

/// The first header child stays the first in every longer prefix.
proof fn lemma_first_header_at(cs: Seq<CstNode>, i: int, k: int)
    requires
        0 <= i < k <= cs.len(),
        first_header(cs.subrange(0, i)) is None,
        is_tp(cs[i], 2),
    ensures
        first_header(cs.subrange(0, k)) == Some(cs[i]),
    decreases k - i,
{
    if k == i + 1 {
        assert(cs.subrange(0, k).drop_last() =~= cs.subrange(0, i));
    } else {
        lemma_first_header_at(cs, i, k - 1);
        assert(cs.subrange(0, k).drop_last() =~= cs.subrange(0, k - 1));
    }
}

/// One top-level declaration, with the doc comment above it; a kind the
/// grammar does not have is an internal error.
#[verifier::rlimit(40)]
pub fn convert_top_level_decl(c: &CstNode, src: &str, file: FileId, doc: Option<String>, out: &mut Vec<Diagnostic>)
    -> (r: Option<Decl>)
    requires
        generics_have_base(*c),
    ensures
        top_decl_is(r, *c, src@, file, dview(doc)),
        diags_view(final(out)@) == diags_view(old(out)@) + top_decl_diags(*c, src@, file),
{
    let t = top_tag_of(c.kind.as_str());
    if t == 5 {
        match convert_type_alias(c, src, file, doc, out) { Some(x) => Some(Decl::TypeAlias(x)), None => None }
    } else if t == 6 {
        proof {
            assert(diags_view(out@) =~= diags_view(out@) + Seq::<DiagnosticView>::empty());
        }
        match convert_actor(c, src, file, doc) { Some(x) => Some(Decl::Actor(x)), None => None }
    } else if t == 7 {
        match convert_event(c, src, file, doc, out) { Some(x) => Some(Decl::Event(x)), None => None }
    } else if t == 8 {
        match convert_const(c, src, file, doc, out) { Some(x) => Some(Decl::Const(x)), None => None }
    } else if t == 9 {
        match convert_extern(c, src, file, doc, out) { Some(x) => Some(Decl::Extern(x)), None => None }
    } else if t == 10 || t == 11 {
        match convert_observable(c, t == 11, src, file, doc, out) { Some(x) => Some(Decl::Observable(x)), None => None }
    } else if t == 12 {
        match convert_history_predicate(c, src, file, doc, out) { Some(x) => Some(Decl::HistoryPredicate(x)), None => None }
    } else if t == 13 {
        match convert_attacker(c, src, file, doc, out) { Some(x) => Some(Decl::Attacker(x)), None => None }
    } else if t == 14 {
        match convert_property_decl(c, src, file, doc, out) { Some(x) => Some(Decl::Property(x)), None => None }
    } else if t == 15 {
        match convert_scenario_decl(c, src, file, doc, out) { Some(x) => Some(Decl::Scenario(x)), None => None }
    } else if t == 16 {
        match convert_surface_block(c, src, file, doc, out) { Some(x) => Some(Decl::Surface(x)), None => None }
    } else if t == 17 {
        Some(Decl::Substrate(convert_substrate_block(c, src, file, doc, out)))
    } else if t == 18 {
        Some(Decl::PartialSubstrate(convert_partial_substrate_block(c, src, file, doc, out)))
    } else if t == 19 {
        match convert_compose_block(c, src, file, doc, out) { Some(x) => Some(Decl::Compose(x)), None => None }
    } else {
        let mut m = owned("unhandled top-level decl kind `");
        m.append(c.kind.as_str());
        m.append("`");
        let d = Diagnostic::error(ErrorKind::Internal, m.as_str(), Span::new(file, c.start, c.end));
        proof {
            lemma_diags_view_push(out@, d);
        }
        out.push(d);
        None
    }
}

/// A whole file's tree: its module, and what reading it reports.
#[verifier::spinoff_prover]
#[verifier::rlimit(60)]
pub fn convert_module_file_into(root: &CstNode, src: &str, file: FileId, out: &mut Vec<Diagnostic>) -> (r: Option<ModuleFile>)
    requires
        generics_have_base(*root),
        root.kind@ == "source_file"@ ==> header_named(*root),
    ensures
        module_file_is(r, *root, src@, file),
        diags_view(final(out)@) == diags_view(old(out)@) + module_file_diags(*root, src@, file),
{
    let ghost h0 = diags_view(out@);
    if !str_eq(root.kind.as_str(), "source_file") {
        let mut m = owned("expected `source_file` root, got `");
        m.append(root.kind.as_str());
        m.append("` (parser invariant)");
        let d = Diagnostic::error(ErrorKind::Internal, m.as_str(), Span::new(file, root.start, root.end));
        proof {
            lemma_diags_view_push(out@, d);
        }
        out.push(d);
        return None;
    }
    let ghost cs = root.children@;
    let span = Span::new(file, root.start, root.end);
    let mut header: Option<ModuleHeader> = None;
    let mut uses: Vec<UseDecl> = Vec::new();
    let mut decls: Vec<Decl> = Vec::new();
    let mut pending_doc: Option<String> = None;
    let mut i: usize = 0;
    proof {
        assert(cs.subrange(0, 0) =~= Seq::<CstNode>::empty());
        assert(h0 + Seq::<DiagnosticView>::empty() =~= h0);
    }
    while i < root.children.len()
        invariant
            i <= cs.len(),
            cs == root.children@,
            generics_have_base(*root),
            header_named(*root),
            match first_header(cs.subrange(0, i as int)) {
                Some(hn) => header matches Some(hd) && header_is(hd, hn, src@, file) && dview(hd.doc) == header_doc(cs.subrange(0, i as int), src@),
                None => header is None,
            },
            uses_in(uses@, cs.subrange(0, i as int), src@, file),
            decls_in(decls@, cs.subrange(0, i as int), src@, file),
            dview(pending_doc) == mpending(cs.subrange(0, i as int), src@),
            diags_view(out@) == h0 + mod_diags(cs.subrange(0, i as int), src@, file),
        decreases cs.len() - i,
    {
        let ghost pre = cs.subrange(0, i + 1);
        let ghost prev = cs.subrange(0, i as int);
        proof {
            assert(pre.drop_last() =~= prev);
            assert(pre.last() == cs[i as int]);
            lemma_all_generics(cs, i as int);
            lemma_has_first(prev);
        }
        let c = &root.children[i];
        let content = crate::expr_syntax::is_content_node(c);
        let t = if content { top_tag_of(c.kind.as_str()) } else { 0 };
        if content && t == 1 {
            pending_doc = Some(doc_string_text(text_of(c, src)));
        } else if content && t == 2 {
            if header.is_some() {
                let d = Diagnostic::error(ErrorKind::Internal, "duplicate `module` header in one file", Span::new(file, c.start, c.end));
                proof {
                    lemma_diags_view_push(out@, d);
                }
                out.push(d);
            } else {
                proof {
                    lemma_first_header_at(cs, i as int, cs.len() as int);
                    assert(cs.subrange(0, cs.len() as int) =~= cs);
                    lemma_first_header_at(cs, i as int, i + 1);
                }
                let d = pending_doc;
                pending_doc = None;
                header = Some(crate::cst::convert_module_header(c, src, file, d));
            }
        } else if content && t == 3 {
            match crate::cst::convert_use_decl(c, src, file) {
                Some(u) => {
                    let ghost before = uses@;
                    uses.push(u);
                    proof {
                        assert(uses@.drop_last() =~= before);
                    }
                },
                None => {},
            }
            pending_doc = None;
        } else if content && t == 4 {
            pending_doc = None;
        } else if content {
            let d = pending_doc;
            pending_doc = None;
            match convert_top_level_decl(c, src, file, d, out) {
                Some(x) => {
                    let ghost before = decls@;
                    decls.push(x);
                    proof {
                        assert(decls@.drop_last() =~= before);
                    }
                },
                None => {},
            }
        }
        proof {
            assert(diags_view(out@) =~= h0 + mod_diags(pre, src@, file));
        }
        i += 1;
    }
    proof {
        assert(cs.subrange(0, i as int) =~= cs);
    }
    match header {
        Some(hd) => Some(ModuleFile { header: hd, uses, decls, span }),
        None => {
            let d = Diagnostic::error(ErrorKind::ParseError, "missing `module <Name>` header (every .surf file needs one)", span);
            proof {
                lemma_diags_view_push(out@, d);
            }
            out.push(d);
            None
        },
    }
}

/// A whole file's tree: its module (`None` without a `module` header or
/// for a root that is no `source_file`), and what reading it reports.
pub fn convert_module_file(root: &CstNode, src: &str, file: FileId) -> (r: (Option<ModuleFile>, Vec<Diagnostic>))
    requires
        generics_have_base(*root),
        root.kind@ == "source_file"@ ==> header_named(*root),
    ensures
        module_file_is(r.0, *root, src@, file),
        diags_view(r.1@) == module_file_diags(*root, src@, file),
{
    let mut out: Vec<Diagnostic> = Vec::new();
    proof {
        assert(diags_view(out@) =~= Seq::<DiagnosticView>::empty());
    }
    let m = convert_module_file_into(root, src, file, &mut out);
    proof {
        assert(Seq::<DiagnosticView>::empty() + module_file_diags(*root, src@, file) =~= module_file_diags(*root, src@, file));
    }
    (m, out)
}

} // verus!
