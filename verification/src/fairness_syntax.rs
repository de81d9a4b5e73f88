//! Fairness declarations and their targets, read off syntax trees.

use vstd::prelude::*;
use crate::cst::{CstNode, named_of_kind, node_span, node_text, text_of};
use crate::effect_syntax::{hf, fc};
use crate::expr_syntax::{nid_is, id_is};
use crate::ident::{Ident, QualifiedName};
use crate::scenario_syntax::ids_are;
use crate::span::{FileId, Span};
use crate::substrate::{FairnessSpec, FairnessStrength, FairnessTarget};
use crate::syntax::{dotted_segments, spec_trim, trim, trim_end, qualified_from_text, first_named, segment_ident_ok};
use crate::text::{str_eq, white_space};
use crate::type_syntax::find_field;

verus! {

// ---- finding text ----

/// The first index at or after `i` where `p` occurs in `s`.
pub open spec fn find_from(s: Seq<char>, p: Seq<char>, i: int) -> Option<int>
    decreases s.len() + 1 - i,
{
    if i < 0 || i + p.len() > s.len() {
        None
    } else if s.subrange(i, i + p.len()) == p {
        Some(i)
    } else {
        find_from(s, p, i + 1)
    }
}

/// The first index where `p` occurs in `s` (`str::find`).
pub open spec fn spec_find(s: Seq<char>, p: Seq<char>) -> Option<int> {
    find_from(s, p, 0)
}

pub proof fn lemma_find_from(s: Seq<char>, p: Seq<char>, i: int)
    ensures
        find_from(s, p, i) matches Some(k) ==> i <= k && k + p.len() <= s.len(),
    decreases s.len() + 1 - i,
{
    if !(i < 0 || i + p.len() > s.len()) && s.subrange(i, i + p.len()) != p {
        lemma_find_from(s, p, i + 1);
    }
}

/// `s.find(p)`, counted in characters.
pub fn find_str(s: &str, p: &str) -> (r: Option<usize>)
    ensures
        match r {
            Some(k) => spec_find(s@, p@) == Some(k as int) && k + p@.len() <= s@.len()
                && s@.subrange(k as int, k + p@.len()) == p@,
            None => spec_find(s@, p@) is None,
        },
{
    let n = s.unicode_len();
    let m = p.unicode_len();
    if m > n {
        return None;
    }
    let last = n - m;
    let mut i: usize = 0;
    loop
        invariant
            n == s@.len(),
            m == p@.len(),
            last == n - m,
            i <= last,
            find_from(s@, p@, 0) == find_from(s@, p@, i as int),
        decreases last - i,
    {
        if str_eq(s.substring_char(i, i + m), p) {
            return Some(i);
        }
        if i == last {
            return None;
        }
        i += 1;
    }
}

/// `s.trim_end()`.
pub fn trim_end_str(s: &str) -> (r: &str)
    ensures
        r@ == trim_end(s@),
{
    let mut j: usize = s.unicode_len();
    proof {
        assert(s@.subrange(0, j as int) =~= s@);
    }
    while j > 0 && white_space(s.get_char(j - 1))
        invariant
            j <= s@.len(),
            trim_end(s@) == trim_end(s@.subrange(0, j as int)),
        decreases j,
    {
        proof {
            assert(s@.subrange(0, j as int).drop_last() =~= s@.subrange(0, j - 1));
        }
        j -= 1;
    }
    s.substring_char(0, j)
}

// ---- qualified names from dotted text ----

/// The first of the nodes spelled `name`.
pub open spec fn first_node_named(ns: Seq<CstNode>, name: Seq<char>, src: Seq<char>) -> Option<int>
    decreases ns.len(),
{
    if ns.len() == 0 {
        None
    } else {
        match first_node_named(ns.drop_last(), name, src) {
            Some(i) => Some(i),
            None => if node_text(ns.last(), src) == name { Some(ns.len() - 1) } else { None },
        }
    }
}

/// One segment of a dotted name: the identifier of the first node with
/// its spelling, else a new one at `span`.
pub open spec fn seg_node_ok(id: Ident, ns: Seq<CstNode>, seg: Seq<char>, span: Span, src: Seq<char>, file: FileId) -> bool {
    match first_node_named(ns, seg, src) {
        Some(j) => nid_is(id, ns[j], src, file),
        None => id.name@ == seg && id.span == span,
    }
}

/// The qualified name a dotted text spells, segments taken from the
/// identifier nodes `ns` where they match.
pub open spec fn qft_is(q: QualifiedName, text: Seq<char>, ns: Seq<CstNode>, span: Span, src: Seq<char>, file: FileId) -> bool {
    &&& dotted_segments(text).len() > 0 ==> q.segments@.len() == dotted_segments(text).len()
        && forall|i: int| 0 <= i < q.segments@.len()
            ==> #[trigger] seg_node_ok(q.segments@[i], ns, dotted_segments(text)[i], span, src, file)
    &&& dotted_segments(text).len() == 0 ==> q.segments@.len() == 1 && q.segments@[0].name@ == text
        && q.segments@[0].span == span
    &&& q.segments@.len() > 0
    &&& q.span == q.segments@[0].span.spec_merge(q.segments@.last().span)
}

proof fn lemma_first_named_nodes(ids: Seq<Ident>, ns: Seq<CstNode>, name: Seq<char>, src: Seq<char>, file: FileId)
    requires
        ids_are(ids, ns, src, file),
    ensures
        first_named(ids, name) == first_node_named(ns, name, src),
    decreases ns.len(),
{
    if ns.len() > 0 {
        let a = ids.drop_last();
        let b = ns.drop_last();
        assert forall|i: int| 0 <= i < b.len() implies #[trigger] nid_is(a[i], b[i], src, file) by {
            assert(nid_is(ids[i], ns[i], src, file));
        }
        lemma_first_named_nodes(a, b, name, src, file);
        assert(nid_is(ids[ids.len() - 1], ns[ns.len() - 1], src, file));
    }
}

/// `qualified_from_text` over the identifiers of the nodes `ns`.
pub fn qualified_from_nodes(text: &str, ids: &Vec<Ident>, ns: Ghost<Seq<CstNode>>, span: Span, src: Ghost<Seq<char>>,
    file: FileId) -> (r: QualifiedName)
    requires
        ids_are(ids@, ns@, src@, file),
        span.file == file,
    ensures
        qft_is(r, text@, ns@, span, src@, file),
        r.wf(),
{
    proof {
        assert forall|j: int| 0 <= j < ids@.len() implies (#[trigger] ids@[j]).span.file == span.file by {
            assert(nid_is(ids@[j], ns@[j], src@, file));
        }
    }
    let q = qualified_from_text(text, ids.as_slice(), span);
    proof {
        assert forall|i: int| 0 <= i < q.segments@.len() && dotted_segments(text@).len() > 0
            implies #[trigger] seg_node_ok(q.segments@[i], ns@, dotted_segments(text@)[i], span, src@, file) by {
            lemma_first_named_nodes(ids@, ns@, dotted_segments(text@)[i], src@, file);
            assert(segment_ident_ok(q.segments@[i], ids@, dotted_segments(text@)[i], span));
            if let Some(j) = first_named(ids@, dotted_segments(text@)[i]) {
                crate::syntax::lemma_first_named(ids@, dotted_segments(text@)[i]);
                assert(nid_is(ids@[j], ns@[j], src@, file));
            }
        }
    }
    q
}

/// The identifiers of the named `identifier` children.
pub fn child_idents(n: &CstNode, src: &str, file: FileId) -> (r: Vec<Ident>)
    ensures
        ids_are(r@, named_of_kind(n.children@, "identifier"@), src@, file),
        forall|i: int| 0 <= i < r@.len() ==> (#[trigger] r@[i]).span.file == file,
{
    let items = crate::cst::named_children_of(n, "identifier");
    let ghost ks = named_of_kind(n.children@, "identifier"@);
    let mut ids: Vec<Ident> = Vec::new();
    let mut i: usize = 0;
    while i < items.len()
        invariant
            i <= items@.len(),
            items@.len() == ks.len(),
            forall|j: int| 0 <= j < items@.len() ==> *(#[trigger] items@[j]) == ks[j],
            ids@.len() == i,
            forall|j: int| 0 <= j < i ==> #[trigger] nid_is(ids@[j], ks[j], src@, file),
            forall|j: int| 0 <= j < i ==> (#[trigger] ids@[j]).span.file == file,
        decreases items@.len() - i,
    {
        ids.push(crate::expr_syntax::node_ident(items[i], src, file));
        i += 1;
    }
    ids
}

// ---- fairness ----

/// The last of the identifier nodes, or `<missing>` at `span`.
pub open spec fn last_or_missing(id: Ident, ns: Seq<CstNode>, span: Span, src: Seq<char>, file: FileId) -> bool {
    if ns.len() > 0 { nid_is(id, ns.last(), src, file) } else { id_is(id, "<missing>"@, span) }
}

/// The text before the first `]` of `s`, trimmed.
pub open spec fn before_close(s: Seq<char>) -> Seq<char> {
    spec_trim(match spec_find(s, "]"@) {
        Some(k) => s.subrange(0, k),
        None => s,
    })
}

/// The target a fairness path node names.
pub open spec fn ftarget_is(t: FairnessTarget, n: CstNode, src: Seq<char>, file: FileId) -> bool {
    let raw = spec_trim(node_text(n, src));
    let ns = named_of_kind(n.children@, "identifier"@);
    let span = node_span(n, file);
    match spec_find(raw, "[*]"@) {
        Some(st) => {
            let comp = trim_end(raw.subrange(0, st));
            if spec_find(raw, ".receives."@) is Some {
                t matches FairnessTarget::ReceivesAllReplicas { component, message }
                    && qft_is(component, comp, ns, span, src, file) && last_or_missing(message, ns, span, src, file)
            } else {
                t matches FairnessTarget::AllReplicas { component, action }
                    && qft_is(component, comp, ns, span, src, file) && last_or_missing(action, ns, span, src, file)
            }
        },
        None => match spec_find(raw, "["@) {
            Some(b) => t matches FairnessTarget::SpecificReplica { component, id, action }
                && qft_is(component, trim_end(raw.subrange(0, b)), ns, span, src, file)
                && id_is(id, before_close(raw.subrange(b + 1, raw.len() as int)), span)
                && last_or_missing(action, ns, span, src, file),
            None => t matches FairnessTarget::Path(q) && if ns.len() == 0 {
                q.segments@.len() == 1 && q.span == q.segments@[0].span && if n.kind@ == "identifier"@ {
                    nid_is(q.segments@[0], n, src, file)
                } else {
                    id_is(q.segments@[0], raw, span)
                }
            } else {
                q.segments@.len() == ns.len() && (forall|i: int| 0 <= i < ns.len() ==> #[trigger] nid_is(q.segments@[i], ns[i], src, file))
                    && q.span == q.segments@[0].span.spec_merge(q.segments@.last().span)
            },
        },
    }
}

/// A fairness declaration: `strong` or weak, and its target; `None`
/// without a target.
pub open spec fn fairness_is(r: Option<FairnessSpec>, n: CstNode, src: Seq<char>, file: FileId) -> bool {
    if hf(n, "target"@) {
        let k = if hf(n, "kind"@) { node_text(fc(n, "kind"@), src) } else { "weak"@ };
        r matches Some(f) && f.span == node_span(n, file)
            && f.strength == (if k == "strong"@ { FairnessStrength::Strong } else { FairnessStrength::Weak })
            && ftarget_is(f.target, fc(n, "target"@), src, file)
    } else {
        r is None
    }
}

fn last_or_missing_ident(ids: &Vec<Ident>, span: Span) -> (r: Ident)
    ensures
        ids@.len() > 0 ==> r == ids@.last(),
        ids@.len() == 0 ==> r.name@ == "<missing>"@ && r.span == span,
{
    if ids.len() > 0 { ids[ids.len() - 1].clone() } else { Ident::new("<missing>", span) }
}

/// The target a fairness path node names.
pub fn parse_fairness_target(n: &CstNode, src: &str, file: FileId) -> (r: FairnessTarget)
    ensures
        ftarget_is(r, *n, src@, file),
{
    let raw = trim(text_of(n, src));
    let ids = child_idents(n, src, file);
    let ghost ns = named_of_kind(n.children@, "identifier"@);
    let span = Span::new(file, n.start, n.end);
    proof {
        reveal_strlit("[");
        reveal_strlit("]");
        assert(ids@.len() > 0 ==> nid_is(ids@.last(), ns.last(), src@, file));
    }
    match find_str(raw, "[*]") {
        Some(st) => {
            let comp_text = trim_end_str(raw.substring_char(0, st));
            let component = qualified_from_nodes(comp_text, &ids, Ghost(ns), span, Ghost(src@), file);
            let last = last_or_missing_ident(&ids, span);
            if find_str(raw, ".receives.").is_some() {
                FairnessTarget::ReceivesAllReplicas { component, message: last }
            } else {
                FairnessTarget::AllReplicas { component, action: last }
            }
        },
        None => match find_str(raw, "[") {
            Some(b) => {
                proof {
                    assert("["@.len() == 1);
                    assert(b + 1 <= raw@.len());
                }
                let rn = raw.unicode_len();
                let comp_text = trim_end_str(raw.substring_char(0, b));
                let inside = raw.substring_char(b + 1, rn);
                let id_text = match find_str(inside, "]") {
                    Some(k) => trim(inside.substring_char(0, k)),
                    None => trim(inside),
                };
                let id = Ident::new(id_text, span);
                let component = qualified_from_nodes(comp_text, &ids, Ghost(ns), span, Ghost(src@), file);
                let action = last_or_missing_ident(&ids, span);
                FairnessTarget::SpecificReplica { component, id, action }
            },
            None => {
                if ids.len() == 0 {
                    let seg = if str_eq(n.kind.as_str(), "identifier") {
                        crate::expr_syntax::node_ident(n, src, file)
                    } else {
                        Ident::new(raw, span)
                    };
                    let ghost g = seg;
                    let mut segs: Vec<Ident> = Vec::new();
                    segs.push(seg);
                    proof {
                        assert(g.span.spec_merge(g.span) == g.span);
                    }
                    FairnessTarget::Path(QualifiedName::new(segs))
                } else {
                    FairnessTarget::Path(QualifiedName::new(ids))
                }
            },
        },
    }
}

/// A fairness declaration: `strong` or weak, and its target; `None`
/// without a target.
pub fn convert_fairness_decl(n: &CstNode, src: &str, file: FileId) -> (r: Option<FairnessSpec>)
    ensures
        fairness_is(r, *n, src@, file),
{
    let k: &str = match find_field(n, "kind") {
        Some(j) => text_of(&n.children[j], src),
        None => "weak",
    };
    let strength = if str_eq(k, "strong") { FairnessStrength::Strong } else { FairnessStrength::Weak };
    match find_field(n, "target") {
        Some(j) => Some(FairnessSpec {
            strength,
            target: parse_fairness_target(&n.children[j], src, file),
            span: Span::new(file, n.start, n.end),
        }),
        None => None,
    }
}

} // verus!
