//! Component paths written as text inside substrate blocks: channel
//! endpoints, realization targets and `internal` entries.

use vstd::prelude::*;
use crate::cst::{CstNode, named_of_kind, node_span, node_text, text_of};
use crate::expr_syntax::{nid_is, id_is};
use crate::fairness_syntax::{spec_find, find_str, trim_end_str, qft_is, qualified_from_nodes, seg_node_ok, first_node_named,
    last_or_missing, child_idents};
use crate::ident::{Ident, QualifiedName};
use crate::scenario_syntax::ids_are;
use crate::span::{FileId, Span};
use crate::substrate::{ChannelMultiplicity, InternalEntry, RealizesTarget};
use crate::syntax::{spec_trim, trim, trim_end};
use crate::text::str_eq;

verus! {

// ---- text ----

/// The text before the first `p`, or all of it.
pub open spec fn before_first(s: Seq<char>, p: Seq<char>) -> Seq<char> {
    match spec_find(s, p) {
        Some(k) => s.subrange(0, k),
        None => s,
    }
}

/// The index of the last `c`.
pub open spec fn rfind_char(s: Seq<char>, c: char) -> Option<int>
    decreases s.len(),
{
    if s.len() == 0 { None } else if s.last() == c { Some(s.len() - 1) } else { rfind_char(s.drop_last(), c) }
}

pub proof fn lemma_rfind_char(s: Seq<char>, c: char)
    ensures
        rfind_char(s, c) matches Some(k) ==> 0 <= k < s.len(),
    decreases s.len(),
{
    if s.len() > 0 {
        lemma_rfind_char(s.drop_last(), c);
    }
}

/// `s` without leading `.` characters.
pub open spec fn trim_dots(s: Seq<char>) -> Seq<char>
    decreases s.len(),
{
    if s.len() > 0 && s[0] == '.' { trim_dots(s.drop_first()) } else { s }
}

pub open spec fn ends_star(s: Seq<char>) -> bool {
    s.len() >= 2 && s[s.len() - 2] == '.' && s[s.len() - 1] == '*'
}

/// `s` without trailing `.*` pieces.
pub open spec fn strip_stars(s: Seq<char>) -> Seq<char>
    decreases s.len(),
{
    if ends_star(s) { strip_stars(s.subrange(0, s.len() - 2)) } else { s }
}

pub fn before_first_str<'a>(s: &'a str, p: &str) -> (r: &'a str)
    ensures
        r@ == before_first(s@, p@),
{
    match find_str(s, p) {
        Some(k) => s.substring_char(0, k),
        None => s,
    }
}

pub fn rfind_char_str(s: &str, c: char) -> (r: Option<usize>)
    ensures
        match r {
            Some(k) => rfind_char(s@, c) == Some(k as int) && k < s@.len(),
            None => rfind_char(s@, c) is None,
        },
{
    let mut j: usize = s.unicode_len();
    proof {
        assert(s@.subrange(0, j as int) =~= s@);
    }
    while j > 0
        invariant
            j <= s@.len(),
            rfind_char(s@, c) == rfind_char(s@.subrange(0, j as int), c),
        decreases j,
    {
        proof {
            let sub = s@.subrange(0, j as int);
            assert(sub.last() == s@[j - 1]);
            assert(sub.drop_last() =~= s@.subrange(0, j - 1));
        }
        if s.get_char(j - 1) == c {
            return Some(j - 1);
        }
        j -= 1;
    }
    proof {
        assert(s@.subrange(0, 0) =~= Seq::<char>::empty());
    }
    None
}

pub fn trim_dots_str(s: &str) -> (r: &str)
    ensures
        r@ == trim_dots(s@),
{
    let n = s.unicode_len();
    let mut i: usize = 0;
    proof {
        assert(s@.subrange(0, n as int) =~= s@);
    }
    while i < n && s.get_char(i) == '.'
        invariant
            n == s@.len(),
            i <= n,
            trim_dots(s@) == trim_dots(s@.subrange(i as int, n as int)),
        decreases n - i,
    {
        proof {
            assert(s@.subrange(i as int, n as int).drop_first() =~= s@.subrange(i + 1, n as int));
        }
        i += 1;
    }
    s.substring_char(i, n)
}

pub fn ends_star_str(s: &str) -> (r: bool)
    ensures
        r == ends_star(s@),
{
    let n = s.unicode_len();
    n >= 2 && s.get_char(n - 2) == '.' && s.get_char(n - 1) == '*'
}

pub fn strip_stars_str(s: &str) -> (r: &str)
    ensures
        r@ == strip_stars(s@),
{
    let mut j: usize = s.unicode_len();
    proof {
        assert(s@.subrange(0, j as int) =~= s@);
    }
    while j >= 2 && s.get_char(j - 2) == '.' && s.get_char(j - 1) == '*'
        invariant
            j <= s@.len(),
            strip_stars(s@) == strip_stars(s@.subrange(0, j as int)),
        decreases j,
    {
        proof {
            assert(s@.subrange(0, j as int).subrange(0, j - 2) =~= s@.subrange(0, j - 2));
        }
        j -= 2;
    }
    s.substring_char(0, j)
}

// ---- identifier descendants ----

/// The identifier nodes under `n`, `n` first, each child's subtree
/// before those of the children left of it.
pub open spec fn desc_ids(n: CstNode) -> Seq<CstNode>
    decreases n, 1int,
{
    (if n.kind@ == "identifier"@ { seq![n] } else { Seq::empty() }) + rev_kids(n.children@)
}

pub open spec fn rev_kids(cs: Seq<CstNode>) -> Seq<CstNode>
    decreases cs, 0int,
{
    if cs.len() == 0 {
        Seq::empty()
    } else {
        (if cs.last().named { desc_ids(cs.last()) } else { Seq::empty() }) + rev_kids(cs.drop_last())
    }
}

/// Appends the identifiers of `desc_ids(n)`.
pub fn push_desc_ids(n: &CstNode, src: &str, file: FileId, ids: &mut Vec<Ident>, ns: Ghost<Seq<CstNode>>)
    requires
        ids_are(old(ids)@, ns@, src@, file),
    ensures
        ids_are(final(ids)@, ns@ + desc_ids(*n), src@, file),
    decreases n,
{
    let ghost base = ns@ + (if n.kind@ == "identifier"@ { seq![*n] } else { Seq::<CstNode>::empty() });
    if str_eq(n.kind.as_str(), "identifier") {
        let ghost old_ids = ids@;
        ids.push(crate::expr_syntax::node_ident(n, src, file));
        proof {
            assert forall|i: int| 0 <= i < base.len() implies #[trigger] nid_is(ids@[i], base[i], src@, file) by {
                if i < ns@.len() {
                    assert(ids@[i] == old_ids[i]);
                    assert(base[i] == ns@[i]);
                }
            }
        }
    } else {
        proof {
            assert(base =~= ns@);
        }
    }
    let ghost cs = n.children@;
    let mut j: usize = n.children.len();
    proof {
        assert(cs.subrange(j as int, j as int) =~= Seq::<CstNode>::empty());
        assert(base + rev_kids(Seq::<CstNode>::empty()) =~= base);
    }
    while j > 0
        invariant
            j <= cs.len(),
            cs == n.children@,
            ids_are(ids@, base + suffix_ids(cs, j as int), src@, file),
        decreases j,
    {
        let c = &n.children[j - 1];
        proof {
            lemma_suffix_step(cs, j as int);
            assert(decreases_to!(n => n.children@[j - 1]));
        }
        if c.named {
            let ghost before = base + suffix_ids(cs, j as int);
            push_desc_ids(c, src, file, ids, Ghost(before));
            proof {
                assert(before + desc_ids(cs[j - 1]) =~= base + suffix_ids(cs, j - 1));
            }
        } else {
            proof {
                assert(base + suffix_ids(cs, j as int) =~= base + suffix_ids(cs, j - 1));
            }
        }
        j -= 1;
    }
    proof {
        lemma_suffix_all(cs);
        assert(base + rev_kids(cs) =~= ns@ + desc_ids(*n));
    }
}

/// What `rev_kids` gives for the children from `j` on.
pub open spec fn suffix_ids(cs: Seq<CstNode>, j: int) -> Seq<CstNode>
    decreases cs.len() - j,
{
    if j < 0 || j >= cs.len() {
        Seq::empty()
    } else {
        suffix_ids(cs, j + 1) + if cs[j].named { desc_ids(cs[j]) } else { Seq::empty() }
    }
}

proof fn lemma_suffix_step(cs: Seq<CstNode>, j: int)
    requires
        0 < j <= cs.len(),
    ensures
        suffix_ids(cs, j - 1) == suffix_ids(cs, j) + if cs[j - 1].named { desc_ids(cs[j - 1]) } else { Seq::empty() },
{
}

/// Reading the children right to left gives `rev_kids`.
proof fn lemma_suffix_all(cs: Seq<CstNode>)
    ensures
        suffix_ids(cs, 0) == rev_kids(cs),
    decreases cs.len(),
{
    if cs.len() > 0 {
        let d = cs.drop_last();
        lemma_suffix_all(d);
        lemma_suffix_prefix(cs, 0);
    }
}

/// Dropping the last child drops its subtree from the front of
/// `suffix_ids`.
proof fn lemma_suffix_prefix(cs: Seq<CstNode>, j: int)
    requires
        cs.len() > 0,
        0 <= j <= cs.len() - 1,
    ensures
        suffix_ids(cs, j) == (if cs.last().named { desc_ids(cs.last()) } else { Seq::empty() }) + suffix_ids(cs.drop_last(), j),
    decreases cs.len() - j,
{
    let last = if cs.last().named { desc_ids(cs.last()) } else { Seq::<CstNode>::empty() };
    if j == cs.len() - 1 {
        assert(suffix_ids(cs, j + 1) == Seq::<CstNode>::empty());
        assert(suffix_ids(cs.drop_last(), j) == Seq::<CstNode>::empty());
        assert(suffix_ids(cs, j) =~= last + suffix_ids(cs.drop_last(), j));
    } else {
        lemma_suffix_prefix(cs, j + 1);
        assert(cs.drop_last()[j] == cs[j]);
        assert(suffix_ids(cs, j) =~= last + suffix_ids(cs.drop_last(), j));
    }
}


/// The identifiers of `desc_ids(n)`.
pub fn desc_idents(n: &CstNode, src: &str, file: FileId) -> (r: Vec<Ident>)
    ensures
        ids_are(r@, desc_ids(*n), src@, file),
{
    let mut ids: Vec<Ident> = Vec::new();
    proof {
        assert(Seq::<CstNode>::empty() + desc_ids(*n) =~= desc_ids(*n));
    }
    push_desc_ids(n, src, file, &mut ids, Ghost(Seq::empty()));
    ids
}

fn last_or_missing_of(ids: &Vec<Ident>, ns: Ghost<Seq<CstNode>>, span: Span, src: Ghost<Seq<char>>, file: FileId) -> (r: Ident)
    requires
        ids_are(ids@, ns@, src@, file),
    ensures
        last_or_missing(r, ns@, span, src@, file),
{
    if ids.len() > 0 {
        proof {
            assert(nid_is(ids@[ids@.len() - 1], ns@[ns@.len() - 1], src@, file));
        }
        ids[ids.len() - 1].clone()
    } else {
        Ident::new("<missing>", span)
    }
}

/// The identifier spelled `name`: the first of `ids` so spelled, else a
/// new one at `span`.
fn ident_named(ids: &Vec<Ident>, ns: Ghost<Seq<CstNode>>, name: &str, span: Span, src: Ghost<Seq<char>>, file: FileId) -> (r: Ident)
    requires
        ids_are(ids@, ns@, src@, file),
    ensures
        seg_node_ok(r, ns@, name@, span, src@, file),
{
    let mut i: usize = 0;
    while i < ids.len()
        invariant
            i <= ids@.len(),
            ids_are(ids@, ns@, src@, file),
            forall|k: int| 0 <= k < i ==> node_text(#[trigger] ns@[k], src@) != name@,
        decreases ids@.len() - i,
    {
        proof {
            assert(nid_is(ids@[i as int], ns@[i as int], src@, file));
        }
        if str_eq(ids[i].as_str(), name) {
            proof {
                lemma_first_node_named_at(ns@, name@, src@, i as int);
            }
            return ids[i].clone();
        }
        i += 1;
    }
    proof {
        lemma_first_node_named_none(ns@, name@, src@);
    }
    Ident::new(name, span)
}

proof fn lemma_first_node_named_at(ns: Seq<CstNode>, name: Seq<char>, src: Seq<char>, i: int)
    requires
        0 <= i < ns.len(),
        node_text(ns[i], src) == name,
        forall|k: int| 0 <= k < i ==> node_text(#[trigger] ns[k], src) != name,
    ensures
        first_node_named(ns, name, src) == Some(i),
    decreases ns.len(),
{
    if i < ns.len() - 1 {
        let d = ns.drop_last();
        assert forall|k: int| 0 <= k < i implies node_text(#[trigger] d[k], src) != name by {
            assert(d[k] == ns[k]);
        }
        assert(d[i] == ns[i]);
        lemma_first_node_named_at(d, name, src, i);
    } else {
        lemma_first_node_named_none(ns.drop_last(), name, src);
    }
}

proof fn lemma_first_node_named_none(ns: Seq<CstNode>, name: Seq<char>, src: Seq<char>)
    requires
        forall|k: int| 0 <= k < ns.len() ==> node_text(#[trigger] ns[k], src) != name,
    ensures
        first_node_named(ns, name, src) is None,
    decreases ns.len(),
{
    if ns.len() > 0 {
        let d = ns.drop_last();
        assert forall|k: int| 0 <= k < d.len() implies node_text(#[trigger] d[k], src) != name by {
            assert(d[k] == ns[k]);
        }
        lemma_first_node_named_none(d, name, src);
        assert(node_text(ns[ns.len() - 1], src) != name);
    }
}

// ---- channel endpoints ----

pub open spec fn mult_is(m: ChannelMultiplicity, raw: Seq<char>, span: Span) -> bool {
    match spec_find(raw, "["@) {
        Some(o) => match spec_find(raw.subrange(o, raw.len() as int), "]"@) {
            Some(c) => {
                let inside = spec_trim(raw.subrange(o + 1, o + c));
                if inside == "*"@ { m == ChannelMultiplicity::Star } else { m matches ChannelMultiplicity::PairwiseId(id) && id_is(id, inside, span) }
            },
            None => m == ChannelMultiplicity::One,
        },
        None => m == ChannelMultiplicity::One,
    }
}

/// A channel endpoint: a component path, with a multiplicity when it is
/// indexed.
pub open spec fn endpoint_is(q: QualifiedName, m: ChannelMultiplicity, n: CstNode, src: Seq<char>, file: FileId) -> bool {
    let span = node_span(n, file);
    if n.kind@ == "identifier"@ {
        q.segments@.len() == 1 && nid_is(q.segments@[0], n, src, file) && q.span == q.segments@[0].span
            && m == ChannelMultiplicity::One
    } else {
        let raw = spec_trim(node_text(n, src));
        mult_is(m, raw, span)
            && qft_is(q, spec_trim(before_first(raw, "["@)), named_of_kind(n.children@, "identifier"@), span, src, file)
    }
}

pub fn parse_channel_endpoint(n: &CstNode, src: &str, file: FileId) -> (r: (QualifiedName, ChannelMultiplicity))
    ensures
        endpoint_is(r.0, r.1, *n, src@, file),
{
    proof {
        reveal_strlit("[");
        reveal_strlit("]");
    }
    let span = Span::new(file, n.start, n.end);
    if str_eq(n.kind.as_str(), "identifier") {
        let id = crate::expr_syntax::node_ident(n, src, file);
        let ghost g = id;
        let mut segs: Vec<Ident> = Vec::new();
        segs.push(id);
        proof {
            assert(g.span.spec_merge(g.span) == g.span);
        }
        return (QualifiedName::new(segs), ChannelMultiplicity::One);
    }
    let raw = trim(text_of(n, src));
    let ids = child_idents(n, src, file);
    let rn = raw.unicode_len();
    let mult = match find_str(raw, "[") {
        Some(o) => {
            let rest = raw.substring_char(o, rn);
            match find_str(rest, "]") {
                Some(c) => {
                    proof {
                        assert(raw@.subrange(o as int, o + 1) == "["@);
                        assert(raw@[o as int] == raw@.subrange(o as int, o + 1)[0]);
                        assert(rest@[0] == raw@[o as int]);
                        if c == 0 {
                            assert(rest@[0] == rest@.subrange(0, 1)[0]);
                        }
                    }
                    let inside = trim(raw.substring_char(o + 1, o + c));
                    if str_eq(inside, "*") {
                        ChannelMultiplicity::Star
                    } else {
                        ChannelMultiplicity::PairwiseId(Ident::new(inside, span))
                    }
                },
                None => ChannelMultiplicity::One,
            }
        },
        None => ChannelMultiplicity::One,
    };
    let comp_text = trim(before_first_str(raw, "["));
    let q = qualified_from_nodes(comp_text, &ids, Ghost(named_of_kind(n.children@, "identifier"@)), span, Ghost(src@), file);
    (q, mult)
}

// ---- realization targets ----

/// The component text and optional replicate text of a realization path,
/// and the text after its `]`.
pub open spec fn rp_close(raw: Seq<char>, b: int) -> int {
    match spec_find(raw.subrange(b, raw.len() as int), "]"@) {
        Some(p) => p,
        None => raw.len() - b,
    }
}

pub open spec fn rp_after(raw: Seq<char>) -> Seq<char> {
    match spec_find(raw, "["@) {
        Some(b) => {
            let start = match spec_find(raw.subrange(b, raw.len() as int), "]"@) {
                Some(p) => b + p + 1,
                None => raw.len() as int,
            };
            spec_trim(trim_dots(raw.subrange(start, raw.len() as int)))
        },
        None => Seq::empty(),
    }
}

pub open spec fn rp_comp(raw: Seq<char>) -> Seq<char> {
    match spec_find(raw, "["@) {
        Some(b) => trim_end(raw.subrange(0, b)),
        None => raw,
    }
}

/// The text after the last `.`, or all of it.
pub open spec fn after_last_dot(s: Seq<char>) -> Seq<char> {
    match rfind_char(s, '.') {
        Some(k) => s.subrange(k + 1, s.len() as int),
        None => s,
    }
}

/// The text before the last `.`, or all of it.
pub open spec fn before_last_dot(s: Seq<char>) -> Seq<char> {
    match rfind_char(s, '.') {
        Some(k) => s.subrange(0, k),
        None => s,
    }
}

pub open spec fn rid_is(r: Option<Ident>, raw: Seq<char>, ns: Seq<CstNode>, span: Span, src: Seq<char>, file: FileId) -> bool {
    match spec_find(raw, "["@) {
        Some(b) => {
            let inside = spec_trim(raw.subrange(b + 1, b + rp_close(raw, b)));
            if inside == "*"@ { r is None } else { r matches Some(id) && seg_node_ok(id, ns, inside, span, src, file) }
        },
        None => r is None,
    }
}

/// The action target a realization path names.
pub open spec fn rpath_is(t: RealizesTarget, n: CstNode, src: Seq<char>, file: FileId) -> bool {
    let raw = spec_trim(node_text(n, src));
    let ns = desc_ids(n);
    let span = node_span(n, file);
    let comp = rp_comp(raw);
    let after = rp_after(raw);
    let action_text = if after.len() == 0 { after_last_dot(comp) } else { after };
    let component_text = if after.len() == 0 { before_last_dot(comp) } else { comp };
    t matches RealizesTarget::Action { component, replicate_id, action }
        && qft_is(component, component_text, ns, span, src, file)
        && rid_is(replicate_id, raw, ns, span, src, file)
        && seg_node_ok(action, ns, action_text, span, src, file)
}

pub fn parse_realization_path(n: &CstNode, src: &str, file: FileId) -> (r: RealizesTarget)
    ensures
        rpath_is(r, *n, src@, file),
{
    proof {
        reveal_strlit("[");
        reveal_strlit("]");
    }
    let span = Span::new(file, n.start, n.end);
    let raw = trim(text_of(n, src));
    let rn = raw.unicode_len();
    let ids = desc_idents(n, src, file);
    let ghost ns = desc_ids(*n);
    let (comp, replicate_id, after): (&str, Option<Ident>, &str) = match find_str(raw, "[") {
        Some(b) => {
            let rest = raw.substring_char(b, rn);
            let found = find_str(rest, "]");
            let close = match found {
                Some(p) => p,
                None => rn - b,
            };
            proof {
                assert(raw@.subrange(b as int, b + 1) == "["@);
                assert(raw@[b as int] == raw@.subrange(b as int, b + 1)[0]);
                assert(rest@[0] == raw@[b as int]);
                if let Some(p) = found {
                    if p == 0 {
                        assert(rest@[0] == rest@.subrange(0, 1)[0]);
                    }
                }
            }
            let inside = trim(raw.substring_char(b + 1, b + close));
            let comp = trim_end_str(raw.substring_char(0, b));
            let rid = if str_eq(inside, "*") {
                None
            } else {
                Some(ident_named(&ids, Ghost(ns), inside, span, Ghost(src@), file))
            };
            let start = match found {
                Some(p) => b + p + 1,
                None => rn,
            };
            let after = trim(trim_dots_str(raw.substring_char(start, rn)));
            (comp, rid, after)
        },
        None => (raw, None, ""),
    };
    proof {
        reveal_strlit("");
    }
    let (action_text, component_text): (&str, &str) = if after.unicode_len() == 0 {
        let cn = comp.unicode_len();
        match rfind_char_str(comp, '.') {
            Some(k) => (comp.substring_char(k + 1, cn), comp.substring_char(0, k)),
            None => (comp, comp),
        }
    } else {
        (after, comp)
    };
    let component = qualified_from_nodes(component_text, &ids, Ghost(ns), span, Ghost(src@), file);
    let action = ident_named(&ids, Ghost(ns), action_text, span, Ghost(src@), file);
    RealizesTarget::Action { component, replicate_id, action }
}

// ---- `internal` entries ----

pub open spec fn ientry_is(r: Option<InternalEntry>, n: CstNode, src: Seq<char>, file: FileId) -> bool {
    let raw = spec_trim(node_text(n, src));
    let ns = desc_ids(n);
    let span = node_span(n, file);
    let star = spec_find(raw, "[*]"@) is Some;
    if spec_find(raw, ".receives."@) is Some {
        r matches Some(InternalEntry::Receives { component, all_replicas, message, span: s }) && s == span
            && qft_is(component, before_first(before_first(raw, "["@), ".receives."@), ns, span, src, file)
            && all_replicas == star && last_or_missing(message, ns, span, src, file)
    } else if star {
        let comp = spec_trim(before_first(raw, "["@));
        if ends_star(raw) {
            r matches Some(InternalEntry::AllOfAllReplicas { component, span: s }) && s == span
                && qft_is(component, comp, ns, span, src, file)
        } else {
            r matches Some(InternalEntry::ActionAllReplicas { component, action, span: s }) && s == span
                && qft_is(component, comp, ns, span, src, file) && last_or_missing(action, ns, span, src, file)
        }
    } else if ends_star(raw) {
        r matches Some(InternalEntry::AllOfComponent { component, span: s }) && s == span
            && qft_is(component, spec_trim(strip_stars(raw)), ns, span, src, file)
    } else if ns.len() == 0 {
        r is None
    } else {
        let comp = match rfind_char(raw, '.') { Some(k) => raw.subrange(0, k), None => Seq::empty() };
        r matches Some(InternalEntry::Action { component, action, span: s }) && s == span
            && qft_is(component, comp, ns, span, src, file) && nid_is(action, ns.last(), src, file)
    }
}

pub fn convert_internal_entry(n: &CstNode, src: &str, file: FileId) -> (r: Option<InternalEntry>)
    ensures
        ientry_is(r, *n, src@, file),
{
    proof {
        reveal_strlit("");
    }
    let span = Span::new(file, n.start, n.end);
    let raw = trim(text_of(n, src));
    let ids = desc_idents(n, src, file);
    let ghost ns = desc_ids(*n);
    let star = find_str(raw, "[*]").is_some();
    if find_str(raw, ".receives.").is_some() {
        let comp_text = before_first_str(before_first_str(raw, "["), ".receives.");
        let component = qualified_from_nodes(comp_text, &ids, Ghost(ns), span, Ghost(src@), file);
        let message = last_or_missing_of(&ids, Ghost(ns), span, Ghost(src@), file);
        return Some(InternalEntry::Receives { component, all_replicas: star, message, span });
    }
    if star {
        let comp_text = trim(before_first_str(raw, "["));
        let component = qualified_from_nodes(comp_text, &ids, Ghost(ns), span, Ghost(src@), file);
        if ends_star_str(raw) {
            return Some(InternalEntry::AllOfAllReplicas { component, span });
        }
        let action = last_or_missing_of(&ids, Ghost(ns), span, Ghost(src@), file);
        return Some(InternalEntry::ActionAllReplicas { component, action, span });
    }
    if ends_star_str(raw) {
        let comp_text = trim(strip_stars_str(raw));
        let component = qualified_from_nodes(comp_text, &ids, Ghost(ns), span, Ghost(src@), file);
        return Some(InternalEntry::AllOfComponent { component, span });
    }
    if ids.len() == 0 {
        return None;
    }
    proof {
        assert(nid_is(ids@[ids@.len() - 1], ns[ns.len() - 1], src@, file));
    }
    let action = ids[ids.len() - 1].clone();
    let comp_text: &str = match rfind_char_str(raw, '.') {
        Some(k) => raw.substring_char(0, k),
        None => "",
    };
    proof {
        assert(""@ =~= Seq::<char>::empty());
    }
    let component = qualified_from_nodes(comp_text, &ids, Ghost(ns), span, Ghost(src@), file);
    Some(InternalEntry::Action { component, action, span })
}

} // verus!
