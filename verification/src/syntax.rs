//! Parsing support that does not depend on the concrete syntax tree:
//! the parse result, the converter state, and the text helpers the
//! converter uses on token text (doc strings, dotted names, retention
//! classes).

use vstd::prelude::*;
use crate::decl::ModuleFile;
use crate::diagnostic::Diagnostic;
use crate::ident::{Ident, QualifiedName};
use crate::slot::{RetentionValue, SlotValue};
use crate::span::{FileId, Span};
use crate::surface::RetentionClass;
use crate::text::{is_white_space, white_space, owned, str_eq};

verus! {

/// The outcome of parsing one file.
#[derive(Debug)]
pub struct ParseResult {
    pub module: Option<ModuleFile>,
    pub diagnostics: Vec<Diagnostic>,
    /// The kind of the syntax tree's root, when a tree was produced (even
    /// with errors); `None` when parsing aborted.
    pub cst_root_kind: Option<String>,
}

/// State of a syntax-tree conversion: the source, its file, and the
/// diagnostics raised so far.
pub struct Cvt<'a> {
    pub source: &'a str,
    pub file: FileId,
    pub diags: Vec<Diagnostic>,
}

impl<'a> Cvt<'a> {
    pub fn new(source: &'a str, file: FileId) -> (r: Self)
        ensures
            r.source@ == source@,
            r.file == file,
            r.diags@.len() == 0,
    {
        Cvt { source, file, diags: Vec::new() }
    }
}

// ---- trimming ----

/// `s` without its leading white space.
pub open spec fn trim_start(s: Seq<char>) -> Seq<char>
    decreases s.len(),
{
    if s.len() > 0 && is_white_space(s[0]) {
        trim_start(s.subrange(1, s.len() as int))
    } else {
        s
    }
}

/// `s` without its trailing white space.
pub open spec fn trim_end(s: Seq<char>) -> Seq<char>
    decreases s.len(),
{
    if s.len() > 0 && is_white_space(s.last()) {
        trim_end(s.drop_last())
    } else {
        s
    }
}

/// `s` without leading and trailing white space (`str::trim`).
pub open spec fn spec_trim(s: Seq<char>) -> Seq<char> {
    trim_end(trim_start(s))
}

/// `s.trim()`.
pub fn trim(s: &str) -> (r: &str)
    ensures
        r@ == spec_trim(s@),
{
    let n = s.unicode_len();
    let mut a: usize = 0;
    proof {
        assert(s@.subrange(0, n as int) =~= s@);
    }
    while a < n && white_space(s.get_char(a))
        invariant
            n == s@.len(),
            a <= n,
            trim_start(s@) == trim_start(s@.subrange(a as int, n as int)),
        decreases n - a,
    {
        proof {
            let rest = s@.subrange(a as int, n as int);
            assert(rest[0] == s@[a as int]);
            assert(rest.subrange(1, rest.len() as int) =~= s@.subrange(a + 1, n as int));
        }
        a += 1;
    }
    proof {
        let rest = s@.subrange(a as int, n as int);
        if a < n {
            assert(rest[0] == s@[a as int]);
        }
        assert(trim_start(rest) == rest);
    }
    let mut b: usize = n;
    while b > a && white_space(s.get_char(b - 1))
        invariant
            n == s@.len(),
            a <= b <= n,
            trim_start(s@) == s@.subrange(a as int, n as int),
            trim_end(s@.subrange(a as int, n as int)) == trim_end(s@.subrange(a as int, b as int)),
        decreases b - a,
    {
        proof {
            let cur = s@.subrange(a as int, b as int);
            assert(cur.last() == s@[b - 1]);
            assert(cur.drop_last() =~= s@.subrange(a as int, b - 1));
        }
        b -= 1;
    }
    proof {
        let cur = s@.subrange(a as int, b as int);
        if b > a {
            assert(cur.last() == s@[b - 1]);
        }
        assert(trim_end(cur) == cur);
    }
    s.substring_char(a, b)
}

// ---- doc strings ----

pub open spec fn triple_quote() -> Seq<char> {
    seq!['"', '"', '"']
}

/// Text wrapped in `"""…"""`.
pub open spec fn is_triple_quoted(t: Seq<char>) -> bool {
    t.len() >= 6 && t.subrange(0, 3) == triple_quote() && t.subrange(t.len() - 3, t.len() as int) == triple_quote()
}

/// The text of a doc string: trimmed, without its `"""` delimiters when
/// it has both, trimmed again.
pub open spec fn spec_doc_string_text(raw: Seq<char>) -> Seq<char> {
    let t = spec_trim(raw);
    spec_trim(if is_triple_quoted(t) { t.subrange(3, t.len() - 3) } else { t })
}

pub(crate) fn is_quote_at(s: &str, i: usize) -> (r: bool)
    requires
        i < s@.len(),
    ensures
        r == (s@[i as int] == '"'),
{
    s.get_char(i) == '"'
}

/// The text of a doc-string token.
pub fn doc_string_text(raw: &str) -> (r: String)
    ensures
        r@ == spec_doc_string_text(raw@),
{
    let t = trim(raw);
    let n = t.unicode_len();
    let wrapped = n >= 6 && is_quote_at(t, 0) && is_quote_at(t, 1) && is_quote_at(t, 2)
        && is_quote_at(t, n - 3) && is_quote_at(t, n - 2) && is_quote_at(t, n - 1);
    proof {
        if n >= 6 {
            assert(wrapped == is_triple_quoted(t@)) by {
                if wrapped {
                    assert(t@.subrange(0, 3) =~= triple_quote());
                    assert(t@.subrange(n - 3, n as int) =~= triple_quote());
                }
                if is_triple_quoted(t@) {
                    assert(t@.subrange(0, 3)[0] == t@[0]);
                    assert(t@.subrange(0, 3)[1] == t@[1]);
                    assert(t@.subrange(0, 3)[2] == t@[2]);
                    assert(t@.subrange(n - 3, n as int)[0] == t@[n - 3]);
                    assert(t@.subrange(n - 3, n as int)[1] == t@[n - 2]);
                    assert(t@.subrange(n - 3, n as int)[2] == t@[n - 1]);
                }
            }
        }
    }
    let inner = if wrapped { t.substring_char(3, n - 3) } else { t };
    owned(trim(inner))
}

// ---- dotted names ----

/// The pieces of `s` between `.` characters (`str::split('.')`).
pub open spec fn dot_pieces(s: Seq<char>) -> Seq<Seq<char>>
    decreases s.len(),
{
    if s.len() == 0 {
        seq![Seq::empty()]
    } else {
        let p = dot_pieces(s.drop_last());
        if s.last() == '.' {
            p.push(Seq::empty())
        } else {
            p.update(p.len() - 1, p.last().push(s.last()))
        }
    }
}

/// The trimmed, non-empty pieces.
pub open spec fn dotted_segments(s: Seq<char>) -> Seq<Seq<char>> {
    crate::diagnostic::concat_map(dot_pieces(s), |p: Seq<char>| if spec_trim(p).len() > 0 {
        seq![spec_trim(p)]
    } else {
        Seq::empty()
    })
}

/// Index of the first identifier spelled `name`.
pub open spec fn first_named(idents: Seq<Ident>, name: Seq<char>) -> Option<int>
    decreases idents.len(),
{
    if idents.len() == 0 {
        None
    } else {
        match first_named(idents.drop_last(), name) {
            Some(i) => Some(i),
            None => if idents.last().name@ == name { Some(idents.len() - 1) } else { None },
        }
    }
}

/// The identifier for one segment: the first of `idents` with that
/// spelling, else a new one at `span`.
pub open spec fn segment_ident_ok(id: Ident, idents: Seq<Ident>, seg: Seq<char>, span: Span) -> bool {
    match first_named(idents, seg) {
        Some(j) => id == idents[j],
        None => id.name@ == seg && id.span == span,
    }
}

pub proof fn lemma_first_named(idents: Seq<Ident>, name: Seq<char>)
    ensures
        first_named(idents, name) matches Some(j) ==> 0 <= j < idents.len() && idents[j].name@ == name,
    decreases idents.len(),
{
    if idents.len() > 0 {
        lemma_first_named(idents.drop_last(), name);
    }
}

fn find_ident(idents: &[Ident], name: &str) -> (r: Option<usize>)
    ensures
        r matches Some(j) ==> first_named(idents@, name@) == Some(j as int),
        r is None ==> first_named(idents@, name@) is None,
{
    let mut i: usize = 0;
    proof {
        assert(idents@.subrange(0, 0) =~= Seq::<Ident>::empty());
    }
    while i < idents.len()
        invariant
            i <= idents@.len(),
            first_named(idents@.subrange(0, i as int), name@) is None,
        decreases idents@.len() - i,
    {
        proof {
            assert(idents@.subrange(0, i + 1).drop_last() =~= idents@.subrange(0, i as int));
        }
        if str_eq(idents[i].name.as_str(), name) {
            proof {
                assert(first_named(idents@.subrange(0, i + 1), name@) == Some(i as int));
                lemma_first_named_prefix(idents@, i + 1, name@);
            }
            return Some(i);
        }
        i += 1;
    }
    proof {
        assert(idents@.subrange(0, i as int) =~= idents@);
    }
    None
}

/// A first match in a prefix is the first match overall.
proof fn lemma_first_named_prefix(idents: Seq<Ident>, k: int, name: Seq<char>)
    requires
        0 <= k <= idents.len(),
        first_named(idents.subrange(0, k), name) is Some,
    ensures
        first_named(idents, name) == first_named(idents.subrange(0, k), name),
    decreases idents.len() - k,
{
    if k < idents.len() {
        assert(idents.subrange(0, k + 1).drop_last() =~= idents.subrange(0, k));
        lemma_first_named_prefix(idents, k + 1, name);
    } else {
        assert(idents.subrange(0, k) =~= idents);
    }
}

fn segment_ident(piece: &str, idents: &[Ident], span: Span) -> (r: Ident)
    ensures
        segment_ident_ok(r, idents@, piece@, span),
{
    proof {
        lemma_first_named(idents@, piece@);
    }
    match find_ident(idents, piece) {
        Some(j) => idents[j].clone(),
        None => Ident::new(piece, span),
    }
}

/// Rebuild a qualified name from its dotted text, taking each segment's
/// identifier from `idents` when one is spelled the same (to keep its
/// span), else placing it at `span`. Text with no non-blank segment
/// becomes a one-segment name holding the whole text.
pub fn qualified_from_text(text: &str, idents: &[Ident], span: Span) -> (r: QualifiedName)
    requires
        forall|j: int| 0 <= j < idents@.len() ==> (#[trigger] idents@[j]).span.file == span.file,
    ensures
        dotted_segments(text@).len() > 0 ==> r.segments@.len() == dotted_segments(text@).len()
            && forall|i: int| 0 <= i < r.segments@.len()
                ==> segment_ident_ok(#[trigger] r.segments@[i], idents@, dotted_segments(text@)[i], span),
        dotted_segments(text@).len() == 0 ==> r.segments@.len() == 1 && r.segments@[0].name@ == text@
            && r.segments@[0].span == span,
        r.wf(),
        r.span == r.segments@[0].span.spec_merge(r.segments@.last().span),
{
    let ghost segs_spec = dotted_segments(text@);
    let ghost f = |p: Seq<char>| if spec_trim(p).len() > 0 { seq![spec_trim(p)] } else { Seq::<Seq<char>>::empty() };
    let n = text.unicode_len();
    let mut segs: Vec<Ident> = Vec::new();
    let mut start: usize = 0;
    let mut i: usize = 0;
    let ghost mut done: Seq<Seq<char>> = Seq::empty();
    proof {
        assert(text@.subrange(0, 0) =~= Seq::<char>::empty());
        assert(text@.subrange(0, 0) =~= text@.subrange(start as int, 0));
    }
    while i < n
        invariant
            n == text@.len(),
            start <= i <= n,
            f == (|p: Seq<char>| if spec_trim(p).len() > 0 { seq![spec_trim(p)] } else { Seq::<Seq<char>>::empty() }),
            forall|j: int| 0 <= j < idents@.len() ==> (#[trigger] idents@[j]).span.file == span.file,
            dot_pieces(text@.subrange(0, i as int)) == done.push(text@.subrange(start as int, i as int)),
            segs@.len() == crate::diagnostic::concat_map(done, f).len(),
            forall|k: int| 0 <= k < segs@.len()
                ==> segment_ident_ok(#[trigger] segs@[k], idents@, crate::diagnostic::concat_map(done, f)[k], span),
        decreases n - i,
    {
        let c = text.get_char(i);
        proof {
            let pre = text@.subrange(0, i + 1);
            assert(pre.drop_last() =~= text@.subrange(0, i as int));
            assert(pre.last() == c);
        }
        if c == '.' {
            let piece = text.substring_char(start, i);
            let t = trim(piece);
            let ghost old_done = done;
            proof {
                crate::diagnostic::lemma_concat_map_step(done.push(piece@), done.len() as int, f);
                assert(done.push(piece@).subrange(0, done.len() as int) =~= done);
                assert(done.push(piece@).subrange(0, done.len() as int + 1) =~= done.push(piece@));
                done = done.push(piece@);
                assert(text@.subrange(i + 1, i + 1) =~= Seq::<char>::empty());
            }
            if t.unicode_len() > 0 {
                let id = segment_ident(t, idents, span);
                let ghost before = segs@;
                segs.push(id);
                proof {
                    assert forall|k: int| 0 <= k < segs@.len()
                        implies segment_ident_ok(#[trigger] segs@[k], idents@, crate::diagnostic::concat_map(done, f)[k], span) by {
                        if k < before.len() {
                            assert(segs@[k] == before[k]);
                        }
                    }
                }
            }
            start = i + 1;
        } else {
            proof {
                assert(text@.subrange(start as int, i + 1) =~= text@.subrange(start as int, i as int).push(c));
                assert(done.push(text@.subrange(start as int, i as int)).update(done.len() as int,
                    text@.subrange(start as int, i + 1)) =~= done.push(text@.subrange(start as int, i + 1)));
            }
        }
        i += 1;
    }
    let piece = text.substring_char(start, n);
    let t = trim(piece);
    proof {
        assert(text@.subrange(0, n as int) =~= text@);
        crate::diagnostic::lemma_concat_map_step(done.push(piece@), done.len() as int, f);
        assert(done.push(piece@).subrange(0, done.len() as int) =~= done);
        assert(done.push(piece@).subrange(0, done.len() as int + 1) =~= done.push(piece@));
    }
    if t.unicode_len() > 0 {
        let id = segment_ident(t, idents, span);
        let ghost before = segs@;
        segs.push(id);
        proof {
            assert forall|k: int| 0 <= k < segs@.len()
                implies segment_ident_ok(#[trigger] segs@[k], idents@, segs_spec[k], span) by {
                if k < before.len() {
                    assert(segs@[k] == before[k]);
                }
            }
        }
    }
    if segs.len() == 0 {
        let mut one: Vec<Ident> = Vec::new();
        one.push(Ident::new(text, span));
        QualifiedName::new(one)
    } else {
        proof {
            assert forall|k: int| 0 <= k < segs@.len() implies (#[trigger] segs@[k]).span.file == span.file by {
                assert(segment_ident_ok(segs@[k], idents@, segs_spec[k], span));
                lemma_first_named(idents@, segs_spec[k]);
            }
        }
        QualifiedName::new(segs)
    }
}

/// The same rebuilding of a qualified name from dotted text, as the
/// substrate converter uses it.
pub fn qn_from_text(text: &str, idents: &[Ident], span: Span) -> (r: QualifiedName)
    requires
        forall|j: int| 0 <= j < idents@.len() ==> (#[trigger] idents@[j]).span.file == span.file,
    ensures
        dotted_segments(text@).len() > 0 ==> r.segments@.len() == dotted_segments(text@).len()
            && forall|i: int| 0 <= i < r.segments@.len()
                ==> segment_ident_ok(#[trigger] r.segments@[i], idents@, dotted_segments(text@)[i], span),
        dotted_segments(text@).len() == 0 ==> r.segments@.len() == 1 && r.segments@[0].name@ == text@
            && r.segments@[0].span == span,
        r.wf(),
        r.span == r.segments@[0].span.spec_merge(r.segments@.last().span),
{
    qualified_from_text(text, idents, span)
}

// ---- retention classes ----

/// The state-field retention class a slot value denotes: a retention
/// value other than a waiver, or a bare `ephemeral` / `transactional` /
/// `secret` token.
pub open spec fn spec_retention_class(v: SlotValue) -> Option<RetentionClass> {
    match v {
        SlotValue::Retention(rv) => Some(match rv {
            RetentionValue::Ephemeral => RetentionClass::Ephemeral,
            RetentionValue::Transactional => RetentionClass::Transactional,
            RetentionValue::Audit { period } => RetentionClass::Audit { period },
            RetentionValue::Pii { class, ttl } => RetentionClass::Pii { class, ttl },
            RetentionValue::Secret => RetentionClass::Secret,
        }),
        SlotValue::Unknown(id) => if id.name@ == "ephemeral"@ {
            Some(RetentionClass::Ephemeral)
        } else if id.name@ == "transactional"@ {
            Some(RetentionClass::Transactional)
        } else if id.name@ == "secret"@ {
            Some(RetentionClass::Secret)
        } else {
            None
        },
        _ => None,
    }
}

pub fn retention_class_from_slot_value(v: &SlotValue) -> (r: Option<RetentionClass>)
    ensures
        r == spec_retention_class(*v),
{
    match v {
        SlotValue::Retention(rv) => Some(match rv {
            RetentionValue::Ephemeral => RetentionClass::Ephemeral,
            RetentionValue::Transactional => RetentionClass::Transactional,
            RetentionValue::Audit { period } => RetentionClass::Audit { period: period.clone() },
            RetentionValue::Pii { class, ttl } => RetentionClass::Pii { class: *class, ttl: ttl.clone() },
            RetentionValue::Secret => RetentionClass::Secret,
        }),
        SlotValue::Unknown(id) => {
            if str_eq(id.name.as_str(), "ephemeral") {
                Some(RetentionClass::Ephemeral)
            } else if str_eq(id.name.as_str(), "transactional") {
                Some(RetentionClass::Transactional)
            } else if str_eq(id.name.as_str(), "secret") {
                Some(RetentionClass::Secret)
            } else {
                None
            }
        },
        _ => None,
    }
}

} // verus!
