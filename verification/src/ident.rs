//! Identifiers and qualified names.

use vstd::prelude::*;
use crate::span::Span;

verus! {

/// An identifier with a span and its source spelling.
#[derive(Debug, PartialEq, Eq, Hash)]
pub struct Ident {
    pub name: String,
    pub span: Span,
}

impl Clone for Ident {
    fn clone(&self) -> (r: Self)
        ensures
            r == *self,
    {
        Ident { name: self.name.clone(), span: self.span }
    }
}

impl Ident {
    pub fn new(name: &str, span: Span) -> (r: Ident)
        ensures
            r.name@ == name@,
            r.span == span,
    {
        Ident { name: crate::text::owned(name), span }
    }

    /// A synthetic identifier (no source position).
    pub fn synthetic(name: &str) -> (r: Ident)
        ensures
            r.name@ == name@,
            r.span == Span::spec_synthetic(),
    {
        Ident { name: crate::text::owned(name), span: Span::synthetic() }
    }

    pub fn as_str(&self) -> (r: &str)
        ensures
            r@ == self.name@,
    {
        self.name.as_str()
    }

    /// The identifier's spelling.
    pub fn to_string(&self) -> (r: String)
        ensures
            r@ == self.name@,
    {
        self.name.clone()
    }
}

/// A dotted qualified name like `Banking.Ledger`; the first segment is
/// the leftmost component.
#[derive(Debug, PartialEq, Eq, Hash)]
pub struct QualifiedName {
    pub segments: Vec<Ident>,
    pub span: Span,
}

impl Clone for QualifiedName {
    fn clone(&self) -> (r: Self)
        ensures
            r.segments@ == self.segments@,
            r.span == self.span,
    {
        let segments = self.segments.clone();
        proof {
            assert forall|i: int| 0 <= i < segments@.len() implies segments@[i] == self.segments@[i] by {
                assert(cloned::<Ident>(self.segments[i], segments[i]));
                if vstd::pervasive::strictly_cloned::<Ident>(self.segments[i], segments[i]) {
                    assert(call_ensures(Ident::clone, (&self.segments[i],), segments[i]));
                }
            }
            assert(segments@ =~= self.segments@);
        }
        QualifiedName { segments, span: self.span }
    }
}

/// The segment spellings of a name joined by `.`.
pub open spec fn spec_dotted(segs: Seq<Ident>) -> Seq<char>
    decreases segs.len(),
{
    if segs.len() == 0 {
        Seq::empty()
    } else if segs.len() == 1 {
        segs[0].name@
    } else {
        spec_dotted(segs.drop_last()) + "."@ + segs.last().name@
    }
}

impl QualifiedName {
    /// A name is well formed when it has at least one segment.
    pub open spec fn wf(&self) -> bool {
        self.segments@.len() > 0
    }

    pub open spec fn spec_dotted(&self) -> Seq<char> {
        spec_dotted(self.segments@)
    }

    /// Build a name from one or more segments; its span runs from the
    /// first segment to the last.
    pub fn new(segments: Vec<Ident>) -> (r: QualifiedName)
        requires
            segments@.len() > 0,
            segments@[0].span.file == segments@.last().span.file,
        ensures
            r.segments == segments,
            r.span == segments@[0].span.spec_merge(segments@.last().span),
    {
        let first = segments[0].span;
        let last = segments[segments.len() - 1].span;
        let span = first.merge(last);
        QualifiedName { segments, span }
    }

    pub fn last(&self) -> (r: &Ident)
        requires
            self.wf(),
        ensures
            *r == self.segments@.last(),
    {
        &self.segments[self.segments.len() - 1]
    }

    /// A name of one segment.
    pub open spec fn spec_is_simple(&self) -> bool {
        self.segments@.len() == 1
    }

    pub fn is_simple(&self) -> (r: bool)
        ensures
            r == self.spec_is_simple(),
    {
        self.segments.len() == 1
    }

    /// A name built from segments (as `new` builds it, from a first and
    /// last segment of one file) is simple exactly when it was built from
    /// one segment.
    pub proof fn lemma_built_name_is_simple_iff_one_segment(segs: Seq<Ident>, q: QualifiedName)
        requires
            segs.len() > 0,
            segs[0].span.file == segs.last().span.file,
            q.segments@ == segs,
            q.span == segs[0].span.spec_merge(segs.last().span),
        ensures
            q.spec_is_simple() <==> segs.len() == 1,
    {
    }

    /// The segments joined by `.`.
    pub fn dotted(&self) -> (r: String)
        ensures
            r@ == self.spec_dotted(),
    {
        let mut out = String::new();
        let mut i: usize = 0;
        while i < self.segments.len()
            invariant
                i <= self.segments@.len(),
                out@ == spec_dotted(self.segments@.subrange(0, i as int)),
            decreases self.segments@.len() - i,
        {
            let ghost prev = self.segments@.subrange(0, i as int);
            if i > 0 {
                out.append(".");
            }
            out.append(self.segments[i].name.as_str());
            proof {
                let next = self.segments@.subrange(0, i + 1);
                assert(next.drop_last() =~= prev);
                if i == 0 {
                    assert(prev =~= Seq::<Ident>::empty());
                }
            }
            i += 1;
        }
        proof {
            assert(self.segments@.subrange(0, i as int) =~= self.segments@);
        }
        out
    }

    /// The dotted spelling.
    pub fn to_string(&self) -> (r: String)
        ensures
            r@ == self.spec_dotted(),
    {
        self.dotted()
    }
}

/// A copy of a list of identifiers.
pub fn clone_idents(v: &Vec<Ident>) -> (r: Vec<Ident>)
    ensures
        r@ == v@,
{
    let mut out: Vec<Ident> = Vec::new();
    let mut i: usize = 0;
    while i < v.len()
        invariant
            i <= v@.len(),
            out@ == v@.subrange(0, i as int),
        decreases v@.len() - i,
    {
        out.push(v[i].clone());
        proof {
            assert(out@ =~= v@.subrange(0, i + 1));
        }
        i += 1;
    }
    proof {
        assert(v@.subrange(0, i as int) =~= v@);
    }
    out
}

} // verus!
