//! Diagnostics produced by the checking passes.
//!
//! Each diagnostic carries a stable [`Code`], a message, a primary span,
//! secondary labels and an optional help text.

use vstd::prelude::*;
use crate::codes::{Code, ErrorKind, WarningKind};
use crate::span::Span;
use crate::text::owned;

verus! {

/// A reportable diagnostic: an error or a warning with a stable code.
#[derive(Debug)]
pub struct Diagnostic {
    pub code: Code,
    pub message: String,
    pub primary_span: Span,
    pub labels: Vec<DiagnosticLabel>,
    pub help: Option<String>,
}

#[derive(Debug)]
pub struct DiagnosticLabel {
    pub span: Span,
    pub message: String,
}

/// The mathematical content of a diagnostic.
pub struct DiagnosticView {
    pub code: Code,
    pub message: Seq<char>,
    pub primary_span: Span,
    pub labels: Seq<(Span, Seq<char>)>,
    pub help: Option<Seq<char>>,
}

pub open spec fn label_view(l: DiagnosticLabel) -> (Span, Seq<char>) {
    (l.span, l.message@)
}

pub open spec fn help_view(h: Option<String>) -> Option<Seq<char>> {
    match h {
        Some(s) => Some(s@),
        None => None,
    }
}

impl View for Diagnostic {
    type V = DiagnosticView;

    open spec fn view(&self) -> DiagnosticView {
        DiagnosticView {
            code: self.code,
            message: self.message@,
            primary_span: self.primary_span,
            labels: self.labels@.map_values(|l: DiagnosticLabel| label_view(l)),
            help: help_view(self.help),
        }
    }
}

/// The views of a sequence of diagnostics.
pub open spec fn diags_view(ds: Seq<Diagnostic>) -> Seq<DiagnosticView> {
    ds.map_values(|d: Diagnostic| d@)
}

pub proof fn lemma_diags_view_append(a: Seq<Diagnostic>, b: Seq<Diagnostic>)
    ensures
        diags_view(a + b) == diags_view(a) + diags_view(b),
{
    assert(diags_view(a + b) =~= diags_view(a) + diags_view(b));
}

pub proof fn lemma_diags_view_push(a: Seq<Diagnostic>, d: Diagnostic)
    ensures
        diags_view(a.push(d)) == diags_view(a).push(d@),
{
    assert(diags_view(a.push(d)) =~= diags_view(a).push(d@));
}

/// What `f` gives for each element of `s`, concatenated in order.
pub open spec fn concat_map<A, B>(s: Seq<A>, f: spec_fn(A) -> Seq<B>) -> Seq<B>
    decreases s.len(),
{
    if s.len() == 0 {
        Seq::empty()
    } else {
        concat_map(s.drop_last(), f) + f(s.last())
    }
}

/// One more element adds its part at the end.
/// What `f` gives for one element is among what `concat_map` gives.
pub proof fn lemma_concat_map_contains<A, B>(s: Seq<A>, f: spec_fn(A) -> Seq<B>, i: int, y: B)
    requires
        0 <= i < s.len(),
        f(s[i]).contains(y),
    ensures
        concat_map(s, f).contains(y),
    decreases s.len(),
{
    let c = concat_map(s, f);
    let p = concat_map(s.drop_last(), f);
    assert(c == p + f(s.last()));
    if i == s.len() - 1 {
        let fi = f(s[i]);
        let k = choose|k: int| 0 <= k < fi.len() && fi[k] == y;
        assert(c[p.len() + k] == y);
    } else {
        assert(s.drop_last()[i] == s[i]);
        lemma_concat_map_contains(s.drop_last(), f, i, y);
        let k = choose|k: int| 0 <= k < p.len() && p[k] == y;
        assert(c[k] == y);
    }
}

pub proof fn lemma_concat_map_step<A, B>(s: Seq<A>, i: int, f: spec_fn(A) -> Seq<B>)
    requires
        0 <= i < s.len(),
    ensures
        concat_map(s.subrange(0, i + 1), f) == concat_map(s.subrange(0, i), f) + f(s[i]),
{
    assert(s.subrange(0, i + 1).drop_last() =~= s.subrange(0, i));
}

/// Mapping a concatenation concatenates the parts.
pub proof fn lemma_concat_map_append<A, B>(a: Seq<A>, b: Seq<A>, f: spec_fn(A) -> Seq<B>)
    ensures
        concat_map(a + b, f) == concat_map(a, f) + concat_map(b, f),
    decreases b.len(),
{
    if b.len() == 0 {
        assert(a + b =~= a);
        assert(concat_map(a, f) + concat_map(b, f) =~= concat_map(a, f));
    } else {
        lemma_concat_map_append(a, b.drop_last(), f);
        assert((a + b).drop_last() =~= a + b.drop_last());
        assert(concat_map(a, f) + concat_map(b.drop_last(), f) + f(b.last())
            =~= concat_map(a, f) + (concat_map(b.drop_last(), f) + f(b.last())));
    }
}

/// Elements that each contribute nothing contribute nothing together.
pub proof fn lemma_concat_map_empty<A, B>(s: Seq<A>, f: spec_fn(A) -> Seq<B>)
    requires
        forall|i: int| 0 <= i < s.len() ==> f(#[trigger] s[i]).len() == 0,
    ensures
        concat_map(s, f).len() == 0,
    decreases s.len(),
{
    if s.len() > 0 {
        assert forall|i: int| 0 <= i < s.drop_last().len() implies f(#[trigger] s.drop_last()[i]).len() == 0 by {
            assert(s.drop_last()[i] == s[i]);
        }
        lemma_concat_map_empty(s.drop_last(), f);
        assert(f(s[s.len() - 1]).len() == 0);
    }
}

/// Elements that each contribute one item contribute one item each.
pub proof fn lemma_concat_map_singletons<A, B>(s: Seq<A>, f: spec_fn(A) -> Seq<B>)
    requires
        forall|i: int| 0 <= i < s.len() ==> f(#[trigger] s[i]).len() == 1,
    ensures
        concat_map(s, f).len() == s.len(),
        forall|i: int| 0 <= i < s.len() ==> #[trigger] concat_map(s, f)[i] == f(s[i])[0],
    decreases s.len(),
{
    if s.len() > 0 {
        assert forall|i: int| 0 <= i < s.drop_last().len() implies f(#[trigger] s.drop_last()[i]).len() == 1 by {
            assert(s.drop_last()[i] == s[i]);
        }
        lemma_concat_map_singletons(s.drop_last(), f);
        assert(f(s[s.len() - 1]).len() == 1);
        assert forall|i: int| 0 <= i < s.len() implies #[trigger] concat_map(s, f)[i] == f(s[i])[0] by {
            if i < s.len() - 1 {
                assert(s.drop_last()[i] == s[i]);
                assert(concat_map(s.drop_last(), f)[i] == f(s.drop_last()[i])[0]);
            }
        }
    }
}

/// Two sequences of the same length related element by element.
pub open spec fn pointwise<B>(a: Seq<B>, b: Seq<B>, rel: spec_fn(B, B) -> bool) -> bool {
    a.len() == b.len() && forall|i: int| 0 <= i < a.len() ==> rel(#[trigger] a[i], b[i])
}

/// Mapping two element-wise related functions gives related results.
pub proof fn lemma_concat_map_pointwise<A, B>(s: Seq<A>, f: spec_fn(A) -> Seq<B>, g: spec_fn(A) -> Seq<B>,
    rel: spec_fn(B, B) -> bool)
    requires
        forall|i: int| 0 <= i < s.len() ==> pointwise(f(#[trigger] s[i]), g(s[i]), rel),
    ensures
        pointwise(concat_map(s, f), concat_map(s, g), rel),
    decreases s.len(),
{
    if s.len() > 0 {
        assert forall|i: int| 0 <= i < s.drop_last().len() implies pointwise(f(#[trigger] s.drop_last()[i]),
            g(s.drop_last()[i]), rel) by {
            assert(s.drop_last()[i] == s[i]);
        }
        lemma_concat_map_pointwise(s.drop_last(), f, g, rel);
        let a = concat_map(s.drop_last(), f);
        let b = concat_map(s.drop_last(), g);
        let x = f(s[s.len() - 1]);
        let y = g(s[s.len() - 1]);
        assert(pointwise(x, y, rel));
        assert forall|i: int| 0 <= i < (a + x).len() implies rel(#[trigger] (a + x)[i], (b + y)[i]) by {
            if i < a.len() {
                assert((a + x)[i] == a[i]);
                assert((b + y)[i] == b[i]);
            } else {
                assert((a + x)[i] == x[i - a.len()]);
                assert((b + y)[i] == y[i - b.len()]);
            }
        }
    }
}

/// Related sequences concatenated are related.
pub proof fn lemma_pointwise_append<B>(a: Seq<B>, b: Seq<B>, x: Seq<B>, y: Seq<B>, rel: spec_fn(B, B) -> bool)
    requires
        pointwise(a, b, rel),
        pointwise(x, y, rel),
    ensures
        pointwise(a + x, b + y, rel),
{
    assert forall|i: int| 0 <= i < (a + x).len() implies rel(#[trigger] (a + x)[i], (b + y)[i]) by {
        if i < a.len() {
            assert((a + x)[i] == a[i]);
            assert((b + y)[i] == b[i]);
        } else {
            assert((a + x)[i] == x[i - a.len()]);
            assert((b + y)[i] == y[i - b.len()]);
        }
    }
}

/// A diagnostic with no labels and no help.
pub open spec fn plain(code: Code, message: Seq<char>, span: Span) -> DiagnosticView {
    DiagnosticView { code, message, primary_span: span, labels: Seq::empty(), help: None }
}

impl DiagnosticView {
    pub open spec fn with_label(self, span: Span, message: Seq<char>) -> DiagnosticView {
        DiagnosticView { labels: self.labels.push((span, message)), ..self }
    }

    pub open spec fn with_help(self, help: Seq<char>) -> DiagnosticView {
        DiagnosticView { help: Some(help), ..self }
    }

    pub open spec fn is_error(self) -> bool {
        self.code is Error
    }
}

impl Diagnostic {
    pub fn error(code: ErrorKind, message: &str, primary: Span) -> (r: Diagnostic)
        ensures
            r@ == plain(Code::Error(code), message@, primary),
    {
        let r = Diagnostic {
            code: Code::Error(code),
            message: owned(message),
            primary_span: primary,
            labels: Vec::new(),
            help: None,
        };
        proof {
            assert(r@.labels =~= Seq::<(Span, Seq<char>)>::empty());
        }
        r
    }

    pub fn warning(code: WarningKind, message: &str, primary: Span) -> (r: Diagnostic)
        ensures
            r@ == plain(Code::Warning(code), message@, primary),
    {
        let r = Diagnostic {
            code: Code::Warning(code),
            message: owned(message),
            primary_span: primary,
            labels: Vec::new(),
            help: None,
        };
        proof {
            assert(r@.labels =~= Seq::<(Span, Seq<char>)>::empty());
        }
        r
    }

    /// Add a secondary label after the existing ones.
    pub fn with_label(self, span: Span, message: &str) -> (r: Diagnostic)
        ensures
            r@ == self@.with_label(span, message@),
    {
        let mut d = self;
        d.labels.push(DiagnosticLabel { span, message: owned(message) });
        proof {
            assert(d@.labels =~= self@.labels.push((span, message@)));
        }
        d
    }

    /// Set the help text.
    pub fn with_help(self, help: &str) -> (r: Diagnostic)
        ensures
            r@ == self@.with_help(help@),
    {
        let mut d = self;
        d.help = Some(owned(help));
        d
    }

    pub fn is_error(&self) -> (r: bool)
        ensures
            r == self@.is_error(),
    {
        match self.code {
            Code::Error(_) => true,
            Code::Warning(_) => false,
        }
    }
}

/// Number of errors in a sequence of diagnostics.
pub open spec fn count_errors(ds: Seq<DiagnosticView>) -> nat
    decreases ds.len(),
{
    if ds.len() == 0 {
        0
    } else {
        count_errors(ds.drop_last()) + if ds.last().is_error() { 1nat } else { 0nat }
    }
}

/// How many of `ds` carry code `c`.
pub open spec fn count_code(ds: Seq<DiagnosticView>, c: Code) -> nat
    decreases ds.len(),
{
    if ds.len() == 0 {
        0
    } else {
        count_code(ds.drop_last(), c) + if ds.last().code == c { 1nat } else { 0nat }
    }
}

pub proof fn lemma_count_code_append(a: Seq<DiagnosticView>, b: Seq<DiagnosticView>, c: Code)
    ensures
        count_code(a + b, c) == count_code(a, c) + count_code(b, c),
    decreases b.len(),
{
    if b.len() == 0 {
        assert(a + b =~= a);
    } else {
        lemma_count_code_append(a, b.drop_last(), c);
        assert((a + b).drop_last() =~= a + b.drop_last());
    }
}

/// Diagnostics that all carry code `c0` count as all of one code.
pub proof fn lemma_count_code_uniform(ds: Seq<DiagnosticView>, c0: Code, c: Code)
    requires
        forall|i: int| 0 <= i < ds.len() ==> (#[trigger] ds[i]).code == c0,
    ensures
        count_code(ds, c) == if c == c0 { ds.len() } else { 0 },
    decreases ds.len(),
{
    if ds.len() > 0 {
        assert forall|i: int| 0 <= i < ds.drop_last().len() implies (#[trigger] ds.drop_last()[i]).code == c0 by {
            assert(ds.drop_last()[i] == ds[i]);
        }
        lemma_count_code_uniform(ds.drop_last(), c0, c);
        assert(ds.last() == ds[ds.len() - 1]);
    }
}

/// Count the errors and the warnings, in that order.
pub fn summarise(diags: &[Diagnostic]) -> (r: (usize, usize))
    ensures
        r.0 == count_errors(diags_view(diags@)),
        r.1 == diags@.len() - count_errors(diags_view(diags@)),
{
    let mut e: usize = 0;
    let mut w: usize = 0;
    let mut i: usize = 0;
    while i < diags.len()
        invariant
            i <= diags@.len(),
            e == count_errors(diags_view(diags@.subrange(0, i as int))),
            e + w == i,
        decreases diags@.len() - i,
    {
        proof {
            let prev = diags@.subrange(0, i as int);
            let next = diags@.subrange(0, i + 1);
            assert(diags_view(next).drop_last() =~= diags_view(prev));
        }
        if diags[i].is_error() {
            e += 1;
        } else {
            w += 1;
        }
        i += 1;
    }
    proof {
        assert(diags@.subrange(0, i as int) =~= diags@);
    }
    (e, w)
}

/// The error count never exceeds the number of diagnostics, so errors
/// and warnings together account for every diagnostic.
pub proof fn lemma_count_errors_bounded(ds: Seq<DiagnosticView>)
    ensures
        count_errors(ds) <= ds.len(),
        (forall|i: int| 0 <= i < ds.len() ==> (#[trigger] ds[i]).is_error()) ==> count_errors(ds) == ds.len(),
        (forall|i: int| 0 <= i < ds.len() ==> !(#[trigger] ds[i]).is_error()) ==> count_errors(ds) == 0,
    decreases ds.len(),
{
    if ds.len() > 0 {
        lemma_count_errors_bounded(ds.drop_last());
        assert forall|i: int| 0 <= i < ds.drop_last().len() implies ds.drop_last()[i] == ds[i] by {}
    }
}

/// Counting errors distributes over concatenation.
pub proof fn lemma_count_errors_append(a: Seq<DiagnosticView>, b: Seq<DiagnosticView>)
    ensures
        count_errors(a + b) == count_errors(a) + count_errors(b),
    decreases b.len(),
{
    if b.len() == 0 {
        assert(a + b =~= a);
    } else {
        lemma_count_errors_append(a, b.drop_last());
        assert((a + b).drop_last() =~= a + b.drop_last());
    }
}

} // verus!
