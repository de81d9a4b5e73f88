//! Slot values as written in an action's slot list: a call such as
//! `per_actor(5, per=MINUTE)` or a bare token such as `strong`, read off
//! its syntax tree.

use vstd::prelude::*;
use crate::cst::{CstNode, field_child, field_index, first_child, first_child_index, ident_from_node, ident_text_of,
    ident_view, id_view, named_children_of, named_of_kind, node_span, node_text, opt_id_view, text_of};
use crate::diagnostic::{concat_map, lemma_concat_map_step};
use crate::ident::Ident;
use crate::slot::{AuthChannelTag, AuthChannelValue, AvailabilityValue, FreshnessValue, IdempotencyValue, PiiClass,
    RateLimitValue, RetentionValue, ObservabilityValue, SlotAssign, SlotKind, SlotValue};
use crate::span::{FileId, Span};
use crate::text::str_eq;

verus! {

// ---- numbers ----

pub open spec fn is_digit(c: char) -> bool {
    '0' <= c && c <= '9'
}

pub open spec fn digits_value(s: Seq<char>) -> int
    decreases s.len(),
{
    if s.len() == 0 {
        0
    } else {
        digits_value(s.drop_last()) * 10 + (s.last() as int - '0' as int)
    }
}

/// What `str::parse::<u64>` accepts: an optional `+`, then one or more
/// ASCII digits whose value fits in a `u64`.
pub open spec fn spec_parse_u64(s: Seq<char>) -> Option<u64> {
    digits_of(if s.len() > 0 && s[0] == '+' { s.drop_first() } else { s })
}

/// Whether every character is an ASCII digit.
pub open spec fn all_digits(d: Seq<char>) -> bool {
    forall|i: int| 0 <= i < d.len() ==> is_digit(#[trigger] d[i])
}

/// The value of one or more ASCII digits, when it fits in a `u64`.
pub open spec fn digits_of(d: Seq<char>) -> Option<u64> {
    if d.len() > 0 && all_digits(d) && digits_value(d) <= u64::MAX { Some(digits_value(d) as u64) } else { None }
}

pub(crate) proof fn lemma_digits_nonneg(d: Seq<char>)
    requires
        forall|i: int| 0 <= i < d.len() ==> is_digit(#[trigger] d[i]),
    ensures
        digits_value(d) >= 0,
    decreases d.len(),
{
    if d.len() > 0 {
        assert(is_digit(d[d.len() - 1]));
        lemma_digits_nonneg(d.drop_last());
    }
}

/// The value of a run of digits is at least the value of any prefix.
proof fn lemma_digits_mono(d: Seq<char>, k: int)
    requires
        0 <= k <= d.len(),
        forall|i: int| 0 <= i < d.len() ==> is_digit(#[trigger] d[i]),
    ensures
        digits_value(d.subrange(0, k)) <= digits_value(d),
    decreases d.len() - k,
{
    if k < d.len() {
        lemma_digits_mono(d, k + 1);
        let p = d.subrange(0, k + 1);
        assert(p.drop_last() =~= d.subrange(0, k));
        assert(is_digit(p.last()));
        lemma_digits_nonneg(d.subrange(0, k));
    } else {
        assert(d.subrange(0, k) =~= d);
    }
}

/// The value of the characters of `s` from `start` on: `None` unless
/// there is at least one, all are ASCII digits and the value fits in a
/// `u64`.
pub(crate) fn digits_u64(s: &str, start: usize) -> (r: Option<u64>)
    requires
        start <= s@.len(),
    ensures
        r == digits_of(s@.subrange(start as int, s@.len() as int)),
{
    let n = s.unicode_len();
    let ghost d = s@.subrange(start as int, n as int);
    if start >= n {
        return None;
    }
    let mut v: u64 = 0;
    let mut i: usize = start;
    proof {
        assert(d.subrange(0, 0) =~= Seq::<char>::empty());
    }
    while i < n
        invariant
            start <= i <= n,
            n == s@.len(),
            d == s@.subrange(start as int, n as int),
            forall|k: int| 0 <= k < i - start ==> is_digit(#[trigger] d[k]),
            v == digits_value(d.subrange(0, i - start)),
        decreases n - i,
    {
        let c = s.get_char(i);
        proof {
            assert(c == d[i - start]);
        }
        if !('0' <= c && c <= '9') {
            return None;
        }
        let dg: u64 = (c as u32 - '0' as u32) as u64;
        let ghost p = d.subrange(0, i - start + 1);
        proof {
            assert(p.drop_last() =~= d.subrange(0, i - start));
            assert(p.last() == c);
            assert(digits_value(p) == v * 10 + dg);
        }
        let a = match v.checked_mul(10) {
            Some(a) => a,
            None => {
                proof {
                    if all_digits(d) {
                        lemma_digits_mono(d, i - start + 1);
                    }
                }
                return None;
            },
        };
        match a.checked_add(dg) {
            Some(b) => {
                v = b;
            },
            None => {
                proof {
                    if all_digits(d) {
                        lemma_digits_mono(d, i - start + 1);
                    }
                }
                return None;
            },
        }
        i += 1;
    }
    proof {
        assert(d.subrange(0, n - start) =~= d);
    }
    Some(v)
}

/// What `str::parse::<u64>` gives, with the error dropped.
pub(crate) fn parse_u64(s: &str) -> (r: Option<u64>)
    ensures
        r == spec_parse_u64(s@),
{
    let n = s.unicode_len();
    let plus = n > 0 && s.get_char(0) == '+';
    let start: usize = if plus { 1 } else { 0 };
    proof {
        assert(plus == (s@.len() > 0 && s@[0] == '+'));
        if plus {
            assert(s@.drop_first() =~= s@.subrange(1, n as int));
        } else {
            assert(s@ =~= s@.subrange(0, n as int));
        }
        assert(s@.subrange(start as int, n as int) == (if s@.len() > 0 && s@[0] == '+' { s@.drop_first() } else { s@ }));
    }
    digits_u64(s, start)
}

// ---- the parts of a call ----

pub open spec fn field_node(n: CstNode, f: Seq<char>) -> Option<CstNode> {
    match field_index(n.children@, f) {
        Some(j) => Some(n.children@[j]),
        None => None,
    }
}

pub open spec fn is_comment(c: CstNode) -> bool {
    c.kind@ == "line_comment"@ || c.kind@ == "block_comment"@
}

/// The first named child that is not a comment.
pub open spec fn first_content(cs: Seq<CstNode>) -> Option<CstNode>
    decreases cs.len(),
{
    if cs.len() == 0 {
        None
    } else if cs[0].named && !is_comment(cs[0]) {
        Some(cs[0])
    } else {
        first_content(cs.drop_first())
    }
}

fn first_content_child(node: &CstNode) -> (r: Option<&CstNode>)
    ensures
        match first_content(node.children@) {
            Some(c) => r matches Some(x) && *x == c,
            None => r is None,
        },
{
    proof {
        reveal_strlit("line_comment");
        reveal_strlit("block_comment");
    }
    let mut i: usize = 0;
    proof {
        assert(node.children@.subrange(0, node.children@.len() as int) =~= node.children@);
    }
    while i < node.children.len()
        invariant
            i <= node.children@.len(),
            first_content(node.children@) == first_content(node.children@.subrange(i as int, node.children@.len() as int)),
        decreases node.children@.len() - i,
    {
        let c = &node.children[i];
        let ghost rest = node.children@.subrange(i as int, node.children@.len() as int);
        proof {
            assert(rest[0] == node.children@[i as int]);
            assert(rest.drop_first() =~= node.children@.subrange(i + 1, node.children@.len() as int));
        }
        if c.named && !str_eq(c.kind.as_str(), "line_comment") && !str_eq(c.kind.as_str(), "block_comment") {
            return Some(c);
        }
        i += 1;
    }
    None
}

fn child_by_field<'a>(node: &'a CstNode, f: &str) -> (r: Option<&'a CstNode>)
    ensures
        match field_node(*node, f@) {
            Some(c) => r matches Some(x) && *x == c,
            None => r is None,
        },
{
    field_child(node, f)
}

/// The call's name, or `""`.
pub open spec fn call_name(n: CstNode, source: Seq<char>) -> Seq<char> {
    match field_node(n, "name"@) {
        Some(c) => node_text(c, source),
        None => Seq::empty(),
    }
}

/// The call's `call_arg` nodes.
pub open spec fn call_args(n: CstNode) -> Seq<CstNode> {
    match field_node(n, "args"@) {
        Some(a) => named_of_kind(a.children@, "call_arg"@),
        None => Seq::empty(),
    }
}

/// The identifiers of the call's `by(…)` clause.
pub open spec fn by_idents(n: CstNode) -> Seq<CstNode> {
    match field_node(n, "by"@) {
        Some(b) => named_of_kind(b.children@, "identifier"@),
        None => Seq::empty(),
    }
}

/// The value of an argument: its `value` field, or else its first
/// named child.
pub open spec fn arg_value(a: CstNode) -> Option<CstNode> {
    match field_node(a, "value"@) {
        Some(v) => Some(v),
        None => first_content(a.children@),
    }
}

/// The positional arguments: those without a `named_arg` child.
pub open spec fn positional(args: Seq<CstNode>) -> Seq<CstNode> {
    concat_map(args, |a: CstNode| if first_child_index(a.children@, "named_arg"@) is None { seq![a] } else { Seq::empty() })
}

pub open spec fn pos_value(args: Seq<CstNode>, i: int) -> Option<CstNode> {
    if 0 <= i < positional(args).len() {
        arg_value(positional(args)[i])
    } else {
        None
    }
}

/// The identifier a positional argument names: an `identifier`, or the
/// first `identifier` of an `identifier_expr` or `qualified_name`.
pub open spec fn pos_ident(args: Seq<CstNode>, i: int, source: Seq<char>, file: FileId) -> Option<(Seq<char>, Span)> {
    match pos_value(args, i) {
        Some(v) => if v.kind@ == "identifier"@ {
            Some((node_text(v, source), node_span(v, file)))
        } else if v.kind@ == "identifier_expr"@ || v.kind@ == "qualified_name"@ {
            match first_child_index(v.children@, "identifier"@) {
                Some(j) => Some((node_text(v.children@[j], source), node_span(v.children@[j], file))),
                None => None,
            }
        } else {
            None
        },
        None => None,
    }
}

/// The number a positional argument spells, or 0.
pub open spec fn pos_number(args: Seq<CstNode>, i: int, source: Seq<char>) -> u64 {
    match pos_value(args, i) {
        Some(v) => match spec_parse_u64(node_text(v, source)) {
            Some(n) => n,
            None => 0,
        },
        None => 0,
    }
}

/// The value of the first argument named `name`, written either as a
/// `name:` field of the argument or through a `named_arg` child.
pub open spec fn named_arg(args: Seq<CstNode>, name: Seq<char>, source: Seq<char>) -> Option<CstNode>
    decreases args.len(),
{
    if args.len() == 0 {
        None
    } else {
        let a = args[0];
        let own = match field_node(a, "name"@) {
            Some(n) => node_text(n, source) == name,
            None => false,
        };
        let inner = match first_child_index(a.children@, "named_arg"@) {
            Some(j) => match field_node(a.children@[j], "name"@) {
                Some(n) => node_text(n, source) == name,
                None => false,
            },
            None => false,
        };
        if own {
            field_node(a, "value"@)
        } else if inner {
            field_node(a.children@[first_child_index(a.children@, "named_arg"@).unwrap()], "value"@)
        } else {
            named_arg(args.drop_first(), name, source)
        }
    }
}

pub open spec fn named_ident(args: Seq<CstNode>, name: Seq<char>, source: Seq<char>, file: FileId) -> Option<(Seq<char>, Span)> {
    match named_arg(args, name, source) {
        Some(v) => ident_view(v, source, file),
        None => None,
    }
}

pub open spec fn named_number(args: Seq<CstNode>, name: Seq<char>, source: Seq<char>) -> u64 {
    match named_arg(args, name, source) {
        Some(v) => match spec_parse_u64(node_text(v, source)) {
            Some(n) => n,
            None => 0,
        },
        None => 0,
    }
}

/// The identifiers the arguments name, in order, skipping the others.
pub open spec fn arg_idents(args: Seq<CstNode>, source: Seq<char>, file: FileId) -> Seq<(Seq<char>, Span)> {
    concat_map(args, |a: CstNode| match arg_value(a) {
        Some(v) => match ident_view(v, source, file) {
            Some(p) => seq![p],
            None => Seq::empty(),
        },
        None => Seq::empty(),
    })
}

pub open spec fn ids_view(v: Seq<Ident>) -> Seq<(Seq<char>, Span)> {
    v.map_values(|id: Ident| id_view(id))
}

/// `id` is `p` when there is one, else `<missing>` at `span`.
pub open spec fn ident_or_missing(id: Ident, p: Option<(Seq<char>, Span)>, span: Span) -> bool {
    match p {
        Some(q) => id_view(id) == q,
        None => id_view(id) == ("<missing>"@, span),
    }
}

/// `r` is the slot value the call `n` denotes.
pub open spec fn slot_call_is(r: SlotValue, n: CstNode, source: Seq<char>, file: FileId) -> bool {
    let name = call_name(n, source);
    let args = call_args(n);
    let span = node_span(n, file);
    if name == "idempotent"@ && by_idents(n).len() > 0 {
        r matches SlotValue::Idempotency(IdempotencyValue::IdempotentBy(ids))
            && ids_view(ids@) == by_idents(n).map_values(|c: CstNode| (node_text(c, source), node_span(c, file)))
    } else if name == "idempotent"@ {
        r matches SlotValue::Idempotency(IdempotencyValue::Idempotent)
    } else if name == "at_most_once"@ {
        r matches SlotValue::Idempotency(IdempotencyValue::AtMostOnce)
    } else if name == "at_least_once"@ {
        r matches SlotValue::Idempotency(IdempotencyValue::AtLeastOnce)
    } else if name == "ephemeral"@ {
        r matches SlotValue::Retention(RetentionValue::Ephemeral)
    } else if name == "transactional"@ {
        r matches SlotValue::Retention(RetentionValue::Transactional)
    } else if name == "secret"@ {
        r matches SlotValue::Retention(RetentionValue::Secret)
    } else if name == "audit"@ {
        r matches SlotValue::Retention(RetentionValue::Audit { period })
            && ident_or_missing(period, named_ident(args, "period"@, source, file), span)
    } else if name == "pii"@ {
        r matches SlotValue::Retention(RetentionValue::Pii { class, ttl })
            && class == match named_ident(args, "class"@, source, file) {
                Some(p) => match PiiClass::spec_from_name(p.0) {
                    Some(c) => c,
                    None => PiiClass::Other,
                },
                None => PiiClass::Other,
            }
            && ident_or_missing(ttl, named_ident(args, "ttl"@, source, file), span)
    } else if name == "per_actor"@ {
        r matches SlotValue::RateLimit(RateLimitValue::PerActor { n: k, period })
            && k == pos_number(args, 0, source)
            && ident_or_missing(period, named_ident(args, "per"@, source, file), span)
    } else if name == "per_target"@ {
        r matches SlotValue::RateLimit(RateLimitValue::PerTarget { arg, n: k, period })
            && ident_or_missing(arg, pos_ident(args, 0, source, file), span)
            && k == pos_number(args, 1, source)
            && ident_or_missing(period, named_ident(args, "per"@, source, file), span)
    } else if name == "global"@ {
        r matches SlotValue::RateLimit(RateLimitValue::Global { n: k, period })
            && k == pos_number(args, 0, source)
            && ident_or_missing(period, named_ident(args, "per"@, source, file), span)
    } else if name == "unlimited"@ {
        r matches SlotValue::RateLimit(RateLimitValue::Unlimited)
    } else if name == "caller_only"@ {
        r matches SlotValue::Observability(ObservabilityValue::CallerOnly(evs))
            && ids_view(evs@) == arg_idents(args, source, file)
    } else if name == "broadcast"@ {
        r matches SlotValue::Observability(ObservabilityValue::Broadcast(evs))
            && ids_view(evs@) == arg_idents(args, source, file)
    } else if name == "target"@ {
        r matches SlotValue::Observability(ObservabilityValue::Target { arg, events })
            && ident_or_missing(arg, pos_ident(args, 0, source, file), span)
            && ids_view(events@) == arg_idents(if args.len() > 0 { args.drop_first() } else { args }, source, file)
    } else if name == "silent"@ {
        r matches SlotValue::Observability(ObservabilityValue::Silent)
    } else if AvailabilityValue::spec_from_name(name) is Some {
        r == SlotValue::Availability(AvailabilityValue::spec_from_name(name).unwrap())
    } else if name == "strong"@ {
        r matches SlotValue::Freshness(FreshnessValue::Strong)
    } else if name == "not_applicable"@ {
        r matches SlotValue::Freshness(FreshnessValue::NotApplicable)
    } else if name == "bounded"@ {
        r matches SlotValue::Freshness(FreshnessValue::Bounded { epoch, n: k })
            && ident_or_missing(epoch, pos_ident(args, 0, source, file), span)
            && k == named_number(args, "n"@, source)
    } else if name == "eventual"@ {
        r matches SlotValue::Freshness(FreshnessValue::Eventual { epoch })
            && opt_id_view(epoch) == pos_ident(args, 0, source, file)
    } else if name == "stale_while_revalidate"@ {
        r matches SlotValue::Freshness(FreshnessValue::StaleWhileRevalidate { epoch, n: k })
            && ident_or_missing(epoch, pos_ident(args, 0, source, file), span)
            && k == named_number(args, "n"@, source)
    } else if AuthChannelTag::spec_from_name(name) is Some {
        r matches SlotValue::AuthChannel(v) && !v.set_form
            && v.channels@ == seq![AuthChannelTag::spec_from_name(name).unwrap()]
    } else {
        r matches SlotValue::Unknown(id) && id_view(id) == (name, span)
    }
}

// ---- reading a call ----

/// The nodes behind a list of references.
pub open spec fn nodes(v: Seq<&CstNode>) -> Seq<CstNode> {
    v.map_values(|c: &CstNode| *c)
}

fn arg_value_of(a: &CstNode) -> (r: Option<&CstNode>)
    ensures
        match arg_value(*a) {
            Some(c) => r matches Some(x) && *x == c,
            None => r is None,
        },
{
    proof {
        reveal_strlit("value");
    }
    match child_by_field(a, "value") {
        Some(v) => Some(v),
        None => first_content_child(a),
    }
}

fn positional_args<'a>(args: &Vec<&'a CstNode>) -> (r: Vec<&'a CstNode>)
    ensures
        nodes(r@) == positional(nodes(args@)),
{
    proof {
        reveal_strlit("named_arg");
    }
    let ghost ks = nodes(args@);
    let ghost f = |a: CstNode| if first_child_index(a.children@, "named_arg"@) is None { seq![a] } else { Seq::<CstNode>::empty() };
    let mut out: Vec<&'a CstNode> = Vec::new();
    let mut i: usize = 0;
    proof {
        assert(ks.subrange(0, 0) =~= Seq::<CstNode>::empty());
        assert(nodes(out@) =~= Seq::<CstNode>::empty());
    }
    while i < args.len()
        invariant
            i <= args@.len(),
            ks == nodes(args@),
            f == (|a: CstNode| if first_child_index(a.children@, "named_arg"@) is None { seq![a] } else { Seq::<CstNode>::empty() }),
            nodes(out@) == concat_map(ks.subrange(0, i as int), f),
        decreases args@.len() - i,
    {
        proof {
            lemma_concat_map_step(ks, i as int, f);
        }
        let a = args[i];
        let ghost before = out@;
        if first_child(a, "named_arg").is_none() {
            out.push(a);
            proof {
                assert(nodes(out@) =~= nodes(before) + seq![*a]);
            }
        } else {
            proof {
                assert(nodes(out@) =~= nodes(before) + Seq::<CstNode>::empty());
            }
        }
        i += 1;
    }
    proof {
        assert(ks.subrange(0, i as int) =~= ks);
    }
    out
}

fn name_is(n: Option<&CstNode>, name: &str, source: &str) -> (r: bool)
    ensures
        r == match n {
            Some(c) => node_text(*c, source@) == name@,
            None => false,
        },
{
    match n {
        Some(c) => str_eq(text_of(c, source), name),
        None => false,
    }
}

fn named_arg_of<'a>(args: &Vec<&'a CstNode>, name: &str, source: &str) -> (r: Option<&'a CstNode>)
    ensures
        match named_arg(nodes(args@), name@, source@) {
            Some(c) => r matches Some(x) && *x == c,
            None => r is None,
        },
{
    proof {
        reveal_strlit("name");
        reveal_strlit("value");
        reveal_strlit("named_arg");
    }
    let ghost ks = nodes(args@);
    let mut i: usize = 0;
    proof {
        assert(ks.subrange(0, ks.len() as int) =~= ks);
    }
    while i < args.len()
        invariant
            i <= args@.len(),
            ks == nodes(args@),
            named_arg(ks, name@, source@) == named_arg(ks.subrange(i as int, ks.len() as int), name@, source@),
        decreases args@.len() - i,
    {
        let a = args[i];
        let ghost rest = ks.subrange(i as int, ks.len() as int);
        proof {
            assert(rest[0] == *a);
            assert(rest.drop_first() =~= ks.subrange(i + 1, ks.len() as int));
        }
        if name_is(child_by_field(a, "name"), name, source) {
            return child_by_field(a, "value");
        }
        match first_child(a, "named_arg") {
            Some(na) => {
                if name_is(child_by_field(na, "name"), name, source) {
                    return child_by_field(na, "value");
                }
            },
            None => {},
        }
        i += 1;
    }
    None
}

fn pos_value_of<'a>(pos: &Vec<&'a CstNode>, args: Ghost<Seq<CstNode>>, i: usize) -> (r: Option<&'a CstNode>)
    requires
        nodes(pos@) == positional(args@),
    ensures
        match pos_value(args@, i as int) {
            Some(c) => r matches Some(x) && *x == c,
            None => r is None,
        },
{
    if i < pos.len() {
        proof {
            assert(nodes(pos@)[i as int] == *pos@[i as int]);
        }
        arg_value_of(pos[i])
    } else {
        None
    }
}

fn pos_ident_of(pos: &Vec<&CstNode>, args: Ghost<Seq<CstNode>>, i: usize, source: &str, file: FileId) -> (r: Option<Ident>)
    requires
        nodes(pos@) == positional(args@),
    ensures
        opt_id_view(r) == pos_ident(args@, i as int, source@, file),
{
    proof {
        reveal_strlit("identifier");
        reveal_strlit("identifier_expr");
        reveal_strlit("qualified_name");
    }
    match pos_value_of(pos, args, i) {
        Some(v) => {
            if str_eq(v.kind.as_str(), "identifier") {
                Some(ident_from_node(v, source, file))
            } else if str_eq(v.kind.as_str(), "identifier_expr") || str_eq(v.kind.as_str(), "qualified_name") {
                match first_child(v, "identifier") {
                    Some(c) => Some(ident_from_node(c, source, file)),
                    None => None,
                }
            } else {
                None
            }
        },
        None => None,
    }
}

fn number_of(v: Option<&CstNode>, source: &str) -> (r: u64)
    ensures
        r == match v {
            Some(c) => match spec_parse_u64(node_text(*c, source@)) {
                Some(n) => n,
                None => 0,
            },
            None => 0,
        },
{
    match v {
        Some(c) => match parse_u64(text_of(c, source)) {
            Some(n) => n,
            None => 0,
        },
        None => 0,
    }
}

fn ident_or_missing_of(p: Option<Ident>, span: Span) -> (r: Ident)
    ensures
        ident_or_missing(r, opt_id_view(p), span),
{
    proof {
        reveal_strlit("<missing>");
    }
    match p {
        Some(id) => id,
        None => Ident::new("<missing>", span),
    }
}

fn named_ident_of(args: &Vec<&CstNode>, name: &str, source: &str, file: FileId) -> (r: Option<Ident>)
    ensures
        opt_id_view(r) == named_ident(nodes(args@), name@, source@, file),
{
    match named_arg_of(args, name, source) {
        Some(v) => ident_text_of(v, source, file),
        None => None,
    }
}

/// The identifiers named by `args[start..]`.
fn arg_idents_from(args: &Vec<&CstNode>, start: usize, source: &str, file: FileId) -> (r: Vec<Ident>)
    requires
        start <= args@.len(),
    ensures
        ids_view(r@) == arg_idents(nodes(args@).subrange(start as int, args@.len() as int), source@, file),
{
    let ghost ks = nodes(args@).subrange(start as int, args@.len() as int);
    let ghost f = |a: CstNode| match arg_value(a) {
        Some(v) => match ident_view(v, source@, file) {
            Some(p) => seq![p],
            None => Seq::<(Seq<char>, Span)>::empty(),
        },
        None => Seq::<(Seq<char>, Span)>::empty(),
    };
    let mut out: Vec<Ident> = Vec::new();
    let mut i: usize = start;
    proof {
        assert(ks.subrange(0, 0) =~= Seq::<CstNode>::empty());
        assert(ids_view(out@) =~= Seq::<(Seq<char>, Span)>::empty());
    }
    while i < args.len()
        invariant
            start <= i <= args@.len(),
            ks == nodes(args@).subrange(start as int, args@.len() as int),
            f == (|a: CstNode| match arg_value(a) {
                Some(v) => match ident_view(v, source@, file) {
                    Some(p) => seq![p],
                    None => Seq::<(Seq<char>, Span)>::empty(),
                },
                None => Seq::<(Seq<char>, Span)>::empty(),
            }),
            ids_view(out@) == concat_map(ks.subrange(0, i - start), f),
        decreases args@.len() - i,
    {
        proof {
            lemma_concat_map_step(ks, i - start, f);
            assert(ks[i - start] == *args@[i as int]);
        }
        let ghost before = out@;
        match arg_value_of(args[i]) {
            Some(v) => match ident_text_of(v, source, file) {
                Some(id) => {
                    out.push(id);
                    proof {
                        assert(ids_view(out@) =~= ids_view(before) + seq![id_view(id)]);
                    }
                },
                None => {
                    proof {
                        assert(ids_view(out@) =~= ids_view(before) + Seq::<(Seq<char>, Span)>::empty());
                    }
                },
            },
            None => {
                proof {
                    assert(ids_view(out@) =~= ids_view(before) + Seq::<(Seq<char>, Span)>::empty());
                }
            },
        }
        i += 1;
    }
    proof {
        assert(ks.subrange(0, i - start) =~= ks);
    }
    out
}

fn by_idents_of(node: &CstNode, source: &str, file: FileId) -> (r: Vec<Ident>)
    ensures
        ids_view(r@) == by_idents(*node).map_values(|c: CstNode| (node_text(c, source@), node_span(c, file))),
{
    proof {
        reveal_strlit("by");
        reveal_strlit("identifier");
    }
    let mut out: Vec<Ident> = Vec::new();
    match child_by_field(node, "by") {
        Some(b) => {
            let ids = named_children_of(b, "identifier");
            let ghost ks = named_of_kind(b.children@, "identifier"@);
            let mut i: usize = 0;
            while i < ids.len()
                invariant
                    i <= ids@.len(),
                    ids@.len() == ks.len(),
                    ks == by_idents(*node),
                    forall|k: int| 0 <= k < ids@.len() ==> *(#[trigger] ids@[k]) == ks[k],
                    ids_view(out@) == ks.subrange(0, i as int).map_values(|c: CstNode| (node_text(c, source@), node_span(c, file))),
                decreases ids@.len() - i,
            {
                let ghost before = out@;
                let id = ident_from_node(ids[i], source, file);
                out.push(id);
                proof {
                    let g = |c: CstNode| (node_text(c, source@), node_span(c, file));
                    assert(ids_view(out@) =~= ids_view(before).push(id_view(id)));
                    assert(ks.subrange(0, i + 1).map_values(g) =~= ks.subrange(0, i as int).map_values(g).push(g(ks[i as int])));
                    assert(id_view(id) == g(ks[i as int]));
                }
                i += 1;
            }
            proof {
                assert(ks.subrange(0, i as int) =~= ks);
            }
        },
        None => {
            proof {
                assert(ids_view(out@) =~= by_idents(*node).map_values(|c: CstNode| (node_text(c, source@), node_span(c, file))));
            }
        },
    }
    out
}

fn call_args_of(node: &CstNode) -> (r: Vec<&CstNode>)
    ensures
        nodes(r@) == call_args(*node),
{
    proof {
        reveal_strlit("args");
        reveal_strlit("call_arg");
    }
    match child_by_field(node, "args") {
        Some(a) => {
            let v = named_children_of(a, "call_arg");
            proof {
                assert(nodes(v@) =~= named_of_kind(a.children@, "call_arg"@));
            }
            v
        },
        None => {
            let v: Vec<&CstNode> = Vec::new();
            proof {
                assert(nodes(v@) =~= Seq::<CstNode>::empty());
            }
            v
        },
    }
}

/// A `slot_call` node: the slot value its name and arguments denote;
/// an unrecognised name is kept as an unknown token.
pub fn convert_slot_call(node: &CstNode, source: &str, file: FileId) -> (r: SlotValue)
    ensures
        slot_call_is(r, *node, source@, file),
{
    proof {
        reveal_strlit("name");
        reveal_strlit("");
        reveal_strlit("period");
        reveal_strlit("class");
        reveal_strlit("ttl");
        reveal_strlit("per");
        reveal_strlit("n");
    }
    let name_node = child_by_field(node, "name");
    let name: &str = match name_node {
        Some(c) => text_of(c, source),
        None => "",
    };
    let span = Span::new(file, node.start, node.end);
    let args = call_args_of(node);
    let ghost ga = nodes(args@);
    let pos = positional_args(&args);
    let by_args = by_idents_of(node, source, file);
    proof {
        assert(name@ == call_name(*node, source@));
        assert(ga.len() == args@.len());
        assert(ids_view(by_args@).len() == by_args@.len());
        assert(by_args@.len() == by_idents(*node).len());
        assert(nodes(args@).subrange(0, args@.len() as int) =~= ga);
        if ga.len() > 0 {
            assert(nodes(args@).subrange(1, args@.len() as int) =~= ga.drop_first());
        }
    }
    if str_eq(name, "idempotent") && by_args.len() > 0 {
        SlotValue::Idempotency(IdempotencyValue::IdempotentBy(by_args))
    } else if str_eq(name, "idempotent") {
        SlotValue::Idempotency(IdempotencyValue::Idempotent)
    } else if str_eq(name, "at_most_once") {
        SlotValue::Idempotency(IdempotencyValue::AtMostOnce)
    } else if str_eq(name, "at_least_once") {
        SlotValue::Idempotency(IdempotencyValue::AtLeastOnce)
    } else if str_eq(name, "ephemeral") {
        SlotValue::Retention(RetentionValue::Ephemeral)
    } else if str_eq(name, "transactional") {
        SlotValue::Retention(RetentionValue::Transactional)
    } else if str_eq(name, "secret") {
        SlotValue::Retention(RetentionValue::Secret)
    } else if str_eq(name, "audit") {
        let period = ident_or_missing_of(named_ident_of(&args, "period", source, file), span);
        SlotValue::Retention(RetentionValue::Audit { period })
    } else if str_eq(name, "pii") {
        let class = match named_ident_of(&args, "class", source, file) {
            Some(id) => match PiiClass::from_name(id.name.as_str()) {
                Some(c) => c,
                None => PiiClass::Other,
            },
            None => PiiClass::Other,
        };
        let ttl = ident_or_missing_of(named_ident_of(&args, "ttl", source, file), span);
        SlotValue::Retention(RetentionValue::Pii { class, ttl })
    } else if str_eq(name, "per_actor") {
        let n = number_of(pos_value_of(&pos, Ghost(ga), 0), source);
        let period = ident_or_missing_of(named_ident_of(&args, "per", source, file), span);
        SlotValue::RateLimit(RateLimitValue::PerActor { n, period })
    } else if str_eq(name, "per_target") {
        let arg = ident_or_missing_of(pos_ident_of(&pos, Ghost(ga), 0, source, file), span);
        let n = number_of(pos_value_of(&pos, Ghost(ga), 1), source);
        let period = ident_or_missing_of(named_ident_of(&args, "per", source, file), span);
        SlotValue::RateLimit(RateLimitValue::PerTarget { arg, n, period })
    } else if str_eq(name, "global") {
        let n = number_of(pos_value_of(&pos, Ghost(ga), 0), source);
        let period = ident_or_missing_of(named_ident_of(&args, "per", source, file), span);
        SlotValue::RateLimit(RateLimitValue::Global { n, period })
    } else if str_eq(name, "unlimited") {
        SlotValue::RateLimit(RateLimitValue::Unlimited)
    } else if str_eq(name, "caller_only") {
        let events = arg_idents_from(&args, 0, source, file);
        SlotValue::Observability(ObservabilityValue::CallerOnly(events))
    } else if str_eq(name, "broadcast") {
        let events = arg_idents_from(&args, 0, source, file);
        SlotValue::Observability(ObservabilityValue::Broadcast(events))
    } else if str_eq(name, "target") {
        let arg = ident_or_missing_of(pos_ident_of(&pos, Ghost(ga), 0, source, file), span);
        let from: usize = if args.len() > 0 { 1 } else { 0 };
        let events = arg_idents_from(&args, from, source, file);
        SlotValue::Observability(ObservabilityValue::Target { arg, events })
    } else if str_eq(name, "silent") {
        SlotValue::Observability(ObservabilityValue::Silent)
    } else {
        match AvailabilityValue::from_name(name) {
            Some(a) => SlotValue::Availability(a),
            None => {
                if str_eq(name, "strong") {
                    SlotValue::Freshness(FreshnessValue::Strong)
                } else if str_eq(name, "not_applicable") {
                    SlotValue::Freshness(FreshnessValue::NotApplicable)
                } else if str_eq(name, "bounded") {
                    let epoch = ident_or_missing_of(pos_ident_of(&pos, Ghost(ga), 0, source, file), span);
                    let n = number_of(named_arg_of(&args, "n", source), source);
                    SlotValue::Freshness(FreshnessValue::Bounded { epoch, n })
                } else if str_eq(name, "eventual") {
                    let epoch = pos_ident_of(&pos, Ghost(ga), 0, source, file);
                    SlotValue::Freshness(FreshnessValue::Eventual { epoch })
                } else if str_eq(name, "stale_while_revalidate") {
                    let epoch = ident_or_missing_of(pos_ident_of(&pos, Ghost(ga), 0, source, file), span);
                    let n = number_of(named_arg_of(&args, "n", source), source);
                    SlotValue::Freshness(FreshnessValue::StaleWhileRevalidate { epoch, n })
                } else {
                    match AuthChannelTag::from_name(name) {
                        Some(t) => {
                            let mut channels: Vec<AuthChannelTag> = Vec::new();
                            channels.push(t);
                            proof {
                                assert(channels@ =~= seq![t]);
                            }
                            SlotValue::AuthChannel(AuthChannelValue { channels, set_form: false })
                        },
                        None => SlotValue::Unknown(Ident::new(name, span)),
                    }
                }
            },
        }
    }
}

// ---- slot values and assignments ----

/// A waiver reason without its surrounding quotes, when it has both.
pub open spec fn unquoted(raw: Seq<char>) -> Seq<char> {
    if raw.len() >= 2 && raw[0] == '"' && raw[raw.len() - 1] == '"' {
        raw.subrange(1, raw.len() - 1)
    } else {
        raw
    }
}

/// The node a slot value is written as: its first named child, or the
/// node itself.
pub open spec fn value_inner(n: CstNode) -> CstNode {
    match first_content(n.children@) {
        Some(c) => c,
        None => n,
    }
}

/// `r` is the slot value the `slot_value` node `n` denotes.
pub open spec fn slot_value_is(r: SlotValue, n: CstNode, source: Seq<char>, file: FileId) -> bool {
    let inner = value_inner(n);
    if inner.kind@ == "slot_call"@ {
        slot_call_is(r, inner, source, file)
    } else if inner.kind@ == "slot_set"@ {
        r matches SlotValue::AuthChannel(v) && v.set_form
            && v.channels@ == crate::cst::set_tags(named_of_kind(inner.children@, "identifier"@), source)
    } else if inner.kind@ == "slot_waiver"@ {
        r matches SlotValue::Waived { reason, reason_span }
            && reason@ == match field_node(inner, "reason"@) {
                Some(c) => unquoted(node_text(c, source)),
                None => Seq::empty(),
            }
            && reason_span == node_span(inner, file)
    } else {
        r matches SlotValue::Unknown(id) && id_view(id) == (node_text(inner, source), node_span(inner, file))
    }
}

fn unquote(raw: &str) -> (r: String)
    ensures
        r@ == unquoted(raw@),
{
    let n = raw.unicode_len();
    if n >= 2 && raw.get_char(0) == '"' && raw.get_char(n - 1) == '"' {
        crate::text::owned(raw.substring_char(1, n - 1))
    } else {
        crate::text::owned(raw)
    }
}

/// A `slot_value` node: a call, an auth-channel set, a waiver, or an
/// unknown token.
pub fn convert_slot_value(node: &CstNode, source: &str, file: FileId) -> (r: SlotValue)
    ensures
        slot_value_is(r, *node, source@, file),
{
    proof {
        reveal_strlit("slot_call");
        reveal_strlit("slot_set");
        reveal_strlit("slot_waiver");
        reveal_strlit("reason");
        reveal_strlit("");
    }
    let inner = match first_content_child(node) {
        Some(c) => c,
        None => node,
    };
    proof {
        assert(*inner == value_inner(*node));
    }
    if str_eq(inner.kind.as_str(), "slot_call") {
        convert_slot_call(inner, source, file)
    } else if str_eq(inner.kind.as_str(), "slot_set") {
        crate::cst::convert_slot_set(inner, source)
    } else if str_eq(inner.kind.as_str(), "slot_waiver") {
        let reason = match child_by_field(inner, "reason") {
            Some(c) => unquote(text_of(c, source)),
            None => crate::text::owned(""),
        };
        proof {
            assert(reason@ == match field_node(*inner, "reason"@) {
                Some(c) => unquoted(node_text(c, source@)),
                None => Seq::<char>::empty(),
            });
        }
        SlotValue::Waived { reason, reason_span: Span::new(file, inner.start, inner.end) }
    } else {
        SlotValue::Unknown(ident_from_node(inner, source, file))
    }
}

/// A `slot_assign` node: the slot its `slot` field names
/// (`idempotency` when it names none) and the value of its `value`
/// field (`<missing>` when it has none).
pub fn convert_slot_assign(node: &CstNode, source: &str, file: FileId) -> (r: SlotAssign)
    ensures
        r.span == node_span(*node, file),
        r.kind == match field_node(*node, "slot"@) {
            Some(c) => match SlotKind::spec_from_name(node_text(c, source@)) {
                Some(k) => k,
                None => SlotKind::Idempotency,
            },
            None => SlotKind::Idempotency,
        },
        match field_node(*node, "value"@) {
            Some(v) => slot_value_is(r.value, v, source@, file),
            None => r.value matches SlotValue::Unknown(id) && id_view(id) == ("<missing>"@, node_span(*node, file)),
        },
{
    proof {
        reveal_strlit("slot");
        reveal_strlit("value");
        reveal_strlit("<missing>");
    }
    let span = Span::new(file, node.start, node.end);
    let kind = match child_by_field(node, "slot") {
        Some(c) => match SlotKind::from_name(text_of(c, source)) {
            Some(k) => k,
            None => SlotKind::Idempotency,
        },
        None => SlotKind::Idempotency,
    };
    let value = match child_by_field(node, "value") {
        Some(v) => convert_slot_value(v, source, file),
        None => SlotValue::Unknown(Ident::new("<missing>", span)),
    };
    SlotAssign { kind, value, span }
}

} // verus!
