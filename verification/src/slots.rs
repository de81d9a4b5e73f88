//! The mandatory action-slot pass.
//!
//! For every surface action and `internal_action`:
//!
//! 1. Slot lines must follow the canonical order
//!    (`idempotency, auth_channel, retention, rate_limit, observability,
//!    availability, freshness`); a slot ranked before its predecessor is
//!    `E_SURFACE_SLOT_ORDER`, and so is a slot declared twice.
//! 2. Elaboration gives each slot its effective value: the action's own
//!    assignment, else the surface's `defaults`, else (for internal
//!    actions) the preset for `auth_channel`, `rate_limit` and
//!    `availability`. A slot left without a value is
//!    `E_SURFACE_SLOT_MISSING`.
//! 3. An unclassifiable value is `E_SURFACE_SLOT_UNKNOWN_VALUE`; a waiver
//!    whose reason is blank is `E_SURFACE_SLOT_WAIVER_EMPTY`.
//! 4. A `defaults` block that sets one slot twice is
//!    `E_SLOT_PRECEDENCE_AMBIGUOUS`, once per repetition and once per
//!    surface.

use vstd::prelude::*;
use indexmap::IndexMap;
use crate::codes::{Code, ErrorKind};
use crate::decl::Decl;
use crate::diagnostic::{Diagnostic, DiagnosticView, diags_view, plain, lemma_diags_view_append, lemma_diags_view_push,
    concat_map, lemma_concat_map_step, count_code, lemma_count_code_append, lemma_count_code_uniform};
use crate::ident::Ident;
use crate::index_map::{slot_span_entries, slot_spans_new, slot_spans_insert, previous, lemma_previous_inserted,
    modules_len, modules_get_index};
use crate::project::{Project, ModuleAggregate};
use crate::slot::{SlotKind, SlotProvenance, SlotValue, SlotAssign, AuthChannelValue, AuthChannelTag,
    AvailabilityValue, slot_value_eqv};
use crate::span::Span;
use crate::surface::{ActionDecl, DefaultsBlock, SurfaceBlock, InternalActionDecl};
use crate::text::{is_blank, is_white_space, trims_to_empty, owned};

verus! {

/// One slot's elaborated value, with its provenance. `source_span` is
/// where the value was declared: the slot assignment, the defaults entry,
/// or (for a preset) the action's name.
#[derive(Debug)]
pub struct EffectiveSlot {
    pub kind: SlotKind,
    pub value: SlotValue,
    pub provenance: SlotProvenance,
    pub source_span: Span,
}

/// Per-action elaboration result: one entry per slot kind, `None` when
/// the slot was neither set, defaulted nor preset.
#[derive(Debug)]
pub struct ElaboratedSlots {
    pub idempotency: Option<EffectiveSlot>,
    pub auth_channel: Option<EffectiveSlot>,
    pub retention: Option<EffectiveSlot>,
    pub rate_limit: Option<EffectiveSlot>,
    pub observability: Option<EffectiveSlot>,
    pub availability: Option<EffectiveSlot>,
    pub freshness: Option<EffectiveSlot>,
}

pub open spec fn kind_at(n: int) -> SlotKind {
    SlotKind::spec_canonical_order()[n]
}

impl ElaboratedSlots {
    pub open spec fn spec_get(&self, k: SlotKind) -> Option<EffectiveSlot> {
        match k {
            SlotKind::Idempotency => self.idempotency,
            SlotKind::AuthChannel => self.auth_channel,
            SlotKind::Retention => self.retention,
            SlotKind::RateLimit => self.rate_limit,
            SlotKind::Observability => self.observability,
            SlotKind::Availability => self.availability,
            SlotKind::Freshness => self.freshness,
        }
    }

    /// The kinds present among the first `n` slots of the canonical order.
    pub open spec fn present_upto(&self, n: int) -> Seq<SlotKind>
        decreases n,
    {
        if n <= 0 {
            Seq::empty()
        } else if self.spec_get(kind_at(n - 1)) is Some {
            self.present_upto(n - 1).push(kind_at(n - 1))
        } else {
            self.present_upto(n - 1)
        }
    }

    /// No slot has a value yet.
    pub fn empty() -> (r: ElaboratedSlots)
        ensures
            forall|k: SlotKind| r.spec_get(k) is None,
    {
        ElaboratedSlots {
            idempotency: None,
            auth_channel: None,
            retention: None,
            rate_limit: None,
            observability: None,
            availability: None,
            freshness: None,
        }
    }

    fn set_slot(&mut self, k: SlotKind, v: Option<EffectiveSlot>)
        ensures
            final(self).spec_get(k) == v,
            forall|j: SlotKind| j != k ==> final(self).spec_get(j) == old(self).spec_get(j),
    {
        match k {
            SlotKind::Idempotency => self.idempotency = v,
            SlotKind::AuthChannel => self.auth_channel = v,
            SlotKind::Retention => self.retention = v,
            SlotKind::RateLimit => self.rate_limit = v,
            SlotKind::Observability => self.observability = v,
            SlotKind::Availability => self.availability = v,
            SlotKind::Freshness => self.freshness = v,
        }
    }

    pub fn get(&self, k: SlotKind) -> (r: Option<&EffectiveSlot>)
        ensures
            r matches Some(s) ==> self.spec_get(k) == Some(*s),
            r is None ==> self.spec_get(k) is None,
    {
        match k {
            SlotKind::Idempotency => self.idempotency.as_ref(),
            SlotKind::AuthChannel => self.auth_channel.as_ref(),
            SlotKind::Retention => self.retention.as_ref(),
            SlotKind::RateLimit => self.rate_limit.as_ref(),
            SlotKind::Observability => self.observability.as_ref(),
            SlotKind::Availability => self.availability.as_ref(),
            SlotKind::Freshness => self.freshness.as_ref(),
        }
    }

    /// Every present slot with its kind, in canonical order.
    pub fn iter(&self) -> (r: Vec<(SlotKind, &EffectiveSlot)>)
        ensures
            r@.len() == self.present_upto(7).len(),
            forall|i: int| #![trigger r@[i]] 0 <= i < r@.len() ==> r@[i].0 == self.present_upto(7)[i]
                && self.spec_get(r@[i].0) == Some(*r@[i].1),
    {
        let order = SlotKind::canonical_order();
        let mut out: Vec<(SlotKind, &EffectiveSlot)> = Vec::new();
        let mut n: usize = 0;
        while n < 7
            invariant
                n <= 7,
                order@ == SlotKind::spec_canonical_order(),
                out@.len() == self.present_upto(n as int).len(),
                forall|i: int| #![trigger out@[i]] 0 <= i < out@.len() ==> out@[i].0 == self.present_upto(n as int)[i]
                    && self.spec_get(out@[i].0) == Some(*out@[i].1),
            decreases 7 - n,
        {
            let k = order[n];
            match self.get(k) {
                Some(s) => {
                    out.push((k, s));
                },
                None => {},
            }
            n += 1;
        }
        out
    }
}

/// Index of the last assignment of kind `k`.
pub open spec fn last_of_kind(slots: Seq<SlotAssign>, k: SlotKind) -> Option<int>
    decreases slots.len(),
{
    if slots.len() == 0 {
        None
    } else if slots.last().kind == k {
        Some(slots.len() - 1)
    } else {
        last_of_kind(slots.drop_last(), k)
    }
}

/// Span of the last assignment of kind `k`.
pub open spec fn last_span(slots: Seq<SlotAssign>, k: SlotKind) -> Option<Span> {
    match last_of_kind(slots, k) {
        Some(j) => Some(slots[j].span),
        None => None,
    }
}

pub proof fn lemma_last_of_kind(slots: Seq<SlotAssign>, k: SlotKind)
    ensures
        last_of_kind(slots, k) matches Some(j) ==> 0 <= j < slots.len() && slots[j].kind == k,
    decreases slots.len(),
{
    if slots.len() > 0 && slots.last().kind != k {
        lemma_last_of_kind(slots.drop_last(), k);
    }
}

/// Extending a slot list by one assignment makes it the last of its kind.
pub proof fn lemma_last_of_kind_step(prefix: Seq<SlotAssign>, k: SlotKind)
    requires
        prefix.len() > 0,
    ensures
        last_of_kind(prefix, k) == if prefix.last().kind == k {
            Some(prefix.len() - 1)
        } else {
            last_of_kind(prefix.drop_last(), k)
        },
        last_span(prefix, k) == if prefix.last().kind == k {
            Some(prefix.last().span)
        } else {
            last_span(prefix.drop_last(), k)
        },
{
    if prefix.last().kind != k {
        lemma_last_of_kind(prefix.drop_last(), k);
        match last_of_kind(prefix.drop_last(), k) {
            Some(j) => assert(prefix.drop_last()[j] == prefix[j]),
            None => {},
        }
    }
}

/// The slots an internal action has preset.
pub open spec fn is_preset_kind(k: SlotKind) -> bool {
    k == SlotKind::AuthChannel || k == SlotKind::RateLimit || k == SlotKind::Availability
}

/// Where a slot's effective value comes from.
pub enum SlotSource {
    /// The action's own assignment at this index.
    Explicit(int),
    /// The defaults entry at this index.
    Default(int),
    /// The internal-action preset.
    Preset,
    /// Nowhere.
    Missing,
}

/// Precedence: the action's own (last) assignment, then the (last)
/// default, then the internal-action preset.
pub open spec fn slot_source(action: ActionDecl, defaults: Seq<SlotAssign>, k: SlotKind) -> SlotSource {
    match last_of_kind(action.slots@, k) {
        Some(j) => SlotSource::Explicit(j),
        None => match last_of_kind(defaults, k) {
            Some(j) => SlotSource::Default(j),
            None => if action.is_internal && is_preset_kind(k) { SlotSource::Preset } else { SlotSource::Missing },
        },
    }
}

/// The preset value of slot `k` for an internal action named at `span`:
/// `trusted_caller`, a waiver with reason `internal`, and
/// `maintenance_window`.
pub open spec fn preset_value_is(k: SlotKind, v: SlotValue, span: Span) -> bool {
    match k {
        SlotKind::AuthChannel => v matches SlotValue::AuthChannel(a)
            && a.channels@ == seq![AuthChannelTag::TrustedCaller] && !a.set_form,
        SlotKind::RateLimit => v matches SlotValue::Waived { reason, reason_span }
            && reason@ == "internal"@ && reason_span == span,
        SlotKind::Availability => v == SlotValue::Availability(AvailabilityValue::MaintenanceWindow),
        _ => false,
    }
}

/// `e` is the effective slot `k` of `action` under `defaults`.
pub open spec fn elaborated_as(e: Option<EffectiveSlot>, action: ActionDecl, defaults: Seq<SlotAssign>, k: SlotKind) -> bool {
    match slot_source(action, defaults, k) {
        SlotSource::Explicit(j) => e matches Some(s) && s.kind == k && s.provenance == SlotProvenance::Explicit
            && s.source_span == action.slots@[j].span && slot_value_eqv(s.value, action.slots@[j].value),
        SlotSource::Default(j) => e matches Some(s) && s.kind == k && s.provenance == SlotProvenance::Default
            && s.source_span == defaults[j].span && slot_value_eqv(s.value, defaults[j].value),
        SlotSource::Preset => e matches Some(s) && s.kind == k && s.provenance == SlotProvenance::InternalActionPreset
            && s.source_span == action.name.span && preset_value_is(k, s.value, action.name.span),
        SlotSource::Missing => e is None,
    }
}

pub open spec fn defaults_slots(d: Option<&DefaultsBlock>) -> Seq<SlotAssign> {
    match d {
        Some(b) => b.slots@,
        None => Seq::empty(),
    }
}

// ---- messages ----

pub open spec fn canonical_order_text() -> Seq<char> {
    "idempotency, auth_channel, retention, rate_limit, observability, availability, freshness"@
}

pub open spec fn msg_order(k: SlotKind, prev: SlotKind) -> Seq<char> {
    "slot `"@ + k.spec_name() + "` appears after `"@ + prev.spec_name() + "`; canonical order is "@ + canonical_order_text()
}

pub open spec fn help_order(k: SlotKind) -> Seq<char> {
    "move `"@ + k.spec_name() + "` to its canonical position"@
}

pub open spec fn msg_declared_twice(k: SlotKind, action: Seq<char>) -> Seq<char> {
    "slot `"@ + k.spec_name() + "` declared twice on action `"@ + action + "`"@
}

pub open spec fn msg_unknown_value(value: Seq<char>, k: SlotKind, action: Seq<char>) -> Seq<char> {
    "unknown value `"@ + value + "` for slot `"@ + k.spec_name() + "` on action `"@ + action + "`"@
}

pub open spec fn msg_waiver_empty(k: SlotKind, action: Seq<char>) -> Seq<char> {
    "waiver of slot `"@ + k.spec_name() + "` on action `"@ + action + "` has empty reason"@
}

pub open spec fn msg_missing(k: SlotKind, action: Seq<char>) -> Seq<char> {
    "action `"@ + action + "` is missing required slot `"@ + k.spec_name() + "`"@
}

pub open spec fn msg_default_twice(k: SlotKind) -> Seq<char> {
    "slot `"@ + k.spec_name() + "` is set twice in `defaults`; the effective value is ambiguous"@
}

pub open spec fn spec_legal_values_help(k: SlotKind) -> Seq<char> {
    match k {
        SlotKind::Idempotency =>
            "legal: `idempotent`, `idempotent by(<args>)`, `at_most_once`, `at_least_once`, `waived: \"<reason>\"`"@,
        SlotKind::AuthChannel =>
            "legal: `session`, `bearer_token`, `signed_request`, `capability_url`, `mtls`, `trusted_caller`, `anonymous`, a set `{c1, c2, …}`, or `waived: \"<reason>\"`"@,
        SlotKind::Retention =>
            "legal: `ephemeral`, `transactional`, `audit(period=<D>)`, `pii(class=<C>, ttl=<D>)`, `secret`, `waived: \"<reason>\"`"@,
        SlotKind::RateLimit =>
            "legal: `per_actor(n, per=<D>)`, `per_target(arg, n, per=<D>)`, `global(n, per=<D>)`, `unlimited`, `waived: \"<reason>\"`"@,
        SlotKind::Observability =>
            "legal: `caller_only(E, …)`, `target(arg, E, …)`, `broadcast(E, …)`, `silent`, `waived: \"<reason>\"`"@,
        SlotKind::Availability =>
            "legal: `critical`, `best_effort`, `maintenance_window`, `read_only_failover`, `waived: \"<reason>\"`"@,
        SlotKind::Freshness =>
            "legal: `strong`, `bounded(<epoch>, n=<k>)`, `eventual(<epoch>?)`, `stale_while_revalidate(<epoch>, n=<k>)`, `not_applicable`, `waived: \"<reason>\"`"@,
    }
}

pub open spec fn spec_missing_slot_help(k: SlotKind) -> Seq<char> {
    match k {
        SlotKind::Idempotency => "add `idempotency: <value>` or set a project-wide default"@,
        SlotKind::AuthChannel => "add `auth_channel: <value>` (or `internal_action` if this is an internal one)"@,
        SlotKind::Retention => "add `retention: <value>` or default it in `defaults { … }`"@,
        SlotKind::RateLimit => "add `rate_limit: <value>` (or `internal_action` for control-plane actions)"@,
        SlotKind::Observability => "add `observability: <value>` referencing the events your `then` block emits"@,
        SlotKind::Availability => "add `availability: <value>` (or `internal_action` for ops actions)"@,
        SlotKind::Freshness =>
            "add `freshness: <value>` referencing a substrate-declared epoch (or `strong`/`not_applicable`)"@,
    }
}

// ---- diagnostics, as functions of the AST ----

/// `E_SURFACE_SLOT_ORDER` for every slot ranked before the slot just
/// before it.
pub open spec fn order_diags(slots: Seq<SlotAssign>) -> Seq<DiagnosticView>
    decreases slots.len(),
{
    if slots.len() == 0 {
        Seq::empty()
    } else {
        let rest = order_diags(slots.drop_last());
        let k = slots.last().kind;
        if slots.len() >= 2 && k.spec_rank() < slots[slots.len() - 2].kind.spec_rank() {
            rest.push(plain(Code::Error(ErrorKind::SurfaceSlotOrder),
                msg_order(k, slots[slots.len() - 2].kind), slots.last().span).with_help(help_order(k)))
        } else {
            rest
        }
    }
}

/// `E_SURFACE_SLOT_ORDER` for every repeated slot of an action, pointing
/// back at the latest earlier assignment of that slot.
pub open spec fn dup_diags(slots: Seq<SlotAssign>, action: Seq<char>) -> Seq<DiagnosticView>
    decreases slots.len(),
{
    if slots.len() == 0 {
        Seq::empty()
    } else {
        let rest = dup_diags(slots.drop_last(), action);
        let sa = slots.last();
        match last_span(slots.drop_last(), sa.kind) {
            Some(prev) => rest.push(plain(Code::Error(ErrorKind::SurfaceSlotOrder),
                msg_declared_twice(sa.kind, action), sa.span).with_label(prev, "previous declaration here"@)),
            None => rest,
        }
    }
}

/// `E_SLOT_PRECEDENCE_AMBIGUOUS` for every repeated entry of a defaults
/// block, pointing back at the latest earlier entry for that slot.
pub open spec fn default_dup_diags(slots: Seq<SlotAssign>) -> Seq<DiagnosticView>
    decreases slots.len(),
{
    if slots.len() == 0 {
        Seq::empty()
    } else {
        let rest = default_dup_diags(slots.drop_last());
        let sa = slots.last();
        match last_span(slots.drop_last(), sa.kind) {
            Some(prev) => rest.push(plain(Code::Error(ErrorKind::SlotPrecedenceAmbiguous),
                msg_default_twice(sa.kind), sa.span)
                .with_label(prev, "previous default here"@)
                .with_help("keep one default; per-action overrides may still set this slot explicitly"@)),
            None => rest,
        }
    }
}

/// The value diagnostics of one effective value.
pub open spec fn value_diag_of(k: SlotKind, v: SlotValue, action: Ident) -> Seq<DiagnosticView> {
    match v {
        SlotValue::Unknown(id) => seq![plain(Code::Error(ErrorKind::SurfaceSlotUnknownValue),
            msg_unknown_value(id.name@, k, action.name@), id.span).with_help(spec_legal_values_help(k))],
        SlotValue::Waived { reason, reason_span } => if is_blank(reason@) {
            seq![plain(Code::Error(ErrorKind::SurfaceSlotWaiverEmpty), msg_waiver_empty(k, action.name@), reason_span)]
        } else {
            Seq::empty()
        },
        _ => Seq::empty(),
    }
}

/// The value diagnostics of slot `k`, by where its value comes from;
/// presets are always legal.
pub open spec fn source_value_diags(action: ActionDecl, defaults: Seq<SlotAssign>, k: SlotKind) -> Seq<DiagnosticView> {
    match slot_source(action, defaults, k) {
        SlotSource::Explicit(j) => value_diag_of(k, action.slots@[j].value, action.name),
        SlotSource::Default(j) => value_diag_of(k, defaults[j].value, action.name),
        _ => Seq::empty(),
    }
}

pub open spec fn value_diags_upto(action: ActionDecl, defaults: Seq<SlotAssign>, n: int) -> Seq<DiagnosticView>
    decreases n,
{
    if n <= 0 {
        Seq::empty()
    } else {
        value_diags_upto(action, defaults, n - 1) + source_value_diags(action, defaults, kind_at(n - 1))
    }
}

pub open spec fn missing_diags_upto(action: ActionDecl, defaults: Seq<SlotAssign>, n: int) -> Seq<DiagnosticView>
    decreases n,
{
    if n <= 0 {
        Seq::empty()
    } else if slot_source(action, defaults, kind_at(n - 1)) is Missing {
        missing_diags_upto(action, defaults, n - 1).push(plain(Code::Error(ErrorKind::SurfaceSlotMissing),
            msg_missing(kind_at(n - 1), action.name.name@), action.name.span)
            .with_help(spec_missing_slot_help(kind_at(n - 1))))
    } else {
        missing_diags_upto(action, defaults, n - 1)
    }
}

/// Everything `elaborate` reports for one action, in order: ordering,
/// repeated slots, bad values, missing slots.
pub open spec fn elaborate_diags(action: ActionDecl, defaults: Seq<SlotAssign>) -> Seq<DiagnosticView> {
    order_diags(action.slots@) + dup_diags(action.slots@, action.name.name@)
        + value_diags_upto(action, defaults, 7) + missing_diags_upto(action, defaults, 7)
}

// ---- exec ----

pub fn legal_values_help(kind: SlotKind) -> (r: &'static str)
    ensures
        r@ == spec_legal_values_help(kind),
{
    match kind {
        SlotKind::Idempotency =>
            "legal: `idempotent`, `idempotent by(<args>)`, `at_most_once`, `at_least_once`, `waived: \"<reason>\"`",
        SlotKind::AuthChannel =>
            "legal: `session`, `bearer_token`, `signed_request`, `capability_url`, `mtls`, `trusted_caller`, `anonymous`, a set `{c1, c2, …}`, or `waived: \"<reason>\"`",
        SlotKind::Retention =>
            "legal: `ephemeral`, `transactional`, `audit(period=<D>)`, `pii(class=<C>, ttl=<D>)`, `secret`, `waived: \"<reason>\"`",
        SlotKind::RateLimit =>
            "legal: `per_actor(n, per=<D>)`, `per_target(arg, n, per=<D>)`, `global(n, per=<D>)`, `unlimited`, `waived: \"<reason>\"`",
        SlotKind::Observability =>
            "legal: `caller_only(E, …)`, `target(arg, E, …)`, `broadcast(E, …)`, `silent`, `waived: \"<reason>\"`",
        SlotKind::Availability =>
            "legal: `critical`, `best_effort`, `maintenance_window`, `read_only_failover`, `waived: \"<reason>\"`",
        SlotKind::Freshness =>
            "legal: `strong`, `bounded(<epoch>, n=<k>)`, `eventual(<epoch>?)`, `stale_while_revalidate(<epoch>, n=<k>)`, `not_applicable`, `waived: \"<reason>\"`",
    }
}

pub fn missing_slot_help(kind: SlotKind) -> (r: &'static str)
    ensures
        r@ == spec_missing_slot_help(kind),
{
    match kind {
        SlotKind::Idempotency => "add `idempotency: <value>` or set a project-wide default",
        SlotKind::AuthChannel => "add `auth_channel: <value>` (or `internal_action` if this is an internal one)",
        SlotKind::Retention => "add `retention: <value>` or default it in `defaults { … }`",
        SlotKind::RateLimit => "add `rate_limit: <value>` (or `internal_action` for control-plane actions)",
        SlotKind::Observability => "add `observability: <value>` referencing the events your `then` block emits",
        SlotKind::Availability => "add `availability: <value>` (or `internal_action` for ops actions)",
        SlotKind::Freshness =>
            "add `freshness: <value>` referencing a substrate-declared epoch (or `strong`/`not_applicable`)",
    }
}

fn diag_order(k: SlotKind, prev: SlotKind, span: Span) -> (r: Diagnostic)
    ensures
        r@ == plain(Code::Error(ErrorKind::SurfaceSlotOrder), msg_order(k, prev), span).with_help(help_order(k)),
{
    let mut m = owned("slot `");
    m.append(k.name());
    m.append("` appears after `");
    m.append(prev.name());
    m.append("`; canonical order is ");
    m.append("idempotency, auth_channel, retention, rate_limit, observability, availability, freshness");
    let mut h = owned("move `");
    h.append(k.name());
    h.append("` to its canonical position");
    Diagnostic::error(ErrorKind::SurfaceSlotOrder, m.as_str(), span).with_help(h.as_str())
}

fn diag_declared_twice(k: SlotKind, action: &Ident, span: Span, prev: Span) -> (r: Diagnostic)
    ensures
        r@ == plain(Code::Error(ErrorKind::SurfaceSlotOrder), msg_declared_twice(k, action.name@), span)
            .with_label(prev, "previous declaration here"@),
{
    let mut m = owned("slot `");
    m.append(k.name());
    m.append("` declared twice on action `");
    m.append(action.name.as_str());
    m.append("`");
    Diagnostic::error(ErrorKind::SurfaceSlotOrder, m.as_str(), span).with_label(prev, "previous declaration here")
}

fn diag_default_twice(k: SlotKind, span: Span, prev: Span) -> (r: Diagnostic)
    ensures
        r@ == plain(Code::Error(ErrorKind::SlotPrecedenceAmbiguous), msg_default_twice(k), span)
            .with_label(prev, "previous default here"@)
            .with_help("keep one default; per-action overrides may still set this slot explicitly"@),
{
    let mut m = owned("slot `");
    m.append(k.name());
    m.append("` is set twice in `defaults`; the effective value is ambiguous");
    Diagnostic::error(ErrorKind::SlotPrecedenceAmbiguous, m.as_str(), span)
        .with_label(prev, "previous default here")
        .with_help("keep one default; per-action overrides may still set this slot explicitly")
}

fn diag_values(k: SlotKind, v: &SlotValue, action: &Ident, out: &mut Vec<Diagnostic>)
    ensures
        diags_view(final(out)@) == diags_view(old(out)@) + value_diag_of(k, *v, *action),
{
    proof {
        lemma_diags_view_append(old(out)@, Seq::empty());
        assert(old(out)@ + Seq::<Diagnostic>::empty() =~= old(out)@);
    }
    match v {
        SlotValue::Unknown(id) => {
            let mut m = owned("unknown value `");
            m.append(id.name.as_str());
            m.append("` for slot `");
            m.append(k.name());
            m.append("` on action `");
            m.append(action.name.as_str());
            m.append("`");
            let d = Diagnostic::error(ErrorKind::SurfaceSlotUnknownValue, m.as_str(), id.span)
                .with_help(legal_values_help(k));
            proof {
                lemma_diags_view_push(out@, d);
            }
            out.push(d);
        },
        SlotValue::Waived { reason, reason_span } => {
            if trims_to_empty(reason.as_str()) {
                let mut m = owned("waiver of slot `");
                m.append(k.name());
                m.append("` on action `");
                m.append(action.name.as_str());
                m.append("` has empty reason");
                let d = Diagnostic::error(ErrorKind::SurfaceSlotWaiverEmpty, m.as_str(), *reason_span);
                proof {
                    lemma_diags_view_push(out@, d);
                }
                out.push(d);
            }
        },
        _ => {},
    }
}

fn diag_missing(k: SlotKind, action: &Ident) -> (r: Diagnostic)
    ensures
        r@ == plain(Code::Error(ErrorKind::SurfaceSlotMissing), msg_missing(k, action.name@), action.span)
            .with_help(spec_missing_slot_help(k)),
{
    let mut m = owned("action `");
    m.append(action.name.as_str());
    m.append("` is missing required slot `");
    m.append(k.name());
    m.append("`");
    Diagnostic::error(ErrorKind::SurfaceSlotMissing, m.as_str(), action.span).with_help(missing_slot_help(k))
}

/// Source-order check on the action's raw slot list.
fn check_canonical_order(action: &ActionDecl, out: &mut Vec<Diagnostic>)
    ensures
        diags_view(final(out)@) == diags_view(old(out)@) + order_diags(action.slots@),
{
    let ghost start = old(out)@;
    let mut i: usize = 0;
    proof {
        assert(action.slots@.subrange(0, 0) =~= Seq::<SlotAssign>::empty());
        lemma_diags_view_append(start, Seq::empty());
        assert(start + Seq::<Diagnostic>::empty() =~= start);
    }
    while i < action.slots.len()
        invariant
            i <= action.slots@.len(),
            diags_view(out@) == diags_view(start) + order_diags(action.slots@.subrange(0, i as int)),
        decreases action.slots@.len() - i,
    {
        let ghost prefix = action.slots@.subrange(0, i + 1);
        proof {
            assert(prefix.drop_last() =~= action.slots@.subrange(0, i as int));
        }
        let slot = &action.slots[i];
        if i > 0 {
            let prev = &action.slots[i - 1];
            if slot.kind.rank() < prev.kind.rank() {
                let d = diag_order(slot.kind, prev.kind, slot.span);
                proof {
                    lemma_diags_view_push(out@, d);
                }
                out.push(d);
            }
        }
        i += 1;
    }
    proof {
        assert(action.slots@.subrange(0, i as int) =~= action.slots@);
    }
}

fn preset_slot(k: SlotKind, span: Span) -> (r: EffectiveSlot)
    requires
        is_preset_kind(k),
    ensures
        r.kind == k,
        r.provenance == SlotProvenance::InternalActionPreset,
        r.source_span == span,
        preset_value_is(k, r.value, span),
{
    let value = match k {
        SlotKind::AuthChannel => {
            let mut channels: Vec<AuthChannelTag> = Vec::new();
            channels.push(AuthChannelTag::TrustedCaller);
            proof {
                assert(channels@ =~= seq![AuthChannelTag::TrustedCaller]);
            }
            SlotValue::AuthChannel(AuthChannelValue { channels, set_form: false })
        },
        SlotKind::RateLimit => SlotValue::Waived { reason: owned("internal"), reason_span: span },
        _ => SlotValue::Availability(AvailabilityValue::MaintenanceWindow),
    };
    EffectiveSlot { kind: k, value, provenance: SlotProvenance::InternalActionPreset, source_span: span }
}

/// An internal action fills `auth_channel: trusted_caller`,
/// `rate_limit: waived: "internal"` and `availability:
/// maintenance_window`, each marked as a preset.
fn apply_internal_action_presets(action: &ActionDecl, elab: &mut ElaboratedSlots)
    ensures
        forall|k: SlotKind| is_preset_kind(k) ==> (final(elab).spec_get(k) matches Some(s)
            && s.kind == k && s.provenance == SlotProvenance::InternalActionPreset
            && s.source_span == action.name.span && preset_value_is(k, s.value, action.name.span)),
        forall|k: SlotKind| !is_preset_kind(k) ==> final(elab).spec_get(k) == old(elab).spec_get(k),
{
    let span = action.name.span;
    elab.set_slot(SlotKind::AuthChannel, Some(preset_slot(SlotKind::AuthChannel, span)));
    elab.set_slot(SlotKind::RateLimit, Some(preset_slot(SlotKind::RateLimit, span)));
    elab.set_slot(SlotKind::Availability, Some(preset_slot(SlotKind::Availability, span)));
}

/// Overlay the defaults block: for each slot, its last default wins.
fn apply_defaults(defaults: &DefaultsBlock, elab: &mut ElaboratedSlots)
    ensures
        forall|k: SlotKind| match #[trigger] last_of_kind(defaults.slots@, k) {
            Some(j) => final(elab).spec_get(k) matches Some(s) && s.kind == k
                && s.provenance == SlotProvenance::Default && s.source_span == defaults.slots@[j].span
                && slot_value_eqv(s.value, defaults.slots@[j].value),
            None => final(elab).spec_get(k) == old(elab).spec_get(k),
        },
{
    let mut i: usize = 0;
    while i < defaults.slots.len()
        invariant
            i <= defaults.slots@.len(),
            forall|k: SlotKind| match #[trigger] last_of_kind(defaults.slots@.subrange(0, i as int), k) {
                Some(j) => elab.spec_get(k) matches Some(s) && s.kind == k
                    && s.provenance == SlotProvenance::Default && s.source_span == defaults.slots@[j].span
                    && slot_value_eqv(s.value, defaults.slots@[j].value),
                None => elab.spec_get(k) == old(elab).spec_get(k),
            },
        decreases defaults.slots@.len() - i,
    {
        let sa = &defaults.slots[i];
        let ghost prefix = defaults.slots@.subrange(0, i + 1);
        proof {
            assert(prefix.drop_last() =~= defaults.slots@.subrange(0, i as int));
            assert(prefix.last() == defaults.slots@[i as int]);
        }
        let ghost e0 = *elab;
        elab.set_slot(sa.kind, Some(EffectiveSlot {
            kind: sa.kind,
            value: sa.value.duplicate(),
            provenance: SlotProvenance::Default,
            source_span: sa.span,
        }));
        proof {
            assert forall|k: SlotKind| match #[trigger] last_of_kind(prefix, k) {
                Some(j) => elab.spec_get(k) matches Some(s) && s.kind == k
                    && s.provenance == SlotProvenance::Default && s.source_span == defaults.slots@[j].span
                    && slot_value_eqv(s.value, defaults.slots@[j].value),
                None => elab.spec_get(k) == old(elab).spec_get(k),
            } by {
                lemma_last_of_kind_step(prefix, k);
                lemma_last_of_kind(prefix.drop_last(), k);
                if k != sa.kind {
                    assert(last_of_kind(prefix.drop_last(), k) == last_of_kind(defaults.slots@.subrange(0, i as int), k));
                }
            }
        }
        i += 1;
    }
    proof {
        assert(defaults.slots@.subrange(0, i as int) =~= defaults.slots@);
    }
}

/// Overlay the action's own slots (each last assignment wins), reporting
/// every slot declared twice.
fn apply_per_action(action: &ActionDecl, elab: &mut ElaboratedSlots, out: &mut Vec<Diagnostic>)
    ensures
        forall|k: SlotKind| match #[trigger] last_of_kind(action.slots@, k) {
            Some(j) => final(elab).spec_get(k) matches Some(s) && s.kind == k
                && s.provenance == SlotProvenance::Explicit && s.source_span == action.slots@[j].span
                && slot_value_eqv(s.value, action.slots@[j].value),
            None => final(elab).spec_get(k) == old(elab).spec_get(k),
        },
        diags_view(final(out)@) == diags_view(old(out)@) + dup_diags(action.slots@, action.name.name@),
{
    let ghost start = old(out)@;
    let mut seen: IndexMap<SlotKind, Span> = slot_spans_new();
    let mut i: usize = 0;
    proof {
        assert(action.slots@.subrange(0, 0) =~= Seq::<SlotAssign>::empty());
        lemma_diags_view_append(start, Seq::empty());
        assert(start + Seq::<Diagnostic>::empty() =~= start);
    }
    while i < action.slots.len()
        invariant
            i <= action.slots@.len(),
            forall|k: SlotKind| previous(slot_span_entries(seen), k) == #[trigger] last_span(action.slots@.subrange(0, i as int), k),
            forall|k: SlotKind| match #[trigger] last_of_kind(action.slots@.subrange(0, i as int), k) {
                Some(j) => elab.spec_get(k) matches Some(s) && s.kind == k
                    && s.provenance == SlotProvenance::Explicit && s.source_span == action.slots@[j].span
                    && slot_value_eqv(s.value, action.slots@[j].value),
                None => elab.spec_get(k) == old(elab).spec_get(k),
            },
            diags_view(out@) == diags_view(start) + dup_diags(action.slots@.subrange(0, i as int), action.name.name@),
        decreases action.slots@.len() - i,
    {
        let sa = &action.slots[i];
        let ghost prefix = action.slots@.subrange(0, i + 1);
        let ghost before = slot_span_entries(seen);
        proof {
            assert(prefix.drop_last() =~= action.slots@.subrange(0, i as int));
            assert(prefix.last() == action.slots@[i as int]);
        }
        let prev = slot_spans_insert(&mut seen, sa.kind, sa.span);
        proof {
            assert forall|k: SlotKind| previous(slot_span_entries(seen), k) == #[trigger] last_span(prefix, k) by {
                lemma_previous_inserted(before, sa.kind, sa.span, k);
                lemma_last_of_kind_step(prefix, k);
            }
        }
        match prev {
            Some(prev_span) => {
                let d = diag_declared_twice(sa.kind, &action.name, sa.span, prev_span);
                proof {
                    lemma_diags_view_push(out@, d);
                }
                out.push(d);
            },
            None => {},
        }
        let ghost e0 = *elab;
        elab.set_slot(sa.kind, Some(EffectiveSlot {
            kind: sa.kind,
            value: sa.value.duplicate(),
            provenance: SlotProvenance::Explicit,
            source_span: sa.span,
        }));
        proof {
            assert forall|k: SlotKind| match #[trigger] last_of_kind(prefix, k) {
                Some(j) => elab.spec_get(k) matches Some(s) && s.kind == k
                    && s.provenance == SlotProvenance::Explicit && s.source_span == action.slots@[j].span
                    && slot_value_eqv(s.value, action.slots@[j].value),
                None => elab.spec_get(k) == old(elab).spec_get(k),
            } by {
                lemma_last_of_kind_step(prefix, k);
                lemma_last_of_kind(prefix.drop_last(), k);
                if k != sa.kind {
                    assert(last_of_kind(prefix.drop_last(), k) == last_of_kind(action.slots@.subrange(0, i as int), k));
                }
            }
        }
        i += 1;
    }
    proof {
        assert(action.slots@.subrange(0, i as int) =~= action.slots@);
    }
}

/// Emit one `E_SLOT_PRECEDENCE_AMBIGUOUS` per repeated entry of a
/// defaults block.
fn check_defaults_uniqueness(defaults: &DefaultsBlock, out: &mut Vec<Diagnostic>)
    ensures
        diags_view(final(out)@) == diags_view(old(out)@) + default_dup_diags(defaults.slots@),
{
    let ghost start = old(out)@;
    let mut seen: IndexMap<SlotKind, Span> = slot_spans_new();
    let mut i: usize = 0;
    proof {
        assert(defaults.slots@.subrange(0, 0) =~= Seq::<SlotAssign>::empty());
        lemma_diags_view_append(start, Seq::empty());
        assert(start + Seq::<Diagnostic>::empty() =~= start);
    }
    while i < defaults.slots.len()
        invariant
            i <= defaults.slots@.len(),
            forall|k: SlotKind| previous(slot_span_entries(seen), k) == #[trigger] last_span(defaults.slots@.subrange(0, i as int), k),
            diags_view(out@) == diags_view(start) + default_dup_diags(defaults.slots@.subrange(0, i as int)),
        decreases defaults.slots@.len() - i,
    {
        let sa = &defaults.slots[i];
        let ghost prefix = defaults.slots@.subrange(0, i + 1);
        let ghost before = slot_span_entries(seen);
        proof {
            assert(prefix.drop_last() =~= defaults.slots@.subrange(0, i as int));
            assert(prefix.last() == defaults.slots@[i as int]);
        }
        let prev = slot_spans_insert(&mut seen, sa.kind, sa.span);
        proof {
            assert forall|k: SlotKind| previous(slot_span_entries(seen), k) == #[trigger] last_span(prefix, k) by {
                lemma_previous_inserted(before, sa.kind, sa.span, k);
                lemma_last_of_kind_step(prefix, k);
            }
        }
        match prev {
            Some(prev_span) => {
                let d = diag_default_twice(sa.kind, sa.span, prev_span);
                proof {
                    lemma_diags_view_push(out@, d);
                }
                out.push(d);
            },
            None => {},
        }
        i += 1;
    }
    proof {
        assert(defaults.slots@.subrange(0, i as int) =~= defaults.slots@);
    }
}


/// Equivalent values give the same value diagnostics.
proof fn lemma_value_diag_eqv(k: SlotKind, a: SlotValue, b: SlotValue, id: Ident)
    requires
        slot_value_eqv(a, b),
    ensures
        value_diag_of(k, a, id) == value_diag_of(k, b, id),
{
}

/// The value diagnostics of an elaborated slot are those of its source.
proof fn lemma_source_value_diags(e: EffectiveSlot, action: ActionDecl, ds: Seq<SlotAssign>, k: SlotKind)
    requires
        elaborated_as(Some(e), action, ds, k),
    ensures
        value_diag_of(k, e.value, action.name) == source_value_diags(action, ds, k),
{
    match slot_source(action, ds, k) {
        SlotSource::Explicit(j) => lemma_value_diag_eqv(k, e.value, action.slots@[j].value, action.name),
        SlotSource::Default(j) => lemma_value_diag_eqv(k, e.value, ds[j].value, action.name),
        SlotSource::Preset => {
            reveal_strlit("internal");
            assert("internal"@[0] == 'i');
            if k == SlotKind::RateLimit {
                assert(!is_white_space("internal"@[0]));
            }
        },
        SlotSource::Missing => {},
    }
}

/// Elaborate one action's slots under the surface's defaults: source
/// order check, internal-action presets, defaults overlay, per-action
/// overlay, value checks and missing-slot check, in that order.
pub fn elaborate(action: &ActionDecl, defaults: Option<&DefaultsBlock>) -> (r: (ElaboratedSlots, Vec<Diagnostic>))
    ensures
        forall|k: SlotKind| elaborated_as(#[trigger] r.0.spec_get(k), *action, defaults_slots(defaults), k),
        diags_view(r.1@) == elaborate_diags(*action, defaults_slots(defaults)),
{
    let ghost ds = defaults_slots(defaults);
    let mut diags: Vec<Diagnostic> = Vec::new();
    check_canonical_order(action, &mut diags);
    proof {
        assert(diags_view(Seq::<Diagnostic>::empty()) + order_diags(action.slots@) =~= order_diags(action.slots@));
    }
    let mut elab = ElaboratedSlots::empty();
    if action.is_internal {
        apply_internal_action_presets(action, &mut elab);
    }
    let ghost e1 = elab;
    match defaults {
        Some(d) => apply_defaults(d, &mut elab),
        None => {},
    }
    let ghost e2 = elab;
    apply_per_action(action, &mut elab, &mut diags);
    proof {
        assert forall|k: SlotKind| elaborated_as(#[trigger] elab.spec_get(k), *action, ds, k) by {
            let _ = last_of_kind(action.slots@, k);
            let _ = last_of_kind(ds, k);
            match defaults {
                Some(d) => {
                    let _ = last_of_kind(d.slots@, k);
                },
                None => {},
            }
        }
    }
    let ghost after_dups = diags_view(diags@);
    let order = SlotKind::canonical_order();
    let mut n: usize = 0;
    proof {
        assert(after_dups + value_diags_upto(*action, ds, 0) =~= after_dups);
    }
    while n < 7
        invariant
            n <= 7,
            order@ == SlotKind::spec_canonical_order(),
            forall|k: SlotKind| elaborated_as(#[trigger] elab.spec_get(k), *action, ds, k),
            diags_view(diags@) == after_dups + value_diags_upto(*action, ds, n as int),
        decreases 7 - n,
    {
        let k = order[n];
        proof {
            assert(k == kind_at(n as int));
        }
        match elab.get(k) {
            Some(s) => {
                proof {
                    lemma_source_value_diags(*s, *action, ds, k);
                }
                diag_values(k, &s.value, &action.name, &mut diags);
            },
            None => {
                proof {
                    assert(source_value_diags(*action, ds, k) =~= Seq::<DiagnosticView>::empty());
                    assert(diags_view(diags@) + source_value_diags(*action, ds, k) =~= diags_view(diags@));
                }
            },
        }
        proof {
            assert(after_dups + value_diags_upto(*action, ds, n + 1) =~= after_dups + value_diags_upto(*action, ds, n as int)
                + source_value_diags(*action, ds, k));
        }
        n += 1;
    }
    let ghost after_values = diags_view(diags@);
    let mut n: usize = 0;
    proof {
        assert(after_values + missing_diags_upto(*action, ds, 0) =~= after_values);
    }
    while n < 7
        invariant
            n <= 7,
            order@ == SlotKind::spec_canonical_order(),
            forall|k: SlotKind| elaborated_as(#[trigger] elab.spec_get(k), *action, ds, k),
            diags_view(diags@) == after_values + missing_diags_upto(*action, ds, n as int),
        decreases 7 - n,
    {
        let k = order[n];
        proof {
            assert(k == kind_at(n as int));
        }
        if elab.get(k).is_none() {
            let d = diag_missing(k, &action.name);
            proof {
                lemma_diags_view_push(diags@, d);
                assert(after_values + missing_diags_upto(*action, ds, n + 1) =~= (after_values
                    + missing_diags_upto(*action, ds, n as int)).push(d@));
            }
            diags.push(d);
        }
        n += 1;
    }
    (elab, diags)
}

/// The diagnostics of one action under the given defaults.
fn check_action(action: &ActionDecl, defaults: Option<&DefaultsBlock>, out: &mut Vec<Diagnostic>)
    ensures
        diags_view(final(out)@) == diags_view(old(out)@) + elaborate_diags(*action, defaults_slots(defaults)),
{
    let (_elab, mut diags) = elaborate(action, defaults);
    proof {
        lemma_diags_view_append(out@, diags@);
    }
    out.append(&mut diags);
}

/// The slots of an optional defaults block.
pub open spec fn block_slots(d: Option<DefaultsBlock>) -> Seq<SlotAssign> {
    match d {
        Some(b) => b.slots@,
        None => Seq::empty(),
    }
}

/// Everything the slot pass reports for one surface: repeated defaults,
/// then each action, then each internal action.
pub open spec fn surface_slot_diags(s: SurfaceBlock) -> Seq<DiagnosticView> {
    let ds = block_slots(s.defaults);
    (match s.defaults {
        Some(d) => default_dup_diags(d.slots@),
        None => Seq::empty(),
    }) + concat_map(s.actions@, |a: ActionDecl| elaborate_diags(a, ds))
        + concat_map(s.internal_actions@, |ia: InternalActionDecl| elaborate_diags(ia.action, ds))
}

/// The slot pass elaborates every internal action: adding an internal
/// action to a surface adds to what the pass reports exactly what
/// elaborating that action under the surface's defaults reports.
pub proof fn lemma_internal_action_is_elaborated(s: SurfaceBlock, t: SurfaceBlock, ia: InternalActionDecl)
    requires
        t.defaults == s.defaults,
        t.actions@ == s.actions@,
        t.internal_actions@ == s.internal_actions@.push(ia),
    ensures
        surface_slot_diags(t) == surface_slot_diags(s) + elaborate_diags(ia.action, block_slots(s.defaults)),
{
    assert(t.internal_actions@.drop_last() =~= s.internal_actions@);
    let ds = block_slots(s.defaults);
    let fa = |a: ActionDecl| elaborate_diags(a, ds);
    let fi = |x: InternalActionDecl| elaborate_diags(x.action, ds);
    assert(concat_map(t.internal_actions@, fi) == concat_map(s.internal_actions@, fi) + elaborate_diags(ia.action, ds));
    assert(concat_map(t.actions@, fa) == concat_map(s.actions@, fa));
    assert(surface_slot_diags(t) =~= surface_slot_diags(s) + elaborate_diags(ia.action, ds));
}

/// The slot pass elaborates every action: on a surface with no internal
/// actions, adding an action adds to what the pass reports exactly what
/// elaborating that action under the surface's defaults reports.
pub proof fn lemma_action_is_elaborated(s: SurfaceBlock, t: SurfaceBlock, a: ActionDecl)
    requires
        t.defaults == s.defaults,
        t.actions@ == s.actions@.push(a),
        s.internal_actions@.len() == 0,
        t.internal_actions@.len() == 0,
    ensures
        surface_slot_diags(t) == surface_slot_diags(s) + elaborate_diags(a, block_slots(s.defaults)),
{
    assert(t.actions@.drop_last() =~= s.actions@);
    let ds = block_slots(s.defaults);
    let fa = |x: ActionDecl| elaborate_diags(x, ds);
    let fi = |x: InternalActionDecl| elaborate_diags(x.action, ds);
    assert(concat_map(t.actions@, fa) == concat_map(s.actions@, fa) + elaborate_diags(a, ds));
    assert(concat_map(t.internal_actions@, fi) == Seq::<DiagnosticView>::empty());
    assert(concat_map(s.internal_actions@, fi) == Seq::<DiagnosticView>::empty());
    assert(surface_slot_diags(t) =~= surface_slot_diags(s) + elaborate_diags(a, ds));
}

/// Run the slot pass over one surface block.
pub fn check_surface(surface: &SurfaceBlock, out: &mut Vec<Diagnostic>)
    ensures
        diags_view(final(out)@) == diags_view(old(out)@) + surface_slot_diags(*surface),
{
    let ghost start = diags_view(old(out)@);
    let ghost ds = block_slots(surface.defaults);
    let defaults: Option<&DefaultsBlock> = match &surface.defaults {
        Some(d) => Some(d),
        None => None,
    };
    match defaults {
        Some(d) => check_defaults_uniqueness(d, out),
        None => {
            proof {
                assert(diags_view(out@) + Seq::<DiagnosticView>::empty() =~= diags_view(out@));
            }
        },
    }
    let ghost head = diags_view(out@);
    let ghost fa = |a: ActionDecl| elaborate_diags(a, ds);
    let ghost fi = |ia: InternalActionDecl| elaborate_diags(ia.action, ds);
    let mut i: usize = 0;
    proof {
        assert(surface.actions@.subrange(0, 0) =~= Seq::<ActionDecl>::empty());
        assert(head + concat_map(Seq::<ActionDecl>::empty(), fa) =~= head);
    }
    while i < surface.actions.len()
        invariant
            i <= surface.actions@.len(),
            defaults_slots(defaults) == ds,
            fa == (|a: ActionDecl| elaborate_diags(a, ds)),
            diags_view(out@) == head + concat_map(surface.actions@.subrange(0, i as int), fa),
        decreases surface.actions@.len() - i,
    {
        check_action(&surface.actions[i], defaults, out);
        proof {
            lemma_concat_map_step(surface.actions@, i as int, fa);
        }
        i += 1;
    }
    proof {
        assert(surface.actions@.subrange(0, i as int) =~= surface.actions@);
    }
    let ghost mid = diags_view(out@);
    let mut i: usize = 0;
    proof {
        assert(surface.internal_actions@.subrange(0, 0) =~= Seq::<InternalActionDecl>::empty());
        assert(mid + concat_map(Seq::<InternalActionDecl>::empty(), fi) =~= mid);
    }
    while i < surface.internal_actions.len()
        invariant
            i <= surface.internal_actions@.len(),
            defaults_slots(defaults) == ds,
            fi == (|ia: InternalActionDecl| elaborate_diags(ia.action, ds)),
            diags_view(out@) == mid + concat_map(surface.internal_actions@.subrange(0, i as int), fi),
        decreases surface.internal_actions@.len() - i,
    {
        check_action(&surface.internal_actions[i].action, defaults, out);
        proof {
            lemma_concat_map_step(surface.internal_actions@, i as int, fi);
        }
        i += 1;
    }
    proof {
        assert(surface.internal_actions@.subrange(0, i as int) =~= surface.internal_actions@);
    }
}

/// The slot diagnostics of one declaration.
pub open spec fn decl_slot_diags(d: Decl) -> Seq<DiagnosticView> {
    match d {
        Decl::Surface(s) => surface_slot_diags(s),
        _ => Seq::empty(),
    }
}

/// The slot diagnostics of one module.
pub open spec fn module_slot_diags(m: ModuleAggregate) -> Seq<DiagnosticView> {
    concat_map(m.decls@, |d: Decl| decl_slot_diags(d))
}

/// Top-level slot pass: every surface block of every module, in module
/// order then declaration order.
pub fn run(project: &Project) -> (r: Vec<Diagnostic>)
    ensures
        diags_view(r@) == concat_map(project.spec_modules(), |m: ModuleAggregate| module_slot_diags(m)),
{
    let ghost mods = project.spec_modules();
    let ghost fm = |m: ModuleAggregate| module_slot_diags(m);
    let ghost fd = |d: Decl| decl_slot_diags(d);
    let mut out: Vec<Diagnostic> = Vec::new();
    let n = modules_len(&project.modules);
    let mut i: usize = 0;
    proof {
        assert(mods.subrange(0, 0) =~= Seq::<ModuleAggregate>::empty());
        assert(diags_view(out@) =~= Seq::<DiagnosticView>::empty());
    }
    while i < n
        invariant
            n == mods.len(),
            mods == project.spec_modules(),
            i <= n,
            fm == (|m: ModuleAggregate| module_slot_diags(m)),
            fd == (|d: Decl| decl_slot_diags(d)),
            diags_view(out@) == concat_map(mods.subrange(0, i as int), fm),
        decreases n - i,
    {
        let entry = modules_get_index(&project.modules, i);
        match entry {
            Some((_key, module)) => {
                proof {
                    assert(*module == mods[i as int]);
                }
                let ghost head = diags_view(out@);
                let mut j: usize = 0;
                proof {
                    assert(module.decls@.subrange(0, 0) =~= Seq::<Decl>::empty());
                    assert(head + concat_map(Seq::<Decl>::empty(), fd) =~= head);
                }
                while j < module.decls.len()
                    invariant
                        j <= module.decls@.len(),
                        fd == (|d: Decl| decl_slot_diags(d)),
                        diags_view(out@) == head + concat_map(module.decls@.subrange(0, j as int), fd),
                    decreases module.decls@.len() - j,
                {
                    match &module.decls[j] {
                        Decl::Surface(s) => check_surface(s, &mut out),
                        _ => {
                            proof {
                                assert(diags_view(out@) + Seq::<DiagnosticView>::empty() =~= diags_view(out@));
                            }
                        },
                    }
                    proof {
                        lemma_concat_map_step(module.decls@, j as int, fd);
                    }
                    j += 1;
                }
                proof {
                    assert(module.decls@.subrange(0, j as int) =~= module.decls@);
                    lemma_concat_map_step(mods, i as int, fm);
                }
            },
            None => {},
        }
        i += 1;
    }
    proof {
        assert(mods.subrange(0, i as int) =~= mods);
    }
    out
}

// ---- laws ----

/// A slot value the value check accepts: classified, and not a waiver
/// with a blank reason.
pub open spec fn legal_value(v: SlotValue) -> bool {
    &&& !(v is Unknown)
    &&& !(v matches SlotValue::Waived { reason, .. } && is_blank(reason@))
}

/// The action sets each of the seven slots once, in canonical order,
/// with a legal value.
pub open spec fn canonically_complete(action: ActionDecl) -> bool {
    &&& action.slots@.len() == 7
    &&& forall|i: int| 0 <= i < 7 ==> (#[trigger] action.slots@[i]).kind == kind_at(i)
    &&& forall|i: int| 0 <= i < 7 ==> legal_value(#[trigger] action.slots@[i].value)
}

proof fn lemma_last_of_kind_canonical(slots: Seq<SlotAssign>, n: int, k: SlotKind)
    requires
        slots.len() == 7,
        forall|i: int| 0 <= i < 7 ==> (#[trigger] slots[i]).kind == kind_at(i),
        0 <= n <= 7,
    ensures
        last_of_kind(slots.subrange(0, n), k) == if k.spec_rank() < n { Some(k.spec_rank()) } else { None::<int> },
    decreases n,
{
    crate::slot::lemma_canonical_order_is_a_permutation();
    if n > 0 {
        let pre = slots.subrange(0, n);
        assert(pre.drop_last() =~= slots.subrange(0, n - 1));
        assert(pre.last() == slots[n - 1]);
        lemma_last_of_kind_canonical(slots, n - 1, k);
        if kind_at(n - 1) == k {
            assert(k.spec_rank() == n - 1);
        } else {
            assert(k.spec_rank() != n - 1);
        }
    }
}

proof fn lemma_canonical_prefix_clean(action: ActionDecl, n: int)
    requires
        canonically_complete(action),
        0 <= n <= 7,
    ensures
        order_diags(action.slots@.subrange(0, n)).len() == 0,
        dup_diags(action.slots@.subrange(0, n), action.name.name@).len() == 0,
    decreases n,
{
    crate::slot::lemma_canonical_order_is_a_permutation();
    if n > 0 {
        let slots = action.slots@;
        let pre = slots.subrange(0, n);
        assert(pre.drop_last() =~= slots.subrange(0, n - 1));
        assert(pre.last() == slots[n - 1]);
        lemma_canonical_prefix_clean(action, n - 1);
        if n >= 2 {
            assert(pre[n - 2] == slots[n - 2]);
            assert(kind_at(n - 1).spec_rank() == n - 1);
            assert(kind_at(n - 2).spec_rank() == n - 2);
        }
        lemma_last_of_kind_canonical(slots, n - 1, kind_at(n - 1));
        assert(kind_at(n - 1).spec_rank() == n - 1);
    }
}

proof fn lemma_canonical_sources(action: ActionDecl, ds: Seq<SlotAssign>, n: int)
    requires
        canonically_complete(action),
        0 <= n <= 7,
    ensures
        value_diags_upto(action, ds, n).len() == 0,
        missing_diags_upto(action, ds, n).len() == 0,
    decreases n,
{
    crate::slot::lemma_canonical_order_is_a_permutation();
    if n > 0 {
        lemma_canonical_sources(action, ds, n - 1);
        let k = kind_at(n - 1);
        assert(action.slots@.subrange(0, 7) =~= action.slots@);
        lemma_last_of_kind_canonical(action.slots@, 7, k);
        assert(k.spec_rank() == n - 1);
        assert(slot_source(action, ds, k) == SlotSource::Explicit(n - 1));
        assert(legal_value(action.slots@[n - 1].value));
        assert(source_value_diags(action, ds, k).len() == 0);
    }
}

/// An action that sets each of the seven slots once, in canonical order,
/// with legal values, gets no slot diagnostic, whatever the defaults.
pub proof fn lemma_complete_action_is_clean(action: ActionDecl, defaults: Seq<SlotAssign>)
    requires
        canonically_complete(action),
    ensures
        elaborate_diags(action, defaults).len() == 0,
        forall|k: SlotKind| slot_source(action, defaults, k) is Explicit,
{
    lemma_canonical_prefix_clean(action, 7);
    lemma_canonical_sources(action, defaults, 7);
    assert(action.slots@.subrange(0, 7) =~= action.slots@);
    crate::slot::lemma_canonical_order_is_a_permutation();
    assert forall|k: SlotKind| slot_source(action, defaults, k) is Explicit by {
        lemma_last_of_kind_canonical(action.slots@, 7, k);
    }
}

/// Exactly one `E_SURFACE_SLOT_MISSING` per slot that has no explicit
/// value, no default and no preset, each naming that slot.
pub open spec fn missing_kinds_upto(action: ActionDecl, defaults: Seq<SlotAssign>, n: int) -> Seq<SlotKind>
    decreases n,
{
    if n <= 0 {
        Seq::empty()
    } else if slot_source(action, defaults, kind_at(n - 1)) is Missing {
        missing_kinds_upto(action, defaults, n - 1).push(kind_at(n - 1))
    } else {
        missing_kinds_upto(action, defaults, n - 1)
    }
}

/// The missing-slot diagnostics correspond one to one, in canonical
/// order, to the slots left without a value.
pub proof fn lemma_missing_diags_name_missing_slots(action: ActionDecl, defaults: Seq<SlotAssign>, n: int)
    requires
        0 <= n <= 7,
    ensures
        missing_diags_upto(action, defaults, n).len() == missing_kinds_upto(action, defaults, n).len(),
        forall|i: int| 0 <= i < missing_kinds_upto(action, defaults, n).len() ==> {
            let k = #[trigger] missing_kinds_upto(action, defaults, n)[i];
            &&& missing_diags_upto(action, defaults, n)[i].code == Code::Error(ErrorKind::SurfaceSlotMissing)
            &&& missing_diags_upto(action, defaults, n)[i].message == msg_missing(k, action.name.name@)
            &&& slot_source(action, defaults, k) is Missing
        },
    decreases n,
{
    if n > 0 {
        lemma_missing_diags_name_missing_slots(action, defaults, n - 1);
    }
}

// ---- counting the diagnostics of one action ----

/// The value slot `k` takes from the action or the defaults, if any.
pub open spec fn source_value(action: ActionDecl, defaults: Seq<SlotAssign>, k: SlotKind) -> Option<SlotValue> {
    match slot_source(action, defaults, k) {
        SlotSource::Explicit(j) => Some(action.slots@[j].value),
        SlotSource::Default(j) => Some(defaults[j].value),
        _ => None,
    }
}

pub open spec fn is_missing_kind(action: ActionDecl, defaults: Seq<SlotAssign>, k: SlotKind) -> bool {
    slot_source(action, defaults, k) is Missing
}

pub open spec fn is_unknown_kind(action: ActionDecl, defaults: Seq<SlotAssign>, k: SlotKind) -> bool {
    source_value(action, defaults, k) matches Some(SlotValue::Unknown(_))
}

pub open spec fn is_empty_waiver_kind(action: ActionDecl, defaults: Seq<SlotAssign>, k: SlotKind) -> bool {
    source_value(action, defaults, k) matches Some(SlotValue::Waived { reason, .. }) && is_blank(reason@)
}

/// How many of the first `n` kinds of the canonical order satisfy `p`.
pub open spec fn count_kinds(n: int, p: spec_fn(SlotKind) -> bool) -> nat
    decreases n,
{
    if n <= 0 {
        0
    } else {
        count_kinds(n - 1, p) + if p(kind_at(n - 1)) { 1nat } else { 0nat }
    }
}

/// How many slots are ranked before the slot just before them.
pub open spec fn out_of_order_count(slots: Seq<SlotAssign>) -> nat
    decreases slots.len(),
{
    if slots.len() == 0 {
        0
    } else {
        out_of_order_count(slots.drop_last())
            + if slots.len() >= 2 && slots.last().kind.spec_rank() < slots[slots.len() - 2].kind.spec_rank() { 1nat } else { 0nat }
    }
}

/// How many slots repeat a kind assigned earlier.
pub open spec fn repeat_count(slots: Seq<SlotAssign>) -> nat
    decreases slots.len(),
{
    if slots.len() == 0 {
        0
    } else {
        repeat_count(slots.drop_last()) + if last_of_kind(slots.drop_last(), slots.last().kind) is Some { 1nat } else { 0nat }
    }
}

proof fn lemma_order_diags_count(slots: Seq<SlotAssign>)
    ensures
        order_diags(slots).len() == out_of_order_count(slots),
        forall|i: int| 0 <= i < order_diags(slots).len()
            ==> (#[trigger] order_diags(slots)[i]).code == Code::Error(ErrorKind::SurfaceSlotOrder),
    decreases slots.len(),
{
    if slots.len() > 0 {
        lemma_order_diags_count(slots.drop_last());
    }
}

proof fn lemma_dup_diags_count(slots: Seq<SlotAssign>, action: Seq<char>)
    ensures
        dup_diags(slots, action).len() == repeat_count(slots),
        forall|i: int| 0 <= i < dup_diags(slots, action).len()
            ==> (#[trigger] dup_diags(slots, action)[i]).code == Code::Error(ErrorKind::SurfaceSlotOrder),
    decreases slots.len(),
{
    if slots.len() > 0 {
        lemma_dup_diags_count(slots.drop_last(), action);
    }
}

proof fn lemma_missing_count(action: ActionDecl, defaults: Seq<SlotAssign>, n: int)
    ensures
        missing_diags_upto(action, defaults, n).len() == count_kinds(n, |k: SlotKind| is_missing_kind(action, defaults, k)),
        forall|i: int| 0 <= i < missing_diags_upto(action, defaults, n).len()
            ==> (#[trigger] missing_diags_upto(action, defaults, n)[i]).code == Code::Error(ErrorKind::SurfaceSlotMissing),
    decreases n,
{
    if n > 0 {
        lemma_missing_count(action, defaults, n - 1);
    }
}

proof fn lemma_value_count(action: ActionDecl, defaults: Seq<SlotAssign>, n: int, c: Code)
    ensures
        count_code(value_diags_upto(action, defaults, n), c) == if c == Code::Error(ErrorKind::SurfaceSlotUnknownValue) {
            count_kinds(n, |k: SlotKind| is_unknown_kind(action, defaults, k))
        } else if c == Code::Error(ErrorKind::SurfaceSlotWaiverEmpty) {
            count_kinds(n, |k: SlotKind| is_empty_waiver_kind(action, defaults, k))
        } else {
            0
        },
        value_diags_upto(action, defaults, n).len() == count_kinds(n, |k: SlotKind| is_unknown_kind(action, defaults, k))
            + count_kinds(n, |k: SlotKind| is_empty_waiver_kind(action, defaults, k)),
    decreases n,
{
    if n > 0 {
        lemma_value_count(action, defaults, n - 1, c);
        let k = kind_at(n - 1);
        let part = source_value_diags(action, defaults, k);
        lemma_count_code_append(value_diags_upto(action, defaults, n - 1), part, c);
        reveal_with_fuel(count_code, 2);
        match source_value(action, defaults, k) {
            Some(SlotValue::Unknown(_)) => {
                lemma_count_code_uniform(part, Code::Error(ErrorKind::SurfaceSlotUnknownValue), c);
            },
            Some(SlotValue::Waived { reason, .. }) => {
                if is_blank(reason@) {
                    lemma_count_code_uniform(part, Code::Error(ErrorKind::SurfaceSlotWaiverEmpty), c);
                }
            },
            _ => {},
        }
    }
}

/// What `elaborate` reports for one action, counted by code: one
/// `E_SURFACE_SLOT_MISSING` per slot with no value, one
/// `E_SURFACE_SLOT_UNKNOWN_VALUE` per effective value that is an
/// unknown token, one `E_SURFACE_SLOT_WAIVER_EMPTY` per effective waiver
/// with a blank reason, one `E_SURFACE_SLOT_ORDER` per slot ranked
/// before the slot just before it and per slot repeating an earlier
/// kind, and nothing else.
pub proof fn lemma_elaborate_diagnostic_counts(action: ActionDecl, defaults: Seq<SlotAssign>)
    ensures
        ({
            let ds = elaborate_diags(action, defaults);
            let missing = count_kinds(7, |k: SlotKind| is_missing_kind(action, defaults, k));
            let unknown = count_kinds(7, |k: SlotKind| is_unknown_kind(action, defaults, k));
            let waiver = count_kinds(7, |k: SlotKind| is_empty_waiver_kind(action, defaults, k));
            let order = out_of_order_count(action.slots@) + repeat_count(action.slots@);
            &&& count_code(ds, Code::Error(ErrorKind::SurfaceSlotMissing)) == missing
            &&& count_code(ds, Code::Error(ErrorKind::SurfaceSlotUnknownValue)) == unknown
            &&& count_code(ds, Code::Error(ErrorKind::SurfaceSlotWaiverEmpty)) == waiver
            &&& count_code(ds, Code::Error(ErrorKind::SurfaceSlotOrder)) == order
            &&& ds.len() == missing + unknown + waiver + order
        }),
{
    let slots = action.slots@;
    let o = order_diags(slots);
    let d = dup_diags(slots, action.name.name@);
    let v = value_diags_upto(action, defaults, 7);
    let m = missing_diags_upto(action, defaults, 7);
    lemma_order_diags_count(slots);
    lemma_dup_diags_count(slots, action.name.name@);
    lemma_missing_count(action, defaults, 7);
    let cs = seq![Code::Error(ErrorKind::SurfaceSlotMissing), Code::Error(ErrorKind::SurfaceSlotUnknownValue),
        Code::Error(ErrorKind::SurfaceSlotWaiverEmpty), Code::Error(ErrorKind::SurfaceSlotOrder)];
    assert forall|i: int| 0 <= i < 4 implies
        count_code(o + d + v + m, #[trigger] cs[i]) == count_code(o, cs[i]) + count_code(d, cs[i])
            + count_code(v, cs[i]) + count_code(m, cs[i]) by {
        lemma_count_code_append(o, d, cs[i]);
        lemma_count_code_append(o + d, v, cs[i]);
        lemma_count_code_append(o + d + v, m, cs[i]);
    }
    assert forall|i: int| 0 <= i < 4 implies {
        &&& count_code(o, #[trigger] cs[i]) == if cs[i] == Code::Error(ErrorKind::SurfaceSlotOrder) { o.len() } else { 0 }
        &&& count_code(d, cs[i]) == if cs[i] == Code::Error(ErrorKind::SurfaceSlotOrder) { d.len() } else { 0 }
        &&& count_code(m, cs[i]) == if cs[i] == Code::Error(ErrorKind::SurfaceSlotMissing) { m.len() } else { 0 }
    } by {
        lemma_count_code_uniform(o, Code::Error(ErrorKind::SurfaceSlotOrder), cs[i]);
        lemma_count_code_uniform(d, Code::Error(ErrorKind::SurfaceSlotOrder), cs[i]);
        lemma_count_code_uniform(m, Code::Error(ErrorKind::SurfaceSlotMissing), cs[i]);
    }
    lemma_value_count(action, defaults, 7, cs[0]);
    lemma_value_count(action, defaults, 7, cs[1]);
    lemma_value_count(action, defaults, 7, cs[2]);
    lemma_value_count(action, defaults, 7, cs[3]);
}

/// Two predicates that agree on the first `n` kinds count alike.
proof fn lemma_count_kinds_ext(n: int, p: spec_fn(SlotKind) -> bool, q: spec_fn(SlotKind) -> bool)
    requires
        forall|i: int| 0 <= i < n ==> p(#[trigger] kind_at(i)) == q(kind_at(i)),
    ensures
        count_kinds(n, p) == count_kinds(n, q),
    decreases n,
{
    if n > 0 {
        lemma_count_kinds_ext(n - 1, p, q);
        assert(p(kind_at(n - 1)) == q(kind_at(n - 1)));
    }
}

pub open spec fn eff_missing(elab: ElaboratedSlots, k: SlotKind) -> bool {
    elab.spec_get(k) is None
}

pub open spec fn eff_unknown(elab: ElaboratedSlots, k: SlotKind) -> bool {
    elab.spec_get(k) matches Some(s) && s.value is Unknown
}

pub open spec fn eff_empty_waiver(elab: ElaboratedSlots, k: SlotKind) -> bool {
    elab.spec_get(k) matches Some(s) && (s.value matches SlotValue::Waived { reason, .. } && is_blank(reason@))
}

/// What one call of `elaborate` gives, counted by code over its own
/// result: as many `E_SURFACE_SLOT_MISSING` as slots left without a
/// value, as many `E_SURFACE_SLOT_UNKNOWN_VALUE` as effective values
/// that are unknown tokens, as many `E_SURFACE_SLOT_WAIVER_EMPTY` as
/// effective waivers with a blank reason, as many
/// `E_SURFACE_SLOT_ORDER` as slots ranked before the slot just before
/// them plus slots repeating an earlier kind, and nothing else.
pub proof fn lemma_elaborate_result_counts(action: ActionDecl, defaults: Seq<SlotAssign>, elab: ElaboratedSlots,
    diags: Seq<DiagnosticView>)
    requires
        forall|k: SlotKind| elaborated_as(#[trigger] elab.spec_get(k), action, defaults, k),
        diags == elaborate_diags(action, defaults),
    ensures
        ({
            let missing = count_kinds(7, |k: SlotKind| eff_missing(elab, k));
            let unknown = count_kinds(7, |k: SlotKind| eff_unknown(elab, k));
            let waiver = count_kinds(7, |k: SlotKind| eff_empty_waiver(elab, k));
            let order = out_of_order_count(action.slots@) + repeat_count(action.slots@);
            &&& count_code(diags, Code::Error(ErrorKind::SurfaceSlotMissing)) == missing
            &&& count_code(diags, Code::Error(ErrorKind::SurfaceSlotUnknownValue)) == unknown
            &&& count_code(diags, Code::Error(ErrorKind::SurfaceSlotWaiverEmpty)) == waiver
            &&& count_code(diags, Code::Error(ErrorKind::SurfaceSlotOrder)) == order
            &&& diags.len() == missing + unknown + waiver + order
        }),
{
    lemma_elaborate_diagnostic_counts(action, defaults);
    reveal_strlit("internal");
    assert forall|i: int| 0 <= i < 7 implies
        eff_missing(elab, #[trigger] kind_at(i)) == is_missing_kind(action, defaults, kind_at(i))
        && eff_unknown(elab, kind_at(i)) == is_unknown_kind(action, defaults, kind_at(i))
        && eff_empty_waiver(elab, kind_at(i)) == is_empty_waiver_kind(action, defaults, kind_at(i)) by {
        let k = kind_at(i);
        assert(elaborated_as(elab.spec_get(k), action, defaults, k));
        match slot_source(action, defaults, k) {
            SlotSource::Preset => {
                if k == SlotKind::RateLimit {
                    let v = elab.spec_get(k).unwrap().value;
                    if let SlotValue::Waived { reason, .. } = v {
                        assert(reason@[0] == 'i');
                        assert(!is_white_space(reason@[0]));
                    }
                }
            },
            _ => {},
        }
    }
    lemma_count_kinds_ext(7, |k: SlotKind| eff_missing(elab, k), |k: SlotKind| is_missing_kind(action, defaults, k));
    lemma_count_kinds_ext(7, |k: SlotKind| eff_unknown(elab, k), |k: SlotKind| is_unknown_kind(action, defaults, k));
    lemma_count_kinds_ext(7, |k: SlotKind| eff_empty_waiver(elab, k),
        |k: SlotKind| is_empty_waiver_kind(action, defaults, k));
}

} // verus!
