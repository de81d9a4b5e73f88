//! Slot values: idempotency, auth_channel, retention, rate_limit,
//! observability, availability, freshness.
//!
//! Each slot has a closed enum of legal values. The grammar parses any
//! well-shaped value; this module is the typed representation consumed
//! by the slot pass.

use vstd::prelude::*;
use crate::ident::{Ident, clone_idents};
use crate::span::Span;
use crate::text::str_eq;

verus! {

/// One of the seven mandatory action slots.
#[derive(Debug, Clone, Copy, PartialEq, Eq, Hash, Structural)]
pub enum SlotKind {
    Idempotency,
    AuthChannel,
    Retention,
    RateLimit,
    Observability,
    Availability,
    Freshness,
}

impl SlotKind {
    pub open spec fn spec_name(self) -> Seq<char> {
        match self {
            SlotKind::Idempotency => "idempotency"@,
            SlotKind::AuthChannel => "auth_channel"@,
            SlotKind::Retention => "retention"@,
            SlotKind::RateLimit => "rate_limit"@,
            SlotKind::Observability => "observability"@,
            SlotKind::Availability => "availability"@,
            SlotKind::Freshness => "freshness"@,
        }
    }

    /// Position in the canonical slot order.
    pub open spec fn spec_rank(self) -> int {
        match self {
            SlotKind::Idempotency => 0,
            SlotKind::AuthChannel => 1,
            SlotKind::Retention => 2,
            SlotKind::RateLimit => 3,
            SlotKind::Observability => 4,
            SlotKind::Availability => 5,
            SlotKind::Freshness => 6,
        }
    }

    pub open spec fn spec_canonical_order() -> Seq<SlotKind> {
        seq![
            SlotKind::Idempotency,
            SlotKind::AuthChannel,
            SlotKind::Retention,
            SlotKind::RateLimit,
            SlotKind::Observability,
            SlotKind::Availability,
            SlotKind::Freshness,
        ]
    }

    pub open spec fn spec_from_name(name: Seq<char>) -> Option<SlotKind> {
        if name == "idempotency"@ {
            Some(SlotKind::Idempotency)
        } else if name == "auth_channel"@ {
            Some(SlotKind::AuthChannel)
        } else if name == "retention"@ {
            Some(SlotKind::Retention)
        } else if name == "rate_limit"@ {
            Some(SlotKind::RateLimit)
        } else if name == "observability"@ {
            Some(SlotKind::Observability)
        } else if name == "availability"@ {
            Some(SlotKind::Availability)
        } else if name == "freshness"@ {
            Some(SlotKind::Freshness)
        } else {
            None
        }
    }

    pub fn name(self) -> (r: &'static str)
        ensures
            r@ == self.spec_name(),
    {
        match self {
            SlotKind::Idempotency => "idempotency",
            SlotKind::AuthChannel => "auth_channel",
            SlotKind::Retention => "retention",
            SlotKind::RateLimit => "rate_limit",
            SlotKind::Observability => "observability",
            SlotKind::Availability => "availability",
            SlotKind::Freshness => "freshness",
        }
    }

    /// Position of this slot in the canonical order.
    pub fn rank(self) -> (r: usize)
        ensures
            r == self.spec_rank(),
    {
        match self {
            SlotKind::Idempotency => 0,
            SlotKind::AuthChannel => 1,
            SlotKind::Retention => 2,
            SlotKind::RateLimit => 3,
            SlotKind::Observability => 4,
            SlotKind::Availability => 5,
            SlotKind::Freshness => 6,
        }
    }

    /// Canonical order in which slots appear in action bodies (and in
    /// docs projection).
    pub fn canonical_order() -> (r: [SlotKind; 7])
        ensures
            r@ == Self::spec_canonical_order(),
    {
        [
            SlotKind::Idempotency,
            SlotKind::AuthChannel,
            SlotKind::Retention,
            SlotKind::RateLimit,
            SlotKind::Observability,
            SlotKind::Availability,
            SlotKind::Freshness,
        ]
    }

    pub fn from_name(name: &str) -> (r: Option<SlotKind>)
        ensures
            r == Self::spec_from_name(name@),
    {
        if str_eq(name, "idempotency") {
            Some(SlotKind::Idempotency)
        } else if str_eq(name, "auth_channel") {
            Some(SlotKind::AuthChannel)
        } else if str_eq(name, "retention") {
            Some(SlotKind::Retention)
        } else if str_eq(name, "rate_limit") {
            Some(SlotKind::RateLimit)
        } else if str_eq(name, "observability") {
            Some(SlotKind::Observability)
        } else if str_eq(name, "availability") {
            Some(SlotKind::Availability)
        } else if str_eq(name, "freshness") {
            Some(SlotKind::Freshness)
        } else {
            None
        }
    }
}

/// Parsing a slot's name gives the slot back.
pub proof fn lemma_slot_kind_name_round_trip(k: SlotKind)
    ensures
        SlotKind::spec_from_name(k.spec_name()) == Some(k),
{
    reveal_strlit("idempotency");
    reveal_strlit("auth_channel");
    reveal_strlit("retention");
    reveal_strlit("rate_limit");
    reveal_strlit("observability");
    reveal_strlit("availability");
    reveal_strlit("freshness");
    assert("idempotency"@.len() == 11);
    assert("auth_channel"@.len() == 12);
    assert("retention"@.len() == 9);
    assert("rate_limit"@.len() == 10);
    assert("observability"@.len() == 13);
    assert("availability"@.len() == 12);
    assert("freshness"@.len() == 9);
    assert("idempotency"@ != "auth_channel"@);
    assert("idempotency"@ != "retention"@);
    assert("idempotency"@ != "rate_limit"@);
    assert("idempotency"@ != "observability"@);
    assert("idempotency"@ != "availability"@);
    assert("idempotency"@ != "freshness"@);
    assert("auth_channel"@ != "retention"@);
    assert("auth_channel"@ != "rate_limit"@);
    assert("auth_channel"@ != "observability"@);
    assert("auth_channel"@[1] == 'u' && "availability"@[1] == 'v');
    assert("auth_channel"@ != "availability"@);
    assert("auth_channel"@ != "freshness"@);
    assert("retention"@ != "rate_limit"@);
    assert("retention"@ != "observability"@);
    assert("retention"@ != "availability"@);
    assert("retention"@[0] == 'r' && "freshness"@[0] == 'f');
    assert("retention"@ != "freshness"@);
    assert("rate_limit"@ != "observability"@);
    assert("rate_limit"@ != "availability"@);
    assert("rate_limit"@ != "freshness"@);
    assert("observability"@ != "availability"@);
    assert("observability"@ != "freshness"@);
    assert("availability"@ != "freshness"@);
}

/// The canonical order lists every slot exactly once, each at its rank.
pub proof fn lemma_canonical_order_is_a_permutation()
    ensures
        SlotKind::spec_canonical_order().len() == 7,
        forall|i: int| 0 <= i < 7 ==> (#[trigger] SlotKind::spec_canonical_order()[i]).spec_rank() == i,
        forall|k: SlotKind| SlotKind::spec_canonical_order()[k.spec_rank()] == k,
        forall|i: int, j: int| 0 <= i < j < 7 ==> SlotKind::spec_canonical_order()[i] != SlotKind::spec_canonical_order()[j],
{
}

/// A parsed slot assignment, before validation.
#[derive(Debug)]
pub struct SlotAssign {
    pub kind: SlotKind,
    pub value: SlotValue,
    pub span: Span,
}

/// Where an effective slot value came from after defaults elaboration.
#[derive(Debug, Clone, Copy, PartialEq, Eq, Hash, Structural)]
pub enum SlotProvenance {
    Explicit,
    Default,
    InternalActionPreset,
}

#[derive(Debug)]
pub enum SlotValue {
    Idempotency(IdempotencyValue),
    AuthChannel(AuthChannelValue),
    Retention(RetentionValue),
    RateLimit(RateLimitValue),
    Observability(ObservabilityValue),
    Availability(AvailabilityValue),
    Freshness(FreshnessValue),
    Waived { reason: String, reason_span: Span },
    /// A token that could not be classified.
    Unknown(Ident),
}

#[derive(Debug)]
pub enum IdempotencyValue {
    Idempotent,
    IdempotentBy(Vec<Ident>),
    AtMostOnce,
    AtLeastOnce,
}

/// An `auth_channel` value is a non-empty set of channels; a bare value
/// `c` is sugar for `{c}`.
#[derive(Debug)]
pub struct AuthChannelValue {
    pub channels: Vec<AuthChannelTag>,
    pub set_form: bool,
}

#[derive(Debug, Clone, Copy, PartialEq, Eq, Hash, Structural)]
pub enum AuthChannelTag {
    Session,
    BearerToken,
    SignedRequest,
    CapabilityUrl,
    Mtls,
    TrustedCaller,
    Anonymous,
}

impl AuthChannelTag {
    pub open spec fn spec_name(self) -> Seq<char> {
        match self {
            AuthChannelTag::Session => "session"@,
            AuthChannelTag::BearerToken => "bearer_token"@,
            AuthChannelTag::SignedRequest => "signed_request"@,
            AuthChannelTag::CapabilityUrl => "capability_url"@,
            AuthChannelTag::Mtls => "mtls"@,
            AuthChannelTag::TrustedCaller => "trusted_caller"@,
            AuthChannelTag::Anonymous => "anonymous"@,
        }
    }

    pub open spec fn spec_from_name(name: Seq<char>) -> Option<AuthChannelTag> {
        if name == "session"@ {
            Some(AuthChannelTag::Session)
        } else if name == "bearer_token"@ {
            Some(AuthChannelTag::BearerToken)
        } else if name == "signed_request"@ {
            Some(AuthChannelTag::SignedRequest)
        } else if name == "capability_url"@ {
            Some(AuthChannelTag::CapabilityUrl)
        } else if name == "mtls"@ {
            Some(AuthChannelTag::Mtls)
        } else if name == "trusted_caller"@ {
            Some(AuthChannelTag::TrustedCaller)
        } else if name == "anonymous"@ {
            Some(AuthChannelTag::Anonymous)
        } else {
            None
        }
    }

    pub open spec fn spec_all() -> Seq<AuthChannelTag> {
        seq![
            AuthChannelTag::Session,
            AuthChannelTag::BearerToken,
            AuthChannelTag::SignedRequest,
            AuthChannelTag::CapabilityUrl,
            AuthChannelTag::Mtls,
            AuthChannelTag::TrustedCaller,
            AuthChannelTag::Anonymous,
        ]
    }

    pub fn name(self) -> (r: &'static str)
        ensures
            r@ == self.spec_name(),
    {
        match self {
            AuthChannelTag::Session => "session",
            AuthChannelTag::BearerToken => "bearer_token",
            AuthChannelTag::SignedRequest => "signed_request",
            AuthChannelTag::CapabilityUrl => "capability_url",
            AuthChannelTag::Mtls => "mtls",
            AuthChannelTag::TrustedCaller => "trusted_caller",
            AuthChannelTag::Anonymous => "anonymous",
        }
    }

    pub fn from_name(name: &str) -> (r: Option<AuthChannelTag>)
        ensures
            r == Self::spec_from_name(name@),
    {
        if str_eq(name, "session") {
            Some(AuthChannelTag::Session)
        } else if str_eq(name, "bearer_token") {
            Some(AuthChannelTag::BearerToken)
        } else if str_eq(name, "signed_request") {
            Some(AuthChannelTag::SignedRequest)
        } else if str_eq(name, "capability_url") {
            Some(AuthChannelTag::CapabilityUrl)
        } else if str_eq(name, "mtls") {
            Some(AuthChannelTag::Mtls)
        } else if str_eq(name, "trusted_caller") {
            Some(AuthChannelTag::TrustedCaller)
        } else if str_eq(name, "anonymous") {
            Some(AuthChannelTag::Anonymous)
        } else {
            None
        }
    }

    /// Every channel tag, once each.
    pub fn all() -> (r: &'static [AuthChannelTag])
        ensures
            r@ == Self::spec_all(),
    {
        &[
            AuthChannelTag::Session,
            AuthChannelTag::BearerToken,
            AuthChannelTag::SignedRequest,
            AuthChannelTag::CapabilityUrl,
            AuthChannelTag::Mtls,
            AuthChannelTag::TrustedCaller,
            AuthChannelTag::Anonymous,
        ]
    }
}

/// Parsing a channel tag's name gives the tag back, and `all` lists
/// every tag.
pub proof fn lemma_auth_channel_name_round_trip(t: AuthChannelTag)
    ensures
        AuthChannelTag::spec_from_name(t.spec_name()) == Some(t),
        AuthChannelTag::spec_all().contains(t),
{
    reveal_strlit("session");
    reveal_strlit("bearer_token");
    reveal_strlit("signed_request");
    reveal_strlit("capability_url");
    reveal_strlit("mtls");
    reveal_strlit("trusted_caller");
    reveal_strlit("anonymous");
    assert("session"@.len() == 7);
    assert("bearer_token"@.len() == 12);
    assert("signed_request"@.len() == 14);
    assert("capability_url"@.len() == 14);
    assert("mtls"@.len() == 4);
    assert("trusted_caller"@.len() == 14);
    assert("anonymous"@.len() == 9);
    assert("session"@ != "bearer_token"@);
    assert("session"@ != "signed_request"@);
    assert("session"@ != "capability_url"@);
    assert("session"@ != "mtls"@);
    assert("session"@ != "trusted_caller"@);
    assert("session"@ != "anonymous"@);
    assert("bearer_token"@ != "signed_request"@);
    assert("bearer_token"@ != "capability_url"@);
    assert("bearer_token"@ != "mtls"@);
    assert("bearer_token"@ != "trusted_caller"@);
    assert("bearer_token"@ != "anonymous"@);
    assert("signed_request"@[0] == 's' && "capability_url"@[0] == 'c');
    assert("signed_request"@ != "capability_url"@);
    assert("signed_request"@ != "mtls"@);
    assert("signed_request"@[0] == 's' && "trusted_caller"@[0] == 't');
    assert("signed_request"@ != "trusted_caller"@);
    assert("signed_request"@ != "anonymous"@);
    assert("capability_url"@ != "mtls"@);
    assert("capability_url"@[0] == 'c' && "trusted_caller"@[0] == 't');
    assert("capability_url"@ != "trusted_caller"@);
    assert("capability_url"@ != "anonymous"@);
    assert("mtls"@ != "trusted_caller"@);
    assert("mtls"@ != "anonymous"@);
    assert("trusted_caller"@ != "anonymous"@);
    let all = AuthChannelTag::spec_all();
    match t {
        AuthChannelTag::Session => assert(all[0] == t),
        AuthChannelTag::BearerToken => assert(all[1] == t),
        AuthChannelTag::SignedRequest => assert(all[2] == t),
        AuthChannelTag::CapabilityUrl => assert(all[3] == t),
        AuthChannelTag::Mtls => assert(all[4] == t),
        AuthChannelTag::TrustedCaller => assert(all[5] == t),
        AuthChannelTag::Anonymous => assert(all[6] == t),
    }
}

#[derive(Debug)]
pub enum RetentionValue {
    Ephemeral,
    Transactional,
    /// `audit(period=<DurationConst>)`
    Audit { period: Ident },
    /// `pii(class=<PiiClass>, ttl=<DurationConst>)`
    Pii { class: PiiClass, ttl: Ident },
    Secret,
}

#[derive(Debug, Clone, Copy, PartialEq, Eq, Hash, Structural)]
pub enum PiiClass {
    Name,
    Email,
    Phone,
    Address,
    Biometric,
    Financial,
    Health,
    Location,
    Identifier,
    Other,
}

impl PiiClass {
    pub open spec fn spec_name(self) -> Seq<char> {
        match self {
            PiiClass::Name => "name"@,
            PiiClass::Email => "email"@,
            PiiClass::Phone => "phone"@,
            PiiClass::Address => "address"@,
            PiiClass::Biometric => "biometric"@,
            PiiClass::Financial => "financial"@,
            PiiClass::Health => "health"@,
            PiiClass::Location => "location"@,
            PiiClass::Identifier => "identifier"@,
            PiiClass::Other => "other"@,
        }
    }

    pub open spec fn spec_from_name(name: Seq<char>) -> Option<PiiClass> {
        if name == "name"@ {
            Some(PiiClass::Name)
        } else if name == "email"@ {
            Some(PiiClass::Email)
        } else if name == "phone"@ {
            Some(PiiClass::Phone)
        } else if name == "address"@ {
            Some(PiiClass::Address)
        } else if name == "biometric"@ {
            Some(PiiClass::Biometric)
        } else if name == "financial"@ {
            Some(PiiClass::Financial)
        } else if name == "health"@ {
            Some(PiiClass::Health)
        } else if name == "location"@ {
            Some(PiiClass::Location)
        } else if name == "identifier"@ {
            Some(PiiClass::Identifier)
        } else if name == "other"@ {
            Some(PiiClass::Other)
        } else {
            None
        }
    }

    pub fn name(self) -> (r: &'static str)
        ensures
            r@ == self.spec_name(),
    {
        match self {
            PiiClass::Name => "name",
            PiiClass::Email => "email",
            PiiClass::Phone => "phone",
            PiiClass::Address => "address",
            PiiClass::Biometric => "biometric",
            PiiClass::Financial => "financial",
            PiiClass::Health => "health",
            PiiClass::Location => "location",
            PiiClass::Identifier => "identifier",
            PiiClass::Other => "other",
        }
    }

    pub fn from_name(name: &str) -> (r: Option<PiiClass>)
        ensures
            r == Self::spec_from_name(name@),
    {
        if str_eq(name, "name") {
            Some(PiiClass::Name)
        } else if str_eq(name, "email") {
            Some(PiiClass::Email)
        } else if str_eq(name, "phone") {
            Some(PiiClass::Phone)
        } else if str_eq(name, "address") {
            Some(PiiClass::Address)
        } else if str_eq(name, "biometric") {
            Some(PiiClass::Biometric)
        } else if str_eq(name, "financial") {
            Some(PiiClass::Financial)
        } else if str_eq(name, "health") {
            Some(PiiClass::Health)
        } else if str_eq(name, "location") {
            Some(PiiClass::Location)
        } else if str_eq(name, "identifier") {
            Some(PiiClass::Identifier)
        } else if str_eq(name, "other") {
            Some(PiiClass::Other)
        } else {
            None
        }
    }
}

/// Parsing a PII class's name gives the class back.
pub proof fn lemma_pii_class_name_round_trip(c: PiiClass)
    ensures
        PiiClass::spec_from_name(c.spec_name()) == Some(c),
{
    reveal_strlit("name");
    reveal_strlit("email");
    reveal_strlit("phone");
    reveal_strlit("address");
    reveal_strlit("biometric");
    reveal_strlit("financial");
    reveal_strlit("health");
    reveal_strlit("location");
    reveal_strlit("identifier");
    reveal_strlit("other");
    assert("name"@.len() == 4);
    assert("email"@.len() == 5);
    assert("phone"@.len() == 5);
    assert("address"@.len() == 7);
    assert("biometric"@.len() == 9);
    assert("financial"@.len() == 9);
    assert("health"@.len() == 6);
    assert("location"@.len() == 8);
    assert("identifier"@.len() == 10);
    assert("other"@.len() == 5);
    assert("name"@ != "email"@);
    assert("name"@ != "phone"@);
    assert("name"@ != "address"@);
    assert("name"@ != "biometric"@);
    assert("name"@ != "financial"@);
    assert("name"@ != "health"@);
    assert("name"@ != "location"@);
    assert("name"@ != "identifier"@);
    assert("name"@ != "other"@);
    assert("email"@[0] == 'e' && "phone"@[0] == 'p');
    assert("email"@ != "phone"@);
    assert("email"@ != "address"@);
    assert("email"@ != "biometric"@);
    assert("email"@ != "financial"@);
    assert("email"@ != "health"@);
    assert("email"@ != "location"@);
    assert("email"@ != "identifier"@);
    assert("email"@[0] == 'e' && "other"@[0] == 'o');
    assert("email"@ != "other"@);
    assert("phone"@ != "address"@);
    assert("phone"@ != "biometric"@);
    assert("phone"@ != "financial"@);
    assert("phone"@ != "health"@);
    assert("phone"@ != "location"@);
    assert("phone"@ != "identifier"@);
    assert("phone"@[0] == 'p' && "other"@[0] == 'o');
    assert("phone"@ != "other"@);
    assert("address"@ != "biometric"@);
    assert("address"@ != "financial"@);
    assert("address"@ != "health"@);
    assert("address"@ != "location"@);
    assert("address"@ != "identifier"@);
    assert("address"@ != "other"@);
    assert("biometric"@[0] == 'b' && "financial"@[0] == 'f');
    assert("biometric"@ != "financial"@);
    assert("biometric"@ != "health"@);
    assert("biometric"@ != "location"@);
    assert("biometric"@ != "identifier"@);
    assert("biometric"@ != "other"@);
    assert("financial"@ != "health"@);
    assert("financial"@ != "location"@);
    assert("financial"@ != "identifier"@);
    assert("financial"@ != "other"@);
    assert("health"@ != "location"@);
    assert("health"@ != "identifier"@);
    assert("health"@ != "other"@);
    assert("location"@ != "identifier"@);
    assert("location"@ != "other"@);
    assert("identifier"@ != "other"@);
}

#[derive(Debug)]
pub enum RateLimitValue {
    /// `per_actor(<n>: Nat, per: <DurationConst>)`
    PerActor { n: u64, period: Ident },
    /// `per_target(<arg>, <n>, per: <DurationConst>)`
    PerTarget { arg: Ident, n: u64, period: Ident },
    /// `global(<n>, per: <DurationConst>)`
    Global { n: u64, period: Ident },
    Unlimited,
}

#[derive(Debug)]
pub enum ObservabilityValue {
    CallerOnly(Vec<Ident>),
    Target { arg: Ident, events: Vec<Ident> },
    Broadcast(Vec<Ident>),
    Silent,
}

#[derive(Debug, Clone, Copy, PartialEq, Eq, Hash, Structural)]
pub enum AvailabilityValue {
    Critical,
    BestEffort,
    MaintenanceWindow,
    ReadOnlyFailover,
}

impl AvailabilityValue {
    pub open spec fn spec_name(self) -> Seq<char> {
        match self {
            AvailabilityValue::Critical => "critical"@,
            AvailabilityValue::BestEffort => "best_effort"@,
            AvailabilityValue::MaintenanceWindow => "maintenance_window"@,
            AvailabilityValue::ReadOnlyFailover => "read_only_failover"@,
        }
    }

    /// Lattice order: critical > read_only_failover > maintenance_window
    /// > best_effort.
    pub open spec fn spec_rank(self) -> u8 {
        match self {
            AvailabilityValue::BestEffort => 0,
            AvailabilityValue::MaintenanceWindow => 1,
            AvailabilityValue::ReadOnlyFailover => 2,
            AvailabilityValue::Critical => 3,
        }
    }

    pub open spec fn spec_from_name(name: Seq<char>) -> Option<AvailabilityValue> {
        if name == "critical"@ {
            Some(AvailabilityValue::Critical)
        } else if name == "best_effort"@ {
            Some(AvailabilityValue::BestEffort)
        } else if name == "maintenance_window"@ {
            Some(AvailabilityValue::MaintenanceWindow)
        } else if name == "read_only_failover"@ {
            Some(AvailabilityValue::ReadOnlyFailover)
        } else {
            None
        }
    }

    pub fn name(self) -> (r: &'static str)
        ensures
            r@ == self.spec_name(),
    {
        match self {
            AvailabilityValue::Critical => "critical",
            AvailabilityValue::BestEffort => "best_effort",
            AvailabilityValue::MaintenanceWindow => "maintenance_window",
            AvailabilityValue::ReadOnlyFailover => "read_only_failover",
        }
    }

    pub fn rank(self) -> (r: u8)
        ensures
            r == self.spec_rank(),
    {
        match self {
            AvailabilityValue::BestEffort => 0,
            AvailabilityValue::MaintenanceWindow => 1,
            AvailabilityValue::ReadOnlyFailover => 2,
            AvailabilityValue::Critical => 3,
        }
    }

    pub fn from_name(name: &str) -> (r: Option<AvailabilityValue>)
        ensures
            r == Self::spec_from_name(name@),
    {
        if str_eq(name, "critical") {
            Some(AvailabilityValue::Critical)
        } else if str_eq(name, "best_effort") {
            Some(AvailabilityValue::BestEffort)
        } else if str_eq(name, "maintenance_window") {
            Some(AvailabilityValue::MaintenanceWindow)
        } else if str_eq(name, "read_only_failover") {
            Some(AvailabilityValue::ReadOnlyFailover)
        } else {
            None
        }
    }
}

/// The availability ranks form a strict chain, so distinct values are
/// always comparable and never tie; and names round-trip.
pub proof fn lemma_availability_lattice(a: AvailabilityValue, b: AvailabilityValue)
    ensures
        a.spec_rank() == b.spec_rank() <==> a == b,
        a.spec_rank() <= 3,
        AvailabilityValue::Critical.spec_rank() > AvailabilityValue::ReadOnlyFailover.spec_rank(),
        AvailabilityValue::ReadOnlyFailover.spec_rank() > AvailabilityValue::MaintenanceWindow.spec_rank(),
        AvailabilityValue::MaintenanceWindow.spec_rank() > AvailabilityValue::BestEffort.spec_rank(),
        AvailabilityValue::spec_from_name(a.spec_name()) == Some(a),
{
    reveal_strlit("critical");
    reveal_strlit("best_effort");
    reveal_strlit("maintenance_window");
    reveal_strlit("read_only_failover");
    assert("critical"@.len() == 8);
    assert("best_effort"@.len() == 11);
    assert("maintenance_window"@.len() == 18);
    assert("read_only_failover"@.len() == 18);
    assert("critical"@ != "best_effort"@);
    assert("critical"@ != "maintenance_window"@);
    assert("critical"@ != "read_only_failover"@);
    assert("best_effort"@ != "maintenance_window"@);
    assert("best_effort"@ != "read_only_failover"@);
    assert("maintenance_window"@[0] == 'm' && "read_only_failover"@[0] == 'r');
    assert("maintenance_window"@ != "read_only_failover"@);
}

/// Two slot values are the same value (lists compared element-wise).
pub open spec fn slot_value_eqv(a: SlotValue, b: SlotValue) -> bool {
    match (a, b) {
        (SlotValue::Idempotency(x), SlotValue::Idempotency(y)) => idempotency_eqv(x, y),
        (SlotValue::AuthChannel(x), SlotValue::AuthChannel(y)) => x.channels@ == y.channels@ && x.set_form == y.set_form,
        (SlotValue::Retention(x), SlotValue::Retention(y)) => x == y,
        (SlotValue::RateLimit(x), SlotValue::RateLimit(y)) => x == y,
        (SlotValue::Observability(x), SlotValue::Observability(y)) => observability_eqv(x, y),
        (SlotValue::Availability(x), SlotValue::Availability(y)) => x == y,
        (SlotValue::Freshness(x), SlotValue::Freshness(y)) => x == y,
        (SlotValue::Waived { reason: r1, reason_span: s1 }, SlotValue::Waived { reason: r2, reason_span: s2 }) =>
            r1@ == r2@ && s1 == s2,
        (SlotValue::Unknown(x), SlotValue::Unknown(y)) => x == y,
        _ => false,
    }
}

pub open spec fn idempotency_eqv(a: IdempotencyValue, b: IdempotencyValue) -> bool {
    match (a, b) {
        (IdempotencyValue::Idempotent, IdempotencyValue::Idempotent) => true,
        (IdempotencyValue::IdempotentBy(x), IdempotencyValue::IdempotentBy(y)) => x@ == y@,
        (IdempotencyValue::AtMostOnce, IdempotencyValue::AtMostOnce) => true,
        (IdempotencyValue::AtLeastOnce, IdempotencyValue::AtLeastOnce) => true,
        _ => false,
    }
}

pub open spec fn observability_eqv(a: ObservabilityValue, b: ObservabilityValue) -> bool {
    match (a, b) {
        (ObservabilityValue::CallerOnly(x), ObservabilityValue::CallerOnly(y)) => x@ == y@,
        (ObservabilityValue::Target { arg: a1, events: e1 }, ObservabilityValue::Target { arg: a2, events: e2 }) =>
            a1 == a2 && e1@ == e2@,
        (ObservabilityValue::Broadcast(x), ObservabilityValue::Broadcast(y)) => x@ == y@,
        (ObservabilityValue::Silent, ObservabilityValue::Silent) => true,
        _ => false,
    }
}

/// Copies of channel lists.
pub fn clone_tags(v: &Vec<AuthChannelTag>) -> (r: Vec<AuthChannelTag>)
    ensures
        r@ == v@,
{
    let mut out: Vec<AuthChannelTag> = Vec::new();
    let mut i: usize = 0;
    while i < v.len()
        invariant
            i <= v@.len(),
            out@ == v@.subrange(0, i as int),
        decreases v@.len() - i,
    {
        out.push(v[i]);
        proof {
            assert(out@ =~= v@.subrange(0, i + 1));
        }
        i += 1;
    }
    proof {
        assert(v@.subrange(0, i as int) =~= v@);
    }
    out
}

impl SlotValue {
    /// A copy of this value.
    pub fn duplicate(&self) -> (r: SlotValue)
        ensures
            slot_value_eqv(r, *self),
    {
        match self {
            SlotValue::Idempotency(v) => SlotValue::Idempotency(match v {
                IdempotencyValue::Idempotent => IdempotencyValue::Idempotent,
                IdempotencyValue::IdempotentBy(ids) => IdempotencyValue::IdempotentBy(clone_idents(ids)),
                IdempotencyValue::AtMostOnce => IdempotencyValue::AtMostOnce,
                IdempotencyValue::AtLeastOnce => IdempotencyValue::AtLeastOnce,
            }),
            SlotValue::AuthChannel(v) => SlotValue::AuthChannel(AuthChannelValue {
                channels: clone_tags(&v.channels),
                set_form: v.set_form,
            }),
            SlotValue::Retention(v) => SlotValue::Retention(match v {
                RetentionValue::Ephemeral => RetentionValue::Ephemeral,
                RetentionValue::Transactional => RetentionValue::Transactional,
                RetentionValue::Audit { period } => RetentionValue::Audit { period: period.clone() },
                RetentionValue::Pii { class, ttl } => RetentionValue::Pii { class: *class, ttl: ttl.clone() },
                RetentionValue::Secret => RetentionValue::Secret,
            }),
            SlotValue::RateLimit(v) => SlotValue::RateLimit(match v {
                RateLimitValue::PerActor { n, period } => RateLimitValue::PerActor { n: *n, period: period.clone() },
                RateLimitValue::PerTarget { arg, n, period } =>
                    RateLimitValue::PerTarget { arg: arg.clone(), n: *n, period: period.clone() },
                RateLimitValue::Global { n, period } => RateLimitValue::Global { n: *n, period: period.clone() },
                RateLimitValue::Unlimited => RateLimitValue::Unlimited,
            }),
            SlotValue::Observability(v) => SlotValue::Observability(match v {
                ObservabilityValue::CallerOnly(ids) => ObservabilityValue::CallerOnly(clone_idents(ids)),
                ObservabilityValue::Target { arg, events } =>
                    ObservabilityValue::Target { arg: arg.clone(), events: clone_idents(events) },
                ObservabilityValue::Broadcast(ids) => ObservabilityValue::Broadcast(clone_idents(ids)),
                ObservabilityValue::Silent => ObservabilityValue::Silent,
            }),
            SlotValue::Availability(v) => SlotValue::Availability(*v),
            SlotValue::Freshness(v) => SlotValue::Freshness(match v {
                FreshnessValue::Strong => FreshnessValue::Strong,
                FreshnessValue::Bounded { epoch, n } => FreshnessValue::Bounded { epoch: epoch.clone(), n: *n },
                FreshnessValue::Eventual { epoch } => FreshnessValue::Eventual {
                    epoch: match epoch {
                        Some(e) => Some(e.clone()),
                        None => None,
                    },
                },
                FreshnessValue::StaleWhileRevalidate { epoch, n } =>
                    FreshnessValue::StaleWhileRevalidate { epoch: epoch.clone(), n: *n },
                FreshnessValue::NotApplicable => FreshnessValue::NotApplicable,
            }),
            SlotValue::Waived { reason, reason_span } =>
                SlotValue::Waived { reason: reason.clone(), reason_span: *reason_span },
            SlotValue::Unknown(id) => SlotValue::Unknown(id.clone()),
        }
    }
}

#[derive(Debug)]
pub enum FreshnessValue {
    Strong,
    /// `bounded(<epoch_name>, n=<k>)`
    Bounded { epoch: Ident, n: u64 },
    /// `eventual(<epoch_name>?)`
    Eventual { epoch: Option<Ident> },
    /// `stale_while_revalidate(<epoch_name>, n=<k>)`
    StaleWhileRevalidate { epoch: Ident, n: u64 },
    NotApplicable,
}

} // verus!
