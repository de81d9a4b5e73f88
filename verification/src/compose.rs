//! Compose block and `acknowledged { … }` obligation declarations.

use vstd::prelude::*;
use crate::expr::Expr;
use crate::ident::{Ident, QualifiedName};
use crate::span::Span;
use crate::substrate::{ChannelDecl, FairnessSpec, RealizesBlock};
use crate::text::str_eq;

verus! {

#[derive(Debug)]
pub struct ComposeBlock {
    pub name: Ident,
    pub members: Vec<Ident>,
    pub channels: Vec<ChannelDecl>,
    pub realizes: Option<RealizesBlock>,
    pub acknowledged: Option<AcknowledgedBlock>,
    pub fairness: Vec<FairnessSpec>,
    pub doc: Option<String>,
    pub span: Span,
}

#[derive(Debug)]
pub struct AcknowledgedBlock {
    pub entries: Vec<AcknowledgedEntry>,
    pub span: Span,
}

/// One acknowledgement entry; `because:` is per entry.
#[derive(Debug)]
pub struct AcknowledgedEntry {
    pub kind: ObligationKind,
    pub args: Vec<AcknowledgedArg>,
    pub resolution: Option<AcknowledgedResolution>,
    pub because: Option<String>,
    pub because_span: Option<Span>,
    pub span: Span,
}

#[derive(Debug)]
pub enum AcknowledgedArg {
    Component(QualifiedName),
    Field(Ident),
    Action(Ident),
    Other(Expr),
}

#[derive(Debug, Clone, Copy, PartialEq, Eq, Hash, Structural)]
pub enum ObligationKind {
    AvailabilityDependsOn,
    AvailabilityConsistency,
    AvailabilityChannelClass,
    TrustTransitive,
    InformationFlow,
    PiiAnon,
    WriteConflict,
    ReplayAmplification,
    RetentionPropagation,
    ActorViewLeak,
    DerivedWrite,
    FreshnessChannel,
}

impl ObligationKind {
    pub open spec fn spec_name(self) -> Seq<char> {
        match self {
            ObligationKind::AvailabilityDependsOn => "availability_depends_on"@,
            ObligationKind::AvailabilityConsistency => "availability_consistency"@,
            ObligationKind::AvailabilityChannelClass => "availability_channel_class"@,
            ObligationKind::TrustTransitive => "trust_transitive"@,
            ObligationKind::InformationFlow => "information_flow"@,
            ObligationKind::PiiAnon => "pii_anon"@,
            ObligationKind::WriteConflict => "write_conflict"@,
            ObligationKind::ReplayAmplification => "replay_amplification"@,
            ObligationKind::RetentionPropagation => "retention_propagation"@,
            ObligationKind::ActorViewLeak => "actor_view_leak"@,
            ObligationKind::DerivedWrite => "derived_write"@,
            ObligationKind::FreshnessChannel => "freshness_channel"@,
        }
    }

    pub open spec fn spec_from_name(name: Seq<char>) -> Option<ObligationKind> {
        if name == "availability_depends_on"@ {
            Some(ObligationKind::AvailabilityDependsOn)
        } else if name == "availability_consistency"@ {
            Some(ObligationKind::AvailabilityConsistency)
        } else if name == "availability_channel_class"@ {
            Some(ObligationKind::AvailabilityChannelClass)
        } else if name == "trust_transitive"@ {
            Some(ObligationKind::TrustTransitive)
        } else if name == "information_flow"@ {
            Some(ObligationKind::InformationFlow)
        } else if name == "pii_anon"@ {
            Some(ObligationKind::PiiAnon)
        } else if name == "write_conflict"@ {
            Some(ObligationKind::WriteConflict)
        } else if name == "replay_amplification"@ {
            Some(ObligationKind::ReplayAmplification)
        } else if name == "retention_propagation"@ {
            Some(ObligationKind::RetentionPropagation)
        } else if name == "actor_view_leak"@ {
            Some(ObligationKind::ActorViewLeak)
        } else if name == "derived_write"@ {
            Some(ObligationKind::DerivedWrite)
        } else if name == "freshness_channel"@ {
            Some(ObligationKind::FreshnessChannel)
        } else {
            None
        }
    }

    pub fn name(self) -> (r: &'static str)
        ensures
            r@ == self.spec_name(),
    {
        match self {
            ObligationKind::AvailabilityDependsOn => "availability_depends_on",
            ObligationKind::AvailabilityConsistency => "availability_consistency",
            ObligationKind::AvailabilityChannelClass => "availability_channel_class",
            ObligationKind::TrustTransitive => "trust_transitive",
            ObligationKind::InformationFlow => "information_flow",
            ObligationKind::PiiAnon => "pii_anon",
            ObligationKind::WriteConflict => "write_conflict",
            ObligationKind::ReplayAmplification => "replay_amplification",
            ObligationKind::RetentionPropagation => "retention_propagation",
            ObligationKind::ActorViewLeak => "actor_view_leak",
            ObligationKind::DerivedWrite => "derived_write",
            ObligationKind::FreshnessChannel => "freshness_channel",
        }
    }

    pub fn from_name(name: &str) -> (r: Option<ObligationKind>)
        ensures
            r == Self::spec_from_name(name@),
    {
        if str_eq(name, "availability_depends_on") {
            Some(ObligationKind::AvailabilityDependsOn)
        } else if str_eq(name, "availability_consistency") {
            Some(ObligationKind::AvailabilityConsistency)
        } else if str_eq(name, "availability_channel_class") {
            Some(ObligationKind::AvailabilityChannelClass)
        } else if str_eq(name, "trust_transitive") {
            Some(ObligationKind::TrustTransitive)
        } else if str_eq(name, "information_flow") {
            Some(ObligationKind::InformationFlow)
        } else if str_eq(name, "pii_anon") {
            Some(ObligationKind::PiiAnon)
        } else if str_eq(name, "write_conflict") {
            Some(ObligationKind::WriteConflict)
        } else if str_eq(name, "replay_amplification") {
            Some(ObligationKind::ReplayAmplification)
        } else if str_eq(name, "retention_propagation") {
            Some(ObligationKind::RetentionPropagation)
        } else if str_eq(name, "actor_view_leak") {
            Some(ObligationKind::ActorViewLeak)
        } else if str_eq(name, "derived_write") {
            Some(ObligationKind::DerivedWrite)
        } else if str_eq(name, "freshness_channel") {
            Some(ObligationKind::FreshnessChannel)
        } else {
            None
        }
    }
}

/// Parsing an obligation kind's name gives the kind back.
pub proof fn lemma_obligation_kind_name_round_trip(k: ObligationKind)
    ensures
        ObligationKind::spec_from_name(k.spec_name()) == Some(k),
{
    reveal_strlit("availability_depends_on");
    reveal_strlit("availability_consistency");
    reveal_strlit("availability_channel_class");
    reveal_strlit("trust_transitive");
    reveal_strlit("information_flow");
    reveal_strlit("pii_anon");
    reveal_strlit("write_conflict");
    reveal_strlit("replay_amplification");
    reveal_strlit("retention_propagation");
    reveal_strlit("actor_view_leak");
    reveal_strlit("derived_write");
    reveal_strlit("freshness_channel");
    assert("availability_depends_on"@.len() == 23);
    assert("availability_consistency"@.len() == 24);
    assert("availability_channel_class"@.len() == 26);
    assert("trust_transitive"@.len() == 16);
    assert("information_flow"@.len() == 16);
    assert("pii_anon"@.len() == 8);
    assert("write_conflict"@.len() == 14);
    assert("replay_amplification"@.len() == 20);
    assert("retention_propagation"@.len() == 21);
    assert("actor_view_leak"@.len() == 15);
    assert("derived_write"@.len() == 13);
    assert("freshness_channel"@.len() == 17);
    assert("availability_depends_on"@ != "availability_consistency"@);
    assert("availability_depends_on"@ != "availability_channel_class"@);
    assert("availability_depends_on"@ != "trust_transitive"@);
    assert("availability_depends_on"@ != "information_flow"@);
    assert("availability_depends_on"@ != "pii_anon"@);
    assert("availability_depends_on"@ != "write_conflict"@);
    assert("availability_depends_on"@ != "replay_amplification"@);
    assert("availability_depends_on"@ != "retention_propagation"@);
    assert("availability_depends_on"@ != "actor_view_leak"@);
    assert("availability_depends_on"@ != "derived_write"@);
    assert("availability_depends_on"@ != "freshness_channel"@);
    assert("availability_consistency"@ != "availability_channel_class"@);
    assert("availability_consistency"@ != "trust_transitive"@);
    assert("availability_consistency"@ != "information_flow"@);
    assert("availability_consistency"@ != "pii_anon"@);
    assert("availability_consistency"@ != "write_conflict"@);
    assert("availability_consistency"@ != "replay_amplification"@);
    assert("availability_consistency"@ != "retention_propagation"@);
    assert("availability_consistency"@ != "actor_view_leak"@);
    assert("availability_consistency"@ != "derived_write"@);
    assert("availability_consistency"@ != "freshness_channel"@);
    assert("availability_channel_class"@ != "trust_transitive"@);
    assert("availability_channel_class"@ != "information_flow"@);
    assert("availability_channel_class"@ != "pii_anon"@);
    assert("availability_channel_class"@ != "write_conflict"@);
    assert("availability_channel_class"@ != "replay_amplification"@);
    assert("availability_channel_class"@ != "retention_propagation"@);
    assert("availability_channel_class"@ != "actor_view_leak"@);
    assert("availability_channel_class"@ != "derived_write"@);
    assert("availability_channel_class"@ != "freshness_channel"@);
    assert("trust_transitive"@[0] == 't' && "information_flow"@[0] == 'i');
    assert("trust_transitive"@ != "information_flow"@);
    assert("trust_transitive"@ != "pii_anon"@);
    assert("trust_transitive"@ != "write_conflict"@);
    assert("trust_transitive"@ != "replay_amplification"@);
    assert("trust_transitive"@ != "retention_propagation"@);
    assert("trust_transitive"@ != "actor_view_leak"@);
    assert("trust_transitive"@ != "derived_write"@);
    assert("trust_transitive"@ != "freshness_channel"@);
    assert("information_flow"@ != "pii_anon"@);
    assert("information_flow"@ != "write_conflict"@);
    assert("information_flow"@ != "replay_amplification"@);
    assert("information_flow"@ != "retention_propagation"@);
    assert("information_flow"@ != "actor_view_leak"@);
    assert("information_flow"@ != "derived_write"@);
    assert("information_flow"@ != "freshness_channel"@);
    assert("pii_anon"@ != "write_conflict"@);
    assert("pii_anon"@ != "replay_amplification"@);
    assert("pii_anon"@ != "retention_propagation"@);
    assert("pii_anon"@ != "actor_view_leak"@);
    assert("pii_anon"@ != "derived_write"@);
    assert("pii_anon"@ != "freshness_channel"@);
    assert("write_conflict"@ != "replay_amplification"@);
    assert("write_conflict"@ != "retention_propagation"@);
    assert("write_conflict"@ != "actor_view_leak"@);
    assert("write_conflict"@ != "derived_write"@);
    assert("write_conflict"@ != "freshness_channel"@);
    assert("replay_amplification"@ != "retention_propagation"@);
    assert("replay_amplification"@ != "actor_view_leak"@);
    assert("replay_amplification"@ != "derived_write"@);
    assert("replay_amplification"@ != "freshness_channel"@);
    assert("retention_propagation"@ != "actor_view_leak"@);
    assert("retention_propagation"@ != "derived_write"@);
    assert("retention_propagation"@ != "freshness_channel"@);
    assert("actor_view_leak"@ != "derived_write"@);
    assert("actor_view_leak"@ != "freshness_channel"@);
    assert("derived_write"@ != "freshness_channel"@);
}

#[derive(Debug)]
pub enum AcknowledgedResolution {
    /// `write_conflict` resolutions
    WriteConflict(WriteConflictResolution),
    /// `replay_amplification` resolutions
    Idempotent,
    DedupeKey(Vec<Ident>),
    IdempotentViaState,
    /// Generic: bare identifier (e.g. `serialized_by(...)`).
    Other(Ident, Vec<Expr>),
}

#[derive(Debug)]
pub enum WriteConflictResolution {
    SerializedBy(QualifiedName),
    LastWriterWins,
    Crdt(Ident),
    ForbiddenConcurrent,
}

} // verus!
