//! Stable diagnostic codes.
//!
//! Every error and warning surfacide can emit has a code here. The
//! codes are part of the public command-line surface, so adding,
//! renaming or removing one is a breaking change.

use vstd::prelude::*;

verus! {

#[derive(Debug, Clone, Copy, PartialEq, Eq, Hash, Structural)]
pub enum Code {
    Error(ErrorKind),
    Warning(WarningKind),
}

impl Code {
    pub open spec fn spec_as_str(self) -> Seq<char> {
        match self {
            Code::Error(e) => e.spec_as_str(),
            Code::Warning(w) => w.spec_as_str(),
        }
    }

    pub fn as_str(self) -> (r: &'static str)
        ensures
            r@ == self.spec_as_str(),
    {
        match self {
            Code::Error(e) => e.as_str(),
            Code::Warning(w) => w.as_str(),
        }
    }
}

/// Error codes. All start with `E_`.
#[derive(Debug, Clone, Copy, PartialEq, Eq, Hash, Structural)]
pub enum ErrorKind {
    // Parsing
    ParseError,
    // Name resolution
    NameNotFound,
    NameAmbiguous,
    PrivateModuleAccess,
    // Slot pass
    SurfaceSlotMissing,
    SurfaceSlotUnknownValue,
    SurfaceSlotOrder,
    SurfaceSlotWaiverEmpty,
    SlotPrecedenceAmbiguous,
    // Derived state
    DerivedAssign,
    DerivedNoProjection,
    // Retention / secret flow
    SecretFlow,
    // Freshness
    FreshnessUndeclaredEpoch,
    // Actor-relative observables
    ActorViewLeak,
    // Acknowledged-obligation pass
    AckDisagreement,
    ObligationUnhandled,
    // Module
    DuplicateSurfaceBlock,
    DuplicateActionName,
    // Internal errors (should not happen but reportable)
    Internal,
}

impl ErrorKind {
    pub open spec fn spec_as_str(self) -> Seq<char> {
        match self {
            ErrorKind::ParseError => "E_PARSE"@,
            ErrorKind::NameNotFound => "E_NAME_NOT_FOUND"@,
            ErrorKind::NameAmbiguous => "E_NAME_AMBIGUOUS"@,
            ErrorKind::PrivateModuleAccess => "E_PRIVATE_MODULE_ACCESS"@,
            ErrorKind::SurfaceSlotMissing => "E_SURFACE_SLOT_MISSING"@,
            ErrorKind::SurfaceSlotUnknownValue => "E_SURFACE_SLOT_UNKNOWN_VALUE"@,
            ErrorKind::SurfaceSlotOrder => "E_SURFACE_SLOT_ORDER"@,
            ErrorKind::SurfaceSlotWaiverEmpty => "E_SURFACE_SLOT_WAIVER_EMPTY"@,
            ErrorKind::SlotPrecedenceAmbiguous => "E_SLOT_PRECEDENCE_AMBIGUOUS"@,
            ErrorKind::DerivedAssign => "E_DERIVED_ASSIGN"@,
            ErrorKind::DerivedNoProjection => "E_DERIVED_NO_PROJECTION"@,
            ErrorKind::SecretFlow => "E_SECRET_FLOW"@,
            ErrorKind::FreshnessUndeclaredEpoch => "E_FRESHNESS_UNDECLARED_EPOCH"@,
            ErrorKind::ActorViewLeak => "E_ACTOR_VIEW_LEAK"@,
            ErrorKind::AckDisagreement => "E_ACK_DISAGREEMENT"@,
            ErrorKind::ObligationUnhandled => "E_OBLIGATION_UNHANDLED"@,
            ErrorKind::DuplicateSurfaceBlock => "E_DUPLICATE_SURFACE_BLOCK"@,
            ErrorKind::DuplicateActionName => "E_DUPLICATE_ACTION_NAME"@,
            ErrorKind::Internal => "E_INTERNAL"@,
        }
    }

    pub fn as_str(self) -> (r: &'static str)
        ensures
            r@ == self.spec_as_str(),
    {
        match self {
            ErrorKind::ParseError => "E_PARSE",
            ErrorKind::NameNotFound => "E_NAME_NOT_FOUND",
            ErrorKind::NameAmbiguous => "E_NAME_AMBIGUOUS",
            ErrorKind::PrivateModuleAccess => "E_PRIVATE_MODULE_ACCESS",
            ErrorKind::SurfaceSlotMissing => "E_SURFACE_SLOT_MISSING",
            ErrorKind::SurfaceSlotUnknownValue => "E_SURFACE_SLOT_UNKNOWN_VALUE",
            ErrorKind::SurfaceSlotOrder => "E_SURFACE_SLOT_ORDER",
            ErrorKind::SurfaceSlotWaiverEmpty => "E_SURFACE_SLOT_WAIVER_EMPTY",
            ErrorKind::SlotPrecedenceAmbiguous => "E_SLOT_PRECEDENCE_AMBIGUOUS",
            ErrorKind::DerivedAssign => "E_DERIVED_ASSIGN",
            ErrorKind::DerivedNoProjection => "E_DERIVED_NO_PROJECTION",
            ErrorKind::SecretFlow => "E_SECRET_FLOW",
            ErrorKind::FreshnessUndeclaredEpoch => "E_FRESHNESS_UNDECLARED_EPOCH",
            ErrorKind::ActorViewLeak => "E_ACTOR_VIEW_LEAK",
            ErrorKind::AckDisagreement => "E_ACK_DISAGREEMENT",
            ErrorKind::ObligationUnhandled => "E_OBLIGATION_UNHANDLED",
            ErrorKind::DuplicateSurfaceBlock => "E_DUPLICATE_SURFACE_BLOCK",
            ErrorKind::DuplicateActionName => "E_DUPLICATE_ACTION_NAME",
            ErrorKind::Internal => "E_INTERNAL",
        }
    }
}

/// Warning codes. All start with `W_`.
#[derive(Debug, Clone, Copy, PartialEq, Eq, Hash, Structural)]
pub enum WarningKind {
    /// Proactive acknowledgement with no rule behind it.
    AckNoRule,
    /// Branch-coverage warning for unlabelled multi-disjunct guards.
    BranchUnlabelled,
    /// `eventually` without backing fairness.
    LivenessNoFairness,
    /// R-AVAIL-CHANNEL / R-AVAIL-READ medium.
    AvailabilityClosureWeaker,
    /// R-TRUST-PARAM-AUTH (high, emitted as warning by default).
    TrustParamAuth,
    /// R-FRESHNESS-CHANNEL (high, emitted as warning by default).
    FreshnessChannel,
    /// R-WRITE-CONFLICT (high, emitted as warning by default).
    WriteConflict,
}

impl WarningKind {
    pub open spec fn spec_as_str(self) -> Seq<char> {
        match self {
            WarningKind::AckNoRule => "W_ACK_NO_RULE"@,
            WarningKind::BranchUnlabelled => "W_BRANCH_UNLABELLED"@,
            WarningKind::LivenessNoFairness => "W_LIVENESS_NO_FAIRNESS"@,
            WarningKind::AvailabilityClosureWeaker => "W_AVAILABILITY_CLOSURE_WEAKER"@,
            WarningKind::TrustParamAuth => "W_TRUST_PARAM_AUTH"@,
            WarningKind::FreshnessChannel => "W_FRESHNESS_CHANNEL"@,
            WarningKind::WriteConflict => "W_WRITE_CONFLICT"@,
        }
    }

    pub fn as_str(self) -> (r: &'static str)
        ensures
            r@ == self.spec_as_str(),
    {
        match self {
            WarningKind::AckNoRule => "W_ACK_NO_RULE",
            WarningKind::BranchUnlabelled => "W_BRANCH_UNLABELLED",
            WarningKind::LivenessNoFairness => "W_LIVENESS_NO_FAIRNESS",
            WarningKind::AvailabilityClosureWeaker => "W_AVAILABILITY_CLOSURE_WEAKER",
            WarningKind::TrustParamAuth => "W_TRUST_PARAM_AUTH",
            WarningKind::FreshnessChannel => "W_FRESHNESS_CHANNEL",
            WarningKind::WriteConflict => "W_WRITE_CONFLICT",
        }
    }
}

/// Error codes start with `E_`, warning codes with `W_`, and no two
/// codes share a spelling.
pub proof fn lemma_codes_prefixed_and_distinct(a: Code, b: Code)
    ensures
        a.spec_as_str().len() >= 2,
        a.spec_as_str()[1] == '_',
        a is Error ==> a.spec_as_str()[0] == 'E',
        a is Warning ==> a.spec_as_str()[0] == 'W',
        a.spec_as_str() == b.spec_as_str() ==> a == b,
{
    reveal_strlit("E_PARSE");
    reveal_strlit("E_NAME_NOT_FOUND");
    reveal_strlit("E_NAME_AMBIGUOUS");
    reveal_strlit("E_PRIVATE_MODULE_ACCESS");
    reveal_strlit("E_SURFACE_SLOT_MISSING");
    reveal_strlit("E_SURFACE_SLOT_UNKNOWN_VALUE");
    reveal_strlit("E_SURFACE_SLOT_ORDER");
    reveal_strlit("E_SURFACE_SLOT_WAIVER_EMPTY");
    reveal_strlit("E_SLOT_PRECEDENCE_AMBIGUOUS");
    reveal_strlit("E_DERIVED_ASSIGN");
    reveal_strlit("E_DERIVED_NO_PROJECTION");
    reveal_strlit("E_SECRET_FLOW");
    reveal_strlit("E_FRESHNESS_UNDECLARED_EPOCH");
    reveal_strlit("E_ACTOR_VIEW_LEAK");
    reveal_strlit("E_ACK_DISAGREEMENT");
    reveal_strlit("E_OBLIGATION_UNHANDLED");
    reveal_strlit("E_DUPLICATE_SURFACE_BLOCK");
    reveal_strlit("E_DUPLICATE_ACTION_NAME");
    reveal_strlit("E_INTERNAL");
    reveal_strlit("W_ACK_NO_RULE");
    reveal_strlit("W_BRANCH_UNLABELLED");
    reveal_strlit("W_LIVENESS_NO_FAIRNESS");
    reveal_strlit("W_AVAILABILITY_CLOSURE_WEAKER");
    reveal_strlit("W_TRUST_PARAM_AUTH");
    reveal_strlit("W_FRESHNESS_CHANNEL");
    reveal_strlit("W_WRITE_CONFLICT");
    assert("E_PARSE"@.len() == 7);
    assert("E_NAME_NOT_FOUND"@.len() == 16);
    assert("E_NAME_AMBIGUOUS"@.len() == 16);
    assert("E_PRIVATE_MODULE_ACCESS"@.len() == 23);
    assert("E_SURFACE_SLOT_MISSING"@.len() == 22);
    assert("E_SURFACE_SLOT_UNKNOWN_VALUE"@.len() == 28);
    assert("E_SURFACE_SLOT_ORDER"@.len() == 20);
    assert("E_SURFACE_SLOT_WAIVER_EMPTY"@.len() == 27);
    assert("E_SLOT_PRECEDENCE_AMBIGUOUS"@.len() == 27);
    assert("E_DERIVED_ASSIGN"@.len() == 16);
    assert("E_DERIVED_NO_PROJECTION"@.len() == 23);
    assert("E_SECRET_FLOW"@.len() == 13);
    assert("E_FRESHNESS_UNDECLARED_EPOCH"@.len() == 28);
    assert("E_ACTOR_VIEW_LEAK"@.len() == 17);
    assert("E_ACK_DISAGREEMENT"@.len() == 18);
    assert("E_OBLIGATION_UNHANDLED"@.len() == 22);
    assert("E_DUPLICATE_SURFACE_BLOCK"@.len() == 25);
    assert("E_DUPLICATE_ACTION_NAME"@.len() == 23);
    assert("E_INTERNAL"@.len() == 10);
    assert("W_ACK_NO_RULE"@.len() == 13);
    assert("W_BRANCH_UNLABELLED"@.len() == 19);
    assert("W_LIVENESS_NO_FAIRNESS"@.len() == 22);
    assert("W_AVAILABILITY_CLOSURE_WEAKER"@.len() == 29);
    assert("W_TRUST_PARAM_AUTH"@.len() == 18);
    assert("W_FRESHNESS_CHANNEL"@.len() == 19);
    assert("W_WRITE_CONFLICT"@.len() == 16);
    assert("E_PARSE"@ != "E_NAME_NOT_FOUND"@);
    assert("E_PARSE"@ != "E_NAME_AMBIGUOUS"@);
    assert("E_PARSE"@ != "E_PRIVATE_MODULE_ACCESS"@);
    assert("E_PARSE"@ != "E_SURFACE_SLOT_MISSING"@);
    assert("E_PARSE"@ != "E_SURFACE_SLOT_UNKNOWN_VALUE"@);
    assert("E_PARSE"@ != "E_SURFACE_SLOT_ORDER"@);
    assert("E_PARSE"@ != "E_SURFACE_SLOT_WAIVER_EMPTY"@);
    assert("E_PARSE"@ != "E_SLOT_PRECEDENCE_AMBIGUOUS"@);
    assert("E_PARSE"@ != "E_DERIVED_ASSIGN"@);
    assert("E_PARSE"@ != "E_DERIVED_NO_PROJECTION"@);
    assert("E_PARSE"@ != "E_SECRET_FLOW"@);
    assert("E_PARSE"@ != "E_FRESHNESS_UNDECLARED_EPOCH"@);
    assert("E_PARSE"@ != "E_ACTOR_VIEW_LEAK"@);
    assert("E_PARSE"@ != "E_ACK_DISAGREEMENT"@);
    assert("E_PARSE"@ != "E_OBLIGATION_UNHANDLED"@);
    assert("E_PARSE"@ != "E_DUPLICATE_SURFACE_BLOCK"@);
    assert("E_PARSE"@ != "E_DUPLICATE_ACTION_NAME"@);
    assert("E_PARSE"@ != "E_INTERNAL"@);
    assert("E_PARSE"@ != "W_ACK_NO_RULE"@);
    assert("E_PARSE"@ != "W_BRANCH_UNLABELLED"@);
    assert("E_PARSE"@ != "W_LIVENESS_NO_FAIRNESS"@);
    assert("E_PARSE"@ != "W_AVAILABILITY_CLOSURE_WEAKER"@);
    assert("E_PARSE"@ != "W_TRUST_PARAM_AUTH"@);
    assert("E_PARSE"@ != "W_FRESHNESS_CHANNEL"@);
    assert("E_PARSE"@ != "W_WRITE_CONFLICT"@);
    assert("E_NAME_NOT_FOUND"@[7] == 'N' && "E_NAME_AMBIGUOUS"@[7] == 'A');
    assert("E_NAME_NOT_FOUND"@ != "E_NAME_AMBIGUOUS"@);
    assert("E_NAME_NOT_FOUND"@ != "E_PRIVATE_MODULE_ACCESS"@);
    assert("E_NAME_NOT_FOUND"@ != "E_SURFACE_SLOT_MISSING"@);
    assert("E_NAME_NOT_FOUND"@ != "E_SURFACE_SLOT_UNKNOWN_VALUE"@);
    assert("E_NAME_NOT_FOUND"@ != "E_SURFACE_SLOT_ORDER"@);
    assert("E_NAME_NOT_FOUND"@ != "E_SURFACE_SLOT_WAIVER_EMPTY"@);
    assert("E_NAME_NOT_FOUND"@ != "E_SLOT_PRECEDENCE_AMBIGUOUS"@);
    assert("E_NAME_NOT_FOUND"@[2] == 'N' && "E_DERIVED_ASSIGN"@[2] == 'D');
    assert("E_NAME_NOT_FOUND"@ != "E_DERIVED_ASSIGN"@);
    assert("E_NAME_NOT_FOUND"@ != "E_DERIVED_NO_PROJECTION"@);
    assert("E_NAME_NOT_FOUND"@ != "E_SECRET_FLOW"@);
    assert("E_NAME_NOT_FOUND"@ != "E_FRESHNESS_UNDECLARED_EPOCH"@);
    assert("E_NAME_NOT_FOUND"@ != "E_ACTOR_VIEW_LEAK"@);
    assert("E_NAME_NOT_FOUND"@ != "E_ACK_DISAGREEMENT"@);
    assert("E_NAME_NOT_FOUND"@ != "E_OBLIGATION_UNHANDLED"@);
    assert("E_NAME_NOT_FOUND"@ != "E_DUPLICATE_SURFACE_BLOCK"@);
    assert("E_NAME_NOT_FOUND"@ != "E_DUPLICATE_ACTION_NAME"@);
    assert("E_NAME_NOT_FOUND"@ != "E_INTERNAL"@);
    assert("E_NAME_NOT_FOUND"@ != "W_ACK_NO_RULE"@);
    assert("E_NAME_NOT_FOUND"@ != "W_BRANCH_UNLABELLED"@);
    assert("E_NAME_NOT_FOUND"@ != "W_LIVENESS_NO_FAIRNESS"@);
    assert("E_NAME_NOT_FOUND"@ != "W_AVAILABILITY_CLOSURE_WEAKER"@);
    assert("E_NAME_NOT_FOUND"@ != "W_TRUST_PARAM_AUTH"@);
    assert("E_NAME_NOT_FOUND"@ != "W_FRESHNESS_CHANNEL"@);
    assert("E_NAME_NOT_FOUND"@[0] == 'E' && "W_WRITE_CONFLICT"@[0] == 'W');
    assert("E_NAME_NOT_FOUND"@ != "W_WRITE_CONFLICT"@);
    assert("E_NAME_AMBIGUOUS"@ != "E_PRIVATE_MODULE_ACCESS"@);
    assert("E_NAME_AMBIGUOUS"@ != "E_SURFACE_SLOT_MISSING"@);
    assert("E_NAME_AMBIGUOUS"@ != "E_SURFACE_SLOT_UNKNOWN_VALUE"@);
    assert("E_NAME_AMBIGUOUS"@ != "E_SURFACE_SLOT_ORDER"@);
    assert("E_NAME_AMBIGUOUS"@ != "E_SURFACE_SLOT_WAIVER_EMPTY"@);
    assert("E_NAME_AMBIGUOUS"@ != "E_SLOT_PRECEDENCE_AMBIGUOUS"@);
    assert("E_NAME_AMBIGUOUS"@[2] == 'N' && "E_DERIVED_ASSIGN"@[2] == 'D');
    assert("E_NAME_AMBIGUOUS"@ != "E_DERIVED_ASSIGN"@);
    assert("E_NAME_AMBIGUOUS"@ != "E_DERIVED_NO_PROJECTION"@);
    assert("E_NAME_AMBIGUOUS"@ != "E_SECRET_FLOW"@);
    assert("E_NAME_AMBIGUOUS"@ != "E_FRESHNESS_UNDECLARED_EPOCH"@);
    assert("E_NAME_AMBIGUOUS"@ != "E_ACTOR_VIEW_LEAK"@);
    assert("E_NAME_AMBIGUOUS"@ != "E_ACK_DISAGREEMENT"@);
    assert("E_NAME_AMBIGUOUS"@ != "E_OBLIGATION_UNHANDLED"@);
    assert("E_NAME_AMBIGUOUS"@ != "E_DUPLICATE_SURFACE_BLOCK"@);
    assert("E_NAME_AMBIGUOUS"@ != "E_DUPLICATE_ACTION_NAME"@);
    assert("E_NAME_AMBIGUOUS"@ != "E_INTERNAL"@);
    assert("E_NAME_AMBIGUOUS"@ != "W_ACK_NO_RULE"@);
    assert("E_NAME_AMBIGUOUS"@ != "W_BRANCH_UNLABELLED"@);
    assert("E_NAME_AMBIGUOUS"@ != "W_LIVENESS_NO_FAIRNESS"@);
    assert("E_NAME_AMBIGUOUS"@ != "W_AVAILABILITY_CLOSURE_WEAKER"@);
    assert("E_NAME_AMBIGUOUS"@ != "W_TRUST_PARAM_AUTH"@);
    assert("E_NAME_AMBIGUOUS"@ != "W_FRESHNESS_CHANNEL"@);
    assert("E_NAME_AMBIGUOUS"@[0] == 'E' && "W_WRITE_CONFLICT"@[0] == 'W');
    assert("E_NAME_AMBIGUOUS"@ != "W_WRITE_CONFLICT"@);
    assert("E_PRIVATE_MODULE_ACCESS"@ != "E_SURFACE_SLOT_MISSING"@);
    assert("E_PRIVATE_MODULE_ACCESS"@ != "E_SURFACE_SLOT_UNKNOWN_VALUE"@);
    assert("E_PRIVATE_MODULE_ACCESS"@ != "E_SURFACE_SLOT_ORDER"@);
    assert("E_PRIVATE_MODULE_ACCESS"@ != "E_SURFACE_SLOT_WAIVER_EMPTY"@);
    assert("E_PRIVATE_MODULE_ACCESS"@ != "E_SLOT_PRECEDENCE_AMBIGUOUS"@);
    assert("E_PRIVATE_MODULE_ACCESS"@ != "E_DERIVED_ASSIGN"@);
    assert("E_PRIVATE_MODULE_ACCESS"@[2] == 'P' && "E_DERIVED_NO_PROJECTION"@[2] == 'D');
    assert("E_PRIVATE_MODULE_ACCESS"@ != "E_DERIVED_NO_PROJECTION"@);
    assert("E_PRIVATE_MODULE_ACCESS"@ != "E_SECRET_FLOW"@);
    assert("E_PRIVATE_MODULE_ACCESS"@ != "E_FRESHNESS_UNDECLARED_EPOCH"@);
    assert("E_PRIVATE_MODULE_ACCESS"@ != "E_ACTOR_VIEW_LEAK"@);
    assert("E_PRIVATE_MODULE_ACCESS"@ != "E_ACK_DISAGREEMENT"@);
    assert("E_PRIVATE_MODULE_ACCESS"@ != "E_OBLIGATION_UNHANDLED"@);
    assert("E_PRIVATE_MODULE_ACCESS"@ != "E_DUPLICATE_SURFACE_BLOCK"@);
    assert("E_PRIVATE_MODULE_ACCESS"@[2] == 'P' && "E_DUPLICATE_ACTION_NAME"@[2] == 'D');
    assert("E_PRIVATE_MODULE_ACCESS"@ != "E_DUPLICATE_ACTION_NAME"@);
    assert("E_PRIVATE_MODULE_ACCESS"@ != "E_INTERNAL"@);
    assert("E_PRIVATE_MODULE_ACCESS"@ != "W_ACK_NO_RULE"@);
    assert("E_PRIVATE_MODULE_ACCESS"@ != "W_BRANCH_UNLABELLED"@);
    assert("E_PRIVATE_MODULE_ACCESS"@ != "W_LIVENESS_NO_FAIRNESS"@);
    assert("E_PRIVATE_MODULE_ACCESS"@ != "W_AVAILABILITY_CLOSURE_WEAKER"@);
    assert("E_PRIVATE_MODULE_ACCESS"@ != "W_TRUST_PARAM_AUTH"@);
    assert("E_PRIVATE_MODULE_ACCESS"@ != "W_FRESHNESS_CHANNEL"@);
    assert("E_PRIVATE_MODULE_ACCESS"@ != "W_WRITE_CONFLICT"@);
    assert("E_SURFACE_SLOT_MISSING"@ != "E_SURFACE_SLOT_UNKNOWN_VALUE"@);
    assert("E_SURFACE_SLOT_MISSING"@ != "E_SURFACE_SLOT_ORDER"@);
    assert("E_SURFACE_SLOT_MISSING"@ != "E_SURFACE_SLOT_WAIVER_EMPTY"@);
    assert("E_SURFACE_SLOT_MISSING"@ != "E_SLOT_PRECEDENCE_AMBIGUOUS"@);
    assert("E_SURFACE_SLOT_MISSING"@ != "E_DERIVED_ASSIGN"@);
    assert("E_SURFACE_SLOT_MISSING"@ != "E_DERIVED_NO_PROJECTION"@);
    assert("E_SURFACE_SLOT_MISSING"@ != "E_SECRET_FLOW"@);
    assert("E_SURFACE_SLOT_MISSING"@ != "E_FRESHNESS_UNDECLARED_EPOCH"@);
    assert("E_SURFACE_SLOT_MISSING"@ != "E_ACTOR_VIEW_LEAK"@);
    assert("E_SURFACE_SLOT_MISSING"@ != "E_ACK_DISAGREEMENT"@);
    assert("E_SURFACE_SLOT_MISSING"@[2] == 'S' && "E_OBLIGATION_UNHANDLED"@[2] == 'O');
    assert("E_SURFACE_SLOT_MISSING"@ != "E_OBLIGATION_UNHANDLED"@);
    assert("E_SURFACE_SLOT_MISSING"@ != "E_DUPLICATE_SURFACE_BLOCK"@);
    assert("E_SURFACE_SLOT_MISSING"@ != "E_DUPLICATE_ACTION_NAME"@);
    assert("E_SURFACE_SLOT_MISSING"@ != "E_INTERNAL"@);
    assert("E_SURFACE_SLOT_MISSING"@ != "W_ACK_NO_RULE"@);
    assert("E_SURFACE_SLOT_MISSING"@ != "W_BRANCH_UNLABELLED"@);
    assert("E_SURFACE_SLOT_MISSING"@[0] == 'E' && "W_LIVENESS_NO_FAIRNESS"@[0] == 'W');
    assert("E_SURFACE_SLOT_MISSING"@ != "W_LIVENESS_NO_FAIRNESS"@);
    assert("E_SURFACE_SLOT_MISSING"@ != "W_AVAILABILITY_CLOSURE_WEAKER"@);
    assert("E_SURFACE_SLOT_MISSING"@ != "W_TRUST_PARAM_AUTH"@);
    assert("E_SURFACE_SLOT_MISSING"@ != "W_FRESHNESS_CHANNEL"@);
    assert("E_SURFACE_SLOT_MISSING"@ != "W_WRITE_CONFLICT"@);
    assert("E_SURFACE_SLOT_UNKNOWN_VALUE"@ != "E_SURFACE_SLOT_ORDER"@);
    assert("E_SURFACE_SLOT_UNKNOWN_VALUE"@ != "E_SURFACE_SLOT_WAIVER_EMPTY"@);
    assert("E_SURFACE_SLOT_UNKNOWN_VALUE"@ != "E_SLOT_PRECEDENCE_AMBIGUOUS"@);
    assert("E_SURFACE_SLOT_UNKNOWN_VALUE"@ != "E_DERIVED_ASSIGN"@);
    assert("E_SURFACE_SLOT_UNKNOWN_VALUE"@ != "E_DERIVED_NO_PROJECTION"@);
    assert("E_SURFACE_SLOT_UNKNOWN_VALUE"@ != "E_SECRET_FLOW"@);
    assert("E_SURFACE_SLOT_UNKNOWN_VALUE"@[2] == 'S' && "E_FRESHNESS_UNDECLARED_EPOCH"@[2] == 'F');
    assert("E_SURFACE_SLOT_UNKNOWN_VALUE"@ != "E_FRESHNESS_UNDECLARED_EPOCH"@);
    assert("E_SURFACE_SLOT_UNKNOWN_VALUE"@ != "E_ACTOR_VIEW_LEAK"@);
    assert("E_SURFACE_SLOT_UNKNOWN_VALUE"@ != "E_ACK_DISAGREEMENT"@);
    assert("E_SURFACE_SLOT_UNKNOWN_VALUE"@ != "E_OBLIGATION_UNHANDLED"@);
    assert("E_SURFACE_SLOT_UNKNOWN_VALUE"@ != "E_DUPLICATE_SURFACE_BLOCK"@);
    assert("E_SURFACE_SLOT_UNKNOWN_VALUE"@ != "E_DUPLICATE_ACTION_NAME"@);
    assert("E_SURFACE_SLOT_UNKNOWN_VALUE"@ != "E_INTERNAL"@);
    assert("E_SURFACE_SLOT_UNKNOWN_VALUE"@ != "W_ACK_NO_RULE"@);
    assert("E_SURFACE_SLOT_UNKNOWN_VALUE"@ != "W_BRANCH_UNLABELLED"@);
    assert("E_SURFACE_SLOT_UNKNOWN_VALUE"@ != "W_LIVENESS_NO_FAIRNESS"@);
    assert("E_SURFACE_SLOT_UNKNOWN_VALUE"@ != "W_AVAILABILITY_CLOSURE_WEAKER"@);
    assert("E_SURFACE_SLOT_UNKNOWN_VALUE"@ != "W_TRUST_PARAM_AUTH"@);
    assert("E_SURFACE_SLOT_UNKNOWN_VALUE"@ != "W_FRESHNESS_CHANNEL"@);
    assert("E_SURFACE_SLOT_UNKNOWN_VALUE"@ != "W_WRITE_CONFLICT"@);
    assert("E_SURFACE_SLOT_ORDER"@ != "E_SURFACE_SLOT_WAIVER_EMPTY"@);
    assert("E_SURFACE_SLOT_ORDER"@ != "E_SLOT_PRECEDENCE_AMBIGUOUS"@);
    assert("E_SURFACE_SLOT_ORDER"@ != "E_DERIVED_ASSIGN"@);
    assert("E_SURFACE_SLOT_ORDER"@ != "E_DERIVED_NO_PROJECTION"@);
    assert("E_SURFACE_SLOT_ORDER"@ != "E_SECRET_FLOW"@);
    assert("E_SURFACE_SLOT_ORDER"@ != "E_FRESHNESS_UNDECLARED_EPOCH"@);
    assert("E_SURFACE_SLOT_ORDER"@ != "E_ACTOR_VIEW_LEAK"@);
    assert("E_SURFACE_SLOT_ORDER"@ != "E_ACK_DISAGREEMENT"@);
    assert("E_SURFACE_SLOT_ORDER"@ != "E_OBLIGATION_UNHANDLED"@);
    assert("E_SURFACE_SLOT_ORDER"@ != "E_DUPLICATE_SURFACE_BLOCK"@);
    assert("E_SURFACE_SLOT_ORDER"@ != "E_DUPLICATE_ACTION_NAME"@);
    assert("E_SURFACE_SLOT_ORDER"@ != "E_INTERNAL"@);
    assert("E_SURFACE_SLOT_ORDER"@ != "W_ACK_NO_RULE"@);
    assert("E_SURFACE_SLOT_ORDER"@ != "W_BRANCH_UNLABELLED"@);
    assert("E_SURFACE_SLOT_ORDER"@ != "W_LIVENESS_NO_FAIRNESS"@);
    assert("E_SURFACE_SLOT_ORDER"@ != "W_AVAILABILITY_CLOSURE_WEAKER"@);
    assert("E_SURFACE_SLOT_ORDER"@ != "W_TRUST_PARAM_AUTH"@);
    assert("E_SURFACE_SLOT_ORDER"@ != "W_FRESHNESS_CHANNEL"@);
    assert("E_SURFACE_SLOT_ORDER"@ != "W_WRITE_CONFLICT"@);
    assert("E_SURFACE_SLOT_WAIVER_EMPTY"@[3] == 'U' && "E_SLOT_PRECEDENCE_AMBIGUOUS"@[3] == 'L');
    assert("E_SURFACE_SLOT_WAIVER_EMPTY"@ != "E_SLOT_PRECEDENCE_AMBIGUOUS"@);
    assert("E_SURFACE_SLOT_WAIVER_EMPTY"@ != "E_DERIVED_ASSIGN"@);
    assert("E_SURFACE_SLOT_WAIVER_EMPTY"@ != "E_DERIVED_NO_PROJECTION"@);
    assert("E_SURFACE_SLOT_WAIVER_EMPTY"@ != "E_SECRET_FLOW"@);
    assert("E_SURFACE_SLOT_WAIVER_EMPTY"@ != "E_FRESHNESS_UNDECLARED_EPOCH"@);
    assert("E_SURFACE_SLOT_WAIVER_EMPTY"@ != "E_ACTOR_VIEW_LEAK"@);
    assert("E_SURFACE_SLOT_WAIVER_EMPTY"@ != "E_ACK_DISAGREEMENT"@);
    assert("E_SURFACE_SLOT_WAIVER_EMPTY"@ != "E_OBLIGATION_UNHANDLED"@);
    assert("E_SURFACE_SLOT_WAIVER_EMPTY"@ != "E_DUPLICATE_SURFACE_BLOCK"@);
    assert("E_SURFACE_SLOT_WAIVER_EMPTY"@ != "E_DUPLICATE_ACTION_NAME"@);
    assert("E_SURFACE_SLOT_WAIVER_EMPTY"@ != "E_INTERNAL"@);
    assert("E_SURFACE_SLOT_WAIVER_EMPTY"@ != "W_ACK_NO_RULE"@);
    assert("E_SURFACE_SLOT_WAIVER_EMPTY"@ != "W_BRANCH_UNLABELLED"@);
    assert("E_SURFACE_SLOT_WAIVER_EMPTY"@ != "W_LIVENESS_NO_FAIRNESS"@);
    assert("E_SURFACE_SLOT_WAIVER_EMPTY"@ != "W_AVAILABILITY_CLOSURE_WEAKER"@);
    assert("E_SURFACE_SLOT_WAIVER_EMPTY"@ != "W_TRUST_PARAM_AUTH"@);
    assert("E_SURFACE_SLOT_WAIVER_EMPTY"@ != "W_FRESHNESS_CHANNEL"@);
    assert("E_SURFACE_SLOT_WAIVER_EMPTY"@ != "W_WRITE_CONFLICT"@);
    assert("E_SLOT_PRECEDENCE_AMBIGUOUS"@ != "E_DERIVED_ASSIGN"@);
    assert("E_SLOT_PRECEDENCE_AMBIGUOUS"@ != "E_DERIVED_NO_PROJECTION"@);
    assert("E_SLOT_PRECEDENCE_AMBIGUOUS"@ != "E_SECRET_FLOW"@);
    assert("E_SLOT_PRECEDENCE_AMBIGUOUS"@ != "E_FRESHNESS_UNDECLARED_EPOCH"@);
    assert("E_SLOT_PRECEDENCE_AMBIGUOUS"@ != "E_ACTOR_VIEW_LEAK"@);
    assert("E_SLOT_PRECEDENCE_AMBIGUOUS"@ != "E_ACK_DISAGREEMENT"@);
    assert("E_SLOT_PRECEDENCE_AMBIGUOUS"@ != "E_OBLIGATION_UNHANDLED"@);
    assert("E_SLOT_PRECEDENCE_AMBIGUOUS"@ != "E_DUPLICATE_SURFACE_BLOCK"@);
    assert("E_SLOT_PRECEDENCE_AMBIGUOUS"@ != "E_DUPLICATE_ACTION_NAME"@);
    assert("E_SLOT_PRECEDENCE_AMBIGUOUS"@ != "E_INTERNAL"@);
    assert("E_SLOT_PRECEDENCE_AMBIGUOUS"@ != "W_ACK_NO_RULE"@);
    assert("E_SLOT_PRECEDENCE_AMBIGUOUS"@ != "W_BRANCH_UNLABELLED"@);
    assert("E_SLOT_PRECEDENCE_AMBIGUOUS"@ != "W_LIVENESS_NO_FAIRNESS"@);
    assert("E_SLOT_PRECEDENCE_AMBIGUOUS"@ != "W_AVAILABILITY_CLOSURE_WEAKER"@);
    assert("E_SLOT_PRECEDENCE_AMBIGUOUS"@ != "W_TRUST_PARAM_AUTH"@);
    assert("E_SLOT_PRECEDENCE_AMBIGUOUS"@ != "W_FRESHNESS_CHANNEL"@);
    assert("E_SLOT_PRECEDENCE_AMBIGUOUS"@ != "W_WRITE_CONFLICT"@);
    assert("E_DERIVED_ASSIGN"@ != "E_DERIVED_NO_PROJECTION"@);
    assert("E_DERIVED_ASSIGN"@ != "E_SECRET_FLOW"@);
    assert("E_DERIVED_ASSIGN"@ != "E_FRESHNESS_UNDECLARED_EPOCH"@);
    assert("E_DERIVED_ASSIGN"@ != "E_ACTOR_VIEW_LEAK"@);
    assert("E_DERIVED_ASSIGN"@ != "E_ACK_DISAGREEMENT"@);
    assert("E_DERIVED_ASSIGN"@ != "E_OBLIGATION_UNHANDLED"@);
    assert("E_DERIVED_ASSIGN"@ != "E_DUPLICATE_SURFACE_BLOCK"@);
    assert("E_DERIVED_ASSIGN"@ != "E_DUPLICATE_ACTION_NAME"@);
    assert("E_DERIVED_ASSIGN"@ != "E_INTERNAL"@);
    assert("E_DERIVED_ASSIGN"@ != "W_ACK_NO_RULE"@);
    assert("E_DERIVED_ASSIGN"@ != "W_BRANCH_UNLABELLED"@);
    assert("E_DERIVED_ASSIGN"@ != "W_LIVENESS_NO_FAIRNESS"@);
    assert("E_DERIVED_ASSIGN"@ != "W_AVAILABILITY_CLOSURE_WEAKER"@);
    assert("E_DERIVED_ASSIGN"@ != "W_TRUST_PARAM_AUTH"@);
    assert("E_DERIVED_ASSIGN"@ != "W_FRESHNESS_CHANNEL"@);
    assert("E_DERIVED_ASSIGN"@[0] == 'E' && "W_WRITE_CONFLICT"@[0] == 'W');
    assert("E_DERIVED_ASSIGN"@ != "W_WRITE_CONFLICT"@);
    assert("E_DERIVED_NO_PROJECTION"@ != "E_SECRET_FLOW"@);
    assert("E_DERIVED_NO_PROJECTION"@ != "E_FRESHNESS_UNDECLARED_EPOCH"@);
    assert("E_DERIVED_NO_PROJECTION"@ != "E_ACTOR_VIEW_LEAK"@);
    assert("E_DERIVED_NO_PROJECTION"@ != "E_ACK_DISAGREEMENT"@);
    assert("E_DERIVED_NO_PROJECTION"@ != "E_OBLIGATION_UNHANDLED"@);
    assert("E_DERIVED_NO_PROJECTION"@ != "E_DUPLICATE_SURFACE_BLOCK"@);
    assert("E_DERIVED_NO_PROJECTION"@[3] == 'E' && "E_DUPLICATE_ACTION_NAME"@[3] == 'U');
    assert("E_DERIVED_NO_PROJECTION"@ != "E_DUPLICATE_ACTION_NAME"@);
    assert("E_DERIVED_NO_PROJECTION"@ != "E_INTERNAL"@);
    assert("E_DERIVED_NO_PROJECTION"@ != "W_ACK_NO_RULE"@);
    assert("E_DERIVED_NO_PROJECTION"@ != "W_BRANCH_UNLABELLED"@);
    assert("E_DERIVED_NO_PROJECTION"@ != "W_LIVENESS_NO_FAIRNESS"@);
    assert("E_DERIVED_NO_PROJECTION"@ != "W_AVAILABILITY_CLOSURE_WEAKER"@);
    assert("E_DERIVED_NO_PROJECTION"@ != "W_TRUST_PARAM_AUTH"@);
    assert("E_DERIVED_NO_PROJECTION"@ != "W_FRESHNESS_CHANNEL"@);
    assert("E_DERIVED_NO_PROJECTION"@ != "W_WRITE_CONFLICT"@);
    assert("E_SECRET_FLOW"@ != "E_FRESHNESS_UNDECLARED_EPOCH"@);
    assert("E_SECRET_FLOW"@ != "E_ACTOR_VIEW_LEAK"@);
    assert("E_SECRET_FLOW"@ != "E_ACK_DISAGREEMENT"@);
    assert("E_SECRET_FLOW"@ != "E_OBLIGATION_UNHANDLED"@);
    assert("E_SECRET_FLOW"@ != "E_DUPLICATE_SURFACE_BLOCK"@);
    assert("E_SECRET_FLOW"@ != "E_DUPLICATE_ACTION_NAME"@);
    assert("E_SECRET_FLOW"@ != "E_INTERNAL"@);
    assert("E_SECRET_FLOW"@[0] == 'E' && "W_ACK_NO_RULE"@[0] == 'W');
    assert("E_SECRET_FLOW"@ != "W_ACK_NO_RULE"@);
    assert("E_SECRET_FLOW"@ != "W_BRANCH_UNLABELLED"@);
    assert("E_SECRET_FLOW"@ != "W_LIVENESS_NO_FAIRNESS"@);
    assert("E_SECRET_FLOW"@ != "W_AVAILABILITY_CLOSURE_WEAKER"@);
    assert("E_SECRET_FLOW"@ != "W_TRUST_PARAM_AUTH"@);
    assert("E_SECRET_FLOW"@ != "W_FRESHNESS_CHANNEL"@);
    assert("E_SECRET_FLOW"@ != "W_WRITE_CONFLICT"@);
    assert("E_FRESHNESS_UNDECLARED_EPOCH"@ != "E_ACTOR_VIEW_LEAK"@);
    assert("E_FRESHNESS_UNDECLARED_EPOCH"@ != "E_ACK_DISAGREEMENT"@);
    assert("E_FRESHNESS_UNDECLARED_EPOCH"@ != "E_OBLIGATION_UNHANDLED"@);
    assert("E_FRESHNESS_UNDECLARED_EPOCH"@ != "E_DUPLICATE_SURFACE_BLOCK"@);
    assert("E_FRESHNESS_UNDECLARED_EPOCH"@ != "E_DUPLICATE_ACTION_NAME"@);
    assert("E_FRESHNESS_UNDECLARED_EPOCH"@ != "E_INTERNAL"@);
    assert("E_FRESHNESS_UNDECLARED_EPOCH"@ != "W_ACK_NO_RULE"@);
    assert("E_FRESHNESS_UNDECLARED_EPOCH"@ != "W_BRANCH_UNLABELLED"@);
    assert("E_FRESHNESS_UNDECLARED_EPOCH"@ != "W_LIVENESS_NO_FAIRNESS"@);
    assert("E_FRESHNESS_UNDECLARED_EPOCH"@ != "W_AVAILABILITY_CLOSURE_WEAKER"@);
    assert("E_FRESHNESS_UNDECLARED_EPOCH"@ != "W_TRUST_PARAM_AUTH"@);
    assert("E_FRESHNESS_UNDECLARED_EPOCH"@ != "W_FRESHNESS_CHANNEL"@);
    assert("E_FRESHNESS_UNDECLARED_EPOCH"@ != "W_WRITE_CONFLICT"@);
    assert("E_ACTOR_VIEW_LEAK"@ != "E_ACK_DISAGREEMENT"@);
    assert("E_ACTOR_VIEW_LEAK"@ != "E_OBLIGATION_UNHANDLED"@);
    assert("E_ACTOR_VIEW_LEAK"@ != "E_DUPLICATE_SURFACE_BLOCK"@);
    assert("E_ACTOR_VIEW_LEAK"@ != "E_DUPLICATE_ACTION_NAME"@);
    assert("E_ACTOR_VIEW_LEAK"@ != "E_INTERNAL"@);
    assert("E_ACTOR_VIEW_LEAK"@ != "W_ACK_NO_RULE"@);
    assert("E_ACTOR_VIEW_LEAK"@ != "W_BRANCH_UNLABELLED"@);
    assert("E_ACTOR_VIEW_LEAK"@ != "W_LIVENESS_NO_FAIRNESS"@);
    assert("E_ACTOR_VIEW_LEAK"@ != "W_AVAILABILITY_CLOSURE_WEAKER"@);
    assert("E_ACTOR_VIEW_LEAK"@ != "W_TRUST_PARAM_AUTH"@);
    assert("E_ACTOR_VIEW_LEAK"@ != "W_FRESHNESS_CHANNEL"@);
    assert("E_ACTOR_VIEW_LEAK"@ != "W_WRITE_CONFLICT"@);
    assert("E_ACK_DISAGREEMENT"@ != "E_OBLIGATION_UNHANDLED"@);
    assert("E_ACK_DISAGREEMENT"@ != "E_DUPLICATE_SURFACE_BLOCK"@);
    assert("E_ACK_DISAGREEMENT"@ != "E_DUPLICATE_ACTION_NAME"@);
    assert("E_ACK_DISAGREEMENT"@ != "E_INTERNAL"@);
    assert("E_ACK_DISAGREEMENT"@ != "W_ACK_NO_RULE"@);
    assert("E_ACK_DISAGREEMENT"@ != "W_BRANCH_UNLABELLED"@);
    assert("E_ACK_DISAGREEMENT"@ != "W_LIVENESS_NO_FAIRNESS"@);
    assert("E_ACK_DISAGREEMENT"@ != "W_AVAILABILITY_CLOSURE_WEAKER"@);
    assert("E_ACK_DISAGREEMENT"@[0] == 'E' && "W_TRUST_PARAM_AUTH"@[0] == 'W');
    assert("E_ACK_DISAGREEMENT"@ != "W_TRUST_PARAM_AUTH"@);
    assert("E_ACK_DISAGREEMENT"@ != "W_FRESHNESS_CHANNEL"@);
    assert("E_ACK_DISAGREEMENT"@ != "W_WRITE_CONFLICT"@);
    assert("E_OBLIGATION_UNHANDLED"@ != "E_DUPLICATE_SURFACE_BLOCK"@);
    assert("E_OBLIGATION_UNHANDLED"@ != "E_DUPLICATE_ACTION_NAME"@);
    assert("E_OBLIGATION_UNHANDLED"@ != "E_INTERNAL"@);
    assert("E_OBLIGATION_UNHANDLED"@ != "W_ACK_NO_RULE"@);
    assert("E_OBLIGATION_UNHANDLED"@ != "W_BRANCH_UNLABELLED"@);
    assert("E_OBLIGATION_UNHANDLED"@[0] == 'E' && "W_LIVENESS_NO_FAIRNESS"@[0] == 'W');
    assert("E_OBLIGATION_UNHANDLED"@ != "W_LIVENESS_NO_FAIRNESS"@);
    assert("E_OBLIGATION_UNHANDLED"@ != "W_AVAILABILITY_CLOSURE_WEAKER"@);
    assert("E_OBLIGATION_UNHANDLED"@ != "W_TRUST_PARAM_AUTH"@);
    assert("E_OBLIGATION_UNHANDLED"@ != "W_FRESHNESS_CHANNEL"@);
    assert("E_OBLIGATION_UNHANDLED"@ != "W_WRITE_CONFLICT"@);
    assert("E_DUPLICATE_SURFACE_BLOCK"@ != "E_DUPLICATE_ACTION_NAME"@);
    assert("E_DUPLICATE_SURFACE_BLOCK"@ != "E_INTERNAL"@);
    assert("E_DUPLICATE_SURFACE_BLOCK"@ != "W_ACK_NO_RULE"@);
    assert("E_DUPLICATE_SURFACE_BLOCK"@ != "W_BRANCH_UNLABELLED"@);
    assert("E_DUPLICATE_SURFACE_BLOCK"@ != "W_LIVENESS_NO_FAIRNESS"@);
    assert("E_DUPLICATE_SURFACE_BLOCK"@ != "W_AVAILABILITY_CLOSURE_WEAKER"@);
    assert("E_DUPLICATE_SURFACE_BLOCK"@ != "W_TRUST_PARAM_AUTH"@);
    assert("E_DUPLICATE_SURFACE_BLOCK"@ != "W_FRESHNESS_CHANNEL"@);
    assert("E_DUPLICATE_SURFACE_BLOCK"@ != "W_WRITE_CONFLICT"@);
    assert("E_DUPLICATE_ACTION_NAME"@ != "E_INTERNAL"@);
    assert("E_DUPLICATE_ACTION_NAME"@ != "W_ACK_NO_RULE"@);
    assert("E_DUPLICATE_ACTION_NAME"@ != "W_BRANCH_UNLABELLED"@);
    assert("E_DUPLICATE_ACTION_NAME"@ != "W_LIVENESS_NO_FAIRNESS"@);
    assert("E_DUPLICATE_ACTION_NAME"@ != "W_AVAILABILITY_CLOSURE_WEAKER"@);
    assert("E_DUPLICATE_ACTION_NAME"@ != "W_TRUST_PARAM_AUTH"@);
    assert("E_DUPLICATE_ACTION_NAME"@ != "W_FRESHNESS_CHANNEL"@);
    assert("E_DUPLICATE_ACTION_NAME"@ != "W_WRITE_CONFLICT"@);
    assert("E_INTERNAL"@ != "W_ACK_NO_RULE"@);
    assert("E_INTERNAL"@ != "W_BRANCH_UNLABELLED"@);
    assert("E_INTERNAL"@ != "W_LIVENESS_NO_FAIRNESS"@);
    assert("E_INTERNAL"@ != "W_AVAILABILITY_CLOSURE_WEAKER"@);
    assert("E_INTERNAL"@ != "W_TRUST_PARAM_AUTH"@);
    assert("E_INTERNAL"@ != "W_FRESHNESS_CHANNEL"@);
    assert("E_INTERNAL"@ != "W_WRITE_CONFLICT"@);
    assert("W_ACK_NO_RULE"@ != "W_BRANCH_UNLABELLED"@);
    assert("W_ACK_NO_RULE"@ != "W_LIVENESS_NO_FAIRNESS"@);
    assert("W_ACK_NO_RULE"@ != "W_AVAILABILITY_CLOSURE_WEAKER"@);
    assert("W_ACK_NO_RULE"@ != "W_TRUST_PARAM_AUTH"@);
    assert("W_ACK_NO_RULE"@ != "W_FRESHNESS_CHANNEL"@);
    assert("W_ACK_NO_RULE"@ != "W_WRITE_CONFLICT"@);
    assert("W_BRANCH_UNLABELLED"@ != "W_LIVENESS_NO_FAIRNESS"@);
    assert("W_BRANCH_UNLABELLED"@ != "W_AVAILABILITY_CLOSURE_WEAKER"@);
    assert("W_BRANCH_UNLABELLED"@ != "W_TRUST_PARAM_AUTH"@);
    assert("W_BRANCH_UNLABELLED"@[2] == 'B' && "W_FRESHNESS_CHANNEL"@[2] == 'F');
    assert("W_BRANCH_UNLABELLED"@ != "W_FRESHNESS_CHANNEL"@);
    assert("W_BRANCH_UNLABELLED"@ != "W_WRITE_CONFLICT"@);
    assert("W_LIVENESS_NO_FAIRNESS"@ != "W_AVAILABILITY_CLOSURE_WEAKER"@);
    assert("W_LIVENESS_NO_FAIRNESS"@ != "W_TRUST_PARAM_AUTH"@);
    assert("W_LIVENESS_NO_FAIRNESS"@ != "W_FRESHNESS_CHANNEL"@);
    assert("W_LIVENESS_NO_FAIRNESS"@ != "W_WRITE_CONFLICT"@);
    assert("W_AVAILABILITY_CLOSURE_WEAKER"@ != "W_TRUST_PARAM_AUTH"@);
    assert("W_AVAILABILITY_CLOSURE_WEAKER"@ != "W_FRESHNESS_CHANNEL"@);
    assert("W_AVAILABILITY_CLOSURE_WEAKER"@ != "W_WRITE_CONFLICT"@);
    assert("W_TRUST_PARAM_AUTH"@ != "W_FRESHNESS_CHANNEL"@);
    assert("W_TRUST_PARAM_AUTH"@ != "W_WRITE_CONFLICT"@);
    assert("W_FRESHNESS_CHANNEL"@ != "W_WRITE_CONFLICT"@);
    assert("E_PARSE"@[0] == 'E' && "E_PARSE"@[1] == '_');
    assert("E_NAME_NOT_FOUND"@[0] == 'E' && "E_NAME_NOT_FOUND"@[1] == '_');
    assert("E_NAME_AMBIGUOUS"@[0] == 'E' && "E_NAME_AMBIGUOUS"@[1] == '_');
    assert("E_PRIVATE_MODULE_ACCESS"@[0] == 'E' && "E_PRIVATE_MODULE_ACCESS"@[1] == '_');
    assert("E_SURFACE_SLOT_MISSING"@[0] == 'E' && "E_SURFACE_SLOT_MISSING"@[1] == '_');
    assert("E_SURFACE_SLOT_UNKNOWN_VALUE"@[0] == 'E' && "E_SURFACE_SLOT_UNKNOWN_VALUE"@[1] == '_');
    assert("E_SURFACE_SLOT_ORDER"@[0] == 'E' && "E_SURFACE_SLOT_ORDER"@[1] == '_');
    assert("E_SURFACE_SLOT_WAIVER_EMPTY"@[0] == 'E' && "E_SURFACE_SLOT_WAIVER_EMPTY"@[1] == '_');
    assert("E_SLOT_PRECEDENCE_AMBIGUOUS"@[0] == 'E' && "E_SLOT_PRECEDENCE_AMBIGUOUS"@[1] == '_');
    assert("E_DERIVED_ASSIGN"@[0] == 'E' && "E_DERIVED_ASSIGN"@[1] == '_');
    assert("E_DERIVED_NO_PROJECTION"@[0] == 'E' && "E_DERIVED_NO_PROJECTION"@[1] == '_');
    assert("E_SECRET_FLOW"@[0] == 'E' && "E_SECRET_FLOW"@[1] == '_');
    assert("E_FRESHNESS_UNDECLARED_EPOCH"@[0] == 'E' && "E_FRESHNESS_UNDECLARED_EPOCH"@[1] == '_');
    assert("E_ACTOR_VIEW_LEAK"@[0] == 'E' && "E_ACTOR_VIEW_LEAK"@[1] == '_');
    assert("E_ACK_DISAGREEMENT"@[0] == 'E' && "E_ACK_DISAGREEMENT"@[1] == '_');
    assert("E_OBLIGATION_UNHANDLED"@[0] == 'E' && "E_OBLIGATION_UNHANDLED"@[1] == '_');
    assert("E_DUPLICATE_SURFACE_BLOCK"@[0] == 'E' && "E_DUPLICATE_SURFACE_BLOCK"@[1] == '_');
    assert("E_DUPLICATE_ACTION_NAME"@[0] == 'E' && "E_DUPLICATE_ACTION_NAME"@[1] == '_');
    assert("E_INTERNAL"@[0] == 'E' && "E_INTERNAL"@[1] == '_');
    assert("W_ACK_NO_RULE"@[0] == 'W' && "W_ACK_NO_RULE"@[1] == '_');
    assert("W_BRANCH_UNLABELLED"@[0] == 'W' && "W_BRANCH_UNLABELLED"@[1] == '_');
    assert("W_LIVENESS_NO_FAIRNESS"@[0] == 'W' && "W_LIVENESS_NO_FAIRNESS"@[1] == '_');
    assert("W_AVAILABILITY_CLOSURE_WEAKER"@[0] == 'W' && "W_AVAILABILITY_CLOSURE_WEAKER"@[1] == '_');
    assert("W_TRUST_PARAM_AUTH"@[0] == 'W' && "W_TRUST_PARAM_AUTH"@[1] == '_');
    assert("W_FRESHNESS_CHANNEL"@[0] == 'W' && "W_FRESHNESS_CHANNEL"@[1] == '_');
    assert("W_WRITE_CONFLICT"@[0] == 'W' && "W_WRITE_CONFLICT"@[1] == '_');
}

} // verus!
