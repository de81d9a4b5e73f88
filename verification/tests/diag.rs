use surfacide::codes::{ErrorKind, WarningKind};
use surfacide::diagnostic::{summarise, Diagnostic};
use surfacide::span::{FileId, Span};

#[test]
fn every_error_code_starts_with_e() {
    for c in [
        ErrorKind::ParseError,
        ErrorKind::NameNotFound,
        ErrorKind::SurfaceSlotMissing,
        ErrorKind::SurfaceSlotUnknownValue,
        ErrorKind::SurfaceSlotOrder,
        ErrorKind::SurfaceSlotWaiverEmpty,
        ErrorKind::SlotPrecedenceAmbiguous,
        ErrorKind::DerivedAssign,
        ErrorKind::DerivedNoProjection,
        ErrorKind::SecretFlow,
        ErrorKind::FreshnessUndeclaredEpoch,
        ErrorKind::ActorViewLeak,
        ErrorKind::AckDisagreement,
        ErrorKind::ObligationUnhandled,
        ErrorKind::DuplicateSurfaceBlock,
        ErrorKind::DuplicateActionName,
        ErrorKind::Internal,
        ErrorKind::PrivateModuleAccess,
        ErrorKind::NameAmbiguous,
    ] {
        assert!(c.as_str().starts_with("E_"), "{}", c.as_str());
    }
}

#[test]
fn every_warning_code_starts_with_w() {
    for w in [
        WarningKind::AckNoRule,
        WarningKind::BranchUnlabelled,
        WarningKind::LivenessNoFairness,
        WarningKind::AvailabilityClosureWeaker,
        WarningKind::TrustParamAuth,
        WarningKind::FreshnessChannel,
        WarningKind::WriteConflict,
    ] {
        assert!(w.as_str().starts_with("W_"), "{}", w.as_str());
    }
}

#[test]
fn code_strings_are_distinct() {
    let mut seen = std::collections::HashSet::new();
    for s in [
        "E_PARSE", "E_NAME_NOT_FOUND", "E_NAME_AMBIGUOUS",
        "E_PRIVATE_MODULE_ACCESS",
        "E_SURFACE_SLOT_MISSING", "E_SURFACE_SLOT_UNKNOWN_VALUE",
        "E_SURFACE_SLOT_ORDER", "E_SURFACE_SLOT_WAIVER_EMPTY",
        "E_SLOT_PRECEDENCE_AMBIGUOUS",
        "E_DERIVED_ASSIGN", "E_DERIVED_NO_PROJECTION", "E_SECRET_FLOW",
        "E_FRESHNESS_UNDECLARED_EPOCH", "E_ACTOR_VIEW_LEAK",
        "E_ACK_DISAGREEMENT", "E_OBLIGATION_UNHANDLED",
        "E_DUPLICATE_SURFACE_BLOCK",
        "E_DUPLICATE_ACTION_NAME", "E_INTERNAL",
        "W_ACK_NO_RULE", "W_BRANCH_UNLABELLED",
        "W_LIVENESS_NO_FAIRNESS", "W_AVAILABILITY_CLOSURE_WEAKER",
        "W_TRUST_PARAM_AUTH", "W_FRESHNESS_CHANNEL", "W_WRITE_CONFLICT",
    ] {
        assert!(seen.insert(s), "duplicate code: {}", s);
    }
}

#[test]
fn summarise_counts_correctly() {
    let span = Span::new(FileId(0), 0, 1);
    let diags = vec![
        Diagnostic::error(ErrorKind::ParseError, "bad", span),
        Diagnostic::warning(WarningKind::AckNoRule, "stuff", span),
        Diagnostic::error(ErrorKind::NameNotFound, "missing", span),
    ];
    assert_eq!(summarise(&diags), (2, 1));
}
