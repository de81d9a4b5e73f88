use std::path::PathBuf;

use surfacide::builder::_test_ident;
use surfacide::compose::ObligationKind;
use surfacide::ident::{Ident, QualifiedName};
use surfacide::slot::{AuthChannelTag, AvailabilityValue, SlotKind};
use surfacide::span::{FileId, FileRegistry, Span};
use surfacide::ty::{Type, TypeKind};

fn ident(s: &str) -> Ident {
    Ident::new(s, Span::new(FileId(0), 0, s.len() as u32))
}

#[test]
fn test_helpers_produce_well_formed_values() {
    let id = _test_ident("foo");
    assert_eq!(id.name, "foo");
}

#[test]
fn availability_lattice_total() {
    for a in [AvailabilityValue::Critical, AvailabilityValue::BestEffort,
              AvailabilityValue::MaintenanceWindow, AvailabilityValue::ReadOnlyFailover] {
        for b in [AvailabilityValue::Critical, AvailabilityValue::BestEffort,
                  AvailabilityValue::MaintenanceWindow, AvailabilityValue::ReadOnlyFailover] {
            let _ = a.rank().cmp(&b.rank());
        }
    }
}

#[test]
fn slot_canonical_order_starts_with_idempotency() {
    assert_eq!(SlotKind::canonical_order()[0], SlotKind::Idempotency);
}

#[test]
fn obligation_kind_round_trip() {
    for k in &[
        ObligationKind::AvailabilityDependsOn,
        ObligationKind::TrustTransitive,
        ObligationKind::WriteConflict,
        ObligationKind::ReplayAmplification,
        ObligationKind::RetentionPropagation,
        ObligationKind::ActorViewLeak,
        ObligationKind::DerivedWrite,
        ObligationKind::FreshnessChannel,
    ] {
        assert_eq!(ObligationKind::from_name(k.name()), Some(*k));
    }
}

#[test]
fn ident_display() {
    assert_eq!(ident("Banking").to_string(), "Banking");
}

#[test]
fn qualified_dotted() {
    let qn = QualifiedName::new(vec![ident("Banking"), ident("Ledger")]);
    assert_eq!(qn.dotted(), "Banking.Ledger");
    assert!(!qn.is_simple());
    assert_eq!(qn.last().name, "Ledger");
}

#[test]
fn qualified_simple() {
    let qn = QualifiedName::new(vec![ident("X")]);
    assert!(qn.is_simple());
    assert_eq!(qn.to_string(), "X");
}

#[test]
fn slot_canonical_order_is_seven_distinct() {
    let order = SlotKind::canonical_order();
    let mut set = std::collections::HashSet::new();
    for s in order {
        assert!(set.insert(s));
    }
    assert_eq!(set.len(), 7);
}

#[test]
fn slot_from_name_round_trip() {
    for s in SlotKind::canonical_order() {
        assert_eq!(SlotKind::from_name(s.name()), Some(s));
    }
}

#[test]
fn auth_channel_round_trip() {
    for tag in AuthChannelTag::all() {
        assert_eq!(AuthChannelTag::from_name(tag.name()), Some(*tag));
    }
}

#[test]
fn availability_rank_orders_stricter_higher() {
    assert!(AvailabilityValue::Critical.rank() > AvailabilityValue::BestEffort.rank());
    assert!(AvailabilityValue::ReadOnlyFailover.rank() > AvailabilityValue::MaintenanceWindow.rank());
}

#[test]
fn span_merge_extends_extent() {
    let f = FileId(0);
    let a = Span::new(f, 10, 15);
    let b = Span::new(f, 5, 12);
    assert_eq!(a.merge(b), Span::new(f, 5, 15));
}

#[test]
fn synthetic_span_round_trip() {
    let s = Span::synthetic();
    assert!(s.is_synthetic());
    assert!(s.is_empty());
}

#[test]
fn registry_round_trip() {
    let mut reg = FileRegistry::new();
    let id = reg.add(PathBuf::from("x.surf"), "module X");
    assert_eq!(reg.source(id), Some("module X"));
    let span = Span::new(id, 0, 6);
    assert_eq!(reg.slice(span), Some("module"));
}

#[test]
fn registry_synthetic_file_is_none() {
    let reg = FileRegistry::new();
    assert!(reg.get(FileId::synthetic()).is_none());
}

#[test]
fn nested_type_shape() {
    let f = FileId(0);
    let ty = Type {
        kind: TypeKind::MapOf(
            Box::new(Type { kind: TypeKind::Nat, span: Span::new(f, 0, 3) }),
            Box::new(Type {
                kind: TypeKind::SetOf(Box::new(Type {
                    kind: TypeKind::Bool,
                    span: Span::new(f, 0, 4),
                })),
                span: Span::new(f, 0, 4),
            }),
        ),
        span: Span::new(f, 0, 10),
    };
    assert!(matches!(ty.kind, TypeKind::MapOf(_, _)));
}
