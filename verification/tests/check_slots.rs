use surfacide::decl::ActorBinder;
use surfacide::ident::Ident;
use surfacide::slot::{
    AuthChannelTag, AuthChannelValue, AvailabilityValue, FreshnessValue, IdempotencyValue, ObservabilityValue,
    RateLimitValue, RetentionValue, SlotAssign, SlotKind, SlotProvenance, SlotValue,
};
use surfacide::slots::{check_surface, elaborate};
use surfacide::span::Span;
use surfacide::surface::{ActionDecl, DefaultsBlock, EffectBlock, SurfaceBlock};

fn id(name: &str) -> Ident {
    Ident::new(name, Span::synthetic())
}

fn empty_action(name: &str, is_internal: bool) -> ActionDecl {
    ActionDecl {
        name: id(name),
        params: Vec::new(),
        return_ty: None,
        actor: ActorBinder { name: id("u"), actor_ty: id("User"), span: Span::synthetic() },
        when_pre: None,
        raises: Vec::new(),
        slots: Vec::new(),
        body: EffectBlock { stmts: Vec::new(), span: Span::synthetic() },
        doc: None,
        span: Span::synthetic(),
        is_internal,
    }
}

fn explicit(kind: SlotKind, value: SlotValue) -> SlotAssign {
    SlotAssign { kind, value, span: Span::synthetic() }
}

#[test]
fn empty_action_misses_all_seven_slots() {
    let a = empty_action("foo", false);
    let (_elab, diags) = elaborate(&a, None);
    let missing: Vec<_> = diags
        .iter()
        .filter(|d| d.code.as_str() == "E_SURFACE_SLOT_MISSING")
        .collect();
    assert_eq!(missing.len(), 7);
}

#[test]
fn internal_action_auto_fills_three_still_misses_four() {
    let a = empty_action("foo", true);
    let (elab, diags) = elaborate(&a, None);
    assert_eq!(elab.auth_channel.as_ref().unwrap().provenance, SlotProvenance::InternalActionPreset);
    assert_eq!(elab.rate_limit.as_ref().unwrap().provenance, SlotProvenance::InternalActionPreset);
    assert_eq!(elab.availability.as_ref().unwrap().provenance, SlotProvenance::InternalActionPreset);
    let missing: Vec<_> = diags
        .iter()
        .filter(|d| d.code.as_str() == "E_SURFACE_SLOT_MISSING")
        .collect();
    assert_eq!(missing.len(), 4, "expected 4 missing, got {:?}", missing.iter().map(|d| d.message.clone()).collect::<Vec<_>>());
}

#[test]
fn per_action_overrides_default_overrides_internal_preset() {
    let mut a = empty_action("foo", true);
    a.slots.push(explicit(
        SlotKind::AuthChannel,
        SlotValue::AuthChannel(AuthChannelValue {
            channels: vec![AuthChannelTag::Anonymous],
            set_form: false,
        }),
    ));
    let defaults = DefaultsBlock {
        slots: vec![explicit(
            SlotKind::AuthChannel,
            SlotValue::AuthChannel(AuthChannelValue {
                channels: vec![AuthChannelTag::Session],
                set_form: false,
            }),
        )],
        span: Span::synthetic(),
    };
    let (elab, _diags) = elaborate(&a, Some(&defaults));
    let auth = elab.auth_channel.as_ref().unwrap();
    assert_eq!(auth.provenance, SlotProvenance::Explicit);
    if let SlotValue::AuthChannel(v) = &auth.value {
        assert_eq!(v.channels, vec![AuthChannelTag::Anonymous]);
    } else {
        panic!("expected AuthChannel value");
    }
}

#[test]
fn empty_waiver_is_diagnosed() {
    let mut a = empty_action("foo", false);
    for k in SlotKind::canonical_order() {
        a.slots.push(explicit(
            k,
            SlotValue::Waived {
                reason: "".to_string(),
                reason_span: Span::synthetic(),
            },
        ));
    }
    let (_elab, diags) = elaborate(&a, None);
    assert_eq!(
        diags
            .iter()
            .filter(|d| d.code.as_str() == "E_SURFACE_SLOT_WAIVER_EMPTY")
            .count(),
        7
    );
}

#[test]
fn out_of_order_slots_diagnosed() {
    let mut a = empty_action("foo", false);
    a.slots.push(explicit(
        SlotKind::AuthChannel,
        SlotValue::AuthChannel(AuthChannelValue {
            channels: vec![AuthChannelTag::Session],
            set_form: false,
        }),
    ));
    a.slots.push(explicit(
        SlotKind::Idempotency,
        SlotValue::Idempotency(IdempotencyValue::Idempotent),
    ));
    let (_elab, diags) = elaborate(&a, None);
    assert!(diags
        .iter()
        .any(|d| d.code.as_str() == "E_SURFACE_SLOT_ORDER"));
}

#[test]
fn unknown_slot_value_diagnosed() {
    let mut a = empty_action("foo", false);
    a.slots.push(explicit(
        SlotKind::AuthChannel,
        SlotValue::Unknown(id("dragonsbreath")),
    ));
    let (_elab, diags) = elaborate(&a, None);
    assert!(diags
        .iter()
        .any(|d| d.code.as_str() == "E_SURFACE_SLOT_UNKNOWN_VALUE"));
}

#[test]
fn duplicate_slot_diagnosed() {
    let mut a = empty_action("foo", false);
    a.slots.push(explicit(
        SlotKind::Idempotency,
        SlotValue::Idempotency(IdempotencyValue::Idempotent),
    ));
    a.slots.push(explicit(
        SlotKind::Idempotency,
        SlotValue::Idempotency(IdempotencyValue::AtMostOnce),
    ));
    let (_elab, diags) = elaborate(&a, None);
    assert!(diags
        .iter()
        .any(|d| d.code.as_str() == "E_SURFACE_SLOT_ORDER"));
}

#[test]
fn fully_populated_action_passes() {
    let mut a = empty_action("foo", false);
    for k in SlotKind::canonical_order() {
        let v = match k {
            SlotKind::Idempotency => SlotValue::Idempotency(IdempotencyValue::Idempotent),
            SlotKind::AuthChannel => SlotValue::AuthChannel(AuthChannelValue {
                channels: vec![AuthChannelTag::Session],
                set_form: false,
            }),
            SlotKind::Retention => SlotValue::Retention(RetentionValue::Ephemeral),
            SlotKind::RateLimit => SlotValue::RateLimit(RateLimitValue::Unlimited),
            SlotKind::Observability => {
                SlotValue::Observability(ObservabilityValue::Silent)
            }
            SlotKind::Availability => {
                SlotValue::Availability(AvailabilityValue::Critical)
            }
            SlotKind::Freshness => SlotValue::Freshness(FreshnessValue::Strong),
        };
        a.slots.push(explicit(k, v));
    }
    let (elab, diags) = elaborate(&a, None);
    assert!(diags.is_empty(), "expected clean, got {:#?}", diags);
    assert!(elab.iter().len() == 7);
}

#[test]
fn defaults_override_internal_action_preset() {
    let a = empty_action("foo", true);
    let defaults = DefaultsBlock {
        slots: vec![explicit(
            SlotKind::Availability,
            SlotValue::Availability(AvailabilityValue::Critical),
        )],
        span: Span::synthetic(),
    };
    let (elab, _diags) = elaborate(&a, Some(&defaults));
    let av = elab.availability.as_ref().unwrap();
    assert_eq!(av.provenance, SlotProvenance::Default);
    assert!(matches!(av.value, SlotValue::Availability(AvailabilityValue::Critical)));
}

#[test]
fn duplicate_in_defaults_fires_precedence_ambiguous_once_per_surface() {
    let a = empty_action("foo", false);
    let b = empty_action("bar", false);
    let surface = SurfaceBlock {
        state: Vec::new(),
        init: Vec::new(),
        fairness: Vec::new(),
        properties: Vec::new(),
        defaults: Some(DefaultsBlock {
            slots: vec![
                explicit(
                    SlotKind::AuthChannel,
                    SlotValue::AuthChannel(AuthChannelValue {
                        channels: vec![AuthChannelTag::Session],
                        set_form: false,
                    }),
                ),
                explicit(
                    SlotKind::AuthChannel,
                    SlotValue::AuthChannel(AuthChannelValue {
                        channels: vec![AuthChannelTag::Anonymous],
                        set_form: false,
                    }),
                ),
            ],
            span: Span::synthetic(),
        }),
        actions: vec![a, b],
        internal_actions: Vec::new(),
        observables: Vec::new(),
        span: Span::synthetic(),
        doc: None,
    };
    let mut diags = Vec::new();
    check_surface(&surface, &mut diags);
    let ambig: Vec<_> = diags
        .iter()
        .filter(|d| d.code.as_str() == "E_SLOT_PRECEDENCE_AMBIGUOUS")
        .collect();
    assert_eq!(ambig.len(), 1, "expected exactly one E_SLOT_PRECEDENCE_AMBIGUOUS, got {}: {:#?}", ambig.len(), diags);
}
