use surfacide::compose::{AcknowledgedArg, AcknowledgedBlock, AcknowledgedEntry, ComposeBlock, ObligationKind};
use surfacide::decl::{ActorBinder, Decl, ModuleFile, ModuleHeader};
use surfacide::driver::{run_passes, select_passes};
use surfacide::cross_slot::check_secret_flow;
use surfacide::expr::{CallArg, Expr, ExprKind, PathAccessor, PathExpr};
use surfacide::facts::extract;
use surfacide::ident::{Ident, QualifiedName};
use surfacide::obligations::run;
use surfacide::project::{ModuleAggregate, Project};
use surfacide::resolve::build_project;
use surfacide::slot::{
    AuthChannelTag, AuthChannelValue, AvailabilityValue, FreshnessValue, IdempotencyValue, RateLimitValue,
    RetentionValue, SlotAssign, SlotKind, SlotValue,
};
use surfacide::slots::elaborate;
use surfacide::span::{FileId, FileRegistry, Span};
use surfacide::substrate::{
    AuthRhs, AuthenticationBlock, AuthenticationMapping, AuxiliaryBlock, AuxiliaryKind, AuxiliaryVar,
    ChannelDecl, ChannelMultiplicity, Component, ComponentAction, SubstrateBlock,
};
use surfacide::surface::{ActionDecl, EffectBlock, EffectStmt, RetentionClass, StateField, StateFieldKind, SurfaceBlock};
use surfacide::ty::{Type, TypeKind};

fn id(s: &str) -> Ident {
    Ident::new(s, Span::synthetic())
}

fn qn(s: &str) -> QualifiedName {
    QualifiedName::new(vec![id(s)])
}

fn action(name: &str, slots: Vec<SlotAssign>) -> ActionDecl {
    ActionDecl {
        name: id(name),
        params: Vec::new(),
        return_ty: None,
        actor: ActorBinder { name: id("u"), actor_ty: id("User"), span: Span::synthetic() },
        when_pre: None,
        raises: Vec::new(),
        slots,
        body: EffectBlock { stmts: Vec::new(), span: Span::synthetic() },
        doc: None,
        span: Span::synthetic(),
        is_internal: false,
    }
}

fn slot(kind: SlotKind, value: SlotValue) -> SlotAssign {
    SlotAssign { kind, value, span: Span::synthetic() }
}

fn surface(actions: Vec<ActionDecl>) -> Decl {
    Decl::Surface(SurfaceBlock {
        state: Vec::new(),
        init: Vec::new(),
        fairness: Vec::new(),
        properties: Vec::new(),
        defaults: None,
        actions,
        internal_actions: Vec::new(),
        observables: Vec::new(),
        span: Span::synthetic(),
        doc: None,
    })
}

fn substrate(name: &str) -> SubstrateBlock {
    SubstrateBlock {
        name: id(name),
        realizes_target: None,
        components: Vec::new(),
        replicates: Vec::new(),
        channels: Vec::new(),
        auxiliary: None,
        authentication: None,
        maps: None,
        realizes: None,
        internal: None,
        fairness: Vec::new(),
        epochs: Vec::new(),
        acknowledged: None,
        doc: None,
        span: Span::synthetic(),
    }
}

fn writer_component(aux: &str) -> Component {
    Component {
        name: id("C"),
        state: Vec::new(),
        init: Vec::new(),
        actions: vec![ComponentAction {
            name: id("bump"),
            params: Vec::new(),
            return_ty: None,
            when_pre: None,
            raises: Vec::new(),
            body: EffectBlock {
                stmts: vec![EffectStmt::Assign {
                    target: Expr { kind: Box::new(ExprKind::Ident(id(aux))), span: Span::synthetic() },
                    value: Expr { kind: Box::new(ExprKind::LitNat(1)), span: Span::synthetic() },
                    span: Span::synthetic(),
                }],
                span: Span::synthetic(),
            },
            doc: None,
            span: Span::synthetic(),
        }],
        receives: Vec::new(),
        doc: None,
        span: Span::synthetic(),
    }
}

fn compose(channels: Vec<ChannelDecl>, ack: Option<AcknowledgedBlock>) -> Decl {
    Decl::Compose(ComposeBlock {
        name: id("Prod"),
        members: Vec::new(),
        channels,
        realizes: None,
        acknowledged: ack,
        fairness: Vec::new(),
        doc: None,
        span: Span::synthetic(),
    })
}

fn channel(from: &str, to: &str) -> ChannelDecl {
    ChannelDecl {
        name: id("c"),
        from_comp: qn(from),
        from_mult: ChannelMultiplicity::One,
        to_comp: qn(to),
        to_mult: ChannelMultiplicity::One,
        span: Span::synthetic(),
    }
}

fn ack(kind: ObligationKind, arg: AcknowledgedArg) -> AcknowledgedBlock {
    AcknowledgedBlock {
        entries: vec![AcknowledgedEntry {
            kind,
            args: vec![arg],
            resolution: None,
            because: Some("audited".to_string()),
            because_span: None,
            span: Span::synthetic(),
        }],
        span: Span::synthetic(),
    }
}

fn project_of(decls: Vec<Decl>) -> Project {
    let mut p = Project::new();
    p.modules.insert(
        "M".to_string(),
        ModuleAggregate { name: qn("M"), private: false, files: Vec::new(), decls },
    );
    p
}

fn codes(p: &Project, strict: bool) -> Vec<String> {
    run(p, strict).diagnostics.iter().map(|d| d.code.as_str().to_string()).collect()
}

fn write_conflict_decls(ack_block: Option<AcknowledgedBlock>) -> Vec<Decl> {
    let mut owner = substrate("S1");
    owner.auxiliary = Some(AuxiliaryBlock {
        vars: vec![AuxiliaryVar {
            kind: AuxiliaryKind::History,
            name: id("ledger"),
            ty: Type { kind: TypeKind::Nat, span: Span::synthetic() },
            init: None,
            cross_visible: true,
            invariant: None,
            span: Span::synthetic(),
        }],
        span: Span::synthetic(),
    });
    owner.components.push(writer_component("ledger"));
    let mut other = substrate("S2");
    other.components.push(writer_component("ledger"));
    other.acknowledged = ack_block;
    vec![Decl::Substrate(owner), Decl::Substrate(other)]
}

#[test]
fn aux_written_by_two_substrates_is_a_write_conflict() {
    let p = project_of(write_conflict_decls(None));
    let out = run(&p, false);
    assert_eq!(out.diagnostics.len(), 1, "{:?}", out.diagnostics);
    let d = &out.diagnostics[0];
    assert_eq!(d.code.as_str(), "W_WRITE_CONFLICT");
    assert_eq!(
        d.message,
        "cross_visible aux `ledger` is written by multiple substrates (S1, S2); R-WRITE-CONFLICT"
    );
    let facts = extract(&p);
    assert_eq!(facts.len(), 1);
    assert_eq!(facts[0].1.cross_visible_owners, vec![("ledger".to_string(), "S1".to_string())]);
    assert_eq!(
        facts[0].1.cross_visible_writers,
        vec![("S1".to_string(), "ledger".to_string()), ("S2".to_string(), "ledger".to_string())]
    );
}

#[test]
fn acknowledged_write_conflict_is_discharged() {
    let p = project_of(write_conflict_decls(Some(ack(
        ObligationKind::WriteConflict,
        AcknowledgedArg::Field(id("ledger")),
    ))));
    assert!(codes(&p, false).is_empty());
}

fn trust_decls(ack_block: Option<AcknowledgedBlock>) -> Vec<Decl> {
    let mut s = substrate("Auth");
    s.authentication = Some(AuthenticationBlock {
        mappings: vec![AuthenticationMapping {
            surface_action: qn("login"),
            rhs: AuthRhs::Param(id("uid")),
            span: Span::synthetic(),
        }],
        span: Span::synthetic(),
    });
    s.acknowledged = ack_block;
    let bearer = slot(
        SlotKind::AuthChannel,
        SlotValue::AuthChannel(AuthChannelValue { channels: vec![AuthChannelTag::BearerToken], set_form: false }),
    );
    vec![Decl::Substrate(s), surface(vec![action("login", vec![bearer])])]
}

#[test]
fn bearer_action_authenticated_by_param_warns() {
    let p = project_of(trust_decls(None));
    let out = run(&p, false);
    assert_eq!(out.diagnostics.len(), 1, "{:?}", out.diagnostics);
    assert_eq!(out.diagnostics[0].code.as_str(), "W_TRUST_PARAM_AUTH");
    assert_eq!(
        out.diagnostics[0].message,
        "action `login` carries trust-bearing auth_channel and uses `param.<x>` for actor identity; R-TRUST-PARAM-AUTH"
    );
}

#[test]
fn any_trust_transitive_acknowledgement_discharges_param_auth() {
    let p = project_of(trust_decls(Some(ack(
        ObligationKind::TrustTransitive,
        AcknowledgedArg::Component(qn("Signer")),
    ))));
    assert!(codes(&p, false).is_empty());
}

#[test]
fn strong_and_bounded_freshness_over_a_channel_warn() {
    let strong = action("read", vec![slot(SlotKind::Freshness, SlotValue::Freshness(FreshnessValue::Strong))]);
    let bounded = action(
        "list",
        vec![slot(SlotKind::Freshness, SlotValue::Freshness(FreshnessValue::Bounded { epoch: id("e"), n: 2 }))],
    );
    let p = project_of(vec![
        compose(
            vec![channel("S1", "S2")],
            Some(ack(ObligationKind::AvailabilityDependsOn, AcknowledgedArg::Component(qn("S2")))),
        ),
        surface(vec![strong, bounded]),
    ]);
    let out = run(&p, false);
    let msgs: Vec<(&str, &str)> =
        out.diagnostics.iter().map(|d| (d.code.as_str(), d.message.as_str())).collect();
    assert_eq!(
        msgs,
        vec![
            (
                "W_FRESHNESS_CHANNEL",
                "action `read` declares `freshness: strong` but is realised via a compose channel; R-FRESHNESS-CHANNEL"
            ),
            (
                "W_FRESHNESS_CHANNEL",
                "action `list` declares a bounded freshness epoch but is realised via a compose channel; R-FRESHNESS-CHANNEL"
            ),
        ]
    );
}

#[test]
fn freshness_without_a_channel_is_not_an_obligation() {
    let strong = action("read", vec![slot(SlotKind::Freshness, SlotValue::Freshness(FreshnessValue::Strong))]);
    let p = project_of(vec![surface(vec![strong])]);
    assert!(codes(&p, false).is_empty());
}

#[test]
fn channel_within_one_substrate_is_a_channel_fact_too() {
    let p = project_of(vec![compose(vec![channel("S1", "S1")], None)]);
    let facts = extract(&p);
    assert_eq!(facts[0].1.channels, vec![("Prod".to_string(), "S1".to_string(), "S1".to_string())]);
    assert_eq!(codes(&p, false), vec!["W_AVAILABILITY_CLOSURE_WEAKER".to_string()]);
}

#[test]
fn strict_mode_promotes_orphan_acknowledgements_too() {
    let p = project_of(vec![compose(
        Vec::new(),
        Some(ack(ObligationKind::AvailabilityDependsOn, AcknowledgedArg::Component(qn("S9")))),
    )]);
    let lax = run(&p, false).diagnostics;
    assert_eq!(lax.len(), 1);
    assert_eq!(lax[0].code.as_str(), "W_ACK_NO_RULE");
    let strict = run(&p, true).diagnostics;
    assert_eq!(strict.len(), 1);
    assert!(strict[0].is_error());
    assert_eq!(strict[0].code.as_str(), "E_OBLIGATION_UNHANDLED");
    assert_eq!(strict[0].message, lax[0].message);
}

#[test]
fn secret_read_inside_an_index_accessor_is_caught() {
    let key = Expr { kind: Box::new(ExprKind::Ident(id("signing_key"))), span: Span::synthetic() };
    let indexed = Expr {
        kind: Box::new(ExprKind::Path(PathExpr { head: id("m"), accessors: vec![PathAccessor::Index(key)] })),
        span: Span::synthetic(),
    };
    let mut a = action("login", Vec::new());
    a.body.stmts.push(EffectStmt::Emit {
        event: id("LoggedIn"),
        args: vec![CallArg { name: Some(id("key")), value: indexed, span: Span::synthetic() }],
        span: Span::synthetic(),
    });
    let secret = StateField {
        name: id("signing_key"),
        ty: Type { kind: TypeKind::Bool, span: Span::synthetic() },
        kind: StateFieldKind::Plain,
        retention: Some(RetentionClass::Secret),
        private: false,
        doc: None,
        span: Span::synthetic(),
    };
    let s = SurfaceBlock {
        state: vec![secret],
        init: Vec::new(),
        fairness: Vec::new(),
        properties: Vec::new(),
        defaults: None,
        actions: vec![a],
        internal_actions: Vec::new(),
        observables: Vec::new(),
        span: Span::synthetic(),
        doc: None,
    };
    let mut diags = Vec::new();
    check_secret_flow(&s, &mut diags);
    assert_eq!(diags.len(), 1);
    assert_eq!(diags[0].code.as_str(), "E_SECRET_FLOW");
    assert!(diags[0].message.contains("signing_key"));
}

#[test]
fn strict_mode_promotes_each_warning_with_its_message() {
    let decls = || {
        let mut d = write_conflict_decls(None);
        d.push(compose(vec![channel("S1", "S2")], None));
        d
    };
    let lax = run(&project_of(decls()), false).diagnostics;
    let strict = run(&project_of(decls()), true).diagnostics;
    assert_eq!(lax.len(), 2);
    assert_eq!(strict.len(), lax.len());
    for (s, w) in strict.iter().zip(lax.iter()) {
        assert!(!w.is_error());
        assert!(s.is_error());
        assert_eq!(s.code.as_str(), "E_OBLIGATION_UNHANDLED");
        assert_eq!(s.message, w.message);
        assert_eq!(s.help, w.help);
    }
}

#[test]
fn acknowledged_channel_target_is_discharged() {
    let p = project_of(vec![compose(
        vec![channel("S1", "S2"), channel("S3", "S2")],
        Some(ack(ObligationKind::AvailabilityDependsOn, AcknowledgedArg::Component(qn("S2")))),
    )]);
    assert!(codes(&p, true).is_empty());
}

fn module_file(name: &str, decls: Vec<Decl>) -> ModuleFile {
    ModuleFile {
        header: ModuleHeader { name: qn(name), private: false, doc: None, span: Span::synthetic() },
        uses: Vec::new(),
        decls,
        span: Span::synthetic(),
    }
}

#[test]
fn files_of_one_module_are_grouped_in_first_seen_order() {
    let parsed = vec![
        (FileId(0), module_file("B", vec![surface(vec![action("x", Vec::new())])])),
        (FileId(1), module_file("A", Vec::new())),
        (FileId(2), module_file("B", vec![compose(Vec::new(), None)])),
    ];
    let r = build_project(parsed, FileRegistry::new());
    let keys: Vec<&String> = r.project.modules.keys().collect();
    assert_eq!(keys, vec!["B", "A"]);
    let b = &r.project.modules["B"];
    assert_eq!(b.files, vec![FileId(0), FileId(2)]);
    assert_eq!(b.decls.len(), 2);
    assert!(matches!(b.decls[0], Decl::Surface(_)));
    assert!(matches!(b.decls[1], Decl::Compose(_)));
}

#[test]
fn actions_split_across_files_of_one_module_still_collide() {
    let parsed = vec![
        (FileId(0), module_file("M", vec![surface(vec![action("pay", Vec::new())])])),
        (FileId(1), module_file("M", vec![surface(vec![action("pay", Vec::new())])])),
    ];
    let r = build_project(parsed, FileRegistry::new());
    let msgs: Vec<(&str, &str)> =
        r.diagnostics.iter().map(|d| (d.code.as_str(), d.message.as_str())).collect();
    assert_eq!(
        msgs,
        vec![
            ("E_DUPLICATE_ACTION_NAME", "action `pay` declared more than once in module `M`"),
            ("E_DUPLICATE_SURFACE_BLOCK", "module `M` has 2 `surface { … }` blocks; at most one allowed"),
        ]
    );
    assert_eq!(r.diagnostics[0].labels[0].message, "previous declaration here");
    assert_eq!(r.diagnostics[1].labels[0].message, "first declared here");
}

#[test]
fn one_duplicate_surface_diagnostic_per_extra_block() {
    let parsed = vec![(
        FileId(0),
        module_file("M", vec![surface(Vec::new()), surface(Vec::new()), surface(Vec::new())]),
    )];
    let r = build_project(parsed, FileRegistry::new());
    assert_eq!(r.diagnostics.len(), 2);
    for d in &r.diagnostics {
        assert_eq!(d.message, "module `M` has 3 `surface { … }` blocks; at most one allowed");
    }
}

#[test]
fn missing_slots_are_named_in_canonical_order() {
    let a = action(
        "pay",
        vec![
            slot(SlotKind::Idempotency, SlotValue::Idempotency(IdempotencyValue::Idempotent)),
            slot(SlotKind::Retention, SlotValue::Retention(RetentionValue::Ephemeral)),
            slot(SlotKind::RateLimit, SlotValue::RateLimit(RateLimitValue::Unlimited)),
            slot(SlotKind::Availability, SlotValue::Availability(AvailabilityValue::Critical)),
        ],
    );
    let (_elab, diags) = elaborate(&a, None);
    let msgs: Vec<&str> = diags.iter().map(|d| d.message.as_str()).collect();
    assert_eq!(
        msgs,
        vec![
            "action `pay` is missing required slot `auth_channel`",
            "action `pay` is missing required slot `observability`",
            "action `pay` is missing required slot `freshness`",
        ]
    );
    assert!(diags.iter().all(|d| d.code.as_str() == "E_SURFACE_SLOT_MISSING"));
}

#[test]
fn obligations_pass_refuses_an_empty_authenticated_action_name() {
    let mut s = substrate("Auth");
    s.authentication = Some(AuthenticationBlock {
        mappings: vec![AuthenticationMapping {
            surface_action: QualifiedName { segments: Vec::new(), span: Span::synthetic() },
            rhs: AuthRhs::System,
            span: Span::synthetic(),
        }],
        span: Span::synthetic(),
    });
    let parsed = vec![(FileId(0), module_file("M", vec![Decl::Substrate(s)]))];
    let r = build_project(parsed, FileRegistry::new());
    assert!(run_passes(&r, select_passes(false, true, false), false).is_none());
    assert_eq!(run_passes(&r, select_passes(true, false, true), false).map(|d| d.len()), Some(0));
}
