use surfacide::compose::{AcknowledgedArg, AcknowledgedBlock, AcknowledgedEntry, ComposeBlock, ObligationKind};
use surfacide::decl::Decl;
use surfacide::ident::{Ident, QualifiedName};
use surfacide::obligations::run;
use surfacide::project::{ModuleAggregate, Project};
use surfacide::span::Span;
use surfacide::substrate::{ChannelDecl, ChannelMultiplicity};

fn id(s: &str) -> Ident {
    Ident::new(s, Span::synthetic())
}

fn channel(name: &str, from: &str, to: &str) -> ChannelDecl {
    ChannelDecl {
        name: id(name),
        from_comp: QualifiedName::new(vec![id(from)]),
        from_mult: ChannelMultiplicity::One,
        to_comp: QualifiedName::new(vec![id(to)]),
        to_mult: ChannelMultiplicity::One,
        span: Span::synthetic(),
    }
}

fn compose_with(
    name: &str,
    channels: Vec<ChannelDecl>,
    ack: Option<AcknowledgedBlock>,
) -> ComposeBlock {
    ComposeBlock {
        name: id(name),
        members: Vec::new(),
        channels,
        realizes: None,
        acknowledged: ack,
        fairness: Vec::new(),
        doc: None,
        span: Span::synthetic(),
    }
}

fn make_project(c: ComposeBlock) -> Project {
    let mut p = Project::new();
    p.modules.insert(
        "M".to_string(),
        ModuleAggregate {
            name: QualifiedName::new(vec![id("M")]),
            private: false,
            files: Vec::new(),
            decls: vec![Decl::Compose(c)],
        },
    );
    p
}

fn ack_entry(kind: ObligationKind, name: &str) -> AcknowledgedEntry {
    AcknowledgedEntry {
        kind,
        args: vec![AcknowledgedArg::Component(QualifiedName::new(vec![id(name)]))],
        resolution: None,
        because: Some("test".to_string()),
        because_span: Some(Span::synthetic()),
        span: Span::synthetic(),
    }
}

#[test]
fn channel_without_acknowledgement_warns() {
    let p = make_project(compose_with("Prod", vec![channel("c", "S1", "S2")], None));
    let out = run(&p, false);
    assert_eq!(out.diagnostics.len(), 1);
    assert_eq!(out.diagnostics[0].code.as_str(), "W_AVAILABILITY_CLOSURE_WEAKER");
}

#[test]
fn channel_with_acknowledgement_is_clean() {
    let p = make_project(compose_with(
        "Prod",
        vec![channel("c", "S1", "S2")],
        Some(AcknowledgedBlock {
            entries: vec![ack_entry(ObligationKind::AvailabilityDependsOn, "S2")],
            span: Span::synthetic(),
        }),
    ));
    let out = run(&p, false);
    assert!(out.diagnostics.is_empty(), "{:?}", out.diagnostics);
}

#[test]
fn orphan_acknowledgement_warns() {
    let p = make_project(compose_with(
        "Prod",
        Vec::new(),
        Some(AcknowledgedBlock {
            entries: vec![ack_entry(ObligationKind::AvailabilityDependsOn, "Mystery")],
            span: Span::synthetic(),
        }),
    ));
    let out = run(&p, false);
    assert!(out.diagnostics.iter().any(|d| d.code.as_str() == "W_ACK_NO_RULE"));
}

#[test]
fn strict_mode_promotes_to_error() {
    let p = make_project(compose_with("Prod", vec![channel("c", "S1", "S2")], None));
    let out = run(&p, true);
    let err = out
        .diagnostics
        .iter()
        .find(|d| d.is_error())
        .expect("strict mode must error");
    assert_eq!(err.code.as_str(), "E_OBLIGATION_UNHANDLED");
}
