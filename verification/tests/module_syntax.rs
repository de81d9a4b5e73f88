use surfacide::codes::{Code, ErrorKind};
use surfacide::compose::{AcknowledgedArg, AcknowledgedResolution, ObligationKind};
use surfacide::compose_syntax::{convert_ack_entry, unquote_str};
use surfacide::cst::CstNode;
use surfacide::decl::Decl;
use surfacide::expr::ExprKind;
use surfacide::module_syntax::convert_module_file;
use surfacide::span::FileId;
use surfacide::substrate::{ChannelMultiplicity, RealizesTarget};
use surfacide::substrate_syntax::convert_substrate_block;

/// A node spanning the first occurrence of `needle` at or after `from`.
fn node(src: &str, kind: &str, field: Option<&str>, needle: &str, from: usize, children: Vec<CstNode>) -> CstNode {
    let start = from + src[from..].find(needle).expect("needle in source");
    CstNode {
        kind: kind.to_string(),
        field: field.map(|f| f.to_string()),
        named: true,
        error: false,
        missing: false,
        start: start as u32,
        end: (start + needle.len()) as u32,
        children,
    }
}

fn root(src: &str, children: Vec<CstNode>) -> CstNode {
    node(src, "source_file", None, src, 0, children)
}

fn header(src: &str, name: &str, from: usize) -> CstNode {
    let text = format!("module {}", name);
    let at = from + src[from..].find(&text).unwrap();
    node(src, "module_header", None, &text, from, vec![node(
        src,
        "qualified_name",
        Some("name"),
        name,
        at + 7,
        vec![node(src, "identifier", None, name, at + 7, Vec::new())],
    )])
}

fn named_decl(src: &str, kind: &str, text: &str, name: &str) -> CstNode {
    let at = src.find(text).unwrap();
    node(src, kind, None, text, 0, vec![node(src, "identifier", Some("name"), name, at, Vec::new())])
}

#[test]
fn module_with_header_actor_and_event_reads_both() {
    let src = "module M\nactor User\nevent Created()\n";
    let tree = root(src, vec![
        header(src, "M", 0),
        named_decl(src, "actor_decl", "actor User", "User"),
        named_decl(src, "event_decl", "event Created()", "Created"),
    ]);
    let (m, diags) = convert_module_file(&tree, src, FileId(0));
    assert!(diags.is_empty());
    let m = m.expect("module");
    assert_eq!(m.header.name.segments.len(), 1);
    assert_eq!(m.header.name.segments[0].as_str(), "M");
    assert_eq!(m.decls.len(), 2);
    match &m.decls[0] {
        Decl::Actor(a) => assert_eq!(a.name.as_str(), "User"),
        other => panic!("expected an actor, got {:?}", other),
    }
    match &m.decls[1] {
        Decl::Event(e) => {
            assert_eq!(e.name.as_str(), "Created");
            assert!(e.fields.is_empty());
        }
        other => panic!("expected an event, got {:?}", other),
    }
}

#[test]
fn doc_string_attaches_to_the_next_declaration_only() {
    let src = "module M\n\"\"\" The users. \"\"\"\nactor User\nactor Admin\n";
    let tree = root(src, vec![
        header(src, "M", 0),
        node(src, "doc_string", None, "\"\"\" The users. \"\"\"", 0, Vec::new()),
        named_decl(src, "actor_decl", "actor User", "User"),
        named_decl(src, "actor_decl", "actor Admin", "Admin"),
    ]);
    let (m, diags) = convert_module_file(&tree, src, FileId(0));
    assert!(diags.is_empty());
    let m = m.unwrap();
    match (&m.decls[0], &m.decls[1]) {
        (Decl::Actor(a), Decl::Actor(b)) => {
            assert_eq!(a.doc.as_deref(), Some("The users."));
            assert_eq!(b.doc, None);
        }
        _ => panic!("expected two actors"),
    }
}

#[test]
fn file_without_module_header_is_a_parse_error() {
    let src = "actor User\n";
    let tree = root(src, vec![named_decl(src, "actor_decl", "actor User", "User")]);
    let (m, diags) = convert_module_file(&tree, src, FileId(0));
    assert!(m.is_none());
    assert_eq!(diags.len(), 1);
    assert_eq!(diags[0].code, Code::Error(ErrorKind::ParseError));
    assert_eq!(diags[0].message, "missing `module <Name>` header (every .surf file needs one)");
    assert_eq!((diags[0].primary_span.start, diags[0].primary_span.end), (0, src.len() as u32));
}

#[test]
fn second_module_header_is_an_internal_error_and_the_first_stands() {
    let src = "module A\nmodule B\n";
    let tree = root(src, vec![header(src, "A", 0), header(src, "B", 9)]);
    let (m, diags) = convert_module_file(&tree, src, FileId(0));
    assert_eq!(m.unwrap().header.name.segments[0].as_str(), "A");
    assert_eq!(diags.len(), 1);
    assert_eq!(diags[0].code, Code::Error(ErrorKind::Internal));
    assert_eq!(diags[0].message, "duplicate `module` header in one file");
    assert_eq!(diags[0].primary_span.start, 9);
}

#[test]
fn unknown_top_level_kind_is_reported_and_skipped() {
    let src = "module M\nmystery Q\n";
    let tree = root(src, vec![header(src, "M", 0), named_decl(src, "mystery_decl", "mystery Q", "Q")]);
    let (m, diags) = convert_module_file(&tree, src, FileId(0));
    assert!(m.unwrap().decls.is_empty());
    assert_eq!(diags.len(), 1);
    assert_eq!(diags[0].message, "unhandled top-level decl kind `mystery_decl`");
}

#[test]
fn root_that_is_not_a_source_file_is_refused() {
    let src = "actor User";
    let tree = named_decl(src, "actor_decl", "actor User", "User");
    let (m, diags) = convert_module_file(&tree, src, FileId(0));
    assert!(m.is_none());
    assert_eq!(diags.len(), 1);
    assert_eq!(diags[0].message, "expected `source_file` root, got `actor_decl` (parser invariant)");
}

#[test]
fn substrate_with_component_channel_and_internal_block() {
    let src = "substrate Sub realizes M.surface { component C { } channel Bus { from C to D } internal { } }";
    let comp_at = src.find("component C").unwrap();
    let chan_at = src.find("channel Bus").unwrap();
    let sub = node(src, "substrate_block", None, src, 0, vec![
        node(src, "identifier", Some("name"), "Sub", 0, Vec::new()),
        node(src, "qualified_name", Some("surface"), "M.surface", 0, vec![
            node(src, "identifier", None, "M", 23, Vec::new()),
            node(src, "identifier", None, "surface", 25, Vec::new()),
        ]),
        node(src, "component_decl", None, "component C { }", 0, vec![
            node(src, "identifier", Some("name"), "C", comp_at + 10, Vec::new()),
        ]),
        node(src, "channel_decl", None, "channel Bus { from C to D }", 0, vec![
            node(src, "identifier", Some("name"), "Bus", chan_at, Vec::new()),
            node(src, "identifier", Some("from"), "C", chan_at + 19, Vec::new()),
            node(src, "identifier", Some("to"), "D", chan_at, Vec::new()),
        ]),
        node(src, "internal_block", None, "internal { }", 0, Vec::new()),
    ]);
    let mut out = Vec::new();
    let b = convert_substrate_block(&sub, src, FileId(0), None, &mut out);
    assert!(out.is_empty());
    assert_eq!(b.name.as_str(), "Sub");
    let target = b.realizes_target.expect("realizes target");
    assert_eq!(target.segments.len(), 2);
    assert_eq!(target.segments[1].as_str(), "surface");
    assert_eq!(b.components.len(), 1);
    assert_eq!(b.components[0].name.as_str(), "C");
    assert_eq!(b.channels.len(), 1);
    assert_eq!(b.channels[0].name.as_str(), "Bus");
    assert_eq!(b.channels[0].from_comp.segments[0].as_str(), "C");
    assert_eq!(b.channels[0].to_comp.segments[0].as_str(), "D");
    assert_eq!(b.channels[0].from_mult, ChannelMultiplicity::One);
    let internal = b.internal.expect("internal block");
    assert!(internal.entries.is_empty());
    assert!(b.auxiliary.is_none() && b.maps.is_none() && b.acknowledged.is_none());
}

#[test]
fn substrate_without_name_reads_as_missing() {
    let src = "substrate { }";
    let sub = node(src, "substrate_block", None, src, 0, Vec::new());
    let mut out = Vec::new();
    let b = convert_substrate_block(&sub, src, FileId(0), Some("doc".to_string()), &mut out);
    assert_eq!(b.name.as_str(), "<missing>");
    assert_eq!((b.name.span.start, b.name.span.end), (0, src.len() as u32));
    assert!(b.realizes_target.is_none());
    assert_eq!(b.doc.as_deref(), Some("doc"));
}

#[test]
fn compose_block_reads_its_members_in_order() {
    let src = "module M\ncompose Top = A + B { }\n";
    let at = src.find("compose").unwrap();
    let tree = root(src, vec![
        header(src, "M", 0),
        node(src, "compose_block", None, "compose Top = A + B { }", 0, vec![
            node(src, "identifier", Some("name"), "Top", at, Vec::new()),
            node(src, "identifier", Some("part"), "A", at + 13, Vec::new()),
            node(src, "identifier", Some("part"), "B", at + 17, Vec::new()),
        ]),
    ]);
    let (m, diags) = convert_module_file(&tree, src, FileId(0));
    assert!(diags.is_empty());
    match &m.unwrap().decls[0] {
        Decl::Compose(c) => {
            assert_eq!(c.name.as_str(), "Top");
            assert_eq!(c.members.len(), 2);
            assert_eq!(c.members[0].as_str(), "A");
            assert_eq!(c.members[1].as_str(), "B");
        }
        other => panic!("expected a compose block, got {:?}", other),
    }
}

#[test]
fn acknowledgement_with_unknown_kind_is_an_error_and_reads_as_information_flow() {
    let src = "bogus: [X]";
    let e = node(src, "ack_entry", None, src, 0, vec![
        node(src, "identifier", Some("kind"), "bogus", 0, Vec::new()),
        node(src, "ack_list", None, "[X]", 0, vec![node(src, "ack_list_item", None, "X", 0, vec![
            node(src, "identifier", None, "X", 0, Vec::new()),
        ])]),
    ]);
    let mut out = Vec::new();
    let a = convert_ack_entry(&e, src, FileId(0), &mut out);
    assert_eq!(a.kind, ObligationKind::InformationFlow);
    assert_eq!(out.len(), 1);
    assert_eq!(out[0].code, Code::Error(ErrorKind::SurfaceSlotUnknownValue));
    assert_eq!(
        out[0].message,
        "unknown acknowledgement kind `bogus`; expected one of: availability_depends_on, availability_consistency, \
         availability_channel_class, trust_transitive, information_flow, pii_anon, write_conflict, \
         replay_amplification, retention_propagation, actor_view_leak, derived_write, freshness_channel"
    );
    assert_eq!((out[0].primary_span.start, out[0].primary_span.end), (0, 5));
    assert_eq!(a.args.len(), 1);
}

#[test]
fn acknowledgement_list_reads_arguments_and_reason() {
    let src = "trust_transitive: [Signer because: \"keys are rotated\"]";
    let b_at = src.find("because").unwrap();
    let e = node(src, "ack_entry", None, src, 0, vec![
        node(src, "identifier", Some("kind"), "trust_transitive", 0, Vec::new()),
        node(src, "ack_list", None, "[Signer because: \"keys are rotated\"]", 0, vec![node(
            src,
            "ack_list_item",
            None,
            "Signer because: \"keys are rotated\"",
            0,
            vec![
                node(src, "identifier", None, "Signer", 0, Vec::new()),
                node(src, "ack_because", None, "because: \"keys are rotated\"", 0, vec![
                    node(src, "string", Some("reason"), "\"keys are rotated\"", b_at, Vec::new()),
                ]),
            ],
        )]),
    ]);
    let mut out = Vec::new();
    let a = convert_ack_entry(&e, src, FileId(0), &mut out);
    assert!(out.is_empty());
    assert_eq!(a.kind, ObligationKind::TrustTransitive);
    assert_eq!(a.args.len(), 1);
    match &a.args[0] {
        AcknowledgedArg::Component(q) => {
            assert_eq!(q.segments.len(), 1);
            assert_eq!(q.segments[0].as_str(), "Signer");
        }
        other => panic!("expected a component, got {:?}", other),
    }
    assert_eq!(a.because.as_deref(), Some("keys are rotated"));
    assert_eq!(a.because_span.map(|s| s.start), Some(b_at as u32));
    assert!(a.resolution.is_none());
}

#[test]
fn acknowledgement_map_value_call_is_its_resolution() {
    let src = "write_conflict: { cache: serialized_by(Ledger) }";
    let v_at = src.find("serialized_by").unwrap();
    let e = node(src, "ack_entry", None, src, 0, vec![
        node(src, "identifier", Some("kind"), "write_conflict", 0, Vec::new()),
        node(src, "ack_map", None, "{ cache: serialized_by(Ledger) }", 0, vec![node(
            src,
            "ack_map_item",
            None,
            "cache: serialized_by(Ledger)",
            0,
            vec![
                node(src, "identifier", Some("key"), "cache", 0, Vec::new()),
                node(src, "call_expr", Some("value"), "serialized_by(Ledger)", 0, vec![
                    node(src, "identifier", Some("callee"), "serialized_by", 0, Vec::new()),
                    node(src, "call_args", None, "(Ledger)", 0, vec![node(src, "call_arg", None, "Ledger", v_at, vec![
                        node(src, "identifier", Some("value"), "Ledger", v_at, Vec::new()),
                    ])]),
                ]),
            ],
        )]),
    ]);
    let mut out = Vec::new();
    let a = convert_ack_entry(&e, src, FileId(0), &mut out);
    assert!(out.is_empty());
    assert_eq!(a.kind, ObligationKind::WriteConflict);
    assert_eq!(a.args.len(), 1);
    match &a.args[0] {
        AcknowledgedArg::Component(q) => assert_eq!(q.segments[0].as_str(), "cache"),
        other => panic!("expected a component, got {:?}", other),
    }
    match a.resolution.expect("resolution") {
        AcknowledgedResolution::Other(name, args) => {
            assert_eq!(name.as_str(), "serialized_by");
            assert_eq!(name.span.start, v_at as u32);
            assert_eq!(args.len(), 1);
            assert!(matches!(&*args[0].kind, ExprKind::Ident(i) if i.as_str() == "Ledger"));
        }
        other => panic!("unexpected resolution {:?}", other),
    }
}

#[test]
fn reasons_lose_their_quotes() {
    assert_eq!(unquote_str("\"\"\"long reason\"\"\""), "long reason");
    assert_eq!(unquote_str("\"short\""), "short");
    assert_eq!(unquote_str("bare"), "bare");
    assert_eq!(unquote_str("\"\"\"\""), "\"\"");
    assert_eq!(unquote_str("\""), "\"");
}

#[test]
fn surface_block_with_state_field_and_action() {
    let src = "module M\nsurface { state { x : Nat } action create() }\n";
    let st = src.find("state {").unwrap();
    let ac = src.find("action create").unwrap();
    let tree = root(src, vec![
        header(src, "M", 0),
        node(src, "surface_block", None, "surface { state { x : Nat } action create() }", 0, vec![
            node(src, "state_block", None, "state { x : Nat }", 0, vec![node(src, "state_field", None, "x : Nat", st, vec![
                node(src, "identifier", Some("name"), "x", st + 8, Vec::new()),
            ])]),
            node(src, "action_decl", None, "action create()", 0, vec![
                node(src, "identifier", Some("name"), "create", ac, Vec::new()),
            ]),
        ]),
    ]);
    let (m, diags) = convert_module_file(&tree, src, FileId(0));
    assert!(diags.is_empty());
    match &m.unwrap().decls[0] {
        Decl::Surface(s) => {
            assert_eq!(s.state.len(), 1);
            assert_eq!(s.state[0].name.as_str(), "x");
            assert_eq!(s.actions.len(), 1);
            assert_eq!(s.actions[0].name.as_str(), "create");
            assert!(s.actions[0].params.is_empty());
        }
        other => panic!("expected a surface block, got {:?}", other),
    }
}

#[test]
fn realization_clause_names_the_surface_action_and_its_arguments() {
    let src = "substrate S { realizes { create(u) -> stutter } }";
    let at = src.find("create").unwrap();
    let sub = node(src, "substrate_block", None, src, 0, vec![
        node(src, "identifier", Some("name"), "S", 10, Vec::new()),
        node(src, "realizes_block", None, "realizes { create(u) -> stutter }", 0, vec![node(
            src,
            "realizes_entry",
            None,
            "create(u) -> stutter",
            0,
            vec![node(src, "realizes_clause", None, "create(u) -> stutter", 0, vec![
                node(src, "identifier", Some("action"), "create", 0, Vec::new()),
                node(src, "identifier", None, "u", at, Vec::new()),
                node(src, "stutter", Some("target"), "stutter", 0, Vec::new()),
            ])],
        )]),
    ]);
    let mut out = Vec::new();
    let b = convert_substrate_block(&sub, src, FileId(0), None, &mut out);
    assert!(out.is_empty());
    let r = b.realizes.expect("realizes block");
    assert_eq!(r.clauses.len(), 1);
    let c = &r.clauses[0];
    assert_eq!(c.surface_action.segments.len(), 2);
    assert_eq!(c.surface_action.segments[0].as_str(), "surface");
    assert_eq!(c.surface_action.segments[1].as_str(), "create");
    assert_eq!(c.args.len(), 1);
    assert_eq!(c.args[0].as_str(), "u");
    assert!(matches!(c.target, RealizesTarget::Stutter));
    assert!(c.for_some.is_empty() && c.when_guard.is_none());
}
