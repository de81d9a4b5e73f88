use surfacide::cst::CstNode;
use surfacide::expr::ExprKind;
use surfacide::scenario::{ScenarioClause, ScenarioKind};
use surfacide::scenario_syntax::convert_scenario_decl;
use surfacide::span::{FileId, Span};

const SRC: &str = "scenario \"Pay\" kind: liveness tags: fast given: x when: Alice does pay(y) then: fails with Denied requires: Bank";

fn at(needle: &str) -> (u32, u32) {
    let s = SRC.find(needle).expect("needle in source") as u32;
    (s, s + needle.len() as u32)
}

fn n(kind: &str, field: Option<&str>, needle: &str, children: Vec<CstNode>) -> CstNode {
    let (start, end) = at(needle);
    CstNode {
        kind: kind.to_string(),
        field: field.map(|f| f.to_string()),
        named: true,
        error: false,
        missing: false,
        start,
        end,
        children,
    }
}

fn id(field: Option<&str>, needle: &str) -> CstNode {
    n("identifier", field, needle, Vec::new())
}

fn decl() -> CstNode {
    let call = n(
        "scenario_call",
        None,
        "Alice does pay(y)",
        vec![id(Some("actor"), "Alice"), id(Some("action"), "pay"), id(None, "y")],
    );
    n(
        "scenario_decl",
        None,
        SRC,
        vec![
            n("string", Some("title"), "\"Pay\"", Vec::new()),
            n("scenario_kind", None, "kind: liveness", vec![id(Some("value"), "liveness")]),
            n("scenario_tags", None, "tags: fast", vec![id(Some("tag"), "fast")]),
            n("scenario_given", None, "given: x", vec![id(None, "x")]),
            n("scenario_when", None, "when: Alice does pay(y)", vec![call]),
            n(
                "scenario_then",
                None,
                "then: fails with Denied",
                vec![n("fails_with_clause", None, "fails with Denied", vec![id(Some("error"), "Denied")])],
            ),
            n("scenario_requires", None, "requires: Bank", vec![id(Some("substrate"), "Bank")]),
        ],
    )
}

#[test]
fn scenario_parts_are_read_in_order() {
    let mut diags = Vec::new();
    let s = convert_scenario_decl(&decl(), SRC, FileId(0), Some("doc".to_string()), &mut diags).expect("a scenario");
    assert!(diags.is_empty());
    assert_eq!(s.title, "Pay");
    assert_eq!(s.kind, ScenarioKind::Liveness);
    assert_eq!(s.tags.len(), 1);
    assert_eq!(s.tags[0].name, "fast");
    assert_eq!(s.requires_in.len(), 1);
    assert_eq!(s.requires_in[0].name, "Bank");
    assert_eq!(s.doc.as_deref(), Some("doc"));
    assert_eq!(s.clauses.len(), 3);
    match &s.clauses[0] {
        ScenarioClause::Given { predicate, .. } => {
            assert!(matches!(&*predicate.kind, ExprKind::Ident(i) if i.name == "x"));
        }
        other => panic!("first clause {:?}", other),
    }
    match &s.clauses[1] {
        ScenarioClause::When { actor, action, args, span } => {
            assert_eq!(actor.name, "Alice");
            assert_eq!(action.segments.len(), 1);
            assert_eq!(action.segments[0].name, "pay");
            assert_eq!(args.len(), 1);
            assert!(matches!(&*args[0].value.kind, ExprKind::Ident(i) if i.name == "y"));
            let (a, b) = at("Alice does pay(y)");
            assert_eq!(*span, Span::new(FileId(0), a, b));
        }
        other => panic!("second clause {:?}", other),
    }
    match &s.clauses[2] {
        ScenarioClause::ThenFailsWith { error_name, .. } => assert_eq!(error_name.name, "Denied"),
        other => panic!("third clause {:?}", other),
    }
}

#[test]
fn scenario_without_parts_is_a_safety_scenario() {
    let bare = CstNode { children: vec![n("string", Some("title"), "\"Pay\"", Vec::new())], ..decl() };
    let mut diags = Vec::new();
    let s = convert_scenario_decl(&bare, SRC, FileId(0), None, &mut diags).expect("a scenario");
    assert_eq!(s.title, "Pay");
    assert_eq!(s.kind, ScenarioKind::Safety);
    assert!(s.tags.is_empty() && s.actors.is_empty() && s.clauses.is_empty() && s.requires_in.is_empty());
    assert_eq!(s.span, Span::new(FileId(0), 0, SRC.len() as u32));
}
