use surfacide::cst::CstNode;
use surfacide::span::{FileId, Span};
use surfacide::ty::TypeKind;
use surfacide::type_syntax::convert_type_expr;

fn n(kind: &str, field: Option<&str>, start: u32, end: u32, children: Vec<CstNode>) -> CstNode {
    CstNode {
        kind: kind.to_string(),
        field: field.map(|f| f.to_string()),
        named: true,
        error: false,
        missing: false,
        start,
        end,
        children,
    }
}

fn simple(start: u32, end: u32, field: Option<&str>) -> CstNode {
    n(
        "type_expr",
        field,
        start,
        end,
        vec![n("simple_type", None, start, end, vec![n("identifier", None, start, end, Vec::new())])],
    )
}

#[test]
fn map_and_set_types() {
    // "Map<Nat, Set<Wallet>>"
    let source = "Map<Nat, Set<Wallet>>";
    let set = n(
        "type_expr",
        Some("value"),
        9,
        20,
        vec![n("generic_type", None, 9, 20, vec![n("identifier", Some("base"), 9, 12, Vec::new()), simple(13, 19, None)])],
    );
    let map = n(
        "type_expr",
        None,
        0,
        21,
        vec![n(
            "generic_type",
            None,
            0,
            21,
            vec![n("identifier", Some("base"), 0, 3, Vec::new()), simple(4, 7, Some("key")), set],
        )],
    );
    let mut diags = Vec::new();
    let t = convert_type_expr(&map, source, FileId(0), &mut diags);
    assert!(diags.is_empty());
    assert_eq!(t.span, Span::new(FileId(0), 0, 21));
    match t.kind {
        TypeKind::MapOf(k, v) => {
            assert_eq!(k.kind, TypeKind::Nat);
            match v.kind {
                TypeKind::SetOf(inner) => match inner.kind {
                    TypeKind::Named(q) => assert_eq!(q.dotted(), "Wallet"),
                    other => panic!("unexpected {:?}", other),
                },
                other => panic!("unexpected {:?}", other),
            }
        }
        other => panic!("unexpected {:?}", other),
    }
}

#[test]
fn bad_generic_and_empty_type_are_reported() {
    // "Bag<Nat>" then an empty type_expr
    let source = "Bag<Nat>";
    let bag = n(
        "type_expr",
        None,
        0,
        8,
        vec![n("generic_type", None, 0, 8, vec![n("identifier", Some("base"), 0, 3, Vec::new()), simple(4, 7, None)])],
    );
    let mut diags = Vec::new();
    let t = convert_type_expr(&bag, source, FileId(0), &mut diags);
    assert_eq!(diags.len(), 1);
    assert_eq!(diags[0].code.as_str(), "E_INTERNAL");
    assert_eq!(diags[0].message, "unhandled generic type `Bag` with 1 args");
    match t.kind {
        TypeKind::Named(q) => {
            assert_eq!(q.dotted(), "Bag");
            assert_eq!(q.span, Span::new(FileId(0), 0, 3));
        }
        other => panic!("unexpected {:?}", other),
    }
    let empty = n("type_expr", None, 2, 2, Vec::new());
    let t = convert_type_expr(&empty, source, FileId(0), &mut diags);
    assert_eq!(diags[1].message, "empty type_expr");
    match t.kind {
        TypeKind::Named(q) => assert_eq!(q.dotted(), "<empty>"),
        other => panic!("unexpected {:?}", other),
    }
}
