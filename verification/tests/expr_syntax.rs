use surfacide::cst::CstNode;
use surfacide::expr::{BinOp, ExprKind, PathAccessor};
use surfacide::expr_syntax::convert_expr;
use surfacide::span::{FileId, Span};

fn n(kind: &str, field: Option<&str>, start: u32, end: u32, children: Vec<CstNode>) -> CstNode {
    CstNode {
        kind: kind.to_string(),
        field: field.map(|f| f.to_string()),
        named: true,
        error: false,
        missing: false,
        start,
        end,
        children,
    }
}

fn tok(kind: &str, start: u32, end: u32) -> CstNode {
    CstNode { named: false, ..n(kind, None, start, end, Vec::new()) }
}

fn sp(start: u32, end: u32) -> Span {
    Span::new(FileId(0), start, end)
}

#[test]
fn binary_addition_reads_operands_and_operator() {
    let source = "a + 1";
    let tree = n(
        "binary_expr",
        None,
        0,
        5,
        vec![n("identifier", None, 0, 1, Vec::new()), tok("+", 2, 3), n("number", None, 4, 5, Vec::new())],
    );
    let mut diags = Vec::new();
    let e = convert_expr(&tree, source, FileId(0), &mut diags);
    assert!(diags.is_empty());
    assert_eq!(e.span, sp(0, 5));
    match *e.kind {
        ExprKind::BinOp(op, l, r) => {
            assert_eq!(op, BinOp::Add);
            match *l.kind {
                ExprKind::Ident(id) => assert_eq!(id.name, "a"),
                other => panic!("left operand: {:?}", other),
            }
            assert_eq!(*r.kind, ExprKind::LitNat(1));
            assert_eq!(r.span, sp(4, 5));
        }
        other => panic!("expected a binary operation, got {:?}", other),
    }
}

#[test]
fn unknown_binary_operator_is_an_internal_error() {
    let source = "a ^ b";
    let tree = n(
        "binary_expr",
        None,
        0,
        5,
        vec![n("identifier", None, 0, 1, Vec::new()), tok("^", 2, 3), n("identifier", None, 4, 5, Vec::new())],
    );
    let mut diags = Vec::new();
    let e = convert_expr(&tree, source, FileId(0), &mut diags);
    assert_eq!(*e.kind, ExprKind::LitNone);
    assert_eq!(diags.len(), 1);
    assert!(diags[0].is_error());
    assert_eq!(diags[0].message, "unknown binary op `^`");
    assert_eq!(diags[0].primary_span, sp(0, 5));
}

#[test]
fn nested_field_access_keeps_accessors_in_order() {
    let source = "a.b.c";
    let inner = n(
        "field_access",
        Some("object"),
        0,
        3,
        vec![n("identifier", Some("object"), 0, 1, Vec::new()), n("dotted_field", None, 1, 3, Vec::new())],
    );
    let tree = n("field_access", None, 0, 5, vec![inner, n("dotted_field", None, 3, 5, Vec::new())]);
    let mut diags = Vec::new();
    let e = convert_expr(&tree, source, FileId(0), &mut diags);
    assert!(diags.is_empty());
    match *e.kind {
        ExprKind::Path(p) => {
            assert_eq!(p.head.name, "a");
            let names: Vec<String> = p
                .accessors
                .iter()
                .map(|a| match a {
                    PathAccessor::Field(id) => id.name.clone(),
                    other => panic!("accessor {:?}", other),
                })
                .collect();
            assert_eq!(names, vec!["b".to_string(), "c".to_string()]);
            match &p.accessors[1] {
                PathAccessor::Field(id) => assert_eq!(id.span, sp(3, 5)),
                other => panic!("accessor {:?}", other),
            }
        }
        other => panic!("expected a path, got {:?}", other),
    }
}

#[test]
fn count_with_one_argument_is_the_unbounded_helper() {
    let source = "count(xs)";
    let args = n(
        "call_args",
        None,
        5,
        9,
        vec![tok("(", 5, 6), n("call_arg", None, 6, 8, vec![n("identifier", None, 6, 8, Vec::new())]), tok(")", 8, 9)],
    );
    let tree = n("call_expr", None, 0, 9, vec![n("identifier", Some("callee"), 0, 5, Vec::new()), args]);
    let mut diags = Vec::new();
    let e = convert_expr(&tree, source, FileId(0), &mut diags);
    assert!(diags.is_empty());
    match *e.kind {
        ExprKind::CountUnbounded(x) => match *x.kind {
            ExprKind::Ident(id) => {
                assert_eq!(id.name, "xs");
                assert_eq!(id.span, sp(6, 8));
            }
            other => panic!("argument {:?}", other),
        },
        other => panic!("expected count, got {:?}", other),
    }
}

#[test]
fn other_calls_stay_calls() {
    let source = "f(x)";
    let args = n(
        "call_args",
        None,
        1,
        4,
        vec![tok("(", 1, 2), n("call_arg", None, 2, 3, vec![n("identifier", None, 2, 3, Vec::new())]), tok(")", 3, 4)],
    );
    let tree = n("call_expr", None, 0, 4, vec![n("identifier", Some("callee"), 0, 1, Vec::new()), args]);
    let mut diags = Vec::new();
    let e = convert_expr(&tree, source, FileId(0), &mut diags);
    match *e.kind {
        ExprKind::Call { callee, args } => {
            assert!(matches!(*callee.kind, ExprKind::Ident(ref id) if id.name == "f"));
            assert_eq!(args.len(), 1);
            assert!(args[0].name.is_none());
            assert_eq!(args[0].span, sp(2, 3));
        }
        other => panic!("expected a call, got {:?}", other),
    }
}

#[test]
fn literals_and_unknown_kinds() {
    let mut diags = Vec::new();
    let e = convert_expr(&n("number", None, 0, 2, Vec::new()), "42", FileId(0), &mut diags);
    assert_eq!(*e.kind, ExprKind::LitNat(42));
    let e = convert_expr(&n("string", None, 0, 4, Vec::new()), "\"hi\"", FileId(0), &mut diags);
    assert_eq!(*e.kind, ExprKind::LitString("hi".to_string()));
    let e = convert_expr(&n("bool_lit", None, 0, 4, Vec::new()), "true", FileId(0), &mut diags);
    assert_eq!(*e.kind, ExprKind::LitBool(true));
    let e = convert_expr(&n("mystery", None, 0, 1, Vec::new()), "x", FileId(0), &mut diags);
    assert_eq!(*e.kind, ExprKind::LitString("<unhandled:mystery>".to_string()));
    assert!(diags.is_empty());
}
