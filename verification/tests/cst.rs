use surfacide::cst::{
    collect_errors, convert_qualified_name, convert_simple_type, first_child, ident_from_node, named_children_of,
    text_of, CstNode,
};
use surfacide::span::{FileId, Span};
use surfacide::ty::TypeKind;

fn node(kind: &str, named: bool, start: u32, end: u32, children: Vec<CstNode>) -> CstNode {
    CstNode {
        kind: kind.to_string(),
        field: None,
        named,
        error: false,
        missing: false,
        start,
        end,
        children,
    }
}

#[test]
fn errors_are_collected_in_pre_order() {
    let source = "module  Foo {{ bar";
    let mut bad = node("ERROR", true, 8, 18, Vec::new());
    bad.error = true;
    let mut gone = node("}", false, 18, 18, Vec::new());
    gone.missing = true;
    let root = node("source_file", true, 0, 18, vec![node("module_header", true, 0, 7, Vec::new()), bad, gone]);
    let mut out = Vec::new();
    collect_errors(&root, FileId(3), source, &mut out);
    let got: Vec<(&str, &str, Span)> =
        out.iter().map(|d| (d.code.as_str(), d.message.as_str(), d.primary_span)).collect();
    assert_eq!(
        got,
        vec![
            ("E_PARSE", "syntax error near `Foo`", Span::new(FileId(3), 8, 18)),
            ("E_PARSE", "missing `}` here", Span::new(FileId(3), 18, 18)),
        ]
    );
}

#[test]
fn error_snippet_is_cut_at_forty_bytes_and_blank_text_is_kept() {
    let source = format!("{}{}", " ".repeat(45), "x");
    let mut bad = node("ERROR", true, 0, 46, Vec::new());
    bad.error = true;
    let mut out = Vec::new();
    collect_errors(&bad, FileId(0), &source, &mut out);
    assert_eq!(out[0].message, format!("syntax error near `{}`", " ".repeat(40)));
}

#[test]
fn clean_tree_has_no_errors() {
    let root = node("source_file", true, 0, 3, vec![node("identifier", true, 0, 3, Vec::new())]);
    let mut out = Vec::new();
    collect_errors(&root, FileId(0), "abc", &mut out);
    assert!(out.is_empty());
}

#[test]
fn node_text_and_children_lookup() {
    let source = "A.Bee.C";
    let q = node(
        "qualified_name",
        true,
        0,
        7,
        vec![
            node("identifier", true, 0, 1, Vec::new()),
            node(".", false, 1, 2, Vec::new()),
            node("identifier", true, 2, 5, Vec::new()),
            node(".", false, 5, 6, Vec::new()),
            node("identifier", true, 6, 7, Vec::new()),
        ],
    );
    assert_eq!(text_of(&q, source), "A.Bee.C");
    assert_eq!(text_of(&node("x", true, 5, 99, Vec::new()), source), "");
    assert_eq!(first_child(&q, "identifier").map(|c| c.start), Some(0));
    assert!(first_child(&q, ".").is_none(), "anonymous children are not looked up");
    assert_eq!(named_children_of(&q, "identifier").len(), 3);
    let id = ident_from_node(&q.children[2], source, FileId(1));
    assert_eq!(id.as_str(), "Bee");
    assert_eq!(id.span, Span::new(FileId(1), 2, 5));
    let qn = convert_qualified_name(&q, source, FileId(1));
    assert_eq!(qn.dotted(), "A.Bee.C");
    assert_eq!(qn.span, Span::new(FileId(1), 0, 7));
}

#[test]
fn qualified_name_without_identifiers_is_missing() {
    let q = node("qualified_name", true, 4, 6, Vec::new());
    let qn = convert_qualified_name(&q, "abcdefgh", FileId(0));
    assert_eq!(qn.dotted(), "<missing>");
    assert_eq!(qn.span, Span::new(FileId(0), 4, 6));
}

#[test]
fn simple_types_by_name() {
    let source = "Nat Wallet";
    let nat = node("simple_type", true, 0, 3, vec![node("identifier", true, 0, 3, Vec::new())]);
    assert_eq!(convert_simple_type(&nat, source, FileId(0)), TypeKind::Nat);
    let wallet = node("simple_type", true, 4, 10, vec![node("identifier", true, 4, 10, Vec::new())]);
    match convert_simple_type(&wallet, source, FileId(0)) {
        TypeKind::Named(q) => {
            assert_eq!(q.dotted(), "Wallet");
            assert_eq!(q.span, Span::new(FileId(0), 4, 10));
        }
        other => panic!("expected a named type, got {:?}", other),
    }
    // Without an identifier child the node's own text is the name.
    let bare = node("simple_type", true, 0, 3, Vec::new());
    assert_eq!(convert_simple_type(&bare, source, FileId(0)), TypeKind::Nat);
}

fn field(mut n: CstNode, f: &str) -> CstNode {
    n.field = Some(f.to_string());
    n
}

#[test]
fn module_header_and_use_decl() {
    // "private module Shop.Cart"
    let source = "private module Shop.Cart";
    let name = field(
        node(
            "qualified_name",
            true,
            15,
            24,
            vec![node("identifier", true, 15, 19, Vec::new()), node("identifier", true, 20, 24, Vec::new())],
        ),
        "name",
    );
    let header = node(
        "module_header",
        true,
        0,
        24,
        vec![field(node("private", false, 0, 7, Vec::new()), "visibility"), name],
    );
    let h = surfacide::cst::convert_module_header(&header, source, FileId(0), Some("doc".to_string()));
    assert_eq!(h.name.dotted(), "Shop.Cart");
    assert!(h.private);
    assert_eq!(h.doc.as_deref(), Some("doc"));
    assert_eq!(h.span, Span::new(FileId(0), 0, 24));

    // "use Shop.Cart { add }" with the items as identifier children.
    let source = "use Shop.Cart { add }";
    let module = node(
        "qualified_name",
        true,
        4,
        13,
        vec![node("identifier", true, 4, 8, Vec::new()), node("identifier", true, 9, 13, Vec::new())],
    );
    let u = node("use_decl", true, 0, 21, vec![module, node("identifier", true, 16, 19, Vec::new())]);
    let d = surfacide::cst::convert_use_decl(&u, source, FileId(0)).expect("a use declaration");
    assert_eq!(d.module.dotted(), "Shop.Cart");
    assert_eq!(d.items.len(), 1);
    assert_eq!(d.items[0].as_str(), "add");
    assert!(surfacide::cst::convert_use_decl(&node("use_decl", true, 0, 3, Vec::new()), "use", FileId(0)).is_none());
}
