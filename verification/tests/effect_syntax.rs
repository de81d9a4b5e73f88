use surfacide::cst::CstNode;
use surfacide::effect_syntax::{convert_effect_block, convert_effect_stmt};
use surfacide::expr::ExprKind;
use surfacide::span::FileId;
use surfacide::surface::EffectStmt;

fn node(src: &str, kind: &str, field: Option<&str>, needle: &str, named: bool, children: Vec<CstNode>) -> CstNode {
    let start = src.find(needle).expect("needle in source") as u32;
    CstNode {
        kind: kind.to_string(),
        field: field.map(|f| f.to_string()),
        named,
        error: false,
        missing: false,
        start,
        end: start + needle.len() as u32,
        children,
    }
}

#[test]
fn if_statement_with_else_clause() {
    let src = "if ok then x := 1 else return y";
    let n = |kind: &str, field: Option<&str>, needle: &str, children: Vec<CstNode>| node(src, kind, field, needle, true, children);
    let assign = n(
        "assign_effect",
        None,
        "x := 1",
        vec![n("identifier", Some("target"), "x", Vec::new()), n("number", Some("value"), "1", Vec::new())],
    );
    let ret = n("return_effect", None, "return y", vec![n("identifier", Some("value"), "y", Vec::new())]);
    let els = n("else_clause", None, "else return y", vec![ret]);
    let tree = n("if_effect", None, src, vec![n("identifier", Some("guard"), "ok", Vec::new()), assign, els]);
    let mut diags = Vec::new();
    let s = convert_effect_stmt(&tree, src, FileId(0), &mut diags).expect("a statement");
    assert!(diags.is_empty());
    match s {
        EffectStmt::IfElse { cond, then_block, else_block, then_label, else_label, .. } => {
            assert!(matches!(&*cond.kind, ExprKind::Ident(i) if i.name == "ok"));
            assert!(then_label.is_none() && else_label.is_none());
            assert_eq!(then_block.stmts.len(), 1);
            match &then_block.stmts[0] {
                EffectStmt::Assign { target, value, .. } => {
                    assert!(matches!(&*target.kind, ExprKind::Ident(i) if i.name == "x"));
                    assert_eq!(*value.kind, ExprKind::LitNat(1));
                }
                other => panic!("then statement {:?}", other),
            }
            let eb = else_block.expect("an else block");
            assert_eq!(eb.stmts.len(), 1);
            assert!(matches!(&eb.stmts[0], EffectStmt::Return { value, .. }
                if matches!(&*value.kind, ExprKind::Ident(i) if i.name == "y")));
        }
        other => panic!("expected an if statement, got {:?}", other),
    }
}

#[test]
fn compound_assignment_picks_its_operator() {
    let src = "n -= 2";
    let tree = node(
        src,
        "compound_assign_effect",
        None,
        src,
        true,
        vec![
            node(src, "identifier", Some("target"), "n", true, Vec::new()),
            node(src, "-=", Some("op"), "-=", false, Vec::new()),
            node(src, "number", Some("value"), "2", true, Vec::new()),
        ],
    );
    let mut diags = Vec::new();
    let s = convert_effect_stmt(&tree, src, FileId(0), &mut diags).expect("a statement");
    assert!(matches!(s, EffectStmt::SubAssign { .. }));
}

#[test]
fn statements_missing_a_field_are_skipped() {
    let src = "{ x := }";
    let broken = node(src, "assign_effect", None, "x :=", true, vec![node(src, "identifier", Some("target"), "x", true, Vec::new())]);
    let block = node(src, "then_block", None, src, true, vec![broken]);
    let mut diags = Vec::new();
    let b = convert_effect_block(&block, src, FileId(0), &mut diags);
    assert!(b.stmts.is_empty());
    assert!(diags.is_empty());
    assert_eq!(b.span.end, src.len() as u32);
}
