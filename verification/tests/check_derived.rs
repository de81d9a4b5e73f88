use surfacide::decl::ActorBinder;
use surfacide::derived::check_surface;
use surfacide::expr::{Expr, ExprKind};
use surfacide::ident::Ident;
use surfacide::span::Span;
use surfacide::surface::{ActionDecl, EffectBlock, EffectStmt, StateField, StateFieldKind, SurfaceBlock};
use surfacide::ty::{Type, TypeKind};

fn id(s: &str) -> Ident {
    Ident::new(s, Span::synthetic())
}

fn derived_field(name: &str) -> StateField {
    StateField {
        name: id(name),
        ty: Type {
            kind: TypeKind::Nat,
            span: Span::synthetic(),
        },
        kind: StateFieldKind::Derived {
            shape: None,
            of_type: None,
        },
        retention: None,
        private: false,
        doc: None,
        span: Span::synthetic(),
    }
}

fn assign_to(name: &str) -> EffectStmt {
    EffectStmt::Assign {
        target: Expr {
            kind: Box::new(ExprKind::Ident(id(name))),
            span: Span::synthetic(),
        },
        value: Expr {
            kind: Box::new(ExprKind::LitNat(1)),
            span: Span::synthetic(),
        },
        span: Span::synthetic(),
    }
}

fn action_with(name: &str, stmts: Vec<EffectStmt>) -> ActionDecl {
    ActionDecl {
        name: id(name),
        params: Vec::new(),
        return_ty: None,
        actor: ActorBinder {
            name: id("u"),
            actor_ty: id("User"),
            span: Span::synthetic(),
        },
        when_pre: None,
        raises: Vec::new(),
        slots: Vec::new(),
        body: EffectBlock { stmts, span: Span::synthetic() },
        doc: None,
        span: Span::synthetic(),
        is_internal: false,
    }
}

fn surface_with(fields: Vec<StateField>, actions: Vec<ActionDecl>) -> SurfaceBlock {
    SurfaceBlock {
        state: fields,
        init: Vec::new(),
        fairness: Vec::new(),
        properties: Vec::new(),
        defaults: None,
        actions,
        internal_actions: Vec::new(),
        observables: Vec::new(),
        span: Span::synthetic(),
        doc: None,
    }
}

#[test]
fn assign_to_derived_is_caught() {
    let s = surface_with(
        vec![derived_field("posts")],
        vec![action_with("post", vec![assign_to("posts")])],
    );
    let mut diags = Vec::new();
    check_surface(&s, &mut diags);
    assert_eq!(diags.len(), 1);
    assert_eq!(diags[0].code.as_str(), "E_DERIVED_ASSIGN");
}

#[test]
fn assign_to_plain_field_is_fine() {
    let s = surface_with(
        vec![],
        vec![action_with("post", vec![assign_to("next_seq")])],
    );
    let mut diags = Vec::new();
    check_surface(&s, &mut diags);
    assert!(diags.is_empty());
}

#[test]
fn nested_if_else_inside_derived_field_assignment_is_caught() {
    let inner = vec![assign_to("posts")];
    let if_stmt = EffectStmt::IfElse {
        cond: Expr {
            kind: Box::new(ExprKind::LitBool(true)),
            span: Span::synthetic(),
        },
        then_label: None,
        then_block: EffectBlock { stmts: inner, span: Span::synthetic() },
        else_label: None,
        else_block: None,
        span: Span::synthetic(),
    };
    let s = surface_with(
        vec![derived_field("posts")],
        vec![action_with("foo", vec![if_stmt])],
    );
    let mut diags = Vec::new();
    check_surface(&s, &mut diags);
    assert_eq!(diags.len(), 1);
}
