use surfacide::cross_slot::{check_action_freshness, check_actor_view_leak, check_secret_flow};
use surfacide::decl::{ActorBinder, ActorDecl, ObservableDecl, Param};
use surfacide::expr::{CallArg, Expr, ExprKind};
use surfacide::ident::{Ident, QualifiedName};
use surfacide::slot::{FreshnessValue, SlotAssign, SlotKind, SlotValue};
use surfacide::span::Span;
use surfacide::surface::{
    ActionDecl, EffectBlock, EffectStmt, RetentionClass, StateField, StateFieldKind, SurfaceBlock,
};
use surfacide::ty::{Type, TypeKind};

fn id(s: &str) -> Ident {
    Ident::new(s, Span::synthetic())
}

fn bool_type() -> Type {
    Type { kind: TypeKind::Bool, span: Span::synthetic() }
}

fn named_type(name: &str) -> Type {
    Type {
        kind: TypeKind::Named(QualifiedName::new(vec![id(name)])),
        span: Span::synthetic(),
    }
}

fn empty_action(name: &str) -> ActionDecl {
    ActionDecl {
        name: id(name),
        params: Vec::new(),
        return_ty: None,
        actor: ActorBinder { name: id("u"), actor_ty: id("User"), span: Span::synthetic() },
        when_pre: None,
        raises: Vec::new(),
        slots: Vec::new(),
        body: EffectBlock { stmts: Vec::new(), span: Span::synthetic() },
        doc: None,
        span: Span::synthetic(),
        is_internal: false,
    }
}

fn ident_expr(name: &str) -> Expr {
    Expr {
        kind: Box::new(ExprKind::Ident(id(name))),
        span: Span::synthetic(),
    }
}

fn surface_with(state: Vec<StateField>, actions: Vec<ActionDecl>) -> SurfaceBlock {
    SurfaceBlock {
        state,
        init: Vec::new(),
        fairness: Vec::new(),
        properties: Vec::new(),
        defaults: None,
        actions,
        internal_actions: Vec::new(),
        observables: Vec::new(),
        span: Span::synthetic(),
        doc: None,
    }
}

fn secret_field(name: &str) -> StateField {
    StateField {
        name: id(name),
        ty: bool_type(),
        kind: StateFieldKind::Plain,
        retention: Some(RetentionClass::Secret),
        private: false,
        doc: None,
        span: Span::synthetic(),
    }
}

#[test]
fn emit_of_secret_field_caught() {
    let mut a = empty_action("login");
    a.body.stmts.push(EffectStmt::Emit {
        event: id("LoggedIn"),
        args: vec![CallArg {
            name: Some(id("key")),
            value: ident_expr("signing_key"),
            span: Span::synthetic(),
        }],
        span: Span::synthetic(),
    });
    let s = surface_with(vec![secret_field("signing_key")], vec![a]);
    let mut diags = Vec::new();
    check_secret_flow(&s, &mut diags);
    assert_eq!(diags.len(), 1);
    assert_eq!(diags[0].code.as_str(), "E_SECRET_FLOW");
}

#[test]
fn emit_of_non_secret_field_is_fine() {
    let mut a = empty_action("post");
    a.body.stmts.push(EffectStmt::Emit {
        event: id("Posted"),
        args: vec![CallArg {
            name: Some(id("count")),
            value: ident_expr("post_count"),
            span: Span::synthetic(),
        }],
        span: Span::synthetic(),
    });
    let s = surface_with(vec![secret_field("signing_key")], vec![a]);
    let mut diags = Vec::new();
    check_secret_flow(&s, &mut diags);
    assert!(diags.is_empty());
}

#[test]
fn observable_with_actor_param_caught() {
    let obs = ObservableDecl {
        name: id("can_see_other"),
        for_actor: Some(ActorBinder {
            name: id("v"),
            actor_ty: id("Viewer"),
            span: Span::synthetic(),
        }),
        params: vec![Param {
            name: id("attacker"),
            ty: named_type("Viewer"),
            span: Span::synthetic(),
        }],
        return_ty: bool_type(),
        body: Expr {
            kind: Box::new(ExprKind::LitBool(true)),
            span: Span::synthetic(),
        },
        doc: None,
        span: Span::synthetic(),
    };
    let mut s = surface_with(Vec::new(), Vec::new());
    s.observables.push(obs);
    let actors: Vec<String> = vec!["Viewer".to_string()];
    let mut diags = Vec::new();
    check_actor_view_leak(&s, &actors, &mut diags);
    assert_eq!(diags.len(), 1);
    assert_eq!(diags[0].code.as_str(), "E_ACTOR_VIEW_LEAK");
}

#[test]
fn observable_with_non_actor_index_param_is_fine() {
    let obs = ObservableDecl {
        name: id("at"),
        for_actor: Some(ActorBinder {
            name: id("v"),
            actor_ty: id("Viewer"),
            span: Span::synthetic(),
        }),
        params: vec![Param {
            name: id("i"),
            ty: bool_type(),
            span: Span::synthetic(),
        }],
        return_ty: bool_type(),
        body: Expr {
            kind: Box::new(ExprKind::LitBool(true)),
            span: Span::synthetic(),
        },
        doc: None,
        span: Span::synthetic(),
    };
    let mut s = surface_with(Vec::new(), Vec::new());
    s.observables.push(obs);
    let actors: Vec<String> = vec!["Viewer".to_string()];
    let mut diags = Vec::new();
    check_actor_view_leak(&s, &actors, &mut diags);
    assert!(diags.is_empty());
}

#[test]
fn freshness_referencing_undeclared_epoch_caught() {
    let mut a = empty_action("get");
    a.slots.push(SlotAssign {
        kind: SlotKind::Freshness,
        value: SlotValue::Freshness(FreshnessValue::Bounded {
            epoch: id("CacheTick"),
            n: 3,
        }),
        span: Span::synthetic(),
    });
    let declared: Vec<String> = Vec::new();
    let mut diags = Vec::new();
    check_action_freshness(&a, &declared, &mut diags);
    assert_eq!(diags.len(), 1);
    assert_eq!(diags[0].code.as_str(), "E_FRESHNESS_UNDECLARED_EPOCH");
}

#[test]
fn freshness_referencing_declared_epoch_is_fine() {
    let mut a = empty_action("get");
    a.slots.push(SlotAssign {
        kind: SlotKind::Freshness,
        value: SlotValue::Freshness(FreshnessValue::Bounded {
            epoch: id("CacheTick"),
            n: 3,
        }),
        span: Span::synthetic(),
    });
    let declared: Vec<String> = vec!["CacheTick".to_string()];
    let mut diags = Vec::new();
    check_action_freshness(&a, &declared, &mut diags);
    assert!(diags.is_empty());
}

#[test]
#[allow(dead_code)]
fn unused_actor_decl_import_keeps_compile() {
    let _: Option<ActorDecl> = None;
}
