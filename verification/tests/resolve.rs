use surfacide::decl::{ActorBinder, Decl, ModuleFile, ModuleHeader};
use surfacide::ident::{Ident, QualifiedName};
use surfacide::resolve::build_project;
use surfacide::span::{FileId, FileRegistry, Span};
use surfacide::surface::{ActionDecl, EffectBlock, InternalActionDecl, SurfaceBlock};

fn id(name: &str) -> Ident {
    Ident::new(name, Span::synthetic())
}

fn empty_action(name: &str) -> ActionDecl {
    ActionDecl {
        name: id(name),
        params: Vec::new(),
        return_ty: None,
        actor: ActorBinder { name: id("u"), actor_ty: id("User"), span: Span::synthetic() },
        when_pre: None,
        raises: Vec::new(),
        slots: Vec::new(),
        body: EffectBlock { stmts: Vec::new(), span: Span::synthetic() },
        doc: None,
        span: Span::synthetic(),
        is_internal: false,
    }
}

fn module(name: &str, decls: Vec<Decl>) -> (FileId, ModuleFile) {
    (
        FileId(0),
        ModuleFile {
            header: ModuleHeader {
                name: QualifiedName::new(vec![id(name)]),
                private: false,
                doc: None,
                span: Span::synthetic(),
            },
            uses: Vec::new(),
            decls,
            span: Span::synthetic(),
        },
    )
}

fn surface_with(actions: Vec<ActionDecl>) -> Decl {
    Decl::Surface(SurfaceBlock {
        state: Vec::new(),
        init: Vec::new(),
        fairness: Vec::new(),
        properties: Vec::new(),
        defaults: None,
        actions,
        internal_actions: Vec::new(),
        observables: Vec::new(),
        span: Span::synthetic(),
        doc: None,
    })
}

#[test]
fn empty_project_is_clean() {
    let r = build_project(Vec::new(), FileRegistry::new());
    assert!(r.diagnostics.is_empty());
    assert_eq!(r.project.modules.len(), 0);
}

#[test]
fn duplicate_action_in_one_module_is_diagnosed() {
    let m = module(
        "M",
        vec![surface_with(vec![empty_action("transfer"), empty_action("transfer")])],
    );
    let r = build_project(vec![m], FileRegistry::new());
    assert!(r.diagnostics.iter().any(|d| d.code.as_str() == "E_DUPLICATE_ACTION_NAME"));
}

#[test]
fn distinct_actions_are_clean() {
    let m = module(
        "M",
        vec![surface_with(vec![empty_action("a"), empty_action("b")])],
    );
    let r = build_project(vec![m], FileRegistry::new());
    assert!(r.diagnostics.is_empty(), "{:?}", r.diagnostics);
}

#[test]
fn two_surface_blocks_per_module_is_diagnosed() {
    let m = module(
        "M",
        vec![surface_with(vec![empty_action("a")]), surface_with(vec![empty_action("b")])],
    );
    let r = build_project(vec![m], FileRegistry::new());
    assert!(r.diagnostics.iter().any(|d| d.code.as_str() == "E_DUPLICATE_SURFACE_BLOCK"));
}

#[test]
fn duplicate_internal_action_is_diagnosed() {
    let ia = InternalActionDecl {
        action: ActionDecl { is_internal: true, ..empty_action("sync") },
    };
    let m = module(
        "M",
        vec![Decl::Surface(SurfaceBlock {
            state: Vec::new(),
            init: Vec::new(),
            fairness: Vec::new(),
            properties: Vec::new(),
            defaults: None,
            actions: vec![empty_action("sync")],
            internal_actions: vec![ia],
            observables: Vec::new(),
            span: Span::synthetic(),
            doc: None,
        })],
    );
    let r = build_project(vec![m], FileRegistry::new());
    assert!(
        r.diagnostics.iter().any(|d| d.code.as_str() == "E_DUPLICATE_ACTION_NAME"),
        "expected duplicate-action diagnostic, got: {:?}",
        r.diagnostics
    );
}
