//! Surfacide: static analysis for Surface modules.
//!
//! The library holds the typed AST of Surface modules, the diagnostic
//! catalogue, and the checking passes (mandatory-slot elaboration,
//! derived-field assignment, cross-slot consistency, obligation
//! derivation and module-graph construction).

pub mod text;
pub mod span;
pub mod ident;
pub mod slot;
pub mod ty;
pub mod expr;
pub mod decl;
pub mod surface;
pub mod substrate;
pub mod compose;
pub mod scenario;
pub mod codes;
pub mod diagnostic;
pub mod index_map;
pub mod collect;
pub mod project;
pub mod slots;
pub mod derived;
pub mod cross_slot;
pub mod facts;
pub mod obligations;
pub mod resolve;
pub mod check;
pub mod syntax;
pub mod cst;
pub mod slot_syntax;
pub mod type_syntax;
pub mod expr_syntax;
pub mod scenario_syntax;
pub mod effect_syntax;
pub mod decl_syntax;
pub mod fairness_syntax;
pub mod surface_syntax;
pub mod path_text;
pub mod compose_syntax;
pub mod substrate_syntax;
pub mod module_syntax;
pub mod builder;
pub mod driver;
