//! Surface type expressions.
//!
//! The type system is structural and shape-only; the slot and obligation
//! passes care about retention class, derived-ness and a few specific
//! shapes.

use vstd::prelude::*;
use crate::ident::{Ident, QualifiedName};
use crate::span::Span;

verus! {

#[derive(Debug, PartialEq, Eq, Hash)]
pub struct Type {
    pub kind: TypeKind,
    pub span: Span,
}

#[derive(Debug, PartialEq, Eq, Hash)]
pub enum TypeKind {
    Nat,
    Int,
    Bool,
    String,
    Duration,
    /// A named type: an actor, an event, a type alias, or a built-in;
    /// resolution decides which.
    Named(QualifiedName),
    SetOf(Box<Type>),
    SeqOf(Box<Type>),
    MapOf(Box<Type>, Box<Type>),
    Optional(Box<Type>),
    Tuple(Vec<Type>),
    Record(Vec<RecordTypeField>),
    /// `A | B | C` tagged union, top-level.
    Union(Vec<Type>),
    /// `enum { Red, Green, Blue }`.
    Enum(Vec<Ident>),
}

#[derive(Debug, PartialEq, Eq, Hash)]
pub struct RecordTypeField {
    pub name: Ident,
    pub ty: Type,
    pub span: Span,
}

} // verus!
