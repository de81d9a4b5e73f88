//! Surface block: state, init, fairness, properties, actions,
//! internal_actions, defaults.

use vstd::prelude::*;
use crate::expr::{CallArg, Expr, MatchPattern};
use crate::ident::{Ident, QualifiedName};
use crate::slot::{PiiClass, SlotAssign};
use crate::span::Span;
use crate::ty::Type;
use crate::decl::{ActorBinder, ObservableDecl, Param};
use crate::substrate::FairnessSpec;
use crate::text::str_eq;

verus! {

#[derive(Debug)]
pub struct SurfaceBlock {
    pub state: Vec<StateField>,
    pub init: Vec<InitAssignment>,
    pub fairness: Vec<FairnessSpec>,
    pub properties: Vec<Property>,
    pub defaults: Option<DefaultsBlock>,
    pub actions: Vec<ActionDecl>,
    pub internal_actions: Vec<InternalActionDecl>,
    pub observables: Vec<ObservableDecl>,
    pub span: Span,
    pub doc: Option<String>,
}

#[derive(Debug)]
pub struct StateField {
    pub name: Ident,
    pub ty: Type,
    pub kind: StateFieldKind,
    pub retention: Option<RetentionClass>,
    pub private: bool,
    pub doc: Option<String>,
    pub span: Span,
}

#[derive(Debug)]
pub enum StateFieldKind {
    /// Plain mutable state.
    Plain,
    /// `derived [shape: <Shape> [of: <Type>]]`; the projection itself lives
    /// in each substrate's `maps` block.
    Derived {
        shape: Option<DerivedShape>,
        of_type: Option<Type>,
    },
}

#[derive(Debug, Clone, Copy, PartialEq, Eq, Hash, Structural)]
pub enum DerivedShape {
    PerActor,
    Aggregate,
    Snapshot,
    Indexed,
}

impl DerivedShape {
    pub open spec fn spec_name(self) -> Seq<char> {
        match self {
            DerivedShape::PerActor => "per_actor"@,
            DerivedShape::Aggregate => "aggregate"@,
            DerivedShape::Snapshot => "snapshot"@,
            DerivedShape::Indexed => "indexed"@,
        }
    }

    pub open spec fn spec_from_name(name: Seq<char>) -> Option<DerivedShape> {
        if name == "per_actor"@ {
            Some(DerivedShape::PerActor)
        } else if name == "aggregate"@ {
            Some(DerivedShape::Aggregate)
        } else if name == "snapshot"@ {
            Some(DerivedShape::Snapshot)
        } else if name == "indexed"@ {
            Some(DerivedShape::Indexed)
        } else {
            None
        }
    }

    pub fn name(self) -> (r: &'static str)
        ensures
            r@ == self.spec_name(),
    {
        match self {
            DerivedShape::PerActor => "per_actor",
            DerivedShape::Aggregate => "aggregate",
            DerivedShape::Snapshot => "snapshot",
            DerivedShape::Indexed => "indexed",
        }
    }

    pub fn from_name(name: &str) -> (r: Option<DerivedShape>)
        ensures
            r == Self::spec_from_name(name@),
    {
        if str_eq(name, "per_actor") {
            Some(DerivedShape::PerActor)
        } else if str_eq(name, "aggregate") {
            Some(DerivedShape::Aggregate)
        } else if str_eq(name, "snapshot") {
            Some(DerivedShape::Snapshot)
        } else if str_eq(name, "indexed") {
            Some(DerivedShape::Indexed)
        } else {
            None
        }
    }
}

/// Parsing a derived shape's name gives the shape back.
pub proof fn lemma_derived_shape_name_round_trip(d: DerivedShape)
    ensures
        DerivedShape::spec_from_name(d.spec_name()) == Some(d),
{
    reveal_strlit("per_actor");
    reveal_strlit("aggregate");
    reveal_strlit("snapshot");
    reveal_strlit("indexed");
    assert("per_actor"@.len() == 9);
    assert("aggregate"@.len() == 9);
    assert("snapshot"@.len() == 8);
    assert("indexed"@.len() == 7);
    assert("per_actor"@[0] == 'p' && "aggregate"@[0] == 'a');
    assert("per_actor"@ != "aggregate"@);
    assert("per_actor"@ != "snapshot"@);
    assert("per_actor"@ != "indexed"@);
    assert("aggregate"@ != "snapshot"@);
    assert("aggregate"@ != "indexed"@);
    assert("snapshot"@ != "indexed"@);
}

/// State-field retention class: the action-slot retention enum without
/// `waived`.
#[derive(Debug)]
pub enum RetentionClass {
    Ephemeral,
    Transactional,
    Audit { period: Ident },
    Pii { class: PiiClass, ttl: Ident },
    Secret,
}

#[derive(Debug)]
pub struct InitAssignment {
    pub name: Ident,
    pub value: Expr,
    pub span: Span,
}

#[derive(Debug)]
pub struct Property {
    pub name: Ident,
    pub kind: PropertyKind,
    pub body: Expr,
    pub doc: Option<String>,
    pub span: Span,
}

#[derive(Debug, Clone, Copy, PartialEq, Eq, Hash, Structural)]
pub enum PropertyKind {
    /// `always P`
    Safety,
    /// `eventually P`
    Liveness,
}

#[derive(Debug)]
pub struct DefaultsBlock {
    pub slots: Vec<SlotAssign>,
    pub span: Span,
}

/// A surface-block action.
#[derive(Debug)]
pub struct ActionDecl {
    pub name: Ident,
    pub params: Vec<Param>,
    pub return_ty: Option<Type>,
    pub actor: ActorBinder,
    pub when_pre: Option<Expr>,
    pub raises: Vec<RaisesClause>,
    pub slots: Vec<SlotAssign>,
    pub body: EffectBlock,
    pub doc: Option<String>,
    pub span: Span,
    pub is_internal: bool,
}

#[derive(Debug)]
pub struct InternalActionDecl {
    pub action: ActionDecl,
}

#[derive(Debug)]
pub struct RaisesClause {
    pub name: Ident,
    pub guard: Expr,
    pub span: Span,
}

/// `then { … }` effect body: a sequence of statements.
#[derive(Debug)]
pub struct EffectBlock {
    pub stmts: Vec<EffectStmt>,
    pub span: Span,
}

#[derive(Debug)]
pub enum EffectStmt {
    /// `x := e`
    Assign { target: Expr, value: Expr, span: Span },
    /// `x += e`
    AddAssign { target: Expr, value: Expr, span: Span },
    /// `x -= e`
    SubAssign { target: Expr, value: Expr, span: Span },
    /// `delete m[k]`
    DeleteKey { target: Expr, span: Span },
    /// `seq :+ e`
    SeqSnoc { target: Expr, value: Expr, span: Span },
    /// `emit E(arg=val, …)`
    Emit { event: Ident, args: Vec<CallArg>, span: Span },
    /// `sends Msg(args) [to <chan-or-component>]` — a substrate-side
    /// channel effect, distinct from a user-visible `emit`.
    Sends {
        message: Ident,
        args: Vec<CallArg>,
        /// `to <ChannelName>`.
        to_channel: Option<Ident>,
        /// `to <Component>`.
        to_component: Option<QualifiedName>,
        /// `to <Component>[<idExpr>]`.
        to_instance: Option<Expr>,
        span: Span,
    },
    /// `return e`
    Return { value: Expr, span: Span },
    /// `let x := e`
    Let { name: Ident, value: Expr, span: Span },
    /// `if g then [<label>?] block else [<label>?] block`
    IfElse {
        cond: Expr,
        then_label: Option<BranchLabel>,
        then_block: EffectBlock,
        else_label: Option<BranchLabel>,
        else_block: Option<EffectBlock>,
        span: Span,
    },
    /// `for x in s do <effect-block>`
    For { name: Ident, domain: Expr, body: EffectBlock, span: Span },
    /// `match e { Some(x) -> … ; None -> … }` (statement form).
    Match { scrutinee: Expr, arms: Vec<EffectMatchArm>, span: Span },
    /// `if let Some(x) := e then … else …` (statement form).
    IfLetSome {
        name: Ident,
        source: Expr,
        then_block: EffectBlock,
        else_block: Option<EffectBlock>,
        span: Span,
    },
}

#[derive(Debug)]
pub struct EffectMatchArm {
    pub pattern: MatchPattern,
    pub body: EffectBlock,
    pub span: Span,
}

#[derive(Debug, Clone, PartialEq, Eq, Hash)]
pub struct BranchLabel {
    pub name: Ident,
    pub span: Span,
}

} // verus!
