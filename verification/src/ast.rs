//! The surface syntax tree of a parsed, macro-expanded Dogwood policy.
//!
//! Leaves hold plain values: an entity type is held by its name as Cedar
//! writes it (`T::User`), an entity uid by that type name and its raw
//! (unescaped) id, and a string by its decoded characters.

use vstd::prelude::*;
use crate::temporal_ast::Condition;

verus! {

/// `permit` or `forbid`.
pub enum Effect {
    Permit,
    Forbid,
}

/// `@key` or `@key("value")`; `value` is the decoded annotation value.
pub struct Annotation {
    pub key: String,
    pub value: Option<String>,
}

/// An entity uid: its entity type's name and its raw id.
pub struct EntityUid {
    pub ty: String,
    pub eid: String,
}

/// The principal part of a policy scope. `None` in place of a uid is the
/// template slot `?principal`.
pub enum PrincipalConstraint {
    Any,
    In(Option<EntityUid>),
    Eq(Option<EntityUid>),
    Is(String),
    IsIn(String, Option<EntityUid>),
}

/// The resource part of a policy scope. `None` in place of a uid is the
/// template slot `?resource`.
pub enum ResourceConstraint {
    Any,
    In(Option<EntityUid>),
    Eq(Option<EntityUid>),
    Is(String),
    IsIn(String, Option<EntityUid>),
}

/// The action part of a policy scope.
pub enum ActionConstraint {
    Any,
    Eq(EntityUid),
    In(Vec<EntityUid>),
}

/// A policy scope: principal, action, resource.
pub struct Scope {
    pub principal: PrincipalConstraint,
    pub action: ActionConstraint,
    pub resource: ResourceConstraint,
}

/// `when` or `unless`.
pub enum CondKeyword {
    When,
    Unless,
}

/// One `when { … }` / `unless { … }` clause.
pub struct Cond {
    pub keyword: CondKeyword,
    pub body: Expr,
}

/// A whole policy.
pub struct Policy {
    pub annotations: Vec<Annotation>,
    pub effect: Effect,
    pub scope: Scope,
    pub conditions: Vec<Cond>,
}

/// A Cedar literal.
pub enum Literal {
    Bool(bool),
    Long(i64),
    String(String),
    EntityUid(EntityUid),
}

/// A Cedar request variable.
pub enum Var {
    Principal,
    Action,
    Resource,
    Context,
}

/// A template slot.
pub enum SlotId {
    Principal,
    Resource,
}

/// One element of a `like` pattern.
pub enum PatternElem {
    Char(char),
    Wildcard,
}

/// Unary operators: prefix `!` / `-`, the one-argument extension
/// constructors, and the zero-argument extension methods.
#[derive(Clone, Copy)]
pub enum UnOp {
    Not,
    Neg,
    Decimal,
    Datetime,
    Duration,
    Ip,
    IsEmpty,
    IsIpv4,
    IsIpv6,
    IsLoopback,
    IsMulticast,
    ToDate,
    ToTime,
    ToMilliseconds,
    ToSeconds,
    ToMinutes,
    ToHours,
    ToDays,
}

/// Binary operators: the infix ones and the one-argument method forms.
#[derive(Clone, Copy)]
pub enum BinOp {
    Eq,
    NotEq,
    Less,
    LessEq,
    Greater,
    GreaterEq,
    And,
    Or,
    Add,
    Sub,
    Mul,
    In,
    Contains,
    ContainsAll,
    ContainsAny,
    GetTag,
    HasTag,
    IsInRange,
    Offset,
    DurationSince,
    DecimalLessThan,
    DecimalLessEq,
    DecimalGreater,
    DecimalGreaterEq,
}

/// A `temporal { … }` clause body.
pub struct TemporalClause {
    pub condition: Condition,
}

/// A Dogwood extension primary.
pub enum Extension {
    Temporal(TemporalClause),
}

/// An expression.
pub struct Expr {
    pub kind: ExprKind,
}

/// The expression forms. `Record` holds each key once, in key order (the
/// renderer requires it, see `expr_expanded`; `insert_keyed_entry` builds
/// such a list); `ParamRef` is an unexpanded macro parameter.
pub enum ExprKind {
    Lit(Literal),
    Var(Var),
    Slot(SlotId),
    Extension(Extension),
    UnaryApp { op: UnOp, expr: Box<Expr> },
    BinaryApp { op: BinOp, left: Box<Expr>, right: Box<Expr> },
    GetAttr { expr: Box<Expr>, attr: String },
    HasAttr { expr: Box<Expr>, attrs: Vec<String> },
    Like { expr: Box<Expr>, pattern: Vec<PatternElem> },
    Is { expr: Box<Expr>, entity_type: String, in_expr: Option<Box<Expr>> },
    IfThenElse { cond: Box<Expr>, then_expr: Box<Expr>, else_expr: Box<Expr> },
    SetLit(Vec<Expr>),
    Record(Vec<(String, Expr)>),
    Call { name: String, args: Vec<Expr> },
    MethodCall { receiver: Box<Expr>, method: String, args: Vec<Expr> },
    ParamRef { name: String },
}

} // verus!
