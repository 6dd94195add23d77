//! The syntax tree of a `temporal { … }` condition.

use vstd::prelude::*;

verus! {

/// The unit of a look-back window.
pub enum TimeUnit {
    Seconds,
    Minutes,
    Hours,
    Days,
}

/// A positive `<amount><unit>` window such as `1h`.
pub struct Interval {
    pub amount: u64,
    pub unit: TimeUnit,
}

/// A `within` window: a concrete interval, or an unexpanded macro parameter.
pub enum WithinSpec {
    Concrete(Interval),
    ParamRef(String),
}

/// The declared type of a temporal binder.
pub enum BinderType {
    Long,
    String,
    Bool,
    Timepoint,
    Entity(String),
}

/// A binder name: a plain name, or an unexpanded macro parameter / binder.
pub enum BinderSlot {
    Name(String),
    ParamRef(String),
    BinderRef(String),
}

/// `(name: Type)`.
pub struct TypedBinder {
    pub slot: BinderSlot,
    pub ty: BinderType,
}

/// A temporal comparison operator.
#[derive(Clone, Copy)]
pub enum CmpOp {
    Le,
    Lt,
    Ge,
    Gt,
    Eq,
    NotEq,
}

/// `field: term` inside a predicate's braces.
pub struct PredicateArg {
    pub name: String,
    pub value: Term,
}

/// An event predicate `Ns::Action::"id"::kind{ args }`; `namespace` is the
/// type path including its `Action` segment.
pub struct Predicate {
    pub namespace: Vec<String>,
    pub action: String,
    pub kind: String,
    pub args: Vec<PredicateArg>,
}

/// A temporal term.
pub enum Term {
    Entity { ty: String, id: String },
    Integer(i64),
    Decimal(String),
    String(String),
    Bool(bool),
    ContextField(Vec<String>),
    ScopeField(Vec<String>),
    Var(String),
    Wildcard,
    Array(Vec<Term>),
    Agg(AggExpr),
    ParamRef(String),
    BinderRef(String),
}

/// An aggregation.
pub struct AggExpr {
    pub kind: AggExprKind,
}

/// The aggregation forms; `Call` is an unexpanded aggregation macro call.
pub enum AggExprKind {
    Sum { bound_var: BinderSlot, for_vars: Vec<TypedBinder>, body: Box<Condition> },
    Count { for_vars: Vec<TypedBinder>, body: Box<Condition> },
    Call(String),
}

/// A temporal condition.
pub struct Condition {
    pub kind: ConditionKind,
}

/// The condition forms. `Or` exists only after lowering; `Call`, `SigilRef`
/// and `Refine` only before macro expansion.
pub enum ConditionKind {
    And { left: Box<Condition>, right: Box<Condition> },
    Not { inner: Box<Condition> },
    Formerly { within: WithinSpec, body: Box<Condition> },
    Previous { within: WithinSpec, body: Box<Condition> },
    Since { left: Box<Condition>, within: WithinSpec, right: Box<Condition> },
    Predicate(Predicate),
    Comparison { op: CmpOp, left: Term, right: Term },
    Exists { var: TypedBinder, body: Box<Condition> },
    Tp { var: BinderSlot },
    Or { left: Box<Condition>, right: Box<Condition> },
    Call(String),
    SigilRef { name: String },
    Refine { name: String },
}

} // verus!
