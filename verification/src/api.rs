//! The plain data the validators and the leaf map work on: action
//! references, scopes, source spans, provider invocations and their
//! declarations.

use vstd::prelude::*;
use crate::text::{ascending, insert_keyed, insert_keyed_entry, keys_of, lemma_insert_keyed};

verus! {

/// A reference to an action: its namespace path (without the trailing
/// `Action` segment) and its raw id.
pub struct ActionRef {
    pub namespace: Option<String>,
    pub id: String,
}

/// How a rule scopes its action.
pub enum ActionScope {
    /// A bare `action`: the rule applies to every action.
    Unconstrained,
    /// `action == A`.
    Concrete(ActionRef),
    /// `action in [A, …]`.
    List(Vec<ActionRef>),
}

/// A hoisted temporal leaf: its id, the action scope of the rule it was
/// hoisted from, and the concrete actions that scope expands to.
pub struct TemporalField {
    pub id: String,
    pub action: ActionScope,
    pub target_actions: Vec<ActionRef>,
}

/// The entity types a rule's `principal` / `resource` scope admits.
pub enum ScopeConstraint {
    /// The scope pins no entity type.
    Any,
    /// The scope pins this entity type (`is T`, `== T::"id"`, `is T in …`).
    Is(EntityTypeName),
}

/// A qualified entity type name: its namespace path and its base name.
pub struct EntityTypeName {
    pub namespace: Vec<String>,
    pub basename: String,
}

/// A byte range in source text.
#[derive(Clone, Copy)]
pub struct Span {
    pub start: usize,
    pub end: usize,
}

impl Span {
    /// The span moved forward by `base` bytes.
    pub fn rebased(self, base: usize) -> (r: Span)
        requires
            self.start + base <= usize::MAX,
            self.end + base <= usize::MAX,
        ensures
            r.start == self.start + base,
            r.end == self.end + base,
    {
        Span { start: self.start + base, end: self.end + base }
    }
}

/// A declared provider argument / output type: the `paramType` token and, for
/// a set, the declared element type.
pub struct ParamType {
    pub param_type: String,
    pub items: Option<Box<ParamType>>,
}

/// A declared provider method.
pub struct MethodDecl {
    pub argument_types: Vec<ParamType>,
    pub input_type: Option<ParamType>,
    pub output_type: ParamType,
}

/// A provider declaration. `methods` holds each declared method once, in
/// name order (`methods_in_order`).
pub struct ProviderDecl {
    pub argument_types: Vec<ParamType>,
    pub output_type: ParamType,
    pub methods: Vec<(String, MethodDecl)>,
}

impl ProviderDecl {
    /// The declared methods' names are strictly ascending, so each method is
    /// declared once.
    pub open spec fn methods_in_order(self) -> bool {
        ascending(keys_of(self.methods@))
    }

    /// A declaration with the given argument and output types and no methods.
    pub fn new(argument_types: Vec<ParamType>, output_type: ParamType) -> (r: ProviderDecl)
        ensures
            r.argument_types@ == argument_types@,
            r.output_type == output_type,
            r.methods@.len() == 0,
            r.methods_in_order(),
    {
        ProviderDecl { argument_types, output_type, methods: Vec::new() }
    }

    /// Declare the method `name`, replacing an earlier declaration of the same
    /// name, and keep the methods in name order.
    pub fn add_method(&mut self, name: String, method: MethodDecl)
        requires
            old(self).methods_in_order(),
        ensures
            final(self).methods@ == insert_keyed(old(self).methods@, name, method),
            final(self).methods_in_order(),
            final(self).argument_types == old(self).argument_types,
            final(self).output_type == old(self).output_type,
    {
        proof {
            lemma_insert_keyed(self.methods@, name, method);
        }
        insert_keyed_entry(&mut self.methods, name, method);
    }
}

/// A provider argument as written.
pub enum Arg {
    String(String),
    Integer(i64),
    Decimal(String),
    Bool(bool),
    SetOf(Vec<Arg>),
    /// A field path such as `context.input.x`, one segment per element.
    Field(Vec<String>),
}

/// `Ns::Fn(args…)`: the provider's qualified name, the call's span within
/// the `provider { … }` block body, and its arguments.
pub struct ProviderInvocation {
    pub key: String,
    pub span: Span,
    pub args: Vec<Arg>,
}

impl ProviderInvocation {
    /// The provider's qualified name.
    pub fn key(&self) -> (r: String)
        ensures
            r@ == self.key@,
    {
        self.key.clone()
    }
}

/// `.method(args…)` after an invocation.
pub struct ProviderMethodCall {
    pub name: String,
    pub span: Span,
    pub args: Vec<Arg>,
}

/// One hoisted provider invocation with everything its validation needs: the
/// resolved declaration (if the provider is declared), the offset of the
/// block body in the `.dw` source, the actions the rule's scope reaches, and
/// the rule's principal / resource scope.
pub struct ProviderField {
    pub invocation: ProviderInvocation,
    pub methods: Vec<ProviderMethodCall>,
    pub declaration: Option<ProviderDecl>,
    pub body_base: usize,
    pub target_actions: Vec<ActionRef>,
    pub principal: ScopeConstraint,
    pub resource: ScopeConstraint,
}

} // verus!
