//! Schema-aware validation of `provider { … }` invocations.
//!
//! Each hoisted invocation must name a declared provider, supply the declared
//! number of arguments, and pass directly-typed literal / set arguments that
//! match the declared `argumentTypes`. Field-path arguments
//! (`context.input.X`, `principal.<attr>`, `resource.<attr>`) are resolved
//! against the schema and checked for existence and type on every action the
//! rule's scope reaches. A method chain after the invocation is checked stage
//! by stage against the declared methods.

use vstd::prelude::*;
use crate::api::{
    ActionRef, Arg, MethodDecl, ParamType, ProviderDecl, ProviderField, ProviderMethodCall,
    ScopeConstraint, Span,
};
use crate::ast::{BinOp, UnOp};
use crate::cedar::{escaped_eid, escaped_eid_text};
use crate::render::{infix_symbol_text, is_zero_arg_method, method_name_text, zero_arg_method_text};
use crate::schema_info::{
    admits_some, admitted_types, context_path_spec, opt_ref, is_failure, lookup_action, resolved_type,
    rich_equiv, rich_texts, root_types, scope_resolutions, scope_verdict, ActionDecl, ArrayElem, PathResolution, RichType,
    SchemaInfo, ScopePath, ScopeVerdict,
};
use crate::text::{
    contains_str, contains_text, occurs_at, decimal_text, keys_of, sorted_texts, join, join_text, opt_view,
    str_eq, string_of, usize_text, views,
};
use vstd::slice::slice_subrange;
use vstd::seq_lib::lemma_flatten_concat;

verus! {

// ─── argument kinds ───────────────────────────────────────────────────────

/// The declared `paramType` token a directly-typed argument satisfies; none
/// for a field path.
pub open spec fn arg_kind_text(arg: Arg) -> Option<Seq<char>> {
    match arg {
        Arg::String(_) => Some("string"@),
        Arg::Integer(_) => Some("integer"@),
        Arg::Decimal(_) => Some("decimal"@),
        Arg::Bool(_) => Some("bool"@),
        Arg::SetOf(_) => Some("set"@),
        Arg::Field(_) => None,
    }
}

/// The declared `paramType` token a directly-typed argument satisfies, or
/// `None` for a field path (checked against the schema instead).
pub fn arg_kind(arg: &Arg) -> (r: Option<&'static str>)
    ensures
        match r {
            Some(k) => arg_kind_text(*arg) == Some(k@),
            None => arg_kind_text(*arg) is None,
        },
{
    match arg {
        Arg::String(_) => Some("string"),
        Arg::Integer(_) => Some("integer"),
        Arg::Decimal(_) => Some("decimal"),
        Arg::Bool(_) => Some("bool"),
        Arg::SetOf(_) => Some("set"),
        Arg::Field(_) => None,
    }
}

/// A declared `paramType` accepts an argument of kind `actual`;
/// `integer`/`long` and `bool`/`boolean` are synonyms.
pub open spec fn accepts(declared: Seq<char>, actual: Seq<char>) -> bool {
    if actual == "string"@ {
        declared == "string"@
    } else if actual == "integer"@ {
        declared == "integer"@ || declared == "long"@
    } else if actual == "decimal"@ {
        declared == "decimal"@
    } else if actual == "bool"@ {
        declared == "bool"@ || declared == "boolean"@
    } else if actual == "set"@ {
        declared == "set"@
    } else {
        false
    }
}

/// Whether a declared `paramType` accepts an argument of the given kind.
/// `integer`/`long` and `bool`/`boolean` are accepted as synonyms.
pub fn param_type_accepts(declared: &str, actual: &str) -> (r: bool)
    ensures
        r == accepts(declared@, actual@),
{
    if str_eq(actual, "string") {
        str_eq(declared, "string")
    } else if str_eq(actual, "integer") {
        str_eq(declared, "integer") || str_eq(declared, "long")
    } else if str_eq(actual, "decimal") {
        str_eq(declared, "decimal")
    } else if str_eq(actual, "bool") {
        str_eq(declared, "bool") || str_eq(declared, "boolean")
    } else if str_eq(actual, "set") {
        str_eq(declared, "set")
    } else {
        false
    }
}

/// The Cedar extension-method and built-in names a provider method may not
/// shadow.
pub open spec fn cedar_extension_method(name: Seq<char>) -> bool {
    ||| name == "lessThan"@
    ||| name == "lessThanOrEqual"@
    ||| name == "greaterThan"@
    ||| name == "greaterThanOrEqual"@
    ||| name == "contains"@
    ||| name == "containsAll"@
    ||| name == "containsAny"@
    ||| name == "isEmpty"@
    ||| name == "hasTag"@
    ||| name == "getTag"@
    ||| name == "isIpv4"@
    ||| name == "isIpv6"@
    ||| name == "isLoopback"@
    ||| name == "isMulticast"@
    ||| name == "isInRange"@
    ||| name == "offset"@
    ||| name == "durationSince"@
    ||| name == "toDate"@
    ||| name == "toTime"@
    ||| name == "toMilliseconds"@
    ||| name == "toSeconds"@
    ||| name == "toMinutes"@
    ||| name == "toHours"@
    ||| name == "toDays"@
}

/// Whether `name` is a Cedar extension method or built-in (the decimal
/// comparisons, the set / entity-tag / IP / datetime methods), which a
/// declared provider method may not shadow.
pub fn is_cedar_extension_method(name: &str) -> (r: bool)
    ensures
        r == cedar_extension_method(name@),
{
    str_eq(name, "lessThan") || str_eq(name, "lessThanOrEqual") || str_eq(name, "greaterThan")
        || str_eq(name, "greaterThanOrEqual") || str_eq(name, "contains") || str_eq(
        name,
        "containsAll",
    ) || str_eq(name, "containsAny") || str_eq(name, "isEmpty") || str_eq(name, "hasTag")
        || str_eq(name, "getTag") || str_eq(name, "isIpv4") || str_eq(name, "isIpv6") || str_eq(
        name,
        "isLoopback",
    ) || str_eq(name, "isMulticast") || str_eq(name, "isInRange") || str_eq(name, "offset")
        || str_eq(name, "durationSince") || str_eq(name, "toDate") || str_eq(name, "toTime")
        || str_eq(name, "toMilliseconds") || str_eq(name, "toSeconds") || str_eq(
        name,
        "toMinutes",
    ) || str_eq(name, "toHours") || str_eq(name, "toDays")
}

// ─── resolved types against declared types ────────────────────────────────

/// A resolved rich type is compatible with a declared `paramType`, by
/// category plus set element type. Scalars must match exactly; a `set` must
/// be an array whose element type (when both are known) matches the declared
/// `items`; a `record` need only be an object; an unknown declared
/// `paramType` accepts anything.
pub open spec fn matches_rich(declared: ParamType, rich: RichType) -> bool
    decreases rich,
{
    let p = declared.param_type@;
    if p == "string"@ {
        rich is String
    } else if p == "integer"@ || p == "long"@ {
        rich is Long
    } else if p == "bool"@ || p == "boolean"@ {
        rich is Bool
    } else if p == "decimal"@ {
        rich is Decimal
    } else if p == "set"@ {
        match rich {
            RichType::Array(ArrayElem::Unknown) => true,
            RichType::Array(ArrayElem::Of(elem)) => match declared.items {
                Some(item) => matches_rich(*item, *elem),
                None => true,
            },
            RichType::Array(ArrayElem::Mixed) => declared.items is None,
            _ => false,
        }
    } else if p == "record"@ {
        rich is Record
    } else {
        true
    }
}

/// Whether a resolved rich type is compatible with a declared `paramType`
/// (see [`matches_rich`]).
pub fn param_matches_rich(declared: &ParamType, rich: &RichType) -> (r: bool)
    ensures
        r == matches_rich(*declared, *rich),
    decreases rich,
{
    let p = declared.param_type.as_str();
    if str_eq(p, "string") {
        matches!(rich, RichType::String)
    } else if str_eq(p, "integer") || str_eq(p, "long") {
        matches!(rich, RichType::Long)
    } else if str_eq(p, "bool") || str_eq(p, "boolean") {
        matches!(rich, RichType::Bool)
    } else if str_eq(p, "decimal") {
        matches!(rich, RichType::Decimal)
    } else if str_eq(p, "set") {
        match rich {
            RichType::Array(ArrayElem::Unknown) => true,
            RichType::Array(ArrayElem::Of(elem)) => match &declared.items {
                Some(item) => param_matches_rich(item, elem),
                None => true,
            },
            RichType::Array(ArrayElem::Mixed) => declared.items.is_none(),
            _ => false,
        }
    } else if str_eq(p, "record") {
        matches!(rich, RichType::Record)
    } else {
        true
    }
}

/// The user-facing name of a rich type, in Cedar-familiar form.
pub open spec fn display_rich_text(rich: RichType) -> Seq<char>
    decreases rich,
{
    match rich {
        RichType::Long => "Long"@,
        RichType::String => "String"@,
        RichType::Bool => "Bool"@,
        RichType::Decimal => "decimal"@,
        RichType::Timepoint => "timepoint"@,
        RichType::Record => "record"@,
        RichType::Array(ArrayElem::Unknown) => "Set"@,
        RichType::Array(ArrayElem::Mixed) => "Set<?>"@,
        RichType::Array(ArrayElem::Of(elem)) => "Set<"@ + display_rich_text(*elem) + ">"@,
        RichType::Entity(Some(name)) => "entity:"@ + name@,
        RichType::Entity(None) => "entity"@,
        RichType::Never => "never"@,
    }
}

/// A user-facing name for a resolved rich type, rendering non-scalars in
/// Cedar-familiar form (`array<string>` as `Set<String>`, `object` as
/// `record`).
pub fn display_rich(rich: &RichType) -> (r: String)
    ensures
        r@ == display_rich_text(*rich),
    decreases rich,
{
    match rich {
        RichType::Long => string_of("Long"),
        RichType::String => string_of("String"),
        RichType::Bool => string_of("Bool"),
        RichType::Decimal => string_of("decimal"),
        RichType::Timepoint => string_of("timepoint"),
        RichType::Record => string_of("record"),
        RichType::Array(ArrayElem::Unknown) => string_of("Set"),
        RichType::Array(ArrayElem::Mixed) => string_of("Set<?>"),
        RichType::Array(ArrayElem::Of(elem)) => {
            let mut out = string_of("Set<");
            out.append(display_rich(elem).as_str());
            out.append(">");
            out
        },
        RichType::Entity(Some(name)) => {
            let mut out = string_of("entity:");
            out.append(name.as_str());
            out
        },
        RichType::Entity(None) => string_of("entity"),
        RichType::Never => string_of("never"),
    }
}

// ─── help text ────────────────────────────────────────────────────────────

/// The help text that goes with a finding's message, by the first phrase of
/// the message that a rule below recognises.
pub open spec fn provider_help_text(m: Seq<char>) -> Option<Seq<char>> {
    if contains_text(m, "is not present in the provider declarations"@) {
        Some("check the `availableProviders` in your provider declarations JSON"@)
    } else if contains_text(m, "expects"@) && contains_text(m, "argument(s) but got"@) {
        Some("check the `argumentTypes` array in the provider declaration"@)
    } else if contains_text(m, "does not match the declared"@) {
        Some(
            "provider arguments are typed: string, integer, decimal, bool, or set; field-path arguments (context.input.X) are resolved and type-checked against each scoped action's schema"@,
        )
    } else if contains_text(m, "is not declared"@) && contains_text(m, "method"@) {
        Some("check the `availableMethods` in the provider declaration"@)
    } else if contains_text(m, "collides with a built-in Cedar extension method"@) {
        Some(
            "Cedar extension methods (contains, lessThan, isIpv4, etc.) cannot be shadowed by provider methods; rename the method in the declaration"@,
        )
    } else if contains_text(m, "expects an input of type"@) {
        Some("each method's `inputType` constrains what the preceding pipeline stage must produce"@)
    } else if contains_text(m, "is not present in the context of action"@) {
        Some(
            "a provider's context field-path argument must be declared on every action the rule is scoped to; scope the rule to actions that declare the field, or reference a field they all share. (A present-but-optional field is accepted — only a flatly-undeclared field is rejected.)"@,
        )
    } else if contains_text(m, "is not present on the"@) {
        Some(
            "a provider's principal/resource field-path argument must be an attribute of every entity type the rule's scope admits; narrow the rule (`principal is <type>`) to the types that declare the attribute, or reference one they all share"@,
        )
    } else if contains_text(m, "declares argument type"@) {
        Some(
            "a provider's context field-path argument must have the declared type on every action the rule is scoped to; a field typed differently on one action (e.g. Long on one, String on another) does not match a scalar argument type"@,
        )
    } else {
        None
    }
}

/// Derive actionable help text from a provider validation finding's message.
pub fn derive_provider_help(message: &str) -> (r: Option<String>)
    ensures
        match r {
            Some(h) => provider_help_text(message@) == Some(h@),
            None => provider_help_text(message@) is None,
        },
{
    if contains_str(message, "is not present in the provider declarations") {
        Some(string_of("check the `availableProviders` in your provider declarations JSON"))
    } else if contains_str(message, "expects") && contains_str(message, "argument(s) but got") {
        Some(string_of("check the `argumentTypes` array in the provider declaration"))
    } else if contains_str(message, "does not match the declared") {
        Some(
            string_of(
                "provider arguments are typed: string, integer, decimal, bool, or set; field-path arguments (context.input.X) are resolved and type-checked against each scoped action's schema",
            ),
        )
    } else if contains_str(message, "is not declared") && contains_str(message, "method") {
        Some(string_of("check the `availableMethods` in the provider declaration"))
    } else if contains_str(message, "collides with a built-in Cedar extension method") {
        Some(
            string_of(
                "Cedar extension methods (contains, lessThan, isIpv4, etc.) cannot be shadowed by provider methods; rename the method in the declaration",
            ),
        )
    } else if contains_str(message, "expects an input of type") {
        Some(
            string_of(
                "each method's `inputType` constrains what the preceding pipeline stage must produce",
            ),
        )
    } else if contains_str(message, "is not present in the context of action") {
        Some(
            string_of(
                "a provider's context field-path argument must be declared on every action the rule is scoped to; scope the rule to actions that declare the field, or reference a field they all share. (A present-but-optional field is accepted — only a flatly-undeclared field is rejected.)",
            ),
        )
    } else if contains_str(message, "is not present on the") {
        Some(
            string_of(
                "a provider's principal/resource field-path argument must be an attribute of every entity type the rule's scope admits; narrow the rule (`principal is <type>`) to the types that declare the attribute, or reference one they all share",
            ),
        )
    } else if contains_str(message, "declares argument type") {
        Some(
            string_of(
                "a provider's context field-path argument must have the declared type on every action the rule is scoped to; a field typed differently on one action (e.g. Long on one, String on another) does not match a scalar argument type",
            ),
        )
    } else {
        None
    }
}

// ─── action display ───────────────────────────────────────────────────────

/// The view of an optional string.
pub open spec fn opt_string_view(o: Option<String>) -> Option<Seq<char>> {
    match o {
        Some(s) => Some(s@),
        None => None,
    }
}

/// An action reference in its diagnostic form: `Ns::Action::"id"` or
/// `Action::"id"`, the id escaped as Cedar escapes entity ids.
pub open spec fn action_display_text(action: ActionRef) -> Seq<char> {
    match action.namespace {
        Some(ns) => ns@ + "::Action::\""@ + escaped_eid_text(action.id@) + "\""@,
        None => "Action::\""@ + escaped_eid_text(action.id@) + "\""@,
    }
}

/// Render an action reference as its predicate form for a diagnostic.
pub fn action_display(action: &ActionRef) -> (r: String)
    ensures
        r@ == action_display_text(*action),
{
    let id = escaped_eid(action.id.as_str());
    let mut out = match &action.namespace {
        Some(ns) => {
            let mut t = string_of(ns.as_str());
            t.append("::Action::\"");
            t
        },
        None => string_of("Action::\""),
    };
    out.append(id.as_str());
    out.append("\"");
    out
}


// ─── findings ─────────────────────────────────────────────────────────────

/// One provider validation finding, with its span already rebased into the
/// `.dw` source.
pub struct ProviderFinding {
    pub message: String,
    pub span: Span,
}

/// A finding as its message text and span.
pub open spec fn finding_view(f: ProviderFinding) -> (Seq<char>, Span) {
    (f.message@, f.span)
}

/// The findings as message texts and spans, in order.
pub open spec fn findings_view(fs: Seq<ProviderFinding>) -> Seq<(Seq<char>, Span)> {
    Seq::new(fs.len(), |i: int| finding_view(fs[i]))
}

/// The first present value, scanning from the front.
pub open spec fn first_some<T>(s: Seq<Option<T>>) -> Option<T>
    decreases s.len(),
{
    if s.len() == 0 {
        None
    } else {
        match s[0] {
            Some(x) => Some(x),
            None => first_some(s.drop_first()),
        }
    }
}

proof fn lemma_first_some_none<T>(s: Seq<Option<T>>)
    requires
        forall|j: int| 0 <= j < s.len() ==> (#[trigger] s[j]) is None,
    ensures
        first_some(s) is None,
    decreases s.len(),
{
    if s.len() > 0 {
        assert(s[0] is None);
        let d = s.drop_first();
        assert forall|j: int| 0 <= j < d.len() implies (#[trigger] d[j]) is None by {
            assert(d[j] == s[j + 1]);
        }
        lemma_first_some_none(d);
    }
}

proof fn lemma_first_some_at<T>(s: Seq<Option<T>>, i: int)
    requires
        0 <= i < s.len(),
        forall|j: int| 0 <= j < i ==> (#[trigger] s[j]) is None,
        s[i] is Some,
    ensures
        first_some(s) == s[i],
    decreases i,
{
    if i > 0 {
        assert(s[0] is None);
        let d = s.drop_first();
        assert forall|j: int| 0 <= j < i - 1 implies (#[trigger] d[j]) is None by {
            assert(d[j] == s[j + 1]);
        }
        lemma_first_some_at(d, i - 1);
    }
}

/// Appends one finding.
fn push_finding(findings: &mut Vec<ProviderFinding>, message: String, span: Span)
    ensures
        findings_view(final(findings)@) == findings_view(old(findings)@).push((message@, span)),
{
    let ghost m = message@;
    findings.push(ProviderFinding { message, span });
    assert(findings_view(findings@) =~= findings_view(old(findings)@).push((m, span)));
}

/// The span moved forward by `base` bytes.
pub open spec fn rebase(s: Span, base: usize) -> Span {
    Span { start: (s.start + base) as usize, end: (s.end + base) as usize }
}

/// Moving the span forward by `base` stays within `usize`.
pub open spec fn rebase_fits(s: Span, base: usize) -> bool {
    s.start + base <= usize::MAX && s.end + base <= usize::MAX
}

// ─── messages ─────────────────────────────────────────────────────────────

/// A `context` field-path argument missing on an action.
pub open spec fn context_missing_text(key: Seq<char>, rest: Seq<Seq<char>>, action: Seq<char>) -> Seq<char> {
    "provider `"@ + key + "`: argument `context."@ + join_text(rest, "."@)
        + "` is not present in the context of action `"@ + action + "`"@
}

/// A `principal` / `resource` field-path argument missing on an action.
pub open spec fn scope_missing_text(
    key: Seq<char>,
    path: Seq<Seq<char>>,
    root: Seq<char>,
    action: Seq<char>,
    segment: Seq<char>,
) -> Seq<char> {
    "provider `"@ + key + "`: argument `"@ + join_text(path, "."@) + "` is not present on the `"@
        + root + "` of action `"@ + action + "` (no attribute `"@ + segment + "`)"@
}

/// A field-path argument whose type differs between the admitted types;
/// `types` lists the schema's rich type strings of those types (each once,
/// in string order where the checks build it).
pub open spec fn ambiguous_text(
    key: Seq<char>,
    path: Seq<Seq<char>>,
    root: Seq<char>,
    types: Seq<Seq<char>>,
    declared: Seq<char>,
) -> Seq<char> {
    "provider `"@ + key + "`: argument `"@ + join_text(path, "."@)
        + "` has a different type on each `"@ + root + "` type the rule admits (`"@ + join_text(
        types,
        "`, `"@,
    ) + "`), so it cannot match the declared argument type `"@ + declared + "`"@
}

/// A field-path argument of the wrong type on an action.
pub open spec fn type_mismatch_text(
    key: Seq<char>,
    path: Seq<Seq<char>>,
    rich: Seq<char>,
    action: Seq<char>,
    declared: Seq<char>,
) -> Seq<char> {
    "provider `"@ + key + "`: argument `"@ + join_text(path, "."@) + "` has type `"@ + rich
        + "` on action `"@ + action + "` but the provider declares argument type `"@ + declared
        + "`"@
}

fn context_missing_message(key: &str, rest: &[String], action: &ActionRef) -> (r: String)
    ensures
        r@ == context_missing_text(key@, views(rest@), action_display_text(*action)),
{
    let mut out = string_of("provider `");
    out.append(key);
    out.append("`: argument `context.");
    out.append(join(rest, ".").as_str());
    out.append("` is not present in the context of action `");
    out.append(action_display(action).as_str());
    out.append("`");
    out
}

fn scope_missing_message(key: &str, path: &[String], root: &str, action: &ActionRef, segment: &str) -> (r: String)
    ensures
        r@ == scope_missing_text(key@, views(path@), root@, action_display_text(*action), segment@),
{
    let mut out = string_of("provider `");
    out.append(key);
    out.append("`: argument `");
    out.append(join(path, ".").as_str());
    out.append("` is not present on the `");
    out.append(root);
    out.append("` of action `");
    out.append(action_display(action).as_str());
    out.append("` (no attribute `");
    out.append(segment);
    out.append("`)");
    out
}

fn ambiguous_message(key: &str, path: &[String], root: &str, names: &Vec<String>, declared: &str) -> (r: String)
    ensures
        r@ == ambiguous_text(key@, views(path@), root@, views(names@), declared@),
{
    let mut out = string_of("provider `");
    out.append(key);
    out.append("`: argument `");
    out.append(join(path, ".").as_str());
    out.append("` has a different type on each `");
    out.append(root);
    out.append("` type the rule admits (`");
    out.append(join(&names, "`, `").as_str());
    out.append("`), so it cannot match the declared argument type `");
    out.append(declared);
    out.append("`");
    out
}

fn type_mismatch_message(key: &str, path: &[String], rich: &RichType, action: &ActionRef, declared: &str) -> (r: String)
    ensures
        r@ == type_mismatch_text(
            key@,
            views(path@),
            display_rich_text(*rich),
            action_display_text(*action),
            declared@,
        ),
{
    let mut out = string_of("provider `");
    out.append(key);
    out.append("`: argument `");
    out.append(join(path, ".").as_str());
    out.append("` has type `");
    out.append(display_rich(rich).as_str());
    out.append("` on action `");
    out.append(action_display(action).as_str());
    out.append("` but the provider declares argument type `");
    out.append(declared);
    out.append("`");
    out
}

// ─── field-path existence ─────────────────────────────────────────────────

/// Some request environment of the action survives the rule's own principal
/// and resource narrowing.
pub open spec fn env_feasible(decl: ActionDecl, p: ScopeConstraint, r: ScopeConstraint) -> bool {
    admits_some(decl.principals@, Some(p)) && admits_some(decl.resources@, Some(r))
}

/// The rule's constraint on the scope root `root`.
pub open spec fn narrowing(root: Seq<char>, p: ScopeConstraint, r: ScopeConstraint) -> ScopeConstraint {
    if root == "principal"@ {
        p
    } else {
        r
    }
}

/// The outcome of resolving the attribute tail `rest` of the scope root
/// `root` on `decl`, under the rule's narrowing.
pub open spec fn scope_outcome(
    info: SchemaInfo,
    decl: ActionDecl,
    root: Seq<char>,
    rest: Seq<String>,
    p: ScopeConstraint,
    r: ScopeConstraint,
) -> ScopeVerdict {
    scope_verdict(
        scope_resolutions(info, admitted_types(root_types(decl, root), Some(narrowing(root, p, r))), rest),
        rest[0],
    )
}

/// The message, if any, for the field-path argument `path` (at least two
/// segments) being definitely missing on `action`: the action is declared,
/// some environment of it is feasible, and the path does not resolve there.
pub open spec fn path_missing_on(
    key: Seq<char>,
    path: Seq<String>,
    info: SchemaInfo,
    action: ActionRef,
    p: ScopeConstraint,
    r: ScopeConstraint,
) -> Option<Seq<char>> {
    let root = path[0]@;
    let rest = path.drop_first();
    match lookup_action(info, opt_string_view(action.namespace), action.id@) {
        None => None,
        Some(decl) => if !env_feasible(decl, p, r) {
            None
        } else if root == "context"@ {
            if is_failure(context_path_spec(decl, rest)) {
                Some(context_missing_text(key, views(rest), action_display_text(action)))
            } else {
                None
            }
        } else if root == "principal"@ || root == "resource"@ {
            match scope_outcome(info, decl, root, rest, p, r) {
                ScopeVerdict::Missing(seg) => Some(
                    scope_missing_text(key, views(path), root, action_display_text(action), seg@),
                ),
                ScopeVerdict::NonRecord(seg) => Some(
                    scope_missing_text(key, views(path), root, action_display_text(action), seg@),
                ),
                _ => None,
            }
        } else {
            None
        },
    }
}

/// The finding for one field-path argument: on the first target action where
/// it is definitely missing. A path of fewer than two segments (a bare
/// `context` / `principal` / `resource`) always resolves.
pub open spec fn path_findings(
    key: Seq<char>,
    path: Seq<String>,
    info: SchemaInfo,
    targets: Seq<ActionRef>,
    p: ScopeConstraint,
    r: ScopeConstraint,
    span: Span,
) -> Seq<(Seq<char>, Span)> {
    if path.len() < 2 {
        Seq::empty()
    } else {
        match first_some(Seq::new(targets.len(), |i: int| path_missing_on(key, path, info, targets[i], p, r))) {
            Some(m) => seq![(m, span)],
            None => Seq::empty(),
        }
    }
}

/// The existence findings of one argument, recursing into sets.
pub open spec fn arg_path_findings(
    key: Seq<char>,
    arg: Arg,
    info: SchemaInfo,
    targets: Seq<ActionRef>,
    p: ScopeConstraint,
    r: ScopeConstraint,
    span: Span,
) -> Seq<(Seq<char>, Span)>
    decreases arg,
{
    match arg {
        Arg::SetOf(items) => args_path_findings(key, items@, info, targets, p, r, span),
        Arg::Field(path) => path_findings(key, path@, info, targets, p, r, span),
        _ => Seq::empty(),
    }
}

/// The existence findings of a list of arguments, in order.
pub open spec fn args_path_findings(
    key: Seq<char>,
    args: Seq<Arg>,
    info: SchemaInfo,
    targets: Seq<ActionRef>,
    p: ScopeConstraint,
    r: ScopeConstraint,
    span: Span,
) -> Seq<(Seq<char>, Span)>
    decreases args,
{
    if args.len() == 0 {
        Seq::empty()
    } else {
        args_path_findings(key, args.drop_last(), info, targets, p, r, span) + arg_path_findings(
            key,
            args.last(),
            info,
            targets,
            p,
            r,
            span,
        )
    }
}

/// A measure of an argument's nesting.
pub open spec fn arg_size(a: Arg) -> nat
    decreases a,
{
    match a {
        Arg::SetOf(items) => 1 + items_size(items@),
        _ => 1,
    }
}

/// A measure of a list of arguments.
pub open spec fn items_size(s: Seq<Arg>) -> nat
    decreases s,
{
    if s.len() == 0 {
        0
    } else {
        items_size(s.drop_last()) + arg_size(s.last())
    }
}

proof fn lemma_items_size_elem(s: Seq<Arg>, i: int)
    requires
        0 <= i < s.len(),
    ensures
        arg_size(s[i]) <= items_size(s),
    decreases s.len(),
{
    if i < s.len() - 1 {
        lemma_items_size_elem(s.drop_last(), i);
    }
}

/// The view of an optional string as an optional slice.
fn ns_str(o: &Option<String>) -> (r: Option<&str>)
    ensures
        opt_view(r) == opt_string_view(*o),
{
    match o {
        Some(s) => Some(s.as_str()),
        None => None,
    }
}

/// The message, if any, for `path` being definitely missing on `action`.
fn path_missing_message(
    key: &str,
    path: &[String],
    info: &SchemaInfo,
    action: &ActionRef,
    principal: &ScopeConstraint,
    resource: &ScopeConstraint,
) -> (r: Option<String>)
    requires
        path@.len() >= 2,
    ensures
        opt_string_view(r) == path_missing_on(key@, path@, *info, *action, *principal, *resource),
{
    let handle = match info.action(ns_str(&action.namespace), action.id.as_str()) {
        Some(h) => h,
        None => return None,
    };
    if !handle.admits_any_env(Some(principal), Some(resource)) {
        return None;
    }
    let root = path[0].as_str();
    let rest = slice_subrange(path, 1, path.len());
    assert(rest@ =~= path@.drop_first());
    if str_eq(root, "context") {
        match handle.resolve_context_path(rest) {
            PathResolution::Resolved(_) => None,
            _ => Some(context_missing_message(key, rest, action)),
        }
    } else if str_eq(root, "principal") || str_eq(root, "resource") {
        let narrow = if str_eq(root, "principal") {
            principal
        } else {
            resource
        };
        match handle.resolve_scope_path(root, rest, Some(narrow)) {
            ScopePath::Missing { segment } => Some(
                scope_missing_message(key, path, root, action, segment.as_str()),
            ),
            ScopePath::NonRecord { segment } => Some(
                scope_missing_message(key, path, root, action, segment.as_str()),
            ),
            _ => None,
        }
    } else {
        None
    }
}

/// Resolve one field-path argument's existence against each target action,
/// reporting the first action on which it is definitely missing.
pub fn check_one_field_path(
    key: &str,
    path: &[String],
    info: &SchemaInfo,
    target_actions: &[ActionRef],
    principal: &ScopeConstraint,
    resource: &ScopeConstraint,
    span: Span,
    findings: &mut Vec<ProviderFinding>,
)
    ensures
        findings_view(final(findings)@) == findings_view(old(findings)@) + path_findings(
            key@,
            path@,
            *info,
            target_actions@,
            *principal,
            *resource,
            span,
        ),
{
    if path.len() < 2 {
        assert(findings_view(findings@) + Seq::<(Seq<char>, Span)>::empty() =~= findings_view(findings@));
        return;
    }
    let ghost issues = Seq::new(
        target_actions@.len(),
        |i: int| path_missing_on(key@, path@, *info, target_actions@[i], *principal, *resource),
    );
    let mut i: usize = 0;
    while i < target_actions.len()
        invariant
            i <= target_actions@.len(),
            path@.len() >= 2,
            findings@ == old(findings)@,
            issues == Seq::new(
                target_actions@.len(),
                |i: int| path_missing_on(key@, path@, *info, target_actions@[i], *principal, *resource),
            ),
            forall|j: int| 0 <= j < i ==> (#[trigger] issues[j]) is None,
        decreases target_actions.len() - i,
    {
        match path_missing_message(key, path, info, &target_actions[i], principal, resource) {
            Some(m) => {
                proof {
                    lemma_first_some_at(issues, i as int);
                }
                let ghost mv = m@;
                push_finding(findings, m, span);
                assert(findings_view(old(findings)@).push((mv, span)) =~= findings_view(old(findings)@)
                    + seq![(mv, span)]);
                return;
            },
            None => {},
        }
        i = i + 1;
    }
    proof {
        lemma_first_some_none(issues);
    }
    assert(findings_view(findings@) + Seq::<(Seq<char>, Span)>::empty() =~= findings_view(findings@));
}

/// Check every field-path argument in `args` (recursing into sets) for a path
/// that is definitely missing on some scoped action.
pub fn check_field_path_args(
    key: &str,
    args: &[Arg],
    info: &SchemaInfo,
    target_actions: &[ActionRef],
    principal: &ScopeConstraint,
    resource: &ScopeConstraint,
    span: Span,
    findings: &mut Vec<ProviderFinding>,
)
    ensures
        findings_view(final(findings)@) == findings_view(old(findings)@) + args_path_findings(
            key@,
            args@,
            *info,
            target_actions@,
            *principal,
            *resource,
            span,
        ),
    decreases items_size(args@),
{
    let mut i: usize = 0;
    while i < args.len()
        invariant
            i <= args@.len(),
            findings_view(findings@) == findings_view(old(findings)@) + args_path_findings(
                key@,
                args@.take(i as int),
                *info,
                target_actions@,
                *principal,
                *resource,
                span,
            ),
        decreases args.len() - i,
    {
        proof {
            lemma_items_size_elem(args@, i as int);
            assert(args@.take(i + 1).drop_last() =~= args@.take(i as int));
        }
        let ghost before = findings_view(findings@);
        match &args[i] {
            Arg::SetOf(items) => {
                check_field_path_args(key, items, info, target_actions, principal, resource, span, findings);
            },
            Arg::Field(path) => {
                check_one_field_path(key, path, info, target_actions, principal, resource, span, findings);
            },
            _ => {
                assert(before + Seq::<(Seq<char>, Span)>::empty() =~= before);
            },
        }
        assert(findings_view(findings@) == before + arg_path_findings(
            key@,
            args@[i as int],
            *info,
            target_actions@,
            *principal,
            *resource,
            span,
        ));
        assert(findings_view(old(findings)@) + args_path_findings(
            key@,
            args@.take(i as int),
            *info,
            target_actions@,
            *principal,
            *resource,
            span,
        ) + arg_path_findings(key@, args@[i as int], *info, target_actions@, *principal, *resource, span)
            =~= findings_view(old(findings)@) + args_path_findings(
            key@,
            args@.take(i + 1),
            *info,
            target_actions@,
            *principal,
            *resource,
            span,
        ));
        i = i + 1;
    }
    assert(args@.take(args@.len() as int) =~= args@);
}

// ─── field-path types ─────────────────────────────────────────────────────

/// The message, if any, for the field-path argument `path` (at least two
/// segments) having the wrong type on `action`: the action is declared, some
/// environment of it is feasible, and the path resolves there to one type that
/// does not match the declaration, or (for a scope root) to different types on
/// the admitted entity types.
pub open spec fn type_issue_on(
    key: Seq<char>,
    path: Seq<String>,
    declared: ParamType,
    info: SchemaInfo,
    action: ActionRef,
    p: ScopeConstraint,
    r: ScopeConstraint,
) -> Option<Seq<char>> {
    let root = path[0]@;
    let rest = path.drop_first();
    let mismatch = |rich: RichType|
        if matches_rich(declared, rich) {
            None
        } else {
            Some(
                type_mismatch_text(
                    key,
                    views(path),
                    display_rich_text(rich),
                    action_display_text(action),
                    declared.param_type@,
                ),
            )
        };
    match lookup_action(info, opt_string_view(action.namespace), action.id@) {
        None => None,
        Some(decl) => if !env_feasible(decl, p, r) {
            None
        } else if root == "context"@ {
            match context_path_spec(decl, rest) {
                PathResolution::Resolved(rich) => mismatch(rich),
                _ => None,
            }
        } else if root == "principal"@ || root == "resource"@ {
            let rs = scope_resolutions(
                info,
                admitted_types(root_types(decl, root), Some(narrowing(root, p, r))),
                rest,
            );
            match scope_verdict(rs, rest[0]) {
                ScopeVerdict::Resolved(rich) => mismatch(rich),
                ScopeVerdict::Ambiguous => Some(
                    ambiguous_text(
                        key,
                        views(path),
                        root,
                        sorted_texts(rich_texts(rs)),
                        declared.param_type@,
                    ),
                ),
                _ => None,
            }
        } else {
            None
        },
    }
}

/// The type finding for one field-path argument: on the first target action
/// where its type is wrong.
pub open spec fn path_type_findings(
    key: Seq<char>,
    path: Seq<String>,
    declared: ParamType,
    info: SchemaInfo,
    targets: Seq<ActionRef>,
    p: ScopeConstraint,
    r: ScopeConstraint,
    span: Span,
) -> Seq<(Seq<char>, Span)> {
    if path.len() < 2 {
        Seq::empty()
    } else {
        match first_some(
            Seq::new(targets.len(), |i: int| type_issue_on(key, path, declared, info, targets[i], p, r)),
        ) {
            Some(m) => seq![(m, span)],
            None => Seq::empty(),
        }
    }
}

/// The type findings of one argument against its declared type, recursing
/// into a set literal against the declared set's element type.
pub open spec fn arg_type_findings(
    key: Seq<char>,
    arg: Arg,
    declared: ParamType,
    info: SchemaInfo,
    targets: Seq<ActionRef>,
    p: ScopeConstraint,
    r: ScopeConstraint,
    span: Span,
) -> Seq<(Seq<char>, Span)>
    decreases arg,
{
    match arg {
        Arg::Field(path) => path_type_findings(key, path@, declared, info, targets, p, r, span),
        Arg::SetOf(items) => match declared.items {
            Some(item) => items_type_findings(key, items@, *item, info, targets, p, r, span),
            None => Seq::empty(),
        },
        _ => Seq::empty(),
    }
}

/// The type findings of each of `items` against one declared element type.
pub open spec fn items_type_findings(
    key: Seq<char>,
    items: Seq<Arg>,
    declared: ParamType,
    info: SchemaInfo,
    targets: Seq<ActionRef>,
    p: ScopeConstraint,
    r: ScopeConstraint,
    span: Span,
) -> Seq<(Seq<char>, Span)>
    decreases items,
{
    if items.len() == 0 {
        Seq::empty()
    } else {
        items_type_findings(key, items.drop_last(), declared, info, targets, p, r, span)
            + arg_type_findings(key, items.last(), declared, info, targets, p, r, span)
    }
}

/// The message, if any, for `path` having the wrong type on `action`.
fn type_issue_message(
    key: &str,
    path: &[String],
    declared: &ParamType,
    info: &SchemaInfo,
    action: &ActionRef,
    principal: &ScopeConstraint,
    resource: &ScopeConstraint,
) -> (r: Option<String>)
    requires
        path@.len() >= 2,
    ensures
        opt_string_view(r) == type_issue_on(key@, path@, *declared, *info, *action, *principal, *resource),
{
    let handle = match info.action(ns_str(&action.namespace), action.id.as_str()) {
        Some(h) => h,
        None => return None,
    };
    if !handle.admits_any_env(Some(principal), Some(resource)) {
        return None;
    }
    let root = path[0].as_str();
    let rest = slice_subrange(path, 1, path.len());
    assert(rest@ =~= path@.drop_first());
    let p = declared.param_type.as_str();
    if str_eq(root, "context") {
        match handle.resolve_context_path(rest) {
            PathResolution::Resolved(rich) => if param_matches_rich(declared, &rich) {
                None
            } else {
                Some(type_mismatch_message(key, path, &rich, action, p))
            },
            _ => None,
        }
    } else if str_eq(root, "principal") || str_eq(root, "resource") {
        let narrow = if str_eq(root, "principal") {
            principal
        } else {
            resource
        };
        match handle.resolve_scope_path(root, rest, Some(narrow)) {
            ScopePath::Resolved(rich) => if param_matches_rich(declared, &rich) {
                None
            } else {
                Some(type_mismatch_message(key, path, &rich, action, p))
            },
            ScopePath::Ambiguous { types } => {
                Some(ambiguous_message(key, path, root, &types, p))
            },
            _ => None,
        }
    } else {
        None
    }
}

/// Type-check one field-path argument against its declared `paramType`, per
/// scoped action, reporting the first action on which it is wrong.
pub fn check_field_path_type(
    key: &str,
    path: &[String],
    declared: &ParamType,
    info: &SchemaInfo,
    target_actions: &[ActionRef],
    principal: &ScopeConstraint,
    resource: &ScopeConstraint,
    span: Span,
    findings: &mut Vec<ProviderFinding>,
)
    ensures
        findings_view(final(findings)@) == findings_view(old(findings)@) + path_type_findings(
            key@,
            path@,
            *declared,
            *info,
            target_actions@,
            *principal,
            *resource,
            span,
        ),
{
    if path.len() < 2 {
        assert(findings_view(findings@) + Seq::<(Seq<char>, Span)>::empty() =~= findings_view(findings@));
        return;
    }
    let ghost issues = Seq::new(
        target_actions@.len(),
        |i: int| type_issue_on(key@, path@, *declared, *info, target_actions@[i], *principal, *resource),
    );
    let mut i: usize = 0;
    while i < target_actions.len()
        invariant
            i <= target_actions@.len(),
            path@.len() >= 2,
            findings@ == old(findings)@,
            issues == Seq::new(
                target_actions@.len(),
                |i: int| type_issue_on(key@, path@, *declared, *info, target_actions@[i], *principal, *resource),
            ),
            forall|j: int| 0 <= j < i ==> (#[trigger] issues[j]) is None,
        decreases target_actions.len() - i,
    {
        match type_issue_message(key, path, declared, info, &target_actions[i], principal, resource) {
            Some(m) => {
                proof {
                    lemma_first_some_at(issues, i as int);
                }
                let ghost mv = m@;
                push_finding(findings, m, span);
                assert(findings_view(old(findings)@).push((mv, span)) =~= findings_view(old(findings)@)
                    + seq![(mv, span)]);
                return;
            },
            None => {},
        }
        i = i + 1;
    }
    proof {
        lemma_first_some_none(issues);
    }
    assert(findings_view(findings@) + Seq::<(Seq<char>, Span)>::empty() =~= findings_view(findings@));
}

/// Type-check one provider argument against its declared `paramType`,
/// recursing into a set literal so each element field path is checked against
/// the declared set's element type (when the declaration gives one).
pub fn check_arg_type(
    key: &str,
    arg: &Arg,
    declared: &ParamType,
    info: &SchemaInfo,
    target_actions: &[ActionRef],
    principal: &ScopeConstraint,
    resource: &ScopeConstraint,
    span: Span,
    findings: &mut Vec<ProviderFinding>,
)
    ensures
        findings_view(final(findings)@) == findings_view(old(findings)@) + arg_type_findings(
            key@,
            *arg,
            *declared,
            *info,
            target_actions@,
            *principal,
            *resource,
            span,
        ),
    decreases arg_size(*arg),
{
    match arg {
        Arg::Field(path) => {
            check_field_path_type(key, path, declared, info, target_actions, principal, resource, span, findings);
        },
        Arg::SetOf(items) => {
            match &declared.items {
                Some(item) => {
                    let mut i: usize = 0;
                    while i < items.len()
                        invariant
                            i <= items@.len(),
                            *arg == Arg::SetOf(*items),
                            findings_view(findings@) == findings_view(old(findings)@) + items_type_findings(
                                key@,
                                items@.take(i as int),
                                **item,
                                *info,
                                target_actions@,
                                *principal,
                                *resource,
                                span,
                            ),
                        decreases items.len() - i,
                    {
                        proof {
                            lemma_items_size_elem(items@, i as int);
                            assert(items@.take(i + 1).drop_last() =~= items@.take(i as int));
                        }
                        let ghost before = findings_view(findings@);
                        check_arg_type(key, &items[i], item, info, target_actions, principal, resource, span, findings);
                        assert(before + arg_type_findings(
                            key@,
                            items@[i as int],
                            **item,
                            *info,
                            target_actions@,
                            *principal,
                            *resource,
                            span,
                        ) =~= findings_view(findings@));
                        assert(findings_view(old(findings)@) + items_type_findings(
                            key@,
                            items@.take(i as int),
                            **item,
                            *info,
                            target_actions@,
                            *principal,
                            *resource,
                            span,
                        ) + arg_type_findings(
                            key@,
                            items@[i as int],
                            **item,
                            *info,
                            target_actions@,
                            *principal,
                            *resource,
                            span,
                        ) =~= findings_view(old(findings)@) + items_type_findings(
                            key@,
                            items@.take(i + 1),
                            **item,
                            *info,
                            target_actions@,
                            *principal,
                            *resource,
                            span,
                        ));
                        i = i + 1;
                    }
                    assert(items@.take(items@.len() as int) =~= items@);
                },
                None => {
                    assert(findings_view(findings@) + Seq::<(Seq<char>, Span)>::empty() =~= findings_view(findings@));
                },
            }
        },
        _ => {
            assert(findings_view(findings@) + Seq::<(Seq<char>, Span)>::empty() =~= findings_view(findings@));
        },
    }
}

// ─── declared methods ─────────────────────────────────────────────────────

/// The index of the first declared method named `name`.
pub open spec fn method_index(ms: Seq<(String, MethodDecl)>, name: Seq<char>) -> Option<int>
    decreases ms.len(),
{
    if ms.len() == 0 {
        None
    } else {
        match method_index(ms.drop_last(), name) {
            Some(i) => Some(i),
            None => if ms.last().0@ == name {
                Some(ms.len() - 1)
            } else {
                None
            },
        }
    }
}

/// The declared method named `name`, if any.
pub open spec fn method_lookup(ms: Seq<(String, MethodDecl)>, name: Seq<char>) -> Option<MethodDecl> {
    match method_index(ms, name) {
        Some(i) => Some(ms[i].1),
        None => None,
    }
}

proof fn lemma_method_index(ms: Seq<(String, MethodDecl)>, name: Seq<char>)
    ensures
        match method_index(ms, name) {
            Some(i) => 0 <= i < ms.len() && ms[i].0@ == name && forall|j: int|
                0 <= j < i ==> (#[trigger] ms[j]).0@ != name,
            None => forall|j: int| 0 <= j < ms.len() ==> (#[trigger] ms[j]).0@ != name,
        },
    decreases ms.len(),
{
    if ms.len() > 0 {
        let d = ms.drop_last();
        lemma_method_index(d, name);
        assert forall|j: int| 0 <= j < d.len() implies d[j] == ms[j] by {}
    }
}

/// The declared method named `name`, if any.
pub fn find_method<'a>(ms: &'a Vec<(String, MethodDecl)>, name: &str) -> (r: Option<&'a MethodDecl>)
    ensures
        match r {
            Some(d) => method_lookup(ms@, name@) == Some(*d),
            None => method_lookup(ms@, name@) is None,
        },
{
    proof {
        lemma_method_index(ms@, name@);
    }
    let mut i: usize = 0;
    while i < ms.len()
        invariant
            i <= ms.len(),
            forall|j: int| 0 <= j < i ==> (#[trigger] ms@[j]).0@ != name@,
            match method_index(ms@, name@) {
                Some(k) => 0 <= k < ms@.len() && ms@[k].0@ == name@ && forall|j: int|
                    0 <= j < k ==> (#[trigger] ms@[j]).0@ != name@,
                None => forall|j: int| 0 <= j < ms@.len() ==> (#[trigger] ms@[j]).0@ != name@,
            },
        decreases ms.len() - i,
    {
        if str_eq(ms[i].0.as_str(), name) {
            return Some(&ms[i].1);
        }
        i = i + 1;
    }
    None
}

// ─── per-invocation messages ──────────────────────────────────────────────

/// An invocation of a provider that is not declared.
pub open spec fn not_present_text(key: Seq<char>) -> Seq<char> {
    "provider `"@ + key + "` is not present in the provider declarations"@
}

/// An invocation with the wrong number of arguments.
pub open spec fn count_text(key: Seq<char>, expected: nat, got: nat) -> Seq<char> {
    "provider `"@ + key + "` expects "@ + decimal_text(expected) + " argument(s) but got "@
        + decimal_text(got)
}

/// A directly-typed argument of the wrong kind, of the invocation (`None`) or
/// of the named method.
pub open spec fn literal_text(key: Seq<char>, method: Option<Seq<char>>, actual: Seq<char>, declared: Seq<char>) -> Seq<char> {
    match method {
        None => "provider `"@ + key + "`: argument of type `"@ + actual
            + "` does not match the declared `"@ + declared + "`"@,
        Some(m) => "provider `"@ + key + "`: method `"@ + m + "` argument of type `"@ + actual
            + "` does not match the declared `"@ + declared + "`"@,
    }
}

/// A method that shadows a Cedar extension method.
pub open spec fn collide_text(key: Seq<char>, name: Seq<char>) -> Seq<char> {
    "provider `"@ + key + "`: method `"@ + name
        + "` collides with a built-in Cedar extension method; rename the declared method"@
}

/// What the provider declares, for an undeclared method.
pub open spec fn available_text(key: Seq<char>, names: Seq<Seq<char>>) -> Seq<char> {
    if names.len() == 0 {
        "provider `"@ + key + "` declares no methods"@
    } else {
        "declared methods on `"@ + key + "` are: "@ + join_text(names, ", "@)
    }
}

/// A method the provider does not declare.
pub open spec fn undeclared_text(key: Seq<char>, name: Seq<char>, available: Seq<char>) -> Seq<char> {
    "provider `"@ + key + "`: method `"@ + name + "` is not declared ("@ + available + ")"@
}

/// A method fed a value of another type than its declared input.
pub open spec fn input_text(key: Seq<char>, name: Seq<char>, input: Seq<char>, pipeline: Seq<char>) -> Seq<char> {
    "provider `"@ + key + "`: method `"@ + name + "` expects an input of type `"@ + input
        + "` but the preceding stage produces `"@ + pipeline + "`"@
}

/// A method call with the wrong number of arguments.
pub open spec fn method_count_text(key: Seq<char>, name: Seq<char>, expected: nat, got: nat) -> Seq<char> {
    "provider `"@ + key + "`: method `"@ + name + "` expects "@ + decimal_text(expected)
        + " argument(s) but got "@ + decimal_text(got)
}

fn not_present_message(key: &str) -> (r: String)
    ensures
        r@ == not_present_text(key@),
{
    let mut out = string_of("provider `");
    out.append(key);
    out.append("` is not present in the provider declarations");
    out
}

fn count_message(key: &str, expected: usize, got: usize) -> (r: String)
    ensures
        r@ == count_text(key@, expected as nat, got as nat),
{
    let mut out = string_of("provider `");
    out.append(key);
    out.append("` expects ");
    out.append(usize_text(expected).as_str());
    out.append(" argument(s) but got ");
    out.append(usize_text(got).as_str());
    out
}

fn literal_message(key: &str, method: Option<&str>, actual: &str, declared: &str) -> (r: String)
    ensures
        r@ == literal_text(key@, opt_view(method), actual@, declared@),
{
    let mut out = string_of("provider `");
    out.append(key);
    match method {
        None => {
            out.append("`: argument of type `");
        },
        Some(m) => {
            out.append("`: method `");
            out.append(m);
            out.append("` argument of type `");
        },
    }
    out.append(actual);
    out.append("` does not match the declared `");
    out.append(declared);
    out.append("`");
    out
}

fn collide_message(key: &str, name: &str) -> (r: String)
    ensures
        r@ == collide_text(key@, name@),
{
    let mut out = string_of("provider `");
    out.append(key);
    out.append("`: method `");
    out.append(name);
    out.append("` collides with a built-in Cedar extension method; rename the declared method");
    out
}

fn undeclared_message(key: &str, name: &str, ms: &Vec<(String, MethodDecl)>) -> (r: String)
    ensures
        r@ == undeclared_text(key@, name@, available_text(key@, keys_of(ms@))),
{
    let available = if ms.len() == 0 {
        let mut t = string_of("provider `");
        t.append(key);
        t.append("` declares no methods");
        t
    } else {
        let mut names: Vec<String> = Vec::new();
        let mut i: usize = 0;
        while i < ms.len()
            invariant
                i <= ms.len(),
                names.len() == i,
                forall|j: int| 0 <= j < i ==> #[trigger] names@[j]@ == ms@[j].0@,
            decreases ms.len() - i,
        {
            names.push(string_of(ms[i].0.as_str()));
            i = i + 1;
        }
        assert(views(names@) =~= keys_of(ms@));
        let mut t = string_of("declared methods on `");
        t.append(key);
        t.append("` are: ");
        t.append(join(&names, ", ").as_str());
        t
    };
    let mut out = string_of("provider `");
    out.append(key);
    out.append("`: method `");
    out.append(name);
    out.append("` is not declared (");
    out.append(available.as_str());
    out.append(")");
    out
}

fn input_message(key: &str, name: &str, input: &str, pipeline: &str) -> (r: String)
    ensures
        r@ == input_text(key@, name@, input@, pipeline@),
{
    let mut out = string_of("provider `");
    out.append(key);
    out.append("`: method `");
    out.append(name);
    out.append("` expects an input of type `");
    out.append(input);
    out.append("` but the preceding stage produces `");
    out.append(pipeline);
    out.append("`");
    out
}

fn method_count_message(key: &str, name: &str, expected: usize, got: usize) -> (r: String)
    ensures
        r@ == method_count_text(key@, name@, expected as nat, got as nat),
{
    let mut out = string_of("provider `");
    out.append(key);
    out.append("`: method `");
    out.append(name);
    out.append("` expects ");
    out.append(usize_text(expected).as_str());
    out.append(" argument(s) but got ");
    out.append(usize_text(got).as_str());
    out
}

// ─── argument lists ───────────────────────────────────────────────────────

/// The finding for one directly-typed argument that its declared type does
/// not accept.
pub open spec fn literal_finding(key: Seq<char>, method: Option<Seq<char>>, arg: Arg, param: ParamType, span: Span) -> Seq<(Seq<char>, Span)> {
    match arg_kind_text(arg) {
        Some(actual) => if accepts(param.param_type@, actual) {
            Seq::empty()
        } else {
            seq![(literal_text(key, method, actual, param.param_type@), span)]
        },
        None => Seq::empty(),
    }
}

/// The literal findings of the first `n` argument / declared-type pairs.
pub open spec fn literal_findings(
    key: Seq<char>,
    method: Option<Seq<char>>,
    args: Seq<Arg>,
    params: Seq<ParamType>,
    span: Span,
    n: nat,
) -> Seq<(Seq<char>, Span)>
    decreases n,
{
    if n == 0 {
        Seq::empty()
    } else {
        literal_findings(key, method, args, params, span, (n - 1) as nat) + literal_finding(
            key,
            method,
            args[n - 1],
            params[n - 1],
            span,
        )
    }
}

/// The type findings of the first `n` argument / declared-type pairs.
pub open spec fn zip_type_findings(
    key: Seq<char>,
    args: Seq<Arg>,
    params: Seq<ParamType>,
    info: SchemaInfo,
    targets: Seq<ActionRef>,
    p: ScopeConstraint,
    r: ScopeConstraint,
    span: Span,
    n: nat,
) -> Seq<(Seq<char>, Span)>
    decreases n,
{
    if n == 0 {
        Seq::empty()
    } else {
        zip_type_findings(key, args, params, info, targets, p, r, span, (n - 1) as nat)
            + arg_type_findings(key, args[n - 1], params[n - 1], info, targets, p, r, span)
    }
}

/// The smaller of two lengths.
pub open spec fn min_len(a: nat, b: nat) -> nat {
    if a <= b {
        a
    } else {
        b
    }
}

/// Check each directly-typed argument against its declared type, pairing
/// arguments and declared types position by position.
fn check_literal_args(
    key: &str,
    method: Option<&str>,
    args: &[Arg],
    params: &[ParamType],
    span: Span,
    findings: &mut Vec<ProviderFinding>,
)
    ensures
        findings_view(final(findings)@) == findings_view(old(findings)@) + literal_findings(
            key@,
            opt_view(method),
            args@,
            params@,
            span,
            min_len(args@.len(), params@.len()),
        ),
{
    let mut i: usize = 0;
    while i < args.len() && i < params.len()
        invariant
            i <= min_len(args@.len(), params@.len()),
            findings_view(findings@) == findings_view(old(findings)@) + literal_findings(
                key@,
                opt_view(method),
                args@,
                params@,
                span,
                i as nat,
            ),
        decreases args.len() - i,
    {
        let ghost before = findings_view(findings@);
        match arg_kind(&args[i]) {
            Some(actual) => {
                if !param_type_accepts(params[i].param_type.as_str(), actual) {
                    let m = literal_message(key, method, actual, params[i].param_type.as_str());
                    push_finding(findings, m, span);
                } else {
                    assert(before + Seq::<(Seq<char>, Span)>::empty() =~= before);
                }
            },
            None => {
                assert(before + Seq::<(Seq<char>, Span)>::empty() =~= before);
            },
        }
        assert(findings_view(old(findings)@) + literal_findings(
            key@,
            opt_view(method),
            args@,
            params@,
            span,
            i as nat,
        ) + literal_finding(key@, opt_view(method), args@[i as int], params@[i as int], span)
            =~= findings_view(findings@));
        i = i + 1;
    }
}

/// Type-check each argument against its declared type, pairing arguments and
/// declared types position by position.
fn check_zip_types(
    key: &str,
    args: &[Arg],
    params: &[ParamType],
    info: &SchemaInfo,
    target_actions: &[ActionRef],
    principal: &ScopeConstraint,
    resource: &ScopeConstraint,
    span: Span,
    findings: &mut Vec<ProviderFinding>,
)
    ensures
        findings_view(final(findings)@) == findings_view(old(findings)@) + zip_type_findings(
            key@,
            args@,
            params@,
            *info,
            target_actions@,
            *principal,
            *resource,
            span,
            min_len(args@.len(), params@.len()),
        ),
{
    let mut i: usize = 0;
    while i < args.len() && i < params.len()
        invariant
            i <= min_len(args@.len(), params@.len()),
            findings_view(findings@) == findings_view(old(findings)@) + zip_type_findings(
                key@,
                args@,
                params@,
                *info,
                target_actions@,
                *principal,
                *resource,
                span,
                i as nat,
            ),
        decreases args.len() - i,
    {
        let ghost before = findings_view(findings@);
        check_arg_type(key, &args[i], &params[i], info, target_actions, principal, resource, span, findings);
        assert(findings_view(old(findings)@) + zip_type_findings(
            key@,
            args@,
            params@,
            *info,
            target_actions@,
            *principal,
            *resource,
            span,
            i as nat,
        ) + arg_type_findings(
            key@,
            args@[i as int],
            params@[i as int],
            *info,
            target_actions@,
            *principal,
            *resource,
            span,
        ) =~= findings_view(findings@));
        i = i + 1;
    }
}

// ─── method calls ─────────────────────────────────────────────────────────

/// Every method call's span moves forward by `base` within `usize`.
pub open spec fn methods_fit(ms: Seq<ProviderMethodCall>, base: usize) -> bool {
    forall|j: int| 0 <= j < ms.len() ==> rebase_fits((#[trigger] ms[j]).span, base)
}

/// The existence findings of each method call's arguments, in order.
pub open spec fn methods_path_findings(
    key: Seq<char>,
    ms: Seq<ProviderMethodCall>,
    info: SchemaInfo,
    targets: Seq<ActionRef>,
    p: ScopeConstraint,
    r: ScopeConstraint,
    base: usize,
) -> Seq<(Seq<char>, Span)>
    decreases ms.len(),
{
    if ms.len() == 0 {
        Seq::empty()
    } else {
        methods_path_findings(key, ms.drop_last(), info, targets, p, r, base) + args_path_findings(
            key,
            ms.last().args@,
            info,
            targets,
            p,
            r,
            rebase(ms.last().span, base),
        )
    }
}

/// The type findings of one method call's arguments against the declared
/// method's argument types; none for an undeclared method.
pub open spec fn method_type_findings(
    key: Seq<char>,
    decl: ProviderDecl,
    m: ProviderMethodCall,
    info: SchemaInfo,
    targets: Seq<ActionRef>,
    p: ScopeConstraint,
    r: ScopeConstraint,
    base: usize,
) -> Seq<(Seq<char>, Span)> {
    match method_lookup(decl.methods@, m.name@) {
        Some(md) => zip_type_findings(
            key,
            m.args@,
            md.argument_types@,
            info,
            targets,
            p,
            r,
            rebase(m.span, base),
            min_len(m.args@.len(), md.argument_types@.len()),
        ),
        None => Seq::empty(),
    }
}

/// The type findings of each method call, in order.
pub open spec fn methods_type_findings(
    key: Seq<char>,
    decl: ProviderDecl,
    ms: Seq<ProviderMethodCall>,
    info: SchemaInfo,
    targets: Seq<ActionRef>,
    p: ScopeConstraint,
    r: ScopeConstraint,
    base: usize,
) -> Seq<(Seq<char>, Span)>
    decreases ms.len(),
{
    if ms.len() == 0 {
        Seq::empty()
    } else {
        methods_type_findings(key, decl, ms.drop_last(), info, targets, p, r, base)
            + method_type_findings(key, decl, ms.last(), info, targets, p, r, base)
    }
}

/// The findings of one declared method's stage: its input type against what
/// the preceding stage produces, then its argument count, or, when the count
/// is right, its directly-typed arguments.
pub open spec fn stage_findings(key: Seq<char>, m: ProviderMethodCall, md: MethodDecl, pipeline: Seq<char>, span: Span) -> Seq<(Seq<char>, Span)> {
    input_findings(key, m.name@, md, pipeline, span) + if md.argument_types@.len() != m.args@.len() {
        seq![
            (method_count_text(key, m.name@, md.argument_types@.len(), m.args@.len()), span),
        ]
    } else {
        literal_findings(
            key,
            Some(m.name@),
            m.args@,
            md.argument_types@,
            span,
            m.args@.len(),
        )
    }
}

/// The finding, if any, for a declared method whose declared input type is
/// not what the preceding stage produces.
pub open spec fn input_findings(key: Seq<char>, name: Seq<char>, md: MethodDecl, pipeline: Seq<char>, span: Span) -> Seq<(Seq<char>, Span)> {
    match md.input_type {
        Some(input) => if input.param_type@ != pipeline {
            seq![(input_text(key, name, input.param_type@, pipeline), span)]
        } else {
            Seq::empty()
        },
        None => Seq::empty(),
    }
}

/// The findings of the method chain `ms`, the preceding stage producing
/// `pipeline`. A method that shadows a Cedar extension method is reported and
/// skipped; an undeclared method is reported and ends the chain; a declared
/// method re-types the pipeline for the next stage.
pub open spec fn chain_findings(
    key: Seq<char>,
    decl: ProviderDecl,
    ms: Seq<ProviderMethodCall>,
    pipeline: Seq<char>,
    base: usize,
) -> Seq<(Seq<char>, Span)>
    decreases ms.len(),
{
    if ms.len() == 0 {
        Seq::empty()
    } else {
        let m = ms[0];
        let span = rebase(m.span, base);
        if cedar_extension_method(m.name@) {
            seq![(collide_text(key, m.name@), span)] + chain_findings(
                key,
                decl,
                ms.drop_first(),
                pipeline,
                base,
            )
        } else {
            match method_lookup(decl.methods@, m.name@) {
                None => seq![
                    (undeclared_text(key, m.name@, available_text(key, keys_of(decl.methods@))), span),
                ],
                Some(md) => stage_findings(key, m, md, pipeline, span) + chain_findings(
                    key,
                    decl,
                    ms.drop_first(),
                    md.output_type.param_type@,
                    base,
                ),
            }
        }
    }
}

/// Check each method call's field-path arguments for existence.
fn check_methods_paths(
    key: &str,
    ms: &Vec<ProviderMethodCall>,
    info: &SchemaInfo,
    target_actions: &[ActionRef],
    principal: &ScopeConstraint,
    resource: &ScopeConstraint,
    base: usize,
    findings: &mut Vec<ProviderFinding>,
)
    requires
        methods_fit(ms@, base),
    ensures
        findings_view(final(findings)@) == findings_view(old(findings)@) + methods_path_findings(
            key@,
            ms@,
            *info,
            target_actions@,
            *principal,
            *resource,
            base,
        ),
{
    let mut i: usize = 0;
    while i < ms.len()
        invariant
            i <= ms@.len(),
            methods_fit(ms@, base),
            findings_view(findings@) == findings_view(old(findings)@) + methods_path_findings(
                key@,
                ms@.take(i as int),
                *info,
                target_actions@,
                *principal,
                *resource,
                base,
            ),
        decreases ms.len() - i,
    {
        assert(ms@.take(i + 1).drop_last() =~= ms@.take(i as int));
        assert(rebase_fits(ms@[i as int].span, base));
        let m_span = ms[i].span.rebased(base);
        assert(m_span == rebase(ms@[i as int].span, base));
        let ghost before = findings_view(findings@);
        check_field_path_args(key, &ms[i].args, info, target_actions, principal, resource, m_span, findings);
        assert(findings_view(old(findings)@) + methods_path_findings(
            key@,
            ms@.take(i as int),
            *info,
            target_actions@,
            *principal,
            *resource,
            base,
        ) + args_path_findings(key@, ms@[i as int].args@, *info, target_actions@, *principal, *resource, m_span)
            =~= findings_view(findings@));
        i = i + 1;
    }
    assert(ms@.take(ms@.len() as int) =~= ms@);
}

/// Type-check each declared method call's arguments against the method's
/// declared argument types.
fn check_methods_types(
    key: &str,
    decl: &ProviderDecl,
    ms: &Vec<ProviderMethodCall>,
    info: &SchemaInfo,
    target_actions: &[ActionRef],
    principal: &ScopeConstraint,
    resource: &ScopeConstraint,
    base: usize,
    findings: &mut Vec<ProviderFinding>,
)
    requires
        methods_fit(ms@, base),
    ensures
        findings_view(final(findings)@) == findings_view(old(findings)@) + methods_type_findings(
            key@,
            *decl,
            ms@,
            *info,
            target_actions@,
            *principal,
            *resource,
            base,
        ),
{
    let mut i: usize = 0;
    while i < ms.len()
        invariant
            i <= ms@.len(),
            methods_fit(ms@, base),
            findings_view(findings@) == findings_view(old(findings)@) + methods_type_findings(
                key@,
                *decl,
                ms@.take(i as int),
                *info,
                target_actions@,
                *principal,
                *resource,
                base,
            ),
        decreases ms.len() - i,
    {
        assert(ms@.take(i + 1).drop_last() =~= ms@.take(i as int));
        assert(rebase_fits(ms@[i as int].span, base));
        let m = &ms[i];
        let ghost before = findings_view(findings@);
        match find_method(&decl.methods, m.name.as_str()) {
            Some(md) => {
                let m_span = m.span.rebased(base);
                assert(m_span == rebase(ms@[i as int].span, base));
                check_zip_types(
                    key,
                    &m.args,
                    &md.argument_types,
                    info,
                    target_actions,
                    principal,
                    resource,
                    m_span,
                    findings,
                );
            },
            None => {
                assert(before + Seq::<(Seq<char>, Span)>::empty() =~= before);
            },
        }
        assert(findings_view(old(findings)@) + methods_type_findings(
            key@,
            *decl,
            ms@.take(i as int),
            *info,
            target_actions@,
            *principal,
            *resource,
            base,
        ) + method_type_findings(key@, *decl, ms@[i as int], *info, target_actions@, *principal, *resource, base)
            =~= findings_view(findings@));
        i = i + 1;
    }
    assert(ms@.take(ms@.len() as int) =~= ms@);
}

/// Check the method chain stage by stage, the pipeline's running type
/// starting at the provider's declared output type.
fn check_method_chain(
    key: &str,
    decl: &ProviderDecl,
    ms: &Vec<ProviderMethodCall>,
    base: usize,
    findings: &mut Vec<ProviderFinding>,
)
    requires
        methods_fit(ms@, base),
    ensures
        findings_view(final(findings)@) == findings_view(old(findings)@) + chain_findings(
            key@,
            *decl,
            ms@,
            decl.output_type.param_type@,
            base,
        ),
{
    let ghost total = findings_view(old(findings)@) + chain_findings(
        key@,
        *decl,
        ms@,
        decl.output_type.param_type@,
        base,
    );
    let mut pipeline: String = decl.output_type.param_type.clone();
    let mut i: usize = 0;
    assert(ms@.skip(0) =~= ms@);
    assert(findings_view(findings@) + chain_findings(key@, *decl, ms@.skip(0), pipeline@, base) == total);
    while i < ms.len()
        invariant
            i <= ms@.len(),
            methods_fit(ms@, base),
            findings_view(findings@) + chain_findings(key@, *decl, ms@.skip(i as int), pipeline@, base)
                == total,
            total == findings_view(old(findings)@) + chain_findings(
                key@,
                *decl,
                ms@,
                decl.output_type.param_type@,
                base,
            ),
        decreases ms.len() - i,
    {
        let m = &ms[i];
        assert(ms@.skip(i as int)[0] == ms@[i as int]);
        assert(ms@.skip(i as int).drop_first() =~= ms@.skip(i + 1));
        assert(rebase_fits(ms@[i as int].span, base));
        let m_span = m.span.rebased(base);
        assert(m_span == rebase(ms@[i as int].span, base));
        let ghost acc = findings_view(findings@);
        let ghost rest = chain_findings(key@, *decl, ms@.skip(i + 1), pipeline@, base);
        if is_cedar_extension_method(m.name.as_str()) {
            let msg = collide_message(key, m.name.as_str());
            let ghost mv = msg@;
            push_finding(findings, msg, m_span);
            assert(acc.push((mv, m_span)) + rest =~= acc + (seq![(mv, m_span)] + rest));
        } else {
            match find_method(&decl.methods, m.name.as_str()) {
                None => {
                    let msg = undeclared_message(key, m.name.as_str(), &decl.methods);
                    let ghost mv = msg@;
                    push_finding(findings, msg, m_span);
                    assert(acc.push((mv, m_span)) =~= acc + seq![(mv, m_span)]);
                    assert(findings_view(findings@) == total);
                    assert(ms@.skip(ms@.len() as int) =~= Seq::<ProviderMethodCall>::empty());
                    return;
                },
                Some(md) => {
                    let ghost stage = stage_findings(key@, ms@[i as int], *md, pipeline@, m_span);
                    let ghost rest2 = chain_findings(
                        key@,
                        *decl,
                        ms@.skip(i + 1),
                        md.output_type.param_type@,
                        base,
                    );
                    let ghost input_part = input_findings(key@, m.name@, *md, pipeline@, m_span);
                    match &md.input_type {
                        Some(input) => {
                            if !str_eq(input.param_type.as_str(), pipeline.as_str()) {
                                let msg = input_message(
                                    key,
                                    m.name.as_str(),
                                    input.param_type.as_str(),
                                    pipeline.as_str(),
                                );
                                push_finding(findings, msg, m_span);
                            }
                        },
                        None => {},
                    }
                    assert(findings_view(findings@) =~= acc + input_part);
                    if md.argument_types.len() != m.args.len() {
                        let msg = method_count_message(
                            key,
                            m.name.as_str(),
                            md.argument_types.len(),
                            m.args.len(),
                        );
                        push_finding(findings, msg, m_span);
                    } else {
                        check_literal_args(
                            key,
                            Some(m.name.as_str()),
                            &m.args,
                            &md.argument_types,
                            m_span,
                            findings,
                        );
                    }
                    assert(findings_view(findings@) =~= acc + stage);
                    pipeline = md.output_type.param_type.clone();
                    assert((acc + stage) + rest2 =~= acc + (stage + rest2));
                },
            }
        }
        i = i + 1;
    }
    assert(ms@.skip(ms@.len() as int) =~= Seq::<ProviderMethodCall>::empty());
    assert(findings_view(findings@) + Seq::<(Seq<char>, Span)>::empty() =~= findings_view(findings@));
}

// ─── the dialect ──────────────────────────────────────────────────────────

/// Every span of the hoisted invocation moves forward by its block-body base
/// within `usize`.
pub open spec fn leaf_fits(field: ProviderField) -> bool {
    rebase_fits(field.invocation.span, field.body_base) && methods_fit(field.methods@, field.body_base)
}

/// The invocation's declaration, if any, declares each method once, in name
/// order.
pub open spec fn leaf_declared_in_order(field: ProviderField) -> bool {
    match field.declaration {
        Some(decl) => decl.methods_in_order(),
        None => true,
    }
}

/// The findings of one hoisted invocation, in the order they are reported:
/// an undeclared provider, or a wrong argument count, alone; otherwise the
/// directly-typed argument checks, the field-path existence checks of the
/// invocation's and then each method's arguments, the field-path type checks
/// of the invocation's and then each declared method's arguments, and last the
/// method chain.
pub open spec fn leaf_findings(field: ProviderField, info: SchemaInfo) -> Seq<(Seq<char>, Span)> {
    let key = field.invocation.key@;
    let span = rebase(field.invocation.span, field.body_base);
    let args = field.invocation.args@;
    let targets = field.target_actions@;
    let p = field.principal;
    let r = field.resource;
    let base = field.body_base;
    match field.declaration {
        None => seq![(not_present_text(key), span)],
        Some(decl) => if decl.argument_types@.len() != args.len() {
            seq![(count_text(key, decl.argument_types@.len(), args.len()), span)]
        } else {
            literal_findings(key, None, args, decl.argument_types@, span, args.len())
                + args_path_findings(key, args, info, targets, p, r, span) + methods_path_findings(
                key,
                field.methods@,
                info,
                targets,
                p,
                r,
                base,
            ) + zip_type_findings(
                key,
                args,
                decl.argument_types@,
                info,
                targets,
                p,
                r,
                span,
                args.len(),
            ) + methods_type_findings(key, decl, field.methods@, info, targets, p, r, base)
                + chain_findings(key, decl, field.methods@, decl.output_type.param_type@, base)
        },
    }
}

/// The findings of every hoisted invocation, leaf by leaf.
pub open spec fn validation_findings(leaves: Seq<ProviderField>, info: SchemaInfo) -> Seq<(Seq<char>, Span)>
    decreases leaves.len(),
{
    if leaves.len() == 0 {
        Seq::empty()
    } else {
        validation_findings(leaves.drop_last(), info) + leaf_findings(leaves.last(), info)
    }
}

/// Validate one hoisted invocation.
fn validate_leaf(field: &ProviderField, info: &SchemaInfo, findings: &mut Vec<ProviderFinding>)
    requires
        leaf_fits(*field),
    ensures
        findings_view(final(findings)@) == findings_view(old(findings)@) + leaf_findings(*field, *info),
{
    let key = field.invocation.key();
    let k = key.as_str();
    let span = field.invocation.span.rebased(field.body_base);
    assert(span == rebase(field.invocation.span, field.body_base));
    let decl = match &field.declaration {
        Some(d) => d,
        None => {
            let msg = not_present_message(k);
            let ghost mv = msg@;
            push_finding(findings, msg, span);
            assert(findings_view(old(findings)@).push((mv, span)) =~= findings_view(old(findings)@)
                + seq![(mv, span)]);
            return;
        },
    };
    let expected = &decl.argument_types;
    let got = &field.invocation.args;
    if expected.len() != got.len() {
        let msg = count_message(k, expected.len(), got.len());
        let ghost mv = msg@;
        push_finding(findings, msg, span);
        assert(findings_view(old(findings)@).push((mv, span)) =~= findings_view(old(findings)@)
            + seq![(mv, span)]);
        return;
    }
    let ghost f0 = findings_view(findings@);
    check_literal_args(k, None, got, expected, span, findings);
    let ghost f1 = findings_view(findings@);
    check_field_path_args(
        k,
        got,
        info,
        &field.target_actions,
        &field.principal,
        &field.resource,
        span,
        findings,
    );
    let ghost f2 = findings_view(findings@);
    check_methods_paths(
        k,
        &field.methods,
        info,
        &field.target_actions,
        &field.principal,
        &field.resource,
        field.body_base,
        findings,
    );
    let ghost f3 = findings_view(findings@);
    check_zip_types(
        k,
        got,
        expected,
        info,
        &field.target_actions,
        &field.principal,
        &field.resource,
        span,
        findings,
    );
    let ghost f4 = findings_view(findings@);
    check_methods_types(
        k,
        decl,
        &field.methods,
        info,
        &field.target_actions,
        &field.principal,
        &field.resource,
        field.body_base,
        findings,
    );
    let ghost f5 = findings_view(findings@);
    check_method_chain(k, decl, &field.methods, field.body_base, findings);
    assert(findings_view(findings@) =~= f0 + leaf_findings(*field, *info));
}

/// What a dialect hands back for a finding.
pub enum Rendered {
    /// The finding is an error.
    Error(ValidationError),
}

/// A validation error raised by a language extension.
pub enum ValidationError {
    /// An error of the extension named by `code`, at `span` of the source
    /// `src`, with optional label and help text.
    Extension {
        code: String,
        message: String,
        span: Span,
        label: Option<String>,
        help: Option<String>,
        src: String,
    },
}

/// The provider dialect: it validates the hoisted `provider { … }`
/// invocations of a rule and renders its findings as errors.
pub struct ProviderDialect;

impl ProviderDialect {
    /// The dialect's marker keyword.
    pub fn marker(&self) -> (r: &'static str)
        ensures
            r@ == "provider"@,
    {
        "provider"
    }

    /// Validate every hoisted invocation against its declaration and the
    /// schema, returning the findings in order.
    pub fn validate(&self, leaves: &[ProviderField], info: &SchemaInfo) -> (r: Vec<ProviderFinding>)
        requires
            forall|i: int| 0 <= i < leaves@.len() ==> leaf_fits(#[trigger] leaves@[i]),
            forall|i: int| 0 <= i < leaves@.len() ==> leaf_declared_in_order(#[trigger] leaves@[i]),
        ensures
            findings_view(r@) == validation_findings(leaves@, *info),
    {
        let mut findings: Vec<ProviderFinding> = Vec::new();
        let mut i: usize = 0;
        assert(findings_view(findings@) =~= Seq::<(Seq<char>, Span)>::empty());
        while i < leaves.len()
            invariant
                i <= leaves@.len(),
                forall|i: int| 0 <= i < leaves@.len() ==> leaf_fits(#[trigger] leaves@[i]),
                findings_view(findings@) == validation_findings(leaves@.take(i as int), *info),
            decreases leaves.len() - i,
        {
            assert(leaves@.take(i + 1).drop_last() =~= leaves@.take(i as int));
            validate_leaf(&leaves[i], info, &mut findings);
            i = i + 1;
        }
        assert(leaves@.take(leaves@.len() as int) =~= leaves@);
        findings
    }

    /// Render a finding as an error of this dialect, with help text derived
    /// from its message.
    pub fn render(&self, finding: ProviderFinding, src: &str) -> (r: Rendered)
        ensures
            match r {
                Rendered::Error(ValidationError::Extension { code, message, span, label, help, src: s }) => {
                    &&& code@ == "provider"@
                    &&& message@ == finding.message@
                    &&& span == finding.span
                    &&& label is None
                    &&& opt_string_view(help) == provider_help_text(finding.message@)
                    &&& s@ == src@
                },
            },
    {
        let help = derive_provider_help(finding.message.as_str());
        Rendered::Error(
            ValidationError::Extension {
                code: string_of(self.marker()),
                message: finding.message,
                span: finding.span,
                label: None,
                help,
                src: string_of(src),
            },
        )
    }
}

// ─── laws ─────────────────────────────────────────────────────────────────

proof fn lemma_contains_within(pre: Seq<char>, lit: Seq<char>, post: Seq<char>, needle: Seq<char>, k: int)
    requires
        0 <= k,
        k + needle.len() <= lit.len(),
        lit.subrange(k, k + needle.len()) =~= needle,
    ensures
        contains_text(pre + lit + post, needle),
{
    let m = pre + lit + post;
    let i = pre.len() + k;
    assert(m.subrange(i, i + needle.len()) =~= needle) by {
        assert forall|j: int| 0 <= j < needle.len() implies m.subrange(i, i + needle.len())[j] == needle[j] by {
            assert(m[i + j] == lit[k + j]);
            assert(lit.subrange(k, k + needle.len())[j] == lit[k + j]);
        }
    }
    assert(occurs_at(m, needle, i));
}

/// Every finding the provider checks report, but the one for a field-path
/// argument whose type differs between the admitted entity types, is
/// recognised by [`derive_provider_help`], so rendering it attaches help.
#[verifier::rlimit(40)]
pub proof fn lemma_findings_carry_help(
    key: Seq<char>,
    name: Seq<char>,
    a: Seq<char>,
    b: Seq<char>,
    c: Seq<char>,
    path: Seq<Seq<char>>,
    method: Option<Seq<char>>,
    e: nat,
    g: nat,
)
    ensures
        provider_help_text(not_present_text(key)) is Some,
        provider_help_text(count_text(key, e, g)) is Some,
        provider_help_text(literal_text(key, method, a, b)) is Some,
        provider_help_text(context_missing_text(key, path, a)) is Some,
        provider_help_text(scope_missing_text(key, path, a, b, c)) is Some,
        provider_help_text(type_mismatch_text(key, path, a, b, c)) is Some,
        provider_help_text(collide_text(key, name)) is Some,
        provider_help_text(undeclared_text(key, name, a)) is Some,
        provider_help_text(input_text(key, name, a, b)) is Some,
        provider_help_text(method_count_text(key, name, e, g)) is Some,
{
    let empty = Seq::<char>::empty();
    let head = "provider `"@ + key;
    // not present
    reveal_strlit("` is not present in the provider declarations");
    reveal_strlit("is not present in the provider declarations");
    lemma_contains_within(
        head,
        "` is not present in the provider declarations"@,
        empty,
        "is not present in the provider declarations"@,
        2,
    );
    assert(head + "` is not present in the provider declarations"@ + empty =~= not_present_text(key));
    // argument counts
    reveal_strlit("` expects ");
    reveal_strlit("expects");
    reveal_strlit(" argument(s) but got ");
    reveal_strlit("argument(s) but got");
    let de = decimal_text(e);
    let dg = decimal_text(g);
    lemma_contains_within(head, "` expects "@, de + " argument(s) but got "@ + dg, "expects"@, 2);
    assert(head + "` expects "@ + (de + " argument(s) but got "@ + dg) =~= count_text(key, e, g));
    lemma_contains_within(head + "` expects "@ + de, " argument(s) but got "@, dg, "argument(s) but got"@, 1);
    assert(head + "` expects "@ + de + " argument(s) but got "@ + dg =~= count_text(key, e, g));
    // literal kinds
    reveal_strlit("` does not match the declared `");
    reveal_strlit("does not match the declared");
    let lit_pre = match method {
        None => head + "`: argument of type `"@ + a,
        Some(m) => head + "`: method `"@ + m + "` argument of type `"@ + a,
    };
    lemma_contains_within(
        lit_pre,
        "` does not match the declared `"@,
        b + "`"@,
        "does not match the declared"@,
        2,
    );
    assert(lit_pre + "` does not match the declared `"@ + (b + "`"@) =~= literal_text(key, method, a, b));
    // missing context field
    reveal_strlit("` is not present in the context of action `");
    reveal_strlit("is not present in the context of action");
    let ctx_pre = head + "`: argument `context."@ + join_text(path, "."@);
    lemma_contains_within(
        ctx_pre,
        "` is not present in the context of action `"@,
        a + "`"@,
        "is not present in the context of action"@,
        2,
    );
    assert(ctx_pre + "` is not present in the context of action `"@ + (a + "`"@) =~= context_missing_text(key, path, a));
    // missing scope attribute
    reveal_strlit("` is not present on the `");
    reveal_strlit("is not present on the");
    let scope_pre = head + "`: argument `"@ + join_text(path, "."@);
    let scope_post = a + "` of action `"@ + b + "` (no attribute `"@ + c + "`)"@;
    lemma_contains_within(scope_pre, "` is not present on the `"@, scope_post, "is not present on the"@, 2);
    assert(scope_pre + "` is not present on the `"@ + scope_post =~= scope_missing_text(key, path, a, b, c));
    // wrong field-path type
    reveal_strlit("` but the provider declares argument type `");
    reveal_strlit("declares argument type");
    let ty_pre = head + "`: argument `"@ + join_text(path, "."@) + "` has type `"@ + a + "` on action `"@ + b;
    lemma_contains_within(
        ty_pre,
        "` but the provider declares argument type `"@,
        c + "`"@,
        "declares argument type"@,
        19,
    );
    assert(ty_pre + "` but the provider declares argument type `"@ + (c + "`"@) =~= type_mismatch_text(key, path, a, b, c));
    // shadowed extension method
    reveal_strlit("` collides with a built-in Cedar extension method; rename the declared method");
    reveal_strlit("collides with a built-in Cedar extension method");
    let m_pre = head + "`: method `"@ + name;
    lemma_contains_within(
        m_pre,
        "` collides with a built-in Cedar extension method; rename the declared method"@,
        empty,
        "collides with a built-in Cedar extension method"@,
        2,
    );
    assert(m_pre + "` collides with a built-in Cedar extension method; rename the declared method"@ + empty
        =~= collide_text(key, name));
    // undeclared method
    reveal_strlit("`: method `");
    reveal_strlit("method");
    reveal_strlit("` is not declared (");
    reveal_strlit("is not declared");
    lemma_contains_within(head, "`: method `"@, name + "` is not declared ("@ + a + ")"@, "method"@, 3);
    assert(head + "`: method `"@ + (name + "` is not declared ("@ + a + ")"@) =~= undeclared_text(key, name, a));
    lemma_contains_within(m_pre, "` is not declared ("@, a + ")"@, "is not declared"@, 2);
    assert(m_pre + "` is not declared ("@ + (a + ")"@) =~= undeclared_text(key, name, a));
    // input type
    reveal_strlit("` expects an input of type `");
    reveal_strlit("expects an input of type");
    let in_post = a + "` but the preceding stage produces `"@ + b + "`"@;
    lemma_contains_within(m_pre, "` expects an input of type `"@, in_post, "expects an input of type"@, 2);
    assert(m_pre + "` expects an input of type `"@ + in_post =~= input_text(key, name, a, b));
    // method argument counts
    lemma_contains_within(m_pre, "` expects "@, de + " argument(s) but got "@ + dg, "expects"@, 2);
    assert(m_pre + "` expects "@ + (de + " argument(s) but got "@ + dg) =~= method_count_text(key, name, e, g));
    lemma_contains_within(m_pre + "` expects "@ + de, " argument(s) but got "@, dg, "argument(s) but got"@, 1);
    assert(m_pre + "` expects "@ + de + " argument(s) but got "@ + dg =~= method_count_text(key, name, e, g));
}

/// `m` is the finding for a field-path argument whose type differs between
/// the admitted entity types.
pub open spec fn is_ambiguous_text(m: Seq<char>) -> bool {
    exists|key: Seq<char>, path: Seq<Seq<char>>, root: Seq<char>, types: Seq<Seq<char>>, declared: Seq<char>|
        m == #[trigger] ambiguous_text(key, path, root, types, declared)
}

/// The finding gets help text, or is the ambiguous-type finding.
pub open spec fn helped(f: (Seq<char>, Span)) -> bool {
    provider_help_text(f.0) is Some || is_ambiguous_text(f.0)
}

/// Every finding of `fs` gets help text or is an ambiguous-type finding.
pub open spec fn all_helped(fs: Seq<(Seq<char>, Span)>) -> bool {
    forall|i: int| 0 <= i < fs.len() ==> helped(#[trigger] fs[i])
}

proof fn lemma_all_helped_concat(a: Seq<(Seq<char>, Span)>, b: Seq<(Seq<char>, Span)>)
    requires
        all_helped(a),
        all_helped(b),
    ensures
        all_helped(a + b),
{
    assert forall|i: int| 0 <= i < (a + b).len() implies helped(#[trigger] (a + b)[i]) by {
        if i < a.len() {
            assert((a + b)[i] == a[i]);
        } else {
            assert((a + b)[i] == b[i - a.len()]);
        }
    }
}

proof fn lemma_first_some_helped(s: Seq<Option<Seq<char>>>)
    requires
        forall|i: int| 0 <= i < s.len() && (#[trigger] s[i]) is Some ==> helped((s[i]->Some_0, Span { start: 0, end: 0 })),
    ensures
        first_some(s) is Some ==> helped((first_some(s)->Some_0, Span { start: 0, end: 0 })),
    decreases s.len(),
{
    if s.len() > 0 && s[0] is None {
        let d = s.drop_first();
        assert forall|i: int| 0 <= i < d.len() && (#[trigger] d[i]) is Some implies helped(
            (d[i]->Some_0, Span { start: 0, end: 0 }),
        ) by {
            assert(d[i] == s[i + 1]);
        }
        lemma_first_some_helped(d);
    }
}

proof fn lemma_path_findings_helped(
    key: Seq<char>,
    path: Seq<String>,
    info: SchemaInfo,
    targets: Seq<ActionRef>,
    p: ScopeConstraint,
    r: ScopeConstraint,
    span: Span,
)
    ensures
        all_helped(path_findings(key, path, info, targets, p, r, span)),
{
    if path.len() >= 2 {
        let s = Seq::new(targets.len(), |i: int| path_missing_on(key, path, info, targets[i], p, r));
        assert forall|i: int| 0 <= i < s.len() && (#[trigger] s[i]) is Some implies helped(
            (s[i]->Some_0, Span { start: 0, end: 0 }),
        ) by {
            let action = targets[i];
            let rest = path.drop_first();
            let disp = action_display_text(action);
            lemma_findings_carry_help(key, Seq::empty(), disp, Seq::empty(), Seq::empty(), views(rest), None, 0, 0);
            match lookup_action(info, opt_string_view(action.namespace), action.id@) {
                Some(decl) => {
                    match scope_outcome(info, decl, path[0]@, rest, p, r) {
                        ScopeVerdict::Missing(seg) => {
                            lemma_findings_carry_help(key, Seq::empty(), path[0]@, disp, seg@, views(path), None, 0, 0);
                        },
                        ScopeVerdict::NonRecord(seg) => {
                            lemma_findings_carry_help(key, Seq::empty(), path[0]@, disp, seg@, views(path), None, 0, 0);
                        },
                        _ => {},
                    }
                },
                None => {},
            }
        }
        lemma_first_some_helped(s);
        match first_some(s) {
            Some(m) => {
                assert(helped((m, span)) == helped((m, Span { start: 0, end: 0 })));
                assert(path_findings(key, path, info, targets, p, r, span)[0] == (m, span));
            },
            None => {},
        }
    }
}

proof fn lemma_arg_path_findings_helped(
    key: Seq<char>,
    arg: Arg,
    info: SchemaInfo,
    targets: Seq<ActionRef>,
    p: ScopeConstraint,
    r: ScopeConstraint,
    span: Span,
)
    ensures
        all_helped(arg_path_findings(key, arg, info, targets, p, r, span)),
    decreases arg,
{
    match arg {
        Arg::SetOf(items) => lemma_args_path_findings_helped(key, items@, info, targets, p, r, span),
        Arg::Field(path) => lemma_path_findings_helped(key, path@, info, targets, p, r, span),
        _ => {},
    }
}

proof fn lemma_args_path_findings_helped(
    key: Seq<char>,
    args: Seq<Arg>,
    info: SchemaInfo,
    targets: Seq<ActionRef>,
    p: ScopeConstraint,
    r: ScopeConstraint,
    span: Span,
)
    ensures
        all_helped(args_path_findings(key, args, info, targets, p, r, span)),
    decreases args,
{
    if args.len() > 0 {
        lemma_args_path_findings_helped(key, args.drop_last(), info, targets, p, r, span);
        lemma_arg_path_findings_helped(key, args.last(), info, targets, p, r, span);
        lemma_all_helped_concat(
            args_path_findings(key, args.drop_last(), info, targets, p, r, span),
            arg_path_findings(key, args.last(), info, targets, p, r, span),
        );
    }
}

proof fn lemma_path_type_findings_helped(
    key: Seq<char>,
    path: Seq<String>,
    declared: ParamType,
    info: SchemaInfo,
    targets: Seq<ActionRef>,
    p: ScopeConstraint,
    r: ScopeConstraint,
    span: Span,
)
    ensures
        all_helped(path_type_findings(key, path, declared, info, targets, p, r, span)),
{
    if path.len() >= 2 {
        let s = Seq::new(targets.len(), |i: int| type_issue_on(key, path, declared, info, targets[i], p, r));
        assert forall|i: int| 0 <= i < s.len() && (#[trigger] s[i]) is Some implies helped(
            (s[i]->Some_0, Span { start: 0, end: 0 }),
        ) by {
            let action = targets[i];
            let rest = path.drop_first();
            let root = path[0]@;
            let disp = action_display_text(action);
            match lookup_action(info, opt_string_view(action.namespace), action.id@) {
                Some(decl) => {
                    match context_path_spec(decl, rest) {
                        PathResolution::Resolved(rich) => {
                            lemma_findings_carry_help(
                                key,
                                Seq::empty(),
                                display_rich_text(rich),
                                disp,
                                declared.param_type@,
                                views(path),
                                None,
                                0,
                                0,
                            );
                        },
                        _ => {},
                    }
                    let rs = scope_resolutions(
                        info,
                        admitted_types(root_types(decl, root), Some(narrowing(root, p, r))),
                        rest,
                    );
                    match scope_verdict(rs, rest[0]) {
                        ScopeVerdict::Resolved(rich) => {
                            lemma_findings_carry_help(
                                key,
                                Seq::empty(),
                                display_rich_text(rich),
                                disp,
                                declared.param_type@,
                                views(path),
                                None,
                                0,
                                0,
                            );
                        },
                        ScopeVerdict::Ambiguous => {
                            let types = sorted_texts(rich_texts(rs));
                            assert(is_ambiguous_text(ambiguous_text(key, views(path), root, types, declared.param_type@)));
                        },
                        _ => {},
                    }
                },
                None => {},
            }
        }
        lemma_first_some_helped(s);
        match first_some(s) {
            Some(m) => {
                assert(helped((m, span)) == helped((m, Span { start: 0, end: 0 })));
                assert(path_type_findings(key, path, declared, info, targets, p, r, span)[0] == (m, span));
            },
            None => {},
        }
    }
}

proof fn lemma_arg_type_findings_helped(
    key: Seq<char>,
    arg: Arg,
    declared: ParamType,
    info: SchemaInfo,
    targets: Seq<ActionRef>,
    p: ScopeConstraint,
    r: ScopeConstraint,
    span: Span,
)
    ensures
        all_helped(arg_type_findings(key, arg, declared, info, targets, p, r, span)),
    decreases arg,
{
    match arg {
        Arg::Field(path) => lemma_path_type_findings_helped(key, path@, declared, info, targets, p, r, span),
        Arg::SetOf(items) => match declared.items {
            Some(item) => lemma_items_type_findings_helped(key, items@, *item, info, targets, p, r, span),
            None => {},
        },
        _ => {},
    }
}

proof fn lemma_items_type_findings_helped(
    key: Seq<char>,
    items: Seq<Arg>,
    declared: ParamType,
    info: SchemaInfo,
    targets: Seq<ActionRef>,
    p: ScopeConstraint,
    r: ScopeConstraint,
    span: Span,
)
    ensures
        all_helped(items_type_findings(key, items, declared, info, targets, p, r, span)),
    decreases items,
{
    if items.len() > 0 {
        lemma_items_type_findings_helped(key, items.drop_last(), declared, info, targets, p, r, span);
        lemma_arg_type_findings_helped(key, items.last(), declared, info, targets, p, r, span);
        lemma_all_helped_concat(
            items_type_findings(key, items.drop_last(), declared, info, targets, p, r, span),
            arg_type_findings(key, items.last(), declared, info, targets, p, r, span),
        );
    }
}

proof fn lemma_zip_type_findings_helped(
    key: Seq<char>,
    args: Seq<Arg>,
    params: Seq<ParamType>,
    info: SchemaInfo,
    targets: Seq<ActionRef>,
    p: ScopeConstraint,
    r: ScopeConstraint,
    span: Span,
    n: nat,
)
    ensures
        all_helped(zip_type_findings(key, args, params, info, targets, p, r, span, n)),
    decreases n,
{
    if n > 0 {
        lemma_zip_type_findings_helped(key, args, params, info, targets, p, r, span, (n - 1) as nat);
        lemma_arg_type_findings_helped(key, args[n - 1], params[n - 1], info, targets, p, r, span);
        lemma_all_helped_concat(
            zip_type_findings(key, args, params, info, targets, p, r, span, (n - 1) as nat),
            arg_type_findings(key, args[n - 1], params[n - 1], info, targets, p, r, span),
        );
    }
}

proof fn lemma_literal_findings_helped(
    key: Seq<char>,
    method: Option<Seq<char>>,
    args: Seq<Arg>,
    params: Seq<ParamType>,
    span: Span,
    n: nat,
)
    ensures
        all_helped(literal_findings(key, method, args, params, span, n)),
    decreases n,
{
    if n > 0 {
        lemma_literal_findings_helped(key, method, args, params, span, (n - 1) as nat);
        let f = literal_finding(key, method, args[n - 1], params[n - 1], span);
        match arg_kind_text(args[n - 1]) {
            Some(actual) => {
                lemma_findings_carry_help(
                    key,
                    Seq::empty(),
                    actual,
                    params[n - 1].param_type@,
                    Seq::empty(),
                    Seq::empty(),
                    method,
                    0,
                    0,
                );
            },
            None => {},
        }
        assert(all_helped(f));
        lemma_all_helped_concat(literal_findings(key, method, args, params, span, (n - 1) as nat), f);
    }
}

proof fn lemma_methods_path_findings_helped(
    key: Seq<char>,
    ms: Seq<ProviderMethodCall>,
    info: SchemaInfo,
    targets: Seq<ActionRef>,
    p: ScopeConstraint,
    r: ScopeConstraint,
    base: usize,
)
    ensures
        all_helped(methods_path_findings(key, ms, info, targets, p, r, base)),
    decreases ms.len(),
{
    if ms.len() > 0 {
        lemma_methods_path_findings_helped(key, ms.drop_last(), info, targets, p, r, base);
        lemma_args_path_findings_helped(key, ms.last().args@, info, targets, p, r, rebase(ms.last().span, base));
        lemma_all_helped_concat(
            methods_path_findings(key, ms.drop_last(), info, targets, p, r, base),
            args_path_findings(key, ms.last().args@, info, targets, p, r, rebase(ms.last().span, base)),
        );
    }
}

proof fn lemma_methods_type_findings_helped(
    key: Seq<char>,
    decl: ProviderDecl,
    ms: Seq<ProviderMethodCall>,
    info: SchemaInfo,
    targets: Seq<ActionRef>,
    p: ScopeConstraint,
    r: ScopeConstraint,
    base: usize,
)
    ensures
        all_helped(methods_type_findings(key, decl, ms, info, targets, p, r, base)),
    decreases ms.len(),
{
    if ms.len() > 0 {
        lemma_methods_type_findings_helped(key, decl, ms.drop_last(), info, targets, p, r, base);
        let m = ms.last();
        match method_lookup(decl.methods@, m.name@) {
            Some(md) => lemma_zip_type_findings_helped(
                key,
                m.args@,
                md.argument_types@,
                info,
                targets,
                p,
                r,
                rebase(m.span, base),
                min_len(m.args@.len(), md.argument_types@.len()),
            ),
            None => {},
        }
        lemma_all_helped_concat(
            methods_type_findings(key, decl, ms.drop_last(), info, targets, p, r, base),
            method_type_findings(key, decl, m, info, targets, p, r, base),
        );
    }
}

proof fn lemma_chain_findings_helped(
    key: Seq<char>,
    decl: ProviderDecl,
    ms: Seq<ProviderMethodCall>,
    pipeline: Seq<char>,
    base: usize,
)
    ensures
        all_helped(chain_findings(key, decl, ms, pipeline, base)),
    decreases ms.len(),
{
    if ms.len() > 0 {
        let m = ms[0];
        let span = rebase(m.span, base);
        let avail = available_text(key, keys_of(decl.methods@));
        lemma_findings_carry_help(key, m.name@, avail, Seq::empty(), Seq::empty(), Seq::empty(), None, 0, 0);
        if cedar_extension_method(m.name@) {
            lemma_chain_findings_helped(key, decl, ms.drop_first(), pipeline, base);
            lemma_all_helped_concat(
                seq![(collide_text(key, m.name@), span)],
                chain_findings(key, decl, ms.drop_first(), pipeline, base),
            );
        } else {
            match method_lookup(decl.methods@, m.name@) {
                None => {},
                Some(md) => {
                    match md.input_type {
                        Some(input) => lemma_findings_carry_help(
                            key,
                            m.name@,
                            input.param_type@,
                            pipeline,
                            Seq::empty(),
                            Seq::empty(),
                            None,
                            md.argument_types@.len(),
                            m.args@.len(),
                        ),
                        None => lemma_findings_carry_help(
                            key,
                            m.name@,
                            Seq::empty(),
                            Seq::empty(),
                            Seq::empty(),
                            Seq::empty(),
                            None,
                            md.argument_types@.len(),
                            m.args@.len(),
                        ),
                    }
                    let inp = input_findings(key, m.name@, md, pipeline, span);
                    assert(all_helped(inp));
                    let cnt = if md.argument_types@.len() != m.args@.len() {
                        seq![
                            (method_count_text(key, m.name@, md.argument_types@.len(), m.args@.len()), span),
                        ]
                    } else {
                        literal_findings(key, Some(m.name@), m.args@, md.argument_types@, span, m.args@.len())
                    };
                    lemma_literal_findings_helped(key, Some(m.name@), m.args@, md.argument_types@, span, m.args@.len());
                    assert(all_helped(cnt));
                    lemma_all_helped_concat(inp, cnt);
                    assert(stage_findings(key, m, md, pipeline, span) == inp + cnt);
                    lemma_chain_findings_helped(key, decl, ms.drop_first(), md.output_type.param_type@, base);
                    lemma_all_helped_concat(
                        stage_findings(key, m, md, pipeline, span),
                        chain_findings(key, decl, ms.drop_first(), md.output_type.param_type@, base),
                    );
                },
            }
        }
    }
}

proof fn lemma_leaf_findings_helped(field: ProviderField, info: SchemaInfo)
    ensures
        all_helped(leaf_findings(field, info)),
{
    let key = field.invocation.key@;
    let span = rebase(field.invocation.span, field.body_base);
    let args = field.invocation.args@;
    let targets = field.target_actions@;
    let p = field.principal;
    let r = field.resource;
    let base = field.body_base;
    match field.declaration {
        None => {
            lemma_findings_carry_help(key, Seq::empty(), Seq::empty(), Seq::empty(), Seq::empty(), Seq::empty(), None, 0, 0);
        },
        Some(decl) => {
            lemma_findings_carry_help(
                key,
                Seq::empty(),
                Seq::empty(),
                Seq::empty(),
                Seq::empty(),
                Seq::empty(),
                None,
                decl.argument_types@.len(),
                args.len(),
            );
            let f1 = literal_findings(key, None, args, decl.argument_types@, span, args.len());
            let f2 = args_path_findings(key, args, info, targets, p, r, span);
            let f3 = methods_path_findings(key, field.methods@, info, targets, p, r, base);
            let f4 = zip_type_findings(key, args, decl.argument_types@, info, targets, p, r, span, args.len());
            let f5 = methods_type_findings(key, decl, field.methods@, info, targets, p, r, base);
            let f6 = chain_findings(key, decl, field.methods@, decl.output_type.param_type@, base);
            lemma_literal_findings_helped(key, None, args, decl.argument_types@, span, args.len());
            lemma_args_path_findings_helped(key, args, info, targets, p, r, span);
            lemma_methods_path_findings_helped(key, field.methods@, info, targets, p, r, base);
            lemma_zip_type_findings_helped(key, args, decl.argument_types@, info, targets, p, r, span, args.len());
            lemma_methods_type_findings_helped(key, decl, field.methods@, info, targets, p, r, base);
            lemma_chain_findings_helped(key, decl, field.methods@, decl.output_type.param_type@, base);
            lemma_all_helped_concat(f1, f2);
            lemma_all_helped_concat(f1 + f2, f3);
            lemma_all_helped_concat(f1 + f2 + f3, f4);
            lemma_all_helped_concat(f1 + f2 + f3 + f4, f5);
            lemma_all_helped_concat(f1 + f2 + f3 + f4 + f5, f6);
        },
    }
}

/// Every finding [`ProviderDialect::validate`] reports gets help text when
/// rendered, but for the finding of a field-path argument whose type differs
/// between the entity types the rule admits.
pub proof fn lemma_validation_findings_carry_help(leaves: Seq<ProviderField>, info: SchemaInfo)
    ensures
        forall|i: int|
            0 <= i < validation_findings(leaves, info).len() ==> {
                let m = (#[trigger] validation_findings(leaves, info)[i]).0;
                provider_help_text(m) is Some || is_ambiguous_text(m)
            },
    decreases leaves.len(),
{
    if leaves.len() > 0 {
        lemma_validation_findings_carry_help(leaves.drop_last(), info);
        lemma_leaf_findings_helped(leaves.last(), info);
        let a = validation_findings(leaves.drop_last(), info);
        assert(all_helped(a));
        lemma_all_helped_concat(a, leaf_findings(leaves.last(), info));
        assert(all_helped(validation_findings(leaves, info)));
    }
}

/// A declared `paramType` the checks do not know accepts every resolved type,
/// rather than risk a false rejection; so does a declared `set` without an
/// element type, for every array.
pub proof fn lemma_unknown_declarations_are_lenient(declared: ParamType, rich: RichType)
    ensures
        !(declared.param_type@ == "string"@ || declared.param_type@ == "integer"@
            || declared.param_type@ == "long"@ || declared.param_type@ == "bool"@
            || declared.param_type@ == "boolean"@ || declared.param_type@ == "decimal"@
            || declared.param_type@ == "set"@ || declared.param_type@ == "record"@) ==> matches_rich(
            declared,
            rich,
        ),
        (declared.param_type@ == "set"@ && declared.items is None && rich is Array) ==> matches_rich(
            declared,
            rich,
        ),
{
    if declared.param_type@ == "set"@ {
        reveal_strlit("set");
        reveal_strlit("string");
        reveal_strlit("integer");
        reveal_strlit("long");
        reveal_strlit("bool");
        reveal_strlit("boolean");
        reveal_strlit("decimal");
        assert("set"@.len() == 3);
        assert("string"@.len() == 6);
        assert("integer"@.len() == 7);
        assert("long"@.len() == 4);
        assert("bool"@[0] != "set"@[0]);
        assert("boolean"@.len() == 7);
        assert("decimal"@.len() == 7);
    }
}

/// The field paths among `arg`, left to right, depth first into sets.
pub open spec fn arg_field_paths(arg: Arg) -> Seq<Seq<String>>
    decreases arg,
{
    match arg {
        Arg::SetOf(items) => field_paths(items@),
        Arg::Field(path) => seq![path@],
        _ => Seq::empty(),
    }
}

/// The field paths among `args`, left to right, depth first into sets.
pub open spec fn field_paths(args: Seq<Arg>) -> Seq<Seq<String>>
    decreases args,
{
    if args.len() == 0 {
        Seq::empty()
    } else {
        field_paths(args.drop_last()) + arg_field_paths(args.last())
    }
}

/// The existence findings of each of `paths` in turn.
pub open spec fn paths_findings(
    key: Seq<char>,
    paths: Seq<Seq<String>>,
    info: SchemaInfo,
    targets: Seq<ActionRef>,
    p: ScopeConstraint,
    r: ScopeConstraint,
    span: Span,
) -> Seq<(Seq<char>, Span)> {
    paths.flat_map(|path: Seq<String>| path_findings(key, path, info, targets, p, r, span))
}

proof fn lemma_flat_map_concat<A, B>(a: Seq<A>, b: Seq<A>, f: spec_fn(A) -> Seq<B>)
    ensures
        (a + b).flat_map(f) == a.flat_map(f) + b.flat_map(f),
{
    assert((a + b).map_values(f) =~= a.map_values(f) + b.map_values(f));
    lemma_flatten_concat(a.map_values(f), b.map_values(f));
}

proof fn lemma_flat_map_single<A, B>(x: A, f: spec_fn(A) -> Seq<B>)
    ensures
        seq![x].flat_map(f) == f(x),
{
    assert(seq![x].map_values(f) =~= seq![f(x)]);
    assert(seq![f(x)].drop_first() =~= Seq::<Seq<B>>::empty());
    assert(seq![f(x)].flatten() =~= f(x) + Seq::<Seq<B>>::empty().flatten());
}

proof fn lemma_flat_map_empty<A, B>(f: spec_fn(A) -> Seq<B>)
    ensures
        Seq::<A>::empty().flat_map(f) == Seq::<B>::empty(),
{
    assert(Seq::<A>::empty().map_values(f) =~= Seq::<Seq<B>>::empty());
}

/// The existence findings of one argument are those of its field paths, left
/// to right and depth first into sets; a literal adds none.
pub proof fn lemma_arg_path_findings_flatten(
    key: Seq<char>,
    arg: Arg,
    info: SchemaInfo,
    targets: Seq<ActionRef>,
    p: ScopeConstraint,
    r: ScopeConstraint,
    span: Span,
)
    ensures
        arg_path_findings(key, arg, info, targets, p, r, span) == paths_findings(
            key,
            arg_field_paths(arg),
            info,
            targets,
            p,
            r,
            span,
        ),
    decreases arg,
{
    let f = |path: Seq<String>| path_findings(key, path, info, targets, p, r, span);
    match arg {
        Arg::SetOf(items) => {
            lemma_args_path_findings_flatten(key, items@, info, targets, p, r, span);
        },
        Arg::Field(path) => {
            lemma_flat_map_single(path@, f);
        },
        _ => {
            lemma_flat_map_empty(f);
        },
    }
}

/// Checking the field paths of an argument list (`check_field_path_args`)
/// appends, for each field path among the arguments taken left to right and
/// depth first into sets, the findings of that one path; a string, integer,
/// decimal or boolean argument adds none.
pub proof fn lemma_args_path_findings_flatten(
    key: Seq<char>,
    args: Seq<Arg>,
    info: SchemaInfo,
    targets: Seq<ActionRef>,
    p: ScopeConstraint,
    r: ScopeConstraint,
    span: Span,
)
    ensures
        args_path_findings(key, args, info, targets, p, r, span) == paths_findings(
            key,
            field_paths(args),
            info,
            targets,
            p,
            r,
            span,
        ),
    decreases args,
{
    let f = |path: Seq<String>| path_findings(key, path, info, targets, p, r, span);
    if args.len() == 0 {
        lemma_flat_map_empty(f);
    } else {
        lemma_args_path_findings_flatten(key, args.drop_last(), info, targets, p, r, span);
        lemma_arg_path_findings_flatten(key, args.last(), info, targets, p, r, span);
        lemma_flat_map_concat(field_paths(args.drop_last()), arg_field_paths(args.last()), f);
    }
}

/// The type findings of a set literal's items against one element type are
/// those of each item in turn.
pub proof fn lemma_items_type_findings_in_order(
    key: Seq<char>,
    items: Seq<Arg>,
    declared: ParamType,
    info: SchemaInfo,
    targets: Seq<ActionRef>,
    p: ScopeConstraint,
    r: ScopeConstraint,
    span: Span,
)
    ensures
        items_type_findings(key, items, declared, info, targets, p, r, span) == items.flat_map(
            |x: Arg| arg_type_findings(key, x, declared, info, targets, p, r, span),
        ),
    decreases items.len(),
{
    let f = |x: Arg| arg_type_findings(key, x, declared, info, targets, p, r, span);
    if items.len() == 0 {
        lemma_flat_map_empty(f);
    } else {
        lemma_items_type_findings_in_order(key, items.drop_last(), declared, info, targets, p, r, span);
        lemma_flat_map_concat(items.drop_last(), seq![items.last()], f);
        lemma_flat_map_single(items.last(), f);
        assert(items.drop_last() + seq![items.last()] =~= items);
    }
}

/// Type-checking one argument (`check_arg_type`): a field path is checked
/// against the declared type; a set literal, when the declared type names an
/// element type, has each of its items checked against it in turn, and
/// otherwise adds nothing; a literal adds nothing.
pub proof fn lemma_arg_type_findings_cases(
    key: Seq<char>,
    arg: Arg,
    declared: ParamType,
    info: SchemaInfo,
    targets: Seq<ActionRef>,
    p: ScopeConstraint,
    r: ScopeConstraint,
    span: Span,
)
    ensures
        arg matches Arg::Field(path) ==> arg_type_findings(key, arg, declared, info, targets, p, r, span)
            == path_type_findings(key, path@, declared, info, targets, p, r, span),
        arg matches Arg::SetOf(items) ==> arg_type_findings(key, arg, declared, info, targets, p, r, span)
            == match declared.items {
            Some(item) => items@.flat_map(
                |x: Arg| arg_type_findings(key, x, *item, info, targets, p, r, span),
            ),
            None => Seq::empty(),
        },
        !(arg is Field || arg is SetOf) ==> arg_type_findings(key, arg, declared, info, targets, p, r, span)
            == Seq::<(Seq<char>, Span)>::empty(),
{
    if let Arg::SetOf(items) = arg {
        if let Some(item) = declared.items {
            lemma_items_type_findings_in_order(key, items@, *item, info, targets, p, r, span);
        }
    }
}

/// `name` is what the renderer writes for the method-form operator `op`.
pub open spec fn method_form_name(op: BinOp, name: Seq<char>) -> bool {
    infix_symbol_text(op) is None && method_name_text(op) == name
}

/// `name` is what the renderer writes for the zero-argument method `op`.
pub open spec fn zero_arg_name(op: UnOp, name: Seq<char>) -> bool {
    is_zero_arg_method(op) && zero_arg_method_text(op) == name
}

/// The names a provider method may not shadow are exactly the Cedar method
/// names the renderer emits: those of the one-argument method-form operators
/// and of the zero-argument extension methods.
pub proof fn lemma_extension_methods_are_rendered_methods(name: Seq<char>)
    ensures
        cedar_extension_method(name) <==> (exists|op: BinOp| #[trigger] method_form_name(op, name))
            || (exists|op: UnOp| #[trigger] zero_arg_name(op, name)),
{
    if name == "contains"@ {
        assert(method_form_name(BinOp::Contains, name));
    }
    if name == "containsAll"@ {
        assert(method_form_name(BinOp::ContainsAll, name));
    }
    if name == "containsAny"@ {
        assert(method_form_name(BinOp::ContainsAny, name));
    }
    if name == "getTag"@ {
        assert(method_form_name(BinOp::GetTag, name));
    }
    if name == "hasTag"@ {
        assert(method_form_name(BinOp::HasTag, name));
    }
    if name == "isInRange"@ {
        assert(method_form_name(BinOp::IsInRange, name));
    }
    if name == "offset"@ {
        assert(method_form_name(BinOp::Offset, name));
    }
    if name == "durationSince"@ {
        assert(method_form_name(BinOp::DurationSince, name));
    }
    if name == "lessThan"@ {
        assert(method_form_name(BinOp::DecimalLessThan, name));
    }
    if name == "lessThanOrEqual"@ {
        assert(method_form_name(BinOp::DecimalLessEq, name));
    }
    if name == "greaterThan"@ {
        assert(method_form_name(BinOp::DecimalGreater, name));
    }
    if name == "greaterThanOrEqual"@ {
        assert(method_form_name(BinOp::DecimalGreaterEq, name));
    }
    if name == "isEmpty"@ {
        assert(zero_arg_name(UnOp::IsEmpty, name));
    }
    if name == "isIpv4"@ {
        assert(zero_arg_name(UnOp::IsIpv4, name));
    }
    if name == "isIpv6"@ {
        assert(zero_arg_name(UnOp::IsIpv6, name));
    }
    if name == "isLoopback"@ {
        assert(zero_arg_name(UnOp::IsLoopback, name));
    }
    if name == "isMulticast"@ {
        assert(zero_arg_name(UnOp::IsMulticast, name));
    }
    if name == "toDate"@ {
        assert(zero_arg_name(UnOp::ToDate, name));
    }
    if name == "toTime"@ {
        assert(zero_arg_name(UnOp::ToTime, name));
    }
    if name == "toMilliseconds"@ {
        assert(zero_arg_name(UnOp::ToMilliseconds, name));
    }
    if name == "toSeconds"@ {
        assert(zero_arg_name(UnOp::ToSeconds, name));
    }
    if name == "toMinutes"@ {
        assert(zero_arg_name(UnOp::ToMinutes, name));
    }
    if name == "toHours"@ {
        assert(zero_arg_name(UnOp::ToHours, name));
    }
    if name == "toDays"@ {
        assert(zero_arg_name(UnOp::ToDays, name));
    }
    if exists|op: BinOp| #[trigger] method_form_name(op, name) {
        let op = choose|op: BinOp| #[trigger] method_form_name(op, name);
        assert(cedar_extension_method(name)) by {
            match op {
                BinOp::Contains => {},
                BinOp::ContainsAll => {},
                BinOp::ContainsAny => {},
                BinOp::GetTag => {},
                BinOp::HasTag => {},
                BinOp::IsInRange => {},
                BinOp::Offset => {},
                BinOp::DurationSince => {},
                BinOp::DecimalLessThan => {},
                BinOp::DecimalLessEq => {},
                BinOp::DecimalGreater => {},
                BinOp::DecimalGreaterEq => {},
                _ => {},
            }
        }
    }
    if exists|op: UnOp| #[trigger] zero_arg_name(op, name) {
        let op = choose|op: UnOp| #[trigger] zero_arg_name(op, name);
        assert(cedar_extension_method(name)) by {
            match op {
                UnOp::IsEmpty => {},
                UnOp::IsIpv4 => {},
                UnOp::IsIpv6 => {},
                UnOp::IsLoopback => {},
                UnOp::IsMulticast => {},
                UnOp::ToDate => {},
                UnOp::ToTime => {},
                UnOp::ToMilliseconds => {},
                UnOp::ToSeconds => {},
                UnOp::ToMinutes => {},
                UnOp::ToHours => {},
                UnOp::ToDays => {},
                _ => {},
            }
        }
    }
}

/// `p` is one of the `paramType` tokens the checks know.
pub open spec fn known_param_type(p: Seq<char>) -> bool {
    ||| p == "string"@
    ||| p == "integer"@
    ||| p == "long"@
    ||| p == "bool"@
    ||| p == "boolean"@
    ||| p == "decimal"@
    ||| p == "set"@
    ||| p == "record"@
}

/// `k` is the kind of a directly-typed argument.
pub open spec fn literal_kind(k: Seq<char>) -> bool {
    ||| k == "string"@
    ||| k == "integer"@
    ||| k == "decimal"@
    ||| k == "bool"@
    ||| k == "set"@
}

/// The resolved type a literal of kind `k` has: a string, a `Long`, a
/// decimal, a boolean, or a set of unknown element type.
pub open spec fn literal_rich(k: Seq<char>) -> RichType {
    if k == "string"@ {
        RichType::String
    } else if k == "integer"@ {
        RichType::Long
    } else if k == "decimal"@ {
        RichType::Decimal
    } else if k == "bool"@ {
        RichType::Bool
    } else {
        RichType::Array(ArrayElem::Unknown)
    }
}

/// The category of a resolved type: which kind of value it is, whatever its
/// element or entity type.
pub open spec fn rich_category(r: RichType) -> nat {
    match r {
        RichType::Long => 0,
        RichType::String => 1,
        RichType::Bool => 2,
        RichType::Decimal => 3,
        RichType::Timepoint => 4,
        RichType::Record => 5,
        RichType::Array(_) => 6,
        RichType::Entity(_) => 7,
        RichType::Never => 8,
    }
}

proof fn lemma_tokens_distinct()
    ensures
        "string"@ != "integer"@,
        "string"@ != "long"@,
        "string"@ != "bool"@,
        "string"@ != "boolean"@,
        "string"@ != "decimal"@,
        "string"@ != "set"@,
        "string"@ != "record"@,
        "integer"@ != "long"@,
        "integer"@ != "bool"@,
        "integer"@ != "boolean"@,
        "integer"@ != "decimal"@,
        "integer"@ != "set"@,
        "integer"@ != "record"@,
        "long"@ != "bool"@,
        "long"@ != "boolean"@,
        "long"@ != "decimal"@,
        "long"@ != "set"@,
        "long"@ != "record"@,
        "bool"@ != "boolean"@,
        "bool"@ != "decimal"@,
        "bool"@ != "set"@,
        "bool"@ != "record"@,
        "boolean"@ != "decimal"@,
        "boolean"@ != "set"@,
        "boolean"@ != "record"@,
        "decimal"@ != "set"@,
        "decimal"@ != "record"@,
        "set"@ != "record"@,
{
    reveal_strlit("string");
    reveal_strlit("integer");
    reveal_strlit("long");
    reveal_strlit("bool");
    reveal_strlit("boolean");
    reveal_strlit("decimal");
    reveal_strlit("set");
    reveal_strlit("record");
    assert("string"@[0] == 's' && "string"@.len() == 6);
    assert("integer"@[0] == 'i' && "integer"@.len() == 7);
    assert("long"@[0] == 'l' && "long"@.len() == 4);
    assert("bool"@[0] == 'b' && "bool"@.len() == 4);
    assert("boolean"@[0] == 'b' && "boolean"@.len() == 7);
    assert("decimal"@[0] == 'd' && "decimal"@.len() == 7);
    assert("set"@[0] == 's' && "set"@.len() == 3);
    assert("record"@[0] == 'r' && "record"@.len() == 6);
}

/// A declared `paramType` accepts at most one kind of literal argument: a
/// literal of one kind never satisfies a parameter declared for another.
pub proof fn lemma_accepts_one_literal_kind(declared: Seq<char>, a: Seq<char>, b: Seq<char>)
    ensures
        accepts(declared, a) && accepts(declared, b) ==> a == b,
{
    lemma_tokens_distinct();
}

/// The literal-kind check agrees with the schema type check: a known
/// declared `paramType` accepts a literal of kind `k` exactly when it matches
/// the resolved type such a literal has.
pub proof fn lemma_accepts_is_matching_literal_type(declared: ParamType, k: Seq<char>)
    requires
        known_param_type(declared.param_type@),
        literal_kind(k),
    ensures
        accepts(declared.param_type@, k) <==> matches_rich(declared, literal_rich(k)),
{
    lemma_tokens_distinct();
}

/// A known declared `paramType` matches resolved types of a single category:
/// a scalar its own scalar, `set` only arrays, `record` only records (never
/// an entity).
pub proof fn lemma_declared_type_matches_one_category(declared: ParamType, a: RichType, b: RichType)
    requires
        known_param_type(declared.param_type@),
    ensures
        matches_rich(declared, a) && matches_rich(declared, b) ==> rich_category(a) == rich_category(b),
        declared.param_type@ == "record"@ ==> (matches_rich(declared, a) <==> a is Record),
{
    lemma_tokens_distinct();
}

/// Two resolved types are the same exactly when they are displayed the same:
/// in particular two entity types are the same only if they name the same
/// entity type.
pub proof fn lemma_rich_equiv_is_same_display(a: RichType, b: RichType)
    ensures
        rich_equiv(a, b) <==> display_rich_text(a) == display_rich_text(b),
    decreases a,
{
    reveal_strlit("Long");
    reveal_strlit("String");
    reveal_strlit("Bool");
    reveal_strlit("decimal");
    reveal_strlit("timepoint");
    reveal_strlit("record");
    reveal_strlit("Set");
    reveal_strlit("Set<?>");
    reveal_strlit("Set<");
    reveal_strlit(">");
    reveal_strlit("entity:");
    reveal_strlit("entity");
    reveal_strlit("never");
    let da = display_rich_text(a);
    let db = display_rich_text(b);
    lemma_display_nonempty_start(a);
    lemma_display_nonempty_start(b);
    match (a, b) {
        (RichType::Array(ArrayElem::Of(x)), RichType::Array(ArrayElem::Of(y))) => {
            lemma_rich_equiv_is_same_display(*x, *y);
            let dx = display_rich_text(*x);
            let dy = display_rich_text(*y);
            if da == db {
                assert(da.len() == dx.len() + 5 && db.len() == dy.len() + 5);
                assert(dx =~= da.subrange(4, da.len() - 1));
                assert(dy =~= db.subrange(4, db.len() - 1));
            }
        },
        (RichType::Array(ArrayElem::Of(x)), RichType::Array(ArrayElem::Mixed)) => {
            if da == db {
                assert(da[4] == display_rich_text(*x)[0]);
                assert(db[4] == '?');
            }
        },
        (RichType::Array(ArrayElem::Mixed), RichType::Array(ArrayElem::Of(y))) => {
            if da == db {
                assert(db[4] == display_rich_text(*y)[0]);
                assert(da[4] == '?');
            }
        },
        (RichType::Entity(Some(x)), RichType::Entity(Some(y))) => {
            if da == db {
                assert(x@ =~= da.subrange(7, da.len() as int));
                assert(y@ =~= db.subrange(7, db.len() as int));
            }
        },
        _ => {
            if da == db {
                assert(da.len() == db.len());
                assert(da[0] == db[0]);
                assert(da[1] == db[1]);
                assert(da.len() > 3 ==> da[3] == db[3]);
                assert(da.len() > 6 ==> da[6] == db[6]);
            }
        },
    }
}

proof fn lemma_display_nonempty_start(r: RichType)
    ensures
        display_rich_text(r).len() >= 3,
        display_rich_text(r)[0] != '?',
        display_rich_text(r)[0] == 'L' || display_rich_text(r)[0] == 'S' || display_rich_text(r)[0] == 'B'
            || display_rich_text(r)[0] == 'd' || display_rich_text(r)[0] == 't' || display_rich_text(r)[0]
            == 'r' || display_rich_text(r)[0] == 'e' || display_rich_text(r)[0] == 'n',
{
    reveal_strlit("Long");
    reveal_strlit("String");
    reveal_strlit("Bool");
    reveal_strlit("decimal");
    reveal_strlit("timepoint");
    reveal_strlit("record");
    reveal_strlit("Set");
    reveal_strlit("Set<?>");
    reveal_strlit("Set<");
    reveal_strlit(">");
    reveal_strlit("entity:");
    reveal_strlit("entity");
    reveal_strlit("never");
}

/// After a declared method, the rest of the chain is checked against that
/// method's declared output type, whether or not it declares an input type:
/// so the type the chain starts from only matters to the first declared
/// method's own findings.
pub proof fn lemma_declared_method_retypes_pipeline(
    key: Seq<char>,
    decl: ProviderDecl,
    ms: Seq<ProviderMethodCall>,
    p1: Seq<char>,
    p2: Seq<char>,
    base: usize,
)
    requires
        ms.len() > 0,
        !cedar_extension_method(ms[0].name@),
        method_lookup(decl.methods@, ms[0].name@) is Some,
    ensures
        ({
            let md = method_lookup(decl.methods@, ms[0].name@)->0;
            let span = rebase(ms[0].span, base);
            &&& chain_findings(key, decl, ms, p1, base) == stage_findings(key, ms[0], md, p1, span)
                + chain_findings(key, decl, ms.drop_first(), md.output_type.param_type@, base)
            &&& chain_findings(key, decl, ms, p1, base).skip(stage_findings(key, ms[0], md, p1, span).len() as int)
                == chain_findings(key, decl, ms, p2, base).skip(
                stage_findings(key, ms[0], md, p2, span).len() as int,
            )
        }),
{
    let md = method_lookup(decl.methods@, ms[0].name@)->0;
    let span = rebase(ms[0].span, base);
    let rest = chain_findings(key, decl, ms.drop_first(), md.output_type.param_type@, base);
    assert((stage_findings(key, ms[0], md, p1, span) + rest).skip(
        stage_findings(key, ms[0], md, p1, span).len() as int,
    ) =~= rest);
    assert((stage_findings(key, ms[0], md, p2, span) + rest).skip(
        stage_findings(key, ms[0], md, p2, span).len() as int,
    ) =~= rest);
}

/// A declared `set` matches an array by its element type: an array of
/// unknown elements always, an array of one element type when that type
/// matches the declared element type (or none is declared), an array of
/// mixed element types only when no element type is declared; nothing that
/// is not an array.
pub proof fn lemma_declared_set_matches_by_element(declared: ParamType, rich: RichType)
    requires
        declared.param_type@ == "set"@,
    ensures
        matches_rich(declared, rich) ==> rich is Array,
        rich == RichType::Array(ArrayElem::Unknown) ==> matches_rich(declared, rich),
        rich matches RichType::Array(ArrayElem::Of(elem)) ==> (matches_rich(declared, rich) <==> match declared.items {
            Some(item) => matches_rich(*item, *elem),
            None => true,
        }),
        rich == RichType::Array(ArrayElem::Mixed) ==> (matches_rich(declared, rich) <==> declared.items is None),
{
    lemma_tokens_distinct();
}

/// A declared method reports an input mismatch exactly when it declares an
/// input type other than the type the preceding stage produces.
pub proof fn lemma_input_finding_iff_mismatch(
    key: Seq<char>,
    name: Seq<char>,
    md: MethodDecl,
    pipeline: Seq<char>,
    span: Span,
)
    ensures
        input_findings(key, name, md, pipeline, span).len() == 0 <==> match md.input_type {
            Some(input) => input.param_type@ == pipeline,
            None => true,
        },
        input_findings(key, name, md, pipeline, span).len() <= 1,
{
}

/// A method that shadows a Cedar extension method is reported and skipped:
/// the rest of the chain is checked against the same pipeline type. A method
/// the provider does not declare is reported and ends the chain: nothing
/// after it is checked.
pub proof fn lemma_chain_skips_collisions_and_stops_at_undeclared(
    key: Seq<char>,
    decl: ProviderDecl,
    ms: Seq<ProviderMethodCall>,
    pipeline: Seq<char>,
    base: usize,
)
    requires
        ms.len() > 0,
    ensures
        cedar_extension_method(ms[0].name@) ==> chain_findings(key, decl, ms, pipeline, base) == seq![
            (collide_text(key, ms[0].name@), rebase(ms[0].span, base)),
        ] + chain_findings(key, decl, ms.drop_first(), pipeline, base),
        !cedar_extension_method(ms[0].name@) && method_lookup(decl.methods@, ms[0].name@) is None
            ==> chain_findings(key, decl, ms, pipeline, base).len() == 1,
{
}

} // verus!
