//! The provider dialect's checks, message by message.

use dogwood_language::api::{
    ActionRef, Arg, EntityTypeName, MethodDecl, ParamType, ProviderDecl, ProviderField,
    ProviderInvocation, ProviderMethodCall, ScopeConstraint, Span,
};
use dogwood_language::provider::{
    action_display, arg_kind, derive_provider_help, display_rich, is_cedar_extension_method,
    param_matches_rich, param_type_accepts, ProviderDialect, ProviderFinding, Rendered,
    ValidationError,
};
use dogwood_language::schema_info::{
    ActionDecl, ArrayElem, Attribute, CedarType, EntityTypeDecl, EntityTypeKind, RichType,
    SchemaInfo,
};

fn name(ns: &str, base: &str) -> EntityTypeName {
    EntityTypeName { namespace: vec![ns.to_string()], basename: base.to_string() }
}

fn attr(n: &str, ty: CedarType) -> Attribute {
    Attribute { name: n.to_string(), ty, required: true }
}

fn param(t: &str) -> ParamType {
    ParamType { param_type: t.to_string(), items: None }
}

fn s(x: &str) -> String {
    x.to_string()
}

/// `App::Action::"Read"` (principal `User` or `Bot`, context `{ input: { x:
/// Long } }`) and `App::Action::"Write"` (principal `User`, context `{ input:
/// { y: String } }`); `User` has `level: Long`, `Bot` has `level: String`.
fn schema() -> SchemaInfo {
    SchemaInfo {
        actions: vec![
            ActionDecl {
                uid_type: s("App::Action"),
                id: s("Read"),
                context: CedarType::Record(vec![attr(
                    "input",
                    CedarType::Record(vec![attr("x", CedarType::Long)]),
                )]),
                principals: vec![name("App", "Bot"), name("App", "User")],
                resources: vec![name("App", "Doc")],
            },
            ActionDecl {
                uid_type: s("App::Action"),
                id: s("Write"),
                context: CedarType::Record(vec![attr(
                    "input",
                    CedarType::Record(vec![attr("y", CedarType::String)]),
                )]),
                principals: vec![name("App", "User")],
                resources: vec![name("App", "Doc")],
            },
        ],
        entity_types: vec![
            EntityTypeDecl {
                name: name("App", "Bot"),
                kind: EntityTypeKind::Standard(vec![attr("level", CedarType::String)]),
            },
            EntityTypeDecl { name: name("App", "Doc"), kind: EntityTypeKind::Standard(vec![]) },
            EntityTypeDecl {
                name: name("App", "User"),
                kind: EntityTypeKind::Standard(vec![attr("level", CedarType::Long)]),
            },
        ],
    }
}

fn field_arg(path: &[&str]) -> Arg {
    Arg::Field(path.iter().map(|x| x.to_string()).collect())
}

fn read() -> ActionRef {
    ActionRef { namespace: Some(s("App")), id: s("Read") }
}

fn write() -> ActionRef {
    ActionRef { namespace: Some(s("App")), id: s("Write") }
}

fn leaf(key: &str, args: Vec<Arg>, decl: Option<ProviderDecl>) -> ProviderField {
    ProviderField {
        invocation: ProviderInvocation { key: s(key), span: Span { start: 2, end: 9 }, args },
        methods: vec![],
        declaration: decl,
        body_base: 40,
        target_actions: vec![read()],
        principal: ScopeConstraint::Any,
        resource: ScopeConstraint::Any,
    }
}

fn one_arg(t: ParamType) -> ProviderDecl {
    ProviderDecl { argument_types: vec![t], output_type: param("long"), methods: vec![] }
}

fn messages(findings: &[ProviderFinding]) -> Vec<String> {
    findings.iter().map(|f| f.message.clone()).collect()
}

fn run(l: ProviderField) -> Vec<String> {
    messages(&ProviderDialect.validate(&[l], &schema()))
}

#[test]
fn an_undeclared_provider_is_reported_alone() {
    let findings = ProviderDialect.validate(&[leaf("Ns::Missing", vec![field_arg(&["context", "nope", "z"])], None)], &schema());
    assert_eq!(messages(&findings), vec![s("provider `Ns::Missing` is not present in the provider declarations")]);
    assert_eq!((findings[0].span.start, findings[0].span.end), (42, 49));
}

#[test]
fn a_wrong_argument_count_is_reported_alone() {
    let got = run(leaf("Ns::F", vec![Arg::Integer(1), Arg::Integer(2)], Some(one_arg(param("long")))));
    assert_eq!(got, vec![s("provider `Ns::F` expects 1 argument(s) but got 2")]);
}

#[test]
fn a_literal_of_the_wrong_kind_is_reported() {
    let got = run(leaf("Ns::F", vec![Arg::String(s("x"))], Some(one_arg(param("long")))));
    assert_eq!(got, vec![s("provider `Ns::F`: argument of type `string` does not match the declared `long`")]);
    assert!(run(leaf("Ns::F", vec![Arg::Integer(3)], Some(one_arg(param("long"))))).is_empty());
    assert!(run(leaf("Ns::F", vec![Arg::Bool(true)], Some(one_arg(param("boolean"))))).is_empty());
}

#[test]
fn a_missing_context_field_is_reported_on_the_first_action() {
    let mut l = leaf("Ns::F", vec![field_arg(&["context", "input", "y"])], Some(one_arg(param("string"))));
    l.target_actions = vec![write(), read()];
    assert_eq!(
        run(l),
        vec![s("provider `Ns::F`: argument `context.input.y` is not present in the context of action `App::Action::\"Read\"`")]
    );
}

#[test]
fn a_missing_field_inside_a_set_argument_is_reported() {
    let set = Arg::SetOf(vec![Arg::Integer(1), field_arg(&["context", "input", "nope"])]);
    let decl = one_arg(ParamType { param_type: s("set"), items: Some(Box::new(param("long"))) });
    let got = run(leaf("Ns::F", vec![set], Some(decl)));
    assert_eq!(
        got,
        vec![s("provider `Ns::F`: argument `context.input.nope` is not present in the context of action `App::Action::\"Read\"`")]
    );
}

#[test]
fn an_attribute_missing_on_an_admitted_principal_type_is_reported() {
    let decl = one_arg(param("long"));
    let mut l = leaf("Ns::F", vec![field_arg(&["principal", "rank"])], Some(decl));
    l.principal = ScopeConstraint::Is(name("App", "User"));
    assert_eq!(
        run(l),
        vec![s("provider `Ns::F`: argument `principal.rank` is not present on the `principal` of action `App::Action::\"Read\"` (no attribute `rank`)")]
    );
}

#[test]
fn an_attribute_typed_differently_per_admitted_type_is_a_type_finding() {
    let l = leaf("Ns::F", vec![field_arg(&["principal", "level"])], Some(one_arg(param("long"))));
    assert_eq!(
        run(l),
        vec![s("provider `Ns::F`: argument `principal.level` has a different type on each `principal` type the rule admits (`int`, `string`), so it cannot match the declared argument type `long`")]
    );
    let mut narrowed = leaf("Ns::F", vec![field_arg(&["principal", "level"])], Some(one_arg(param("long"))));
    narrowed.principal = ScopeConstraint::Is(name("App", "User"));
    assert!(run(narrowed).is_empty(), "narrowed to User, `level` is a Long");
}

#[test]
fn an_infeasible_action_is_not_checked() {
    let mut l = leaf("Ns::F", vec![field_arg(&["context", "input", "x"])], Some(one_arg(param("long"))));
    l.target_actions = vec![write(), read()];
    l.principal = ScopeConstraint::Is(name("App", "Bot"));
    assert!(run(l).is_empty(), "Write admits no Bot principal, so its context is not consulted");
}

#[test]
fn the_method_chain_is_checked_stage_by_stage() {
    let methods = vec![
        (s("scale"), MethodDecl {
            argument_types: vec![param("long")],
            input_type: Some(param("long")),
            output_type: param("string"),
        }),
        (s("upper"), MethodDecl {
            argument_types: vec![],
            input_type: Some(param("long")),
            output_type: param("string"),
        }),
    ];
    let decl = ProviderDecl { argument_types: vec![param("long")], output_type: param("long"), methods };
    let mut l = leaf("Ns::F", vec![Arg::Integer(1)], Some(decl));
    let call = |n: &str, args: Vec<Arg>| ProviderMethodCall { name: s(n), span: Span { start: 20, end: 25 }, args };
    l.methods = vec![
        call("contains", vec![]),
        call("scale", vec![Arg::String(s("x"))]),
        call("upper", vec![Arg::Integer(1)]),
        call("nope", vec![]),
        call("scale", vec![]),
    ];
    let findings = ProviderDialect.validate(&[l], &schema());
    assert_eq!(
        messages(&findings),
        vec![
            s("provider `Ns::F`: method `contains` collides with a built-in Cedar extension method; rename the declared method"),
            s("provider `Ns::F`: method `scale` argument of type `string` does not match the declared `long`"),
            s("provider `Ns::F`: method `upper` expects an input of type `long` but the preceding stage produces `string`"),
            s("provider `Ns::F`: method `upper` expects 0 argument(s) but got 1"),
            s("provider `Ns::F`: method `nope` is not declared (declared methods on `Ns::F` are: scale, upper)"),
        ]
    );
    assert!(findings.iter().all(|f| (f.span.start, f.span.end) == (60, 65)));
}

#[test]
fn a_provider_without_methods_says_so() {
    let mut l = leaf("Ns::F", vec![Arg::Integer(1)], Some(one_arg(param("long"))));
    l.methods = vec![ProviderMethodCall { name: s("m"), span: Span { start: 0, end: 1 }, args: vec![] }];
    assert_eq!(
        run(l),
        vec![s("provider `Ns::F`: method `m` is not declared (provider `Ns::F` declares no methods)")]
    );
}

#[test]
fn findings_come_leaf_by_leaf() {
    let a = leaf("A::A", vec![], None);
    let b = leaf("B::B", vec![], Some(one_arg(param("long"))));
    let got = messages(&ProviderDialect.validate(&[a, b], &schema()));
    assert_eq!(
        got,
        vec![
            s("provider `A::A` is not present in the provider declarations"),
            s("provider `B::B` expects 1 argument(s) but got 0"),
        ]
    );
}

#[test]
fn render_attaches_code_and_help() {
    let finding = ProviderFinding {
        message: s("provider `X` is not present in the provider declarations"),
        span: Span { start: 3, end: 4 },
    };
    let Rendered::Error(ValidationError::Extension { code, message, span, label, help, src }) =
        ProviderDialect.render(finding, "source text");
    assert_eq!(code, "provider");
    assert_eq!(message, "provider `X` is not present in the provider declarations");
    assert_eq!((span.start, span.end), (3, 4));
    assert!(label.is_none());
    assert_eq!(help.as_deref(), Some("check the `availableProviders` in your provider declarations JSON"));
    assert_eq!(src, "source text");
    assert_eq!(ProviderDialect.marker(), "provider");
}

#[test]
fn help_follows_the_first_matching_phrase() {
    assert_eq!(
        derive_provider_help("p expects 2 argument(s) but got 1").as_deref(),
        Some("check the `argumentTypes` array in the provider declaration")
    );
    assert_eq!(
        derive_provider_help("method `m` is not declared").as_deref(),
        Some("check the `availableMethods` in the provider declaration")
    );
    assert!(derive_provider_help("p: method `m` expects an input of type `x`").unwrap().starts_with("each method's `inputType`"));
    assert!(derive_provider_help("is not present in the context of action").unwrap().starts_with("a provider's context field-path argument must be declared"));
    assert!(derive_provider_help("is not present on the `principal`").unwrap().starts_with("a provider's principal/resource"));
    assert!(derive_provider_help("but the provider declares argument type `x`").unwrap().contains("Long on one, String on another"));
    assert!(derive_provider_help("collides with a built-in Cedar extension method").unwrap().starts_with("Cedar extension methods"));
    assert!(derive_provider_help("does not match the declared").unwrap().starts_with("provider arguments are typed"));
    assert_eq!(derive_provider_help("nothing to say"), None);
}

#[test]
fn argument_kinds_and_synonyms() {
    assert_eq!(arg_kind(&Arg::Decimal(s("1.5"))), Some("decimal"));
    assert_eq!(arg_kind(&Arg::SetOf(vec![])), Some("set"));
    assert_eq!(arg_kind(&field_arg(&["context", "x"])), None);
    assert!(param_type_accepts("long", "integer"));
    assert!(param_type_accepts("boolean", "bool"));
    assert!(!param_type_accepts("string", "integer"));
    assert!(!param_type_accepts("set", "record"));
    assert!(is_cedar_extension_method("toDays"));
    assert!(is_cedar_extension_method("lessThanOrEqual"));
    assert!(!is_cedar_extension_method("score"));
}

#[test]
fn rich_types_match_by_category_and_element() {
    let set_of_long = ParamType { param_type: s("set"), items: Some(Box::new(param("long"))) };
    let arr = |e: ArrayElem| RichType::Array(e);
    assert!(param_matches_rich(&set_of_long, &arr(ArrayElem::Of(Box::new(RichType::Long)))));
    assert!(!param_matches_rich(&set_of_long, &arr(ArrayElem::Of(Box::new(RichType::String)))));
    assert!(param_matches_rich(&set_of_long, &arr(ArrayElem::Unknown)));
    assert!(!param_matches_rich(&set_of_long, &arr(ArrayElem::Mixed)));
    assert!(param_matches_rich(&param("set"), &arr(ArrayElem::Mixed)));
    assert!(param_matches_rich(&param("record"), &RichType::Record));
    assert!(param_matches_rich(&param("whatever"), &RichType::Never));
    assert!(!param_matches_rich(&param("integer"), &RichType::Decimal));
}

#[test]
fn rich_types_display_in_cedar_form() {
    assert_eq!(display_rich(&RichType::Array(ArrayElem::Of(Box::new(RichType::String)))), "Set<String>");
    assert_eq!(display_rich(&RichType::Array(ArrayElem::Mixed)), "Set<?>");
    assert_eq!(display_rich(&RichType::Entity(Some(s("User")))), "entity:User");
    assert_eq!(display_rich(&RichType::Record), "record");
    assert_eq!(display_rich(&RichType::Timepoint), "timepoint");
}

#[test]
fn actions_are_displayed_with_escaped_ids() {
    assert_eq!(action_display(&ActionRef { namespace: None, id: s("a\"b") }), "Action::\"a\\\"b\"");
    assert_eq!(action_display(&read()), "App::Action::\"Read\"");
}

#[test]
fn every_finding_but_the_ambiguous_one_renders_with_help() {
    let methods = vec![(s("scale"), MethodDecl {
        argument_types: vec![param("long")],
        input_type: Some(param("string")),
        output_type: param("string"),
    })];
    let decl = ProviderDecl { argument_types: vec![param("long")], output_type: param("long"), methods };
    let mut l = leaf("Ns::F", vec![Arg::String(s("x"))], Some(decl));
    let call = |n: &str, args: Vec<Arg>| ProviderMethodCall { name: s(n), span: Span { start: 0, end: 1 }, args };
    l.methods = vec![call("isEmpty", vec![]), call("scale", vec![]), call("gone", vec![])];
    let mut leaves = vec![l, leaf("Ns::G", vec![], None)];
    leaves.push(leaf("Ns::H", vec![field_arg(&["context", "input", "x"])], Some(one_arg(param("string")))));
    leaves.push(leaf("Ns::I", vec![field_arg(&["principal", "level"])], Some(one_arg(param("long")))));
    let findings = ProviderDialect.validate(&leaves, &schema());
    assert_eq!(findings.len(), 8, "{:?}", messages(&findings));
    for f in findings {
        let ambiguous = f.message.contains("has a different type on each");
        let Rendered::Error(ValidationError::Extension { help, .. }) = ProviderDialect.render(f, "");
        assert_eq!(help.is_none(), ambiguous);
    }
}

#[test]
fn declared_methods_stay_in_name_order_each_once() {
    let method = |out: &str| MethodDecl { argument_types: vec![], input_type: None, output_type: param(out) };
    let mut d = ProviderDecl::new(vec![param("long")], param("string"));
    assert!(d.methods.is_empty());
    d.add_method(s("upper"), method("string"));
    d.add_method(s("scale"), method("long"));
    d.add_method(s("upper"), method("bool"));
    let names: Vec<&str> = d.methods.iter().map(|(n, _)| n.as_str()).collect();
    assert_eq!(names, vec!["scale", "upper"]);
    assert_eq!(d.methods[1].1.output_type.param_type, "bool");
    assert_eq!(d.argument_types.len(), 1);
    assert_eq!(d.output_type.param_type, "string");
}

#[test]
fn missing_field_paths_are_reported_left_to_right_depth_first() {
    let args = vec![
        field_arg(&["context", "input", "a"]),
        Arg::SetOf(vec![Arg::Integer(1), Arg::SetOf(vec![field_arg(&["context", "input", "b"])])]),
        Arg::Bool(true),
        field_arg(&["context", "input", "c"]),
    ];
    let decl = ProviderDecl {
        argument_types: vec![param("long"), param("set"), param("boolean"), param("long")],
        output_type: param("long"),
        methods: vec![],
    };
    let missing = |f: &str| {
        format!("provider `Ns::F`: argument `context.input.{f}` is not present in the context of action `App::Action::\"Read\"`")
    };
    assert_eq!(run(leaf("Ns::F", args, Some(decl))), vec![missing("a"), missing("b"), missing("c")]);
}
