//! The provider field-path type check over every category: a context with a
//! field of each category and providers declaring an argument of each
//! category; each case feeds one resolved category into one declared one.

use dogwood_language::api::{
    ActionRef, Arg, ParamType, ProviderDecl, ProviderField, ProviderInvocation, ScopeConstraint,
    Span, EntityTypeName,
};
use dogwood_language::provider::{ProviderDialect, ProviderFinding};
use dogwood_language::schema_info::{
    ActionDecl, Attribute, CedarType, EntityKind, EntityTypeDecl, EntityTypeKind, SchemaInfo,
};

fn name(ns: &str, base: &str) -> EntityTypeName {
    EntityTypeName { namespace: vec![ns.to_string()], basename: base.to_string() }
}

fn field(n: &str, ty: CedarType) -> Attribute {
    Attribute { name: n.to_string(), ty, required: true }
}

/// `namespace App { type ReadInput = { s, n, b, d, set_s, set_n, rec, ent };
/// entity Gateway; entity OAuthUser = { id: String }; action "Read" … }`,
/// record attributes in name order.
fn schema_categories() -> SchemaInfo {
    let input = CedarType::Record(vec![
        field("b", CedarType::Bool),
        field("d", CedarType::Extension("decimal".to_string())),
        field("ent", CedarType::Entity(EntityKind::Entity(vec![name("App", "OAuthUser")]))),
        field("n", CedarType::Long),
        field("rec", CedarType::Record(vec![field("k", CedarType::Long)])),
        field("s", CedarType::String),
        field("set_n", CedarType::SetOf(Some(Box::new(CedarType::Long)))),
        field("set_s", CedarType::SetOf(Some(Box::new(CedarType::String)))),
    ]);
    SchemaInfo {
        actions: vec![ActionDecl {
            uid_type: "App::Action".to_string(),
            id: "Read".to_string(),
            context: CedarType::Record(vec![field("input", input)]),
            principals: vec![name("App", "OAuthUser")],
            resources: vec![name("App", "Gateway")],
        }],
        entity_types: vec![
            EntityTypeDecl { name: name("App", "Gateway"), kind: EntityTypeKind::Standard(vec![]) },
            EntityTypeDecl {
                name: name("App", "OAuthUser"),
                kind: EntityTypeKind::Standard(vec![field("id", CedarType::String)]),
            },
        ],
    }
}

fn param(t: &str) -> ParamType {
    ParamType { param_type: t.to_string(), items: None }
}

/// The declaration of `Cat::<which>`: one argument of the given category and
/// a record output.
fn decl(arg: ParamType) -> ProviderDecl {
    ProviderDecl { argument_types: vec![arg], output_type: param("record"), methods: vec![] }
}

fn decl_for(provider: &str) -> ProviderDecl {
    match provider {
        "Cat::Str" => decl(param("string")),
        "Cat::Long" => decl(param("long")),
        "Cat::Bool" => decl(param("bool")),
        "Cat::Dec" => decl(param("decimal")),
        "Cat::SetS" => decl(ParamType { param_type: "set".to_string(), items: Some(Box::new(param("string"))) }),
        "Cat::Rec" => decl(param("record")),
        other => panic!("no category provider {other}"),
    }
}

/// Validate `<provider>(context.input.<input_field>)` on the `Read` rule.
fn cat_case(provider: &str, input_field: &str) -> Vec<ProviderFinding> {
    let leaf = ProviderField {
        invocation: ProviderInvocation {
            key: provider.to_string(),
            span: Span { start: 0, end: 10 },
            args: vec![Arg::Field(vec!["context".to_string(), "input".to_string(), input_field.to_string()])],
        },
        methods: vec![],
        declaration: Some(decl_for(provider)),
        body_base: 100,
        target_actions: vec![ActionRef { namespace: Some("App".to_string()), id: "Read".to_string() }],
        principal: ScopeConstraint::Any,
        resource: ScopeConstraint::Any,
    };
    ProviderDialect.validate(&[leaf], &schema_categories())
}

fn cat_ok(provider: &str, input_field: &str) -> bool {
    cat_case(provider, input_field).is_empty()
}

fn cat_type_err(provider: &str, input_field: &str) -> bool {
    cat_case(provider, input_field).iter().any(|f| f.message.contains("has type"))
}

#[test]
fn category_scalar_args_accept_only_the_same_scalar() {
    assert!(cat_ok("Cat::Str", "s"), "string<-String");
    assert!(cat_ok("Cat::Long", "n"), "long<-Long");
    assert!(cat_ok("Cat::Bool", "b"), "bool<-Bool");
    assert!(cat_ok("Cat::Dec", "d"), "decimal<-decimal");
    assert!(cat_type_err("Cat::Str", "n"), "string<-Long");
    assert!(cat_type_err("Cat::Str", "b"), "string<-Bool");
    assert!(cat_type_err("Cat::Str", "d"), "string<-decimal");
    assert!(cat_type_err("Cat::Long", "s"), "long<-String");
    assert!(cat_type_err("Cat::Bool", "n"), "bool<-Long");
    assert!(cat_type_err("Cat::Dec", "n"), "decimal<-Long");
}

#[test]
fn category_scalar_arg_rejects_nonscalar() {
    assert!(cat_type_err("Cat::Str", "set_s"), "string<-Set");
    assert!(cat_type_err("Cat::Str", "rec"), "string<-record");
    assert!(cat_type_err("Cat::Str", "ent"), "string<-entity");
}

#[test]
fn category_set_arg_checks_category_and_element() {
    assert!(cat_ok("Cat::SetS", "set_s"), "set<string><-Set<String>");
    assert!(cat_type_err("Cat::SetS", "s"), "set<-String (category)");
    assert!(cat_type_err("Cat::SetS", "rec"), "set<-record (category)");
    assert!(cat_type_err("Cat::SetS", "set_n"), "set<string><-Set<Long> (element)");
}

#[test]
fn category_record_arg_checks_category_only() {
    assert!(cat_ok("Cat::Rec", "rec"), "record<-record (fields not compared, #3)");
    assert!(cat_type_err("Cat::Rec", "s"), "record<-String (category)");
    assert!(cat_type_err("Cat::Rec", "set_s"), "record<-Set (category)");
}

#[test]
fn category_mismatch_message_is_exact() {
    let findings = cat_case("Cat::Str", "n");
    assert_eq!(findings.len(), 1);
    assert_eq!(
        findings[0].message,
        "provider `Cat::Str`: argument `context.input.n` has type `Long` on action `App::Action::\"Read\"` but the provider declares argument type `string`"
    );
    assert_eq!((findings[0].span.start, findings[0].span.end), (100, 110));
    let set_elem = cat_case("Cat::SetS", "set_n");
    assert_eq!(set_elem.len(), 1);
    assert!(set_elem[0].message.contains("has type `Set<Long>`"));
    let ent = cat_case("Cat::Str", "ent");
    assert!(ent[0].message.contains("has type `entity:OAuthUser`"));
}

/// `namespace App { entity Gateway; entity OAuthUser = { flag: Long };
/// entity ServiceBot = { flag: Bool }; action "Read" appliesTo { principal:
/// [OAuthUser, ServiceBot], resource: [Gateway], context: { input: { doc:
/// String } } }; }`
fn schema_ambiguous_flag() -> SchemaInfo {
    SchemaInfo {
        actions: vec![ActionDecl {
            uid_type: "App::Action".to_string(),
            id: "Read".to_string(),
            context: CedarType::Record(vec![field(
                "input",
                CedarType::Record(vec![field("doc", CedarType::String)]),
            )]),
            principals: vec![name("App", "OAuthUser"), name("App", "ServiceBot")],
            resources: vec![name("App", "Gateway")],
        }],
        entity_types: vec![
            EntityTypeDecl { name: name("App", "Gateway"), kind: EntityTypeKind::Standard(vec![]) },
            EntityTypeDecl {
                name: name("App", "OAuthUser"),
                kind: EntityTypeKind::Standard(vec![field("flag", CedarType::Long)]),
            },
            EntityTypeDecl {
                name: name("App", "ServiceBot"),
                kind: EntityTypeKind::Standard(vec![field("flag", CedarType::Bool)]),
            },
        ],
    }
}

#[test]
fn provider_ambiguous_type_list_is_string_sorted() {
    // `Strings::Matches(principal.flag, "x")` on `Read`: `flag` is Long (`int`)
    // on one admitted principal type and Bool (`boolean`) on the other.
    let leaf = ProviderField {
        invocation: ProviderInvocation {
            key: "Strings::Matches".to_string(),
            span: Span { start: 0, end: 10 },
            args: vec![
                Arg::Field(vec!["principal".to_string(), "flag".to_string()]),
                Arg::String("x".to_string()),
            ],
        },
        methods: vec![],
        declaration: Some(ProviderDecl {
            argument_types: vec![param("string"), param("string")],
            output_type: param("record"),
            methods: vec![],
        }),
        body_base: 100,
        target_actions: vec![ActionRef { namespace: Some("App".to_string()), id: "Read".to_string() }],
        principal: ScopeConstraint::Any,
        resource: ScopeConstraint::Any,
    };
    let r: Vec<String> = ProviderDialect
        .validate(&[leaf], &schema_ambiguous_flag())
        .into_iter()
        .map(|f| f.message)
        .collect();
    assert!(
        r.iter().any(|m| m.contains("(`boolean`, `int`)")),
        "ambiguous type list must be string-sorted (`boolean`, `int`), got:\n{r:?}"
    );
    assert!(r.iter().all(|m| !m.contains("not present")), "{r:?}");
}
