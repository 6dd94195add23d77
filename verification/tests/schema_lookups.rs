//! Schema lookups: actions, entity types, context paths and rich types.

use dogwood_language::api::{EntityTypeName, ScopeConstraint};
use dogwood_language::schema_info::{
    rich_type, ActionDecl, Attribute, CedarType, EntityKind, EntityTypeDecl, EntityTypeKind,
    PathResolution, RichType, SchemaInfo, ScopePath,
};

fn s(x: &str) -> String {
    x.to_string()
}

fn name(ns: &[&str], base: &str) -> EntityTypeName {
    EntityTypeName { namespace: ns.iter().map(|x| x.to_string()).collect(), basename: s(base) }
}

fn attr(n: &str, ty: CedarType) -> Attribute {
    Attribute { name: s(n), ty, required: true }
}

fn schema() -> SchemaInfo {
    let input = CedarType::Record(vec![
        attr("mode", CedarType::Entity(EntityKind::Entity(vec![name(&["Esc"], "Mode")]))),
        attr("nested", CedarType::Record(vec![attr("deep", CedarType::Bool)])),
        attr("when", CedarType::Extension(s("datetime"))),
    ]);
    SchemaInfo {
        actions: vec![
            ActionDecl {
                uid_type: s("Esc::Action"),
                id: s("a\"b"),
                context: CedarType::Record(vec![
                    attr("input", input),
                    attr("system", CedarType::Record(vec![attr("now", CedarType::Long)])),
                ]),
                principals: vec![name(&["Esc"], "User")],
                resources: vec![name(&["Esc"], "Doc"), name(&["Esc"], "Folder")],
            },
            ActionDecl {
                uid_type: s("Action"),
                id: s("Top"),
                context: CedarType::Record(vec![]),
                principals: vec![],
                resources: vec![],
            },
        ],
        entity_types: vec![
            EntityTypeDecl {
                name: name(&["Esc"], "Mode"),
                kind: EntityTypeKind::Enum(vec![s("on"), s("o\"ff")]),
            },
            EntityTypeDecl {
                name: name(&["Esc"], "User"),
                kind: EntityTypeKind::Standard(vec![attr("tags", CedarType::SetOf(None))]),
            },
        ],
    }
}

#[test]
fn actions_are_found_through_their_parsed_uid() {
    let info = schema();
    let h = info.action(Some("Esc"), "a\\\"b").expect("the escaped id parses to the declared raw id");
    assert_eq!(h.predicate_ref(), "Esc::a\\\"b");
    assert!(info.action(Some("Esc"), "missing").is_none());
    assert!(info.action(Some("1Bad"), "a").is_none(), "an unparseable uid finds nothing");
    let top = info.action(None, "Top").expect("a top-level action");
    assert_eq!(top.predicate_ref(), "Top");
    assert!(info.action(Some(""), "Top").is_some(), "an empty namespace is the top level");
}

#[test]
fn input_fields_are_typed_richly() {
    let info = schema();
    let h = info.action(Some("Esc"), "a\\\"b").unwrap();
    assert_eq!(h.input_field_type("mode").as_deref(), Some("entity:Mode"));
    assert_eq!(h.input_field_type("nested").as_deref(), Some("object"));
    assert_eq!(h.input_field_type("when").as_deref(), Some("string"));
    assert_eq!(h.input_field_type("nope"), None);
    assert_eq!(h.input_field_names(), vec![s("mode"), s("nested"), s("when")]);
    assert_eq!(h.principal_type().as_deref(), Some("entity:User"));
    assert_eq!(h.resource_type(), None, "two resource types have no single rich type");
}

#[test]
fn context_paths_resolve_through_nested_records() {
    let info = schema();
    let h = info.action(Some("Esc"), "a\\\"b").unwrap();
    let path = |p: &[&str]| -> Vec<String> { p.iter().map(|x| x.to_string()).collect() };
    assert!(matches!(h.resolve_context_path(&path(&["system", "now"])), PathResolution::Resolved(RichType::Long)));
    assert!(matches!(h.resolve_context_path(&path(&["input", "nested", "deep"])), PathResolution::Resolved(RichType::Bool)));
    assert!(matches!(h.resolve_context_path(&path(&["nope"])), PathResolution::HeadMissing));
    assert!(matches!(h.resolve_context_path(&[]), PathResolution::HeadMissing));
    match h.resolve_context_path(&path(&["input", "nested", "gone"])) {
        PathResolution::NestedMissing(seg) => assert_eq!(seg, "gone"),
        _ => panic!("expected a missing nested segment"),
    }
    match h.resolve_context_path(&path(&["system", "now", "x"])) {
        PathResolution::NonRecord(seg) => assert_eq!(seg, "x"),
        _ => panic!("expected a non-record traversal"),
    }
}

#[test]
fn scope_paths_resolve_on_the_admitted_types() {
    let info = schema();
    let h = info.action(Some("Esc"), "a\\\"b").unwrap();
    let rest = vec![s("tags")];
    assert!(matches!(h.resolve_scope_path("principal", &rest, None), ScopePath::Resolved(RichType::Array(_))));
    match h.resolve_scope_path("resource", &rest, None) {
        ScopePath::Missing { segment } => assert_eq!(segment, "tags"),
        _ => panic!("Doc is not declared, so it has no attribute"),
    }
    let other = ScopeConstraint::Is(name(&["Esc"], "Nobody"));
    assert!(matches!(h.resolve_scope_path("principal", &rest, Some(&other)), ScopePath::Unknown));
    assert!(h.admits_any_env(None, None));
    assert!(!h.admits_any_env(Some(&other), None));
}

#[test]
fn entity_types_and_enum_ids() {
    let info = schema();
    let mode = info.entity_type(Some("Esc"), "Mode").expect("declared");
    assert_eq!(mode.enum_eids(), Some(vec![s("on"), s("o\\\"ff")]));
    let user = info.entity_type(Some("Esc"), "User").expect("declared");
    assert_eq!(user.enum_eids(), None);
    assert!(info.entity_type(None, "User").is_none());
    assert_eq!(info.known_entity_refs(), vec![s("Esc::Mode"), s("Esc::User")]);
}

#[test]
fn rich_type_strings() {
    assert_eq!(rich_type(&CedarType::SetOf(Some(Box::new(CedarType::Long)))), "array<int>");
    assert_eq!(rich_type(&CedarType::SetOf(None)), "array");
    assert_eq!(rich_type(&CedarType::Extension(s("decimal"))), "decimal");
    assert_eq!(rich_type(&CedarType::Extension(s("ipaddr"))), "string");
    assert_eq!(rich_type(&CedarType::Entity(EntityKind::AnyEntity)), "entity");
    assert_eq!(
        rich_type(&CedarType::Entity(EntityKind::Entity(vec![name(&["A"], "X"), name(&["A"], "Y")]))),
        "entity"
    );
    assert_eq!(rich_type(&CedarType::Never), "never");
    assert_eq!(rich_type(&CedarType::Bool), "boolean");
}

#[test]
fn entity_type_names_are_read_as_cedar_parses_them() {
    let info = schema();
    assert!(info.entity_type(Some("Esc "), "User").is_some(), "Cedar reads `Esc ::User` as `Esc::User`");
    assert!(info.entity_type(Some("1Bad"), "User").is_none());
}
