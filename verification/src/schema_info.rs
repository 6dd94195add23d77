//! Schema lookups for the temporal and provider validators, served from a
//! plain-data picture of Cedar's validator schema: each action's typed
//! `context` record and applies-to entity types, and each declared entity
//! type (its attributes, or its permitted ids for an enum entity type).
//!
//! Field types are rendered to the "rich" comparison strings the temporal
//! checks use (`"int"`, `"string"`, `"entity:User"`, `"array<int>"`, …) and
//! classified as [`RichType`]s for the provider checks.

use vstd::prelude::*;
use vstd::slice::slice_subrange;
use crate::api::{EntityTypeName, ScopeConstraint};
use crate::cedar::{
    escaped_eid, escaped_eid_text, parse_entity_type, parse_entity_uid, parsed_entity_type,
    parsed_entity_uid,
};
use crate::text::{
    insert_sorted, join, join_text, opt_view, push_char, sorted_texts, str_eq, string_of,
    strip_suffix, strip_suffix_text, views,
};

verus! {

/// One attribute of a record type.
pub struct Attribute {
    pub name: String,
    pub ty: CedarType,
    pub required: bool,
}

/// The entity types an entity-typed value may have.
pub enum EntityKind {
    /// One of these entity types (a least upper bound).
    Entity(Vec<EntityTypeName>),
    /// Any entity type.
    AnyEntity,
}

/// A Cedar type as the validator resolves it. A record holds each attribute
/// once, in name order; an extension type is held by its base name
/// (`decimal`, `ipaddr`, `datetime`, `duration`).
pub enum CedarType {
    Long,
    String,
    Bool,
    Extension(String),
    SetOf(Option<Box<CedarType>>),
    Record(Vec<Attribute>),
    Entity(EntityKind),
    Never,
}

/// A declared action: its uid (the action entity type's name as Cedar writes
/// it, and the raw id), its context type, and the entity types it applies to.
pub struct ActionDecl {
    pub uid_type: String,
    pub id: String,
    pub context: CedarType,
    pub principals: Vec<EntityTypeName>,
    pub resources: Vec<EntityTypeName>,
}

/// How an entity type is declared.
pub enum EntityTypeKind {
    /// A standard entity type with these attributes.
    Standard(Vec<Attribute>),
    /// An enum entity type with these permitted (raw) ids.
    Enum(Vec<String>),
}

/// A declared entity type.
pub struct EntityTypeDecl {
    pub name: EntityTypeName,
    pub kind: EntityTypeKind,
}

/// The schema: every declared action and entity type, each once.
pub struct SchemaInfo {
    pub actions: Vec<ActionDecl>,
    pub entity_types: Vec<EntityTypeDecl>,
}

/// The category of a resolved type, as the provider checks compare it.
pub enum RichType {
    Long,
    String,
    Bool,
    Decimal,
    Timepoint,
    Record,
    Array(ArrayElem),
    /// An entity, with its type's base name when it has exactly one type.
    Entity(Option<String>),
    Never,
}

/// What is known of an array's element type.
pub enum ArrayElem {
    Unknown,
    Mixed,
    Of(Box<RichType>),
}

/// The outcome of resolving a `context` field path.
pub enum PathResolution {
    /// The full path resolved; carries the leaf's rich type.
    Resolved(RichType),
    /// The head field is not declared.
    HeadMissing,
    /// A nested segment is not a field of its (record) parent.
    NestedMissing(String),
    /// A nested segment tried to traverse into a non-record type.
    NonRecord(String),
}

/// The outcome of resolving a `principal.<attr…>` / `resource.<attr…>` path
/// against the entity types the rule's scope admits on one action.
pub enum ScopePath {
    /// The path resolves, at one type, on every admitted entity type.
    Resolved(RichType),
    /// The path resolves on every admitted entity type, at differing types:
    /// their rich type strings, each once, in ascending order.
    Ambiguous { types: Vec<String> },
    /// A segment is not an attribute of some admitted entity type.
    Missing { segment: String },
    /// A segment tried to traverse into a non-record type.
    NonRecord { segment: String },
    /// The scope admits no entity type on this action.
    Unknown,
}

// ─── names ────────────────────────────────────────────────────────────────

/// The qualified name as Cedar writes it: namespace segments and base name
/// joined with `::`.
pub open spec fn name_text(n: EntityTypeName) -> Seq<char> {
    join_text(views(n.namespace@).push(n.basename@), "::"@)
}

/// Two entity type names are the same name.
pub open spec fn same_name(a: EntityTypeName, b: EntityTypeName) -> bool {
    views(a.namespace@) == views(b.namespace@) && a.basename@ == b.basename@
}

/// Writes a qualified entity type name.
pub fn render_name(n: &EntityTypeName) -> (r: String)
    ensures
        r@ == name_text(*n),
{
    let mut parts: Vec<String> = Vec::new();
    let mut i: usize = 0;
    while i < n.namespace.len()
        invariant
            i <= n.namespace.len(),
            parts.len() == i,
            forall|j: int| 0 <= j < i ==> #[trigger] parts@[j]@ == n.namespace@[j]@,
        decreases n.namespace.len() - i,
    {
        parts.push(string_of(n.namespace[i].as_str()));
        i = i + 1;
    }
    parts.push(string_of(n.basename.as_str()));
    assert(views(parts@) =~= views(n.namespace@).push(n.basename@));
    join(&parts, "::")
}

/// Whether two entity type names are the same name.
pub fn names_equal(a: &EntityTypeName, b: &EntityTypeName) -> (r: bool)
    ensures
        r == same_name(*a, *b),
{
    if a.namespace.len() != b.namespace.len() {
        assert(views(a.namespace@).len() != views(b.namespace@).len());
        return false;
    }
    let mut i: usize = 0;
    while i < a.namespace.len()
        invariant
            a.namespace.len() == b.namespace.len(),
            i <= a.namespace.len(),
            forall|j: int| 0 <= j < i ==> (#[trigger] a.namespace@[j])@ == b.namespace@[j]@,
        decreases a.namespace.len() - i,
    {
        if !str_eq(a.namespace[i].as_str(), b.namespace[i].as_str()) {
            assert(views(a.namespace@)[i as int] != views(b.namespace@)[i as int]);
            return false;
        }
        i = i + 1;
    }
    assert(views(a.namespace@) =~= views(b.namespace@));
    str_eq(a.basename.as_str(), b.basename.as_str())
}

// ─── types ────────────────────────────────────────────────────────────────

/// The "rich" comparison string of a Cedar type.
pub open spec fn rich_type_text(ty: CedarType) -> Seq<char>
    decreases ty,
{
    match ty {
        CedarType::Long => "int"@,
        CedarType::String => "string"@,
        CedarType::Bool => "boolean"@,
        CedarType::Extension(name) => if name@ == "decimal"@ {
            "decimal"@
        } else {
            "string"@
        },
        CedarType::SetOf(Some(inner)) => "array<"@ + rich_type_text(*inner) + ">"@,
        CedarType::SetOf(None) => "array"@,
        CedarType::Record(_) => "object"@,
        CedarType::Entity(EntityKind::Entity(lub)) => if lub@.len() == 1 {
            "entity:"@ + lub@[0].basename@
        } else {
            "entity"@
        },
        CedarType::Entity(EntityKind::AnyEntity) => "entity"@,
        CedarType::Never => "never"@,
    }
}

/// Render a Cedar type as the "rich" comparison string the temporal checks
/// use. `decimal` keeps its name; every other extension type collapses to
/// `string`.
pub fn rich_type(ty: &CedarType) -> (r: String)
    ensures
        r@ == rich_type_text(*ty),
    decreases ty,
{
    match ty {
        CedarType::Long => string_of("int"),
        CedarType::String => string_of("string"),
        CedarType::Bool => string_of("boolean"),
        CedarType::Extension(name) => if str_eq(name.as_str(), "decimal") {
            string_of("decimal")
        } else {
            string_of("string")
        },
        CedarType::SetOf(Some(inner)) => {
            let mut out = string_of("array<");
            out.append(rich_type(inner).as_str());
            out.append(">");
            out
        },
        CedarType::SetOf(None) => string_of("array"),
        CedarType::Record(_) => string_of("object"),
        CedarType::Entity(EntityKind::Entity(lub)) => if lub.len() == 1 {
            let mut out = string_of("entity:");
            out.append(lub[0].basename.as_str());
            out
        } else {
            string_of("entity")
        },
        CedarType::Entity(EntityKind::AnyEntity) => string_of("entity"),
        CedarType::Never => string_of("never"),
    }
}

/// The category of a Cedar type.
pub open spec fn rich_kind_spec(ty: CedarType) -> RichType
    decreases ty,
{
    match ty {
        CedarType::Long => RichType::Long,
        CedarType::String => RichType::String,
        CedarType::Bool => RichType::Bool,
        CedarType::Extension(name) => if name@ == "decimal"@ {
            RichType::Decimal
        } else {
            RichType::String
        },
        CedarType::SetOf(Some(inner)) => RichType::Array(
            ArrayElem::Of(Box::new(rich_kind_spec(*inner))),
        ),
        CedarType::SetOf(None) => RichType::Array(ArrayElem::Unknown),
        CedarType::Record(_) => RichType::Record,
        CedarType::Entity(EntityKind::Entity(lub)) => if lub@.len() == 1 {
            RichType::Entity(Some(lub@[0].basename))
        } else {
            RichType::Entity(None)
        },
        CedarType::Entity(EntityKind::AnyEntity) => RichType::Entity(None),
        CedarType::Never => RichType::Never,
    }
}

/// Classify a Cedar type by category, in the same way [`rich_type`] names it.
pub fn rich_kind(ty: &CedarType) -> (r: RichType)
    ensures
        r == rich_kind_spec(*ty),
    decreases ty,
{
    match ty {
        CedarType::Long => RichType::Long,
        CedarType::String => RichType::String,
        CedarType::Bool => RichType::Bool,
        CedarType::Extension(name) => if str_eq(name.as_str(), "decimal") {
            RichType::Decimal
        } else {
            RichType::String
        },
        CedarType::SetOf(Some(inner)) => RichType::Array(ArrayElem::Of(Box::new(rich_kind(inner)))),
        CedarType::SetOf(None) => RichType::Array(ArrayElem::Unknown),
        CedarType::Record(_) => RichType::Record,
        CedarType::Entity(EntityKind::Entity(lub)) => if lub.len() == 1 {
            RichType::Entity(Some(lub[0].basename.clone()))
        } else {
            RichType::Entity(None)
        },
        CedarType::Entity(EntityKind::AnyEntity) => RichType::Entity(None),
        CedarType::Never => RichType::Never,
    }
}

/// The attributes of a record type, if it is one.
pub open spec fn record_attrs_spec(ty: CedarType) -> Option<Seq<Attribute>> {
    match ty {
        CedarType::Record(attrs) => Some(attrs@),
        _ => None,
    }
}

/// The attributes of a record [`CedarType`], if it is one.
pub fn record_attrs(ty: &CedarType) -> (r: Option<&Vec<Attribute>>)
    ensures
        match r {
            Some(a) => record_attrs_spec(*ty) == Some(a@),
            None => record_attrs_spec(*ty) is None,
        },
{
    match ty {
        CedarType::Record(attrs) => Some(attrs),
        _ => None,
    }
}

/// The index of the first attribute named `name`.
pub open spec fn attr_index(attrs: Seq<Attribute>, name: Seq<char>) -> Option<int>
    decreases attrs.len(),
{
    if attrs.len() == 0 {
        None
    } else {
        match attr_index(attrs.drop_last(), name) {
            Some(i) => Some(i),
            None => if attrs.last().name@ == name {
                Some(attrs.len() - 1)
            } else {
                None
            },
        }
    }
}

/// The first attribute named `name`.
pub open spec fn attr_lookup(attrs: Seq<Attribute>, name: Seq<char>) -> Option<Attribute> {
    match attr_index(attrs, name) {
        Some(i) => Some(attrs[i]),
        None => None,
    }
}

proof fn lemma_attr_index(attrs: Seq<Attribute>, name: Seq<char>)
    ensures
        match attr_index(attrs, name) {
            Some(i) => 0 <= i < attrs.len() && attrs[i].name@ == name && forall|j: int|
                0 <= j < i ==> (#[trigger] attrs[j]).name@ != name,
            None => forall|j: int| 0 <= j < attrs.len() ==> (#[trigger] attrs[j]).name@ != name,
        },
    decreases attrs.len(),
{
    if attrs.len() > 0 {
        let d = attrs.drop_last();
        lemma_attr_index(d, name);
        assert forall|j: int| 0 <= j < d.len() implies d[j] == attrs[j] by {}
    }
}

/// The first attribute of `attrs` named `name`, if any.
pub fn get_attr<'a>(attrs: &'a Vec<Attribute>, name: &str) -> (r: Option<&'a Attribute>)
    ensures
        match r {
            Some(a) => attr_lookup(attrs@, name@) == Some(*a),
            None => attr_lookup(attrs@, name@) is None,
        },
{
    proof {
        lemma_attr_index(attrs@, name@);
    }
    let mut i: usize = 0;
    while i < attrs.len()
        invariant
            i <= attrs.len(),
            forall|j: int| 0 <= j < i ==> (#[trigger] attrs@[j]).name@ != name@,
            match attr_index(attrs@, name@) {
                Some(k) => 0 <= k < attrs@.len() && attrs@[k].name@ == name@ && forall|j: int|
                    0 <= j < k ==> (#[trigger] attrs@[j]).name@ != name@,
                None => forall|j: int| 0 <= j < attrs@.len() ==> (#[trigger] attrs@[j]).name@ != name@,
            },
        decreases attrs.len() - i,
    {
        if str_eq(attrs[i].name.as_str(), name) {
            return Some(&attrs[i]);
        }
        i = i + 1;
    }
    None
}

/// Resolve the remaining segments `rest` starting from the type `cur`,
/// descending nested records.
pub open spec fn descend(cur: CedarType, rest: Seq<String>) -> PathResolution
    decreases rest.len(),
{
    if rest.len() == 0 {
        PathResolution::Resolved(rich_kind_spec(cur))
    } else {
        match record_attrs_spec(cur) {
            Some(rec) => match attr_lookup(rec, rest[0]@) {
                Some(at) => descend(at.ty, rest.drop_first()),
                None => PathResolution::NestedMissing(rest[0]),
            },
            None => PathResolution::NonRecord(rest[0]),
        }
    }
}

/// Resolve `head` then the segments `rest` within a record's `attrs`.
pub open spec fn resolve_in_spec(attrs: Seq<Attribute>, head: Seq<char>, rest: Seq<String>) -> PathResolution {
    match attr_lookup(attrs, head) {
        Some(at) => descend(at.ty, rest),
        None => PathResolution::HeadMissing,
    }
}

/// Resolve `head` then the remaining `rest` segments within a record's
/// `attrs`, descending nested records.
pub fn resolve_in(attrs: &Vec<Attribute>, head: &str, rest: &[String]) -> (r: PathResolution)
    ensures
        r == resolve_in_spec(attrs@, head@, rest@),
{
    let at = match get_attr(attrs, head) {
        Some(at) => at,
        None => return PathResolution::HeadMissing,
    };
    let mut current: &CedarType = &at.ty;
    let mut i: usize = 0;
    assert(rest@.skip(0) =~= rest@);
    while i < rest.len()
        invariant
            i <= rest@.len(),
            descend(*current, rest@.skip(i as int)) == resolve_in_spec(attrs@, head@, rest@),
        decreases rest@.len() - i,
    {
        let seg = &rest[i];
        assert(rest@.skip(i as int)[0] == rest@[i as int]);
        assert(rest@.skip(i as int).drop_first() =~= rest@.skip(i + 1));
        match record_attrs(current) {
            Some(rec) => match get_attr(rec, seg.as_str()) {
                Some(a) => current = &a.ty,
                None => {
                    assert(descend(*current, rest@.skip(i as int)) == PathResolution::NestedMissing(
                        rest@[i as int],
                    ));
                    let missing = seg.clone();
                    assert(missing == rest@[i as int]);
                    return PathResolution::NestedMissing(missing);
                },
            },
            None => {
                assert(descend(*current, rest@.skip(i as int)) == PathResolution::NonRecord(
                    rest@[i as int],
                ));
                let missing = seg.clone();
                assert(missing == rest@[i as int]);
                return PathResolution::NonRecord(missing);
            },
        }
        i = i + 1;
    }
    assert(rest@.skip(rest@.len() as int) =~= Seq::<String>::empty());
    PathResolution::Resolved(rich_kind(current))
}

// ─── schema lookups ───────────────────────────────────────────────────────

/// The index of the first declared action whose uid is `(ty, id)`.
pub open spec fn action_index(actions: Seq<ActionDecl>, ty: Seq<char>, id: Seq<char>) -> Option<int>
    decreases actions.len(),
{
    if actions.len() == 0 {
        None
    } else {
        match action_index(actions.drop_last(), ty, id) {
            Some(i) => Some(i),
            None => if actions.last().uid_type@ == ty && actions.last().id@ == id {
                Some(actions.len() - 1)
            } else {
                None
            },
        }
    }
}

proof fn lemma_action_index(actions: Seq<ActionDecl>, ty: Seq<char>, id: Seq<char>)
    ensures
        match action_index(actions, ty, id) {
            Some(i) => 0 <= i < actions.len() && actions[i].uid_type@ == ty && actions[i].id@ == id
                && forall|j: int|
                0 <= j < i ==> !((#[trigger] actions[j]).uid_type@ == ty && actions[j].id@ == id),
            None => forall|j: int|
                0 <= j < actions.len() ==> !((#[trigger] actions[j]).uid_type@ == ty
                    && actions[j].id@ == id),
        },
    decreases actions.len(),
{
    if actions.len() > 0 {
        let d = actions.drop_last();
        lemma_action_index(d, ty, id);
        assert forall|j: int| 0 <= j < d.len() implies d[j] == actions[j] by {}
    }
}

/// The text of the action uid for `namespace` and `id`: the namespace's
/// `Action` type (or bare `Action`), `::`, and the id in double quotes as is.
pub open spec fn action_uid_text(namespace: Option<Seq<char>>, id: Seq<char>) -> Seq<char> {
    (match namespace {
        Some(ns) => if ns.len() > 0 {
            ns + "::Action"@
        } else {
            "Action"@
        },
        None => "Action"@,
    }) + "::\""@ + id + seq!['"']
}

/// The declared action, if any, that the schema finds for `namespace` / `id`.
pub open spec fn lookup_action(info: SchemaInfo, namespace: Option<Seq<char>>, id: Seq<char>) -> Option<ActionDecl> {
    match parsed_entity_uid(action_uid_text(namespace, id)) {
        Some((ty, eid)) => match action_index(info.actions@, ty, eid) {
            Some(i) => Some(info.actions@[i]),
            None => None,
        },
        None => None,
    }
}

/// The index of the first declared entity type named `name`.
pub open spec fn entity_type_index(tys: Seq<EntityTypeDecl>, name: Seq<char>) -> Option<int>
    decreases tys.len(),
{
    if tys.len() == 0 {
        None
    } else {
        match entity_type_index(tys.drop_last(), name) {
            Some(i) => Some(i),
            None => if name_text(tys.last().name) == name {
                Some(tys.len() - 1)
            } else {
                None
            },
        }
    }
}

proof fn lemma_entity_type_index(tys: Seq<EntityTypeDecl>, name: Seq<char>)
    ensures
        match entity_type_index(tys, name) {
            Some(i) => 0 <= i < tys.len() && name_text(tys[i].name) == name && forall|j: int|
                0 <= j < i ==> name_text((#[trigger] tys[j]).name) != name,
            None => forall|j: int| 0 <= j < tys.len() ==> name_text((#[trigger] tys[j]).name) != name,
        },
    decreases tys.len(),
{
    if tys.len() > 0 {
        let d = tys.drop_last();
        lemma_entity_type_index(d, name);
        assert forall|j: int| 0 <= j < d.len() implies d[j] == tys[j] by {}
    }
}

/// The text of the entity type for `namespace` and `name`.
pub open spec fn entity_type_text(namespace: Option<Seq<char>>, name: Seq<char>) -> Seq<char> {
    match namespace {
        Some(ns) => if ns.len() > 0 {
            ns + "::"@ + name
        } else {
            name
        },
        None => name,
    }
}

/// The declared entity type, if any, that the schema finds for
/// `namespace` / `name`.
pub open spec fn lookup_entity_type(info: SchemaInfo, namespace: Option<Seq<char>>, name: Seq<char>) -> Option<EntityTypeDecl> {
    match parsed_entity_type(entity_type_text(namespace, name)) {
        Some(ty) => match entity_type_index(info.entity_types@, ty) {
            Some(i) => Some(info.entity_types@[i]),
            None => None,
        },
        None => None,
    }
}

/// A declared action and its Cedar-typed context, with the schema it belongs
/// to.
pub struct ActionHandle<'a> {
    pub info: &'a SchemaInfo,
    pub action: &'a ActionDecl,
}

/// A declared entity type.
pub struct EntityTypeHandle<'a> {
    pub ety: &'a EntityTypeDecl,
}

impl SchemaInfo {
    /// The action with the given namespace path and id, if declared. The
    /// namespace is the qualified path without its trailing `Action` segment;
    /// the Cedar `Action` type is reattached to form the action's uid, whose
    /// text Cedar parses before the lookup.
    pub fn action<'a>(&'a self, namespace: Option<&str>, id: &str) -> (r: Option<ActionHandle<'a>>)
        ensures
            match r {
                Some(h) => lookup_action(*self, opt_view(namespace), id@) == Some(*h.action)
                    && h.info == self,
                None => lookup_action(*self, opt_view(namespace), id@) is None,
            },
    {
        let mut text = match namespace {
            Some(ns) => if !ns.is_empty() {
                let mut t = string_of(ns);
                t.append("::Action");
                t
            } else {
                string_of("Action")
            },
            None => string_of("Action"),
        };
        text.append("::\"");
        text.append(id);
        push_char(&mut text, '"');
        assert(text@ == action_uid_text(opt_view(namespace), id@));
        let ts = text.as_str();
        assert(ts@ == action_uid_text(opt_view(namespace), id@));
        let parsed = parse_entity_uid(ts);
        let (ty, eid) = match parsed {
            Some(p) => p,
            None => return None,
        };
        assert(parsed_entity_uid(action_uid_text(opt_view(namespace), id@)) == Some((ty@, eid@)));
        proof {
            lemma_action_index(self.actions@, ty@, eid@);
        }
        let mut i: usize = 0;
        while i < self.actions.len()
            invariant
                i <= self.actions.len(),
                parsed_entity_uid(action_uid_text(opt_view(namespace), id@)) == Some((ty@, eid@)),
                forall|j: int|
                    0 <= j < i ==> !((#[trigger] self.actions@[j]).uid_type@ == ty@
                        && self.actions@[j].id@ == eid@),
                match action_index(self.actions@, ty@, eid@) {
                    Some(k) => 0 <= k < self.actions@.len() && self.actions@[k].uid_type@ == ty@
                        && self.actions@[k].id@ == eid@ && forall|j: int|
                        0 <= j < k ==> !((#[trigger] self.actions@[j]).uid_type@ == ty@
                            && self.actions@[j].id@ == eid@),
                    None => forall|j: int|
                        0 <= j < self.actions@.len() ==> !((#[trigger] self.actions@[j]).uid_type@
                            == ty@ && self.actions@[j].id@ == eid@),
                },
            decreases self.actions.len() - i,
        {
            let a = &self.actions[i];
            if str_eq(a.uid_type.as_str(), ty.as_str()) && str_eq(a.id.as_str(), eid.as_str()) {
                proof {
                    match action_index(self.actions@, ty@, eid@) {
                        Some(k) => {
                            if k < i {
                                assert(!(self.actions@[k].uid_type@ == ty@ && self.actions@[k].id@ == eid@));
                            }
                            if k > i {
                                assert(!(self.actions@[i as int].uid_type@ == ty@
                                    && self.actions@[i as int].id@ == eid@));
                            }
                        },
                        None => {
                            assert(!(self.actions@[i as int].uid_type@ == ty@
                                && self.actions@[i as int].id@ == eid@));
                        },
                    }
                }
                assert(action_index(self.actions@, ty@, eid@) == Some(i as int));
                assert(parsed_entity_uid(action_uid_text(opt_view(namespace), id@)) == Some((ty@, eid@)));
                return Some(ActionHandle { info: self, action: a });
            }
            i = i + 1;
        }
        None
    }

    /// The declared entity type `(namespace, name)`, if any.
    pub fn entity_type<'a>(&'a self, namespace: Option<&str>, name: &str) -> (r: Option<EntityTypeHandle<'a>>)
        ensures
            match r {
                Some(h) => lookup_entity_type(*self, opt_view(namespace), name@) == Some(*h.ety),
                None => lookup_entity_type(*self, opt_view(namespace), name@) is None,
            },
    {
        let qualified = match namespace {
            Some(ns) => if !ns.is_empty() {
                let mut t = string_of(ns);
                t.append("::");
                t.append(name);
                t
            } else {
                string_of(name)
            },
            None => string_of(name),
        };
        assert(qualified@ == entity_type_text(opt_view(namespace), name@));
        let qs = qualified.as_str();
        let parsed = parse_entity_type(qs);
        let ty = match parsed {
            Some(t) => t,
            None => return None,
        };
        assert(parsed_entity_type(entity_type_text(opt_view(namespace), name@)) == Some(ty@));
        proof {
            lemma_entity_type_index(self.entity_types@, ty@);
        }
        let mut i: usize = 0;
        while i < self.entity_types.len()
            invariant
                i <= self.entity_types.len(),
                parsed_entity_type(entity_type_text(opt_view(namespace), name@)) == Some(ty@),
                forall|j: int| 0 <= j < i ==> name_text((#[trigger] self.entity_types@[j]).name) != ty@,
                match entity_type_index(self.entity_types@, ty@) {
                    Some(k) => 0 <= k < self.entity_types@.len() && name_text(self.entity_types@[k].name)
                        == ty@ && forall|j: int|
                        0 <= j < k ==> name_text((#[trigger] self.entity_types@[j]).name) != ty@,
                    None => forall|j: int|
                        0 <= j < self.entity_types@.len() ==> name_text(
                            (#[trigger] self.entity_types@[j]).name,
                        ) != ty@,
                },
            decreases self.entity_types.len() - i,
        {
            let e = &self.entity_types[i];
            let n = render_name(&e.name);
            if str_eq(n.as_str(), ty.as_str()) {
                proof {
                    match entity_type_index(self.entity_types@, ty@) {
                        Some(k) => {
                            if k < i {
                                assert(name_text(self.entity_types@[k].name) != ty@);
                            }
                            if k > i {
                                assert(name_text(self.entity_types@[i as int].name) != ty@);
                            }
                        },
                        None => {
                            assert(name_text(self.entity_types@[i as int].name) != ty@);
                        },
                    }
                }
                assert(entity_type_index(self.entity_types@, ty@) == Some(i as int));
                return Some(EntityTypeHandle { ety: e });
            }
            i = i + 1;
        }
        None
    }

    /// The names of every declared entity type, for diagnostics.
    pub fn known_entity_refs(&self) -> (r: Vec<String>)
        ensures
            views(r@) == Seq::new(
                self.entity_types@.len(),
                |i: int| name_text(self.entity_types@[i].name),
            ),
    {
        let mut out: Vec<String> = Vec::new();
        let mut i: usize = 0;
        while i < self.entity_types.len()
            invariant
                i <= self.entity_types.len(),
                out.len() == i,
                forall|j: int| 0 <= j < i ==> #[trigger] out@[j]@ == name_text(self.entity_types@[j].name),
            decreases self.entity_types.len() - i,
        {
            out.push(render_name(&self.entity_types[i].name));
            i = i + 1;
        }
        assert(views(out@) =~= Seq::new(
            self.entity_types@.len(),
            |i: int| name_text(self.entity_types@[i].name),
        ));
        out
    }
}

// ─── action handles ───────────────────────────────────────────────────────

/// The `input` record's attributes of an action's context, if the context is
/// a record carrying an `input` record attribute.
pub open spec fn input_attrs_spec(action: ActionDecl) -> Option<Seq<Attribute>> {
    match record_attrs_spec(action.context) {
        Some(ctx) => match attr_lookup(ctx, "input"@) {
            Some(at) => record_attrs_spec(at.ty),
            None => None,
        },
        None => None,
    }
}

/// The `input` record's attributes of an action's context, if any.
pub fn input_attrs(action: &ActionDecl) -> (r: Option<&Vec<Attribute>>)
    ensures
        match r {
            Some(a) => input_attrs_spec(*action) == Some(a@),
            None => input_attrs_spec(*action) is None,
        },
{
    let ctx = match record_attrs(&action.context) {
        Some(c) => c,
        None => return None,
    };
    let at = match get_attr(ctx, "input") {
        Some(a) => a,
        None => return None,
    };
    record_attrs(&at.ty)
}

/// The predicate reference form of an action uid: the namespace (the action
/// type's name minus its trailing `::Action`), `::`, and the escaped id; just
/// the escaped id for a top-level `Action` or an unexpected shape.
pub open spec fn predicate_ref_text(action: ActionDecl) -> Seq<char> {
    match strip_suffix_text(action.uid_type@, "::Action"@) {
        Some(ns) => if ns.len() > 0 {
            ns + "::"@ + escaped_eid_text(action.id@)
        } else {
            escaped_eid_text(action.id@)
        },
        None => escaped_eid_text(action.id@),
    }
}

/// The predicate reference form (`Ns::id`) for an action.
pub fn predicate_ref(action: &ActionDecl) -> (r: String)
    ensures
        r@ == predicate_ref_text(*action),
{
    let eid = escaped_eid(action.id.as_str());
    match strip_suffix(action.uid_type.as_str(), "::Action") {
        Some(ns) => if !ns.as_str().is_empty() {
            assert(ns@.len() > 0);
            let mut out = ns;
            out.append("::");
            out.append(eid.as_str());
            out
        } else {
            assert(ns@.len() == 0);
            eid
        },
        None => eid,
    }
}

/// `entity:<basename>` when `tys` holds exactly one entity type.
pub open spec fn single_entity_rich_text(tys: Seq<EntityTypeName>) -> Option<Seq<char>> {
    if tys.len() == 1 {
        Some("entity:"@ + tys[0].basename@)
    } else {
        None
    }
}

/// Render the single entity type of an applies-to list as
/// `entity:<basename>`, or `None` if there is not exactly one.
pub fn single_entity_rich(tys: &Vec<EntityTypeName>) -> (r: Option<String>)
    ensures
        match r {
            Some(t) => single_entity_rich_text(tys@) == Some(t@),
            None => single_entity_rich_text(tys@) is None,
        },
{
    if tys.len() != 1 {
        return None;
    }
    let mut out = string_of("entity:");
    out.append(tys[0].basename.as_str());
    Some(out)
}

/// The rule's scope constraint admits the entity type `t`.
pub open spec fn admitted(t: EntityTypeName, c: Option<ScopeConstraint>) -> bool {
    match c {
        Some(ScopeConstraint::Is(n)) => same_name(t, n),
        _ => true,
    }
}

/// Some type of `tys` is admitted by `c`.
pub open spec fn admits_some(tys: Seq<EntityTypeName>, c: Option<ScopeConstraint>) -> bool {
    exists|i: int| 0 <= i < tys.len() && admitted(#[trigger] tys[i], c)
}

/// The types of `tys` that `c` admits, in order.
pub open spec fn admitted_types(tys: Seq<EntityTypeName>, c: Option<ScopeConstraint>) -> Seq<EntityTypeName>
    decreases tys.len(),
{
    if tys.len() == 0 {
        Seq::empty()
    } else if admitted(tys.last(), c) {
        admitted_types(tys.drop_last(), c).push(tys.last())
    } else {
        admitted_types(tys.drop_last(), c)
    }
}

/// Whether the scope constraint admits the entity type `t`.
pub fn admits(t: &EntityTypeName, c: Option<&ScopeConstraint>) -> (r: bool)
    ensures
        r == admitted(*t, opt_ref(c)),
{
    match c {
        Some(ScopeConstraint::Is(n)) => names_equal(t, n),
        _ => true,
    }
}

/// The value behind an optional reference.
pub open spec fn opt_ref<T>(c: Option<&T>) -> Option<T> {
    match c {
        Some(x) => Some(*x),
        None => None,
    }
}

/// Whether some type of `tys` is admitted by `c`.
pub fn admits_any_type(tys: &Vec<EntityTypeName>, c: Option<&ScopeConstraint>) -> (r: bool)
    ensures
        r == admits_some(tys@, opt_ref(c)),
{
    let mut i: usize = 0;
    while i < tys.len()
        invariant
            i <= tys.len(),
            forall|j: int| 0 <= j < i ==> !admitted(#[trigger] tys@[j], opt_ref(c)),
        decreases tys.len() - i,
    {
        if admits(&tys[i], c) {
            return true;
        }
        i = i + 1;
    }
    false
}

/// The index of the first declared entity type that is `t`.
pub open spec fn decl_index(tys: Seq<EntityTypeDecl>, t: EntityTypeName) -> Option<int>
    decreases tys.len(),
{
    if tys.len() == 0 {
        None
    } else {
        match decl_index(tys.drop_last(), t) {
            Some(i) => Some(i),
            None => if same_name(tys.last().name, t) {
                Some(tys.len() - 1)
            } else {
                None
            },
        }
    }
}

proof fn lemma_decl_index(tys: Seq<EntityTypeDecl>, t: EntityTypeName)
    ensures
        match decl_index(tys, t) {
            Some(i) => 0 <= i < tys.len() && same_name(tys[i].name, t) && forall|j: int|
                0 <= j < i ==> !same_name((#[trigger] tys[j]).name, t),
            None => forall|j: int| 0 <= j < tys.len() ==> !same_name((#[trigger] tys[j]).name, t),
        },
    decreases tys.len(),
{
    if tys.len() > 0 {
        let d = tys.drop_last();
        lemma_decl_index(d, t);
        assert forall|j: int| 0 <= j < d.len() implies d[j] == tys[j] by {}
    }
}

/// The attributes of the declared entity type `t`; none for an enum entity
/// type or an undeclared one.
pub open spec fn entity_attrs(info: SchemaInfo, t: EntityTypeName) -> Seq<Attribute> {
    match decl_index(info.entity_types@, t) {
        Some(i) => match info.entity_types@[i].kind {
            EntityTypeKind::Standard(attrs) => attrs@,
            EntityTypeKind::Enum(_) => Seq::empty(),
        },
        None => Seq::empty(),
    }
}

/// A resolution that failed.
pub open spec fn is_failure(r: PathResolution) -> bool {
    !(r is Resolved)
}

/// The index of the first failed resolution.
pub open spec fn first_failure(rs: Seq<PathResolution>) -> Option<int>
    decreases rs.len(),
{
    if rs.len() == 0 {
        None
    } else {
        match first_failure(rs.drop_last()) {
            Some(i) => Some(i),
            None => if is_failure(rs.last()) {
                Some(rs.len() - 1)
            } else {
                None
            },
        }
    }
}

/// The resolved type of a successful resolution.
pub open spec fn resolved_type(r: PathResolution) -> RichType {
    match r {
        PathResolution::Resolved(t) => t,
        _ => RichType::Never,
    }
}

/// Two rich types are the same (entity base names compared by text).
pub open spec fn rich_equiv(a: RichType, b: RichType) -> bool
    decreases a,
{
    match (a, b) {
        (RichType::Long, RichType::Long) => true,
        (RichType::String, RichType::String) => true,
        (RichType::Bool, RichType::Bool) => true,
        (RichType::Decimal, RichType::Decimal) => true,
        (RichType::Timepoint, RichType::Timepoint) => true,
        (RichType::Record, RichType::Record) => true,
        (RichType::Never, RichType::Never) => true,
        (RichType::Entity(None), RichType::Entity(None)) => true,
        (RichType::Entity(Some(x)), RichType::Entity(Some(y))) => x@ == y@,
        (RichType::Array(ArrayElem::Unknown), RichType::Array(ArrayElem::Unknown)) => true,
        (RichType::Array(ArrayElem::Mixed), RichType::Array(ArrayElem::Mixed)) => true,
        (RichType::Array(ArrayElem::Of(x)), RichType::Array(ArrayElem::Of(y))) => rich_equiv(*x, *y),
        _ => false,
    }
}

/// Whether two rich types are the same.
pub fn rich_eq(a: &RichType, b: &RichType) -> (r: bool)
    ensures
        r == rich_equiv(*a, *b),
    decreases a,
{
    match (a, b) {
        (RichType::Long, RichType::Long) => true,
        (RichType::String, RichType::String) => true,
        (RichType::Bool, RichType::Bool) => true,
        (RichType::Decimal, RichType::Decimal) => true,
        (RichType::Timepoint, RichType::Timepoint) => true,
        (RichType::Record, RichType::Record) => true,
        (RichType::Never, RichType::Never) => true,
        (RichType::Entity(None), RichType::Entity(None)) => true,
        (RichType::Entity(Some(x)), RichType::Entity(Some(y))) => str_eq(x.as_str(), y.as_str()),
        (RichType::Array(ArrayElem::Unknown), RichType::Array(ArrayElem::Unknown)) => true,
        (RichType::Array(ArrayElem::Mixed), RichType::Array(ArrayElem::Mixed)) => true,
        (RichType::Array(ArrayElem::Of(x)), RichType::Array(ArrayElem::Of(y))) => rich_eq(x, y),
        _ => false,
    }
}

/// A copy of a rich type.
pub fn copy_rich(a: &RichType) -> (r: RichType)
    ensures
        r == *a,
    decreases a,
{
    match a {
        RichType::Long => RichType::Long,
        RichType::String => RichType::String,
        RichType::Bool => RichType::Bool,
        RichType::Decimal => RichType::Decimal,
        RichType::Timepoint => RichType::Timepoint,
        RichType::Record => RichType::Record,
        RichType::Never => RichType::Never,
        RichType::Entity(None) => RichType::Entity(None),
        RichType::Entity(Some(x)) => RichType::Entity(Some(x.clone())),
        RichType::Array(ArrayElem::Unknown) => RichType::Array(ArrayElem::Unknown),
        RichType::Array(ArrayElem::Mixed) => RichType::Array(ArrayElem::Mixed),
        RichType::Array(ArrayElem::Of(x)) => RichType::Array(ArrayElem::Of(Box::new(copy_rich(x)))),
    }
}

/// The kind of outcome of a scope-path resolution.
pub enum ScopeVerdict {
    Resolved(RichType),
    Ambiguous,
    Missing(String),
    NonRecord(String),
    Unknown,
}

/// What the resolutions on the admitted entity types (in order) amount to:
/// the first failure, if any; else nothing admitted; else one type or
/// several.
pub open spec fn scope_verdict(rs: Seq<PathResolution>, head: String) -> ScopeVerdict {
    match first_failure(rs) {
        Some(i) => match rs[i] {
            PathResolution::NestedMissing(s) => ScopeVerdict::Missing(s),
            PathResolution::NonRecord(s) => ScopeVerdict::NonRecord(s),
            _ => ScopeVerdict::Missing(head),
        },
        None => if rs.len() == 0 {
            ScopeVerdict::Unknown
        } else if forall|i: int|
            0 <= i < rs.len() ==> rich_equiv(resolved_type(#[trigger] rs[i]), resolved_type(rs[0])) {
            ScopeVerdict::Resolved(resolved_type(rs[0]))
        } else {
            ScopeVerdict::Ambiguous
        },
    }
}

/// The rich type string of a resolved type's category (`int`, `string`,
/// `boolean`, `array<int>`, `object`, `entity:User`, …).
pub open spec fn rich_text_of(k: RichType) -> Seq<char>
    decreases k,
{
    match k {
        RichType::Long => "int"@,
        RichType::String => "string"@,
        RichType::Bool => "boolean"@,
        RichType::Decimal => "decimal"@,
        RichType::Timepoint => "timepoint"@,
        RichType::Record => "object"@,
        RichType::Array(ArrayElem::Of(x)) => "array<"@ + rich_text_of(*x) + ">"@,
        RichType::Array(_) => "array"@,
        RichType::Entity(Some(n)) => "entity:"@ + n@,
        RichType::Entity(None) => "entity"@,
        RichType::Never => "never"@,
    }
}

/// The rich type string of a resolved type's category.
pub fn rich_text(k: &RichType) -> (r: String)
    ensures
        r@ == rich_text_of(*k),
    decreases k,
{
    match k {
        RichType::Long => string_of("int"),
        RichType::String => string_of("string"),
        RichType::Bool => string_of("boolean"),
        RichType::Decimal => string_of("decimal"),
        RichType::Timepoint => string_of("timepoint"),
        RichType::Record => string_of("object"),
        RichType::Array(ArrayElem::Of(x)) => {
            let mut out = string_of("array<");
            out.append(rich_text(x).as_str());
            out.append(">");
            out
        },
        RichType::Array(_) => string_of("array"),
        RichType::Entity(Some(n)) => {
            let mut out = string_of("entity:");
            out.append(n.as_str());
            out
        },
        RichType::Entity(None) => string_of("entity"),
        RichType::Never => string_of("never"),
    }
}

/// The category of a Cedar type has the same rich type string as the type
/// itself: the strings an ambiguous resolution lists are the schema's rich
/// type strings.
pub proof fn lemma_rich_text_of_kind(ty: CedarType)
    ensures
        rich_text_of(rich_kind_spec(ty)) == rich_type_text(ty),
    decreases ty,
{
    match ty {
        CedarType::SetOf(Some(inner)) => lemma_rich_text_of_kind(*inner),
        _ => {},
    }
}

/// The rich type strings of the resolved types, in order.
pub open spec fn rich_texts(rs: Seq<PathResolution>) -> Seq<Seq<char>> {
    Seq::new(rs.len(), |i: int| rich_text_of(resolved_type(rs[i])))
}

/// The verdict a scope-path outcome reports.
pub open spec fn scope_path_verdict(p: ScopePath) -> ScopeVerdict {
    match p {
        ScopePath::Resolved(t) => ScopeVerdict::Resolved(t),
        ScopePath::Ambiguous { .. } => ScopeVerdict::Ambiguous,
        ScopePath::Missing { segment } => ScopeVerdict::Missing(segment),
        ScopePath::NonRecord { segment } => ScopeVerdict::NonRecord(segment),
        ScopePath::Unknown => ScopeVerdict::Unknown,
    }
}

/// The resolution of the attribute path `rest` on each admitted type.
pub open spec fn scope_resolutions(info: SchemaInfo, cands: Seq<EntityTypeName>, rest: Seq<String>) -> Seq<PathResolution> {
    Seq::new(
        cands.len(),
        |i: int| resolve_in_spec(entity_attrs(info, cands[i]), rest[0]@, rest.drop_first()),
    )
}

/// The applies-to entity types of `action` for the scope root `root`.
pub open spec fn root_types(action: ActionDecl, root: Seq<char>) -> Seq<EntityTypeName> {
    if root == "principal"@ {
        action.principals@
    } else {
        action.resources@
    }
}

/// The rich type text of the `input` field `name` of `action`, if declared.
pub open spec fn input_field_type_text(action: ActionDecl, name: Seq<char>) -> Option<Seq<char>> {
    match input_attrs_spec(action) {
        Some(attrs) => match attr_lookup(attrs, name) {
            Some(at) => Some(rich_type_text(at.ty)),
            None => None,
        },
        None => None,
    }
}

/// The resolution of the `context` field path `path` (without its leading
/// `context`) against the action's declared context record.
pub open spec fn context_path_spec(action: ActionDecl, path: Seq<String>) -> PathResolution {
    if path.len() == 0 {
        PathResolution::HeadMissing
    } else {
        match record_attrs_spec(action.context) {
            Some(attrs) => resolve_in_spec(attrs, path[0]@, path.drop_first()),
            None => PathResolution::HeadMissing,
        }
    }
}

impl<'a> ActionHandle<'a> {
    /// The predicate reference form used in diagnostics (`Ns::id`).
    pub fn predicate_ref(&self) -> (r: String)
        ensures
            r@ == predicate_ref_text(*self.action),
    {
        predicate_ref(self.action)
    }

    /// The rich type of the named `input` field, or `None` if absent.
    pub fn input_field_type(&self, name: &str) -> (r: Option<String>)
        ensures
            match r {
                Some(t) => input_field_type_text(*self.action, name@) == Some(t@),
                None => input_field_type_text(*self.action, name@) is None,
            },
    {
        let attrs = match input_attrs(self.action) {
            Some(a) => a,
            None => return None,
        };
        match get_attr(attrs, name) {
            Some(at) => Some(rich_type(&at.ty)),
            None => None,
        }
    }

    /// Every declared input field name, in order, for diagnostics.
    pub fn input_field_names(&self) -> (r: Vec<String>)
        ensures
            views(r@) == match input_attrs_spec(*self.action) {
                Some(attrs) => Seq::new(attrs.len(), |i: int| attrs[i].name@),
                None => Seq::empty(),
            },
    {
        let attrs = match input_attrs(self.action) {
            Some(a) => a,
            None => {
                let out: Vec<String> = Vec::new();
                assert(views(out@) =~= Seq::empty());
                return out;
            },
        };
        let mut out: Vec<String> = Vec::new();
        let mut i: usize = 0;
        while i < attrs.len()
            invariant
                i <= attrs.len(),
                out.len() == i,
                forall|j: int| 0 <= j < i ==> #[trigger] out@[j]@ == attrs@[j].name@,
            decreases attrs.len() - i,
        {
            out.push(string_of(attrs[i].name.as_str()));
            i = i + 1;
        }
        assert(views(out@) =~= Seq::new(attrs@.len(), |i: int| attrs@[i].name@));
        out
    }

    /// Resolve a `context.<seg0>.<seg1>…` field path (given without its
    /// leading `context`) against the action's full declared context record.
    pub fn resolve_context_path(&self, path: &[String]) -> (r: PathResolution)
        ensures
            r == context_path_spec(*self.action, path@),
    {
        if path.len() == 0 {
            return PathResolution::HeadMissing;
        }
        let attrs = match record_attrs(&self.action.context) {
            Some(a) => a,
            None => return PathResolution::HeadMissing,
        };
        let rest = slice_subrange(path, 1, path.len());
        assert(rest@ =~= path@.drop_first());
        resolve_in(attrs, path[0].as_str(), rest)
    }

    /// The action's principal entity type as `entity:<Name>`, if it declares
    /// exactly one principal type.
    pub fn principal_type(&self) -> (r: Option<String>)
        ensures
            match r {
                Some(t) => single_entity_rich_text(self.action.principals@) == Some(t@),
                None => single_entity_rich_text(self.action.principals@) is None,
            },
    {
        single_entity_rich(&self.action.principals)
    }

    /// The action's resource entity type, as [`ActionHandle::principal_type`].
    pub fn resource_type(&self) -> (r: Option<String>)
        ensures
            match r {
                Some(t) => single_entity_rich_text(self.action.resources@) == Some(t@),
                None => single_entity_rich_text(self.action.resources@) is None,
            },
    {
        single_entity_rich(&self.action.resources)
    }

    /// Whether some request environment of this action survives the rule's
    /// own principal / resource narrowing: some applies-to principal type and
    /// some applies-to resource type are admitted.
    pub fn admits_any_env(&self, principal: Option<&ScopeConstraint>, resource: Option<&ScopeConstraint>) -> (r: bool)
        ensures
            r == (admits_some(self.action.principals@, opt_ref(principal)) && admits_some(
                self.action.resources@,
                opt_ref(resource),
            )),
    {
        admits_any_type(&self.action.principals, principal) && admits_any_type(
            &self.action.resources,
            resource,
        )
    }

    /// Resolve the attribute path `rest` (non-empty) of the scope root `root`
    /// (`principal` or `resource`) against each applies-to entity type the
    /// rule's own constraint `narrow` admits.
    pub fn resolve_scope_path(&self, root: &str, rest: &[String], narrow: Option<&ScopeConstraint>) -> (r: ScopePath)
        requires
            rest@.len() > 0,
        ensures
            ({
                let rs = scope_resolutions(
                    *self.info,
                    admitted_types(root_types(*self.action, root@), opt_ref(narrow)),
                    rest@,
                );
                &&& scope_path_verdict(r) == scope_verdict(rs, rest@[0])
                &&& (r matches ScopePath::Ambiguous { types } ==> views(types@) == sorted_texts(
                    rich_texts(rs),
                ))
            }),
    {
        let tys = if str_eq(root, "principal") {
            &self.action.principals
        } else {
            &self.action.resources
        };
        let ghost all = root_types(*self.action, root@);
        let ghost cands = admitted_types(all, opt_ref(narrow));
        let ghost rs = scope_resolutions(*self.info, cands, rest@);
        let tail = slice_subrange(rest, 1, rest.len());
        assert(tail@ =~= rest@.drop_first());
        let mut types: Vec<RichType> = Vec::new();
        let ghost mut count: int = 0;
        let mut i: usize = 0;
        while i < tys.len()
            invariant
                all == root_types(*self.action, root@),
                tys@ == all,
                i <= tys.len(),
                tail@ == rest@.drop_first(),
                rest@.len() > 0,
                cands == admitted_types(all, opt_ref(narrow)),
                rs == scope_resolutions(*self.info, cands, rest@),
                count == admitted_types(all.take(i as int), opt_ref(narrow)).len(),
                count <= cands.len(),
                admitted_types(all.take(i as int), opt_ref(narrow)) == cands.take(count),
                types@.len() == count,
                forall|j: int| 0 <= j < count ==> #[trigger] types@[j] == resolved_type(rs[j]),
                first_failure(rs.take(count)) is None,
            decreases tys.len() - i,
        {
            proof {
                lemma_admitted_prefix(all, opt_ref(narrow), i as int);
                lemma_admitted_concat(all.take(i + 1), all.skip(i + 1), opt_ref(narrow));
                assert(all.take(i + 1) + all.skip(i + 1) =~= all);
            }
            let t = &tys[i];
            if admits(t, narrow) {
                proof {
                    lemma_decl_index(self.info.entity_types@, *t);
                }
                let res = match self.info.entity_decl(t) {
                    Some(d) => match &d.kind {
                        EntityTypeKind::Standard(attrs) => resolve_in(attrs, rest[0].as_str(), tail),
                        EntityTypeKind::Enum(_) => {
                            let empty: Vec<Attribute> = Vec::new();
                            resolve_in(&empty, rest[0].as_str(), tail)
                        },
                    },
                    None => {
                        let empty: Vec<Attribute> = Vec::new();
                        resolve_in(&empty, rest[0].as_str(), tail)
                    },
                };
                assert(admitted_types(all.take(i + 1), opt_ref(narrow)) == cands.take(count).push(*t));
                assert(cands[count] == *t) by {
                    let pre = admitted_types(all.take(i + 1), opt_ref(narrow));
                    assert(pre[count] == *t);
                    assert(cands =~= pre + admitted_types(all.skip(i + 1), opt_ref(narrow)));
                }
                assert(cands.take(count + 1) =~= cands.take(count).push(*t));
                assert(res == rs[count]);
                match res {
                    PathResolution::Resolved(rt) => {
                        types.push(rt);
                        proof {
                            assert(rs.take(count + 1).drop_last() =~= rs.take(count));
                            count = count + 1;
                        }
                    },
                    PathResolution::HeadMissing => {
                        proof { lemma_first_failure_at(rs, count); }
                        return ScopePath::Missing { segment: rest[0].clone() };
                    },
                    PathResolution::NestedMissing(seg) => {
                        proof { lemma_first_failure_at(rs, count); }
                        return ScopePath::Missing { segment: seg };
                    },
                    PathResolution::NonRecord(seg) => {
                        proof { lemma_first_failure_at(rs, count); }
                        return ScopePath::NonRecord { segment: seg };
                    },
                }
            }
            i = i + 1;
        }
        proof {
            assert(all.take(tys.len() as int) =~= all);
            assert(cands.take(count) =~= cands);
            assert(rs.take(count) =~= rs);
        }
        if types.len() == 0 {
            return ScopePath::Unknown;
        }
        proof {
            lemma_rich_equiv_refl(resolved_type(rs[0]));
        }
        let mut k: usize = 1;
        let mut same = true;
        while k < types.len()
            invariant
                1 <= k <= types.len(),
                types@.len() == rs.len(),
                forall|j: int| 0 <= j < rs.len() ==> #[trigger] types@[j] == resolved_type(rs[j]),
                same == forall|j: int|
                    0 <= j < k ==> rich_equiv(resolved_type(#[trigger] rs[j]), resolved_type(rs[0])),
            decreases types.len() - k,
        {
            if !rich_eq(&types[k], &types[0]) {
                same = false;
            }
            k = k + 1;
        }
        if same {
            let first = copy_rich(&types[0]);
            ScopePath::Resolved(first)
        } else {
            let mut names: Vec<String> = Vec::new();
            let mut j: usize = 0;
            assert(views(names@) =~= sorted_texts(rich_texts(rs).take(0)));
            while j < types.len()
                invariant
                    j <= types.len(),
                    types@.len() == rs.len(),
                    forall|i: int| 0 <= i < rs.len() ==> #[trigger] types@[i] == resolved_type(rs[i]),
                    views(names@) == sorted_texts(rich_texts(rs).take(j as int)),
                decreases types.len() - j,
            {
                let t = rich_text(&types[j]);
                insert_sorted(&mut names, t.as_str());
                assert(rich_texts(rs).take(j + 1).drop_last() =~= rich_texts(rs).take(j as int));
                j = j + 1;
            }
            assert(rich_texts(rs).take(rs.len() as int) =~= rich_texts(rs));
            ScopePath::Ambiguous { types: names }
        }
    }
}

proof fn lemma_admitted_prefix(all: Seq<EntityTypeName>, c: Option<ScopeConstraint>, i: int)
    requires
        0 <= i < all.len(),
    ensures
        admitted_types(all.take(i + 1), c) == if admitted(all[i], c) {
            admitted_types(all.take(i), c).push(all[i])
        } else {
            admitted_types(all.take(i), c)
        },
{
    assert(all.take(i + 1).drop_last() =~= all.take(i));
}

proof fn lemma_admitted_concat(a: Seq<EntityTypeName>, b: Seq<EntityTypeName>, c: Option<ScopeConstraint>)
    ensures
        admitted_types(a + b, c) == admitted_types(a, c) + admitted_types(b, c),
    decreases b.len(),
{
    if b.len() == 0 {
        assert(a + b =~= a);
        assert(admitted_types(a, c) + admitted_types(b, c) =~= admitted_types(a, c));
    } else {
        lemma_admitted_concat(a, b.drop_last(), c);
        assert((a + b).drop_last() =~= a + b.drop_last());
        assert((a + b).last() == b.last());
        if admitted(b.last(), c) {
            assert(admitted_types(a, c) + admitted_types(b.drop_last(), c).push(b.last())
                =~= (admitted_types(a, c) + admitted_types(b.drop_last(), c)).push(b.last()));
        }
    }
}

proof fn lemma_rich_equiv_refl(a: RichType)
    ensures
        rich_equiv(a, a),
    decreases a,
{
    match a {
        RichType::Array(ArrayElem::Of(x)) => lemma_rich_equiv_refl(*x),
        _ => {},
    }
}

proof fn lemma_first_failure_at(rs: Seq<PathResolution>, k: int)
    requires
        0 <= k < rs.len(),
        first_failure(rs.take(k)) is None,
        is_failure(rs[k]),
    ensures
        first_failure(rs) == Some(k),
{
    lemma_first_failure_prefix(rs, k + 1);
    assert(rs.take(k + 1).drop_last() =~= rs.take(k));
}

proof fn lemma_first_failure_prefix(rs: Seq<PathResolution>, n: int)
    requires
        0 <= n <= rs.len(),
        first_failure(rs.take(n)) is Some,
    ensures
        first_failure(rs) == first_failure(rs.take(n)),
    decreases rs.len() - n,
{
    if n < rs.len() {
        assert(rs.take(n + 1).drop_last() =~= rs.take(n));
        lemma_first_failure_prefix(rs, n + 1);
    } else {
        assert(rs.take(n) =~= rs);
    }
}

impl SchemaInfo {
    /// The declaration of the entity type `t`, if declared.
    pub fn entity_decl<'a>(&'a self, t: &EntityTypeName) -> (r: Option<&'a EntityTypeDecl>)
        ensures
            match r {
                Some(d) => decl_index(self.entity_types@, *t) matches Some(i) && *d == self.entity_types@[i],
                None => decl_index(self.entity_types@, *t) is None,
            },
    {
        proof {
            lemma_decl_index(self.entity_types@, *t);
        }
        let mut i: usize = 0;
        while i < self.entity_types.len()
            invariant
                i <= self.entity_types.len(),
                forall|j: int| 0 <= j < i ==> !same_name((#[trigger] self.entity_types@[j]).name, *t),
                match decl_index(self.entity_types@, *t) {
                    Some(k) => 0 <= k < self.entity_types@.len() && same_name(self.entity_types@[k].name, *t)
                        && forall|j: int| 0 <= j < k ==> !same_name((#[trigger] self.entity_types@[j]).name, *t),
                    None => forall|j: int|
                        0 <= j < self.entity_types@.len() ==> !same_name((#[trigger] self.entity_types@[j]).name, *t),
                },
            decreases self.entity_types.len() - i,
        {
            if names_equal(&self.entity_types[i].name, t) {
                proof {
                    match decl_index(self.entity_types@, *t) {
                        Some(k) => {
                            if k < i {
                                assert(!same_name(self.entity_types@[k].name, *t));
                            }
                            if k > i {
                                assert(!same_name(self.entity_types@[i as int].name, *t));
                            }
                        },
                        None => {
                            assert(!same_name(self.entity_types@[i as int].name, *t));
                        },
                    }
                }
                return Some(&self.entity_types[i]);
            }
            i = i + 1;
        }
        None
    }
}

impl<'a> EntityTypeHandle<'a> {
    /// The permitted ids, escaped, if this is an enum entity type; `None` for
    /// a standard entity type.
    pub fn enum_eids(&self) -> (r: Option<Vec<String>>)
        ensures
            match r {
                Some(v) => self.ety.kind matches EntityTypeKind::Enum(eids) && views(v@) == Seq::new(
                    eids@.len(),
                    |i: int| escaped_eid_text(eids@[i]@),
                ),
                None => self.ety.kind is Standard,
            },
    {
        match &self.ety.kind {
            EntityTypeKind::Enum(eids) => {
                let mut out: Vec<String> = Vec::new();
                let mut i: usize = 0;
                while i < eids.len()
                    invariant
                        i <= eids.len(),
                        out.len() == i,
                        forall|j: int| 0 <= j < i ==> #[trigger] out@[j]@ == escaped_eid_text(eids@[j]@),
                    decreases eids.len() - i,
                {
                    out.push(escaped_eid(eids[i].as_str()));
                    i = i + 1;
                }
                assert(views(out@) =~= Seq::new(eids@.len(), |i: int| escaped_eid_text(eids@[i]@)));
                Some(out)
            },
            EntityTypeKind::Standard(_) => None,
        }
    }
}

} // verus!
