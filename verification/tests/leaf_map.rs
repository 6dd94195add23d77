//! The decision leaf map: which temporal leaves each request action reads.

use std::collections::BTreeSet;
use std::str::FromStr;

use cedar_policy::Schema;
use dogwood_language::api::{ActionRef, ActionScope, TemporalField};
use dogwood_language::leaf_map::{
    event_action_uid, qualified_action_uid, target_action_uid, DecisionLeafMap,
};

const SCHEMA: &str = r#"
namespace Test {
  entity User;
  entity Doc;
  action "Admin";
  action "Read" appliesTo { principal: [User], resource: [Doc] };
  action "Delete" in [Action::"Admin"] appliesTo { principal: [User], resource: [Doc] };
}
"#;

fn schema() -> Schema {
    Schema::from_str(SCHEMA).expect("the fixture schema builds")
}

fn path(segments: &[&str]) -> Vec<String> {
    segments.iter().map(|s| s.to_string()).collect()
}

fn action_ref(namespace: Option<&str>, id: &str) -> ActionRef {
    ActionRef { namespace: namespace.map(str::to_string), id: id.to_string() }
}

fn key(path_segments: &[&str], id: &str) -> Option<(String, String)> {
    event_action_uid(&path(path_segments), id).map(|u| (u.ty, u.eid))
}

/// The leaves a `Test::Action::"<id>"` decision reads, as a set.
fn needed(map: &DecisionLeafMap, id: &str) -> Option<BTreeSet<String>> {
    map.needed_for(&path(&["Test", "Action"]), id).map(|v| v.into_iter().collect())
}

fn set(ids: &[&str]) -> BTreeSet<String> {
    ids.iter().map(|s| s.to_string()).collect()
}

fn unresolved(map: &DecisionLeafMap) -> Vec<(String, String)> {
    map.unresolved().iter().map(|(id, why)| (id.clone(), why.to_string())).collect()
}

#[test]
fn the_event_derived_uid_is_the_request_derived_uid() {
    let cases: [(&[&str], &str, &str, &str); 6] = [
        (&["Test", "Action"], "Read", "Test::Action", "Read"),
        (&["Test", "Action"], "Read::Archive", "Test::Action", "Read::Archive"),
        (&["Test", "Action"], r#"say "hi""#, "Test::Action", r#"say "hi""#),
        (&["Action"], "Read", "Action", "Read"),
        (&[], "Read", "Action", "Read"),
        (&["A", "B", "Action"], "Read::Archive", "A::B::Action", "Read::Archive"),
    ];
    for (p, id, ty, eid) in cases {
        assert_eq!(key(p, id), Some((ty.to_string(), eid.to_string())), "event {p:?}::{id:?}");
    }
    assert_eq!(
        qualified_action_uid(&path(&["Test", "Action"]), r#"say "hi""#),
        r#"Test::Action::"say \"hi\"""#
    );
}

#[test]
fn distinct_actions_key_distinctly() {
    let keys = [
        key(&["Test", "Action"], "Read"),
        key(&["Test", "Action"], "Read::Archive"),
        key(&["Other", "Action"], "Read"),
        key(&[], "Read"),
    ];
    for (i, a) in keys.iter().enumerate() {
        for b in &keys[i + 1..] {
            assert_ne!(a, b, "distinct actions must not collide");
        }
    }
}

#[test]
fn an_unnamespaced_action_keys_identically_from_every_source() {
    let want = Some(("Action".to_string(), "Read".to_string()));
    assert_eq!(key(&[], "Read"), want);
    assert_eq!(key(&["Action"], "Read"), want);
    assert_eq!(target_action_uid(&action_ref(None, "Read")).map(|u| (u.ty, u.eid)), want);
}

#[test]
fn a_scope_target_keys_as_the_schema_declares_it_even_for_awkward_ids() {
    const AWKWARD: &str = r#"
namespace Test {
  entity User;
  entity Doc;
  action "Read::Archive" appliesTo { principal: [User], resource: [Doc] };
  action "say \"hi\"" appliesTo { principal: [User], resource: [Doc] };
}
"#;
    let seeded = DecisionLeafMap::seeded(&Schema::from_str(AWKWARD).expect("the schema builds"));
    for id in ["Read::Archive", r#"say "hi""#] {
        let uid = target_action_uid(&action_ref(Some("Test"), id))
            .unwrap_or_else(|| panic!("the scope target {id:?} renders a parseable uid"));
        assert_eq!(uid.eid, id);
        assert_eq!(
            needed(&seeded, id),
            Some(BTreeSet::new()),
            "the key derived for scope target {id:?} must be the one the schema declares"
        );
    }
}

#[test]
fn a_scope_target_with_no_parseable_uid_is_needed_by_every_action() {
    let target = action_ref(Some("1Bad"), "Read");
    assert!(target_action_uid(&target).is_none(), "the fixture must really be unparseable");

    let mut map = DecisionLeafMap::seeded(&schema());
    map.add_leaf(
        "leaf_unparseable",
        &ActionScope::Concrete(action_ref(Some("1Bad"), "Read")),
        &[target],
    );
    map.fold_always();

    for id in ["Read", "Delete"] {
        assert!(needed(&map, id).unwrap().contains("leaf_unparseable"), "computed for {id} too");
    }
    assert_eq!(
        unresolved(&map),
        vec![(
            "leaf_unparseable".to_string(),
            "an action in the scope has no uid Cedar can parse".to_string()
        )]
    );
}

#[test]
fn seeding_covers_every_declared_action_except_the_groups() {
    let map = DecisionLeafMap::seeded(&schema());
    assert_eq!(needed(&map, "Read"), Some(BTreeSet::new()));
    assert_eq!(needed(&map, "Delete"), Some(BTreeSet::new()));
    assert_eq!(needed(&map, "Admin"), None, "an action group must not be keyed");
    assert_eq!(map.entry_count(), 2, "Read and Delete, not Admin");
}

#[test]
fn a_resolved_scope_keys_its_leaf_under_exactly_its_actions() {
    let mut map = DecisionLeafMap::seeded(&schema());
    map.add_leaf(
        "leaf_read",
        &ActionScope::Concrete(action_ref(Some("Test"), "Read")),
        &[action_ref(Some("Test"), "Read")],
    );
    map.fold_always();
    assert_eq!(needed(&map, "Read"), Some(set(&["leaf_read"])));
    assert_eq!(needed(&map, "Delete"), Some(BTreeSet::new()));
    assert!(map.unresolved().is_empty());
}

#[test]
fn every_element_of_a_list_scope_keys_the_leaf() {
    let targets = [action_ref(Some("Test"), "Read"), action_ref(Some("Test"), "Delete")];
    let mut map = DecisionLeafMap::seeded(&schema());
    map.add_leaf(
        "leaf_both",
        &ActionScope::List(vec![action_ref(Some("Test"), "Read"), action_ref(Some("Test"), "Delete")]),
        &targets,
    );
    map.fold_always();
    for id in ["Read", "Delete"] {
        assert!(needed(&map, id).unwrap().contains("leaf_both"), "{id} is in the list scope");
    }
}

#[test]
fn an_unconstrained_scope_is_needed_by_every_action() {
    let mut map = DecisionLeafMap::seeded(&schema());
    map.add_leaf("leaf_any", &ActionScope::Unconstrained, &[action_ref(Some("Test"), "Read")]);
    map.fold_always();
    for id in ["Read", "Delete"] {
        assert!(needed(&map, id).unwrap().contains("leaf_any"), "a bare `action` scope applies to {id}");
    }
    assert_eq!(
        unresolved(&map),
        vec![(
            "leaf_any".to_string(),
            "bare `action` scope: the rule applies to every action".to_string()
        )]
    );
}

#[test]
fn a_scope_that_resolves_to_nothing_is_needed_by_every_action() {
    let mut map = DecisionLeafMap::seeded(&schema());
    map.add_leaf("leaf_unknown", &ActionScope::List(Vec::new()), &[]);
    map.fold_always();
    for id in ["Read", "Delete"] {
        assert!(needed(&map, id).unwrap().contains("leaf_unknown"));
    }
    assert_eq!(
        unresolved(&map),
        vec![(
            "leaf_unknown".to_string(),
            "the action scope resolved to no concrete action".to_string()
        )]
    );
}

#[test]
fn an_action_the_map_cannot_answer_for_yields_no_leaf_set() {
    let map = DecisionLeafMap::build(&[], &schema());
    assert!(needed(&map, "Undeclared").is_none(), "an undeclared action falls back");
    assert!(needed(&map, "Admin").is_none(), "an action group falls back");
    assert!(needed(&map, "Read").is_some(), "a declared action must not fall back");
    assert!(needed(&DecisionLeafMap::default(), "Read").is_none(), "an unbuilt map slices nothing");
}

#[test]
fn an_undeclared_target_action_gets_its_own_complete_entry() {
    let mut map = DecisionLeafMap::seeded(&schema());
    map.add_leaf(
        "leaf_ghost",
        &ActionScope::Concrete(action_ref(Some("Test"), "Ghost")),
        &[action_ref(Some("Test"), "Ghost")],
    );
    map.add_leaf("leaf_any", &ActionScope::Unconstrained, &[]);
    map.fold_always();
    let ghost = needed(&map, "Ghost").expect("the ghost action has an entry");
    assert!(ghost.contains("leaf_ghost"));
    assert!(ghost.contains("leaf_any"), "widened leaves are folded into every entry");
}

// ─── end to end over a schema with an action group ────────────────────────

const DRUPE: &str = r#"
namespace Drupe {
  type Input = { user: String };
  entity Gateway;
  entity OAuthUser;
  action "Admin";
  action "Login" appliesTo {
    principal: [OAuthUser], resource: [Gateway], context: { input: Input }
  };
  action "Logout" appliesTo {
    principal: [OAuthUser], resource: [Gateway], context: { input: Input }
  };
  action "Purge" in [Action::"Admin"] appliesTo {
    principal: [OAuthUser], resource: [Gateway], context: { input: Input }
  };
}
"#;

/// The two hoisted leaves of `action == Login` and `action in [Admin]`, the
/// group scope expanded to its member `Purge`.
fn drupe_map() -> DecisionLeafMap {
    let leaves = vec![
        TemporalField {
            id: "login_leaf".to_string(),
            action: ActionScope::Concrete(action_ref(Some("Drupe"), "Login")),
            target_actions: vec![action_ref(Some("Drupe"), "Login")],
        },
        TemporalField {
            id: "admin_leaf".to_string(),
            action: ActionScope::List(vec![action_ref(Some("Drupe"), "Admin")]),
            target_actions: vec![action_ref(Some("Drupe"), "Purge")],
        },
    ];
    DecisionLeafMap::build(&leaves, &Schema::from_str(DRUPE).expect("the fixture schema builds"))
}

fn drupe_needed(map: &DecisionLeafMap, id: &str) -> Option<BTreeSet<String>> {
    map.needed_for(&path(&["Drupe", "Action"]), id).map(|v| v.into_iter().collect())
}

#[test]
fn each_action_reads_exactly_the_leaves_of_the_rules_it_can_match() {
    let map = drupe_map();
    assert_eq!(drupe_needed(&map, "Login"), Some(set(&["login_leaf"])));
    assert_eq!(drupe_needed(&map, "Purge"), Some(set(&["admin_leaf"])));
    assert_eq!(drupe_needed(&map, "Logout"), Some(BTreeSet::new()));
    assert!(map.unresolved().is_empty());
}

#[test]
fn an_action_the_map_cannot_answer_for_falls_back() {
    let map = drupe_map();
    assert_eq!(drupe_needed(&map, "Undeclared"), None);
    assert_eq!(drupe_needed(&map, "Admin"), None, "a pure action group");
    assert_eq!(map.entry_count(), 3, "Login, Logout and Purge, not the Admin group");
}

// ─── further cases ────────────────────────────────────────────────────────

#[test]
fn expansion_reports_each_reason_and_keys_every_target() {
    assert_eq!(
        DecisionLeafMap::expansion(&ActionScope::Unconstrained, &[]).err(),
        Some("bare `action` scope: the rule applies to every action")
    );
    assert_eq!(
        DecisionLeafMap::expansion(&ActionScope::List(vec![]), &[]).err(),
        Some("the action scope resolved to no concrete action")
    );
    let targets = [action_ref(Some("Test"), "Read"), action_ref(Some("1Bad"), "Read")];
    assert_eq!(
        DecisionLeafMap::expansion(&ActionScope::List(vec![]), &targets).err(),
        Some("an action in the scope has no uid Cedar can parse")
    );
    let ok = DecisionLeafMap::expansion(
        &ActionScope::Concrete(action_ref(Some("Test"), "Read")),
        &[action_ref(Some("Test"), "Read"), action_ref(None, "x")],
    )
    .expect("both targets parse");
    let keys: Vec<(String, String)> = ok.into_iter().map(|u| (u.ty, u.eid)).collect();
    assert_eq!(
        keys,
        vec![
            ("Test::Action".to_string(), "Read".to_string()),
            ("Action".to_string(), "x".to_string())
        ]
    );
}

#[test]
fn a_leaf_added_twice_is_named_once() {
    let mut map = DecisionLeafMap::seeded(&schema());
    let read = [action_ref(Some("Test"), "Read")];
    map.add_leaf("leaf", &ActionScope::Concrete(action_ref(Some("Test"), "Read")), &read);
    map.add_leaf("leaf", &ActionScope::Concrete(action_ref(Some("Test"), "Read")), &read);
    map.add_leaf("wide", &ActionScope::Unconstrained, &[]);
    map.add_leaf("wide", &ActionScope::Unconstrained, &[]);
    map.fold_always();
    let got = map.needed_for(&path(&["Test", "Action"]), "Read").unwrap();
    assert_eq!(got.len(), 2, "no id is listed twice: {got:?}");
    assert_eq!(got.into_iter().collect::<BTreeSet<_>>(), set(&["leaf", "wide"]));
    assert_eq!(unresolved(&map).len(), 2, "each widening is reported");
}

#[test]
fn an_unparseable_request_action_falls_back() {
    let map = DecisionLeafMap::seeded(&schema());
    assert!(map.needed_for(&path(&["1Bad", "Action"]), "Read").is_none());
}

#[test]
fn needed_leaves_come_in_id_order() {
    let mut map = DecisionLeafMap::seeded(&schema());
    let read = [action_ref(Some("Test"), "Read")];
    map.add_leaf("zeta", &ActionScope::Concrete(action_ref(Some("Test"), "Read")), &read);
    map.add_leaf("alpha", &ActionScope::Concrete(action_ref(Some("Test"), "Read")), &read);
    map.add_leaf("mid", &ActionScope::Unconstrained, &[]);
    map.fold_always();
    let got = map.needed_for(&path(&["Test", "Action"]), "Read").unwrap();
    assert_eq!(got, vec!["alpha".to_string(), "mid".to_string(), "zeta".to_string()]);
}

#[test]
fn leaves_agreeing_on_id_and_scope_build_the_same_map() {
    let make = || {
        vec![
            TemporalField {
                id: "login_leaf".to_string(),
                action: ActionScope::Concrete(action_ref(Some("Drupe"), "Login")),
                target_actions: vec![action_ref(Some("Drupe"), "Login")],
            },
            TemporalField { id: "wide".to_string(), action: ActionScope::Unconstrained, target_actions: vec![] },
        ]
    };
    let schema = Schema::from_str(DRUPE).expect("the fixture schema builds");
    let a = DecisionLeafMap::build(&make(), &schema);
    let b = DecisionLeafMap::build(&make(), &schema);
    for id in ["Login", "Purge", "Admin", "Nope"] {
        assert_eq!(drupe_needed(&a, id), drupe_needed(&b, id), "{id}");
    }
    assert_eq!(a.entry_count(), b.entry_count());
    assert_eq!(unresolved(&a), unresolved(&b));
    assert_eq!(unresolved(&a).len(), 1);
}
