//! Precomputed answers to which temporal leaves a decision can read.
//!
//! A backend builds a [`DecisionLeafMap`] once and asks
//! [`DecisionLeafMap::needed_for`] for each decision:
//!
//! - `Some(ids)` names every leaf that decision can read; other installed
//!   leaves may be bound `false` without changing the decision.
//! - `None` means the map has no answer, so every leaf must be computed. An
//!   empty set, not `None`, means no leaf is needed.
//!
//! Leaves are indexed by request action, through the concrete actions their
//! rule's scope expands to. A scope that is unconstrained or cannot be
//! resolved widens its leaf to every action; an action the map has no entry
//! for falls back to `None`. Action keys are Cedar entity uids, parsed from
//! the same text form for scope targets and for request actions.

use vstd::prelude::*;
use crate::api::{ActionRef, ActionScope, TemporalField};
use crate::ast::EntityUid;
use crate::cedar::{escaped_eid, escaped_eid_text};
use crate::provider::{action_display, action_display_text};
use crate::text::{
    ascending, insert_sorted, join, join_text, lemma_insert_text, str_eq, string_of, views,
};

verus! {

/// An action key: the uid's entity type (as Cedar displays it) and raw id.
pub open spec fn key_of(u: EntityUid) -> (Seq<char>, Seq<char>) {
    (u.ty@, u.eid@)
}

/// The entity type (as Cedar displays it) and raw id of the uid that
/// `cedar_policy::EntityUid::from_str` parses from `text`, or `None` when it
/// fails.
pub uninterp spec fn normalized_entity_uid(text: Seq<char>) -> Option<(Seq<char>, Seq<char>)>;

#[verifier::external_type_specification]
#[verifier::external_body]
pub struct ExSchema(cedar_policy::Schema);

/// `cedar_policy::EntityUid::from_str(text)`, giving back the uid's type name
/// (its `Display`) and its raw id. The contract claims only that the
/// outcome is the named function of `text`.
#[verifier::external_body]
fn parse_action_uid(text: &str) -> (r: Option<EntityUid>)
    ensures
        match r {
            Some(u) => normalized_entity_uid(text@) == Some(key_of(u)),
            None => normalized_entity_uid(text@) is None,
        },
{
    match <cedar_policy::EntityUid as std::str::FromStr>::from_str(text) {
        Ok(uid) => {
            let core: cedar_policy_core::ast::EntityUID = uid.into();
            Some(EntityUid { ty: core.entity_type().to_string(), eid: core.eid().as_ref().to_string() })
        },
        Err(_) => None,
    }
}

/// The keys of the actions a schema declares.
pub uninterp spec fn schema_action_keys(schema: cedar_policy::Schema) -> Set<(Seq<char>, Seq<char>)>;

/// The keys of the actions a schema declares that have member actions.
pub uninterp spec fn schema_group_keys(schema: cedar_policy::Schema) -> Set<(Seq<char>, Seq<char>)>;

/// `cedar_policy::Schema::actions`: every declared action's uid, as its type
/// name and raw id. The schema holds its actions in a hash map, so the order
/// is left open; the contract claims only that the keys, as a set, are the
/// named function of the schema.
#[verifier::external_body]
fn schema_actions(schema: &cedar_policy::Schema) -> (r: Vec<EntityUid>)
    ensures
        keys_of(r@).to_set() == schema_action_keys(*schema),
{
    let mut out = Vec::new();
    for uid in schema.actions() {
        let core: cedar_policy_core::ast::EntityUID = uid.clone().into();
        out.push(EntityUid { ty: core.entity_type().to_string(), eid: core.eid().as_ref().to_string() });
    }
    out
}

/// `cedar_policy::Schema::action_groups`: the uid of every declared action
/// that has member actions. As for [`schema_actions`], only the set of keys
/// is claimed, as the named function of the schema.
#[verifier::external_body]
fn schema_action_groups(schema: &cedar_policy::Schema) -> (r: Vec<EntityUid>)
    ensures
        keys_of(r@).to_set() == schema_group_keys(*schema),
{
    let mut out = Vec::new();
    for uid in schema.action_groups() {
        let core: cedar_policy_core::ast::EntityUID = uid.clone().into();
        out.push(EntityUid { ty: core.entity_type().to_string(), eid: core.eid().as_ref().to_string() });
    }
    out
}

// ─── action keys ──────────────────────────────────────────────────────────

/// The uid text of a request action: its namespace path joined with `::`
/// (bare `Action` when the path is empty), `::`, and the escaped id in double
/// quotes.
pub open spec fn qualified_action_uid_text(path: Seq<Seq<char>>, id: Seq<char>) -> Seq<char> {
    (if path.len() == 0 {
        "Action"@
    } else {
        join_text(path, "::"@)
    }) + "::\""@ + escaped_eid_text(id) + "\""@
}

/// The uid text of a request action with namespace path `path` and id `id`.
pub fn qualified_action_uid(path: &[String], id: &str) -> (r: String)
    ensures
        r@ == qualified_action_uid_text(views(path@), id@),
{
    let mut out = if path.len() == 0 {
        string_of("Action")
    } else {
        join(path, "::")
    };
    out.append("::\"");
    out.append(escaped_eid(id).as_str());
    out.append("\"");
    out
}

/// The key of a request action, if its uid text parses.
pub fn event_action_uid(path: &[String], id: &str) -> (r: Option<EntityUid>)
    ensures
        match r {
            Some(u) => normalized_entity_uid(qualified_action_uid_text(views(path@), id@)) == Some(
                key_of(u),
            ),
            None => normalized_entity_uid(qualified_action_uid_text(views(path@), id@)) is None,
        },
{
    let text = qualified_action_uid(path, id);
    parse_action_uid(text.as_str())
}

/// The key of a scope target, if its uid text parses.
pub fn target_action_uid(action: &ActionRef) -> (r: Option<EntityUid>)
    ensures
        match r {
            Some(u) => normalized_entity_uid(action_display_text(*action)) == Some(key_of(u)),
            None => normalized_entity_uid(action_display_text(*action)) is None,
        },
{
    let text = action_display(action);
    parse_action_uid(text.as_str())
}

// ─── scope expansion ──────────────────────────────────────────────────────

/// The parsed key of a scope target (meaningful when it parses).
pub open spec fn target_key(action: ActionRef) -> (Seq<char>, Seq<char>) {
    match normalized_entity_uid(action_display_text(action)) {
        Some(k) => k,
        None => (Seq::empty(), Seq::empty()),
    }
}

/// The action keys a leaf is indexed under, or why it is widened to every
/// action: a bare `action` scope, a scope that expanded to no action, or a
/// target with no uid Cedar can parse.
pub open spec fn expansion_spec(scope: ActionScope, targets: Seq<ActionRef>) -> Result<Seq<(Seq<char>, Seq<char>)>, Seq<char>> {
    if scope is Unconstrained {
        Err("bare `action` scope: the rule applies to every action"@)
    } else if targets.len() == 0 {
        Err("the action scope resolved to no concrete action"@)
    } else if exists|i: int|
        0 <= i < targets.len() && normalized_entity_uid(action_display_text(#[trigger] targets[i]))
            is None {
        Err("an action in the scope has no uid Cedar can parse"@)
    } else {
        Ok(Seq::new(targets.len(), |i: int| target_key(targets[i])))
    }
}

/// The keys of a list of uids.
pub open spec fn keys_of(v: Seq<EntityUid>) -> Seq<(Seq<char>, Seq<char>)> {
    Seq::new(v.len(), |i: int| key_of(v[i]))
}

// ─── the map ──────────────────────────────────────────────────────────────

/// The ids of a list of strings, as a set.
pub open spec fn id_set(s: Seq<String>) -> Set<Seq<char>> {
    Set::new(|x: Seq<char>| exists|i: int| 0 <= i < s.len() && s[i]@ == x)
}

/// The ids are in ascending order, each once.
pub open spec fn sorted_ids(s: Seq<String>) -> bool {
    ascending(views(s))
}

proof fn lemma_id_set_views(s: Seq<String>)
    ensures
        id_set(s) == views(s).to_set(),
{
    assert forall|x: Seq<char>| id_set(s).contains(x) <==> views(s).to_set().contains(x) by {
        if id_set(s).contains(x) {
            let i = choose|i: int| 0 <= i < s.len() && s[i]@ == x;
            assert(views(s)[i] == x);
        }
        if views(s).contains(x) {
            let i = choose|i: int| 0 <= i < views(s).len() && views(s)[i] == x;
            assert(s[i]@ == x);
        }
    }
    assert(id_set(s) =~= views(s).to_set());
}

/// No action key occurs twice.
pub open spec fn distinct_keys(v: Seq<(EntityUid, Vec<String>)>) -> bool {
    forall|i: int, j: int| 0 <= i < j < v.len() ==> key_of(v[i].0) != key_of(v[j].0)
}

/// The keys of the entries, in order.
pub open spec fn entry_keys(v: Seq<(EntityUid, Vec<String>)>) -> Seq<(Seq<char>, Seq<char>)> {
    Seq::new(v.len(), |i: int| key_of(v[i].0))
}

/// The entries as a map from action key to the set of leaf ids.
pub open spec fn entries_of(v: Seq<(EntityUid, Vec<String>)>) -> Map<(Seq<char>, Seq<char>), Set<Seq<char>>> {
    Map::new(
        |k: (Seq<char>, Seq<char>)| exists|i: int| 0 <= i < v.len() && key_of(v[i].0) == k,
        |k: (Seq<char>, Seq<char>)|
            id_set(v[choose|i: int| 0 <= i < v.len() && key_of(v[i].0) == k].1@),
    )
}

proof fn lemma_entry_at(v: Seq<(EntityUid, Vec<String>)>, i: int)
    requires
        distinct_keys(v),
        0 <= i < v.len(),
    ensures
        entries_of(v).contains_key(key_of(v[i].0)),
        entries_of(v)[key_of(v[i].0)] == id_set(v[i].1@),
{
    let k = key_of(v[i].0);
    assert(0 <= i < v.len() && key_of(v[i].0) == k);
    let j = choose|j: int| 0 <= j < v.len() && key_of(v[j].0) == k;
    if j != i {
        if j < i {
            assert(key_of(v[j].0) != key_of(v[i].0));
        } else {
            assert(key_of(v[i].0) != key_of(v[j].0));
        }
    }
}

/// Precomputed temporal leaves needed by a decision. A map made by
/// [`Default`] has no answers: every lookup returns `None`.
pub struct DecisionLeafMap {
    by_action: Vec<(EntityUid, Vec<String>)>,
    always: Vec<String>,
    unresolved: Vec<(String, &'static str)>,
}

impl DecisionLeafMap {
    /// Each action key is held once, each entry's ids and the widened ids are
    /// held once.
    pub closed spec fn wf(&self) -> bool {
        &&& distinct_keys(self.by_action@)
        &&& forall|i: int| 0 <= i < self.by_action@.len() ==> sorted_ids(#[trigger] self.by_action@[i].1@)
        &&& sorted_ids(self.always@)
    }

    /// The leaves each answered action needs.
    pub closed spec fn entries(&self) -> Map<(Seq<char>, Seq<char>), Set<Seq<char>>> {
        entries_of(self.by_action@)
    }

    /// The leaves widened to every action.
    pub closed spec fn always_ids(&self) -> Set<Seq<char>> {
        id_set(self.always@)
    }

    /// The widened leaves and the reason for each widening, in order.
    pub closed spec fn unresolved_view(&self) -> Seq<(Seq<char>, Seq<char>)> {
        Seq::new(self.unresolved@.len(), |i: int| (self.unresolved@[i].0@, self.unresolved@[i].1@))
    }
}

/// Adds `id` to an ascending list of ids.
fn insert_id(set: &mut Vec<String>, id: &str)
    requires
        sorted_ids(old(set)@),
    ensures
        sorted_ids(final(set)@),
        id_set(final(set)@) == id_set(old(set)@).insert(id@),
{
    insert_sorted(set, id);
    proof {
        lemma_insert_text(views(old(set)@), id@);
        lemma_id_set_views(old(set)@);
        lemma_id_set_views(set@);
    }
}

/// The index of the entry keyed `k`, if any.
fn find_key(v: &Vec<(EntityUid, Vec<String>)>, k: &EntityUid) -> (r: Option<usize>)
    ensures
        match r {
            Some(i) => i < v@.len() && key_of(v@[i as int].0) == key_of(*k),
            None => forall|i: int| 0 <= i < v@.len() ==> key_of(v@[i].0) != key_of(*k),
        },
{
    let mut i: usize = 0;
    while i < v.len()
        invariant
            i <= v@.len(),
            forall|j: int| 0 <= j < i ==> key_of(#[trigger] v@[j].0) != key_of(*k),
        decreases v.len() - i,
    {
        if str_eq(v[i].0.ty.as_str(), k.ty.as_str()) && str_eq(v[i].0.eid.as_str(), k.eid.as_str()) {
            return Some(i);
        }
        i = i + 1;
    }
    None
}

/// A copy of a uid.
fn copy_uid(u: &EntityUid) -> (r: EntityUid)
    ensures
        key_of(r) == key_of(*u),
{
    EntityUid { ty: string_of(u.ty.as_str()), eid: string_of(u.eid.as_str()) }
}

/// A copy of a list of ids.
fn copy_ids(s: &Vec<String>) -> (r: Vec<String>)
    ensures
        views(r@) == views(s@),
        sorted_ids(s@) ==> sorted_ids(r@),
        id_set(r@) == id_set(s@),
{
    let mut out: Vec<String> = Vec::new();
    let mut i: usize = 0;
    while i < s.len()
        invariant
            i <= s@.len(),
            out@.len() == i,
            forall|j: int| 0 <= j < i ==> #[trigger] out@[j]@ == s@[j]@,
        decreases s.len() - i,
    {
        out.push(string_of(s[i].as_str()));
        i = i + 1;
    }
    assert(views(out@) =~= views(s@));
    assert(id_set(out@) =~= id_set(s@)) by {
        assert forall|x: Seq<char>| id_set(out@).contains(x) implies id_set(s@).contains(x) by {
            let j = choose|j: int| 0 <= j < out@.len() && out@[j]@ == x;
            assert(s@[j]@ == x);
        }
        assert forall|x: Seq<char>| id_set(s@).contains(x) implies id_set(out@).contains(x) by {
            let j = choose|j: int| 0 <= j < s@.len() && s@[j]@ == x;
            assert(out@[j]@ == x);
        }
    }
    out
}

proof fn lemma_entries_update(v: Seq<(EntityUid, Vec<String>)>, i: int, e: (EntityUid, Vec<String>))
    requires
        distinct_keys(v),
        0 <= i < v.len(),
        key_of(e.0) == key_of(v[i].0),
    ensures
        distinct_keys(v.update(i, e)),
        entries_of(v.update(i, e)) == entries_of(v).insert(key_of(e.0), id_set(e.1@)),
{
    let w = v.update(i, e);
    let k0 = key_of(e.0);
    assert forall|a: int, b: int| 0 <= a < b < w.len() implies key_of(w[a].0) != key_of(w[b].0) by {
        assert(key_of(w[a].0) == key_of(v[a].0));
        assert(key_of(w[b].0) == key_of(v[b].0));
    }
    let m = entries_of(v).insert(k0, id_set(e.1@));
    assert forall|k: (Seq<char>, Seq<char>)| entries_of(w).contains_key(k) <==> m.contains_key(k) by {
        if entries_of(w).contains_key(k) {
            let j = choose|j: int| 0 <= j < w.len() && key_of(w[j].0) == k;
            assert(key_of(v[j].0) == k);
        }
        if m.contains_key(k) && k != k0 {
            let j = choose|j: int| 0 <= j < v.len() && key_of(v[j].0) == k;
            assert(key_of(w[j].0) == k);
        }
        if k == k0 {
            assert(key_of(w[i].0) == k);
        }
    }
    assert forall|k: (Seq<char>, Seq<char>)| entries_of(w).contains_key(k) implies entries_of(w)[k] == m[k] by {
        let j = choose|j: int| 0 <= j < w.len() && key_of(w[j].0) == k;
        lemma_entry_at(w, j);
        if j != i {
            lemma_entry_at(v, j);
        }
    }
    assert(entries_of(w) =~= m);
}

proof fn lemma_entries_push(v: Seq<(EntityUid, Vec<String>)>, e: (EntityUid, Vec<String>))
    requires
        distinct_keys(v),
        forall|j: int| 0 <= j < v.len() ==> key_of(#[trigger] v[j].0) != key_of(e.0),
    ensures
        distinct_keys(v.push(e)),
        entries_of(v.push(e)) == entries_of(v).insert(key_of(e.0), id_set(e.1@)),
{
    let w = v.push(e);
    let k0 = key_of(e.0);
    let n = v.len() as int;
    assert forall|a: int, b: int| 0 <= a < b < w.len() implies key_of(w[a].0) != key_of(w[b].0) by {
        if b == n {
            assert(key_of(v[a].0) != k0);
        }
    }
    let m = entries_of(v).insert(k0, id_set(e.1@));
    assert forall|k: (Seq<char>, Seq<char>)| entries_of(w).contains_key(k) <==> m.contains_key(k) by {
        if entries_of(w).contains_key(k) {
            let j = choose|j: int| 0 <= j < w.len() && key_of(w[j].0) == k;
            if j < n {
                assert(key_of(v[j].0) == k);
            }
        }
        if m.contains_key(k) && k != k0 {
            let j = choose|j: int| 0 <= j < v.len() && key_of(v[j].0) == k;
            assert(key_of(w[j].0) == k);
        }
        if k == k0 {
            assert(key_of(w[n].0) == k);
        }
    }
    assert forall|k: (Seq<char>, Seq<char>)| entries_of(w).contains_key(k) implies entries_of(w)[k] == m[k] by {
        let j = choose|j: int| 0 <= j < w.len() && key_of(w[j].0) == k;
        lemma_entry_at(w, j);
        if j < n {
            lemma_entry_at(v, j);
        }
    }
    assert(entries_of(w) =~= m);
}

/// `m` with `id` added to the entry of each key of `ks`, each missing key
/// getting an entry of its own.
pub open spec fn add_keys(
    m: Map<(Seq<char>, Seq<char>), Set<Seq<char>>>,
    ks: Seq<(Seq<char>, Seq<char>)>,
    id: Seq<char>,
) -> Map<(Seq<char>, Seq<char>), Set<Seq<char>>> {
    Map::new(
        |k: (Seq<char>, Seq<char>)| m.contains_key(k) || ks.contains(k),
        |k: (Seq<char>, Seq<char>)|
            if ks.contains(k) {
                (if m.contains_key(k) {
                    m[k]
                } else {
                    Set::empty()
                }).insert(id)
            } else {
                m[k]
            },
    )
}

impl DecisionLeafMap {
    /// Add `id` to the entry keyed `k`, creating the entry when missing.
    fn add_to_key(&mut self, k: EntityUid, id: &str)
        requires
            old(self).wf(),
        ensures
            final(self).wf(),
            final(self).entries() == old(self).entries().insert(
                key_of(k),
                (if old(self).entries().contains_key(key_of(k)) {
                    old(self).entries()[key_of(k)]
                } else {
                    Set::empty()
                }).insert(id@),
            ),
            final(self).always_ids() == old(self).always_ids(),
            final(self).unresolved_view() == old(self).unresolved_view(),
    {
        match find_key(&self.by_action, &k) {
            Some(i) => {
                proof {
                    lemma_entry_at(self.by_action@, i as int);
                }
                let mut set = copy_ids(&self.by_action[i].1);
                insert_id(&mut set, id);
                let ghost e = (k, set);
                proof {
                    lemma_entries_update(self.by_action@, i as int, e);
                }
                self.by_action.set(i, (k, set));
                assert forall|j: int| 0 <= j < self.by_action@.len() implies sorted_ids(
                    #[trigger] self.by_action@[j].1@,
                ) by {
                    if j != i {
                        assert(self.by_action@[j] == old(self).by_action@[j]);
                    }
                }
            },
            None => {
                let mut set: Vec<String> = Vec::new();
                proof {
                    assert(id_set(set@) =~= Set::<Seq<char>>::empty());
                }
                insert_id(&mut set, id);
                let ghost e = (k, set);
                proof {
                    lemma_entries_push(self.by_action@, e);
                }
                self.by_action.push((k, set));
                assert forall|j: int| 0 <= j < self.by_action@.len() implies sorted_ids(
                    #[trigger] self.by_action@[j].1@,
                ) by {
                    if j < old(self).by_action@.len() {
                        assert(self.by_action@[j] == old(self).by_action@[j]);
                    }
                }
            },
        }
    }
}

/// The key `k` is a requestable action: declared, and not an action group.
pub open spec fn seed_key(
    actions: Set<(Seq<char>, Seq<char>)>,
    groups: Set<(Seq<char>, Seq<char>)>,
    k: (Seq<char>, Seq<char>),
) -> bool {
    actions.contains(k) && !groups.contains(k)
}

/// The key `k` is the key of one of `actions` and of none of `groups`.
pub open spec fn listed_requestable(actions: Seq<EntityUid>, groups: Seq<EntityUid>, k: (Seq<char>, Seq<char>)) -> bool {
    (exists|i: int| 0 <= i < actions.len() && key_of(actions[i]) == k) && forall|j: int|
        0 <= j < groups.len() ==> key_of(#[trigger] groups[j]) != k
}

proof fn lemma_listed_is_seed(actions: Seq<EntityUid>, groups: Seq<EntityUid>, k: (Seq<char>, Seq<char>))
    ensures
        listed_requestable(actions, groups, k) <==> seed_key(keys_of(actions).to_set(), keys_of(groups).to_set(), k),
{
    let ka = keys_of(actions);
    let kg = keys_of(groups);
    if ka.to_set().contains(k) {
        let i = choose|i: int| 0 <= i < ka.len() && ka[i] == k;
        assert(key_of(actions[i]) == k);
    }
    if exists|i: int| 0 <= i < actions.len() && key_of(actions[i]) == k {
        let i = choose|i: int| 0 <= i < actions.len() && key_of(actions[i]) == k;
        assert(ka[i] == k);
    }
    if kg.to_set().contains(k) {
        let j = choose|j: int| 0 <= j < kg.len() && kg[j] == k;
        assert(key_of(groups[j]) == k);
    }
    if exists|j: int| 0 <= j < groups.len() && key_of(groups[j]) == k {
        let j = choose|j: int| 0 <= j < groups.len() && key_of(groups[j]) == k;
        assert(kg[j] == k);
    }
}

/// Whether some uid of `v` has the key of `k`.
fn contains_uid(v: &[EntityUid], k: &EntityUid) -> (r: bool)
    ensures
        r == exists|i: int| 0 <= i < v@.len() && key_of(v@[i]) == key_of(*k),
{
    let mut i: usize = 0;
    while i < v.len()
        invariant
            i <= v@.len(),
            forall|j: int| 0 <= j < i ==> key_of(#[trigger] v@[j]) != key_of(*k),
        decreases v.len() - i,
    {
        if str_eq(v[i].ty.as_str(), k.ty.as_str()) && str_eq(v[i].eid.as_str(), k.eid.as_str()) {
            return true;
        }
        i = i + 1;
    }
    false
}

/// `m` with `extra` added to every entry.
pub open spec fn with_all(
    m: Map<(Seq<char>, Seq<char>), Set<Seq<char>>>,
    extra: Set<Seq<char>>,
) -> Map<(Seq<char>, Seq<char>), Set<Seq<char>>> {
    Map::new(|k: (Seq<char>, Seq<char>)| m.contains_key(k), |k: (Seq<char>, Seq<char>)| m[k].union(extra))
}

proof fn lemma_entries_union(v: Seq<(EntityUid, Vec<String>)>, w: Seq<(EntityUid, Vec<String>)>, extra: Set<Seq<char>>)
    requires
        distinct_keys(v),
        w.len() == v.len(),
        forall|j: int| 0 <= j < v.len() ==> key_of(#[trigger] w[j].0) == key_of(v[j].0),
        forall|j: int| 0 <= j < v.len() ==> id_set(#[trigger] w[j].1@) == id_set(v[j].1@).union(extra),
    ensures
        distinct_keys(w),
        entries_of(w) == with_all(entries_of(v), extra),
{
    assert forall|a: int, b: int| 0 <= a < b < w.len() implies key_of(w[a].0) != key_of(w[b].0) by {
        assert(key_of(w[a].0) == key_of(v[a].0));
        assert(key_of(w[b].0) == key_of(v[b].0));
    }
    let m = with_all(entries_of(v), extra);
    assert forall|k: (Seq<char>, Seq<char>)| entries_of(w).contains_key(k) <==> m.contains_key(k) by {
        if entries_of(w).contains_key(k) {
            let j = choose|j: int| 0 <= j < w.len() && key_of(w[j].0) == k;
            assert(key_of(v[j].0) == k);
        }
        if m.contains_key(k) {
            let j = choose|j: int| 0 <= j < v.len() && key_of(v[j].0) == k;
            assert(key_of(w[j].0) == k);
        }
    }
    assert forall|k: (Seq<char>, Seq<char>)| entries_of(w).contains_key(k) implies entries_of(w)[k] == m[k] by {
        let j = choose|j: int| 0 <= j < w.len() && key_of(w[j].0) == k;
        lemma_entry_at(w, j);
        lemma_entry_at(v, j);
    }
    assert(entries_of(w) =~= m);
}

impl DecisionLeafMap {
    /// A map with an empty entry for every requestable action: each declared
    /// action but the action groups, so that a group arriving as a request
    /// action falls back rather than reusing its members' expansion.
    pub fn seeded_from(actions: &[EntityUid], groups: &[EntityUid]) -> (r: Self)
        ensures
            r.wf(),
            r.entries() == Map::new(
                |k: (Seq<char>, Seq<char>)| seed_key(keys_of(actions@).to_set(), keys_of(groups@).to_set(), k),
                |k: (Seq<char>, Seq<char>)| Set::<Seq<char>>::empty(),
            ),
            r.always_ids() == Set::<Seq<char>>::empty(),
            r.unresolved_view() == Seq::<(Seq<char>, Seq<char>)>::empty(),
    {
        let mut map = DecisionLeafMap { by_action: Vec::new(), always: Vec::new(), unresolved: Vec::new() };
        assert(map.entries() =~= Map::empty());
        let mut i: usize = 0;
        while i < actions.len()
            invariant
                i <= actions@.len(),
                map.wf(),
                map.entries() == Map::new(
                    |k: (Seq<char>, Seq<char>)| listed_requestable(actions@.take(i as int), groups@, k),
                    |k: (Seq<char>, Seq<char>)| Set::<Seq<char>>::empty(),
                ),
                map.always@.len() == 0,
                map.unresolved@.len() == 0,
            decreases actions.len() - i,
        {
            let a = &actions[i];
            let ghost before = map.entries();
            let ghost k = key_of(*a);
            let ghost t0 = actions@.take(i as int);
            let ghost t1 = actions@.take(i + 1);
            assert forall|kk: (Seq<char>, Seq<char>)| #![trigger listed_requestable(t1, groups@, kk)]
                listed_requestable(t1, groups@, kk) <==> (listed_requestable(t0, groups@, kk) || (kk == k && forall|j: int|
                    0 <= j < groups@.len() ==> key_of(#[trigger] groups@[j]) != kk)) by {
                if listed_requestable(t1, groups@, kk) {
                    let j = choose|j: int| 0 <= j < t1.len() && key_of(t1[j]) == kk;
                    if j < i {
                        assert(t0[j] == t1[j]);
                    }
                }
                if listed_requestable(t0, groups@, kk) {
                    let j = choose|j: int| 0 <= j < t0.len() && key_of(t0[j]) == kk;
                    assert(t0[j] == t1[j]);
                }
                if kk == k {
                    assert(t1[i as int] == *a);
                }
            }
            if !contains_uid(groups, a) {
                let present = match find_key(&map.by_action, a) {
                    Some(_) => true,
                    None => false,
                };
                if !present {
                    let e = (copy_uid(a), Vec::new());
                    proof {
                        lemma_entries_push(map.by_action@, e);
                        assert(id_set(e.1@) =~= Set::<Seq<char>>::empty());
                    }
                    map.by_action.push(e);
                    assert forall|j: int| 0 <= j < map.by_action@.len() implies sorted_ids(
                        #[trigger] map.by_action@[j].1@,
                    ) by {}
                    assert(map.entries() =~= Map::new(
                        |kk: (Seq<char>, Seq<char>)| listed_requestable(actions@.take(i + 1), groups@, kk),
                        |kk: (Seq<char>, Seq<char>)| Set::<Seq<char>>::empty(),
                    ));
                } else {
                    assert(map.entries() =~= Map::new(
                        |kk: (Seq<char>, Seq<char>)| listed_requestable(actions@.take(i + 1), groups@, kk),
                        |kk: (Seq<char>, Seq<char>)| Set::<Seq<char>>::empty(),
                    ));
                }
            } else {
                assert(map.entries() =~= Map::new(
                    |kk: (Seq<char>, Seq<char>)| listed_requestable(actions@.take(i + 1), groups@, kk),
                    |kk: (Seq<char>, Seq<char>)| Set::<Seq<char>>::empty(),
                ));
            }
            i = i + 1;
        }
        assert(actions@.take(actions@.len() as int) =~= actions@);
        assert forall|k: (Seq<char>, Seq<char>)| #[trigger] listed_requestable(actions@, groups@, k) <==> seed_key(
            keys_of(actions@).to_set(),
            keys_of(groups@).to_set(),
            k,
        ) by {
            lemma_listed_is_seed(actions@, groups@, k);
        }
        assert(map.entries() =~= Map::new(
            |k: (Seq<char>, Seq<char>)| seed_key(keys_of(actions@).to_set(), keys_of(groups@).to_set(), k),
            |k: (Seq<char>, Seq<char>)| Set::<Seq<char>>::empty(),
        ));
        assert(map.always_ids() =~= Set::<Seq<char>>::empty());
        assert(map.unresolved_view() =~= Seq::<(Seq<char>, Seq<char>)>::empty());
        map
    }
}

impl DecisionLeafMap {
    /// Resolve all action keys of a scope, or fail the whole leaf toward
    /// widening. An unconstrained scope cannot trust a finite expansion, and
    /// accepting only the parseable targets would silently omit the leaf from
    /// the others.
    pub fn expansion(scope: &ActionScope, targets: &[ActionRef]) -> (r: Result<Vec<EntityUid>, &'static str>)
        ensures
            match r {
                Ok(v) => expansion_spec(*scope, targets@) == Ok::<_, Seq<char>>(keys_of(v@)),
                Err(why) => expansion_spec(*scope, targets@) == Err::<Seq<(Seq<char>, Seq<char>)>, _>(why@),
            },
    {
        if matches!(scope, ActionScope::Unconstrained) {
            return Err("bare `action` scope: the rule applies to every action");
        }
        if targets.len() == 0 {
            return Err("the action scope resolved to no concrete action");
        }
        let mut out: Vec<EntityUid> = Vec::new();
        let mut i: usize = 0;
        while i < targets.len()
            invariant
                i <= targets@.len(),
                !(*scope is Unconstrained),
                targets@.len() > 0,
                out@.len() == i,
                forall|j: int|
                    0 <= j < i ==> normalized_entity_uid(action_display_text(#[trigger] targets@[j]))
                        == Some(key_of(out@[j])),
            decreases targets.len() - i,
        {
            match target_action_uid(&targets[i]) {
                Some(u) => out.push(u),
                None => {
                    assert(normalized_entity_uid(action_display_text(targets@[i as int])) is None);
                    return Err("an action in the scope has no uid Cedar can parse");
                },
            }
            i = i + 1;
        }
        assert(keys_of(out@) =~= Seq::new(
            targets@.len(),
            |i: int| target_key(targets@[i]),
        ));
        Ok(out)
    }

    /// Record a leaf under its resolved actions, or, when its scope does not
    /// resolve, widen it to every action and record why.
    pub fn add_leaf(&mut self, id: &str, scope: &ActionScope, targets: &[ActionRef])
        requires
            old(self).wf(),
        ensures
            final(self).wf(),
            match expansion_spec(*scope, targets@) {
                Ok(ks) => {
                    &&& final(self).entries() == add_keys(old(self).entries(), ks, id@)
                    &&& final(self).always_ids() == old(self).always_ids()
                    &&& final(self).unresolved_view() == old(self).unresolved_view()
                },
                Err(why) => {
                    &&& final(self).entries() == old(self).entries()
                    &&& final(self).always_ids() == old(self).always_ids().insert(id@)
                    &&& final(self).unresolved_view() == old(self).unresolved_view().push((id@, why))
                },
            },
    {
        match Self::expansion(scope, targets) {
            Ok(uids) => {
                let ghost ks = keys_of(uids@);
                let ghost m0 = self.entries();
                assert(add_keys(m0, ks.take(0), id@) =~= m0);
                let mut i: usize = 0;
                let mut uids = uids;
                let ghost all = uids@;
                while i < uids.len()
                    invariant
                        uids@ == all,
                        ks == keys_of(all),
                        i <= uids@.len(),
                        self.wf(),
                        self.entries() == add_keys(m0, ks.take(i as int), id@),
                        self.always_ids() == old(self).always_ids(),
                        self.unresolved_view() == old(self).unresolved_view(),
                    decreases uids.len() - i,
                {
                    let u = copy_uid(&uids[i]);
                    let ghost prev = self.entries();
                    self.add_to_key(u, id);
                    let ghost k = ks[i as int];
                    assert(key_of(u) == k);
                    let ghost t0 = ks.take(i as int);
                    let ghost t1 = ks.take(i + 1);
                    assert(t1 =~= t0.push(k));
                    assert forall|kk: (Seq<char>, Seq<char>)| #[trigger] t1.contains(kk) <==> (t0.contains(kk) || kk == k) by {
                        if t1.contains(kk) {
                            let j = choose|j: int| 0 <= j < t1.len() && t1[j] == kk;
                            if j < i {
                                assert(t0[j] == kk);
                            }
                        }
                        if t0.contains(kk) {
                            let j = choose|j: int| 0 <= j < t0.len() && t0[j] == kk;
                            assert(t1[j] == kk);
                        }
                        if kk == k {
                            assert(t1[i as int] == kk);
                        }
                    }
                    let ghost target = add_keys(m0, ks.take(i + 1), id@);
                    assert forall|kk: (Seq<char>, Seq<char>)| self.entries().contains_key(kk) <==> target.contains_key(kk) by {}
                    assert forall|kk: (Seq<char>, Seq<char>)| self.entries().contains_key(kk) implies self.entries()[kk]
                        == target[kk] by {
                        if kk == k {
                            if t0.contains(kk) {
                                let base = if m0.contains_key(kk) {
                                    m0[kk]
                                } else {
                                    Set::<Seq<char>>::empty()
                                };
                                assert(base.insert(id@).insert(id@) =~= base.insert(id@));
                            }
                        }
                    }
                    assert(self.entries() =~= target);
                    i = i + 1;
                }
                assert(ks.take(ks.len() as int) =~= ks);
            },
            Err(why) => {
                let ghost u0 = self.unresolved_view();
                insert_id(&mut self.always, id);
                self.unresolved.push((string_of(id), why));
                assert(self.unresolved_view() =~= u0.push((id@, why@)));
            },
        }
    }

    /// Fold the widened leaves into every entry, so that a lookup stays a
    /// single probe.
    pub fn fold_always(&mut self)
        requires
            old(self).wf(),
        ensures
            final(self).wf(),
            final(self).entries() == with_all(old(self).entries(), old(self).always_ids()),
            final(self).always_ids() == old(self).always_ids(),
            final(self).unresolved_view() == old(self).unresolved_view(),
    {
        if self.always.len() == 0 {
            assert(self.always_ids() =~= Set::<Seq<char>>::empty());
            assert forall|k: (Seq<char>, Seq<char>)| #[trigger] self.entries().contains_key(k) implies self.entries()[k].union(
                Set::<Seq<char>>::empty(),
            ) == self.entries()[k] by {
                assert(self.entries()[k].union(Set::<Seq<char>>::empty()) =~= self.entries()[k]);
            }
            assert(with_all(self.entries(), self.always_ids()) =~= self.entries());
            return;
        }
        let ghost old_v = self.by_action@;
        let ghost extra = self.always_ids();
        let mut out: Vec<(EntityUid, Vec<String>)> = Vec::new();
        let mut i: usize = 0;
        while i < self.by_action.len()
            invariant
                self.by_action@ == old_v,
                self.wf(),
                extra == self.always_ids(),
                i <= old_v.len(),
                out@.len() == i,
                forall|j: int| 0 <= j < i ==> key_of(#[trigger] out@[j].0) == key_of(old_v[j].0),
                forall|j: int| 0 <= j < i ==> id_set(#[trigger] out@[j].1@) == id_set(old_v[j].1@).union(extra),
                forall|j: int| 0 <= j < i ==> sorted_ids(#[trigger] out@[j].1@),
            decreases self.by_action.len() - i,
        {
            let mut set = copy_ids(&self.by_action[i].1);
            assert(sorted_ids(old_v[i as int].1@));
            let mut a: usize = 0;
            while a < self.always.len()
                invariant
                    self.by_action@ == old_v,
                    self.wf(),
                    extra == self.always_ids(),
                    i < old_v.len(),
                    a <= self.always@.len(),
                    sorted_ids(set@),
                    id_set(set@) == id_set(old_v[i as int].1@).union(id_set(self.always@.take(a as int))),
                decreases self.always.len() - a,
            {
                let ghost before = id_set(set@);
                insert_id(&mut set, self.always[a].as_str());
                assert(id_set(self.always@.take(a + 1)) =~= id_set(self.always@.take(a as int)).insert(
                    self.always@[a as int]@,
                )) by {
                    let t0 = self.always@.take(a as int);
                    let t1 = self.always@.take(a + 1);
                    assert forall|x: Seq<char>| id_set(t1).contains(x) implies id_set(t0).insert(
                        self.always@[a as int]@,
                    ).contains(x) by {
                        let j = choose|j: int| 0 <= j < t1.len() && t1[j]@ == x;
                        if j < a {
                            assert(t0[j] == t1[j]);
                        }
                    }
                    assert forall|x: Seq<char>| id_set(t0).insert(self.always@[a as int]@).contains(x) implies id_set(
                        t1,
                    ).contains(x) by {
                        if x == self.always@[a as int]@ {
                            assert(t1[a as int]@ == x);
                        } else {
                            let j = choose|j: int| 0 <= j < t0.len() && t0[j]@ == x;
                            assert(t1[j] == t0[j]);
                        }
                    }
                }
                assert(id_set(set@) =~= id_set(old_v[i as int].1@).union(id_set(self.always@.take(a + 1))));
                a = a + 1;
            }
            assert(self.always@.take(self.always@.len() as int) =~= self.always@);
            let key = copy_uid(&self.by_action[i].0);
            out.push((key, set));
            i = i + 1;
        }
        proof {
            lemma_entries_union(old_v, out@, extra);
        }
        self.by_action = out;
    }
}

// ─── building and looking up ──────────────────────────────────────────────

/// The action keys a leaf is indexed under; none when it is widened.
pub open spec fn leaf_keys(l: TemporalField) -> Seq<(Seq<char>, Seq<char>)> {
    match expansion_spec(l.action, l.target_actions@) {
        Ok(ks) => ks,
        Err(_) => Seq::empty(),
    }
}

/// The leaf is widened to every action.
pub open spec fn widened(l: TemporalField) -> bool {
    expansion_spec(l.action, l.target_actions@) is Err
}

/// The map answers for `k` once the first `n` leaves are recorded: `k` is a
/// requestable action, or one of those leaves is indexed under it.
pub open spec fn answered(
    leaves: Seq<TemporalField>,
    n: int,
    actions: Set<(Seq<char>, Seq<char>)>,
    groups: Set<(Seq<char>, Seq<char>)>,
    k: (Seq<char>, Seq<char>),
) -> bool {
    seed_key(actions, groups, k) || exists|j: int| 0 <= j < n && (#[trigger] leaf_keys(leaves[j])).contains(k)
}

/// The ids of the first `n` leaves indexed under `k`.
pub open spec fn indexed_ids(leaves: Seq<TemporalField>, n: int, k: (Seq<char>, Seq<char>)) -> Set<Seq<char>> {
    Set::new(|id: Seq<char>| exists|j: int| 0 <= j < n && leaves[j].id@ == id && (#[trigger] leaf_keys(leaves[j])).contains(k))
}

/// The ids of the first `n` leaves that are widened.
pub open spec fn widened_ids(leaves: Seq<TemporalField>, n: int) -> Set<Seq<char>> {
    Set::new(|id: Seq<char>| exists|j: int| 0 <= j < n && leaves[j].id@ == id && widened(#[trigger] leaves[j]))
}

/// The entries once the first `n` leaves are recorded, before widened
/// leaves are folded in.
pub open spec fn partial_entries(
    leaves: Seq<TemporalField>,
    n: int,
    actions: Set<(Seq<char>, Seq<char>)>,
    groups: Set<(Seq<char>, Seq<char>)>,
) -> Map<(Seq<char>, Seq<char>), Set<Seq<char>>> {
    Map::new(
        |k: (Seq<char>, Seq<char>)| answered(leaves, n, actions, groups, k),
        |k: (Seq<char>, Seq<char>)| indexed_ids(leaves, n, k),
    )
}

/// The entries of the map built from `leaves` over a schema declaring
/// `actions`, of which `groups` are action groups: an entry for every
/// requestable action and every action some leaf is indexed under, holding
/// the leaves indexed under it and every widened leaf.
pub open spec fn built_entries(
    leaves: Seq<TemporalField>,
    actions: Set<(Seq<char>, Seq<char>)>,
    groups: Set<(Seq<char>, Seq<char>)>,
) -> Map<(Seq<char>, Seq<char>), Set<Seq<char>>> {
    with_all(partial_entries(leaves, leaves.len() as int, actions, groups), widened_ids(leaves, leaves.len() as int))
}

/// The widened leaves of `leaves` and the reason for each, in order.
pub open spec fn built_unresolved(leaves: Seq<TemporalField>) -> Seq<(Seq<char>, Seq<char>)>
    decreases leaves.len(),
{
    if leaves.len() == 0 {
        Seq::empty()
    } else {
        built_unresolved(leaves.drop_last()) + match expansion_spec(
            leaves.last().action,
            leaves.last().target_actions@,
        ) {
            Ok(_) => Seq::empty(),
            Err(why) => seq![(leaves.last().id@, why)],
        }
    }
}

proof fn lemma_partial_step(
    leaves: Seq<TemporalField>,
    i: int,
    actions: Set<(Seq<char>, Seq<char>)>,
    groups: Set<(Seq<char>, Seq<char>)>,
)
    requires
        0 <= i < leaves.len(),
    ensures
        !widened(leaves[i]) ==> partial_entries(leaves, i + 1, actions, groups) == add_keys(
            partial_entries(leaves, i, actions, groups),
            leaf_keys(leaves[i]),
            leaves[i].id@,
        ),
        widened(leaves[i]) ==> partial_entries(leaves, i + 1, actions, groups) == partial_entries(
            leaves,
            i,
            actions,
            groups,
        ),
        widened(leaves[i]) ==> widened_ids(leaves, i + 1) == widened_ids(leaves, i).insert(leaves[i].id@),
        !widened(leaves[i]) ==> widened_ids(leaves, i + 1) == widened_ids(leaves, i),
{
    let p0 = partial_entries(leaves, i, actions, groups);
    let p1 = partial_entries(leaves, i + 1, actions, groups);
    let ks = leaf_keys(leaves[i]);
    let id = leaves[i].id@;
    if widened(leaves[i]) {
        assert(ks =~= Seq::<(Seq<char>, Seq<char>)>::empty());
        assert forall|k: (Seq<char>, Seq<char>)| p1.contains_key(k) <==> p0.contains_key(k) by {
            if p1.contains_key(k) && !seed_key(actions, groups, k) {
                let j = choose|j: int| 0 <= j < i + 1 && (#[trigger] leaf_keys(leaves[j])).contains(k);
                if j == i {
                    assert(!ks.contains(k));
                }
            }
        }
        assert forall|k: (Seq<char>, Seq<char>)| p1.contains_key(k) implies p1[k] == p0[k] by {
            assert forall|x: Seq<char>| indexed_ids(leaves, i + 1, k).contains(x) implies indexed_ids(
                leaves,
                i,
                k,
            ).contains(x) by {
                let j = choose|j: int|
                    0 <= j < i + 1 && leaves[j].id@ == x && (#[trigger] leaf_keys(leaves[j])).contains(k);
                if j == i {
                    assert(!ks.contains(k));
                }
            }
            assert(indexed_ids(leaves, i + 1, k) =~= indexed_ids(leaves, i, k));
        }
        assert(p1 =~= p0);
        assert forall|x: Seq<char>| widened_ids(leaves, i + 1).contains(x) implies widened_ids(leaves, i).insert(
            id,
        ).contains(x) by {
            let j = choose|j: int| 0 <= j < i + 1 && leaves[j].id@ == x && widened(#[trigger] leaves[j]);
        }
        assert forall|x: Seq<char>| widened_ids(leaves, i).insert(id).contains(x) implies widened_ids(
            leaves,
            i + 1,
        ).contains(x) by {
            if x != id {
                let j = choose|j: int| 0 <= j < i && leaves[j].id@ == x && widened(#[trigger] leaves[j]);
            }
        }
        assert(widened_ids(leaves, i + 1) =~= widened_ids(leaves, i).insert(id));
    } else {
        let target = add_keys(p0, ks, id);
        assert forall|k: (Seq<char>, Seq<char>)| p1.contains_key(k) <==> target.contains_key(k) by {
            if p1.contains_key(k) && !seed_key(actions, groups, k) {
                let j = choose|j: int| 0 <= j < i + 1 && (#[trigger] leaf_keys(leaves[j])).contains(k);
            }
            if p0.contains_key(k) && !seed_key(actions, groups, k) {
                let j = choose|j: int| 0 <= j < i && (#[trigger] leaf_keys(leaves[j])).contains(k);
            }
        }
        assert forall|k: (Seq<char>, Seq<char>)| p1.contains_key(k) implies p1[k] == target[k] by {
            if ks.contains(k) {
                let base = if p0.contains_key(k) {
                    p0[k]
                } else {
                    Set::<Seq<char>>::empty()
                };
                assert forall|x: Seq<char>| indexed_ids(leaves, i + 1, k).contains(x) implies base.insert(id).contains(x) by {
                    let j = choose|j: int|
                        0 <= j < i + 1 && leaves[j].id@ == x && (#[trigger] leaf_keys(leaves[j])).contains(k);
                    if j < i {
                        assert(p0.contains_key(k));
                        assert(indexed_ids(leaves, i, k).contains(x));
                    }
                }
                assert forall|x: Seq<char>| base.insert(id).contains(x) implies indexed_ids(leaves, i + 1, k).contains(x) by {
                    if x == id {
                        assert(leaves[i].id@ == x && leaf_keys(leaves[i]).contains(k));
                    } else {
                        assert(p0.contains_key(k));
                        let j = choose|j: int|
                            0 <= j < i && leaves[j].id@ == x && (#[trigger] leaf_keys(leaves[j])).contains(k);
                    }
                }
                assert(indexed_ids(leaves, i + 1, k) =~= base.insert(id));
            } else {
                assert forall|x: Seq<char>| indexed_ids(leaves, i + 1, k).contains(x) implies indexed_ids(
                    leaves,
                    i,
                    k,
                ).contains(x) by {
                    let j = choose|j: int|
                        0 <= j < i + 1 && leaves[j].id@ == x && (#[trigger] leaf_keys(leaves[j])).contains(k);
                }
                assert(indexed_ids(leaves, i + 1, k) =~= indexed_ids(leaves, i, k));
            }
        }
        assert(p1 =~= target);
        assert forall|x: Seq<char>| widened_ids(leaves, i + 1).contains(x) implies widened_ids(leaves, i).contains(x) by {
            let j = choose|j: int| 0 <= j < i + 1 && leaves[j].id@ == x && widened(#[trigger] leaves[j]);
        }
        assert(widened_ids(leaves, i + 1) =~= widened_ids(leaves, i));
    }
}

impl DecisionLeafMap {
    /// Build the map for `leaves` over a schema declaring `actions`, of which
    /// `groups` are action groups: seed the requestable actions, record every
    /// leaf, then fold the widened leaves into every entry.
    pub fn build_from(leaves: &[TemporalField], actions: &[EntityUid], groups: &[EntityUid]) -> (r: Self)
        ensures
            r.wf(),
            r.entries() == built_entries(leaves@, keys_of(actions@).to_set(), keys_of(groups@).to_set()),
            r.always_ids() == widened_ids(leaves@, leaves@.len() as int),
            r.unresolved_view() == built_unresolved(leaves@),
    {
        let ghost acts = keys_of(actions@).to_set();
        let ghost grps = keys_of(groups@).to_set();
        let mut map = Self::seeded_from(actions, groups);
        assert forall|k: (Seq<char>, Seq<char>)| #[trigger] partial_entries(leaves@, 0, acts, grps).contains_key(k)
            implies partial_entries(leaves@, 0, acts, grps)[k] == Set::<Seq<char>>::empty() by {
            assert(indexed_ids(leaves@, 0, k) =~= Set::<Seq<char>>::empty());
        }
        assert forall|k: (Seq<char>, Seq<char>)| map.entries().contains_key(k) <==> #[trigger] partial_entries(
            leaves@,
            0,
            acts,
            grps,
        ).contains_key(k) by {
            if answered(leaves@, 0, acts, grps, k) {
                if !seed_key(acts, grps, k) {
                    let j = choose|j: int| 0 <= j < 0 && (#[trigger] leaf_keys(leaves@[j])).contains(k);
                }
            }
        }
        assert(map.entries() =~= partial_entries(leaves@, 0, acts, grps));
        assert(map.always_ids() =~= widened_ids(leaves@, 0));
        assert(leaves@.take(0) =~= Seq::<TemporalField>::empty());
        let mut i: usize = 0;
        while i < leaves.len()
            invariant
                i <= leaves@.len(),
                map.wf(),
                map.entries() == partial_entries(leaves@, i as int, acts, grps),
                map.always_ids() == widened_ids(leaves@, i as int),
                map.unresolved_view() == built_unresolved(leaves@.take(i as int)),
            decreases leaves.len() - i,
        {
            let leaf = &leaves[i];
            proof {
                lemma_partial_step(leaves@, i as int, acts, grps);
                assert(leaves@.take(i + 1).drop_last() =~= leaves@.take(i as int));
            }
            let ghost u0 = map.unresolved_view();
            map.add_leaf(leaf.id.as_str(), &leaf.action, &leaf.target_actions);
            proof {
                if widened(leaves@[i as int]) {
                    assert(u0 + seq![(leaves@[i as int].id@, expansion_spec(leaves@[i as int].action, leaves@[i as int].target_actions@)->Err_0)]
                        =~= u0.push((leaves@[i as int].id@, expansion_spec(leaves@[i as int].action, leaves@[i as int].target_actions@)->Err_0)));
                } else {
                    assert(u0 + Seq::<(Seq<char>, Seq<char>)>::empty() =~= u0);
                }
            }
            i = i + 1;
        }
        assert(leaves@.take(leaves@.len() as int) =~= leaves@);
        map.fold_always();
        map
    }

    /// Build the map for `leaves` over `schema` (see
    /// [`DecisionLeafMap::build_from`]): its declared actions, of which its
    /// action groups are not requestable.
    pub fn build(leaves: &[TemporalField], schema: &cedar_policy::Schema) -> (r: Self)
        ensures
            r.wf(),
            r.entries() == built_entries(leaves@, schema_action_keys(*schema), schema_group_keys(*schema)),
            r.unresolved_view() == built_unresolved(leaves@),
    {
        let actions = schema_actions(schema);
        let groups = schema_action_groups(schema);
        Self::build_from(leaves, &actions, &groups)
    }

    /// A map seeded from `schema` (see [`DecisionLeafMap::seeded_from`]).
    pub fn seeded(schema: &cedar_policy::Schema) -> (r: Self)
        ensures
            r.wf(),
            r.entries() == Map::new(
                |k: (Seq<char>, Seq<char>)| seed_key(schema_action_keys(*schema), schema_group_keys(*schema), k),
                |k: (Seq<char>, Seq<char>)| Set::<Seq<char>>::empty(),
            ),
            r.always_ids() == Set::<Seq<char>>::empty(),
            r.unresolved_view() == Seq::<(Seq<char>, Seq<char>)>::empty(),
    {
        let actions = schema_actions(schema);
        let groups = schema_action_groups(schema);
        Self::seeded_from(&actions, &groups)
    }

    /// The leaves a decision on the request action with namespace path `path`
    /// and id `action` can read. `None` means the map has no answer and every
    /// leaf must be computed.
    pub fn needed_for(&self, path: &[String], action: &str) -> (r: Option<Vec<String>>)
        requires
            self.wf(),
        ensures
            match normalized_entity_uid(qualified_action_uid_text(views(path@), action@)) {
                Some(k) => match r {
                    Some(v) => self.entries().contains_key(k) && id_set(v@) == self.entries()[k]
                        && sorted_ids(v@),
                    None => !self.entries().contains_key(k),
                },
                None => r is None,
            },
    {
        let uid = match event_action_uid(path, action) {
            Some(u) => u,
            None => return None,
        };
        match find_key(&self.by_action, &uid) {
            Some(i) => {
                proof {
                    lemma_entry_at(self.by_action@, i as int);
                }
                Some(copy_ids(&self.by_action[i].1))
            },
            None => None,
        }
    }

    /// The number of decisions the map can answer without falling back.
    pub fn entry_count(&self) -> (r: usize)
        requires
            self.wf(),
        ensures
            self.entries().dom().finite(),
            r == self.entries().dom().len(),
    {
        let ghost keys = entry_keys(self.by_action@);
        proof {
            assert forall|k: (Seq<char>, Seq<char>)| self.entries().dom().contains(k) <==> keys.to_set().contains(k) by {
                if self.entries().dom().contains(k) {
                    let j = choose|j: int| 0 <= j < self.by_action@.len() && key_of(self.by_action@[j].0) == k;
                    assert(keys[j] == k);
                }
                if keys.to_set().contains(k) {
                    let j = choose|j: int| 0 <= j < keys.len() && keys[j] == k;
                    assert(key_of(self.by_action@[j].0) == k);
                }
            }
            assert(self.entries().dom() =~= keys.to_set());
            assert(keys.no_duplicates());
            keys.unique_seq_to_set();
        }
        self.by_action.len()
    }

    /// The leaves widened to every decision and the reason for each
    /// widening, in order.
    pub fn unresolved(&self) -> (r: &Vec<(String, &'static str)>)
        ensures
            Seq::new(r@.len(), |i: int| (r@[i].0@, r@[i].1@)) == self.unresolved_view(),
    {
        &self.unresolved
    }
}

impl Default for DecisionLeafMap {
    /// A map with no answers: every lookup returns `None`.
    fn default() -> (r: Self)
        ensures
            r.wf(),
            r.entries() == Map::<(Seq<char>, Seq<char>), Set<Seq<char>>>::empty(),
            r.always_ids() == Set::<Seq<char>>::empty(),
            r.unresolved_view() == Seq::<(Seq<char>, Seq<char>)>::empty(),
    {
        let r = DecisionLeafMap { by_action: Vec::new(), always: Vec::new(), unresolved: Vec::new() };
        assert(r.entries() =~= Map::empty());
        assert(r.always_ids() =~= Set::empty());
        assert(r.unresolved_view() =~= Seq::empty());
        r
    }
}

// ─── laws ─────────────────────────────────────────────────────────────────

/// An answer names exactly the leaves its decision can read: on an action the
/// built map answers for, a leaf is named if and only if it is indexed under
/// that action or widened to every action.
pub proof fn lemma_answer_is_exact(
    leaves: Seq<TemporalField>,
    actions: Set<(Seq<char>, Seq<char>)>,
    groups: Set<(Seq<char>, Seq<char>)>,
    k: (Seq<char>, Seq<char>),
    id: Seq<char>,
)
    requires
        built_entries(leaves, actions, groups).contains_key(k),
    ensures
        built_entries(leaves, actions, groups)[k].contains(id) <==> exists|i: int|
            0 <= i < leaves.len() && leaves[i].id@ == id && (widened(#[trigger] leaves[i])
                || leaf_keys(leaves[i]).contains(k)),
{
    let n = leaves.len() as int;
    if built_entries(leaves, actions, groups)[k].contains(id) {
        if indexed_ids(leaves, n, k).contains(id) {
            let i = choose|i: int| 0 <= i < n && leaves[i].id@ == id && (#[trigger] leaf_keys(leaves[i])).contains(k);
            assert(widened(leaves[i]) || leaf_keys(leaves[i]).contains(k));
        } else {
            let i = choose|i: int| 0 <= i < n && leaves[i].id@ == id && widened(#[trigger] leaves[i]);
            assert(widened(leaves[i]) || leaf_keys(leaves[i]).contains(k));
        }
    }
    if exists|i: int| 0 <= i < leaves.len() && leaves[i].id@ == id && (widened(#[trigger] leaves[i])
        || leaf_keys(leaves[i]).contains(k)) {
        let i = choose|i: int| 0 <= i < leaves.len() && leaves[i].id@ == id && (widened(#[trigger] leaves[i])
            || leaf_keys(leaves[i]).contains(k));
        if widened(leaves[i]) {
            assert(widened_ids(leaves, n).contains(id));
        } else {
            assert(indexed_ids(leaves, n, k).contains(id));
        }
    }
}

/// A leaf whose scope is unconstrained or does not resolve is needed by every
/// action the built map answers for.
pub proof fn lemma_widened_leaf_is_everywhere(
    leaves: Seq<TemporalField>,
    actions: Set<(Seq<char>, Seq<char>)>,
    groups: Set<(Seq<char>, Seq<char>)>,
    i: int,
    k: (Seq<char>, Seq<char>),
)
    requires
        0 <= i < leaves.len(),
        widened(leaves[i]),
        built_entries(leaves, actions, groups).contains_key(k),
    ensures
        built_entries(leaves, actions, groups)[k].contains(leaves[i].id@),
{
    lemma_answer_is_exact(leaves, actions, groups, k, leaves[i].id@);
}

/// Every requestable action (declared, and not an action group) is answered,
/// so a declared action never falls back.
pub proof fn lemma_requestable_action_is_answered(
    leaves: Seq<TemporalField>,
    actions: Set<(Seq<char>, Seq<char>)>,
    groups: Set<(Seq<char>, Seq<char>)>,
    k: (Seq<char>, Seq<char>),
)
    requires
        seed_key(actions, groups, k),
    ensures
        built_entries(leaves, actions, groups).contains_key(k),
{
}

/// An action the built map answers for is a requestable action or an action
/// some leaf is indexed under; any other action, an action group or an
/// undeclared action among them, falls back to computing every leaf.
pub proof fn lemma_unanswered_falls_back(
    leaves: Seq<TemporalField>,
    actions: Set<(Seq<char>, Seq<char>)>,
    groups: Set<(Seq<char>, Seq<char>)>,
    k: (Seq<char>, Seq<char>),
)
    requires
        !seed_key(actions, groups, k),
        forall|i: int| 0 <= i < leaves.len() ==> !(#[trigger] leaf_keys(leaves[i])).contains(k),
    ensures
        !built_entries(leaves, actions, groups).contains_key(k),
{
}

/// An action group no leaf is indexed under is not answered, so a group
/// arriving as a request action falls back rather than reusing its members'
/// answers.
pub proof fn lemma_group_falls_back(
    leaves: Seq<TemporalField>,
    actions: Set<(Seq<char>, Seq<char>)>,
    groups: Set<(Seq<char>, Seq<char>)>,
    k: (Seq<char>, Seq<char>),
)
    requires
        groups.contains(k),
        forall|i: int| 0 <= i < leaves.len() ==> !(#[trigger] leaf_keys(leaves[i])).contains(k),
    ensures
        !built_entries(leaves, actions, groups).contains_key(k),
{
}

/// Every widened leaf is reported with the reason for its widening, and only
/// widened leaves are reported.
pub proof fn lemma_unresolved_reports_widened(leaves: Seq<TemporalField>, id: Seq<char>, why: Seq<char>)
    ensures
        built_unresolved(leaves).contains((id, why)) <==> exists|i: int|
            0 <= i < leaves.len() && leaves[i].id@ == id && expansion_spec(
                (#[trigger] leaves[i]).action,
                leaves[i].target_actions@,
            ) == Err::<Seq<(Seq<char>, Seq<char>)>, Seq<char>>(why),
    decreases leaves.len(),
{
    if leaves.len() > 0 {
        let d = leaves.drop_last();
        let n = leaves.len() - 1;
        lemma_unresolved_reports_widened(d, id, why);
        let tail = match expansion_spec(leaves.last().action, leaves.last().target_actions@) {
            Ok(_) => Seq::<(Seq<char>, Seq<char>)>::empty(),
            Err(w) => seq![(leaves.last().id@, w)],
        };
        let u = built_unresolved(leaves);
        assert(u == built_unresolved(d) + tail);
        if u.contains((id, why)) {
            let j = choose|j: int| 0 <= j < u.len() && u[j] == (id, why);
            if j < built_unresolved(d).len() {
                assert(built_unresolved(d)[j] == (id, why));
                let i = choose|i: int|
                    0 <= i < d.len() && d[i].id@ == id && expansion_spec(
                        (#[trigger] d[i]).action,
                        d[i].target_actions@,
                    ) == Err::<Seq<(Seq<char>, Seq<char>)>, Seq<char>>(why);
                assert(leaves[i] == d[i]);
            } else {
                assert(tail[j - built_unresolved(d).len()] == (id, why));
                assert(leaves[n] == leaves.last());
            }
        }
        if exists|i: int|
            0 <= i < leaves.len() && leaves[i].id@ == id && expansion_spec(
                (#[trigger] leaves[i]).action,
                leaves[i].target_actions@,
            ) == Err::<Seq<(Seq<char>, Seq<char>)>, Seq<char>>(why) {
            let i = choose|i: int|
                0 <= i < leaves.len() && leaves[i].id@ == id && expansion_spec(
                    (#[trigger] leaves[i]).action,
                    leaves[i].target_actions@,
                ) == Err::<Seq<(Seq<char>, Seq<char>)>, Seq<char>>(why);
            if i < n {
                assert(d[i] == leaves[i]);
                let j = choose|j: int| 0 <= j < built_unresolved(d).len() && built_unresolved(d)[j] == (id, why);
                assert(u[j] == (id, why));
            } else {
                assert(tail[0] == (id, why));
                assert(u[built_unresolved(d).len() as int] == (id, why));
            }
        }
    }
}

/// What a decision reads from the map built for `leaves`: for a request
/// action with namespace path `path` and id `action` whose uid parses to the
/// key `k`, the map answers if and only if `k` is a requestable action or
/// some leaf is indexed under `k`, and then the answer names exactly the
/// leaves indexed under `k` and every widened leaf. (`needed_for` looks the
/// request action up by that key, and answers nothing when it does not
/// parse.)
pub proof fn lemma_build_then_needed_for(
    leaves: Seq<TemporalField>,
    actions: Set<(Seq<char>, Seq<char>)>,
    groups: Set<(Seq<char>, Seq<char>)>,
    path: Seq<Seq<char>>,
    action: Seq<char>,
)
    ensures
        match normalized_entity_uid(qualified_action_uid_text(path, action)) {
            Some(k) => {
                &&& built_entries(leaves, actions, groups).contains_key(k) <==> (seed_key(actions, groups, k)
                    || exists|i: int| 0 <= i < leaves.len() && (#[trigger] leaf_keys(leaves[i])).contains(k))
                &&& built_entries(leaves, actions, groups).contains_key(k) ==> forall|id: Seq<char>|
                    #[trigger] built_entries(leaves, actions, groups)[k].contains(id) <==> exists|i: int|
                        0 <= i < leaves.len() && leaves[i].id@ == id && (widened(#[trigger] leaves[i])
                            || leaf_keys(leaves[i]).contains(k))
            },
            None => true,
        },
{
    match normalized_entity_uid(qualified_action_uid_text(path, action)) {
        Some(k) => {
            if built_entries(leaves, actions, groups).contains_key(k) {
                assert forall|id: Seq<char>| #[trigger] built_entries(leaves, actions, groups)[k].contains(id)
                    <==> exists|i: int| 0 <= i < leaves.len() && leaves[i].id@ == id && (widened(
                        #[trigger] leaves[i],
                    ) || leaf_keys(leaves[i]).contains(k)) by {
                    lemma_answer_is_exact(leaves, actions, groups, k, id);
                }
            }
        },
        None => {},
    }
}

/// Two leaf lists agree, leaf by leaf, on each leaf's id, action scope and
/// target actions.
pub open spec fn same_leaf_scopes(a: Seq<TemporalField>, b: Seq<TemporalField>) -> bool {
    &&& a.len() == b.len()
    &&& forall|i: int| 0 <= i < a.len() ==> {
        &&& (#[trigger] a[i]).id@ == b[i].id@
        &&& a[i].action == b[i].action
        &&& a[i].target_actions@ == b[i].target_actions@
    }
}

/// The map built for a list of leaves depends only on each leaf's id, action
/// scope and target actions: two lists that agree on those, leaf by leaf,
/// build the same entries and report the same unresolved leaves in the same
/// order.
pub proof fn lemma_build_depends_on_scopes_only(
    a: Seq<TemporalField>,
    b: Seq<TemporalField>,
    actions: Set<(Seq<char>, Seq<char>)>,
    groups: Set<(Seq<char>, Seq<char>)>,
)
    requires
        same_leaf_scopes(a, b),
    ensures
        built_entries(a, actions, groups) == built_entries(b, actions, groups),
        built_unresolved(a) == built_unresolved(b),
    decreases a.len(),
{
    let n = a.len() as int;
    assert forall|j: int| 0 <= j < n implies leaf_keys(#[trigger] a[j]) == leaf_keys(b[j]) && widened(a[j])
        == widened(b[j]) && a[j].id@ == b[j].id@ by {
        assert(a[j].action == b[j].action && a[j].target_actions@ == b[j].target_actions@);
    }
    assert forall|k: (Seq<char>, Seq<char>)| #![auto] answered(a, n, actions, groups, k) == answered(
        b,
        n,
        actions,
        groups,
        k,
    ) by {
        if exists|j: int| 0 <= j < n && (#[trigger] leaf_keys(a[j])).contains(k) {
            let j = choose|j: int| 0 <= j < n && (#[trigger] leaf_keys(a[j])).contains(k);
            assert(leaf_keys(b[j]).contains(k));
        }
        if exists|j: int| 0 <= j < n && (#[trigger] leaf_keys(b[j])).contains(k) {
            let j = choose|j: int| 0 <= j < n && (#[trigger] leaf_keys(b[j])).contains(k);
            assert(leaf_keys(a[j]) == leaf_keys(b[j]));
        }
    }
    assert forall|k: (Seq<char>, Seq<char>)| #![auto] indexed_ids(a, n, k) == indexed_ids(b, n, k) by {
        assert forall|id: Seq<char>| indexed_ids(a, n, k).contains(id) <==> indexed_ids(b, n, k).contains(id) by {
            if indexed_ids(a, n, k).contains(id) {
                let j = choose|j: int| 0 <= j < n && a[j].id@ == id && (#[trigger] leaf_keys(a[j])).contains(k);
                assert(leaf_keys(b[j]).contains(k));
            }
            if indexed_ids(b, n, k).contains(id) {
                let j = choose|j: int| 0 <= j < n && b[j].id@ == id && (#[trigger] leaf_keys(b[j])).contains(k);
                assert(leaf_keys(a[j]) == leaf_keys(b[j]));
            }
        }
        assert(indexed_ids(a, n, k) =~= indexed_ids(b, n, k));
    }
    assert forall|id: Seq<char>| widened_ids(a, n).contains(id) <==> widened_ids(b, n).contains(id) by {
        if widened_ids(a, n).contains(id) {
            let j = choose|j: int| 0 <= j < n && a[j].id@ == id && widened(#[trigger] a[j]);
            assert(widened(b[j]));
        }
        if widened_ids(b, n).contains(id) {
            let j = choose|j: int| 0 <= j < n && b[j].id@ == id && widened(#[trigger] b[j]);
            assert(widened(a[j]) == widened(b[j]));
        }
    }
    assert(widened_ids(a, n) =~= widened_ids(b, n));
    assert(partial_entries(a, n, actions, groups) =~= partial_entries(b, n, actions, groups));
    if a.len() > 0 {
        let da = a.drop_last();
        let db = b.drop_last();
        assert forall|i: int| 0 <= i < da.len() implies {
            &&& (#[trigger] da[i]).id@ == db[i].id@
            &&& da[i].action == db[i].action
            &&& da[i].target_actions@ == db[i].target_actions@
        } by {
            assert(da[i] == a[i] && db[i] == b[i]);
        }
        lemma_build_depends_on_scopes_only(da, db, actions, groups);
        assert(a.last() == a[n - 1] && b.last() == b[n - 1]);
        assert(a[n - 1].action == b[n - 1].action && a[n - 1].target_actions@ == b[n - 1].target_actions@);
    }
}

} // verus!
