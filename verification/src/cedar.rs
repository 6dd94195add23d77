//! The text forms that `cedar_policy_core` gives the Cedar values this crate
//! renders or looks up: escaped entity ids, string literals, `like` patterns,
//! and parsed entity uids / entity types.
//!
//! Each function here makes one call into `cedar_policy_core`; what it returns
//! is named by a spec function of its arguments, so every contract built on
//! these speaks of exactly the text Cedar produces.

use vstd::prelude::*;
use crate::ast::PatternElem;

verus! {

/// What `Eid::escaped` returns for the entity id `eid`.
pub uninterp spec fn escaped_eid_text(eid: Seq<char>) -> Seq<char>;

/// What Cedar's `Display` for `Literal::String(s)` writes.
pub uninterp spec fn string_literal_text(s: Seq<char>) -> Seq<char>;

/// What Cedar's `Display` for the `like` pattern made of `elems` writes.
pub uninterp spec fn pattern_text(elems: Seq<PatternElem>) -> Seq<char>;

/// The entity type (as Cedar displays it) and the raw entity id of the uid
/// that `EntityUID::from_str` parses from `text`, or `None` when it fails.
pub uninterp spec fn parsed_entity_uid(text: Seq<char>) -> Option<(Seq<char>, Seq<char>)>;

/// The name (as Cedar displays it) of the entity type that
/// `EntityType::from_str` parses from `text`, or `None` when it fails.
pub uninterp spec fn parsed_entity_type(text: Seq<char>) -> Option<Seq<char>>;

/// `cedar_policy_core::ast::Eid::new(eid).escaped()`: the id with Cedar's
/// escaping applied. The contract claims only that the result is the named
/// function of the id.
#[verifier::external_body]
pub fn escaped_eid(eid: &str) -> (r: String)
    ensures
        r@ == escaped_eid_text(eid@),
{
    cedar_policy_core::ast::Eid::new(eid).escaped().to_string()
}

/// `Literal::String(s).to_string()` from `cedar_policy_core`: the quoted,
/// escaped string literal. The contract claims only that the result is the
/// named function of `s`.
#[verifier::external_body]
pub fn string_literal(s: &str) -> (r: String)
    ensures
        r@ == string_literal_text(s@),
{
    cedar_policy_core::ast::Literal::from(s).to_string()
}

/// `Pattern::from(elems).to_string()` from `cedar_policy_core`, each element
/// carried over to Cedar's `PatternElem` one for one. The contract claims only
/// that the result is the named function of the elements.
#[verifier::external_body]
pub fn pattern_display(elems: &Vec<PatternElem>) -> (r: String)
    ensures
        r@ == pattern_text(elems@),
{
    let cedar_elems: Vec<cedar_policy_core::ast::PatternElem> = elems
        .iter()
        .map(|e| match e {
            PatternElem::Char(c) => cedar_policy_core::ast::PatternElem::Char(*c),
            PatternElem::Wildcard => cedar_policy_core::ast::PatternElem::Wildcard,
        })
        .collect();
    cedar_policy_core::ast::Pattern::from(cedar_elems).to_string()
}

/// `text.parse::<EntityUID>()` from `cedar_policy_core`, giving back the
/// parsed uid's entity type (its `Display`) and its raw id. The contract claims
/// only that the outcome is the named function of `text`.
#[verifier::external_body]
pub fn parse_entity_uid(text: &str) -> (r: Option<(String, String)>)
    ensures
        match r {
            Some(p) => parsed_entity_uid(text@) == Some((p.0@, p.1@)),
            None => parsed_entity_uid(text@) is None,
        },
{
    match text.parse::<cedar_policy_core::ast::EntityUID>() {
        Ok(uid) => Some((uid.entity_type().to_string(), uid.eid().as_ref().to_string())),
        Err(_) => None,
    }
}

/// `text.parse::<EntityType>()` from `cedar_policy_core`, giving back the
/// parsed type's `Display`. The contract claims only that the outcome is the
/// named function of `text`.
#[verifier::external_body]
pub fn parse_entity_type(text: &str) -> (r: Option<String>)
    ensures
        match r {
            Some(t) => parsed_entity_type(text@) == Some(t@),
            None => parsed_entity_type(text@) is None,
        },
{
    match text.parse::<cedar_policy_core::ast::EntityType>() {
        Ok(ty) => Some(ty.to_string()),
        Err(_) => None,
    }
}

} // verus!
