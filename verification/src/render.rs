//! Render a parsed, macro-expanded [`Policy`] back to `.dw` source text.
//!
//! The output is fully parenthesized: every infix binary operation is written
//! `(L op R)` and every operand whose own form is not a primary is wrapped in
//! `( … )`, so no precedence question can arise. Temporal sub-conditions in
//! operand position are always parenthesized. Nodes that cannot survive macro
//! expansion (macro parameters and binders, macro calls, sigil references,
//! `Refine`, the lowering-only `Or`) are outside the domain: every renderer
//! requires a tree without them (`expr_expanded` / `condition_expanded`).
//!
//! Value leaves use Cedar's own text: string literals, entity ids and `like`
//! patterns are written by `cedar_policy_core` (see [`crate::cedar`]).

use vstd::prelude::*;
use crate::ast::{
    ActionConstraint, Annotation, BinOp, Cond, CondKeyword, Effect, EntityUid, Expr, ExprKind,
    Extension, Literal, Policy, PrincipalConstraint, ResourceConstraint, Scope, SlotId, UnOp, Var,
};
use crate::cedar::{
    escaped_eid, escaped_eid_text, pattern_display, pattern_text, string_literal,
    string_literal_text,
};
use crate::temporal_ast::{
    AggExpr, AggExprKind, BinderSlot, BinderType, CmpOp, Condition, ConditionKind, Interval,
    Predicate, PredicateArg, Term, TimeUnit, TypedBinder, WithinSpec,
};
use crate::text::{
    ascending, keys_of, char_string, chars_of, decimal_text, hex_char, str_eq, hex_text, i64_text, int_text, join, join_text, push_char,
    push_decimal, push_hex, string_of, views,
};

verus! {

// ─── leaves ───────────────────────────────────────────────────────────────

/// `c` is a control character (Unicode general category `Cc`).
pub open spec fn is_control_char(c: char) -> bool {
    c <= '\u{1f}' || ('\u{7f}' <= c && c <= '\u{9f}')
}

/// The text `quote` writes for one character of its input.
pub open spec fn quoted_char(c: char) -> Seq<char> {
    if c == '"' {
        seq!['\\', '"']
    } else if c == '\\' {
        seq!['\\', '\\']
    } else if c == '\n' {
        seq!['\\', 'n']
    } else if c == '\r' {
        seq!['\\', 'r']
    } else if c == '\t' {
        seq!['\\', 't']
    } else if c == '\0' {
        seq!['\\', '0']
    } else if is_control_char(c) {
        seq!['\\', 'u', '{'] + hex_text((c as u32) as nat) + seq!['}']
    } else {
        seq![c]
    }
}

/// The escaped characters of `s`, without the surrounding quotes.
pub open spec fn quoted_body(s: Seq<char>) -> Seq<char>
    decreases s.len(),
{
    if s.len() == 0 {
        Seq::empty()
    } else {
        quoted_body(s.drop_last()) + quoted_char(s.last())
    }
}

/// `"…"` around the escaped characters of `s`.
pub open spec fn quote_text(s: Seq<char>) -> Seq<char> {
    seq!['"'] + quoted_body(s) + seq!['"']
}

/// A `"…"` string literal for a position whose parser decodes escapes with
/// Cedar's rules. Escapes `"`, `\`, and control characters (the common ones
/// by name, the rest as `\u{hex}`); every other character, `'` included, is
/// written as is.
pub fn quote(s: &str) -> (r: String)
    ensures
        r@ == quote_text(s@),
{
    let cs = chars_of(s);
    let mut out = String::new();
    push_char(&mut out, '"');
    let mut i: usize = 0;
    while i < cs.len()
        invariant
            cs@ == s@,
            i <= cs.len(),
            out@ == seq!['"'] + quoted_body(s@.take(i as int)),
        decreases cs.len() - i,
    {
        let c = cs[i];
        let ghost before = out@;
        if c == '"' {
            push_char(&mut out, '\\');
            push_char(&mut out, '"');
        } else if c == '\\' {
            push_char(&mut out, '\\');
            push_char(&mut out, '\\');
        } else if c == '\n' {
            push_char(&mut out, '\\');
            push_char(&mut out, 'n');
        } else if c == '\r' {
            push_char(&mut out, '\\');
            push_char(&mut out, 'r');
        } else if c == '\t' {
            push_char(&mut out, '\\');
            push_char(&mut out, 't');
        } else if c == '\0' {
            push_char(&mut out, '\\');
            push_char(&mut out, '0');
        } else if c <= '\u{1f}' || ('\u{7f}' <= c && c <= '\u{9f}') {
            push_char(&mut out, '\\');
            push_char(&mut out, 'u');
            push_char(&mut out, '{');
            push_hex(&mut out, c as u32 as u64);
            push_char(&mut out, '}');
        } else {
            push_char(&mut out, c);
        }
        proof {
            assert(s@.take(i + 1).drop_last() =~= s@.take(i as int));
            assert(s@.take(i + 1).last() == c);
            assert((c as u32 as u64) as nat == (c as u32) as nat);
            assert(out@ =~= before + quoted_char(c));
        }
        i = i + 1;
    }
    push_char(&mut out, '"');
    assert(s@.take(cs.len() as int) =~= s@);
    out
}

/// `c` is an ASCII letter.
pub open spec fn is_ascii_alpha(c: char) -> bool {
    ('a' <= c && c <= 'z') || ('A' <= c && c <= 'Z')
}

/// `c` is an ASCII letter or digit.
pub open spec fn is_ascii_alnum(c: char) -> bool {
    is_ascii_alpha(c) || ('0' <= c && c <= '9')
}

/// `s` is one of the words the grammar reserves, which cannot stand as a
/// bare member name.
pub open spec fn is_reserved_word(s: Seq<char>) -> bool {
    ||| s == "true"@
    ||| s == "false"@
    ||| s == "if"@
    ||| s == "then"@
    ||| s == "else"@
    ||| s == "in"@
    ||| s == "is"@
    ||| s == "has"@
    ||| s == "like"@
}

/// `s` is a bare identifier: `_` or an ASCII letter, then `_`, letters and
/// digits.
pub open spec fn is_ident_text(s: Seq<char>) -> bool {
    &&& s.len() > 0
    &&& (s[0] == '_' || is_ascii_alpha(s[0]))
    &&& forall|i: int| 1 <= i < s.len() ==> (#[trigger] s[i] == '_' || is_ascii_alnum(s[i]))
}

/// Whether `name` is one of the reserved words.
fn is_reserved(name: &str) -> (r: bool)
    ensures
        r == is_reserved_word(name@),
{
    str_eq(name, "true") || str_eq(name, "false") || str_eq(name, "if") || str_eq(name, "then")
        || str_eq(name, "else") || str_eq(name, "in") || str_eq(name, "is") || str_eq(name, "has")
        || str_eq(name, "like")
}

/// Whether `name` is a bare identifier, so that it can follow `.` unquoted
/// (attribute access accepts any identifier, reserved words included).
pub fn is_ident(name: &str) -> (r: bool)
    ensures
        r == is_ident_text(name@),
{
    let cs = chars_of(name);
    if cs.len() == 0 {
        return false;
    }
    let c0 = cs[0];
    if !(c0 == '_' || ('a' <= c0 && c0 <= 'z') || ('A' <= c0 && c0 <= 'Z')) {
        return false;
    }
    let mut i: usize = 1;
    while i < cs.len()
        invariant
            cs@ == name@,
            1 <= i <= cs.len(),
            forall|j: int| 1 <= j < i ==> (#[trigger] cs@[j] == '_' || is_ascii_alnum(cs@[j])),
        decreases cs.len() - i,
    {
        let c = cs[i];
        if !(c == '_' || ('a' <= c && c <= 'z') || ('A' <= c && c <= 'Z') || ('0' <= c && c <= '9')) {
            return false;
        }
        i = i + 1;
    }
    true
}

/// A record key as written: bare when it is an identifier and not a reserved
/// word (a bare `true` key would read back as a literal), else quoted.
pub open spec fn member_text(name: Seq<char>) -> Seq<char> {
    if is_ident_text(name) && !is_reserved_word(name) {
        name
    } else {
        quote_text(name)
    }
}

/// A record key: bare when it is an identifier and not a reserved word, else
/// a quoted string.
pub fn member(name: &str) -> (r: String)
    ensures
        r@ == member_text(name@),
{
    if is_ident(name) && !is_reserved(name) {
        string_of(name)
    } else {
        quote(name)
    }
}

/// `name` with every `$` replaced by `_`.
pub open spec fn sanitized_text(name: Seq<char>) -> Seq<char> {
    Seq::new(name.len(), |i: int| if name[i] == '$' { '_' } else { name[i] })
}

/// Rename a post-expansion binder to a surface-legal identifier: every `$`
/// (which macro expansion puts in fresh binder names) becomes `_`.
pub fn sanitize_binder(name: &str) -> (r: String)
    ensures
        r@ == sanitized_text(name@),
{
    let cs = chars_of(name);
    let mut out = String::new();
    let mut i: usize = 0;
    while i < cs.len()
        invariant
            cs@ == name@,
            i <= cs.len(),
            out@ == sanitized_text(name@).take(i as int),
        decreases cs.len() - i,
    {
        let c = cs[i];
        if c == '$' {
            push_char(&mut out, '_');
        } else {
            push_char(&mut out, c);
        }
        assert(out@ =~= sanitized_text(name@).take(i + 1));
        i = i + 1;
    }
    assert(sanitized_text(name@).take(cs.len() as int) =~= sanitized_text(name@));
    out
}

/// Cedar's text for an entity uid: the type name, `::`, and the escaped id in
/// double quotes.
pub open spec fn entity_uid_text(u: EntityUid) -> Seq<char> {
    u.ty@ + "::\""@ + escaped_eid_text(u.eid@) + seq!['"']
}

/// Writes an entity uid as Cedar does.
pub fn render_uid(u: &EntityUid) -> (r: String)
    ensures
        r@ == entity_uid_text(*u),
{
    let mut out = string_of(u.ty.as_str());
    out.append("::\"");
    out.append(escaped_eid(u.eid.as_str()).as_str());
    push_char(&mut out, '"');
    out
}

/// Cedar's text for a literal.
pub open spec fn literal_text(l: Literal) -> Seq<char> {
    match l {
        Literal::Bool(b) => if b { "true"@ } else { "false"@ },
        Literal::Long(n) => int_text(n as int),
        Literal::String(s) => string_literal_text(s@),
        Literal::EntityUid(u) => entity_uid_text(u),
    }
}

/// Writes a literal as Cedar does.
pub fn render_literal(l: &Literal) -> (r: String)
    ensures
        r@ == literal_text(*l),
{
    match l {
        Literal::Bool(b) => if *b { string_of("true") } else { string_of("false") },
        Literal::Long(n) => i64_text(*n),
        Literal::String(s) => string_literal(s.as_str()),
        Literal::EntityUid(u) => render_uid(u),
    }
}

/// Cedar's text for a request variable.
pub open spec fn var_text(v: Var) -> Seq<char> {
    match v {
        Var::Principal => "principal"@,
        Var::Action => "action"@,
        Var::Resource => "resource"@,
        Var::Context => "context"@,
    }
}

/// Writes a request variable.
pub fn render_var(v: &Var) -> (r: String)
    ensures
        r@ == var_text(*v),
{
    match v {
        Var::Principal => string_of("principal"),
        Var::Action => string_of("action"),
        Var::Resource => string_of("resource"),
        Var::Context => string_of("context"),
    }
}

/// Cedar's text for a template slot.
pub open spec fn slot_text(s: SlotId) -> Seq<char> {
    match s {
        SlotId::Principal => "?principal"@,
        SlotId::Resource => "?resource"@,
    }
}

/// Writes a template slot.
pub fn render_slot(s: &SlotId) -> (r: String)
    ensures
        r@ == slot_text(*s),
{
    match s {
        SlotId::Principal => string_of("?principal"),
        SlotId::Resource => string_of("?resource"),
    }
}

// ─── scope ────────────────────────────────────────────────────────────────

/// A literal entity uid, or the slot's spelling when there is none.
pub open spec fn slot_or_uid_text(o: Option<EntityUid>, slot: Seq<char>) -> Seq<char> {
    match o {
        Some(u) => entity_uid_text(u),
        None => slot,
    }
}

/// A literal entity uid, or the template slot's spelling when the reference is
/// a slot (`None`).
pub fn slot_or_uid(o: &Option<EntityUid>, slot: &str) -> (r: String)
    ensures
        r@ == slot_or_uid_text(*o, slot@),
{
    match o {
        Some(uid) => render_uid(uid),
        None => string_of(slot),
    }
}

/// The principal part of a scope as written.
pub open spec fn principal_text(c: PrincipalConstraint) -> Seq<char> {
    match c {
        PrincipalConstraint::Any => "principal"@,
        PrincipalConstraint::In(o) => "principal in "@ + slot_or_uid_text(o, "?principal"@),
        PrincipalConstraint::Eq(o) => "principal == "@ + slot_or_uid_text(o, "?principal"@),
        PrincipalConstraint::Is(t) => "principal is "@ + t@,
        PrincipalConstraint::IsIn(t, o) => "principal is "@ + t@ + " in "@ + slot_or_uid_text(
            o,
            "?principal"@,
        ),
    }
}

/// Renders the principal constraint.
pub fn render_principal(c: &PrincipalConstraint) -> (r: String)
    ensures
        r@ == principal_text(*c),
{
    match c {
        PrincipalConstraint::Any => string_of("principal"),
        PrincipalConstraint::In(o) => {
            let mut out = string_of("principal in ");
            out.append(slot_or_uid(o, "?principal").as_str());
            out
        },
        PrincipalConstraint::Eq(o) => {
            let mut out = string_of("principal == ");
            out.append(slot_or_uid(o, "?principal").as_str());
            out
        },
        PrincipalConstraint::Is(t) => {
            let mut out = string_of("principal is ");
            out.append(t.as_str());
            out
        },
        PrincipalConstraint::IsIn(t, o) => {
            let mut out = string_of("principal is ");
            out.append(t.as_str());
            out.append(" in ");
            out.append(slot_or_uid(o, "?principal").as_str());
            out
        },
    }
}

/// The resource part of a scope as written.
pub open spec fn resource_text(c: ResourceConstraint) -> Seq<char> {
    match c {
        ResourceConstraint::Any => "resource"@,
        ResourceConstraint::In(o) => "resource in "@ + slot_or_uid_text(o, "?resource"@),
        ResourceConstraint::Eq(o) => "resource == "@ + slot_or_uid_text(o, "?resource"@),
        ResourceConstraint::Is(t) => "resource is "@ + t@,
        ResourceConstraint::IsIn(t, o) => "resource is "@ + t@ + " in "@ + slot_or_uid_text(
            o,
            "?resource"@,
        ),
    }
}

/// Renders the resource constraint.
pub fn render_resource(c: &ResourceConstraint) -> (r: String)
    ensures
        r@ == resource_text(*c),
{
    match c {
        ResourceConstraint::Any => string_of("resource"),
        ResourceConstraint::In(o) => {
            let mut out = string_of("resource in ");
            out.append(slot_or_uid(o, "?resource").as_str());
            out
        },
        ResourceConstraint::Eq(o) => {
            let mut out = string_of("resource == ");
            out.append(slot_or_uid(o, "?resource").as_str());
            out
        },
        ResourceConstraint::Is(t) => {
            let mut out = string_of("resource is ");
            out.append(t.as_str());
            out
        },
        ResourceConstraint::IsIn(t, o) => {
            let mut out = string_of("resource is ");
            out.append(t.as_str());
            out.append(" in ");
            out.append(slot_or_uid(o, "?resource").as_str());
            out
        },
    }
}

/// The texts of a list of entity uids.
pub open spec fn uids_texts(uids: Seq<EntityUid>) -> Seq<Seq<char>> {
    Seq::new(uids.len(), |i: int| entity_uid_text(uids[i]))
}

/// The action part of a scope as written.
pub open spec fn action_text(c: ActionConstraint) -> Seq<char> {
    match c {
        ActionConstraint::Any => "action"@,
        ActionConstraint::Eq(uid) => "action == "@ + entity_uid_text(uid),
        ActionConstraint::In(uids) => "action in ["@ + join_text(uids_texts(uids@), ", "@) + "]"@,
    }
}

/// Renders the action constraint.
pub fn render_action(c: &ActionConstraint) -> (r: String)
    ensures
        r@ == action_text(*c),
{
    match c {
        ActionConstraint::Any => string_of("action"),
        ActionConstraint::Eq(uid) => {
            let mut out = string_of("action == ");
            out.append(render_uid(uid).as_str());
            out
        },
        ActionConstraint::In(uids) => {
            let mut items: Vec<String> = Vec::new();
            let mut i: usize = 0;
            while i < uids.len()
                invariant
                    i <= uids.len(),
                    items.len() == i,
                    forall|j: int| 0 <= j < i ==> #[trigger] items@[j]@ == entity_uid_text(uids@[j]),
                decreases uids.len() - i,
            {
                items.push(render_uid(&uids[i]));
                i = i + 1;
            }
            assert(views(items@) =~= uids_texts(uids@));
            let mut out = string_of("action in [");
            out.append(join(&items, ", ").as_str());
            out.append("]");
            out
        },
    }
}

/// A scope as written: principal, action, resource, comma-separated.
pub open spec fn scope_text(s: Scope) -> Seq<char> {
    principal_text(s.principal) + ", "@ + action_text(s.action) + ", "@ + resource_text(
        s.resource,
    )
}

/// Renders a policy scope.
pub fn render_scope(scope: &Scope) -> (r: String)
    ensures
        r@ == scope_text(*scope),
{
    let mut out = render_principal(&scope.principal);
    out.append(", ");
    out.append(render_action(&scope.action).as_str());
    out.append(", ");
    out.append(render_resource(&scope.resource).as_str());
    out
}

// ─── Cedar expressions ────────────────────────────────────────────────────

/// Whether `e`'s natural rendering needs wrapping to be used as a primary:
/// prefix `!`/`-`, `is`, `like`, `has`, and `if/then/else` do; everything
/// else (an infix binary operation parenthesizes itself) does not.
pub open spec fn needs_parens_spec(e: Expr) -> bool {
    match e.kind {
        ExprKind::UnaryApp { op, .. } => op is Not || op is Neg,
        ExprKind::Is { .. } => true,
        ExprKind::Like { .. } => true,
        ExprKind::HasAttr { .. } => true,
        ExprKind::IfThenElse { .. } => true,
        _ => false,
    }
}

/// Whether `e` must be wrapped in parentheses to stand as a primary.
pub fn needs_parens(e: &Expr) -> (r: bool)
    ensures
        r == needs_parens_spec(*e),
{
    match &e.kind {
        ExprKind::UnaryApp { op, .. } => match op {
            UnOp::Not => true,
            UnOp::Neg => true,
            _ => false,
        },
        ExprKind::Is { .. } => true,
        ExprKind::Like { .. } => true,
        ExprKind::HasAttr { .. } => true,
        ExprKind::IfThenElse { .. } => true,
        _ => false,
    }
}

/// `t` in parentheses when `b`.
pub open spec fn paren_if(b: bool, t: Seq<char>) -> Seq<char> {
    if b {
        seq!['('] + t + seq![')']
    } else {
        t
    }
}

/// The surface method name of a zero-argument extension-method operator.
pub open spec fn zero_arg_method_text(op: UnOp) -> Seq<char> {
    match op {
        UnOp::IsEmpty => "isEmpty"@,
        UnOp::IsIpv4 => "isIpv4"@,
        UnOp::IsIpv6 => "isIpv6"@,
        UnOp::IsLoopback => "isLoopback"@,
        UnOp::IsMulticast => "isMulticast"@,
        UnOp::ToDate => "toDate"@,
        UnOp::ToTime => "toTime"@,
        UnOp::ToMilliseconds => "toMilliseconds"@,
        UnOp::ToSeconds => "toSeconds"@,
        UnOp::ToMinutes => "toMinutes"@,
        UnOp::ToHours => "toHours"@,
        UnOp::ToDays => "toDays"@,
        _ => Seq::empty(),
    }
}

/// `op` is one of the zero-argument extension methods.
pub open spec fn is_zero_arg_method(op: UnOp) -> bool {
    !(op is Not || op is Neg || op is Decimal || op is Datetime || op is Duration || op is Ip)
}

/// The surface method name for a zero-argument extension-method operator.
pub fn zero_arg_method(op: UnOp) -> (r: &'static str)
    requires
        is_zero_arg_method(op),
    ensures
        r@ == zero_arg_method_text(op),
{
    match op {
        UnOp::IsEmpty => "isEmpty",
        UnOp::IsIpv4 => "isIpv4",
        UnOp::IsIpv6 => "isIpv6",
        UnOp::IsLoopback => "isLoopback",
        UnOp::IsMulticast => "isMulticast",
        UnOp::ToDate => "toDate",
        UnOp::ToTime => "toTime",
        UnOp::ToMilliseconds => "toMilliseconds",
        UnOp::ToSeconds => "toSeconds",
        UnOp::ToMinutes => "toMinutes",
        UnOp::ToHours => "toHours",
        _ => "toDays",
    }
}

/// A unary application as written, given its operand's text `t` and its
/// operand's text as a primary `a`.
pub open spec fn unary_text(op: UnOp, t: Seq<char>, a: Seq<char>) -> Seq<char> {
    match op {
        UnOp::Not => seq!['!'] + a,
        UnOp::Neg => seq!['-'] + a,
        UnOp::Decimal => "decimal("@ + t + seq![')'],
        UnOp::Datetime => "datetime("@ + t + seq![')'],
        UnOp::Duration => "duration("@ + t + seq![')'],
        UnOp::Ip => "ip("@ + t + seq![')'],
        _ => a + seq!['.'] + zero_arg_method_text(op) + "()"@,
    }
}

/// The surface symbol of an infix operator, or `None` for the method forms.
pub open spec fn infix_symbol_text(op: BinOp) -> Option<Seq<char>> {
    match op {
        BinOp::Eq => Some("=="@),
        BinOp::NotEq => Some("!="@),
        BinOp::Less => Some("<"@),
        BinOp::LessEq => Some("<="@),
        BinOp::Greater => Some(">"@),
        BinOp::GreaterEq => Some(">="@),
        BinOp::And => Some("&&"@),
        BinOp::Or => Some("||"@),
        BinOp::Add => Some("+"@),
        BinOp::Sub => Some("-"@),
        BinOp::Mul => Some("*"@),
        BinOp::In => Some("in"@),
        _ => None,
    }
}

/// The infix operator symbol for the core relational / boolean / arithmetic
/// operators, or `None` for the ones written in method form.
pub fn infix_symbol(op: BinOp) -> (r: Option<&'static str>)
    ensures
        match r {
            Some(s) => infix_symbol_text(op) == Some(s@),
            None => infix_symbol_text(op) is None,
        },
{
    match op {
        BinOp::Eq => Some("=="),
        BinOp::NotEq => Some("!="),
        BinOp::Less => Some("<"),
        BinOp::LessEq => Some("<="),
        BinOp::Greater => Some(">"),
        BinOp::GreaterEq => Some(">="),
        BinOp::And => Some("&&"),
        BinOp::Or => Some("||"),
        BinOp::Add => Some("+"),
        BinOp::Sub => Some("-"),
        BinOp::Mul => Some("*"),
        BinOp::In => Some("in"),
        _ => None,
    }
}

/// The surface method name of a method-form binary operator.
pub open spec fn method_name_text(op: BinOp) -> Seq<char> {
    match op {
        BinOp::Contains => "contains"@,
        BinOp::ContainsAll => "containsAll"@,
        BinOp::ContainsAny => "containsAny"@,
        BinOp::GetTag => "getTag"@,
        BinOp::HasTag => "hasTag"@,
        BinOp::IsInRange => "isInRange"@,
        BinOp::Offset => "offset"@,
        BinOp::DurationSince => "durationSince"@,
        BinOp::DecimalLessThan => "lessThan"@,
        BinOp::DecimalLessEq => "lessThanOrEqual"@,
        BinOp::DecimalGreater => "greaterThan"@,
        BinOp::DecimalGreaterEq => "greaterThanOrEqual"@,
        _ => Seq::empty(),
    }
}

/// The surface method name for a one-argument method-form operator.
pub fn method_name(op: BinOp) -> (r: &'static str)
    requires
        infix_symbol_text(op) is None,
    ensures
        r@ == method_name_text(op),
{
    match op {
        BinOp::Contains => "contains",
        BinOp::ContainsAll => "containsAll",
        BinOp::ContainsAny => "containsAny",
        BinOp::GetTag => "getTag",
        BinOp::HasTag => "hasTag",
        BinOp::IsInRange => "isInRange",
        BinOp::Offset => "offset",
        BinOp::DurationSince => "durationSince",
        BinOp::DecimalLessThan => "lessThan",
        BinOp::DecimalLessEq => "lessThanOrEqual",
        BinOp::DecimalGreater => "greaterThan",
        _ => "greaterThanOrEqual",
    }
}

/// A binary application as written, given the left operand as a primary
/// `la`, the right operand as a primary `ra`, and the right operand's plain
/// text `rt`: infix operators as `(L op R)`, the others as `L.method(R)`.
pub open spec fn binary_text(op: BinOp, la: Seq<char>, ra: Seq<char>, rt: Seq<char>) -> Seq<char> {
    match infix_symbol_text(op) {
        Some(sym) => seq!['('] + la + seq![' '] + sym + seq![' '] + ra + seq![')'],
        None => la + seq!['.'] + method_name_text(op) + seq!['('] + rt + seq![')'],
    }
}

/// The `has` path: the first segment always quoted, later ones bare after
/// `.`.
pub open spec fn has_path_text(attrs: Seq<String>) -> Seq<char> {
    quote_text(attrs[0]@) + dotted_text(attrs.skip(1))
}

/// `.seg` for each segment, in order.
pub open spec fn dotted_text(segs: Seq<String>) -> Seq<char>
    decreases segs.len(),
{
    if segs.len() == 0 {
        Seq::empty()
    } else {
        dotted_text(segs.drop_last()) + seq!['.'] + segs.last()@
    }
}

/// A record literal as written, given the text of each `key: value` field.
pub open spec fn record_text(fields: Seq<Seq<char>>) -> Seq<char> {
    if fields.len() == 0 {
        "{}"@
    } else {
        "{ "@ + join_text(fields, ", "@) + " }"@
    }
}

/// The texts of a list of expressions.
pub open spec fn exprs_texts(es: Seq<Expr>) -> Seq<Seq<char>>
    decreases es,
{
    Seq::new(es.len(), |i: int| if 0 <= i < es.len() { expr_text(es[i]) } else { Seq::empty() })
}

/// The texts of a record's `key: value` fields.
pub open spec fn fields_texts(es: Seq<(String, Expr)>) -> Seq<Seq<char>>
    decreases es,
{
    Seq::new(
        es.len(),
        |i: int|
            if 0 <= i < es.len() {
                member_text(es[i].0@) + ": "@ + expr_text(es[i].1)
            } else {
                Seq::empty()
            },
    )
}

/// An expression's text as a primary.
pub open spec fn atom_text(e: Expr) -> Seq<char> {
    paren_if(needs_parens_spec(e), expr_text(e))
}

/// The text of an expression.
pub open spec fn expr_text(e: Expr) -> Seq<char>
    decreases e,
{
    match e.kind {
        ExprKind::Lit(lit) => literal_text(lit),
        ExprKind::Var(v) => var_text(v),
        ExprKind::Slot(s) => slot_text(s),
        ExprKind::Extension(ext) => extension_text(ext),
        ExprKind::UnaryApp { op, expr } => unary_text(
            op,
            expr_text(*expr),
            paren_if(needs_parens_spec(*expr), expr_text(*expr)),
        ),
        ExprKind::BinaryApp { op, left, right } => binary_text(
            op,
            paren_if(needs_parens_spec(*left), expr_text(*left)),
            paren_if(needs_parens_spec(*right), expr_text(*right)),
            expr_text(*right),
        ),
        ExprKind::GetAttr { expr, attr } => if is_ident_text(attr@) {
            paren_if(needs_parens_spec(*expr), expr_text(*expr)) + seq!['.'] + attr@
        } else {
            paren_if(needs_parens_spec(*expr), expr_text(*expr)) + seq!['['] + quote_text(attr@)
                + seq![']']
        },
        ExprKind::HasAttr { expr, attrs } => paren_if(needs_parens_spec(*expr), expr_text(*expr))
            + " has "@ + has_path_text(attrs@),
        ExprKind::Like { expr, pattern } => paren_if(needs_parens_spec(*expr), expr_text(*expr))
            + " like \""@ + pattern_text(pattern@) + seq!['"'],
        ExprKind::Is { expr, entity_type, in_expr } => match in_expr {
            Some(x) => paren_if(needs_parens_spec(*expr), expr_text(*expr)) + " is "@
                + entity_type@ + " in "@ + paren_if(needs_parens_spec(*x), expr_text(*x)),
            None => paren_if(needs_parens_spec(*expr), expr_text(*expr)) + " is "@
                + entity_type@,
        },
        ExprKind::IfThenElse { cond, then_expr, else_expr } => "if "@ + expr_text(*cond)
            + " then "@ + expr_text(*then_expr) + " else "@ + expr_text(*else_expr),
        ExprKind::SetLit(elems) => seq!['['] + join_text(exprs_texts(elems@), ", "@) + seq![']'],
        ExprKind::Record(entries) => record_text(fields_texts(entries@)),
        ExprKind::Call { name, args } => name@ + seq!['('] + join_text(exprs_texts(args@), ", "@)
            + seq![')'],
        ExprKind::MethodCall { receiver, method, args } => paren_if(
            needs_parens_spec(*receiver),
            expr_text(*receiver),
        ) + seq!['.'] + method@ + seq!['('] + join_text(exprs_texts(args@), ", "@) + seq![')'],
        ExprKind::ParamRef { .. } => Seq::empty(),
    }
}

/// `e` holds nothing that cannot survive macro expansion, every `has` names
/// at least one attribute, every record literal holds each key once, in key
/// order, and every temporal clause is expanded.
pub open spec fn expr_expanded(e: Expr) -> bool
    decreases e,
{
    match e.kind {
        ExprKind::Lit(_) => true,
        ExprKind::Var(_) => true,
        ExprKind::Slot(_) => true,
        ExprKind::Extension(Extension::Temporal(t)) => condition_expanded(t.condition),
        ExprKind::UnaryApp { expr, .. } => expr_expanded(*expr),
        ExprKind::BinaryApp { left, right, .. } => expr_expanded(*left) && expr_expanded(*right),
        ExprKind::GetAttr { expr, .. } => expr_expanded(*expr),
        ExprKind::HasAttr { expr, attrs } => attrs.len() > 0 && expr_expanded(*expr),
        ExprKind::Like { expr, .. } => expr_expanded(*expr),
        ExprKind::Is { expr, in_expr, .. } => expr_expanded(*expr) && match in_expr {
            Some(x) => expr_expanded(*x),
            None => true,
        },
        ExprKind::IfThenElse { cond, then_expr, else_expr } => expr_expanded(*cond)
            && expr_expanded(*then_expr) && expr_expanded(*else_expr),
        ExprKind::SetLit(elems) => forall|i: int|
            0 <= i < elems@.len() ==> expr_expanded(#[trigger] elems@[i]),
        ExprKind::Record(entries) => ascending(keys_of(entries@)) && forall|i: int|
            0 <= i < entries@.len() ==> expr_expanded(#[trigger] entries@[i].1),
        ExprKind::Call { args, .. } => forall|i: int|
            0 <= i < args@.len() ==> expr_expanded(#[trigger] args@[i]),
        ExprKind::MethodCall { receiver, args, .. } => expr_expanded(*receiver) && forall|i: int|
            0 <= i < args@.len() ==> expr_expanded(#[trigger] args@[i]),
        ExprKind::ParamRef { .. } => false,
    }
}

/// The number of expression nodes in `e` (a temporal clause counts as one).
pub open spec fn expr_size(e: Expr) -> nat
    decreases e,
{
    1 + match e.kind {
        ExprKind::UnaryApp { expr, .. } => expr_size(*expr),
        ExprKind::BinaryApp { left, right, .. } => expr_size(*left) + expr_size(*right),
        ExprKind::GetAttr { expr, .. } => expr_size(*expr),
        ExprKind::HasAttr { expr, .. } => expr_size(*expr),
        ExprKind::Like { expr, .. } => expr_size(*expr),
        ExprKind::Is { expr, in_expr, .. } => expr_size(*expr) + match in_expr {
            Some(x) => expr_size(*x),
            None => 0,
        },
        ExprKind::IfThenElse { cond, then_expr, else_expr } => expr_size(*cond) + expr_size(
            *then_expr,
        ) + expr_size(*else_expr),
        ExprKind::SetLit(elems) => exprs_size(elems@),
        ExprKind::Record(entries) => fields_size(entries@),
        ExprKind::Call { args, .. } => exprs_size(args@),
        ExprKind::MethodCall { receiver, args, .. } => expr_size(*receiver) + exprs_size(args@),
        _ => 0,
    }
}

/// The total size of a list of expressions.
pub open spec fn exprs_size(es: Seq<Expr>) -> nat
    decreases es,
{
    if es.len() == 0 {
        0
    } else {
        exprs_size(es.drop_last()) + expr_size(es.last())
    }
}

/// The total size of a record's values.
pub open spec fn fields_size(es: Seq<(String, Expr)>) -> nat
    decreases es,
{
    if es.len() == 0 {
        0
    } else {
        fields_size(es.drop_last()) + expr_size(es.last().1)
    }
}

proof fn lemma_exprs_size_elem(es: Seq<Expr>, i: int)
    requires
        0 <= i < es.len(),
    ensures
        expr_size(es[i]) <= exprs_size(es),
    decreases es.len(),
{
    if i < es.len() - 1 {
        lemma_exprs_size_elem(es.drop_last(), i);
    }
}

proof fn lemma_fields_size_elem(es: Seq<(String, Expr)>, i: int)
    requires
        0 <= i < es.len(),
    ensures
        expr_size(es[i].1) <= fields_size(es),
    decreases es.len(),
{
    if i < es.len() - 1 {
        lemma_fields_size_elem(es.drop_last(), i);
    }
}

/// Render `e` in a position that demands a primary (an operand, a receiver),
/// wrapping it in parentheses iff its natural form is not already one.
pub fn atom(e: &Expr) -> (r: String)
    requires
        expr_expanded(*e),
    ensures
        r@ == atom_text(*e),
    decreases expr_size(*e), 1int,
{
    let s = render_expr(e);
    if needs_parens(e) {
        let mut out = char_string('(');
        out.append(s.as_str());
        push_char(&mut out, ')');
        out
    } else {
        s
    }
}

/// Renders a unary application: `!` and `-` as prefixes, the extension
/// constructors as `name(arg)`, the zero-argument methods as `recv.name()`.
pub fn render_unary(op: UnOp, expr: &Expr) -> (r: String)
    requires
        expr_expanded(*expr),
    ensures
        r@ == unary_text(op, expr_text(*expr), atom_text(*expr)),
    decreases expr_size(*expr), 2int,
{
    match op {
        UnOp::Not => {
            let mut out = char_string('!');
            out.append(atom(expr).as_str());
            out
        },
        UnOp::Neg => {
            let mut out = char_string('-');
            out.append(atom(expr).as_str());
            out
        },
        UnOp::Decimal => {
            let mut out = string_of("decimal(");
            out.append(render_expr(expr).as_str());
            push_char(&mut out, ')');
            out
        },
        UnOp::Datetime => {
            let mut out = string_of("datetime(");
            out.append(render_expr(expr).as_str());
            push_char(&mut out, ')');
            out
        },
        UnOp::Duration => {
            let mut out = string_of("duration(");
            out.append(render_expr(expr).as_str());
            push_char(&mut out, ')');
            out
        },
        UnOp::Ip => {
            let mut out = string_of("ip(");
            out.append(render_expr(expr).as_str());
            push_char(&mut out, ')');
            out
        },
        _ => {
            let mut out = atom(expr);
            push_char(&mut out, '.');
            out.append(zero_arg_method(op));
            out.append("()");
            out
        },
    }
}

/// Renders a binary application: fully parenthesized `(L op R)` for the infix
/// operators, `L.method(R)` for the others.
pub fn render_binary(op: BinOp, left: &Expr, right: &Expr) -> (r: String)
    requires
        expr_expanded(*left),
        expr_expanded(*right),
    ensures
        r@ == binary_text(op, atom_text(*left), atom_text(*right), expr_text(*right)),
    decreases expr_size(*left) + expr_size(*right), 2int,
{
    if let Some(sym) = infix_symbol(op) {
        let mut out = char_string('(');
        out.append(atom(left).as_str());
        push_char(&mut out, ' ');
        out.append(sym);
        push_char(&mut out, ' ');
        out.append(atom(right).as_str());
        push_char(&mut out, ')');
        out
    } else {
        let mut out = atom(left);
        push_char(&mut out, '.');
        out.append(method_name(op));
        push_char(&mut out, '(');
        out.append(render_expr(right).as_str());
        push_char(&mut out, ')');
        out
    }
}

/// Renders each expression of a list.
pub fn render_exprs(es: &Vec<Expr>) -> (r: Vec<String>)
    requires
        forall|i: int| 0 <= i < es@.len() ==> expr_expanded(#[trigger] es@[i]),
    ensures
        views(r@) == exprs_texts(es@),
    decreases exprs_size(es@), 3int,
{
    let mut out: Vec<String> = Vec::new();
    let mut i: usize = 0;
    while i < es.len()
        invariant
            i <= es.len(),
            out.len() == i,
            forall|k: int| 0 <= k < es@.len() ==> expr_expanded(#[trigger] es@[k]),
            forall|j: int| 0 <= j < i ==> #[trigger] out@[j]@ == expr_text(es@[j]),
        decreases es.len() - i,
    {
        proof {
            lemma_exprs_size_elem(es@, i as int);
        }
        out.push(render_expr(&es[i]));
        i = i + 1;
    }
    assert(views(out@) =~= exprs_texts(es@));
    out
}

/// Renders a record literal: `{}` when empty, else `{ k: v, … }` in key
/// order, each key bare or quoted.
pub fn render_record(entries: &Vec<(String, Expr)>) -> (r: String)
    requires
        forall|i: int| 0 <= i < entries@.len() ==> expr_expanded(#[trigger] entries@[i].1),
    ensures
        r@ == record_text(fields_texts(entries@)),
    decreases fields_size(entries@), 3int,
{
    if entries.len() == 0 {
        return string_of("{}");
    }
    let mut fields: Vec<String> = Vec::new();
    let mut i: usize = 0;
    while i < entries.len()
        invariant
            i <= entries.len(),
            fields.len() == i,
            forall|k: int| 0 <= k < entries@.len() ==> expr_expanded(#[trigger] entries@[k].1),
            forall|j: int|
                0 <= j < i ==> #[trigger] fields@[j]@ == member_text(entries@[j].0@) + ": "@
                    + expr_text(entries@[j].1),
        decreases entries.len() - i,
    {
        proof {
            lemma_fields_size_elem(entries@, i as int);
        }
        let mut f = member(entries[i].0.as_str());
        f.append(": ");
        f.append(render_expr(&entries[i].1).as_str());
        fields.push(f);
        i = i + 1;
    }
    assert(views(fields@) =~= fields_texts(entries@));
    let mut out = string_of("{ ");
    out.append(join(&fields, ", ").as_str());
    out.append(" }");
    out
}

/// Renders the path of a `has` test.
fn render_has_path(attrs: &Vec<String>) -> (r: String)
    requires
        attrs.len() > 0,
    ensures
        r@ == has_path_text(attrs@),
{
    let mut path = quote(attrs[0].as_str());
    let mut i: usize = 1;
    while i < attrs.len()
        invariant
            1 <= i <= attrs.len(),
            path@ == quote_text(attrs@[0]@) + dotted_text(attrs@.skip(1).take(i - 1)),
        decreases attrs.len() - i,
    {
        let ghost before = path@;
        push_char(&mut path, '.');
        path.append(attrs[i].as_str());
        proof {
            assert(attrs@.skip(1).take(i as int).drop_last() =~= attrs@.skip(1).take(i - 1));
            assert(attrs@.skip(1).take(i as int).last() == attrs@[i as int]);
        }
        i = i + 1;
    }
    assert(attrs@.skip(1).take(attrs.len() - 1) =~= attrs@.skip(1));
    path
}

/// Renders one expression.
pub fn render_expr(e: &Expr) -> (r: String)
    requires
        expr_expanded(*e),
    ensures
        r@ == expr_text(*e),
    decreases expr_size(*e), 0int,
{
    match &e.kind {
        ExprKind::Lit(lit) => render_literal(lit),
        ExprKind::Var(var) => render_var(var),
        ExprKind::Slot(slot) => render_slot(slot),
        ExprKind::Extension(ext) => render_extension(ext),
        ExprKind::UnaryApp { op, expr } => render_unary(*op, expr),
        ExprKind::BinaryApp { op, left, right } => render_binary(*op, left, right),
        ExprKind::GetAttr { expr, attr } => {
            let mut out = atom(expr);
            if is_ident(attr.as_str()) {
                push_char(&mut out, '.');
                out.append(attr.as_str());
            } else {
                push_char(&mut out, '[');
                out.append(quote(attr.as_str()).as_str());
                push_char(&mut out, ']');
            }
            out
        },
        ExprKind::HasAttr { expr, attrs } => {
            let mut out = atom(expr);
            out.append(" has ");
            out.append(render_has_path(attrs).as_str());
            out
        },
        ExprKind::Like { expr, pattern } => {
            let mut out = atom(expr);
            out.append(" like \"");
            out.append(pattern_display(pattern).as_str());
            push_char(&mut out, '"');
            out
        },
        ExprKind::Is { expr, entity_type, in_expr } => {
            let mut out = atom(expr);
            out.append(" is ");
            out.append(entity_type.as_str());
            match in_expr {
                Some(in_e) => {
                    out.append(" in ");
                    out.append(atom(in_e).as_str());
                },
                None => {},
            }
            out
        },
        ExprKind::IfThenElse { cond, then_expr, else_expr } => {
            let mut out = string_of("if ");
            out.append(render_expr(cond).as_str());
            out.append(" then ");
            out.append(render_expr(then_expr).as_str());
            out.append(" else ");
            out.append(render_expr(else_expr).as_str());
            out
        },
        ExprKind::SetLit(elems) => {
            let items = render_exprs(elems);
            let mut out = char_string('[');
            out.append(join(&items, ", ").as_str());
            push_char(&mut out, ']');
            out
        },
        ExprKind::Record(entries) => render_record(entries),
        ExprKind::Call { name, args } => {
            let items = render_exprs(args);
            let mut out = string_of(name.as_str());
            push_char(&mut out, '(');
            out.append(join(&items, ", ").as_str());
            push_char(&mut out, ')');
            out
        },
        ExprKind::MethodCall { receiver, method, args } => {
            let items = render_exprs(args);
            let mut out = atom(receiver);
            push_char(&mut out, '.');
            out.append(method.as_str());
            push_char(&mut out, '(');
            out.append(join(&items, ", ").as_str());
            push_char(&mut out, ')');
            out
        },
        ExprKind::ParamRef { .. } => String::new(),
    }
}

// ─── temporal ─────────────────────────────────────────────────────────────

/// The text of a temporal comparison operator.
pub open spec fn cmp_text(op: CmpOp) -> Seq<char> {
    match op {
        CmpOp::Le => "<="@,
        CmpOp::Lt => "<"@,
        CmpOp::Ge => ">="@,
        CmpOp::Gt => ">"@,
        CmpOp::Eq => "=="@,
        CmpOp::NotEq => "!="@,
    }
}

/// The symbol of a temporal comparison operator.
pub fn cmp_symbol(op: CmpOp) -> (r: &'static str)
    ensures
        r@ == cmp_text(op),
{
    match op {
        CmpOp::Le => "<=",
        CmpOp::Lt => "<",
        CmpOp::Ge => ">=",
        CmpOp::Gt => ">",
        CmpOp::Eq => "==",
        CmpOp::NotEq => "!=",
    }
}

/// The text of a concrete interval: its amount, then its unit letter.
pub open spec fn interval_text(i: Interval) -> Seq<char> {
    decimal_text(i.amount as nat).push(
        match i.unit {
            TimeUnit::Seconds => 's',
            TimeUnit::Minutes => 'm',
            TimeUnit::Hours => 'h',
            TimeUnit::Days => 'd',
        },
    )
}

/// Renders a concrete interval.
pub fn render_interval(i: &Interval) -> (r: String)
    ensures
        r@ == interval_text(*i),
{
    let mut out = String::new();
    push_decimal(&mut out, i.amount);
    let unit = match i.unit {
        TimeUnit::Seconds => 's',
        TimeUnit::Minutes => 'm',
        TimeUnit::Hours => 'h',
        TimeUnit::Days => 'd',
    };
    push_char(&mut out, unit);
    out
}

/// The text of a `within` window (empty for an unexpanded parameter, which
/// is outside the renderers' domain).
pub open spec fn within_text(w: WithinSpec) -> Seq<char> {
    match w {
        WithinSpec::Concrete(i) => interval_text(i),
        WithinSpec::ParamRef(_) => Seq::empty(),
    }
}

/// Renders a `within` window.
pub fn render_within(w: &WithinSpec) -> (r: String)
    requires
        w is Concrete,
    ensures
        r@ == within_text(*w),
{
    match w {
        WithinSpec::Concrete(i) => render_interval(i),
        WithinSpec::ParamRef(_) => String::new(),
    }
}

/// The text of a binder name (empty for an unexpanded parameter or binder
/// reference, which are outside the renderers' domain).
pub open spec fn binder_name_text(slot: BinderSlot) -> Seq<char> {
    match slot {
        BinderSlot::Name(s) => sanitized_text(s@),
        _ => Seq::empty(),
    }
}

/// A binder's surface name: the sanitized name.
pub fn binder_name(slot: &BinderSlot) -> (r: String)
    requires
        slot is Name,
    ensures
        r@ == binder_name_text(*slot),
{
    match slot {
        BinderSlot::Name(s) => sanitize_binder(s.as_str()),
        _ => String::new(),
    }
}

/// The text of a binder's declared type.
pub open spec fn binder_type_text(t: BinderType) -> Seq<char> {
    match t {
        BinderType::Long => "Long"@,
        BinderType::String => "String"@,
        BinderType::Bool => "Bool"@,
        BinderType::Timepoint => "Timepoint"@,
        BinderType::Entity(name) => name@,
    }
}

/// Renders a binder's declared type.
pub fn render_binder_type(t: &BinderType) -> (r: String)
    ensures
        r@ == binder_type_text(*t),
{
    match t {
        BinderType::Long => string_of("Long"),
        BinderType::String => string_of("String"),
        BinderType::Bool => string_of("Bool"),
        BinderType::Timepoint => string_of("Timepoint"),
        BinderType::Entity(name) => string_of(name.as_str()),
    }
}

/// `(name: Type)`.
pub open spec fn typed_binder_text(b: TypedBinder) -> Seq<char> {
    seq!['('] + binder_name_text(b.slot) + ": "@ + binder_type_text(b.ty) + seq![')']
}

/// The `for` list of an aggregation: `(name: Type)` items, comma-separated.
pub open spec fn for_vars_text(vs: Seq<TypedBinder>) -> Seq<char> {
    join_text(Seq::new(vs.len(), |i: int| typed_binder_text(vs[i])), ", "@)
}

/// Renders the `for` list of an aggregation.
pub fn render_for_vars(for_vars: &Vec<TypedBinder>) -> (r: String)
    requires
        forall|i: int| 0 <= i < for_vars@.len() ==> (#[trigger] for_vars@[i]).slot is Name,
    ensures
        r@ == for_vars_text(for_vars@),
{
    let mut items: Vec<String> = Vec::new();
    let mut i: usize = 0;
    while i < for_vars.len()
        invariant
            i <= for_vars.len(),
            items.len() == i,
            forall|k: int| 0 <= k < for_vars@.len() ==> (#[trigger] for_vars@[k]).slot is Name,
            forall|j: int| 0 <= j < i ==> #[trigger] items@[j]@ == typed_binder_text(for_vars@[j]),
        decreases for_vars.len() - i,
    {
        let b = &for_vars[i];
        let mut item = char_string('(');
        item.append(binder_name(&b.slot).as_str());
        item.append(": ");
        item.append(render_binder_type(&b.ty).as_str());
        push_char(&mut item, ')');
        items.push(item);
        i = i + 1;
    }
    assert(views(items@) =~= Seq::new(for_vars@.len(), |i: int| typed_binder_text(for_vars@[i])));
    join(&items, ", ")
}

/// The texts of a list of terms.
pub open spec fn terms_texts(ts: Seq<Term>) -> Seq<Seq<char>>
    decreases ts,
{
    Seq::new(ts.len(), |i: int| if 0 <= i < ts.len() { term_text(ts[i]) } else { Seq::empty() })
}

/// The texts of a predicate's `name: term` arguments.
pub open spec fn pred_args_texts(args: Seq<PredicateArg>) -> Seq<Seq<char>>
    decreases args,
{
    Seq::new(
        args.len(),
        |i: int|
            if 0 <= i < args.len() {
                args[i].name@ + ": "@ + term_text(args[i].value)
            } else {
                Seq::empty()
            },
    )
}

/// The text of a temporal term.
pub open spec fn term_text(t: Term) -> Seq<char>
    decreases t,
{
    match t {
        Term::Entity { ty, id } => ty@ + "::"@ + quote_text(id@),
        Term::Integer(n) => int_text(n as int),
        Term::Decimal(s) => "decimal("@ + quote_text(s@) + seq![')'],
        Term::String(s) => quote_text(s@),
        Term::Bool(b) => if b { "true"@ } else { "false"@ },
        Term::ContextField(path) => "context."@ + join_text(views(path@), "."@),
        Term::ScopeField(path) => join_text(views(path@), "."@),
        Term::Var(v) => sanitized_text(v@),
        Term::Wildcard => "*"@,
        Term::Array(items) => seq!['['] + join_text(terms_texts(items@), ", "@) + seq![']'],
        Term::Agg(agg) => agg_text(agg),
        Term::ParamRef(_) => Seq::empty(),
        Term::BinderRef(_) => Seq::empty(),
    }
}

/// The text of an aggregation.
pub open spec fn agg_text(a: AggExpr) -> Seq<char>
    decreases a,
{
    match a.kind {
        AggExprKind::Sum { bound_var, for_vars, body } => "sum "@ + binder_name_text(bound_var)
            + " for "@ + for_vars_text(for_vars@) + ". where "@ + seq!['('] + condition_text(*body)
            + seq![')'],
        AggExprKind::Count { for_vars, body } => "count for "@ + for_vars_text(for_vars@)
            + ". where "@ + seq!['('] + condition_text(*body) + seq![')'],
        AggExprKind::Call(_) => Seq::empty(),
    }
}

/// The head of a predicate: `Ns::Action::"id"::kind`.
pub open spec fn predicate_head_text(p: Predicate) -> Seq<char> {
    join_text(views(p.namespace@), "::"@) + "::"@ + quote_text(p.action@) + "::"@ + p.kind@
}

/// The text of a temporal condition.
pub open spec fn condition_text(c: Condition) -> Seq<char>
    decreases c,
{
    match c.kind {
        ConditionKind::And { left, right } => seq!['('] + condition_text(*left) + seq![')']
            + " && "@ + seq!['('] + condition_text(*right) + seq![')'],
        ConditionKind::Not { inner } => seq!['!', '('] + condition_text(*inner) + seq![')'],
        ConditionKind::Formerly { within, body } => "formerly within "@ + within_text(within)
            + seq![' ', '('] + condition_text(*body) + seq![')'],
        ConditionKind::Previous { within, body } => "previous within "@ + within_text(within)
            + seq![' ', '('] + condition_text(*body) + seq![')'],
        ConditionKind::Since { left, within, right } => seq!['('] + condition_text(*left) + seq![
            ')',
        ] + " since within "@ + within_text(within) + seq![' ', '('] + condition_text(*right)
            + seq![')'],
        ConditionKind::Predicate(p) => if p.args@.len() == 0 {
            predicate_head_text(p) + "{}"@
        } else {
            predicate_head_text(p) + "{ "@ + join_text(pred_args_texts(p.args@), ", "@) + " }"@
        },
        ConditionKind::Comparison { op, left, right } => term_text(left) + seq![' '] + cmp_text(op)
            + seq![' '] + term_text(right),
        ConditionKind::Exists { var, body } => "exists ("@ + binder_name_text(var.slot) + ": "@
            + binder_type_text(var.ty) + "). "@ + seq!['('] + condition_text(*body) + seq![')'],
        ConditionKind::Tp { var } => "tp("@ + binder_name_text(var) + seq![')'],
        _ => Seq::empty(),
    }
}

/// `slot` is a plain binder name.
pub open spec fn binder_expanded(slot: BinderSlot) -> bool {
    slot is Name
}

/// `t` holds no macro parameter or binder reference, and every aggregation
/// in it is expanded.
pub open spec fn term_expanded(t: Term) -> bool
    decreases t,
{
    match t {
        Term::Array(items) => forall|i: int|
            0 <= i < items@.len() ==> term_expanded(#[trigger] items@[i]),
        Term::Agg(agg) => agg_expanded(agg),
        Term::ParamRef(_) => false,
        Term::BinderRef(_) => false,
        _ => true,
    }
}

/// `a` is not a macro call, binds plain names, and its body is expanded.
pub open spec fn agg_expanded(a: AggExpr) -> bool
    decreases a,
{
    match a.kind {
        AggExprKind::Sum { bound_var, for_vars, body } => binder_expanded(bound_var) && (forall|
            i: int,
        | 0 <= i < for_vars@.len() ==> (#[trigger] for_vars@[i]).slot is Name) && condition_expanded(
            *body,
        ),
        AggExprKind::Count { for_vars, body } => (forall|i: int|
            0 <= i < for_vars@.len() ==> (#[trigger] for_vars@[i]).slot is Name) && condition_expanded(
            *body,
        ),
        AggExprKind::Call(_) => false,
    }
}

/// `c` holds nothing that cannot survive macro expansion: no `Or`, macro
/// call, sigil reference or `Refine`, every window concrete, every binder a
/// plain name, every term expanded.
pub open spec fn condition_expanded(c: Condition) -> bool
    decreases c,
{
    match c.kind {
        ConditionKind::And { left, right } => condition_expanded(*left) && condition_expanded(
            *right,
        ),
        ConditionKind::Not { inner } => condition_expanded(*inner),
        ConditionKind::Formerly { within, body } => within is Concrete && condition_expanded(
            *body,
        ),
        ConditionKind::Previous { within, body } => within is Concrete && condition_expanded(
            *body,
        ),
        ConditionKind::Since { left, within, right } => within is Concrete && condition_expanded(
            *left,
        ) && condition_expanded(*right),
        ConditionKind::Predicate(p) => forall|i: int|
            0 <= i < p.args@.len() ==> term_expanded(#[trigger] p.args@[i].value),
        ConditionKind::Comparison { left, right, .. } => term_expanded(left) && term_expanded(
            right,
        ),
        ConditionKind::Exists { var, body } => binder_expanded(var.slot) && condition_expanded(
            *body,
        ),
        ConditionKind::Tp { var } => binder_expanded(var),
        _ => false,
    }
}

/// A temporal sub-condition in operand position, always parenthesized.
pub fn cond_group(c: &Condition) -> (r: String)
    requires
        condition_expanded(*c),
    ensures
        r@ == seq!['('] + condition_text(*c) + seq![')'],
    decreases c, 1int,
{
    let mut out = char_string('(');
    out.append(render_condition(c).as_str());
    push_char(&mut out, ')');
    out
}

/// Renders a temporal term.
pub fn render_term(t: &Term) -> (r: String)
    requires
        term_expanded(*t),
    ensures
        r@ == term_text(*t),
    decreases t, 0int,
{
    match t {
        Term::Entity { ty, id } => {
            let mut out = string_of(ty.as_str());
            out.append("::");
            out.append(quote(id.as_str()).as_str());
            out
        },
        Term::Integer(n) => i64_text(*n),
        Term::Decimal(s) => {
            let mut out = string_of("decimal(");
            out.append(quote(s.as_str()).as_str());
            push_char(&mut out, ')');
            out
        },
        Term::String(s) => quote(s.as_str()),
        Term::Bool(b) => if *b { string_of("true") } else { string_of("false") },
        Term::ContextField(path) => {
            let mut out = string_of("context.");
            out.append(join(path, ".").as_str());
            out
        },
        Term::ScopeField(path) => join(path, "."),
        Term::Var(v) => sanitize_binder(v.as_str()),
        Term::Wildcard => string_of("*"),
        Term::Array(items) => {
            let parts = render_terms(items);
            let mut out = char_string('[');
            out.append(join(&parts, ", ").as_str());
            push_char(&mut out, ']');
            out
        },
        Term::Agg(agg) => render_agg(agg),
        Term::ParamRef(_) => String::new(),
        Term::BinderRef(_) => String::new(),
    }
}

/// Renders each term of a list.
pub fn render_terms(items: &Vec<Term>) -> (r: Vec<String>)
    requires
        forall|k: int| 0 <= k < items@.len() ==> term_expanded(#[trigger] items@[k]),
    ensures
        views(r@) == terms_texts(items@),
    decreases items, 0int,
{
    let mut parts: Vec<String> = Vec::new();
    let mut i: usize = 0;
    while i < items.len()
        invariant
            i <= items.len(),
            parts.len() == i,
            forall|k: int| 0 <= k < items@.len() ==> term_expanded(#[trigger] items@[k]),
            forall|j: int| 0 <= j < i ==> #[trigger] parts@[j]@ == term_text(items@[j]),
        decreases items.len() - i,
    {
        parts.push(render_term(&items[i]));
        i = i + 1;
    }
    assert(views(parts@) =~= terms_texts(items@));
    parts
}

/// Renders an aggregation.
pub fn render_agg(agg: &AggExpr) -> (r: String)
    requires
        agg_expanded(*agg),
    ensures
        r@ == agg_text(*agg),
    decreases agg, 0int,
{
    match &agg.kind {
        AggExprKind::Sum { bound_var, for_vars, body } => {
            let mut out = string_of("sum ");
            out.append(binder_name(bound_var).as_str());
            out.append(" for ");
            out.append(render_for_vars(for_vars).as_str());
            out.append(". where ");
            out.append(cond_group(body).as_str());
            out
        },
        AggExprKind::Count { for_vars, body } => {
            let mut out = string_of("count for ");
            out.append(render_for_vars(for_vars).as_str());
            out.append(". where ");
            out.append(cond_group(body).as_str());
            out
        },
        AggExprKind::Call(_) => String::new(),
    }
}

/// Renders an event predicate: `Ns::Action::"id"::kind{}` or
/// `Ns::Action::"id"::kind{ name: term, … }`.
pub fn render_predicate(p: &Predicate) -> (r: String)
    requires
        forall|i: int| 0 <= i < p.args@.len() ==> term_expanded(#[trigger] p.args@[i].value),
    ensures
        r@ == condition_text(Condition { kind: ConditionKind::Predicate(*p) }),
    decreases p, 0int,
{
    let mut head = join(&p.namespace, "::");
    head.append("::");
    head.append(quote(p.action.as_str()).as_str());
    head.append("::");
    head.append(p.kind.as_str());
    if p.args.len() == 0 {
        head.append("{}");
        return head;
    }
    let mut args: Vec<String> = Vec::new();
    let mut i: usize = 0;
    while i < p.args.len()
        invariant
            i <= p.args.len(),
            args.len() == i,
            forall|k: int| 0 <= k < p.args@.len() ==> term_expanded(#[trigger] p.args@[k].value),
            forall|j: int|
                0 <= j < i ==> #[trigger] args@[j]@ == p.args@[j].name@ + ": "@ + term_text(
                    p.args@[j].value,
                ),
        decreases p.args.len() - i,
    {
        let a = &p.args[i];
        let mut item = string_of(a.name.as_str());
        item.append(": ");
        item.append(render_term(&a.value).as_str());
        args.push(item);
        i = i + 1;
    }
    assert(views(args@) =~= pred_args_texts(p.args@));
    head.append("{ ");
    head.append(join(&args, ", ").as_str());
    head.append(" }");
    head
}

/// Renders a temporal condition; every sub-condition in operand position is
/// parenthesized.
pub fn render_condition(c: &Condition) -> (r: String)
    requires
        condition_expanded(*c),
    ensures
        r@ == condition_text(*c),
    decreases c, 0int,
{
    match &c.kind {
        ConditionKind::And { left, right } => {
            let mut out = cond_group(left);
            out.append(" && ");
            out.append(cond_group(right).as_str());
            out
        },
        ConditionKind::Not { inner } => {
            let mut out = char_string('!');
            out.append(cond_group(inner).as_str());
            out
        },
        ConditionKind::Formerly { within, body } => {
            let mut out = string_of("formerly within ");
            out.append(render_within(within).as_str());
            push_char(&mut out, ' ');
            out.append(cond_group(body).as_str());
            out
        },
        ConditionKind::Previous { within, body } => {
            let mut out = string_of("previous within ");
            out.append(render_within(within).as_str());
            push_char(&mut out, ' ');
            out.append(cond_group(body).as_str());
            out
        },
        ConditionKind::Since { left, within, right } => {
            let mut out = cond_group(left);
            out.append(" since within ");
            out.append(render_within(within).as_str());
            push_char(&mut out, ' ');
            out.append(cond_group(right).as_str());
            out
        },
        ConditionKind::Predicate(p) => render_predicate(p),
        ConditionKind::Comparison { op, left, right } => {
            let mut out = render_term(left);
            push_char(&mut out, ' ');
            out.append(cmp_symbol(*op));
            push_char(&mut out, ' ');
            out.append(render_term(right).as_str());
            out
        },
        ConditionKind::Exists { var, body } => {
            let mut out = string_of("exists (");
            out.append(binder_name(&var.slot).as_str());
            out.append(": ");
            out.append(render_binder_type(&var.ty).as_str());
            out.append("). ");
            out.append(cond_group(body).as_str());
            out
        },
        ConditionKind::Tp { var } => {
            let mut out = string_of("tp(");
            out.append(binder_name(var).as_str());
            push_char(&mut out, ')');
            out
        },
        _ => String::new(),
    }
}

/// The text of a Dogwood extension primary.
pub open spec fn extension_text(ext: Extension) -> Seq<char> {
    match ext {
        Extension::Temporal(t) => "temporal { "@ + condition_text(t.condition) + " }"@,
    }
}

/// Renders a Dogwood extension primary: `temporal { … }`.
pub fn render_extension(ext: &Extension) -> (r: String)
    requires
        match *ext {
            Extension::Temporal(t) => condition_expanded(t.condition),
        },
    ensures
        r@ == extension_text(*ext),
{
    match ext {
        Extension::Temporal(t) => {
            let mut out = string_of("temporal { ");
            out.append(render_condition(&t.condition).as_str());
            out.append(" }");
            out
        },
    }
}

// ─── clauses and policies ─────────────────────────────────────────────────

/// `when { … }` / `unless { … }`.
pub open spec fn cond_clause_text(c: Cond) -> Seq<char> {
    (match c.keyword {
        CondKeyword::When => "when { "@,
        CondKeyword::Unless => "unless { "@,
    }) + expr_text(c.body) + " }"@
}

/// Renders one `when { … }` / `unless { … }` clause.
pub fn render_cond_clause(cond: &Cond) -> (r: String)
    requires
        expr_expanded(cond.body),
    ensures
        r@ == cond_clause_text(*cond),
{
    let mut out = match cond.keyword {
        CondKeyword::When => string_of("when { "),
        CondKeyword::Unless => string_of("unless { "),
    };
    out.append(render_expr(&cond.body).as_str());
    out.append(" }");
    out
}

/// One annotation line: `@key("value")` or `@key`, then a newline.
pub open spec fn annotation_text(a: Annotation) -> Seq<char> {
    match a.value {
        Some(v) => seq!['@'] + a.key@ + seq!['('] + quote_text(v@) + seq![')', '\n'],
        None => seq!['@'] + a.key@ + seq!['\n'],
    }
}

/// The annotation lines, in order.
pub open spec fn annotations_text(anns: Seq<Annotation>) -> Seq<char>
    decreases anns.len(),
{
    if anns.len() == 0 {
        Seq::empty()
    } else {
        annotations_text(anns.drop_last()) + annotation_text(anns.last())
    }
}

/// The clauses, each on a line of its own.
pub open spec fn clauses_text(conds: Seq<Cond>) -> Seq<char>
    decreases conds.len(),
{
    if conds.len() == 0 {
        Seq::empty()
    } else {
        clauses_text(conds.drop_last()) + seq!['\n'] + cond_clause_text(conds.last())
    }
}

/// The text of a whole policy.
pub open spec fn policy_text(p: Policy) -> Seq<char> {
    annotations_text(p.annotations@) + (match p.effect {
        Effect::Permit => "permit"@,
        Effect::Forbid => "forbid"@,
    }) + " ("@ + scope_text(p.scope) + seq![')'] + clauses_text(p.conditions@) + seq![';']
}

/// Every clause body of `p` is expanded.
pub open spec fn policy_expanded(p: Policy) -> bool {
    forall|i: int| 0 <= i < p.conditions@.len() ==> expr_expanded(#[trigger] p.conditions@[i].body)
}

/// Render one policy back to `.dw` text: annotations, effect and scope, then
/// each `when` / `unless` clause on its own line, terminated by `;`.
pub fn render_policy(policy: &Policy) -> (r: String)
    requires
        policy_expanded(*policy),
    ensures
        r@ == policy_text(*policy),
{
    let mut out = String::new();
    let mut i: usize = 0;
    while i < policy.annotations.len()
        invariant
            i <= policy.annotations.len(),
            out@ == annotations_text(policy.annotations@.take(i as int)),
        decreases policy.annotations.len() - i,
    {
        let ann = &policy.annotations[i];
        push_char(&mut out, '@');
        out.append(ann.key.as_str());
        match &ann.value {
            Some(v) => {
                push_char(&mut out, '(');
                out.append(quote(v.as_str()).as_str());
                push_char(&mut out, ')');
            },
            None => {},
        }
        push_char(&mut out, '\n');
        assert(policy.annotations@.take(i + 1).drop_last() =~= policy.annotations@.take(i as int));
        i = i + 1;
    }
    assert(policy.annotations@.take(policy.annotations.len() as int) =~= policy.annotations@);
    let effect = match policy.effect {
        Effect::Permit => "permit",
        Effect::Forbid => "forbid",
    };
    out.append(effect);
    out.append(" (");
    out.append(render_scope(&policy.scope).as_str());
    push_char(&mut out, ')');
    let ghost head = out@;
    let mut j: usize = 0;
    while j < policy.conditions.len()
        invariant
            j <= policy.conditions.len(),
            policy_expanded(*policy),
            out@ == head + clauses_text(policy.conditions@.take(j as int)),
        decreases policy.conditions.len() - j,
    {
        push_char(&mut out, '\n');
        out.append(render_cond_clause(&policy.conditions[j]).as_str());
        assert(policy.conditions@.take(j + 1).drop_last() =~= policy.conditions@.take(j as int));
        j = j + 1;
    }
    assert(policy.conditions@.take(policy.conditions.len() as int) =~= policy.conditions@);
    push_char(&mut out, ';');
    out
}

// ─── laws ─────────────────────────────────────────────────────────────────

proof fn lemma_hex_char_inj(a: nat, b: nat)
    requires
        a < 16,
        b < 16,
        hex_char(a) == hex_char(b),
    ensures
        a == b,
{
}

proof fn lemma_hex_text_shape(n: nat)
    ensures
        hex_text(n).len() >= 1,
        n >= 16 ==> hex_text(n).len() >= 2,
        forall|i: int| 0 <= i < hex_text(n).len() ==> #[trigger] hex_text(n)[i] != '}',
    decreases n,
{
    if n >= 16 {
        lemma_hex_text_shape(n / 16);
        let h = hex_text(n / 16);
        assert forall|i: int| 0 <= i < hex_text(n).len() implies #[trigger] hex_text(n)[i] != '}' by {
            if i < h.len() {
                assert(hex_text(n)[i] == h[i]);
            }
        }
    }
}

proof fn lemma_hex_text_inj(a: nat, b: nat)
    requires
        hex_text(a) == hex_text(b),
    ensures
        a == b,
    decreases a,
{
    lemma_hex_text_shape(a);
    lemma_hex_text_shape(b);
    if a < 16 && b < 16 {
        assert(hex_text(a)[0] == hex_char(a));
        assert(hex_text(b)[0] == hex_char(b));
        lemma_hex_char_inj(a, b);
    } else if a >= 16 && b >= 16 {
        let ha = hex_text(a);
        let hb = hex_text(b);
        assert(ha.last() == hex_char(a % 16));
        assert(hb.last() == hex_char(b % 16));
        lemma_hex_char_inj(a % 16, b % 16);
        assert(ha.drop_last() =~= hex_text(a / 16));
        assert(hb.drop_last() =~= hex_text(b / 16));
        lemma_hex_text_inj(a / 16, b / 16);
    }
}

proof fn lemma_braced_split(x: Seq<char>, y: Seq<char>, p: Seq<char>, q: Seq<char>)
    requires
        forall|i: int| 0 <= i < x.len() ==> #[trigger] x[i] != '}',
        forall|i: int| 0 <= i < y.len() ==> #[trigger] y[i] != '}',
        x + seq!['}'] + p == y + seq!['}'] + q,
    ensures
        x == y,
        p == q,
{
    let l = x + seq!['}'] + p;
    let r = y + seq!['}'] + q;
    if x.len() < y.len() {
        assert(l[x.len() as int] == '}');
        assert(r[x.len() as int] == y[x.len() as int]);
    } else if y.len() < x.len() {
        assert(r[y.len() as int] == '}');
        assert(l[y.len() as int] == x[y.len() as int]);
    } else {
        assert forall|i: int| 0 <= i < x.len() implies x[i] == y[i] by {
            assert(l[i] == r[i]);
            assert((x + seq!['}'])[i] == x[i]);
            assert((y + seq!['}'])[i] == y[i]);
            assert(l[i] == (x + seq!['}'])[i]);
            assert(r[i] == (y + seq!['}'])[i]);
        }
        assert(x =~= y);
        let xa = x + seq!['}'];
        let ya = y + seq!['}'];
        assert(l.len() == r.len());
        assert(l.len() == x.len() + 1 + p.len());
        assert(r.len() == y.len() + 1 + q.len());
        assert forall|i: int| 0 <= i < p.len() implies p[i] == q[i] by {
            assert(l[xa.len() + i] == p[i]);
            assert(r[ya.len() + i] == q[i]);
        }
        assert(p =~= q);
    }
}

proof fn lemma_quoted_char_prefix(a: char, b: char, x: Seq<char>, y: Seq<char>)
    requires
        quoted_char(a) + x == quoted_char(b) + y,
    ensures
        a == b,
        x == y,
{
    let qa = quoted_char(a);
    let qb = quoted_char(b);
    let l = qa + x;
    let r = qb + y;
    assert(l[0] == qa[0]);
    assert(r[0] == qb[0]);
    if qa.len() == 1 || qb.len() == 1 {
        if qa.len() == 1 && qb.len() == 1 {
            assert(a == b);
            assert(x =~= l.skip(1));
            assert(y =~= r.skip(1));
        } else {
            assert(false);
        }
    } else {
        assert(l[1] == qa[1]);
        assert(r[1] == qb[1]);
        if is_control_char(a) && a != '\n' && a != '\r' && a != '\t' && a != '\0' && a != '"' && a != '\\' {
            assert(qb[1] == 'u');
            assert(is_control_char(b) && b != '\n' && b != '\r' && b != '\t' && b != '\0' && b != '"'
                && b != '\\');
            let ha = hex_text((a as u32) as nat);
            let hb = hex_text((b as u32) as nat);
            lemma_hex_text_shape((a as u32) as nat);
            lemma_hex_text_shape((b as u32) as nat);
            assert(l.skip(3) =~= ha + seq!['}'] + x);
            assert(r.skip(3) =~= hb + seq!['}'] + y);
            lemma_braced_split(ha, hb, x, y);
            lemma_hex_text_inj((a as u32) as nat, (b as u32) as nat);
        } else {
            assert(qa.len() == 2);
            assert(qb.len() == 2);
            assert(a == b);
            assert(x =~= l.skip(2));
            assert(y =~= r.skip(2));
        }
    }
}

proof fn lemma_quoted_body_front(s: Seq<char>)
    requires
        s.len() > 0,
    ensures
        quoted_body(s) == quoted_char(s[0]) + quoted_body(s.drop_first()),
    decreases s.len(),
{
    if s.len() > 1 {
        lemma_quoted_body_front(s.drop_last());
        assert(s.drop_last().drop_first() =~= s.drop_first().drop_last());
        assert(s.drop_first().last() == s.last());
        assert(quoted_body(s.drop_first()) == quoted_body(s.drop_first().drop_last()) + quoted_char(s.last()));
        assert(quoted_body(s) =~= quoted_char(s[0]) + quoted_body(s.drop_first()));
    } else {
        assert(s.drop_last() =~= Seq::<char>::empty());
        assert(s.drop_first() =~= Seq::<char>::empty());
        assert(quoted_body(s) =~= quoted_char(s[0]) + quoted_body(s.drop_first()));
    }
}

proof fn lemma_quoted_body_inj(a: Seq<char>, b: Seq<char>)
    requires
        quoted_body(a) == quoted_body(b),
    ensures
        a == b,
    decreases a.len() + b.len(),
{
    if a.len() == 0 && b.len() == 0 {
        assert(a =~= b);
    } else if a.len() == 0 {
        lemma_quoted_body_front(b);
        assert(quoted_body(b).len() > 0);
    } else if b.len() == 0 {
        lemma_quoted_body_front(a);
        assert(quoted_body(a).len() > 0);
    } else {
        lemma_quoted_body_front(a);
        lemma_quoted_body_front(b);
        lemma_quoted_char_prefix(a[0], b[0], quoted_body(a.drop_first()), quoted_body(b.drop_first()));
        lemma_quoted_body_inj(a.drop_first(), b.drop_first());
        assert(a =~= seq![a[0]] + a.drop_first());
        assert(b =~= seq![b[0]] + b.drop_first());
    }
}

/// `quote` loses nothing: two strings are quoted alike only if they are the
/// same string, so a reader that decodes the escapes gets back exactly the
/// quoted string.
pub proof fn lemma_quote_injective(a: Seq<char>, b: Seq<char>)
    requires
        quote_text(a) == quote_text(b),
    ensures
        a == b,
{
    let qa = quote_text(a);
    let qb = quote_text(b);
    assert(qa.len() == qb.len());
    assert(quoted_body(a) =~= qa.subrange(1, qa.len() - 1));
    assert(quoted_body(b) =~= qb.subrange(1, qb.len() - 1));
    lemma_quoted_body_inj(a, b);
}

/// A renamed binder holds no `$`.
pub proof fn lemma_sanitized_has_no_dollar(name: Seq<char>)
    ensures
        !sanitized_text(name).contains('$'),
{
}

/// A binder without `$` is written unchanged.
pub proof fn lemma_sanitize_keeps_plain_names(name: Seq<char>)
    requires
        !name.contains('$'),
    ensures
        sanitized_text(name) == name,
{
    assert forall|i: int| 0 <= i < name.len() implies sanitized_text(name)[i] == name[i] by {
        if name[i] == '$' {
            assert(name.contains('$'));
        }
    }
    assert(sanitized_text(name) =~= name);
}

/// Renaming is the same on every occurrence of a binder and keeps binders
/// apart that differ other than by `$` versus `_`: names that differ at a
/// position where neither holds `$` or `_` are written differently.
pub proof fn lemma_sanitize_separates(a: Seq<char>, b: Seq<char>, i: int)
    requires
        0 <= i < a.len(),
        i < b.len(),
        a[i] != b[i],
        a[i] != '$' && a[i] != '_',
        b[i] != '$' && b[i] != '_',
    ensures
        sanitized_text(a) != sanitized_text(b),
{
    assert(sanitized_text(a)[i] != sanitized_text(b)[i]);
}

/// A record key is written bare exactly when it is an identifier and not a
/// reserved word; otherwise it is quoted, and the quoted form is never an
/// identifier.
pub proof fn lemma_member_bare_iff_ident(name: Seq<char>)
    ensures
        (member_text(name) == name) <==> (is_ident_text(name) && !is_reserved_word(name)),
        !(is_ident_text(name) && !is_reserved_word(name)) ==> member_text(name)[0] == '"',
{
    if !(is_ident_text(name) && !is_reserved_word(name)) {
        assert(member_text(name).len() == quoted_body(name).len() + 2);
        assert(member_text(name)[0] == '"');
        lemma_quote_not_fixed(name);
    }
}

proof fn lemma_quoted_body_len(s: Seq<char>)
    ensures
        quoted_body(s).len() >= s.len(),
    decreases s.len(),
{
    if s.len() > 0 {
        lemma_quoted_body_len(s.drop_last());
    }
}

proof fn lemma_quote_not_fixed(s: Seq<char>)
    ensures
        quote_text(s) != s,
{
    lemma_quoted_body_len(s);
}

/// The Cedar comparison a temporal comparison operator means.
pub open spec fn cmp_as_binop(op: CmpOp) -> BinOp {
    match op {
        CmpOp::Le => BinOp::LessEq,
        CmpOp::Lt => BinOp::Less,
        CmpOp::Ge => BinOp::GreaterEq,
        CmpOp::Gt => BinOp::Greater,
        CmpOp::Eq => BinOp::Eq,
        CmpOp::NotEq => BinOp::NotEq,
    }
}

/// A temporal comparison is written with the infix symbol of the Cedar
/// comparison it means, and distinct operators are written distinctly, so a
/// rendered comparison reads back as the same operator.
pub proof fn lemma_cmp_symbols_are_cedar_symbols(a: CmpOp, b: CmpOp)
    ensures
        infix_symbol_text(cmp_as_binop(a)) == Some(cmp_text(a)),
        cmp_text(a) == cmp_text(b) ==> a == b,
{
    reveal_strlit("<=");
    reveal_strlit("<");
    reveal_strlit(">=");
    reveal_strlit(">");
    reveal_strlit("==");
    reveal_strlit("!=");
    assert(cmp_text(a).len() >= 1 && cmp_text(b).len() >= 1);
    if cmp_text(a) == cmp_text(b) {
        assert(cmp_text(a)[0] == cmp_text(b)[0]);
        assert(cmp_text(a).len() == cmp_text(b).len());
    }
}

} // verus!
