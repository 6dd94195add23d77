//! The renderer's leaves and small pieces: quoting, member names, binder
//! renaming, literals, operators and terms.

use dogwood_language::ast::{
    ActionConstraint, BinOp, EntityUid, Expr, ExprKind, Literal, PatternElem, PrincipalConstraint,
    ResourceConstraint, Scope, SlotId, UnOp, Var,
};
use dogwood_language::render::{
    atom, infix_symbol, is_ident, member, method_name, needs_parens, quote, render_expr, render_literal,
    render_principal, render_resource, render_scope, render_term, render_unary, sanitize_binder,
    zero_arg_method,
};
use dogwood_language::provider::is_cedar_extension_method;
use dogwood_language::temporal_ast::Term;

fn e(kind: ExprKind) -> Expr {
    Expr { kind }
}

fn ctx() -> Expr {
    e(ExprKind::Var(Var::Context))
}

#[test]
fn quote_escapes_only_what_the_decoder_needs() {
    assert_eq!(quote("plain"), "\"plain\"");
    assert_eq!(quote("o'brien"), "\"o'brien\"");
    assert_eq!(quote("a\"b\\c"), "\"a\\\"b\\\\c\"");
    assert_eq!(quote("\n\r\t\0"), "\"\\n\\r\\t\\0\"");
    assert_eq!(quote("\u{7f}\u{1}\u{9f}"), "\"\\u{7f}\\u{1}\\u{9f}\"");
    assert_eq!(quote("café π 🔒"), "\"café π 🔒\"");
    assert_eq!(quote(""), "\"\"");
}

#[test]
fn quote_keeps_distinct_strings_distinct() {
    let samples = ["a\\b", "a\\\\b", "a\"b", "ab", "a\u{1}b", "a\\u{1}b", "\\n", "\n"];
    for (i, a) in samples.iter().enumerate() {
        for b in &samples[i + 1..] {
            assert_ne!(quote(a), quote(b), "{a:?} and {b:?}");
        }
    }
}

#[test]
fn members_are_bare_only_when_identifiers() {
    assert!(is_ident("_x1"));
    assert!(is_ident("Abc"));
    assert!(!is_ident(""));
    assert!(!is_ident("1x"));
    assert!(!is_ident("a b"));
    assert!(!is_ident("café"));
    for word in ["true", "false", "if", "then", "else", "in", "is", "has", "like"] {
        assert!(is_ident(word), "{word} can follow `.`");
        assert_eq!(member(word), format!("\"{word}\""), "{word} is quoted as a record key");
    }
    assert_eq!(member("tag"), "tag");
    assert_eq!(member("a b"), "\"a b\"");
}

#[test]
fn binders_lose_their_dollar() {
    assert_eq!(sanitize_binder("t$372"), "t_372");
    assert_eq!(sanitize_binder("$a$b$"), "_a_b_");
    assert_eq!(sanitize_binder("plain_name"), "plain_name");
}

#[test]
fn literals_use_cedar_text() {
    assert_eq!(render_literal(&Literal::Long(-42)), "-42");
    assert_eq!(render_literal(&Literal::Long(i64::MIN)), "-9223372036854775808");
    assert_eq!(render_literal(&Literal::Bool(false)), "false");
    assert_eq!(render_literal(&Literal::String("it's \"x\"".to_string())), "\"it\\'s \\\"x\\\"\"");
    assert_eq!(
        render_literal(&Literal::EntityUid(EntityUid { ty: "A::B".to_string(), eid: "x\"y".to_string() })),
        "A::B::\"x\\\"y\""
    );
}

#[test]
fn scope_slots_and_constraints() {
    assert_eq!(render_principal(&PrincipalConstraint::In(None)), "principal in ?principal");
    assert_eq!(render_resource(&ResourceConstraint::Eq(None)), "resource == ?resource");
    assert_eq!(render_resource(&ResourceConstraint::Is("T::Doc".to_string())), "resource is T::Doc");
    let scope = Scope {
        principal: PrincipalConstraint::Eq(None),
        action: ActionConstraint::Any,
        resource: ResourceConstraint::IsIn("T::Doc".to_string(), None),
    };
    assert_eq!(render_scope(&scope), "principal == ?principal, action, resource is T::Doc in ?resource");
    let _ = SlotId::Principal;
}

#[test]
fn operators_and_methods() {
    assert_eq!(infix_symbol(BinOp::In), Some("in"));
    assert_eq!(infix_symbol(BinOp::HasTag), None);
    assert_eq!(method_name(BinOp::DecimalGreaterEq), "greaterThanOrEqual");
    assert_eq!(method_name(BinOp::IsInRange), "isInRange");
    assert_eq!(zero_arg_method(UnOp::ToMilliseconds), "toMilliseconds");
    assert_eq!(render_unary(UnOp::IsEmpty, &ctx()), "context.isEmpty()");
    assert_eq!(render_unary(UnOp::Ip, &e(ExprKind::Lit(Literal::String("1.2.3.4".to_string())))), "ip(\"1.2.3.4\")");
}

#[test]
fn only_non_primary_forms_are_wrapped() {
    let neg = e(ExprKind::UnaryApp { op: UnOp::Neg, expr: Box::new(ctx()) });
    assert!(needs_parens(&neg));
    assert_eq!(atom(&neg), "(-context)");
    let sum = e(ExprKind::BinaryApp { op: BinOp::Add, left: Box::new(ctx()), right: Box::new(ctx()) });
    assert!(!needs_parens(&sum));
    assert_eq!(atom(&sum), "(context + context)");
    let has = e(ExprKind::HasAttr { expr: Box::new(ctx()), attrs: vec!["a".to_string(), "b".to_string()] });
    assert_eq!(atom(&has), "(context has \"a\".b)");
}

#[test]
fn temporal_terms() {
    assert_eq!(render_term(&Term::Entity { ty: "T::User".to_string(), id: "a\"b".to_string() }), "T::User::\"a\\\"b\"");
    assert_eq!(render_term(&Term::Decimal("1.5".to_string())), "decimal(\"1.5\")");
    assert_eq!(render_term(&Term::ScopeField(vec!["principal".to_string(), "id".to_string()])), "principal.id");
    assert_eq!(render_term(&Term::Var("t$9".to_string())), "t_9");
    assert_eq!(render_term(&Term::Wildcard), "*");
    assert_eq!(render_term(&Term::Array(vec![Term::Integer(1), Term::Bool(true)])), "[1, true]");
}

#[test]
fn like_patterns_escape_a_literal_star() {
    let like = e(ExprKind::Like {
        expr: Box::new(ctx()),
        pattern: vec![PatternElem::Char('a'), PatternElem::Char('*'), PatternElem::Wildcard, PatternElem::Char('"')],
    });
    assert_eq!(render_expr(&like), "context like \"a\\**\\\"\"");
}

#[test]
fn extension_method_names_are_the_rendered_method_names() {
    let bin = [
        BinOp::Eq, BinOp::NotEq, BinOp::Less, BinOp::LessEq, BinOp::Greater, BinOp::GreaterEq, BinOp::And,
        BinOp::Or, BinOp::Add, BinOp::Sub, BinOp::Mul, BinOp::In, BinOp::Contains, BinOp::ContainsAll,
        BinOp::ContainsAny, BinOp::GetTag, BinOp::HasTag, BinOp::IsInRange, BinOp::Offset,
        BinOp::DurationSince, BinOp::DecimalLessThan, BinOp::DecimalLessEq, BinOp::DecimalGreater,
        BinOp::DecimalGreaterEq,
    ];
    let mut names: Vec<&str> = Vec::new();
    for op in bin {
        if infix_symbol(op).is_none() {
            names.push(method_name(op));
        }
    }
    let un = [
        UnOp::IsEmpty, UnOp::IsIpv4, UnOp::IsIpv6, UnOp::IsLoopback, UnOp::IsMulticast, UnOp::ToDate,
        UnOp::ToTime, UnOp::ToMilliseconds, UnOp::ToSeconds, UnOp::ToMinutes, UnOp::ToHours, UnOp::ToDays,
    ];
    for op in un {
        names.push(zero_arg_method(op));
    }
    assert_eq!(names.len(), 24);
    for n in &names {
        assert!(is_cedar_extension_method(n), "{n}");
    }
    for n in ["in", "like", "decimal", "ip", "upper", "isInRange2", ""] {
        assert!(!is_cedar_extension_method(n), "{n}");
    }
}
