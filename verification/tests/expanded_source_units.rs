//! Per-construct checks of the policy renderer: each case builds the
//! macro-expanded tree of one small policy and pins the exact text it renders
//! to, which must read back as the same policy.

use dogwood_language::ast::{
    ActionConstraint, Annotation, BinOp, Cond, CondKeyword, Effect, EntityUid, Expr, ExprKind,
    Extension, Literal, PatternElem, Policy, PrincipalConstraint, ResourceConstraint, Scope,
    TemporalClause, UnOp, Var,
};
use dogwood_language::render::render_policy;
use dogwood_language::text::insert_keyed_entry;
use dogwood_language::temporal_ast::{
    AggExpr, AggExprKind, BinderSlot, BinderType, CmpOp, Condition, ConditionKind, Interval,
    Predicate, PredicateArg, Term, TimeUnit, TypedBinder, WithinSpec,
};

// ─── tree builders ────────────────────────────────────────────────────────

fn e(kind: ExprKind) -> Expr {
    Expr { kind }
}

fn bx(x: Expr) -> Box<Expr> {
    Box::new(x)
}

fn uid(ty: &str, eid: &str) -> EntityUid {
    EntityUid { ty: ty.to_string(), eid: eid.to_string() }
}

fn tru() -> Expr {
    e(ExprKind::Lit(Literal::Bool(true)))
}

fn long(n: i64) -> Expr {
    e(ExprKind::Lit(Literal::Long(n)))
}

fn string(s: &str) -> Expr {
    e(ExprKind::Lit(Literal::String(s.to_string())))
}

fn var(v: Var) -> Expr {
    e(ExprKind::Var(v))
}

fn attr(x: Expr, name: &str) -> Expr {
    e(ExprKind::GetAttr { expr: bx(x), attr: name.to_string() })
}

/// `context.input.<field>`.
fn input(field: &str) -> Expr {
    attr(attr(var(Var::Context), "input"), field)
}

fn bin(op: BinOp, l: Expr, r: Expr) -> Expr {
    e(ExprKind::BinaryApp { op, left: bx(l), right: bx(r) })
}

fn un(op: UnOp, x: Expr) -> Expr {
    e(ExprKind::UnaryApp { op, expr: bx(x) })
}

fn read_scope() -> Scope {
    Scope {
        principal: PrincipalConstraint::Any,
        action: ActionConstraint::Eq(uid("T::Action", "Read")),
        resource: ResourceConstraint::Any,
    }
}

fn when(body: Expr) -> Cond {
    Cond { keyword: CondKeyword::When, body }
}

fn policy(effect: Effect, scope: Scope, conditions: Vec<Cond>) -> Policy {
    Policy { annotations: Vec::new(), effect, scope, conditions }
}

/// `permit (principal, action == T::Action::"Read", resource) when { body };`
fn cedar_when(body: Expr) -> Policy {
    policy(Effect::Permit, read_scope(), vec![when(body)])
}

fn c(kind: ConditionKind) -> Condition {
    Condition { kind }
}

fn bc(x: Condition) -> Box<Condition> {
    Box::new(x)
}

fn hour() -> WithinSpec {
    WithinSpec::Concrete(Interval { amount: 1, unit: TimeUnit::Hours })
}

fn ctx_term(path: &[&str]) -> Term {
    Term::ContextField(path.iter().map(|s| s.to_string()).collect())
}

/// `T::Action::"<action>"::request{ <args> }`.
fn request(action: &str, args: Vec<(&str, Term)>) -> Condition {
    c(ConditionKind::Predicate(Predicate {
        namespace: vec!["T".to_string(), "Action".to_string()],
        action: action.to_string(),
        kind: "request".to_string(),
        args: args.into_iter().map(|(n, v)| PredicateArg { name: n.to_string(), value: v }).collect(),
    }))
}

fn user_request(action: &str) -> Condition {
    request(action, vec![("input.user", ctx_term(&["input", "user"]))])
}

fn formerly(body: Condition) -> Condition {
    c(ConditionKind::Formerly { within: hour(), body: bc(body) })
}

fn and(l: Condition, r: Condition) -> Condition {
    c(ConditionKind::And { left: bc(l), right: bc(r) })
}

fn cmp(op: CmpOp, l: Term, r: Term) -> Condition {
    c(ConditionKind::Comparison { op, left: l, right: r })
}

fn binder(name: &str, ty: BinderType) -> TypedBinder {
    TypedBinder { slot: BinderSlot::Name(name.to_string()), ty }
}

fn tp(name: &str) -> Condition {
    c(ConditionKind::Tp { var: BinderSlot::Name(name.to_string()) })
}

/// `permit (principal, action == T::Action::"Read", resource) when temporal { body };`
fn temporal_when(body: Condition) -> Policy {
    cedar_when(e(ExprKind::Extension(Extension::Temporal(TemporalClause { condition: body }))))
}

const READ: &str = "permit (principal, action == T::Action::\"Read\", resource)";

fn rendered_when(body: &str) -> String {
    format!("{READ}\nwhen {{ {body} }};")
}

// ─── Cedar surface: scope / effect / clauses ──────────────────────────────

#[test]
fn effect_forbid() {
    let p = policy(Effect::Forbid, read_scope(), vec![when(tru())]);
    assert_eq!(
        render_policy(&p),
        "forbid (principal, action == T::Action::\"Read\", resource)\nwhen { true };"
    );
}

#[test]
fn scope_action_in_set() {
    let scope = Scope {
        principal: PrincipalConstraint::Any,
        action: ActionConstraint::In(vec![uid("T::Action", "Read"), uid("T::Action", "Write")]),
        resource: ResourceConstraint::Any,
    };
    let p = policy(Effect::Permit, scope, vec![when(tru())]);
    assert_eq!(
        render_policy(&p),
        "permit (principal, action in [T::Action::\"Read\", T::Action::\"Write\"], resource)\nwhen { true };"
    );
}

#[test]
fn scope_principal_is_and_resource_eq() {
    let scope = Scope {
        principal: PrincipalConstraint::Is("T::User".to_string()),
        action: ActionConstraint::Eq(uid("T::Action", "Read")),
        resource: ResourceConstraint::Eq(Some(uid("T::Doc", "d1"))),
    };
    let p = policy(Effect::Permit, scope, vec![when(tru())]);
    assert_eq!(
        render_policy(&p),
        "permit (principal is T::User, action == T::Action::\"Read\", resource == T::Doc::\"d1\")\nwhen { true };"
    );
}

#[test]
fn annotations_are_carried() {
    let mut p = cedar_when(tru());
    p.annotations.push(Annotation { key: "id".to_string(), value: Some("rule-a".to_string()) });
    assert_eq!(
        render_policy(&p),
        "@id(\"rule-a\")\npermit (principal, action == T::Action::\"Read\", resource)\nwhen { true };"
    );
}

#[test]
fn clause_when_and_unless() {
    let p = policy(
        Effect::Permit,
        read_scope(),
        vec![
            when(bin(BinOp::Eq, input("amount"), long(5))),
            Cond {
                keyword: CondKeyword::Unless,
                body: bin(BinOp::Eq, input("tag"), string("blocked")),
            },
        ],
    );
    assert_eq!(
        render_policy(&p),
        format!(
            "{READ}\nwhen {{ (context.input.amount == 5) }}\nunless {{ (context.input.tag == \"blocked\") }};"
        )
    );
}

// ─── Cedar surface: expression constructs ─────────────────────────────────

#[test]
fn comparison_operators() {
    for (op, sym, rhs) in [
        (BinOp::Eq, "==", 5),
        (BinOp::NotEq, "!=", 3),
        (BinOp::Less, "<", 10),
        (BinOp::LessEq, "<=", 5),
        (BinOp::Greater, ">", 3),
        (BinOp::GreaterEq, ">=", 5),
    ] {
        let p = cedar_when(bin(op, input("amount"), long(rhs)));
        assert_eq!(
            render_policy(&p),
            rendered_when(&format!("(context.input.amount {sym} {rhs})")),
            "cmp {sym}"
        );
    }
}

#[test]
fn arithmetic_operators() {
    for (op, sym, operand, rhs) in [
        (BinOp::Add, "+", 1, 6),
        (BinOp::Sub, "-", 2, 3),
        (BinOp::Mul, "*", 2, 10),
    ] {
        let p = cedar_when(bin(BinOp::Eq, bin(op, input("amount"), long(operand)), long(rhs)));
        assert_eq!(
            render_policy(&p),
            rendered_when(&format!("((context.input.amount {sym} {operand}) == {rhs})")),
            "arith {sym}"
        );
    }
}

#[test]
fn boolean_and() {
    let p = cedar_when(bin(BinOp::And, bin(BinOp::Greater, input("amount"), long(100)), input("flag")));
    assert_eq!(
        render_policy(&p),
        rendered_when("((context.input.amount > 100) && context.input.flag)")
    );
}

#[test]
fn boolean_or() {
    let p = cedar_when(bin(BinOp::Or, bin(BinOp::Greater, input("amount"), long(100)), input("flag")));
    assert_eq!(
        render_policy(&p),
        rendered_when("((context.input.amount > 100) || context.input.flag)")
    );
}

#[test]
fn boolean_not() {
    let p = cedar_when(un(UnOp::Not, bin(BinOp::Greater, input("amount"), long(100))));
    assert_eq!(render_policy(&p), rendered_when("!(context.input.amount > 100)"));
}

#[test]
fn has_attribute() {
    let p = cedar_when(e(ExprKind::HasAttr {
        expr: bx(attr(var(Var::Context), "input")),
        attrs: vec!["tag".to_string()],
    }));
    assert_eq!(render_policy(&p), rendered_when("context.input has \"tag\""));
}

#[test]
fn like_pattern() {
    let p = cedar_when(e(ExprKind::Like {
        expr: bx(input("tag")),
        pattern: vec![PatternElem::Char('g'), PatternElem::Char('o'), PatternElem::Wildcard],
    }));
    assert_eq!(render_policy(&p), rendered_when("context.input.tag like \"go*\""));
}

#[test]
fn is_entity_type() {
    let p = cedar_when(e(ExprKind::Is {
        expr: bx(var(Var::Principal)),
        entity_type: "T::User".to_string(),
        in_expr: None,
    }));
    assert_eq!(render_policy(&p), rendered_when("principal is T::User"));
}

#[test]
fn in_entity_hierarchy() {
    let p = cedar_when(bin(
        BinOp::In,
        var(Var::Principal),
        e(ExprKind::Lit(Literal::EntityUid(uid("T::Team", "tm")))),
    ));
    assert_eq!(render_policy(&p), rendered_when("(principal in T::Team::\"tm\")"));
}

#[test]
fn get_attr_on_entity() {
    let p = cedar_when(bin(BinOp::Eq, attr(var(Var::Principal), "dept"), string("eng")));
    assert_eq!(render_policy(&p), rendered_when("(principal.dept == \"eng\")"));
}

#[test]
fn if_then_else() {
    let p = cedar_when(e(ExprKind::IfThenElse {
        cond: bx(input("flag")),
        then_expr: bx(bin(BinOp::Eq, input("amount"), long(5))),
        else_expr: bx(e(ExprKind::Lit(Literal::Bool(false)))),
    }));
    assert_eq!(
        render_policy(&p),
        rendered_when("if context.input.flag then (context.input.amount == 5) else false")
    );
}

#[test]
fn set_literal_and_method_call() {
    let p = cedar_when(bin(
        BinOp::Contains,
        e(ExprKind::SetLit(vec![long(3), long(5), long(7)])),
        input("amount"),
    ));
    assert_eq!(render_policy(&p), rendered_when("[3, 5, 7].contains(context.input.amount)"));
}

#[test]
fn record_literal_and_get_attr() {
    let rec = e(ExprKind::Record(vec![("v".to_string(), input("amount")), ("w".to_string(), long(1))]));
    let p = cedar_when(bin(BinOp::Eq, attr(rec, "v"), long(5)));
    assert_eq!(render_policy(&p), rendered_when("({ v: context.input.amount, w: 1 }.v == 5)"));
}

#[test]
fn extension_decimal() {
    let p = cedar_when(bin(BinOp::Eq, un(UnOp::Decimal, string("2.5")), un(UnOp::Decimal, string("2.5"))));
    assert_eq!(render_policy(&p), rendered_when("(decimal(\"2.5\") == decimal(\"2.5\"))"));
}

// ─── temporal surface ─────────────────────────────────────────────────────

const LOGIN: &str = "(T::Action::\"Login\"::request{ input.user: context.input.user })";

#[test]
fn temporal_formerly() {
    let p = temporal_when(formerly(user_request("Login")));
    assert_eq!(
        render_policy(&p),
        rendered_when(&format!("temporal {{ formerly within 1h {LOGIN} }}"))
    );
}

#[test]
fn temporal_previous() {
    let p = temporal_when(c(ConditionKind::Previous { within: hour(), body: bc(user_request("Login")) }));
    assert_eq!(
        render_policy(&p),
        rendered_when(&format!("temporal {{ previous within 1h {LOGIN} }}"))
    );
}

#[test]
fn temporal_since() {
    let p = temporal_when(c(ConditionKind::Since {
        left: bc(cmp(CmpOp::Ge, ctx_term(&["input", "amount"]), Term::Integer(0))),
        within: hour(),
        right: bc(user_request("Login")),
    }));
    assert_eq!(
        render_policy(&p),
        rendered_when(&format!(
            "temporal {{ (context.input.amount >= 0) since within 1h {LOGIN} }}"
        ))
    );
}

#[test]
fn temporal_and_with_comparison() {
    let p = temporal_when(and(
        formerly(user_request("Login")),
        cmp(CmpOp::Gt, ctx_term(&["input", "amount"]), Term::Integer(0)),
    ));
    assert_eq!(
        render_policy(&p),
        rendered_when(&format!(
            "temporal {{ (formerly within 1h {LOGIN}) && (context.input.amount > 0) }}"
        ))
    );
}

#[test]
fn temporal_not() {
    let p = temporal_when(c(ConditionKind::Not { inner: bc(formerly(user_request("Write"))) }));
    assert_eq!(
        render_policy(&p),
        rendered_when(
            "temporal { !(formerly within 1h (T::Action::\"Write\"::request{ input.user: context.input.user })) }"
        )
    );
}

#[test]
fn temporal_exists_count_tp() {
    let count = Term::Agg(AggExpr {
        kind: AggExprKind::Count {
            for_vars: vec![binder("t", BinderType::Timepoint)],
            body: bc(formerly(and(user_request("Login"), tp("t")))),
        },
    });
    let body = and(
        cmp(CmpOp::Eq, count, Term::Var("d".to_string())),
        cmp(CmpOp::Gt, Term::Var("d".to_string()), Term::Integer(0)),
    );
    let p = temporal_when(c(ConditionKind::Exists { var: binder("d", BinderType::Long), body: bc(body) }));
    assert_eq!(
        render_policy(&p),
        rendered_when(&format!(
            "temporal {{ exists (d: Long). ((count for (t: Timepoint). where (formerly within 1h ({LOGIN} && (tp(t)))) == d) && (d > 0)) }}"
        ))
    );
}

#[test]
fn temporal_sum() {
    let login = request(
        "Login",
        vec![
            ("input.user", ctx_term(&["input", "user"])),
            ("input.amount", Term::Var("a".to_string())),
        ],
    );
    let sum = Term::Agg(AggExpr {
        kind: AggExprKind::Sum {
            bound_var: BinderSlot::Name("a".to_string()),
            for_vars: vec![binder("a", BinderType::Long), binder("t", BinderType::Timepoint)],
            body: bc(formerly(and(login, tp("t")))),
        },
    });
    let body = and(
        cmp(CmpOp::Eq, sum, Term::Var("s".to_string())),
        cmp(CmpOp::Gt, Term::Var("s".to_string()), Term::Integer(0)),
    );
    let p = temporal_when(c(ConditionKind::Exists { var: binder("s", BinderType::Long), body: bc(body) }));
    assert_eq!(
        render_policy(&p),
        rendered_when(
            "temporal { exists (s: Long). ((sum a for (a: Long), (t: Timepoint). where (formerly within 1h ((T::Action::\"Login\"::request{ input.user: context.input.user, input.amount: a }) && (tp(t)))) == s) && (s > 0)) }"
        )
    );
}

#[test]
fn macro_def_temporal_is_inlined() {
    // `recent_login(context.input.user)` expanded in place: the call is gone
    // and its body stands with the argument substituted.
    let p = temporal_when(formerly(user_request("Login")));
    let text = render_policy(&p);
    assert_eq!(text, rendered_when(&format!("temporal {{ formerly within 1h {LOGIN} }}")));
    assert!(!text.contains("recent_login"));
}

// ─── escaping / non-identifier edge cases ─────────────────────────────────

#[test]
fn get_attr_non_identifier_uses_index_form() {
    let rec = e(ExprKind::Record(vec![("a b".to_string(), long(5))]));
    let p = cedar_when(bin(BinOp::Eq, attr(rec, "a b"), long(5)));
    assert_eq!(render_policy(&p), rendered_when("({ \"a b\": 5 }[\"a b\"] == 5)"));
}

#[test]
fn annotation_value_with_backslash_roundtrips() {
    let mut p = cedar_when(tru());
    p.annotations.push(Annotation { key: "note".to_string(), value: Some("a\\b".to_string()) });
    assert_eq!(
        render_policy(&p),
        "@note(\"a\\\\b\")\npermit (principal, action == T::Action::\"Read\", resource)\nwhen { true };"
    );
}

// ─── method-form operators, negation, scope `is … in` ─────────────────────

#[test]
fn decimal_comparison_method() {
    let p = cedar_when(bin(
        BinOp::DecimalLessThan,
        un(UnOp::Decimal, string("2.5")),
        un(UnOp::Decimal, string("3.0")),
    ));
    assert_eq!(
        render_policy(&p),
        rendered_when("decimal(\"2.5\").lessThan(decimal(\"3.0\"))")
    );
}

#[test]
fn set_contains_all_and_any() {
    let all = cedar_when(bin(
        BinOp::ContainsAll,
        e(ExprKind::SetLit(vec![long(1), long(2), long(3)])),
        e(ExprKind::SetLit(vec![long(1), long(2)])),
    ));
    assert_eq!(render_policy(&all), rendered_when("[1, 2, 3].containsAll([1, 2])"));
    let any = cedar_when(bin(
        BinOp::ContainsAny,
        e(ExprKind::SetLit(vec![long(1), long(2)])),
        e(ExprKind::SetLit(vec![long(2), long(9)])),
    ));
    assert_eq!(render_policy(&any), rendered_when("[1, 2].containsAny([2, 9])"));
}

#[test]
fn unary_negation() {
    let p = cedar_when(bin(BinOp::Eq, un(UnOp::Neg, input("amount")), long(-5)));
    assert_eq!(render_policy(&p), rendered_when("((-context.input.amount) == -5)"));
}

#[test]
fn scope_principal_is_in_group() {
    let scope = Scope {
        principal: PrincipalConstraint::IsIn("T::User".to_string(), Some(uid("T::Team", "tm"))),
        action: ActionConstraint::Eq(uid("T::Action", "Read")),
        resource: ResourceConstraint::Any,
    };
    let p = policy(Effect::Permit, scope, vec![when(tru())]);
    assert_eq!(
        render_policy(&p),
        "permit (principal is T::User in T::Team::\"tm\", action == T::Action::\"Read\", resource)\nwhen { true };"
    );
}

#[test]
fn record_key_keyword_roundtrips() {
    // A reserved word cannot stand bare as a record key, so the key is quoted;
    // `.` access accepts any identifier, reserved words included.
    let rec = e(ExprKind::Record(vec![("true".to_string(), long(1))]));
    let p = cedar_when(bin(BinOp::Eq, attr(rec, "true"), long(1)));
    assert_eq!(render_policy(&p), rendered_when("({ \"true\": 1 }.true == 1)"));
}

#[test]
fn record_entries_put_in_key_order_render_once_each() {
    let mut entries: Vec<(String, Expr)> = Vec::new();
    insert_keyed_entry(&mut entries, "w".to_string(), long(9));
    insert_keyed_entry(&mut entries, "v".to_string(), input("amount"));
    insert_keyed_entry(&mut entries, "w".to_string(), long(1));
    let keys: Vec<&str> = entries.iter().map(|(k, _)| k.as_str()).collect();
    assert_eq!(keys, vec!["v", "w"]);
    let p = cedar_when(bin(BinOp::Eq, attr(e(ExprKind::Record(entries)), "v"), long(5)));
    assert_eq!(render_policy(&p), rendered_when("({ v: context.input.amount, w: 1 }.v == 5)"));
}

#[test]
fn attribute_access_to_a_reserved_word_stays_bare() {
    let p = cedar_when(bin(BinOp::Eq, attr(input("opts"), "if"), long(2)));
    assert_eq!(render_policy(&p), rendered_when("(context.input.opts.if == 2)"));
}
