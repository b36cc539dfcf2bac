//! End-to-end tests: query strings through the grammar engine and the
//! AST builder.

use promql::ast::{Expr, InstantVector, LabelAndValue, Metric, Op, Scope, Sign, TimeUnit};
use promql::builder::{parse_expr, parse_metric_with_scope, parse_range_vector, BuildError};
use promql::grammar::PromQLParser;
use promql::tree::Rule;

fn scalar(text: &str) -> Expr {
    Expr::InstantVector(InstantVector::Scalar(String::from(text)))
}

fn binop(lhs: Expr, op: Op, rhs: Expr) -> Expr {
    Expr::BinOp { lhs: Box::new(lhs), op, rhs: Box::new(rhs) }
}

fn metric(name: &str) -> Expr {
    Expr::InstantVector(InstantVector::MetricWithScope(Metric {
        metric: String::from(name),
        scope: None,
    }))
}

fn query_expr(input: &str) -> Expr {
    let tree = PromQLParser::parse(Rule::Query, input).expect("query should parse");
    parse_expr(&tree).expect("AST should build")
}

#[test]
fn precedence_multiply_binds_tighter_than_add() {
    let e = query_expr("1 + 2 * 3");
    let expected = binop(scalar("1"), Op::Add, binop(scalar("2"), Op::Multiply, scalar("3")));
    assert_eq!(e, expected);
}

#[test]
fn subtraction_is_left_associative() {
    let e = query_expr("1 - 2 - 3");
    let expected = binop(
        binop(scalar("1"), Op::Subtract, scalar("2")),
        Op::Subtract,
        scalar("3"),
    );
    assert_eq!(e, expected);
}

#[test]
fn power_is_right_associative() {
    let e = query_expr("2 ^ 3 ^ 2");
    let expected = binop(scalar("2"), Op::Pow, binop(scalar("3"), Op::Pow, scalar("2")));
    assert_eq!(e, expected);
}

#[test]
fn unary_sign_binds_tighter_than_multiply() {
    let e = query_expr("-1 * 2");
    let expected = binop(
        Expr::Sign(Sign::Minus, Box::new(scalar("1"))),
        Op::Multiply,
        scalar("2"),
    );
    assert_eq!(e, expected);
}

#[test]
fn unary_sign_yields_to_power() {
    let e = query_expr("-2 ^ 3");
    let expected = Expr::Sign(Sign::Minus, Box::new(binop(scalar("2"), Op::Pow, scalar("3"))));
    assert_eq!(e, expected);
}

#[test]
fn comparison_binds_tighter_than_and() {
    let e = query_expr("a > b and c");
    let expected = binop(binop(metric("a"), Op::Gt, metric("b")), Op::And, metric("c"));
    assert_eq!(e, expected);
}

#[test]
fn or_and_unless_are_keyword_operators() {
    let e = query_expr("a or b unless c");
    let expected = binop(binop(metric("a"), Op::Or, metric("b")), Op::Unless, metric("c"));
    assert_eq!(e, expected);
}

#[test]
fn scope_extraction_preserves_predicate_order() {
    let tree = PromQLParser::parse(
        Rule::MetricWithScope,
        "http_requests{method=\"GET\", job!=\"backup\"}",
    )
    .expect("selector should parse");
    let m = parse_metric_with_scope(&tree).expect("metric should build");
    let expected = Metric {
        metric: String::from("http_requests"),
        scope: Some(Scope {
            labels: vec![
                LabelAndValue {
                    name: String::from("method"),
                    op: String::from("="),
                    value: String::from("GET"),
                },
                LabelAndValue {
                    name: String::from("job"),
                    op: String::from("!="),
                    value: String::from("backup"),
                },
            ],
        }),
    };
    assert_eq!(m, expected);
}

#[test]
fn malformed_selector_is_a_syntax_error() {
    let r = PromQLParser::parse(Rule::Query, "foo{bar}");
    assert!(r.is_err());
}

#[test]
fn selector_missing_value_is_a_syntax_error() {
    let r = PromQLParser::parse(Rule::Query, "foo{bar=}");
    assert!(r.is_err());
}

#[test]
fn range_vector_carries_magnitude_and_unit() {
    let tree = PromQLParser::parse(Rule::RangeVector, "http_requests[5m]")
        .expect("range vector should parse");
    let rv = parse_range_vector(&tree).expect("range vector should build");
    assert_eq!(
        rv.instant_vector,
        InstantVector::MetricWithScope(Metric { metric: String::from("http_requests"), scope: None })
    );
    assert_eq!(rv.range, 5);
    assert_eq!(rv.range_unit, TimeUnit::Minute);
}

#[test]
fn all_duration_units_are_recognized() {
    let cases = [
        ("x[7ms]", TimeUnit::Millisecond),
        ("x[7s]", TimeUnit::Second),
        ("x[7m]", TimeUnit::Minute),
        ("x[7h]", TimeUnit::Hour),
        ("x[7d]", TimeUnit::Day),
        ("x[7w]", TimeUnit::Week),
        ("x[7y]", TimeUnit::Year),
    ];
    for (input, unit) in cases {
        let tree = PromQLParser::parse(Rule::RangeVector, input).expect("should parse");
        let rv = parse_range_vector(&tree).expect("should build");
        assert_eq!(rv.range, 7);
        assert_eq!(rv.range_unit, unit);
    }
}

#[test]
fn duration_without_digits_fails() {
    let tree = PromQLParser::parse(Rule::RangeVector, "x[m]").expect("tree should parse");
    let r = parse_range_vector(&tree);
    assert!(matches!(r, Err(BuildError::SyntaxError { .. })));
}

#[test]
fn duration_with_unknown_unit_fails() {
    let tree = PromQLParser::parse(Rule::RangeVector, "x[5q]").expect("tree should parse");
    let r = parse_range_vector(&tree);
    assert!(matches!(r, Err(BuildError::SyntaxError { .. })));
}

#[test]
fn oversized_duration_magnitude_fails() {
    let tree = PromQLParser::parse(Rule::RangeVector, "x[99999999999999999999m]")
        .expect("tree should parse");
    let r = parse_range_vector(&tree);
    assert!(matches!(r, Err(BuildError::SyntaxError { .. })));
}

#[test]
fn bare_scope_parses_to_name_scope() {
    let e = query_expr("{job=\"node\"}");
    let expected = Expr::InstantVector(InstantVector::NameScope(Scope {
        labels: vec![LabelAndValue {
            name: String::from("job"),
            op: String::from("="),
            value: String::from("node"),
        }],
    }));
    assert_eq!(e, expected);
}

#[test]
fn regex_label_operators_are_kept_verbatim() {
    let e = query_expr("up{job=~\"prod.*\", env!~'dev'}");
    let expected = Expr::InstantVector(InstantVector::MetricWithScope(Metric {
        metric: String::from("up"),
        scope: Some(Scope {
            labels: vec![
                LabelAndValue {
                    name: String::from("job"),
                    op: String::from("=~"),
                    value: String::from("prod.*"),
                },
                LabelAndValue {
                    name: String::from("env"),
                    op: String::from("!~"),
                    value: String::from("dev"),
                },
            ],
        }),
    }));
    assert_eq!(e, expected);
}

#[test]
fn trailing_operator_is_a_syntax_error() {
    let r = PromQLParser::parse(Rule::Query, "1 +");
    assert!(r.is_err());
}

#[test]
fn empty_input_is_a_syntax_error() {
    let r = PromQLParser::parse(Rule::Query, "");
    assert!(r.is_err());
}

#[test]
fn leftover_input_is_a_syntax_error() {
    let r = PromQLParser::parse(Rule::Query, "1 2");
    assert!(r.is_err());
    if let Err(e) = r {
        assert_eq!(e.offset, 2);
    }
}

#[test]
fn non_ascii_input_is_rejected() {
    let r = PromQLParser::parse(Rule::Query, "métric");
    assert!(r.is_err());
}

#[test]
fn digit_only_inputs_parse_under_every_scalar_rule() {
    for rule in [Rule::Query, Rule::Expr, Rule::InstantVector, Rule::Scalar] {
        assert!(PromQLParser::parse(rule, "42").is_ok());
    }
}

#[test]
fn a_plain_metric_name_parses_under_every_vector_rule() {
    for rule in [Rule::Query, Rule::Expr, Rule::InstantVector, Rule::MetricWithScope] {
        assert!(PromQLParser::parse(rule, "node_load1").is_ok());
    }
}

#[test]
fn unsupported_start_rule_is_rejected() {
    let r = PromQLParser::parse(Rule::Ws, "  ");
    assert!(r.is_err());
}
