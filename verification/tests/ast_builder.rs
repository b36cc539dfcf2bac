//! Tests of the AST builder and precedence resolver on parse trees and
//! item lists built by hand.

use promql::ast::{
    op_tier, tier_right_assoc, Expr, Function, FunctionOperand, InstantVector, Metric, Op, Param,
    Sign,
};
use promql::builder::{
    parse_expr, parse_instant_vector, parse_param, parse_scope, resolve_precedence, BuildError,
};
use promql::grammar::PromQLParser;
use promql::tree::{ParseNode, Rule};

fn leaf(rule: Rule, start: usize, end: usize, text: &str) -> ParseNode {
    ParseNode { rule, start, end, text: String::from(text), children: Vec::new() }
}

fn inner(rule: Rule, children: Vec<ParseNode>) -> ParseNode {
    let start = children[0].start;
    let end = children[children.len() - 1].end;
    ParseNode { rule, start, end, text: String::new(), children }
}

fn scalar(text: &str) -> Expr {
    Expr::InstantVector(InstantVector::Scalar(String::from(text)))
}

#[test]
fn function_call_with_range_operand_builds() {
    let tree = PromQLParser::parse(Rule::Query, "rate(http_requests[5m])").expect("should parse");
    let e = parse_expr(&tree).expect("should build");
    match e {
        Expr::InstantVector(InstantVector::Func(f)) => {
            assert_eq!(f.name, "rate");
            assert!(f.params.is_none());
            match &f.operand {
                FunctionOperand::Range(rv) => {
                    assert_eq!(rv.range, 5);
                    assert_eq!(
                        rv.instant_vector,
                        InstantVector::MetricWithScope(Metric {
                            metric: String::from("http_requests"),
                            scope: None,
                        })
                    );
                }
                FunctionOperand::Instant(_) => panic!("expected a range operand"),
            }
        }
        other => panic!("expected a function call, got {:?}", other),
    }
}

#[test]
fn function_call_with_literal_params_builds() {
    let tree = PromQLParser::parse(Rule::Query, "clamp_max(cpu, 0.5, \"hi\")")
        .expect("should parse");
    let e = parse_expr(&tree).expect("should build");
    match e {
        Expr::InstantVector(InstantVector::Func(f)) => {
            assert_eq!(f.name, "clamp_max");
            assert_eq!(
                f.params,
                Some(vec![
                    Param::Float(String::from("0.5")),
                    Param::Str(String::from("hi")),
                ])
            );
        }
        other => panic!("expected a function call, got {:?}", other),
    }
}

#[test]
fn aggregation_is_an_unsupported_construct() {
    let tree = PromQLParser::parse(Rule::Query, "sum(cpu)").expect("should parse");
    let r = parse_expr(&tree);
    assert_eq!(r, Err(BuildError::UnsupportedConstruct { rule: Rule::AggregationExpr }));
}

#[test]
fn param_from_scalar_leaf() {
    let n = leaf(Rule::Scalar, 0, 3, "1.5");
    assert_eq!(parse_param(&n), Ok(Param::Float(String::from("1.5"))));
}

#[test]
fn param_from_string_literal_node() {
    let lit = inner(
        Rule::StringLiteral,
        vec![
            leaf(Rule::Quote, 0, 1, "\""),
            leaf(Rule::DqInner, 1, 3, "ok"),
            leaf(Rule::Quote, 3, 4, "\""),
        ],
    );
    assert_eq!(parse_param(&lit), Ok(Param::Str(String::from("ok"))));
}

#[test]
fn param_from_unmapped_rule_is_unsupported() {
    let n = leaf(Rule::Label, 0, 1, "x");
    assert_eq!(parse_param(&n), Err(BuildError::UnsupportedConstruct { rule: Rule::Label }));
}

#[test]
fn pair_with_missing_parts_is_a_syntax_error_not_a_dropped_entry() {
    // a predicate node with only a label child, as a malformed grammar
    // would hand it over
    let bad_pair = inner(Rule::Pair, vec![leaf(Rule::Label, 1, 4, "bar")]);
    let scope = inner(
        Rule::Scope,
        vec![
            leaf(Rule::Lcurly, 0, 1, "{"),
            bad_pair,
            leaf(Rule::Rcurly, 4, 5, "}"),
        ],
    );
    let r = parse_scope(&scope);
    assert_eq!(r, Err(BuildError::SyntaxError { offset: 1, rule: Rule::Pair }));
}

#[test]
fn instant_vector_with_unmapped_child_is_unsupported() {
    let n = inner(Rule::InstantVector, vec![leaf(Rule::BoolKw, 0, 4, "bool")]);
    let r = parse_instant_vector(&n);
    assert_eq!(r, Err(BuildError::UnsupportedConstruct { rule: Rule::BoolKw }));
}

#[test]
fn expr_on_unexpected_rule_is_an_unreachable_state() {
    let n = leaf(Rule::Label, 0, 1, "x");
    let r = parse_expr(&n);
    assert_eq!(r, Err(BuildError::UnreachableState { rule: Rule::Label }));
}

#[test]
fn postfix_wraps_inner_expression_in_boolean_modifier() {
    let iv = inner(Rule::InstantVector, vec![leaf(Rule::Scalar, 0, 1, "1")]);
    let postfix = inner(Rule::Postfix, vec![iv]);
    let e = parse_expr(&postfix).expect("should build");
    assert_eq!(e, Expr::Bool(Box::new(scalar("1"))));
}

#[test]
fn resolver_handles_single_primary() {
    let e = resolve_precedence(None, scalar("4"), Vec::new());
    assert_eq!(e, scalar("4"));
}

#[test]
fn resolver_applies_sign_to_lone_primary() {
    let e = resolve_precedence(Some(Sign::Minus), scalar("4"), Vec::new());
    assert_eq!(e, Expr::Sign(Sign::Minus, Box::new(scalar("4"))));
}

#[test]
fn resolver_mixes_tiers_correctly() {
    // 1 + 2 * 3 - 4 == (1 + (2 * 3)) - 4
    let rest = vec![
        (Op::Add, scalar("2")),
        (Op::Multiply, scalar("3")),
        (Op::Subtract, scalar("4")),
    ];
    let e = resolve_precedence(None, scalar("1"), rest);
    let expected = Expr::BinOp {
        lhs: Box::new(Expr::BinOp {
            lhs: Box::new(scalar("1")),
            op: Op::Add,
            rhs: Box::new(Expr::BinOp {
                lhs: Box::new(scalar("2")),
                op: Op::Multiply,
                rhs: Box::new(scalar("3")),
            }),
        }),
        op: Op::Subtract,
        rhs: Box::new(scalar("4")),
    };
    assert_eq!(e, expected);
}

#[test]
fn operator_tiers_are_ordered_as_documented() {
    assert!(op_tier(Op::Or) == op_tier(Op::Unless));
    assert!(op_tier(Op::Or) < op_tier(Op::And));
    assert!(op_tier(Op::And) < op_tier(Op::Gt));
    assert!(op_tier(Op::Gt) == op_tier(Op::Eql));
    assert!(op_tier(Op::Eql) < op_tier(Op::Add));
    assert!(op_tier(Op::Add) == op_tier(Op::Subtract));
    assert!(op_tier(Op::Add) < op_tier(Op::Multiply));
    assert!(op_tier(Op::Multiply) == op_tier(Op::Modulo));
    assert!(op_tier(Op::Multiply) < op_tier(Op::Pow));
}

#[test]
fn only_the_power_tier_is_right_associative() {
    assert!(tier_right_assoc(op_tier(Op::Pow)));
    assert!(!tier_right_assoc(op_tier(Op::Add)));
    assert!(!tier_right_assoc(op_tier(Op::Multiply)));
    assert!(!tier_right_assoc(op_tier(Op::And)));
}
