//! Tests of the token classifier and the tree renderer.

use promql::grammar::PromQLParser;
use promql::render::format_pair;
use promql::tokenizer::{get_tokens, to_token_pos, token_from_rule, SyntaxTokenType};
use promql::tree::Rule;

#[test]
fn token_contents_reconstruct_the_input() {
    let input = "http_requests{method=\"GET\", job!=\"backup\"} + 1";
    let tree = PromQLParser::parse(Rule::Query, input).expect("should parse");
    let tokens = get_tokens(input, &tree);
    let joined: String = tokens.iter().map(|t| t.content.as_str()).collect::<Vec<_>>().join("");
    assert_eq!(joined, input);
}

#[test]
fn token_spans_have_no_gaps_or_overlaps() {
    let input = "rate(http_requests[5m]) / 60";
    let tree = PromQLParser::parse(Rule::Query, input).expect("should parse");
    let tokens = get_tokens(input, &tree);
    assert!(!tokens.is_empty());
    assert_eq!(tokens[0].start.offset, 0);
    assert_eq!(tokens[tokens.len() - 1].end.offset, input.len());
    for w in tokens.windows(2) {
        assert_eq!(w[0].end.offset, w[1].start.offset);
    }
}

#[test]
fn tokens_are_classified_by_rule() {
    let input = "cpu{job=\"x\"}";
    let tree = PromQLParser::parse(Rule::Query, input).expect("should parse");
    let tokens = get_tokens(input, &tree);
    let types: Vec<SyntaxTokenType> = tokens.iter().map(|t| t.token_type).collect();
    assert_eq!(
        types,
        vec![
            SyntaxTokenType::Metric,
            SyntaxTokenType::Bracket,
            SyntaxTokenType::Label,
            SyntaxTokenType::Text,
            SyntaxTokenType::Text,
            SyntaxTokenType::Value,
            SyntaxTokenType::Text,
            SyntaxTokenType::Bracket,
        ]
    );
}

#[test]
fn function_names_are_classified_as_functions() {
    let input = "rate(cpu[5m])";
    let tree = PromQLParser::parse(Rule::Query, input).expect("should parse");
    let tokens = get_tokens(input, &tree);
    assert_eq!(tokens[0].content, "rate");
    assert_eq!(tokens[0].token_type, SyntaxTokenType::Function);
}

#[test]
fn rule_category_table_matches_the_design() {
    assert_eq!(token_from_rule(Rule::Metric), SyntaxTokenType::Metric);
    assert_eq!(token_from_rule(Rule::Label), SyntaxTokenType::Label);
    assert_eq!(token_from_rule(Rule::Scalar), SyntaxTokenType::Scalar);
    assert_eq!(token_from_rule(Rule::SqInner), SyntaxTokenType::Value);
    assert_eq!(token_from_rule(Rule::DqInner), SyntaxTokenType::Value);
    assert_eq!(token_from_rule(Rule::BqInner), SyntaxTokenType::Value);
    assert_eq!(token_from_rule(Rule::StringLiteral), SyntaxTokenType::Value);
    assert_eq!(token_from_rule(Rule::Function), SyntaxTokenType::Function);
    assert_eq!(token_from_rule(Rule::Aggregation), SyntaxTokenType::Function);
    assert_eq!(token_from_rule(Rule::Lparen), SyntaxTokenType::Bracket);
    assert_eq!(token_from_rule(Rule::Rcurly), SyntaxTokenType::Bracket);
    assert_eq!(token_from_rule(Rule::Ws), SyntaxTokenType::Text);
    assert_eq!(token_from_rule(Rule::LabelOp), SyntaxTokenType::Text);
}

#[test]
fn token_positions_are_one_based_lines_and_columns() {
    let input = "ab\ncd";
    let p0 = to_token_pos(input, 0);
    assert_eq!((p0.offset, p0.line, p0.col), (0, 1, 1));
    let p2 = to_token_pos(input, 2);
    assert_eq!((p2.offset, p2.line, p2.col), (2, 1, 3));
    let p3 = to_token_pos(input, 3);
    assert_eq!((p3.offset, p3.line, p3.col), (3, 2, 1));
    let p5 = to_token_pos(input, 5);
    assert_eq!((p5.offset, p5.line, p5.col), (5, 2, 3));
}

#[test]
fn token_positions_cover_start_and_end() {
    let input = "up == 1";
    let tree = PromQLParser::parse(Rule::Query, input).expect("should parse");
    let tokens = get_tokens(input, &tree);
    assert_eq!(tokens[0].start.line, 1);
    assert_eq!(tokens[0].start.col, 1);
    assert_eq!(tokens[tokens.len() - 1].end.col, input.len() + 1);
}

#[test]
fn rendering_the_same_tree_twice_is_byte_identical() {
    let input = "http_requests{method=\"GET\"} + rate(cpu[5m])";
    let tree = PromQLParser::parse(Rule::Query, input).expect("should parse");
    let once = format_pair(&tree, 0, true);
    let twice = format_pair(&tree, 0, true);
    assert_eq!(once, twice);
}

#[test]
fn leaves_render_with_rule_and_quoted_text() {
    let tree = PromQLParser::parse(Rule::Scalar, "42").expect("should parse");
    let rendered = format_pair(&tree, 0, false);
    assert_eq!(rendered, "scalar: \"42\"");
}

#[test]
fn single_child_chains_render_inline() {
    let tree = PromQLParser::parse(Rule::Query, "1").expect("should parse");
    let rendered = format_pair(&tree, 0, false);
    assert_eq!(rendered, "query > expr > instant_vector > scalar: \"1\"");
}

#[test]
fn multi_child_nodes_render_as_dashed_list() {
    let tree = PromQLParser::parse(Rule::Pair, "a=\"b\"").expect("should parse");
    let rendered = format_pair(&tree, 0, true);
    let expected = "- pair\n  - label: \"a\"\n  - label_op: \"=\"\n  - string_literal\n    - quote: \"\"\"\n    - dq_inner: \"b\"\n    - quote: \"\"\"";
    assert_eq!(rendered, expected);
}
