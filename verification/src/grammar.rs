//! The grammar engine: a deterministic recursive-descent matcher that
//! turns a query string into a rule-labelled parse tree, or a
//! `SyntaxError` carrying the failure offset and the rules expected
//! there.

use vstd::prelude::*;

use crate::builder::{
    function_shape, is_digit, lemma_build_labels_concat, lemma_build_labels_singleton,
    lemma_pairs_in_leaf, lemma_pairs_in_push, pair_shape, pairs_in, pairs_in_seq, range_shape,
    spec_build_instant, spec_build_labels, spec_build_metric, spec_build_scope, spec_op_of_rule,
    string_literal_shape,
};
use crate::tree::{
    children_adjacent, children_match, children_wf, lemma_children_props, lemma_children_push,
    lemma_forest_bounds, node_matches_input, node_wf, ParseNode, Rule, SyntaxError,
};

verus! {

broadcast use vstd::string::is_ascii_spec_bytes;

/// The grammar engine. Its one operation, [`PromQLParser::parse`],
/// matches a query string against a start rule.
#[derive(Debug, Clone, Copy, PartialEq, Eq, Structural)]
pub struct PromQLParser;

/// Inline whitespace between expression items.
pub open spec fn is_ws_char(c: char) -> bool {
    c == ' ' || c == '\t'
}

/// A character that can start a metric name: a letter, `_` or `:`.
pub open spec fn is_metric_start_char(c: char) -> bool {
    ((c as u32) >= 97 && (c as u32) <= 122) || ((c as u32) >= 65 && (c as u32) <= 90) || c == '_'
        || c == ':'
}

/// A character that can continue a metric name.
pub open spec fn is_metric_char(c: char) -> bool {
    is_metric_start_char(c) || is_digit(c)
}

/// A character that can start a label name: a letter or `_`.
pub open spec fn is_label_start_char(c: char) -> bool {
    ((c as u32) >= 97 && (c as u32) <= 122) || ((c as u32) >= 65 && (c as u32) <= 90) || c == '_'
}

/// A character that can continue a label name.
pub open spec fn is_label_char(c: char) -> bool {
    is_label_start_char(c) || is_digit(c)
}

/// The preconditions every matching function assumes of its input: an
/// ASCII string whose length leaves room for one-past-the-end offsets.
pub open spec fn input_ok(input: &str) -> bool {
    &&& input.is_ascii()
    &&& input@.len() < usize::MAX
}

/// A non-empty input consisting solely of decimal digits: the simplest
/// input family that every expression-bearing start rule must accept.
pub open spec fn digits_input(s: Seq<char>) -> bool {
    0 < s.len() && forall|j: int| 0 <= j < s.len() ==> is_digit(#[trigger] s[j])
}

/// A non-empty input that is exactly one metric name.
pub open spec fn metric_name_input(s: Seq<char>) -> bool {
    &&& 0 < s.len()
    &&& is_metric_start_char(s[0])
    &&& forall|j: int| 0 <= j < s.len() ==> is_metric_char(#[trigger] s[j])
}

/// The end of the whitespace run starting at `pos`.
fn scan_ws(input: &str, pos: usize) -> (end: usize)
    requires
        input_ok(input),
        pos <= input@.len(),
    ensures
        pos <= end <= input@.len(),
        forall|j: int| pos <= j < end ==> is_ws_char(#[trigger] input@[j]),
        end < input@.len() ==> !is_ws_char(input@[end as int]),
    decreases input@.len() - pos,
{
    let mut i = pos;
    while i < input.unicode_len()
        invariant
            input_ok(input),
            pos <= i <= input@.len(),
            forall|j: int| pos <= j < i ==> is_ws_char(#[trigger] input@[j]),
        decreases input@.len() - i,
    {
        let c = input.get_char(i);
        if !(c == ' ' || c == '\t') {
            return i;
        }
        i = i + 1;
    }
    i
}

/// The end of the run of characters satisfying the metric-name
/// character class, starting at `pos`.
fn scan_metric_chars(input: &str, pos: usize) -> (end: usize)
    requires
        input_ok(input),
        pos <= input@.len(),
    ensures
        pos <= end <= input@.len(),
        forall|j: int| pos <= j < end ==> is_metric_char(#[trigger] input@[j]),
        end < input@.len() ==> !is_metric_char(input@[end as int]),
{
    let mut i = pos;
    while i < input.unicode_len()
        invariant
            input_ok(input),
            pos <= i <= input@.len(),
            forall|j: int| pos <= j < i ==> is_metric_char(#[trigger] input@[j]),
        decreases input@.len() - i,
    {
        let c = input.get_char(i);
        let cu = c as u32;
        if !((cu >= 97 && cu <= 122) || (cu >= 65 && cu <= 90) || c == '_' || c == ':' || (cu >= 48
            && cu <= 57)) {
            return i;
        }
        i = i + 1;
    }
    i
}

/// The end of the run of label-name characters starting at `pos`.
fn scan_label_chars(input: &str, pos: usize) -> (end: usize)
    requires
        input_ok(input),
        pos <= input@.len(),
    ensures
        pos <= end <= input@.len(),
        forall|j: int| pos <= j < end ==> is_label_char(#[trigger] input@[j]),
        end < input@.len() ==> !is_label_char(input@[end as int]),
{
    let mut i = pos;
    while i < input.unicode_len()
        invariant
            input_ok(input),
            pos <= i <= input@.len(),
            forall|j: int| pos <= j < i ==> is_label_char(#[trigger] input@[j]),
        decreases input@.len() - i,
    {
        let c = input.get_char(i);
        let cu = c as u32;
        if !((cu >= 97 && cu <= 122) || (cu >= 65 && cu <= 90) || c == '_' || (cu >= 48 && cu
            <= 57)) {
            return i;
        }
        i = i + 1;
    }
    i
}

/// The end of the digit run starting at `pos`.
fn scan_digits(input: &str, pos: usize) -> (end: usize)
    requires
        input_ok(input),
        pos <= input@.len(),
    ensures
        pos <= end <= input@.len(),
        forall|j: int| pos <= j < end ==> is_digit(#[trigger] input@[j]),
        end < input@.len() ==> !is_digit(input@[end as int]),
{
    let mut i = pos;
    while i < input.unicode_len()
        invariant
            input_ok(input),
            pos <= i <= input@.len(),
            forall|j: int| pos <= j < i ==> is_digit(#[trigger] input@[j]),
        decreases input@.len() - i,
    {
        let c = input.get_char(i);
        let cu = c as u32;
        if !(cu >= 48 && cu <= 57) {
            return i;
        }
        i = i + 1;
    }
    i
}

/// Whether the slice `[start, end)` of the input spells exactly `kw`.
fn slice_is(input: &str, start: usize, end: usize, kw: &str) -> (r: bool)
    requires
        input_ok(input),
        start <= end <= input@.len(),
    ensures
        r == (input@.subrange(start as int, end as int) == kw@),
{
    let klen = kw.unicode_len();
    if end - start != klen {
        proof {
            assert(input@.subrange(start as int, end as int).len() == end - start);
        }
        return false;
    }
    let mut j: usize = 0;
    while j < klen
        invariant
            input_ok(input),
            start <= end <= input@.len(),
            end - start == klen == kw@.len(),
            0 <= j <= klen,
            forall|i: int| 0 <= i < j ==> input@[start + i] == kw@[i],
        decreases klen - j,
    {
        if input.get_char(start + j) != kw.get_char(j) {
            proof {
                assert(input@.subrange(start as int, end as int)[j as int] == input@[start + j]);
            }
            return false;
        }
        j = j + 1;
    }
    proof {
        assert(input@.subrange(start as int, end as int) =~= kw@);
    }
    true
}

/// Makes a leaf node covering `[start, end)` of the input.
fn make_leaf(input: &str, rule: Rule, start: usize, end: usize) -> (n: ParseNode)
    requires
        input_ok(input),
        start <= end <= input@.len(),
    ensures
        node_wf(n),
        node_matches_input(n, input@),
        n.rule == rule,
        n.start == start,
        n.end == end,
        n.children@.len() == 0,
        n.text@ == input@.subrange(start as int, end as int),
{
    let text = String::from_str(input.substring_ascii(start, end));
    ParseNode { rule, start, end, text, children: Vec::new() }
}

/// Makes an inner node from a non-empty adjacent forest.
fn make_inner(rule: Rule, children: Vec<ParseNode>, Ghost(input): Ghost<Seq<char>>) -> (n:
    ParseNode)
    requires
        children@.len() > 0,
        children_wf(children@),
        children_adjacent(children@),
        children_match(children@, input),
    ensures
        node_wf(n),
        node_matches_input(n, input),
        n.rule == rule,
        n.start == children@[0].start,
        n.end == children@[children@.len() - 1].end,
        n.children@ == children@,
        n.start <= n.end <= input.len(),
{
    let start = children[0].start;
    let end = children[children.len() - 1].end;
    proof {
        lemma_forest_bounds(children@);
        lemma_children_props(children@, input, children@.len() - 1);
    }
    ParseNode { rule, start, end, text: String::new(), children }
}

/// Appending a childless non-pair leaf to a forest keeps its selector
/// predicates buildable.
proof fn lemma_scope_push_leaf(cs: Seq<ParseNode>, x: ParseNode)
    requires
        spec_build_labels(pairs_in_seq(cs)) is Ok,
        x.rule != Rule::Pair,
        x.children@.len() == 0,
    ensures
        spec_build_labels(pairs_in_seq(cs.push(x))) is Ok,
{
    lemma_pairs_in_push(cs, x);
    lemma_pairs_in_leaf(x);
    assert(pairs_in_seq(cs) + pairs_in(x) =~= pairs_in_seq(cs));
}

/// Appending a well-shaped pair to a forest keeps its selector
/// predicates buildable.
proof fn lemma_scope_push_pair(cs: Seq<ParseNode>, p: ParseNode)
    requires
        spec_build_labels(pairs_in_seq(cs)) is Ok,
        p.rule == Rule::Pair,
        pair_shape(p),
    ensures
        spec_build_labels(pairs_in_seq(cs.push(p))) is Ok,
{
    lemma_pairs_in_push(cs, p);
    assert(pairs_in(p) == seq![p]);
    lemma_build_labels_singleton(p);
    lemma_build_labels_concat(pairs_in_seq(cs), seq![p]);
}

/// Matches a string literal at `pos`: a quote character, its contents
/// up to the next identical quote, and the closing quote.
fn parse_string_literal(input: &str, pos: usize) -> (r: Result<(ParseNode, usize), SyntaxError>)
    requires
        input_ok(input),
        pos <= input@.len(),
    ensures
        match r {
            Ok((n, end)) => {
                &&& pos < end <= input@.len()
                &&& n.start == pos
                &&& n.end == end
                &&& n.rule == Rule::StringLiteral
                &&& node_wf(n)
                &&& node_matches_input(n, input@)
                &&& string_literal_shape(n)
            },
            Err(e) => e.offset <= input@.len(),
        },
{
    let len = input.unicode_len();
    if pos >= len {
        return Err(SyntaxError { offset: pos, expected: vec![Rule::StringLiteral] });
    }
    let q = input.get_char(pos);
    let inner_rule = if q == '"' {
        Rule::DqInner
    } else if q == '\'' {
        Rule::SqInner
    } else if q == '`' {
        Rule::BqInner
    } else {
        return Err(SyntaxError { offset: pos, expected: vec![Rule::StringLiteral] });
    };
    let mut j = pos + 1;
    while j < len && input.get_char(j) != q
        invariant
            input_ok(input),
            len == input@.len(),
            pos + 1 <= j <= len,
        decreases len - j,
    {
        j = j + 1;
    }
    if j >= len {
        return Err(SyntaxError { offset: j, expected: vec![Rule::StringLiteral] });
    }
    let open_q = make_leaf(input, Rule::Quote, pos, pos + 1);
    let inner = make_leaf(input, inner_rule, pos + 1, j);
    let close_q = make_leaf(input, Rule::Quote, j, j + 1);
    let mut children: Vec<ParseNode> = Vec::new();
    proof {
        lemma_children_push(children@, open_q, input@);
    }
    children.push(open_q);
    proof {
        lemma_children_push(children@, inner, input@);
    }
    children.push(inner);
    proof {
        lemma_children_push(children@, close_q, input@);
    }
    children.push(close_q);
    let n = make_inner(Rule::StringLiteral, children, Ghost(input@));
    Ok((n, j + 1))
}

/// Matches a selector comparison operator at `pos`: `=~`, `!~`, `!=`
/// or `=`, longest first.
fn parse_label_op(input: &str, pos: usize) -> (r: Result<(ParseNode, usize), SyntaxError>)
    requires
        input_ok(input),
        pos <= input@.len(),
    ensures
        match r {
            Ok((n, end)) => {
                &&& pos < end <= input@.len()
                &&& n.start == pos
                &&& n.end == end
                &&& n.rule == Rule::LabelOp
                &&& n.children@.len() == 0
                &&& node_wf(n)
                &&& node_matches_input(n, input@)
            },
            Err(e) => e.offset <= input@.len(),
        },
{
    let len = input.unicode_len();
    if pos >= len {
        return Err(SyntaxError { offset: pos, expected: vec![Rule::LabelOp] });
    }
    let c = input.get_char(pos);
    if (c == '=' || c == '!') && pos + 1 < len {
        let c2 = input.get_char(pos + 1);
        if c2 == '~' {
            return Ok((make_leaf(input, Rule::LabelOp, pos, pos + 2), pos + 2));
        }
        if c == '!' && c2 == '=' {
            return Ok((make_leaf(input, Rule::LabelOp, pos, pos + 2), pos + 2));
        }
    }
    if c == '=' {
        return Ok((make_leaf(input, Rule::LabelOp, pos, pos + 1), pos + 1));
    }
    Err(SyntaxError { offset: pos, expected: vec![Rule::LabelOp] })
}

/// Matches one selector predicate at `pos`: a label name, a comparison
/// operator, and a string literal, with no interior whitespace.
fn parse_pair(input: &str, pos: usize) -> (r: Result<(ParseNode, usize), SyntaxError>)
    requires
        input_ok(input),
        pos <= input@.len(),
    ensures
        match r {
            Ok((n, end)) => {
                &&& pos < end <= input@.len()
                &&& n.start == pos
                &&& n.end == end
                &&& n.rule == Rule::Pair
                &&& node_wf(n)
                &&& node_matches_input(n, input@)
                &&& pair_shape(n)
            },
            Err(e) => e.offset <= input@.len(),
        },
{
    let len = input.unicode_len();
    if pos >= len {
        return Err(SyntaxError { offset: pos, expected: vec![Rule::Label] });
    }
    let c = input.get_char(pos);
    let cu = c as u32;
    if !((cu >= 97 && cu <= 122) || (cu >= 65 && cu <= 90) || c == '_') {
        return Err(SyntaxError { offset: pos, expected: vec![Rule::Label] });
    }
    let name_end = scan_label_chars(input, pos);
    let label = make_leaf(input, Rule::Label, pos, name_end);
    let (op, op_end) = match parse_label_op(input, name_end) {
        Ok(v) => v,
        Err(e) => {
            return Err(e);
        },
    };
    let (lit, lit_end) = match parse_string_literal(input, op_end) {
        Ok(v) => v,
        Err(e) => {
            return Err(e);
        },
    };
    let mut children: Vec<ParseNode> = Vec::new();
    proof {
        lemma_children_push(children@, label, input@);
    }
    children.push(label);
    proof {
        lemma_children_push(children@, op, input@);
    }
    children.push(op);
    proof {
        lemma_children_push(children@, lit, input@);
    }
    children.push(lit);
    let n = make_inner(Rule::Pair, children, Ghost(input@));
    Ok((n, lit_end))
}

/// Matches a selector scope at `pos`: `{` then comma-separated
/// predicates, whitespace allowed around each, then `}`.
fn parse_scope(input: &str, pos: usize) -> (r: Result<(ParseNode, usize), SyntaxError>)
    requires
        input_ok(input),
        pos <= input@.len(),
    ensures
        match r {
            Ok((n, end)) => {
                &&& pos < end <= input@.len()
                &&& n.start == pos
                &&& n.end == end
                &&& n.rule == Rule::Scope
                &&& node_wf(n)
                &&& node_matches_input(n, input@)
                &&& spec_build_scope(n) is Ok
            },
            Err(e) => e.offset <= input@.len(),
        },
    decreases input@.len() - pos, 0int,
{
    let len = input.unicode_len();
    if pos >= len || input.get_char(pos) != '{' {
        return Err(SyntaxError { offset: pos, expected: vec![Rule::Lcurly] });
    }
    let lcurly = make_leaf(input, Rule::Lcurly, pos, pos + 1);
    let mut children: Vec<ParseNode> = Vec::new();
    proof {
        assert(pairs_in_seq(children@) =~= Seq::<ParseNode>::empty());
        lemma_children_push(children@, lcurly, input@);
        lemma_scope_push_leaf(children@, lcurly);
    }
    children.push(lcurly);
    let mut cur = pos + 1;
    // leading whitespace inside the braces
    let w = scan_ws(input, cur);
    if w > cur {
        let ws = make_leaf(input, Rule::Ws, cur, w);
        proof {
            lemma_children_push(children@, ws, input@);
            lemma_scope_push_leaf(children@, ws);
        }
        children.push(ws);
        cur = w;
    }
    if cur < len && input.get_char(cur) != '}' {
        // first predicate
        let (p, p_end) = match parse_pair(input, cur) {
            Ok(v) => v,
            Err(e) => {
                return Err(e);
            },
        };
        proof {
            lemma_children_push(children@, p, input@);
            lemma_scope_push_pair(children@, p);
        }
        children.push(p);
        cur = p_end;
        loop
            invariant
                input_ok(input),
                len == input@.len(),
                pos < cur <= len,
                children@.len() > 0,
                children@[0].start == pos,
                children@[children@.len() - 1].end == cur,
                children_wf(children@),
                children_adjacent(children@),
                children_match(children@, input@),
                spec_build_labels(pairs_in_seq(children@)) is Ok,
            ensures
                pos < cur <= len,
                children@.len() > 0,
                children@[0].start == pos,
                children@[children@.len() - 1].end == cur,
                children_wf(children@),
                children_adjacent(children@),
                children_match(children@, input@),
                spec_build_labels(pairs_in_seq(children@)) is Ok,
            decreases len - cur,
        {
            let w1 = scan_ws(input, cur);
            if w1 >= len || input.get_char(w1) != ',' {
                break ;
            }
            if w1 > cur {
                let ws = make_leaf(input, Rule::Ws, cur, w1);
                proof {
                    lemma_children_push(children@, ws, input@);
                    lemma_scope_push_leaf(children@, ws);
                }
                children.push(ws);
                cur = w1;
            }
            let comma = make_leaf(input, Rule::Comma, cur, cur + 1);
            proof {
                lemma_children_push(children@, comma, input@);
                lemma_scope_push_leaf(children@, comma);
            }
            children.push(comma);
            cur = cur + 1;
            let w2 = scan_ws(input, cur);
            if w2 > cur {
                let ws = make_leaf(input, Rule::Ws, cur, w2);
                proof {
                    lemma_children_push(children@, ws, input@);
                    lemma_scope_push_leaf(children@, ws);
                }
                children.push(ws);
                cur = w2;
            }
            let (p2, p2_end) = match parse_pair(input, cur) {
                Ok(v) => v,
                Err(e) => {
                    return Err(e);
                },
            };
            proof {
                lemma_children_push(children@, p2, input@);
                lemma_scope_push_pair(children@, p2);
            }
            children.push(p2);
            cur = p2_end;
        }
        // trailing whitespace before the closing brace
        let w3 = scan_ws(input, cur);
        if w3 > cur {
            let ws = make_leaf(input, Rule::Ws, cur, w3);
            proof {
                lemma_children_push(children@, ws, input@);
                lemma_scope_push_leaf(children@, ws);
            }
            children.push(ws);
            cur = w3;
        }
    }
    if cur >= len || input.get_char(cur) != '}' {
        return Err(SyntaxError { offset: cur, expected: vec![Rule::Rcurly, Rule::Comma] });
    }
    let rcurly = make_leaf(input, Rule::Rcurly, cur, cur + 1);
    proof {
        lemma_children_push(children@, rcurly, input@);
        lemma_scope_push_leaf(children@, rcurly);
    }
    children.push(rcurly);
    let n = make_inner(Rule::Scope, children, Ghost(input@));
    proof {
        assert(pairs_in(n) == pairs_in_seq(n.children@));
    }
    Ok((n, cur + 1))
}

/// A character that can appear in a duration leaf: a digit or a
/// lowercase letter.
pub open spec fn is_duration_char(c: char) -> bool {
    is_digit(c) || ((c as u32) >= 97 && (c as u32) <= 122)
}

/// The end of the run of duration characters starting at `pos`.
fn scan_duration_chars(input: &str, pos: usize) -> (end: usize)
    requires
        input_ok(input),
        pos <= input@.len(),
    ensures
        pos <= end <= input@.len(),
        forall|j: int| pos <= j < end ==> is_duration_char(#[trigger] input@[j]),
        end < input@.len() ==> !is_duration_char(input@[end as int]),
{
    let mut i = pos;
    while i < input.unicode_len()
        invariant
            input_ok(input),
            pos <= i <= input@.len(),
            forall|j: int| pos <= j < i ==> is_duration_char(#[trigger] input@[j]),
        decreases input@.len() - i,
    {
        let c = input.get_char(i);
        let cu = c as u32;
        if !((cu >= 48 && cu <= 57) || (cu >= 97 && cu <= 122)) {
            return i;
        }
        i = i + 1;
    }
    i
}

/// Matches a scalar literal at `pos`: digits, optionally a dot and
/// more digits.
fn parse_scalar(input: &str, pos: usize) -> (r: Result<(ParseNode, usize), SyntaxError>)
    requires
        input_ok(input),
        pos <= input@.len(),
    ensures
        match r {
            Ok((n, end)) => {
                &&& pos < end <= input@.len()
                &&& n.start == pos
                &&& n.end == end
                &&& n.rule == Rule::Scalar
                &&& n.children@.len() == 0
                &&& node_wf(n)
                &&& node_matches_input(n, input@)
            },
            Err(e) => e.offset <= input@.len(),
        },
        (pos < input@.len() && (forall|j: int|
            pos <= j < input@.len() ==> is_digit(#[trigger] input@[j]))) ==> r is Ok
            && r->Ok_0.1 == input@.len(),
{
    let len = input.unicode_len();
    let d1 = scan_digits(input, pos);
    if d1 == pos {
        return Err(SyntaxError { offset: pos, expected: vec![Rule::Scalar] });
    }
    let mut end = d1;
    if d1 < len && input.get_char(d1) == '.' {
        let d2 = scan_digits(input, d1 + 1);
        if d2 == d1 + 1 {
            return Err(SyntaxError { offset: d1 + 1, expected: vec![Rule::Scalar] });
        }
        end = d2;
    }
    Ok((make_leaf(input, Rule::Scalar, pos, end), end))
}

/// Matches a metric reference at `pos`: a metric name and an optional
/// selector scope directly after it.
fn parse_metric_with_scope(input: &str, pos: usize) -> (r: Result<(ParseNode, usize), SyntaxError>)
    requires
        input_ok(input),
        pos <= input@.len(),
    ensures
        match r {
            Ok((n, end)) => {
                &&& pos < end <= input@.len()
                &&& n.start == pos
                &&& n.end == end
                &&& n.rule == Rule::MetricWithScope
                &&& node_wf(n)
                &&& node_matches_input(n, input@)
                &&& spec_build_metric(n) is Ok
            },
            Err(e) => e.offset <= input@.len(),
        },
        (pos < input@.len() && is_metric_start_char(input@[pos as int]) && (forall|j: int|
            pos <= j < input@.len() ==> is_metric_char(#[trigger] input@[j]))) ==> r is Ok
            && r->Ok_0.1 == input@.len(),
    decreases input@.len() - pos, 0int,
{
    let len = input.unicode_len();
    if pos >= len {
        return Err(SyntaxError { offset: pos, expected: vec![Rule::Metric] });
    }
    let c = input.get_char(pos);
    let cu = c as u32;
    if !((cu >= 97 && cu <= 122) || (cu >= 65 && cu <= 90) || c == '_' || c == ':') {
        return Err(SyntaxError { offset: pos, expected: vec![Rule::Metric] });
    }
    let name_end = scan_metric_chars(input, pos);
    proof {
        if name_end == pos {
            assert(is_metric_char(input@[pos as int]));
        }
    }
    let metric = make_leaf(input, Rule::Metric, pos, name_end);
    let mut children: Vec<ParseNode> = Vec::new();
    proof {
        lemma_children_push(children@, metric, input@);
    }
    children.push(metric);
    let mut end = name_end;
    if name_end < len && input.get_char(name_end) == '{' {
        let (scope, scope_end) = match parse_scope(input, name_end) {
            Ok(v) => v,
            Err(e) => {
                return Err(e);
            },
        };
        proof {
            lemma_children_push(children@, scope, input@);
        }
        children.push(scope);
        end = scope_end;
    }
    let n = make_inner(Rule::MetricWithScope, children, Ghost(input@));
    proof {
        assert(n.children@[0].rule == Rule::Metric);
        assert(n.children@[0].children@.len() == 0);
    }
    Ok((n, end))
}

/// Matches a bare-name vector at `pos`: a selector scope with no
/// preceding metric name.
fn parse_name_vector(input: &str, pos: usize) -> (r: Result<(ParseNode, usize), SyntaxError>)
    requires
        input_ok(input),
        pos <= input@.len(),
    ensures
        match r {
            Ok((n, end)) => {
                &&& pos < end <= input@.len()
                &&& n.start == pos
                &&& n.end == end
                &&& n.rule == Rule::NameVector
                &&& node_wf(n)
                &&& node_matches_input(n, input@)
                &&& spec_build_scope(n) is Ok
            },
            Err(e) => e.offset <= input@.len(),
        },
    decreases input@.len() - pos, 1int,
{
    let (scope, end) = match parse_scope(input, pos) {
        Ok(v) => v,
        Err(e) => {
            return Err(e);
        },
    };
    let mut children: Vec<ParseNode> = Vec::new();
    proof {
        lemma_children_push(children@, scope, input@);
    }
    children.push(scope);
    let n = make_inner(Rule::NameVector, children, Ghost(input@));
    proof {
        assert(n.children@[0] == scope);
        lemma_pairs_in_push(Seq::<ParseNode>::empty(), scope);
        assert(Seq::<ParseNode>::empty().push(scope) =~= n.children@);
        assert(pairs_in_seq(Seq::<ParseNode>::empty()) == Seq::<ParseNode>::empty());
        assert(Seq::<ParseNode>::empty() + pairs_in(scope) =~= pairs_in(scope));
        assert(pairs_in(n) == pairs_in_seq(n.children@));
        assert(pairs_in_seq(n.children@) == pairs_in(scope));
    }
    Ok((n, end))
}

/// Wraps a parsed instant vector and the `[duration]` suffix starting
/// at its end into a range-vector node.
fn parse_range_tail(input: &str, pos: usize, iv: ParseNode) -> (r: Result<
    (ParseNode, usize),
    SyntaxError,
>)
    requires
        input_ok(input),
        pos <= input@.len(),
        node_wf(iv),
        node_matches_input(iv, input@),
        iv.rule == Rule::InstantVector,
        iv.end == pos,
        iv.start < iv.end,
    ensures
        match r {
            Ok((n, end)) => {
                &&& pos < end <= input@.len()
                &&& n.start == iv.start
                &&& n.end == end
                &&& n.rule == Rule::RangeVector
                &&& node_wf(n)
                &&& node_matches_input(n, input@)
                &&& range_shape(n)
            },
            Err(e) => e.offset <= input@.len(),
        },
{
    let len = input.unicode_len();
    if pos >= len || input.get_char(pos) != '[' {
        return Err(SyntaxError { offset: pos, expected: vec![Rule::Lsquare] });
    }
    let lsq = make_leaf(input, Rule::Lsquare, pos, pos + 1);
    let d_end = scan_duration_chars(input, pos + 1);
    if d_end == pos + 1 {
        return Err(SyntaxError { offset: pos + 1, expected: vec![Rule::Duration] });
    }
    let dur = make_leaf(input, Rule::Duration, pos + 1, d_end);
    if d_end >= len || input.get_char(d_end) != ']' {
        return Err(SyntaxError { offset: d_end, expected: vec![Rule::Rsquare] });
    }
    let rsq = make_leaf(input, Rule::Rsquare, d_end, d_end + 1);
    let mut children: Vec<ParseNode> = Vec::new();
    proof {
        lemma_children_push(children@, iv, input@);
    }
    let ghost iv_snap = iv;
    children.push(iv);
    proof {
        lemma_children_push(children@, lsq, input@);
    }
    children.push(lsq);
    proof {
        lemma_children_push(children@, dur, input@);
    }
    children.push(dur);
    proof {
        lemma_children_push(children@, rsq, input@);
    }
    children.push(rsq);
    let n = make_inner(Rule::RangeVector, children, Ghost(input@));
    Ok((n, d_end + 1))
}

/// Matches an instant vector at `pos`: a scalar literal, a bare scope,
/// a function or aggregation call, or a metric reference, wrapped in an
/// instant-vector node.
fn parse_instant_vector(input: &str, pos: usize) -> (r: Result<(ParseNode, usize), SyntaxError>)
    requires
        input_ok(input),
        pos <= input@.len(),
    ensures
        match r {
            Ok((n, end)) => {
                &&& pos < end <= input@.len()
                &&& n.start == pos
                &&& n.end == end
                &&& n.rule == Rule::InstantVector
                &&& n.children@.len() == 1
                &&& node_wf(n)
                &&& node_matches_input(n, input@)
                &&& (n.children@[0].rule == Rule::Scalar || n.children@[0].rule
                    == Rule::MetricWithScope || n.children@[0].rule == Rule::NameVector)
                    ==> spec_build_instant(n) is Ok
            },
            Err(e) => e.offset <= input@.len(),
        },
        (pos < input@.len() && (forall|j: int|
            pos <= j < input@.len() ==> is_digit(#[trigger] input@[j]))) ==> r is Ok
            && r->Ok_0.1 == input@.len(),
        (pos < input@.len() && is_metric_start_char(input@[pos as int]) && (forall|j: int|
            pos <= j < input@.len() ==> is_metric_char(#[trigger] input@[j]))) ==> r is Ok
            && r->Ok_0.1 == input@.len(),
    decreases input@.len() - pos, 2int,
{
    let len = input.unicode_len();
    if pos >= len {
        return Err(SyntaxError { offset: pos, expected: vec![Rule::InstantVector] });
    }
    let c = input.get_char(pos);
    let cu = c as u32;
    if cu >= 48 && cu <= 57 {
        let (sc, end) = match parse_scalar(input, pos) {
            Ok(v) => v,
            Err(e) => {
                return Err(e);
            },
        };
        let mut children: Vec<ParseNode> = Vec::new();
        proof {
            lemma_children_push(children@, sc, input@);
        }
        children.push(sc);
        let n = make_inner(Rule::InstantVector, children, Ghost(input@));
        return Ok((n, end));
    }
    if c == '{' {
        let (nv, end) = match parse_name_vector(input, pos) {
            Ok(v) => v,
            Err(e) => {
                return Err(e);
            },
        };
        let mut children: Vec<ParseNode> = Vec::new();
        proof {
            lemma_children_push(children@, nv, input@);
        }
        children.push(nv);
        let n = make_inner(Rule::InstantVector, children, Ghost(input@));
        return Ok((n, end));
    }
    if !((cu >= 97 && cu <= 122) || (cu >= 65 && cu <= 90) || c == '_' || c == ':') {
        return Err(SyntaxError { offset: pos, expected: vec![Rule::InstantVector] });
    }
    let ident_end = scan_metric_chars(input, pos);
    proof {
        if ident_end == pos {
            assert(is_metric_char(input@[pos as int]));
        }
    }
    if ident_end < len && input.get_char(ident_end) == '(' {
        let (call, end) = match parse_call(input, pos, ident_end) {
            Ok(v) => v,
            Err(e) => {
                return Err(e);
            },
        };
        let mut children: Vec<ParseNode> = Vec::new();
        proof {
            lemma_children_push(children@, call, input@);
        }
        children.push(call);
        let n = make_inner(Rule::InstantVector, children, Ghost(input@));
        return Ok((n, end));
    }
    let (m, end) = match parse_metric_with_scope(input, pos) {
        Ok(v) => v,
        Err(e) => {
            return Err(e);
        },
    };
    let mut children: Vec<ParseNode> = Vec::new();
    proof {
        lemma_children_push(children@, m, input@);
    }
    children.push(m);
    let n = make_inner(Rule::InstantVector, children, Ghost(input@));
    Ok((n, end))
}

/// Matches a function or aggregation call whose name spans
/// `[pos, ident_end)` and whose opening parenthesis sits at
/// `ident_end`: the operand vector, then comma-separated literal
/// parameters, then the closing parenthesis.
fn parse_call(input: &str, pos: usize, ident_end: usize) -> (r: Result<
    (ParseNode, usize),
    SyntaxError,
>)
    requires
        input_ok(input),
        pos < ident_end,
        ident_end < input@.len(),
        input@[ident_end as int] == '(',
    ensures
        match r {
            Ok((n, end)) => {
                &&& pos < end <= input@.len()
                &&& n.start == pos
                &&& n.end == end
                &&& (n.rule == Rule::FunctionsToInstant || n.rule == Rule::AggregationExpr)
                &&& node_wf(n)
                &&& node_matches_input(n, input@)
                &&& (n.rule == Rule::FunctionsToInstant ==> function_shape(n))
            },
            Err(e) => e.offset <= input@.len(),
        },
    decreases input@.len() - pos, 1int,
{
    let len = input.unicode_len();
    let is_agg = slice_is(input, pos, ident_end, "sum") || slice_is(input, pos, ident_end, "avg")
        || slice_is(input, pos, ident_end, "min") || slice_is(input, pos, ident_end, "max")
        || slice_is(input, pos, ident_end, "count");
    let name_rule = if is_agg {
        Rule::Aggregation
    } else {
        Rule::Function
    };
    let node_rule = if is_agg {
        Rule::AggregationExpr
    } else {
        Rule::FunctionsToInstant
    };
    let name = make_leaf(input, name_rule, pos, ident_end);
    let lparen = make_leaf(input, Rule::Lparen, ident_end, ident_end + 1);
    let mut children: Vec<ParseNode> = Vec::new();
    proof {
        lemma_children_push(children@, name, input@);
    }
    children.push(name);
    proof {
        lemma_children_push(children@, lparen, input@);
    }
    children.push(lparen);
    let mut cur = ident_end + 1;
    // the operand: an instant vector, optionally extended to a range
    let (iv, iv_end) = match parse_instant_vector(input, cur) {
        Ok(v) => v,
        Err(e) => {
            return Err(e);
        },
    };
    let mut operand = iv;
    let mut op_end = iv_end;
    if iv_end < len && input.get_char(iv_end) == '[' {
        let (rv, rv_end) = match parse_range_tail(input, iv_end, operand) {
            Ok(v) => v,
            Err(e) => {
                return Err(e);
            },
        };
        operand = rv;
        op_end = rv_end;
    }
    let ghost operand_rule = operand.rule;
    proof {
        lemma_children_push(children@, operand, input@);
    }
    children.push(operand);
    cur = op_end;
    // literal parameters, comma separated
    loop
        invariant
            input_ok(input),
            len == input@.len(),
            pos < cur <= len,
            children@.len() >= 3,
            children@[0].rule == name_rule,
            children@[0].children@.len() == 0,
            children@[1].rule == Rule::Lparen,
            children@[2].rule == operand_rule,
            children@[0].start == pos,
            children@[children@.len() - 1].end == cur,
            children_wf(children@),
            children_adjacent(children@),
            children_match(children@, input@),
            name_rule == (if is_agg {
                Rule::Aggregation
            } else {
                Rule::Function
            }),
        ensures
            pos < cur <= len,
            children@.len() >= 3,
            children@[0].rule == name_rule,
            children@[0].children@.len() == 0,
            children@[1].rule == Rule::Lparen,
            children@[2].rule == operand_rule,
            children@[0].start == pos,
            children@[children@.len() - 1].end == cur,
            children_wf(children@),
            children_adjacent(children@),
            children_match(children@, input@),
        decreases len - cur,
    {
        let w1 = scan_ws(input, cur);
        if w1 >= len || input.get_char(w1) != ',' {
            break ;
        }
        if w1 > cur {
            let ws = make_leaf(input, Rule::Ws, cur, w1);
            proof {
                lemma_children_push(children@, ws, input@);
            }
            children.push(ws);
            cur = w1;
        }
        let comma = make_leaf(input, Rule::Comma, cur, cur + 1);
        proof {
            lemma_children_push(children@, comma, input@);
        }
        children.push(comma);
        cur = cur + 1;
        let w2 = scan_ws(input, cur);
        if w2 > cur {
            let ws = make_leaf(input, Rule::Ws, cur, w2);
            proof {
                lemma_children_push(children@, ws, input@);
            }
            children.push(ws);
            cur = w2;
        }
        if cur < len {
            let pc = input.get_char(cur);
            let pcu = pc as u32;
            if pcu >= 48 && pcu <= 57 {
                let (sc, sc_end) = match parse_scalar(input, cur) {
                    Ok(v) => v,
                    Err(e) => {
                        return Err(e);
                    },
                };
                proof {
                    lemma_children_push(children@, sc, input@);
                }
                children.push(sc);
                cur = sc_end;
            } else {
                let (lit, lit_end) = match parse_string_literal(input, cur) {
                    Ok(v) => v,
                    Err(e) => {
                        return Err(e);
                    },
                };
                proof {
                    lemma_children_push(children@, lit, input@);
                }
                children.push(lit);
                cur = lit_end;
            }
        } else {
            return Err(SyntaxError { offset: cur, expected: vec![Rule::Scalar, Rule::StringLiteral] });
        }
    }
    if cur >= len || input.get_char(cur) != ')' {
        return Err(SyntaxError { offset: cur, expected: vec![Rule::Rparen, Rule::Comma] });
    }
    let rparen = make_leaf(input, Rule::Rparen, cur, cur + 1);
    proof {
        lemma_children_push(children@, rparen, input@);
    }
    children.push(rparen);
    let n = make_inner(node_rule, children, Ghost(input@));
    Ok((n, cur + 1))
}

/// Matches an infix operator at `pos`, longest first: the two-character
/// comparisons, then single-character arithmetic and comparison
/// operators, then the keyword operators `and`, `or` and `unless`
/// followed by a word boundary.
fn scan_infix_op(input: &str, pos: usize) -> (r: Option<(Rule, usize)>)
    requires
        input_ok(input),
        pos <= input@.len(),
    ensures
        match r {
            Some((rule, end)) => pos < end <= input@.len() && spec_op_of_rule(rule) is Some,
            None => true,
        },
{
    let len = input.unicode_len();
    if pos >= len {
        return None;
    }
    let c = input.get_char(pos);
    if pos + 1 < len {
        let c2 = input.get_char(pos + 1);
        if c == '>' && c2 == '=' {
            return Some((Rule::Gte, pos + 2));
        }
        if c == '<' && c2 == '=' {
            return Some((Rule::Lte, pos + 2));
        }
        if c == '=' && c2 == '=' {
            return Some((Rule::EqOp, pos + 2));
        }
        if c == '!' && c2 == '=' {
            return Some((Rule::NeOp, pos + 2));
        }
    }
    if c == '>' {
        return Some((Rule::Gt, pos + 1));
    }
    if c == '<' {
        return Some((Rule::Lt, pos + 1));
    }
    if c == '+' {
        return Some((Rule::Add, pos + 1));
    }
    if c == '-' {
        return Some((Rule::Subtract, pos + 1));
    }
    if c == '*' {
        return Some((Rule::Multiply, pos + 1));
    }
    if c == '/' {
        return Some((Rule::Divide, pos + 1));
    }
    if c == '%' {
        return Some((Rule::Modulo, pos + 1));
    }
    if c == '^' {
        return Some((Rule::Power, pos + 1));
    }
    if len - pos >= 3 && slice_is(input, pos, pos + 3, "and") {
        if pos + 3 == len || !is_label_char_exec(input, pos + 3) {
            return Some((Rule::AndKw, pos + 3));
        }
    }
    if len - pos >= 2 && slice_is(input, pos, pos + 2, "or") {
        if pos + 2 == len || !is_label_char_exec(input, pos + 2) {
            return Some((Rule::OrKw, pos + 2));
        }
    }
    if len - pos >= 6 && slice_is(input, pos, pos + 6, "unless") {
        if pos + 6 == len || !is_label_char_exec(input, pos + 6) {
            return Some((Rule::UnlessKw, pos + 6));
        }
    }
    None
}

/// Whether the character at `i` continues an identifier word.
fn is_label_char_exec(input: &str, i: usize) -> (r: bool)
    requires
        input_ok(input),
        i < input@.len(),
    ensures
        r == is_label_char(input@[i as int]),
{
    let c = input.get_char(i);
    let cu = c as u32;
    (cu >= 97 && cu <= 122) || (cu >= 65 && cu <= 90) || c == '_' || (cu >= 48 && cu <= 57)
}

/// Matches an expression at `pos`: an optional leading unary sign, a
/// primary, then infix operators and primaries in alternation, with
/// whitespace allowed between items. An operator with no right-hand
/// operand is a syntax error.
fn parse_expr(input: &str, pos: usize) -> (r: Result<(ParseNode, usize), SyntaxError>)
    requires
        input_ok(input),
        pos <= input@.len(),
    ensures
        match r {
            Ok((n, end)) => {
                &&& pos < end <= input@.len()
                &&& n.start == pos
                &&& n.end == end
                &&& n.rule == Rule::Expr
                &&& node_wf(n)
                &&& node_matches_input(n, input@)
            },
            Err(e) => e.offset <= input@.len(),
        },
        (pos < input@.len() && (forall|j: int|
            pos <= j < input@.len() ==> is_digit(#[trigger] input@[j]))) ==> r is Ok
            && r->Ok_0.1 == input@.len(),
        (pos < input@.len() && is_metric_start_char(input@[pos as int]) && (forall|j: int|
            pos <= j < input@.len() ==> is_metric_char(#[trigger] input@[j]))) ==> r is Ok
            && r->Ok_0.1 == input@.len(),
    decreases input@.len() - pos, 3int,
{
    let len = input.unicode_len();
    let mut children: Vec<ParseNode> = Vec::new();
    let mut cur = pos;
    if pos < len {
        let c = input.get_char(pos);
        if c == '+' || c == '-' {
            let sign = make_leaf(input, Rule::UnarySign, pos, pos + 1);
            proof {
                lemma_children_push(children@, sign, input@);
            }
            children.push(sign);
            cur = pos + 1;
        }
    }
    let (p, p_end) = match parse_instant_vector(input, cur) {
        Ok(v) => v,
        Err(e) => {
            return Err(e);
        },
    };
    proof {
        lemma_children_push(children@, p, input@);
    }
    children.push(p);
    cur = p_end;
    let ghost whole_digits = pos < input@.len() && (forall|j: int|
        pos <= j < input@.len() ==> is_digit(#[trigger] input@[j]));
    let ghost whole_metric = pos < input@.len() && is_metric_start_char(input@[pos as int]) && (
    forall|j: int| pos <= j < input@.len() ==> is_metric_char(#[trigger] input@[j]));
    loop
        invariant
            input_ok(input),
            len == input@.len(),
            pos < cur <= len,
            children@.len() > 0,
            children@[0].start == pos,
            children@[children@.len() - 1].end == cur,
            children_wf(children@),
            children_adjacent(children@),
            children_match(children@, input@),
            whole_digits == (pos < input@.len() && (forall|j: int|
                pos <= j < input@.len() ==> is_digit(#[trigger] input@[j]))),
            whole_metric == (pos < input@.len() && is_metric_start_char(input@[pos as int]) && (
            forall|j: int| pos <= j < input@.len() ==> is_metric_char(#[trigger] input@[j]))),
            whole_digits || whole_metric ==> cur == len,
        ensures
            pos < cur <= len,
            children@.len() > 0,
            children@[0].start == pos,
            children@[children@.len() - 1].end == cur,
            children_wf(children@),
            children_adjacent(children@),
            children_match(children@, input@),
            whole_digits || whole_metric ==> cur == len,
        decreases len - cur,
    {
        let w1 = scan_ws(input, cur);
        let op = scan_infix_op(input, w1);
        match op {
            None => {
                break ;
            },
            Some((op_rule, op_end)) => {
                if w1 > cur {
                    let ws = make_leaf(input, Rule::Ws, cur, w1);
                    proof {
                        lemma_children_push(children@, ws, input@);
                    }
                    children.push(ws);
                    cur = w1;
                }
                let op_leaf = make_leaf(input, op_rule, cur, op_end);
                proof {
                    lemma_children_push(children@, op_leaf, input@);
                }
                children.push(op_leaf);
                cur = op_end;
                let w2 = scan_ws(input, cur);
                if w2 > cur {
                    let ws = make_leaf(input, Rule::Ws, cur, w2);
                    proof {
                        lemma_children_push(children@, ws, input@);
                    }
                    children.push(ws);
                    cur = w2;
                }
                let (p2, p2_end) = match parse_instant_vector(input, cur) {
                    Ok(v) => v,
                    Err(e) => {
                        return Err(e);
                    },
                };
                proof {
                    lemma_children_push(children@, p2, input@);
                }
                children.push(p2);
                cur = p2_end;
            },
        }
    }
    let n = make_inner(Rule::Expr, children, Ghost(input@));
    Ok((n, cur))
}

/// Matches a whole query at `pos`: an expression, with whitespace
/// allowed before and after it.
fn parse_query(input: &str, pos: usize) -> (r: Result<(ParseNode, usize), SyntaxError>)
    requires
        input_ok(input),
        pos <= input@.len(),
    ensures
        match r {
            Ok((n, end)) => {
                &&& pos < end <= input@.len()
                &&& n.start == pos
                &&& n.end == end
                &&& n.rule == Rule::Query
                &&& node_wf(n)
                &&& node_matches_input(n, input@)
            },
            Err(e) => e.offset <= input@.len(),
        },
        (pos < input@.len() && (forall|j: int|
            pos <= j < input@.len() ==> is_digit(#[trigger] input@[j]))) ==> r is Ok
            && r->Ok_0.1 == input@.len(),
        (pos < input@.len() && is_metric_start_char(input@[pos as int]) && (forall|j: int|
            pos <= j < input@.len() ==> is_metric_char(#[trigger] input@[j]))) ==> r is Ok
            && r->Ok_0.1 == input@.len(),
    decreases input@.len() - pos, 4int,
{
    let mut children: Vec<ParseNode> = Vec::new();
    let mut cur = pos;
    let w1 = scan_ws(input, cur);
    if w1 > cur {
        let ws = make_leaf(input, Rule::Ws, cur, w1);
        proof {
            lemma_children_push(children@, ws, input@);
        }
        children.push(ws);
        cur = w1;
    }
    proof {
        if pos < input@.len() && (is_digit(input@[pos as int]) || is_metric_start_char(
            input@[pos as int],
        )) {
            assert(!is_ws_char(input@[pos as int]));
            assert(cur == pos);
        }
    }
    let (e, e_end) = match parse_expr(input, cur) {
        Ok(v) => v,
        Err(err) => {
            return Err(err);
        },
    };
    proof {
        lemma_children_push(children@, e, input@);
    }
    children.push(e);
    cur = e_end;
    let w2 = scan_ws(input, cur);
    if w2 > cur {
        let ws = make_leaf(input, Rule::Ws, cur, w2);
        proof {
            lemma_children_push(children@, ws, input@);
        }
        children.push(ws);
        cur = w2;
    }
    let n = make_inner(Rule::Query, children, Ghost(input@));
    Ok((n, cur))
}

impl PromQLParser {
    /// Matches the whole input against the given start rule and returns
    /// the parse tree, or the syntax error at the position where
    /// matching failed. On success the tree is well formed, matches the
    /// input, is labelled with the start rule, and covers the input
    /// exactly from its first to its last character; a tree for a
    /// proper prefix of the input is rejected with the offset where the
    /// leftover begins.
    pub fn parse(rule: Rule, input: &str) -> (r: Result<ParseNode, SyntaxError>)
        ensures
            match r {
                Ok(n) => {
                    &&& input.is_ascii()
                    &&& node_wf(n)
                    &&& node_matches_input(n, input@)
                    &&& n.start == 0
                    &&& n.end == input@.len()
                    &&& n.rule == rule
                },
                Err(e) => e.offset <= input@.len(),
            },
            (input.is_ascii() && input@.len() < usize::MAX && digits_input(input@) && (rule
                == Rule::Query || rule == Rule::Expr || rule == Rule::InstantVector || rule
                == Rule::Scalar)) ==> r is Ok,
            (input.is_ascii() && input@.len() < usize::MAX && metric_name_input(input@) && (rule
                == Rule::Query || rule == Rule::Expr || rule == Rule::InstantVector || rule
                == Rule::MetricWithScope)) ==> r is Ok,
    {
        if !input.is_ascii() {
            return Err(SyntaxError { offset: 0, expected: vec![rule] });
        }
        if input.len() >= usize::MAX {
            return Err(SyntaxError { offset: 0, expected: vec![rule] });
        }
        let len = input.unicode_len();
        let parsed: Result<(ParseNode, usize), SyntaxError> = match rule {
            Rule::Query => parse_query(input, 0),
            Rule::Expr => parse_expr(input, 0),
            Rule::InstantVector => parse_instant_vector(input, 0),
            Rule::RangeVector => {
                match parse_instant_vector(input, 0) {
                    Ok((iv, e1)) => parse_range_tail(input, e1, iv),
                    Err(e) => Err(e),
                }
            },
            Rule::MetricWithScope => parse_metric_with_scope(input, 0),
            Rule::Scope => parse_scope(input, 0),
            Rule::Pair => parse_pair(input, 0),
            Rule::StringLiteral => parse_string_literal(input, 0),
            Rule::Scalar => parse_scalar(input, 0),
            _ => Err(
                SyntaxError {
                    offset: 0,
                    expected: vec![
                        Rule::Query,
                        Rule::Expr,
                        Rule::InstantVector,
                        Rule::RangeVector,
                        Rule::MetricWithScope,
                        Rule::Scope,
                        Rule::Pair,
                        Rule::StringLiteral,
                        Rule::Scalar,
                    ],
                },
            ),
        };
        match parsed {
            Err(e) => Err(e),
            Ok((n, end)) => {
                if end < len {
                    Err(SyntaxError { offset: end, expected: vec![rule] })
                } else {
                    Ok(n)
                }
            },
        }
    }
}

} // verus!
