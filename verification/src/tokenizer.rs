//! The token classifier: a depth-first, left-to-right walk of the parse
//! tree that emits one classified token per leaf.

use vstd::prelude::*;

use crate::tree::{
    cat_texts, children_match, children_wf, leaves, leaves_of, lemma_leaves_cover,
    node_matches_input, node_wf, spans_chain, ParseNode, Rule,
};

verus! {

/// The highlighting category of a token.
#[derive(Debug, Clone, Copy, PartialEq, Eq, Structural)]
pub enum SyntaxTokenType {
    Metric,
    Label,
    Value,
    Bracket,
    Scalar,
    Keyword,
    Function,
    Text,
}

/// A source position: character offset from the start of the input,
/// 1-based line, and 1-based column within the line.
#[derive(Debug, Clone, Copy, PartialEq, Eq, Structural)]
pub struct SyntaxTokenPosition {
    pub offset: usize,
    pub line: usize,
    pub col: usize,
}

/// One classified token: its start and end positions, its category and
/// the matched text.
#[derive(Debug, Clone, PartialEq, Eq)]
pub struct SyntaxToken {
    pub start: SyntaxTokenPosition,
    pub end: SyntaxTokenPosition,
    pub token_type: SyntaxTokenType,
    pub content: String,
}

/// The static rule-to-category table; rules without an entry fall back
/// to `Text`.
pub open spec fn spec_token_from_rule(rule: Rule) -> SyntaxTokenType {
    match rule {
        Rule::Metric => SyntaxTokenType::Metric,
        Rule::Label => SyntaxTokenType::Label,
        Rule::Scalar => SyntaxTokenType::Scalar,
        Rule::SqInner => SyntaxTokenType::Value,
        Rule::DqInner => SyntaxTokenType::Value,
        Rule::BqInner => SyntaxTokenType::Value,
        Rule::StringLiteral => SyntaxTokenType::Value,
        Rule::Function => SyntaxTokenType::Function,
        Rule::Aggregation => SyntaxTokenType::Function,
        Rule::Lparen => SyntaxTokenType::Bracket,
        Rule::Rparen => SyntaxTokenType::Bracket,
        Rule::Lsquare => SyntaxTokenType::Bracket,
        Rule::Rsquare => SyntaxTokenType::Bracket,
        Rule::Lcurly => SyntaxTokenType::Bracket,
        Rule::Rcurly => SyntaxTokenType::Bracket,
        _ => SyntaxTokenType::Text,
    }
}

/// Executable lookup in the rule-to-category table.
pub fn token_from_rule(rule: Rule) -> (t: SyntaxTokenType)
    ensures
        t == spec_token_from_rule(rule),
{
    match rule {
        Rule::Metric => SyntaxTokenType::Metric,
        Rule::Label => SyntaxTokenType::Label,
        Rule::Scalar => SyntaxTokenType::Scalar,
        Rule::SqInner => SyntaxTokenType::Value,
        Rule::DqInner => SyntaxTokenType::Value,
        Rule::BqInner => SyntaxTokenType::Value,
        Rule::StringLiteral => SyntaxTokenType::Value,
        Rule::Function => SyntaxTokenType::Function,
        Rule::Aggregation => SyntaxTokenType::Function,
        Rule::Lparen => SyntaxTokenType::Bracket,
        Rule::Rparen => SyntaxTokenType::Bracket,
        Rule::Lsquare => SyntaxTokenType::Bracket,
        Rule::Rsquare => SyntaxTokenType::Bracket,
        Rule::Lcurly => SyntaxTokenType::Bracket,
        Rule::Rcurly => SyntaxTokenType::Bracket,
        _ => SyntaxTokenType::Text,
    }
}

/// The number of line breaks in a character sequence.
pub open spec fn spec_count_newlines(s: Seq<char>) -> int
    decreases s,
{
    if s.len() == 0 {
        0
    } else {
        spec_count_newlines(s.drop_last()) + if s.last() == '\n' {
            1int
        } else {
            0int
        }
    }
}

/// The 1-based line number of the given character offset.
pub open spec fn spec_line(input: Seq<char>, off: int) -> int {
    1 + spec_count_newlines(input.subrange(0, off))
}

/// The offset of the first character of the line containing `off`.
pub open spec fn spec_line_start(input: Seq<char>, off: int) -> int
    decreases off,
{
    if off <= 0 {
        0
    } else if input[off - 1] == '\n' {
        off
    } else {
        spec_line_start(input, off - 1)
    }
}

/// The 1-based column of the given character offset.
pub open spec fn spec_col(input: Seq<char>, off: int) -> int {
    off - spec_line_start(input, off) + 1
}

/// A line count never exceeds the length of the counted text.
proof fn lemma_count_newlines_le(s: Seq<char>)
    ensures
        0 <= spec_count_newlines(s) <= s.len(),
    decreases s,
{
    if s.len() > 0 {
        lemma_count_newlines_le(s.drop_last());
    }
}

/// A line start never lies beyond its offset.
proof fn lemma_line_start_le(input: Seq<char>, off: int)
    requires
        off >= 0,
    ensures
        0 <= spec_line_start(input, off) <= off,
    decreases off,
{
    if off > 0 && input[off - 1] != '\n' {
        lemma_line_start_le(input, off - 1);
    }
}

/// Computes the line/column position of a character offset by a single
/// scan of the input before it.
pub fn to_token_pos(input: &str, offset: usize) -> (pos: SyntaxTokenPosition)
    requires
        offset <= input@.len(),
        input@.len() < usize::MAX,
    ensures
        pos.offset == offset,
        pos.line == spec_line(input@, offset as int),
        pos.col == spec_col(input@, offset as int),
{
    let mut i: usize = 0;
    let mut line: usize = 1;
    let mut ls: usize = 0;
    proof {
        assert(input@.subrange(0, 0) =~= Seq::<char>::empty());
    }
    while i < offset
        invariant
            i <= offset <= input@.len() < usize::MAX,
            ls <= i,
            line == spec_line(input@, i as int),
            ls == spec_line_start(input@, i as int),
            line <= i + 1,
        decreases offset - i,
    {
        let c = input.get_char(i);
        proof {
            assert(input@.subrange(0, i + 1).drop_last() =~= input@.subrange(0, i as int));
            assert(input@.subrange(0, i + 1).last() == input@[i as int]);
            lemma_count_newlines_le(input@.subrange(0, i as int));
        }
        if c == '\n' {
            line = line + 1;
            ls = i + 1;
        }
        i = i + 1;
    }
    proof {
        lemma_line_start_le(input@, offset as int);
    }
    SyntaxTokenPosition { offset, line, col: offset - ls + 1 }
}

/// A token carries exactly the data of one leaf: its span, the
/// line/column rendering of the span's endpoints, its category under
/// the static table, and the leaf's text.
pub open spec fn token_matches(t: SyntaxToken, l: ParseNode, input: Seq<char>) -> bool {
    &&& t.start.offset == l.start
    &&& t.end.offset == l.end
    &&& t.start.line == spec_line(input, l.start as int)
    &&& t.start.col == spec_col(input, l.start as int)
    &&& t.end.line == spec_line(input, l.end as int)
    &&& t.end.col == spec_col(input, l.end as int)
    &&& t.token_type == spec_token_from_rule(l.rule)
    &&& t.content@ == l.text@
}

/// Pointwise `token_matches` over a token sequence and a leaf sequence
/// of the same length.
pub open spec fn tokens_match(ts: Seq<SyntaxToken>, ls: Seq<ParseNode>, input: Seq<char>) -> bool {
    &&& ts.len() == ls.len()
    &&& forall|i: int| 0 <= i < ts.len() ==> token_matches(#[trigger] ts[i], ls[i], input)
}

proof fn lemma_tokens_match_concat(
    a: Seq<SyntaxToken>,
    la: Seq<ParseNode>,
    b: Seq<SyntaxToken>,
    lb: Seq<ParseNode>,
    input: Seq<char>,
)
    requires
        tokens_match(a, la, input),
        tokens_match(b, lb, input),
    ensures
        tokens_match(a + b, la + lb, input),
{
    assert forall|i: int| 0 <= i < (a + b).len() implies token_matches(
        #[trigger] (a + b)[i],
        (la + lb)[i],
        input,
    ) by {
        if i < a.len() {
            assert((a + b)[i] == a[i]);
            assert((la + lb)[i] == la[i]);
        } else {
            assert((a + b)[i] == b[i - a.len()]);
            assert((la + lb)[i] == lb[i - la.len()]);
        }
    }
}

/// Emits one token per leaf of the tree, depth first and left to right:
/// a leaf yields exactly one token and an inner node yields the
/// concatenation of its children's tokens.
pub fn get_tokens(input: &str, node: &ParseNode) -> (res: Vec<SyntaxToken>)
    requires
        node_wf(*node),
        node_matches_input(*node, input@),
        input@.len() < usize::MAX,
    ensures
        tokens_match(res@, leaves(*node), input@),
    decreases *node,
{
    if node.children.len() == 0 {
        let start = to_token_pos(input, node.start);
        let end = to_token_pos(input, node.end);
        let token_type = token_from_rule(node.rule);
        let content = node.text.clone();
        let mut res: Vec<SyntaxToken> = Vec::new();
        res.push(SyntaxToken { start, end, token_type, content });
        proof {
            assert(leaves(*node) == seq![*node]);
            assert(res@.len() == 1);
            assert(res@[0].content@ == node.text@);
        }
        res
    } else {
        proof {
            assert(node.children@.skip(0) =~= node.children@);
        }
        let res = tokens_of_children(input, &node.children, 0);
        proof {
            assert(leaves(*node) == leaves_of(node.children@));
        }
        res
    }
}

/// Tokens of the forest `cs[i..]`, left to right.
fn tokens_of_children(input: &str, cs: &Vec<ParseNode>, i: usize) -> (res: Vec<SyntaxToken>)
    requires
        i <= cs@.len(),
        children_wf(cs@.skip(i as int)),
        children_match(cs@.skip(i as int), input@),
        input@.len() < usize::MAX,
    ensures
        tokens_match(res@, leaves_of(cs@.skip(i as int)), input@),
    decreases cs@.skip(i as int),
{
    let ghost suffix = cs@.skip(i as int);
    if i == cs.len() {
        let res: Vec<SyntaxToken> = Vec::new();
        proof {
            assert(suffix.len() == 0);
            assert(leaves_of(suffix).len() == 0);
        }
        res
    } else {
        proof {
            assert(suffix[0] == cs@[i as int]);
            assert(node_wf(cs@[i as int]));
            assert(node_matches_input(cs@[i as int], input@));
            assert(decreases_to!(suffix => suffix[0]));
        }
        let mut first = get_tokens(input, &cs[i]);
        proof {
            assert(suffix.drop_first() =~= cs@.skip(i + 1));
            assert(children_wf(cs@.skip(i + 1)));
            assert(children_match(cs@.skip(i + 1), input@));
            assert(suffix.subrange(1, suffix.len() as int) =~= cs@.skip(i + 1));
            assert(decreases_to!(suffix => suffix.subrange(1, suffix.len() as int)));
        }
        let mut rest = tokens_of_children(input, cs, i + 1);
        let ghost first_snap = first@;
        let ghost rest_snap = rest@;
        first.append(&mut rest);
        proof {
            lemma_tokens_match_concat(
                first_snap,
                leaves(suffix[0]),
                rest_snap,
                leaves_of(suffix.drop_first()),
                input@,
            );
            assert(leaves_of(suffix) == leaves(suffix[0]) + leaves_of(suffix.drop_first()));
        }
        first
    }
}

/// The concatenation of the listed tokens' contents.
pub open spec fn cat_contents(ts: Seq<SyntaxToken>) -> Seq<char>
    decreases ts,
{
    if ts.len() == 0 {
        Seq::empty()
    } else {
        ts[0].content@ + cat_contents(ts.drop_first())
    }
}

proof fn lemma_cat_contents_eq(ts: Seq<SyntaxToken>, ls: Seq<ParseNode>, input: Seq<char>)
    requires
        tokens_match(ts, ls, input),
    ensures
        cat_contents(ts) == cat_texts(ls),
    decreases ts,
{
    if ts.len() > 0 {
        assert(token_matches(ts[0], ls[0], input));
        assert forall|i: int| 0 <= i < ts.drop_first().len() implies token_matches(
            #[trigger] ts.drop_first()[i],
            ls.drop_first()[i],
            input,
        ) by {
            assert(ts.drop_first()[i] == ts[i + 1]);
            assert(ls.drop_first()[i] == ls[i + 1]);
            assert(token_matches(ts[i + 1], ls[i + 1], input));
        }
        lemma_cat_contents_eq(ts.drop_first(), ls.drop_first(), input);
    }
}

proof fn lemma_chain_at(ls: Seq<ParseNode>, s: int, e: int, i: int)
    requires
        spans_chain(ls, s, e),
        0 <= i < ls.len(),
    ensures
        i == 0 ==> ls[0].start == s,
        i < ls.len() - 1 ==> ls[i].end == ls[i + 1].start,
        i == ls.len() - 1 ==> ls[i].end == e,
    decreases ls,
{
    if i == 0 {
        assert(spans_chain(ls.drop_first(), ls[0].end as int, e));
        if ls.len() >= 2 {
            assert(ls.drop_first()[0] == ls[1]);
        } else {
            assert(ls.drop_first().len() == 0);
        }
    } else {
        lemma_chain_at(ls.drop_first(), ls[0].end as int, e, i - 1);
        assert(ls.drop_first()[i - 1] == ls[i]);
        if i < ls.len() - 1 {
            assert(ls.drop_first()[i] == ls[i + 1]);
        }
    }
}

/// Token coverage: for a well-formed parse tree that matches its input,
/// the classifier's token sequence is totally ordered by source
/// position, consecutive spans meet with no gap and no overlap, the
/// first span starts at the tree's start, the last span ends at the
/// tree's end, and concatenating the token contents in order
/// reconstructs exactly the consumed slice of the input.
#[verifier::rlimit(50)]
pub proof fn lemma_token_coverage(
    tokens: Seq<SyntaxToken>,
    n: ParseNode,
    input: Seq<char>,
)
    requires
        node_wf(n),
        node_matches_input(n, input),
        tokens_match(tokens, leaves(n), input),
    ensures
        tokens.len() >= 1,
        tokens[0].start.offset == n.start,
        tokens[tokens.len() - 1].end.offset == n.end,
        forall|i: int|
            0 <= i < tokens.len() - 1 ==> (#[trigger] tokens[i]).end.offset == tokens[i
                + 1].start.offset,
        cat_contents(tokens) == input.subrange(n.start as int, n.end as int),
{
    lemma_leaves_cover(n, input);
    let ls = leaves(n);
    lemma_cat_contents_eq(tokens, ls, input);
    assert forall|i: int| 0 <= i < tokens.len() - 1 implies (#[trigger] tokens[i]).end.offset
        == tokens[i + 1].start.offset by {
        lemma_chain_at(ls, n.start as int, n.end as int, i);
        assert(token_matches(tokens[i], ls[i], input));
        assert(token_matches(tokens[i + 1], ls[i + 1], input));
    }
    lemma_chain_at(ls, n.start as int, n.end as int, 0);
    lemma_chain_at(ls, n.start as int, n.end as int, ls.len() - 1);
    assert(token_matches(tokens[0], ls[0], input));
    assert(token_matches(tokens[tokens.len() - 1], ls[ls.len() - 1], input));
}

} // verus!
