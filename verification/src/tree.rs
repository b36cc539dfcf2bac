//! The rule-labelled parse tree produced by the grammar engine, its
//! well-formedness invariant, and the leaf/span facts that the token
//! classifier builds on.

use vstd::prelude::*;

verus! {

/// The closed set of grammar rules a parse-tree node can be labelled
/// with. Leaf rules label single matched spans; the others label
/// structured nodes.
#[derive(Debug, Clone, Copy, PartialEq, Eq, Structural)]
pub enum Rule {
    Query,
    Expr,
    UnarySign,
    Postfix,
    BoolKw,
    InstantVector,
    MetricWithScope,
    NameVector,
    Scope,
    Pair,
    Label,
    LabelOp,
    StringLiteral,
    SqInner,
    DqInner,
    BqInner,
    Quote,
    Scalar,
    Metric,
    FunctionsToInstant,
    Function,
    Aggregation,
    AggregationExpr,
    RangeVector,
    Duration,
    Lparen,
    Rparen,
    Lsquare,
    Rsquare,
    Lcurly,
    Rcurly,
    Comma,
    Ws,
    Add,
    Subtract,
    Multiply,
    Divide,
    Modulo,
    Power,
    Gt,
    Gte,
    Lt,
    Lte,
    EqOp,
    NeOp,
    AndKw,
    OrKw,
    UnlessKw,
}

/// One node of the parse tree: a rule tag, the half-open span
/// `[start, end)` of source positions it covers, the matched text for a
/// leaf (empty for an inner node), and the ordered child nodes. A node
/// is a leaf exactly when `children` is empty.
#[derive(Debug, PartialEq, Eq)]
pub struct ParseNode {
    pub rule: Rule,
    pub start: usize,
    pub end: usize,
    pub text: String,
    pub children: Vec<ParseNode>,
}

/// The grammar engine's failure report: the position at which matching
/// failed and the rules that were expected there.
#[derive(Debug, Clone, PartialEq, Eq)]
pub struct SyntaxError {
    pub offset: usize,
    pub expected: Vec<Rule>,
}

/// Well-formedness of a parse tree: a leaf's text is as long as its
/// span; an inner node's children tile its span exactly, left to right,
/// with no gaps and no overlaps.
pub open spec fn node_wf(n: ParseNode) -> bool
    decreases n,
{
    &&& n.start <= n.end
    &&& if n.children@.len() == 0 {
        n.text@.len() == n.end - n.start
    } else {
        &&& n.text@.len() == 0
        &&& n.children@[0].start == n.start
        &&& n.children@[n.children@.len() - 1].end == n.end
        &&& children_adjacent(n.children@)
        &&& children_wf(n.children@)
    }
}

/// Well-formedness of each node in a sequence.
pub open spec fn children_wf(cs: Seq<ParseNode>) -> bool
    decreases cs,
{
    if cs.len() == 0 {
        true
    } else {
        node_wf(cs[0]) && children_wf(cs.drop_first())
    }
}

/// Each node in the sequence starts where its predecessor ended.
pub open spec fn children_adjacent(cs: Seq<ParseNode>) -> bool
    decreases cs,
{
    if cs.len() <= 1 {
        true
    } else {
        cs[0].end == cs[1].start && children_adjacent(cs.drop_first())
    }
}

/// A tree matches an input when every node's span lies within the input
/// and every leaf's text is exactly the spanned slice of the input.
pub open spec fn node_matches_input(n: ParseNode, input: Seq<char>) -> bool
    decreases n,
{
    &&& n.end <= input.len()
    &&& (n.children@.len() == 0 ==> n.text@ == input.subrange(n.start as int, n.end as int))
    &&& children_match(n.children@, input)
}

/// `node_matches_input` for each node in a sequence.
pub open spec fn children_match(cs: Seq<ParseNode>, input: Seq<char>) -> bool
    decreases cs,
{
    if cs.len() == 0 {
        true
    } else {
        node_matches_input(cs[0], input) && children_match(cs.drop_first(), input)
    }
}

/// The leaves of a tree, left to right.
pub open spec fn leaves(n: ParseNode) -> Seq<ParseNode>
    decreases n,
{
    if n.children@.len() == 0 {
        seq![n]
    } else {
        leaves_of(n.children@)
    }
}

/// The leaves of a forest, left to right.
pub open spec fn leaves_of(cs: Seq<ParseNode>) -> Seq<ParseNode>
    decreases cs,
{
    if cs.len() == 0 {
        Seq::empty()
    } else {
        leaves(cs[0]) + leaves_of(cs.drop_first())
    }
}

/// The spans of the listed nodes run from `start` to `end` without gaps
/// or overlaps.
pub open spec fn spans_chain(ls: Seq<ParseNode>, start: int, end: int) -> bool
    decreases ls,
{
    if ls.len() == 0 {
        start == end
    } else {
        ls[0].start == start && spans_chain(ls.drop_first(), ls[0].end as int, end)
    }
}

/// The concatenation of the listed nodes' texts.
pub open spec fn cat_texts(ls: Seq<ParseNode>) -> Seq<char>
    decreases ls,
{
    if ls.len() == 0 {
        Seq::empty()
    } else {
        ls[0].text@ + cat_texts(ls.drop_first())
    }
}

/// Every node in the sequence is a well-formed leaf.
pub open spec fn all_leaves_wf(ls: Seq<ParseNode>) -> bool {
    forall|i: int|
        0 <= i < ls.len() ==> (#[trigger] ls[i]).children@.len() == 0 && node_wf(ls[i])
}

/// Chaining is preserved by concatenation of two chained runs.
proof fn lemma_spans_chain_concat(a: Seq<ParseNode>, b: Seq<ParseNode>, s: int, m: int, e: int)
    requires
        spans_chain(a, s, m),
        spans_chain(b, m, e),
    ensures
        spans_chain(a + b, s, e),
    decreases a,
{
    if a.len() == 0 {
        assert(a + b =~= b);
        assert(s == m);
    } else {
        lemma_spans_chain_concat(a.drop_first(), b, a[0].end as int, m, e);
        assert((a + b).drop_first() =~= a.drop_first() + b);
        assert((a + b)[0] == a[0]);
    }
}

/// Concatenated texts split across sequence concatenation.
proof fn lemma_cat_texts_concat(a: Seq<ParseNode>, b: Seq<ParseNode>)
    ensures
        cat_texts(a + b) == cat_texts(a) + cat_texts(b),
    decreases a,
{
    if a.len() == 0 {
        assert(a + b =~= b);
        assert(cat_texts(a) + cat_texts(b) =~= cat_texts(b));
    } else {
        lemma_cat_texts_concat(a.drop_first(), b);
        assert((a + b).drop_first() =~= a.drop_first() + b);
        assert((a + b)[0] == a[0]);
        assert(a[0].text@ + (cat_texts(a.drop_first()) + cat_texts(b)) =~= (a[0].text@
            + cat_texts(a.drop_first())) + cat_texts(b));
    }
}

/// All-leaves-ness is preserved by concatenation.
proof fn lemma_all_leaves_concat(a: Seq<ParseNode>, b: Seq<ParseNode>)
    requires
        all_leaves_wf(a),
        all_leaves_wf(b),
    ensures
        all_leaves_wf(a + b),
{
    assert forall|i: int| 0 <= i < (a + b).len() implies (#[trigger] (a + b)[i]).children@.len()
        == 0 && node_wf((a + b)[i]) by {
        if i < a.len() {
            assert((a + b)[i] == a[i]);
        } else {
            assert((a + b)[i] == b[i - a.len()]);
        }
    }
}

/// The central structural fact about a well-formed tree: its leaves'
/// spans tile its whole span, every leaf is well formed, and — when the
/// tree matches an input — the concatenation of the leaves' texts is
/// exactly the covered slice of the input.
pub proof fn lemma_leaves_cover(n: ParseNode, input: Seq<char>)
    requires
        node_wf(n),
        node_matches_input(n, input),
    ensures
        spans_chain(leaves(n), n.start as int, n.end as int),
        all_leaves_wf(leaves(n)),
        cat_texts(leaves(n)) == input.subrange(n.start as int, n.end as int),
        leaves(n).len() >= 1,
    decreases n,
{
    if n.children@.len() == 0 {
        let ls = leaves(n);
        assert(ls == seq![n]);
        assert(ls.len() == 1);
        assert(ls[0] == n);
        assert(ls.drop_first() =~= Seq::<ParseNode>::empty());
        assert(spans_chain(ls.drop_first(), n.end as int, n.end as int));
        assert(cat_texts(ls) == n.text@ + cat_texts(ls.drop_first()));
        assert(cat_texts(ls) =~= n.text@);
    } else {
        lemma_forest_covers(n.children@, input, n.start as int, n.end as int);
        assert(leaves(n) == leaves_of(n.children@));
    }
}

/// `lemma_leaves_cover` lifted to a non-empty adjacent forest.
proof fn lemma_forest_covers(cs: Seq<ParseNode>, input: Seq<char>, s: int, e: int)
    requires
        cs.len() > 0,
        children_wf(cs),
        children_adjacent(cs),
        children_match(cs, input),
        cs[0].start == s,
        cs[cs.len() - 1].end == e,
    ensures
        spans_chain(leaves_of(cs), s, e),
        all_leaves_wf(leaves_of(cs)),
        cat_texts(leaves_of(cs)) == input.subrange(s, e),
        leaves_of(cs).len() >= 1,
        s <= e <= input.len(),
    decreases cs,
{
    let head = cs[0];
    let m = head.end as int;
    assert(node_wf(head));
    assert(node_matches_input(head, input));
    lemma_leaves_cover(head, input);
    if cs.len() == 1 {
        assert(cs.drop_first().len() == 0);
        assert(leaves_of(cs) == leaves(head) + leaves_of(cs.drop_first()));
        assert(leaves(head) + Seq::<ParseNode>::empty() =~= leaves(head));
        assert(leaves_of(cs) == leaves(head));
        assert(m == e);
    } else {
        let rest = cs.drop_first();
        assert(children_wf(rest));
        assert(children_adjacent(rest));
        assert(children_match(rest, input));
        assert(rest[0] == cs[1]);
        assert(rest[rest.len() - 1] == cs[cs.len() - 1]);
        assert(cs[0].end == cs[1].start);
        assert(rest[0].start == m);
        assert(node_wf(rest[0]));
        assert(rest[0].start <= rest[0].end);
        lemma_spans_chain_mono(rest, m, e);
        lemma_forest_covers(rest, input, m, e);
        lemma_spans_chain_concat(leaves(head), leaves_of(rest), s, m, e);
        lemma_all_leaves_concat(leaves(head), leaves_of(rest));
        lemma_cat_texts_concat(leaves(head), leaves_of(rest));
        assert(0 <= s <= m <= e <= input.len());
        assert(input.subrange(s, m) + input.subrange(m, e) =~= input.subrange(s, e));
        assert(leaves_of(cs) == leaves(head) + leaves_of(rest));
    }
}

/// In a well-formed adjacent forest the first start is at most the last
/// end.
proof fn lemma_spans_chain_mono(cs: Seq<ParseNode>, s: int, e: int)
    requires
        cs.len() > 0,
        children_wf(cs),
        children_adjacent(cs),
        cs[0].start == s,
        cs[cs.len() - 1].end == e,
    ensures
        s <= e,
    decreases cs,
{
    if cs.len() == 1 {
        assert(node_wf(cs[0]));
    } else {
        let rest = cs.drop_first();
        assert(node_wf(cs[0]));
        assert(rest[0] == cs[1]);
        assert(rest[rest.len() - 1] == cs[cs.len() - 1]);
        lemma_spans_chain_mono(rest, cs[1].start as int, e);
    }
}


/// Every node of a well-formed, matching forest is itself well formed
/// and matching.
pub proof fn lemma_children_props(cs: Seq<ParseNode>, input: Seq<char>, i: int)
    requires
        children_wf(cs),
        children_match(cs, input),
        0 <= i < cs.len(),
    ensures
        node_wf(cs[i]),
        node_matches_input(cs[i], input),
    decreases cs,
{
    if i > 0 {
        lemma_children_props(cs.drop_first(), input, i - 1);
        assert(cs.drop_first()[i - 1] == cs[i]);
    }
}

/// Appending a node that starts where the forest ends preserves
/// well-formedness, adjacency and input matching.
pub proof fn lemma_children_push(cs: Seq<ParseNode>, n: ParseNode, input: Seq<char>)
    requires
        children_wf(cs),
        children_adjacent(cs),
        children_match(cs, input),
        node_wf(n),
        node_matches_input(n, input),
        cs.len() > 0 ==> cs[cs.len() - 1].end == n.start,
    ensures
        children_wf(cs.push(n)),
        children_adjacent(cs.push(n)),
        children_match(cs.push(n), input),
    decreases cs,
{
    if cs.len() == 0 {
        assert(cs.push(n)[0] == n);
        assert(cs.push(n).drop_first() =~= Seq::<ParseNode>::empty());
        assert(children_wf(cs.push(n).drop_first()));
        assert(children_adjacent(cs.push(n)));
        assert(children_match(cs.push(n).drop_first(), input));
    } else {
        let rest = cs.drop_first();
        if rest.len() > 0 {
            assert(rest[rest.len() - 1] == cs[cs.len() - 1]);
        }
        lemma_children_push(rest, n, input);
        assert(cs.push(n)[0] == cs[0]);
        assert(cs.push(n).drop_first() =~= rest.push(n));
        assert(cs.push(n).len() >= 2);
        if cs.len() >= 2 {
            assert(cs.push(n)[1] == cs[1]);
            assert(cs[0].end == cs[1].start);
        } else {
            assert(cs.push(n)[1] == n);
            assert(cs[cs.len() - 1] == cs[0]);
        }
        assert(children_wf(cs.push(n)));
        assert(children_adjacent(cs.push(n)));
        assert(children_match(cs.push(n), input));
    }
}

/// In a well-formed, adjacent forest the first start is at most the
/// last end.
pub proof fn lemma_forest_bounds(cs: Seq<ParseNode>)
    requires
        cs.len() > 0,
        children_wf(cs),
        children_adjacent(cs),
    ensures
        cs[0].start <= cs[cs.len() - 1].end,
{
    lemma_spans_chain_mono(cs, cs[0].start as int, cs[cs.len() - 1].end as int);
}

} // verus!
