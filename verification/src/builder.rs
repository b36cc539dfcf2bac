//! The AST builder: turns a rule-labelled parse tree into the typed
//! query model, resolving operator precedence and associativity, and
//! failing fast on the first malformed subtree.

use vstd::prelude::*;

use crate::ast::{
    spec_op_tier, spec_tier_right_assoc, op_tier, tier_right_assoc, Expr, ExprView, Function, FunctionOperand, FunctionOperandView, FunctionView, InstantVector,
    InstantVectorView, LabelAndValue, LabelAndValueView, Metric, MetricView, Param, ParamView,
    RangeVector, RangeVectorView, Scope, ScopeView, Sign, TimeUnit, Op, UNARY_TIER,
};
use crate::tree::{ParseNode, Rule};

verus! {

/// The builder's failure taxonomy. `SyntaxError` reports a malformed
/// required shape at a source offset; `UnsupportedConstruct` reports a
/// recognized rule with no mapping into the typed model yet; and
/// `UnreachableState` reports a tree shape inconsistent with the
/// grammar contract, an internal defect rather than a bad query.
#[derive(Debug, Clone, Copy, PartialEq, Eq, Structural)]
pub enum BuildError {
    SyntaxError { offset: usize, rule: Rule },
    UnsupportedConstruct { rule: Rule },
    UnreachableState { rule: Rule },
}

/// Shape of a string literal node: an opening quote, one leaf holding
/// the quoted contents, and a closing quote.
pub open spec fn string_literal_shape(n: ParseNode) -> bool {
    &&& n.children@.len() == 3
    &&& n.children@[0].rule == Rule::Quote
    &&& (n.children@[1].rule == Rule::DqInner || n.children@[1].rule == Rule::SqInner
        || n.children@[1].rule == Rule::BqInner)
    &&& n.children@[1].children@.len() == 0
    &&& n.children@[2].rule == Rule::Quote
}

/// The quoted contents of a string literal node.
pub open spec fn string_literal_value(n: ParseNode) -> Seq<char> {
    n.children@[1].text@
}

/// What the builder makes of a literal parameter node: a scalar leaf
/// becomes a numeric literal, a string literal becomes its quoted
/// contents, and any other rule is unsupported.
pub open spec fn spec_build_param(n: ParseNode) -> Result<ParamView, BuildError> {
    if n.rule == Rule::Scalar {
        Ok(ParamView::Float(n.text@))
    } else if n.rule == Rule::StringLiteral {
        if string_literal_shape(n) {
            Ok(ParamView::Str(string_literal_value(n)))
        } else {
            Err(BuildError::SyntaxError { offset: n.start, rule: Rule::StringLiteral })
        }
    } else {
        Err(BuildError::UnsupportedConstruct { rule: n.rule })
    }
}

/// Builds one literal parameter from a parse-tree node.
pub fn parse_param(n: &ParseNode) -> (r: Result<Param, BuildError>)
    ensures
        match r {
            Ok(p) => spec_build_param(*n) == Ok::<ParamView, BuildError>(p@),
            Err(e) => spec_build_param(*n) == Err::<ParamView, BuildError>(e),
        },
{
    match n.rule {
        Rule::Scalar => Ok(Param::Float(n.text.clone())),
        Rule::StringLiteral => {
            if n.children.len() == 3 && matches!(n.children[0].rule, Rule::Quote) && (matches!(
                n.children[1].rule,
                Rule::DqInner,
            ) || matches!(n.children[1].rule, Rule::SqInner) || matches!(
                n.children[1].rule,
                Rule::BqInner,
            )) && n.children[1].children.len() == 0 && matches!(n.children[2].rule, Rule::Quote) {
                Ok(Param::Str(n.children[1].text.clone()))
            } else {
                Err(BuildError::SyntaxError { offset: n.start, rule: Rule::StringLiteral })
            }
        },
        _ => Err(BuildError::UnsupportedConstruct { rule: n.rule }),
    }
}

/// Shape of a selector predicate node: exactly three children in fixed
/// position — a label leaf, an operator leaf, and a string literal.
pub open spec fn pair_shape(p: ParseNode) -> bool {
    &&& p.children@.len() == 3
    &&& p.children@[0].rule == Rule::Label
    &&& p.children@[0].children@.len() == 0
    &&& p.children@[1].rule == Rule::LabelOp
    &&& p.children@[1].children@.len() == 0
    &&& p.children@[2].rule == Rule::StringLiteral
    &&& string_literal_shape(p.children@[2])
}

/// The predicate a well-shaped pair node denotes.
pub open spec fn pair_view(p: ParseNode) -> LabelAndValueView {
    LabelAndValueView {
        name: p.children@[0].text@,
        op: p.children@[1].text@,
        value: string_literal_value(p.children@[2]),
    }
}

/// The pair-rule descendants of a node, in source order; the search
/// does not descend into a pair.
pub open spec fn pairs_in(n: ParseNode) -> Seq<ParseNode>
    decreases n,
{
    if n.rule == Rule::Pair {
        seq![n]
    } else {
        pairs_in_seq(n.children@)
    }
}

/// The pair-rule descendants of a forest, in source order.
pub open spec fn pairs_in_seq(cs: Seq<ParseNode>) -> Seq<ParseNode>
    decreases cs,
{
    if cs.len() == 0 {
        Seq::empty()
    } else {
        pairs_in(cs[0]) + pairs_in_seq(cs.drop_first())
    }
}

/// What the builder makes of a sequence of pair nodes: each must have
/// its three parts, in source order, and the first malformed pair is a
/// syntax error — never a silently dropped predicate.
pub open spec fn spec_build_labels(ps: Seq<ParseNode>) -> Result<
    Seq<LabelAndValueView>,
    BuildError,
>
    decreases ps,
{
    if ps.len() == 0 {
        Ok(Seq::empty())
    } else if !pair_shape(ps[0]) {
        Err(BuildError::SyntaxError { offset: ps[0].start, rule: Rule::Pair })
    } else {
        match spec_build_labels(ps.drop_first()) {
            Ok(rest) => Ok(seq![pair_view(ps[0])] + rest),
            Err(e) => Err(e),
        }
    }
}

/// What the builder makes of a scope-bearing node: the predicates of
/// all its pair descendants, in source order.
pub open spec fn spec_build_scope(n: ParseNode) -> Result<ScopeView, BuildError> {
    match spec_build_labels(pairs_in(n)) {
        Ok(ls) => Ok(ScopeView { labels: ls }),
        Err(e) => Err(e),
    }
}

/// `spec_build_labels` distributes over concatenation, failing on the
/// first error in order.
pub proof fn lemma_build_labels_concat(a: Seq<ParseNode>, b: Seq<ParseNode>)
    ensures
        spec_build_labels(a + b) == match spec_build_labels(a) {
            Err(e) => Err::<Seq<LabelAndValueView>, BuildError>(e),
            Ok(la) => match spec_build_labels(b) {
                Err(e) => Err::<Seq<LabelAndValueView>, BuildError>(e),
                Ok(lb) => Ok::<Seq<LabelAndValueView>, BuildError>(la + lb),
            },
        },
    decreases a,
{
    if a.len() == 0 {
        assert(a + b =~= b);
        if spec_build_labels(b) is Ok {
            let lb = spec_build_labels(b)->Ok_0;
            assert(Seq::<LabelAndValueView>::empty() + lb =~= lb);
        }
    } else {
        assert((a + b).len() > 0);
        assert((a + b)[0] == a[0]);
        lemma_build_labels_concat(a.drop_first(), b);
        assert((a + b).drop_first() =~= a.drop_first() + b);
        if pair_shape(a[0]) {
            match spec_build_labels(a.drop_first()) {
                Ok(ra) => {
                    match spec_build_labels(b) {
                        Ok(lb) => {
                            assert(seq![pair_view(a[0])] + (ra + lb) =~= (seq![pair_view(a[0])]
                                + ra) + lb);
                        },
                        Err(_) => {},
                    }
                },
                Err(_) => {},
            }
        }
    }
}

/// Builds the predicate list of one pair node.
fn build_pair(p: &ParseNode) -> (r: Result<LabelAndValue, BuildError>)
    requires
        p.rule == Rule::Pair,
    ensures
        match r {
            Ok(l) => pair_shape(*p) && l@ == pair_view(*p),
            Err(e) => !pair_shape(*p) && e == (BuildError::SyntaxError {
                offset: p.start,
                rule: Rule::Pair,
            }),
        },
{
    if p.children.len() == 3 && matches!(p.children[0].rule, Rule::Label)
        && p.children[0].children.len() == 0 && matches!(p.children[1].rule, Rule::LabelOp)
        && p.children[1].children.len() == 0 && matches!(p.children[2].rule, Rule::StringLiteral) {
        let lit = &p.children[2];
        if lit.children.len() == 3 && matches!(lit.children[0].rule, Rule::Quote) && (matches!(
            lit.children[1].rule,
            Rule::DqInner,
        ) || matches!(lit.children[1].rule, Rule::SqInner) || matches!(
            lit.children[1].rule,
            Rule::BqInner,
        )) && lit.children[1].children.len() == 0 && matches!(lit.children[2].rule, Rule::Quote) {
            return Ok(
                LabelAndValue {
                    name: p.children[0].text.clone(),
                    op: p.children[1].text.clone(),
                    value: lit.children[1].text.clone(),
                },
            );
        }
        Err(BuildError::SyntaxError { offset: p.start, rule: Rule::Pair })
    } else {
        Err(BuildError::SyntaxError { offset: p.start, rule: Rule::Pair })
    }
}

/// The view of a predicate vector.
pub open spec fn labels_view(ls: Seq<LabelAndValue>) -> Seq<LabelAndValueView> {
    ls.map_values(|l: LabelAndValue| l@)
}

/// Builds the predicates of all pair descendants of a node, in source
/// order, failing fast on the first malformed pair.
fn build_labels_node(n: &ParseNode) -> (r: Result<Vec<LabelAndValue>, BuildError>)
    ensures
        match r {
            Ok(ls) => spec_build_labels(pairs_in(*n)) == Ok::<Seq<LabelAndValueView>, BuildError>(
                labels_view(ls@),
            ),
            Err(e) => spec_build_labels(pairs_in(*n)) == Err::<Seq<LabelAndValueView>, BuildError>(
                e,
            ),
        },
    decreases *n,
{
    if matches!(n.rule, Rule::Pair) {
        proof {
            assert(pairs_in(*n) == seq![*n]);
            assert(pairs_in(*n)[0] == *n);
            assert(pairs_in(*n).drop_first() =~= Seq::<ParseNode>::empty());
        }
        match build_pair(n) {
            Ok(l) => {
                let mut out: Vec<LabelAndValue> = Vec::new();
                out.push(l);
                proof {
                    assert(spec_build_labels(Seq::<ParseNode>::empty()) == Ok::<
                        Seq<LabelAndValueView>,
                        BuildError,
                    >(Seq::<LabelAndValueView>::empty()));
                    assert(out@ =~= seq![l]);
                    assert(labels_view(out@).len() == 1);
                    assert(labels_view(out@)[0] == l@);
                    assert(labels_view(out@) =~= seq![pair_view(*n)] + Seq::<
                        LabelAndValueView,
                    >::empty());
                }
                Ok(out)
            },
            Err(e) => Err(e),
        }
    } else {
        proof {
            assert(n.children@.skip(0) =~= n.children@);
        }
        let r = build_labels_seq(&n.children, 0);
        proof {
            assert(pairs_in(*n) == pairs_in_seq(n.children@));
        }
        r
    }
}

/// Builds the predicates found in the forest `cs[i..]`.
fn build_labels_seq(cs: &Vec<ParseNode>, i: usize) -> (r: Result<Vec<LabelAndValue>, BuildError>)
    requires
        i <= cs@.len(),
    ensures
        match r {
            Ok(ls) => spec_build_labels(pairs_in_seq(cs@.skip(i as int))) == Ok::<
                Seq<LabelAndValueView>,
                BuildError,
            >(labels_view(ls@)),
            Err(e) => spec_build_labels(pairs_in_seq(cs@.skip(i as int))) == Err::<
                Seq<LabelAndValueView>,
                BuildError,
            >(e),
        },
    decreases cs@.skip(i as int),
{
    let ghost suffix = cs@.skip(i as int);
    if i == cs.len() {
        let out: Vec<LabelAndValue> = Vec::new();
        proof {
            assert(suffix.len() == 0);
            assert(pairs_in_seq(suffix).len() == 0);
            assert(labels_view(out@) =~= Seq::<LabelAndValueView>::empty());
        }
        Ok(out)
    } else {
        proof {
            assert(suffix[0] == cs@[i as int]);
            assert(decreases_to!(suffix => suffix[0]));
            assert(suffix.drop_first() =~= cs@.skip(i + 1));
            assert(pairs_in_seq(suffix) == pairs_in(suffix[0]) + pairs_in_seq(
                suffix.drop_first(),
            ));
            lemma_build_labels_concat(pairs_in(suffix[0]), pairs_in_seq(suffix.drop_first()));
        }
        match build_labels_node(&cs[i]) {
            Err(e) => Err(e),
            Ok(mut first) => {
                proof {
                    assert(suffix.subrange(1, suffix.len() as int) =~= cs@.skip(i + 1));
                    assert(decreases_to!(suffix => suffix.subrange(1, suffix.len() as int)));
                }
                match build_labels_seq(cs, i + 1) {
                    Err(e) => Err(e),
                    Ok(mut rest) => {
                        let ghost first_snap = first@;
                        let ghost rest_snap = rest@;
                        first.append(&mut rest);
                        proof {
                            assert(labels_view(first_snap + rest_snap) =~= labels_view(first_snap)
                                + labels_view(rest_snap));
                        }
                        Ok(first)
                    },
                }
            },
        }
    }
}

/// Builds a scope from a scope-bearing node: the predicates of all its
/// pair descendants, in source order; the first pair missing one of its
/// three parts is a syntax error.
pub fn parse_scope(n: &ParseNode) -> (r: Result<Scope, BuildError>)
    ensures
        match r {
            Ok(s) => spec_build_scope(*n) == Ok::<ScopeView, BuildError>(s@),
            Err(e) => spec_build_scope(*n) == Err::<ScopeView, BuildError>(e),
        },
{
    let labels = build_labels_node(n)?;
    Ok(Scope { labels })
}

/// Builds the scope of a bare-name vector, a scope with no preceding
/// metric name.
pub fn parse_name_scope(n: &ParseNode) -> (r: Result<Scope, BuildError>)
    ensures
        match r {
            Ok(s) => spec_build_scope(*n) == Ok::<ScopeView, BuildError>(s@),
            Err(e) => spec_build_scope(*n) == Err::<ScopeView, BuildError>(e),
        },
{
    parse_scope(n)
}

/// What the builder makes of a metric-with-scope node: the first child
/// is the metric name leaf; an optional second child is the scope.
pub open spec fn spec_build_metric(n: ParseNode) -> Result<MetricView, BuildError> {
    if n.rule != Rule::MetricWithScope {
        Err(BuildError::UnreachableState { rule: n.rule })
    } else if n.children@.len() == 0 || n.children@[0].rule != Rule::Metric
        || n.children@[0].children@.len() != 0 {
        Err(BuildError::SyntaxError { offset: n.start, rule: Rule::Metric })
    } else if n.children@.len() == 1 {
        Ok(MetricView { metric: n.children@[0].text@, scope: None })
    } else {
        match spec_build_scope(n.children@[1]) {
            Ok(s) => Ok(MetricView { metric: n.children@[0].text@, scope: Some(s) }),
            Err(e) => Err(e),
        }
    }
}

/// Builds a metric reference: its name and, when present, its scope.
pub fn parse_metric_with_scope(n: &ParseNode) -> (r: Result<Metric, BuildError>)
    ensures
        match r {
            Ok(m) => spec_build_metric(*n) == Ok::<MetricView, BuildError>(m@),
            Err(e) => spec_build_metric(*n) == Err::<MetricView, BuildError>(e),
        },
{
    if !matches!(n.rule, Rule::MetricWithScope) {
        return Err(BuildError::UnreachableState { rule: n.rule });
    }
    if n.children.len() == 0 || !matches!(n.children[0].rule, Rule::Metric)
        || n.children[0].children.len() != 0 {
        return Err(BuildError::SyntaxError { offset: n.start, rule: Rule::Metric });
    }
    let name = n.children[0].text.clone();
    if n.children.len() == 1 {
        Ok(Metric { metric: name, scope: None })
    } else {
        let s = parse_scope(&n.children[1])?;
        Ok(Metric { metric: name, scope: Some(s) })
    }
}

/// A decimal digit.
pub open spec fn is_digit(c: char) -> bool {
    (c as u32) >= 48 && (c as u32) <= 57
}

/// The numeric value of a decimal digit.
pub open spec fn digit_val(c: char) -> int {
    c as u32 - 48
}

/// The value of a run of decimal digits, most significant first.
pub open spec fn digits_val(s: Seq<char>) -> int
    decreases s,
{
    if s.len() == 0 {
        0
    } else {
        digits_val(s.drop_last()) * 10 + digit_val(s.last())
    }
}

/// The number of leading decimal digits.
pub open spec fn digits_prefix_len(s: Seq<char>) -> int
    decreases s,
{
    if s.len() == 0 || !is_digit(s[0]) {
        0
    } else {
        1 + digits_prefix_len(s.drop_first())
    }
}

/// The time unit denoted by a duration suffix, if any.
pub open spec fn spec_unit_of(s: Seq<char>) -> Option<TimeUnit> {
    if s.len() == 2 && s[0] == 'm' && s[1] == 's' {
        Some(TimeUnit::Millisecond)
    } else if s.len() == 1 {
        if s[0] == 's' {
            Some(TimeUnit::Second)
        } else if s[0] == 'm' {
            Some(TimeUnit::Minute)
        } else if s[0] == 'h' {
            Some(TimeUnit::Hour)
        } else if s[0] == 'd' {
            Some(TimeUnit::Day)
        } else if s[0] == 'w' {
            Some(TimeUnit::Week)
        } else if s[0] == 'y' {
            Some(TimeUnit::Year)
        } else {
            None
        }
    } else {
        None
    }
}

/// What the builder makes of a duration leaf's text, reported at source
/// offset `off`: a non-empty run of digits whose value fits the
/// magnitude type, followed by a recognized unit suffix.
pub open spec fn spec_duration(text: Seq<char>, off: usize) -> Result<(u64, TimeUnit), BuildError> {
    let k = digits_prefix_len(text);
    if k == 0 {
        Err(BuildError::SyntaxError { offset: off, rule: Rule::Duration })
    } else if digits_val(text.take(k)) > u64::MAX {
        Err(BuildError::SyntaxError { offset: off, rule: Rule::Duration })
    } else {
        match spec_unit_of(text.skip(k)) {
            Some(u) => Ok((digits_val(text.take(k)) as u64, u)),
            None => Err(BuildError::SyntaxError { offset: off, rule: Rule::Duration }),
        }
    }
}

proof fn lemma_digits_val_nonneg(s: Seq<char>)
    requires
        forall|j: int| 0 <= j < s.len() ==> is_digit(#[trigger] s[j]),
    ensures
        digits_val(s) >= 0,
    decreases s,
{
    if s.len() > 0 {
        assert forall|j: int| 0 <= j < s.drop_last().len() implies is_digit(
            #[trigger] s.drop_last()[j],
        ) by {
            assert(s.drop_last()[j] == s[j]);
        }
        lemma_digits_val_nonneg(s.drop_last());
        assert(is_digit(s.last()));
    }
}

proof fn lemma_digits_val_mono(s: Seq<char>, i: int)
    requires
        forall|j: int| 0 <= j < s.len() ==> is_digit(#[trigger] s[j]),
        0 <= i <= s.len(),
    ensures
        digits_val(s) >= digits_val(s.take(i)),
    decreases s.len() - i,
{
    if i == s.len() {
        assert(s.take(i) =~= s);
    } else {
        let p = s.take(i + 1);
        assert(p.drop_last() =~= s.take(i));
        assert(p.last() == s[i]);
        assert forall|j: int| 0 <= j < i implies is_digit(#[trigger] s.take(i)[j]) by {
            assert(s.take(i)[j] == s[j]);
        }
        lemma_digits_val_nonneg(s.take(i));
        assert(is_digit(s[i]));
        assert(digits_val(p) == digits_val(s.take(i)) * 10 + digit_val(s[i]));
        assert(digits_val(p) >= digits_val(s.take(i)));
        lemma_digits_val_mono(s, i + 1);
    }
}

proof fn lemma_digits_prefix_exact(s: Seq<char>, i: int)
    requires
        0 <= i <= s.len(),
        forall|j: int| 0 <= j < i ==> is_digit(#[trigger] s[j]),
        i < s.len() ==> !is_digit(s[i]),
    ensures
        digits_prefix_len(s) == i,
    decreases i,
{
    if i == 0 {
    } else {
        assert(is_digit(s[0]));
        let rest = s.drop_first();
        assert forall|j: int| 0 <= j < i - 1 implies is_digit(#[trigger] rest[j]) by {
            assert(rest[j] == s[j + 1]);
        }
        if i - 1 < rest.len() {
            assert(rest[i - 1] == s[i]);
        }
        lemma_digits_prefix_exact(rest, i - 1);
    }
}

proof fn lemma_digits_prefix_lower(s: Seq<char>, i: int)
    requires
        0 <= i <= s.len(),
        forall|j: int| 0 <= j < i ==> is_digit(#[trigger] s[j]),
    ensures
        digits_prefix_len(s) >= i,
    decreases i,
{
    lemma_digits_prefix_digits(s);
    if i > 0 {
        assert(is_digit(s[0]));
        let rest = s.drop_first();
        assert forall|j: int| 0 <= j < i - 1 implies is_digit(#[trigger] rest[j]) by {
            assert(rest[j] == s[j + 1]);
        }
        lemma_digits_prefix_lower(rest, i - 1);
        assert(digits_prefix_len(s) == 1 + digits_prefix_len(rest));
    }
}

proof fn lemma_digits_prefix_digits(s: Seq<char>)
    ensures
        0 <= digits_prefix_len(s) <= s.len(),
        forall|j: int| 0 <= j < digits_prefix_len(s) ==> is_digit(#[trigger] s[j]),
    decreases s,
{
    if s.len() > 0 && is_digit(s[0]) {
        let rest = s.drop_first();
        lemma_digits_prefix_digits(rest);
        assert forall|j: int| 0 <= j < digits_prefix_len(s) implies is_digit(#[trigger] s[j]) by {
            if j > 0 {
                assert(is_digit(rest[j - 1]));
                assert(rest[j - 1] == s[j]);
            }
        }
    }
}

/// Largest accumulator that can take one more decimal digit without
/// overflowing the magnitude type.
const DURATION_ACC_LIMIT: u64 = 1844674407370955161;

/// Parses a duration leaf's text — digits then a unit suffix — failing
/// at offset `off` when a part is missing, unrecognized, or too large.
pub fn parse_duration(text: &str, off: usize) -> (r: Result<(u64, TimeUnit), BuildError>)
    ensures
        match r {
            Ok(v) => spec_duration(text@, off) == Ok::<(u64, TimeUnit), BuildError>(v),
            Err(e) => spec_duration(text@, off) == Err::<(u64, TimeUnit), BuildError>(e),
        },
{
    let len = text.unicode_len();
    let ghost k = digits_prefix_len(text@);
    proof {
        lemma_digits_prefix_digits(text@);
    }
    let mut i: usize = 0;
    let mut acc: u64 = 0;
    let err = BuildError::SyntaxError { offset: off, rule: Rule::Duration };
    proof {
        assert(text@.take(0) =~= Seq::<char>::empty());
    }
    loop
        invariant
            0 <= i <= len,
            len == text@.len(),
            k == digits_prefix_len(text@),
            forall|j: int| 0 <= j < i ==> is_digit(#[trigger] text@[j]),
            i <= k,
            acc == digits_val(text@.take(i as int)),
            err == (BuildError::SyntaxError { offset: off, rule: Rule::Duration }),
        ensures
            0 <= i <= len,
            len == text@.len(),
            i == len || !is_digit(text@[i as int]),
            forall|j: int| 0 <= j < i ==> is_digit(#[trigger] text@[j]),
            acc == digits_val(text@.take(i as int)),
        decreases len - i,
    {
        if i >= len {
            break ;
        }
        let c = text.get_char(i);
        let cu = c as u32;
        if !(cu >= 48 && cu <= 57) {
            break ;
        }
        let d: u64 = (cu - 48) as u64;
        proof {
            assert(is_digit(text@[i as int]));
            lemma_digits_prefix_lower(text@, i + 1);
            assert(text@.take(i + 1).drop_last() =~= text@.take(i as int));
            assert(text@.take(i + 1).last() == text@[i as int]);
        }
        if acc > DURATION_ACC_LIMIT || (acc == DURATION_ACC_LIMIT && d > 5) {
            proof {
                lemma_digits_prefix_digits(text@);
                assert(digits_val(text@.take(i + 1)) == acc * 10 + d);
                assert(digits_val(text@.take(i + 1)) > u64::MAX);
                assert forall|j: int| 0 <= j < text@.take(k).len() implies is_digit(
                    #[trigger] text@.take(k)[j],
                ) by {
                    assert(text@.take(k)[j] == text@[j]);
                }
                lemma_digits_val_mono(text@.take(k), i + 1);
                assert(text@.take(k).take(i + 1) =~= text@.take(i + 1));
                assert(digits_val(text@.take(k)) > u64::MAX);
            }
            return Err(err);
        }
        acc = acc * 10 + d;
        i = i + 1;
    }
    proof {
        lemma_digits_prefix_exact(text@, i as int);
        assert(k == i);
    }
    if i == 0 {
        return Err(err);
    }
    let rem = len - i;
    if rem == 2 {
        let c0 = text.get_char(i);
        let c1 = text.get_char(i + 1);
        proof {
            assert(text@.skip(i as int).len() == 2);
            assert(text@.skip(i as int)[0] == text@[i as int]);
            assert(text@.skip(i as int)[1] == text@[i + 1]);
        }
        if c0 == 'm' && c1 == 's' {
            Ok((acc, TimeUnit::Millisecond))
        } else {
            Err(err)
        }
    } else if rem == 1 {
        let c0 = text.get_char(i);
        proof {
            assert(text@.skip(i as int).len() == 1);
            assert(text@.skip(i as int)[0] == text@[i as int]);
        }
        if c0 == 's' {
            Ok((acc, TimeUnit::Second))
        } else if c0 == 'm' {
            Ok((acc, TimeUnit::Minute))
        } else if c0 == 'h' {
            Ok((acc, TimeUnit::Hour))
        } else if c0 == 'd' {
            Ok((acc, TimeUnit::Day))
        } else if c0 == 'w' {
            Ok((acc, TimeUnit::Week))
        } else if c0 == 'y' {
            Ok((acc, TimeUnit::Year))
        } else {
            Err(err)
        }
    } else {
        proof {
            assert(text@.skip(i as int).len() == rem);
        }
        Err(err)
    }
}

/// Shape of a range-vector node: the wrapped instant vector, an
/// opening square bracket, a duration leaf, and a closing bracket.
pub open spec fn range_shape(n: ParseNode) -> bool {
    &&& n.children@.len() == 4
    &&& n.children@[0].rule == Rule::InstantVector
    &&& n.children@[1].rule == Rule::Lsquare
    &&& n.children@[2].rule == Rule::Duration
    &&& n.children@[2].children@.len() == 0
    &&& n.children@[3].rule == Rule::Rsquare
}

/// Shape of a function-call node: a name leaf, an opening parenthesis,
/// the operand, then any literal parameters, and a closing parenthesis.
pub open spec fn function_shape(n: ParseNode) -> bool {
    &&& n.children@.len() >= 4
    &&& n.children@[0].rule == Rule::Function
    &&& n.children@[0].children@.len() == 0
    &&& n.children@[1].rule == Rule::Lparen
    &&& n.children@[n.children@.len() - 1].rule == Rule::Rparen
}

/// Whether a node is a literal parameter of a function call.
pub open spec fn is_param_node(c: ParseNode) -> bool {
    c.rule == Rule::Scalar || c.rule == Rule::StringLiteral
}

/// What the builder makes of the literal parameters found in a forest,
/// in source order, failing fast on the first malformed one.
pub open spec fn spec_build_params_seq(cs: Seq<ParseNode>) -> Result<Seq<ParamView>, BuildError>
    decreases cs,
{
    if cs.len() == 0 {
        Ok(Seq::empty())
    } else if is_param_node(cs[0]) {
        match spec_build_param(cs[0]) {
            Err(e) => Err(e),
            Ok(p) => match spec_build_params_seq(cs.drop_first()) {
                Err(e) => Err(e),
                Ok(rest) => Ok(seq![p] + rest),
            },
        }
    } else {
        spec_build_params_seq(cs.drop_first())
    }
}

/// What the builder makes of an instant-vector node, by the rule of its
/// single child: a scalar literal, a metric with an optional scope, a
/// bare scope, or a function call; any other child rule has no mapping
/// yet.
pub open spec fn spec_build_instant(n: ParseNode) -> Result<InstantVectorView, BuildError>
    decreases n, 0int,
{
    if n.rule != Rule::InstantVector || n.children@.len() != 1 {
        Err(BuildError::UnreachableState { rule: n.rule })
    } else {
        let c = n.children@[0];
        match c.rule {
            Rule::Scalar => Ok(InstantVectorView::Scalar(c.text@)),
            Rule::MetricWithScope => match spec_build_metric(c) {
                Ok(m) => Ok(InstantVectorView::MetricWithScope(m)),
                Err(e) => Err(e),
            },
            Rule::NameVector => match spec_build_scope(c) {
                Ok(s) => Ok(InstantVectorView::NameScope(s)),
                Err(e) => Err(e),
            },
            Rule::FunctionsToInstant => match spec_build_function(c) {
                Ok(f) => Ok(InstantVectorView::Func(Box::new(f))),
                Err(e) => Err(e),
            },
            _ => Err(BuildError::UnsupportedConstruct { rule: c.rule }),
        }
    }
}

/// What the builder makes of a range-vector node: the wrapped instant
/// vector together with the magnitude and time unit of its duration.
pub open spec fn spec_build_range(n: ParseNode) -> Result<RangeVectorView, BuildError>
    decreases n, 1int,
{
    if n.rule != Rule::RangeVector {
        Err(BuildError::UnreachableState { rule: n.rule })
    } else if !range_shape(n) {
        Err(BuildError::SyntaxError { offset: n.start, rule: Rule::RangeVector })
    } else {
        match spec_build_instant(n.children@[0]) {
            Err(e) => Err(e),
            Ok(v) => match spec_duration(n.children@[2].text@, n.children@[2].start) {
                Err(e) => Err(e),
                Ok((mag, unit)) => Ok(
                    RangeVectorView { instant_vector: v, range: mag, range_unit: unit },
                ),
            },
        }
    }
}

/// What the builder makes of a function-call node: its name, its
/// operand — an instant vector or a range vector, mutually exclusive —
/// and its literal parameters, if any.
pub open spec fn spec_build_function(n: ParseNode) -> Result<FunctionView, BuildError>
    decreases n, 1int,
{
    if n.rule != Rule::FunctionsToInstant {
        Err(BuildError::UnreachableState { rule: n.rule })
    } else if !function_shape(n) {
        Err(BuildError::SyntaxError { offset: n.start, rule: Rule::FunctionsToInstant })
    } else {
        let c = n.children@[2];
        let operand_res = if c.rule == Rule::InstantVector {
            match spec_build_instant(c) {
                Ok(v) => Ok(FunctionOperandView::Instant(v)),
                Err(e) => Err(e),
            }
        } else if c.rule == Rule::RangeVector {
            match spec_build_range(c) {
                Ok(r) => Ok(FunctionOperandView::Range(r)),
                Err(e) => Err(e),
            }
        } else {
            Err(BuildError::UnsupportedConstruct { rule: c.rule })
        };
        match operand_res {
            Err(e) => Err(e),
            Ok(operand) => match spec_build_params_seq(n.children@) {
                Err(e) => Err(e),
                Ok(ps) => Ok(
                    FunctionView {
                        name: n.children@[0].text@,
                        params: if ps.len() == 0 {
                            None
                        } else {
                            Some(ps)
                        },
                        operand,
                    },
                ),
            },
        }
    }
}

/// The view of a parameter vector.
pub open spec fn params_view(ps: Seq<Param>) -> Seq<ParamView> {
    ps.map_values(|p: Param| p@)
}

/// Builds the literal parameters found in the forest `cs[i..]`.
fn build_params_seq(cs: &Vec<ParseNode>, i: usize) -> (r: Result<Vec<Param>, BuildError>)
    requires
        i <= cs@.len(),
    ensures
        match r {
            Ok(ps) => spec_build_params_seq(cs@.skip(i as int)) == Ok::<Seq<ParamView>, BuildError>(
                params_view(ps@),
            ),
            Err(e) => spec_build_params_seq(cs@.skip(i as int)) == Err::<Seq<ParamView>, BuildError>(
                e,
            ),
        },
    decreases cs@.len() - i,
{
    let ghost suffix = cs@.skip(i as int);
    if i == cs.len() {
        let out: Vec<Param> = Vec::new();
        proof {
            assert(suffix.len() == 0);
            assert(params_view(out@) =~= Seq::<ParamView>::empty());
        }
        return Ok(out);
    }
    proof {
        assert(suffix[0] == cs@[i as int]);
        assert(suffix.drop_first() =~= cs@.skip(i + 1));
    }
    let c = &cs[i];
    if matches!(c.rule, Rule::Scalar) || matches!(c.rule, Rule::StringLiteral) {
        match parse_param(c) {
            Err(e) => Err(e),
            Ok(p) => {
                match build_params_seq(cs, i + 1) {
                    Err(e) => Err(e),
                    Ok(rest) => {
                        let mut out: Vec<Param> = Vec::new();
                        out.push(p);
                        let mut rest = rest;
                        let ghost p_snap = out@;
                        let ghost rest_snap = rest@;
                        out.append(&mut rest);
                        proof {
                            assert(params_view(p_snap + rest_snap) =~= params_view(p_snap)
                                + params_view(rest_snap));
                            assert(params_view(p_snap) =~= seq![p_snap[0]@]);
                        }
                        Ok(out)
                    },
                }
            },
        }
    } else {
        build_params_seq(cs, i + 1)
    }
}

/// Builds an instant vector from its node, dispatching on the rule of
/// the single child.
pub fn parse_instant_vector(n: &ParseNode) -> (r: Result<InstantVector, BuildError>)
    ensures
        match r {
            Ok(v) => spec_build_instant(*n) == Ok::<InstantVectorView, BuildError>(v@),
            Err(e) => spec_build_instant(*n) == Err::<InstantVectorView, BuildError>(e),
        },
    decreases *n, 0int,
{
    if !matches!(n.rule, Rule::InstantVector) || n.children.len() != 1 {
        return Err(BuildError::UnreachableState { rule: n.rule });
    }
    let c = &n.children[0];
    match c.rule {
        Rule::Scalar => Ok(InstantVector::Scalar(c.text.clone())),
        Rule::MetricWithScope => match parse_metric_with_scope(c) {
            Ok(m) => Ok(InstantVector::MetricWithScope(m)),
            Err(e) => Err(e),
        },
        Rule::NameVector => match parse_name_scope(c) {
            Ok(s) => Ok(InstantVector::NameScope(s)),
            Err(e) => Err(e),
        },
        Rule::FunctionsToInstant => {
            proof {
                assert(decreases_to!(*n, 0int => n.children@[0], 1int));
            }
            match parse_function(c) {
                Ok(f) => Ok(InstantVector::Func(Box::new(f))),
                Err(e) => Err(e),
            }
        },
        _ => Err(BuildError::UnsupportedConstruct { rule: c.rule }),
    }
}

/// Builds a range vector from its node: the wrapped instant vector and
/// its parsed duration.
pub fn parse_range_vector(n: &ParseNode) -> (r: Result<RangeVector, BuildError>)
    ensures
        match r {
            Ok(v) => spec_build_range(*n) == Ok::<RangeVectorView, BuildError>(v@),
            Err(e) => spec_build_range(*n) == Err::<RangeVectorView, BuildError>(e),
        },
    decreases *n, 1int,
{
    if !matches!(n.rule, Rule::RangeVector) {
        return Err(BuildError::UnreachableState { rule: n.rule });
    }
    if !(n.children.len() == 4 && matches!(n.children[0].rule, Rule::InstantVector) && matches!(
        n.children[1].rule,
        Rule::Lsquare,
    ) && matches!(n.children[2].rule, Rule::Duration) && n.children[2].children.len() == 0
        && matches!(n.children[3].rule, Rule::Rsquare)) {
        return Err(BuildError::SyntaxError { offset: n.start, rule: Rule::RangeVector });
    }
    match parse_instant_vector(&n.children[0]) {
        Err(e) => Err(e),
        Ok(v) => {
            match parse_duration(n.children[2].text.as_str(), n.children[2].start) {
                Err(e) => Err(e),
                Ok((mag, unit)) => Ok(
                    RangeVector { instant_vector: v, range: mag, range_unit: unit },
                ),
            }
        },
    }
}

/// Builds a function call from its node: name, operand, and literal
/// parameters.
pub fn parse_function(n: &ParseNode) -> (r: Result<Function, BuildError>)
    ensures
        match r {
            Ok(f) => spec_build_function(*n) == Ok::<FunctionView, BuildError>(f@),
            Err(e) => spec_build_function(*n) == Err::<FunctionView, BuildError>(e),
        },
    decreases *n, 1int,
{
    if !matches!(n.rule, Rule::FunctionsToInstant) {
        return Err(BuildError::UnreachableState { rule: n.rule });
    }
    if !(n.children.len() >= 4 && matches!(n.children[0].rule, Rule::Function)
        && n.children[0].children.len() == 0 && matches!(n.children[1].rule, Rule::Lparen)
        && matches!(n.children[n.children.len() - 1].rule, Rule::Rparen)) {
        return Err(BuildError::SyntaxError { offset: n.start, rule: Rule::FunctionsToInstant });
    }
    let c = &n.children[2];
    let operand_res: Result<FunctionOperand, BuildError> = if matches!(
        c.rule,
        Rule::InstantVector,
    ) {
        match parse_instant_vector(c) {
            Ok(v) => Ok(FunctionOperand::Instant(v)),
            Err(e) => Err(e),
        }
    } else if matches!(c.rule, Rule::RangeVector) {
        match parse_range_vector(c) {
            Ok(r) => Ok(FunctionOperand::Range(r)),
            Err(e) => Err(e),
        }
    } else {
        Err(BuildError::UnsupportedConstruct { rule: c.rule })
    };
    match operand_res {
        Err(e) => Err(e),
        Ok(operand) => {
            proof {
                assert(n.children@.skip(0) =~= n.children@);
            }
            match build_params_seq(&n.children, 0) {
                Err(e) => Err(e),
                Ok(ps) => {
                    let params = if ps.len() == 0 {
                        None
                    } else {
                        Some(ps)
                    };
                    proof {
                        if ps@.len() != 0 {
                            assert(params_view(ps@).len() != 0);
                        }
                    }
                    Ok(Function { name: n.children[0].text.clone(), params, operand })
                },
            }
        },
    }
}

/// The smaller of two tiers.
pub open spec fn min_u32(a: u32, b: u32) -> u32 {
    if a <= b {
        a
    } else {
        b
    }
}

/// The lowest precedence tier among the listed operators.
pub open spec fn spec_min_tier(rest: Seq<(Op, ExprView)>) -> u32
    decreases rest,
{
    if rest.len() <= 1 {
        spec_op_tier(rest[0].0)
    } else {
        min_u32(spec_min_tier(rest.drop_last()), spec_op_tier(rest.last().0))
    }
}

/// The first position holding an operator of tier `t`.
pub open spec fn spec_first_at(rest: Seq<(Op, ExprView)>, t: u32) -> int
    decreases rest,
{
    if rest.len() == 0 {
        0
    } else if spec_op_tier(rest[0].0) == t {
        0
    } else {
        1 + spec_first_at(rest.drop_first(), t)
    }
}

/// The last position holding an operator of tier `t`.
pub open spec fn spec_last_at(rest: Seq<(Op, ExprView)>, t: u32) -> int
    decreases rest,
{
    if rest.len() == 0 {
        -1
    } else if spec_op_tier(rest.last().0) == t {
        rest.len() - 1
    } else {
        spec_last_at(rest.drop_last(), t)
    }
}

/// The position of the operator that becomes the root of the resolved
/// tree: among the operators of the lowest tier, the first one when the
/// tier is right-associative and the last one otherwise.
pub open spec fn spec_root_index(rest: Seq<(Op, ExprView)>) -> int {
    let m = spec_min_tier(rest);
    if spec_tier_right_assoc(m) {
        spec_first_at(rest, m)
    } else {
        spec_last_at(rest, m)
    }
}

proof fn lemma_min_tier_props(rest: Seq<(Op, ExprView)>)
    requires
        rest.len() > 0,
    ensures
        forall|j: int|
            0 <= j < rest.len() ==> spec_op_tier((#[trigger] rest[j]).0) >= spec_min_tier(rest),
        exists|j: int|
            0 <= j < rest.len() && spec_op_tier((#[trigger] rest[j]).0) == spec_min_tier(rest),
    decreases rest,
{
    if rest.len() == 1 {
        assert(spec_op_tier(rest[0].0) == spec_min_tier(rest));
    } else {
        let head = rest.drop_last();
        lemma_min_tier_props(head);
        let m = spec_min_tier(rest);
        assert forall|j: int| 0 <= j < rest.len() implies spec_op_tier((#[trigger] rest[j]).0)
            >= m by {
            if j < rest.len() - 1 {
                assert(head[j] == rest[j]);
            } else {
                assert(rest[j] == rest.last());
            }
        }
        if spec_op_tier(rest.last().0) == m {
            assert(spec_op_tier(rest[rest.len() - 1].0) == m);
        } else {
            let w = choose|j: int|
                0 <= j < head.len() && spec_op_tier((#[trigger] head[j]).0) == spec_min_tier(head);
            assert(head[w] == rest[w]);
            assert(spec_min_tier(head) == m);
        }
    }
}

proof fn lemma_first_at_props(rest: Seq<(Op, ExprView)>, t: u32)
    requires
        exists|j: int| 0 <= j < rest.len() && spec_op_tier((#[trigger] rest[j]).0) == t,
    ensures
        0 <= spec_first_at(rest, t) < rest.len(),
        spec_op_tier(rest[spec_first_at(rest, t)].0) == t,
        forall|j: int| 0 <= j < spec_first_at(rest, t) ==> spec_op_tier((#[trigger] rest[j]).0) != t,
    decreases rest,
{
    if spec_op_tier(rest[0].0) == t {
    } else {
        let tail = rest.drop_first();
        let w = choose|j: int|
            0 <= j < rest.len() && spec_op_tier((#[trigger] rest[j]).0) == t;
        assert(w > 0);
        assert(tail[w - 1] == rest[w]);
        lemma_first_at_props(tail, t);
        let f = spec_first_at(tail, t);
        assert(tail[f] == rest[f + 1]);
        assert forall|j: int| 0 <= j < 1 + f implies spec_op_tier((#[trigger] rest[j]).0) != t by {
            if j > 0 {
                assert(tail[j - 1] == rest[j]);
            }
        }
    }
}

proof fn lemma_last_at_props(rest: Seq<(Op, ExprView)>, t: u32)
    requires
        exists|j: int| 0 <= j < rest.len() && spec_op_tier((#[trigger] rest[j]).0) == t,
    ensures
        0 <= spec_last_at(rest, t) < rest.len(),
        spec_op_tier(rest[spec_last_at(rest, t)].0) == t,
        forall|j: int|
            spec_last_at(rest, t) < j < rest.len() ==> spec_op_tier((#[trigger] rest[j]).0) != t,
    decreases rest,
{
    if spec_op_tier(rest.last().0) == t {
        assert(spec_op_tier(rest[rest.len() - 1].0) == t);
    } else {
        let head = rest.drop_last();
        let w = choose|j: int|
            0 <= j < rest.len() && spec_op_tier((#[trigger] rest[j]).0) == t;
        assert(w < rest.len() - 1);
        assert(head[w] == rest[w]);
        lemma_last_at_props(head, t);
        let l = spec_last_at(head, t);
        assert(head[l] == rest[l]);
        assert forall|j: int| l < j < rest.len() implies spec_op_tier((#[trigger] rest[j]).0)
            != t by {
            if j < rest.len() - 1 {
                assert(head[j] == rest[j]);
            } else {
                assert(rest[j] == rest.last());
            }
        }
    }
}

/// The root position exists, carries the lowest tier, and is extremal
/// for its associativity.
proof fn lemma_root_index_props(rest: Seq<(Op, ExprView)>)
    requires
        rest.len() > 0,
    ensures
        0 <= spec_root_index(rest) < rest.len(),
        spec_op_tier(rest[spec_root_index(rest)].0) == spec_min_tier(rest),
        forall|j: int|
            0 <= j < rest.len() ==> spec_op_tier((#[trigger] rest[j]).0) >= spec_min_tier(rest),
        spec_tier_right_assoc(spec_min_tier(rest)) ==> forall|j: int|
            0 <= j < spec_root_index(rest) ==> spec_op_tier((#[trigger] rest[j]).0)
                != spec_min_tier(rest),
        !spec_tier_right_assoc(spec_min_tier(rest)) ==> forall|j: int|
            spec_root_index(rest) < j < rest.len() ==> spec_op_tier((#[trigger] rest[j]).0)
                != spec_min_tier(rest),
{
    lemma_min_tier_props(rest);
    let m = spec_min_tier(rest);
    if spec_tier_right_assoc(m) {
        lemma_first_at_props(rest, m);
    } else {
        lemma_last_at_props(rest, m);
    }
}

/// The resolved shape of a primary expression, an optional leading
/// unary sign, and a trailing sequence of (operator, primary) pairs:
/// the lowest-tier operator becomes the root — the last such operator
/// for a left-associative tier, the first for the right-associative
/// power tier — and the leading sign binds tighter than every infix
/// tier except power.
pub open spec fn spec_resolve(sign: Option<Sign>, first: ExprView, rest: Seq<(Op, ExprView)>)
    -> ExprView
    decreases rest.len(), (if sign is Some { 1int } else { 0int }),
    via spec_resolve_decreases
{
    if rest.len() == 0 {
        match sign {
            Some(s) => ExprView::Sign(s, Box::new(first)),
            None => first,
        }
    } else if sign is Some && spec_min_tier(rest) > UNARY_TIER {
        ExprView::Sign(sign->0, Box::new(spec_resolve(None, first, rest)))
    } else {
        let k = spec_root_index(rest);
        ExprView::BinOp {
            lhs: Box::new(spec_resolve(sign, first, rest.take(k))),
            op: rest[k].0,
            rhs: Box::new(spec_resolve(None, rest[k].1, rest.skip(k + 1))),
        }
    }
}

#[via_fn]
proof fn spec_resolve_decreases(sign: Option<Sign>, first: ExprView, rest: Seq<(Op, ExprView)>) {
    if rest.len() > 0 {
        lemma_root_index_props(rest);
    }
}

/// The view of a sequence of (operator, primary) pairs.
pub open spec fn rest_view(s: Seq<(Op, Expr)>) -> Seq<(Op, ExprView)> {
    s.map_values(|p: (Op, Expr)| (p.0, p.1@))
}

/// Resolves a primary expression, an optional leading unary sign, and a
/// trailing sequence of (operator, primary) pairs into a single
/// expression tree, per the fixed precedence and associativity table.
/// This function is total: a trailing operator with no right-hand
/// operand cannot be expressed in its input.
pub fn resolve_precedence(sign: Option<Sign>, first: Expr, rest: Vec<(Op, Expr)>) -> (r: Expr)
    ensures
        r@ == spec_resolve(sign, first@, rest_view(rest@)),
    decreases rest@.len(), (if sign is Some { 1int } else { 0int }),
{
    let ghost rv = rest_view(rest@);
    if rest.len() == 0 {
        return match sign {
            Some(s) => Expr::Sign(s, Box::new(first)),
            None => first,
        };
    }
    proof {
        lemma_root_index_props(rv);
    }
    // the lowest tier among the operators
    let mut m: u32 = op_tier(rest[0].0);
    proof {
        assert(rv[0] == (rest@[0].0, rest@[0].1@));
        assert(rv.take(1).len() == 1);
        assert(rv.take(1)[0] == rv[0]);
    }
    let mut j: usize = 1;
    while j < rest.len()
        invariant
            1 <= j <= rest@.len(),
            rv == rest_view(rest@),
            rv.len() == rest@.len(),
            m == spec_min_tier(rv.take(j as int)),
        decreases rest@.len() - j,
    {
        let t = op_tier(rest[j].0);
        proof {
            assert(rv[j as int] == (rest@[j as int].0, rest@[j as int].1@));
            assert(rv.take(j + 1).drop_last() =~= rv.take(j as int));
            assert(rv.take(j + 1).last() == rv[j as int]);
        }
        if t < m {
            m = t;
        }
        j = j + 1;
    }
    proof {
        assert(rv.take(rest@.len() as int) =~= rv);
    }
    // a leading sign outranks everything but the power tier
    if m > UNARY_TIER {
        if let Some(s) = sign {
            return Expr::Sign(s, Box::new(resolve_precedence(None, first, rest)));
        }
    }
    // locate the root operator for tier m
    let ghost root = spec_root_index(rv);
    let mut k: usize = 0;
    if tier_right_assoc(m) {
        let mut found = false;
        let mut j2: usize = 0;
        while j2 < rest.len() && !found
            invariant
                0 <= j2 <= rest@.len(),
                rv == rest_view(rest@),
                rv.len() == rest@.len(),
                m == spec_min_tier(rv),
                spec_tier_right_assoc(m),
                root == spec_root_index(rv),
                0 <= root < rv.len(),
                spec_op_tier(rv[root].0) == m,
                forall|jj: int| 0 <= jj < root ==> spec_op_tier((#[trigger] rv[jj]).0) != m,
                !found ==> forall|jj: int|
                    0 <= jj < j2 ==> spec_op_tier((#[trigger] rv[jj]).0) != m,
                found ==> k < rv.len() && k == root,
            decreases rest@.len() - j2,
    {
            proof {
                assert(rv[j2 as int] == (rest@[j2 as int].0, rest@[j2 as int].1@));
            }
            if op_tier(rest[j2].0) == m {
                k = j2;
                found = true;
                proof {
                    assert(spec_op_tier(rv[j2 as int].0) == m);
                    if root < j2 {
                        assert(spec_op_tier(rv[root].0) != m);
                    }
                    if root > j2 {
                        assert(spec_op_tier(rv[j2 as int].0) != m);
                    }
                }
            }
            j2 = j2 + 1;
        }
        proof {
            if !found {
                assert(spec_op_tier(rv[root].0) != m);
            }
        }
    } else {
        let mut j2: usize = 0;
        let ghost mut seen = false;
        while j2 < rest.len()
            invariant
                0 <= j2 <= rest@.len(),
                rv == rest_view(rest@),
                rv.len() == rest@.len(),
                m == spec_min_tier(rv),
                !spec_tier_right_assoc(m),
                root == spec_root_index(rv),
                0 <= root < rv.len(),
                spec_op_tier(rv[root].0) == m,
                forall|jj: int| root < jj < rv.len() ==> spec_op_tier((#[trigger] rv[jj]).0) != m,
                seen ==> k < rv.len() && spec_op_tier(rv[k as int].0) == m && k <= root,
                !seen ==> forall|jj: int|
                    0 <= jj < j2 ==> spec_op_tier((#[trigger] rv[jj]).0) != m,
                seen ==> forall|jj: int|
                    k < jj < j2 ==> spec_op_tier((#[trigger] rv[jj]).0) != m,
                j2 > root ==> seen,
            decreases rest@.len() - j2,
        {
            proof {
                assert(rv[j2 as int] == (rest@[j2 as int].0, rest@[j2 as int].1@));
            }
            if op_tier(rest[j2].0) == m {
                k = j2;
                proof {
                    seen = true;
                    if root < j2 {
                        assert(spec_op_tier(rv[j2 as int].0) != m);
                    }
                }
            }
            j2 = j2 + 1;
        }
        proof {
            assert(seen);
            if k < root {
                assert(spec_op_tier(rv[root].0) != m);
            }
            assert(k == root);
        }
    }
    // split the pair list around the root operator
    let ghost rest_snap = rest@;
    let mut right_part = rest;
    let mut left_part: Vec<(Op, Expr)> = Vec::new();
    let mut j3: usize = 0;
    while j3 < k
        invariant
            0 <= j3 <= k,
            k < rest_snap.len(),
            left_part@ =~= rest_snap.take(j3 as int),
            right_part@ =~= rest_snap.skip(j3 as int),
        decreases k - j3,
    {
        let item = right_part.remove(0);
        left_part.push(item);
        proof {
            assert(rest_snap.skip(j3 as int)[0] == rest_snap[j3 as int]);
            assert(rest_snap.skip(j3 as int).remove(0) =~= rest_snap.skip(j3 + 1));
            assert(rest_snap.take(j3 as int).push(rest_snap[j3 as int]) =~= rest_snap.take(
                j3 + 1,
            ));
        }
        j3 = j3 + 1;
    }
    let pair = right_part.remove(0);
    proof {
        assert(rest_snap.skip(k as int)[0] == rest_snap[k as int]);
        assert(rest_snap.skip(k as int).remove(0) =~= rest_snap.skip(k + 1));
    }
    let op = pair.0;
    let rhs0 = pair.1;
    let le = resolve_precedence(sign, first, left_part);
    let re = resolve_precedence(None, rhs0, right_part);
    proof {
        assert(rest_view(rest_snap.take(k as int)) =~= rv.take(k as int));
        assert(rest_view(rest_snap.skip(k + 1)) =~= rv.skip(k + 1));
        assert(rv[k as int] == (rest_snap[k as int].0, rest_snap[k as int].1@));
    }
    Expr::BinOp { lhs: Box::new(le), op, rhs: Box::new(re) }
}

/// The operator denoted by an operator leaf rule, if any.
pub open spec fn spec_op_of_rule(r: Rule) -> Option<Op> {
    match r {
        Rule::Add => Some(Op::Add),
        Rule::Subtract => Some(Op::Subtract),
        Rule::Multiply => Some(Op::Multiply),
        Rule::Divide => Some(Op::Divide),
        Rule::Modulo => Some(Op::Modulo),
        Rule::Power => Some(Op::Pow),
        Rule::Gt => Some(Op::Gt),
        Rule::Gte => Some(Op::Gte),
        Rule::Lt => Some(Op::Lt),
        Rule::Lte => Some(Op::Lte),
        Rule::EqOp => Some(Op::Eql),
        Rule::NeOp => Some(Op::Neq),
        Rule::AndKw => Some(Op::And),
        Rule::OrKw => Some(Op::Or),
        Rule::UnlessKw => Some(Op::Unless),
        _ => None,
    }
}

/// Executable lookup of the operator denoted by a rule.
pub fn op_of_rule(r: Rule) -> (o: Option<Op>)
    ensures
        o == spec_op_of_rule(r),
{
    match r {
        Rule::Add => Some(Op::Add),
        Rule::Subtract => Some(Op::Subtract),
        Rule::Multiply => Some(Op::Multiply),
        Rule::Divide => Some(Op::Divide),
        Rule::Modulo => Some(Op::Modulo),
        Rule::Power => Some(Op::Pow),
        Rule::Gt => Some(Op::Gt),
        Rule::Gte => Some(Op::Gte),
        Rule::Lt => Some(Op::Lt),
        Rule::Lte => Some(Op::Lte),
        Rule::EqOp => Some(Op::Eql),
        Rule::NeOp => Some(Op::Neq),
        Rule::AndKw => Some(Op::And),
        Rule::OrKw => Some(Op::Or),
        Rule::UnlessKw => Some(Op::Unless),
        _ => None,
    }
}

/// The sign denoted by a unary-sign leaf's text.
pub open spec fn spec_sign_of(t: Seq<char>) -> Sign {
    if t.len() == 1 && t[0] == '-' {
        Sign::Minus
    } else {
        Sign::Plus
    }
}

/// What the builder expects after an operator or at the start of an
/// expression sequence: whitespace, then one primary, then operators
/// and primaries in alternation. A missing operand — an empty tail or a
/// stray operator token — is a syntax error at the current offset.
pub open spec fn spec_operand_then(cs: Seq<ParseNode>, off: usize) -> Result<
    (ExprView, Seq<(Op, ExprView)>),
    BuildError,
>
    decreases cs, 0int,
{
    if cs.len() == 0 {
        Err(BuildError::SyntaxError { offset: off, rule: Rule::Expr })
    } else if cs[0].rule == Rule::Ws {
        spec_operand_then(cs.drop_first(), cs[0].end)
    } else if spec_op_of_rule(cs[0].rule) is Some || cs[0].rule == Rule::UnarySign {
        Err(BuildError::SyntaxError { offset: cs[0].start, rule: Rule::Expr })
    } else {
        match spec_build_expr(cs[0]) {
            Err(e) => Err(e),
            Ok(first) => match spec_ops_then(cs.drop_first(), cs[0].end) {
                Err(e) => Err(e),
                Ok(rest) => Ok((first, rest)),
            },
        }
    }
}

/// The (operator, primary) pairs that follow the first primary of an
/// expression sequence. An operator with no right-hand operand is a
/// syntax error, never a defaulted operand.
pub open spec fn spec_ops_then(cs: Seq<ParseNode>, off: usize) -> Result<
    Seq<(Op, ExprView)>,
    BuildError,
>
    decreases cs, 0int,
{
    if cs.len() == 0 {
        Ok(Seq::empty())
    } else if cs[0].rule == Rule::Ws {
        spec_ops_then(cs.drop_first(), cs[0].end)
    } else {
        match spec_op_of_rule(cs[0].rule) {
            Some(op) => match spec_operand_then(cs.drop_first(), cs[0].end) {
                Err(e) => Err(e),
                Ok((e2, rest)) => Ok(seq![(op, e2)] + rest),
            },
            None => Err(BuildError::SyntaxError { offset: cs[0].start, rule: Rule::Expr }),
        }
    }
}

/// The items of an expression node's child sequence: an optional
/// leading unary sign, a first primary, and trailing (operator,
/// primary) pairs.
pub open spec fn spec_expr_items(cs: Seq<ParseNode>, off: usize) -> Result<
    (Option<Sign>, ExprView, Seq<(Op, ExprView)>),
    BuildError,
>
    decreases cs, 1int,
{
    if cs.len() == 0 {
        Err(BuildError::SyntaxError { offset: off, rule: Rule::Expr })
    } else if cs[0].rule == Rule::Ws {
        spec_expr_items(cs.drop_first(), cs[0].end)
    } else if cs[0].rule == Rule::UnarySign {
        match spec_operand_then(cs.drop_first(), cs[0].end) {
            Err(e) => Err(e),
            Ok((first, rest)) => Ok((Some(spec_sign_of(cs[0].text@)), first, rest)),
        }
    } else {
        match spec_operand_then(cs, off) {
            Err(e) => Err(e),
            Ok((first, rest)) => Ok((None, first, rest)),
        }
    }
}

/// What the builder makes of any expression-bearing node: a query
/// wrapper is unwrapped to its expression; an expression node has its
/// items resolved by precedence; an instant-vector node becomes an
/// instant-vector expression; a boolean-modifier postfix wraps its
/// inner expression; and any other rule signals a grammar/builder
/// contract mismatch.
pub open spec fn spec_build_expr(n: ParseNode) -> Result<ExprView, BuildError>
    decreases n, 2int,
{
    if n.rule == Rule::Query {
        let cs = n.children@;
        if cs.len() == 1 {
            spec_build_expr(cs[0])
        } else if cs.len() == 2 {
            if cs[0].rule == Rule::Ws {
                spec_build_expr(cs[1])
            } else {
                spec_build_expr(cs[0])
            }
        } else if cs.len() == 3 {
            spec_build_expr(cs[1])
        } else {
            Err(BuildError::UnreachableState { rule: Rule::Query })
        }
    } else if n.rule == Rule::Expr {
        match spec_expr_items(n.children@, n.start) {
            Err(e) => Err(e),
            Ok((sign, first, rest)) => Ok(spec_resolve(sign, first, rest)),
        }
    } else if n.rule == Rule::InstantVector {
        match spec_build_instant(n) {
            Err(e) => Err(e),
            Ok(v) => Ok(ExprView::InstantVector(v)),
        }
    } else if n.rule == Rule::Postfix {
        if n.children@.len() >= 1 {
            match spec_build_expr(n.children@[0]) {
                Err(e) => Err(e),
                Ok(inner) => Ok(ExprView::Bool(Box::new(inner))),
            }
        } else {
            Err(BuildError::UnreachableState { rule: Rule::Postfix })
        }
    } else {
        Err(BuildError::UnreachableState { rule: n.rule })
    }
}

/// Builds the operand expected at `cs[i..]`: optional whitespace, a
/// primary, then trailing operator/primary pairs.
fn build_operand_then(cs: &Vec<ParseNode>, i: usize, off: usize) -> (r: Result<
    (Expr, Vec<(Op, Expr)>),
    BuildError,
>)
    requires
        i <= cs@.len(),
    ensures
        match r {
            Ok(v) => spec_operand_then(cs@.skip(i as int), off) == Ok::<
                (ExprView, Seq<(Op, ExprView)>),
                BuildError,
            >((v.0@, rest_view(v.1@))),
            Err(e) => spec_operand_then(cs@.skip(i as int), off) == Err::<
                (ExprView, Seq<(Op, ExprView)>),
                BuildError,
            >(e),
        },
    decreases cs@.skip(i as int), 0int,
{
    let ghost suffix = cs@.skip(i as int);
    if i == cs.len() {
        return Err(BuildError::SyntaxError { offset: off, rule: Rule::Expr });
    }
    proof {
        assert(suffix[0] == cs@[i as int]);
        assert(suffix.drop_first() =~= cs@.skip(i + 1));
        assert(suffix.subrange(1, suffix.len() as int) =~= cs@.skip(i + 1));
        assert(decreases_to!(suffix => suffix.subrange(1, suffix.len() as int)));
    }
    let c = &cs[i];
    if matches!(c.rule, Rule::Ws) {
        return build_operand_then(cs, i + 1, c.end);
    }
    let is_op = op_of_rule(c.rule).is_some();
    if is_op || matches!(c.rule, Rule::UnarySign) {
        return Err(BuildError::SyntaxError { offset: c.start, rule: Rule::Expr });
    }
    proof {
        assert(decreases_to!(suffix => suffix[0]));
    }
    match parse_expr(c) {
        Err(e) => Err(e),
        Ok(first) => {
            match build_ops_then(cs, i + 1, c.end) {
                Err(e) => Err(e),
                Ok(rest) => Ok((first, rest)),
            }
        },
    }
}

/// Builds the operator/primary pairs found at `cs[i..]`.
fn build_ops_then(cs: &Vec<ParseNode>, i: usize, off: usize) -> (r: Result<
    Vec<(Op, Expr)>,
    BuildError,
>)
    requires
        i <= cs@.len(),
    ensures
        match r {
            Ok(v) => spec_ops_then(cs@.skip(i as int), off) == Ok::<
                Seq<(Op, ExprView)>,
                BuildError,
            >(rest_view(v@)),
            Err(e) => spec_ops_then(cs@.skip(i as int), off) == Err::<
                Seq<(Op, ExprView)>,
                BuildError,
            >(e),
        },
    decreases cs@.skip(i as int), 0int,
{
    let ghost suffix = cs@.skip(i as int);
    if i == cs.len() {
        let out: Vec<(Op, Expr)> = Vec::new();
        proof {
            assert(rest_view(out@) =~= Seq::<(Op, ExprView)>::empty());
        }
        return Ok(out);
    }
    proof {
        assert(suffix[0] == cs@[i as int]);
        assert(suffix.drop_first() =~= cs@.skip(i + 1));
        assert(suffix.subrange(1, suffix.len() as int) =~= cs@.skip(i + 1));
        assert(decreases_to!(suffix => suffix.subrange(1, suffix.len() as int)));
    }
    let c = &cs[i];
    if matches!(c.rule, Rule::Ws) {
        return build_ops_then(cs, i + 1, c.end);
    }
    match op_of_rule(c.rule) {
        None => Err(BuildError::SyntaxError { offset: c.start, rule: Rule::Expr }),
        Some(op) => {
            match build_operand_then(cs, i + 1, c.end) {
                Err(e) => Err(e),
                Ok((e2, rest)) => {
                    let mut out: Vec<(Op, Expr)> = Vec::new();
                    out.push((op, e2));
                    let mut rest = rest;
                    let ghost head_snap = out@;
                    let ghost rest_snap = rest@;
                    out.append(&mut rest);
                    proof {
                        assert(rest_view(head_snap + rest_snap) =~= rest_view(head_snap)
                            + rest_view(rest_snap));
                        assert(rest_view(head_snap) =~= seq![(head_snap[0].0, head_snap[0].1@)]);
                    }
                    Ok(out)
                },
            }
        },
    }
}

/// Builds the item triple of an expression node's children starting at
/// `cs[i..]`: optional sign, first primary, trailing pairs.
fn build_expr_items(cs: &Vec<ParseNode>, i: usize, off: usize) -> (r: Result<
    (Option<Sign>, Expr, Vec<(Op, Expr)>),
    BuildError,
>)
    requires
        i <= cs@.len(),
    ensures
        match r {
            Ok(v) => spec_expr_items(cs@.skip(i as int), off) == Ok::<
                (Option<Sign>, ExprView, Seq<(Op, ExprView)>),
                BuildError,
            >((v.0, v.1@, rest_view(v.2@))),
            Err(e) => spec_expr_items(cs@.skip(i as int), off) == Err::<
                (Option<Sign>, ExprView, Seq<(Op, ExprView)>),
                BuildError,
            >(e),
        },
    decreases cs@.skip(i as int), 1int,
{
    let ghost suffix = cs@.skip(i as int);
    if i == cs.len() {
        return Err(BuildError::SyntaxError { offset: off, rule: Rule::Expr });
    }
    proof {
        assert(suffix[0] == cs@[i as int]);
        assert(suffix.drop_first() =~= cs@.skip(i + 1));
        assert(suffix.subrange(1, suffix.len() as int) =~= cs@.skip(i + 1));
        assert(decreases_to!(suffix => suffix.subrange(1, suffix.len() as int)));
    }
    let c = &cs[i];
    if matches!(c.rule, Rule::Ws) {
        return build_expr_items(cs, i + 1, c.end);
    }
    if matches!(c.rule, Rule::UnarySign) {
        let sign = if c.text.unicode_len() == 1 && c.text.as_str().get_char(0) == '-' {
            Sign::Minus
        } else {
            Sign::Plus
        };
        proof {
            assert(sign == spec_sign_of(c.text@));
        }
        match build_operand_then(cs, i + 1, c.end) {
            Err(e) => Err(e),
            Ok((first, rest)) => Ok((Some(sign), first, rest)),
        }
    } else {
        match build_operand_then(cs, i, off) {
            Err(e) => Err(e),
            Ok((first, rest)) => Ok((None, first, rest)),
        }
    }
}

/// Builds an expression from any expression-bearing node: unwraps a
/// query wrapper, resolves an expression sequence by precedence, maps
/// an instant vector, and wraps a boolean-modifier postfix.
pub fn parse_expr(n: &ParseNode) -> (r: Result<Expr, BuildError>)
    ensures
        match r {
            Ok(e) => spec_build_expr(*n) == Ok::<ExprView, BuildError>(e@),
            Err(e) => spec_build_expr(*n) == Err::<ExprView, BuildError>(e),
        },
    decreases *n, 2int,
{
    match n.rule {
        Rule::Query => {
            if n.children.len() == 1 {
                parse_expr(&n.children[0])
            } else if n.children.len() == 2 {
                if matches!(n.children[0].rule, Rule::Ws) {
                    parse_expr(&n.children[1])
                } else {
                    parse_expr(&n.children[0])
                }
            } else if n.children.len() == 3 {
                parse_expr(&n.children[1])
            } else {
                Err(BuildError::UnreachableState { rule: Rule::Query })
            }
        },
        Rule::Expr => {
            proof {
                assert(n.children@.skip(0) =~= n.children@);
            }
            match build_expr_items(&n.children, 0, n.start) {
                Err(e) => Err(e),
                Ok((sign, first, rest)) => Ok(resolve_precedence(sign, first, rest)),
            }
        },
        Rule::InstantVector => {
            match parse_instant_vector(n) {
                Err(e) => Err(e),
                Ok(v) => Ok(Expr::InstantVector(v)),
            }
        },
        Rule::Postfix => {
            if n.children.len() >= 1 {
                match parse_expr(&n.children[0]) {
                    Err(e) => Err(e),
                    Ok(inner) => Ok(Expr::Bool(Box::new(inner))),
                }
            } else {
                Err(BuildError::UnreachableState { rule: Rule::Postfix })
            }
        },
        _ => Err(BuildError::UnreachableState { rule: n.rule }),
    }
}


/// `pairs_in_seq` distributes over appending one node to a forest.
pub proof fn lemma_pairs_in_push(cs: Seq<ParseNode>, n: ParseNode)
    ensures
        pairs_in_seq(cs.push(n)) == pairs_in_seq(cs) + pairs_in(n),
    decreases cs,
{
    if cs.len() == 0 {
        assert(cs.push(n).len() == 1);
        assert(cs.push(n)[0] == n);
        assert(cs.push(n).drop_first() =~= Seq::<ParseNode>::empty());
        assert(pairs_in_seq(Seq::<ParseNode>::empty()) == Seq::<ParseNode>::empty());
        assert(pairs_in_seq(cs.push(n)) == pairs_in(n) + pairs_in_seq(cs.push(n).drop_first()));
        assert(pairs_in(n) + Seq::<ParseNode>::empty() =~= pairs_in(n));
        assert(pairs_in_seq(cs) + pairs_in(n) =~= pairs_in(n));
    } else {
        lemma_pairs_in_push(cs.drop_first(), n);
        assert(cs.push(n)[0] == cs[0]);
        assert(cs.push(n).drop_first() =~= cs.drop_first().push(n));
        assert(pairs_in(cs[0]) + (pairs_in_seq(cs.drop_first()) + pairs_in(n)) =~= (pairs_in(
            cs[0],
        ) + pairs_in_seq(cs.drop_first())) + pairs_in(n));
    }
}

/// A single well-shaped pair always builds.
pub proof fn lemma_build_labels_singleton(p: ParseNode)
    requires
        pair_shape(p),
    ensures
        spec_build_labels(seq![p]) == Ok::<Seq<LabelAndValueView>, BuildError>(seq![pair_view(p)]),
{
    assert(seq![p].len() == 1);
    assert(seq![p][0] == p);
    assert(seq![p].drop_first() =~= Seq::<ParseNode>::empty());
    assert(spec_build_labels(Seq::<ParseNode>::empty()) == Ok::<
        Seq<LabelAndValueView>,
        BuildError,
    >(Seq::<LabelAndValueView>::empty()));
    assert(seq![pair_view(p)] + Seq::<LabelAndValueView>::empty() =~= seq![pair_view(p)]);
}

/// A node with no children and a rule other than the pair rule holds no
/// pairs.
pub proof fn lemma_pairs_in_leaf(n: ParseNode)
    requires
        n.rule != Rule::Pair,
        n.children@.len() == 0,
    ensures
        pairs_in(n) == Seq::<ParseNode>::empty(),
{
    assert(pairs_in_seq(n.children@) =~= Seq::<ParseNode>::empty());
}

} // verus!
