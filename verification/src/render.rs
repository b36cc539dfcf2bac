//! The tree renderer: a pure, total rendering of any parse tree as
//! indented text, one rule per line, for diagnostic use.

use vstd::prelude::*;

use crate::tree::{ParseNode, Rule};

verus! {

/// The printed name of each grammar rule.
pub open spec fn spec_rule_name(r: Rule) -> Seq<char> {
    match r {
        Rule::Query => "query"@,
        Rule::Expr => "expr"@,
        Rule::UnarySign => "unary_sign"@,
        Rule::Postfix => "postfix"@,
        Rule::BoolKw => "bool_kw"@,
        Rule::InstantVector => "instant_vector"@,
        Rule::MetricWithScope => "metric_with_scope"@,
        Rule::NameVector => "name_vector"@,
        Rule::Scope => "scope"@,
        Rule::Pair => "pair"@,
        Rule::Label => "label"@,
        Rule::LabelOp => "label_op"@,
        Rule::StringLiteral => "string_literal"@,
        Rule::SqInner => "sq_inner"@,
        Rule::DqInner => "dq_inner"@,
        Rule::BqInner => "bq_inner"@,
        Rule::Quote => "quote"@,
        Rule::Scalar => "scalar"@,
        Rule::Metric => "metric"@,
        Rule::FunctionsToInstant => "functions_to_instant"@,
        Rule::Function => "function"@,
        Rule::Aggregation => "aggregation"@,
        Rule::AggregationExpr => "aggregation_expr"@,
        Rule::RangeVector => "range_vector"@,
        Rule::Duration => "duration"@,
        Rule::Lparen => "lparen"@,
        Rule::Rparen => "rparen"@,
        Rule::Lsquare => "lsquare"@,
        Rule::Rsquare => "rsquare"@,
        Rule::Lcurly => "lcurly"@,
        Rule::Rcurly => "rcurly"@,
        Rule::Comma => "comma"@,
        Rule::Ws => "ws"@,
        Rule::Add => "add"@,
        Rule::Subtract => "subtract"@,
        Rule::Multiply => "multiply"@,
        Rule::Divide => "divide"@,
        Rule::Modulo => "modulo"@,
        Rule::Power => "power"@,
        Rule::Gt => "gt"@,
        Rule::Gte => "gte"@,
        Rule::Lt => "lt"@,
        Rule::Lte => "lte"@,
        Rule::EqOp => "eq_op"@,
        Rule::NeOp => "ne_op"@,
        Rule::AndKw => "and_kw"@,
        Rule::OrKw => "or_kw"@,
        Rule::UnlessKw => "unless_kw"@,
    }
}

/// Executable lookup of a rule's printed name.
pub fn rule_name(r: Rule) -> (s: &'static str)
    ensures
        s@ == spec_rule_name(r),
{
    match r {
        Rule::Query => "query",
        Rule::Expr => "expr",
        Rule::UnarySign => "unary_sign",
        Rule::Postfix => "postfix",
        Rule::BoolKw => "bool_kw",
        Rule::InstantVector => "instant_vector",
        Rule::MetricWithScope => "metric_with_scope",
        Rule::NameVector => "name_vector",
        Rule::Scope => "scope",
        Rule::Pair => "pair",
        Rule::Label => "label",
        Rule::LabelOp => "label_op",
        Rule::StringLiteral => "string_literal",
        Rule::SqInner => "sq_inner",
        Rule::DqInner => "dq_inner",
        Rule::BqInner => "bq_inner",
        Rule::Quote => "quote",
        Rule::Scalar => "scalar",
        Rule::Metric => "metric",
        Rule::FunctionsToInstant => "functions_to_instant",
        Rule::Function => "function",
        Rule::Aggregation => "aggregation",
        Rule::AggregationExpr => "aggregation_expr",
        Rule::RangeVector => "range_vector",
        Rule::Duration => "duration",
        Rule::Lparen => "lparen",
        Rule::Rparen => "rparen",
        Rule::Lsquare => "lsquare",
        Rule::Rsquare => "rsquare",
        Rule::Lcurly => "lcurly",
        Rule::Rcurly => "rcurly",
        Rule::Comma => "comma",
        Rule::Ws => "ws",
        Rule::Add => "add",
        Rule::Subtract => "subtract",
        Rule::Multiply => "multiply",
        Rule::Divide => "divide",
        Rule::Modulo => "modulo",
        Rule::Power => "power",
        Rule::Gt => "gt",
        Rule::Gte => "gte",
        Rule::Lt => "lt",
        Rule::Lte => "lte",
        Rule::EqOp => "eq_op",
        Rule::NeOp => "ne_op",
        Rule::AndKw => "and_kw",
        Rule::OrKw => "or_kw",
        Rule::UnlessKw => "unless_kw",
    }
}

/// Two spaces per indentation level.
pub open spec fn indent_sp(level: nat) -> Seq<char>
    decreases level,
{
    if level == 0 {
        Seq::empty()
    } else {
        indent_sp((level - 1) as nat) + "  "@
    }
}

/// The next indentation level, saturating at the machine bound.
pub open spec fn bump(level: nat) -> nat {
    if level < usize::MAX {
        level + 1
    } else {
        level
    }
}

/// The rendered text of a parse tree at the given indentation: a leaf
/// renders as `rule: "text"`, a single-child chain inline as
/// `rule > child`, and a multi-child node as a dash-prefixed list, one
/// child per line.
pub open spec fn spec_render(n: ParseNode, level: nat, is_newline: bool) -> Seq<char>
    decreases n, 1int,
{
    let ind: Seq<char> = if is_newline {
        indent_sp(level)
    } else {
        Seq::empty()
    };
    let dash: Seq<char> = if is_newline {
        "- "@
    } else {
        Seq::empty()
    };
    if n.children@.len() == 0 {
        ind + dash + spec_rule_name(n.rule) + ": \""@ + n.text@ + "\""@
    } else if n.children@.len() == 1 {
        ind + dash + spec_rule_name(n.rule) + " > "@ + spec_render(n.children@[0], level, false)
    } else {
        ind + dash + spec_rule_name(n.rule) + "\n"@ + spec_render_children(
            n.children@,
            bump(level),
        )
    }
}

/// The children of a multi-child node, each rendered on its own line
/// and joined by line breaks.
pub open spec fn spec_render_children(cs: Seq<ParseNode>, level: nat) -> Seq<char>
    decreases cs, 0int,
{
    if cs.len() == 0 {
        Seq::empty()
    } else if cs.len() == 1 {
        spec_render(cs[0], level, true)
    } else {
        spec_render(cs[0], level, true) + "\n"@ + spec_render_children(cs.drop_first(), level)
    }
}

/// Renders a parse tree as indented text.
pub fn format_pair(n: &ParseNode, indent_level: usize, is_newline: bool) -> (r: String)
    ensures
        r@ == spec_render(*n, indent_level as nat, is_newline),
    decreases *n, 1int,
{
    let mut out = String::new();
    if is_newline {
        let mut lv: usize = 0;
        while lv < indent_level
            invariant
                lv <= indent_level,
                out@ == indent_sp(lv as nat),
            decreases indent_level - lv,
        {
            out.append("  ");
            lv = lv + 1;
        }
        out.append("- ");
        proof {
            assert(out@ == indent_sp(indent_level as nat) + "- "@);
        }
    }
    out.append(rule_name(n.rule));
    if n.children.len() == 0 {
        out.append(": \"");
        out.append(n.text.as_str());
        out.append("\"");
        proof {
            if is_newline {
                assert(out@ =~= indent_sp(indent_level as nat) + "- "@ + spec_rule_name(n.rule)
                    + ": \""@ + n.text@ + "\""@);
            } else {
                assert(out@ =~= Seq::<char>::empty() + Seq::<char>::empty() + spec_rule_name(
                    n.rule,
                ) + ": \""@ + n.text@ + "\""@);
            }
        }
        out
    } else if n.children.len() == 1 {
        out.append(" > ");
        let child = format_pair(&n.children[0], indent_level, false);
        out.append(child.as_str());
        proof {
            if is_newline {
                assert(out@ =~= indent_sp(indent_level as nat) + "- "@ + spec_rule_name(n.rule)
                    + " > "@ + spec_render(n.children@[0], indent_level as nat, false));
            } else {
                assert(out@ =~= Seq::<char>::empty() + Seq::<char>::empty() + spec_rule_name(
                    n.rule,
                ) + " > "@ + spec_render(n.children@[0], indent_level as nat, false));
            }
        }
        out
    } else {
        out.append("\n");
        let next = if indent_level < usize::MAX {
            indent_level + 1
        } else {
            indent_level
        };
        proof {
            assert(next as nat == bump(indent_level as nat));
            assert(n.children@.skip(0) =~= n.children@);
        }
        let rendered = format_children(&n.children, 0, next);
        out.append(rendered.as_str());
        proof {
            if is_newline {
                assert(out@ =~= indent_sp(indent_level as nat) + "- "@ + spec_rule_name(n.rule)
                    + "\n"@ + spec_render_children(n.children@, bump(indent_level as nat)));
            } else {
                assert(out@ =~= Seq::<char>::empty() + Seq::<char>::empty() + spec_rule_name(
                    n.rule,
                ) + "\n"@ + spec_render_children(n.children@, bump(indent_level as nat)));
            }
        }
        out
    }
}

/// Renders the forest `cs[i..]`, one node per line.
fn format_children(cs: &Vec<ParseNode>, i: usize, level: usize) -> (r: String)
    requires
        i <= cs@.len(),
    ensures
        r@ == spec_render_children(cs@.skip(i as int), level as nat),
    decreases cs@.skip(i as int), 0int,
{
    let ghost suffix = cs@.skip(i as int);
    if i == cs.len() {
        let out = String::new();
        proof {
            assert(suffix.len() == 0);
        }
        out
    } else {
        proof {
            assert(suffix[0] == cs@[i as int]);
            assert(decreases_to!(suffix => suffix[0]));
        }
        let mut out = format_pair(&cs[i], level, true);
        if i + 1 == cs.len() {
            proof {
                assert(suffix.len() == 1);
            }
            out
        } else {
            out.append("\n");
            proof {
                assert(suffix.drop_first() =~= cs@.skip(i + 1));
                assert(suffix.subrange(1, suffix.len() as int) =~= cs@.skip(i + 1));
                assert(decreases_to!(suffix => suffix.subrange(1, suffix.len() as int)));
            }
            let rest = format_children(cs, i + 1, level);
            out.append(rest.as_str());
            proof {
                assert(out@ =~= spec_render(suffix[0], level as nat, true) + "\n"@
                    + spec_render_children(suffix.drop_first(), level as nat));
            }
            out
        }
    }
}

/// Rendering is a pure function of the tree alone: any two renderings
/// of the same parse tree at the same indentation are byte-identical.
pub proof fn lemma_render_idempotent(
    n: ParseNode,
    level: nat,
    is_newline: bool,
    r1: Seq<char>,
    r2: Seq<char>,
)
    requires
        r1 == spec_render(n, level, is_newline),
        r2 == spec_render(n, level, is_newline),
    ensures
        r1 == r2,
{
}

} // verus!
