//! The typed query model: operators, selectors, vectors and expressions.

use vstd::prelude::*;

verus! {

/// Precedence tier of the leading unary sign: above every infix tier
/// except the power tier.
pub const UNARY_TIER: u32 = 6;

/// Precedence tier of the power operator, the only right-associative tier.
pub const POWER_TIER: u32 = 7;

/// A binary operator of the query language.
#[derive(Debug, Clone, Copy, PartialEq, Eq, Structural)]
pub enum Op {
    Add,
    Subtract,
    Multiply,
    Divide,
    Pow,
    Modulo,
    Gt,
    Gte,
    Lt,
    Lte,
    Eql,
    Neq,
    And,
    Or,
    Unless,
}

/// A unary sign prefixing an expression.
#[derive(Debug, Clone, Copy, PartialEq, Eq, Structural)]
pub enum Sign {
    Plus,
    Minus,
}

/// The time unit of a range vector's duration, written as a one or two
/// letter suffix (`ms`, `s`, `m`, `h`, `d`, `w`, `y`).
#[derive(Debug, Clone, Copy, PartialEq, Eq, Structural)]
pub enum TimeUnit {
    Millisecond,
    Second,
    Minute,
    Hour,
    Day,
    Week,
    Year,
}

/// The fixed precedence tier of each binary operator, lowest binding first:
/// `{or, unless}` < `and` < comparisons < `{+, -}` < `{*, /, %}` <
/// unary sign < `^`.
pub open spec fn spec_op_tier(op: Op) -> u32 {
    match op {
        Op::Or | Op::Unless => 1,
        Op::And => 2,
        Op::Gt | Op::Gte | Op::Lt | Op::Lte | Op::Eql | Op::Neq => 3,
        Op::Add | Op::Subtract => 4,
        Op::Multiply | Op::Divide | Op::Modulo => 5,
        Op::Pow => POWER_TIER,
    }
}

/// Executable lookup of an operator's precedence tier.
pub fn op_tier(op: Op) -> (t: u32)
    ensures
        t == spec_op_tier(op),
{
    match op {
        Op::Or | Op::Unless => 1,
        Op::And => 2,
        Op::Gt | Op::Gte | Op::Lt | Op::Lte | Op::Eql | Op::Neq => 3,
        Op::Add | Op::Subtract => 4,
        Op::Multiply | Op::Divide | Op::Modulo => 5,
        Op::Pow => POWER_TIER,
    }
}

/// Whether a tier is right-associative; only the power tier is.
pub open spec fn spec_tier_right_assoc(t: u32) -> bool {
    t == POWER_TIER
}

/// Executable check of a tier's associativity.
pub fn tier_right_assoc(t: u32) -> (r: bool)
    ensures
        r == spec_tier_right_assoc(t),
{
    t == POWER_TIER
}

/// One selector predicate: a label name, a comparison operator
/// (`=`, `!=`, `=~` or `!~`) and a value. All three parts are always
/// present; a predicate missing one is a parse error, never a dropped
/// entry.
#[derive(Debug, Clone, PartialEq, Eq)]
pub struct LabelAndValue {
    pub name: String,
    pub op: String,
    pub value: String,
}

/// Mathematical image of a `LabelAndValue`.
pub ghost struct LabelAndValueView {
    pub name: Seq<char>,
    pub op: Seq<char>,
    pub value: Seq<char>,
}

impl View for LabelAndValue {
    type V = LabelAndValueView;

    open spec fn view(&self) -> LabelAndValueView {
        LabelAndValueView { name: self.name@, op: self.op@, value: self.value@ }
    }
}

/// An ordered sequence of selector predicates, in source order.
#[derive(Debug, Clone, PartialEq, Eq)]
pub struct Scope {
    pub labels: Vec<LabelAndValue>,
}

/// Mathematical image of a `Scope`.
pub ghost struct ScopeView {
    pub labels: Seq<LabelAndValueView>,
}

impl View for Scope {
    type V = ScopeView;

    open spec fn view(&self) -> ScopeView {
        ScopeView { labels: self.labels@.map_values(|l: LabelAndValue| l@) }
    }
}

/// A literal argument of a function call: exactly one of a numeric
/// literal (kept as written in the source) or a string literal's
/// contents.
#[derive(Debug, Clone, PartialEq, Eq)]
pub enum Param {
    Float(String),
    Str(String),
}

/// Mathematical image of a `Param`.
pub ghost enum ParamView {
    Float(Seq<char>),
    Str(Seq<char>),
}

impl View for Param {
    type V = ParamView;

    open spec fn view(&self) -> ParamView {
        match self {
            Param::Float(s) => ParamView::Float(s@),
            Param::Str(s) => ParamView::Str(s@),
        }
    }
}

/// A metric reference: a non-empty name and an optional selector scope.
#[derive(Debug, Clone, PartialEq, Eq)]
pub struct Metric {
    pub metric: String,
    pub scope: Option<Scope>,
}

/// Mathematical image of a `Metric`.
pub ghost struct MetricView {
    pub metric: Seq<char>,
    pub scope: Option<ScopeView>,
}

impl View for Metric {
    type V = MetricView;

    open spec fn view(&self) -> MetricView {
        MetricView {
            metric: self.metric@,
            scope: match self.scope {
                Some(s) => Some(s@),
                None => None,
            },
        }
    }
}

/// A query fragment producing one value per matching series at a single
/// instant. The numeric literal of the `Scalar` case is kept as written
/// in the source; interpreting it as a floating-point number is left to
/// unverified consumers.
#[derive(Debug, PartialEq, Eq)]
pub enum InstantVector {
    Scalar(String),
    Func(Box<Function>),
    MetricWithScope(Metric),
    NameScope(Scope),
}

/// An instant vector paired with a trailing duration, representing a
/// window of values per series. The wrapped vector is always an instant
/// vector, never another range.
#[derive(Debug, PartialEq, Eq)]
pub struct RangeVector {
    pub instant_vector: InstantVector,
    pub range: u64,
    pub range_unit: TimeUnit,
}

/// The single operand of a function call: either an instant vector or a
/// range vector, mutually exclusive by construction.
#[derive(Debug, PartialEq, Eq)]
pub enum FunctionOperand {
    Instant(InstantVector),
    Range(RangeVector),
}

/// A function call: its name, optional literal parameters, and exactly
/// one vector operand.
#[derive(Debug, PartialEq, Eq)]
pub struct Function {
    pub name: String,
    pub params: Option<Vec<Param>>,
    pub operand: FunctionOperand,
}

/// An expression tree with precedence and associativity already
/// resolved.
#[derive(Debug, PartialEq, Eq)]
pub enum Expr {
    Sign(Sign, Box<Expr>),
    InstantVector(InstantVector),
    Bool(Box<Expr>),
    BinOp { lhs: Box<Expr>, op: Op, rhs: Box<Expr> },
}

/// Mathematical image of an `InstantVector`.
pub ghost enum InstantVectorView {
    Scalar(Seq<char>),
    Func(Box<FunctionView>),
    MetricWithScope(MetricView),
    NameScope(ScopeView),
}

/// Mathematical image of a `RangeVector`.
pub ghost struct RangeVectorView {
    pub instant_vector: InstantVectorView,
    pub range: u64,
    pub range_unit: TimeUnit,
}

/// Mathematical image of a `FunctionOperand`.
pub ghost enum FunctionOperandView {
    Instant(InstantVectorView),
    Range(RangeVectorView),
}

/// Mathematical image of a `Function`.
pub ghost struct FunctionView {
    pub name: Seq<char>,
    pub params: Option<Seq<ParamView>>,
    pub operand: FunctionOperandView,
}

/// Mathematical image of an `Expr`.
pub ghost enum ExprView {
    Sign(Sign, Box<ExprView>),
    InstantVector(InstantVectorView),
    Bool(Box<ExprView>),
    BinOp { lhs: Box<ExprView>, op: Op, rhs: Box<ExprView> },
}

/// The view of an instant vector, recursing through function calls.
pub open spec fn iv_view(v: InstantVector) -> InstantVectorView
    decreases v,
{
    match v {
        InstantVector::Scalar(s) => InstantVectorView::Scalar(s@),
        InstantVector::Func(f) => InstantVectorView::Func(Box::new(fn_view(*f))),
        InstantVector::MetricWithScope(m) => InstantVectorView::MetricWithScope(m@),
        InstantVector::NameScope(s) => InstantVectorView::NameScope(s@),
    }
}

/// The view of a range vector.
pub open spec fn rv_view(r: RangeVector) -> RangeVectorView
    decreases r,
{
    RangeVectorView {
        instant_vector: iv_view(r.instant_vector),
        range: r.range,
        range_unit: r.range_unit,
    }
}

/// The view of a function call.
pub open spec fn fn_view(f: Function) -> FunctionView
    decreases f,
{
    FunctionView {
        name: f.name@,
        params: match f.params {
            Some(ps) => Some(ps@.map_values(|p: Param| p@)),
            None => None,
        },
        operand: match f.operand {
            FunctionOperand::Instant(v) => FunctionOperandView::Instant(iv_view(v)),
            FunctionOperand::Range(r) => FunctionOperandView::Range(rv_view(r)),
        },
    }
}

/// The view of an expression tree.
pub open spec fn expr_view(e: Expr) -> ExprView
    decreases e,
{
    match e {
        Expr::Sign(s, inner) => ExprView::Sign(s, Box::new(expr_view(*inner))),
        Expr::InstantVector(v) => ExprView::InstantVector(iv_view(v)),
        Expr::Bool(inner) => ExprView::Bool(Box::new(expr_view(*inner))),
        Expr::BinOp { lhs, op, rhs } => ExprView::BinOp {
            lhs: Box::new(expr_view(*lhs)),
            op,
            rhs: Box::new(expr_view(*rhs)),
        },
    }
}

impl View for InstantVector {
    type V = InstantVectorView;

    open spec fn view(&self) -> InstantVectorView {
        iv_view(*self)
    }
}

impl View for RangeVector {
    type V = RangeVectorView;

    open spec fn view(&self) -> RangeVectorView {
        rv_view(*self)
    }
}

impl View for Function {
    type V = FunctionView;

    open spec fn view(&self) -> FunctionView {
        fn_view(*self)
    }
}

impl View for Expr {
    type V = ExprView;

    open spec fn view(&self) -> ExprView {
        expr_view(*self)
    }
}

} // verus!
