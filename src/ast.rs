//! The syntax tree of the cost language, and the mathematical model of each
//! node that the contracts speak of.

use crate::number::Int;
use vstd::prelude::*;

verus! {

#[derive(Clone, Copy, Debug, PartialEq, Eq, Structural)]
pub enum ArithOp {
    Add,
    Sub,
    Mul,
    Div,
}

#[derive(Clone, Copy, Debug, PartialEq, Eq, Structural)]
pub enum ComparisonOp {
    Eq,
    Ne,
    Ge,
    Le,
    Gt,
    Lt,
}

#[derive(Clone, Copy, Debug, PartialEq, Eq, Structural)]
pub enum BooleanOp {
    Or,
    And,
}

/// An arithmetic expression over integers and integer-typed variables.
/// Variable names are held without their leading `$`.
#[derive(Debug)]
pub enum LinearExpression {
    Const(Int),
    Variable(String),
    Binary(Box<LinearExpression>, ArithOp, Box<LinearExpression>),
}

/// A boolean guard: comparisons, boolean-typed variables, literals, and
/// connectives.
#[derive(Debug)]
pub enum Condition {
    Comparison(LinearExpression, ComparisonOp, LinearExpression),
    Variable(String),
    Const(bool),
    Boolean(Box<Condition>, BooleanOp, Box<Condition>),
}

/// What a `LinearExpression` denotes, with constants as mathematical integers.
pub enum LinearModel {
    Const(int),
    Variable(Seq<char>),
    Binary(Box<LinearModel>, ArithOp, Box<LinearModel>),
}

/// What a `Condition` denotes.
pub enum ConditionModel {
    Comparison(LinearModel, ComparisonOp, LinearModel),
    Variable(Seq<char>),
    Const(bool),
    Boolean(Box<ConditionModel>, BooleanOp, Box<ConditionModel>),
}

impl LinearExpression {
    pub open spec fn model(&self) -> LinearModel
        decreases self,
    {
        match self {
            LinearExpression::Const(v) => LinearModel::Const(v.value()),
            LinearExpression::Variable(n) => LinearModel::Variable(n@),
            LinearExpression::Binary(l, op, r) => LinearModel::Binary(
                Box::new(l.model()),
                *op,
                Box::new(r.model()),
            ),
        }
    }
}

impl Condition {
    pub open spec fn model(&self) -> ConditionModel
        decreases self,
    {
        match self {
            Condition::Comparison(l, op, r) => ConditionModel::Comparison(l.model(), *op, r.model()),
            Condition::Variable(n) => ConditionModel::Variable(n@),
            Condition::Const(b) => ConditionModel::Const(*b),
            Condition::Boolean(l, op, r) => ConditionModel::Boolean(
                Box::new(l.model()),
                *op,
                Box::new(r.model()),
            ),
        }
    }
}

} // verus!
