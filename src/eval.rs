//! Evaluation of expressions and conditions against an environment.
//!
//! Policies: division rounds toward zero and a zero divisor is an error;
//! both operands of a boolean connective are evaluated, left first, and the
//! first error met is returned.

use crate::ast::{ArithOp, BooleanOp, ComparisonOp, Condition, ConditionModel, LinearExpression, LinearModel};
use crate::number::{trunc_div, Int};
use core::cmp::Ordering;
use vstd::prelude::*;

verus! {

/// A value that a variable may hold.
#[derive(Clone, Debug)]
pub enum Value {
    Int(Int),
    Bool(bool),
}

pub enum ValueModel {
    Int(int),
    Bool(bool),
}

impl Value {
    pub open spec fn model(&self) -> ValueModel {
        match self {
            Value::Int(v) => ValueModel::Int(v.value()),
            Value::Bool(b) => ValueModel::Bool(*b),
        }
    }
}

#[derive(Clone, Copy, Debug, PartialEq, Eq, Structural)]
pub enum EvalError {
    /// No binding of the variable's name.
    UnknownVariable,
    /// The binding holds a value of the other kind.
    TypeMismatch,
    DivisionByZero,
}

/// The environment: bindings from names (without `$`) to values. A later
/// binding of a name shadows an earlier one.
#[derive(Clone, Debug)]
pub struct Vars {
    pub entries: Vec<(String, Value)>,
}

pub open spec fn lookup(env: Seq<(Seq<char>, ValueModel)>, name: Seq<char>) -> Option<ValueModel>
    decreases env.len(),
{
    if env.len() == 0 {
        None
    } else if env.last().0 == name {
        Some(env.last().1)
    } else {
        lookup(env.drop_last(), name)
    }
}

impl Vars {
    pub open spec fn model(&self) -> Seq<(Seq<char>, ValueModel)> {
        Seq::new(self.entries@.len(), |i: int| (self.entries@[i].0@, self.entries@[i].1.model()))
    }

    pub fn new() -> (r: Vars)
        ensures
            r.model().len() == 0,
    {
        Vars { entries: Vec::new() }
    }

    /// Binds `name` to `value`, shadowing any earlier binding of it.
    pub fn insert(&mut self, name: &str, value: Value)
        ensures
            final(self).model() == old(self).model().push((name@, value.model())),
    {
        let n = name.to_owned();
        self.entries.push((n, value));
        proof {
            assert(final(self).model() =~= old(self).model().push((name@, value.model())));
        }
    }

    pub fn get(&self, name: &String) -> (r: Option<&Value>)
        ensures
            match r {
                Some(v) => lookup(self.model(), name@) == Some(v.model()),
                None => lookup(self.model(), name@) is None,
            },
    {
        let mut i: usize = self.entries.len();
        proof {
            assert(self.model().subrange(0, i as int) =~= self.model());
        }
        while i > 0
            invariant
                i <= self.entries@.len(),
                lookup(self.model(), name@) == lookup(self.model().subrange(0, i as int), name@),
            decreases i,
        {
            let ghost prefix = self.model().subrange(0, i as int);
            proof {
                assert(prefix.drop_last() =~= self.model().subrange(0, i - 1));
            }
            if self.entries[i - 1].0 == *name {
                return Some(&self.entries[i - 1].1);
            }
            i = i - 1;
        }
        None
    }
}

pub open spec fn apply_arith(op: ArithOp, a: int, b: int) -> Result<int, EvalError> {
    match op {
        ArithOp::Add => Ok(a + b),
        ArithOp::Sub => Ok(a - b),
        ArithOp::Mul => Ok(a * b),
        ArithOp::Div => if b == 0 {
            Err(EvalError::DivisionByZero)
        } else {
            Ok(trunc_div(a, b))
        },
    }
}

pub open spec fn compare(op: ComparisonOp, a: int, b: int) -> bool {
    match op {
        ComparisonOp::Eq => a == b,
        ComparisonOp::Ne => a != b,
        ComparisonOp::Ge => a >= b,
        ComparisonOp::Le => a <= b,
        ComparisonOp::Gt => a > b,
        ComparisonOp::Lt => a < b,
    }
}

pub open spec fn connect(op: BooleanOp, a: bool, b: bool) -> bool {
    match op {
        BooleanOp::Or => a || b,
        BooleanOp::And => a && b,
    }
}

/// The value of an arithmetic expression in an environment.
pub open spec fn eval_linear(e: LinearModel, env: Seq<(Seq<char>, ValueModel)>) -> Result<int, EvalError>
    decreases e,
{
    match e {
        LinearModel::Const(v) => Ok(v),
        LinearModel::Variable(n) => match lookup(env, n) {
            None => Err(EvalError::UnknownVariable),
            Some(ValueModel::Int(v)) => Ok(v),
            Some(ValueModel::Bool(_)) => Err(EvalError::TypeMismatch),
        },
        LinearModel::Binary(l, op, r) => match eval_linear(*l, env) {
            Err(x) => Err(x),
            Ok(a) => match eval_linear(*r, env) {
                Err(x) => Err(x),
                Ok(b) => apply_arith(op, a, b),
            },
        },
    }
}

/// The truth of a condition in an environment.
pub open spec fn eval_condition(c: ConditionModel, env: Seq<(Seq<char>, ValueModel)>) -> Result<bool, EvalError>
    decreases c,
{
    match c {
        ConditionModel::Comparison(l, op, r) => match eval_linear(l, env) {
            Err(x) => Err(x),
            Ok(a) => match eval_linear(r, env) {
                Err(x) => Err(x),
                Ok(b) => Ok(compare(op, a, b)),
            },
        },
        ConditionModel::Variable(n) => match lookup(env, n) {
            None => Err(EvalError::UnknownVariable),
            Some(ValueModel::Bool(b)) => Ok(b),
            Some(ValueModel::Int(_)) => Err(EvalError::TypeMismatch),
        },
        ConditionModel::Const(b) => Ok(b),
        ConditionModel::Boolean(l, op, r) => match eval_condition(*l, env) {
            Err(x) => Err(x),
            Ok(a) => match eval_condition(*r, env) {
                Err(x) => Err(x),
                Ok(b) => Ok(connect(op, a, b)),
            },
        },
    }
}

/// An evaluation result with the integer taken as its value.
pub open spec fn int_result(r: Result<Int, EvalError>) -> Result<int, EvalError> {
    match r {
        Ok(v) => Ok(v.value()),
        Err(x) => Err(x),
    }
}

impl LinearExpression {
    pub fn eval(&self, vars: &Vars) -> (r: Result<Int, EvalError>)
        ensures
            int_result(r) == eval_linear(self.model(), vars.model()),
        decreases self,
    {
        match self {
            LinearExpression::Const(v) => Ok(v.clone_int()),
            LinearExpression::Variable(n) => match vars.get(n) {
                None => Err(EvalError::UnknownVariable),
                Some(Value::Int(v)) => Ok(v.clone_int()),
                Some(Value::Bool(_)) => Err(EvalError::TypeMismatch),
            },
            LinearExpression::Binary(l, op, r) => {
                let a = match l.eval(vars) {
                    Err(x) => return Err(x),
                    Ok(a) => a,
                };
                let b = match r.eval(vars) {
                    Err(x) => return Err(x),
                    Ok(b) => b,
                };
                match op {
                    ArithOp::Add => Ok(a.add(&b)),
                    ArithOp::Sub => Ok(a.sub(&b)),
                    ArithOp::Mul => Ok(a.mul(&b)),
                    ArithOp::Div => match a.div(&b) {
                        None => Err(EvalError::DivisionByZero),
                        Some(q) => Ok(q),
                    },
                }
            },
        }
    }
}

impl Condition {
    pub fn eval(&self, vars: &Vars) -> (r: Result<bool, EvalError>)
        ensures
            r == eval_condition(self.model(), vars.model()),
        decreases self,
    {
        match self {
            Condition::Comparison(l, op, r) => {
                let a = match l.eval(vars) {
                    Err(x) => return Err(x),
                    Ok(a) => a,
                };
                let b = match r.eval(vars) {
                    Err(x) => return Err(x),
                    Ok(b) => b,
                };
                let ord = a.compare(&b);
                let holds = match op {
                    ComparisonOp::Eq => matches!(ord, Ordering::Equal),
                    ComparisonOp::Ne => !matches!(ord, Ordering::Equal),
                    ComparisonOp::Ge => !matches!(ord, Ordering::Less),
                    ComparisonOp::Le => !matches!(ord, Ordering::Greater),
                    ComparisonOp::Gt => matches!(ord, Ordering::Greater),
                    ComparisonOp::Lt => matches!(ord, Ordering::Less),
                };
                Ok(holds)
            },
            Condition::Variable(n) => match vars.get(n) {
                None => Err(EvalError::UnknownVariable),
                Some(Value::Bool(b)) => Ok(*b),
                Some(Value::Int(_)) => Err(EvalError::TypeMismatch),
            },
            Condition::Const(b) => Ok(*b),
            Condition::Boolean(l, op, r) => {
                let a = match l.eval(vars) {
                    Err(x) => return Err(x),
                    Ok(a) => a,
                };
                let b = match r.eval(vars) {
                    Err(x) => return Err(x),
                    Ok(b) => b,
                };
                match op {
                    BooleanOp::Or => Ok(a || b),
                    BooleanOp::And => Ok(a && b),
                }
            },
        }
    }
}

} // verus!
