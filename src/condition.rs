//! The boolean grammar. A leaf is a parenthesized condition, a comparison
//! of two arithmetic expressions, a variable or a literal; leaves are joined
//! by `||` and `&&`, which have equal precedence and are folded strictly
//! from left to right: `a || b && c` is `(a || b) && c`.

use crate::ast::{BooleanOp, ComparisonOp, Condition, ConditionModel};
use crate::lexer::{at, scan_variable, skip_ws, variable, ws_end};
use crate::linear::{linear_expr, parse_linear};
use vstd::prelude::*;

verus! {

/// The deepest nesting of parentheses that the parser accepts.
pub const MAX_DEPTH: usize = 32;

/// A comparison operator at `p`, and the position after it. Two-character
/// operators are tried before their one-character prefixes.
pub open spec fn comparison_op(s: Seq<char>, p: int) -> Option<(ComparisonOp, int)> {
    if at(s, p, '=') && at(s, p + 1, '=') {
        Some((ComparisonOp::Eq, p + 2))
    } else if at(s, p, '!') && at(s, p + 1, '=') {
        Some((ComparisonOp::Ne, p + 2))
    } else if at(s, p, '>') && at(s, p + 1, '=') {
        Some((ComparisonOp::Ge, p + 2))
    } else if at(s, p, '<') && at(s, p + 1, '=') {
        Some((ComparisonOp::Le, p + 2))
    } else if at(s, p, '>') {
        Some((ComparisonOp::Gt, p + 1))
    } else if at(s, p, '<') {
        Some((ComparisonOp::Lt, p + 1))
    } else {
        None
    }
}

/// `||` or `&&` at `p`.
pub open spec fn boolean_op(s: Seq<char>, p: int) -> Option<BooleanOp> {
    if at(s, p, '|') && at(s, p + 1, '|') {
        Some(BooleanOp::Or)
    } else if at(s, p, '&') && at(s, p + 1, '&') {
        Some(BooleanOp::And)
    } else {
        None
    }
}

/// `true` or `false` at `p`, and the position after it.
pub open spec fn bool_literal(s: Seq<char>, p: int) -> Option<(bool, int)> {
    if at(s, p, 't') && at(s, p + 1, 'r') && at(s, p + 2, 'u') && at(s, p + 3, 'e') {
        Some((true, p + 4))
    } else if at(s, p, 'f') && at(s, p + 1, 'a') && at(s, p + 2, 'l') && at(s, p + 3, 's') && at(
        s,
        p + 4,
        'e',
    ) {
        Some((false, p + 5))
    } else {
        None
    }
}

/// Two arithmetic expressions around a comparison operator.
pub open spec fn comparison(s: Seq<char>, p: int, depth: nat) -> Option<(ConditionModel, int)> {
    match linear_expr(s, p, depth) {
        Some((l, q)) => match comparison_op(s, ws_end(s, q)) {
            Some((op, q2)) => match linear_expr(s, ws_end(s, q2), depth) {
                Some((r, q3)) => Some((ConditionModel::Comparison(l, op, r), q3)),
                None => None,
            },
            None => None,
        },
        None => None,
    }
}

pub open spec fn condition_leaf(s: Seq<char>, p: int, depth: nat) -> Option<(ConditionModel, int)>
    decreases depth, s.len() - p, 0int,
{
    if !(0 <= p <= s.len()) {
        None
    } else {
        let paren = if at(s, p, '(') && depth > 0 {
            match condition(s, ws_end(s, p + 1), (depth - 1) as nat) {
                Some((c, q)) => if at(s, ws_end(s, q), ')') {
                    Some((c, ws_end(s, q) + 1))
                } else {
                    None
                },
                None => None,
            }
        } else {
            None
        };
        if paren is Some {
            paren
        } else if comparison(s, p, depth) is Some {
            comparison(s, p, depth)
        } else {
            match variable(s, p) {
                Some((n, q)) => Some((ConditionModel::Variable(n), q)),
                None => match bool_literal(s, p) {
                    Some((b, q)) => Some((ConditionModel::Const(b), q)),
                    None => None,
                },
            }
        }
    }
}

/// Folds the pairs of connective and leaf after `p` onto `acc`, from left to
/// right.
pub open spec fn condition_rest(s: Seq<char>, p: int, depth: nat, acc: ConditionModel) -> (
    ConditionModel,
    int,
)
    decreases depth, s.len() - p, 2int,
{
    let q1 = ws_end(s, p);
    match boolean_op(s, q1) {
        None => (acc, p),
        Some(op) => {
            let q2 = ws_end(s, q1 + 2);
            if p < q2 <= s.len() {
                match condition_leaf(s, q2, depth) {
                    Some((e, q3)) => if q2 < q3 <= s.len() {
                        condition_rest(
                            s,
                            q3,
                            depth,
                            ConditionModel::Boolean(Box::new(acc), op, Box::new(e)),
                        )
                    } else {
                        (acc, p)
                    },
                    None => (acc, p),
                }
            } else {
                (acc, p)
            }
        },
    }
}

/// A condition at `p`, and the position after it.
pub open spec fn condition(s: Seq<char>, p: int, depth: nat) -> Option<(ConditionModel, int)>
    decreases depth, s.len() - p, 1int,
{
    if !(0 <= p <= s.len()) {
        None
    } else {
        match condition_leaf(s, p, depth) {
            Some((first, q)) => if p < q <= s.len() {
                Some(condition_rest(s, q, depth, first))
            } else {
                None
            },
            None => None,
        }
    }
}

pub open spec fn condition_view(r: Option<(Condition, usize)>) -> Option<(ConditionModel, int)> {
    match r {
        Some((c, q)) => Some((c.model(), q as int)),
        None => None,
    }
}

pub open spec fn cond_end_within(r: Option<(Condition, usize)>, n: int) -> bool {
    match r {
        Some((_, q)) => q <= n,
        None => true,
    }
}

fn scan_comparison_op(s: &[char], p: usize) -> (r: Option<(ComparisonOp, usize)>)
    ensures
        match r {
            Some((op, q)) => comparison_op(s@, p as int) == Some((op, q as int)) && q <= s@.len(),
            None => comparison_op(s@, p as int) is None,
        },
{
    if p >= s.len() {
        return None;
    }
    let two = p + 1 < s.len() && s[p + 1] == '=';
    let c = s[p];
    if two && c == '=' {
        Some((ComparisonOp::Eq, p + 2))
    } else if two && c == '!' {
        Some((ComparisonOp::Ne, p + 2))
    } else if two && c == '>' {
        Some((ComparisonOp::Ge, p + 2))
    } else if two && c == '<' {
        Some((ComparisonOp::Le, p + 2))
    } else if c == '>' {
        Some((ComparisonOp::Gt, p + 1))
    } else if c == '<' {
        Some((ComparisonOp::Lt, p + 1))
    } else {
        None
    }
}

fn scan_boolean_op(s: &[char], p: usize) -> (r: Option<BooleanOp>)
    ensures
        r == boolean_op(s@, p as int),
        r is Some ==> p + 2 <= s@.len() && p + 2 <= usize::MAX,
{
    if p >= s.len() || p + 1 >= s.len() {
        None
    } else if s[p] == '|' && s[p + 1] == '|' {
        Some(BooleanOp::Or)
    } else if s[p] == '&' && s[p + 1] == '&' {
        Some(BooleanOp::And)
    } else {
        None
    }
}

fn scan_bool_literal(s: &[char], p: usize) -> (r: Option<(bool, usize)>)
    ensures
        match r {
            Some((b, q)) => bool_literal(s@, p as int) == Some((b, q as int)) && q <= s@.len(),
            None => bool_literal(s@, p as int) is None,
        },
{
    if p < s.len() && s.len() - p > 3 && s[p] == 't' && s[p + 1] == 'r' && s[p + 2] == 'u' && s[p
        + 3] == 'e' {
        Some((true, p + 4))
    } else if p < s.len() && s.len() - p > 4 && s[p] == 'f' && s[p + 1] == 'a' && s[p + 2] == 'l'
        && s[p + 3] == 's' && s[p + 4] == 'e' {
        Some((false, p + 5))
    } else {
        None
    }
}

fn parse_comparison(s: &[char], p: usize, depth: usize) -> (r: Option<(Condition, usize)>)
    ensures
        condition_view(r) == comparison(s@, p as int, depth as nat),
        cond_end_within(r, s@.len() as int),
{
    let (l, q) = match parse_linear(s, p, depth) {
        Some(x) => x,
        None => {
            return None;
        },
    };
    let q1 = skip_ws(s, q);
    let (op, q2) = match scan_comparison_op(s, q1) {
        Some(x) => x,
        None => {
            return None;
        },
    };
    let q3 = skip_ws(s, q2);
    match parse_linear(s, q3, depth) {
        Some((r, q4)) => Some((Condition::Comparison(l, op, r), q4)),
        None => None,
    }
}

fn parse_condition_leaf(s: &[char], p: usize, depth: usize) -> (r: Option<(Condition, usize)>)
    ensures
        condition_view(r) == condition_leaf(s@, p as int, depth as nat),
        cond_end_within(r, s@.len() as int),
    decreases depth, s@.len() - p, 0int,
{
    if p > s.len() {
        return None;
    }
    if p < s.len() && s[p] == '(' && depth > 0 {
        let q0 = skip_ws(s, p + 1);
        match parse_condition(s, q0, depth - 1) {
            Some((c, q)) => {
                let q2 = skip_ws(s, q);
                if q2 < s.len() && s[q2] == ')' {
                    return Some((c, q2 + 1));
                }
            },
            None => {},
        }
    }
    match parse_comparison(s, p, depth) {
        Some(x) => {
            return Some(x);
        },
        None => {},
    }
    match scan_variable(s, p) {
        Some((n, q)) => Some((Condition::Variable(n), q)),
        None => match scan_bool_literal(s, p) {
            Some((b, q)) => Some((Condition::Const(b), q)),
            None => None,
        },
    }
}

fn parse_condition_rest(s: &[char], p: usize, depth: usize, acc: Condition) -> (r: (Condition, usize))
    requires
        p <= s@.len(),
    ensures
        (r.0.model(), r.1 as int) == condition_rest(s@, p as int, depth as nat, acc.model()),
        r.1 <= s@.len(),
    decreases depth, s@.len() - p, 2int,
{
    let q1 = skip_ws(s, p);
    let op = match scan_boolean_op(s, q1) {
        None => {
            return (acc, p);
        },
        Some(op) => op,
    };
    let q2 = skip_ws(s, q1 + 2);
    if !(p < q2 && q2 <= s.len()) {
        return (acc, p);
    }
    match parse_condition_leaf(s, q2, depth) {
        Some((e, q3)) => {
            if q2 < q3 && q3 <= s.len() {
                parse_condition_rest(s, q3, depth, Condition::Boolean(Box::new(acc), op, Box::new(e)))
            } else {
                (acc, p)
            }
        },
        None => (acc, p),
    }
}

/// Parses a condition at `p` with parentheses nested at most `depth` deep.
pub fn parse_condition(s: &[char], p: usize, depth: usize) -> (r: Option<(Condition, usize)>)
    ensures
        condition_view(r) == condition(s@, p as int, depth as nat),
        cond_end_within(r, s@.len() as int),
    decreases depth, s@.len() - p, 1int,
{
    if p > s.len() {
        return None;
    }
    match parse_condition_leaf(s, p, depth) {
        Some((first, q)) => {
            if p < q && q <= s.len() {
                let (c, end) = parse_condition_rest(s, q, depth, first);
                Some((c, end))
            } else {
                None
            }
        },
        None => None,
    }
}

} // verus!
