//! The arithmetic grammar. A leaf is a parenthesized expression, an integer
//! literal or a variable; leaves are joined by `+ - * /`. The flat list of
//! operators and leaves is regrouped in two passes, one per tier: first `*`
//! and `/` together, then `+` and `-` together. This gives `*` and `/`
//! precedence over `+` and `-`, and makes each run of operators of one tier,
//! mixed or not, associate to the left: `10 - 2 + 3` is `(10 - 2) + 3`.
//! The grammar's meaning is stated directly by `precedence_tree`; the passes
//! are proved to build that tree.
//!
//! Parentheses nest at most `depth` levels deep; deeper input is rejected.

use crate::ast::{ArithOp, LinearExpression, LinearModel};
use crate::lexer::{
    at, digits_end, int_literal, lemma_at_shift, lemma_at_trunc, lemma_literals_shift,
    lemma_literals_trunc, lemma_ws_end_shift, lemma_ws_end_trunc, min, scan_int, scan_variable,
    shift_end, skip_ws, variable, ws_end,
};
use vstd::prelude::*;

verus! {

/// The arithmetic operator at `p`.
pub open spec fn arith_op(s: Seq<char>, p: int) -> Option<ArithOp> {
    if at(s, p, '+') {
        Some(ArithOp::Add)
    } else if at(s, p, '-') {
        Some(ArithOp::Sub)
    } else if at(s, p, '*') {
        Some(ArithOp::Mul)
    } else if at(s, p, '/') {
        Some(ArithOp::Div)
    } else {
        None
    }
}

/// `*` and `/` bind tighter than `+` and `-`.
pub open spec fn is_multiplicative(op: ArithOp) -> bool {
    op == ArithOp::Mul || op == ArithOp::Div
}

/// One pass of the regrouping, over the tier `multiplicative` of operators:
/// scanning from the left, each pair whose operator is of that tier is
/// joined to the operand before it, which is the right operand of the last
/// pair kept, or `first` when no pair has been kept. Pairs of the other tier
/// are kept, in order.
pub open spec fn collapse(
    first: LinearModel,
    rest: Seq<(ArithOp, LinearModel)>,
    multiplicative: bool,
) -> (LinearModel, Seq<(ArithOp, LinearModel)>)
    decreases rest.len(),
{
    if rest.len() == 0 {
        (first, rest)
    } else {
        let (f, remain) = collapse(first, rest.drop_last(), multiplicative);
        let (op, e) = rest.last();
        if is_multiplicative(op) == multiplicative {
            if remain.len() > 0 {
                let (before, last) = remain.last();
                (f, remain.drop_last().push((before, LinearModel::Binary(Box::new(last), op, Box::new(e)))))
            } else {
                (LinearModel::Binary(Box::new(f), op, Box::new(e)), remain)
            }
        } else {
            (f, remain.push((op, e)))
        }
    }
}

/// The two passes of the regrouping: first `*` and `/` together, then `+`
/// and `-` together. What is left after them is empty (see
/// `lemma_regroup_complete`).
pub open spec fn regroup_passes(first: LinearModel, ops: Seq<(ArithOp, LinearModel)>) -> (
    LinearModel,
    Seq<(ArithOp, LinearModel)>,
) {
    let (a, r1) = collapse(first, ops, true);
    collapse(a, r1, false)
}

/// What the two passes build; `lemma_regroup_is_precedence` shows that it
/// is `precedence_tree`.
pub open spec fn regroup(first: LinearModel, ops: Seq<(ArithOp, LinearModel)>) -> LinearModel {
    regroup_passes(first, ops).0
}

/// No pair of `ops` has an operator of the tier `multiplicative`.
pub open spec fn avoids(ops: Seq<(ArithOp, LinearModel)>, multiplicative: bool) -> bool {
    forall|j: int| 0 <= j < ops.len() ==> is_multiplicative(#[trigger] ops[j].0) != multiplicative
}

/// A pass leaves no pair of its own tier, and keeps a tier absent that was
/// absent before it.
pub proof fn lemma_collapse_avoids(
    first: LinearModel,
    rest: Seq<(ArithOp, LinearModel)>,
    multiplicative: bool,
)
    ensures
        avoids(collapse(first, rest, multiplicative).1, multiplicative),
        avoids(rest, !multiplicative) ==> avoids(
            collapse(first, rest, multiplicative).1,
            !multiplicative,
        ),
    decreases rest.len(),
{
    if rest.len() > 0 {
        if avoids(rest, !multiplicative) {
            assert(avoids(rest.drop_last(), !multiplicative)) by {
                assert forall|j: int| 0 <= j < rest.drop_last().len() implies is_multiplicative(
                    #[trigger] rest.drop_last()[j].0,
                ) != !multiplicative by {
                    assert(rest.drop_last()[j] == rest[j]);
                }
            }
        }
        lemma_collapse_avoids(first, rest.drop_last(), multiplicative);
        let (f, remain) = collapse(first, rest.drop_last(), multiplicative);
        let r = collapse(first, rest, multiplicative).1;
        assert forall|j: int| 0 <= j < r.len() implies is_multiplicative(#[trigger] r[j].0)
            != multiplicative by {
            if j < remain.len() {
                assert(r[j].0 == remain[j].0);
            } else {
                assert(r[j].0 == rest.last().0);
            }
        }
        if avoids(rest, !multiplicative) {
            assert forall|j: int| 0 <= j < r.len() implies is_multiplicative(#[trigger] r[j].0)
                != !multiplicative by {
                if j < remain.len() {
                    assert(r[j].0 == remain[j].0);
                } else {
                    assert(r[j].0 == rest.last().0);
                    assert(is_multiplicative(rest[rest.len() - 1].0) != !multiplicative);
                }
            }
        }
    }
}

/// The two passes of the regrouping leave no pair behind: every operator
/// has been joined into the tree.
pub proof fn lemma_regroup_complete(first: LinearModel, ops: Seq<(ArithOp, LinearModel)>)
    ensures
        regroup_passes(first, ops).1.len() == 0,
{
    let (a, r1) = collapse(first, ops, true);
    lemma_collapse_avoids(first, ops, true);
    lemma_collapse_avoids(a, r1, false);
    let r2 = regroup_passes(first, ops).1;
    if r2.len() > 0 {
        assert(is_multiplicative(r2[0].0) != false);
        assert(is_multiplicative(r2[0].0) != true);
    }
}

/// `first` followed by `ops`, folded from the left with no precedence.
pub open spec fn left_fold(first: LinearModel, ops: Seq<(ArithOp, LinearModel)>) -> LinearModel
    decreases ops.len(),
{
    if ops.len() == 0 {
        first
    } else {
        LinearModel::Binary(Box::new(left_fold(first, ops.drop_last())), ops.last().0, Box::new(ops.last().1))
    }
}

/// `first (op leaf)*` read as a sum of terms: the terms before the last one,
/// summed from the left, with the operator that joins them to the last
/// term (`None` when there is one term), and the last term, a product of
/// leaves folded from the left.
pub open spec fn split_terms(first: LinearModel, ops: Seq<(ArithOp, LinearModel)>) -> (
    Option<(LinearModel, ArithOp)>,
    LinearModel,
)
    decreases ops.len(),
{
    if ops.len() == 0 {
        (None, first)
    } else {
        let (pre, t) = split_terms(first, ops.drop_last());
        let (op, e) = ops.last();
        if is_multiplicative(op) {
            (pre, LinearModel::Binary(Box::new(t), op, Box::new(e)))
        } else {
            let sum = match pre {
                None => t,
                Some((p, o)) => LinearModel::Binary(Box::new(p), o, Box::new(t)),
            };
            (Some((sum, op)), e)
        }
    }
}

/// The conventional tree of `first (op leaf)*`: a left fold over `+` and
/// `-` of terms, each term a left fold over `*` and `/` of leaves.
pub open spec fn precedence_tree(first: LinearModel, ops: Seq<(ArithOp, LinearModel)>) -> LinearModel {
    match split_terms(first, ops) {
        (None, t) => t,
        (Some((p, o)), t) => LinearModel::Binary(Box::new(p), o, Box::new(t)),
    }
}

proof fn lemma_first_pass_terms(first: LinearModel, ops: Seq<(ArithOp, LinearModel)>)
    ensures
        ({
            let (a, r1) = collapse(first, ops, true);
            let (pre, t) = split_terms(first, ops);
            &&& r1.len() == 0 ==> pre is None && a == t
            &&& r1.len() > 0 ==> r1.last().1 == t && pre == Some(
                (left_fold(a, r1.drop_last()), r1.last().0),
            )
        }),
    decreases ops.len(),
{
    if ops.len() > 0 {
        lemma_first_pass_terms(first, ops.drop_last());
        let (f, remain) = collapse(first, ops.drop_last(), true);
        let (op, e) = ops.last();
        if !is_multiplicative(op) {
            let r1 = remain.push((op, e));
            assert(r1.drop_last() =~= remain);
            if remain.len() > 0 {
                assert(left_fold(f, remain) == LinearModel::Binary(
                    Box::new(left_fold(f, remain.drop_last())),
                    remain.last().0,
                    Box::new(remain.last().1),
                ));
            }
        } else if remain.len() > 0 {
            let (before, last) = remain.last();
            let r1 = remain.drop_last().push((before, LinearModel::Binary(Box::new(last), op, Box::new(e))));
            assert(r1.drop_last() =~= remain.drop_last());
        }
    }
}

proof fn lemma_second_pass_folds(a: LinearModel, r: Seq<(ArithOp, LinearModel)>)
    requires
        avoids(r, true),
    ensures
        collapse(a, r, false) == (left_fold(a, r), Seq::<(ArithOp, LinearModel)>::empty()),
    decreases r.len(),
{
    if r.len() > 0 {
        assert(avoids(r.drop_last(), true)) by {
            assert forall|j: int| 0 <= j < r.drop_last().len() implies is_multiplicative(
                #[trigger] r.drop_last()[j].0,
            ) != true by {
                assert(r.drop_last()[j] == r[j]);
            }
        }
        lemma_second_pass_folds(a, r.drop_last());
        assert(is_multiplicative(r[r.len() - 1].0) != true);
    }
}

/// The regrouping builds the conventional tree: `*` and `/` bind tighter
/// than `+` and `-`, and each tier folds from the left.
pub proof fn lemma_regroup_is_precedence(first: LinearModel, ops: Seq<(ArithOp, LinearModel)>)
    ensures
        regroup(first, ops) == precedence_tree(first, ops),
{
    let (a, r1) = collapse(first, ops, true);
    lemma_collapse_avoids(first, ops, true);
    lemma_first_pass_terms(first, ops);
    lemma_second_pass_folds(a, r1);
}

/// A leaf of the arithmetic grammar at `p`, and the position after it.
pub open spec fn linear_leaf(s: Seq<char>, p: int, depth: nat) -> Option<(LinearModel, int)>
    decreases depth, s.len() - p, 0int,
{
    if !(0 <= p <= s.len()) {
        None
    } else {
        let paren = if at(s, p, '(') && depth > 0 {
            match linear_expr(s, ws_end(s, p + 1), (depth - 1) as nat) {
                Some((e, q)) => if at(s, ws_end(s, q), ')') {
                    Some((e, ws_end(s, q) + 1))
                } else {
                    None
                },
                None => None,
            }
        } else {
            None
        };
        if paren is Some {
            paren
        } else {
            match int_literal(s, p) {
                Some((v, q)) => Some((LinearModel::Const(v), q)),
                None => match variable(s, p) {
                    Some((n, q)) => Some((LinearModel::Variable(n), q)),
                    None => None,
                },
            }
        }
    }
}

/// The pairs of operator and leaf that follow position `p`, and the
/// position after the last of them.
pub open spec fn linear_rest(s: Seq<char>, p: int, depth: nat) -> (Seq<(ArithOp, LinearModel)>, int)
    decreases depth, s.len() - p, 2int,
{
    let q1 = ws_end(s, p);
    match arith_op(s, q1) {
        None => (Seq::empty(), p),
        Some(op) => {
            let q2 = ws_end(s, q1 + 1);
            if p < q2 <= s.len() {
                match linear_leaf(s, q2, depth) {
                    Some((e, q3)) => if q2 < q3 <= s.len() {
                        let (more, end) = linear_rest(s, q3, depth);
                        (seq![(op, e)] + more, end)
                    } else {
                        (Seq::empty(), p)
                    },
                    None => (Seq::empty(), p),
                }
            } else {
                (Seq::empty(), p)
            }
        },
    }
}

/// An arithmetic expression at `p`, and the position after it.
pub open spec fn linear_expr(s: Seq<char>, p: int, depth: nat) -> Option<(LinearModel, int)>
    decreases depth, s.len() - p, 1int,
{
    if !(0 <= p <= s.len()) {
        None
    } else {
        match linear_leaf(s, p, depth) {
            Some((first, q)) => if p < q <= s.len() {
                let (ops, end) = linear_rest(s, q, depth);
                Some((precedence_tree(first, ops), end))
            } else {
                None
            },
            None => None,
        }
    }
}

proof fn lemma_arith_op_shift(s: Seq<char>, p: int, x: int)
    requires
        0 <= p <= x,
        p <= s.len(),
    ensures
        arith_op(s, x) == arith_op(s.subrange(p, s.len() as int), x - p),
        arith_op(s, x) is Some ==> x < s.len(),
{
    lemma_at_shift(s, p, x, '+');
    lemma_at_shift(s, p, x, '-');
    lemma_at_shift(s, p, x, '*');
    lemma_at_shift(s, p, x, '/');
}

pub proof fn lemma_linear_leaf_shift(s: Seq<char>, p: int, x: int, depth: nat)
    requires
        0 <= p <= x <= s.len(),
    ensures
        linear_leaf(s, x, depth) == shift_end(
            linear_leaf(s.subrange(p, s.len() as int), x - p, depth),
            p,
        ),
        linear_leaf(s, x, depth) matches Some((_, q)) ==> x < q <= s.len(),
    decreases depth, s.len() - x, 0int,
{
    let t = s.subrange(p, s.len() as int);
    lemma_at_shift(s, p, x, '(');
    lemma_literals_shift(s, p, x);
    if at(s, x, '(') && depth > 0 {
        lemma_ws_end_shift(s, p, x + 1);
        let y = ws_end(s, x + 1);
        lemma_linear_expr_shift(s, p, y, (depth - 1) as nat);
        match linear_expr(s, y, (depth - 1) as nat) {
            Some((e, q)) => {
                lemma_ws_end_shift(s, p, q);
                lemma_at_shift(s, p, ws_end(s, q), ')');
            },
            None => {},
        }
    }
}

pub proof fn lemma_linear_rest_shift(s: Seq<char>, p: int, x: int, depth: nat)
    requires
        0 <= p <= x <= s.len(),
    ensures
        linear_rest(s, x, depth).0 == linear_rest(s.subrange(p, s.len() as int), x - p, depth).0,
        linear_rest(s, x, depth).1 == linear_rest(s.subrange(p, s.len() as int), x - p, depth).1
            + p,
        x <= linear_rest(s, x, depth).1 <= s.len(),
    decreases depth, s.len() - x, 2int,
{
    lemma_ws_end_shift(s, p, x);
    let q1 = ws_end(s, x);
    lemma_arith_op_shift(s, p, q1);
    if arith_op(s, q1) is Some {
        lemma_ws_end_shift(s, p, q1 + 1);
        let q2 = ws_end(s, q1 + 1);
        if x < q2 <= s.len() {
            lemma_linear_leaf_shift(s, p, q2, depth);
            match linear_leaf(s, q2, depth) {
                Some((e, q3)) => {
                    if q2 < q3 <= s.len() {
                        lemma_linear_rest_shift(s, p, q3, depth);
                    }
                },
                None => {},
            }
        }
    }
}

pub proof fn lemma_linear_expr_shift(s: Seq<char>, p: int, x: int, depth: nat)
    requires
        0 <= p <= x <= s.len(),
    ensures
        linear_expr(s, x, depth) == shift_end(
            linear_expr(s.subrange(p, s.len() as int), x - p, depth),
            p,
        ),
        linear_expr(s, x, depth) matches Some((_, q)) ==> x < q <= s.len(),
    decreases depth, s.len() - x, 1int,
{
    lemma_linear_leaf_shift(s, p, x, depth);
    match linear_leaf(s, x, depth) {
        Some((first, q)) => {
            if x < q <= s.len() {
                lemma_linear_rest_shift(s, p, q, depth);
            }
        },
        None => {},
    }
}

proof fn lemma_arith_op_trunc(s: Seq<char>, n: int, x: int)
    requires
        0 <= n <= s.len(),
        0 <= x,
    ensures
        arith_op(s.subrange(0, n), x) == (if x < n {
            arith_op(s, x)
        } else {
            None
        }),
{
    lemma_at_trunc(s, n, x, '+');
    lemma_at_trunc(s, n, x, '-');
    lemma_at_trunc(s, n, x, '*');
    lemma_at_trunc(s, n, x, '/');
}

proof fn lemma_linear_leaf_at_end(u: Seq<char>, depth: nat)
    ensures
        linear_leaf(u, u.len() as int, depth) is None,
{
    assert(digits_end(u, u.len() as int) == u.len());
}

/// How a leaf reads from a prefix `s[0..n]` of a text: as in the text when
/// it ends within the prefix, and never where the text has none.
pub proof fn lemma_linear_leaf_trunc(s: Seq<char>, n: int, x: int, depth: nat)
    requires
        0 <= x <= n <= s.len(),
    ensures
        linear_leaf(s, x, depth) matches Some((_, y)) && y <= n ==> linear_leaf(
            s.subrange(0, n),
            x,
            depth,
        ) == linear_leaf(s, x, depth),
        linear_leaf(s.subrange(0, n), x, depth) matches Some((_, y)) && y < n ==> linear_leaf(
            s,
            x,
            depth,
        ) == linear_leaf(s.subrange(0, n), x, depth),
        linear_leaf(s.subrange(0, n), x, depth) is Some ==> linear_leaf(s, x, depth) is Some,
    decreases depth, s.len() - x, 0int,
{
    let t = s.subrange(0, n);
    lemma_at_trunc(s, n, x, '(');
    lemma_literals_trunc(s, n, x);
    lemma_linear_leaf_shift(s, 0, x, depth);
    if x == n {
        lemma_linear_leaf_at_end(t, depth);
    }
    if at(s, x, '(') && depth > 0 {
        let d1 = (depth - 1) as nat;
        lemma_ws_end_shift(s, x + 1, x + 1);
        let y0 = ws_end(s, x + 1);
        lemma_linear_expr_shift(s, 0, y0, d1);
        match linear_expr(s, y0, d1) {
            Some((e, q)) => {
                lemma_ws_end_shift(s, q, q);
            },
            None => {},
        }
        if x < n {
            lemma_ws_end_trunc(s, n, x + 1);
            if y0 <= n {
                lemma_linear_expr_trunc(s, n, y0, d1);
                lemma_linear_expr_shift(t, 0, y0, d1);
                match linear_expr(s, y0, d1) {
                    Some((e, q)) => {
                        if q <= n {
                            lemma_ws_end_trunc(s, n, q);
                            lemma_at_trunc(s, n, ws_end(s, q), ')');
                        }
                    },
                    None => {},
                }
                match linear_expr(t, y0, d1) {
                    Some((e, q)) => {
                        lemma_ws_end_trunc(s, n, q);
                        lemma_ws_end_shift(s, q, q);
                        lemma_at_trunc(s, n, ws_end(s, q), ')');
                        lemma_at_trunc(s, n, ws_end(t, q), ')');
                    },
                    None => {},
                }
            } else {
                lemma_linear_leaf_at_end(t, d1);
            }
        }
    }
}

/// How the operator-and-leaf pairs read from a prefix `s[0..n]` of a text.
pub proof fn lemma_linear_rest_trunc(s: Seq<char>, n: int, x: int, depth: nat)
    requires
        0 <= x <= n <= s.len(),
    ensures
        linear_rest(s, x, depth).1 <= n ==> linear_rest(s.subrange(0, n), x, depth) == linear_rest(
            s,
            x,
            depth,
        ),
        ws_end(s.subrange(0, n), linear_rest(s.subrange(0, n), x, depth).1) < n && arith_op(
            s.subrange(0, n),
            ws_end(s.subrange(0, n), linear_rest(s.subrange(0, n), x, depth).1),
        ) is None ==> linear_rest(s, x, depth) == linear_rest(s.subrange(0, n), x, depth),
    decreases depth, s.len() - x, 2int,
{
    let t = s.subrange(0, n);
    lemma_ws_end_trunc(s, n, x);
    lemma_ws_end_shift(s, x, x);
    lemma_linear_rest_shift(s, 0, x, depth);
    lemma_linear_rest_shift(t, 0, x, depth);
    let q1 = ws_end(s, x);
    lemma_arith_op_trunc(s, n, q1);
    lemma_arith_op_trunc(s, n, min(q1, n));
    if arith_op(s, q1) is Some {
        lemma_ws_end_shift(s, q1 + 1, q1 + 1);
        let q2 = ws_end(s, q1 + 1);
        lemma_linear_leaf_shift(s, 0, q2, depth);
        match linear_leaf(s, q2, depth) {
            Some((e, q3)) => {
                lemma_linear_rest_shift(s, 0, q3, depth);
            },
            None => {},
        }
    }
    if arith_op(s, q1) is Some && q1 < n {
        lemma_ws_end_trunc(s, n, q1 + 1);
        let q2 = ws_end(s, q1 + 1);
        if q2 <= n {
            lemma_linear_leaf_trunc(s, n, q2, depth);
            lemma_linear_leaf_shift(s, 0, q2, depth);
            lemma_linear_leaf_shift(t, 0, q2, depth);
            match linear_leaf(s, q2, depth) {
                Some((e, q3)) => {
                    lemma_linear_rest_shift(s, 0, q3, depth);
                    if q3 <= n {
                        lemma_linear_rest_trunc(s, n, q3, depth);
                        lemma_linear_rest_shift(t, 0, q3, depth);
                        lemma_ws_end_shift(t, linear_rest(t, q3, depth).1, linear_rest(t, q3, depth).1);
                    }
                },
                None => {},
            }
            match linear_leaf(t, q2, depth) {
                Some((e, q3)) => {
                    if q3 <= n {
                        lemma_linear_rest_trunc(s, n, q3, depth);
                        lemma_linear_rest_shift(s, 0, q3, depth);
                        lemma_linear_rest_shift(t, 0, q3, depth);
                        lemma_ws_end_shift(t, linear_rest(t, q3, depth).1, linear_rest(t, q3, depth).1);
                    }
                },
                None => {},
            }
        } else {
            lemma_linear_leaf_at_end(t, depth);
        }
    }
}

/// How an arithmetic expression reads from a prefix `s[0..n]` of a text:
/// as in the text when it ends within the prefix; and as in the prefix when
/// what follows it there, after whitespace, is a character of the prefix
/// that is no operator.
pub proof fn lemma_linear_expr_trunc(s: Seq<char>, n: int, x: int, depth: nat)
    requires
        0 <= x <= n <= s.len(),
    ensures
        linear_expr(s, x, depth) matches Some((_, y)) && y <= n ==> linear_expr(
            s.subrange(0, n),
            x,
            depth,
        ) == linear_expr(s, x, depth),
        linear_expr(s.subrange(0, n), x, depth) matches Some((_, y)) && ws_end(s.subrange(0, n), y)
            < n && arith_op(s.subrange(0, n), ws_end(s.subrange(0, n), y)) is None ==> linear_expr(
            s,
            x,
            depth,
        ) == linear_expr(s.subrange(0, n), x, depth),
    decreases depth, s.len() - x, 1int,
{
    let t = s.subrange(0, n);
    lemma_linear_leaf_trunc(s, n, x, depth);
    lemma_linear_leaf_shift(s, 0, x, depth);
    lemma_linear_leaf_shift(t, 0, x, depth);
    match linear_leaf(s, x, depth) {
        Some((f, q)) => {
            lemma_linear_rest_shift(s, 0, q, depth);
            if q <= n {
                lemma_linear_rest_trunc(s, n, q, depth);
            }
        },
        None => {},
    }
    match linear_leaf(t, x, depth) {
        Some((f, q)) => {
            if q <= n {
                lemma_linear_rest_trunc(s, n, q, depth);
                lemma_linear_rest_shift(t, 0, q, depth);
                lemma_ws_end_shift(t, linear_rest(t, q, depth).1, linear_rest(t, q, depth).1);
            }
        },
        None => {},
    }
}

pub open spec fn pairs_model(v: Seq<(ArithOp, LinearExpression)>) -> Seq<(ArithOp, LinearModel)> {
    Seq::new(v.len(), |i: int| (v[i].0, v[i].1.model()))
}

pub open spec fn linear_view(r: Option<(LinearExpression, usize)>) -> Option<(LinearModel, int)> {
    match r {
        Some((e, q)) => Some((e.model(), q as int)),
        None => None,
    }
}

pub open spec fn end_within<T>(r: Option<(T, usize)>, n: int) -> bool {
    match r {
        Some((_, q)) => q <= n,
        None => true,
    }
}

fn scan_arith_op(s: &[char], p: usize) -> (r: Option<ArithOp>)
    ensures
        r == arith_op(s@, p as int),
        r is Some ==> p < s@.len() && p < usize::MAX,
{
    if p >= s.len() {
        None
    } else if s[p] == '+' {
        Some(ArithOp::Add)
    } else if s[p] == '-' {
        Some(ArithOp::Sub)
    } else if s[p] == '*' {
        Some(ArithOp::Mul)
    } else if s[p] == '/' {
        Some(ArithOp::Div)
    } else {
        None
    }
}

fn collapse_pass(
    first: LinearExpression,
    rest: Vec<(ArithOp, LinearExpression)>,
    multiplicative: bool,
) -> (r: (
    LinearExpression,
    Vec<(ArithOp, LinearExpression)>,
))
    ensures
        (r.0.model(), pairs_model(r.1@)) == collapse(first.model(), pairs_model(rest@), multiplicative),
{
    let ghost first0 = first.model();
    let ghost rest0 = pairs_model(rest@);
    let ghost n = rest@.len() as int;
    let mut cur = first;
    let mut remain: Vec<(ArithOp, LinearExpression)> = Vec::new();
    let mut rest = rest;
    let ghost mut i: int = 0;
    proof {
        assert(rest0.subrange(0, 0) =~= Seq::<(ArithOp, LinearModel)>::empty());
        assert(pairs_model(remain@) =~= Seq::<(ArithOp, LinearModel)>::empty());
        assert(pairs_model(rest@) =~= rest0.subrange(0, n));
    }
    while rest.len() > 0
        invariant
            0 <= i <= n,
            rest0.len() == n,
            pairs_model(rest@) =~= rest0.subrange(i, n),
            rest@.len() == n - i,
            (cur.model(), pairs_model(remain@)) == collapse(first0, rest0.subrange(0, i), multiplicative),
        decreases rest@.len(),
    {
        let ghost pre = rest0.subrange(0, i + 1);
        proof {
            assert(pre.drop_last() =~= rest0.subrange(0, i));
            assert(pre.last() == rest0[i]);
            assert(pairs_model(rest@)[0] == rest0[i]);
        }
        let ghost before_remove = rest@;
        let (op, e) = rest.remove(0);
        proof {
            assert forall|j: int| 0 <= j < rest@.len() implies pairs_model(rest@)[j] == rest0.subrange(
                i + 1,
                n,
            )[j] by {
                assert(rest@[j] == before_remove[j + 1]);
                assert(pairs_model(before_remove)[j + 1] == rest0.subrange(i, n)[j + 1]);
            }
            assert(pairs_model(rest@) =~= rest0.subrange(i + 1, n));
        }
        if (op == ArithOp::Mul || op == ArithOp::Div) == multiplicative {
            if remain.len() > 0 {
                let ghost rm = pairs_model(remain@);
                let (before, last) = match remain.pop() {
                    Some(x) => x,
                    None => {
                        return (cur, remain);
                    },
                };
                remain.push((before, LinearExpression::Binary(Box::new(last), op, Box::new(e))));
                proof {
                    assert(pairs_model(remain@) =~= rm.drop_last().push(
                        (before, LinearModel::Binary(Box::new(rm.last().1), op, Box::new(e.model()))),
                    ));
                }
            } else {
                cur = LinearExpression::Binary(Box::new(cur), op, Box::new(e));
            }
        } else {
            let ghost rm = pairs_model(remain@);
            remain.push((op, e));
            proof {
                assert(pairs_model(remain@) =~= rm.push((op, e.model())));
            }
        }
        proof {
            i = i + 1;
        }
    }
    proof {
        assert(rest0.subrange(0, n) =~= rest0);
    }
    (cur, remain)
}

fn regroup_exec(first: LinearExpression, ops: Vec<(ArithOp, LinearExpression)>) -> (r: LinearExpression)
    ensures
        r.model() == precedence_tree(first.model(), pairs_model(ops@)),
{
    let (a, r1) = collapse_pass(first, ops, true);
    let (d, r2) = collapse_pass(a, r1, false);
    proof {
        lemma_regroup_complete(first.model(), pairs_model(ops@));
        lemma_regroup_is_precedence(first.model(), pairs_model(ops@));
        assert(r2@.len() == 0);
    }
    d
}

fn parse_linear_leaf(s: &[char], p: usize, depth: usize) -> (r: Option<(LinearExpression, usize)>)
    ensures
        linear_view(r) == linear_leaf(s@, p as int, depth as nat),
        end_within(r, s@.len() as int),
    decreases depth, s@.len() - p, 0int,
{
    if p > s.len() {
        return None;
    }
    if p < s.len() && s[p] == '(' && depth > 0 {
        let q0 = skip_ws(s, p + 1);
        match parse_linear(s, q0, depth - 1) {
            Some((e, q)) => {
                let q2 = skip_ws(s, q);
                if q2 < s.len() && s[q2] == ')' {
                    return Some((e, q2 + 1));
                }
            },
            None => {},
        }
    }
    match scan_int(s, p) {
        Some((v, q)) => Some((LinearExpression::Const(v), q)),
        None => match scan_variable(s, p) {
            Some((n, q)) => Some((LinearExpression::Variable(n), q)),
            None => None,
        },
    }
}

fn parse_linear_rest(s: &[char], p: usize, depth: usize) -> (r: (Vec<(ArithOp, LinearExpression)>, usize))
    requires
        p <= s@.len(),
    ensures
        (pairs_model(r.0@), r.1 as int) == linear_rest(s@, p as int, depth as nat),
        r.1 <= s@.len(),
    decreases depth, s@.len() - p, 2int,
{
    let q1 = skip_ws(s, p);
    let op = match scan_arith_op(s, q1) {
        None => {
            return (Vec::new(), p);
        },
        Some(op) => op,
    };
    let q2 = skip_ws(s, q1 + 1);
    if !(p < q2 && q2 <= s.len()) {
        return (Vec::new(), p);
    }
    match parse_linear_leaf(s, q2, depth) {
        Some((e, q3)) => {
            if q2 < q3 && q3 <= s.len() {
                let (mut more, end) = parse_linear_rest(s, q3, depth);
                let ghost more0 = pairs_model(more@);
                let ghost em = e.model();
                more.insert(0, (op, e));
                proof {
                    assert(pairs_model(more@) =~= seq![(op, em)] + more0);
                }
                (more, end)
            } else {
                (Vec::new(), p)
            }
        },
        None => (Vec::new(), p),
    }
}

/// Parses an arithmetic expression at `p` with parentheses nested at most
/// `depth` deep.
pub fn parse_linear(s: &[char], p: usize, depth: usize) -> (r: Option<(LinearExpression, usize)>)
    ensures
        linear_view(r) == linear_expr(s@, p as int, depth as nat),
        end_within(r, s@.len() as int),
    decreases depth, s@.len() - p, 1int,
{
    if p > s.len() {
        return None;
    }
    match parse_linear_leaf(s, p, depth) {
        Some((first, q)) => {
            if p < q && q <= s.len() {
                let (ops, end) = parse_linear_rest(s, q, depth);
                Some((regroup_exec(first, ops), end))
            } else {
                None
            }
        },
        None => None,
    }
}

} // verus!
