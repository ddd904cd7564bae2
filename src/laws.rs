//! Laws that relate several calls of the library.

use crate::ast::{Condition, LinearExpression};
use crate::condition::{condition, condition_view, MAX_DEPTH};
use crate::eval::{eval_condition, eval_linear, int_result, EvalError, Vars};
use crate::lexer::shift_end;
use crate::linear::{lemma_linear_expr_shift, lemma_linear_expr_trunc, linear_expr, linear_view};
use crate::number::Int;
use crate::lexer::{at, lemma_ws_end_shift, ws_end};
use crate::statement::{predicate, statement, statements, Document, StatementModel};
use vstd::prelude::*;

verus! {

/// Evaluating the same expression in the same environment twice gives the
/// same result: any two results that `LinearExpression::eval` may return
/// there are equal.
pub proof fn lemma_linear_eval_is_pure(
    e: LinearExpression,
    vars: Vars,
    r1: Result<Int, EvalError>,
    r2: Result<Int, EvalError>,
)
    requires
        int_result(r1) == eval_linear(e.model(), vars.model()),
        int_result(r2) == eval_linear(e.model(), vars.model()),
    ensures
        int_result(r1) == int_result(r2),
{
}

/// Evaluating the same condition in the same environment twice gives the
/// same result.
pub proof fn lemma_condition_eval_is_pure(
    c: Condition,
    vars: Vars,
    r1: Result<bool, EvalError>,
    r2: Result<bool, EvalError>,
)
    requires
        r1 == eval_condition(c.model(), vars.model()),
        r2 == eval_condition(c.model(), vars.model()),
    ensures
        r1 == r2,
{
}

/// Parsing the same text twice as an arithmetic expression gives trees with
/// the same structure, and stops at the same position.
pub proof fn lemma_linear_parse_is_deterministic(
    input: Seq<char>,
    r1: Option<(LinearExpression, usize)>,
    r2: Option<(LinearExpression, usize)>,
)
    requires
        linear_view(r1) == linear_expr(input, 0, MAX_DEPTH as nat),
        linear_view(r2) == linear_expr(input, 0, MAX_DEPTH as nat),
    ensures
        linear_view(r1) == linear_view(r2),
{
}

/// Parsing the same text twice as a condition gives the same tree.
pub proof fn lemma_condition_parse_is_deterministic(
    input: Seq<char>,
    r1: Option<(Condition, usize)>,
    r2: Option<(Condition, usize)>,
)
    requires
        condition_view(r1) == condition(input, 0, MAX_DEPTH as nat),
        condition_view(r2) == condition(input, 0, MAX_DEPTH as nat),
    ensures
        condition_view(r1) == condition_view(r2),
{
}

/// Parsing the same text twice as a document gives the same statements.
pub proof fn lemma_document_parse_is_deterministic(
    input: Seq<char>,
    d1: Document,
    e1: usize,
    d2: Document,
    e2: usize,
)
    requires
        (d1.model(), e1 as int) == statements(input, 0, MAX_DEPTH as nat),
        (d2.model(), e2 as int) == statements(input, 0, MAX_DEPTH as nat),
    ensures
        d1.model() == d2.model(),
        e1 == e2,
{
}

/// An arithmetic expression parses the same in place as on its own: at any
/// position `c` of a text, `linear_expression` gives the tree that it gives
/// on the text from `c` on, and stops at the matching position.
pub proof fn lemma_linear_parse_is_local(s: Seq<char>, c: int)
    requires
        0 <= c <= s.len(),
    ensures
        linear_expr(s, c, MAX_DEPTH as nat) == shift_end(
            linear_expr(s.subrange(c, s.len() as int), 0, MAX_DEPTH as nat),
            c,
        ),
{
    lemma_linear_expr_shift(s, c, c, MAX_DEPTH as nat);
}

/// An arithmetic expression parses the same alone as inside a text: where
/// `linear_expression` reads a tree at position `c` of `s` that ends at `e`,
/// it reads the same tree from the text `s[c..e]` by itself, to its end.
/// This holds in particular of the cost expression of every statement.
pub proof fn lemma_expression_substring_parses_alone(s: Seq<char>, c: int, depth: nat)
    requires
        0 <= c <= s.len(),
    ensures
        match linear_expr(s, c, depth) {
            Some((m, e)) => linear_expr(s.subrange(c, e), 0, depth) == Some((m, e - c)),
            None => true,
        },
{
    let d = depth;
    lemma_linear_expr_shift(s, c, c, d);
    let u = s.subrange(c, s.len() as int);
    match linear_expr(s, c, d) {
        Some((m, e)) => {
            lemma_linear_expr_shift(u, 0, 0, d);
            lemma_linear_expr_trunc(u, e - c, 0, d);
            assert(u.subrange(0, e - c) =~= s.subrange(c, e));
        },
        None => {},
    }
}

/// Where each statement that `document` reads starts, in order.
pub open spec fn statement_starts(s: Seq<char>, p: int, depth: nat) -> Seq<int>
    decreases s.len() - p,
{
    if !(0 <= p <= s.len()) {
        Seq::empty()
    } else {
        match statement(s, p, depth) {
            Some((st, q)) => if p < q <= s.len() {
                seq![p] + statement_starts(s, q, depth)
            } else {
                Seq::empty()
            },
            None => Seq::empty(),
        }
    }
}

/// Where the cost expression of the statement at `x` starts and ends: after
/// `=>` and its whitespace, up to the `;`.
pub open spec fn cost_span(s: Seq<char>, x: int, depth: nat) -> Option<(int, int)> {
    match predicate(s, x, depth) {
        Some((_, _, q)) => match linear_expr(s, ws_end(s, q + 2), depth) {
            Some((_, e)) => Some((ws_end(s, q + 2), e)),
            None => None,
        },
        None => None,
    }
}

/// The cost expression of a statement parses alone, from its own text, to
/// the tree that the statement holds.
pub open spec fn cost_parses_alone(s: Seq<char>, x: int, st: StatementModel, depth: nat) -> bool {
    match cost_span(s, x, depth) {
        Some((c, e)) => linear_expr(s.subrange(c, e), 0, depth) == Some((st.cost, e - c))
            && at(s, e, ';'),
        None => false,
    }
}

proof fn lemma_statement_cost_parses_alone(s: Seq<char>, x: int, depth: nat)
    requires
        0 <= x <= s.len(),
    ensures
        match statement(s, x, depth) {
            Some((st, _)) => cost_parses_alone(s, x, st, depth),
            None => true,
        },
{
    match predicate(s, x, depth) {
        Some((_, _, q)) => {
            let c = ws_end(s, q + 2);
            if at(s, q, '=') && at(s, q + 1, '>') && c > q + 2 {
                lemma_ws_end_shift(s, q + 2, q + 2);
                lemma_expression_substring_parses_alone(s, c, depth);
            }
        },
        None => {},
    }
}

/// `document` reads whole statements only: the text splits into the
/// statements read, one after another from `p`, each parsing by itself
/// from its start to the start of the next (the last one to where reading
/// stopped); and the cost expression of each parses alone, from its own
/// text, to the tree that the statement holds.
pub proof fn lemma_document_reads_whole_statements(s: Seq<char>, p: int, depth: nat)
    requires
        0 <= p <= s.len(),
    ensures
        statement_starts(s, p, depth).len() == statements(s, p, depth).0.len(),
        statements(s, p, depth).0.len() > 0 ==> statement_starts(s, p, depth)[0] == p,
        forall|i: int|
            0 <= i < statements(s, p, depth).0.len() ==> statement(s, #[trigger] statement_starts(s, p, depth)[i], depth)
                == Some(
                (
                    statements(s, p, depth).0[i],
                    if i + 1 < statements(s, p, depth).0.len() {
                        statement_starts(s, p, depth)[i + 1]
                    } else {
                        statements(s, p, depth).1
                    },
                ),
            ) && cost_parses_alone(s, statement_starts(s, p, depth)[i], statements(s, p, depth).0[i], depth),
    decreases s.len() - p,
{
    match statement(s, p, depth) {
        Some((st, q)) => {
            if p < q <= s.len() {
                lemma_document_reads_whole_statements(s, q, depth);
                lemma_statement_cost_parses_alone(s, p, depth);
                let (more, e) = statements(s, q, depth);
                let rest = statement_starts(s, q, depth);
                let list = statements(s, p, depth).0;
                let starts = statement_starts(s, p, depth);
                assert(list == seq![st] + more);
                assert(starts == seq![p] + rest);
                assert forall|i: int| 0 <= i < list.len() implies statement(s, #[trigger] starts[i], depth)
                    == Some(
                    (list[i], if i + 1 < list.len() {
                        starts[i + 1]
                    } else {
                        statements(s, p, depth).1
                    }),
                ) && cost_parses_alone(s, starts[i], list[i], depth) by {
                    if i == 0 {
                        assert(starts[0] == p);
                        assert(list[0] == st);
                        if more.len() > 0 {
                            assert(starts[1] == rest[0]);
                        }
                    } else {
                        assert(starts[i] == rest[i - 1]);
                        assert(list[i] == more[i - 1]);
                        if i + 1 < list.len() {
                            assert(starts[i + 1] == rest[i]);
                        }
                    }
                }
            }
        },
        None => {},
    }
}

} // verus!
