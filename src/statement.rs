//! Statements and documents: `predicate => cost;`, repeated. A predicate is
//! an embedded query and an optional `where` guard.

use crate::ast::{Condition, ConditionModel, LinearExpression, LinearModel};
use crate::condition::{condition, parse_condition};
use crate::lexer::{at, skip_ws, ws_end};
use crate::linear::{linear_expr, parse_linear};
use crate::query::{definition_item, graphql_definition, parse_query, QueryItemModel, TopLevelQueryItem};
use vstd::prelude::*;

verus! {

#[derive(Debug)]
pub struct WhereClause {
    pub condition: Condition,
}

#[derive(Debug)]
pub struct Predicate {
    pub graphql: TopLevelQueryItem,
    pub where_clause: Option<WhereClause>,
}

#[derive(Debug)]
pub struct Statement {
    pub predicate: Predicate,
    pub cost_expr: LinearExpression,
}

#[derive(Debug)]
pub struct Document {
    pub statements: Vec<Statement>,
}

pub struct StatementModel {
    pub item: QueryItemModel,
    pub guard: Option<ConditionModel>,
    pub cost: LinearModel,
}

impl Predicate {
    pub open spec fn guard_model(&self) -> Option<ConditionModel> {
        match self.where_clause {
            Some(w) => Some(w.condition.model()),
            None => None,
        }
    }
}

impl Statement {
    pub open spec fn model(&self) -> StatementModel {
        StatementModel {
            item: self.predicate.graphql.model(),
            guard: self.predicate.guard_model(),
            cost: self.cost_expr.model(),
        }
    }
}

impl Document {
    pub open spec fn model(&self) -> Seq<StatementModel> {
        self.statements@.map_values(|st: Statement| st.model())
    }
}

/// `where`, whitespace, and a condition at `p`.
pub open spec fn where_clause(s: Seq<char>, p: int, depth: nat) -> Option<(ConditionModel, int)> {
    if at(s, p, 'w') && at(s, p + 1, 'h') && at(s, p + 2, 'e') && at(s, p + 3, 'r') && at(
        s,
        p + 4,
        'e',
    ) && ws_end(s, p + 5) > p + 5 {
        condition(s, ws_end(s, p + 5), depth)
    } else {
        None
    }
}

/// A predicate at `p`: its query item, its guard, and the position after it.
/// A `where` clause counts only when whitespace follows it.
pub open spec fn predicate(s: Seq<char>, p: int, depth: nat) -> Option<(QueryItemModel, Option<ConditionModel>, int)> {
    let q0 = ws_end(s, p);
    if !(0 <= q0 <= s.len()) {
        None
    } else {
        match graphql_definition(s.subrange(q0, s.len() as int)) {
            None => None,
            Some((d, n)) => if n > s.len() - q0 {
                None
            } else {
                match definition_item(d) {
                    None => None,
                    Some(item) => {
                        let q1 = ws_end(s, s.len() - n);
                        let (guard, q2) = match where_clause(s, q1, depth) {
                            Some((c, e)) => if ws_end(s, e) > e {
                                (Some(c), ws_end(s, e))
                            } else {
                                (None, q1)
                            },
                            None => (None, q1),
                        };
                        Some((item, guard, ws_end(s, q2)))
                    },
                }
            },
        }
    }
}

/// A statement at `p`, and the position after it and the whitespace that
/// follows it.
pub open spec fn statement(s: Seq<char>, p: int, depth: nat) -> Option<(StatementModel, int)> {
    match predicate(s, p, depth) {
        None => None,
        Some((item, guard, q)) => if at(s, q, '=') && at(s, q + 1, '>') && ws_end(s, q + 2) > q
            + 2 {
            match linear_expr(s, ws_end(s, q + 2), depth) {
                Some((cost, q3)) => if at(s, q3, ';') {
                    Some((StatementModel { item, guard, cost }, ws_end(s, q3 + 1)))
                } else {
                    None
                },
                None => None,
            }
        } else {
            None
        },
    }
}

/// The statements that follow one another from `p`, and the position where
/// the first one that does not parse would start.
pub open spec fn statements(s: Seq<char>, p: int, depth: nat) -> (Seq<StatementModel>, int)
    decreases s.len() - p,
{
    if !(0 <= p <= s.len()) {
        (Seq::empty(), p)
    } else {
        match statement(s, p, depth) {
            Some((st, q)) => if p < q <= s.len() {
                let (more, e) = statements(s, q, depth);
                (seq![st] + more, e)
            } else {
                (Seq::empty(), p)
            },
            None => (Seq::empty(), p),
        }
    }
}

pub fn parse_where_clause(s: &[char], p: usize, depth: usize) -> (r: Option<(WhereClause, usize)>)
    ensures
        match r {
            Some((w, q)) => where_clause(s@, p as int, depth as nat) == Some((w.condition.model(), q as int)) && q
                <= s@.len(),
            None => where_clause(s@, p as int, depth as nat) is None,
        },
{
    if !(p < s.len() && s.len() - p > 4 && s[p] == 'w' && s[p + 1] == 'h' && s[p + 2] == 'e' && s[p
        + 3] == 'r' && s[p + 4] == 'e') {
        return None;
    }
    let q = skip_ws(s, p + 5);
    if q == p + 5 {
        return None;
    }
    match parse_condition(s, q, depth) {
        Some((c, e)) => Some((WhereClause { condition: c }, e)),
        None => None,
    }
}

fn parse_predicate(s: &[char], p: usize, depth: usize) -> (r: Option<(Predicate, usize)>)
    requires
        p <= s@.len(),
    ensures
        match r {
            Some((pr, q)) => predicate(s@, p as int, depth as nat) == Some(
                (pr.graphql.model(), pr.guard_model(), q as int),
            ) && q <= s@.len(),
            None => predicate(s@, p as int, depth as nat) is None,
        },
{
    let q0 = skip_ws(s, p);
    let (item, q1) = match parse_query(s, q0) {
        Some(x) => x,
        None => {
            return None;
        },
    };
    let q1 = skip_ws(s, q1);
    let (where_clause, q2) = match parse_where_clause(s, q1, depth) {
        Some((w, e)) => {
            let e2 = skip_ws(s, e);
            if e2 > e {
                (Some(w), e2)
            } else {
                (None, q1)
            }
        },
        None => (None, q1),
    };
    let q3 = skip_ws(s, q2);
    Some((Predicate { graphql: item, where_clause }, q3))
}

/// Parses one statement at `p`.
pub fn parse_statement(s: &[char], p: usize, depth: usize) -> (r: Option<(Statement, usize)>)
    requires
        p <= s@.len(),
    ensures
        match r {
            Some((st, q)) => statement(s@, p as int, depth as nat) == Some((st.model(), q as int)) && q
                <= s@.len(),
            None => statement(s@, p as int, depth as nat) is None,
        },
{
    let (predicate, q) = match parse_predicate(s, p, depth) {
        Some(x) => x,
        None => {
            return None;
        },
    };
    if !(q < s.len() && s.len() - q > 1 && s[q] == '=' && s[q + 1] == '>') {
        return None;
    }
    let q2 = skip_ws(s, q + 2);
    if q2 == q + 2 {
        return None;
    }
    let (cost_expr, q3) = match parse_linear(s, q2, depth) {
        Some(x) => x,
        None => {
            return None;
        },
    };
    if !(q3 < s.len() && s[q3] == ';') {
        return None;
    }
    let q4 = skip_ws(s, q3 + 1);
    Some((Statement { predicate, cost_expr }, q4))
}

/// Parses statements one after another from the start of `s`, and returns
/// them with the position where parsing stopped.
pub fn parse_statements(s: &[char], depth: usize) -> (r: (Document, usize))
    ensures
        (r.0.model(), r.1 as int) == statements(s@, 0, depth as nat),
        r.1 <= s@.len(),
{
    let mut list: Vec<Statement> = Vec::new();
    let mut p: usize = 0;
    proof {
        assert(list@.map_values(|st: Statement| st.model()) + statements(s@, 0, depth as nat).0 =~= statements(
            s@,
            0,
            depth as nat,
        ).0);
    }
    loop
        invariant
            p <= s@.len(),
            statements(s@, 0, depth as nat) == (
                list@.map_values(|st: Statement| st.model()) + statements(s@, p as int, depth as nat).0,
                statements(s@, p as int, depth as nat).1,
            ),
        ensures
            p <= s@.len(),
            statements(s@, p as int, depth as nat) == (Seq::<StatementModel>::empty(), p as int),
            statements(s@, 0, depth as nat) == (
                list@.map_values(|st: Statement| st.model()) + statements(s@, p as int, depth as nat).0,
                statements(s@, p as int, depth as nat).1,
            ),
        decreases s@.len() - p,
    {
        match parse_statement(s, p, depth) {
            Some((st, q)) => {
                if p < q && q <= s.len() {
                    let ghost before = list@.map_values(|st: Statement| st.model());
                    let ghost stm = st.model();
                    list.push(st);
                    proof {
                        assert(list@.map_values(|st: Statement| st.model()) =~= before.push(stm));
                        assert(before + (seq![stm] + statements(s@, q as int, depth as nat).0) =~= before.push(stm)
                            + statements(s@, q as int, depth as nat).0);
                    }
                    p = q;
                } else {
                    break;
                }
            },
            None => {
                break;
            },
        }
    }
    proof {
        assert(list@.map_values(|st: Statement| st.model()) + Seq::<StatementModel>::empty()
            =~= list@.map_values(|st: Statement| st.model()));
    }
    (Document { statements: list }, p)
}

} // verus!
