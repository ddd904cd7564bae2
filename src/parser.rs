//! Entry points that parse text. Each one limits the nesting of parentheses
//! to `MAX_DEPTH`; the `_with_depth` forms take the limit as an argument.

use crate::ast::{Condition, LinearExpression};
use crate::condition as cond;
use crate::condition::{parse_condition, MAX_DEPTH};
use crate::linear::{linear_expr, parse_linear};
use crate::statement as stmt;
use crate::statement::{
    parse_statement, parse_statements, parse_where_clause, statements, Document, Statement,
    WhereClause,
};
use vstd::prelude::*;
use vstd::string::StrSliceExecFns;

verus! {

/// A text that does not parse: parsing stopped at `position`, counted in
/// characters.
#[derive(Clone, Copy, Debug, PartialEq, Eq, Structural)]
pub struct ParseError {
    pub position: usize,
}

/// The characters of `text`, in order.
fn chars_of(text: &str) -> (r: Vec<char>)
    ensures
        r@ == text@,
{
    let n = text.unicode_len();
    let mut r: Vec<char> = Vec::new();
    let mut i: usize = 0;
    while i < n
        invariant
            n == text@.len(),
            i <= n,
            r@ == text@.subrange(0, i as int),
        decreases n - i,
    {
        r.push(text.get_char(i));
        i = i + 1;
        proof {
            assert(r@ =~= text@.subrange(0, i as int));
        }
    }
    proof {
        assert(text@.subrange(0, n as int) =~= text@);
    }
    r
}

/// Parses the statements at the start of `input`, one after another, and
/// returns them with the position (in characters) where parsing stopped.
/// Text after that position is left unread.
pub fn document_prefix(input: &str) -> (r: (Document, usize))
    ensures
        (r.0.model(), r.1 as int) == statements(input@, 0, MAX_DEPTH as nat),
{
    let s = chars_of(input);
    parse_statements(s.as_slice(), MAX_DEPTH)
}

/// Parses a whole document: every character of `input` must belong to a
/// statement or to the whitespace after one. Where text is left that no
/// statement parses, the error gives the position where it starts.
pub fn document(input: &str) -> (r: Result<Document, ParseError>)
    ensures
        match r {
            Ok(d) => statements(input@, 0, MAX_DEPTH as nat) == (d.model(), input@.len() as int),
            Err(e) => statements(input@, 0, MAX_DEPTH as nat).1 == e.position as int && e.position
                < input@.len(),
        },
{
    document_with_depth(input, MAX_DEPTH)
}

/// `document` with parentheses nested at most `depth` deep.
pub fn document_with_depth(input: &str, depth: usize) -> (r: Result<Document, ParseError>)
    ensures
        match r {
            Ok(d) => statements(input@, 0, depth as nat) == (d.model(), input@.len() as int),
            Err(e) => statements(input@, 0, depth as nat).1 == e.position as int && e.position
                < input@.len(),
        },
{
    let s = chars_of(input);
    let (d, end) = parse_statements(s.as_slice(), depth);
    if end == s.len() {
        Ok(d)
    } else {
        Err(ParseError { position: end })
    }
}

/// Parses one statement at the start of `input`; the position after it
/// comes with it. Where none starts there, the error's position is 0.
pub fn statement(input: &str) -> (r: Result<(Statement, usize), ParseError>)
    ensures
        match r {
            Ok((st, q)) => stmt::statement(input@, 0, MAX_DEPTH as nat) == Some(
                (st.model(), q as int),
            ),
            Err(e) => stmt::statement(input@, 0, MAX_DEPTH as nat) is None && e.position == 0,
        },
{
    statement_with_depth(input, MAX_DEPTH)
}

/// `statement` with parentheses nested at most `depth` deep.
pub fn statement_with_depth(input: &str, depth: usize) -> (r: Result<(Statement, usize), ParseError>)
    ensures
        match r {
            Ok((st, q)) => stmt::statement(input@, 0, depth as nat) == Some((st.model(), q as int)),
            Err(e) => stmt::statement(input@, 0, depth as nat) is None && e.position == 0,
        },
{
    let s = chars_of(input);
    match parse_statement(s.as_slice(), 0, depth) {
        Some(x) => Ok(x),
        None => Err(ParseError { position: 0 }),
    }
}

/// Parses an arithmetic expression at the start of `input`. Where none
/// starts there, the error's position is 0.
pub fn linear_expression(input: &str) -> (r: Result<(LinearExpression, usize), ParseError>)
    ensures
        match r {
            Ok((e, q)) => linear_expr(input@, 0, MAX_DEPTH as nat) == Some((e.model(), q as int)),
            Err(e) => linear_expr(input@, 0, MAX_DEPTH as nat) is None && e.position == 0,
        },
{
    linear_expression_with_depth(input, MAX_DEPTH)
}

/// `linear_expression` with parentheses nested at most `depth` deep.
pub fn linear_expression_with_depth(input: &str, depth: usize) -> (r: Result<
    (LinearExpression, usize),
    ParseError,
>)
    ensures
        match r {
            Ok((e, q)) => linear_expr(input@, 0, depth as nat) == Some((e.model(), q as int)),
            Err(e) => linear_expr(input@, 0, depth as nat) is None && e.position == 0,
        },
{
    let s = chars_of(input);
    match parse_linear(s.as_slice(), 0, depth) {
        Some(x) => Ok(x),
        None => Err(ParseError { position: 0 }),
    }
}

/// Parses a condition at the start of `input`. Where none starts there, the
/// error's position is 0.
pub fn condition(input: &str) -> (r: Result<(Condition, usize), ParseError>)
    ensures
        match r {
            Ok((c, q)) => cond::condition(input@, 0, MAX_DEPTH as nat) == Some(
                (c.model(), q as int),
            ),
            Err(e) => cond::condition(input@, 0, MAX_DEPTH as nat) is None && e.position == 0,
        },
{
    condition_with_depth(input, MAX_DEPTH)
}

/// `condition` with parentheses nested at most `depth` deep.
pub fn condition_with_depth(input: &str, depth: usize) -> (r: Result<(Condition, usize), ParseError>)
    ensures
        match r {
            Ok((c, q)) => cond::condition(input@, 0, depth as nat) == Some((c.model(), q as int)),
            Err(e) => cond::condition(input@, 0, depth as nat) is None && e.position == 0,
        },
{
    let s = chars_of(input);
    match parse_condition(s.as_slice(), 0, depth) {
        Some(x) => Ok(x),
        None => Err(ParseError { position: 0 }),
    }
}

/// Parses `where`, whitespace and a condition at the start of `input`.
/// Where none starts there, the error's position is 0.
pub fn where_clause(input: &str) -> (r: Result<(WhereClause, usize), ParseError>)
    ensures
        match r {
            Ok((w, q)) => stmt::where_clause(input@, 0, MAX_DEPTH as nat) == Some(
                (w.condition.model(), q as int),
            ),
            Err(e) => stmt::where_clause(input@, 0, MAX_DEPTH as nat) is None && e.position == 0,
        },
{
    let s = chars_of(input);
    match parse_where_clause(s.as_slice(), 0, MAX_DEPTH) {
        Some(x) => Ok(x),
        None => Err(ParseError { position: 0 }),
    }
}

} // verus!
