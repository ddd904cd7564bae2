//! A small cost language: statements pair a GraphQL query pattern and an
//! optional guard with an arithmetic cost formula. The crate parses such
//! documents and evaluates their expressions against an environment.

pub mod ast;
pub mod condition;
pub mod eval;
pub mod laws;
pub mod lexer;
pub mod linear;
pub mod number;
pub mod parser;
pub mod query;
pub mod statement;

pub use condition::MAX_DEPTH;
pub use ast::{ArithOp, BooleanOp, ComparisonOp, Condition, LinearExpression};
pub use eval::{EvalError, Value, Vars};
pub use number::Int;
pub use parser::{
    condition, condition_with_depth, document, document_prefix, document_with_depth,
    linear_expression, linear_expression_with_depth, statement, statement_with_depth,
    where_clause, ParseError,
};
pub use query::TopLevelQueryItem;
pub use statement::{Document, Predicate, Statement, WhereClause};
