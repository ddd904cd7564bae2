//! The embedded GraphQL query. `graphql_parser` parses it; this module keeps
//! what the cost language reads of the result and enforces the accepted
//! shape: an anonymous query operation without variable definitions that
//! has directives or selection items, but not both. Any other kind of
//! definition is rejected.

use graphql_parser::query::{
    consume_definition, Definition as Def, OperationDefinition as Op,
};
use crate::lexer::push_char;
use vstd::prelude::*;

use self::ParsedDefinition::{Fragment, Mutation, Query, SelectionSet, Subscription};

verus! {

/// What is read of a parsed query operation. Directives and selection items
/// are held as their `Debug` text.
#[derive(Debug)]
pub struct QueryParts {
    pub named: bool,
    pub n_variables: usize,
    pub directives: Vec<String>,
    pub selections: Vec<String>,
}

pub struct QueryPartsModel {
    pub named: bool,
    pub n_variables: nat,
    pub directives: Seq<Seq<char>>,
    pub selections: Seq<Seq<char>>,
}

impl QueryParts {
    pub open spec fn model(&self) -> QueryPartsModel {
        QueryPartsModel {
            named: self.named,
            n_variables: self.n_variables as nat,
            directives: self.directives@.map_values(|d: String| d@),
            selections: self.selections@.map_values(|d: String| d@),
        }
    }
}

/// The kind of a parsed GraphQL definition; only of a query operation are
/// the parts kept.
#[derive(Debug)]
pub enum ParsedDefinition {
    Query(QueryParts),
    Mutation,
    Subscription,
    SelectionSet,
    Fragment,
}

pub enum ParsedModel {
    Query(QueryPartsModel),
    Mutation,
    Subscription,
    SelectionSet,
    Fragment,
}

impl ParsedDefinition {
    pub open spec fn model(&self) -> ParsedModel {
        match self {
            ParsedDefinition::Query(q) => ParsedModel::Query(q.model()),
            ParsedDefinition::Mutation => ParsedModel::Mutation,
            ParsedDefinition::Subscription => ParsedModel::Subscription,
            ParsedDefinition::SelectionSet => ParsedModel::SelectionSet,
            ParsedDefinition::Fragment => ParsedModel::Fragment,
        }
    }
}

/// What `graphql_parser::query::consume_definition` reads from the start of
/// `text`: the definition, and how many characters are left after it;
/// `None` when it fails.
pub uninterp spec fn graphql_definition(text: Seq<char>) -> Option<(ParsedModel, nat)>;

pub open spec fn definition_view(r: Option<(ParsedDefinition, usize)>) -> Option<(ParsedModel, nat)> {
    match r {
        Some((d, n)) => Some((d.model(), n as nat)),
        None => None,
    }
}

/// The single fact that a statement keeps of its query.
#[derive(Clone, Debug, PartialEq, Eq)]
pub enum TopLevelQueryItem {
    Selection(String),
    Directive(String),
}

pub enum QueryItemModel {
    Selection(Seq<char>),
    Directive(Seq<char>),
}

impl TopLevelQueryItem {
    pub open spec fn model(&self) -> QueryItemModel {
        match self {
            TopLevelQueryItem::Selection(t) => QueryItemModel::Selection(t@),
            TopLevelQueryItem::Directive(t) => QueryItemModel::Directive(t@),
        }
    }
}

/// The item kept of a definition: it must be a query operation.
pub open spec fn definition_item(d: ParsedModel) -> Option<QueryItemModel> {
    match d {
        ParsedModel::Query(m) => query_item(m),
        _ => None,
    }
}

/// The item kept of a query operation: it must be anonymous and declare no
/// variables, and exactly one of its directive list and selection list may
/// be non-empty; of that list the last entry is kept.
pub open spec fn query_item(m: QueryPartsModel) -> Option<QueryItemModel> {
    if m.named || m.n_variables != 0 {
        None
    } else if m.directives.len() > 0 && m.selections.len() == 0 {
        Some(QueryItemModel::Directive(m.directives.last()))
    } else if m.selections.len() > 0 && m.directives.len() == 0 {
        Some(QueryItemModel::Selection(m.selections.last()))
    } else {
        None
    }
}

/// Relies on `graphql_parser::query::consume_definition`, which parses one
/// definition at the start of its input and returns it with the rest of the
/// input, a suffix of it; here the rest is counted in characters.
#[verifier::external_body]
fn consume_definition_of(text: &str) -> (r: Option<(ParsedDefinition, usize)>)
    ensures
        definition_view(r) == graphql_definition(text@),
        r matches Some((_, n)) ==> n <= text@.len(),
{
    let (d, rest) = consume_definition::<String>(text).ok()?;
    let kind = match d {
        Def::Operation(Op::Query(q)) => Query(QueryParts {
            named: q.name.is_some(),
            n_variables: q.variable_definitions.len(),
            directives: q.directives.iter().map(|d| format!("{:?}", d)).collect(),
            selections: q.selection_set.items.iter().map(|i| format!("{:?}", i)).collect(),
        }),
        Def::Operation(Op::Mutation(_)) => Mutation,
        Def::Operation(Op::Subscription(_)) => Subscription,
        Def::Operation(Op::SelectionSet(_)) => SelectionSet,
        Def::Fragment(_) => Fragment,
    };
    Some((kind, rest.chars().count()))
}

/// The text of `s` from `start` on.
fn suffix_text(s: &[char], start: usize) -> (r: String)
    requires
        start <= s@.len(),
    ensures
        r@ == s@.subrange(start as int, s@.len() as int),
{
    let mut text = String::new();
    let mut i = start;
    while i < s.len()
        invariant
            start <= i <= s@.len(),
            text@ == s@.subrange(start as int, i as int),
        decreases s@.len() - i,
    {
        push_char(&mut text, s[i]);
        i = i + 1;
        proof {
            assert(text@ =~= s@.subrange(start as int, i as int));
        }
    }
    text
}

/// The item kept of a parsed definition, with `end` as the position after
/// it: `None` unless the definition is a query operation of the accepted
/// shape.
pub fn query_item_of(def: ParsedDefinition, end: usize) -> (r: Option<(TopLevelQueryItem, usize)>)
    ensures
        match r {
            Some((item, q)) => definition_item(def.model()) == Some(item.model()) && q == end,
            None => definition_item(def.model()) is None,
        },
{
    let parts = match def {
        ParsedDefinition::Query(p) => p,
        _ => {
            return None;
        },
    };
    if parts.named || parts.n_variables != 0 {
        return None;
    }
    let mut directives = parts.directives;
    let mut selections = parts.selections;
    let nd = directives.len();
    let ns = selections.len();
    if nd > 0 && ns == 0 {
        match directives.pop() {
            Some(d) => Some((TopLevelQueryItem::Directive(d), end)),
            None => None,
        }
    } else if ns > 0 && nd == 0 {
        match selections.pop() {
            Some(t) => Some((TopLevelQueryItem::Selection(t), end)),
            None => None,
        }
    } else {
        None
    }
}

/// Reads the query that starts at `start`: the item kept of it and the
/// position after it.
pub fn parse_query(s: &[char], start: usize) -> (r: Option<(TopLevelQueryItem, usize)>)
    requires
        start <= s@.len(),
    ensures
        match graphql_definition(s@.subrange(start as int, s@.len() as int)) {
            Some((d, n)) => match r {
                Some((item, q)) => definition_item(d) == Some(item.model()) && q == s@.len() - n
                    && start <= q <= s@.len(),
                None => definition_item(d) is None,
            },
            None => r is None,
        },
{
    let text = suffix_text(s, start);
    match consume_definition_of(text.as_str()) {
        Some((def, n)) => query_item_of(def, s.len() - n),
        None => None,
    }
}

} // verus!
