//! Queries as plain data: what to look for, and what a document must show.
use vstd::prelude::*;

verus! {

/// How a clause takes part in a boolean query.
#[derive(Clone, Copy, Debug, PartialEq, Eq, Structural)]
pub enum Occur {
    /// The clause may match.
    Should,
    /// The clause has to match.
    Must,
}

/// One clause of a boolean query.
#[derive(Debug)]
pub struct Clause {
    pub occur: Occur,
    pub query: Query,
}

/// A query over the fields of the index, fields by their number.
#[derive(Debug)]
pub enum Query {
    /// The field holds exactly this term.
    Term { field: u32, text: String },
    /// The inner query, its score multiplied.
    Boost { query: Box<Query>, factor: u32 },
    /// Text in the engine's query grammar, over these default fields.
    Parsed { fields: Vec<u32>, text: String },
    /// Clauses taken together.
    Boolean { clauses: Vec<Clause> },
}

/// What a query shows.
pub enum QueryView {
    Term { field: u32, text: Seq<char> },
    Boost { query: Box<QueryView>, factor: u32 },
    Parsed { fields: Seq<u32>, text: Seq<char> },
    Boolean { clauses: Seq<(Occur, QueryView)> },
}

impl Query {
    /// What the query shows.
    pub open spec fn shown(self) -> QueryView
        decreases self,
    {
        match self {
            Query::Term { field, text } => QueryView::Term { field, text: text@ },
            Query::Boost { query, factor } => QueryView::Boost {
                query: Box::new((*query).shown()),
                factor,
            },
            Query::Parsed { fields, text } => QueryView::Parsed { fields: fields@, text: text@ },
            Query::Boolean { clauses } => QueryView::Boolean {
                clauses: Seq::new(
                    clauses@.len(),
                    |i: int|
                        if 0 <= i < clauses@.len() {
                            (clauses@[i].occur, clauses@[i].query.shown())
                        } else {
                            (Occur::Should, QueryView::Boolean { clauses: Seq::empty() })
                        },
                ),
            },
        }
    }
}

impl View for Query {
    type V = QueryView;

    open spec fn view(&self) -> QueryView {
        self.shown()
    }
}

/// What clauses show.
pub open spec fn clause_views(clauses: Seq<Clause>) -> Seq<(Occur, QueryView)> {
    clauses.map_values(|c: Clause| (c.occur, c.query@))
}

/// A term of a field, as a query.
pub open spec fn term_view(field: u32, text: Seq<char>) -> QueryView {
    QueryView::Term { field, text }
}

/// A term of a field, its score multiplied.
pub open spec fn boosted_view(field: u32, text: Seq<char>, factor: u32) -> QueryView {
    QueryView::Boost { query: Box::new(term_view(field, text)), factor }
}

/// The query that matches nothing.
pub open spec fn nothing_view() -> QueryView {
    QueryView::Boolean { clauses: Seq::empty() }
}

/// A term of a field, as a query.
pub fn term(field: u32, text: &str) -> (q: Query)
    ensures
        q@ == term_view(field, text@),
{
    Query::Term { field, text: text.to_owned() }
}

/// A term of a field, its score multiplied.
pub fn boosted_term(field: u32, text: &str, factor: u32) -> (q: Query)
    ensures
        q@ == boosted_view(field, text@, factor),
{
    boosted(term(field, text), factor)
}

/// A query with its score multiplied.
pub fn boosted(query: Query, factor: u32) -> (q: Query)
    ensures
        q@ == (QueryView::Boost { query: Box::new(query@), factor }),
{
    Query::Boost { query: Box::new(query), factor }
}

/// The clauses taken together.
pub fn boolean(clauses: Vec<Clause>) -> (q: Query)
    ensures
        q@ == (QueryView::Boolean { clauses: clause_views(clauses@) }),
{
    let q = Query::Boolean { clauses };
    assert(q@->clauses == clause_views(clauses@));
    q
}

/// Adds a clause behind the others.
pub fn push_clause(clauses: &mut Vec<Clause>, occur: Occur, query: Query)
    ensures
        clause_views(final(clauses)@) == clause_views(old(clauses)@).push((occur, query@)),
{
    let ghost before = clause_views(clauses@);
    clauses.push(Clause { occur, query });
    assert(clause_views(clauses@) == before.push((occur, query@)));
}

/// Adds clauses behind the others.
pub fn append_clauses(clauses: &mut Vec<Clause>, more: Vec<Clause>)
    ensures
        clause_views(final(clauses)@) == clause_views(old(clauses)@) + clause_views(more@),
{
    let mut rest = more;
    let ghost before = clauses@;
    clauses.append(&mut rest);
    assert(clause_views(clauses@) == clause_views(before) + clause_views(more@));
}

// ---------------------------------------------------------------------------
// What a query matches
// ---------------------------------------------------------------------------

/// Whether a document matches a query. `has` tells the terms of the document,
/// `reads` what text in the query grammar matches it. A boolean query matches if
/// all clauses match that have to and, where no clause has to, some clause
/// does; so one without clauses matches nothing.
pub open spec fn matches(
    query: QueryView,
    has: spec_fn(u32, Seq<char>) -> bool,
    reads: spec_fn(Seq<u32>, Seq<char>) -> bool,
) -> bool
    decreases query,
{
    match query {
        QueryView::Term { field, text } => has(field, text),
        QueryView::Boost { query, factor } => matches(*query, has, reads),
        QueryView::Parsed { fields, text } => reads(fields, text),
        QueryView::Boolean { clauses } => {
            &&& forall|i: int|
                0 <= i < clauses.len() && (#[trigger] clauses[i]).0 is Must ==> matches(
                    clauses[i].1,
                    has,
                    reads,
                )
            &&& exists|i: int|
                0 <= i < clauses.len() && ((#[trigger] clauses[i]).0 is Must || matches(
                    clauses[i].1,
                    has,
                    reads,
                ))
        },
    }
}

} // verus!
