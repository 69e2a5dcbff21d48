//! The tool surface: requests from parameters, and what is answered.
use vstd::prelude::*;
use tantivy::TantivyDocument;
use crate::document;
use crate::document::{KnowledgeDocument, SearchHit, SearchQuery, SourceKind, SourceSpan, SymbolQuery};
use crate::error::KnowledgeError;
use crate::ids;
use crate::ids::DocumentId;
use crate::query;
use crate::query::Query;
use crate::tantivy_index::engine;
use crate::tantivy_index::query_text;
use crate::tantivy_index::retriever;
use crate::tantivy_index::retriever::{SearchPlan, SymbolPlan, TantivyRetriever};
use crate::tantivy_index::schema;
use crate::text;
use crate::words;

verus! {

/// The parameters of `knowledge_search`.
#[derive(Debug)]
pub struct KnowledgeSearchParams {
    /// A question in natural language, or identifiers.
    pub query: String,
    /// Restrict to these packages (`name` or `name@version`).
    pub packages: Option<Vec<String>>,
    /// Restrict to these source kinds.
    pub source_kinds: Option<Vec<String>>,
    /// Restrict to these item kinds.
    pub item_kinds: Option<Vec<String>>,
    /// Maximum number of hits.
    pub limit: Option<usize>,
}

/// The parameters of `doc_read`.
#[derive(Debug)]
pub struct DocReadParams {
    /// The id of a document.
    pub id: String,
}

/// The parameters of `symbol_lookup`.
#[derive(Debug)]
pub struct SymbolLookupParams {
    /// A symbol path, or its last segment.
    pub symbol: String,
    /// Restrict to these packages (`name` or `name@version`).
    pub packages: Option<Vec<String>>,
    /// Maximum number of matches.
    pub limit: Option<usize>,
}

/// How many hits a search gives where nothing else is asked for.
pub const SEARCH_LIMIT: usize = 8;

/// How many matches a lookup gives where nothing else is asked for.
pub const SYMBOL_LIMIT: usize = 5;

/// The largest limit that is granted.
pub const MAX_LIMIT: usize = 50;

/// The limit that is granted: what is asked for, or the default, but at least
/// one and at most `MAX_LIMIT`.
pub open spec fn granted_limit(asked: Option<usize>, default: usize) -> usize {
    let wanted = match asked {
        Some(n) => n,
        None => default,
    };
    if wanted < 1 {
        1
    } else if wanted > MAX_LIMIT {
        MAX_LIMIT
    } else {
        wanted
    }
}

/// The limit that is granted.
fn clamp_limit(asked: Option<usize>, default: usize) -> (r: usize)
    ensures
        r == granted_limit(asked, default),
        1 <= r <= MAX_LIMIT,
{
    let wanted: usize = match asked {
        Some(n) => n,
        None => default,
    };
    if wanted < 1 {
        1
    } else if wanted > MAX_LIMIT {
        MAX_LIMIT
    } else {
        wanted
    }
}

/// The list asked for; the empty list where none is.
pub open spec fn asked_list(list: Option<Vec<String>>) -> Seq<Seq<char>> {
    match list {
        Some(v) => words::texts(v@),
        None => Seq::empty(),
    }
}

/// The list asked for.
fn list_or_empty(list: Option<Vec<String>>) -> (r: Vec<String>)
    ensures
        words::texts(r@) == asked_list(list),
{
    match list {
        Some(v) => v,
        None => {
            let none: Vec<String> = Vec::new();
            assert(words::texts(none@) =~= Seq::<Seq<char>>::empty());
            none
        },
    }
}

/// The message about a source kind that is not known.
pub open spec fn unknown_kind(name: Seq<char>) -> Seq<char> {
    "unknown source kind: "@ + name
}

/// The kinds with those names, in order; a name that is not known gives none.
pub open spec fn kinds_of(names: Seq<String>) -> Seq<SourceKind>
    decreases names.len(),
{
    if names.len() == 0 {
        Seq::empty()
    } else {
        match SourceKind::named(names.last()@) {
            Some(kind) => kinds_of(names.drop_last()).push(kind),
            None => kinds_of(names.drop_last()),
        }
    }
}

/// Whether every name is that of a source kind.
pub open spec fn all_known(names: Seq<String>) -> bool {
    forall|i: int| 0 <= i < names.len() ==> SourceKind::named((#[trigger] names[i])@) is Some
}

/// Whether `message` is about the first name that is not that of a source kind.
pub open spec fn names_first_unknown(names: Seq<String>, message: Seq<char>) -> bool {
    exists|k: int|
        #![trigger names[k]]
        0 <= k < names.len() && SourceKind::named(names[k]@) is None && all_known(names.take(k))
            && message == unknown_kind(names[k]@)
}

/// Reads the names of source kinds; the first that is not known is refused, with
/// a message that quotes it.
pub fn parse_source_kinds(raw: &Vec<String>) -> (r: Result<Vec<SourceKind>, String>)
    ensures
        r is Ok == all_known(raw@),
        match r {
            Ok(kinds) => kinds@ == kinds_of(raw@) && kinds@.len() == raw@.len(),
            Err(message) => names_first_unknown(raw@, message@),
        },
{
    let mut kinds: Vec<SourceKind> = Vec::new();
    let mut i: usize = 0;
    while i < raw.len()
        invariant
            i <= raw@.len(),
            kinds@.len() == i,
            kinds@ == kinds_of(raw@.take(i as int)),
            all_known(raw@.take(i as int)),
        decreases raw@.len() - i,
    {
        assert(raw@.take(i + 1).drop_last() == raw@.take(i as int));
        match SourceKind::parse(raw[i].as_str()) {
            Ok(kind) => {
                kinds.push(kind);
                assert forall|j: int| 0 <= j < i + 1 implies SourceKind::named(
                    (#[trigger] raw@.take(i + 1)[j])@,
                ) is Some by {
                    if j < i {
                        assert(raw@.take(i as int)[j] == raw@.take(i + 1)[j]);
                    }
                }
            },
            Err(message) => {
                assert(SourceKind::named(raw@[i as int]@) is None);
                return Err(message);
            },
        }
        i = i + 1;
    }
    assert(raw@.take(raw@.len() as int) == raw@);
    Ok(kinds)
}

/// The source kinds asked for, by name.
pub open spec fn asked_kinds(params: KnowledgeSearchParams) -> Seq<String> {
    match params.source_kinds {
        Some(v) => v@,
        None => Seq::empty(),
    }
}

/// The search that is asked for; refused, with a message, where a source kind is
/// not known.
pub fn search_request(params: KnowledgeSearchParams) -> (r: Result<SearchQuery, String>)
    ensures
        r is Ok == all_known(asked_kinds(params)),
        match r {
            Ok(query) => {
                &&& query.text@ == params.query@
                &&& words::texts(query.packages@) == asked_list(params.packages)
                &&& query.source_kinds@ == kinds_of(asked_kinds(params))
                &&& query.source_kinds@.len() == asked_kinds(params).len()
                &&& words::texts(query.item_kinds@) == asked_list(params.item_kinds)
                &&& query.limit == granted_limit(params.limit, SEARCH_LIMIT)
            },
            Err(message) => names_first_unknown(asked_kinds(params), message@),
        },
{
    let source_kinds = match &params.source_kinds {
        Some(raw) => match parse_source_kinds(raw) {
            Ok(kinds) => kinds,
            Err(message) => {
                return Err(message);
            },
        },
        None => {
            let none: Vec<SourceKind> = Vec::new();
            assert(none@ =~= kinds_of(asked_kinds(params)));
            none
        },
    };
    Ok(
        SearchQuery {
            text: params.query,
            packages: list_or_empty(params.packages),
            source_kinds,
            item_kinds: list_or_empty(params.item_kinds),
            limit: clamp_limit(params.limit, SEARCH_LIMIT),
        },
    )
}

/// What is said where a search fails.
pub open spec fn search_failed(error: Seq<char>) -> Seq<char> {
    "search failed: "@ + error + ". The index may be stale; run rust-knowledge index."@
}

/// What is said where a search fails.
pub fn search_failure(error: &KnowledgeError) -> (r: String)
    ensures
        r@ == search_failed(error.text()),
{
    let mut out = "search failed: ".to_owned();
    out.push_str(error.message().as_str());
    out.push_str(". The index may be stale; run rust-knowledge index.");
    out
}

/// One search result as it is answered.
#[derive(Debug, PartialEq, Eq)]
pub struct SearchResult {
    pub id: String,
    pub package: String,
    pub version: String,
    pub kind: String,
    pub context: String,
    pub snippet: String,
}

/// What an answered result shows of a hit.
pub open spec fn answers(result: SearchResult, hit: SearchHit) -> bool {
    &&& result.id@ == hit@.id
    &&& result.package@ == hit@.package_name
    &&& result.version@ == hit@.package_version
    &&& result.kind@ == hit@.source_kind.name()
    &&& result.context@ == document::context_of(hit@.symbol_path, hit@.section_path, hit@.title)
    &&& result.snippet@ == hit@.snippet
}

/// The search results as they are answered, in order.
pub fn search_results(hits: &Vec<SearchHit>) -> (r: Vec<SearchResult>)
    ensures
        r@.len() == hits@.len(),
        forall|i: int| 0 <= i < hits@.len() ==> answers(#[trigger] r@[i], hits@[i]),
{
    let mut out: Vec<SearchResult> = Vec::new();
    let mut i: usize = 0;
    while i < hits.len()
        invariant
            i <= hits@.len(),
            out@.len() == i,
            forall|k: int| 0 <= k < i ==> answers(#[trigger] out@[k], hits@[k]),
        decreases hits@.len() - i,
    {
        let hit = &hits[i];
        out.push(
            SearchResult {
                id: hit.id.as_str().to_owned(),
                package: hit.package_name.clone(),
                version: hit.package_version.clone(),
                kind: hit.source_kind.as_str().to_owned(),
                context: hit.context(),
                snippet: hit.snippet.clone(),
            },
        );
        i = i + 1;
    }
    out
}

/// What is said of a text that is no document id.
pub open spec fn not_an_id(id: Seq<char>) -> Seq<char> {
    id + " is not a valid document id; use the id exactly as returned by knowledge_search"@
}

/// The document that is asked for; refused, with a message, where the id is
/// none.
pub fn read_request(params: &DocReadParams) -> (r: Result<DocumentId, String>)
    ensures
        match r {
            Ok(id) => ids::reads_as_id(params.id@) && id@ == text::lowercase(params.id@),
            Err(message) => !ids::reads_as_id(params.id@) && message@ == not_an_id(params.id@),
        },
{
    match DocumentId::from_raw(params.id.as_str()) {
        Some(id) => Ok(id),
        None => {
            let mut message = params.id.clone();
            message.push_str(
                " is not a valid document id; use the id exactly as returned by knowledge_search",
            );
            Err(message)
        },
    }
}

/// What is said where a document cannot be read.
pub open spec fn read_failed(id: Seq<char>, error: Seq<char>) -> Seq<char> {
    "no document with id "@ + id + ": "@ + error
        + ". The index may be stale; run rust-knowledge index."@
}

/// What is said where a document cannot be read.
pub fn read_failure(id: &DocumentId, error: &KnowledgeError) -> (r: String)
    ensures
        r@ == read_failed(id@, error.text()),
{
    let mut out = "no document with id ".to_owned();
    out.push_str(id.as_str());
    out.push_str(": ");
    out.push_str(error.message().as_str());
    out.push_str(". The index may be stale; run rust-knowledge index.");
    out
}

/// The lookup that is asked for.
pub fn symbol_request(params: SymbolLookupParams) -> (r: SymbolQuery)
    ensures
        r.symbol@ == params.symbol@,
        words::texts(r.packages@) == asked_list(params.packages),
        r.limit == granted_limit(params.limit, SYMBOL_LIMIT),
{
    SymbolQuery {
        symbol: params.symbol,
        packages: list_or_empty(params.packages),
        limit: clamp_limit(params.limit, SYMBOL_LIMIT),
    }
}

/// What is said where a lookup fails.
pub fn symbol_failure(error: &KnowledgeError) -> (r: String)
    ensures
        r@ == "symbol lookup failed: "@ + error.text()
            + ". The index may be stale; run rust-knowledge index."@,
{
    let mut out = "symbol lookup failed: ".to_owned();
    out.push_str(error.message().as_str());
    out.push_str(". The index may be stale; run rust-knowledge index.");
    out
}

/// Answers the tool calls: from parameters to what is asked of the engine, and
/// from what the engine found to what is answered.
#[derive(Debug)]
pub struct KnowledgeServer {
    retriever: TantivyRetriever,
}

impl KnowledgeServer {
    /// What the server reads from.
    pub closed spec fn reads(self) -> TantivyRetriever {
        self.retriever
    }

    /// A server over an index.
    pub fn new(retriever: TantivyRetriever) -> (r: KnowledgeServer)
        ensures
            r.reads() == retriever,
    {
        KnowledgeServer { retriever }
    }

    /// What the server reads from.
    pub fn retriever(&self) -> (r: &TantivyRetriever)
        ensures
            *r == self.reads(),
    {
        &self.retriever
    }

    /// The filter of a search.
    pub open spec fn asked_filter(self, params: KnowledgeSearchParams) -> Option<query::QueryView> {
        retriever::filter_view(
            self.reads().field_numbers(),
            asked_list(params.packages),
            kinds_of(asked_kinds(params)),
            asked_list(params.item_kinds),
        )
    }

    /// What a search asks of the engine. Refused, with a message, where a source
    /// kind is not known, and where nothing is asked for, neither by text nor by
    /// filter.
    pub fn knowledge_search(&self, params: KnowledgeSearchParams, num_docs: u64) -> (r: Result<
        SearchPlan,
        String,
    >)
        ensures
            r is Ok == (all_known(asked_kinds(params)) && !(query_text::searchable(
                params.query@,
            ).len() == 0 && self.asked_filter(params) is None)),
            match r {
                Ok(plan) => {
                    &&& plan.text@ == query_text::searchable(params.query@)
                    &&& plan.limit == retriever::limit_of(
                        num_docs,
                        granted_limit(params.limit, SEARCH_LIMIT),
                    )
                    &&& retriever::search_query_view(
                        self.reads().layout(),
                        self.reads().field_numbers(),
                        plan.text@,
                        self.asked_filter(params),
                    ) == Some(plan.query@)
                },
                Err(message) => if all_known(asked_kinds(params)) {
                    message@ == search_failed("empty query"@)
                } else {
                    names_first_unknown(asked_kinds(params), message@)
                },
            },
    {
        let ghost asked = params;
        match search_request(params) {
            Ok(query) => {
                assert(retriever::search_filter(self.reads().field_numbers(), query)
                    == self.asked_filter(asked));
                match self.retriever.search_plan(&query, num_docs) {
                    Ok(plan) => Ok(plan),
                    Err(error) => Err(search_failure(&error)),
                }
            },
            Err(message) => Err(message),
        }
    }

    /// What reading a document asks of the engine; refused, with a message, where
    /// the id is none.
    pub fn doc_read(&self, params: &DocReadParams) -> (r: Result<(DocumentId, Query), String>)
        ensures
            r is Ok == ids::reads_as_id(params.id@),
            match r {
                Ok((id, query)) => id@ == text::lowercase(params.id@) && query@
                    == query::term_view(self.reads().field_numbers().id, id@),
                Err(message) => message@ == not_an_id(params.id@),
            },
    {
        match read_request(params) {
            Ok(id) => {
                let query = self.retriever.id_query(&id);
                Ok((id, query))
            },
            Err(message) => Err(message),
        }
    }

    /// The document that was asked for, given what the engine found; where there
    /// is none, a message.
    pub fn doc_found(
        &self,
        id: &DocumentId,
        found: Option<&TantivyDocument>,
        span: Option<SourceSpan>,
    ) -> (r: Result<KnowledgeDocument, String>)
        requires
            found is Some ==> engine::readable(*found->0),
        ensures
            match r {
                Ok(doc) => found is Some && schema::stored_document(
                    self.reads().field_numbers(),
                    engine::doc_values(*found->0),
                    span,
                ) == Some(doc@),
                Err(message) => {
                    &&& found is None || schema::stored_document(
                        self.reads().field_numbers(),
                        engine::doc_values(*found->0),
                        span,
                    ) is None
                    &&& message@ == read_failed(id@, "document not found: "@ + id@)
                },
            },
    {
        match self.retriever.get(id, found, span) {
            Ok(doc) => Ok(doc),
            Err(error) => Err(read_failure(id, &error)),
        }
    }

    /// What a symbol lookup asks of the engine; nothing where no symbol is asked
    /// for, and then nothing is answered.
    pub fn symbol_lookup(&self, params: SymbolLookupParams, num_docs: u64) -> (r: Option<SymbolPlan>)
        ensures
            match retriever::symbol_query_view(
                self.reads().field_numbers(),
                params.symbol@,
                asked_list(params.packages),
            ) {
                Some(view) => r is Some && r->0.query@ == view && r->0.limit == retriever::limit_of(
                    num_docs,
                    granted_limit(params.limit, SYMBOL_LIMIT),
                ),
                None => r is None,
            },
    {
        let query = symbol_request(params);
        self.retriever.symbol_plan(&query, num_docs)
    }
}

/// A tool call never collects more than `MAX_LIMIT` results, and always at least
/// one, whatever limit is asked for.
pub proof fn law_limits_bounded(asked: Option<usize>, default: usize, num_docs: u64)
    ensures
        1 <= granted_limit(asked, default) <= MAX_LIMIT,
        1 <= retriever::limit_of(num_docs, granted_limit(asked, default)) <= MAX_LIMIT,
{
}

/// A limit in range is granted as it is.
pub proof fn law_limit_in_range_kept(asked: usize, default: usize)
    requires
        1 <= asked <= MAX_LIMIT,
    ensures
        granted_limit(Some(asked), default) == asked,
{
}

/// Every list of names is either known throughout, and then gives as many kinds
/// as there are names, or has a first name that is not known, which the message
/// quotes.
pub proof fn law_kinds_known_or_refused(names: Seq<String>)
    ensures
        all_known(names) ==> kinds_of(names).len() == names.len(),
        !all_known(names) ==> exists|message: Seq<char>| names_first_unknown(names, message),
    decreases names.len(),
{
    if names.len() > 0 {
        let front = names.drop_last();
        law_kinds_known_or_refused(front);
        if all_known(names) {
            assert forall|i: int| 0 <= i < front.len() implies SourceKind::named(
                (#[trigger] front[i])@,
            ) is Some by {
                assert(front[i] == names[i]);
            }
            assert(SourceKind::named(names[names.len() - 1]@) is Some);
        } else if all_known(front) {
            let k = names.len() - 1;
            assert(names.take(k) == front);
            assert(SourceKind::named(names[k]@) is None) by {
                if SourceKind::named(names[k]@) is Some {
                    assert forall|i: int| 0 <= i < names.len() implies SourceKind::named(
                        (#[trigger] names[i])@,
                    ) is Some by {
                        if i < k {
                            assert(front[i] == names[i]);
                        }
                    }
                }
            }
            assert(names_first_unknown(names, unknown_kind(names[k]@)));
        } else {
            let message = choose|message: Seq<char>| names_first_unknown(front, message);
            let k = choose|k: int|
                #![trigger front[k]]
                0 <= k < front.len() && SourceKind::named(front[k]@) is None && all_known(
                    front.take(k),
                ) && message == unknown_kind(front[k]@);
            assert(names[k] == front[k]);
            assert(names.take(k) == front.take(k));
            assert(names_first_unknown(names, message));
        }
    }
}

} // verus!
