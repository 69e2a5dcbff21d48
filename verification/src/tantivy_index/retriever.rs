//! Queries and results: what is asked of the engine, and what is made of its
//! answers.
//!
//! * free text goes to the engine's query parser, over all searchable fields;
//! * tokens that look like identifiers are looked up as exact terms, too;
//! * filters are clauses that have to match, and no query syntax gets into them.
use tantivy::schema::Schema;
use tantivy::TantivyDocument;
use vstd::prelude::*;
use crate::document;
use crate::document::{HitView, KnowledgeDocument, SearchHit, SearchQuery, SourceKind, SourceSpan};
use crate::document::{SymbolInfo, SymbolQuery, SymbolView};
use crate::error::{IndexError, KnowledgeError};
use crate::ids;
use crate::ids::DocumentId;
use crate::pieces;
use crate::query;
use crate::query::{Clause, Occur, Query, QueryView};
use crate::store::{INDEX_SCHEMA_VERSION, IndexMeta};
use crate::tantivy_index::engine;
use crate::tantivy_index::query_text;
use crate::tantivy_index::schema;
use crate::tantivy_index::schema::IndexFields;
use crate::text;
use crate::words;
use crate::words::CharClass;

verus! {

/// How long a snippet may be, in bytes.
pub const SNIPPET_CHARS: usize = 300;

/// How long the snippet of a symbol may be, in bytes.
pub const SYMBOL_SNIPPET_CHARS: usize = 240;

// ---------------------------------------------------------------------------
// Free text
// ---------------------------------------------------------------------------

/// The query for a free text, given whether the engine accepts the escaped text
/// and whether it accepts its plain words: the former where possible, else the
/// latter, else the query that matches nothing.
pub open spec fn parsed_choice_view(
    fields: Seq<u32>,
    raw: Seq<char>,
    escaped_parses: bool,
    words_parse: bool,
) -> QueryView {
    if escaped_parses {
        QueryView::Parsed { fields, text: query_text::escaped(raw) }
    } else if words_parse {
        QueryView::Parsed { fields, text: query_text::plain_words(raw) }
    } else {
        query::nothing_view()
    }
}

/// The query for a free text over these default fields.
pub open spec fn parsed_view(
    layout: Seq<engine::FieldView>,
    fields: Seq<u32>,
    raw: Seq<char>,
) -> QueryView {
    parsed_choice_view(
        fields,
        raw,
        engine::accepted(layout, fields, query_text::escaped(raw)),
        engine::accepted(layout, fields, query_text::plain_words(raw)),
    )
}

/// The query for a free text, given what of it the engine accepts.
pub fn parsed_choice(
    fields: Vec<u32>,
    raw: &str,
    escaped_parses: bool,
    words_parse: bool,
) -> (q: Query)
    ensures
        q@ == parsed_choice_view(fields@, raw@, escaped_parses, words_parse),
{
    if escaped_parses {
        Query::Parsed { fields, text: query_text::grammar_escaped(raw) }
    } else if words_parse {
        Query::Parsed { fields, text: query_text::syntax_free_text(raw) }
    } else {
        let q = query::boolean(Vec::new());
        assert(q@->clauses =~= Seq::<(Occur, QueryView)>::empty());
        q
    }
}

// ---------------------------------------------------------------------------
// Identifiers
// ---------------------------------------------------------------------------

/// The characters of identifiers and paths.
pub open spec fn path_char(c: char) -> bool {
    text::alphanumeric(c) || c == '_' || c == ':'
}

/// A token without anything but the characters of identifiers and paths.
pub open spec fn path_chars(raw: Seq<char>) -> Seq<char>
    decreases raw.len(),
{
    if raw.len() == 0 {
        Seq::empty()
    } else if path_char(raw.last()) {
        path_chars(raw.drop_last()).push(raw.last())
    } else {
        path_chars(raw.drop_last())
    }
}

/// Whether a text holds an upper-case letter.
pub open spec fn has_uppercase(s: Seq<char>) -> bool {
    exists|i: int| 0 <= i < s.len() && text::uppercase(#[trigger] s[i])
}

/// Whether a text holds letters and numbers only.
pub open spec fn all_alphanumeric(s: Seq<char>) -> bool {
    forall|i: int| 0 <= i < s.len() ==> text::alphanumeric(#[trigger] s[i])
}

/// The clauses that one token adds: a path is looked up as a whole and by its
/// last segment, any other identifier and any longer word by its last segment.
pub open spec fn token_clauses(f: IndexFields, raw: Seq<char>) -> Seq<(Occur, QueryView)> {
    let token = path_chars(raw);
    let lower = text::lowercase(token);
    let last = schema::last_segment(lower);
    if text::utf8_len(token) < 3 {
        Seq::empty()
    } else if pieces::occurs(lower, "::"@) {
        let whole = (Occur::Should, query::boosted_view(f.symbol_exact, lower, 30));
        if text::utf8_len(last) >= 2 {
            seq![whole, (Occur::Should, query::boosted_view(f.symbol_last, last, 12))]
        } else {
            seq![whole]
        }
    } else if raw.contains('_') || has_uppercase(raw) || pieces::occurs(raw, "::"@) {
        seq![(Occur::Should, query::boosted_view(f.symbol_last, lower, 12))]
    } else if all_alphanumeric(token) && text::utf8_len(lower) >= 4 {
        seq![(Occur::Should, query::boosted_view(f.symbol_last, lower, 8))]
    } else {
        Seq::empty()
    }
}

/// The clauses that all tokens add, in order.
pub open spec fn tokens_clauses(f: IndexFields, tokens: Seq<Seq<char>>) -> Seq<(Occur, QueryView)>
    decreases tokens.len(),
{
    if tokens.len() == 0 {
        Seq::empty()
    } else {
        tokens_clauses(f, tokens.drop_last()) + token_clauses(f, tokens.last())
    }
}

/// A token without anything but the characters of identifiers and paths.
fn keep_path_chars(raw: &str) -> (r: String)
    ensures
        r@ == path_chars(raw@),
{
    let chars = text::to_chars(raw);
    let mut out = String::new();
    let mut i: usize = 0;
    while i < chars.len()
        invariant
            i <= chars@.len(),
            out@ == path_chars(chars@.take(i as int)),
        decreases chars@.len() - i,
    {
        assert(chars@.take(i + 1).drop_last() == chars@.take(i as int));
        let c = chars[i];
        if text::is_alphanumeric(c) || c == '_' || c == ':' {
            out.push(c);
        }
        i = i + 1;
    }
    assert(chars@.take(chars@.len() as int) == raw@);
    out
}

/// Whether a text holds an upper-case letter.
fn any_uppercase(s: &str) -> (r: bool)
    ensures
        r == has_uppercase(s@),
{
    let chars = text::to_chars(s);
    let mut i: usize = 0;
    while i < chars.len()
        invariant
            i <= chars@.len(),
            chars@ == s@,
            forall|k: int| 0 <= k < i ==> !text::uppercase(#[trigger] s@[k]),
        decreases chars@.len() - i,
    {
        if text::is_uppercase(chars[i]) {
            assert(text::uppercase(s@[i as int]));
            return true;
        }
        i = i + 1;
    }
    false
}

/// Whether a text holds letters and numbers only.
fn only_alphanumeric(s: &str) -> (r: bool)
    ensures
        r == all_alphanumeric(s@),
{
    let chars = text::to_chars(s);
    let mut i: usize = 0;
    while i < chars.len()
        invariant
            i <= chars@.len(),
            chars@ == s@,
            forall|k: int| 0 <= k < i ==> text::alphanumeric(#[trigger] s@[k]),
        decreases chars@.len() - i,
    {
        if !text::is_alphanumeric(chars[i]) {
            assert(!text::alphanumeric(s@[i as int]));
            return false;
        }
        i = i + 1;
    }
    true
}

/// The clauses that one token adds.
fn clauses_for_token(f: &IndexFields, raw: &str) -> (r: Vec<Clause>)
    ensures
        query::clause_views(r@) == token_clauses(*f, raw@),
{
    proof {
        reveal_strlit("::");
    }
    let mut clauses: Vec<Clause> = Vec::new();
    assert(query::clause_views(clauses@) =~= Seq::<(Occur, QueryView)>::empty());
    let token = keep_path_chars(raw);
    if text::byte_len(token.as_str()) < 3 {
        return clauses;
    }
    let lower = text::to_lowercase(token.as_str());
    if pieces::contains_text(lower.as_str(), "::") {
        query::push_clause(
            &mut clauses,
            Occur::Should,
            query::boosted_term(f.symbol_exact, lower.as_str(), 30),
        );
        let last = pieces::rest_behind_last(lower.as_str(), "::");
        if text::byte_len(last.as_str()) >= 2 {
            query::push_clause(
                &mut clauses,
                Occur::Should,
                query::boosted_term(f.symbol_last, last.as_str(), 12),
            );
        }
    } else if pieces::contains_char(raw, '_') || any_uppercase(raw) || pieces::contains_text(
        raw,
        "::",
    ) {
        query::push_clause(
            &mut clauses,
            Occur::Should,
            query::boosted_term(f.symbol_last, lower.as_str(), 12),
        );
    } else if only_alphanumeric(token.as_str()) && text::byte_len(lower.as_str()) >= 4 {
        query::push_clause(
            &mut clauses,
            Occur::Should,
            query::boosted_term(f.symbol_last, lower.as_str(), 8),
        );
    }
    assert(query::clause_views(clauses@) =~= token_clauses(*f, raw@));
    clauses
}

/// Tokens that look like identifiers as exact terms.
pub fn identifier_clauses(f: &IndexFields, raw: &str) -> (r: Vec<Clause>)
    ensures
        query::clause_views(r@) == tokens_clauses(*f, words::words(raw@, CharClass::Printable)),
{
    let tokens = words::split_words(raw, CharClass::Printable);
    let ghost all = words::texts(tokens@);
    let mut clauses: Vec<Clause> = Vec::new();
    assert(query::clause_views(clauses@) =~= Seq::<(Occur, QueryView)>::empty());
    let mut i: usize = 0;
    while i < tokens.len()
        invariant
            i <= tokens@.len(),
            all == words::texts(tokens@),
            query::clause_views(clauses@) == tokens_clauses(*f, all.take(i as int)),
        decreases tokens@.len() - i,
    {
        assert(all.take(i + 1).drop_last() == all.take(i as int));
        assert(all.take(i + 1).last() == tokens@[i as int]@);
        let more = clauses_for_token(f, tokens[i].as_str());
        query::append_clauses(&mut clauses, more);
        i = i + 1;
    }
    assert(all.take(all.len() as int) == all);
    clauses
}

// ---------------------------------------------------------------------------
// Filters
// ---------------------------------------------------------------------------

/// A filter spec as it is compared: trimmed and in lower case.
pub open spec fn filter_spec(raw: Seq<char>) -> Seq<char> {
    text::lowercase(text::trim(raw))
}

/// The term for a package spec: `name@version` on the key, a name alone on the
/// name.
pub open spec fn package_term(f: IndexFields, spec: Seq<char>) -> QueryView {
    if spec.contains('@') {
        query::term_view(f.package_key, spec)
    } else {
        query::term_view(f.package_name_raw, spec)
    }
}

/// The terms for package specs. An empty spec is no wildcard: it is skipped, and
/// where all are empty no term is left and nothing matches.
pub open spec fn package_clauses(f: IndexFields, packages: Seq<Seq<char>>) -> Seq<
    (Occur, QueryView),
>
    decreases packages.len(),
{
    if packages.len() == 0 {
        Seq::empty()
    } else {
        let before = package_clauses(f, packages.drop_last());
        let spec = filter_spec(packages.last());
        if spec.len() == 0 {
            before
        } else {
            before.push((Occur::Should, package_term(f, spec)))
        }
    }
}

/// The terms for source kinds.
pub open spec fn source_kind_clauses(f: IndexFields, kinds: Seq<SourceKind>) -> Seq<
    (Occur, QueryView),
> {
    kinds.map_values(
        |kind: SourceKind| (Occur::Should, query::term_view(f.source_kind, kind.name())),
    )
}

/// The terms for item kinds, empty specs skipped.
pub open spec fn item_kind_clauses(f: IndexFields, kinds: Seq<Seq<char>>) -> Seq<(Occur, QueryView)>
    decreases kinds.len(),
{
    if kinds.len() == 0 {
        Seq::empty()
    } else {
        let before = item_kind_clauses(f, kinds.drop_last());
        let spec = filter_spec(kinds.last());
        if spec.len() == 0 {
            before
        } else {
            before.push((Occur::Should, query::term_view(f.item_kind, spec)))
        }
    }
}

/// A group of which some clause has to match.
pub open spec fn any_of(clauses: Seq<(Occur, QueryView)>) -> (Occur, QueryView) {
    (Occur::Must, QueryView::Boolean { clauses })
}

/// The groups of a filter, one for each list that is not empty.
pub open spec fn filter_groups(
    f: IndexFields,
    packages: Seq<Seq<char>>,
    source_kinds: Seq<SourceKind>,
    item_kinds: Seq<Seq<char>>,
) -> Seq<(Occur, QueryView)> {
    let none = Seq::<(Occur, QueryView)>::empty();
    (if packages.len() > 0 {
        seq![any_of(package_clauses(f, packages))]
    } else {
        none
    }) + (if source_kinds.len() > 0 {
        seq![any_of(source_kind_clauses(f, source_kinds))]
    } else {
        none
    }) + (if item_kinds.len() > 0 {
        seq![any_of(item_kind_clauses(f, item_kinds))]
    } else {
        none
    })
}

/// The filter: nothing without groups, a single group by itself, else all
/// groups together.
pub open spec fn filter_view(
    f: IndexFields,
    packages: Seq<Seq<char>>,
    source_kinds: Seq<SourceKind>,
    item_kinds: Seq<Seq<char>>,
) -> Option<QueryView> {
    let groups = filter_groups(f, packages, source_kinds, item_kinds);
    if groups.len() == 0 {
        None
    } else if groups.len() == 1 {
        Some(groups[0].1)
    } else {
        Some(QueryView::Boolean { clauses: groups })
    }
}

/// What an optional query shows.
pub open spec fn shown_query(q: Option<Query>) -> Option<QueryView> {
    match q {
        Some(q) => Some(q@),
        None => None,
    }
}

/// The group for package specs.
fn package_group(f: &IndexFields, packages: &Vec<String>) -> (q: Query)
    ensures
        q@ == any_of(package_clauses(*f, words::texts(packages@))).1,
{
    let ghost all = words::texts(packages@);
    let mut clauses: Vec<Clause> = Vec::new();
    assert(query::clause_views(clauses@) =~= Seq::<(Occur, QueryView)>::empty());
    let mut i: usize = 0;
    while i < packages.len()
        invariant
            i <= packages@.len(),
            all == words::texts(packages@),
            query::clause_views(clauses@) == package_clauses(*f, all.take(i as int)),
        decreases packages@.len() - i,
    {
        assert(all.take(i + 1).drop_last() == all.take(i as int));
        assert(all.take(i + 1).last() == packages@[i as int]@);
        let spec = text::to_lowercase(text::trimmed(packages[i].as_str()).as_str());
        if !spec.as_str().is_empty() {
            let field: u32 = if pieces::contains_char(spec.as_str(), '@') {
                f.package_key
            } else {
                f.package_name_raw
            };
            query::push_clause(&mut clauses, Occur::Should, query::term(field, spec.as_str()));
        }
        i = i + 1;
    }
    assert(all.take(all.len() as int) == all);
    query::boolean(clauses)
}

/// The group for source kinds.
fn source_kind_group(f: &IndexFields, kinds: &Vec<SourceKind>) -> (q: Query)
    ensures
        q@ == any_of(source_kind_clauses(*f, kinds@)).1,
{
    let mut clauses: Vec<Clause> = Vec::new();
    let ghost wanted = source_kind_clauses(*f, kinds@);
    assert(query::clause_views(clauses@) =~= wanted.take(0));
    let mut i: usize = 0;
    while i < kinds.len()
        invariant
            i <= kinds@.len(),
            wanted == source_kind_clauses(*f, kinds@),
            query::clause_views(clauses@) == wanted.take(i as int),
        decreases kinds@.len() - i,
    {
        let kind = kinds[i];
        query::push_clause(&mut clauses, Occur::Should, query::term(f.source_kind, kind.as_str()));
        assert(wanted.take(i + 1) == wanted.take(i as int).push(wanted[i as int]));
        i = i + 1;
    }
    assert(wanted.take(wanted.len() as int) == wanted);
    query::boolean(clauses)
}

/// The group for item kinds.
fn item_kind_group(f: &IndexFields, kinds: &Vec<String>) -> (q: Query)
    ensures
        q@ == any_of(item_kind_clauses(*f, words::texts(kinds@))).1,
{
    let ghost all = words::texts(kinds@);
    let mut clauses: Vec<Clause> = Vec::new();
    assert(query::clause_views(clauses@) =~= Seq::<(Occur, QueryView)>::empty());
    let mut i: usize = 0;
    while i < kinds.len()
        invariant
            i <= kinds@.len(),
            all == words::texts(kinds@),
            query::clause_views(clauses@) == item_kind_clauses(*f, all.take(i as int)),
        decreases kinds@.len() - i,
    {
        assert(all.take(i + 1).drop_last() == all.take(i as int));
        assert(all.take(i + 1).last() == kinds@[i as int]@);
        let spec = text::to_lowercase(text::trimmed(kinds[i].as_str()).as_str());
        if !spec.as_str().is_empty() {
            query::push_clause(&mut clauses, Occur::Should, query::term(f.item_kind, spec.as_str()));
        }
        i = i + 1;
    }
    assert(all.take(all.len() as int) == all);
    query::boolean(clauses)
}

/// The filter that these lists ask for; none where all of them are empty.
pub fn filter_clause(
    f: &IndexFields,
    packages: &Vec<String>,
    source_kinds: &Vec<SourceKind>,
    item_kinds: &Vec<String>,
) -> (r: Option<Query>)
    ensures
        shown_query(r) == filter_view(
            *f,
            words::texts(packages@),
            source_kinds@,
            words::texts(item_kinds@),
        ),
{
    let ghost groups = filter_groups(
        *f,
        words::texts(packages@),
        source_kinds@,
        words::texts(item_kinds@),
    );
    let mut must: Vec<Clause> = Vec::new();
    if packages.len() > 0 {
        query::push_clause(&mut must, Occur::Must, package_group(f, packages));
    }
    if source_kinds.len() > 0 {
        query::push_clause(&mut must, Occur::Must, source_kind_group(f, source_kinds));
    }
    if item_kinds.len() > 0 {
        query::push_clause(&mut must, Occur::Must, item_kind_group(f, item_kinds));
    }
    assert(query::clause_views(must@) =~= groups);
    if must.len() == 0 {
        None
    } else if must.len() == 1 {
        assert(groups[0] == (must@[0].occur, must@[0].query@));
        match must.pop() {
            Some(clause) => Some(clause.query),
            None => None,
        }
    } else {
        Some(query::boolean(must))
    }
}

// ---------------------------------------------------------------------------
// Symbols
// ---------------------------------------------------------------------------

/// The clauses of a symbol lookup: the whole path, the symbol as a last
/// segment, the last segment of the path, and all words of a path at once.
pub open spec fn symbol_clauses(f: IndexFields, symbol: Seq<char>) -> Seq<(Occur, QueryView)> {
    let last = schema::last_segment(symbol);
    let found = words::words(symbol, CharClass::Alphanumeric);
    let none = Seq::<(Occur, QueryView)>::empty();
    seq![
        (Occur::Should, query::boosted_view(f.symbol_exact, symbol, 100)),
        (Occur::Should, query::boosted_view(f.symbol_last, symbol, 50)),
    ] + (if last != symbol {
        seq![(Occur::Should, query::boosted_view(f.symbol_last, last, 40))]
    } else {
        none
    }) + (if pieces::occurs(symbol, "::"@) && found.len() > 1 {
        seq![
            (
                Occur::Should,
                QueryView::Boost {
                    query: Box::new(QueryView::Boolean { clauses: segment_clauses(f, found) }),
                    factor: 30,
                },
            ),
        ]
    } else {
        none
    })
}

/// Every word of a path has to be in the tokenized symbol path.
pub open spec fn segment_clauses(f: IndexFields, found: Seq<Seq<char>>) -> Seq<(Occur, QueryView)> {
    found.map_values(|w: Seq<char>| (Occur::Must, query::term_view(f.symbol_path, w)))
}

/// The query of a symbol lookup; none where no symbol is asked for.
pub open spec fn symbol_query_view(
    f: IndexFields,
    symbol: Seq<char>,
    packages: Seq<Seq<char>>,
) -> Option<QueryView> {
    let wanted = filter_spec(symbol);
    if wanted.len() == 0 {
        None
    } else {
        let filter = filter_view(f, packages, Seq::empty(), Seq::empty());
        Some(
            QueryView::Boolean {
                clauses: symbol_clauses(f, wanted) + (match filter {
                    Some(q) => seq![(Occur::Must, q)],
                    None => Seq::empty(),
                }),
            },
        )
    }
}

/// Every word of a path, as terms that have to match.
fn segment_query(f: &IndexFields, found: &Vec<String>) -> (q: Query)
    ensures
        q@ == (QueryView::Boolean { clauses: segment_clauses(*f, words::texts(found@)) }),
{
    let ghost wanted = segment_clauses(*f, words::texts(found@));
    let mut clauses: Vec<Clause> = Vec::new();
    assert(query::clause_views(clauses@) =~= wanted.take(0));
    let mut i: usize = 0;
    while i < found.len()
        invariant
            i <= found@.len(),
            wanted == segment_clauses(*f, words::texts(found@)),
            query::clause_views(clauses@) == wanted.take(i as int),
        decreases found@.len() - i,
    {
        query::push_clause(&mut clauses, Occur::Must, query::term(f.symbol_path, found[i].as_str()));
        assert(wanted.take(i + 1) == wanted.take(i as int).push(wanted[i as int]));
        i = i + 1;
    }
    assert(wanted.take(wanted.len() as int) == wanted);
    query::boolean(clauses)
}

/// The query of a symbol lookup: exact path, then last segment, then all words
/// of the path, in descending weight; none where no symbol is asked for.
pub fn symbol_query(f: &IndexFields, wanted: &SymbolQuery) -> (r: Option<Query>)
    ensures
        shown_query(r) == symbol_query_view(*f, wanted.symbol@, words::texts(wanted.packages@)),
{
    proof {
        reveal_strlit("::");
    }
    let symbol = text::to_lowercase(text::trimmed(wanted.symbol.as_str()).as_str());
    if symbol.as_str().is_empty() {
        return None;
    }
    let mut clauses: Vec<Clause> = Vec::new();
    query::push_clause(
        &mut clauses,
        Occur::Should,
        query::boosted_term(f.symbol_exact, symbol.as_str(), 100),
    );
    query::push_clause(
        &mut clauses,
        Occur::Should,
        query::boosted_term(f.symbol_last, symbol.as_str(), 50),
    );
    let last = pieces::rest_behind_last(symbol.as_str(), "::");
    if !text::same_text(last.as_str(), symbol.as_str()) {
        query::push_clause(
            &mut clauses,
            Occur::Should,
            query::boosted_term(f.symbol_last, last.as_str(), 40),
        );
    }
    let found = words::split_words(symbol.as_str(), CharClass::Alphanumeric);
    if pieces::contains_text(symbol.as_str(), "::") && found.len() > 1 {
        query::push_clause(
            &mut clauses,
            Occur::Should,
            query::boosted(segment_query(f, &found), 30),
        );
    }
    assert(query::clause_views(clauses@) =~= symbol_clauses(*f, symbol@));
    if wanted.packages.len() > 0 {
        let no_sources: Vec<SourceKind> = Vec::new();
        let no_items: Vec<String> = Vec::new();
        assert(words::texts(no_items@) =~= Seq::<Seq<char>>::empty());
        if let Some(filter) = filter_clause(f, &wanted.packages, &no_sources, &no_items) {
            query::push_clause(&mut clauses, Occur::Must, filter);
        }
    } else {
        assert(filter_groups(
            *f,
            words::texts(wanted.packages@),
            Seq::empty(),
            Seq::empty(),
        ).len() == 0);
    }
    proof {
        let filter = filter_view(*f, words::texts(wanted.packages@), Seq::empty(), Seq::empty());
        assert(query::clause_views(clauses@) =~= symbol_clauses(*f, symbol@) + (match filter {
            Some(q) => seq![(Occur::Must, q)],
            None => Seq::empty(),
        }));
    }
    Some(query::boolean(clauses))
}

// ---------------------------------------------------------------------------
// Results
// ---------------------------------------------------------------------------

/// A text as a snippet: all of it where it takes at most `max` bytes, else its
/// beginning and an ellipsis.
pub open spec fn shortened(s: Seq<char>, max: nat) -> Seq<char> {
    if text::utf8_len(s) <= max {
        s
    } else {
        query_text::truncated(s, max)
    }
}

/// A text as a snippet.
fn shorten(s: String, max: usize) -> (r: String)
    ensures
        r@ == shortened(s@, max as nat),
{
    if text::byte_len(s.as_str()) <= max {
        s
    } else {
        query_text::truncate_at_word(s.as_str(), max)
    }
}

/// What a result shows in place of a snippet where the text is blank: the
/// signature, else the beginning of the text, else the title, none of them longer
/// than a snippet.
pub open spec fn signature_or_title_of(
    f: IndexFields,
    values: Seq<(u32, Option<Seq<char>>)>,
) -> Seq<char> {
    let signature = schema::or_empty(engine::first_text(values, f.signature));
    let body = schema::or_empty(engine::first_text(values, f.body));
    if signature.len() > 0 {
        shortened(signature, SNIPPET_CHARS as nat)
    } else if body.len() == 0 {
        shortened(schema::or_empty(engine::first_text(values, f.title)), SNIPPET_CHARS as nat)
    } else {
        query_text::truncated(body, SNIPPET_CHARS as nat)
    }
}

/// The snippet of a result: the engine's fragment where it has one, else the
/// beginning of the text; where the text is blank, the signature or the title.
pub open spec fn snippet_of(
    f: IndexFields,
    values: Seq<(u32, Option<Seq<char>>)>,
    fragment: Seq<char>,
) -> Seq<char> {
    let body = schema::or_empty(engine::first_text(values, f.body));
    if text::trim(body).len() == 0 {
        signature_or_title_of(f, values)
    } else if text::trim(fragment).len() > 0 {
        shortened(text::trim(fragment), SNIPPET_CHARS as nat)
    } else {
        query_text::truncated(body, SNIPPET_CHARS as nat)
    }
}

/// The search result for a document, without a snippet; none where its id is
/// missing or cannot be read.
pub open spec fn hit_of(f: IndexFields, values: Seq<(u32, Option<Seq<char>>)>) -> Option<HitView> {
    let id = engine::first_text(values, f.id);
    if id is Some && ids::reads_as_id(id->0) {
        Some(
            HitView {
                id: text::lowercase(id->0),
                package_name: schema::or_empty(engine::first_text(values, f.package_name)),
                package_version: schema::or_empty(engine::first_text(values, f.package_version)),
                source_kind: match SourceKind::named(
                    schema::or_empty(engine::first_text(values, f.source_kind)),
                ) {
                    Some(kind) => kind,
                    None => SourceKind::MarkdownDocument,
                },
                title: schema::or_empty(engine::first_text(values, f.title)),
                symbol_path: schema::non_empty(engine::first_text(values, f.symbol_path)),
                section_path: schema::stored_list(values, f.section_json),
                snippet: Seq::empty(),
            },
        )
    } else {
        None
    }
}

/// The symbol result for a document; none where it has no symbol path.
pub open spec fn symbol_of(
    f: IndexFields,
    values: Seq<(u32, Option<Seq<char>>)>,
    span: Option<SourceSpan>,
) -> Option<SymbolView> {
    let body = schema::or_empty(engine::first_text(values, f.body));
    let id = schema::or_empty(engine::first_text(values, f.id));
    match schema::non_empty(engine::first_text(values, f.symbol_path)) {
        Some(symbol_path) => Some(
            SymbolView {
                id: if ids::reads_as_id(id) {
                    text::lowercase(id)
                } else {
                    ids::identity_id(Seq::empty())
                },
                package_name: schema::or_empty(engine::first_text(values, f.package_name)),
                package_version: schema::or_empty(engine::first_text(values, f.package_version)),
                kind: match schema::non_empty(engine::first_text(values, f.item_kind)) {
                    Some(kind) => kind,
                    None => "module"@,
                },
                symbol_path,
                signature: schema::non_empty(engine::first_text(values, f.signature)),
                snippet: if text::trim(body).len() == 0 {
                    schema::or_empty(engine::first_text(values, f.signature))
                } else {
                    query_text::truncated(body, SYMBOL_SNIPPET_CHARS as nat)
                },
                source_path: schema::non_empty(engine::first_text(values, f.source_path)),
                source_span: span,
                related_symbols: schema::stored_list(values, f.related_json),
            },
        ),
        None => None,
    }
}

/// What a result shows in place of a snippet where the text is blank.
pub fn signature_or_title(f: &IndexFields, doc: &TantivyDocument) -> (r: String)
    requires
        engine::readable(*doc),
    ensures
        r@ == signature_or_title_of(*f, engine::doc_values(*doc)),
{
    let signature = schema::stored_text(doc, f.signature);
    if !signature.as_str().is_empty() {
        return shorten(signature, SNIPPET_CHARS);
    }
    let body = schema::stored_text(doc, f.body);
    if body.as_str().is_empty() {
        shorten(schema::stored_text(doc, f.title), SNIPPET_CHARS)
    } else {
        query_text::truncate_at_word(body.as_str(), SNIPPET_CHARS)
    }
}

/// The snippet of a result, given the engine's fragment; an empty fragment
/// stands for none.
pub fn snippet_for(f: &IndexFields, doc: &TantivyDocument, fragment: &str) -> (r: String)
    requires
        engine::readable(*doc),
    ensures
        r@ == snippet_of(*f, engine::doc_values(*doc), fragment@),
{
    let body = schema::stored_text(doc, f.body);
    if text::trimmed(body.as_str()).as_str().is_empty() {
        return signature_or_title(f, doc);
    }
    let snippet = text::trimmed(fragment);
    if snippet.as_str().is_empty() {
        query_text::truncate_at_word(body.as_str(), SNIPPET_CHARS)
    } else {
        shorten(snippet, SNIPPET_CHARS)
    }
}

/// The search result for a document, without a snippet.
pub fn hit_from_doc(f: &IndexFields, doc: &TantivyDocument) -> (r: Option<SearchHit>)
    requires
        engine::readable(*doc),
    ensures
        match r {
            Some(hit) => hit_of(*f, engine::doc_values(*doc)) == Some(hit@),
            None => hit_of(*f, engine::doc_values(*doc)) is None,
        },
{
    let raw_id = match engine::get_text(doc, f.id) {
        Some(s) => s,
        None => {
            return None;
        },
    };
    let id = match DocumentId::from_raw(raw_id.as_str()) {
        Some(id) => id,
        None => {
            return None;
        },
    };
    let kind_name = schema::stored_text(doc, f.source_kind);
    let source_kind = match SourceKind::parse(kind_name.as_str()) {
        Ok(kind) => kind,
        Err(_) => SourceKind::MarkdownDocument,
    };
    let hit = SearchHit {
        id,
        package_name: schema::stored_text(doc, f.package_name),
        package_version: schema::stored_text(doc, f.package_version),
        source_kind,
        title: schema::stored_text(doc, f.title),
        symbol_path: schema::stored_non_empty(doc, f.symbol_path),
        section_path: schema::stored_strings(doc, f.section_json),
        snippet: String::new(),
    };
    assert(hit@.snippet =~= Seq::<char>::empty());
    Some(hit)
}

/// The symbol result for a document; `span` is what its source span reads as.
pub fn symbol_info(f: &IndexFields, doc: &TantivyDocument, span: Option<SourceSpan>) -> (r: Option<
    SymbolInfo,
>)
    requires
        engine::readable(*doc),
    ensures
        match r {
            Some(info) => symbol_of(*f, engine::doc_values(*doc), span) == Some(info@),
            None => symbol_of(*f, engine::doc_values(*doc), span) is None,
        },
{
    let symbol_path = match schema::stored_non_empty(doc, f.symbol_path) {
        Some(s) => s,
        None => {
            return None;
        },
    };
    let raw_id = schema::stored_text(doc, f.id);
    let id = match DocumentId::from_raw(raw_id.as_str()) {
        Some(id) => id,
        None => {
            let parts: [&str; 0] = [];
            assert(ids::part_views(parts@) =~= Seq::<Seq<char>>::empty());
            DocumentId::from_identity(parts.as_slice())
        },
    };
    let body = schema::stored_text(doc, f.body);
    let snippet = if text::trimmed(body.as_str()).as_str().is_empty() {
        schema::stored_text(doc, f.signature)
    } else {
        query_text::truncate_at_word(body.as_str(), SYMBOL_SNIPPET_CHARS)
    };
    let kind = match schema::stored_non_empty(doc, f.item_kind) {
        Some(kind) => kind,
        None => "module".to_owned(),
    };
    Some(
        SymbolInfo {
            id,
            package_name: schema::stored_text(doc, f.package_name),
            package_version: schema::stored_text(doc, f.package_version),
            kind,
            symbol_path,
            signature: schema::stored_non_empty(doc, f.signature),
            snippet,
            source_path: schema::stored_non_empty(doc, f.source_path),
            source_span: span,
            related_symbols: schema::stored_strings(doc, f.related_json),
        },
    )
}

// ---------------------------------------------------------------------------
// The retriever
// ---------------------------------------------------------------------------

/// The smaller of what is asked for and what there is, and at least one.
pub open spec fn limit_of(num_docs: u64, requested: usize) -> nat {
    let wanted: nat = if requested == 0 {
        1
    } else {
        requested as nat
    };
    let available: nat = if num_docs == 0 {
        1
    } else {
        num_docs as nat
    };
    if wanted <= available {
        wanted
    } else {
        available
    }
}

/// A limit that the engine's collector can take: at least one, and no more than
/// there are documents, which gives the same results as any larger limit.
pub fn clamped_limit(num_docs: u64, requested: usize) -> (r: usize)
    ensures
        r == limit_of(num_docs, requested),
        r >= 1,
{
    let wanted: usize = if requested == 0 {
        1
    } else {
        requested
    };
    let available: u64 = if num_docs == 0 {
        1
    } else {
        num_docs
    };
    if wanted as u64 <= available {
        wanted
    } else {
        available as usize
    }
}

/// The fields that free text is searched in.
pub open spec fn text_fields(f: IndexFields) -> Seq<u32> {
    seq![
        f.symbol_path,
        f.title,
        f.section_text,
        f.package_name,
        f.signature,
        f.related_text,
        f.body,
    ]
}

/// How much a match in each field counts, in tenths of a match in the text.
pub open spec fn boosts(f: IndexFields) -> Seq<(u32, u32)> {
    seq![
        (f.symbol_path, 100),
        (f.title, 50),
        (f.signature, 30),
        (f.section_text, 30),
        (f.package_name, 25),
        (f.related_text, 15),
        (f.body, 10),
    ]
}

/// The query of a search: the filter alone where there is no text; else the
/// free text and its identifiers, of which some should match, and the filter,
/// which has to.
pub open spec fn search_query_view(
    layout: Seq<engine::FieldView>,
    f: IndexFields,
    wanted: Seq<char>,
    filter: Option<QueryView>,
) -> Option<QueryView> {
    if wanted.len() == 0 {
        filter
    } else {
        Some(
            QueryView::Boolean {
                clauses: seq![(Occur::Should, parsed_view(layout, text_fields(f), wanted))]
                    + tokens_clauses(f, words::words(wanted, CharClass::Printable)) + (
                match filter {
                    Some(q) => seq![(Occur::Must, q)],
                    None => Seq::empty(),
                }),
            },
        )
    }
}

/// The filter of a search.
pub open spec fn search_filter(f: IndexFields, query: SearchQuery) -> Option<QueryView> {
    filter_view(f, words::texts(query.packages@), query.source_kinds@, words::texts(query.item_kinds@))
}

/// What a search asks of the engine.
#[derive(Debug)]
pub struct SearchPlan {
    /// The text that is searched for.
    pub text: String,
    pub query: Query,
    /// How many results to collect.
    pub limit: usize,
}

/// What a symbol lookup asks of the engine.
#[derive(Debug)]
pub struct SymbolPlan {
    pub query: Query,
    /// How many results to collect.
    pub limit: usize,
}

/// Reads an index: makes queries for the engine and results of what it finds.
#[derive(Debug)]
pub struct TantivyRetriever {
    schema: Schema,
    fields: IndexFields,
    meta: IndexMeta,
    index_dir: String,
}

impl TantivyRetriever {
    /// The fields of the schema.
    pub closed spec fn layout(self) -> Seq<engine::FieldView> {
        engine::schema_fields(self.schema)
    }

    /// The numbers of the fields.
    pub closed spec fn field_numbers(self) -> IndexFields {
        self.fields
    }

    /// What is recorded of the index.
    pub closed spec fn recorded(self) -> IndexMeta {
        self.meta
    }

    /// Where the index lies.
    pub closed spec fn directory(self) -> Seq<char> {
        self.index_dir@
    }

    #[verifier::type_invariant]
    spec fn well_formed(self) -> bool {
        self.fields.resolved(engine::schema_fields(self.schema))
    }

    /// Whether the index has the field layout that this library reads; else the
    /// error says which one it has.
    pub fn check_version(index_dir: &str, meta: &IndexMeta) -> (r: Result<(), KnowledgeError>)
        ensures
            r is Ok == (meta.schema_version == INDEX_SCHEMA_VERSION),
            r matches Err(error) ==> {
                &&& error is SchemaVersion
                &&& error->path@ == index_dir@
                &&& error->index == meta.schema_version
                &&& error->supported == INDEX_SCHEMA_VERSION
            },
    {
        if meta.schema_version() != INDEX_SCHEMA_VERSION {
            return Err(
                KnowledgeError::SchemaVersion {
                    path: index_dir.to_owned(),
                    index: meta.schema_version(),
                    supported: INDEX_SCHEMA_VERSION,
                },
            );
        }
        Ok(())
    }

    /// The retriever for an index with this schema: refused where the index has
    /// another version, or where a field is missing.
    pub fn open(index_dir: &str, meta: IndexMeta, schema: Schema) -> (r: Result<
        TantivyRetriever,
        KnowledgeError,
    >)
        ensures
            r is Ok == (meta.schema_version == INDEX_SCHEMA_VERSION && forall|k: int|
                0 <= k < schema::index_layout().len() ==> !schema::missing(
                    engine::schema_fields(schema),
                    (#[trigger] schema::index_layout()[k]).name,
                )),
            match r {
                Ok(retriever) => {
                    &&& retriever.layout() == engine::schema_fields(schema)
                    &&& retriever.field_numbers().resolved(retriever.layout())
                    &&& retriever.recorded() == meta
                    &&& retriever.directory() == index_dir@
                },
                Err(error) => if meta.schema_version != INDEX_SCHEMA_VERSION {
                    &&& error is SchemaVersion
                    &&& error->path@ == index_dir@
                    &&& error->index == meta.schema_version
                    &&& error->supported == INDEX_SCHEMA_VERSION
                } else {
                    error is Engine && exists|k: int|
                        #![trigger schema::index_layout()[k]]
                        0 <= k < schema::index_layout().len() && schema::missing(
                            engine::schema_fields(schema),
                            schema::index_layout()[k].name,
                        ) && error->Engine_0@ == schema::missing_message(
                            schema::index_layout()[k].name,
                        )
                },
            },
    {
        if let Err(error) = Self::check_version(index_dir, &meta) {
            return Err(error);
        }
        match IndexFields::from_schema(&schema) {
            Ok(fields) => {
                proof {
                    let all = engine::schema_fields(schema);
                    assert forall|k: int| 0 <= k < schema::index_layout().len() implies !schema::missing(
                        all,
                        (#[trigger] schema::index_layout()[k]).name,
                    ) by {
                        assert(all[fields.ids()[k] as int].name == schema::index_layout()[k].name);
                    }
                }
                Ok(TantivyRetriever { schema, fields, meta, index_dir: index_dir.to_owned() })
            },
            Err(error) => Err(KnowledgeError::Engine(error.message())),
        }
    }

    /// What is recorded of the index.
    pub fn meta(&self) -> (r: &IndexMeta)
        ensures
            *r == self.recorded(),
    {
        &self.meta
    }

    /// The numbers of the fields.
    pub fn fields(&self) -> (r: IndexFields)
        ensures
            r == self.field_numbers(),
            r.resolved(self.layout()),
    {
        proof {
            use_type_invariant(self);
        }
        self.fields
    }

    /// Where the index lies.
    pub fn index_dir(&self) -> (r: &str)
        ensures
            r@ == self.directory(),
    {
        self.index_dir.as_str()
    }

    /// How much a match in each field counts, in tenths of a match in the text.
    pub fn field_boosts(&self) -> (r: Vec<(u32, u32)>)
        ensures
            r@ == boosts(self.field_numbers()),
    {
        let f = self.fields;
        let out: Vec<(u32, u32)> = vec![
            (f.symbol_path, 100),
            (f.title, 50),
            (f.signature, 30),
            (f.section_text, 30),
            (f.package_name, 25),
            (f.related_text, 15),
            (f.body, 10),
        ];
        assert(out@ =~= boosts(f));
        out
    }

    /// Whether a text may be given to the engine's strict parser, and it accepts it.
    fn accepts(&self, fields: &Vec<u32>, query: &str) -> (r: bool)
        requires
            forall|i: int|
                0 <= i < fields@.len() ==> #[trigger] fields@[i] < self.layout().len(),
            engine::asterisks_escaped(query@),
        ensures
            r == engine::accepted(self.layout(), fields@, query@),
    {
        engine::is_manageable(query) && engine::parses(&self.schema, fields, query)
    }

    /// The query for a free text over some fields of the layout. The engine's
    /// strict parser decides; where it refuses the text, or may not be given it, the
    /// plain words are tried, and where it refuses those, nothing matches.
    fn parsed_query(&self, fields: Vec<u32>, raw: &str) -> (q: Query)
        requires
            forall|i: int|
                0 <= i < fields@.len() ==> self.field_numbers().ids().contains(
                    #[trigger] fields@[i],
                ),
        ensures
            q@ == parsed_view(self.layout(), fields@, raw@),
    {
        proof {
            use_type_invariant(self);
            query_text::law_asterisks_escaped(raw@);
            query_text::law_plain_words(raw@);
            assert forall|i: int| 0 <= i < fields@.len() implies #[trigger] fields@[i]
                < self.layout().len() by {
                assert(self.fields.ids().contains(fields@[i]));
                let k = choose|k: int|
                    0 <= k < self.fields.ids().len() && self.fields.ids()[k] == fields@[i];
                assert(self.fields.ids()[k] < self.layout().len());
            }
        }
        let escaped = query_text::grammar_escaped(raw);
        let escaped_parses = self.accepts(&fields, escaped.as_str());
        let words_parse = if escaped_parses {
            false
        } else {
            let plain = query_text::syntax_free_text(raw);
            self.accepts(&fields, plain.as_str())
        };
        parsed_choice(fields, raw, escaped_parses, words_parse)
    }

    /// The query of a search for a text that was made searchable; none where
    /// there is neither text nor filter.
    pub fn build_search_query(&self, wanted: &str, query: &SearchQuery) -> (r: Option<Query>)
        ensures
            shown_query(r) == search_query_view(
                self.layout(),
                self.field_numbers(),
                wanted@,
                search_filter(self.field_numbers(), *query),
            ),
    {
        let f = self.fields;
        let filter = filter_clause(&f, &query.packages, &query.source_kinds, &query.item_kinds);
        if wanted.is_empty() {
            return filter;
        }
        let fields: Vec<u32> = vec![
            f.symbol_path,
            f.title,
            f.section_text,
            f.package_name,
            f.signature,
            f.related_text,
            f.body,
        ];
        assert(fields@ =~= text_fields(f));
        proof {
            assert(f.ids()[9] == f.symbol_path && f.ids()[8] == f.title);
            assert(f.ids()[12] == f.section_text && f.ids()[2] == f.package_name);
            assert(f.ids()[15] == f.signature && f.ids()[16] == f.related_text);
            assert(f.ids()[14] == f.body);
        }
        let mut clauses: Vec<Clause> = Vec::new();
        query::push_clause(&mut clauses, Occur::Should, self.parsed_query(fields, wanted));
        query::append_clauses(&mut clauses, identifier_clauses(&f, wanted));
        let ghost shown = shown_query(filter);
        if let Some(q) = filter {
            query::push_clause(&mut clauses, Occur::Must, q);
        }
        assert(query::clause_views(clauses@) =~= seq![
            (Occur::Should, parsed_view(self.layout(), text_fields(f), wanted@)),
        ] + tokens_clauses(f, words::words(wanted@, CharClass::Printable)) + (match shown {
            Some(q) => seq![(Occur::Must, q)],
            None => Seq::empty(),
        }));
        Some(query::boolean(clauses))
    }

    /// What a search asks of the engine. Where nothing is asked for, neither by
    /// text nor by filter, that is an error.
    pub fn search_plan(&self, query: &SearchQuery, num_docs: u64) -> (r: Result<
        SearchPlan,
        KnowledgeError,
    >)
        ensures
            match r {
                Ok(plan) => {
                    &&& plan.text@ == query_text::searchable(query.text@)
                    &&& plan.limit == limit_of(num_docs, query.limit)
                    &&& search_query_view(
                        self.layout(),
                        self.field_numbers(),
                        plan.text@,
                        search_filter(self.field_numbers(), *query),
                    ) == Some(plan.query@)
                },
                Err(error) => {
                    &&& query_text::searchable(query.text@).len() == 0
                    &&& search_filter(self.field_numbers(), *query) is None
                    &&& error is Engine
                    &&& error->Engine_0@ == "empty query"@
                },
            },
    {
        let limit: usize = clamped_limit(num_docs, query.limit);
        let wanted = query_text::searchable_text(query.text.as_str());
        match self.build_search_query(wanted.as_str(), query) {
            Some(q) => Ok(SearchPlan { text: wanted, query: q, limit }),
            None => Err(KnowledgeError::Engine("empty query".to_owned())),
        }
    }

    /// The query to take the snippet of a document from; none where its text is
    /// blank and the snippet is taken from elsewhere.
    pub fn snippet_query(&self, wanted: &str, doc: &TantivyDocument) -> (r: Option<Query>)
        requires
            engine::readable(*doc),
        ensures
            shown_query(r) == (if text::trim(
                schema::or_empty(
                    engine::first_text(engine::doc_values(*doc), self.field_numbers().body),
                ),
            ).len() == 0 {
                None
            } else {
                Some(parsed_view(self.layout(), seq![self.field_numbers().body], wanted@))
            }),
    {
        let body = schema::stored_text(doc, self.fields.body);
        if text::trimmed(body.as_str()).as_str().is_empty() {
            return None;
        }
        let fields: Vec<u32> = vec![self.fields.body];
        assert(fields@ =~= seq![self.fields.body]);
        assert(self.fields.ids()[14] == self.fields.body);
        Some(self.parsed_query(fields, wanted))
    }

    /// The search result for a document that was found, given the engine's
    /// fragment for its snippet.
    pub fn hit(&self, doc: &TantivyDocument, fragment: &str) -> (r: Option<SearchHit>)
        requires
            engine::readable(*doc),
        ensures
            match hit_of(self.field_numbers(), engine::doc_values(*doc)) {
                Some(view) => r is Some && r->0@ == (HitView {
                    snippet: snippet_of(
                        self.field_numbers(),
                        engine::doc_values(*doc),
                        fragment@,
                    ),
                    ..view
                }),
                None => r is None,
            },
    {
        match hit_from_doc(&self.fields, doc) {
            Some(hit) => {
                let mut out = hit;
                out.snippet = snippet_for(&self.fields, doc, fragment);
                Some(out)
            },
            None => None,
        }
    }

    /// The query for a document by its id.
    pub fn id_query(&self, id: &DocumentId) -> (r: Query)
        ensures
            r@ == query::term_view(self.field_numbers().id, id@),
    {
        query::term(self.fields.id, id.as_str())
    }

    /// The document with that id, given what the engine found and what its
    /// source span reads as. Where nothing was found, or what was found cannot
    /// be read as a document, there is no such document.
    pub fn get(
        &self,
        id: &DocumentId,
        found: Option<&TantivyDocument>,
        span: Option<SourceSpan>,
    ) -> (r: Result<KnowledgeDocument, KnowledgeError>)
        requires
            found is Some ==> engine::readable(*found->0),
        ensures
            match r {
                Ok(doc) => found is Some && schema::stored_document(
                    self.field_numbers(),
                    engine::doc_values(*found->0),
                    span,
                ) == Some(doc@),
                Err(error) => {
                    &&& error is DocumentNotFound
                    &&& error->DocumentNotFound_0@ == id@
                    &&& found is None || schema::stored_document(
                        self.field_numbers(),
                        engine::doc_values(*found->0),
                        span,
                    ) is None
                },
            },
    {
        if let Some(doc) = found {
            if let Some(out) = schema::from_tantivy_doc(&self.fields, doc, span) {
                return Ok(out);
            }
        }
        Err(KnowledgeError::DocumentNotFound(id.clone()))
    }

    /// What a symbol lookup asks of the engine; nothing where no symbol is asked
    /// for.
    pub fn symbol_plan(&self, query: &SymbolQuery, num_docs: u64) -> (r: Option<SymbolPlan>)
        ensures
            match symbol_query_view(
                self.field_numbers(),
                query.symbol@,
                words::texts(query.packages@),
            ) {
                Some(view) => r is Some && r->0.query@ == view && r->0.limit == limit_of(
                    num_docs,
                    query.limit,
                ),
                None => r is None,
            },
    {
        let limit: usize = clamped_limit(num_docs, query.limit);
        match symbol_query(&self.fields, query) {
            Some(q) => Some(SymbolPlan { query: q, limit }),
            None => None,
        }
    }

    /// The symbol results for the documents that were found, each with what its
    /// source span reads as. Documents without a symbol path are left out.
    pub fn symbols(&self, found: &Vec<(TantivyDocument, Option<SourceSpan>)>) -> (r: Vec<SymbolInfo>)
        requires
            forall|i: int| 0 <= i < found@.len() ==> engine::readable((#[trigger] found@[i]).0),
        ensures
            symbol_views(r@) == symbols_of(self.field_numbers(), found@),
    {
        let mut out: Vec<SymbolInfo> = Vec::new();
        assert(symbol_views(out@) =~= Seq::<SymbolView>::empty());
        let mut i: usize = 0;
        while i < found.len()
            invariant
                i <= found@.len(),
                forall|k: int| 0 <= k < found@.len() ==> engine::readable((#[trigger] found@[k]).0),
                symbol_views(out@) == symbols_of(self.field_numbers(), found@.take(i as int)),
            decreases found@.len() - i,
        {
            assert(found@.take(i + 1).drop_last() == found@.take(i as int));
            let ghost before = symbol_views(out@);
            let entry = &found[i];
            if let Some(info) = symbol_info(&self.fields, &entry.0, entry.1) {
                let ghost shown = info@;
                out.push(info);
                assert(symbol_views(out@) == before.push(shown));
            }
            i = i + 1;
        }
        assert(found@.take(found@.len() as int) == found@);
        out
    }
}

/// What symbol results show.
pub open spec fn symbol_views(infos: Seq<SymbolInfo>) -> Seq<SymbolView> {
    infos.map_values(|info: SymbolInfo| info@)
}

/// The symbol results of documents, in order.
pub open spec fn symbols_of(
    f: IndexFields,
    found: Seq<(TantivyDocument, Option<SourceSpan>)>,
) -> Seq<SymbolView>
    decreases found.len(),
{
    if found.len() == 0 {
        Seq::empty()
    } else {
        let before = symbols_of(f, found.drop_last());
        match symbol_of(f, engine::doc_values(found.last().0), found.last().1) {
            Some(view) => before.push(view),
            None => before,
        }
    }
}

// ---------------------------------------------------------------------------
// Laws
// ---------------------------------------------------------------------------

/// Whatever a document and the engine's fragment hold, the snippet of a search
/// result is no longer than its limit and an ellipsis. So is that of a symbol which
/// is documented; one that is not shows its signature as it is.
pub proof fn law_snippets_bounded(
    f: IndexFields,
    values: Seq<(u32, Option<Seq<char>>)>,
    fragment: Seq<char>,
    span: Option<SourceSpan>,
)
    ensures
        text::utf8_len(snippet_of(f, values, fragment)) <= SNIPPET_CHARS + 3,
        symbol_of(f, values, span) matches Some(info) ==> if text::trim(
            schema::or_empty(engine::first_text(values, f.body)),
        ).len() > 0 {
            text::utf8_len(info.snippet) <= SYMBOL_SNIPPET_CHARS + 3
        } else {
            info.snippet == schema::or_empty(engine::first_text(values, f.signature))
        },
{
    let body = schema::or_empty(engine::first_text(values, f.body));
    let title = schema::or_empty(engine::first_text(values, f.title));
    let signature = schema::or_empty(engine::first_text(values, f.signature));
    query_text::law_truncated(body, SNIPPET_CHARS as nat);
    query_text::law_truncated(body, SYMBOL_SNIPPET_CHARS as nat);
    query_text::law_truncated(title, SNIPPET_CHARS as nat);
    query_text::law_truncated(signature, SNIPPET_CHARS as nat);
    query_text::law_truncated(text::trim(fragment), SNIPPET_CHARS as nat);
}

/// The id of every search result reads back as itself.
pub proof fn law_hit_ids_read_back(f: IndexFields, values: Seq<(u32, Option<Seq<char>>)>)
    ensures
        hit_of(f, values) matches Some(hit) ==> ids::is_id(hit.id) && ids::reads_as_id(hit.id)
            && text::lowercase(hit.id) == hit.id,
{
    if let Some(hit) = hit_of(f, values) {
        ids::law_id_case_insensitive(engine::first_text(values, f.id)->0);
        ids::law_id_round_trip(hit.id);
    }
}

} // verus!
