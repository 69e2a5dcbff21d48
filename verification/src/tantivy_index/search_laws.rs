//! What searches and symbol lookups find, and what results show of a document.
use tantivy::TantivyDocument;
use vstd::prelude::*;
use crate::document;
use crate::document::{DocumentView, SearchQuery, SourceKind, SourceSpan};
use crate::ids;
use crate::json;
use crate::pieces;
use crate::query;
use crate::query::{Occur, QueryView};
use crate::tantivy_index::engine;
use crate::tantivy_index::engine::{FieldKindView, FieldView};
use crate::tantivy_index::filter_laws;
use crate::tantivy_index::query_text;
use crate::tantivy_index::retriever;
use crate::tantivy_index::schema;
use crate::tantivy_index::schema::IndexFields;
use crate::text;
use crate::words;
use crate::words::CharClass;

verus! {

// ---------------------------------------------------------------------------
// Boolean queries
// ---------------------------------------------------------------------------

/// Where no clause has to match, one clause that matches is enough.
proof fn lemma_one_matches(
    clauses: Seq<(Occur, QueryView)>,
    k: int,
    has: spec_fn(u32, Seq<char>) -> bool,
    reads: spec_fn(Seq<u32>, Seq<char>) -> bool,
)
    requires
        0 <= k < clauses.len(),
        forall|i: int| 0 <= i < clauses.len() ==> (#[trigger] clauses[i]).0 is Should,
        query::matches(clauses[k].1, has, reads),
    ensures
        query::matches(QueryView::Boolean { clauses }, has, reads),
{
    assert(clauses[k].0 is Should);
}

/// A term with a factor matches what has the term.
proof fn lemma_boosted(
    field: u32,
    t: Seq<char>,
    factor: u32,
    has: spec_fn(u32, Seq<char>) -> bool,
    reads: spec_fn(Seq<u32>, Seq<char>) -> bool,
)
    ensures
        query::matches(query::boosted_view(field, t, factor), has, reads) == has(field, t),
{
    reveal_with_fuel(query::matches, 3);
}

// ---------------------------------------------------------------------------
// Free text
// ---------------------------------------------------------------------------

/// The fields that hold what a reader can search for: the names of the item and of
/// its package, the headings, the signature, the items it refers to, and the text.
pub open spec fn searchable_field(f: IndexFields, field: u32) -> bool {
    ||| field == f.symbol_path
    ||| field == f.title
    ||| field == f.section_text
    ||| field == f.package_name
    ||| field == f.signature
    ||| field == f.related_text
    ||| field == f.body
}

/// A search for a text asks for the text, escaped, in every searchable field, where
/// the engine accepts it; else for its plain words.
pub proof fn law_search_asks_every_field(
    layout: Seq<FieldView>,
    f: IndexFields,
    wanted: Seq<char>,
    filter: Option<QueryView>,
) -> (fields: Seq<u32>)
    requires
        wanted.len() > 0,
    ensures
        forall|field: u32| searchable_field(f, field) == #[trigger] fields.contains(field),
        ({
            let q = retriever::search_query_view(layout, f, wanted, filter);
            let escaped = query_text::escaped(wanted);
            let plain = query_text::plain_words(wanted);
            &&& q is Some && q->0 is Boolean
            &&& engine::accepted(layout, fields, escaped) ==> q->0->clauses.contains(
                (Occur::Should, QueryView::Parsed { fields, text: escaped }),
            )
            &&& !engine::accepted(layout, fields, escaped) && engine::accepted(
                layout,
                fields,
                plain,
            ) ==> q->0->clauses.contains((Occur::Should, QueryView::Parsed { fields, text: plain }))
        }),
{
    let fields = retriever::text_fields(f);
    assert forall|field: u32| searchable_field(f, field) == #[trigger] fields.contains(field) by {
        assert(fields[0] == f.symbol_path && fields[1] == f.title && fields[2] == f.section_text);
        assert(fields[3] == f.package_name && fields[4] == f.signature);
        assert(fields[5] == f.related_text && fields[6] == f.body);
        if fields.contains(field) {
            let i = choose|i: int| 0 <= i < fields.len() && fields[i] == field;
            assert(0 <= i < 7);
        }
    }
    let clauses = retriever::search_query_view(layout, f, wanted, filter)->0->clauses;
    assert(clauses[0] == (Occur::Should, retriever::parsed_view(layout, fields, wanted)));
    fields
}

/// A search finds every document that its text matches in any one searchable field:
/// where a document is found as soon as that field is among those that are
/// searched, and the engine accepts the text or its plain words, the search finds
/// it.
pub proof fn law_text_found_in_any_field(
    layout: Seq<FieldView>,
    f: IndexFields,
    wanted: Seq<char>,
    field: u32,
    has: spec_fn(u32, Seq<char>) -> bool,
    reads: spec_fn(Seq<u32>, Seq<char>) -> bool,
)
    requires
        wanted.len() > 0,
        searchable_field(f, field),
        forall|fields: Seq<u32>|
            fields.contains(field) ==> #[trigger] reads(fields, query_text::escaped(wanted)),
        forall|fields: Seq<u32>|
            fields.contains(field) ==> #[trigger] reads(fields, query_text::plain_words(wanted)),
        forall|fields: Seq<u32>|
            engine::accepted(layout, fields, query_text::escaped(wanted))
                || #[trigger] engine::accepted(layout, fields, query_text::plain_words(wanted)),
    ensures
        query::matches(
            retriever::search_query_view(layout, f, wanted, None)->0,
            has,
            reads,
        ),
{
    let fields = law_search_asks_every_field(layout, f, wanted, None);
    assert(fields.contains(field));
    let clauses = retriever::search_query_view(layout, f, wanted, None)->0->clauses;
    let escaped = query_text::escaped(wanted);
    let plain = query_text::plain_words(wanted);
    lemma_all_should(layout, f, wanted);
    if engine::accepted(layout, fields, escaped) {
        let c = (Occur::Should, QueryView::Parsed { fields, text: escaped });
        let k = choose|k: int| 0 <= k < clauses.len() && clauses[k] == c;
        assert(reads(fields, escaped));
        lemma_one_matches(clauses, k, has, reads);
    } else {
        assert(engine::accepted(layout, fields, plain));
        let c = (Occur::Should, QueryView::Parsed { fields, text: plain });
        let k = choose|k: int| 0 <= k < clauses.len() && clauses[k] == c;
        assert(reads(fields, plain));
        lemma_one_matches(clauses, k, has, reads);
    }
}

/// The clauses of identifiers never have to match.
proof fn lemma_tokens_should(f: IndexFields, tokens: Seq<Seq<char>>)
    ensures
        forall|i: int|
            0 <= i < retriever::tokens_clauses(f, tokens).len()
                ==> (#[trigger] retriever::tokens_clauses(f, tokens)[i]).0 is Should,
    decreases tokens.len(),
{
    if tokens.len() > 0 {
        lemma_tokens_should(f, tokens.drop_last());
        let all = retriever::tokens_clauses(f, tokens);
        let before = retriever::tokens_clauses(f, tokens.drop_last());
        let more = retriever::token_clauses(f, tokens.last());
        assert forall|i: int| 0 <= i < all.len() implies (#[trigger] all[i]).0 is Should by {
            if i < before.len() {
                assert(before[i].0 is Should);
            } else {
                assert(all[i] == more[i - before.len()]);
            }
        }
    }
}

/// Without a filter no clause of a search has to match.
proof fn lemma_all_should(layout: Seq<FieldView>, f: IndexFields, wanted: Seq<char>)
    requires
        wanted.len() > 0,
    ensures
        ({
            let clauses = retriever::search_query_view(layout, f, wanted, None)->0->clauses;
            forall|i: int| 0 <= i < clauses.len() ==> (#[trigger] clauses[i]).0 is Should
        }),
{
    let clauses = retriever::search_query_view(layout, f, wanted, None)->0->clauses;
    let tokens = words::words(wanted, CharClass::Printable);
    lemma_tokens_should(f, tokens);
    let more = retriever::tokens_clauses(f, tokens);
    assert forall|i: int| 0 <= i < clauses.len() implies (#[trigger] clauses[i]).0 is Should by {
        if i > 0 {
            assert(clauses[i] == more[i - 1]);
        }
    }
}

// ---------------------------------------------------------------------------
// Identifiers
// ---------------------------------------------------------------------------

/// What is left of a word without anything but letters, numbers, underscores and
/// colons.
pub open spec fn bare(word: Seq<char>) -> Seq<char> {
    word.filter(|c: char| text::alphanumeric(c) || c == '_' || c == ':')
}

/// A bare word is what is looked up.
proof fn lemma_bare(word: Seq<char>)
    ensures
        retriever::path_chars(word) == bare(word),
    decreases word.len(),
{
    reveal(Seq::filter);
    if word.len() > 0 {
        lemma_bare(word.drop_last());
    }
}

/// The clauses of each word are among those of the search.
proof fn lemma_token_clause(
    f: IndexFields,
    tokens: Seq<Seq<char>>,
    n: int,
    c: (Occur, QueryView),
)
    requires
        0 <= n < tokens.len(),
        retriever::token_clauses(f, tokens[n]).contains(c),
    ensures
        retriever::tokens_clauses(f, tokens).contains(c),
    decreases tokens.len(),
{
    let all = retriever::tokens_clauses(f, tokens);
    let before = retriever::tokens_clauses(f, tokens.drop_last());
    let more = retriever::token_clauses(f, tokens.last());
    if n == tokens.len() - 1 {
        let k = choose|k: int| 0 <= k < more.len() && more[k] == c;
        assert(all[before.len() + k] == c);
    } else {
        lemma_token_clause(f, tokens.drop_last(), n, c);
        let k = choose|k: int| 0 <= k < before.len() && before[k] == c;
        assert(all[k] == c);
    }
}

/// Every identifier among the words of a search is looked up by itself, in lower
/// case. A path is looked up as a whole, which counts thirtyfold, and by its last
/// segment, twelvefold; a word with an underscore or a capital by the last segment,
/// twelvefold; any other word of four bytes and more by the last segment, eightfold.
#[verifier::rlimit(40)]
pub proof fn law_identifiers_looked_up(
    layout: Seq<FieldView>,
    f: IndexFields,
    wanted: Seq<char>,
    filter: Option<QueryView>,
    n: int,
)
    requires
        0 <= n < words::words(wanted, CharClass::Printable).len(),
        text::utf8_len(bare(words::words(wanted, CharClass::Printable)[n])) >= 3,
    ensures
        ({
            let word = words::words(wanted, CharClass::Printable)[n];
            let lower = text::lowercase(bare(word));
            let path = pieces::occurs(lower, "::"@);
            let last = pieces::behind_last(lower, "::"@);
            let q = retriever::search_query_view(layout, f, wanted, filter);
            &&& q is Some && q->0 is Boolean
            &&& path ==> asked(q->0->clauses, f.symbol_exact, lower, 30)
            &&& path && text::utf8_len(last) >= 2 ==> asked(q->0->clauses, f.symbol_last, last, 12)
            &&& !path && (word.contains('_') || exists|i: int|
                0 <= i < word.len() && text::uppercase(#[trigger] word[i])) ==> asked(
                q->0->clauses,
                f.symbol_last,
                lower,
                12,
            )
            &&& !path && !word.contains('_') && !(exists|i: int|
                0 <= i < word.len() && text::uppercase(#[trigger] word[i])) && !pieces::occurs(
                word,
                "::"@,
            ) && (forall|i: int|
                0 <= i < bare(word).len() ==> text::alphanumeric(#[trigger] bare(word)[i]))
                && text::utf8_len(lower) >= 4 ==> asked(q->0->clauses, f.symbol_last, lower, 8)
        }),
{
    let tokens = words::words(wanted, CharClass::Printable);
    let word = tokens[n];
    lemma_bare(word);
    assert(wanted.len() > 0);
    let lower = text::lowercase(bare(word));
    let last = pieces::behind_last(lower, "::"@);
    let own = retriever::token_clauses(f, word);
    let clauses = retriever::search_query_view(layout, f, wanted, filter)->0->clauses;
    let more = retriever::tokens_clauses(f, tokens);
    assert forall|c: (Occur, QueryView)| #[trigger] own.contains(c) implies clauses.contains(c) by {
        lemma_token_clause(f, tokens, n, c);
        let k = choose|k: int| 0 <= k < more.len() && more[k] == c;
        assert(clauses[k + 1] == c);
    }
    assert(retriever::has_uppercase(word) == exists|i: int|
        0 <= i < word.len() && text::uppercase(#[trigger] word[i]));
    assert(own.len() > 0 ==> own.contains(own[0]));
    assert(own.len() > 1 ==> own.contains(own[1]));
}

/// A term is asked for, and counts as often as that.
pub open spec fn asked(
    clauses: Seq<(Occur, QueryView)>,
    field: u32,
    t: Seq<char>,
    factor: u32,
) -> bool {
    clauses.contains(
        (
            Occur::Should,
            QueryView::Boost { query: Box::new(QueryView::Term { field, text: t }), factor },
        ),
    )
}

/// What a search finds where there is no filter shows its text, or has the name of
/// an identifier among its words: as a whole or as its last segment. So a document
/// that has neither is not found.
pub proof fn law_search_finds_nothing_else(
    layout: Seq<FieldView>,
    f: IndexFields,
    wanted: Seq<char>,
    has: spec_fn(u32, Seq<char>) -> bool,
    reads: spec_fn(Seq<u32>, Seq<char>) -> bool,
)
    requires
        wanted.len() > 0,
        forall|fields: Seq<u32>| !#[trigger] reads(fields, query_text::escaped(wanted)),
        forall|fields: Seq<u32>| !#[trigger] reads(fields, query_text::plain_words(wanted)),
        forall|n: int|
            0 <= n < words::words(wanted, CharClass::Printable).len() ==> !named_by(
                f,
                #[trigger] words::words(wanted, CharClass::Printable)[n],
                has,
            ),
    ensures
        !query::matches(retriever::search_query_view(layout, f, wanted, None)->0, has, reads),
{
    let tokens = words::words(wanted, CharClass::Printable);
    let clauses = retriever::search_query_view(layout, f, wanted, None)->0->clauses;
    let more = retriever::tokens_clauses(f, tokens);
    lemma_all_should(layout, f, wanted);
    lemma_tokens_unmatched(f, tokens, has, reads);
    assert forall|i: int| 0 <= i < clauses.len() implies !query::matches(
        (#[trigger] clauses[i]).1,
        has,
        reads,
    ) by {
        if i > 0 {
            assert(clauses[i] == more[i - 1]);
        } else {
            reveal_with_fuel(query::matches, 2);
        }
    }
    assert(!query::matches(QueryView::Boolean { clauses }, has, reads));
}

/// Whether a document has the name that a word says: the whole path, or the last
/// segment.
pub open spec fn named_by(
    f: IndexFields,
    word: Seq<char>,
    has: spec_fn(u32, Seq<char>) -> bool,
) -> bool {
    let lower = text::lowercase(bare(word));
    ||| has(f.symbol_exact, lower)
    ||| has(f.symbol_last, lower)
    ||| has(f.symbol_last, pieces::behind_last(lower, "::"@))
}

/// Words that name nothing of a document match nothing of it.
proof fn lemma_tokens_unmatched(
    f: IndexFields,
    tokens: Seq<Seq<char>>,
    has: spec_fn(u32, Seq<char>) -> bool,
    reads: spec_fn(Seq<u32>, Seq<char>) -> bool,
)
    requires
        forall|n: int| 0 <= n < tokens.len() ==> !named_by(f, #[trigger] tokens[n], has),
    ensures
        forall|i: int|
            0 <= i < retriever::tokens_clauses(f, tokens).len() ==> !query::matches(
                (#[trigger] retriever::tokens_clauses(f, tokens)[i]).1,
                has,
                reads,
            ),
    decreases tokens.len(),
{
    if tokens.len() > 0 {
        let init = tokens.drop_last();
        assert forall|n: int| 0 <= n < init.len() implies !named_by(f, #[trigger] init[n], has) by {
            assert(!named_by(f, tokens[n], has));
        }
        lemma_tokens_unmatched(f, init, has, reads);
        assert(!named_by(f, tokens[tokens.len() - 1], has));
        let word = tokens.last();
        lemma_bare(word);
        let lower = text::lowercase(bare(word));
        let last = pieces::behind_last(lower, "::"@);
        lemma_boosted(f.symbol_exact, lower, 30, has, reads);
        lemma_boosted(f.symbol_last, last, 12, has, reads);
        lemma_boosted(f.symbol_last, lower, 12, has, reads);
        lemma_boosted(f.symbol_last, lower, 8, has, reads);
        let all = retriever::tokens_clauses(f, tokens);
        let before = retriever::tokens_clauses(f, init);
        let own = retriever::token_clauses(f, word);
        assert forall|i: int| 0 <= i < all.len() implies !query::matches(
            (#[trigger] all[i]).1,
            has,
            reads,
        ) by {
            if i < before.len() {
                assert(all[i] == before[i]);
            } else {
                assert(all[i] == own[i - before.len()]);
            }
        }
    }
}

/// A search for the path of a symbol, among other words, finds its document, where
/// the path is made of letters, numbers, underscores and colons; the case does not
/// matter.
pub proof fn law_search_finds_symbol(
    layout: Seq<FieldView>,
    f: IndexFields,
    wanted: Seq<char>,
    n: int,
    d: DocumentView,
    span_json: Seq<char>,
    reads: spec_fn(Seq<u32>, Seq<char>) -> bool,
)
    requires
        0 <= n < words::words(wanted, CharClass::Printable).len(),
        text::utf8_len(bare(words::words(wanted, CharClass::Printable)[n])) >= 3,
        d.symbol_path is Some,
        pieces::occurs(text::lowercase(d.symbol_path->0), "::"@),
        text::lowercase(bare(words::words(wanted, CharClass::Printable)[n])) == text::lowercase(
            d.symbol_path->0,
        ),
    ensures
        query::matches(
            retriever::search_query_view(layout, f, wanted, None)->0,
            filter_laws::document_has(f, d, span_json),
            reads,
        ),
{
    let has = filter_laws::document_has(f, d, span_json);
    law_identifiers_looked_up(layout, f, wanted, None, n);
    lemma_symbol_terms(f, d, span_json);
    assert(wanted.len() > 0);
    lemma_all_should(layout, f, wanted);
    let lower = text::lowercase(d.symbol_path->0);
    let clauses = retriever::search_query_view(layout, f, wanted, None)->0->clauses;
    let c = (Occur::Should, query::boosted_view(f.symbol_exact, lower, 30));
    let k = choose|k: int| 0 <= k < clauses.len() && clauses[k] == c;
    lemma_boosted(f.symbol_exact, lower, 30, has, reads);
    lemma_one_matches(clauses, k, has, reads);
}

/// The untokenized terms of a symbol: its whole path and its last segment, in lower
/// case.
proof fn lemma_symbol_terms(f: IndexFields, d: DocumentView, span_json: Seq<char>)
    requires
        d.symbol_path is Some,
    ensures
        filter_laws::document_has(f, d, span_json)(
            f.symbol_exact,
            text::lowercase(d.symbol_path->0),
        ),
        filter_laws::document_has(f, d, span_json)(
            f.symbol_last,
            text::lowercase(pieces::behind_last(d.symbol_path->0, "::"@)),
        ),
{
    let values = schema::document_values(f, d, span_json);
    let n: int = (schema::leading_values(f, d).len() + schema::kind_values(f, d).len()) as int;
    let trail = schema::trailing_values(f, d, span_json);
    assert(values[n + 2] == trail[2] && values[n + 3] == trail[3]);
}

// ---------------------------------------------------------------------------
// Symbols
// ---------------------------------------------------------------------------

/// Without packages there is no filter.
proof fn lemma_no_filter(f: IndexFields)
    ensures
        retriever::filter_view(f, Seq::empty(), Seq::empty(), Seq::empty()) is None,
{
}

/// Without packages, no clause of a lookup has to match.
proof fn lemma_lookup_should(f: IndexFields, symbol: Seq<char>)
    requires
        text::lowercase(text::trim(symbol)).len() > 0,
    ensures
        ({
            let q = retriever::symbol_query_view(f, symbol, Seq::empty());
            &&& q is Some && q->0 is Boolean
            &&& q->0->clauses == retriever::symbol_clauses(f, text::lowercase(text::trim(symbol)))
            &&& forall|i: int|
                0 <= i < q->0->clauses.len() ==> (#[trigger] q->0->clauses[i]).0 is Should
        }),
{
    lemma_no_filter(f);
    let wanted = text::lowercase(text::trim(symbol));
    let q = retriever::symbol_query_view(f, symbol, Seq::empty());
    assert(q->0->clauses =~= retriever::symbol_clauses(f, wanted));
}

/// A lookup finds every symbol with the last segment that was asked for, however it
/// was written: the segment alone, the whole path, or another path that ends in it.
/// The case, and blanks around it, do not matter.
pub proof fn law_lookup_by_last_segment(
    f: IndexFields,
    d: DocumentView,
    span_json: Seq<char>,
    symbol: Seq<char>,
    reads: spec_fn(Seq<u32>, Seq<char>) -> bool,
)
    requires
        d.symbol_path is Some,
        text::lowercase(text::trim(symbol)).len() > 0,
        pieces::behind_last(text::lowercase(text::trim(symbol)), "::"@) == text::lowercase(
            pieces::behind_last(d.symbol_path->0, "::"@),
        ),
    ensures
        retriever::symbol_query_view(f, symbol, Seq::empty()) is Some,
        query::matches(
            retriever::symbol_query_view(f, symbol, Seq::empty())->0,
            filter_laws::document_has(f, d, span_json),
            reads,
        ),
{
    let has = filter_laws::document_has(f, d, span_json);
    let wanted = text::lowercase(text::trim(symbol));
    let last = pieces::behind_last(wanted, "::"@);
    lemma_lookup_should(f, symbol);
    lemma_symbol_terms(f, d, span_json);
    let clauses = retriever::symbol_query_view(f, symbol, Seq::empty())->0->clauses;
    assert(clauses[1] == (Occur::Should, query::boosted_view(f.symbol_last, wanted, 50)));
    if last != wanted {
        assert(clauses[2] == (Occur::Should, query::boosted_view(f.symbol_last, last, 40)));
        lemma_boosted(f.symbol_last, last, 40, has, reads);
        lemma_one_matches(clauses, 2, has, reads);
    } else {
        lemma_boosted(f.symbol_last, wanted, 50, has, reads);
        lemma_one_matches(clauses, 1, has, reads);
    }
}

/// A lookup of a path finds every document whose symbol path holds all words of it,
/// wherever they stand.
pub proof fn law_lookup_by_all_words(
    f: IndexFields,
    symbol: Seq<char>,
    has: spec_fn(u32, Seq<char>) -> bool,
    reads: spec_fn(Seq<u32>, Seq<char>) -> bool,
)
    requires
        pieces::occurs(text::lowercase(text::trim(symbol)), "::"@),
        words::words(text::lowercase(text::trim(symbol)), CharClass::Alphanumeric).len() >= 2,
        forall|i: int|
            0 <= i < words::words(
                text::lowercase(text::trim(symbol)),
                CharClass::Alphanumeric,
            ).len() ==> has(
                f.symbol_path,
                #[trigger] words::words(
                    text::lowercase(text::trim(symbol)),
                    CharClass::Alphanumeric,
                )[i],
            ),
    ensures
        retriever::symbol_query_view(f, symbol, Seq::empty()) is Some,
        query::matches(
            retriever::symbol_query_view(f, symbol, Seq::empty())->0,
            has,
            reads,
        ),
{
    let wanted = text::lowercase(text::trim(symbol));
    let found = words::words(wanted, CharClass::Alphanumeric);
    assert(wanted.len() > 0);
    lemma_lookup_should(f, symbol);
    let clauses = retriever::symbol_query_view(f, symbol, Seq::empty())->0->clauses;
    let k = clauses.len() - 1;
    let inner = retriever::segment_clauses(f, found);
    let all = QueryView::Boolean { clauses: inner };
    assert(clauses[k] == (
        Occur::Should,
        QueryView::Boost { query: Box::new(all), factor: 30 },
    ));
    assert forall|i: int| 0 <= i < inner.len() implies query::matches(
        (#[trigger] inner[i]).1,
        has,
        reads,
    ) && inner[i].0 is Must by {
        assert(inner[i] == (Occur::Must, query::term_view(f.symbol_path, found[i])));
        assert(has(f.symbol_path, found[i]));
    }
    assert(inner[0].0 is Must);
    assert(query::matches(all, has, reads));
    assert(query::matches(clauses[k].1, has, reads)) by {
        reveal_with_fuel(query::matches, 2);
    }
    lemma_one_matches(clauses, k, has, reads);
}

/// What a lookup finds where no package is asked for has the whole path, the last
/// segment or all words of what was asked for.
pub proof fn law_lookup_finds_nothing_else(
    f: IndexFields,
    symbol: Seq<char>,
    has: spec_fn(u32, Seq<char>) -> bool,
    reads: spec_fn(Seq<u32>, Seq<char>) -> bool,
)
    requires
        text::lowercase(text::trim(symbol)).len() > 0,
        query::matches(retriever::symbol_query_view(f, symbol, Seq::empty())->0, has, reads),
    ensures
        ({
            let wanted = text::lowercase(text::trim(symbol));
            let found = words::words(wanted, CharClass::Alphanumeric);
            ||| has(f.symbol_exact, wanted)
            ||| has(f.symbol_last, wanted)
            ||| has(f.symbol_last, pieces::behind_last(wanted, "::"@))
            ||| (pieces::occurs(wanted, "::"@) && forall|i: int|
                0 <= i < found.len() ==> has(f.symbol_path, #[trigger] found[i]))
        }),
{
    let wanted = text::lowercase(text::trim(symbol));
    let found = words::words(wanted, CharClass::Alphanumeric);
    let last = pieces::behind_last(wanted, "::"@);
    lemma_lookup_should(f, symbol);
    lemma_boosted(f.symbol_exact, wanted, 100, has, reads);
    lemma_boosted(f.symbol_last, wanted, 50, has, reads);
    lemma_boosted(f.symbol_last, last, 40, has, reads);
    let clauses = retriever::symbol_query_view(f, symbol, Seq::empty())->0->clauses;
    let i = choose|i: int|
        0 <= i < clauses.len() && ((#[trigger] clauses[i]).0 is Must || query::matches(
            clauses[i].1,
            has,
            reads,
        ));
    assert(clauses[i].0 is Should);
    let inner = retriever::segment_clauses(f, found);
    let all = QueryView::Boolean { clauses: inner };
    let whole = QueryView::Boost { query: Box::new(all), factor: 30 };
    if clauses[i].1 == whole {
        assert(query::matches(all, has, reads)) by {
            reveal_with_fuel(query::matches, 2);
        }
        assert forall|j: int| 0 <= j < found.len() implies has(
            f.symbol_path,
            #[trigger] found[j],
        ) by {
            assert(inner[j] == (Occur::Must, query::term_view(f.symbol_path, found[j])));
            assert(query::matches(inner[j].1, has, reads));
        }
    }
}

/// The better the match of a lookup, the more it counts: the whole path most, then
/// what was asked for as a last segment, then the last segment of it, then all words.
pub proof fn law_lookup_prefers_exact(f: IndexFields, symbol: Seq<char>)
    requires
        text::lowercase(text::trim(symbol)).len() > 0,
    ensures
        ({
            let wanted = text::lowercase(text::trim(symbol));
            let clauses = retriever::symbol_query_view(f, symbol, Seq::empty())->0->clauses;
            &&& asked(clauses, f.symbol_exact, wanted, 100)
            &&& asked(clauses, f.symbol_last, wanted, 50)
            &&& pieces::behind_last(wanted, "::"@) != wanted ==> asked(
                clauses,
                f.symbol_last,
                pieces::behind_last(wanted, "::"@),
                40,
            )
            &&& forall|i: int|
                2 <= i < clauses.len() ==> (#[trigger] clauses[i]).1 is Boost
                    && clauses[i].1->factor <= 40
        }),
{
    lemma_lookup_should(f, symbol);
    let wanted = text::lowercase(text::trim(symbol));
    let clauses = retriever::symbol_query_view(f, symbol, Seq::empty())->0->clauses;
    assert(clauses[0] == (Occur::Should, query::boosted_view(f.symbol_exact, wanted, 100)));
    assert(clauses[1] == (Occur::Should, query::boosted_view(f.symbol_last, wanted, 50)));
    if pieces::behind_last(wanted, "::"@) != wanted {
        assert(clauses[2].1 == query::boosted_view(
            f.symbol_last,
            pieces::behind_last(wanted, "::"@),
            40,
        ));
    }
}

/// How much a match counts in each searchable field, in tenths of a match in the
/// text: a hundred in the path of the symbol, fifty in the title, thirty in the
/// headings and in the signature, twenty-five in the name of the package, fifteen in
/// the related items. No other field counts.
pub proof fn law_field_weights(f: IndexFields)
    ensures
        retriever::boosts(f).contains((f.symbol_path, 100)),
        retriever::boosts(f).contains((f.title, 50)),
        retriever::boosts(f).contains((f.section_text, 30)),
        retriever::boosts(f).contains((f.signature, 30)),
        retriever::boosts(f).contains((f.package_name, 25)),
        retriever::boosts(f).contains((f.related_text, 15)),
        retriever::boosts(f).contains((f.body, 10)),
        retriever::boosts(f).len() == 7,
{
    let b = retriever::boosts(f);
    assert(b[0] == (f.symbol_path, 100u32) && b[1] == (f.title, 50u32));
    assert(b[2] == (f.signature, 30u32) && b[3] == (f.section_text, 30u32));
    assert(b[4] == (f.package_name, 25u32) && b[5] == (f.related_text, 15u32));
    assert(b[6] == (f.body, 10u32));
}

/// How many results are collected: as many as are asked for, where there are that
/// many documents; never none, and never more than there are.
pub proof fn law_limit(num_docs: u64, requested: usize)
    ensures
        1 <= requested <= num_docs ==> retriever::limit_of(num_docs, requested) == requested,
        requested > num_docs > 0 ==> retriever::limit_of(num_docs, requested) == num_docs,
        requested == 0 || num_docs == 0 ==> retriever::limit_of(num_docs, requested) == 1,
{
}

// ---------------------------------------------------------------------------
// Results
// ---------------------------------------------------------------------------

/// A search result shows what was put into the index: the id, the name and the
/// version of the package, the kind, the title, the path of the symbol and the
/// headings of the document.
pub proof fn law_hit_shows_document(f: IndexFields, d: DocumentView, span_json: Seq<char>)
    requires
        f.ids().no_duplicates(),
        ids::is_id(d.id),
        json::json_strings(json::strings_json(d.section_path)) == Some(d.section_path),
    ensures
        ({
            let hit = retriever::hit_of(f, schema::document_values(f, d, span_json));
            &&& hit is Some
            &&& (hit->0).id == d.id
            &&& (hit->0).package_name == d.package.name
            &&& (hit->0).package_version == d.package.version
            &&& (hit->0).source_kind == d.source_kind
            &&& (hit->0).title == d.title
            &&& d.symbol_path is Some && (d.symbol_path->0).len() > 0 ==> (hit->0).symbol_path
                == d.symbol_path
            &&& d.symbol_path is None ==> (hit->0).symbol_path is None
            &&& (hit->0).section_path == d.section_path
        }),
{
    schema::lemma_first_texts(f, d, span_json);
    document::law_source_kind_round_trip(d.source_kind);
    ids::law_id_round_trip(d.id);
}

/// A symbol result shows what was put into the index: the id, the name and the
/// version of the package, the kind of the item in lower case, the path, the
/// signature, the file and the related items of the document; its snippet is the
/// beginning of the text, or the signature where there is no text. A document
/// without a path gives no symbol.
pub proof fn law_symbol_shows_document(
    f: IndexFields,
    d: DocumentView,
    span_json: Seq<char>,
    span: Option<SourceSpan>,
)
    requires
        f.ids().no_duplicates(),
        ids::is_id(d.id),
        json::json_strings(json::strings_json(d.related_symbols)) == Some(d.related_symbols),
    ensures
        d.symbol_path is None ==> retriever::symbol_of(
            f,
            schema::document_values(f, d, span_json),
            span,
        ) is None,
        d.symbol_path is Some && (d.symbol_path->0).len() > 0 ==> {
            let info = retriever::symbol_of(f, schema::document_values(f, d, span_json), span);
            &&& info is Some
            &&& (info->0).id == d.id
            &&& (info->0).package_name == d.package.name
            &&& (info->0).package_version == d.package.version
            &&& (info->0).symbol_path == d.symbol_path->0
            &&& d.item_kind is Some && text::lowercase(d.item_kind->0).len() > 0
                && (d.item_kind->0).len() > 0 ==> (info->0).kind == text::lowercase(d.item_kind->0)
            &&& d.item_kind is None ==> (info->0).kind == "module"@
            &&& d.signature is Some && (d.signature->0).len() > 0 ==> (info->0).signature
                == d.signature
            &&& d.signature is None ==> (info->0).signature is None
            &&& d.source_path is Some && (d.source_path->0).len() > 0 ==> (info->0).source_path
                == d.source_path
            &&& d.source_path is None ==> (info->0).source_path is None
            &&& (info->0).source_span == span
            &&& (info->0).related_symbols == d.related_symbols
            &&& text::trim(d.text).len() > 0 ==> (info->0).snippet == query_text::truncated(
                d.text,
                240,
            )
            &&& text::trim(d.text).len() == 0 && d.signature is Some ==> (info->0).snippet
                == d.signature->0
        },
{
    schema::lemma_first_texts(f, d, span_json);
    ids::law_id_round_trip(d.id);
}

/// What is read back of a document is what was put in, field by field: nothing of it
/// comes from another field.
pub proof fn law_document_keeps_its_fields(
    f: IndexFields,
    d: DocumentView,
    span_json: Seq<char>,
    span: Option<SourceSpan>,
)
    requires
        f.ids().no_duplicates(),
        ids::is_id(d.id),
        json::json_strings(json::strings_json(d.section_path)) == Some(d.section_path),
        json::json_strings(json::strings_json(d.related_symbols)) == Some(d.related_symbols),
    ensures
        ({
            let read = schema::stored_document(f, schema::document_values(f, d, span_json), span);
            &&& read is Some
            &&& (read->0).id == d.id
            &&& (read->0).package.package_id == d.package.package_id
            &&& (read->0).package.name == d.package.name
            &&& (read->0).package.version == d.package.version
            &&& (read->0).source_kind == d.source_kind
            &&& (read->0).title == d.title
            &&& (read->0).text == d.text
            &&& (read->0).section_path == d.section_path
            &&& (read->0).related_symbols == d.related_symbols
            &&& (read->0).source_span == span
            &&& keeps_text(d.symbol_path, (read->0).symbol_path)
            &&& keeps_text(d.signature, (read->0).signature)
            &&& keeps_text(d.source_path, (read->0).source_path)
            &&& d.item_kind is None ==> (read->0).item_kind is None
            &&& d.item_kind is Some && (d.item_kind->0).len() > 0 && text::lowercase(
                d.item_kind->0,
            ).len() > 0 ==> (read->0).item_kind == Some(text::lowercase(d.item_kind->0))
        }),
{
    schema::lemma_first_texts(f, d, span_json);
    document::law_source_kind_round_trip(d.source_kind);
    ids::law_id_round_trip(d.id);
}

/// A text that is not empty is kept, and where there was none there is none.
pub open spec fn keeps_text(put: Option<Seq<char>>, read: Option<Seq<char>>) -> bool {
    &&& put is Some && (put->0).len() > 0 ==> read == put
    &&& put is None ==> read is None
}

/// What the searchable fields of a document hold: its own text under each of them,
/// headings and related items joined.
pub proof fn law_searchable_values(f: IndexFields, d: DocumentView, span_json: Seq<char>)
    requires
        f.ids().no_duplicates(),
    ensures
        ({
            let all = schema::document_values(f, d, span_json);
            &&& engine::first_text(all, f.title) == Some(d.title)
            &&& engine::first_text(all, f.body) == Some(d.text)
            &&& engine::first_text(all, f.package_name) == Some(d.package.name)
            &&& d.symbol_path is Some ==> engine::first_text(all, f.symbol_path) == d.symbol_path
            &&& d.signature is Some ==> engine::first_text(all, f.signature) == d.signature
            &&& engine::first_text(all, f.section_text) == Some(words::join(d.section_path, " > "@))
            &&& engine::first_text(all, f.related_text) == Some(
                words::join(d.related_symbols, " "@),
            )
        }),
{
    schema::lemma_first_texts(f, d, span_json);
}

/// The snippet of a search result: the engine's fragment, trimmed, where there is one
/// and it is short enough; the beginning of the text where there is none. Without
/// text it is the signature, and without that the title.
pub proof fn law_snippet(
    f: IndexFields,
    d: DocumentView,
    span_json: Seq<char>,
    fragment: Seq<char>,
)
    requires
        f.ids().no_duplicates(),
    ensures
        ({
            let shown = retriever::snippet_of(f, schema::document_values(f, d, span_json), fragment);
            &&& text::trim(d.text).len() > 0 && 0 < text::utf8_len(text::trim(fragment)) <= 300
                ==> shown == text::trim(fragment)
            &&& text::trim(d.text).len() > 0 && text::trim(fragment).len() == 0 ==> shown
                == query_text::truncated(d.text, 300)
            &&& text::trim(d.text).len() > 0 && text::utf8_len(text::trim(fragment)) > 300 ==> shown
                == query_text::truncated(text::trim(fragment), 300)
            &&& text::trim(d.text).len() == 0 && d.signature is Some && 0 < text::utf8_len(d.signature->0) <= 300
                ==> shown == d.signature->0
            &&& d.text.len() == 0 && d.signature is None && text::utf8_len(d.title) <= 300 ==> shown
                == d.title
            &&& text::trim(d.text).len() == 0 && d.signature is Some && text::utf8_len(d.signature->0) > 300
                ==> shown == query_text::truncated(d.signature->0, 300)
            &&& text::trim(d.text).len() == 0 && d.text.len() > 0 && d.signature is None
                ==> shown.len() == 0
            &&& d.text.len() == 0 && d.signature is None && text::utf8_len(d.title) > 300 ==> shown
                == query_text::truncated(d.title, 300)
        }),
{
    schema::lemma_first_texts(f, d, span_json);
    assert(text::trim(d.text).len() > 0 ==> d.text.len() > 0);
    if text::utf8_len(text::trim(fragment)) > 0 {
        assert(text::trim(fragment).len() > 0);
    } else {
        text::lemma_utf8_len_bounds(text::trim(fragment));
    }
    if d.signature is Some && text::utf8_len(d.signature->0) > 0 {
        assert((d.signature->0).len() > 0);
    }
}

/// A text that is cut is cut where it may be: what is shown is followed by white
/// space, or is the longest beginning that fits, and then there is no white space in the
/// second half of the limit. No more than white space is cut away beyond that half.
pub proof fn law_cut_keeps_half(s: Seq<char>, max: nat) -> (at: (int, int))
    requires
        text::utf8_len(text::trim(s)) > max >= 8,
    ensures
        0 <= at.0 <= at.1 <= text::trim(s).len(),
        query_text::truncated(s, max) == text::trim(s).take(at.0) + "..."@,
        text::utf8_len(text::trim(s).take(at.1)) > max / 2,
        forall|i: int| at.0 <= i < at.1 ==> text::white(#[trigger] text::trim(s)[i]),
        at.0 < text::trim(s).len(),
        text::white(text::trim(s)[at.0]) || (text::utf8_len(text::trim(s).take(at.0 + 1)) > max
            && forall|k: int|
            0 <= k < at.0 && text::white(#[trigger] text::trim(s)[k]) ==> text::utf8_len(
                text::trim(s).take(k),
            ) <= max / 2),
{
    let t = text::trim(s);
    query_text::lemma_fitting_fits(t, max);
    let head = query_text::fitting(t, max);
    lemma_fitting_longest(t, max);
    let n = head.len() as int;
    assert(t.take(n + 1).drop_last() =~= t.take(n));
    query_text::lemma_last_white_inside(head);
    match query_text::last_white(head) {
        Some(i) => {
            assert(head.take(i) =~= t.take(i));
            if text::utf8_len(head.take(i)) > max / 2 {
                let m = text::lemma_trim_end_part(head.take(i));
                assert(head.take(i).take(m) =~= t.take(m));
                lemma_trimmed_end_white(head.take(i), m);
                assert forall|k: int| m <= k < i implies text::white(#[trigger] t[k]) by {
                    assert(text::white(head.take(i)[k]));
                }
                assert(t[i] == head[i]);
                (m, i)
            } else {
                assert forall|k: int| 0 <= k < n && text::white(#[trigger] t[k]) implies text::utf8_len(
                    t.take(k),
                ) <= max / 2 by {
                    assert(head[k] == t[k]);
                    assert(k <= i);
                    let rest = t.subrange(k, i);
                    assert(t.take(i) =~= t.take(k) + rest);
                    text::lemma_utf8_len_add(t.take(k), rest);
                }
                (n, n)
            }
        },
        None => {
            assert forall|k: int| 0 <= k < n implies !text::white(#[trigger] t[k]) by {
                assert(head[k] == t[k]);
            }
            (n, n)
        },
    }
}

/// What trimming the end takes away is white space.
proof fn lemma_trimmed_end_white(s: Seq<char>, n: int)
    requires
        0 <= n <= s.len(),
        text::trim_end(s) == s.take(n),
    ensures
        forall|k: int| n <= k < s.len() ==> text::white(#[trigger] s[k]),
    decreases s.len(),
{
    if s.len() > 0 && text::white(s.last()) {
        let init = s.drop_last();
        let m = text::lemma_trim_end_part(init);
        assert(init.take(m).len() == m);
        assert(s.take(n).len() == n);
        assert(init.take(m) =~= s.take(n));
        assert(init.take(n) =~= s.take(n));
        lemma_trimmed_end_white(init, n);
        assert forall|k: int| n <= k < s.len() implies text::white(#[trigger] s[k]) by {
            if k < init.len() {
                assert(text::white(init[k]));
            }
        }
    } else {
        assert(s.take(n).len() == n);
    }
}

/// One character more does not fit, so most of the limit is used.
pub proof fn lemma_fitting_longest(s: Seq<char>, max: nat)
    requires
        text::utf8_len(s) > max,
    ensures
        query_text::fitting(s, max).len() < s.len(),
        query_text::fitting(s, max) == s.take(query_text::fitting(s, max).len() as int),
        text::utf8_len(s.take(query_text::fitting(s, max).len() as int + 1)) > max,
        text::utf8_len(query_text::fitting(s, max)) + 4 > max,
    decreases s.len(),
{
    let init = s.drop_last();
    if text::utf8_len(init) <= max {
        assert(s.take(init.len() as int + 1) =~= s);
        assert(s.take(init.len() as int) =~= init);
        assert(query_text::fitting(init, max) == init);
    } else {
        lemma_fitting_longest(init, max);
        let n = query_text::fitting(init, max).len() as int;
        assert(init.take(n + 1) =~= s.take(n + 1));
        assert(init.take(n) =~= s.take(n));
    }
}

/// The symbol results of what was found: one for each document with a symbol path, in
/// the order in which the documents were found.
pub proof fn law_symbols_in_order(
    f: IndexFields,
    found: Seq<(TantivyDocument, Option<SourceSpan>)>,
    last: (TantivyDocument, Option<SourceSpan>),
)
    ensures
        ({
            let one = retriever::symbol_of(f, engine::doc_values(last.0), last.1);
            let more = retriever::symbols_of(f, found.push(last));
            &&& one is None ==> more == retriever::symbols_of(f, found)
            &&& one is Some ==> more == retriever::symbols_of(f, found) + seq![one->0]
        }),
        retriever::symbols_of(f, Seq::empty()).len() == 0,
{
    assert(found.push(last).drop_last() =~= found);
    let one = retriever::symbol_of(f, engine::doc_values(last.0), last.1);
    if one is Some {
        assert(retriever::symbols_of(f, found).push(one->0) =~= retriever::symbols_of(f, found)
            + seq![one->0]);
    }
}

/// Entries that are damaged. Without an id that can be read there is no search result
/// and no document; an unknown kind counts as that of Markdown documents in a result,
/// and a document with one, or without a package, is none; a list that cannot be read is
/// empty; and what is not there is an empty text.
pub proof fn law_damaged_entries(
    f: IndexFields,
    values: Seq<(u32, Option<Seq<char>>)>,
    span: Option<SourceSpan>,
)
    ensures
        ({
            let id = engine::first_text(values, f.id);
            let kind = engine::first_text(values, f.source_kind);
            let hit = retriever::hit_of(f, values);
            let read = schema::stored_document(f, values, span);
            let known = kind is Some && (kind->0 == "rustdoc_item"@ || kind->0
                == "rustdoc_module"@ || kind->0 == "crate_readme"@ || kind->0
                == "markdown_document"@);
            &&& (hit is Some) == (id is Some && ids::reads_as_id(id->0))
            &&& hit is Some && !known ==> (hit->0).source_kind is MarkdownDocument
            &&& hit is Some && engine::first_text(values, f.title) is None
                ==> (hit->0).title.len() == 0
            &&& hit is Some && engine::first_text(values, f.section_json) is None
                ==> (hit->0).section_path.len() == 0
            &&& hit is Some && (engine::first_text(values, f.section_json) matches Some(list)
                && json::json_strings(list) is None) ==> (hit->0).section_path.len() == 0
            &&& (read is Some) == (id is Some && ids::reads_as_id(id->0) && known
                && engine::first_text(values, f.package_id) is Some && engine::first_text(
                values,
                f.package_name,
            ) is Some && engine::first_text(values, f.package_version) is Some)
        }),
{
    reveal_strlit("rustdoc_item");
    reveal_strlit("rustdoc_module");
    reveal_strlit("crate_readme");
    reveal_strlit("markdown_document");
    let empty = Seq::<char>::empty();
    assert("rustdoc_item"@.len() == 12 && "rustdoc_module"@.len() == 14);
    assert("crate_readme"@.len() == 12 && "markdown_document"@.len() == 17);
    assert(SourceKind::named(empty) is None);
}

// ---------------------------------------------------------------------------
// The layout
// ---------------------------------------------------------------------------

/// The fields of an index by name: each number is that of the field which is called
/// so.
pub proof fn law_fields_by_name(f: IndexFields, fields: Seq<FieldView>)
    requires
        f.resolved(fields),
    ensures
        fields[f.id as int].name == "id"@,
        fields[f.package_id as int].name == "package_id"@,
        fields[f.package_name as int].name == "package_name"@,
        fields[f.package_name_raw as int].name == "package_name_raw"@,
        fields[f.package_version as int].name == "package_version"@,
        fields[f.package_key as int].name == "package_key"@,
        fields[f.source_kind as int].name == "source_kind"@,
        fields[f.item_kind as int].name == "item_kind"@,
        fields[f.title as int].name == "title"@,
        fields[f.symbol_path as int].name == "symbol_path"@,
        fields[f.symbol_exact as int].name == "symbol_exact"@,
        fields[f.symbol_last as int].name == "symbol_last"@,
        fields[f.section_text as int].name == "section_text"@,
        fields[f.section_json as int].name == "section_json"@,
        fields[f.body as int].name == "body"@,
        fields[f.signature as int].name == "signature"@,
        fields[f.related_text as int].name == "related_text"@,
        fields[f.related_json as int].name == "related_json"@,
        fields[f.source_path as int].name == "source_path"@,
        fields[f.source_span_json as int].name == "source_span_json"@,
{
    assert(f.ids()[0] == f.id && f.ids()[1] == f.package_id && f.ids()[2] == f.package_name);
    assert(f.ids()[3] == f.package_name_raw && f.ids()[4] == f.package_version);
    assert(f.ids()[5] == f.package_key && f.ids()[6] == f.source_kind);
    assert(f.ids()[7] == f.item_kind && f.ids()[8] == f.title && f.ids()[9] == f.symbol_path);
    assert(f.ids()[10] == f.symbol_exact && f.ids()[11] == f.symbol_last);
    assert(f.ids()[12] == f.section_text && f.ids()[13] == f.section_json);
    assert(f.ids()[14] == f.body && f.ids()[15] == f.signature && f.ids()[16] == f.related_text);
    assert(f.ids()[17] == f.related_json && f.ids()[18] == f.source_path);
    assert(f.ids()[19] == f.source_span_json);
}

/// What the fields of the index are for. The text is tokenized with the English
/// stemmer; names, headings, signatures and related items without one, all of them
/// with positions; what filters and lookups compare is one term each; and the rest is
/// stored and cannot be searched.
pub proof fn law_layout(f: IndexFields)
    requires
        f.resolved(schema::index_layout()),
    ensures
        ({
            let layout = schema::index_layout();
            &&& tokenized(layout[f.body as int], "en_stem"@)
            &&& tokenized(layout[f.title as int], "default"@)
            &&& tokenized(layout[f.symbol_path as int], "default"@)
            &&& tokenized(layout[f.section_text as int], "default"@)
            &&& tokenized(layout[f.signature as int], "default"@)
            &&& tokenized(layout[f.related_text as int], "default"@)
            &&& tokenized(layout[f.package_name as int], "default"@)
            &&& one_term(layout[f.id as int])
            &&& one_term(layout[f.package_name_raw as int])
            &&& one_term(layout[f.package_key as int])
            &&& one_term(layout[f.source_kind as int])
            &&& one_term(layout[f.item_kind as int])
            &&& one_term(layout[f.symbol_exact as int])
            &&& one_term(layout[f.symbol_last as int])
            &&& only_stored(layout[f.package_id as int])
            &&& only_stored(layout[f.package_version as int])
            &&& only_stored(layout[f.section_json as int])
            &&& only_stored(layout[f.related_json as int])
            &&& only_stored(layout[f.source_path as int])
            &&& only_stored(layout[f.source_span_json as int])
        }),
{
    schema::law_fields_of_own_schema(f);
    assert(f.ids()[0] == f.id && f.ids()[1] == f.package_id && f.ids()[2] == f.package_name);
    assert(f.ids()[3] == f.package_name_raw && f.ids()[4] == f.package_version);
    assert(f.ids()[5] == f.package_key && f.ids()[6] == f.source_kind);
    assert(f.ids()[7] == f.item_kind && f.ids()[8] == f.title && f.ids()[9] == f.symbol_path);
    assert(f.ids()[10] == f.symbol_exact && f.ids()[11] == f.symbol_last);
    assert(f.ids()[12] == f.section_text && f.ids()[13] == f.section_json);
    assert(f.ids()[14] == f.body && f.ids()[15] == f.signature && f.ids()[16] == f.related_text);
    assert(f.ids()[17] == f.related_json && f.ids()[18] == f.source_path);
    assert(f.ids()[19] == f.source_span_json);
}

/// A field that is tokenized in that way, with positions.
pub open spec fn tokenized(field: FieldView, tokenizer: Seq<char>) -> bool {
    match field.kind {
        FieldKindView::Text(options) => match options.indexing {
            Some(indexing) => indexing.tokenizer == tokenizer
                && indexing.recorded is Positions,
            None => false,
        },
        _ => false,
    }
}

/// A field that is indexed as one term.
pub open spec fn one_term(field: FieldView) -> bool {
    match field.kind {
        FieldKindView::Text(options) => match options.indexing {
            Some(indexing) => indexing.tokenizer == "raw"@,
            None => false,
        },
        _ => false,
    }
}

/// A field that is stored and cannot be searched.
pub open spec fn only_stored(field: FieldView) -> bool {
    match field.kind {
        FieldKindView::Text(options) => options.indexing is None && options.stored,
        _ => false,
    }
}

// ---------------------------------------------------------------------------
// Filters
// ---------------------------------------------------------------------------

/// Whether a spec names a package: its name, or name and version with an at sign
/// between, in any case and with blanks around it.
pub open spec fn says_package(spec: Seq<char>, d: DocumentView) -> bool {
    let said = text::lowercase(text::trim(spec));
    said.len() > 0 && if said.contains('@') {
        said == text::lowercase(d.package.name + "@"@ + d.package.version)
    } else {
        said == text::lowercase(d.package.name)
    }
}

/// Whether a spec names the kind of an item, in any case and with blanks around it.
pub open spec fn says_item_kind(spec: Seq<char>, d: DocumentView) -> bool {
    let said = text::lowercase(text::trim(spec));
    said.len() > 0 && d.item_kind is Some && (d.item_kind->0).len() > 0 && said == text::lowercase(
        d.item_kind->0,
    )
}

/// Some spec names the package.
pub open spec fn some_package_said(specs: Seq<Seq<char>>, d: DocumentView) -> bool {
    exists|i: int| 0 <= i < specs.len() && #[trigger] says_package(specs[i], d)
}

/// Some spec names the kind of the item.
pub open spec fn some_item_kind_said(specs: Seq<Seq<char>>, d: DocumentView) -> bool {
    exists|i: int| 0 <= i < specs.len() && #[trigger] says_item_kind(specs[i], d)
}

/// Whether a document is among those that are asked for: of a package that is named,
/// of a source kind that is listed and of an item kind that is named, where there are
/// such lists.
pub open spec fn wanted_document(
    packages: Seq<Seq<char>>,
    source_kinds: Seq<SourceKind>,
    item_kinds: Seq<Seq<char>>,
    d: DocumentView,
) -> bool {
    &&& packages.len() == 0 || some_package_said(packages, d)
    &&& source_kinds.len() == 0 || source_kinds.contains(d.source_kind)
    &&& item_kinds.len() == 0 || some_item_kind_said(item_kinds, d)
}

/// The filter of a request lets a document through just when it is among those that
/// are asked for.
pub proof fn law_filter_lets_through(
    f: IndexFields,
    packages: Seq<Seq<char>>,
    source_kinds: Seq<SourceKind>,
    item_kinds: Seq<Seq<char>>,
    d: DocumentView,
    span_json: Seq<char>,
    reads: spec_fn(Seq<u32>, Seq<char>) -> bool,
)
    requires
        f.ids().no_duplicates(),
    ensures
        match retriever::filter_view(f, packages, source_kinds, item_kinds) {
            Some(q) => query::matches(q, filter_laws::document_has(f, d, span_json), reads)
                == wanted_document(packages, source_kinds, item_kinds, d),
            None => packages.len() == 0 && source_kinds.len() == 0 && item_kinds.len() == 0,
        },
{
    let has = filter_laws::document_has(f, d, span_json);
    filter_laws::law_filter_selects(f, packages, source_kinds, item_kinds, has, reads);
    assert forall|i: int| 0 <= i < packages.len() implies #[trigger] filter_laws::package_selects(
        f,
        packages[i],
        has,
    ) == says_package(packages[i], d) by {
        filter_laws::law_package_spec_names_packages(f, d, span_json, packages[i]);
    }
    assert forall|i: int| 0 <= i < packages.len() && #[trigger] says_package(
        packages[i],
        d,
    ) implies filter_laws::package_selects(f, packages[i], has) by {
        filter_laws::law_package_spec_names_packages(f, d, span_json, packages[i]);
    }
    assert forall|i: int| 0 <= i < item_kinds.len() implies #[trigger] filter_laws::item_kind_selects(
        f,
        item_kinds[i],
        has,
    ) == says_item_kind(item_kinds[i], d) by {
        filter_laws::law_item_kind_spec_names_kind(f, d, span_json, item_kinds[i]);
    }
    assert forall|i: int| 0 <= i < item_kinds.len() && #[trigger] says_item_kind(
        item_kinds[i],
        d,
    ) implies filter_laws::item_kind_selects(f, item_kinds[i], has) by {
        filter_laws::law_item_kind_spec_names_kind(f, d, span_json, item_kinds[i]);
    }
    assert forall|i: int| 0 <= i < source_kinds.len() implies has(
        f.source_kind,
        (#[trigger] source_kinds[i]).name(),
    ) == (source_kinds[i] == d.source_kind) by {
        schema::lemma_terms(f, d, span_json, 6, source_kinds[i].name());
        assert(f.ids()[6] == f.source_kind);
        assert(schema::leading_values(f, d)[6] == (f.source_kind, Some(d.source_kind.name())));
        document::law_source_kind_round_trip(source_kinds[i]);
        document::law_source_kind_round_trip(d.source_kind);
    }
    if source_kinds.contains(d.source_kind) {
        let i = choose|i: int| 0 <= i < source_kinds.len() && source_kinds[i] == d.source_kind;
        assert(has(f.source_kind, source_kinds[i].name()));
    }
    if filter_laws::any_source_kind_selects(f, source_kinds, has) {
        let i = choose|i: int|
            0 <= i < source_kinds.len() && has(f.source_kind, (#[trigger] source_kinds[i]).name());
        assert(source_kinds[i] == d.source_kind);
    }
}

/// The filter of a search is that of its packages, its source kinds and its item kinds.
pub proof fn law_request_filter(
    f: IndexFields,
    request: SearchQuery,
    d: DocumentView,
    span_json: Seq<char>,
    reads: spec_fn(Seq<u32>, Seq<char>) -> bool,
)
    requires
        f.ids().no_duplicates(),
    ensures
        match retriever::search_filter(f, request) {
            Some(q) => query::matches(q, filter_laws::document_has(f, d, span_json), reads)
                == wanted_document(
                words::texts(request.packages@),
                request.source_kinds@,
                words::texts(request.item_kinds@),
                d,
            ),
            None => request.packages@.len() == 0 && request.source_kinds@.len() == 0
                && request.item_kinds@.len() == 0,
        },
{
    law_filter_lets_through(
        f,
        words::texts(request.packages@),
        request.source_kinds@,
        words::texts(request.item_kinds@),
        d,
        span_json,
        reads,
    );
}

/// With a filter, a search and a lookup find just what the filter lets through: the
/// text and the symbol then say only how much a document counts. A search without
/// text asks for what the filter lets through.
pub proof fn law_filter_decides(
    layout: Seq<FieldView>,
    f: IndexFields,
    wanted: Seq<char>,
    filter: QueryView,
    symbol: Seq<char>,
    packages: Seq<Seq<char>>,
    has: spec_fn(u32, Seq<char>) -> bool,
    reads: spec_fn(Seq<u32>, Seq<char>) -> bool,
)
    requires
        packages.len() > 0,
        text::lowercase(text::trim(symbol)).len() > 0,
    ensures
        query::matches(
            retriever::search_query_view(layout, f, wanted, Some(filter))->0,
            has,
            reads,
        ) == query::matches(filter, has, reads),
        retriever::search_query_view(layout, f, Seq::empty(), None) is None,
        query::matches(retriever::symbol_query_view(f, symbol, packages)->0, has, reads)
            == query::matches(
            retriever::filter_view(f, packages, Seq::empty(), Seq::empty())->0,
            has,
            reads,
        ),
{
    if wanted.len() > 0 {
        let clauses = retriever::search_query_view(layout, f, wanted, Some(filter))->0->clauses;
        let open = retriever::search_query_view(layout, f, wanted, None)->0->clauses;
        lemma_all_should(layout, f, wanted);
        assert(clauses =~= open.push((Occur::Must, filter)));
        lemma_must_decides(open, filter, has, reads);
    }
    let said = text::lowercase(text::trim(symbol));
    let inner = retriever::filter_view(f, packages, Seq::empty(), Seq::empty());
    filter_laws::law_filter_selects(f, packages, Seq::empty(), Seq::empty(), has, reads);
    let clauses = retriever::symbol_query_view(f, symbol, packages)->0->clauses;
    let open = retriever::symbol_clauses(f, said);
    assert(clauses =~= open.push((Occur::Must, inner->0)));
    lemma_lookup_should(f, symbol);
    lemma_must_decides(open, inner->0, has, reads);
}

/// One clause that has to match among others that do not have to.
proof fn lemma_must_decides(
    open: Seq<(Occur, QueryView)>,
    filter: QueryView,
    has: spec_fn(u32, Seq<char>) -> bool,
    reads: spec_fn(Seq<u32>, Seq<char>) -> bool,
)
    requires
        forall|i: int| 0 <= i < open.len() ==> (#[trigger] open[i]).0 is Should,
    ensures
        query::matches(
            QueryView::Boolean { clauses: open.push((Occur::Must, filter)) },
            has,
            reads,
        ) == query::matches(filter, has, reads),
{
    let clauses = open.push((Occur::Must, filter));
    let n = open.len() as int;
    assert(clauses[n] == (Occur::Must, filter));
    if query::matches(filter, has, reads) {
        assert forall|i: int| 0 <= i < clauses.len() && (#[trigger] clauses[i]).0 is Must implies query::matches(
            clauses[i].1,
            has,
            reads,
        ) by {
            if i < n {
                assert(open[i].0 is Should);
            }
        }
        assert(query::matches(QueryView::Boolean { clauses }, has, reads));
    }
    if query::matches(QueryView::Boolean { clauses }, has, reads) {
        assert(clauses[n].0 is Must);
    }
}

// ---------------------------------------------------------------------------
// Query texts
// ---------------------------------------------------------------------------

/// The words of a searchable text are those words of the raw text that hold a letter
/// or a number, in order.
pub proof fn law_searchable_words(raw: Seq<char>)
    ensures
        words::words(query_text::searchable(raw), CharClass::Printable) == words::words(
            raw,
            CharClass::Printable,
        ).filter(
            |w: Seq<char>| exists|i: int| 0 <= i < w.len() && text::alphanumeric(#[trigger] w[i]),
        ),
{
    query_text::law_searchable(raw);
    lemma_worded(words::words(raw, CharClass::Printable));
}

/// Words with a letter or a number are picked out.
proof fn lemma_worded(tokens: Seq<Seq<char>>)
    ensures
        query_text::worded(tokens) == tokens.filter(
            |w: Seq<char>| exists|i: int| 0 <= i < w.len() && text::alphanumeric(#[trigger] w[i]),
        ),
    decreases tokens.len(),
{
    reveal(Seq::filter);
    if tokens.len() > 0 {
        lemma_worded(tokens.drop_last());
        assert(query_text::has_word_char(tokens.last()) == exists|i: int|
            0 <= i < tokens.last().len() && text::alphanumeric(#[trigger] tokens.last()[i]));
    }
}

/// Escaping puts a backslash before each backslash and each asterisk, and changes
/// nothing else.
pub proof fn law_escaping(raw: Seq<char>, c: char)
    ensures
        query_text::escaped(raw.push(c)) == query_text::escaped(raw) + (if c == '\\' || c == '*' {
            seq!['\\', c]
        } else {
            seq![c]
        }),
        query_text::escaped(Seq::empty()).len() == 0,
{
    reveal_strlit("\\\\");
    reveal_strlit("\\*");
    assert("\\\\"@ =~= seq!['\\', '\\']);
    assert("\\*"@ =~= seq!['\\', '*']);
    query_text::lemma_escaped_push(raw, c);
}

} // verus!
