//! What filters let through.
use vstd::prelude::*;
use crate::document::{DocumentView, PackageView, SourceKind};
use crate::query;
use crate::query::{Occur, QueryView};
use crate::tantivy_index::engine;
use crate::tantivy_index::retriever;
use crate::tantivy_index::schema;
use crate::tantivy_index::schema::IndexFields;
use crate::text;

verus! {

// ---------------------------------------------------------------------------
// What the laws speak of
// ---------------------------------------------------------------------------

/// Whether a package spec selects a document with these terms. An empty spec
/// selects none.
pub open spec fn package_selects(
    f: IndexFields,
    raw: Seq<char>,
    has: spec_fn(u32, Seq<char>) -> bool,
) -> bool {
    let spec = retriever::filter_spec(raw);
    spec.len() > 0 && if spec.contains('@') {
        has(f.package_key, spec)
    } else {
        has(f.package_name_raw, spec)
    }
}

/// Whether an item kind spec selects a document with these terms.
pub open spec fn item_kind_selects(
    f: IndexFields,
    raw: Seq<char>,
    has: spec_fn(u32, Seq<char>) -> bool,
) -> bool {
    let spec = retriever::filter_spec(raw);
    spec.len() > 0 && has(f.item_kind, spec)
}

/// Whether some package spec selects a document with these terms.
pub open spec fn any_package_selects(
    f: IndexFields,
    packages: Seq<Seq<char>>,
    has: spec_fn(u32, Seq<char>) -> bool,
) -> bool {
    exists|i: int| 0 <= i < packages.len() && #[trigger] package_selects(f, packages[i], has)
}

/// Whether some item kind spec selects a document with these terms.
pub open spec fn any_item_kind_selects(
    f: IndexFields,
    kinds: Seq<Seq<char>>,
    has: spec_fn(u32, Seq<char>) -> bool,
) -> bool {
    exists|i: int| 0 <= i < kinds.len() && #[trigger] item_kind_selects(f, kinds[i], has)
}

/// Whether some source kind is that of a document with these terms.
pub open spec fn any_source_kind_selects(
    f: IndexFields,
    kinds: Seq<SourceKind>,
    has: spec_fn(u32, Seq<char>) -> bool,
) -> bool {
    exists|i: int| 0 <= i < kinds.len() && has(f.source_kind, (#[trigger] kinds[i]).name())
}

/// Whether a document with these terms passes: each list that is not empty
/// selects it.
pub open spec fn passes(
    f: IndexFields,
    packages: Seq<Seq<char>>,
    source_kinds: Seq<SourceKind>,
    item_kinds: Seq<Seq<char>>,
    has: spec_fn(u32, Seq<char>) -> bool,
) -> bool {
    &&& packages.len() > 0 ==> any_package_selects(f, packages, has)
    &&& source_kinds.len() > 0 ==> any_source_kind_selects(f, source_kinds, has)
    &&& item_kinds.len() > 0 ==> any_item_kind_selects(f, item_kinds, has)
}

/// Some clause matches.
spec fn some_matches(
    clauses: Seq<(Occur, QueryView)>,
    has: spec_fn(u32, Seq<char>) -> bool,
    reads: spec_fn(Seq<u32>, Seq<char>) -> bool,
) -> bool {
    exists|i: int| 0 <= i < clauses.len() && query::matches((#[trigger] clauses[i]).1, has, reads)
}

/// No clause has to match.
spec fn all_should(clauses: Seq<(Occur, QueryView)>) -> bool {
    forall|i: int| 0 <= i < clauses.len() ==> (#[trigger] clauses[i]).0 is Should
}

/// Where no clause has to match, some clause does.
proof fn lemma_should(
    clauses: Seq<(Occur, QueryView)>,
    has: spec_fn(u32, Seq<char>) -> bool,
    reads: spec_fn(Seq<u32>, Seq<char>) -> bool,
)
    requires
        all_should(clauses),
    ensures
        query::matches(QueryView::Boolean { clauses }, has, reads) == some_matches(
            clauses,
            has,
            reads,
        ),
{
    let q = QueryView::Boolean { clauses };
    if some_matches(clauses, has, reads) {
        let i = choose|i: int|
            0 <= i < clauses.len() && query::matches((#[trigger] clauses[i]).1, has, reads);
        assert(clauses[i].0 is Should);
        assert(query::matches(q, has, reads));
    }
    if query::matches(q, has, reads) {
        let i = choose|i: int|
            0 <= i < clauses.len() && ((#[trigger] clauses[i]).0 is Must || query::matches(
                clauses[i].1,
                has,
                reads,
            ));
        assert(clauses[i].0 is Should);
        assert(query::matches(clauses[i].1, has, reads));
    }
}

/// One clause more.
proof fn lemma_some_push(
    clauses: Seq<(Occur, QueryView)>,
    c: (Occur, QueryView),
    has: spec_fn(u32, Seq<char>) -> bool,
    reads: spec_fn(Seq<u32>, Seq<char>) -> bool,
)
    ensures
        some_matches(clauses.push(c), has, reads) == (some_matches(clauses, has, reads)
            || query::matches(c.1, has, reads)),
{
    let more = clauses.push(c);
    if some_matches(clauses, has, reads) {
        let i = choose|i: int|
            0 <= i < clauses.len() && query::matches((#[trigger] clauses[i]).1, has, reads);
        assert(more[i] == clauses[i]);
    }
    if query::matches(c.1, has, reads) {
        assert(more[clauses.len() as int] == c);
    }
    if some_matches(more, has, reads) {
        let i = choose|i: int|
            0 <= i < more.len() && query::matches((#[trigger] more[i]).1, has, reads);
        if i < clauses.len() {
            assert(more[i] == clauses[i]);
        }
    }
}

/// The package group matches what some package spec selects.
proof fn lemma_packages(
    f: IndexFields,
    packages: Seq<Seq<char>>,
    has: spec_fn(u32, Seq<char>) -> bool,
    reads: spec_fn(Seq<u32>, Seq<char>) -> bool,
)
    ensures
        all_should(retriever::package_clauses(f, packages)),
        some_matches(retriever::package_clauses(f, packages), has, reads) == any_package_selects(
            f,
            packages,
            has,
        ),
    decreases packages.len(),
{
    if packages.len() > 0 {
        let init = packages.drop_last();
        let last = packages.last();
        lemma_packages(f, init, has, reads);
        let before = retriever::package_clauses(f, init);
        let spec = retriever::filter_spec(last);
        if spec.len() > 0 {
            lemma_some_push(before, (Occur::Should, retriever::package_term(f, spec)), has, reads);
            assert(query::matches(retriever::package_term(f, spec), has, reads)
                == package_selects(f, last, has));
        } else {
            assert(!package_selects(f, last, has));
        }
        if any_package_selects(f, init, has) {
            let i = choose|i: int|
                0 <= i < init.len() && #[trigger] package_selects(f, init[i], has);
            assert(package_selects(f, packages[i], has));
        }
        if package_selects(f, last, has) {
            assert(package_selects(f, packages[packages.len() - 1], has));
        }
        if any_package_selects(f, packages, has) {
            let i = choose|i: int|
                0 <= i < packages.len() && #[trigger] package_selects(f, packages[i], has);
            if i < init.len() {
                assert(package_selects(f, init[i], has));
            }
        }
    }
}

/// The item kind group matches what some item kind spec selects.
proof fn lemma_item_kinds(
    f: IndexFields,
    kinds: Seq<Seq<char>>,
    has: spec_fn(u32, Seq<char>) -> bool,
    reads: spec_fn(Seq<u32>, Seq<char>) -> bool,
)
    ensures
        all_should(retriever::item_kind_clauses(f, kinds)),
        some_matches(retriever::item_kind_clauses(f, kinds), has, reads) == any_item_kind_selects(
            f,
            kinds,
            has,
        ),
    decreases kinds.len(),
{
    if kinds.len() > 0 {
        let init = kinds.drop_last();
        let last = kinds.last();
        lemma_item_kinds(f, init, has, reads);
        let before = retriever::item_kind_clauses(f, init);
        let spec = retriever::filter_spec(last);
        if spec.len() > 0 {
            let c = (Occur::Should, query::term_view(f.item_kind, spec));
            lemma_some_push(before, c, has, reads);
            assert(query::matches(c.1, has, reads) == item_kind_selects(f, last, has));
        } else {
            assert(!item_kind_selects(f, last, has));
        }
        if any_item_kind_selects(f, init, has) {
            let i = choose|i: int|
                0 <= i < init.len() && #[trigger] item_kind_selects(f, init[i], has);
            assert(item_kind_selects(f, kinds[i], has));
        }
        if item_kind_selects(f, last, has) {
            assert(item_kind_selects(f, kinds[kinds.len() - 1], has));
        }
        if any_item_kind_selects(f, kinds, has) {
            let i = choose|i: int|
                0 <= i < kinds.len() && #[trigger] item_kind_selects(f, kinds[i], has);
            if i < init.len() {
                assert(item_kind_selects(f, init[i], has));
            }
        }
    }
}

/// The source kind group matches the documents of those kinds.
proof fn lemma_source_kinds(
    f: IndexFields,
    kinds: Seq<SourceKind>,
    has: spec_fn(u32, Seq<char>) -> bool,
    reads: spec_fn(Seq<u32>, Seq<char>) -> bool,
)
    ensures
        all_should(retriever::source_kind_clauses(f, kinds)),
        some_matches(retriever::source_kind_clauses(f, kinds), has, reads)
            == any_source_kind_selects(f, kinds, has),
{
    let clauses = retriever::source_kind_clauses(f, kinds);
    assert forall|i: int| 0 <= i < kinds.len() implies query::matches(
        (#[trigger] clauses[i]).1,
        has,
        reads,
    ) == has(f.source_kind, kinds[i].name()) by {}
    if any_source_kind_selects(f, kinds, has) {
        let i = choose|i: int|
            0 <= i < kinds.len() && has(f.source_kind, (#[trigger] kinds[i]).name());
        assert(query::matches(clauses[i].1, has, reads));
    }
    if some_matches(clauses, has, reads) {
        let i = choose|i: int|
            0 <= i < clauses.len() && query::matches((#[trigger] clauses[i]).1, has, reads);
        assert(has(f.source_kind, kinds[i].name()));
    }
}

// ---------------------------------------------------------------------------
// The laws
// ---------------------------------------------------------------------------

/// There is a filter just when some list is not empty, and it matches a document
/// just when the document passes every list that is not empty.
pub proof fn law_filter_selects(
    f: IndexFields,
    packages: Seq<Seq<char>>,
    source_kinds: Seq<SourceKind>,
    item_kinds: Seq<Seq<char>>,
    has: spec_fn(u32, Seq<char>) -> bool,
    reads: spec_fn(Seq<u32>, Seq<char>) -> bool,
)
    ensures
        match retriever::filter_view(f, packages, source_kinds, item_kinds) {
            Some(q) => query::matches(q, has, reads) == passes(
                f,
                packages,
                source_kinds,
                item_kinds,
                has,
            ),
            None => packages.len() == 0 && source_kinds.len() == 0 && item_kinds.len() == 0,
        },
        packages.len() == 0 && source_kinds.len() == 0 && item_kinds.len() == 0
            ==> retriever::filter_view(f, packages, source_kinds, item_kinds) is None,
{
    let p = retriever::any_of(retriever::package_clauses(f, packages));
    let s = retriever::any_of(retriever::source_kind_clauses(f, source_kinds));
    let k = retriever::any_of(retriever::item_kind_clauses(f, item_kinds));
    lemma_packages(f, packages, has, reads);
    lemma_source_kinds(f, source_kinds, has, reads);
    lemma_item_kinds(f, item_kinds, has, reads);
    lemma_should(retriever::package_clauses(f, packages), has, reads);
    lemma_should(retriever::source_kind_clauses(f, source_kinds), has, reads);
    lemma_should(retriever::item_kind_clauses(f, item_kinds), has, reads);
    let groups = retriever::filter_groups(f, packages, source_kinds, item_kinds);
    let n = (if packages.len() > 0 {
        1int
    } else {
        0
    });
    let m = n + (if source_kinds.len() > 0 {
        1int
    } else {
        0
    });
    if packages.len() > 0 {
        assert(groups[0] == p);
    }
    if source_kinds.len() > 0 {
        assert(groups[n] == s);
    }
    if item_kinds.len() > 0 {
        assert(groups[m] == k);
    }
    if groups.len() > 1 {
        let q = QueryView::Boolean { clauses: groups };
        assert forall|i: int| 0 <= i < groups.len() implies (#[trigger] groups[i]).0 is Must && (
        groups[i] == p || groups[i] == s || groups[i] == k) by {
            if i < n {
            } else if i < m {
            } else {
                assert(i == m);
            }
        }
        assert(groups[0].0 is Must);
        if passes(f, packages, source_kinds, item_kinds, has) {
            assert forall|i: int| 0 <= i < groups.len() && (#[trigger] groups[i]).0 is Must implies query::matches(
                groups[i].1,
                has,
                reads,
            ) by {
                if i < n {
                } else if i < m {
                    assert(i == n);
                } else {
                    assert(i == m);
                }
            }
            assert(query::matches(q, has, reads));
        }
        if query::matches(q, has, reads) {
            assert(passes(f, packages, source_kinds, item_kinds, has));
        }
    }
}

/// Garbage never widens: where no package spec selects a document, a filter with
/// packages does not match it, whatever else the filter holds. So a filter of
/// empty specs alone matches nothing.
pub proof fn law_garbage_never_widens(
    f: IndexFields,
    packages: Seq<Seq<char>>,
    source_kinds: Seq<SourceKind>,
    item_kinds: Seq<Seq<char>>,
    has: spec_fn(u32, Seq<char>) -> bool,
    reads: spec_fn(Seq<u32>, Seq<char>) -> bool,
)
    requires
        (packages.len() > 0 && !any_package_selects(f, packages, has)) || (item_kinds.len() > 0
            && !any_item_kind_selects(f, item_kinds, has)),
    ensures
        retriever::filter_view(f, packages, source_kinds, item_kinds) is Some,
        !query::matches(
            retriever::filter_view(f, packages, source_kinds, item_kinds)->0,
            has,
            reads,
        ),
{
    law_filter_selects(f, packages, source_kinds, item_kinds, has, reads);
}

/// Specs that are nothing but white space select no document.
pub proof fn law_blank_specs_select_nothing(
    f: IndexFields,
    specs: Seq<Seq<char>>,
    has: spec_fn(u32, Seq<char>) -> bool,
)
    requires
        forall|i: int| 0 <= i < specs.len() ==> text::trim(#[trigger] specs[i]).len() == 0,
    ensures
        !any_package_selects(f, specs, has),
        !any_item_kind_selects(f, specs, has),
{
    assert forall|i: int| 0 <= i < specs.len() implies !(#[trigger] package_selects(
        f,
        specs[i],
        has,
    )) && !item_kind_selects(f, specs[i], has) by {
        let t = text::trim(specs[i]);
        assert(t.len() == 0);
        assert(text::lowercase(t).len() == 0);
    }
    assert forall|i: int| 0 <= i < specs.len() implies !(#[trigger] item_kind_selects(
        f,
        specs[i],
        has,
    )) by {
        let t = text::trim(specs[i]);
        assert(t.len() == 0);
        assert(text::lowercase(t).len() == 0);
    }
}

/// A valid spec beside garbage keeps its meaning: a spec that does not select a
/// document changes nothing about whether it passes.
pub proof fn law_garbage_beside_valid(
    f: IndexFields,
    packages: Seq<Seq<char>>,
    garbage: Seq<char>,
    source_kinds: Seq<SourceKind>,
    item_kinds: Seq<Seq<char>>,
    has: spec_fn(u32, Seq<char>) -> bool,
    reads: spec_fn(Seq<u32>, Seq<char>) -> bool,
)
    requires
        packages.len() > 0,
        !package_selects(f, garbage, has),
    ensures
        retriever::filter_view(f, packages.push(garbage), source_kinds, item_kinds) is Some,
        retriever::filter_view(f, packages, source_kinds, item_kinds) is Some,
        query::matches(
            retriever::filter_view(f, packages.push(garbage), source_kinds, item_kinds)->0,
            has,
            reads,
        ) == query::matches(
            retriever::filter_view(f, packages, source_kinds, item_kinds)->0,
            has,
            reads,
        ),
{
    let more = packages.push(garbage);
    law_filter_selects(f, packages, source_kinds, item_kinds, has, reads);
    law_filter_selects(f, more, source_kinds, item_kinds, has, reads);
    if any_package_selects(f, packages, has) {
        let i = choose|i: int|
            0 <= i < packages.len() && #[trigger] package_selects(f, packages[i], has);
        assert(package_selects(f, more[i], has));
    }
    if any_package_selects(f, more, has) {
        let i = choose|i: int| 0 <= i < more.len() && #[trigger] package_selects(f, more[i], has);
        assert(i < packages.len());
        assert(package_selects(f, packages[i], has));
    }
}

/// The terms that a document has: in the untokenized fields, the texts it was
/// put into the index with.
pub open spec fn document_has(
    f: IndexFields,
    d: DocumentView,
    span_json: Seq<char>,
) -> spec_fn(u32, Seq<char>) -> bool {
    |field: u32, t: Seq<char>| schema::document_values(f, d, span_json).contains((field, Some(t)))
}

/// Whether a package spec names a package: by name, or by name and version, in any
/// case. An empty spec names none.
pub open spec fn spec_names(raw: Seq<char>, package: PackageView) -> bool {
    let spec = retriever::filter_spec(raw);
    spec.len() > 0 && if spec.contains('@') {
        spec == text::lowercase(package.display())
    } else {
        spec == text::lowercase(package.name)
    }
}

/// A package spec selects exactly the documents of the packages it names.
pub proof fn law_package_spec_names_packages(
    f: IndexFields,
    d: DocumentView,
    span_json: Seq<char>,
    raw: Seq<char>,
)
    requires
        f.ids().no_duplicates(),
    ensures
        package_selects(f, raw, document_has(f, d, span_json)) == spec_names(raw, d.package),
{
    let spec = retriever::filter_spec(raw);
    let has = document_has(f, d, span_json);
    schema::lemma_terms(f, d, span_json, 3, spec);
    schema::lemma_terms(f, d, span_json, 5, spec);
    assert(f.ids()[3] == f.package_name_raw && f.ids()[5] == f.package_key);
    assert(schema::leading_values(f, d)[3] == (
        f.package_name_raw,
        Some(text::lowercase(d.package.name)),
    ));
    assert(schema::leading_values(f, d)[5] == (
        f.package_key,
        Some(text::lowercase(d.package.display())),
    ));
}

/// An item kind spec selects exactly the documents of that kind, in any case; so
/// documents without an item kind are never selected.
pub proof fn law_item_kind_spec_names_kind(
    f: IndexFields,
    d: DocumentView,
    span_json: Seq<char>,
    raw: Seq<char>,
)
    requires
        f.ids().no_duplicates(),
    ensures
        item_kind_selects(f, raw, document_has(f, d, span_json)) == {
            let spec = retriever::filter_spec(raw);
            spec.len() > 0 && match schema::non_empty(d.item_kind) {
                Some(kind) => spec == text::lowercase(kind),
                None => false,
            }
        },
{
    schema::lemma_item_kind_terms(f, d, span_json, retriever::filter_spec(raw));
}

/// Some clause that has to match does not: the whole does not match.
proof fn lemma_must(
    clauses: Seq<(Occur, QueryView)>,
    k: int,
    has: spec_fn(u32, Seq<char>) -> bool,
    reads: spec_fn(Seq<u32>, Seq<char>) -> bool,
)
    requires
        0 <= k < clauses.len(),
        clauses[k].0 is Must,
        query::matches(QueryView::Boolean { clauses }, has, reads),
    ensures
        query::matches(clauses[k].1, has, reads),
{
}

/// What a search finds passes its filter.
pub proof fn law_search_within_filter(
    layout: Seq<engine::FieldView>,
    f: IndexFields,
    wanted: Seq<char>,
    filter: QueryView,
    has: spec_fn(u32, Seq<char>) -> bool,
    reads: spec_fn(Seq<u32>, Seq<char>) -> bool,
)
    requires
        query::matches(
            retriever::search_query_view(layout, f, wanted, Some(filter))->0,
            has,
            reads,
        ),
    ensures
        query::matches(filter, has, reads),
{
    if wanted.len() > 0 {
        let q = retriever::search_query_view(layout, f, wanted, Some(filter))->0;
        let clauses = q->clauses;
        assert(clauses.last() == (Occur::Must, filter));
        lemma_must(clauses, clauses.len() - 1, has, reads);
    }
}

/// A search with garbage beside valid package specs: a spec that does not name the
/// package of a document changes nothing about whether the search finds it, and
/// whatever the search finds is of a package that some valid spec names.
pub proof fn law_search_garbage_beside_valid(
    layout: Seq<engine::FieldView>,
    f: IndexFields,
    wanted: Seq<char>,
    packages: Seq<Seq<char>>,
    garbage: Seq<char>,
    source_kinds: Seq<SourceKind>,
    item_kinds: Seq<Seq<char>>,
    d: DocumentView,
    span_json: Seq<char>,
    reads: spec_fn(Seq<u32>, Seq<char>) -> bool,
)
    requires
        f.ids().no_duplicates(),
        packages.len() > 0,
        !spec_names(garbage, d.package),
    ensures
        ({
            let has = document_has(f, d, span_json);
            let valid = retriever::search_query_view(
                layout,
                f,
                wanted,
                retriever::filter_view(f, packages, source_kinds, item_kinds),
            );
            let mixed = retriever::search_query_view(
                layout,
                f,
                wanted,
                retriever::filter_view(f, packages.push(garbage), source_kinds, item_kinds),
            );
            &&& valid is Some && mixed is Some
            &&& query::matches(mixed->0, has, reads) == query::matches(valid->0, has, reads)
            &&& query::matches(valid->0, has, reads) ==> exists|i: int|
                0 <= i < packages.len() && #[trigger] spec_names(packages[i], d.package)
        }),
{
    let has = document_has(f, d, span_json);
    let one = retriever::filter_view(f, packages, source_kinds, item_kinds);
    let two = retriever::filter_view(f, packages.push(garbage), source_kinds, item_kinds);
    law_package_spec_names_packages(f, d, span_json, garbage);
    law_garbage_beside_valid(f, packages, garbage, source_kinds, item_kinds, has, reads);
    law_filter_selects(f, packages, source_kinds, item_kinds, has, reads);
    let valid = retriever::search_query_view(layout, f, wanted, one)->0;
    let mixed = retriever::search_query_view(layout, f, wanted, two)->0;
    if wanted.len() > 0 {
        let a = valid->clauses;
        let b = mixed->clauses;
        lemma_same_but_last(a, b, has, reads);
        lemma_same_but_last(b, a, has, reads);
    }
    if query::matches(valid, has, reads) {
        law_search_within_filter(layout, f, wanted, one->0, has, reads);
        let i = choose|i: int|
            0 <= i < packages.len() && #[trigger] package_selects(f, packages[i], has);
        law_package_spec_names_packages(f, d, span_json, packages[i]);
        assert(spec_names(packages[i], d.package));
    }
}

/// Clauses that differ only in the last one, which has to match in both, and which
/// matches in one just when it does in the other.
proof fn lemma_same_but_last(
    a: Seq<(Occur, QueryView)>,
    b: Seq<(Occur, QueryView)>,
    has: spec_fn(u32, Seq<char>) -> bool,
    reads: spec_fn(Seq<u32>, Seq<char>) -> bool,
)
    requires
        a.len() == b.len() > 0,
        forall|i: int| 0 <= i < a.len() - 1 ==> a[i] == b[i],
        a.last().0 is Must,
        b.last().0 is Must,
        query::matches(a.last().1, has, reads) == query::matches(b.last().1, has, reads),
    ensures
        query::matches(QueryView::Boolean { clauses: a }, has, reads) ==> query::matches(
            QueryView::Boolean { clauses: b },
            has,
            reads,
        ),
{
    if query::matches(QueryView::Boolean { clauses: a }, has, reads) {
        let n = a.len() - 1;
        assert(a[n].0 is Must);
        assert(b[n].0 is Must);
        assert forall|i: int| 0 <= i < b.len() && (#[trigger] b[i]).0 is Must implies query::matches(
            b[i].1,
            has,
            reads,
        ) by {
            assert(a[i].0 is Must);
            assert(query::matches(a[i].1, has, reads));
        }
    }
}

/// What a symbol lookup finds is of the packages it asks for.
pub proof fn law_symbols_within_packages(
    f: IndexFields,
    symbol: Seq<char>,
    packages: Seq<Seq<char>>,
    has: spec_fn(u32, Seq<char>) -> bool,
    reads: spec_fn(Seq<u32>, Seq<char>) -> bool,
)
    requires
        packages.len() > 0,
        retriever::symbol_query_view(f, symbol, packages) is Some,
        query::matches(retriever::symbol_query_view(f, symbol, packages)->0, has, reads),
    ensures
        any_package_selects(f, packages, has),
{
    let none_kinds = Seq::<SourceKind>::empty();
    let none_items = Seq::<Seq<char>>::empty();
    law_filter_selects(f, packages, none_kinds, none_items, has, reads);
    let filter = retriever::filter_view(f, packages, none_kinds, none_items);
    let q = retriever::symbol_query_view(f, symbol, packages)->0;
    let clauses = q->clauses;
    assert(clauses.last() == (Occur::Must, filter->0));
    lemma_must(clauses, clauses.len() - 1, has, reads);
}

/// A blank symbol asks for nothing.
pub proof fn law_blank_symbol_asks_nothing(f: IndexFields, symbol: Seq<char>, packages: Seq<Seq<char>>)
    requires
        text::trim(symbol).len() == 0,
    ensures
        retriever::symbol_query_view(f, symbol, packages) is None,
{
    let t = text::trim(symbol);
    assert(text::lowercase(t).len() == 0);
}

/// The query for an id matches the document with that id and no other.
pub proof fn law_id_finds_document(
    f: IndexFields,
    d: DocumentView,
    span_json: Seq<char>,
    id: Seq<char>,
    reads: spec_fn(Seq<u32>, Seq<char>) -> bool,
)
    requires
        f.ids().no_duplicates(),
    ensures
        query::matches(query::term_view(f.id, id), document_has(f, d, span_json), reads) == (d.id
            == id),
{
    schema::lemma_terms(f, d, span_json, 0, id);
    assert(f.ids()[0] == f.id);
    assert(schema::leading_values(f, d)[0] == (f.id, Some(d.id)));
}

/// A lookup of a symbol by its path, or by the last segment of it, matches its
/// document; the case, and blanks around it, do not matter.
pub proof fn law_symbol_found(
    f: IndexFields,
    d: DocumentView,
    span_json: Seq<char>,
    symbol: Seq<char>,
    reads: spec_fn(Seq<u32>, Seq<char>) -> bool,
)
    requires
        d.symbol_path is Some,
        retriever::filter_spec(symbol).len() > 0,
        retriever::filter_spec(symbol) == text::lowercase(d.symbol_path->0)
            || retriever::filter_spec(symbol) == text::lowercase(
            schema::last_segment(d.symbol_path->0),
        ),
    ensures
        retriever::symbol_query_view(f, symbol, Seq::empty()) is Some,
        query::matches(
            retriever::symbol_query_view(f, symbol, Seq::empty())->0,
            document_has(f, d, span_json),
            reads,
        ),
{
    let wanted = retriever::filter_spec(symbol);
    let has = document_has(f, d, span_json);
    let values = schema::document_values(f, d, span_json);
    let n: int = (schema::leading_values(f, d).len() + schema::kind_values(f, d).len()) as int;
    let trail = schema::trailing_values(f, d, span_json);
    assert(values[n + 2] == trail[2] && values[n + 3] == trail[3]);
    let none = Seq::<Seq<char>>::empty();
    assert(retriever::filter_view(f, none, Seq::empty(), none) is None) by {
        law_filter_selects(f, none, Seq::empty(), none, has, reads);
    }
    let clauses = retriever::symbol_query_view(f, symbol, none)->0->clauses;
    assert(clauses[0] == (Occur::Should, query::boosted_view(f.symbol_exact, wanted, 100)));
    assert(clauses[1] == (Occur::Should, query::boosted_view(f.symbol_last, wanted, 50)));
    assert forall|i: int| 0 <= i < clauses.len() implies (#[trigger] clauses[i]).0 is Should by {}
    let k: int = if wanted == text::lowercase(d.symbol_path->0) {
        0
    } else {
        1
    };
    assert(query::matches(clauses[k].1, has, reads)) by {
        reveal_with_fuel(query::matches, 3);
    }
}

} // verus!
