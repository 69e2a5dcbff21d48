//! What the frontends show, answer, record and log.
use vstd::prelude::*;
use crate::cli;
use crate::cli::PackageRow;
use crate::corpus;
use crate::corpus::{CorpusReport, PackageInput};
use crate::discovery;
use crate::document;
use crate::document::{DocumentView, HitView, KnowledgeDocument, PackageIdentity};
use crate::document::{SearchHit, SourceKind, SymbolInfo, SymbolView};
use crate::error::{IndexError, KnowledgeError};
use crate::ids::DocumentId;
use crate::markdown;
use crate::markdown::{EventView, MarkdownEvent, MarkdownFile};
use crate::order;
use crate::paths;
use crate::pieces;
use crate::pipeline;
use crate::pipeline::{IndexOptions, WorkspaceFacts};
use crate::query;
use crate::query::{Clause, Query, QueryView};
use crate::server;
use crate::server::{KnowledgeSearchParams, KnowledgeServer, SearchResult};
use crate::store::IndexMeta;
use crate::tantivy_index::filter_laws;
use crate::tantivy_index::query_text;
use crate::tantivy_index::retriever;
use crate::tantivy_index::schema;
use crate::tantivy_index::search_laws;
use crate::telemetry;
use crate::telemetry::LogFormat;
use crate::text;
use crate::text_laws;
use crate::words;

verus! {

// ---------------------------------------------------------------------------
// What the laws speak of
// ---------------------------------------------------------------------------

/// A text stands somewhere in another.
#[verifier::opaque]
pub open spec fn within(s: Seq<char>, part: Seq<char>) -> bool {
    exists|i: int|
        0 <= i <= s.len() - part.len() && #[trigger] s.subrange(i, i + part.len()) == part
}

/// What stands between two texts stands in the whole.
proof fn lemma_within(whole: Seq<char>, before: Seq<char>, part: Seq<char>, behind: Seq<char>)
    requires
        whole == before + part + behind,
    ensures
        within(whole, part),
{
    reveal(within);
    let i = before.len() as int;
    assert(whole.subrange(i, i + part.len()) =~= part);
}

/// What stands at the end, or is the whole, stands in it.
proof fn lemma_within_end(before: Seq<char>, part: Seq<char>)
    ensures
        within(before + part, part),
        within(part, part),
{
    let none = Seq::<char>::empty();
    assert(before + part =~= before + part + none);
    lemma_within(before + part, before, part, none);
    assert(part =~= none + part + none);
    lemma_within(part, none, part, none);
}

/// What stands in a part stands in the whole.
proof fn lemma_within_more(before: Seq<char>, s: Seq<char>, behind: Seq<char>, part: Seq<char>)
    requires
        within(s, part),
    ensures
        within(before + s + behind, part),
        within(before + s, part),
        within(s + behind, part),
{
    reveal(within);
    let i = choose|i: int|
        0 <= i <= s.len() - part.len() && #[trigger] s.subrange(i, i + part.len()) == part;
    let n = before.len() as int;
    assert((before + s + behind).subrange(n + i, n + i + part.len()) =~= part);
    assert((before + s).subrange(n + i, n + i + part.len()) =~= part);
    assert((s + behind).subrange(i, i + part.len()) =~= part);
}

// ---------------------------------------------------------------------------
// Documents
// ---------------------------------------------------------------------------

/// What is shown of packages and documents, of results and of inputs is what they
/// hold, field by field.
pub proof fn law_views(
    package: PackageIdentity,
    d: KnowledgeDocument,
    hit: SearchHit,
    info: SymbolInfo,
    input: PackageInput,
    file: MarkdownFile,
)
    ensures
        package@.package_id == package.package_id@,
        package@.name == package.name@,
        package@.version == package.version@,
        package@.manifest_path == package.manifest_path@,
        package.source is Some ==> package@.source == Some((package.source->0)@),
        d@.id == d.id@,
        d@.package == d.package@,
        d@.source_kind == d.source_kind,
        d@.title == d.title@,
        d@.text == d.text@,
        d@.source_span == d.source_span,
        d.symbol_path is Some ==> d@.symbol_path == Some((d.symbol_path->0)@),
        d.item_kind is Some ==> d@.item_kind == Some((d.item_kind->0)@),
        d.source_path is Some ==> d@.source_path == Some((d.source_path->0)@),
        d.signature is Some ==> d@.signature == Some((d.signature->0)@),
        d@.section_path.len() == d.section_path@.len(),
        forall|i: int|
            0 <= i < d.section_path@.len() ==> #[trigger] d@.section_path[i] == d.section_path@[i]@,
        d@.related_symbols.len() == d.related_symbols@.len(),
        forall|i: int|
            0 <= i < d.related_symbols@.len() ==> #[trigger] d@.related_symbols[i]
                == d.related_symbols@[i]@,
        hit@.id == hit.id@,
        hit@.package_name == hit.package_name@,
        hit@.package_version == hit.package_version@,
        hit@.source_kind == hit.source_kind,
        hit@.title == hit.title@,
        hit@.snippet == hit.snippet@,
        info@.id == info.id@,
        info@.package_name == info.package_name@,
        info@.package_version == info.package_version@,
        info@.kind == info.kind@,
        info@.symbol_path == info.symbol_path@,
        info@.snippet == info.snippet@,
        info@.source_span == info.source_span,
        input@.package == input.identity@,
        input@.origin == input.origin,
        input@.files.len() == input.files@.len(),
        forall|i: int|
            0 <= i < input.files@.len() ==> (#[trigger] input@.files[i]).0 == input.files@[i].0@
                && (input.files@[i].1 is None ==> input@.files[i].1 is None) && (
            input.files@[i].1 is Some ==> input@.files[i].1 == Some((input.files@[i].1->0)@)),
        file@.rel_path == file.rel_path@,
        file@.abs_path == file.abs_path@,
        file@.kind == file.kind,
{
}

/// What is shown of events and queries tells them apart: an event that holds text
/// shows that text, and a query its field, its text and its factor.
pub proof fn law_views_of_events_and_queries(
    t: String,
    level: u8,
    field: u32,
    factor: u32,
    inner: Box<Query>,
    fields: Vec<u32>,
    clauses: Vec<Clause>,
)
    ensures
        (Query::Boolean { clauses })@ is Boolean,
        (Query::Boolean { clauses })@->clauses.len() == clauses@.len(),
        forall|i: int|
            0 <= i < clauses@.len() ==> #[trigger] (Query::Boolean { clauses })@->clauses[i] == (
                clauses@[i].occur,
                clauses@[i].query@,
            ),
        MarkdownEvent::HeadingStart(level)@ == EventView::HeadingStart(level),
        MarkdownEvent::HeadingEnd@ is HeadingEnd,
        MarkdownEvent::ParagraphStart@ is ParagraphStart,
        MarkdownEvent::ParagraphEnd@ is ParagraphEnd,
        MarkdownEvent::ListStart@ is ListStart,
        MarkdownEvent::ListEnd@ is ListEnd,
        MarkdownEvent::CodeStart@ is CodeStart,
        MarkdownEvent::CodeEnd@ is CodeEnd,
        MarkdownEvent::ItemStart@ is ItemStart,
        MarkdownEvent::SoftLine@ is SoftLine,
        MarkdownEvent::HardLine@ is HardLine,
        MarkdownEvent::Content(t)@ == EventView::Content(t@),
        MarkdownEvent::InlineCode(t)@ == EventView::InlineCode(t@),
        MarkdownEvent::Markup(t)@ == EventView::Markup(t@),
        MarkdownEvent::InlineMarkup(t)@ == EventView::InlineMarkup(t@),
        (Query::Term { field, text: t })@ == (QueryView::Term { field, text: t@ }),
        (Query::Parsed { fields, text: t })@ == (QueryView::Parsed { fields: fields@, text: t@ }),
        (Query::Boost { query: inner, factor })@ == (QueryView::Boost {
            query: Box::new((*inner)@),
            factor,
        }),
{
    reveal_with_fuel(Query::shown, 2);
}

/// What lists show is what their members show, one for one and in order.
pub proof fn law_views_of_lists(
    docs: Seq<KnowledgeDocument>,
    inputs: Seq<PackageInput>,
    infos: Seq<SymbolInfo>,
    files: Seq<MarkdownFile>,
    events: Seq<(MarkdownEvent, usize, usize)>,
    entries: Seq<(String, Option<u64>)>,
    skipped: Seq<(String, String)>,
    texts: Seq<String>,
)
    ensures
        document::document_views(docs).len() == docs.len(),
        forall|i: int|
            0 <= i < docs.len() ==> #[trigger] document::document_views(docs)[i] == docs[i]@,
        corpus::input_views(inputs).len() == inputs.len(),
        forall|i: int|
            0 <= i < inputs.len() ==> #[trigger] corpus::input_views(inputs)[i] == inputs[i]@,
        corpus::package_views(inputs).len() == inputs.len(),
        forall|i: int|
            0 <= i < inputs.len() ==> #[trigger] corpus::package_views(inputs)[i]
                == inputs[i].identity@,
        retriever::symbol_views(infos).len() == infos.len(),
        forall|i: int|
            0 <= i < infos.len() ==> #[trigger] retriever::symbol_views(infos)[i] == infos[i]@,
        discovery::file_views(files).len() == files.len(),
        forall|i: int|
            0 <= i < files.len() ==> #[trigger] discovery::file_views(files)[i] == files[i]@,
        markdown::event_views(events).len() == events.len(),
        forall|i: int|
            0 <= i < events.len() ==> #[trigger] markdown::event_views(events)[i] == (
                events[i].0@,
                events[i].1,
                events[i].2,
            ),
        discovery::entry_views(entries).len() == entries.len(),
        forall|i: int|
            0 <= i < entries.len() ==> #[trigger] discovery::entry_views(entries)[i] == (
                entries[i].0@,
                entries[i].1,
            ),
        cli::skipped_views(skipped).len() == skipped.len(),
        forall|i: int|
            0 <= i < skipped.len() ==> #[trigger] cli::skipped_views(skipped)[i] == (
                skipped[i].0@,
                skipped[i].1@,
            ),
        words::texts(texts).len() == texts.len(),
        forall|i: int| 0 <= i < texts.len() ==> #[trigger] words::texts(texts)[i] == texts[i]@,
{
}

/// The names of the source kinds, and no other text is one.
pub proof fn law_source_kind_names(s: Seq<char>)
    ensures
        SourceKind::named("rustdoc_item"@) == Some(SourceKind::RustdocItem),
        SourceKind::named("rustdoc_module"@) == Some(SourceKind::RustdocModule),
        SourceKind::named("crate_readme"@) == Some(SourceKind::CrateReadme),
        SourceKind::named("markdown_document"@) == Some(SourceKind::MarkdownDocument),
        SourceKind::named(s) matches Some(kind) ==> s == kind.name(),
{
    document::law_source_kind_round_trip(SourceKind::RustdocItem);
    document::law_source_kind_round_trip(SourceKind::RustdocModule);
    document::law_source_kind_round_trip(SourceKind::CrateReadme);
    document::law_source_kind_round_trip(SourceKind::MarkdownDocument);
}

/// A package is shown as its name and version with an at sign between, and a document
/// with its package and its kind in brackets.
pub proof fn law_provenance(d: DocumentView)
    ensures
        d.package.display() == d.package.name + seq!['@'] + d.package.version,
        d.provenance() == d.package.name + seq!['@'] + d.package.version + seq![' ', '[']
            + d.source_kind.name() + seq![']'],
{
    reveal_strlit("@");
    reveal_strlit(" [");
    reveal_strlit("]");
    assert("@"@ =~= seq!['@']);
    assert(" ["@ =~= seq![' ', '[']);
    assert("]"@ =~= seq![']']);
}

/// What names a document: the path of its symbol; without one its headings, outermost
/// first and an angle bracket between them; without these its title.
pub proof fn law_context(
    symbol: Seq<char>,
    sections: Seq<Seq<char>>,
    last: Seq<char>,
    title: Seq<char>,
)
    ensures
        document::context_of(Some(symbol), sections, title) == symbol,
        document::context_of(None, Seq::empty(), title) == title,
        document::context_of(None, seq![last], title) == last,
        sections.len() > 0 ==> document::context_of(None, sections.push(last), title)
            == document::context_of(None, sections, title) + seq![' ', '>', ' '] + last,
{
    reveal_strlit(" > ");
    assert(" > "@ =~= seq![' ', '>', ' ']);
    assert(sections.push(last).drop_last() =~= sections);
}

// ---------------------------------------------------------------------------
// Tools
// ---------------------------------------------------------------------------

/// The limit that is granted: what is asked for between one and fifty, else the nearer
/// of the two; the default where nothing is asked for.
pub proof fn law_granted_limit(asked: usize, default: usize)
    ensures
        1 <= asked <= 50 ==> server::granted_limit(Some(asked), default) == asked,
        asked == 0 ==> server::granted_limit(Some(asked), default) == 1,
        asked > 50 ==> server::granted_limit(Some(asked), default) == 50,
        server::granted_limit(None, default) == server::granted_limit(Some(default), default),
        server::granted_limit(None, server::SEARCH_LIMIT) == 8,
        server::granted_limit(None, server::SYMBOL_LIMIT) == 5,
        document::DEFAULT_SEARCH_LIMIT == 8,
        cli::SYMBOL_LIMIT == 10,
{
}

/// Source kinds are taken over one for one: each is the one with the name that was
/// given.
pub proof fn law_kinds_by_name(names: Seq<String>, i: int)
    requires
        server::all_known(names),
        0 <= i < names.len(),
    ensures
        server::kinds_of(names).len() == names.len(),
        server::kinds_of(names)[i].name() == names[i]@,
    decreases names.len(),
{
    let init = names.drop_last();
    assert forall|k: int| 0 <= k < init.len() implies SourceKind::named(
        (#[trigger] init[k])@,
    ) is Some by {
        assert(SourceKind::named(names[k]@) is Some);
    }
    assert(SourceKind::named(names[names.len() - 1]@) is Some);
    server::law_kinds_known_or_refused(names);
    server::law_kinds_known_or_refused(init);
    if i < init.len() {
        law_kinds_by_name(init, i);
    }
    law_source_kind_names(names.last()@);
}

/// Lists are taken over as they are, and no list is the empty one.
pub proof fn law_asked_list(list: Vec<String>, i: int)
    requires
        0 <= i < list@.len(),
    ensures
        server::asked_list(Some(list)).len() == list@.len(),
        server::asked_list(Some(list))[i] == list@[i]@,
        server::asked_list(None).len() == 0,
{
}

/// A tool call asks for the documents of its packages, its source kinds and its item
/// kinds, where it names any: its filter lets just those through.
pub proof fn law_tool_filter(
    tools: KnowledgeServer,
    params: KnowledgeSearchParams,
    d: DocumentView,
    span_json: Seq<char>,
    reads: spec_fn(Seq<u32>, Seq<char>) -> bool,
)
    requires
        tools.reads().field_numbers().ids().no_duplicates(),
        params.source_kinds is None,
    ensures
        ({
            let packages = if params.packages is Some {
                words::texts((params.packages->0)@)
            } else {
                Seq::empty()
            };
            let kinds = if params.item_kinds is Some {
                words::texts((params.item_kinds->0)@)
            } else {
                Seq::empty()
            };
            match tools.asked_filter(params) {
                Some(q) => query::matches(
                    q,
                    filter_laws::document_has(tools.reads().field_numbers(), d, span_json),
                    reads,
                ) == search_laws::wanted_document(packages, Seq::empty(), kinds, d),
                None => packages.len() == 0 && kinds.len() == 0,
            }
        }),
{
    search_laws::law_filter_lets_through(
        tools.reads().field_numbers(),
        server::asked_list(params.packages),
        server::kinds_of(server::asked_kinds(params)),
        server::asked_list(params.item_kinds),
        d,
        span_json,
        reads,
    );
    assert(server::kinds_of(server::asked_kinds(params)) =~= Seq::<SourceKind>::empty());
}

/// The source kinds of a tool call are those that it lists.
pub proof fn law_tool_source_kinds(
    tools: KnowledgeServer,
    params: KnowledgeSearchParams,
    i: int,
)
    requires
        params.source_kinds is Some,
        server::all_known((params.source_kinds->0)@),
        0 <= i < (params.source_kinds->0)@.len(),
    ensures
        ({
            let kinds = server::kinds_of(server::asked_kinds(params));
            &&& kinds.len() == (params.source_kinds->0)@.len()
            &&& kinds[i].name() == (params.source_kinds->0)@[i]@
            &&& tools.asked_filter(params) == retriever::filter_view(
                tools.reads().field_numbers(),
                server::asked_list(params.packages),
                kinds,
                server::asked_list(params.item_kinds),
            )
        }),
{
    law_kinds_by_name((params.source_kinds->0)@, i);
}

/// The message about source kinds names the first that is not known.
pub proof fn law_first_unknown_kind(names: Seq<String>, message: Seq<char>, k: int)
    requires
        server::names_first_unknown(names, message),
        0 <= k < names.len(),
        SourceKind::named(names[k]@) is None,
        forall|i: int| 0 <= i < k ==> SourceKind::named((#[trigger] names[i])@) is Some,
    ensures
        within(message, names[k]@),
{
    let n = choose|n: int|
        #![trigger names[n]]
        0 <= n < names.len() && SourceKind::named(names[n]@) is None && server::all_known(
            names.take(n),
        ) && message == server::unknown_kind(names[n]@);
    if k < n {
        assert(names.take(n)[k] == names[k]);
    }
    lemma_within_end("unknown source kind: "@, names[k]@);
}

/// What is answered shows the hit: id, package, version, kind, what names it, and the
/// snippet.
pub proof fn law_answer_shows_hit(result: SearchResult, hit: SearchHit)
    requires
        server::answers(result, hit),
    ensures
        result.id@ == hit.id@,
        result.package@ == hit.package_name@,
        result.version@ == hit.package_version@,
        result.kind@ == hit.source_kind.name(),
        hit.symbol_path is Some ==> result.context@ == (hit.symbol_path->0)@,
        hit.symbol_path is None && hit.section_path@.len() == 0 ==> result.context@ == hit.title@,
        hit.symbol_path is None && hit.section_path@.len() > 0 ==> result.context@ == words::join(
            words::texts(hit.section_path@),
            " > "@,
        ),
        result.snippet@ == hit.snippet@,
{
}

/// Messages name what they are about.
pub proof fn law_messages(name: Seq<char>, error: Seq<char>)
    ensures
        within(server::unknown_kind(name), name),
        within(server::search_failed(error), error),
        within(server::not_an_id(name), name),
        within(server::read_failed(name, error), name),
        within(server::read_failed(name, error), error),
        within(cli::unknown_scope(name), cli::debug_text(name)),
        within(schema::missing_message(name), name),
{
    let quoted = "\": "@ + ("The field does not exist: '"@ + name + "'"@);
    assert(schema::missing_message(name) =~= "index schema field \""@ + name + quoted);
    lemma_within(schema::missing_message(name), "index schema field \""@, name, quoted);
    let none = Seq::<char>::empty();
    lemma_within_end("unknown source kind: "@, name);
    let stale = ". The index may be stale; run rust-knowledge index."@;
    lemma_within(server::search_failed(error), "search failed: "@, error, stale);
    let hint = " is not a valid document id; use the id exactly as returned by knowledge_search"@;
    assert(server::not_an_id(name) =~= none + name + hint);
    lemma_within(server::not_an_id(name), none, name, hint);
    let all = server::read_failed(name, error);
    assert(all =~= "no document with id "@ + name + (": "@ + error + stale));
    lemma_within(all, "no document with id "@, name, ": "@ + error + stale);
    lemma_within(all, "no document with id "@ + name + ": "@, error, stale);
    lemma_within(
        cli::unknown_scope(name),
        "unknown rustdoc scope "@,
        cli::debug_text(name),
        ": use workspace, all or none"@,
    );
}

/// An index of another version is refused with its path, its version and the one that
/// can be read.
pub proof fn law_version_error(path: String, index: u32, supported: u32)
    ensures
        ({
            let shown = KnowledgeError::SchemaVersion { path, index, supported }.text();
            &&& within(shown, path@)
            &&& within(shown, "schema version "@ + pieces::decimal(index as nat))
            &&& within(shown, "supported is "@ + pieces::decimal(supported as nat))
        }),
{
    let none = Seq::<char>::empty();
    let v = KnowledgeError::SchemaVersion { path, index, supported }.text();
    let a = pieces::decimal(index as nat);
    let b = pieces::decimal(supported as nat);
    let at = "index at "@;
    let version = " has schema version "@;
    let read = ", supported is "@;
    assert(v == at + path@ + version + a + read + b);
    let rest = version + a + read + b;
    assert(v =~= at + path@ + rest);
    lemma_within(v, at, path@, rest);
    lemma_endings();
    let has = seq![' ', 'h', 'a', 's', ' '];
    let comma = seq![',', ' '];
    let front = at + path@ + has;
    assert(v =~= front + ("schema version "@ + a) + (read + b)) by {
        assert(version == has + "schema version "@);
    }
    lemma_within(v, front, "schema version "@ + a, read + b);
    let all = at + path@ + version + a + comma;
    assert(v =~= all + ("supported is "@ + b) + none) by {
        assert(read == comma + "supported is "@);
    }
    lemma_within(v, all, "supported is "@ + b, none);
}

/// The ends of two texts.
proof fn lemma_endings()
    ensures
        " has schema version "@ == seq![' ', 'h', 'a', 's', ' '] + "schema version "@,
        ", supported is "@ == seq![',', ' '] + "supported is "@,
{
    reveal_strlit(" has schema version ");
    reveal_strlit("schema version ");
    reveal_strlit(", supported is ");
    reveal_strlit("supported is ");
    assert(" has schema version "@ =~= seq![' ', 'h', 'a', 's', ' '] + "schema version "@);
    assert(", supported is "@ =~= seq![',', ' '] + "supported is "@);
}

/// A document that is not there is named by its id, and what the engine says is passed
/// on.
pub proof fn law_lookup_errors(id: DocumentId, message: String)
    ensures
        within(KnowledgeError::DocumentNotFound(id).text(), id@),
        KnowledgeError::Engine(message).text() == message@,
        IndexError::Engine(message).text() == message@,
{
    lemma_within_end("document not found: "@, id@);
}

/// What Cargo says is passed on, and so are a path or a package with the reason.
pub proof fn law_index_errors(path: String, message: String)
    ensures
        within(IndexError::CargoMetadata { message }.text(), message@),
        within(IndexError::Io { path, message }.text(), path@ + ": "@ + message@),
        within(
            IndexError::RustdocFailed { spec: path, reason: message }.text(),
            path@ + ": "@ + message@,
        ),
{
    let m = message@;
    let colon = ": "@;
    let failed = "rustdoc failed for "@;
    lemma_within_end("cargo metadata failed: "@, m);
    let io = path@ + colon + m;
    lemma_within_end(failed, io);
    assert(failed + path@ + colon + m =~= failed + io);
}

// ---------------------------------------------------------------------------
// The package table
// ---------------------------------------------------------------------------

/// The larger of a length and a width.
pub open spec fn column(len: nat, width: nat) -> int {
    if len < width {
        width as int
    } else {
        len as int
    }
}

/// A line of the package table: name, version, origin and features in columns of
/// twenty-four, twelve, ten and twenty-eight characters with a blank behind each, then
/// the manifest. Without features there is a dash.
#[verifier::rlimit(40)]
pub proof fn law_row(row: PackageRow)
    ensures
        ({
            let line = cli::row_line(row);
            let features = if row.features@.len() == 0 {
                seq!['-']
            } else {
                row.features@
            };
            let a = column(row.name@.len(), 24) + 1;
            let b = a + column(row.version@.len(), 12) + 1;
            let c = b + column(row.origin@.len(), 10) + 1;
            let d = c + column(features.len(), 28) + 1;
            &&& line.len() == d + row.manifest_path@.len() + 1
            &&& line.subrange(0, row.name@.len() as int) == row.name@
            &&& line.subrange(a, a + row.version@.len()) == row.version@
            &&& line.subrange(b, b + row.origin@.len()) == row.origin@
            &&& line.subrange(c, c + features.len()) == features
            &&& line.subrange(d, d + row.manifest_path@.len()) == row.manifest_path@
            &&& line.last() == '\n'
            &&& line[a - 1] == ' ' && line[b - 1] == ' ' && line[c - 1] == ' ' && line[d - 1] == ' '
        }),
{
    reveal_strlit(" ");
    reveal_strlit("-");
    reveal_strlit("\n");
    assert(" "@ =~= seq![' ']);
    assert("-"@ =~= seq!['-']);
    assert("\n"@ =~= seq!['\n']);
    let features = if row.features@.len() == 0 {
        "-"@
    } else {
        row.features@
    };
    let name = cli::left(row.name@, 24);
    let version = cli::left(row.version@, 12);
    let origin = cli::left(row.origin@, 10);
    let shown = cli::left(features, 28);
    let line = cli::row_line(row);
    let a: int = name.len() as int + 1;
    let b: int = a + version.len() + 1;
    let c: int = b + origin.len() + 1;
    let d: int = c + shown.len() + 1;
    assert(name.len() == column(row.name@.len(), 24));
    assert(version.len() == column(row.version@.len(), 12));
    assert(origin.len() == column(row.origin@.len(), 10));
    assert(shown.len() == column(features.len(), 28));
    assert(line.subrange(0, row.name@.len() as int) =~= row.name@);
    assert(line.subrange(a, a + row.version@.len()) =~= row.version@);
    assert(line.subrange(b, b + row.origin@.len()) =~= row.origin@);
    assert(line.subrange(c, c + features.len()) =~= features);
    assert(line.subrange(d, d + row.manifest_path@.len()) =~= row.manifest_path@);
}

/// The heading of the table names the columns where they stand.
#[verifier::rlimit(40)]
pub proof fn law_table_heading()
    ensures
        cli::table_heading().subrange(0, 7) == "PACKAGE"@,
        cli::table_heading().subrange(25, 32) == "VERSION"@,
        cli::table_heading().subrange(38, 44) == "ORIGIN"@,
        cli::table_heading().subrange(49, 57) == "FEATURES"@,
        cli::table_heading().skip(78) == "PATH\n"@,
{
    reveal_strlit("PACKAGE");
    reveal_strlit("VERSION");
    reveal_strlit("ORIGIN");
    reveal_strlit("FEATURES");
    reveal_strlit(" ");
    reveal_strlit(" PATH\n");
    reveal_strlit("PATH\n");
    let a = cli::left("PACKAGE"@, 24);
    let b = cli::left("VERSION"@, 12);
    let c = cli::left("ORIGIN"@, 10);
    let d = cli::left("FEATURES"@, 28);
    assert(a.len() == 24 && b.len() == 12 && c.len() == 10 && d.len() == 28);
    let all = cli::table_heading();
    assert(all.subrange(0, 7) =~= "PACKAGE"@);
    assert(all.subrange(25, 32) =~= "VERSION"@);
    assert(all.subrange(38, 44) =~= "ORIGIN"@);
    assert(all.subrange(49, 57) =~= "FEATURES"@);
    assert(all.skip(78) =~= "PATH\n"@);
}

/// Every package has its line in the table, and the lines are sorted by name, then by
/// version.
pub proof fn law_table(rows: Seq<PackageRow>, k: usize, i: int, j: int)
    requires
        rows.len() <= usize::MAX,
        k < rows.len(),
        0 <= i < j < rows.len(),
    ensures
        ({
            let at = order::sorted_order(cli::row_keys(rows));
            let a = rows[at[i] as int];
            let b = rows[at[j] as int];
            &&& at.len() == rows.len()
            &&& within(cli::table_lines(rows, at), cli::row_line(rows[k as int]))
            &&& !order::text_less(b.name@, a.name@)
            &&& a.name@ == b.name@ ==> !order::text_less(b.version@, a.version@)
        }),
{
    let keys = cli::row_keys(rows);
    let at = order::sorted_order(keys);
    order::lemma_sorted_order(keys);
    assert(at.contains(k));
    let n = choose|n: int| 0 <= n < at.len() && at[n] == k;
    lemma_table_line(rows, at, n);
    assert(order::goes_before(keys, at[i] as int, at[j] as int));
    let a = rows[at[i] as int];
    let b = rows[at[j] as int];
    let x = keys[at[i] as int];
    let y = keys[at[j] as int];
    assert(x =~= seq![a.name@, a.version@]);
    assert(y =~= seq![b.name@, b.version@]);
    order::lemma_key_less_asymmetric(x, y);
    order::lemma_text_less_asymmetric(b.name@, a.name@);
    order::lemma_text_less_asymmetric(b.version@, a.version@);
    assert(x.drop_first() =~= seq![a.version@]);
    assert(y.drop_first() =~= seq![b.version@]);
    reveal_with_fuel(order::key_less, 3);
}

/// The line of each row that is listed stands in the table.
proof fn lemma_table_line(rows: Seq<PackageRow>, at: Seq<usize>, n: int)
    requires
        0 <= n < at.len(),
    ensures
        within(cli::table_lines(rows, at), cli::row_line(rows[at[n] as int])),
    decreases at.len(),
{
    let init = at.drop_last();
    let before = cli::table_lines(rows, init);
    let line = cli::row_line(rows[at.last() as int]);
    let none = Seq::<char>::empty();
    if n == init.len() {
        lemma_within_end(before, line);
    } else {
        lemma_table_line(rows, init, n);
        lemma_within_more(none, before, line, cli::row_line(rows[at[n] as int]));
    }
}

// ---------------------------------------------------------------------------
// Texts for people
// ---------------------------------------------------------------------------

/// The lines above a document: its id, where it is from and what names it; and, where
/// the document has them, its signature, its file with the lines, and what it refers
/// to.
pub proof fn law_header(d: DocumentView)
    ensures
        ({
            let h = cli::header_of(d);
            let from = d.package.name + "@"@ + d.package.version + " ["@ + d.source_kind.name()
                + "]"@;
            &&& within(h, "id: "@ + d.id + "\nfrom: "@ + from + "\ncontext: "@ + d.context()
                + "\n"@)
            &&& d.signature is Some ==> within(h, "signature: "@ + d.signature->0 + "\n"@)
            &&& d.source_path is Some && d.source_span is Some ==> within(
                h,
                "source: "@ + d.source_path->0 + ":"@ + pieces::decimal(
                    (d.source_span->0).start_line as nat,
                ) + "-"@ + pieces::decimal((d.source_span->0).end_line as nat) + "\n"@,
            )
            &&& d.related_symbols.len() > 0 ==> within(
                h,
                "related: "@ + words::join(d.related_symbols, ", "@) + "\n"@,
            )
        }),
{
    let none = Seq::<char>::empty();
    let h = cli::header_of(d);
    let from = d.package.name + "@"@ + d.package.version + " ["@ + d.source_kind.name() + "]"@;
    let top = "id: "@ + d.id + "\nfrom: "@ + from + "\ncontext: "@ + d.context() + "\n"@;
    let signature = match d.signature {
        Some(signature) => "signature: "@ + signature + "\n"@,
        None => none,
    };
    let source = match (d.source_path, d.source_span) {
        (Some(path), Some(span)) => "source: "@ + path + ":"@ + pieces::decimal(
            span.start_line as nat,
        ) + "-"@ + pieces::decimal(span.end_line as nat) + "\n"@,
        _ => none,
    };
    let related = if d.related_symbols.len() > 0 {
        "related: "@ + words::join(d.related_symbols, ", "@) + "\n"@
    } else {
        none
    };
    assert(d.provenance() =~= from);
    assert(h =~= none + top + (signature + source + related));
    lemma_within(h, none, top, signature + source + related);
    assert(h =~= top + signature + (source + related));
    lemma_within(h, top, signature, source + related);
    assert(h =~= (top + signature) + source + related);
    lemma_within(h, top + signature, source, related);
    assert(h =~= (top + signature + source) + related + none);
    lemma_within(h, top + signature + source, related, none);
}

/// A dumped document shows its header and its text, all of it up to 1200 bytes.
pub proof fn law_dump(d: DocumentView)
    ensures
        within(cli::document_block(d), cli::header_of(d)),
        text::utf8_len(d.text) <= 1200 ==> within(cli::document_block(d), d.text + "\n"@),
{
    let none = Seq::<char>::empty();
    let block = cli::document_block(d);
    let rule = "--------------------------------------------------\n"@;
    let shown = cli::dumped(d.text);
    let h = cli::header_of(d);
    assert(block =~= rule + h + (shown + "\n"@));
    lemma_within(block, rule, h, shown + "\n"@);
    assert(block =~= (rule + h) + (shown + "\n"@) + none);
    lemma_within(block, rule + h, shown + "\n"@, none);
}

/// A longer text is dumped up to what fits into 1200 bytes, and three dots behind it.
pub proof fn law_long_dump(s: Seq<char>) -> (n: int)
    requires
        text::utf8_len(s) > 1200,
    ensures
        0 <= n <= s.len(),
        text::utf8_len(s.take(n)) <= 1200,
        n < s.len() && text::utf8_len(s.take(n + 1)) > 1200,
        cli::dumped(s) == text::trim_end(s.take(n)) + seq!['.', '.', '.'],
{
    reveal_strlit("...");
    assert("..."@ =~= seq!['.', '.', '.']);
    query_text::lemma_fitting_fits(s, 1200);
    search_laws::lemma_fitting_longest(s, 1200);
    query_text::fitting(s, 1200).len() as int
}

/// A listing shows every document that it lists, in order.
pub proof fn law_listing(docs: Seq<DocumentView>, d: DocumentView, k: int)
    requires
        0 <= k < docs.len(),
    ensures
        within(cli::listing(docs), cli::document_block(docs[k])),
        cli::listing(docs.push(d)) == cli::listing(docs) + cli::document_block(d),
    decreases docs.len(),
{
    assert(docs.push(d).drop_last() =~= docs);
    let none = Seq::<char>::empty();
    let init = docs.drop_last();
    let before = cli::listing(init);
    let block = cli::document_block(docs.last());
    if k == init.len() {
        lemma_within_end(before, block);
    } else {
        law_listing(init, d, k);
        lemma_within_more(none, before, block, cli::document_block(docs[k]));
    }
}

/// What is listed of a package: every document of it and of no other; and all
/// documents where no package is asked for.
pub proof fn law_listed(docs: Seq<DocumentView>, id: Seq<char>, d: DocumentView)
    ensures
        cli::listed(docs, Some(id)).contains(d) == (docs.contains(d) && d.package.package_id == id),
        cli::listed(docs, None) == docs,
    decreases docs.len(),
{
    reveal(Seq::filter);
    if docs.len() > 0 {
        let init = docs.drop_last();
        law_listed(init, id, d);
        let all = cli::listed(docs, Some(id));
        let before = cli::listed(init, Some(id));
        if init.contains(d) {
            let i = choose|i: int| 0 <= i < init.len() && init[i] == d;
            assert(docs[i] == d);
        }
        if before.contains(d) {
            let i = choose|i: int| 0 <= i < before.len() && before[i] == d;
            assert(all[i] == d);
        }
        if docs.contains(d) && !init.contains(d) {
            let i = choose|i: int| 0 <= i < docs.len() && docs[i] == d;
            if i < init.len() {
                assert(init[i] == d);
            }
            if d.package.package_id == id {
                assert(all[before.len() as int] == d);
            }
        }
        if all.contains(d) {
            let i = choose|i: int| 0 <= i < all.len() && all[i] == d;
            if i < before.len() {
                assert(before[i] == d);
            } else {
                assert(docs[docs.len() - 1] == d);
            }
        }
    }
}

/// A hit is printed with its number, its package and version, what names it, its kind,
/// its id, and its snippet in one line.
pub proof fn law_hit_text(number: nat, hit: HitView)
    ensures
        ({
            let t = cli::hit_text(number, hit);
            &&& within(
                t,
                pieces::decimal(number) + ". "@ + hit.package_name + "@"@ + hit.package_version
                    + "\n   "@ + document::context_of(
                    hit.symbol_path,
                    hit.section_path,
                    hit.title,
                ),
            )
            &&& within(t, "["@ + hit.source_kind.name() + "]\n"@)
            &&& within(t, "id: "@ + hit.id + "\n"@)
            &&& within(t, one_line(hit.snippet) + "\n"@)
        }),
{
    let none = Seq::<char>::empty();
    let t = cli::hit_text(number, hit);
    let context = document::context_of(hit.symbol_path, hit.section_path, hit.title);
    let top = pieces::decimal(number) + ". "@ + hit.package_name + "@"@ + hit.package_version
        + "\n   "@ + context;
    reveal_strlit(" ");
    assert(" "@ =~= seq![' ']);
    lemma_one_line(hit.snippet);
    let snippet = one_line(hit.snippet);
    reveal_strlit("\n   [");
    reveal_strlit("[");
    reveal_strlit("]\n");
    reveal_strlit("id: ");
    reveal_strlit("]\n   id: ");
    reveal_strlit("\n\n   ");
    reveal_strlit("\n");
    reveal_strlit("\n\n");
    let gap = seq!['\n', ' ', ' ', ' '];
    let blanks = seq![' ', ' ', ' '];
    assert("\n   ["@ =~= gap + "["@);
    assert("]\n   id: "@ =~= "]\n"@ + blanks + "id: "@);
    assert("\n\n   "@ =~= "\n"@ + gap);
    assert("\n\n"@ =~= "\n"@ + "\n"@);
    let kind = hit.source_kind.name();
    let rest = "\n   ["@ + kind + "]\n   id: "@ + hit.id + "\n\n   "@ + snippet + "\n\n"@;
    assert(t =~= none + top + rest);
    lemma_within(t, none, top, rest);
    let tail = blanks + "id: "@ + hit.id + "\n\n   "@ + snippet + "\n\n"@;
    assert(t =~= (top + gap) + ("["@ + kind + "]\n"@) + tail);
    lemma_within(t, top + gap, "["@ + kind + "]\n"@, tail);
    let front = top + gap + "["@ + kind + "]\n"@ + blanks;
    let back = gap + snippet + "\n\n"@;
    assert(t =~= front + ("id: "@ + hit.id + "\n"@) + back);
    lemma_within(t, front, "id: "@ + hit.id + "\n"@, back);
    let all = top + "\n   ["@ + kind + "]\n   id: "@ + hit.id + "\n\n   "@;
    assert(t =~= all + (snippet + "\n"@) + "\n"@);
    lemma_within(t, all, snippet + "\n"@, "\n"@);
}

/// A text with blanks for its newlines.
pub open spec fn one_line(s: Seq<char>) -> Seq<char> {
    s.map_values(
        |c: char| if c == '\n' {
            ' '
        } else {
            c
        },
    )
}

/// Newlines become blanks.
proof fn lemma_one_line(s: Seq<char>)
    ensures
        pieces::replace_each(s, '\n', seq![' ']) == one_line(s),
{
    text_laws::law_replace_char(s, '\n', ' ');
    assert(pieces::replace_each(s, '\n', seq![' ']) =~= one_line(s));
}

/// A symbol is printed with its number, its package and version, its kind and path, its
/// signature where it has one, its id, and its snippet in one line.
pub proof fn law_symbol_text(number: nat, info: SymbolView)
    ensures
        ({
            let t = cli::symbol_text(number, info);
            &&& within(
                t,
                pieces::decimal(number) + ". "@ + info.package_name + "@"@ + info.package_version
                    + " ["@ + info.kind + "] "@ + info.symbol_path + "\n"@,
            )
            &&& info.signature is Some ==> within(t, "   "@ + info.signature->0 + "\n"@)
            &&& within(t, "   id: "@ + info.id + "\n   "@ + one_line(info.snippet) + "\n\n"@)
        }),
{
    let none = Seq::<char>::empty();
    let t = cli::symbol_text(number, info);
    reveal_strlit(" ");
    assert(" "@ =~= seq![' ']);
    lemma_one_line(info.snippet);
    let top = pieces::decimal(number) + ". "@ + info.package_name + "@"@ + info.package_version
        + " ["@ + info.kind + "] "@ + info.symbol_path + "\n"@;
    let signature = match info.signature {
        Some(signature) => "   "@ + signature + "\n"@,
        None => none,
    };
    let rest = "   id: "@ + info.id + "\n   "@ + one_line(info.snippet) + "\n\n"@;
    assert(t =~= none + top + (signature + rest));
    lemma_within(t, none, top, signature + rest);
    assert(t =~= top + signature + rest);
    lemma_within(t, top, signature, rest);
    assert(t =~= (top + signature) + rest + none);
    lemma_within(t, top + signature, rest, none);
}

/// Results are printed in order and numbered from one.
pub proof fn law_results_numbered(
    hits: Seq<SearchHit>,
    hit: SearchHit,
    infos: Seq<SymbolInfo>,
    info: SymbolInfo,
)
    ensures
        cli::hits_text(Seq::empty()).len() == 0,
        cli::hits_text(hits.push(hit)) == cli::hits_text(hits) + cli::hit_text(
            hits.len() + 1,
            hit@,
        ),
        cli::symbols_text(Seq::empty()).len() == 0,
        cli::symbols_text(infos.push(info)) == cli::symbols_text(infos) + cli::symbol_text(
            infos.len() + 1,
            info@,
        ),
{
    assert(hits.push(hit).drop_last() =~= hits);
    assert(infos.push(info).drop_last() =~= infos);
}

/// Every package that was skipped and every warning has its line.
pub proof fn law_notes(
    mark: Seq<char>,
    skipped: Seq<(Seq<char>, Seq<char>)>,
    warnings: Seq<Seq<char>>,
    i: int,
    j: int,
)
    requires
        0 <= i < skipped.len(),
        0 <= j < warnings.len(),
    ensures
        within(
            cli::skipped_lines(mark, skipped),
            mark + "skipped "@ + skipped[i].0 + ": "@ + skipped[i].1 + "\n"@,
        ),
        within(cli::warning_lines(mark, warnings), mark + "warning: "@ + warnings[j] + "\n"@),
{
    lemma_skipped_line(mark, skipped, i);
    lemma_warning_line(mark, warnings, j);
}

/// A package that was skipped has its line.
proof fn lemma_skipped_line(mark: Seq<char>, skipped: Seq<(Seq<char>, Seq<char>)>, i: int)
    requires
        0 <= i < skipped.len(),
    ensures
        within(
            cli::skipped_lines(mark, skipped),
            mark + "skipped "@ + skipped[i].0 + ": "@ + skipped[i].1 + "\n"@,
        ),
    decreases skipped.len(),
{
    let none = Seq::<char>::empty();
    let init = skipped.drop_last();
    let before = cli::skipped_lines(mark, init);
    let last = skipped.last();
    let line = mark + "skipped "@ + last.0 + ": "@ + last.1 + "\n"@;
    if i == init.len() {
        lemma_within_end(before, line);
    } else {
        lemma_skipped_line(mark, init, i);
        lemma_within_more(
            none,
            before,
            line,
            mark + "skipped "@ + skipped[i].0 + ": "@ + skipped[i].1 + "\n"@,
        );
    }
}

/// A warning has its line.
proof fn lemma_warning_line(mark: Seq<char>, warnings: Seq<Seq<char>>, j: int)
    requires
        0 <= j < warnings.len(),
    ensures
        within(cli::warning_lines(mark, warnings), mark + "warning: "@ + warnings[j] + "\n"@),
    decreases warnings.len(),
{
    let none = Seq::<char>::empty();
    let init = warnings.drop_last();
    let before = cli::warning_lines(mark, init);
    let line = mark + "warning: "@ + warnings.last() + "\n"@;
    if j == init.len() {
        lemma_within_end(before, line);
    } else {
        lemma_warning_line(mark, init, j);
        lemma_within_more(none, before, line, mark + "warning: "@ + warnings[j] + "\n"@);
    }
}

/// An index is that of the corpus where its root ends in the path of the corpus;
/// slashes at the end of that path do not matter.
pub proof fn law_same_corpus(front: Seq<char>, corpus: Seq<char>, root: Seq<char>)
    requires
        corpus.len() > 0,
        corpus.last() != '/',
    ensures
        cli::same_corpus(corpus, front + corpus),
        cli::same_corpus(corpus + seq!['/'], root) == cli::same_corpus(corpus, root),
        cli::same_corpus(corpus, root) ==> root.len() >= corpus.len() && root.skip(
            root.len() - corpus.len(),
        ) == corpus,
{
    reveal_strlit("/");
    assert("/"@ =~= seq!['/']);
    assert(corpus.skip(corpus.len() - 1)[0] == corpus.last());
    assert(!pieces::has_suffix(corpus, seq!['/']));
    text_laws::law_strip_suffixes(corpus, seq!['/']);
    let all = front + corpus;
    assert(all.skip(all.len() - corpus.len()) =~= corpus);
}

// ---------------------------------------------------------------------------
// What is recorded
// ---------------------------------------------------------------------------

/// What is recorded of an indexing run is what it was given and what it gave: the
/// workspace, the hash of its lock file, the fingerprint, the versions, the toolchain,
/// the scope, the counts, the time, what was skipped and what was warned of.
pub proof fn law_recorded(
    meta: IndexMeta,
    facts: WorkspaceFacts,
    options: IndexOptions,
    report: CorpusReport,
    documents: nat,
    seconds: u64,
)
    requires
        pipeline::recorded(meta, facts, options, report, documents, Some(seconds)),
    ensures
        meta.schema_version == 1,
        meta.workspace_root@ == facts.workspace_root@,
        facts.lock_hash is Some ==> meta.lock_hash is Some && (meta.lock_hash->0)@ == (
        facts.lock_hash->0)@,
        facts.lock_hash is None ==> meta.lock_hash is None,
        meta.metadata_fingerprint@ == facts.fingerprint@,
        report.cargo_version is Some ==> meta.cargo_version is Some && (meta.cargo_version->0)@ == (
        report.cargo_version->0)@,
        options.toolchain is Some ==> meta.toolchain is Some && (meta.toolchain->0)@ == (
        options.toolchain->0)@,
        options.toolchain is None ==> meta.toolchain is None,
        meta.rustdoc_format_version == report.rustdoc_format_version,
        options.skip_rustdoc ==> meta.rustdoc_scope@ == "None"@,
        !options.skip_rustdoc && options.rustdoc_scope is Workspace ==> meta.rustdoc_scope@
            == "Workspace"@,
        !options.skip_rustdoc && options.rustdoc_scope is All ==> meta.rustdoc_scope@ == "All"@,
        !options.skip_rustdoc && options.rustdoc_scope is MarkdownOnly ==> meta.rustdoc_scope@
            == "None"@,
        meta.package_count == report.packages,
        meta.document_count == documents,
        text_laws::number(meta.built_at@) == seconds,
        meta.skipped@ == report.skipped@,
        meta.warnings@.len() == report.warnings@.len(),
        forall|i: int|
            0 <= i < meta.warnings@.len() ==> (#[trigger] meta.warnings@[i])@
                == report.warnings@[i]@,
{
    text_laws::law_decimal_reads_back(seconds as nat);
    let a = words::texts(meta.warnings@);
    let b = words::texts(report.warnings@);
    assert(a.len() == meta.warnings@.len() && b.len() == report.warnings@.len());
    assert forall|i: int| 0 <= i < meta.warnings@.len() implies (#[trigger] meta.warnings@[i])@
        == report.warnings@[i]@ by {
        assert(a[i] == meta.warnings@[i]@ && b[i] == report.warnings@[i]@);
    }
}

/// Where the index of a workspace lies: where it is said, else below the workspace.
/// Without documentation of items the scope is that of Markdown alone.
pub proof fn law_plan(root: Seq<char>, dir: &str, options: IndexOptions)
    ensures
        pipeline::dir_of(root, Some(dir)) == dir@,
        pipeline::dir_of(root, None) == paths::joined(root, ".rust-knowledge"@),
        options.skip_rustdoc ==> pipeline::scope_of(options) is MarkdownOnly,
        !options.skip_rustdoc ==> pipeline::scope_of(options) == options.rustdoc_scope,
        text_laws::number(pipeline::time_text(None)) == 0,
{
    text_laws::law_decimal_reads_back(0);
}

// ---------------------------------------------------------------------------
// Logging
// ---------------------------------------------------------------------------

/// The first variable that is set and not blank says the filter, trimmed, where its
/// directive is accepted; nothing is merged.
pub proof fn law_accepted_filter(
    own: Seq<char>,
    common: Seq<char>,
    other: Option<Seq<char>>,
    blank: Option<Seq<char>>,
    verbose: bool,
)
    requires
        blank is None || text::trim(blank->0).len() == 0,
    ensures
        text::trim(own).len() > 0 && telemetry::refused(text::trim(own)) is None ==> {
            let filter = telemetry::resolved(Some(own), other, verbose);
            &&& filter.directive == text::trim(own)
            &&& filter.source is RustKnowledgeLog
            &&& filter.malformed is None
        },
        text::trim(common).len() > 0 && telemetry::refused(text::trim(common)) is None ==> {
            let filter = telemetry::resolved(blank, Some(common), verbose);
            &&& filter.directive == text::trim(common)
            &&& filter.source is RustLog
            &&& filter.malformed is None
        },
{
}

/// Without a variable the filter is the built-in one: information, and warnings alone
/// of two libraries; verbose, what is for debugging too.
pub proof fn law_default_filter(own: Option<Seq<char>>, common: Option<Seq<char>>)
    requires
        own is None || text::trim(own->0).len() == 0,
        common is None || text::trim(common->0).len() == 0,
    ensures
        telemetry::resolved(own, common, false).directive == "info,tantivy=warn,rmcp=warn"@,
        telemetry::resolved(own, common, true).directive == "debug,tantivy=warn,rmcp=warn"@,
        telemetry::resolved(own, common, false).source is Default,
        telemetry::resolved(own, common, true).source is Default,
        telemetry::resolved(own, common, false).malformed is None,
        telemetry::resolved(own, common, true).malformed is None,
{
}

/// A directive that is refused is reported with its variable, its value and the
/// reason, and the built-in filter takes its place.
pub proof fn law_refused_filter(
    own: Seq<char>,
    common: Seq<char>,
    other: Option<Seq<char>>,
    blank: Option<Seq<char>>,
    verbose: bool,
)
    requires
        blank is None || text::trim(blank->0).len() == 0,
    ensures
        text::trim(own).len() > 0 && telemetry::refused(text::trim(own)) is Some ==> {
            let filter = telemetry::resolved(Some(own), other, verbose);
            &&& filter.directive == telemetry::resolved(None, None, verbose).directive
            &&& filter.source is Default
            &&& filter.malformed == Some(
                (
                    "RUST_KNOWLEDGE_LOG"@,
                    text::trim(own),
                    telemetry::refused(text::trim(own))->0,
                ),
            )
        },
        text::trim(common).len() > 0 && telemetry::refused(text::trim(common)) is Some ==> {
            let filter = telemetry::resolved(blank, Some(common), verbose);
            &&& filter.directive == telemetry::resolved(None, None, verbose).directive
            &&& filter.source is Default
            &&& filter.malformed == Some(
                ("RUST_LOG"@, text::trim(common), telemetry::refused(text::trim(common))->0),
            )
        },
{
}

/// A directive with a blank before a wide character and a level is not given to the
/// parser, which would cut it inside of that character.
pub proof fn law_wide_character_refused(c: char, rest: Seq<char>)
    requires
        !text::white(c),
        c as u32 > 0x7f,
        !rest.contains(','),
    ensures
        !telemetry::readable_part(seq![' ', c, '='] + rest),
        telemetry::refused(seq![' ', c, '='] + rest) is Some,
{
    let part = seq![' ', c, '='] + rest;
    let t = text::trim_start(part);
    assert(part.drop_first() =~= seq![c, '='] + rest);
    reveal_with_fuel(text::trim_start, 3);
    assert(part[0] == ' ');
    assert(t =~= seq![c, '='] + rest);
    let w = text::char_width(c);
    assert(t.take(1) =~= seq![c]);
    lemma_one_char(c);
    reveal_with_fuel(telemetry::phase_behind, 3);
    assert(t.take(1).drop_last() =~= Seq::<char>::empty());
    assert(t[1] == '=');
    assert(telemetry::cuts_before(telemetry::phase_behind(t.take(1)), t[1]));
    assert(!telemetry::boundary(part, w)) by {
        assert forall|k: int| 0 <= k <= part.len() implies #[trigger] text::utf8_len(part.take(k))
            != w by {
            let one = seq![' '];
            lemma_one_char(' ');
            if k == 0 {
                assert(part.take(k) =~= Seq::<char>::empty());
            } else if k == 1 {
                assert(part.take(k) =~= one);
            } else {
                let more = part.subrange(2, k);
                assert(part.take(k) =~= one + seq![c] + more);
                text::lemma_utf8_len_add(one + seq![c], more);
                text::lemma_utf8_len_add(one, seq![c]);
            }
        }
    }
    assert(!telemetry::readable_part(part));
    assert(!part.contains(',')) by {
        if part.contains(',') {
            let i = choose|i: int| 0 <= i < part.len() && part[i] == ',';
            if i >= 3 {
                assert(rest[i - 3] == ',');
            }
        }
    }
    lemma_one_part(part);
}

/// How many bytes one character takes.
proof fn lemma_one_char(c: char)
    ensures
        text::utf8_len(seq![c]) == text::char_width(c),
{
    assert(seq![c].drop_last() =~= Seq::<char>::empty());
    reveal_with_fuel(text::utf8_len, 2);
}

/// Without commas there is one part.
proof fn lemma_one_part(s: Seq<char>)
    requires
        !s.contains(','),
    ensures
        telemetry::last_part(s) == s,
    decreases s.len(),
{
    if s.len() > 0 {
        let init = s.drop_last();
        assert forall|i: int| 0 <= i < init.len() implies init[i] != ',' by {
            assert(s[i] != ',');
        }
        lemma_one_part(init);
        assert(s[s.len() - 1] != ',');
        assert(init.push(s.last()) =~= s);
    } else {
        assert(telemetry::last_part(s) =~= s);
    }
}

/// The encoding of the log: JSON where that is asked for, in any case; people's where
/// that is asked for, or nothing, or anything else, which is reported.
pub proof fn law_log_format(value: Seq<char>)
    ensures
        telemetry::format_of(None) == (LogFormat::Human, None::<Seq<char>>),
        text::trim(value).len() == 0 ==> telemetry::format_of(Some(value)) == (
            LogFormat::Human,
            None::<Seq<char>>,
        ),
        text::ascii_lowercase(text::trim(value)) == "json"@ ==> telemetry::format_of(Some(value))
            == (LogFormat::Json, None::<Seq<char>>),
        text::ascii_lowercase(text::trim(value)) == "human"@ ==> telemetry::format_of(Some(value))
            == (LogFormat::Human, None::<Seq<char>>),
        text::trim(value).len() > 0 && text::ascii_lowercase(text::trim(value)) != "json"@
            && text::ascii_lowercase(text::trim(value)) != "human"@ ==> telemetry::format_of(
            Some(value),
        ) == (LogFormat::Human, Some(text::trim(value))),
{
    reveal_strlit("human");
    reveal_strlit("json");
    assert("human"@.len() == 5 && "json"@.len() == 4);
    let lower = text::ascii_lowercase(text::trim(value));
    assert(lower.len() == text::trim(value).len());
}

} // verus!
