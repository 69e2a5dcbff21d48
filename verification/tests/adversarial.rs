//! Hostile input through the library and a real index held in memory.
use std::collections::HashSet;

use rust_knowledge::document::{
    KnowledgeDocument, PackageIdentity, SearchHit, SearchQuery, SourceKind, SourceSpan,
    SymbolInfo, SymbolQuery,
};
use rust_knowledge::error::KnowledgeError;
use rust_knowledge::ids::DocumentId;
use rust_knowledge::markdown::{chunk_markdown, MarkdownFile, MAX_CHUNK_CHARS};
use rust_knowledge::query::{Occur, Query};
use rust_knowledge::server::{
    search_results, DocReadParams, KnowledgeSearchParams, KnowledgeServer, SymbolLookupParams,
};
use rust_knowledge::store::{IndexMeta, INDEX_SCHEMA_VERSION};
use rust_knowledge::tantivy_index::retriever::{
    SearchPlan, TantivyRetriever, SNIPPET_CHARS, SYMBOL_SNIPPET_CHARS,
};
use rust_knowledge::tantivy_index::schema::{build_schema, stored_span, to_tantivy_doc};
use tantivy::collector::TopDocs;
use tantivy::query::{BooleanQuery, BoostQuery, QueryParser, TermQuery};
use tantivy::schema::{Field, IndexRecordOption};
use tantivy::snippet::SnippetGenerator;
use tantivy::{Index, Searcher, TantivyDocument, Term};

/// Breaks and list marks are appended behind the check of the bounds, so a chunk
/// may slightly exceed the limit. This is the worst-case slack; anything larger is
/// a chunker bug.
const CHUNK_SLACK: usize = 3;

/// The named payloads.
fn payloads() -> Vec<(&'static str, String)> {
    vec![
        ("empty", String::new()),
        ("whitespace only", "   \t \n\r\n  ".into()),
        ("nul bytes", "\0n\0u\0l\0".into()),
        ("control characters", "\u{1}\u{7}\u{8}\u{b}\u{c}\u{e}\u{1f}".into()),
        ("cyrillic homoglyph", "d\u{0435}mo-cor\u{0435}".into()),
        ("zero-width characters", "demo\u{200b}\u{200c}\u{200d}-core".into()),
        ("combining marks", "write_a\u{301}ll".into()),
        ("right-to-left override", "\u{202e}base64".into()),
        ("fullwidth lookalike", "\u{ff44}emo-core".into()),
        ("cjk text", "\u{4e2d}\u{6587}\u{8bf4}\u{660e}".into()),
        ("path traversal", "../../../etc/passwd".into()),
        ("absolute path", "/etc/passwd".into()),
        ("windows path", "..\\..\\windows\\system32".into()),
        ("lone quote", "\"".into()),
        ("quote runs", "\"\"\"\"\"".into()),
        ("colon runs", "::::".into()),
        ("deep path", "a::b::c::d::e::f::g::h".into()),
        ("asterisk bomb", "* * ** *** *?*".into()),
        ("boolean operators", "AND OR NOT".into()),
        ("plus minus caret", "+must -mustnot ^boost".into()),
        ("field colon syntax", "title:write_all".into()),
        ("range syntax", "title:[a TO z]".into()),
        ("fuzzy tilde", "write_all~2".into()),
        ("star colon", "*:*".into()),
        ("json metacharacters", "{\"a\": [1, 2], \"b\": null}".into()),
        ("sql injection", "'; DROP TABLE docs;--".into()),
        ("markdown fence bomb", "```\n```\n```\n".into()),
        ("unclosed fence", "# t\n\n```rust\nlet x = 1;\n".into()),
        ("backtick runs", "`".repeat(256)),
        ("heading spam", "######\n#####\n####\n###\n".into()),
        ("unclosed brackets", "[".repeat(4_096)),
        ("unclosed emphasis", "*".repeat(4_096)),
        ("html comment bomb", "<!--".repeat(512)),
        ("empty package spec", String::new()),
        ("at sign only", "@".into()),
        ("name without version", "base64@".into()),
        ("version without name", "@0.21.7".into()),
        ("double at", "base64@@0.21.7".into()),
        ("version with metachars", "base64@0.2*".into()),
        ("one megabyte word", "a".repeat(1_048_576)),
        ("one megabyte prose", "word ".repeat(200_000)),
        ("fifty thousand newlines", "\n".repeat(50_000)),
    ]
}

fn pkg() -> PackageIdentity {
    PackageIdentity {
        package_id: "adversarial#test-pkg@0.0.0".into(),
        name: "test-pkg".into(),
        version: "0.0.0".into(),
        source: None,
        manifest_path: "/tmp/adversarial/Cargo.toml".into(),
    }
}

fn md_file() -> MarkdownFile {
    MarkdownFile {
        rel_path: "README.md".into(),
        abs_path: "/tmp/adversarial/README.md".into(),
        kind: SourceKind::CrateReadme,
    }
}

fn package(name: &str, version: &str) -> PackageIdentity {
    PackageIdentity {
        package_id: format!("registry#{name}@{version}"),
        name: name.into(),
        version: version.into(),
        source: Some("registry".into()),
        manifest_path: format!("/cargo/{name}-{version}/Cargo.toml"),
    }
}

fn item(package: &PackageIdentity, symbol: &str, kind: &str, text: &str) -> KnowledgeDocument {
    let last = symbol.rsplit("::").next().unwrap_or(symbol);
    KnowledgeDocument {
        id: DocumentId::from_identity(&[package.package_id.as_str(), symbol]),
        package: package.clone(),
        source_kind: SourceKind::RustdocItem,
        title: last.into(),
        symbol_path: Some(symbol.into()),
        item_kind: Some(kind.into()),
        section_path: Vec::new(),
        text: text.into(),
        source_path: Some("src/lib.rs".into()),
        source_span: Some(SourceSpan { start_line: 3, start_col: 1, end_line: 9, end_col: 2 }),
        related_symbols: vec!["demo_core::Writer".into(), "std::io::Write".into()],
        signature: Some(format!("pub fn {last}()")),
    }
}

fn documents() -> Vec<KnowledgeDocument> {
    let base64 = package("base64", "0.21.7");
    let demo = package("demo-core", "0.1.0");
    let mut docs = vec![
        item(&base64, "base64::engine::Engine::encode", "function", "Encode bytes with an engine."),
        item(&base64, "base64::engine::Engine", "trait", "An engine can encode and decode."),
        item(&demo, "demo_core::writer::Writer", "struct", "A writer with write_all and flush."),
        item(&demo, "demo_core::writer::Writer::write_all", "function", "Calls write_all until done."),
        item(&demo, "demo_core::writer::Writer::flush", "function", ""),
        item(&demo, "demo_core::encode_engine", "function", "Encode through the engine of demo."),
    ];
    let readme = MarkdownFile {
        rel_path: "README.md".into(),
        abs_path: "/cargo/base64-0.21.7/README.md".into(),
        kind: SourceKind::CrateReadme,
    };
    docs.extend(chunk_markdown(&base64, &readme, "# base64\n\nThe engine can encode base64.\n"));
    docs
}

fn span_json(span: &Option<SourceSpan>) -> String {
    match span {
        Some(s) => format!("{},{},{},{}", s.start_line, s.start_col, s.end_line, s.end_col),
        None => String::new(),
    }
}

fn span_from(json: Option<String>) -> Option<SourceSpan> {
    let json = json?;
    let parts: Vec<u32> = json.split(',').filter_map(|p| p.parse().ok()).collect();
    if parts.len() != 4 {
        return None;
    }
    Some(SourceSpan {
        start_line: parts[0],
        start_col: parts[1],
        end_line: parts[2],
        end_col: parts[3],
    })
}

fn meta() -> IndexMeta {
    IndexMeta {
        schema_version: INDEX_SCHEMA_VERSION,
        workspace_root: "/work".into(),
        lock_hash: None,
        metadata_fingerprint: "f".into(),
        cargo_version: None,
        toolchain: None,
        rustdoc_format_version: None,
        rustdoc_scope: "Workspace".into(),
        package_count: 2,
        document_count: 7,
        built_at: "0".into(),
        skipped: Vec::new(),
        warnings: Vec::new(),
    }
}

struct Memory {
    index: Index,
    searcher: Searcher,
    server: KnowledgeServer,
}

impl Memory {
    fn new() -> Memory {
        let index = Index::create_in_ram(build_schema());
        let retriever =
            TantivyRetriever::open("/work/.rust-knowledge", meta(), index.schema()).expect("opens");
        let fields = retriever.fields();
        let mut writer = index.writer_with_num_threads(1, 20_000_000).expect("writer");
        for doc in documents() {
            writer
                .add_document(to_tantivy_doc(&fields, &doc, &span_json(&doc.source_span)))
                .expect("added");
        }
        writer.commit().expect("committed");
        let searcher = index.reader().expect("reader").searcher();
        Memory { index, searcher, server: KnowledgeServer::new(retriever) }
    }

    fn retriever(&self) -> &TantivyRetriever {
        self.server.retriever()
    }

    fn engine_query(&self, query: &Query) -> Box<dyn tantivy::query::Query> {
        match query {
            Query::Term { field, text } => Box::new(TermQuery::new(
                Term::from_field_text(Field::from_field_id(*field), text),
                IndexRecordOption::Basic,
            )),
            Query::Boost { query, factor } => {
                Box::new(BoostQuery::new(self.engine_query(query), *factor as f32))
            }
            Query::Parsed { fields, text } => {
                let fields = fields.iter().map(|f| Field::from_field_id(*f)).collect();
                let mut parser = QueryParser::for_index(&self.index, fields);
                for (field, tenths) in self.retriever().field_boosts() {
                    parser.set_field_boost(Field::from_field_id(field), tenths as f32 / 10.0);
                }
                parser.parse_query(text).expect("only text that parses is kept")
            }
            Query::Boolean { clauses } => {
                let clauses: Vec<(tantivy::query::Occur, Box<dyn tantivy::query::Query>)> = clauses
                    .iter()
                    .map(|c| {
                        let occur = match c.occur {
                            Occur::Should => tantivy::query::Occur::Should,
                            Occur::Must => tantivy::query::Occur::Must,
                        };
                        (occur, self.engine_query(&c.query))
                    })
                    .collect();
                Box::new(BooleanQuery::from(clauses))
            }
        }
    }

    fn found(&self, query: &Query, limit: usize) -> Vec<TantivyDocument> {
        let query = self.engine_query(query);
        let top = self
            .searcher
            .search(&query, &TopDocs::with_limit(limit).order_by_score())
            .expect("searched");
        top.into_iter().map(|(_, at)| self.searcher.doc(at).expect("stored")).collect()
    }

    fn search(&self, query: &SearchQuery) -> Result<Vec<SearchHit>, KnowledgeError> {
        let plan = self.retriever().search_plan(query, self.searcher.num_docs())?;
        Ok(self.run(&plan))
    }

    fn run(&self, plan: &SearchPlan) -> Vec<SearchHit> {
        let body = Field::from_field_id(self.retriever().fields().body);
        let mut hits = Vec::new();
        for doc in self.found(&plan.query, plan.limit) {
            let fragment = match self.retriever().snippet_query(&plan.text, &doc) {
                None => String::new(),
                Some(query) => {
                    let query = self.engine_query(&query);
                    match SnippetGenerator::create(&self.searcher, &query, body) {
                        Ok(mut generator) => {
                            generator.set_max_num_chars(SNIPPET_CHARS);
                            generator.snippet_from_doc(&doc).fragment().to_string()
                        }
                        Err(_) => String::new(),
                    }
                }
            };
            if let Some(hit) = self.retriever().hit(&doc, &fragment) {
                hits.push(hit);
            }
        }
        hits
    }

    /// The ids that a search is answered with, or the message.
    fn tool_search(&self, params: KnowledgeSearchParams) -> Result<Vec<String>, String> {
        let plan = self.server.knowledge_search(params, self.searcher.num_docs())?;
        Ok(search_results(&self.run(&plan)).into_iter().map(|r| r.id).collect())
    }

    /// The ids that a lookup is answered with.
    fn tool_symbol(&self, params: SymbolLookupParams) -> Vec<String> {
        match self.server.symbol_lookup(params, self.searcher.num_docs()) {
            None => Vec::new(),
            Some(plan) => {
                let found: Vec<(TantivyDocument, Option<SourceSpan>)> = self
                    .found(&plan.query, plan.limit)
                    .into_iter()
                    .map(|doc| (doc, None))
                    .collect();
                let infos = self.retriever().symbols(&found);
                infos.into_iter().map(|i| i.id.as_str().to_string()).collect()
            }
        }
    }

    /// The id of the document that is read, or the message.
    fn tool_read(&self, id: String) -> Result<String, String> {
        let (id, query) = self.server.doc_read(&DocReadParams { id })?;
        let found = self.found(&query, 1);
        let doc = self.server.doc_found(&id, found.first(), None)?;
        Ok(doc.id.as_str().to_string())
    }

    fn symbol_lookup(&self, query: &SymbolQuery) -> Vec<SymbolInfo> {
        match self.retriever().symbol_plan(query, self.searcher.num_docs()) {
            None => Vec::new(),
            Some(plan) => {
                let fields = self.retriever().fields();
                let found: Vec<(TantivyDocument, Option<SourceSpan>)> = self
                    .found(&plan.query, plan.limit)
                    .into_iter()
                    .map(|doc| {
                        let span = span_from(stored_span(&fields, &doc));
                        (doc, span)
                    })
                    .collect();
                self.retriever().symbols(&found)
            }
        }
    }

    fn get(&self, id: &DocumentId) -> Result<KnowledgeDocument, KnowledgeError> {
        let found = self.found(&self.retriever().id_query(id), 1);
        let span = found
            .first()
            .and_then(|doc| span_from(stored_span(&self.retriever().fields(), doc)));
        self.retriever().get(id, found.first(), span)
    }
}

fn sized(text: String, limit: usize) -> SearchQuery {
    SearchQuery { limit, ..SearchQuery::new(&text) }
}

fn symbol(text: &str, limit: usize) -> SymbolQuery {
    SymbolQuery { symbol: text.into(), packages: Vec::new(), limit }
}

#[test]
fn search_survives_every_payload() {
    let memory = Memory::new();
    let mut unexpected: Vec<String> = Vec::new();
    for (name, payload) in payloads() {
        match memory.search(&sized(payload.clone(), 8)) {
            Ok(hits) => {
                assert!(hits.len() <= 8, "{name}: {} hits exceeds limit 8", hits.len());
                for hit in &hits {
                    assert_eq!(
                        DocumentId::from_raw(hit.id.as_str()),
                        Some(hit.id.clone()),
                        "{name}: hit id does not round-trip through from_raw"
                    );
                    assert!(
                        hit.snippet.chars().count() <= 320,
                        "{name}: snippet is {} chars",
                        hit.snippet.chars().count()
                    );
                }
            }
            // The only legitimate error is the structured empty-query error.
            Err(KnowledgeError::Engine(_)) => {}
            Err(other) => unexpected.push(format!("{name}: unexpected error: {other:?}")),
        }
    }
    assert!(unexpected.is_empty(), "unexpected errors: {unexpected:?}");
}

#[test]
fn deep_nesting_and_many_negations_are_searched_as_words() {
    let memory = Memory::new();
    let nested = |n: usize| format!("{}encode{}", "(".repeat(n), ")".repeat(n));
    let negated = |n: usize| format!("{}encode", "NOT ".repeat(n));
    for text in [
        nested(1),
        nested(12),
        nested(13),
        nested(40),
        nested(50_000),
        "(".repeat(50_000) + "encode",
        negated(1),
        negated(127),
        format!("{}encode{}", "NOT NOT (".repeat(12), ")".repeat(12)),
        format!("\"x\" it's {}encode", "(a) ".repeat(100)),
        format!("{}\"encode", "(\")".repeat(40)),
    ] {
        let hits = memory.search(&sized(text.clone(), 8)).expect("searched");
        assert!(!hits.is_empty(), "{} characters", text.len());
    }
    // Words that say NOT too often match nothing by themselves; the identifiers
    // among them still do.
    let hits = memory.search(&sized(negated(100_000), 8)).expect("searched");
    assert!(hits.len() <= 8);
}

#[test]
fn snippets_are_cut_wherever_they_come_from() {
    let retriever = Memory::new().server;
    let retriever = retriever.retriever();
    let fields = retriever.fields();
    let long = "word ".repeat(200);
    let demo = package("demo-core", "0.1.0");
    let mut doc = item(&demo, "demo_core::long", "function", "  ");
    doc.signature = Some(long.clone());
    let stored = to_tantivy_doc(&fields, &doc, "");
    let hit = retriever.hit(&stored, "").expect("a hit");
    assert!(hit.snippet.len() <= SNIPPET_CHARS + 3 && hit.snippet.ends_with("word..."));
    assert!(hit.snippet.len() > SNIPPET_CHARS - 10);
    let infos = retriever.symbols(&vec![(stored, None)]);
    // A symbol without documentation shows its signature as it is.
    assert_eq!(infos[0].snippet, long);
    assert_eq!(infos[0].signature.as_deref(), Some(long.as_str()));
    doc.text = long.clone();
    let stored = to_tantivy_doc(&fields, &doc, "");
    let infos = retriever.symbols(&vec![(stored, None)]);
    assert!(infos[0].snippet.len() <= SYMBOL_SNIPPET_CHARS + 3);
    assert!(infos[0].snippet.len() > SYMBOL_SNIPPET_CHARS - 10);

    doc.signature = None;
    doc.text = String::new();
    doc.title = long.clone();
    let hit = retriever.hit(&to_tantivy_doc(&fields, &doc, ""), "").expect("a hit");
    assert!(hit.snippet.len() <= SNIPPET_CHARS + 3 && hit.snippet.ends_with("word..."));
    assert_eq!(hit.title, long);

    doc.text = "body".into();
    let hit = retriever.hit(&to_tantivy_doc(&fields, &doc, ""), &long).expect("a hit");
    assert!(hit.snippet.len() <= SNIPPET_CHARS + 3 && hit.snippet.ends_with("word..."));

    // What is short enough is shown as it is.
    doc.text = " ".into();
    doc.signature = Some("pub fn long()".into());
    let hit = retriever.hit(&to_tantivy_doc(&fields, &doc, ""), "").expect("a hit");
    assert_eq!(hit.snippet, "pub fn long()");
}

#[test]
fn symbol_lookup_survives_every_payload() {
    let memory = Memory::new();
    for (name, payload) in payloads() {
        let infos = memory.symbol_lookup(&symbol(&payload, 8));
        assert!(infos.len() <= 8, "{name}: {} results exceeds limit 8", infos.len());
        for info in &infos {
            assert!(
                DocumentId::from_raw(info.id.as_str()).is_some(),
                "{name}: result id does not round-trip through from_raw"
            );
        }
    }
}

#[test]
fn id_parsing_and_get_survive_every_payload() {
    let memory = Memory::new();
    let mut unexpected: Vec<String> = Vec::new();

    // A known id still resolves to an intact document.
    let known = documents()[0].id.clone();
    let doc = memory.get(&known).expect("sample document exists");
    assert_eq!(doc.id, known, "sample document id must round-trip");

    // Ids in upper case are valid and behave like those in lower case.
    let upper = known.as_str().to_uppercase();
    let parsed = DocumentId::from_raw(&upper).expect("uppercase hex id must parse");
    assert_eq!(parsed, known, "from_raw must normalize to lowercase");
    match memory.get(&parsed) {
        Ok(found) => assert_eq!(found.id, parsed),
        Err(KnowledgeError::DocumentNotFound(_)) => {}
        Err(other) => unexpected.push(format!("unexpected error for uppercase id: {other:?}")),
    }

    for (name, payload) in payloads() {
        match DocumentId::from_raw(payload.as_str()) {
            // Malformed shapes are rejected.
            None => {}
            Some(id) => match memory.get(&id) {
                Ok(found) => assert_eq!(found.id, id, "{name}: got a different document"),
                Err(KnowledgeError::DocumentNotFound(_)) => {}
                Err(other) => unexpected.push(format!("{name}: unexpected error: {other:?}")),
            },
        }
    }
    assert!(unexpected.is_empty(), "unexpected errors: {unexpected:?}");
}

#[test]
fn garbage_filters_never_widen_results() {
    let memory = Memory::new();

    // None of the payloads may name a real package or item kind.
    let docs = documents();
    for (name, payload) in payloads() {
        let normalized = payload.trim().to_lowercase();
        for doc in &docs {
            let key = format!("{}@{}", doc.package.name, doc.package.version);
            assert!(
                !key.eq_ignore_ascii_case(normalized.trim())
                    && !doc.package.name.eq_ignore_ascii_case(normalized.trim()),
                "{name}: payload names a real package"
            );
            assert!(
                doc.item_kind.as_deref() != Some(normalized.as_str()),
                "{name}: payload names a real item kind"
            );
        }
    }

    // The query alone must hit, so that a widened filter is visible.
    let baseline = memory.search(&SearchQuery::new("engine encode")).expect("baseline search");
    assert!(!baseline.is_empty(), "baseline query must produce hits");

    for (name, payload) in payloads() {
        let package_query = SearchQuery {
            packages: vec![payload.clone()],
            ..SearchQuery::new("engine encode")
        };
        let hits = memory.search(&package_query).expect("filtered search");
        assert!(hits.is_empty(), "{name}: package filter widened to {} hits", hits.len());

        let kind_query = SearchQuery {
            item_kinds: vec![payload.clone()],
            ..SearchQuery::new("engine encode")
        };
        let hits = memory.search(&kind_query).expect("filtered search");
        assert!(hits.is_empty(), "{name}: item-kind filter widened to {} hits", hits.len());
    }
}

#[test]
fn mixed_valid_and_garbage_filters_keep_valid_semantics() {
    let memory = Memory::new();
    let query = SearchQuery {
        packages: vec![
            "base64".into(),
            "../../../etc/passwd".into(),
            String::new(),
            "base64@".into(),
        ],
        ..SearchQuery::new("engine encode")
    };
    let hits = memory.search(&query).expect("search");
    assert!(!hits.is_empty(), "the valid entry in a mixed filter must still match");
    for hit in &hits {
        // Only the valid spec may contribute hits.
        assert_eq!(hit.package_name, "base64", "hit outside the valid filter set");
    }
}

#[test]
fn limit_edges_are_handled() {
    let memory = Memory::new();
    for limit in [0usize, 1, 2, 50, 1_000_000, usize::MAX] {
        let hits = memory.search(&sized("write_all".into(), limit)).expect("search with edge limit");
        assert!(hits.len() <= limit.max(1), "search limit {limit}: {} hits", hits.len());

        let infos = memory.symbol_lookup(&symbol("Writer", limit));
        assert!(infos.len() <= limit.max(1), "symbol limit {limit}: {} results", infos.len());
    }
}

#[test]
fn chunker_survives_every_payload() {
    for (name, payload) in payloads() {
        let docs = chunk_markdown(&pkg(), &md_file(), &payload);
        // Deterministic: same input, same documents (same ids included).
        let again = chunk_markdown(&pkg(), &md_file(), &payload);
        assert!(docs == again, "{name}: chunking is not deterministic");

        let mut ids = HashSet::new();
        for doc in &docs {
            assert!(
                doc.text.len() <= MAX_CHUNK_CHARS + CHUNK_SLACK,
                "{name}: chunk is {} chars, exceeding MAX_CHUNK_CHARS ({MAX_CHUNK_CHARS}) + {CHUNK_SLACK}",
                doc.text.len()
            );
            assert!(ids.insert(doc.id.clone()), "{name}: chunker produced a duplicate id");
            assert!(
                DocumentId::from_raw(doc.id.as_str()).is_some(),
                "{name}: chunk id is not a valid hex id"
            );
        }
    }
}

/// Payloads for the tools.
fn tool_payloads() -> Vec<(&'static str, String)> {
    vec![
        ("empty", String::new()),
        ("whitespace only", "   \t \n\r\n  ".into()),
        ("nul bytes", "\u{0}n\u{0}u\u{0}l\u{0}".into()),
        ("control characters", "\u{1}\u{7}\u{8}\u{b}\u{c}\u{e}\u{1f}".into()),
        ("cyrillic homoglyph", "d\u{435}mo-cor\u{435}".into()),
        ("zero-width characters", "demo\u{200b}\u{200c}\u{200d}-core".into()),
        ("path traversal", "../../../etc/passwd".into()),
        ("asterisk bomb", "* * ** *** *?*".into()),
        ("boolean operators", "AND OR NOT".into()),
        ("query syntax", "\"term\" +must -mustnot field:value~2 *:*".into()),
        ("deep path", "a::b::c::d::e::f::g::h".into()),
        ("json metacharacters", "{\"a\": [1, 2], \"b\": null}".into()),
        ("empty package spec", String::new()),
        ("double at", "base64@@0.21.7".into()),
        ("one megabyte word", "a".repeat(1_048_576)),
        ("fifty thousand newlines", "\n".repeat(50_000)),
    ]
}

fn asked(query: &str) -> KnowledgeSearchParams {
    KnowledgeSearchParams {
        query: query.into(),
        packages: None,
        source_kinds: None,
        item_kinds: None,
        limit: None,
    }
}

fn check_answer(name: &str, tool: &str, answer: Result<Vec<String>, String>) {
    match answer {
        // A friendly rejection with a message.
        Err(message) => assert!(!message.is_empty(), "{name} / {tool}: empty content"),
        Ok(ids) => {
            assert!(
                ids.len() <= 50,
                "{name} / {tool}: {} results exceed the server clamp",
                ids.len()
            );
            for id in ids {
                assert_eq!(id.len(), 32, "{name} / {tool}: bad id");
            }
        }
    }
}

#[test]
fn every_payload_through_every_tool_is_handled_cleanly() {
    let memory = Memory::new();
    for (name, payload) in tool_payloads() {
        check_answer(name, "knowledge_search", memory.tool_search(asked(&payload)));
        let listed = || Some(vec![payload.clone()]);
        for params in [
            KnowledgeSearchParams { packages: listed(), ..asked("engine encode") },
            KnowledgeSearchParams { item_kinds: listed(), ..asked("engine encode") },
            KnowledgeSearchParams { source_kinds: listed(), ..asked("engine encode") },
        ] {
            check_answer(name, "knowledge_search", memory.tool_search(params));
        }
        for (symbol, packages) in [(payload.clone(), None), ("Writer::write_all".into(), listed())] {
            let params = SymbolLookupParams { symbol, packages, limit: None };
            check_answer(name, "symbol_lookup", Ok(memory.tool_symbol(params)));
        }
        let read = memory.tool_read(payload.clone());
        check_answer(name, "doc_read", read.map(|id| vec![id]));
    }
}

#[test]
fn hostile_limits_are_clamped_or_rejected() {
    let memory = Memory::new();
    for limit in [
        "0",
        "1",
        "50",
        "1000000",
        "18446744073709551615",
        "-1",
        "1.5",
        "\"8\"",
        "null",
        "[8]",
    ] {
        // What is no limit at all is rejected before the tool is called.
        let parsed: Result<Option<usize>, serde_json::Error> = serde_json::from_str(limit);
        if let Ok(limit) = parsed {
            let params = KnowledgeSearchParams { limit, ..asked("engine encode") };
            let ids = memory.tool_search(params).expect("answered");
            assert!(!ids.is_empty());
            assert!(ids.len() <= limit.unwrap_or(8).clamp(1, 50));
        }
    }
}

#[test]
fn stored_documents_are_read_back_whole() {
    let memory = Memory::new();
    for doc in documents() {
        let read = memory.get(&doc.id).expect("stored");
        assert_eq!(read.id, doc.id);
        assert_eq!(read.package.package_id, doc.package.package_id);
        assert_eq!(read.package.name, doc.package.name);
        assert_eq!(read.package.version, doc.package.version);
        assert_eq!(read.source_kind, doc.source_kind);
        assert_eq!(read.title, doc.title);
        assert_eq!(read.symbol_path, doc.symbol_path);
        assert_eq!(read.item_kind, doc.item_kind);
        assert_eq!(read.section_path, doc.section_path);
        assert_eq!(read.text, doc.text);
        assert_eq!(read.source_path, doc.source_path);
        assert_eq!(read.source_span, doc.source_span);
        assert_eq!(read.related_symbols, doc.related_symbols);
        assert_eq!(read.signature, doc.signature);
    }
    let unknown = DocumentId::from_identity(&["unknown"]);
    assert!(matches!(memory.get(&unknown), Err(KnowledgeError::DocumentNotFound(id)) if id == unknown));
}

#[test]
fn exact_symbols_come_first() {
    let memory = Memory::new();
    let infos = memory.symbol_lookup(&symbol("demo_core::writer::Writer::flush", 3));
    assert_eq!(infos[0].symbol_path, "demo_core::writer::Writer::flush");
    assert_eq!(infos[0].kind, "function");
    assert_eq!(infos[0].snippet, "pub fn flush()", "a blank text gives way to the signature");
    assert_eq!(infos[0].source_span.map(|s| s.end_line), Some(9));
    assert_eq!(infos[0].related_symbols.len(), 2);
    let upper = memory.symbol_lookup(&symbol(" DEMO_CORE::WRITER::WRITER ", 1));
    assert_eq!(upper[0].symbol_path, "demo_core::writer::Writer");
    assert!(memory.symbol_lookup(&symbol("   ", 3)).is_empty());

    let hits = memory.search(&SearchQuery::new("Writer::write_all")).expect("search");
    assert_eq!(
        hits[0].symbol_path.as_deref(),
        Some("demo_core::writer::Writer::write_all")
    );
}

#[test]
fn symbols_are_of_the_packages_asked_for() {
    let memory = Memory::new();
    let mut query = symbol("encode", 10);
    assert!(!memory.symbol_lookup(&query).is_empty());
    query.packages = vec!["demo-core".into()];
    assert!(memory.symbol_lookup(&query).iter().all(|i| i.package_name == "demo-core"));
    query.packages = vec!["nothing".into(), " ".into()];
    assert!(memory.symbol_lookup(&query).is_empty());
    // The last segment alone, in any case, finds the symbol.
    let infos = memory.symbol_lookup(&symbol("FLUSH", 1));
    assert_eq!(infos[0].symbol_path, "demo_core::writer::Writer::flush");
}

#[test]
fn filters_alone_select_documents() {
    let memory = Memory::new();
    let all = SearchQuery {
        packages: vec![" BASE64@0.21.7 ".into()],
        limit: 50,
        ..SearchQuery::new("")
    };
    let hits = memory.search(&all).expect("search");
    assert_eq!(hits.len(), 3);
    assert!(hits.iter().all(|h| h.package_name == "base64"));
    let readmes = SearchQuery { source_kinds: vec![SourceKind::CrateReadme], ..all };
    let hits = memory.search(&readmes).expect("search");
    assert_eq!(hits.len(), 1);
    assert_eq!(hits[0].section_path, vec!["base64"]);
    assert_eq!(hits[0].symbol_path, None);
    let kinds = SearchQuery { item_kinds: vec![" Function ".into()], limit: 50, ..SearchQuery::new("") };
    assert_eq!(memory.search(&kinds).expect("search").len(), 4);
    assert!(matches!(
        memory.search(&SearchQuery::new(" * ")),
        Err(KnowledgeError::Engine(message)) if message == "empty query"
    ));
}

#[test]
fn lower_case_is_that_of_every_script() {
    let memory = Memory::new();
    let plan = memory
        .retriever()
        .symbol_plan(&symbol("\u{c4}\u{416}::\u{130}", 1), 7)
        .expect("a symbol is asked for");
    assert_eq!(plan.limit, 1);
    let first = match &plan.query {
        Query::Boolean { clauses } => &clauses[0].query,
        other => panic!("{other:?}"),
    };
    match first {
        Query::Boost { query, factor } => {
            assert_eq!(*factor, 100);
            assert!(matches!(
                query.as_ref(),
                Query::Term { text, .. } if text == "\u{e4}\u{436}::i\u{307}"
            ));
        }
        other => panic!("{other:?}"),
    }
}

#[test]
fn upper_case_words_are_taken_as_symbols() {
    use_clauses("\u{c9}tude", 12);
    use_clauses("plainword", 8);
    use_clauses("snake_case", 12);
}

fn use_clauses(word: &str, factor: u32) {
    let memory = Memory::new();
    let query = memory.retriever().build_search_query(word, &SearchQuery::new(word)).expect("a query");
    let last = memory.retriever().fields().symbol_last;
    let mut found = false;
    if let Query::Boolean { clauses } = &query {
        for clause in clauses {
            if let Query::Boost { query, factor: by } = &clause.query {
                if let Query::Term { field, text } = query.as_ref() {
                    assert_eq!(*field, last);
                    assert_eq!(text, &word.to_lowercase());
                    assert_eq!(*by, factor);
                    found = true;
                }
            }
        }
    }
    assert!(found, "{query:?}");
}
