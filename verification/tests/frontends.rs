//! The tool surface and the command line.
use rust_knowledge::cli;
use rust_knowledge::cli::PackageRow;
use rust_knowledge::corpus::{CorpusReport, RustdocScope};
use rust_knowledge::document::{
    KnowledgeDocument, PackageIdentity, SearchHit, SourceKind, SourceSpan, SymbolInfo,
};
use rust_knowledge::error::KnowledgeError;
use rust_knowledge::ids::DocumentId;
use rust_knowledge::pipeline::IndexOutcome;
use rust_knowledge::query::Query;
use rust_knowledge::server;
use rust_knowledge::server::{
    DocReadParams, KnowledgeSearchParams, KnowledgeServer, SymbolLookupParams,
};
use rust_knowledge::store::{IndexMeta, INDEX_SCHEMA_VERSION};
use rust_knowledge::tantivy_index::retriever::TantivyRetriever;
use rust_knowledge::tantivy_index::schema::{build_schema, to_tantivy_doc};

const ID: &str = "e3b0c44298fc1c149afbf4c8996fb924";

fn meta() -> IndexMeta {
    IndexMeta {
        schema_version: INDEX_SCHEMA_VERSION,
        workspace_root: "/w".into(),
        lock_hash: None,
        metadata_fingerprint: String::new(),
        cargo_version: None,
        toolchain: None,
        rustdoc_format_version: None,
        rustdoc_scope: "All".into(),
        package_count: 2,
        document_count: 12,
        built_at: "0".into(),
        skipped: vec![("a@1".into(), "why".into())],
        warnings: vec!["careful".into()],
    }
}

fn report() -> CorpusReport {
    CorpusReport {
        packages: 2,
        markdown_files: 3,
        rustdoc_packages: 1,
        markdown_documents: 4,
        rustdoc_documents: 5,
        rustdoc_format_version: None,
        cargo_version: None,
        warnings: vec!["careful".into()],
        skipped: vec![("a@1".into(), "why".into())],
    }
}

fn tool_server() -> KnowledgeServer {
    KnowledgeServer::new(TantivyRetriever::open("/i", meta(), build_schema()).expect("opens"))
}

fn id() -> DocumentId {
    DocumentId::from_raw(ID).expect("an id")
}

fn search(query: &str) -> KnowledgeSearchParams {
    KnowledgeSearchParams {
        query: query.into(),
        packages: None,
        source_kinds: None,
        item_kinds: None,
        limit: None,
    }
}

fn doc() -> KnowledgeDocument {
    KnowledgeDocument {
        id: id(),
        package: PackageIdentity {
            package_id: "p".into(),
            name: "a".into(),
            version: "1".into(),
            source: None,
            manifest_path: "/w/Cargo.toml".into(),
        },
        source_kind: SourceKind::RustdocItem,
        title: "T".into(),
        symbol_path: Some("a::T".into()),
        item_kind: Some("struct".into()),
        section_path: Vec::new(),
        text: "body".into(),
        source_path: Some("src/lib.rs".into()),
        source_span: Some(SourceSpan { start_line: 3, start_col: 1, end_line: 14, end_col: 2 }),
        related_symbols: vec!["x".into(), "y".into()],
        signature: Some("struct T".into()),
    }
}

#[test]
fn hostile_limits_are_clamped() {
    let server = tool_server();
    for (asked, expected) in [(None, 8), (Some(0), 1), (Some(3), 3), (Some(50), 50), (Some(51), 50), (Some(usize::MAX), 50)] {
        let params = KnowledgeSearchParams { limit: asked, ..search("word") };
        assert_eq!(server.knowledge_search(params, 1_000).expect("a plan").limit, expected);
    }
    for (asked, expected) in [(None, 5), (Some(0), 1), (Some(usize::MAX), 50)] {
        let params = SymbolLookupParams { symbol: "x".into(), packages: None, limit: asked };
        assert_eq!(server.symbol_lookup(params, 1_000).expect("a plan").limit, expected);
    }
    assert_eq!(server.knowledge_search(search("word"), 2).expect("a plan").limit, 2);
    assert_eq!(server.retriever().index_dir(), "/i");
}

#[test]
fn searches_are_planned_or_refused() {
    let server = tool_server();
    let plan = server.knowledge_search(search(" how * to "), 10).expect("a plan");
    assert_eq!(plan.text, "how to");
    assert_eq!(
        server.knowledge_search(search(" * "), 10).expect_err("refused"),
        "search failed: empty query. The index may be stale; run rust-knowledge index."
    );
    let filtered = KnowledgeSearchParams {
        packages: Some(vec![String::new()]),
        source_kinds: Some(vec!["crate_readme".into()]),
        item_kinds: Some(Vec::new()),
        ..search("")
    };
    assert!(server.knowledge_search(filtered, 10).is_ok());
    let unknown = KnowledgeSearchParams {
        source_kinds: Some(vec!["crate_readme".into(), "bad".into(), "worse".into()]),
        ..search("x")
    };
    assert_eq!(
        server.knowledge_search(unknown, 10).expect_err("refused"),
        "unknown source kind: bad"
    );
}

#[test]
fn documents_are_read_or_refused() {
    let server = tool_server();
    let params = DocReadParams { id: ID.to_uppercase() };
    let (wanted, query) = server.doc_read(&params).expect("an id");
    assert_eq!(wanted, id());
    assert!(matches!(&query, Query::Term { text, .. } if text == ID));
    assert_eq!(
        server.doc_read(&DocReadParams { id: "nope".into() }).expect_err("refused"),
        "nope is not a valid document id; use the id exactly as returned by knowledge_search"
    );
    assert_eq!(
        server.doc_found(&wanted, None, None).expect_err("not found"),
        format!(
            "no document with id {ID}: document not found: {ID}. \
             The index may be stale; run rust-knowledge index."
        )
    );
    let stored = to_tantivy_doc(&server.retriever().fields(), &doc(), "");
    let found = server.doc_found(&wanted, Some(&stored), doc().source_span).expect("found");
    assert_eq!(found.text, "body");
    assert_eq!(found.source_span, doc().source_span);
    let error = KnowledgeError::Engine("boom".into());
    assert_eq!(
        server::symbol_failure(&error),
        "symbol lookup failed: boom. The index may be stale; run rust-knowledge index."
    );
    assert_eq!(
        server::search_failure(&error),
        "search failed: boom. The index may be stale; run rust-knowledge index."
    );
    assert_eq!(
        server::read_failure(&wanted, &error),
        format!("no document with id {ID}: boom. The index may be stale; run rust-knowledge index.")
    );
}

#[test]
fn blank_symbols_ask_for_nothing() {
    let server = tool_server();
    let params = SymbolLookupParams { symbol: " \t".into(), packages: None, limit: None };
    assert!(server.symbol_lookup(params, 10).is_none());
}

fn hit() -> SearchHit {
    SearchHit {
        id: id(),
        package_name: "a".into(),
        package_version: "1".into(),
        source_kind: SourceKind::CrateReadme,
        title: "t".into(),
        symbol_path: None,
        section_path: vec!["S".into(), "T".into()],
        snippet: "one\ntwo".into(),
    }
}

#[test]
fn results_are_answered_in_short() {
    let results = server::search_results(&vec![hit()]);
    assert_eq!(results.len(), 1);
    assert_eq!(results[0].id, ID);
    assert_eq!(results[0].package, "a");
    assert_eq!(results[0].version, "1");
    assert_eq!(results[0].kind, "crate_readme");
    assert_eq!(results[0].context, "S > T");
    assert_eq!(results[0].snippet, "one\ntwo");
}

#[test]
fn packages_are_listed_by_name_and_version() {
    let row = |name: &str, version: &str, features: &str| PackageRow {
        name: name.into(),
        version: version.into(),
        origin: "registry".into(),
        features: features.into(),
        manifest_path: format!("/{name}"),
        package_id: "id".into(),
    };
    let rows = vec![row("b", "1.0.0", ""), row("a", "0.9.0", "x,y"), row("a", "0.10.0", "")];
    assert_eq!(cli::package_order(&rows), vec![2, 1, 0]);
    let lines: Vec<String> = cli::packages(&rows).lines().map(str::to_string).collect();
    assert_eq!(
        lines[0],
        format!("{:<24} {:<12} {:<10} {:<28} PATH", "PACKAGE", "VERSION", "ORIGIN", "FEATURES")
    );
    assert_eq!(lines[1], format!("{:<24} {:<12} {:<10} {:<28} /a", "a", "0.10.0", "registry", "-"));
    assert_eq!(lines[2], format!("{:<24} {:<12} {:<10} {:<28} /a", "a", "0.9.0", "registry", "x,y"));
    assert_eq!(lines[3], format!("{:<24} {:<12} {:<10} {:<28} /b", "b", "1.0.0", "registry", "-"));
    assert_eq!(lines.len(), 4);
    let wide = "w".repeat(30);
    let table = cli::packages(&vec![row(&wide, "1", "")]);
    assert!(table.contains(&format!("{wide} 1            registry   -")));
}

#[test]
fn scopes_are_read_or_refused() {
    assert_eq!(cli::parse_scope("all"), Ok(RustdocScope::All));
    assert_eq!(
        cli::parse_scope("A \"b\"\n"),
        Err("unknown rustdoc scope \"A \\\"b\\\"\\n\": use workspace, all or none".to_string())
    );
    let options = cli::index_options("none", &None, &Some("/pre".into()), &None).expect("options");
    assert_eq!(options.rustdoc_scope, RustdocScope::MarkdownOnly);
    assert_eq!(options.toolchain.as_deref(), Some("nightly"));
    assert_eq!(options.prebuilt_rustdoc.as_deref(), Some("/pre"));
    assert!(!options.skip_rustdoc);
    let options =
        cli::index_options("all", &Some("stable".into()), &None, &Some("/c".into())).expect("options");
    assert_eq!(options.toolchain.as_deref(), Some("stable"));
    assert_eq!(options.cargo.as_deref(), Some("/c"));
    assert_eq!(
        cli::index_options("x", &None, &None, &None).expect_err("refused"),
        "unknown rustdoc scope \"x\": use workspace, all or none"
    );
}

#[test]
fn quoting_is_that_of_the_formatter() {
    for code in 0..0x3000_u32 {
        if let Some(c) = char::from_u32(code) {
            let text = format!("q{c}q");
            assert_eq!(
                cli::get_request(&text).expect_err("no id"),
                format!("{text:?} is not a valid document id")
            );
        }
    }
    assert_eq!(cli::get_request(ID), Ok(id()));
}

#[test]
fn runs_are_told() {
    let outcome = IndexOutcome { meta: meta(), corpus: report(), index_dir: "/i".into() };
    assert_eq!(
        cli::index_text(&outcome),
        "indexed 2 packages into /i (12 documents)\nsearch it with: rust-knowledge search <query>\n"
    );
    assert_eq!(cli::index_notes(&outcome), "skipped a@1: why\nwarning: careful\n");
    assert_eq!(
        cli::corpus_notes(&report(), 9),
        "# corpus: 2 packages, 1 rustdoc generated, 3 markdown files, 9 documents\n\
         # skipped a@1: why\n# warning: careful\n"
    );
}

#[test]
fn documents_are_printed() {
    let header = format!(
        "id: {ID}\nfrom: a@1 [rustdoc_item]\ncontext: a::T\nsignature: struct T\n\
         source: src/lib.rs:3-14\nrelated: x, y\n"
    );
    assert_eq!(cli::get(&doc()), format!("{header}\nbody\n"));
    let rule = "-".repeat(50);
    assert_eq!(cli::dump_document(&doc()), format!("{rule}\n{header}body\n"));
    let plain = KnowledgeDocument {
        signature: None,
        source_span: None,
        related_symbols: Vec::new(),
        ..doc()
    };
    assert_eq!(
        cli::get(&plain),
        format!("id: {ID}\nfrom: a@1 [rustdoc_item]\ncontext: a::T\n\nbody\n")
    );
}

#[test]
fn long_texts_are_cut_where_documents_are_listed() {
    let long = KnowledgeDocument { text: format!("{} ä tail", "a".repeat(1198)), ..doc() };
    let shown = cli::dump_document(&long);
    assert!(shown.ends_with(&format!("{}...\n", "a".repeat(1198))));
    let exact = KnowledgeDocument { text: "b".repeat(1200), ..doc() };
    assert!(cli::dump_document(&exact).ends_with(&format!("{}\n", "b".repeat(1200))));
    let split = KnowledgeDocument { text: "ä".repeat(601), ..doc() };
    assert!(cli::dump_document(&split).ends_with(&format!("\n{}...\n", "ä".repeat(600))));
}

#[test]
fn documents_of_one_package_are_kept() {
    let mut other = doc();
    other.package.package_id = "q".into();
    let docs = vec![doc(), other, doc()];
    assert_eq!(cli::documents_of_package(&docs, "p").len(), 2);
    assert_eq!(cli::documents_of_package(&docs, "q").len(), 1);
    assert!(cli::documents_of_package(&docs, "r").is_empty());
    let one = cli::dump_document(&doc());
    assert_eq!(cli::dump_docs(&docs, Some("p")), (format!("{one}{one}"), None));
    assert_eq!(cli::dump_docs(&docs, None), (format!("{one}{one}{one}"), None));
    assert_eq!(
        cli::dump_docs(&docs, Some("r")),
        (String::new(), Some("# no documents matched"))
    );
    assert_eq!(cli::dump_docs(&Vec::new(), None), (String::new(), None));
}

#[test]
fn hits_are_printed() {
    assert_eq!(cli::search(&Vec::new()), "no results\n");
    let one = format!("1. a@1\n   S > T\n   [crate_readme]\n   id: {ID}\n\n   one two\n\n");
    let two = one.replacen("1.", "2.", 1);
    assert_eq!(cli::search(&vec![hit(), hit()]), format!("{one}{two}"));
}

#[test]
fn symbols_are_printed() {
    assert_eq!(cli::symbol_lookup("x", &Vec::new()), "no symbol matched \"x\"\n");
    let info = SymbolInfo {
        id: id(),
        package_name: "a".into(),
        package_version: "1".into(),
        kind: "struct".into(),
        symbol_path: "a::T".into(),
        signature: Some("struct T".into()),
        snippet: "one\ntwo".into(),
        source_path: None,
        source_span: None,
        related_symbols: Vec::new(),
    };
    assert_eq!(
        cli::symbol_lookup("x", &vec![info.clone()]),
        format!("1. a@1 [struct] a::T\n   struct T\n   id: {ID}\n   one two\n\n")
    );
    let bare = SymbolInfo { signature: None, ..info };
    assert_eq!(
        cli::symbol_lookup("x", &vec![bare]),
        format!("1. a@1 [struct] a::T\n   id: {ID}\n   one two\n\n")
    );
    let request = cli::symbol_request("s", &vec!["p".into()]);
    assert_eq!(request.limit, 10);
    assert_eq!(request.symbol, "s");
    assert_eq!(request.packages, vec!["p"]);
}

#[test]
fn command_line_searches_are_read_or_refused() {
    let none: Vec<String> = Vec::new();
    let request = cli::search_request(
        "q",
        &vec!["p".into()],
        &vec!["rustdoc_item".into(), "crate_readme".into()],
        &vec!["function".into()],
        0,
    )
    .expect("a request");
    assert_eq!(request.text, "q");
    assert_eq!(request.limit, 0);
    assert_eq!(request.source_kinds, vec![SourceKind::RustdocItem, SourceKind::CrateReadme]);
    assert_eq!(request.item_kinds, vec!["function"]);
    assert_eq!(
        cli::search_request("q", &none, &vec!["x".into()], &none, 8).expect_err("refused"),
        "unknown source kind: x"
    );
}

#[test]
fn evaluation_sets_belong_to_a_workspace() {
    assert_eq!(cli::corpus_refusal("demo/", "/work/demo"), None);
    assert_eq!(cli::corpus_refusal("", "/work/demo"), None);
    assert_eq!(
        cli::corpus_refusal("demo", "/work/other").as_deref(),
        Some(
            "this eval file targets the \"demo\" workspace; the current index was built for \
             \"/work/other\". Point --index-dir/--manifest-path at the matching workspace."
        )
    );
    assert_eq!(
        cli::eval_line(true, Some(3), "symbol", "find it"),
        "PASS rank  3           symbol \"find it\"\n"
    );
    assert_eq!(
        cli::eval_line(false, None, "a", "b"),
        format!("FAIL rank {:>2} {:>16} {:?}\n", "-", "a", "b")
    );
}
