//! Ids, kinds, errors, paths, discovery, corpus and pipeline.
use rust_knowledge::corpus::{
    build_corpus, names_package, ordered_packages, origin_of, rustdoc_selection, CorpusOptions, GeneratedRustdoc, NormalizedRustdoc, Origin,
    PackageInput, RustdocArtifact, RustdocScope,
};
use rust_knowledge::discovery::{
    discover, entry_action, readme_candidates, EntryAction, MAX_FILE_BYTES,
};
use rust_knowledge::document::{
    KnowledgeDocument, PackageIdentity, SearchHit, SearchQuery, SourceKind, DEFAULT_SEARCH_LIMIT,
};
use rust_knowledge::error::{IndexError, KnowledgeError};
use rust_knowledge::ids::DocumentId;
use rust_knowledge::lines::LineIndex;
use rust_knowledge::markdown::MarkdownFile;
use rust_knowledge::paths::{is_same_path, parent, path_join, rel_name};
use rust_knowledge::pipeline::{
    default_index_dir, index_dir_or_default, index_plan, index_workspace, now_rfc3339,
    IndexOptions, RustdocSource, WorkspaceFacts,
};
use rust_knowledge::store::{IndexMeta, INDEX_SCHEMA_VERSION};
use rust_knowledge::tantivy_index::retriever::{clamped_limit, parsed_choice, TantivyRetriever};
use rust_knowledge::tantivy_index::schema::{
    build_schema, from_tantivy_doc, readable_tantivy_doc, to_tantivy_doc, IndexFields,
};
use rust_knowledge::query::Query;
use tantivy::schema::Schema;

fn package(name: &str, version: &str) -> PackageIdentity {
    PackageIdentity {
        package_id: format!("path+file:///w/{name}#{version}"),
        name: name.into(),
        version: version.into(),
        source: None,
        manifest_path: format!("/w/{name}/Cargo.toml"),
    }
}

fn document(package: &PackageIdentity, title: &str) -> KnowledgeDocument {
    KnowledgeDocument {
        id: DocumentId::from_identity(&[package.package_id.as_str(), title]),
        package: package.clone(),
        source_kind: SourceKind::RustdocItem,
        title: title.into(),
        symbol_path: Some(format!("{}::{title}", package.name)),
        item_kind: Some("struct".into()),
        section_path: Vec::new(),
        text: "text".into(),
        source_path: None,
        source_span: None,
        related_symbols: Vec::new(),
        signature: None,
    }
}

fn readme(package: &PackageIdentity) -> MarkdownFile {
    MarkdownFile {
        rel_path: "README.md".into(),
        abs_path: format!("/w/{}/README.md", package.name),
        kind: SourceKind::CrateReadme,
    }
}

fn input(name: &str, version: &str, origin: Origin, text: Option<&str>) -> PackageInput {
    let identity = package(name, version);
    let file = readme(&identity);
    PackageInput { identity, origin, files: vec![(file, text.map(str::to_string))] }
}

fn nothing_generated() -> GeneratedRustdoc {
    GeneratedRustdoc { artifacts: Vec::new(), skipped: Vec::new() }
}

fn artifact(docs: Vec<KnowledgeDocument>, format: u32, cargo: Option<&str>, warning: &str) -> RustdocArtifact {
    RustdocArtifact {
        cargo_version: cargo.map(str::to_string),
        normalized: Ok(NormalizedRustdoc {
            format_version: format,
            warnings: vec![warning.into()],
            documents: docs,
        }),
    }
}

#[test]
fn ids_come_from_the_digest_of_the_identity() {
    assert_eq!(
        DocumentId::from_identity(&["a", "b"]).as_str(),
        "f04cdced9736a69da6103f08a4daaf8c"
    );
    assert_eq!(DocumentId::from_identity(&[]).as_str(), "e3b0c44298fc1c149afbf4c8996fb924");
    assert_ne!(DocumentId::from_identity(&["ab"]), DocumentId::from_identity(&["a", "b"]));
}

#[test]
fn ids_are_read_in_either_case() {
    let id = DocumentId::from_identity(&["x"]);
    assert_eq!(DocumentId::from_raw(id.as_str()), Some(id.clone()));
    assert_eq!(DocumentId::from_raw(&id.as_str().to_uppercase()), Some(id.clone()));
    assert_eq!(DocumentId::from_raw(""), None);
    assert_eq!(DocumentId::from_raw(&id.as_str()[1..]), None);
    assert_eq!(DocumentId::from_raw(&format!("{}0", id.as_str())), None);
    assert_eq!(DocumentId::from_raw("zzzzzzzzzzzzzzzzzzzzzzzzzzzzzzzz"), None);
    assert_eq!(DocumentId::from_raw(" f04cdced9736a69da6103f08a4daaf8"), None);
    assert_eq!(id.clone().as_str(), id.as_str());
}

#[test]
fn source_kinds_have_names() {
    for (kind, name) in [
        (SourceKind::RustdocItem, "rustdoc_item"),
        (SourceKind::RustdocModule, "rustdoc_module"),
        (SourceKind::CrateReadme, "crate_readme"),
        (SourceKind::MarkdownDocument, "markdown_document"),
    ] {
        assert_eq!(kind.as_str(), name);
        assert_eq!(SourceKind::parse(name), Ok(kind));
        assert_eq!(kind.is_rustdoc(), name.starts_with("rustdoc"));
    }
    assert_eq!(SourceKind::parse("Readme"), Err("unknown source kind: Readme".to_string()));
}

#[test]
fn errors_are_told() {
    let id = DocumentId::from_identity(&[]);
    assert_eq!(KnowledgeError::Engine("boom".into()).message(), "boom");
    assert_eq!(
        KnowledgeError::SchemaVersion { path: "/i".into(), index: 7, supported: 1 }.message(),
        "index at /i has schema version 7, supported is 1"
    );
    assert_eq!(
        KnowledgeError::DocumentNotFound(id).message(),
        "document not found: e3b0c44298fc1c149afbf4c8996fb924"
    );
    assert_eq!(IndexError::Engine("x".into()).message(), "x");
    assert_eq!(IndexError::Knowledge(KnowledgeError::Engine("y".into())).message(), "y");
    assert_eq!(
        IndexError::CargoMetadata { message: "no cargo".into() }.message(),
        "cargo metadata failed: no cargo"
    );
    assert_eq!(IndexError::Io { path: "/p".into(), message: "gone".into() }.message(), "/p: gone");
    assert_eq!(
        IndexError::RustdocFailed { spec: "a@1".into(), reason: "r".into() }.message(),
        "rustdoc failed for a@1: r"
    );
}

#[test]
fn documents_are_named_by_symbol_headings_or_title() {
    let p = package("a", "1.0.0");
    let mut doc = document(&p, "T");
    assert_eq!(doc.context(), "a::T");
    assert_eq!(doc.provenance(), "a@1.0.0 [rustdoc_item]");
    doc.symbol_path = None;
    assert_eq!(doc.context(), "T");
    doc.section_path = vec!["One".into(), "Two".into()];
    assert_eq!(doc.context(), "One > Two");
    let hit = SearchHit {
        id: doc.id.clone(),
        package_name: "a".into(),
        package_version: "1".into(),
        source_kind: SourceKind::CrateReadme,
        title: "t".into(),
        symbol_path: None,
        section_path: vec!["S".into()],
        snippet: String::new(),
    };
    assert_eq!(hit.context(), "S");
    assert_eq!(p.display(), "a@1.0.0");
    assert_eq!(p.root(), "/w/a");
    assert_eq!(SearchQuery::new("q").limit, DEFAULT_SEARCH_LIMIT);
}

#[test]
fn paths_are_joined_and_taken_apart() {
    assert_eq!(path_join("/a", "b"), "/a/b");
    assert_eq!(path_join("/a/", "b"), "/a/b");
    assert_eq!(path_join("/a", "/b"), "/b");
    assert_eq!(path_join("", "b"), "b");
    assert_eq!(parent("/a/b").as_deref(), Some("/a"));
    assert_eq!(parent("a").as_deref(), Some(""));
    assert_eq!(parent("/"), None);
    assert_eq!(rel_name("/a/docs/x.md", "/a"), "docs/x.md");
    assert_eq!(rel_name("/b/x.md", "/a"), "/b/x.md");
    assert!(is_same_path("/a//b/", "/a/b"));
    assert!(!is_same_path("/a/b", "/a/c"));
}

#[test]
fn lines_are_counted_from_one() {
    let index = LineIndex::new("a\nbb\n\nc");
    for (offset, line) in [(0, 1), (1, 1), (2, 2), (4, 2), (5, 3), (6, 4), (7, 4), (100, 4)] {
        assert_eq!(index.line(offset), line, "offset {offset}");
    }
    assert_eq!(index.line_behind(2, 3), 3);
    assert_eq!(index.line_behind(usize::MAX, 1), 4);
    assert_eq!(LineIndex::new("").line(0), 1);
}

#[test]
fn entries_are_entered_taken_or_left() {
    assert_eq!(entry_action("guide", true, None), EntryAction::Descend);
    for name in ["target", ".git", "node_modules", "vendor", "tests"] {
        assert_eq!(entry_action(name, true, None), EntryAction::Skip, "{name}");
        assert_eq!(entry_action(&format!("{name}.md"), false, Some(1)), EntryAction::Take);
    }
    assert_eq!(entry_action("a.md", false, Some(MAX_FILE_BYTES)), EntryAction::Take);
    assert_eq!(entry_action("a.md", false, Some(MAX_FILE_BYTES + 1)), EntryAction::Skip);
    assert_eq!(entry_action("a.md", false, None), EntryAction::Skip);
    assert_eq!(entry_action("a.markdown", false, Some(0)), EntryAction::Take);
    assert_eq!(entry_action("a.txt", false, Some(0)), EntryAction::Skip);
    assert_eq!(entry_action("md", false, Some(0)), EntryAction::Skip);
}

#[test]
fn one_readme_and_the_documents_in_path_order() {
    let p = package("a", "1.0.0");
    let places = readme_candidates(&p, Some("doc/INTRO.md"));
    assert_eq!(
        places,
        vec!["/w/a/doc/INTRO.md", "/w/a/README.md", "/w/a/README.markdown", "/w/a/README"]
    );
    assert_eq!(readme_candidates(&p, None).len(), 3);
    let docs: Vec<(String, Option<u64>)> = vec![
        ("/w/a/docs/z.md".into(), Some(1)),
        ("/w/a/docs/a/b.md".into(), Some(MAX_FILE_BYTES)),
        ("/w/a/docs/a.md".into(), Some(0)),
        ("/w/a/docs//z.md".into(), Some(1)),
    ];
    let files = discover(&p, None, &vec![None, Some(5), Some(5)], &docs);
    let shown: Vec<(&str, &str, SourceKind)> =
        files.iter().map(|f| (f.rel_path.as_str(), f.abs_path.as_str(), f.kind)).collect();
    assert_eq!(
        shown,
        vec![
            ("README.markdown", "/w/a/README.markdown", SourceKind::CrateReadme),
            ("docs/a/b.md", "/w/a/docs/a/b.md", SourceKind::MarkdownDocument),
            ("docs/a.md", "/w/a/docs/a.md", SourceKind::MarkdownDocument),
            ("docs/z.md", "/w/a/docs/z.md", SourceKind::MarkdownDocument),
        ]
    );
    // A README below the documentation directory is not taken twice.
    let again = discover(&p, Some("docs/z.md"), &vec![Some(1)], &docs);
    assert_eq!(again.len(), 3);
    assert_eq!(again[0].kind, SourceKind::CrateReadme);
    assert!(discover(&p, None, &Vec::new(), &Vec::new()).is_empty());
}

#[test]
fn large_and_hidden_files_are_left_out() {
    let p = package("a", "1.0.0");
    let large = Some(MAX_FILE_BYTES + 1);
    let names = |sizes: Vec<Option<u64>>, docs: Vec<(&str, Option<u64>)>| -> Vec<String> {
        let docs = docs.into_iter().map(|(p, size)| (p.to_string(), size)).collect();
        discover(&p, Some("INTRO.md"), &sizes, &docs).into_iter().map(|f| f.rel_path).collect()
    };
    // A README that is too large gives way to the next place.
    assert_eq!(names(vec![large, Some(1)], vec![]), vec!["README.md"]);
    assert_eq!(names(vec![Some(MAX_FILE_BYTES), Some(1)], vec![]), vec!["INTRO.md"]);
    assert!(names(vec![large, large, None, None], vec![]).is_empty());
    assert_eq!(
        names(
            vec![],
            vec![
                ("/w/a/docs/big.md", large),
                ("/w/a/docs/unknown.md", None),
                ("/w/a/docs/notes.txt", Some(1)),
                ("/w/a/docs/target/x.md", Some(1)),
                ("/w/a/docs/a/.git/x.md", Some(1)),
                ("/w/a/docs/node_modules/b/x.md", Some(1)),
                ("/w/a/docs/vendor/x.md", Some(1)),
                ("/w/a/docs/a/tests/x.md", Some(1)),
                ("/w/a/docs/tests.md", Some(1)),
            ],
        ),
        vec!["docs/tests.md"]
    );
    // Only directories below the documentation directory count.
    let vendored = PackageIdentity { manifest_path: "/vendor/a/Cargo.toml".into(), ..p.clone() };
    let docs = vec![("/vendor/a/docs/x.md".to_string(), Some(1))];
    assert_eq!(discover(&vendored, None, &Vec::new(), &docs).len(), 1);
}

#[test]
fn scopes_have_names_and_select_packages() {
    assert_eq!(RustdocScope::parse("workspace"), Some(RustdocScope::Workspace));
    assert_eq!(RustdocScope::parse("all"), Some(RustdocScope::All));
    assert_eq!(RustdocScope::parse("none"), Some(RustdocScope::MarkdownOnly));
    assert_eq!(RustdocScope::parse("Workspace"), None);
    let origins = vec![Origin::Registry, Origin::Workspace, Origin::Git, Origin::Path];
    let select = |rustdoc_scope| rustdoc_selection(&CorpusOptions { rustdoc_scope }, &origins);
    assert_eq!(select(RustdocScope::Workspace), vec![1, 3]);
    assert_eq!(select(RustdocScope::All), vec![0, 1, 2, 3]);
    assert!(select(RustdocScope::MarkdownOnly).is_empty());
    let names: Vec<&str> = origins.iter().map(|o| o.as_str()).collect();
    assert_eq!(names, vec!["registry", "workspace", "git", "path"]);
    assert_eq!(CorpusOptions::default().rustdoc_scope, RustdocScope::Workspace);
}

#[test]
fn packages_have_an_origin_and_a_name() {
    assert_eq!(origin_of(true, &None), Origin::Workspace);
    assert_eq!(origin_of(false, &None), Origin::Path);
    assert_eq!(origin_of(false, &Some("registry+https://x".into())), Origin::Registry);
    assert_eq!(origin_of(false, &Some("sparse+https://x".into())), Origin::Registry);
    assert_eq!(origin_of(true, &Some("git+https://x".into())), Origin::Git);
    assert_eq!(origin_of(false, &Some("path+file:///x".into())), Origin::Path);
    let p = package("a", "1.0.0");
    assert!(names_package("a", &p));
    assert!(names_package("a@1.0.0", &p));
    assert!(!names_package("a@1.0", &p));
    assert!(!names_package("", &p));
}

#[test]
fn a_corpus_is_collected_and_ordered() {
    let packages = vec![
        input("b", "1.0.0", Origin::Workspace, Some("# B\n\nbody\n")),
        input("a", "0.10.0", Origin::Registry, Some("# New\n\nbody\n")),
        input("a", "0.9.0", Origin::Registry, Some("# Old\n\nbody\n")),
        input("c", "1.0.0", Origin::Registry, None),
    ];
    let b = packages[0].identity.clone();
    let generated = GeneratedRustdoc {
        artifacts: vec![
            artifact(vec![document(&b, "Z"), document(&b, "Y")], 40, None, "first"),
            artifact(vec![document(&packages[1].identity, "X")], 41, Some("1.80"), "second"),
        ],
        skipped: vec![("c@1.0.0".into(), "no lib".into())],
    };
    let options = CorpusOptions { rustdoc_scope: RustdocScope::All };
    let (docs, report) = build_corpus(&packages, generated, &options).expect("a corpus");
    let shown: Vec<(String, String)> =
        docs.iter().map(|d| (d.package.display(), d.context())).collect();
    let expected: Vec<(String, String)> = [
        ("a@0.10.0", "New"),
        ("a@0.10.0", "a::X"),
        ("a@0.9.0", "Old"),
        ("b@1.0.0", "B"),
        ("b@1.0.0", "b::Y"),
        ("b@1.0.0", "b::Z"),
    ]
    .iter()
    .map(|(p, c)| (p.to_string(), c.to_string()))
    .collect();
    assert_eq!(shown, expected);
    assert_eq!(report.packages, 4);
    assert_eq!(report.markdown_files, 4);
    assert_eq!(report.markdown_documents, 3);
    assert_eq!(report.rustdoc_packages, 2);
    assert_eq!(report.rustdoc_documents, 3);
    assert_eq!(docs.iter().filter(|d| d.source_kind.is_rustdoc()).count(), 3);
    assert_eq!(report.rustdoc_format_version, Some(40));
    assert_eq!(report.cargo_version.as_deref(), Some("1.80"));
    assert_eq!(report.warnings, vec!["first", "second"]);
    assert_eq!(report.skipped, vec![("c@1.0.0".to_string(), "no lib".to_string())]);
}

#[test]
fn versions_are_ordered_as_versions() {
    let packages = vec![
        input("b", "1.0.0", Origin::Registry, None),
        input("a", "0.10.0", Origin::Registry, None),
        input("a", "0.9.0", Origin::Registry, None),
        input("a", "0.10.0-rc.1", Origin::Registry, None),
        input("a", "0.10.0", Origin::Registry, None),
    ];
    assert_eq!(ordered_packages(&packages), vec![2, 3, 1, 4, 0]);
    // Documents are ordered by what their package shows.
    let packages = vec![
        input("a", "0.9.0", Origin::Registry, Some("# S\n\nolder\n")),
        input("a", "0.10.0", Origin::Registry, Some("# S\n\nnewer\n")),
    ];
    let (docs, _) =
        build_corpus(&packages, nothing_generated(), &CorpusOptions::default()).expect("a corpus");
    assert_eq!(docs[0].text, "newer");
    assert_eq!(docs[1].text, "older");
}

#[test]
fn a_local_package_that_fails_is_an_error() {
    let failed = || GeneratedRustdoc {
        artifacts: Vec::new(),
        skipped: vec![("x@1".into(), "broken".into()), ("y@1".into(), "too".into())],
    };
    let error = build_corpus(&Vec::new(), failed(), &CorpusOptions::default()).expect_err("an error");
    assert!(matches!(
        &error,
        IndexError::RustdocFailed { spec, reason } if spec == "x@1" && reason == "broken"
    ));
    let all = CorpusOptions { rustdoc_scope: RustdocScope::All };
    let (docs, report) = build_corpus(&Vec::new(), failed(), &all).expect("a corpus");
    assert!(docs.is_empty());
    assert_eq!(report.skipped.len(), 2);
}

#[test]
fn an_artifact_that_cannot_be_read_is_an_error() {
    let broken = RustdocArtifact {
        cargo_version: None,
        normalized: Err(IndexError::Engine("unreadable".into())),
    };
    let generated = GeneratedRustdoc {
        artifacts: vec![artifact(Vec::new(), 1, None, "w"), broken],
        skipped: Vec::new(),
    };
    let error = build_corpus(&Vec::new(), generated, &CorpusOptions::default()).expect_err("an error");
    assert_eq!(error.message(), "unreadable");
}

#[test]
fn a_run_is_planned_and_recorded() {
    assert_eq!(default_index_dir("/w"), "/w/.rust-knowledge");
    assert_eq!(index_dir_or_default("/w", None), "/w/.rust-knowledge");
    assert_eq!(index_dir_or_default("/w", Some("/i")), "/i");
    assert_eq!(now_rfc3339(Some(1_700_000_000)), "1700000000");
    assert_eq!(now_rfc3339(None), "0");

    let options = IndexOptions::default();
    let plan = index_plan("/w", None, &options);
    assert_eq!(plan.index_dir, "/w/.rust-knowledge");
    assert_eq!(plan.corpus.rustdoc_scope, RustdocScope::Workspace);
    assert!(matches!(
        &plan.source,
        RustdocSource::Generate { cache_dir, toolchain: Some(t), cargo: None }
            if cache_dir == "/w/.rust-knowledge/cache/rustdoc" && t == "nightly"
    ));
    let prebuilt = IndexOptions {
        prebuilt_rustdoc: Some("/pre".into()),
        skip_rustdoc: true,
        ..IndexOptions::default()
    };
    let plan = index_plan("/w", Some("/i"), &prebuilt);
    assert_eq!(plan.index_dir, "/i");
    assert_eq!(plan.corpus.rustdoc_scope, RustdocScope::MarkdownOnly);
    assert!(matches!(&plan.source, RustdocSource::Prebuilt { dir } if dir == "/pre"));

    let facts = WorkspaceFacts {
        workspace_root: "/w".into(),
        lock_hash: Some("lock".into()),
        fingerprint: "print".into(),
    };
    let packages = vec![input("a", "1.0.0", Origin::Workspace, Some("# A\n\nx\n\n# B\n\ny\n"))];
    let (outcome, docs) =
        index_workspace(&facts, None, &prebuilt, &packages, nothing_generated(), Some(5))
            .expect("a run");
    assert_eq!(docs.len(), 2);
    assert_eq!(outcome.index_dir, "/w/.rust-knowledge");
    assert_eq!(outcome.corpus.packages, 1);
    let meta = outcome.meta;
    assert_eq!(meta.schema_version, INDEX_SCHEMA_VERSION);
    assert_eq!(meta.workspace_root, "/w");
    assert_eq!(meta.lock_hash.as_deref(), Some("lock"));
    assert_eq!(meta.metadata_fingerprint, "print");
    assert_eq!(meta.toolchain.as_deref(), Some("nightly"));
    assert_eq!(meta.rustdoc_scope, "None");
    assert_eq!(meta.package_count, 1);
    assert_eq!(meta.document_count, 2);
    assert_eq!(meta.built_at, "5");
    assert!(meta.skipped.is_empty() && meta.warnings.is_empty());

    let failed = GeneratedRustdoc {
        artifacts: Vec::new(),
        skipped: vec![("a@1.0.0".into(), "broken".into())],
    };
    let error = index_workspace(&facts, None, &options, &packages, failed, None);
    assert!(matches!(error, Err(IndexError::RustdocFailed { .. })));
}

fn meta(schema_version: u32) -> IndexMeta {
    IndexMeta {
        schema_version,
        workspace_root: "/w".into(),
        lock_hash: None,
        metadata_fingerprint: String::new(),
        cargo_version: None,
        toolchain: None,
        rustdoc_format_version: None,
        rustdoc_scope: "All".into(),
        package_count: 0,
        document_count: 0,
        built_at: "0".into(),
        skipped: Vec::new(),
        warnings: Vec::new(),
    }
}

#[test]
fn an_index_directory_has_a_layout() {
    assert_eq!(IndexMeta::meta_path("/i"), "/i/index-meta.json");
    assert_eq!(IndexMeta::tantivy_dir("/i"), "/i/tantivy");
    assert_eq!(IndexMeta::corpus_path("/i/"), "/i/corpus.jsonl");
    assert_eq!(IndexMeta::supported_schema(), INDEX_SCHEMA_VERSION);
    assert_eq!(meta(9).schema_version(), 9);
}

#[test]
fn other_indexes_are_refused() {
    let error = TantivyRetriever::open("/i", meta(2), build_schema()).expect_err("refused");
    assert!(matches!(
        &error,
        KnowledgeError::SchemaVersion { path, index: 2, supported: 1 } if path == "/i"
    ));
    let empty = Schema::builder().build();
    let error = TantivyRetriever::open("/i", meta(1), empty).expect_err("refused");
    assert!(matches!(&error, KnowledgeError::Engine(message) if message.contains("\"id\"")), "{error:?}");
    let open = TantivyRetriever::open("/i", meta(1), build_schema()).expect("opens");
    assert_eq!(open.index_dir(), "/i");
    assert_eq!(open.meta().rustdoc_scope, "All");
    assert_eq!(open.field_boosts().len(), 7);
    assert_eq!(open.field_boosts()[4], (open.fields().package_name, 25));
}

#[test]
fn fields_stand_in_the_order_of_the_layout() {
    let fields = IndexFields::from_schema(&build_schema()).expect("fields");
    let numbers = [
        fields.id,
        fields.package_id,
        fields.package_name,
        fields.package_name_raw,
        fields.package_version,
        fields.package_key,
        fields.source_kind,
        fields.item_kind,
        fields.title,
        fields.symbol_path,
        fields.symbol_exact,
        fields.symbol_last,
        fields.section_text,
        fields.section_json,
        fields.body,
        fields.signature,
        fields.related_text,
        fields.related_json,
        fields.source_path,
        fields.source_span_json,
    ];
    for (k, number) in numbers.iter().enumerate() {
        assert_eq!(*number as usize, k);
    }
}

#[test]
fn documents_survive_the_engine() {
    let schema = build_schema();
    let fields = IndexFields::from_schema(&schema).expect("fields");
    let p = package("a", "1.0.0");
    let mut doc = document(&p, "T");
    doc.section_path = vec!["a \"quoted\" heading".into(), "\u{4e2d}\\".into(), String::new()];
    doc.related_symbols = vec!["x::y".into()];
    doc.signature = Some("fn t()".into());
    let stored = to_tantivy_doc(&fields, &doc, "");
    let read = from_tantivy_doc(&fields, &stored, None).expect("read");
    assert_eq!(read.section_path, doc.section_path);
    assert_eq!(read.related_symbols, doc.related_symbols);
    assert_eq!(read.signature, doc.signature);
    assert_eq!(read.symbol_path, doc.symbol_path);
    assert_eq!(read.id, doc.id);
    assert_eq!(read.package.package_id, doc.package.package_id);
    assert!(fields.is_addressable());
    assert!(!IndexFields { body: 0x1_0000, ..fields }.is_addressable());
    let stored = readable_tantivy_doc(&fields, &doc, "").expect("small enough");
    assert_eq!(from_tantivy_doc(&fields, &stored, None).as_ref(), Some(&read));
    let empty = tantivy::TantivyDocument::new();
    assert_eq!(from_tantivy_doc(&fields, &empty, None), None);
}

#[test]
fn limits_fit_what_there_is() {
    assert_eq!(clamped_limit(10, 0), 1);
    assert_eq!(clamped_limit(10, 3), 3);
    assert_eq!(clamped_limit(10, usize::MAX), 10);
    assert_eq!(clamped_limit(0, 5), 1);
}

#[test]
fn refused_text_gives_way_to_its_words() {
    let kept = parsed_choice(vec![1], "a*", true, false);
    assert!(matches!(&kept, Query::Parsed { text, .. } if text == "a\\*"));
    let words = parsed_choice(vec![1], "[a-b", false, true);
    assert!(matches!(&words, Query::Parsed { text, fields } if text == "a b" && fields == &vec![1]));
    let nothing = parsed_choice(vec![1], "AND", false, false);
    assert!(matches!(&nothing, Query::Boolean { clauses } if clauses.is_empty()));
}
