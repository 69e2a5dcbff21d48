//! The indexing run: what to do before the documents are collected, and what is
//! recorded of it.
use vstd::prelude::*;
use crate::corpus;
use crate::corpus::{CorpusOptions, CorpusReport, GeneratedRustdoc, PackageInput, RustdocScope};
use crate::document;
use crate::document::KnowledgeDocument;
use crate::error::IndexError;
use crate::paths;
use crate::pieces;
use crate::store::{INDEX_SCHEMA_VERSION, IndexMeta};
use crate::words;

verus! {

/// What an indexing run is asked for.
#[derive(Clone, Debug)]
pub struct IndexOptions {
    pub rustdoc_scope: RustdocScope,
    /// The toolchain that generates documentation.
    pub toolchain: Option<String>,
    /// Where generated documentation lies already.
    pub prebuilt_rustdoc: Option<String>,
    /// Take Markdown only.
    pub skip_rustdoc: bool,
    /// The cargo binary to run.
    pub cargo: Option<String>,
}

impl Default for IndexOptions {
    fn default() -> (r: Self)
        ensures
            r.rustdoc_scope == RustdocScope::Workspace,
            words::shown(r.toolchain) == Some("nightly"@),
            r.prebuilt_rustdoc is None,
            !r.skip_rustdoc,
            r.cargo is None,
    {
        IndexOptions {
            rustdoc_scope: RustdocScope::Workspace,
            toolchain: Some("nightly".to_owned()),
            prebuilt_rustdoc: None,
            skip_rustdoc: false,
            cargo: None,
        }
    }
}

/// What is known of the workspace.
#[derive(Debug)]
pub struct WorkspaceFacts {
    pub workspace_root: String,
    pub lock_hash: Option<String>,
    pub fingerprint: String,
}

/// Where generated documentation comes from.
#[derive(Debug)]
pub enum RustdocSource {
    /// It lies in this directory.
    Prebuilt { dir: String },
    /// It is generated into this directory.
    Generate { cache_dir: String, toolchain: Option<String>, cargo: Option<String> },
}

/// What to do before the documents are collected.
#[derive(Debug)]
pub struct IndexPlan {
    pub index_dir: String,
    pub corpus: CorpusOptions,
    pub source: RustdocSource,
}

/// What a successful run gives.
#[derive(Debug)]
pub struct IndexOutcome {
    pub meta: IndexMeta,
    pub corpus: CorpusReport,
    pub index_dir: String,
}

/// The index directory of a workspace.
pub open spec fn default_dir(workspace_root: Seq<char>) -> Seq<char> {
    paths::joined(workspace_root, ".rust-knowledge"@)
}

/// The index directory of a workspace where none is asked for.
pub fn default_index_dir(workspace_root: &str) -> (r: String)
    ensures
        r@ == default_dir(workspace_root@),
{
    paths::path_join(workspace_root, ".rust-knowledge")
}

/// The index directory: the one asked for, else that of the workspace.
pub open spec fn dir_of(workspace_root: Seq<char>, index_dir: Option<&str>) -> Seq<char> {
    match index_dir {
        Some(dir) => dir@,
        None => default_dir(workspace_root),
    }
}

/// The index directory: the one asked for, else that of the workspace.
pub fn index_dir_or_default(workspace_root: &str, index_dir: Option<&str>) -> (r: String)
    ensures
        r@ == dir_of(workspace_root@, index_dir),
{
    match index_dir {
        Some(dir) => dir.to_owned(),
        None => default_index_dir(workspace_root),
    }
}

/// The scope of a run: nothing where documentation of items is to be skipped.
pub open spec fn scope_of(options: IndexOptions) -> RustdocScope {
    if options.skip_rustdoc {
        RustdocScope::MarkdownOnly
    } else {
        options.rustdoc_scope
    }
}

/// The scope of a run.
fn effective_scope(options: &IndexOptions) -> (r: RustdocScope)
    ensures
        r == scope_of(*options),
{
    if options.skip_rustdoc {
        RustdocScope::MarkdownOnly
    } else {
        options.rustdoc_scope
    }
}

/// What to do before the documents are collected.
pub fn index_plan(
    workspace_root: &str,
    index_dir: Option<&str>,
    options: &IndexOptions,
) -> (r: IndexPlan)
    ensures
        r.index_dir@ == dir_of(workspace_root@, index_dir),
        r.corpus.rustdoc_scope == scope_of(*options),
        match options.prebuilt_rustdoc {
            Some(dir) => r.source is Prebuilt && r.source->dir@ == dir@,
            None => {
                &&& r.source is Generate
                &&& r.source->cache_dir@ == paths::joined(
                    paths::joined(dir_of(workspace_root@, index_dir), "cache"@),
                    "rustdoc"@,
                )
                &&& words::shown(r.source->toolchain) == words::shown(options.toolchain)
                &&& words::shown(r.source->cargo) == words::shown(options.cargo)
            },
        },
{
    let dir = index_dir_or_default(workspace_root, index_dir);
    let source = match &options.prebuilt_rustdoc {
        Some(prebuilt) => RustdocSource::Prebuilt { dir: prebuilt.clone() },
        None => {
            let cache = paths::path_join(dir.as_str(), "cache");
            RustdocSource::Generate {
                cache_dir: paths::path_join(cache.as_str(), "rustdoc"),
                toolchain: words::copy_option(&options.toolchain),
                cargo: words::copy_option(&options.cargo),
            }
        },
    };
    IndexPlan {
        index_dir: dir,
        corpus: CorpusOptions { rustdoc_scope: effective_scope(options) },
        source,
    }
}

/// The name of a scope in the metadata.
pub open spec fn scope_name(scope: RustdocScope) -> Seq<char> {
    match scope {
        RustdocScope::Workspace => "Workspace"@,
        RustdocScope::All => "All"@,
        RustdocScope::MarkdownOnly => "None"@,
    }
}

/// The name of a scope in the metadata.
fn scope_text(scope: RustdocScope) -> (r: &'static str)
    ensures
        r@ == scope_name(scope),
{
    match scope {
        RustdocScope::Workspace => "Workspace",
        RustdocScope::All => "All",
        RustdocScope::MarkdownOnly => "None",
    }
}

/// The time of a run, in seconds since the epoch; zero where the clock stands
/// before it.
pub open spec fn time_text(seconds: Option<u64>) -> Seq<char> {
    pieces::decimal(
        match seconds {
            Some(n) => n as nat,
            None => 0,
        },
    )
}

/// The time of a run, given the seconds since the epoch.
pub fn now_rfc3339(seconds: Option<u64>) -> (r: String)
    ensures
        r@ == time_text(seconds),
{
    match seconds {
        Some(n) => pieces::decimal_string(n as u128),
        None => pieces::decimal_string(0),
    }
}

/// A copy of a list of pairs of strings.
fn copy_pairs(pairs: &Vec<(String, String)>) -> (r: Vec<(String, String)>)
    ensures
        r@ == pairs@,
{
    let mut out: Vec<(String, String)> = Vec::new();
    let mut i: usize = 0;
    while i < pairs.len()
        invariant
            i <= pairs@.len(),
            out@ == pairs@.take(i as int),
        decreases pairs@.len() - i,
    {
        let entry = &pairs[i];
        out.push((entry.0.clone(), entry.1.clone()));
        assert(out@ =~= pairs@.take(i + 1));
        i = i + 1;
    }
    assert(pairs@.take(pairs@.len() as int) == pairs@);
    out
}

/// What is recorded of a run.
pub open spec fn recorded(
    meta: IndexMeta,
    facts: WorkspaceFacts,
    options: IndexOptions,
    report: CorpusReport,
    documents: nat,
    seconds: Option<u64>,
) -> bool {
    &&& meta.schema_version == INDEX_SCHEMA_VERSION
    &&& meta.workspace_root@ == facts.workspace_root@
    &&& words::shown(meta.lock_hash) == words::shown(facts.lock_hash)
    &&& meta.metadata_fingerprint@ == facts.fingerprint@
    &&& words::shown(meta.cargo_version) == words::shown(report.cargo_version)
    &&& words::shown(meta.toolchain) == words::shown(options.toolchain)
    &&& meta.rustdoc_format_version == report.rustdoc_format_version
    &&& meta.rustdoc_scope@ == scope_name(scope_of(options))
    &&& meta.package_count == report.packages
    &&& meta.document_count == documents
    &&& meta.built_at@ == time_text(seconds)
    &&& meta.skipped@ == report.skipped@
    &&& words::texts(meta.warnings@) == words::texts(report.warnings@)
}

/// Collects the documents of a workspace and records the run: the outcome, and
/// the documents to put into the index. Fails as building the corpus fails.
pub fn index_workspace(
    facts: &WorkspaceFacts,
    index_dir: Option<&str>,
    options: &IndexOptions,
    packages: &Vec<PackageInput>,
    generated: GeneratedRustdoc,
    seconds: Option<u64>,
) -> (r: Result<(IndexOutcome, Vec<KnowledgeDocument>), IndexError>)
    ensures
        match r {
            Ok((outcome, documents)) => {
                &&& corpus::required_failure(scope_of(*options), generated.skipped@) is None
                &&& corpus::all_normalized(generated.artifacts@)
                &&& document::document_views(documents@) == corpus::ordered_documents(
                    corpus::collected_documents(packages@, generated.artifacts@),
                )
                &&& corpus::report_of(outcome.corpus, packages@, generated)
                &&& recorded(
                    outcome.meta,
                    *facts,
                    *options,
                    outcome.corpus,
                    documents@.len(),
                    seconds,
                )
                &&& outcome.index_dir@ == dir_of(facts.workspace_root@, index_dir)
            },
            Err(error) => match corpus::required_failure(scope_of(*options), generated.skipped@) {
                Some((spec, reason)) => {
                    &&& error is RustdocFailed
                    &&& error->spec@ == spec
                    &&& error->reason@ == reason
                },
                None => exists|k: int|
                    0 <= k < generated.artifacts@.len() && (#[trigger] generated.artifacts@[k]).normalized
                        == Err::<corpus::NormalizedRustdoc, IndexError>(error)
                        && corpus::all_normalized(generated.artifacts@.take(k)),
            },
        },
{
    let scope = effective_scope(options);
    let (documents, report) = match corpus::build_corpus(
        packages,
        generated,
        &CorpusOptions { rustdoc_scope: scope },
    ) {
        Ok(built) => built,
        Err(error) => {
            return Err(error);
        },
    };
    let meta = IndexMeta {
        schema_version: IndexMeta::supported_schema(),
        workspace_root: facts.workspace_root.clone(),
        lock_hash: words::copy_option(&facts.lock_hash),
        metadata_fingerprint: facts.fingerprint.clone(),
        cargo_version: words::copy_option(&report.cargo_version),
        toolchain: words::copy_option(&options.toolchain),
        rustdoc_format_version: report.rustdoc_format_version,
        rustdoc_scope: scope_text(scope).to_owned(),
        package_count: report.packages,
        document_count: documents.len(),
        built_at: now_rfc3339(seconds),
        skipped: copy_pairs(&report.skipped),
        warnings: words::copy_strings(&report.warnings),
    };
    let dir = index_dir_or_default(facts.workspace_root.as_str(), index_dir);
    Ok((IndexOutcome { meta, corpus: report, index_dir: dir }, documents))
}

} // verus!
