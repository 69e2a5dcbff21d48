//! The layout of an index directory and the metadata kept beside the index.
use vstd::prelude::*;
use crate::paths;

verus! {

/// The version of the field layout. The retriever refuses to read indexes of
/// any other version.
pub const INDEX_SCHEMA_VERSION: u32 = 1;

/// What is recorded of an indexing run.
#[derive(Clone, Debug)]
pub struct IndexMeta {
    pub schema_version: u32,
    pub workspace_root: String,
    pub lock_hash: Option<String>,
    pub metadata_fingerprint: String,
    pub cargo_version: Option<String>,
    pub toolchain: Option<String>,
    pub rustdoc_format_version: Option<u32>,
    pub rustdoc_scope: String,
    pub package_count: usize,
    pub document_count: usize,
    pub built_at: String,
    pub skipped: Vec<(String, String)>,
    pub warnings: Vec<String>,
}

impl IndexMeta {
    /// The version of the field layout of the index.
    pub fn schema_version(&self) -> (r: u32)
        ensures
            r == self.schema_version,
    {
        self.schema_version
    }

    /// The version of the field layout that this library reads and writes.
    pub fn supported_schema() -> (r: u32)
        ensures
            r == INDEX_SCHEMA_VERSION,
    {
        INDEX_SCHEMA_VERSION
    }

    /// Where the metadata lies in an index directory.
    pub fn meta_path(index_dir: &str) -> (r: String)
        ensures
            r@ == paths::joined(index_dir@, "index-meta.json"@),
    {
        paths::path_join(index_dir, "index-meta.json")
    }

    /// Where the engine's files lie in an index directory.
    pub fn tantivy_dir(index_dir: &str) -> (r: String)
        ensures
            r@ == paths::joined(index_dir@, "tantivy"@),
    {
        paths::path_join(index_dir, "tantivy")
    }

    /// Where the normalized documents lie in an index directory.
    pub fn corpus_path(index_dir: &str) -> (r: String)
        ensures
            r@ == paths::joined(index_dir@, "corpus.jsonl"@),
    {
        paths::path_join(index_dir, "corpus.jsonl")
    }
}

} // verus!
