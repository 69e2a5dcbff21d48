//! Documentation retrieval for the resolved dependency graph of a Cargo workspace.
//!
//! * `document`, `ids`, `error`: what is kept of a piece of documentation, how it
//!   is identified, and what can go wrong.
//! * `discovery`, `markdown`: which Markdown files of a package are taken up, and
//!   how they are cut into documents; `file_laws`, `chunk_laws`, `section_laws`: what
//!   holds of that.
//! * `corpus`, `pipeline`, `store`: the documents of a workspace, and what is
//!   recorded of an indexing run; `corpus_laws`: what holds of the former.
//! * `query`, `tantivy_index`: the fields of the index, queries over them, and
//!   results.
//! * `server`, `cli`, `telemetry`: what the frontends ask for, answer and log;
//!   `answer_laws`: what holds of that.
//! * `text`, `words`, `pieces`, `lines`, `paths`, `order`, `json`: what the others
//!   are made of; `text_laws`: what holds of them.
pub mod answer_laws;
pub mod chunk_laws;
pub mod cli;
pub mod corpus;
pub mod corpus_laws;
pub mod discovery;
pub mod document;
pub mod error;
pub mod file_laws;
pub mod ids;
pub mod json;
pub mod lines;
pub mod markdown;
pub mod order;
pub mod paths;
pub mod pieces;
pub mod pipeline;
pub mod query;
pub mod section_laws;
pub mod server;
pub mod store;
pub mod tantivy_index;
pub mod telemetry;
pub mod text;
pub mod text_laws;
pub mod words;

pub use corpus::{build_corpus, CorpusOptions, CorpusReport, RustdocScope};
pub use error::IndexError;
pub use pipeline::{index_workspace, IndexOptions, IndexOutcome};
pub use tantivy_index::TantivyRetriever;
