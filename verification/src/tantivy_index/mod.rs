//! The search index: its fields, its documents and the queries run on it, and what
//! holds of filters, searches and results.
pub mod engine;
pub mod filter_laws;
pub mod query_text;
pub mod retriever;
pub mod schema;
pub mod search_laws;

pub use retriever::TantivyRetriever;
