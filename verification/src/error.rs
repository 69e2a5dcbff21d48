//! What can go wrong, and how it is told.
use vstd::prelude::*;
use crate::ids::DocumentId;
use crate::pieces;

verus! {

/// A failed retrieval.
#[derive(Debug)]
pub enum KnowledgeError {
    /// The engine, or a query that it cannot run.
    Engine(String),
    /// The index was built with another field layout.
    SchemaVersion { path: String, index: u32, supported: u32 },
    /// There is no such document.
    DocumentNotFound(DocumentId),
}

/// A failed indexing run.
#[derive(Debug)]
pub enum IndexError {
    /// Retrieval failed.
    Knowledge(KnowledgeError),
    /// The engine failed.
    Engine(String),
    /// `cargo metadata` failed.
    CargoMetadata { message: String },
    /// A file or directory could not be read or written.
    Io { path: String, message: String },
    /// Documentation of a required package could not be generated.
    RustdocFailed { spec: String, reason: String },
}

impl KnowledgeError {
    /// The message for a reader.
    pub open spec fn text(self) -> Seq<char> {
        match self {
            KnowledgeError::Engine(message) => message@,
            KnowledgeError::SchemaVersion { path, index, supported } => "index at "@ + path@
                + " has schema version "@ + pieces::decimal(index as nat) + ", supported is "@
                + pieces::decimal(supported as nat),
            KnowledgeError::DocumentNotFound(id) => "document not found: "@ + id@,
        }
    }

    /// The message for a reader.
    pub fn message(&self) -> (r: String)
        ensures
            r@ == self.text(),
    {
        match self {
            KnowledgeError::Engine(message) => message.clone(),
            KnowledgeError::SchemaVersion { path, index, supported } => {
                let mut out = "index at ".to_owned();
                out.push_str(path.as_str());
                out.push_str(" has schema version ");
                out.push_str(pieces::decimal_string(*index as u128).as_str());
                out.push_str(", supported is ");
                out.push_str(pieces::decimal_string(*supported as u128).as_str());
                out
            },
            KnowledgeError::DocumentNotFound(id) => {
                let mut out = "document not found: ".to_owned();
                out.push_str(id.as_str());
                out
            },
        }
    }
}

impl IndexError {
    /// The message for a reader.
    pub open spec fn text(self) -> Seq<char> {
        match self {
            IndexError::Knowledge(error) => error.text(),
            IndexError::Engine(message) => message@,
            IndexError::CargoMetadata { message } => "cargo metadata failed: "@ + message@,
            IndexError::Io { path, message } => path@ + ": "@ + message@,
            IndexError::RustdocFailed { spec, reason } => "rustdoc failed for "@ + spec@ + ": "@
                + reason@,
        }
    }

    /// The message for a reader.
    pub fn message(&self) -> (r: String)
        ensures
            r@ == self.text(),
    {
        match self {
            IndexError::Knowledge(error) => error.message(),
            IndexError::Engine(message) => message.clone(),
            IndexError::CargoMetadata { message } => {
                let mut out = "cargo metadata failed: ".to_owned();
                out.push_str(message.as_str());
                out
            },
            IndexError::Io { path, message } => {
                let mut out = path.clone();
                out.push_str(": ");
                out.push_str(message.as_str());
                out
            },
            IndexError::RustdocFailed { spec, reason } => {
                let mut out = "rustdoc failed for ".to_owned();
                out.push_str(spec.as_str());
                out.push_str(": ");
                out.push_str(reason.as_str());
                out
            },
        }
    }
}

} // verus!
