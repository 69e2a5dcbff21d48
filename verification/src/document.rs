//! The normalized data model: packages, documents, queries and results.
use vstd::prelude::*;
use crate::ids::DocumentId;
use crate::paths;
use crate::text;
use crate::words;

verus! {

// ---------------------------------------------------------------------------
// Source kinds
// ---------------------------------------------------------------------------

/// Where a document comes from.
#[derive(Clone, Copy, Debug, PartialEq, Eq, Hash, Structural)]
pub enum SourceKind {
    /// An item of a crate's public API.
    RustdocItem,
    /// A module, or the crate root.
    RustdocModule,
    /// The package's README.
    CrateReadme,
    /// Any other Markdown file of the package.
    MarkdownDocument,
}

impl SourceKind {
    /// The name of the kind in queries, results and the index.
    pub open spec fn name(self) -> Seq<char> {
        match self {
            SourceKind::RustdocItem => "rustdoc_item"@,
            SourceKind::RustdocModule => "rustdoc_module"@,
            SourceKind::CrateReadme => "crate_readme"@,
            SourceKind::MarkdownDocument => "markdown_document"@,
        }
    }

    /// The kind with that name.
    pub open spec fn named(s: Seq<char>) -> Option<SourceKind> {
        if s == SourceKind::RustdocItem.name() {
            Some(SourceKind::RustdocItem)
        } else if s == SourceKind::RustdocModule.name() {
            Some(SourceKind::RustdocModule)
        } else if s == SourceKind::CrateReadme.name() {
            Some(SourceKind::CrateReadme)
        } else if s == SourceKind::MarkdownDocument.name() {
            Some(SourceKind::MarkdownDocument)
        } else {
            None
        }
    }

    /// The name of the kind.
    pub fn as_str(self) -> (r: &'static str)
        ensures
            r@ == self.name(),
    {
        match self {
            SourceKind::RustdocItem => "rustdoc_item",
            SourceKind::RustdocModule => "rustdoc_module",
            SourceKind::CrateReadme => "crate_readme",
            SourceKind::MarkdownDocument => "markdown_document",
        }
    }

    /// Reads the name of a kind. Any other text is refused, with a message that
    /// quotes it.
    pub fn parse(s: &str) -> (r: Result<SourceKind, String>)
        ensures
            match r {
                Ok(kind) => SourceKind::named(s@) == Some(kind),
                Err(message) => SourceKind::named(s@) is None && message@ == "unknown source kind: "@
                    + s@,
            },
    {
        if text::same_text(s, "rustdoc_item") {
            Ok(SourceKind::RustdocItem)
        } else if text::same_text(s, "rustdoc_module") {
            Ok(SourceKind::RustdocModule)
        } else if text::same_text(s, "crate_readme") {
            Ok(SourceKind::CrateReadme)
        } else if text::same_text(s, "markdown_document") {
            Ok(SourceKind::MarkdownDocument)
        } else {
            let mut message = "unknown source kind: ".to_owned();
            message.push_str(s);
            Err(message)
        }
    }

    /// Whether the kind is one that rustdoc gives.
    pub fn is_rustdoc(self) -> (r: bool)
        ensures
            r == (self is RustdocItem || self is RustdocModule),
    {
        matches!(self, SourceKind::RustdocItem | SourceKind::RustdocModule)
    }
}

/// Reading the name of a kind gives the kind back.
pub proof fn law_source_kind_round_trip(kind: SourceKind)
    ensures
        SourceKind::named(kind.name()) == Some(kind),
{
    reveal_strlit("rustdoc_item");
    reveal_strlit("rustdoc_module");
    reveal_strlit("crate_readme");
    reveal_strlit("markdown_document");
    assert("rustdoc_item"@.len() == 12 && "rustdoc_module"@.len() == 14);
    assert("crate_readme"@.len() == 12 && "markdown_document"@.len() == 17);
    assert("rustdoc_item"@[0] == 'r' && "crate_readme"@[0] == 'c');
}

// ---------------------------------------------------------------------------
// Packages
// ---------------------------------------------------------------------------

/// One package of the resolved graph. Its identity is the package id.
#[derive(Debug, PartialEq, Eq, Hash)]
pub struct PackageIdentity {
    /// Cargo's opaque package id.
    pub package_id: String,
    pub name: String,
    pub version: String,
    /// Where the package comes from, if it is not local.
    pub source: Option<String>,
    pub manifest_path: String,
}

/// What a package shows.
pub struct PackageView {
    pub package_id: Seq<char>,
    pub name: Seq<char>,
    pub version: Seq<char>,
    pub source: Option<Seq<char>>,
    pub manifest_path: Seq<char>,
}

impl PackageView {
    /// `name@version`.
    pub open spec fn display(self) -> Seq<char> {
        self.name + "@"@ + self.version
    }

    /// The directory that holds the manifest.
    pub open spec fn root(self) -> Seq<char> {
        match paths::parent_of(self.manifest_path) {
            Some(dir) => dir,
            None => Seq::empty(),
        }
    }
}

impl View for PackageIdentity {
    type V = PackageView;

    open spec fn view(&self) -> PackageView {
        PackageView {
            package_id: self.package_id@,
            name: self.name@,
            version: self.version@,
            source: words::shown(self.source),
            manifest_path: self.manifest_path@,
        }
    }
}

impl Clone for PackageIdentity {
    fn clone(&self) -> (r: Self)
        ensures
            r@ == self@,
    {
        PackageIdentity {
            package_id: self.package_id.clone(),
            name: self.name.clone(),
            version: self.version.clone(),
            source: words::copy_option(&self.source),
            manifest_path: self.manifest_path.clone(),
        }
    }
}

impl PackageIdentity {
    /// `name@version`.
    pub fn display(&self) -> (r: String)
        ensures
            r@ == self@.display(),
    {
        let mut out = self.name.clone();
        out.push_str("@");
        out.push_str(self.version.as_str());
        out
    }

    /// The directory that holds the manifest.
    pub fn root(&self) -> (r: String)
        ensures
            r@ == self@.root(),
    {
        match paths::parent(self.manifest_path.as_str()) {
            Some(dir) => dir,
            None => String::new(),
        }
    }
}

// ---------------------------------------------------------------------------
// Documents
// ---------------------------------------------------------------------------

/// A range of a source file, lines and columns counted from one.
#[derive(Clone, Copy, Debug, PartialEq, Eq, Hash, Structural)]
pub struct SourceSpan {
    pub start_line: u32,
    pub start_col: u32,
    pub end_line: u32,
    pub end_col: u32,
}

/// One piece of documentation with its provenance.
#[derive(Debug, PartialEq, Eq)]
pub struct KnowledgeDocument {
    pub id: DocumentId,
    pub package: PackageIdentity,
    pub source_kind: SourceKind,
    pub title: String,
    pub symbol_path: Option<String>,
    pub item_kind: Option<String>,
    /// The headings above a Markdown document, outermost first.
    pub section_path: Vec<String>,
    pub text: String,
    pub source_path: Option<String>,
    pub source_span: Option<SourceSpan>,
    pub related_symbols: Vec<String>,
    pub signature: Option<String>,
}

/// What a document shows.
pub struct DocumentView {
    pub id: Seq<char>,
    pub package: PackageView,
    pub source_kind: SourceKind,
    pub title: Seq<char>,
    pub symbol_path: Option<Seq<char>>,
    pub item_kind: Option<Seq<char>>,
    pub section_path: Seq<Seq<char>>,
    pub text: Seq<char>,
    pub source_path: Option<Seq<char>>,
    pub source_span: Option<SourceSpan>,
    pub related_symbols: Seq<Seq<char>>,
    pub signature: Option<Seq<char>>,
}

/// What names a document to a reader: its symbol path, else its headings, else
/// its title.
pub open spec fn context_of(
    symbol_path: Option<Seq<char>>,
    section_path: Seq<Seq<char>>,
    title: Seq<char>,
) -> Seq<char> {
    match symbol_path {
        Some(symbol) => symbol,
        None => if section_path.len() > 0 {
            words::join(section_path, " > "@)
        } else {
            title
        },
    }
}

/// What names a document to a reader.
pub fn context_text(
    symbol_path: &Option<String>,
    section_path: &Vec<String>,
    title: &str,
) -> (r: String)
    ensures
        r@ == context_of(words::shown(*symbol_path), words::texts(section_path@), title@),
{
    match symbol_path {
        Some(symbol) => symbol.clone(),
        None => if section_path.len() > 0 {
            words::join_strings(section_path, " > ")
        } else {
            title.to_owned()
        },
    }
}

impl DocumentView {
    /// What names the document to a reader.
    pub open spec fn context(self) -> Seq<char> {
        context_of(self.symbol_path, self.section_path, self.title)
    }

    /// The package that the document belongs to, and where in it it comes from.
    pub open spec fn provenance(self) -> Seq<char> {
        self.package.display() + " ["@ + self.source_kind.name() + "]"@
    }
}

impl View for KnowledgeDocument {
    type V = DocumentView;

    open spec fn view(&self) -> DocumentView {
        DocumentView {
            id: self.id@,
            package: self.package@,
            source_kind: self.source_kind,
            title: self.title@,
            symbol_path: words::shown(self.symbol_path),
            item_kind: words::shown(self.item_kind),
            section_path: words::texts(self.section_path@),
            text: self.text@,
            source_path: words::shown(self.source_path),
            source_span: self.source_span,
            related_symbols: words::texts(self.related_symbols@),
            signature: words::shown(self.signature),
        }
    }
}

/// What a list of documents shows.
pub open spec fn document_views(docs: Seq<KnowledgeDocument>) -> Seq<DocumentView> {
    docs.map_values(|d: KnowledgeDocument| d@)
}

impl Clone for KnowledgeDocument {
    fn clone(&self) -> (r: Self)
        ensures
            r@ == self@,
    {
        KnowledgeDocument {
            id: self.id.clone(),
            package: self.package.clone(),
            source_kind: self.source_kind,
            title: self.title.clone(),
            symbol_path: words::copy_option(&self.symbol_path),
            item_kind: words::copy_option(&self.item_kind),
            section_path: words::copy_strings(&self.section_path),
            text: self.text.clone(),
            source_path: words::copy_option(&self.source_path),
            source_span: self.source_span,
            related_symbols: words::copy_strings(&self.related_symbols),
            signature: words::copy_option(&self.signature),
        }
    }
}

impl KnowledgeDocument {
    /// What names the document to a reader.
    pub fn context(&self) -> (r: String)
        ensures
            r@ == self@.context(),
    {
        context_text(&self.symbol_path, &self.section_path, self.title.as_str())
    }

    /// The package that the document belongs to, and where in it it comes from.
    pub fn provenance(&self) -> (r: String)
        ensures
            r@ == self@.provenance(),
    {
        let mut out = self.package.display();
        out.push_str(" [");
        out.push_str(self.source_kind.as_str());
        out.push_str("]");
        out
    }
}

// ---------------------------------------------------------------------------
// Queries and results
// ---------------------------------------------------------------------------

/// A search request.
#[derive(Clone, Debug)]
pub struct SearchQuery {
    /// Natural language or identifiers.
    pub text: String,
    /// Restrict to these packages (`name` or `name@version`); empty: all.
    pub packages: Vec<String>,
    /// Restrict to these source kinds; empty: all.
    pub source_kinds: Vec<SourceKind>,
    /// Restrict to these item kinds; empty: all.
    pub item_kinds: Vec<String>,
    /// Maximum number of hits.
    pub limit: usize,
}

/// How many hits a search gives where nothing else is asked for.
pub const DEFAULT_SEARCH_LIMIT: usize = 8;

impl SearchQuery {
    /// A search for `text` without any filter.
    pub fn new(text: &str) -> (r: SearchQuery)
        ensures
            r.text@ == text@,
            r.packages@.len() == 0,
            r.source_kinds@.len() == 0,
            r.item_kinds@.len() == 0,
            r.limit == DEFAULT_SEARCH_LIMIT,
    {
        SearchQuery {
            text: text.to_owned(),
            packages: Vec::new(),
            source_kinds: Vec::new(),
            item_kinds: Vec::new(),
            limit: DEFAULT_SEARCH_LIMIT,
        }
    }
}

/// One search result. The engine's score stays with the engine.
#[derive(Clone, Debug, PartialEq, Eq)]
pub struct SearchHit {
    pub id: DocumentId,
    pub package_name: String,
    pub package_version: String,
    pub source_kind: SourceKind,
    pub title: String,
    pub symbol_path: Option<String>,
    pub section_path: Vec<String>,
    pub snippet: String,
}

/// What a search result shows.
pub struct HitView {
    pub id: Seq<char>,
    pub package_name: Seq<char>,
    pub package_version: Seq<char>,
    pub source_kind: SourceKind,
    pub title: Seq<char>,
    pub symbol_path: Option<Seq<char>>,
    pub section_path: Seq<Seq<char>>,
    pub snippet: Seq<char>,
}

impl View for SearchHit {
    type V = HitView;

    open spec fn view(&self) -> HitView {
        HitView {
            id: self.id@,
            package_name: self.package_name@,
            package_version: self.package_version@,
            source_kind: self.source_kind,
            title: self.title@,
            symbol_path: words::shown(self.symbol_path),
            section_path: words::texts(self.section_path@),
            snippet: self.snippet@,
        }
    }
}

impl SearchHit {
    /// What names the hit to a reader.
    pub fn context(&self) -> (r: String)
        ensures
            r@ == context_of(self@.symbol_path, self@.section_path, self@.title),
    {
        context_text(&self.symbol_path, &self.section_path, self.title.as_str())
    }
}

/// A symbol request.
#[derive(Clone, Debug)]
pub struct SymbolQuery {
    /// A symbol path, or its last segment.
    pub symbol: String,
    /// Restrict to these packages (`name` or `name@version`); empty: all.
    pub packages: Vec<String>,
    /// Maximum number of matches.
    pub limit: usize,
}

/// One symbol and what is known of it.
#[derive(Clone, Debug, PartialEq, Eq)]
pub struct SymbolInfo {
    pub id: DocumentId,
    pub package_name: String,
    pub package_version: String,
    pub kind: String,
    pub symbol_path: String,
    pub signature: Option<String>,
    pub snippet: String,
    pub source_path: Option<String>,
    pub source_span: Option<SourceSpan>,
    pub related_symbols: Vec<String>,
}

/// What a symbol result shows.
pub struct SymbolView {
    pub id: Seq<char>,
    pub package_name: Seq<char>,
    pub package_version: Seq<char>,
    pub kind: Seq<char>,
    pub symbol_path: Seq<char>,
    pub signature: Option<Seq<char>>,
    pub snippet: Seq<char>,
    pub source_path: Option<Seq<char>>,
    pub source_span: Option<SourceSpan>,
    pub related_symbols: Seq<Seq<char>>,
}

impl View for SymbolInfo {
    type V = SymbolView;

    open spec fn view(&self) -> SymbolView {
        SymbolView {
            id: self.id@,
            package_name: self.package_name@,
            package_version: self.package_version@,
            kind: self.kind@,
            symbol_path: self.symbol_path@,
            signature: words::shown(self.signature),
            snippet: self.snippet@,
            source_path: words::shown(self.source_path),
            source_span: self.source_span,
            related_symbols: words::texts(self.related_symbols@),
        }
    }
}

} // verus!
