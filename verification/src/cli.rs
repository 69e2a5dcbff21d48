//! The command line: requests from arguments, and what is printed.
use vstd::prelude::*;
use crate::corpus::{CorpusReport, RustdocScope};
use crate::document;
use crate::document::{DocumentView, HitView, KnowledgeDocument, SearchHit, SearchQuery, SymbolInfo};
use crate::document::{SymbolQuery, SymbolView};
use crate::ids;
use crate::ids::DocumentId;
use crate::order;
use crate::pieces;
use crate::pipeline::{IndexOptions, IndexOutcome};
use crate::server;
use crate::tantivy_index::query_text;
use crate::text;
use crate::words;

verus! {

// ---------------------------------------------------------------------------
// Quoting and padding
// ---------------------------------------------------------------------------

/// How a text is quoted: `format!("{:?}")` of it.
pub uninterp spec fn debug_text(s: Seq<char>) -> Seq<char>;

/// Whether a character stands for itself in a quoted text: a printable ASCII
/// character that is neither a quote nor a backslash.
pub open spec fn plain(c: char) -> bool {
    ' ' <= c && c <= '~' && c != '"' && c != '\\' && c != '\''
}

/// Formats a text with `{:?}`, as `core::fmt::Debug` does for `str`: in double
/// quotes, with what is not printable escaped. A text of plain characters is
/// only put in quotes; which escapes the others get is left to the name.
#[verifier::external_body]
fn quoted(s: &str) -> (r: String)
    ensures
        r@ == debug_text(s@),
        (forall|i: int| 0 <= i < s@.len() ==> plain(#[trigger] s@[i])) ==> r@ == seq!['"'] + s@
            + seq!['"'],
{
    format!("{:?}", s)
}

/// A number of spaces.
pub open spec fn spaces(n: nat) -> Seq<char> {
    Seq::new(n, |i: int| ' ')
}

/// The spaces that a text lacks to a width.
pub open spec fn gap(s: Seq<char>, width: nat) -> Seq<char> {
    if s.len() < width {
        spaces((width - s.len()) as nat)
    } else {
        Seq::empty()
    }
}

/// The spaces that a text lacks to a width.
fn gap_text(s: &str, width: usize) -> (r: String)
    ensures
        r@ == gap(s@, width as nat),
{
    let len: usize = text::to_chars(s).len();
    let mut out = String::new();
    let mut i: usize = len;
    while i < width
        invariant
            len <= i,
            len == s@.len(),
            i <= width || i == len,
            out@ == spaces((i - len) as nat),
        decreases width - i,
    {
        out.push(' ');
        i = i + 1;
    }
    assert(out@ =~= gap(s@, width as nat));
    out
}

/// A text at the left of a column.
pub open spec fn left(s: Seq<char>, width: nat) -> Seq<char> {
    s + gap(s, width)
}

/// A text at the left of a column.
fn left_text(s: &str, width: usize) -> (r: String)
    ensures
        r@ == left(s@, width as nat),
{
    let mut out = s.to_owned();
    out.push_str(gap_text(s, width).as_str());
    out
}

/// A text at the right of a column.
pub open spec fn right(s: Seq<char>, width: nat) -> Seq<char> {
    gap(s, width) + s
}

/// A text at the right of a column.
fn right_text(s: &str, width: usize) -> (r: String)
    ensures
        r@ == right(s@, width as nat),
{
    let mut out = gap_text(s, width);
    out.push_str(s);
    out
}

/// No column is narrower than its width, and no text is cut.
pub proof fn law_columns_keep_text(s: Seq<char>, width: nat)
    ensures
        left(s, width).len() >= width,
        left(s, width).take(s.len() as int) == s,
        right(s, width).len() >= width,
        right(s, width).skip(right(s, width).len() - s.len()) == s,
{
    assert(left(s, width).take(s.len() as int) =~= s);
    assert(right(s, width).skip(right(s, width).len() - s.len()) =~= s);
}

// ---------------------------------------------------------------------------
// packages
// ---------------------------------------------------------------------------

/// One package of the resolved graph as it is listed.
#[derive(Debug)]
pub struct PackageRow {
    pub name: String,
    pub version: String,
    pub origin: String,
    /// The enabled features, separated by commas.
    pub features: String,
    pub manifest_path: String,
    pub package_id: String,
}

/// What packages are listed by: name, then version.
pub open spec fn row_key(row: PackageRow) -> Seq<Seq<char>> {
    seq![row.name@, row.version@]
}

/// What packages are listed by.
pub open spec fn row_keys(rows: Seq<PackageRow>) -> Seq<Seq<Seq<char>>> {
    rows.map_values(|row: PackageRow| row_key(row))
}

/// The order in which packages are listed: by name, then by version, as texts.
pub fn package_order(rows: &Vec<PackageRow>) -> (r: Vec<usize>)
    ensures
        r@ == order::sorted_order(row_keys(rows@)),
        order::stable_order(row_keys(rows@), r@),
{
    let mut keys: Vec<Vec<String>> = Vec::new();
    let mut i: usize = 0;
    while i < rows.len()
        invariant
            i <= rows@.len(),
            order::key_views(keys@) == row_keys(rows@).take(i as int),
        decreases rows@.len() - i,
    {
        let ghost before = order::key_views(keys@);
        let key: Vec<String> = vec![rows[i].name.clone(), rows[i].version.clone()];
        assert(words::texts(key@) =~= row_key(rows@[i as int]));
        let ghost shown = words::texts(key@);
        keys.push(key);
        assert(order::key_views(keys@) =~= before.push(shown));
        assert(row_keys(rows@).take(i + 1) =~= row_keys(rows@).take(i as int).push(
            row_key(rows@[i as int]),
        ));
        i = i + 1;
    }
    assert(row_keys(rows@).take(rows@.len() as int) =~= row_keys(rows@));
    order::sorted_positions(&keys)
}

/// One line of the package table.
pub open spec fn row_line(row: PackageRow) -> Seq<char> {
    left(row.name@, 24) + " "@ + left(row.version@, 12) + " "@ + left(row.origin@, 10) + " "@ + left(
        if row.features@.len() == 0 {
            "-"@
        } else {
            row.features@
        },
        28,
    ) + " "@ + row.manifest_path@ + "\n"@
}

/// One line of the package table.
fn row_text(row: &PackageRow) -> (r: String)
    ensures
        r@ == row_line(*row),
{
    let features = if row.features.as_str().is_empty() {
        "-"
    } else {
        row.features.as_str()
    };
    let mut out = left_text(row.name.as_str(), 24);
    out.push_str(" ");
    out.push_str(left_text(row.version.as_str(), 12).as_str());
    out.push_str(" ");
    out.push_str(left_text(row.origin.as_str(), 10).as_str());
    out.push_str(" ");
    out.push_str(left_text(features, 28).as_str());
    out.push_str(" ");
    out.push_str(row.manifest_path.as_str());
    out.push_str("\n");
    out
}

/// The heading of the package table.
pub open spec fn table_heading() -> Seq<char> {
    left("PACKAGE"@, 24) + " "@ + left("VERSION"@, 12) + " "@ + left("ORIGIN"@, 10) + " "@ + left(
        "FEATURES"@,
        28,
    ) + " PATH\n"@
}

/// The lines of the package table, in an order of the packages.
pub open spec fn table_lines(rows: Seq<PackageRow>, order: Seq<usize>) -> Seq<char>
    decreases order.len(),
{
    if order.len() == 0 {
        Seq::empty()
    } else {
        table_lines(rows, order.drop_last()) + row_line(rows[order.last() as int])
    }
}

/// The package table: a heading, and a line for each package, by name and
/// version.
pub fn packages(rows: &Vec<PackageRow>) -> (r: String)
    ensures
        r@ == table_heading() + table_lines(rows@, order::sorted_order(row_keys(rows@))),
{
    let positions = package_order(rows);
    let mut out = left_text("PACKAGE", 24);
    out.push_str(" ");
    out.push_str(left_text("VERSION", 12).as_str());
    out.push_str(" ");
    out.push_str(left_text("ORIGIN", 10).as_str());
    out.push_str(" ");
    out.push_str(left_text("FEATURES", 28).as_str());
    out.push_str(" PATH\n");
    assert(positions@.take(0) =~= Seq::<usize>::empty());
    assert(out@ =~= table_heading() + table_lines(rows@, positions@.take(0)));
    let mut i: usize = 0;
    while i < positions.len()
        invariant
            i <= positions@.len(),
            order::stable_order(row_keys(rows@), positions@),
            out@ == table_heading() + table_lines(rows@, positions@.take(i as int)),
        decreases positions@.len() - i,
    {
        assert(positions@.take(i + 1).drop_last() =~= positions@.take(i as int));
        let at: usize = positions[i];
        assert(at < rows@.len());
        let ghost before = out@;
        let line = row_text(&rows[at]);
        out.push_str(line.as_str());
        assert(out@ =~= table_heading() + table_lines(rows@, positions@.take(i + 1)));
        i = i + 1;
    }
    assert(positions@.take(positions@.len() as int) =~= positions@);
    out
}

// ---------------------------------------------------------------------------
// dump-docs and index
// ---------------------------------------------------------------------------

/// What is said of a scope that is not known.
pub open spec fn unknown_scope(name: Seq<char>) -> Seq<char> {
    "unknown rustdoc scope "@ + debug_text(name) + ": use workspace, all or none"@
}

/// Reads the name of a scope; any other text is refused, with a message that
/// quotes it.
pub fn parse_scope(name: &str) -> (r: Result<RustdocScope, String>)
    ensures
        match r {
            Ok(scope) => RustdocScope::named(name@) == Some(scope),
            Err(message) => RustdocScope::named(name@) is None && message@ == unknown_scope(name@),
        },
{
    match RustdocScope::parse(name) {
        Some(scope) => Ok(scope),
        None => {
            let mut out = "unknown rustdoc scope ".to_owned();
            out.push_str(quoted(name).as_str());
            out.push_str(": use workspace, all or none");
            Err(out)
        },
    }
}

/// The options of an indexing run: the toolchain is the one asked for, else
/// `nightly`. Refused, with a message, where the scope is not known.
pub fn index_options(
    rustdoc_scope: &str,
    toolchain: &Option<String>,
    prebuilt_rustdoc: &Option<String>,
    cargo: &Option<String>,
) -> (r: Result<IndexOptions, String>)
    ensures
        match r {
            Ok(options) => {
                &&& RustdocScope::named(rustdoc_scope@) == Some(options.rustdoc_scope)
                &&& words::shown(options.toolchain) == Some(
                    match words::shown(*toolchain) {
                        Some(t) => t,
                        None => "nightly"@,
                    },
                )
                &&& words::shown(options.prebuilt_rustdoc) == words::shown(*prebuilt_rustdoc)
                &&& !options.skip_rustdoc
                &&& words::shown(options.cargo) == words::shown(*cargo)
            },
            Err(message) => RustdocScope::named(rustdoc_scope@) is None && message@
                == unknown_scope(rustdoc_scope@),
        },
{
    match parse_scope(rustdoc_scope) {
        Ok(scope) => Ok(
            IndexOptions {
                rustdoc_scope: scope,
                toolchain: match toolchain {
                    Some(t) => Some(t.clone()),
                    None => Some("nightly".to_owned()),
                },
                prebuilt_rustdoc: words::copy_option(prebuilt_rustdoc),
                skip_rustdoc: false,
                cargo: words::copy_option(cargo),
            },
        ),
        Err(message) => Err(message),
    }
}

/// What a skipped package shows.
pub open spec fn skipped_views(skipped: Seq<(String, String)>) -> Seq<(Seq<char>, Seq<char>)> {
    skipped.map_values(|s: (String, String)| (s.0@, s.1@))
}

/// The lines about skipped packages.
pub open spec fn skipped_lines(mark: Seq<char>, skipped: Seq<(Seq<char>, Seq<char>)>) -> Seq<char>
    decreases skipped.len(),
{
    if skipped.len() == 0 {
        Seq::empty()
    } else {
        skipped_lines(mark, skipped.drop_last()) + (mark + "skipped "@ + skipped.last().0 + ": "@
            + skipped.last().1 + "\n"@)
    }
}

/// The lines with warnings.
pub open spec fn warning_lines(mark: Seq<char>, warnings: Seq<Seq<char>>) -> Seq<char>
    decreases warnings.len(),
{
    if warnings.len() == 0 {
        Seq::empty()
    } else {
        warning_lines(mark, warnings.drop_last()) + (mark + "warning: "@ + warnings.last() + "\n"@)
    }
}

/// The lines about skipped packages and the warnings, each with a mark before it.
fn notes(mark: &str, skipped: &Vec<(String, String)>, warnings: &Vec<String>) -> (r: String)
    ensures
        r@ == skipped_lines(mark@, skipped_views(skipped@)) + warning_lines(
            mark@,
            words::texts(warnings@),
        ),
{
    let mut out = String::new();
    let mut i: usize = 0;
    while i < skipped.len()
        invariant
            i <= skipped@.len(),
            out@ == skipped_lines(mark@, skipped_views(skipped@).take(i as int)),
        decreases skipped@.len() - i,
    {
        let ghost all = skipped_views(skipped@);
        assert(all.take(i + 1).drop_last() =~= all.take(i as int));
        let entry = &skipped[i];
        let mut line = mark.to_owned();
        line.push_str("skipped ");
        line.push_str(entry.0.as_str());
        line.push_str(": ");
        line.push_str(entry.1.as_str());
        line.push_str("\n");
        assert(all.take(i + 1).last() == (skipped@[i as int].0@, skipped@[i as int].1@));
        out.push_str(line.as_str());
        i = i + 1;
    }
    assert(skipped_views(skipped@).take(skipped@.len() as int) =~= skipped_views(skipped@));
    let ghost first = out@;
    let ghost all = words::texts(warnings@);
    assert(all.take(0) =~= Seq::<Seq<char>>::empty());
    assert(first =~= first + warning_lines(mark@, all.take(0)));
    let mut k: usize = 0;
    while k < warnings.len()
        invariant
            k <= warnings@.len(),
            all == words::texts(warnings@),
            out@ == first + warning_lines(mark@, all.take(k as int)),
        decreases warnings@.len() - k,
    {
        assert(all.take(k + 1).drop_last() =~= all.take(k as int));
        let mut line = mark.to_owned();
        line.push_str("warning: ");
        line.push_str(warnings[k].as_str());
        line.push_str("\n");
        assert(all.take(k + 1).last() == warnings@[k as int]@);
        out.push_str(line.as_str());
        assert(out@ =~= first + warning_lines(mark@, all.take(k + 1)));
        k = k + 1;
    }
    assert(all.take(warnings@.len() as int) =~= all);
    out
}

/// What is said of a corpus before its documents are shown: how much there is,
/// what was skipped, and the warnings.
pub fn corpus_notes(report: &CorpusReport, documents: usize) -> (r: String)
    ensures
        r@ == "# corpus: "@ + pieces::decimal(report.packages as nat) + " packages, "@
            + pieces::decimal(report.rustdoc_packages as nat) + " rustdoc generated, "@
            + pieces::decimal(report.markdown_files as nat) + " markdown files, "@ + pieces::decimal(
            documents as nat,
        ) + " documents\n"@ + (skipped_lines("# "@, skipped_views(report.skipped@)) + warning_lines(
            "# "@,
            words::texts(report.warnings@),
        )),
{
    let mut out = "# corpus: ".to_owned();
    out.push_str(pieces::decimal_string(report.packages as u128).as_str());
    out.push_str(" packages, ");
    out.push_str(pieces::decimal_string(report.rustdoc_packages as u128).as_str());
    out.push_str(" rustdoc generated, ");
    out.push_str(pieces::decimal_string(report.markdown_files as u128).as_str());
    out.push_str(" markdown files, ");
    out.push_str(pieces::decimal_string(documents as u128).as_str());
    out.push_str(" documents\n");
    out.push_str(notes("# ", &report.skipped, &report.warnings).as_str());
    out
}

/// What is said of a finished indexing run.
pub fn index_text(outcome: &IndexOutcome) -> (r: String)
    ensures
        r@ == "indexed "@ + pieces::decimal(outcome.corpus.packages as nat) + " packages into "@
            + outcome.index_dir@ + " ("@ + pieces::decimal(outcome.meta.document_count as nat)
            + " documents)\n"@ + "search it with: rust-knowledge search <query>\n"@,
{
    let mut out = "indexed ".to_owned();
    out.push_str(pieces::decimal_string(outcome.corpus.packages as u128).as_str());
    out.push_str(" packages into ");
    out.push_str(outcome.index_dir.as_str());
    out.push_str(" (");
    out.push_str(pieces::decimal_string(outcome.meta.document_count as u128).as_str());
    out.push_str(" documents)\n");
    out.push_str("search it with: rust-knowledge search <query>\n");
    out
}

/// What an indexing run skipped, and its warnings.
pub fn index_notes(outcome: &IndexOutcome) -> (r: String)
    ensures
        r@ == skipped_lines(""@, skipped_views(outcome.meta.skipped@)) + warning_lines(
            ""@,
            words::texts(outcome.meta.warnings@),
        ),
{
    notes("", &outcome.meta.skipped, &outcome.meta.warnings)
}

/// The documents of a package.
pub open spec fn of_package(docs: Seq<DocumentView>, package_id: Seq<char>) -> Seq<DocumentView> {
    docs.filter(|d: DocumentView| d.package.package_id == package_id)
}

/// The documents of a package, in order.
pub fn documents_of_package(docs: &Vec<KnowledgeDocument>, package_id: &str) -> (r: Vec<
    KnowledgeDocument,
>)
    ensures
        document::document_views(r@) == of_package(document::document_views(docs@), package_id@),
{
    let mut out: Vec<KnowledgeDocument> = Vec::new();
    let ghost all = document::document_views(docs@);
    let ghost keep = |d: DocumentView| d.package.package_id == package_id@;
    proof {
        reveal(Seq::filter);
        assert(all.take(0) =~= Seq::<DocumentView>::empty());
        assert(document::document_views(out@) =~= all.take(0).filter(keep));
    }
    let mut i: usize = 0;
    while i < docs.len()
        invariant
            i <= docs@.len(),
            all == document::document_views(docs@),
            keep == (|d: DocumentView| d.package.package_id == package_id@),
            document::document_views(out@) == all.take(i as int).filter(keep),
        decreases docs@.len() - i,
    {
        proof {
            reveal(Seq::filter);
            assert(all.take(i + 1).drop_last() =~= all.take(i as int));
        }
        let ghost before = document::document_views(out@);
        if text::same_text(docs[i].package.package_id.as_str(), package_id) {
            let copy = docs[i].clone();
            let ghost shown = copy@;
            out.push(copy);
            assert(document::document_views(out@) =~= before.push(shown));
        }
        i = i + 1;
    }
    assert(all.take(docs@.len() as int) =~= all);
    out
}

/// How many bytes of a document's text are shown where documents are listed.
pub const DUMP_BYTES: usize = 1200;

/// The text of a document as it is shown where documents are listed: cut at
/// `DUMP_BYTES`, at the end of a character, with blanks before the cut left out.
pub open spec fn dumped(s: Seq<char>) -> Seq<char> {
    if text::utf8_len(s) > DUMP_BYTES {
        text::trim_end(query_text::fitting(s, DUMP_BYTES as nat)) + "..."@
    } else {
        s
    }
}

/// The text of a document as it is shown where documents are listed.
fn dump_text(s: &str) -> (r: String)
    ensures
        r@ == dumped(s@),
{
    if text::byte_len(s) > DUMP_BYTES {
        let chars = text::to_chars(s);
        let n: usize = query_text::fitting_len(&chars, DUMP_BYTES);
        let head = text::from_range(&chars, 0, n);
        assert(chars@.subrange(0, n as int) =~= chars@.take(n as int));
        let mut out = text::trimmed_end(head.as_str());
        out.push_str("...");
        out
    } else {
        s.to_owned()
    }
}

/// What is shown above the text of a document: its id, where it comes from, what
/// names it, and its signature, source and related symbols where it has them.
pub open spec fn header_of(doc: DocumentView) -> Seq<char> {
    "id: "@ + doc.id + "\nfrom: "@ + doc.provenance() + "\ncontext: "@ + doc.context() + "\n"@ + (
    match doc.signature {
        Some(signature) => "signature: "@ + signature + "\n"@,
        None => Seq::empty(),
    }) + (match (doc.source_path, doc.source_span) {
        (Some(path), Some(span)) => "source: "@ + path + ":"@ + pieces::decimal(
            span.start_line as nat,
        ) + "-"@ + pieces::decimal(span.end_line as nat) + "\n"@,
        _ => Seq::empty(),
    }) + (if doc.related_symbols.len() > 0 {
        "related: "@ + words::join(doc.related_symbols, ", "@) + "\n"@
    } else {
        Seq::empty()
    })
}

/// What is shown above the text of a document.
fn header_text(doc: &KnowledgeDocument) -> (r: String)
    ensures
        r@ == header_of(doc@),
{
    let mut out = "id: ".to_owned();
    out.push_str(doc.id.as_str());
    out.push_str("\nfrom: ");
    out.push_str(doc.provenance().as_str());
    out.push_str("\ncontext: ");
    out.push_str(doc.context().as_str());
    out.push_str("\n");
    let mut line = String::new();
    if let Some(signature) = &doc.signature {
        line = "signature: ".to_owned();
        line.push_str(signature.as_str());
        line.push_str("\n");
    }
    out.push_str(line.as_str());
    let mut line = String::new();
    if let Some(path) = &doc.source_path {
        if let Some(span) = doc.source_span {
            line = "source: ".to_owned();
            line.push_str(path.as_str());
            line.push_str(":");
            line.push_str(pieces::decimal_string(span.start_line as u128).as_str());
            line.push_str("-");
            line.push_str(pieces::decimal_string(span.end_line as u128).as_str());
            line.push_str("\n");
        }
    }
    out.push_str(line.as_str());
    let mut line = String::new();
    if doc.related_symbols.len() > 0 {
        line = "related: ".to_owned();
        line.push_str(words::join_strings(&doc.related_symbols, ", ").as_str());
        line.push_str("\n");
    }
    out.push_str(line.as_str());
    out
}

/// One document as it is listed: a rule, the header, and the text, cut where it
/// is long.
pub open spec fn document_block(doc: DocumentView) -> Seq<char> {
    "--------------------------------------------------\n"@ + header_of(doc) + dumped(doc.text)
        + "\n"@
}

/// One document as it is listed.
pub fn dump_document(doc: &KnowledgeDocument) -> (r: String)
    ensures
        r@ == document_block(doc@),
{
    let mut out = "--------------------------------------------------\n".to_owned();
    out.push_str(header_text(doc).as_str());
    out.push_str(dump_text(doc.text.as_str()).as_str());
    out.push_str("\n");
    out
}

/// The documents to list: those of a package where one is asked for, else all.
pub open spec fn listed(docs: Seq<DocumentView>, package_id: Option<Seq<char>>) -> Seq<DocumentView> {
    match package_id {
        Some(id) => of_package(docs, id),
        None => docs,
    }
}

/// Documents as they are listed, one after the other.
pub open spec fn listing(docs: Seq<DocumentView>) -> Seq<char>
    decreases docs.len(),
{
    if docs.len() == 0 {
        Seq::empty()
    } else {
        listing(docs.drop_last()) + document_block(docs.last())
    }
}

/// Documents as they are listed, one after the other.
fn print_documents(docs: &Vec<KnowledgeDocument>) -> (r: String)
    ensures
        r@ == listing(document::document_views(docs@)),
{
    let mut out = String::new();
    let ghost all = document::document_views(docs@);
    let mut i: usize = 0;
    assert(all.take(0) =~= Seq::<DocumentView>::empty());
    while i < docs.len()
        invariant
            i <= docs@.len(),
            all == document::document_views(docs@),
            out@ == listing(all.take(i as int)),
        decreases docs@.len() - i,
    {
        assert(all.take(i + 1).drop_last() =~= all.take(i as int));
        assert(all.take(i + 1).last() == docs@[i as int]@);
        out.push_str(dump_document(&docs[i]).as_str());
        i = i + 1;
    }
    assert(all.take(docs@.len() as int) =~= all);
    out
}

/// The documents of a corpus as they are listed, those of one package where one
/// is asked for, and what is said where none of them is of it.
pub fn dump_docs(docs: &Vec<KnowledgeDocument>, package_id: Option<&str>) -> (r: (
    String,
    Option<&'static str>,
))
    ensures
        r.0@ == listing(
            listed(
                document::document_views(docs@),
                match package_id {
                    Some(id) => Some(id@),
                    None => None,
                },
            ),
        ),
        match r.1 {
            Some(note) => {
                &&& package_id is Some
                &&& of_package(document::document_views(docs@), package_id->0@).len() == 0
                &&& note@ == "# no documents matched"@
            },
            None => package_id is Some ==> of_package(
                document::document_views(docs@),
                package_id->0@,
            ).len() > 0,
        },
{
    match package_id {
        Some(id) => {
            let chosen = documents_of_package(docs, id);
            assert(document::document_views(chosen@).len() == chosen@.len());
            let note = if chosen.len() == 0 {
                Some("# no documents matched")
            } else {
                None
            };
            (print_documents(&chosen), note)
        },
        None => (print_documents(docs), None),
    }
}

/// A listed text takes at most the limit and the three dots.
pub proof fn law_dump_bounded(s: Seq<char>)
    ensures
        text::utf8_len(dumped(s)) <= DUMP_BYTES + 3,
        text::utf8_len(s) <= DUMP_BYTES ==> dumped(s) == s,
{
    if text::utf8_len(s) > DUMP_BYTES {
        let f = query_text::fitting(s, DUMP_BYTES as nat);
        query_text::lemma_fitting_fits(s, DUMP_BYTES as nat);
        let n = text::lemma_trim_end_part(f);
        assert(f =~= text::trim_end(f) + f.skip(n));
        text::lemma_utf8_len_add(text::trim_end(f), f.skip(n));
        reveal_strlit("...");
        assert("..."@ =~= seq!['.', '.', '.']);
        assert(text::utf8_len(seq!['.', '.', '.']) == 3) by {
            reveal_with_fuel(text::utf8_len, 4);
            assert(seq!['.', '.', '.'].drop_last() =~= seq!['.', '.']);
            assert(seq!['.', '.'].drop_last() =~= seq!['.']);
            assert(seq!['.'].drop_last() =~= Seq::<char>::empty());
        }
        text::lemma_utf8_len_add(text::trim_end(f), "..."@);
    }
}

// ---------------------------------------------------------------------------
// search, get, symbol
// ---------------------------------------------------------------------------

/// The search that is asked for; refused, with a message, where a source kind is
/// not known.
pub fn search_request(
    query: &str,
    package: &Vec<String>,
    source_kind: &Vec<String>,
    item_kind: &Vec<String>,
    limit: usize,
) -> (r: Result<SearchQuery, String>)
    ensures
        r is Ok == server::all_known(source_kind@),
        match r {
            Ok(request) => {
                &&& request.text@ == query@
                &&& words::texts(request.packages@) == words::texts(package@)
                &&& request.source_kinds@ == server::kinds_of(source_kind@)
                &&& request.source_kinds@.len() == source_kind@.len()
                &&& words::texts(request.item_kinds@) == words::texts(item_kind@)
                &&& request.limit == limit
            },
            Err(message) => server::names_first_unknown(source_kind@, message@),
        },
{
    match server::parse_source_kinds(source_kind) {
        Ok(source_kinds) => Ok(
            SearchQuery {
                text: query.to_owned(),
                packages: words::copy_strings(package),
                source_kinds,
                item_kinds: words::copy_strings(item_kind),
                limit,
            },
        ),
        Err(message) => Err(message),
    }
}

/// One search result as it is printed.
pub open spec fn hit_text(number: nat, hit: HitView) -> Seq<char> {
    pieces::decimal(number) + ". "@ + hit.package_name + "@"@ + hit.package_version + "\n   "@
        + document::context_of(hit.symbol_path, hit.section_path, hit.title) + "\n   ["@
        + hit.source_kind.name() + "]\n   id: "@ + hit.id + "\n\n   "@ + pieces::replace_each(
        hit.snippet,
        '\n',
        " "@,
    ) + "\n\n"@
}

/// Search results as they are printed, numbered from one.
pub open spec fn hits_text(hits: Seq<SearchHit>) -> Seq<char>
    decreases hits.len(),
{
    if hits.len() == 0 {
        Seq::empty()
    } else {
        hits_text(hits.drop_last()) + hit_text(hits.len(), hits.last()@)
    }
}

/// One search result as it is printed.
fn print_hit(number: usize, hit: &SearchHit) -> (r: String)
    ensures
        r@ == hit_text(number as nat, hit@),
{
    let mut out = pieces::decimal_string(number as u128);
    out.push_str(". ");
    out.push_str(hit.package_name.as_str());
    out.push_str("@");
    out.push_str(hit.package_version.as_str());
    out.push_str("\n   ");
    out.push_str(hit.context().as_str());
    out.push_str("\n   [");
    out.push_str(hit.source_kind.as_str());
    out.push_str("]\n   id: ");
    out.push_str(hit.id.as_str());
    out.push_str("\n\n   ");
    out.push_str(pieces::replace_char(hit.snippet.as_str(), '\n', " ").as_str());
    out.push_str("\n\n");
    out
}

/// Search results as they are printed.
pub fn search(hits: &Vec<SearchHit>) -> (r: String)
    ensures
        r@ == (if hits@.len() == 0 {
            "no results\n"@
        } else {
            hits_text(hits@)
        }),
{
    if hits.len() == 0 {
        return "no results\n".to_owned();
    }
    let mut out = String::new();
    let mut i: usize = 0;
    assert(hits@.take(0) =~= Seq::<SearchHit>::empty());
    while i < hits.len()
        invariant
            i <= hits@.len(),
            out@ == hits_text(hits@.take(i as int)),
        decreases hits@.len() - i,
    {
        assert(hits@.take(i + 1).drop_last() =~= hits@.take(i as int));
        out.push_str(print_hit(i + 1, &hits[i]).as_str());
        i = i + 1;
    }
    assert(hits@.take(hits@.len() as int) =~= hits@);
    out
}

/// The document that is asked for; refused, with a message, where the text is no
/// document id.
pub fn get_request(id: &str) -> (r: Result<DocumentId, String>)
    ensures
        match r {
            Ok(out) => ids::reads_as_id(id@) && out@ == text::lowercase(id@),
            Err(message) => !ids::reads_as_id(id@) && message@ == debug_text(id@)
                + " is not a valid document id"@,
        },
{
    match DocumentId::from_raw(id) {
        Some(out) => Ok(out),
        None => {
            let mut message = quoted(id);
            message.push_str(" is not a valid document id");
            Err(message)
        },
    }
}

/// One document as it is printed: the header, an empty line, and the text.
pub fn get(doc: &KnowledgeDocument) -> (r: String)
    ensures
        r@ == header_of(doc@) + "\n"@ + doc@.text + "\n"@,
{
    let mut out = header_text(doc);
    out.push_str("\n");
    out.push_str(doc.text.as_str());
    out.push_str("\n");
    out
}

/// How many symbols a lookup prints at most.
pub const SYMBOL_LIMIT: usize = 10;

/// The lookup that is asked for.
pub fn symbol_request(symbol: &str, package: &Vec<String>) -> (r: SymbolQuery)
    ensures
        r.symbol@ == symbol@,
        words::texts(r.packages@) == words::texts(package@),
        r.limit == SYMBOL_LIMIT,
{
    SymbolQuery {
        symbol: symbol.to_owned(),
        packages: words::copy_strings(package),
        limit: SYMBOL_LIMIT,
    }
}

/// One symbol as it is printed.
pub open spec fn symbol_text(number: nat, info: SymbolView) -> Seq<char> {
    pieces::decimal(number) + ". "@ + info.package_name + "@"@ + info.package_version + " ["@
        + info.kind + "] "@ + info.symbol_path + "\n"@ + (match info.signature {
        Some(signature) => "   "@ + signature + "\n"@,
        None => Seq::empty(),
    }) + "   id: "@ + info.id + "\n   "@ + pieces::replace_each(info.snippet, '\n', " "@) + "\n\n"@
}

/// Symbols as they are printed, numbered from one.
pub open spec fn symbols_text(infos: Seq<SymbolInfo>) -> Seq<char>
    decreases infos.len(),
{
    if infos.len() == 0 {
        Seq::empty()
    } else {
        symbols_text(infos.drop_last()) + symbol_text(infos.len(), infos.last()@)
    }
}

/// One symbol as it is printed.
fn print_symbol(number: usize, info: &SymbolInfo) -> (r: String)
    ensures
        r@ == symbol_text(number as nat, info@),
{
    let mut out = pieces::decimal_string(number as u128);
    out.push_str(". ");
    out.push_str(info.package_name.as_str());
    out.push_str("@");
    out.push_str(info.package_version.as_str());
    out.push_str(" [");
    out.push_str(info.kind.as_str());
    out.push_str("] ");
    out.push_str(info.symbol_path.as_str());
    out.push_str("\n");
    let mut line = String::new();
    if let Some(signature) = &info.signature {
        line = "   ".to_owned();
        line.push_str(signature.as_str());
        line.push_str("\n");
    }
    out.push_str(line.as_str());
    out.push_str("   id: ");
    out.push_str(info.id.as_str());
    out.push_str("\n   ");
    out.push_str(pieces::replace_char(info.snippet.as_str(), '\n', " ").as_str());
    out.push_str("\n\n");
    out
}

/// Symbols as they are printed; where there is none, that none matched.
pub fn symbol_lookup(symbol: &str, infos: &Vec<SymbolInfo>) -> (r: String)
    ensures
        r@ == (if infos@.len() == 0 {
            "no symbol matched "@ + debug_text(symbol@) + "\n"@
        } else {
            symbols_text(infos@)
        }),
{
    if infos.len() == 0 {
        let mut out = "no symbol matched ".to_owned();
        out.push_str(quoted(symbol).as_str());
        out.push_str("\n");
        return out;
    }
    let mut out = String::new();
    let mut i: usize = 0;
    assert(infos@.take(0) =~= Seq::<SymbolInfo>::empty());
    while i < infos.len()
        invariant
            i <= infos@.len(),
            out@ == symbols_text(infos@.take(i as int)),
        decreases infos@.len() - i,
    {
        assert(infos@.take(i + 1).drop_last() =~= infos@.take(i as int));
        out.push_str(print_symbol(i + 1, &infos[i]).as_str());
        i = i + 1;
    }
    assert(infos@.take(infos@.len() as int) =~= infos@);
    out
}

// ---------------------------------------------------------------------------
// eval
// ---------------------------------------------------------------------------

/// Whether an evaluation set for `corpus` may be run against the index of the
/// workspace at `root`: the root ends with the corpus, slashes at its end left
/// out.
pub open spec fn same_corpus(corpus: Seq<char>, root: Seq<char>) -> bool {
    pieces::has_suffix(root, pieces::strip_suffixes(corpus, "/"@))
}

/// Why an evaluation set is not run: it is for another workspace.
pub fn corpus_refusal(corpus: &str, root: &str) -> (r: Option<String>)
    ensures
        match r {
            Some(message) => !same_corpus(corpus@, root@) && message@
                == "this eval file targets the "@ + debug_text(corpus@)
                + " workspace; the current index was built for "@ + debug_text(root@)
                + ". Point --index-dir/--manifest-path at the matching workspace."@,
            None => same_corpus(corpus@, root@),
        },
{
    proof {
        reveal_strlit("/");
    }
    let wanted = pieces::without_suffixes(corpus, "/");
    if pieces::ends_with_text(root, wanted.as_str()) {
        return None;
    }
    let mut out = "this eval file targets the ".to_owned();
    out.push_str(quoted(corpus).as_str());
    out.push_str(" workspace; the current index was built for ");
    out.push_str(quoted(root).as_str());
    out.push_str(". Point --index-dir/--manifest-path at the matching workspace.");
    Some(out)
}

/// One evaluated query as it is printed.
pub fn eval_line(passed: bool, rank: Option<usize>, category: &str, query: &str) -> (r: String)
    ensures
        r@ == (if passed {
            "PASS"@
        } else {
            "FAIL"@
        }) + " rank "@ + right(
            match rank {
                Some(n) => pieces::decimal(n as nat),
                None => "-"@,
            },
            2,
        ) + " "@ + right(category@, 16) + " "@ + debug_text(query@) + "\n"@,
{
    let rank_text = match rank {
        Some(n) => pieces::decimal_string(n as u128),
        None => "-".to_owned(),
    };
    let mut out = if passed {
        "PASS".to_owned()
    } else {
        "FAIL".to_owned()
    };
    out.push_str(" rank ");
    out.push_str(right_text(rank_text.as_str(), 2).as_str());
    out.push_str(" ");
    out.push_str(right_text(category, 16).as_str());
    out.push_str(" ");
    out.push_str(quoted(query).as_str());
    out.push_str("\n");
    out
}

} // verus!
