//! The field layout of the index and the conversion of documents.
//!
//! Untokenized fields hold lower-case text, because the engine does not
//! lower-case them and exact matches are always compared in lower case.
use tantivy::schema::{Schema, SchemaBuilder, TextOptions};
use tantivy::TantivyDocument;
use vstd::prelude::*;
use crate::document::{DocumentView, KnowledgeDocument, PackageIdentity, PackageView, SourceKind};
use crate::document::SourceSpan;
use crate::error::IndexError;
use crate::ids;
use crate::ids::DocumentId;
use crate::json;
use crate::pieces;
use crate::tantivy_index::engine;
use crate::text;
use crate::words;
use crate::tantivy_index::engine::{FieldKindView, FieldView, IndexingView, Recorded, TextFieldView};

pub use crate::store::INDEX_SCHEMA_VERSION;

verus! {

// ---------------------------------------------------------------------------
// Layout
// ---------------------------------------------------------------------------

/// Tokenized and indexed, with positions.
pub open spec fn text_field(stored: bool) -> TextFieldView {
    TextFieldView {
        indexing: Some(IndexingView { tokenizer: "default"@, recorded: Recorded::Positions }),
        stored,
        fast: false,
        coerce: false,
    }
}

/// Tokenized with the English stemmer, indexed with positions, stored.
pub open spec fn stemmed_field() -> TextFieldView {
    TextFieldView {
        indexing: Some(IndexingView { tokenizer: "en_stem"@, recorded: Recorded::Positions }),
        stored: true,
        fast: false,
        coerce: false,
    }
}

/// Indexed as one term.
pub open spec fn raw_field(stored: bool) -> TextFieldView {
    TextFieldView {
        indexing: Some(IndexingView { tokenizer: "raw"@, recorded: Recorded::Basic }),
        stored,
        fast: false,
        coerce: false,
    }
}

/// Stored and not searchable.
pub open spec fn stored_field() -> TextFieldView {
    TextFieldView { indexing: None, stored: true, fast: false, coerce: false }
}

/// One field of the layout.
pub open spec fn field_spec(name: Seq<char>, options: TextFieldView) -> FieldView {
    FieldView { name, kind: FieldKindView::Text(options) }
}

/// The fields of the index.
pub open spec fn index_layout() -> Seq<FieldView> {
    seq![
        field_spec("id"@, raw_field(true)),
        field_spec("package_id"@, stored_field()),
        field_spec("package_name"@, text_field(true)),
        field_spec("package_name_raw"@, raw_field(true)),
        field_spec("package_version"@, stored_field()),
        field_spec("package_key"@, raw_field(true)),
        field_spec("source_kind"@, raw_field(true)),
        field_spec("item_kind"@, raw_field(true)),
        field_spec("title"@, text_field(true)),
        field_spec("symbol_path"@, text_field(true)),
        field_spec("symbol_exact"@, raw_field(false)),
        field_spec("symbol_last"@, raw_field(false)),
        field_spec("section_text"@, text_field(true)),
        field_spec("section_json"@, stored_field()),
        field_spec("body"@, stemmed_field()),
        field_spec("signature"@, text_field(true)),
        field_spec("related_text"@, text_field(false)),
        field_spec("related_json"@, stored_field()),
        field_spec("source_path"@, stored_field()),
        field_spec("source_span_json"@, stored_field()),
    ]
}

/// What tells the names of the layout apart: length and three characters.
spec fn mark(s: Seq<char>) -> (nat, char, char, char) {
    (s.len(), s[0], s[1], s.last())
}

/// No two fields of the layout have the same name.
pub proof fn lemma_names_differ(i: int, j: int)
    requires
        0 <= i < j < index_layout().len(),
    ensures
        index_layout()[i].name != index_layout()[j].name,
{
    reveal_strlit("id");
    reveal_strlit("package_id");
    reveal_strlit("package_name");
    reveal_strlit("package_name_raw");
    reveal_strlit("package_version");
    reveal_strlit("package_key");
    reveal_strlit("source_kind");
    reveal_strlit("item_kind");
    reveal_strlit("title");
    reveal_strlit("symbol_path");
    reveal_strlit("symbol_exact");
    reveal_strlit("symbol_last");
    reveal_strlit("section_text");
    reveal_strlit("section_json");
    reveal_strlit("body");
    reveal_strlit("signature");
    reveal_strlit("related_text");
    reveal_strlit("related_json");
    reveal_strlit("source_path");
    reveal_strlit("source_span_json");
    assert(mark("id"@) == (2nat, 'i', 'd', 'd'));
    assert(mark("package_id"@) == (10nat, 'p', 'a', 'd'));
    assert(mark("package_name"@) == (12nat, 'p', 'a', 'e'));
    assert(mark("package_name_raw"@) == (16nat, 'p', 'a', 'w'));
    assert(mark("package_version"@) == (15nat, 'p', 'a', 'n'));
    assert(mark("package_key"@) == (11nat, 'p', 'a', 'y'));
    assert(mark("source_kind"@) == (11nat, 's', 'o', 'd'));
    assert(mark("item_kind"@) == (9nat, 'i', 't', 'd'));
    assert(mark("title"@) == (5nat, 't', 'i', 'e'));
    assert(mark("symbol_path"@) == (11nat, 's', 'y', 'h'));
    assert(mark("symbol_exact"@) == (12nat, 's', 'y', 't'));
    assert(mark("symbol_last"@) == (11nat, 's', 'y', 't'));
    assert(mark("section_text"@) == (12nat, 's', 'e', 't'));
    assert(mark("section_json"@) == (12nat, 's', 'e', 'n'));
    assert(mark("body"@) == (4nat, 'b', 'o', 'y'));
    assert(mark("signature"@) == (9nat, 's', 'i', 'e'));
    assert(mark("related_text"@) == (12nat, 'r', 'e', 't'));
    assert(mark("related_json"@) == (12nat, 'r', 'e', 'n'));
    assert(mark("source_path"@) == (11nat, 's', 'o', 'h'));
    assert(mark("source_span_json"@) == (16nat, 's', 'o', 'n'));
    assert(mark(index_layout()[i].name) != mark(index_layout()[j].name));
}

/// The engine takes every name of the layout.
proof fn lemma_names_valid(k: int)
    requires
        0 <= k < index_layout().len(),
    ensures
        index_layout()[k].name.len() > 0,
        index_layout()[k].name[0] != '-',
{
    reveal_strlit("id");
    reveal_strlit("package_id");
    reveal_strlit("package_name");
    reveal_strlit("package_name_raw");
    reveal_strlit("package_version");
    reveal_strlit("package_key");
    reveal_strlit("source_kind");
    reveal_strlit("item_kind");
    reveal_strlit("title");
    reveal_strlit("symbol_path");
    reveal_strlit("symbol_exact");
    reveal_strlit("symbol_last");
    reveal_strlit("section_text");
    reveal_strlit("section_json");
    reveal_strlit("body");
    reveal_strlit("signature");
    reveal_strlit("related_text");
    reveal_strlit("related_json");
    reveal_strlit("source_path");
    reveal_strlit("source_span_json");
}

/// Tokenized, indexed, stored.
fn tokenized() -> (r: TextOptions)
    ensures
        engine::text_options(r) == text_field(true),
{
    engine::tokenized().set_stored()
}

/// Tokenized, indexed, not stored.
fn tokenized_unstored() -> (r: TextOptions)
    ensures
        engine::text_options(r) == text_field(false),
{
    engine::tokenized()
}

/// Tokenized with the English stemmer, indexed, stored. For prose, so that
/// "errors" matches "error"; identifiers stay unstemmed.
fn body() -> (r: TextOptions)
    ensures
        engine::text_options(r) == stemmed_field(),
{
    engine::set_tokenizer(engine::no_options().set_stored(), "en_stem")
}

/// Untokenized, indexed, stored.
fn raw() -> (r: TextOptions)
    ensures
        engine::text_options(r) == raw_field(true),
{
    engine::untokenized().set_stored()
}

/// Untokenized, indexed, not stored.
fn raw_unstored() -> (r: TextOptions)
    ensures
        engine::text_options(r) == raw_field(false),
{
    engine::untokenized()
}

/// Stored, not searchable.
fn stored_only() -> (r: TextOptions)
    ensures
        engine::text_options(r) == stored_field(),
{
    engine::no_options().set_stored()
}

/// Adds the field of the layout at place `k`.
fn place(builder: &mut SchemaBuilder, k: usize, name: &str, options: TextOptions)
    requires
        k < index_layout().len(),
        engine::builder_fields(*old(builder)) == index_layout().take(k as int),
        index_layout()[k as int] == field_spec(name@, engine::text_options(options)),
    ensures
        engine::builder_fields(*final(builder)) == index_layout().take(k + 1),
{
    proof {
        let fields = engine::builder_fields(*builder);
        lemma_names_valid(k as int);
        assert forall|i: int| 0 <= i < fields.len() implies (#[trigger] fields[i]).name != name@ by {
            lemma_names_differ(i, k as int);
        }
    }
    let _ = engine::add_text_field(builder, name, options);
    assert(index_layout().take(k + 1) =~= index_layout().take(k as int).push(
        index_layout()[k as int],
    ));
}

/// The schema of the index.
pub fn build_schema() -> (r: Schema)
    ensures
        engine::schema_fields(r) == index_layout(),
{
    let mut builder = Schema::builder();
    assert(index_layout().take(0) =~= Seq::<FieldView>::empty());
    place(&mut builder, 0, "id", raw());
    place(&mut builder, 1, "package_id", stored_only());
    place(&mut builder, 2, "package_name", tokenized());
    place(&mut builder, 3, "package_name_raw", raw());
    place(&mut builder, 4, "package_version", stored_only());
    place(&mut builder, 5, "package_key", raw());
    place(&mut builder, 6, "source_kind", raw());
    place(&mut builder, 7, "item_kind", raw());
    place(&mut builder, 8, "title", tokenized());
    place(&mut builder, 9, "symbol_path", tokenized());
    place(&mut builder, 10, "symbol_exact", raw_unstored());
    place(&mut builder, 11, "symbol_last", raw_unstored());
    place(&mut builder, 12, "section_text", tokenized());
    place(&mut builder, 13, "section_json", stored_only());
    place(&mut builder, 14, "body", body());
    place(&mut builder, 15, "signature", tokenized());
    place(&mut builder, 16, "related_text", tokenized_unstored());
    place(&mut builder, 17, "related_json", stored_only());
    place(&mut builder, 18, "source_path", stored_only());
    place(&mut builder, 19, "source_span_json", stored_only());
    assert(index_layout().take(20) =~= index_layout());
    builder.build()
}

// ---------------------------------------------------------------------------
// Field numbers
// ---------------------------------------------------------------------------

/// The numbers of all fields, resolved against the schema of an index.
#[derive(Clone, Copy, Debug, PartialEq, Eq, Structural)]
pub struct IndexFields {
    /// Stable document id.
    pub id: u32,
    /// Cargo's opaque package id.
    pub package_id: u32,
    /// Tokenized, searchable package name.
    pub package_name: u32,
    /// Lower-case package name (filter).
    pub package_name_raw: u32,
    pub package_version: u32,
    /// Lower-case `name@version` (filter).
    pub package_key: u32,
    /// Name of the source kind (filter).
    pub source_kind: u32,
    /// Lower-case item kind (filter).
    pub item_kind: u32,
    pub title: u32,
    /// Tokenized symbol path.
    pub symbol_path: u32,
    /// Full symbol path, lower-case, untokenized.
    pub symbol_exact: u32,
    /// Last segment of the symbol path, lower-case, untokenized.
    pub symbol_last: u32,
    /// Headings joined with ` > `.
    pub section_text: u32,
    /// Headings as JSON.
    pub section_json: u32,
    /// The text of the document.
    pub body: u32,
    pub signature: u32,
    /// Related symbols joined.
    pub related_text: u32,
    /// Related symbols as JSON.
    pub related_json: u32,
    pub source_path: u32,
    /// Source span as JSON.
    pub source_span_json: u32,
}

impl IndexFields {
    /// The numbers in the order of the layout.
    pub open spec fn ids(self) -> Seq<u32> {
        seq![
            self.id,
            self.package_id,
            self.package_name,
            self.package_name_raw,
            self.package_version,
            self.package_key,
            self.source_kind,
            self.item_kind,
            self.title,
            self.symbol_path,
            self.symbol_exact,
            self.symbol_last,
            self.section_text,
            self.section_json,
            self.body,
            self.signature,
            self.related_text,
            self.related_json,
            self.source_path,
            self.source_span_json,
        ]
    }

    /// The numbers are small enough for documents of the engine.
    pub open spec fn addressable(self) -> bool {
        forall|k: int| 0 <= k < self.ids().len() ==> #[trigger] self.ids()[k] <= 0xffff
    }

    /// Each number is that of the field with the name in the layout.
    pub open spec fn resolved(self, fields: Seq<FieldView>) -> bool {
        forall|k: int|
            0 <= k < index_layout().len() ==> (#[trigger] self.ids()[k]) < fields.len()
                && fields[self.ids()[k] as int].name == index_layout()[k].name
    }

    /// Whether the numbers are small enough for documents of the engine.
    pub fn is_addressable(&self) -> (r: bool)
        ensures
            r == self.addressable(),
    {
        let numbers: Vec<u32> = vec![
            self.id,
            self.package_id,
            self.package_name,
            self.package_name_raw,
            self.package_version,
            self.package_key,
            self.source_kind,
            self.item_kind,
            self.title,
            self.symbol_path,
            self.symbol_exact,
            self.symbol_last,
            self.section_text,
            self.section_json,
            self.body,
            self.signature,
            self.related_text,
            self.related_json,
            self.source_path,
            self.source_span_json,
        ];
        assert(numbers@ =~= self.ids());
        let mut k: usize = 0;
        while k < numbers.len()
            invariant
                k <= numbers@.len(),
                numbers@ == self.ids(),
                forall|j: int| 0 <= j < k ==> #[trigger] self.ids()[j] <= 0xffff,
            decreases numbers@.len() - k,
        {
            if numbers[k] > 0xffff {
                assert(self.ids()[k as int] > 0xffff);
                return false;
            }
            k = k + 1;
        }
        true
    }

    /// Resolves all fields against a schema. Where one is missing, the error
    /// names the first that is.
    pub fn from_schema(schema: &Schema) -> (r: Result<IndexFields, IndexError>)
        ensures
            match r {
                Ok(fields) => fields.resolved(engine::schema_fields(*schema)),
                Err(error) => exists|k: int|
                    #![trigger index_layout()[k]]
                    0 <= k < index_layout().len() && missing(
                        engine::schema_fields(*schema),
                        index_layout()[k].name,
                    ) && (forall|j: int|
                        0 <= j < k ==> !missing(
                            engine::schema_fields(*schema),
                            (#[trigger] index_layout()[j]).name,
                        )) && error is Engine && error->Engine_0@
                        == missing_message(index_layout()[k].name),
            },
    {
        let names = field_names();
        let mut ids: Vec<u32> = Vec::new();
        let mut k: usize = 0;
        while k < names.len()
            invariant
                k <= names@.len(),
                names@.len() == index_layout().len(),
                forall|j: int|
                    0 <= j < names@.len() ==> (#[trigger] names@[j])@ == index_layout()[j].name,
                ids@.len() == k,
                forall|j: int|
                    0 <= j < k ==> (#[trigger] ids@[j]) < engine::schema_fields(*schema).len()
                        && engine::schema_fields(*schema)[ids@[j] as int].name
                        == index_layout()[j].name,
            decreases names@.len() - k,
        {
            match engine::get_field(schema, names[k]) {
                Ok(id) => {
                    ids.push(id);
                },
                Err(reason) => {
                    let mut message = "index schema field \"".to_owned();
                    message.push_str(names[k]);
                    message.push_str("\": ");
                    message.push_str(reason.as_str());
                    proof {
                        let fields = engine::schema_fields(*schema);
                        assert(names@[k as int]@ == index_layout()[k as int].name);
                        assert(missing(fields, index_layout()[k as int].name));
                        assert forall|j: int| 0 <= j < k implies !missing(
                            fields,
                            (#[trigger] index_layout()[j]).name,
                        ) by {
                            assert(fields[ids@[j] as int].name == index_layout()[j].name);
                        }
                        assert(message@ =~= missing_message(index_layout()[k as int].name));
                    }
                    return Err(IndexError::Engine(message));
                },
            }
            k = k + 1;
        }
        let fields = IndexFields {
            id: ids[0],
            package_id: ids[1],
            package_name: ids[2],
            package_name_raw: ids[3],
            package_version: ids[4],
            package_key: ids[5],
            source_kind: ids[6],
            item_kind: ids[7],
            title: ids[8],
            symbol_path: ids[9],
            symbol_exact: ids[10],
            symbol_last: ids[11],
            section_text: ids[12],
            section_json: ids[13],
            body: ids[14],
            signature: ids[15],
            related_text: ids[16],
            related_json: ids[17],
            source_path: ids[18],
            source_span_json: ids[19],
        };
        assert(fields.ids() =~= ids@);
        Ok(fields)
    }
}

/// Whether no field has that name.
pub open spec fn missing(fields: Seq<FieldView>, name: Seq<char>) -> bool {
    forall|k: int| 0 <= k < fields.len() ==> (#[trigger] fields[k]).name != name
}

/// What is said of a field that is missing.
pub open spec fn missing_message(name: Seq<char>) -> Seq<char> {
    "index schema field \""@ + name + "\": "@ + ("The field does not exist: '"@ + name + "'"@)
}

/// The names of the fields, in the order of the layout.
fn field_names() -> (r: Vec<&'static str>)
    ensures
        r@.len() == index_layout().len(),
        forall|j: int| 0 <= j < r@.len() ==> (#[trigger] r@[j])@ == index_layout()[j].name,
{
    vec![
        "id",
        "package_id",
        "package_name",
        "package_name_raw",
        "package_version",
        "package_key",
        "source_kind",
        "item_kind",
        "title",
        "symbol_path",
        "symbol_exact",
        "symbol_last",
        "section_text",
        "section_json",
        "body",
        "signature",
        "related_text",
        "related_json",
        "source_path",
        "source_span_json",
    ]
}

/// Resolved against the schema of the index, each field has the number of its
/// place in the layout.
pub proof fn law_fields_of_own_schema(fields: IndexFields)
    requires
        fields.resolved(index_layout()),
    ensures
        forall|k: int| 0 <= k < index_layout().len() ==> #[trigger] fields.ids()[k] == k,
        fields.addressable(),
{
    assert forall|k: int| 0 <= k < index_layout().len() implies #[trigger] fields.ids()[k] == k by {
        let n = fields.ids()[k] as int;
        if n < k {
            lemma_names_differ(n, k);
        } else if k < n {
            lemma_names_differ(k, n);
        }
    }
}

// ---------------------------------------------------------------------------
// Documents to values
// ---------------------------------------------------------------------------

/// The text that stands for an optional text: the empty text for none.
pub open spec fn or_empty(o: Option<Seq<char>>) -> Seq<char> {
    match o {
        Some(s) => s,
        None => Seq::empty(),
    }
}

/// A text unless it is empty.
pub open spec fn non_empty(o: Option<Seq<char>>) -> Option<Seq<char>> {
    match o {
        Some(s) => if s.len() > 0 {
            Some(s)
        } else {
            None
        },
        None => None,
    }
}

/// The last segment of a symbol path.
pub open spec fn last_segment(symbol: Seq<char>) -> Seq<char> {
    pieces::behind_last(symbol, "::"@)
}

/// The values of a document before its item kind.
pub open spec fn leading_values(f: IndexFields, d: DocumentView) -> Seq<(u32, Option<Seq<char>>)> {
    seq![
        (f.id, Some(d.id)),
        (f.package_id, Some(d.package.package_id)),
        (f.package_name, Some(d.package.name)),
        (f.package_name_raw, Some(text::lowercase(d.package.name))),
        (f.package_version, Some(d.package.version)),
        (f.package_key, Some(text::lowercase(d.package.display()))),
        (f.source_kind, Some(d.source_kind.name())),
    ]
}

/// The item kind of a document, in lower case. No item kind is no value: an
/// empty one must not become a term that a filter could name.
pub open spec fn kind_values(f: IndexFields, d: DocumentView) -> Seq<(u32, Option<Seq<char>>)> {
    match non_empty(d.item_kind) {
        Some(kind) => seq![(f.item_kind, Some(text::lowercase(kind)))],
        None => Seq::empty(),
    }
}

/// The values of a document behind its item kind.
pub open spec fn trailing_values(
    f: IndexFields,
    d: DocumentView,
    span_json: Seq<char>,
) -> Seq<(u32, Option<Seq<char>>)> {
    seq![
        (f.title, Some(d.title)),
        (f.symbol_path, Some(or_empty(d.symbol_path))),
        (f.symbol_exact, Some(text::lowercase(or_empty(d.symbol_path)))),
        (f.symbol_last, Some(text::lowercase(last_segment(or_empty(d.symbol_path))))),
        (f.section_text, Some(words::join(d.section_path, " > "@))),
        (f.section_json, Some(json::strings_json(d.section_path))),
        (f.body, Some(d.text)),
        (f.signature, Some(or_empty(d.signature))),
        (f.related_text, Some(words::join(d.related_symbols, " "@))),
        (f.related_json, Some(json::strings_json(d.related_symbols))),
        (f.source_path, Some(or_empty(d.source_path))),
        (f.source_span_json, Some(
            match d.source_span {
                Some(_) => span_json,
                None => Seq::empty(),
            },
        )),
    ]
}

/// The values of a document, `span_json` being the JSON text of its source span
/// if it has one.
pub open spec fn document_values(
    f: IndexFields,
    d: DocumentView,
    span_json: Seq<char>,
) -> Seq<(u32, Option<Seq<char>>)> {
    leading_values(f, d) + kind_values(f, d) + trailing_values(f, d, span_json)
}

/// How many bytes the texts of some values take.
pub open spec fn values_size(values: Seq<(u32, Option<Seq<char>>)>) -> nat
    decreases values.len(),
{
    if values.len() == 0 {
        0
    } else {
        values_size(values.drop_last()) + text::utf8_len(or_empty(values.last().1))
    }
}

/// How many bytes a document with these values takes at most: their texts, and the
/// length of each.
pub open spec fn room(values: Seq<(u32, Option<Seq<char>>)>) -> nat {
    values_size(values) + 5 * values.len()
}

/// The document holds these values, as far as its addresses reach, and is not
/// larger than they are at most.
pub open spec fn holds(doc: TantivyDocument, values: Seq<(u32, Option<Seq<char>>)>) -> bool {
    &&& engine::doc_size(doc) <= room(values)
    &&& engine::readable(doc) ==> engine::doc_values(doc) == values
}

/// A document that is being filled.
struct Draft {
    doc: TantivyDocument,
    /// How many bytes it takes at most; not counted any further once that is
    /// beyond what the engine's addresses reach.
    size: u128,
}

impl Draft {
    /// The draft holds these values.
    spec fn filled(self, values: Seq<(u32, Option<Seq<char>>)>) -> bool {
        &&& holds(self.doc, values)
        &&& if room(values) <= u32::MAX {
            self.size == room(values)
        } else {
            self.size > u32::MAX
        }
    }
}

/// Puts one more value into a document.
fn put(draft: &mut Draft, field: u32, value: &str)
    requires
        field <= 0xffff,
    ensures
        forall|values: Seq<(u32, Option<Seq<char>>)>| #[trigger]
            old(draft).filled(values) ==> final(draft).filled(values.push((field, Some(value@)))),
{
    let ghost before = *draft;
    engine::add_text(&mut draft.doc, field, value);
    if draft.size <= u32::MAX as u128 {
        draft.size = draft.size + text::byte_len(value) as u128 + 5;
    }
    proof {
        let after = *draft;
        assert forall|values: Seq<(u32, Option<Seq<char>>)>| #[trigger]
            before.filled(values) implies after.filled(values.push((field, Some(value@)))) by {
            let more = values.push((field, Some(value@)));
            assert(more.drop_last() == values);
            assert(room(more) == room(values) + text::utf8_len(value@) + 5);
        }
    }
}

/// The text that stands for an optional text.
fn text_or_empty(o: &Option<String>) -> (r: &str)
    ensures
        r@ == or_empty(words::shown(*o)),
{
    match o {
        Some(s) => s.as_str(),
        None => {
            proof {
                reveal_strlit("");
            }
            assert(""@ == Seq::<char>::empty());
            ""
        },
    }
}

/// The JSON text of a list of strings.
fn list_json(list: &Vec<String>) -> (r: String)
    ensures
        r@ == json::strings_json(words::texts(list@)),
        json::json_strings(r@) == Some(words::texts(list@)),
{
    match json::to_json(list) {
        Some(s) => s,
        None => "[]".to_owned(),
    }
}

/// The first seven values of a document.
fn put_leading(draft: &mut Draft, f: &IndexFields, d: &KnowledgeDocument)
    requires
        f.addressable(),
        old(draft).filled(Seq::empty()),
    ensures
        final(draft).filled(leading_values(*f, d@)),
        ids::is_id(d@.id),
{
    assert(f.ids()[0] <= 0xffff && f.ids()[1] <= 0xffff && f.ids()[2] <= 0xffff);
    assert(f.ids()[3] <= 0xffff && f.ids()[4] <= 0xffff && f.ids()[5] <= 0xffff);
    assert(f.ids()[6] <= 0xffff);
    put(draft, f.id, d.id.as_str());
    put(draft, f.package_id, d.package.package_id.as_str());
    put(draft, f.package_name, d.package.name.as_str());
    put(draft, f.package_name_raw, text::to_lowercase(d.package.name.as_str()).as_str());
    put(draft, f.package_version, d.package.version.as_str());
    put(draft, f.package_key, text::to_lowercase(d.package.display().as_str()).as_str());
    put(draft, f.source_kind, d.source_kind.as_str());
    assert(Seq::<(u32, Option<Seq<char>>)>::empty().push((f.id, Some(d@.id))).push(
        (f.package_id, Some(d@.package.package_id)),
    ).push((f.package_name, Some(d@.package.name))).push(
        (f.package_name_raw, Some(text::lowercase(d@.package.name))),
    ).push((f.package_version, Some(d@.package.version))).push(
        (f.package_key, Some(text::lowercase(d@.package.display()))),
    ).push((f.source_kind, Some(d@.source_kind.name()))) =~= leading_values(*f, d@));
}

/// The values behind the item kind.
fn put_trailing(
    draft: &mut Draft,
    f: &IndexFields,
    d: &KnowledgeDocument,
    span_json: &str,
    Ghost(before): Ghost<Seq<(u32, Option<Seq<char>>)>>,
)
    requires
        f.addressable(),
        old(draft).filled(before),
    ensures
        final(draft).filled(before + trailing_values(*f, d@, span_json@)),
        json::json_strings(json::strings_json(d@.section_path)) == Some(d@.section_path),
        json::json_strings(json::strings_json(d@.related_symbols)) == Some(d@.related_symbols),
{
    proof {
        reveal_strlit("");
        reveal_strlit("::");
        assert(""@ == Seq::<char>::empty());
        assert(f.ids()[8] <= 0xffff && f.ids()[9] <= 0xffff && f.ids()[10] <= 0xffff);
        assert(f.ids()[11] <= 0xffff && f.ids()[12] <= 0xffff && f.ids()[13] <= 0xffff);
        assert(f.ids()[14] <= 0xffff && f.ids()[15] <= 0xffff && f.ids()[16] <= 0xffff);
        assert(f.ids()[17] <= 0xffff && f.ids()[18] <= 0xffff && f.ids()[19] <= 0xffff);
    }
    let symbol = text_or_empty(&d.symbol_path);
    let section_text = words::join_strings(&d.section_path, " > ");
    let section_json = list_json(&d.section_path);
    let related_text = words::join_strings(&d.related_symbols, " ");
    let related_json = list_json(&d.related_symbols);
    let span: &str = match d.source_span {
        Some(_) => span_json,
        None => "",
    };
    put(draft, f.title, d.title.as_str());
    put(draft, f.symbol_path, symbol);
    put(draft, f.symbol_exact, text::to_lowercase(symbol).as_str());
    let last = pieces::rest_behind_last(symbol, "::");
    put(draft, f.symbol_last, text::to_lowercase(last.as_str()).as_str());
    put(draft, f.section_text, section_text.as_str());
    put(draft, f.section_json, section_json.as_str());
    put(draft, f.body, d.text.as_str());
    put(draft, f.signature, text_or_empty(&d.signature));
    put(draft, f.related_text, related_text.as_str());
    put(draft, f.related_json, related_json.as_str());
    put(draft, f.source_path, text_or_empty(&d.source_path));
    put(draft, f.source_span_json, span);
    proof {
        let v = trailing_values(*f, d@, span_json@);
        let all = before.push(v[0]).push(v[1]).push(v[2]).push(v[3]).push(v[4]).push(v[5]).push(
            v[6],
        ).push(v[7]).push(v[8]).push(v[9]).push(v[10]).push(v[11]);
        assert(draft.filled(all));
        assert(all =~= before + v);
    }
}

/// The values of a document, put into a document of the engine.
fn draft_of(fields: &IndexFields, doc: &KnowledgeDocument, span_json: &str) -> (r: Draft)
    requires
        fields.addressable(),
    ensures
        r.filled(document_values(*fields, doc@, span_json@)),
        fields.ids().no_duplicates() && engine::readable(r.doc) ==> forall|
            span: Option<SourceSpan>,
        | #[trigger]
            stored_document(*fields, engine::doc_values(r.doc), span) == Some(
                kept_document(doc@, span),
            ),
{
    let mut draft = Draft { doc: TantivyDocument::new(), size: 0 };
    put_leading(&mut draft, fields, doc);
    let ghost mut values = leading_values(*fields, doc@);
    if let Some(kind) = &doc.item_kind {
        if !kind.as_str().is_empty() {
            assert(fields.ids()[7] <= 0xffff);
            put(&mut draft, fields.item_kind, text::to_lowercase(kind.as_str()).as_str());
            proof {
                values = values.push((fields.item_kind, Some(text::lowercase(kind@))));
            }
        }
    }
    assert(values =~= leading_values(*fields, doc@) + kind_values(*fields, doc@));
    put_trailing(&mut draft, fields, doc, span_json, Ghost(values));
    proof {
        if fields.ids().no_duplicates() && engine::readable(draft.doc) {
            assert forall|span: Option<SourceSpan>| #[trigger]
                stored_document(*fields, engine::doc_values(draft.doc), span) == Some(
                    kept_document(doc@, span),
                ) by {
                law_document_round_trip(*fields, doc@, span_json@, span);
            }
        }
    }
    draft
}

/// The document of the engine for a normalized document; `span_json` is the
/// JSON text of its source span, where it has one. As long as the document is
/// within what the engine can address, it reads back as what the index keeps.
pub fn to_tantivy_doc(fields: &IndexFields, doc: &KnowledgeDocument, span_json: &str) -> (r:
    TantivyDocument)
    requires
        fields.addressable(),
    ensures
        holds(r, document_values(*fields, doc@, span_json@)),
        fields.ids().no_duplicates() && engine::readable(r) ==> forall|
            span: Option<SourceSpan>,
        | #[trigger]
            stored_document(*fields, engine::doc_values(r), span) == Some(
                kept_document(doc@, span),
            ),
{
    draft_of(fields, doc, span_json).doc
}

/// The document of the engine for a normalized document, as far as it is sure to be
/// within what the engine can address; none where it may be too large to be read.
pub fn readable_tantivy_doc(
    fields: &IndexFields,
    doc: &KnowledgeDocument,
    span_json: &str,
) -> (r: Option<TantivyDocument>)
    requires
        fields.addressable(),
    ensures
        r is Some == (room(document_values(*fields, doc@, span_json@)) <= u32::MAX),
        r matches Some(td) ==> {
            &&& engine::readable(td)
            &&& engine::doc_values(td) == document_values(*fields, doc@, span_json@)
            &&& fields.ids().no_duplicates() ==> forall|span: Option<SourceSpan>| #[trigger]
                stored_document(*fields, engine::doc_values(td), span) == Some(
                    kept_document(doc@, span),
                )
        },
{
    let draft = draft_of(fields, doc, span_json);
    if draft.size <= u32::MAX as u128 {
        Some(draft.doc)
    } else {
        None
    }
}

// ---------------------------------------------------------------------------
// Values to documents
// ---------------------------------------------------------------------------

/// The list that the JSON text under a field holds; the empty list where there
/// is none.
pub open spec fn stored_list(values: Seq<(u32, Option<Seq<char>>)>, field: u32) -> Seq<Seq<char>> {
    match engine::first_text(values, field) {
        Some(s) => match json::json_strings(s) {
            Some(list) => list,
            None => Seq::empty(),
        },
        None => Seq::empty(),
    }
}

/// The document that some values stand for: none where its id, its package or
/// its source kind is missing or cannot be read.
pub open spec fn stored_document(
    f: IndexFields,
    values: Seq<(u32, Option<Seq<char>>)>,
    span: Option<SourceSpan>,
) -> Option<DocumentView> {
    let id = engine::first_text(values, f.id);
    let package_id = engine::first_text(values, f.package_id);
    let name = engine::first_text(values, f.package_name);
    let version = engine::first_text(values, f.package_version);
    let kind = engine::first_text(values, f.source_kind);
    if package_id is Some && name is Some && version is Some && kind is Some && SourceKind::named(
        kind->0,
    ) is Some && id is Some && ids::reads_as_id(id->0) {
        Some(
            DocumentView {
                id: text::lowercase(id->0),
                package: PackageView {
                    package_id: package_id->0,
                    name: name->0,
                    version: version->0,
                    source: None,
                    manifest_path: Seq::empty(),
                },
                source_kind: SourceKind::named(kind->0)->0,
                title: or_empty(engine::first_text(values, f.title)),
                symbol_path: non_empty(engine::first_text(values, f.symbol_path)),
                item_kind: non_empty(engine::first_text(values, f.item_kind)),
                section_path: stored_list(values, f.section_json),
                text: or_empty(engine::first_text(values, f.body)),
                source_path: non_empty(engine::first_text(values, f.source_path)),
                source_span: span,
                related_symbols: stored_list(values, f.related_json),
                signature: non_empty(engine::first_text(values, f.signature)),
            },
        )
    } else {
        None
    }
}

/// The text under a field; the empty text where there is none.
pub(crate) fn stored_text(doc: &TantivyDocument, field: u32) -> (r: String)
    requires
        engine::readable(*doc),
    ensures
        r@ == or_empty(engine::first_text(engine::doc_values(*doc), field)),
{
    match engine::get_text(doc, field) {
        Some(s) => s,
        None => String::new(),
    }
}

/// The text under a field, unless it is empty.
pub(crate) fn stored_non_empty(doc: &TantivyDocument, field: u32) -> (r: Option<String>)
    requires
        engine::readable(*doc),
    ensures
        words::shown(r) == non_empty(engine::first_text(engine::doc_values(*doc), field)),
{
    match engine::get_text(doc, field) {
        Some(s) => if s.as_str().is_empty() {
            None
        } else {
            Some(s)
        },
        None => None,
    }
}

/// The list under a field.
pub(crate) fn stored_strings(doc: &TantivyDocument, field: u32) -> (r: Vec<String>)
    requires
        engine::readable(*doc),
    ensures
        words::texts(r@) == stored_list(engine::doc_values(*doc), field),
{
    if let Some(s) = engine::get_text(doc, field) {
        if let Some(list) = json::from_json(s.as_str()) {
            return list;
        }
    }
    let none: Vec<String> = Vec::new();
    assert(words::texts(none@) =~= Seq::<Seq<char>>::empty());
    none
}

/// The JSON text of the source span of a document, where it has one.
pub fn stored_span(fields: &IndexFields, doc: &TantivyDocument) -> (r: Option<String>)
    requires
        engine::readable(*doc),
    ensures
        words::shown(r) == engine::first_text(engine::doc_values(*doc), fields.source_span_json),
{
    engine::get_text(doc, fields.source_span_json)
}

/// The normalized document of stored values; `span` is what its source span
/// reads as.
pub fn from_tantivy_doc(
    fields: &IndexFields,
    doc: &TantivyDocument,
    span: Option<SourceSpan>,
) -> (r: Option<KnowledgeDocument>)
    requires
        engine::readable(*doc),
    ensures
        match r {
            Some(d) => stored_document(*fields, engine::doc_values(*doc), span) == Some(d@),
            None => stored_document(*fields, engine::doc_values(*doc), span) is None,
        },
{
    let package_id = match engine::get_text(doc, fields.package_id) {
        Some(s) => s,
        None => {
            return None;
        },
    };
    let name = match engine::get_text(doc, fields.package_name) {
        Some(s) => s,
        None => {
            return None;
        },
    };
    let version = match engine::get_text(doc, fields.package_version) {
        Some(s) => s,
        None => {
            return None;
        },
    };
    let kind_name = match engine::get_text(doc, fields.source_kind) {
        Some(s) => s,
        None => {
            return None;
        },
    };
    let source_kind = match SourceKind::parse(kind_name.as_str()) {
        Ok(kind) => kind,
        Err(_) => {
            return None;
        },
    };
    let raw_id = match engine::get_text(doc, fields.id) {
        Some(s) => s,
        None => {
            return None;
        },
    };
    let id = match DocumentId::from_raw(raw_id.as_str()) {
        Some(id) => id,
        None => {
            return None;
        },
    };
    let d = KnowledgeDocument {
        id,
        package: PackageIdentity {
            package_id,
            name,
            version,
            source: None,
            manifest_path: String::new(),
        },
        source_kind,
        title: stored_text(doc, fields.title),
        symbol_path: stored_non_empty(doc, fields.symbol_path),
        item_kind: stored_non_empty(doc, fields.item_kind),
        section_path: stored_strings(doc, fields.section_json),
        text: stored_text(doc, fields.body),
        source_path: stored_non_empty(doc, fields.source_path),
        source_span: span,
        related_symbols: stored_strings(doc, fields.related_json),
        signature: stored_non_empty(doc, fields.signature),
    };
    assert(d@.package.manifest_path =~= Seq::<char>::empty());
    Some(d)
}

// ---------------------------------------------------------------------------
// Round trip
// ---------------------------------------------------------------------------

/// What the index keeps of a document: where its package comes from is
/// dropped, the item kind is in lower case, and an empty text is no text.
pub open spec fn kept_document(d: DocumentView, span: Option<SourceSpan>) -> DocumentView {
    DocumentView {
        package: PackageView { source: None, manifest_path: Seq::empty(), ..d.package },
        symbol_path: non_empty(d.symbol_path),
        item_kind: match non_empty(d.item_kind) {
            Some(kind) => non_empty(Some(text::lowercase(kind))),
            None => None,
        },
        source_path: non_empty(d.source_path),
        signature: non_empty(d.signature),
        source_span: span,
        ..d
    }
}

/// The first value under a field, by its place.
proof fn lemma_first_text_at(values: Seq<(u32, Option<Seq<char>>)>, field: u32, k: int)
    requires
        0 <= k < values.len(),
        values[k].0 == field,
        forall|j: int| 0 <= j < k ==> (#[trigger] values[j]).0 != field,
    ensures
        engine::first_text(values, field) == values[k].1,
    decreases k,
{
    if k > 0 {
        assert(values[0].0 != field);
        let rest = values.drop_first();
        assert forall|j: int| 0 <= j < k - 1 implies (#[trigger] rest[j]).0 != field by {
            assert(values[j + 1].0 != field);
        }
        lemma_first_text_at(rest, field, k - 1);
    }
}

/// No value under a field.
proof fn lemma_first_text_none(values: Seq<(u32, Option<Seq<char>>)>, field: u32)
    requires
        forall|j: int| 0 <= j < values.len() ==> (#[trigger] values[j]).0 != field,
    ensures
        engine::first_text(values, field) is None,
    decreases values.len(),
{
    if values.len() > 0 {
        assert(values[0].0 != field);
        let rest = values.drop_first();
        assert forall|j: int| 0 <= j < rest.len() implies (#[trigger] rest[j]).0 != field by {
            assert(values[j + 1].0 != field);
        }
        lemma_first_text_none(rest, field);
    }
}

/// The place in the layout of the value at place `j`.
spec fn layout_place(d: DocumentView, j: int) -> int {
    if j < 7 || non_empty(d.item_kind) is Some {
        j
    } else {
        j + 1
    }
}

/// Every value stands under the field of its place in the layout.
proof fn lemma_value_fields(f: IndexFields, d: DocumentView, span_json: Seq<char>, j: int)
    requires
        0 <= j < document_values(f, d, span_json).len(),
    ensures
        document_values(f, d, span_json)[j].0 == f.ids()[layout_place(d, j)],
        0 <= layout_place(d, j) < 20,
{
    let lead = leading_values(f, d);
    let kind = kind_values(f, d);
    let trail = trailing_values(f, d, span_json);
    let all = document_values(f, d, span_json);
    assert(lead.len() == 7 && trail.len() == 12);
    if j < 7 {
        assert(all[j] == lead[j]);
    } else if j < 7 + kind.len() {
        assert(all[j] == kind[j - 7]);
    } else {
        let t = j - 7 - kind.len();
        assert(all[j] == trail[t]);
        assert(layout_place(d, j) == t + 8);
    }
}

/// The value of a field by its place in the layout.
proof fn lemma_value_at(f: IndexFields, d: DocumentView, span_json: Seq<char>, j: int)
    requires
        0 <= j < document_values(f, d, span_json).len(),
        f.ids().no_duplicates(),
    ensures
        engine::first_text(document_values(f, d, span_json), f.ids()[layout_place(d, j)])
            == document_values(f, d, span_json)[j].1,
{
    let all = document_values(f, d, span_json);
    lemma_value_fields(f, d, span_json, j);
    assert forall|i: int| 0 <= i < j implies (#[trigger] all[i]).0 != f.ids()[layout_place(d, j)] by {
        lemma_value_fields(f, d, span_json, i);
        assert(layout_place(d, i) != layout_place(d, j));
    }
    lemma_first_text_at(all, f.ids()[layout_place(d, j)], j);
}

/// Among the leading values, the field at place `k` of the layout holds one text
/// and no other.
pub proof fn lemma_terms(
    f: IndexFields,
    d: DocumentView,
    span_json: Seq<char>,
    k: int,
    t: Seq<char>,
)
    requires
        f.ids().no_duplicates(),
        0 <= k < 7,
    ensures
        document_values(f, d, span_json).contains((f.ids()[k], Some(t))) == (leading_values(
            f,
            d,
        )[k].1 == Some(t)),
{
    let all = document_values(f, d, span_json);
    let v = (f.ids()[k], Some(t));
    lemma_value_fields(f, d, span_json, k);
    assert(all[k] == leading_values(f, d)[k]);
    if all.contains(v) {
        let j = choose|j: int| 0 <= j < all.len() && all[j] == v;
        lemma_value_fields(f, d, span_json, j);
        assert(layout_place(d, j) == k);
        assert(j == k);
    }
}

/// The item kind field holds the item kind in lower case, and nothing where
/// there is no item kind.
pub proof fn lemma_item_kind_terms(
    f: IndexFields,
    d: DocumentView,
    span_json: Seq<char>,
    t: Seq<char>,
)
    requires
        f.ids().no_duplicates(),
    ensures
        document_values(f, d, span_json).contains((f.item_kind, Some(t))) == (match non_empty(
            d.item_kind,
        ) {
            Some(kind) => t == text::lowercase(kind),
            None => false,
        }),
{
    let all = document_values(f, d, span_json);
    let v = (f.item_kind, Some(t));
    assert(f.ids()[7] == f.item_kind);
    if non_empty(d.item_kind) is Some {
        assert(all[7] == kind_values(f, d)[0]);
    }
    if all.contains(v) {
        let j = choose|j: int| 0 <= j < all.len() && all[j] == v;
        lemma_value_fields(f, d, span_json, j);
        assert(layout_place(d, j) == 7);
        assert(j == 7);
    }
}

/// What the values of a document hold under each field that is read.
pub proof fn lemma_first_texts(f: IndexFields, d: DocumentView, span_json: Seq<char>)
    requires
        f.ids().no_duplicates(),
    ensures
        ({
            let all = document_values(f, d, span_json);
            &&& engine::first_text(all, f.id) == Some(d.id)
            &&& engine::first_text(all, f.package_id) == Some(d.package.package_id)
            &&& engine::first_text(all, f.package_name) == Some(d.package.name)
            &&& engine::first_text(all, f.package_version) == Some(d.package.version)
            &&& engine::first_text(all, f.source_kind) == Some(d.source_kind.name())
            &&& engine::first_text(all, f.item_kind) == (match non_empty(d.item_kind) {
                Some(kind) => Some(text::lowercase(kind)),
                None => None,
            })
            &&& engine::first_text(all, f.title) == Some(d.title)
            &&& engine::first_text(all, f.symbol_path) == Some(or_empty(d.symbol_path))
            &&& engine::first_text(all, f.section_text) == Some(words::join(d.section_path, " > "@))
            &&& engine::first_text(all, f.section_json) == Some(json::strings_json(d.section_path))
            &&& engine::first_text(all, f.body) == Some(d.text)
            &&& engine::first_text(all, f.signature) == Some(or_empty(d.signature))
            &&& engine::first_text(all, f.related_text) == Some(
                words::join(d.related_symbols, " "@),
            )
            &&& engine::first_text(all, f.related_json) == Some(
                json::strings_json(d.related_symbols),
            )
            &&& engine::first_text(all, f.source_path) == Some(or_empty(d.source_path))
        }),
{
    let all = document_values(f, d, span_json);
    let n = 7 + kind_values(f, d).len();
    assert(all.len() == n + 12);
    assert forall|k: int| 0 <= k < 12 implies engine::first_text(all, f.ids()[k + 8])
        == #[trigger] trailing_values(f, d, span_json)[k].1 by {
        lemma_value_at(f, d, span_json, n + k);
        assert(all[n + k] == trailing_values(f, d, span_json)[k]);
    }
    assert forall|k: int| 0 <= k < 7 implies engine::first_text(all, f.ids()[k])
        == #[trigger] leading_values(f, d)[k].1 by {
        lemma_value_at(f, d, span_json, k);
        assert(all[k] == leading_values(f, d)[k]);
    }
    let trail = trailing_values(f, d, span_json);
    let lead = leading_values(f, d);
    assert(lead[0].1 == Some(d.id) && lead[1].1 == Some(d.package.package_id));
    assert(lead[2].1 == Some(d.package.name) && lead[4].1 == Some(d.package.version));
    assert(lead[6].1 == Some(d.source_kind.name()));
    assert(trail[0].1 == Some(d.title) && trail[1].1 == Some(or_empty(d.symbol_path)));
    assert(trail[4].1 == Some(words::join(d.section_path, " > "@)));
    assert(trail[5].1 == Some(json::strings_json(d.section_path)));
    assert(trail[6].1 == Some(d.text) && trail[7].1 == Some(or_empty(d.signature)));
    assert(trail[8].1 == Some(words::join(d.related_symbols, " "@)));
    assert(trail[9].1 == Some(json::strings_json(d.related_symbols)));
    assert(trail[10].1 == Some(or_empty(d.source_path)));
    match non_empty(d.item_kind) {
        Some(kind) => {
            lemma_value_at(f, d, span_json, 7);
            assert(all[7] == kind_values(f, d)[0]);
        },
        None => {
            assert forall|j: int| 0 <= j < all.len() implies (#[trigger] all[j]).0 != f.item_kind by {
                lemma_value_fields(f, d, span_json, j);
                assert(f.ids()[7] == f.item_kind);
                assert(layout_place(d, j) != 7);
            }
            lemma_first_text_none(all, f.item_kind);
        },
    }
}

/// What was put into the index reads back as the document that the index keeps,
/// where reading the JSON lists gives the lists back.
pub proof fn law_document_round_trip(
    f: IndexFields,
    d: DocumentView,
    span_json: Seq<char>,
    span: Option<SourceSpan>,
)
    requires
        f.ids().no_duplicates(),
        ids::is_id(d.id),
        json::json_strings(json::strings_json(d.section_path)) == Some(d.section_path),
        json::json_strings(json::strings_json(d.related_symbols)) == Some(d.related_symbols),
    ensures
        stored_document(f, document_values(f, d, span_json), span) == Some(kept_document(d, span)),
{
    lemma_first_texts(f, d, span_json);
    crate::document::law_source_kind_round_trip(d.source_kind);
    ids::law_id_round_trip(d.id);
}

/// Reading needs stored fields only: values that agree on the stored fields of
/// the layout read as the same document.
pub proof fn law_stored_fields_suffice(
    f: IndexFields,
    values: Seq<(u32, Option<Seq<char>>)>,
    kept: Seq<(u32, Option<Seq<char>>)>,
    span: Option<SourceSpan>,
)
    requires
        forall|k: int|
            0 <= k < index_layout().len() && (#[trigger] index_layout()[k]).kind->Text_0.stored
                ==> engine::first_text(kept, f.ids()[k]) == engine::first_text(values, f.ids()[k]),
    ensures
        stored_document(f, kept, span) == stored_document(f, values, span),
{
    assert(index_layout()[0].kind->Text_0.stored && f.ids()[0] == f.id);
    assert(index_layout()[1].kind->Text_0.stored && f.ids()[1] == f.package_id);
    assert(index_layout()[2].kind->Text_0.stored && f.ids()[2] == f.package_name);
    assert(index_layout()[4].kind->Text_0.stored && f.ids()[4] == f.package_version);
    assert(index_layout()[6].kind->Text_0.stored && f.ids()[6] == f.source_kind);
    assert(index_layout()[7].kind->Text_0.stored && f.ids()[7] == f.item_kind);
    assert(index_layout()[8].kind->Text_0.stored && f.ids()[8] == f.title);
    assert(index_layout()[9].kind->Text_0.stored && f.ids()[9] == f.symbol_path);
    assert(index_layout()[13].kind->Text_0.stored && f.ids()[13] == f.section_json);
    assert(index_layout()[14].kind->Text_0.stored && f.ids()[14] == f.body);
    assert(index_layout()[15].kind->Text_0.stored && f.ids()[15] == f.signature);
    assert(index_layout()[17].kind->Text_0.stored && f.ids()[17] == f.related_json);
    assert(index_layout()[18].kind->Text_0.stored && f.ids()[18] == f.source_path);
}

} // verus!
