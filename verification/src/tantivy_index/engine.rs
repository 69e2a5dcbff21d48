//! The parts of the search engine that the library calls, and what is relied
//! upon of each.
use tantivy::schema::{Field, IndexRecordOption, Schema, SchemaBuilder, Value};
use tantivy::schema::{STRING, TEXT, TextFieldIndexing, TextOptions};
use tantivy::TantivyDocument;
use tantivy::query::QueryParser;
use tantivy::tokenizer::TokenizerManager;
use vstd::prelude::*;
use crate::text;

verus! {

// ---------------------------------------------------------------------------
// Schemas
// ---------------------------------------------------------------------------

/// The options of a text field.
#[verifier::external_type_specification]
#[verifier::external_body]
pub struct ExTextOptions(TextOptions);

/// A schema while it is built.
#[verifier::external_type_specification]
#[verifier::external_body]
pub struct ExSchemaBuilder(SchemaBuilder);

/// The fields of an index.
#[verifier::external_type_specification]
#[verifier::external_body]
pub struct ExSchema(Schema);

/// What is recorded of each term of a field.
pub enum Recorded {
    Basic,
    Freqs,
    Positions,
}

/// How the text of a field is indexed: its tokenizer and what is recorded.
pub struct IndexingView {
    pub tokenizer: Seq<char>,
    pub recorded: Recorded,
}

/// What the options of a text field say.
pub struct TextFieldView {
    pub indexing: Option<IndexingView>,
    pub stored: bool,
    pub fast: bool,
    pub coerce: bool,
}

/// What a field holds: text with options, or something else.
pub enum FieldKindView {
    Text(TextFieldView),
    Other(Seq<char>),
}

/// One field of a schema.
pub struct FieldView {
    pub name: Seq<char>,
    pub kind: FieldKindView,
}

/// What the options of a text field say.
pub uninterp spec fn text_options(options: TextOptions) -> TextFieldView;

/// The fields added so far, in order.
pub uninterp spec fn builder_fields(builder: SchemaBuilder) -> Seq<FieldView>;

/// The fields of a schema, each at the place of its number.
pub uninterp spec fn schema_fields(schema: Schema) -> Seq<FieldView>;

/// `tantivy::schema::TEXT`: tokenized by the default tokenizer, with positions,
/// not stored.
#[verifier::external_body]
pub(crate) fn tokenized() -> (r: TextOptions)
    ensures
        text_options(r) == (TextFieldView {
            indexing: Some(
                IndexingView { tokenizer: "default"@, recorded: Recorded::Positions },
            ),
            stored: false,
            fast: false,
            coerce: false,
        }),
{
    TEXT
}

/// `tantivy::schema::STRING`: indexed as one term, without positions, not
/// stored.
#[verifier::external_body]
pub(crate) fn untokenized() -> (r: TextOptions)
    ensures
        text_options(r) == (TextFieldView {
            indexing: Some(IndexingView { tokenizer: "raw"@, recorded: Recorded::Basic }),
            stored: false,
            fast: false,
            coerce: false,
        }),
{
    STRING
}

/// `TextOptions::default`: neither indexed nor stored.
#[verifier::external_body]
pub(crate) fn no_options() -> (r: TextOptions)
    ensures
        text_options(r) == (TextFieldView {
            indexing: None,
            stored: false,
            fast: false,
            coerce: false,
        }),
{
    TextOptions::default()
}

/// `TextOptions::set_stored`: the text is stored; nothing else changes.
pub assume_specification[ TextOptions::set_stored ](options: TextOptions) -> (r: TextOptions)
    ensures
        text_options(r) == (TextFieldView { stored: true, ..text_options(options) }),
;

/// `TextOptions::set_indexing_options` with the tokenizer of that name and with
/// positions recorded; nothing else changes.
#[verifier::external_body]
pub(crate) fn set_tokenizer(options: TextOptions, tokenizer: &str) -> (r: TextOptions)
    ensures
        text_options(r) == (TextFieldView {
            indexing: Some(
                IndexingView { tokenizer: tokenizer@, recorded: Recorded::Positions },
            ),
            ..text_options(options)
        }),
{
    let indexing = TextFieldIndexing::default().set_tokenizer(tokenizer);
    options.set_indexing_options(
        indexing.set_index_option(IndexRecordOption::WithFreqsAndPositions),
    )
}

/// `Schema::builder`: a builder without fields.
pub assume_specification[ Schema::builder ]() -> (r: SchemaBuilder)
    ensures
        builder_fields(r) == Seq::<FieldView>::empty(),
;

/// `SchemaBuilder::add_text_field`: adds a text field behind the others; the
/// result is its number. Left out are the names on which the engine panics: one
/// that is there already, the empty name, and one that begins with a hyphen.
#[verifier::external_body]
pub(crate) fn add_text_field(
    builder: &mut SchemaBuilder,
    name: &str,
    options: TextOptions,
) -> (r: u32)
    requires
        builder_fields(*old(builder)).len() < u32::MAX,
        name@.len() > 0,
        name@[0] != '-',
        forall|i: int|
            0 <= i < builder_fields(*old(builder)).len() ==> (#[trigger] builder_fields(
                *old(builder),
            )[i]).name != name@,
    ensures
        builder_fields(*final(builder)) == builder_fields(*old(builder)).push(
            FieldView { name: name@, kind: FieldKindView::Text(text_options(options)) },
        ),
        r == builder_fields(*old(builder)).len(),
{
    builder.add_text_field(name, options).field_id()
}

/// `SchemaBuilder::build`: the schema of the fields that were added.
pub assume_specification[ SchemaBuilder::build ](builder: SchemaBuilder) -> (r: Schema)
    ensures
        schema_fields(r) == builder_fields(builder),
;

/// `Schema::get_field`: the number of the one field with that name; where there
/// is none, the engine's message.
#[verifier::external_body]
pub(crate) fn get_field(schema: &Schema, name: &str) -> (r: Result<u32, String>)
    ensures
        match r {
            Ok(i) => i < schema_fields(*schema).len() && forall|k: int|
                0 <= k < schema_fields(*schema).len() ==> ((#[trigger] schema_fields(
                    *schema,
                )[k]).name == name@ <==> k == i),
            Err(message) => message@ == "The field does not exist: '"@ + name@ + "'"@ && forall|
                k: int,
            |
                0 <= k < schema_fields(*schema).len() ==> (#[trigger] schema_fields(
                    *schema,
                )[k]).name != name@,
        },
{
    schema.get_field(name).map(|field| field.field_id()).map_err(|e| e.to_string())
}

// ---------------------------------------------------------------------------
// Documents
// ---------------------------------------------------------------------------

/// A document of the engine: values, each under the number of a field.
#[verifier::external_type_specification]
#[verifier::external_body]
pub struct ExTantivyDocument(TantivyDocument);

/// The values of a document in order: the number of the field, and the text of
/// the value if it is text.
pub uninterp spec fn doc_values(doc: TantivyDocument) -> Seq<(u32, Option<Seq<char>>)>;

/// How many bytes the values of a document take.
pub uninterp spec fn doc_size(doc: TantivyDocument) -> nat;

/// The addresses of the engine reach all values of the document.
pub open spec fn readable(doc: TantivyDocument) -> bool {
    doc_size(doc) <= u32::MAX
}

/// The text of the first value under a field, if it is text.
pub open spec fn first_text(values: Seq<(u32, Option<Seq<char>>)>, field: u32) -> Option<Seq<char>>
    decreases values.len(),
{
    if values.len() == 0 {
        None
    } else if values[0].0 == field {
        values[0].1
    } else {
        first_text(values.drop_first(), field)
    }
}

/// `TantivyDocument::new`: a document without values.
pub assume_specification[ TantivyDocument::new ]() -> (r: TantivyDocument)
    ensures
        doc_values(r) == Seq::<(u32, Option<Seq<char>>)>::empty(),
        doc_size(r) == 0,
;

/// `TantivyDocument::add_text`: adds a text behind the other values. The text
/// and its length, which takes at most five bytes, are added to the size.
/// Addresses within a document have thirty-two bits: nothing is said of the
/// values of a document that has grown beyond what they reach. Numbers of
/// fields beyond sixteen bits are left out, because the engine panics on them.
#[verifier::external_body]
pub(crate) fn add_text(doc: &mut TantivyDocument, field: u32, value: &str)
    requires
        field <= 0xffff,
    ensures
        doc_size(*old(doc)) + text::utf8_len(value@) < doc_size(*final(doc)),
        doc_size(*final(doc)) <= doc_size(*old(doc)) + text::utf8_len(value@) + 5,
        readable(*final(doc)) ==> doc_values(*final(doc)) == doc_values(*old(doc)).push(
            (field, Some(value@)),
        ),
{
    doc.add_text(Field::from_field_id(field), value)
}

/// `TantivyDocument::get_first`, read as text: the text of the first value
/// under the field, if it is text. A document that has grown beyond what the
/// engine's addresses reach is left out, because reading it can panic.
#[verifier::external_body]
pub(crate) fn get_text(doc: &TantivyDocument, field: u32) -> (r: Option<String>)
    requires
        readable(*doc),
    ensures
        match r {
            Some(s) => first_text(doc_values(*doc), field) == Some(s@),
            None => first_text(doc_values(*doc), field) is None,
        },
{
    doc.get_first(Field::from_field_id(field)).and_then(|v| v.as_str().map(str::to_string))
}

// ---------------------------------------------------------------------------
// The query grammar
// ---------------------------------------------------------------------------

/// Whether a text is a query over these fields, for a parser with these default
/// fields.
pub uninterp spec fn query_parses(
    fields: Seq<FieldView>,
    defaults: Seq<u32>,
    query: Seq<char>,
) -> bool;

/// How deep parentheses may nest in a query. The parser reads what stands in
/// parentheses twice, so that each level doubles its work.
pub const MAX_NESTING: usize = 12;

/// How often the parser may have to call itself for a query: it does so at each
/// open parenthesis, and at each of several `NOT` one behind another.
pub const MAX_CALLS: usize = 128;

/// Every asterisk stands behind a backslash.
pub open spec fn asterisks_escaped(query: Seq<char>) -> bool {
    forall|i: int| 0 <= i < query.len() && #[trigger] query[i] == '*' ==> i > 0 && query[i - 1] == '\\'
}

/// How many parentheses are open at the end of a text.
pub open spec fn open_parens(s: Seq<char>) -> nat
    decreases s.len(),
{
    if s.len() == 0 {
        0
    } else {
        let before = open_parens(s.drop_last());
        if s.last() == '(' {
            before + 1
        } else if s.last() == ')' && before > 0 {
            (before - 1) as nat
        } else {
            before
        }
    }
}

/// How many parentheses are open at once, at most.
pub open spec fn paren_depth(s: Seq<char>) -> nat
    decreases s.len(),
{
    if s.len() == 0 {
        0
    } else {
        let before = paren_depth(s.drop_last());
        if open_parens(s) > before {
            open_parens(s)
        } else {
            before
        }
    }
}

/// What the parser may be at behind the beginning of a text, with the number of
/// open parentheses for each: one more than that number, and zero where the parser
/// cannot be at it.
pub struct Reading {
    /// Outside of everything below.
    pub plain: nat,
    /// Behind a backslash that may take away the meaning of what comes next.
    pub escaped: nat,
    /// In double quotes.
    pub double: nat,
    /// In double quotes, behind a backslash.
    pub double_escaped: nat,
    /// In single quotes.
    pub single: nat,
    /// In single quotes, behind a backslash.
    pub single_escaped: nat,
    /// In a regular expression, between slashes.
    pub slashed: nat,
    /// The largest number outside of quotes and slashes so far.
    pub deepest: nat,
}

/// The larger of two numbers.
pub open spec fn most(a: nat, b: nat) -> nat {
    if a < b {
        b
    } else {
        a
    }
}

/// The number if the condition holds, else zero.
pub open spec fn given(condition: bool, n: nat) -> nat {
    if condition {
        n
    } else {
        0
    }
}

/// The number of open parentheses behind a character that means itself.
pub open spec fn beside(n: nat, c: char) -> nat {
    if c == '(' && n > 0 {
        n + 1
    } else if c == ')' && n > 1 {
        (n - 1) as nat
    } else {
        n
    }
}

/// A slash may begin a regular expression: it does not continue a word.
pub open spec fn begins_pattern(s: Seq<char>, i: int) -> bool {
    i == 0 || !('a' <= s[i - 1] <= 'z' || 'A' <= s[i - 1] <= 'Z' || s[i - 1] == '_')
}

/// A slash may end a regular expression: behind it comes white space, a closed
/// parenthesis or nothing.
pub open spec fn ends_pattern(s: Seq<char>, i: int) -> bool {
    i + 1 >= s.len() || text::white(s[i + 1]) || s[i + 1] == ')'
}

/// What the parser may be at behind one more character.
pub open spec fn read_on(s: Seq<char>, i: int, r: Reading) -> Reading {
    let c = s[i];
    let kept_slash = i > 0 && s[i - 1] == '\\';
    let plain = most(
        most(r.escaped, given(c != '"', beside(r.plain, c))),
        most(
            most(given(c == '"', r.double), given(c == '\'', r.single)),
            given(c == '/' && !kept_slash && ends_pattern(s, i), r.slashed),
        ),
    );
    Reading {
        plain,
        escaped: given(c == '\\', r.plain),
        double: most(
            most(r.double_escaped, given(c == '"', r.plain)),
            given(c != '"' && c != '\\', r.double),
        ),
        double_escaped: given(c == '\\', r.double),
        single: most(
            most(r.single_escaped, given(c == '\'', r.plain)),
            given(c != '\'' && c != '\\', r.single),
        ),
        single_escaped: given(c == '\\', r.single),
        slashed: most(
            given(c == '/' && begins_pattern(s, i), r.plain),
            given(c != '/' || kept_slash, r.slashed),
        ),
        deepest: most(r.deepest, plain),
    }
}

/// What the parser may be at behind the first `n` characters.
pub open spec fn reading(s: Seq<char>, n: int) -> Reading
    decreases n,
{
    if n <= 0 {
        Reading {
            plain: 1,
            escaped: 0,
            double: 0,
            double_escaped: 0,
            single: 0,
            single_escaped: 0,
            slashed: 0,
            deepest: 1,
        }
    } else {
        read_on(s, n - 1, reading(s, n - 1))
    }
}

/// How many parentheses may be open at once, in whatever way the grammar takes
/// quotes, slashes and backslashes.
pub open spec fn nesting(s: Seq<char>) -> nat {
    (reading(s, s.len() as int).deepest - 1) as nat
}

/// The text ends with `NOT`.
pub open spec fn says_not(s: Seq<char>) -> bool {
    s.len() >= 3 && s[s.len() - 3] == 'N' && s[s.len() - 2] == 'O' && s[s.len() - 1] == 'T'
}

/// How many `NOT` stand at the end of a text, with nothing but white space between
/// and behind them.
pub open spec fn open_negations(s: Seq<char>) -> nat
    decreases s.len(),
{
    if s.len() == 0 {
        0
    } else if text::white(s.last()) {
        open_negations(s.drop_last())
    } else if says_not(s) {
        let rest = s.take(s.len() - 3);
        if rest.len() > 0 && text::white(rest.last()) {
            open_negations(rest) + 1
        } else {
            1
        }
    } else {
        0
    }
}

/// The longest run of `NOT` in a text.
pub open spec fn negations(s: Seq<char>) -> nat
    decreases s.len(),
{
    if s.len() == 0 {
        0
    } else {
        most(negations(s.drop_last()), open_negations(s))
    }
}

/// The text may be given to the parser: it is not nested too deep, and the parser
/// does not have to call itself too often.
pub open spec fn manageable(query: Seq<char>) -> bool {
    &&& nesting(query) <= MAX_NESTING
    &&& (nesting(query) + 1) * (negations(query) + 1) <= MAX_CALLS
}

/// Whether a text may be given to the parser, and the parser accepts it.
pub open spec fn accepted(fields: Seq<FieldView>, defaults: Seq<u32>, query: Seq<char>) -> bool {
    manageable(query) && query_parses(fields, defaults, query)
}

/// What the parser may be at behind the beginning of a text.
struct Progress {
    plain: u128,
    escaped: u128,
    double: u128,
    double_escaped: u128,
    single: u128,
    single_escaped: u128,
    slashed: u128,
    deepest: u128,
}

impl Progress {
    /// What the parser may be at.
    spec fn shown(self) -> Reading {
        Reading {
            plain: self.plain as nat,
            escaped: self.escaped as nat,
            double: self.double as nat,
            double_escaped: self.double_escaped as nat,
            single: self.single as nat,
            single_escaped: self.single_escaped as nat,
            slashed: self.slashed as nat,
            deepest: self.deepest as nat,
        }
    }

    /// No number is larger than `n`.
    spec fn within(self, n: int) -> bool {
        &&& self.plain <= n && self.escaped <= n && self.double <= n && self.double_escaped <= n
        &&& self.single <= n && self.single_escaped <= n && self.slashed <= n && self.deepest <= n
    }
}

/// The larger of two numbers.
fn larger(a: u128, b: u128) -> (r: u128)
    ensures
        r == most(a as nat, b as nat),
{
    if a < b {
        b
    } else {
        a
    }
}

/// The number if the condition holds, else zero.
fn given_if(condition: bool, n: u128) -> (r: u128)
    ensures
        r == given(condition, n as nat),
{
    if condition {
        n
    } else {
        0
    }
}

/// What the parser may be at behind one more character.
fn step(chars: &Vec<char>, i: usize, p: Progress) -> (r: Progress)
    requires
        i < chars@.len(),
        p.within(i + 1),
    ensures
        r.shown() == read_on(chars@, i as int, p.shown()),
        r.within(i + 2),
{
    let total: usize = chars.len();
    let c = chars[i];
    let kept_slash = i > 0 && chars[i - 1] == '\\';
    let begins = i == 0 || !(('a' <= chars[i - 1] && chars[i - 1] <= 'z') || ('A' <= chars[i - 1]
        && chars[i - 1] <= 'Z') || chars[i - 1] == '_');
    let ends = i + 1 >= total || text::is_white(chars[i + 1]) || chars[i + 1] == ')';
    let passed: u128 = if c == '(' && p.plain > 0 {
        p.plain + 1
    } else if c == ')' && p.plain > 1 {
        p.plain - 1
    } else {
        p.plain
    };
    let plain: u128 = larger(
        larger(p.escaped, given_if(c != '"', passed)),
        larger(
            larger(given_if(c == '"', p.double), given_if(c == '\'', p.single)),
            given_if(c == '/' && !kept_slash && ends, p.slashed),
        ),
    );
    Progress {
        plain,
        escaped: given_if(c == '\\', p.plain),
        double: larger(
            larger(p.double_escaped, given_if(c == '"', p.plain)),
            given_if(c != '"' && c != '\\', p.double),
        ),
        double_escaped: given_if(c == '\\', p.double),
        single: larger(
            larger(p.single_escaped, given_if(c == '\'', p.plain)),
            given_if(c != '\'' && c != '\\', p.single),
        ),
        single_escaped: given_if(c == '\\', p.single),
        slashed: larger(
            given_if(c == '/' && begins, p.plain),
            given_if(c != '/' || kept_slash, p.slashed),
        ),
        deepest: larger(p.deepest, plain),
    }
}

/// One more than the number of parentheses that may be open at once.
fn deepest_reading(chars: &Vec<char>) -> (r: u128)
    ensures
        r == reading(chars@, chars@.len() as int).deepest,
        r >= 1,
{
    let mut p = Progress {
        plain: 1,
        escaped: 0,
        double: 0,
        double_escaped: 0,
        single: 0,
        single_escaped: 0,
        slashed: 0,
        deepest: 1,
    };
    let mut i: usize = 0;
    while i < chars.len()
        invariant
            i <= chars@.len(),
            p.shown() == reading(chars@, i as int),
            p.within(i + 1),
            p.deepest >= 1,
        decreases chars@.len() - i,
    {
        p = step(chars, i, p);
        i = i + 1;
    }
    p.deepest
}

/// The longest run of `NOT` in a text.
fn longest_negation(chars: &Vec<char>) -> (r: usize)
    ensures
        r == negations(chars@),
{
    let ghost s = chars@;
    let mut open: Vec<usize> = Vec::new();
    open.push(0);
    let mut longest: usize = 0;
    let mut i: usize = 0;
    assert(s.take(0) =~= Seq::<char>::empty());
    while i < chars.len()
        invariant
            i <= chars@.len(),
            s == chars@,
            open@.len() == i + 1,
            forall|k: int| 0 <= k <= i ==> #[trigger] open@[k] == open_negations(s.take(k)),
            forall|k: int| 0 <= k <= i ==> #[trigger] open@[k] <= k,
            longest == negations(s.take(i as int)),
        decreases chars@.len() - i,
    {
        let ghost part = s.take(i + 1);
        assert(part.drop_last() == s.take(i as int));
        let now: usize = if text::is_white(chars[i]) {
            open[i]
        } else if i >= 2 && chars[i - 2] == 'N' && chars[i - 1] == 'O' && chars[i] == 'T' {
            assert(part.take(i - 2) == s.take(i - 2));
            if i >= 3 && text::is_white(chars[i - 3]) {
                open[i - 2] + 1
            } else {
                1
            }
        } else {
            0
        };
        assert(now == open_negations(part));
        open.push(now);
        if longest < now {
            longest = now;
        }
        i = i + 1;
    }
    assert(s.take(s.len() as int) == s);
    longest
}

/// Whether a text may be given to the parser.
pub fn is_manageable(query: &str) -> (r: bool)
    ensures
        r == manageable(query@),
{
    let chars = text::to_chars(query);
    let levels: u128 = deepest_reading(&chars);
    let runs: u128 = longest_negation(&chars) as u128;
    if levels > MAX_NESTING as u128 + 1 {
        return false;
    }
    if runs >= MAX_CALLS as u128 {
        proof {
            let (a, b) = (levels as int, runs + 1);
            assert(a * b >= b) by (nonlinear_arith)
                requires
                    a >= 1,
                    b >= 1,
            ;
        }
        return false;
    }
    proof {
        let (a, b) = (levels as int, runs + 1);
        assert(a * b <= 13 * 128) by (nonlinear_arith)
            requires
                1 <= a <= 13,
                1 <= b <= 128,
        ;
    }
    levels * (runs + 1) <= MAX_CALLS as u128
}

/// Without quotes, slashes and backslashes the parser goes exactly as deep as the
/// parentheses nest.
pub proof fn law_nesting_of_plain_text(s: Seq<char>)
    requires
        forall|i: int|
            0 <= i < s.len() ==> #[trigger] s[i] != '"' && s[i] != '\'' && s[i] != '/' && s[i] != '\\',
    ensures
        nesting(s) == paren_depth(s),
{
    lemma_plain_reading(s, s.len() as int);
    assert(s.take(s.len() as int) == s);
}

/// What may be given to the parser: at most twelve parentheses open at once, and at most
/// 128 for one more than these times one more than the negations in a row.
pub proof fn law_manageable(query: Seq<char>)
    ensures
        manageable(query) == (nesting(query) <= 12 && (nesting(query) + 1) * (negations(query) + 1)
            <= 128),
{
}

/// Parentheses in double quotes do not nest.
pub proof fn law_quoted_text_is_flat(inner: Seq<char>)
    requires
        forall|i: int|
            0 <= i < inner.len() ==> #[trigger] inner[i] != '"' && inner[i] != '\'' && inner[i] != '/'
                && inner[i] != '\\',
    ensures
        nesting(seq!['"'] + inner + seq!['"']) == 0,
{
    let s = seq!['"'] + inner + seq!['"'];
    lemma_quoted_reading(s, inner, s.len() - 1);
    assert(s[s.len() - 1] == '"');
}

/// Behind the opening quote, and before the closing one.
proof fn lemma_quoted_reading(s: Seq<char>, inner: Seq<char>, n: int)
    requires
        s == seq!['"'] + inner + seq!['"'],
        forall|i: int|
            0 <= i < inner.len() ==> #[trigger] inner[i] != '"' && inner[i] != '\'' && inner[i] != '/'
                && inner[i] != '\\',
        1 <= n <= inner.len() + 1,
    ensures
        reading(s, n) == (Reading {
            plain: 0,
            escaped: 0,
            double: 1,
            double_escaped: 0,
            single: 0,
            single_escaped: 0,
            slashed: 0,
            deepest: 1,
        }),
    decreases n,
{
    if n > 1 {
        lemma_quoted_reading(s, inner, n - 1);
        assert(s[n - 1] == inner[n - 2]);
    } else {
        assert(s[0] == '"');
        reveal_with_fuel(reading, 2);
    }
}

/// Every `NOT` behind another counts.
pub proof fn law_negations_add_up(s: Seq<char>)
    ensures
        negations(s + seq![' ', 'N', 'O', 'T']) >= open_negations(s) + 1,
        negations(s + seq![' ', 'N', 'O', 'T']) >= negations(s),
        negations(seq!['N', 'O', 'T']) >= 1,
{
    let blank = s.push(' ');
    let t = s + seq![' ', 'N', 'O', 'T'];
    assert(t.take(t.len() - 3) =~= blank);
    assert(blank.drop_last() =~= s);
    assert(text::white(' '));
    assert(open_negations(blank) == open_negations(s));
    assert(open_negations(t) == open_negations(s) + 1);
    assert(t.drop_last().drop_last().drop_last() =~= blank);
    reveal_with_fuel(negations, 5);
}

/// The first `n` characters of such a text.
proof fn lemma_plain_reading(s: Seq<char>, n: int)
    requires
        0 <= n <= s.len(),
        forall|i: int|
            0 <= i < s.len() ==> #[trigger] s[i] != '"' && s[i] != '\'' && s[i] != '/' && s[i] != '\\',
    ensures
        reading(s, n) == (Reading {
            plain: open_parens(s.take(n)) + 1,
            escaped: 0,
            double: 0,
            double_escaped: 0,
            single: 0,
            single_escaped: 0,
            slashed: 0,
            deepest: paren_depth(s.take(n)) + 1,
        }),
    decreases n,
{
    if n > 0 {
        lemma_plain_reading(s, n - 1);
        assert(s.take(n).drop_last() == s.take(n - 1));
        assert(s.take(n).last() == s[n - 1]);
    } else {
        assert(s.take(n) =~= Seq::<char>::empty());
    }
}

/// `QueryParser::parse_query` with the engine's own tokenizers: whether the
/// parser accepts the text, under the name `query_parses`. Left out are default
/// fields that the schema does not have; asterisks without a backslash, because
/// the engine panics on one that is taken for an existence query without a field;
/// and texts that are nested too deep or negated too often, on which the parser
/// runs out of time or stack.
#[verifier::external_body]
pub(crate) fn parses(schema: &Schema, defaults: &Vec<u32>, query: &str) -> (r: bool)
    requires
        forall|i: int|
            0 <= i < defaults@.len() ==> #[trigger] defaults@[i] < schema_fields(*schema).len(),
        asterisks_escaped(query@),
        manageable(query@),
    ensures
        r == query_parses(schema_fields(*schema), defaults@, query@),
{
    let fields = defaults.iter().map(|field| Field::from_field_id(*field)).collect();
    let parser = QueryParser::new(schema.clone(), fields, TokenizerManager::default());
    parser.parse_query(query).is_ok()
}

} // verus!
