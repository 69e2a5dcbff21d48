//! Structural chunking of Markdown.
//!
//! Chunks follow the heading structure and keep the full heading ancestry.
//! Sections that grow too large are split at block boundaries, and a single
//! event that is too large for any chunk is split between characters.
use pulldown_cmark::Event::{Code, End, HardBreak, Html, InlineHtml, SoftBreak, Start, Text};
use pulldown_cmark::Tag::{CodeBlock, Heading, Item, List, Paragraph};
use pulldown_cmark::TagEnd::CodeBlock as CodeBlockClose;
use pulldown_cmark::TagEnd::Heading as HeadingClose;
use pulldown_cmark::TagEnd::List as ListClose;
use pulldown_cmark::TagEnd::Paragraph as ParagraphClose;
use pulldown_cmark::{Options, Parser};
use vstd::prelude::*;
use vstd::utf8::*;
use crate::document::{DocumentView, KnowledgeDocument, PackageIdentity, PackageView, SourceKind};
use crate::document::SourceSpan;
use crate::document;
use crate::ids;
use crate::ids::DocumentId;
use crate::lines;
use crate::lines::LineIndex;
use crate::markdown::MarkdownEvent::{CodeEnd, CodeStart, Content, HardLine, HeadingEnd};
use crate::markdown::MarkdownEvent::{HeadingStart, InlineCode, InlineMarkup, ItemStart, ListEnd};
use crate::markdown::MarkdownEvent::{ListStart, Markup, Other, ParagraphEnd, ParagraphStart};
use crate::markdown::MarkdownEvent::SoftLine;
use crate::pieces;
use crate::text;
use crate::words;

pub use crate::discovery::discover;

verus! {

/// Largest size, in bytes, that a chunk grows to before it is split.
pub const MAX_CHUNK_CHARS: usize = 4000;

/// How far separators and list markers may take a chunk over that size.
pub const CHUNK_SLACK: usize = 3;

/// A Markdown input file.
#[derive(Debug)]
pub struct MarkdownFile {
    /// Path relative to the package root, with forward slashes. Part of the
    /// identity of the documents.
    pub rel_path: String,
    pub abs_path: String,
    pub kind: SourceKind,
}

/// What a Markdown file shows.
pub struct MarkdownFileView {
    pub rel_path: Seq<char>,
    pub abs_path: Seq<char>,
    pub kind: SourceKind,
}

impl View for MarkdownFile {
    type V = MarkdownFileView;

    open spec fn view(&self) -> MarkdownFileView {
        MarkdownFileView { rel_path: self.rel_path@, abs_path: self.abs_path@, kind: self.kind }
    }
}

impl Clone for MarkdownFile {
    fn clone(&self) -> (r: Self)
        ensures
            r@ == self@,
    {
        MarkdownFile {
            rel_path: self.rel_path.clone(),
            abs_path: self.abs_path.clone(),
            kind: self.kind,
        }
    }
}

/// One step of a Markdown text: the begin or end of a block, or some content.
#[derive(Debug)]
pub enum MarkdownEvent {
    /// The begin of a heading of that level.
    HeadingStart(u8),
    HeadingEnd,
    ParagraphStart,
    ParagraphEnd,
    ListStart,
    ListEnd,
    CodeStart,
    CodeEnd,
    ItemStart,
    Content(String),
    /// Code within a line.
    InlineCode(String),
    /// A line break that is only in the source.
    SoftLine,
    /// A line break that was asked for.
    HardLine,
    /// HTML as a block of its own.
    Markup(String),
    /// HTML within a line.
    InlineMarkup(String),
    /// Any other step.
    Other,
}

/// What an event shows.
pub enum EventView {
    HeadingStart(u8),
    HeadingEnd,
    ParagraphStart,
    ParagraphEnd,
    ListStart,
    ListEnd,
    CodeStart,
    CodeEnd,
    ItemStart,
    Content(Seq<char>),
    InlineCode(Seq<char>),
    SoftLine,
    HardLine,
    Markup(Seq<char>),
    InlineMarkup(Seq<char>),
    Other,
}

impl View for MarkdownEvent {
    type V = EventView;

    open spec fn view(&self) -> EventView {
        match *self {
            HeadingStart(level) => EventView::HeadingStart(level),
            HeadingEnd => EventView::HeadingEnd,
            ParagraphStart => EventView::ParagraphStart,
            ParagraphEnd => EventView::ParagraphEnd,
            ListStart => EventView::ListStart,
            ListEnd => EventView::ListEnd,
            CodeStart => EventView::CodeStart,
            CodeEnd => EventView::CodeEnd,
            ItemStart => EventView::ItemStart,
            Content(t) => EventView::Content(t@),
            InlineCode(t) => EventView::InlineCode(t@),
            SoftLine => EventView::SoftLine,
            HardLine => EventView::HardLine,
            Markup(t) => EventView::Markup(t@),
            InlineMarkup(t) => EventView::InlineMarkup(t@),
            Other => EventView::Other,
        }
    }
}

/// What a list of events, each with its byte range, shows.
pub open spec fn event_views(events: Seq<(MarkdownEvent, usize, usize)>) -> Seq<
    (EventView, usize, usize),
> {
    events.map_values(|e: (MarkdownEvent, usize, usize)| (e.0@, e.1, e.2))
}

/// The events of a Markdown text, each with the byte range it covers.
pub uninterp spec fn markdown_events(text: Seq<char>) -> Seq<(EventView, usize, usize)>;

/// `pulldown_cmark::Parser` with all extensions, by `into_offset_iter`: the
/// events of the text with their ranges, under the name `markdown_events`. All
/// kinds of events that have no part in chunking are shown as `Other`.
#[verifier::external_body]
fn parse_events(text: &str) -> (r: Vec<(MarkdownEvent, usize, usize)>)
    ensures
        event_views(r@) == markdown_events(text@),
{
    Parser::new_ext(text, Options::all()).into_offset_iter().map(|(event, range)| (match event {
        Start(Heading { level, .. }) => HeadingStart(level as u8),
        Start(Paragraph) => ParagraphStart, Start(List(_)) => ListStart,
        Start(CodeBlock(_)) => CodeStart, Start(Item) => ItemStart,
        End(HeadingClose(_)) => HeadingEnd, End(ParagraphClose) => ParagraphEnd,
        End(ListClose(_)) => ListEnd, End(CodeBlockClose) => CodeEnd,
        Text(t) => Content(t.into_string()),
        Code(t) => InlineCode(t.into_string()),
        SoftBreak => SoftLine, HardBreak => HardLine,
        Html(t) => Markup(t.into_string()),
        InlineHtml(t) => InlineMarkup(t.into_string()),
        _ => Other,
    }, range.start, range.end)).collect()
}

// ---------------------------------------------------------------------------
// The chunks of a text
// ---------------------------------------------------------------------------

/// What every chunk of a file has in common.
pub struct ChunkSource {
    pub package: PackageView,
    pub file: MarkdownFileView,
    /// The positions of the newlines of the text.
    pub newlines: Seq<usize>,
}

/// Where chunking stands between two events.
pub struct ChunkState {
    /// Level and title of the headings above the current section.
    pub headings: Seq<(u8, Seq<char>)>,
    /// Whether a heading is being read.
    pub in_heading: bool,
    /// The text of that heading so far.
    pub heading_text: Seq<char>,
    /// The level of the heading read last.
    pub heading_level: u8,
    /// The text of the current chunk so far.
    pub pending: Seq<char>,
    /// The byte offset at which the current chunk begins.
    pub pending_start: usize,
    /// Number of headings begun so far.
    pub section: nat,
    /// Number of chunks split off in the current section.
    pub chunk: nat,
    /// The documents made so far.
    pub docs: Seq<DocumentView>,
}

/// Before the first event.
pub open spec fn initial_state() -> ChunkState {
    ChunkState {
        headings: Seq::empty(),
        in_heading: false,
        heading_text: Seq::empty(),
        heading_level: 1,
        pending: Seq::empty(),
        pending_start: 0,
        section: 0,
        chunk: 0,
        docs: Seq::empty(),
    }
}

/// The title of a file: its name without the Markdown extension.
pub open spec fn title_of_file(rel_path: Seq<char>) -> Seq<char> {
    pieces::strip_suffixes(
        pieces::strip_suffixes(pieces::behind_last(rel_path, "/"@), ".md"@),
        ".markdown"@,
    )
}

/// The titles of the headings, outermost first.
pub open spec fn titles(headings: Seq<(u8, Seq<char>)>) -> Seq<Seq<char>> {
    headings.map_values(|h: (u8, Seq<char>)| h.1)
}

/// What identifies a chunk: package, kind and path of the file, section and
/// chunk within the section.
pub open spec fn chunk_identity(src: ChunkSource, section: nat, chunk: nat) -> Seq<Seq<char>> {
    seq![
        src.package.package_id,
        src.file.kind.name(),
        src.file.rel_path,
        pieces::decimal(section),
        pieces::decimal(chunk),
    ]
}

/// The document made of `body`.
pub open spec fn chunk_document(src: ChunkSource, st: ChunkState, body: Seq<char>) -> DocumentView {
    let section_path = titles(st.headings);
    DocumentView {
        id: ids::identity_id(chunk_identity(src, st.section, st.chunk)),
        package: src.package,
        source_kind: src.file.kind,
        title: if section_path.len() > 0 {
            section_path.last()
        } else {
            title_of_file(src.file.rel_path)
        },
        symbol_path: None,
        item_kind: None,
        section_path,
        text: body,
        source_path: Some(src.file.abs_path),
        source_span: Some(
            SourceSpan {
                start_line: lines::line_of(src.newlines, st.pending_start as int),
                start_col: 1,
                end_line: lines::line_of(src.newlines, st.pending_start + text::utf8_len(body)),
                end_col: 1,
            },
        ),
        related_symbols: Seq::empty(),
        signature: None,
    }
}

/// The pending text, trimmed, becomes a document, unless nothing is left of it.
pub open spec fn flushed(src: ChunkSource, st: ChunkState) -> ChunkState {
    let body = text::trim(st.pending);
    if body.len() == 0 {
        ChunkState { pending: Seq::empty(), ..st }
    } else {
        ChunkState {
            pending: Seq::empty(),
            docs: st.docs.push(chunk_document(src, st, body)),
            ..st
        }
    }
}

/// The pending text becomes a document and the next chunk of the section begins.
pub open spec fn split_off(src: ChunkSource, st: ChunkState) -> ChunkState {
    let st = flushed(src, st);
    ChunkState { chunk: st.chunk + 1, ..st }
}

/// A new chunk begins if `incoming` more bytes are too many for the current one.
pub open spec fn split_if_full(src: ChunkSource, st: ChunkState, incoming: nat) -> ChunkState {
    if st.pending.len() > 0 && text::utf8_len(st.pending) + incoming > MAX_CHUNK_CHARS {
        split_off(src, st)
    } else {
        st
    }
}

/// More text for the current chunk.
pub open spec fn extended(st: ChunkState, more: Seq<char>) -> ChunkState {
    ChunkState { pending: st.pending + more, ..st }
}

/// A text that is too large for any chunk, put out in pieces: the state after
/// the full pieces, and the piece that is still open.
pub open spec fn in_pieces(src: ChunkSource, st: ChunkState, t: Seq<char>) -> (
    ChunkState,
    Seq<char>,
)
    decreases t.len(),
{
    if t.len() == 0 {
        (st, Seq::empty())
    } else {
        let (before, piece) = in_pieces(src, st, t.drop_last());
        let c = t.last();
        if text::utf8_len(piece) + text::char_width(c) > MAX_CHUNK_CHARS {
            (split_off(src, extended(before, piece)), seq![c])
        } else {
            (before, piece.push(c))
        }
    }
}

/// Adds text to the chunk, beginning new chunks where the text does not fit.
pub open spec fn appended(src: ChunkSource, st: ChunkState, t: Seq<char>) -> ChunkState {
    if text::utf8_len(t) <= MAX_CHUNK_CHARS {
        extended(split_if_full(src, st, text::utf8_len(t)), t)
    } else {
        let cleared = if st.pending.len() > 0 {
            split_off(src, st)
        } else {
            st
        };
        let (before, piece) = in_pieces(src, cleared, t);
        extended(before, piece)
    }
}

/// The headings above a new one: those of a lower level.
pub open spec fn enclosing(headings: Seq<(u8, Seq<char>)>, level: u8) -> Seq<(u8, Seq<char>)>
    decreases headings.len(),
{
    if headings.len() > 0 && headings.last().0 >= level {
        enclosing(headings.drop_last(), level)
    } else {
        headings
    }
}

/// The marker of a list item behind the pending text.
pub open spec fn item_marker(pending: Seq<char>) -> Seq<char> {
    if pending.len() > 0 {
        "\n- "@
    } else {
        "- "@
    }
}

/// The marker of a list item for the current chunk; where the chunk would be too
/// large with it, for a new one.
pub open spec fn with_item(src: ChunkSource, st: ChunkState) -> ChunkState {
    let marked = text::trim(st.pending + item_marker(st.pending));
    let ready = if text::utf8_len(marked) > MAX_CHUNK_CHARS + CHUNK_SLACK {
        split_off(src, st)
    } else {
        st
    };
    extended(ready, item_marker(ready.pending))
}

/// What one event does, the event covering the bytes `start..end`.
pub open spec fn after_event(
    src: ChunkSource,
    st: ChunkState,
    event: EventView,
    start: usize,
    end: usize,
) -> ChunkState {
    match event {
        EventView::HeadingStart(level) => {
            let st = flushed(src, st);
            ChunkState {
                in_heading: true,
                heading_text: Seq::empty(),
                heading_level: level,
                section: st.section + 1,
                chunk: 0,
                pending: Seq::empty(),
                pending_start: end,
                ..st
            }
        },
        EventView::HeadingEnd => ChunkState {
            in_heading: false,
            heading_text: Seq::empty(),
            headings: enclosing(st.headings, st.heading_level).push(
                (st.heading_level, text::trim(st.heading_text)),
            ),
            pending: Seq::empty(),
            pending_start: end,
            ..st
        },
        EventView::Content(t) | EventView::InlineCode(t) => if st.in_heading {
            ChunkState { heading_text: st.heading_text + t, ..st }
        } else if st.pending.len() == 0 {
            appended(src, ChunkState { pending_start: start, ..st }, t)
        } else {
            appended(src, st, t)
        },
        EventView::ParagraphStart | EventView::ListStart => split_if_full(src, st, 1),
        EventView::ParagraphEnd | EventView::CodeEnd | EventView::ListEnd => extended(
            st,
            "\n\n"@,
        ),
        EventView::CodeStart => extended(split_if_full(src, st, 1), "\n"@),
        EventView::ItemStart => with_item(src, st),
        EventView::SoftLine | EventView::HardLine => if st.in_heading {
            ChunkState { heading_text: st.heading_text + " "@, ..st }
        } else {
            appended(src, st, " "@)
        },
        EventView::Markup(t) | EventView::InlineMarkup(t) => appended(
            src,
            st,
            text::trim(t) + "\n"@,
        ),
        EventView::Other => st,
    }
}

/// Where chunking stands after the events.
pub open spec fn after_events(
    src: ChunkSource,
    events: Seq<(EventView, usize, usize)>,
) -> ChunkState
    decreases events.len(),
{
    if events.len() == 0 {
        initial_state()
    } else {
        let (event, start, end) = events.last();
        after_event(src, after_events(src, events.drop_last()), event, start, end)
    }
}

/// The documents of a text with these events.
pub open spec fn chunks_of(
    src: ChunkSource,
    events: Seq<(EventView, usize, usize)>,
) -> Seq<DocumentView> {
    flushed(src, after_events(src, events)).docs
}

// ---------------------------------------------------------------------------
// Chunking
// ---------------------------------------------------------------------------

/// The title of a file: its name without the Markdown extension.
pub fn file_title(rel_path: &str) -> (r: String)
    ensures
        r@ == title_of_file(rel_path@),
{
    proof {
        reveal_strlit("/");
        reveal_strlit(".md");
        reveal_strlit(".markdown");
    }
    let name = pieces::rest_behind_last(rel_path, "/");
    let stem = pieces::without_suffixes(name.as_str(), ".md");
    pieces::without_suffixes(stem.as_str(), ".markdown")
}

/// A list marker takes at most three bytes.
pub proof fn lemma_marker_len(pending: Seq<char>)
    ensures
        text::utf8_len(item_marker(pending)) <= 3,
{
    reveal_strlit("- ");
    reveal_strlit("\n- ");
    let none = Seq::<char>::empty();
    assert("- "@ =~= none.push('-').push(' '));
    assert("\n- "@ =~= none.push('\n').push('-').push(' '));
    assert(none.push('-').push(' ').drop_last() =~= none.push('-'));
    assert(none.push('-').drop_last() =~= none);
    assert(none.push('\n').push('-').push(' ').drop_last() =~= none.push('\n').push('-'));
    assert(none.push('\n').push('-').drop_last() =~= none.push('\n'));
    assert(none.push('\n').drop_last() =~= none);
    reveal_with_fuel(text::utf8_len, 4);
}

/// The ids of the documents are ids that read back.
pub open spec fn ids_read_back(docs: Seq<KnowledgeDocument>) -> bool {
    forall|i: int| 0 <= i < docs.len() ==> ids::is_id((#[trigger] docs[i]).id@)
}

/// What a heading stack shows.
spec fn heading_views(stack: Seq<(u8, String)>) -> Seq<(u8, Seq<char>)> {
    stack.map_values(|h: (u8, String)| (h.0, h.1@))
}

/// A chunking run over one file.
struct Chunker<'a> {
    package: &'a PackageIdentity,
    file: &'a MarkdownFile,
    line_index: LineIndex,
    /// Level and title of the headings above the current section.
    heading_stack: Vec<(u8, String)>,
    collecting_heading: bool,
    heading_text: String,
    heading_level: u8,
    /// The text of the current chunk so far.
    buf: String,
    buf_start_offset: usize,
    section_ordinal: u128,
    chunk_ordinal: u128,
    docs: Vec<KnowledgeDocument>,
}

impl<'a> Chunker<'a> {
    /// What the documents have in common.
    spec fn source(self) -> ChunkSource {
        ChunkSource {
            package: self.package@,
            file: self.file@,
            newlines: self.line_index.offsets(),
        }
    }

    /// Where chunking stands.
    spec fn state(self) -> ChunkState {
        ChunkState {
            headings: heading_views(self.heading_stack@),
            in_heading: self.collecting_heading,
            heading_text: self.heading_text@,
            heading_level: self.heading_level,
            pending: self.buf@,
            pending_start: self.buf_start_offset,
            section: self.section_ordinal as nat,
            chunk: self.chunk_ordinal as nat,
            docs: document::document_views(self.docs@),
        }
    }

    /// Makes a document of the pending text, unless nothing is left of it when
    /// it is trimmed.
    fn flush(&mut self)
        requires
            ids_read_back(old(self).docs@),
        ensures
            final(self).state() == flushed(old(self).source(), old(self).state()),
            final(self).source() == old(self).source(),
            ids_read_back(final(self).docs@),
            final(self).chunk_ordinal == old(self).chunk_ordinal,
            final(self).section_ordinal == old(self).section_ordinal,
    {
        let ghost before = self.state();
        let body = text::trimmed(self.buf.as_str());
        self.buf = String::new();
        if body.as_str().is_empty() {
            return;
        }
        let mut section_path: Vec<String> = Vec::new();
        let mut i: usize = 0;
        while i < self.heading_stack.len()
            invariant
                i <= self.heading_stack@.len(),
                words::texts(section_path@) == titles(heading_views(self.heading_stack@)).take(
                    i as int,
                ),
            decreases self.heading_stack@.len() - i,
        {
            let ghost so_far = words::texts(section_path@);
            let ghost all = titles(heading_views(self.heading_stack@));
            section_path.push(self.heading_stack[i].1.clone());
            assert(words::texts(section_path@) == so_far.push(self.heading_stack@[i as int].1@));
            assert(all.take(i + 1) == all.take(i as int).push(all[i as int]));
            i = i + 1;
        }
        assert(words::texts(section_path@) == titles(before.headings));
        let title = if section_path.len() > 0 {
            section_path[section_path.len() - 1].clone()
        } else {
            file_title(self.file.rel_path.as_str())
        };
        let section = pieces::decimal_string(self.section_ordinal);
        let chunk = pieces::decimal_string(self.chunk_ordinal);
        let parts: [&str; 5] = [
            self.package.package_id.as_str(),
            self.file.kind.as_str(),
            self.file.rel_path.as_str(),
            section.as_str(),
            chunk.as_str(),
        ];
        assert(ids::part_views(parts@) == chunk_identity(
            self.source(),
            before.section,
            before.chunk,
        ));
        let id = DocumentId::from_identity(parts.as_slice());
        let length: usize = text::byte_len(body.as_str());
        let doc = KnowledgeDocument {
            id,
            package: self.package.clone(),
            source_kind: self.file.kind,
            title,
            symbol_path: None,
            item_kind: None,
            section_path,
            text: body,
            source_path: Some(self.file.abs_path.clone()),
            source_span: Some(
                SourceSpan {
                    start_line: self.line_index.line(self.buf_start_offset),
                    start_col: 1,
                    end_line: self.line_index.line_behind(self.buf_start_offset, length),
                    end_col: 1,
                },
            ),
            related_symbols: Vec::new(),
            signature: None,
        };
        let ghost made = doc@;
        assert(made.related_symbols == Seq::<Seq<char>>::empty());
        assert(made == chunk_document(self.source(), before, text::trim(before.pending)));
        self.docs.push(doc);
        assert(document::document_views(self.docs@) == before.docs.push(made));
    }

    /// Begins a new chunk if `incoming` more bytes are too many for the current
    /// one.
    fn split_if_full(&mut self, incoming: usize)
        requires
            ids_read_back(old(self).docs@),
            old(self).chunk_ordinal < u128::MAX,
        ensures
            final(self).state() == split_if_full(
                old(self).source(),
                old(self).state(),
                incoming as nat,
            ),
            final(self).source() == old(self).source(),
            ids_read_back(final(self).docs@),
            final(self).chunk_ordinal <= old(self).chunk_ordinal + 1,
            final(self).section_ordinal == old(self).section_ordinal,
    {
        let pending: usize = text::byte_len(self.buf.as_str());
        if !self.buf.as_str().is_empty() && (pending > MAX_CHUNK_CHARS || incoming
            > MAX_CHUNK_CHARS - pending) {
            self.flush();
            self.chunk_ordinal = self.chunk_ordinal + 1;
        }
    }

    /// Appends text, beginning new chunks where it does not fit.
    fn append_with_split(&mut self, added: &str)
        requires
            ids_read_back(old(self).docs@),
            old(self).chunk_ordinal + 0x1_0000_0000_0000_0001 <= u128::MAX,
        ensures
            final(self).state() == appended(old(self).source(), old(self).state(), added@),
            final(self).source() == old(self).source(),
            ids_read_back(final(self).docs@),
            final(self).chunk_ordinal <= old(self).chunk_ordinal + 0x1_0000_0000_0000_0001,
            final(self).section_ordinal == old(self).section_ordinal,
    {
        let length: usize = text::byte_len(added);
        proof {
            text::lemma_utf8_len_bounds(added@);
        }
        if length <= MAX_CHUNK_CHARS {
            self.split_if_full(length);
            self.buf.push_str(added);
            return;
        }
        if !self.buf.as_str().is_empty() {
            self.flush();
            self.chunk_ordinal = self.chunk_ordinal + 1;
        }
        let ghost src = self.source();
        let ghost cleared = self.state();
        let ghost first = self.chunk_ordinal;
        let chars = text::to_chars(added);
        let mut piece = String::new();
        let mut piece_len: usize = 0;
        let mut i: usize = 0;
        while i < chars.len()
            invariant
                i <= chars@.len(),
                chars@ == added@,
                added@.len() <= length <= usize::MAX,
                self.source() == src,
                ids_read_back(self.docs@),
                self.section_ordinal == old(self).section_ordinal,
                first <= self.chunk_ordinal <= first + i,
                first <= old(self).chunk_ordinal + 1,
                old(self).chunk_ordinal + 0x1_0000_0000_0000_0001 <= u128::MAX,
                (self.state(), piece@) == in_pieces(src, cleared, chars@.take(i as int)),
                piece_len == text::utf8_len(piece@),
                piece_len <= MAX_CHUNK_CHARS,
            decreases chars@.len() - i,
        {
            assert(chars@.take(i + 1).drop_last() == chars@.take(i as int));
            let c = chars[i];
            let width: usize = text::width_of(c);
            if piece_len + width > MAX_CHUNK_CHARS {
                self.buf.push_str(piece.as_str());
                self.flush();
                self.chunk_ordinal = self.chunk_ordinal + 1;
                piece = String::new();
                piece.push(c);
                piece_len = width;
                assert(piece@ == seq![c]);
                assert(piece@.drop_last() == Seq::<char>::empty());
                assert(text::utf8_len(piece@) == width) by {
                    reveal_with_fuel(text::utf8_len, 2);
                }
            } else {
                let ghost before = piece@;
                piece.push(c);
                piece_len = piece_len + width;
                assert(piece@.drop_last() == before);
            }
            i = i + 1;
        }
        assert(chars@.take(chars@.len() as int) == added@);
        self.buf.push_str(piece.as_str());
    }

    /// Begins a list item; a new chunk first, where the marker would take the
    /// current one too far over the limit.
    fn begin_item(&mut self)
        requires
            ids_read_back(old(self).docs@),
            old(self).chunk_ordinal < u128::MAX,
        ensures
            final(self).state() == with_item(old(self).source(), old(self).state()),
            final(self).source() == old(self).source(),
            ids_read_back(final(self).docs@),
            final(self).chunk_ordinal <= old(self).chunk_ordinal + 1,
            final(self).section_ordinal == old(self).section_ordinal,
    {
        proof {
            reveal_strlit("- ");
            reveal_strlit("\n- ");
            let marker = item_marker(self.buf@);
            text::lemma_trim_shorter(self.buf@ + marker);
            text::lemma_utf8_len_add(self.buf@, marker);
            lemma_marker_len(self.buf@);
        }
        if text::byte_len(self.buf.as_str()) > MAX_CHUNK_CHARS {
            let mut marked = self.buf.clone();
            marked.push_str("\n- ");
            let marked = text::trimmed(marked.as_str());
            assert(self.buf@.len() > 0);
            if text::byte_len(marked.as_str()) > MAX_CHUNK_CHARS + CHUNK_SLACK {
                self.flush();
                self.chunk_ordinal = self.chunk_ordinal + 1;
            }
        }
        let ghost before = self.buf@;
        if !self.buf.as_str().is_empty() {
            self.buf.push('\n');
        }
        self.buf.push_str("- ");
        assert(self.buf@ =~= before + item_marker(before));
    }

    /// Ends a heading: it takes its place below the headings of lower levels.
    fn close_heading(&mut self, end: usize)
        requires
            ids_read_back(old(self).docs@),
        ensures
            final(self).state() == after_event(
                old(self).source(),
                old(self).state(),
                EventView::HeadingEnd,
                0,
                end,
            ),
            final(self).source() == old(self).source(),
            ids_read_back(final(self).docs@),
            final(self).chunk_ordinal == old(self).chunk_ordinal,
            final(self).section_ordinal == old(self).section_ordinal,
    {
        let ghost before = self.state();
        self.collecting_heading = false;
        let title = text::trimmed(self.heading_text.as_str());
        self.heading_text = String::new();
        let level: u8 = self.heading_level;
        while self.heading_stack.len() > 0 && self.heading_stack[self.heading_stack.len() - 1].0
            >= level
            invariant
                self.source() == old(self).source(),
                ids_read_back(self.docs@),
                self.state() == (ChunkState {
                    in_heading: false,
                    heading_text: Seq::empty(),
                    headings: heading_views(self.heading_stack@),
                    ..before
                }),
                enclosing(heading_views(self.heading_stack@), level) == enclosing(
                    before.headings,
                    level,
                ),
                self.chunk_ordinal == old(self).chunk_ordinal,
                self.section_ordinal == old(self).section_ordinal,
            decreases self.heading_stack@.len(),
        {
            let ghost stack = self.heading_stack@;
            let _ = self.heading_stack.pop();
            assert(heading_views(self.heading_stack@) == heading_views(stack).drop_last());
        }
        let ghost kept = heading_views(self.heading_stack@);
        let ghost title_view = title@;
        assert(kept == enclosing(before.headings, level));
        self.heading_stack.push((level, title));
        assert(heading_views(self.heading_stack@) == kept.push((level, title_view)));
        self.buf = String::new();
        self.buf_start_offset = end;
    }

    /// Takes one event, which covers the bytes `start..end` of the text.
    fn on_event(&mut self, event: &MarkdownEvent, start: usize, end: usize)
        requires
            ids_read_back(old(self).docs@),
            old(self).chunk_ordinal + 0x1_0000_0000_0000_0001 <= u128::MAX,
            old(self).section_ordinal < u128::MAX,
        ensures
            final(self).state() == after_event(
                old(self).source(),
                old(self).state(),
                event@,
                start,
                end,
            ),
            final(self).source() == old(self).source(),
            ids_read_back(final(self).docs@),
            final(self).chunk_ordinal <= old(self).chunk_ordinal + 0x1_0000_0000_0000_0001,
            final(self).section_ordinal <= old(self).section_ordinal + 1,
    {
        proof {
            reveal_strlit(" ");
            reveal_strlit("\n");
        }
        match event {
            HeadingStart(level) => {
                self.flush();
                self.collecting_heading = true;
                self.heading_text = String::new();
                self.heading_level = *level;
                self.section_ordinal = self.section_ordinal + 1;
                self.chunk_ordinal = 0;
                self.buf = String::new();
                self.buf_start_offset = end;
            },
            HeadingEnd => {
                self.close_heading(end);
            },
            Content(t) | InlineCode(t) => {
                if self.collecting_heading {
                    self.heading_text.push_str(t.as_str());
                } else {
                    if self.buf.as_str().is_empty() {
                        self.buf_start_offset = start;
                    }
                    self.append_with_split(t.as_str());
                }
            },
            ParagraphStart | ListStart => {
                self.split_if_full(1);
            },
            ParagraphEnd | CodeEnd | ListEnd => {
                self.buf.push_str("\n\n");
            },
            CodeStart => {
                self.split_if_full(1);
                let ghost before = self.buf@;
                self.buf.push('\n');
                assert(self.buf@ == before + "\n"@);
            },
            ItemStart => {
                self.begin_item();
            },
            SoftLine | HardLine => {
                if self.collecting_heading {
                    let ghost before = self.heading_text@;
                    self.heading_text.push(' ');
                    assert(self.heading_text@ == before + " "@);
                } else {
                    self.append_with_split(" ");
                }
            },
            Markup(t) | InlineMarkup(t) => {
                let mut kept = text::trimmed(t.as_str());
                let ghost before = kept@;
                kept.push('\n');
                assert(kept@ == before + "\n"@);
                self.append_with_split(kept.as_str());
            },
            Other => {},
        }
    }
}

/// What the chunks of a file have in common.
pub open spec fn chunk_source(
    package: PackageView,
    file: MarkdownFileView,
    content: Seq<char>,
) -> ChunkSource {
    ChunkSource { package, file, newlines: lines::newline_positions(encode_utf8(content)) }
}

/// Chunks a file whose text has these events.
pub fn chunk_events(
    package: &PackageIdentity,
    file: &MarkdownFile,
    content: &str,
    events: &Vec<(MarkdownEvent, usize, usize)>,
) -> (r: Vec<KnowledgeDocument>)
    ensures
        document::document_views(r@) == chunks_of(
            chunk_source(package@, file@, content@),
            event_views(events@),
        ),
        ids_read_back(r@),
{
    let mut chunker = Chunker {
        package,
        file,
        line_index: LineIndex::new(content),
        heading_stack: Vec::new(),
        collecting_heading: false,
        heading_text: String::new(),
        heading_level: 1,
        buf: String::new(),
        buf_start_offset: 0,
        section_ordinal: 0,
        chunk_ordinal: 0,
        docs: Vec::new(),
    };
    let ghost src = chunk_source(package@, file@, content@);
    let ghost all = event_views(events@);
    assert(heading_views(chunker.heading_stack@) == Seq::<(u8, Seq<char>)>::empty());
    assert(document::document_views(chunker.docs@) == Seq::<DocumentView>::empty());
    let total: usize = events.len();
    let mut i: usize = 0;
    while i < events.len()
        invariant
            i <= events@.len(),
            total == events@.len(),
            all == event_views(events@),
            chunker.source() == src,
            ids_read_back(chunker.docs@),
            chunker.state() == after_events(src, all.take(i as int)),
            chunker.chunk_ordinal <= i * 0x1_0000_0000_0000_0001,
            chunker.section_ordinal <= i,
        decreases events@.len() - i,
    {
        assert(all.take(i + 1).drop_last() == all.take(i as int));
        assert(all.take(i + 1).last() == (events@[i as int].0@, events@[i as int].1, events@[i as int].2));
        assert(i < total <= 0xffff_ffff_ffff_ffff);
        assert((i + 1) * 0x1_0000_0000_0000_0001 <= 0xffff_ffff_ffff_ffff_ffff_ffff_ffff_ffff);
        let event = &events[i];
        chunker.on_event(&event.0, event.1, event.2);
        i = i + 1;
    }
    assert(all.take(all.len() as int) == all);
    chunker.flush();
    chunker.docs
}

/// Chunks one Markdown file into documents with heading provenance.
pub fn chunk_markdown(package: &PackageIdentity, file: &MarkdownFile, content: &str) -> (r: Vec<
    KnowledgeDocument,
>)
    ensures
        document::document_views(r@) == chunks_of(
            chunk_source(package@, file@, content@),
            markdown_events(content@),
        ),
        ids_read_back(r@),
{
    let events = parse_events(content);
    chunk_events(package, file, content, &events)
}

} // verus!
