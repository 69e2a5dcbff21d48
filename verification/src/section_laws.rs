//! What the sections of a Markdown file become: headings, and the documents
//! below them.
use vstd::prelude::*;
use vstd::utf8::*;
use crate::chunk_laws;
use crate::document::{DocumentView, PackageView};
use crate::ids;
use crate::lines;
use crate::markdown;
use crate::markdown::{ChunkSource, ChunkState, EventView, MarkdownFileView, MAX_CHUNK_CHARS};
use crate::pieces;
use crate::text;
use crate::text_laws;

verus! {

// ---------------------------------------------------------------------------
// What the laws speak of
// ---------------------------------------------------------------------------

/// No heading begins or ends.
pub open spec fn no_heading(events: Seq<(EventView, usize, usize)>) -> bool {
    forall|i: int|
        0 <= i < events.len() ==> (#[trigger] events[i]).0 !is HeadingStart
            && events[i].0 !is HeadingEnd
}

/// The text that a reader sees in a heading with these events: words and code as
/// they stand, a line break as a blank.
pub open spec fn spoken(events: Seq<(EventView, usize, usize)>) -> Seq<char>
    decreases events.len(),
{
    if events.len() == 0 {
        Seq::empty()
    } else {
        spoken(events.drop_last()) + (match events.last().0 {
            EventView::Content(t) => t,
            EventView::InlineCode(t) => t,
            EventView::SoftLine => seq![' '],
            EventView::HardLine => seq![' '],
            _ => Seq::empty(),
        })
    }
}

/// What an event adds behind the text above it: words and code as they stand, a blank
/// for a line break, HTML trimmed and on a line of its own, a dash on a new line for an
/// item, and an empty line behind a paragraph, a list and code.
pub open spec fn rendering(event: EventView, above: Seq<char>) -> Seq<char> {
    match event {
        EventView::Content(t) => t,
        EventView::InlineCode(t) => t,
        EventView::SoftLine => seq![' '],
        EventView::HardLine => seq![' '],
        EventView::Markup(t) => text::trim(t) + seq!['\n'],
        EventView::InlineMarkup(t) => text::trim(t) + seq!['\n'],
        EventView::ItemStart => if above.len() > 0 {
            seq!['\n', '-', ' ']
        } else {
            seq!['-', ' ']
        },
        EventView::ParagraphEnd => seq!['\n', '\n'],
        EventView::CodeEnd => seq!['\n', '\n'],
        EventView::ListEnd => seq!['\n', '\n'],
        EventView::CodeStart => seq!['\n'],
        _ => Seq::empty(),
    }
}

/// The text below a heading with these events.
pub open spec fn rendered(events: Seq<(EventView, usize, usize)>) -> Seq<char>
    decreases events.len(),
{
    if events.len() == 0 {
        Seq::empty()
    } else {
        let above = rendered(events.drop_last());
        above + rendering(events.last().0, above)
    }
}

/// Where the text below a heading begins: at its first words or code, unless
/// something else stands before them; `from` is where the heading ends.
pub open spec fn begins(events: Seq<(EventView, usize, usize)>, from: usize) -> usize
    decreases events.len(),
{
    if events.len() == 0 {
        from
    } else {
        let (event, start, _) = events.last();
        if (event is Content || event is InlineCode) && rendered(events.drop_last()).len() == 0 {
            start
        } else {
            begins(events.drop_last(), from)
        }
    }
}

/// A document of the file below these headings, which begins at the byte `at`.
pub open spec fn stands_below(
    src: ChunkSource,
    headings: Seq<(u8, Seq<char>)>,
    at: usize,
    doc: DocumentView,
) -> bool {
    &&& doc.section_path.len() == headings.len()
    &&& forall|i: int|
        0 <= i < headings.len() ==> #[trigger] doc.section_path[i] == headings[i].1
    &&& headings.len() > 0 ==> doc.title == headings.last().1
    &&& doc.package == src.package
    &&& doc.source_kind == src.file.kind
    &&& doc.source_path == Some(src.file.abs_path)
    &&& doc.symbol_path is None
    &&& doc.item_kind is None
    &&& doc.signature is None
    &&& doc.related_symbols.len() == 0
    &&& doc.source_span is Some
    &&& (doc.source_span->0).start_line == lines::line_of(src.newlines, at as int)
    &&& (doc.source_span->0).end_line == lines::line_of(
        src.newlines,
        at + text::utf8_len(doc.text),
    )
    &&& (doc.source_span->0).start_col == 1
    &&& (doc.source_span->0).end_col == 1
}

/// Documents were added behind those there were, all of them below the same
/// headings and beginning at the byte `at`.
pub open spec fn adds(
    src: ChunkSource,
    before: Seq<DocumentView>,
    after: Seq<DocumentView>,
    headings: Seq<(u8, Seq<char>)>,
    at: usize,
) -> bool {
    &&& before.len() <= after.len()
    &&& after.take(before.len() as int) == before
    &&& forall|i: int|
        before.len() <= i < after.len() ==> stands_below(src, headings, at, #[trigger] after[i])
}

// ---------------------------------------------------------------------------
// What adding text keeps
// ---------------------------------------------------------------------------

/// All but the documents, the pending text and the number of the chunk is the same.
spec fn same_place(a: ChunkState, b: ChunkState) -> bool {
    &&& a.headings == b.headings
    &&& a.in_heading == b.in_heading
    &&& a.heading_text == b.heading_text
    &&& a.heading_level == b.heading_level
    &&& a.pending_start == b.pending_start
    &&& a.section == b.section
}

/// Documents added twice.
proof fn lemma_adds_twice(
    src: ChunkSource,
    a: Seq<DocumentView>,
    b: Seq<DocumentView>,
    c: Seq<DocumentView>,
    headings: Seq<(u8, Seq<char>)>,
    at: usize,
)
    requires
        adds(src, a, b, headings, at),
        adds(src, b, c, headings, at),
    ensures
        adds(src, a, c, headings, at),
{
    assert(c.take(a.len() as int) =~= c.take(b.len() as int).take(a.len() as int));
    assert forall|i: int| a.len() <= i < c.len() implies stands_below(
        src,
        headings,
        at,
        #[trigger] c[i],
    ) by {
        if i < b.len() {
            assert(c[i] == c.take(b.len() as int)[i]);
            assert(stands_below(src, headings, at, b[i]));
        }
    }
}

/// The pending text becomes a document at its place.
proof fn lemma_flushed_adds(src: ChunkSource, st: ChunkState)
    ensures
        same_place(st, markdown::flushed(src, st)),
        same_place(st, markdown::split_off(src, st)),
        adds(src, st.docs, markdown::flushed(src, st).docs, st.headings, st.pending_start),
        text::trim(st.pending).len() == 0 ==> markdown::flushed(src, st).docs == st.docs,
        text::trim(st.pending).len() > 0 ==> markdown::flushed(src, st).docs.len() == st.docs.len()
            + 1 && markdown::flushed(src, st).docs.last().text == text::trim(st.pending),
{
    let after = markdown::flushed(src, st).docs;
    assert(after.take(st.docs.len() as int) =~= st.docs);
    let body = text::trim(st.pending);
    let doc = markdown::chunk_document(src, st, body);
    assert(doc.section_path.len() == st.headings.len());
    assert(stands_below(src, st.headings, st.pending_start, doc));
}

/// So do the pieces of a text that is too large.
proof fn lemma_pieces_add(src: ChunkSource, st: ChunkState, t: Seq<char>)
    ensures
        same_place(st, markdown::in_pieces(src, st, t).0),
        adds(src, st.docs, markdown::in_pieces(src, st, t).0.docs, st.headings, st.pending_start),
    decreases t.len(),
{
    if t.len() == 0 {
        assert(st.docs.take(st.docs.len() as int) =~= st.docs);
    } else {
        lemma_pieces_add(src, st, t.drop_last());
        let (before, piece) = markdown::in_pieces(src, st, t.drop_last());
        let full = markdown::extended(before, piece);
        lemma_flushed_adds(src, full);
        let after = markdown::split_off(src, full);
        if text::utf8_len(piece) + text::char_width(t.last()) > MAX_CHUNK_CHARS {
            lemma_adds_twice(
                src,
                st.docs,
                full.docs,
                after.docs,
                st.headings,
                st.pending_start,
            );
        }
    }
}

/// Making room adds documents at the place.
proof fn lemma_room_adds(src: ChunkSource, st: ChunkState, incoming: nat)
    ensures
        same_place(st, markdown::split_if_full(src, st, incoming)),
        adds(
            src,
            st.docs,
            markdown::split_if_full(src, st, incoming).docs,
            st.headings,
            st.pending_start,
        ),
{
    lemma_flushed_adds(src, st);
    assert(st.docs.take(st.docs.len() as int) =~= st.docs);
}

/// Adding text adds documents at the place.
proof fn lemma_append_adds(src: ChunkSource, st: ChunkState, t: Seq<char>)
    ensures
        same_place(st, markdown::appended(src, st, t)),
        adds(
            src,
            st.docs,
            markdown::appended(src, st, t).docs,
            st.headings,
            st.pending_start,
        ),
{
    assert(st.docs.take(st.docs.len() as int) =~= st.docs);
    lemma_room_adds(src, st, text::utf8_len(t));
    lemma_flushed_adds(src, st);
    lemma_pieces_add(src, st, t);
    let cleared = markdown::split_off(src, st);
    lemma_pieces_add(src, cleared, t);
    lemma_adds_twice(
        src,
        st.docs,
        cleared.docs,
        markdown::in_pieces(src, cleared, t).0.docs,
        st.headings,
        st.pending_start,
    );
}

/// An item adds documents at the place.
proof fn lemma_item_adds(src: ChunkSource, st: ChunkState)
    ensures
        same_place(st, markdown::with_item(src, st)),
        adds(src, st.docs, markdown::with_item(src, st).docs, st.headings, st.pending_start),
{
    assert(st.docs.take(st.docs.len() as int) =~= st.docs);
    lemma_flushed_adds(src, st);
}

// ---------------------------------------------------------------------------
// Headings
// ---------------------------------------------------------------------------

/// While a heading is read, its text is what its events say.
#[verifier::rlimit(40)]
proof fn lemma_heading_read(
    src: ChunkSource,
    above: Seq<(EventView, usize, usize)>,
    level: u8,
    start: usize,
    end: usize,
    inside: Seq<(EventView, usize, usize)>,
)
    requires
        no_heading(inside),
    ensures
        ({
            let st = markdown::after_events(
                src,
                above.push((EventView::HeadingStart(level), start, end)) + inside,
            );
            &&& st.in_heading
            &&& st.heading_level == level
            &&& st.heading_text == spoken(inside)
            &&& st.headings == markdown::after_events(src, above).headings
        }),
    decreases inside.len(),
{
    let opened = above.push((EventView::HeadingStart(level), start, end));
    let all = opened + inside;
    if inside.len() == 0 {
        assert(all =~= opened);
        assert(opened.drop_last() =~= above);
        lemma_flushed_adds(src, markdown::after_events(src, above));
    } else {
        let init = inside.drop_last();
        assert forall|i: int| 0 <= i < init.len() implies (#[trigger] init[i]).0 !is HeadingStart
            && init[i].0 !is HeadingEnd by {
            assert(inside[i].0 !is HeadingStart);
        }
        lemma_heading_read(src, above, level, start, end, init);
        assert(all.drop_last() =~= opened + init);
        assert(all.last() == inside.last());
        assert(inside[inside.len() - 1].0 !is HeadingStart);
        let st = markdown::after_events(src, opened + init);
        let (event, from, to) = inside.last();
        reveal_strlit(" ");
        assert(" "@ =~= seq![' ']);
        lemma_room_adds(src, st, 1);
        lemma_item_adds(src, st);
        match event {
            EventView::Markup(t) => {
                lemma_append_adds(src, st, text::trim(t) + "\n"@);
            },
            EventView::InlineMarkup(t) => {
                lemma_append_adds(src, st, text::trim(t) + "\n"@);
            },
            _ => {},
        }
        assert(spoken(inside) =~= spoken(init) + (match event {
            EventView::Content(t) => t,
            EventView::InlineCode(t) => t,
            EventView::SoftLine => seq![' '],
            EventView::HardLine => seq![' '],
            _ => Seq::empty(),
        }));
        assert(spoken(init) + Seq::<char>::empty() =~= spoken(init));
    }
}

/// The title of a heading is what stands in it, trimmed: all of its words and all
/// of its code, and blanks for its line breaks. It comes behind the headings of
/// lower levels that were open before it, and no other.
pub proof fn law_heading_title(
    src: ChunkSource,
    above: Seq<(EventView, usize, usize)>,
    level: u8,
    inside: Seq<(EventView, usize, usize)>,
    at: (usize, usize),
    behind: (usize, usize),
)
    requires
        no_heading(inside),
    ensures
        ({
            let read = above.push((EventView::HeadingStart(level), at.0, at.1)) + inside;
            let after = markdown::after_events(
                src,
                read.push((EventView::HeadingEnd, behind.0, behind.1)),
            );
            &&& after.headings == markdown::after_events(src, above).headings.filter(
                |h: (u8, Seq<char>)| h.0 < level,
            ).push((level, text::trim(spoken(inside))))
            &&& !after.in_heading
            &&& after.pending.len() == 0
        }),
{
    let read = above.push((EventView::HeadingStart(level), at.0, at.1)) + inside;
    let all = read.push((EventView::HeadingEnd, behind.0, behind.1));
    assert(all.drop_last() =~= read);
    lemma_heading_read(src, above, level, at.0, at.1, inside);
    chunk_laws::law_headings_nested(src, read);
    let st = markdown::after_events(src, read);
    chunk_laws::law_event_keeps_headings(
        src,
        st,
        EventView::HeadingEnd,
        behind.0,
        behind.1,
    );
}

/// Nothing that can be seen in a heading is lost: the visible characters of its
/// title are those of its words and its code, one after another.
pub proof fn law_heading_keeps_its_text(inside: Seq<(EventView, usize, usize)>)
    ensures
        chunk_laws::visible(text::trim(spoken(inside))) == said(inside),
    decreases inside.len(),
{
    chunk_laws::lemma_visible_trim(spoken(inside));
    lemma_said(inside);
}

/// The visible characters of words and code, one after another.
pub open spec fn said(events: Seq<(EventView, usize, usize)>) -> Seq<char>
    decreases events.len(),
{
    if events.len() == 0 {
        Seq::empty()
    } else {
        match events.last().0 {
            EventView::Content(t) => said(events.drop_last()) + chunk_laws::visible(t),
            EventView::InlineCode(t) => said(events.drop_last()) + chunk_laws::visible(t),
            _ => said(events.drop_last()),
        }
    }
}

/// What is spoken shows what is said.
proof fn lemma_said(events: Seq<(EventView, usize, usize)>)
    ensures
        chunk_laws::visible(spoken(events)) == said(events),
    decreases events.len(),
{
    if events.len() > 0 {
        let init = events.drop_last();
        lemma_said(init);
        let more = (match events.last().0 {
            EventView::Content(t) => t,
            EventView::InlineCode(t) => t,
            EventView::SoftLine => seq![' '],
            EventView::HardLine => seq![' '],
            _ => Seq::empty(),
        });
        chunk_laws::lemma_visible_add(spoken(init), more);
        let none = Seq::<char>::empty();
        assert(said(init) + none =~= said(init));
        match events.last().0 {
            EventView::Content(_) => {},
            EventView::InlineCode(_) => {},
            _ => {
                chunk_laws::lemma_visible_white(more);
            },
        }
    }
}

// ---------------------------------------------------------------------------
// Documents
// ---------------------------------------------------------------------------

/// Every document that an event finishes stands below the headings that were open
/// before the event, whatever the event is; the documents there were stay. Its
/// lines are those from where its text begins to where its length ends.
#[verifier::rlimit(40)]
pub proof fn law_documents_below_headings(
    src: ChunkSource,
    events: Seq<(EventView, usize, usize)>,
    event: EventView,
    start: usize,
    end: usize,
)
    ensures
        ({
            let st = markdown::after_events(src, events);
            let after = markdown::after_events(src, events.push((event, start, end)));
            let fresh = (event is Content || event is InlineCode) && !st.in_heading
                && st.pending.len() == 0;
            adds(src, st.docs, after.docs, st.headings, if fresh {
                start
            } else {
                st.pending_start
            })
        }),
        adds(
            src,
            markdown::after_events(src, events).docs,
            markdown::chunks_of(src, events),
            markdown::after_events(src, events).headings,
            markdown::after_events(src, events).pending_start,
        ),
{
    let st = markdown::after_events(src, events);
    let more = events.push((event, start, end));
    assert(more.drop_last() =~= events);
    assert(st.docs.take(st.docs.len() as int) =~= st.docs);
    lemma_flushed_adds(src, st);
    lemma_room_adds(src, st, 1);
    lemma_item_adds(src, st);
    let moved = ChunkState { pending_start: start, ..st };
    match event {
        EventView::Content(t) => {
            lemma_append_adds(src, st, t);
            lemma_append_adds(src, moved, t);
        },
        EventView::InlineCode(t) => {
            lemma_append_adds(src, st, t);
            lemma_append_adds(src, moved, t);
        },
        EventView::Markup(t) => {
            lemma_append_adds(src, st, text::trim(t) + "\n"@);
        },
        EventView::InlineMarkup(t) => {
            lemma_append_adds(src, st, text::trim(t) + "\n"@);
        },
        EventView::SoftLine => {
            lemma_append_adds(src, st, " "@);
        },
        EventView::HardLine => {
            lemma_append_adds(src, st, " "@);
        },
        _ => {},
    }
}

/// Outside headings, what an event renders to comes behind what is pending, whatever
/// was read before, and no document is put out, where all of it takes less than 4000
/// bytes. Words and code that begin a chunk say where it begins.
pub proof fn law_event_renders(
    src: ChunkSource,
    st: ChunkState,
    event: EventView,
    start: usize,
    end: usize,
)
    requires
        !st.in_heading,
        event !is HeadingStart && event !is HeadingEnd,
        text::utf8_len(st.pending) + text::utf8_len(rendering(event, st.pending)) < 4000,
    ensures
        markdown::after_event(src, st, event, start, end) == (ChunkState {
            pending: st.pending + rendering(event, st.pending),
            pending_start: if (event is Content || event is InlineCode) && st.pending.len() == 0 {
                start
            } else {
                st.pending_start
            },
            ..st
        }),
{
    reveal_strlit(" ");
    reveal_strlit("\n");
    reveal_strlit("\n\n");
    reveal_strlit("- ");
    reveal_strlit("\n- ");
    assert(" "@ =~= seq![' ']);
    assert("\n"@ =~= seq!['\n']);
    assert("\n\n"@ =~= seq!['\n', '\n']);
    assert("- "@ =~= seq!['-', ' ']);
    assert("\n- "@ =~= seq!['\n', '-', ' ']);
    assert(st.pending + Seq::<char>::empty() =~= st.pending);
    if event is ItemStart {
        let marker = rendering(event, st.pending);
        assert(markdown::item_marker(st.pending) == marker);
        text::lemma_utf8_len_add(st.pending, marker);
        text::lemma_trim_shorter(st.pending + marker);
    }
}

/// Where everything fits into one chunk, it stays pending.
proof fn lemma_pending(
    src: ChunkSource,
    above: Seq<(EventView, usize, usize)>,
    inside: Seq<(EventView, usize, usize)>,
)
    requires
        no_heading(inside),
        !markdown::after_events(src, above).in_heading,
        markdown::after_events(src, above).pending.len() == 0,
        text::utf8_len(rendered(inside)) < MAX_CHUNK_CHARS,
    ensures
        ({
            let st = markdown::after_events(src, above);
            markdown::after_events(src, above + inside) == (ChunkState {
                pending: rendered(inside),
                pending_start: begins(inside, st.pending_start),
                ..st
            })
        }),
    decreases inside.len(),
{
    let base = markdown::after_events(src, above);
    if inside.len() == 0 {
        assert(above + inside =~= above);
        assert(base.pending =~= rendered(inside));
    } else {
        let init = inside.drop_last();
        assert forall|i: int| 0 <= i < init.len() implies (#[trigger] init[i]).0 !is HeadingStart
            && init[i].0 !is HeadingEnd by {
            assert(inside[i].0 !is HeadingStart);
        }
        let (event, start, end) = inside.last();
        assert(inside[inside.len() - 1].0 !is HeadingStart);
        text::lemma_utf8_len_add(rendered(init), rendering(event, rendered(init)));
        lemma_pending(src, above, init);
        assert((above + inside).drop_last() =~= above + init);
        assert((above + inside).last() == inside.last());
        law_event_renders(src, markdown::after_events(src, above + init), event, start, end);
    }
}

/// A section that fits into one document becomes one document, or none where there
/// is nothing to be seen in it. Its text is what the section renders to, trimmed,
/// and it stands below the headings of the section.
pub proof fn law_small_section(
    src: ChunkSource,
    above: Seq<(EventView, usize, usize)>,
    inside: Seq<(EventView, usize, usize)>,
    level: u8,
    at: (usize, usize),
)
    requires
        above.len() > 0 ==> above.last().0 is HeadingEnd,
        no_heading(inside),
        text::utf8_len(rendered(inside)) < 4000,
    ensures
        ({
            let st = markdown::after_events(src, above);
            let next = (above + inside).push((EventView::HeadingStart(level), at.0, at.1));
            let from = if above.len() > 0 {
                above.last().2
            } else {
                0
            };
            let docs = markdown::chunks_of(src, above + inside);
            let body = text::trim(rendered(inside));
            &&& markdown::after_events(src, next).docs == docs
            &&& adds(src, st.docs, docs, st.headings, begins(inside, from))
            &&& body.len() == 0 ==> docs == st.docs
            &&& body.len() > 0 ==> docs.len() == st.docs.len() + 1 && docs.last().text == body
        }),
{
    let st = markdown::after_events(src, above);
    assert(!st.in_heading && st.pending.len() == 0);
    lemma_pending(src, above, inside);
    let full = markdown::after_events(src, above + inside);
    lemma_flushed_adds(src, full);
    let next = (above + inside).push((EventView::HeadingStart(level), at.0, at.1));
    assert(next.drop_last() =~= above + inside);
}

// ---------------------------------------------------------------------------
// Numbers of sections and chunks
// ---------------------------------------------------------------------------

/// How many headings have begun.
pub open spec fn headings_begun(events: Seq<(EventView, usize, usize)>) -> nat
    decreases events.len(),
{
    if events.len() == 0 {
        0
    } else {
        headings_begun(events.drop_last()) + if events.last().0 is HeadingStart {
            1nat
        } else {
            0
        }
    }
}

/// The number of a section is that of the headings that have begun, and the chunks of
/// each are counted from zero.
pub proof fn law_section_numbers(
    src: ChunkSource,
    events: Seq<(EventView, usize, usize)>,
    level: u8,
    at: (usize, usize),
)
    ensures
        markdown::after_events(src, events).section == headings_begun(events),
        markdown::after_events(
            src,
            events.push((EventView::HeadingStart(level), at.0, at.1)),
        ).chunk == 0,
        markdown::after_events(src, Seq::empty()).chunk == 0,
    decreases events.len(),
{
    let more = events.push((EventView::HeadingStart(level), at.0, at.1));
    assert(more.drop_last() =~= events);
    if events.len() > 0 {
        let init = events.drop_last();
        law_section_numbers(src, init, level, at);
        let st = markdown::after_events(src, init);
        let (event, start, _) = events.last();
        lemma_event_section(src, st, event, start, events.last().2);
    }
}

/// Where a heading begins or ends, nothing is pending, and what comes next begins behind
/// the heading.
pub proof fn law_section_begins_behind_heading(
    src: ChunkSource,
    events: Seq<(EventView, usize, usize)>,
    level: u8,
    at: (usize, usize),
)
    ensures
        ({
            let begun = markdown::after_events(
                src,
                events.push((EventView::HeadingStart(level), at.0, at.1)),
            );
            let ended = markdown::after_events(
                src,
                events.push((EventView::HeadingEnd, at.0, at.1)),
            );
            &&& begun.pending.len() == 0 && begun.pending_start == at.1 && begun.in_heading
            &&& ended.pending.len() == 0 && ended.pending_start == at.1 && !ended.in_heading
            &&& begun.docs == markdown::chunks_of(src, events)
        }),
{
    let one = events.push((EventView::HeadingStart(level), at.0, at.1));
    let two = events.push((EventView::HeadingEnd, at.0, at.1));
    assert(one.drop_last() =~= events && two.drop_last() =~= events);
}

/// What an event does to the number of the section.
proof fn lemma_event_section(
    src: ChunkSource,
    st: ChunkState,
    event: EventView,
    start: usize,
    end: usize,
)
    ensures
        markdown::after_event(src, st, event, start, end).section == st.section + (
        if event is HeadingStart {
            1nat
        } else {
            0
        }),
{
    lemma_flushed_adds(src, st);
    lemma_room_adds(src, st, 1);
    lemma_item_adds(src, st);
    let moved = ChunkState { pending_start: start, ..st };
    match event {
        EventView::Content(t) => {
            lemma_append_adds(src, st, t);
            lemma_append_adds(src, moved, t);
        },
        EventView::InlineCode(t) => {
            lemma_append_adds(src, st, t);
            lemma_append_adds(src, moved, t);
        },
        EventView::Markup(t) => {
            lemma_append_adds(src, st, text::trim(t) + "\n"@);
        },
        EventView::InlineMarkup(t) => {
            lemma_append_adds(src, st, text::trim(t) + "\n"@);
        },
        EventView::SoftLine => {
            lemma_append_adds(src, st, " "@);
        },
        EventView::HardLine => {
            lemma_append_adds(src, st, " "@);
        },
        _ => {},
    }
}

/// A section that fits into one document is identified by its package, the kind and the
/// path of its file, the number of its section and that of its chunk.
pub proof fn law_small_section_identity(
    src: ChunkSource,
    above: Seq<(EventView, usize, usize)>,
    inside: Seq<(EventView, usize, usize)>,
)
    requires
        above.len() > 0 ==> above.last().0 is HeadingEnd,
        no_heading(inside),
        text::utf8_len(rendered(inside)) < 4000,
        text::trim(rendered(inside)).len() > 0,
    ensures
        markdown::chunks_of(src, above + inside).len() > 0,
        markdown::chunks_of(src, above + inside).last().id == ids::identity_id(
            seq![
                src.package.package_id,
                src.file.kind.name(),
                src.file.rel_path,
                pieces::decimal(headings_begun(above)),
                pieces::decimal(markdown::after_events(src, above).chunk),
            ],
        ),
{
    law_section_numbers(src, above, 1, (0, 0));
    let st = markdown::after_events(src, above);
    assert(!st.in_heading && st.pending.len() == 0);
    lemma_pending(src, above, inside);
}

/// Text that does not fit behind what is pending ends the chunk: what is pending
/// becomes a document, trimmed, unless it is blank, and the text begins the next chunk
/// of the section.
pub proof fn law_full_chunk_is_put_out(
    src: ChunkSource,
    events: Seq<(EventView, usize, usize)>,
    t: Seq<char>,
    at: (usize, usize),
)
    requires
        !markdown::after_events(src, events).in_heading,
        markdown::after_events(src, events).pending.len() > 0,
        text::utf8_len(t) <= 4000,
        text::utf8_len(markdown::after_events(src, events).pending) + text::utf8_len(t) > 4000,
    ensures
        ({
            let st = markdown::after_events(src, events);
            let after = markdown::after_events(
                src,
                events.push((EventView::Content(t), at.0, at.1)),
            );
            &&& after == markdown::after_events(
                src,
                events.push((EventView::InlineCode(t), at.0, at.1)),
            )
            &&& after.pending == t
            &&& after.chunk == st.chunk + 1
            &&& after.section == st.section
            &&& text::trim(st.pending).len() == 0 ==> after.docs == st.docs
            &&& text::trim(st.pending).len() > 0 ==> after.docs.len() == st.docs.len() + 1
                && after.docs.last().text == text::trim(st.pending)
        }),
{
    let st = markdown::after_events(src, events);
    let one = events.push((EventView::Content(t), at.0, at.1));
    let two = events.push((EventView::InlineCode(t), at.0, at.1));
    assert(one.drop_last() =~= events && two.drop_last() =~= events);
    lemma_flushed_adds(src, st);
    let cut = markdown::split_off(src, st);
    assert(cut.pending + t =~= t);
}

/// Text that fits behind what is pending, up to 4000 bytes together, comes behind it.
pub proof fn law_text_that_fits_is_kept(
    src: ChunkSource,
    st: ChunkState,
    t: Seq<char>,
    at: (usize, usize),
)
    requires
        !st.in_heading,
        text::utf8_len(st.pending) + text::utf8_len(t) <= 4000,
    ensures
        ({
            let after = markdown::after_event(src, st, EventView::Content(t), at.0, at.1);
            &&& after.pending == st.pending + t
            &&& after.docs == st.docs
            &&& after.chunk == st.chunk
            &&& markdown::after_event(src, st, EventView::InlineCode(t), at.0, at.1) == after
        }),
{
}

/// A paragraph, a list and code begin a new chunk where what is pending takes 4000
/// bytes or more; else they do not.
pub proof fn law_blocks_begin_new_chunks(src: ChunkSource, st: ChunkState, at: (usize, usize))
    ensures
        ({
            let full = st.pending.len() > 0 && text::utf8_len(st.pending) >= 4000;
            let paragraph = markdown::after_event(
                src,
                st,
                EventView::ParagraphStart,
                at.0,
                at.1,
            );
            let list = markdown::after_event(src, st, EventView::ListStart, at.0, at.1);
            let code = markdown::after_event(src, st, EventView::CodeStart, at.0, at.1);
            &&& list == paragraph
            &&& code.docs == paragraph.docs && code.chunk == paragraph.chunk
            &&& code.pending == paragraph.pending + seq!['\n']
            &&& !full ==> paragraph == st
            &&& full ==> paragraph.pending.len() == 0 && paragraph.chunk == st.chunk + 1
            &&& full && text::trim(st.pending).len() > 0 ==> paragraph.docs.len() == st.docs.len()
                + 1 && paragraph.docs.last().text == text::trim(st.pending)
        }),
{
    reveal_strlit("\n");
    assert("\n"@ =~= seq!['\n']);
    lemma_flushed_adds(src, st);
}

/// An item comes behind what is pending unless the chunk would be larger than 4003
/// bytes with its marker; then it begins a new chunk.
pub proof fn law_items_begin_new_chunks(src: ChunkSource, st: ChunkState, at: (usize, usize))
    requires
        st.pending.len() > 0,
    ensures
        ({
            let after = markdown::after_event(src, st, EventView::ItemStart, at.0, at.1);
            let marked = st.pending + seq!['\n', '-', ' '];
            let fits = text::utf8_len(text::trim(marked)) <= 4003;
            &&& fits ==> after.pending == marked && after.docs == st.docs && after.chunk == st.chunk
            &&& !fits ==> after.pending == seq!['-', ' '] && after.chunk == st.chunk + 1
            &&& !fits && text::trim(st.pending).len() > 0 ==> after.docs.len() == st.docs.len() + 1
                && after.docs.last().text == text::trim(st.pending)
        }),
{
    reveal_strlit("- ");
    reveal_strlit("\n- ");
    assert("- "@ =~= seq!['-', ' ']);
    assert("\n- "@ =~= seq!['\n', '-', ' ']);
    lemma_flushed_adds(src, st);
    let cut = markdown::split_off(src, st);
    assert(cut.pending + seq!['-', ' '] =~= seq!['-', ' ']);
}

/// A text that is too large for one document is cut into pieces as large as possible:
/// what is pending behind it is its end, and none of the documents it gave holds more
/// than the limit or could have taken the next character.
pub proof fn law_oversized_text_is_cut(src: ChunkSource, st: ChunkState, t: Seq<char>)
    requires
        st.pending.len() == 0,
        text::utf8_len(t) > 4000,
    ensures
        ({
            let after = markdown::appended(src, st, t);
            &&& after.pending == t.skip(t.len() - after.pending.len())
            &&& 0 < text::utf8_len(after.pending) <= 4000
            &&& after.chunk > st.chunk
            &&& text::utf8_len(t) - text::utf8_len(after.pending) <= 4000 * (after.chunk - st.chunk)
            &&& text::utf8_len(t) - text::utf8_len(after.pending) > 3996 * (after.chunk - st.chunk)
        }),
{
    let (before, piece) = markdown::in_pieces(src, st, t);
    lemma_cut(src, st, t);
    assert(before.pending + piece =~= piece);
}

/// How far the pieces of a text reach.
proof fn lemma_cut(src: ChunkSource, st: ChunkState, t: Seq<char>)
    requires
        st.pending.len() == 0,
    ensures
        ({
            let (before, piece) = markdown::in_pieces(src, st, t);
            let n = before.chunk - st.chunk;
            &&& before.pending.len() == 0
            &&& piece.len() <= t.len()
            &&& piece == t.skip(t.len() - piece.len())
            &&& text::utf8_len(piece) <= 4000
            &&& t.len() > 0 ==> text::utf8_len(piece) > 0
            &&& n >= 0
            &&& text::utf8_len(t) - text::utf8_len(piece) <= 4000 * n
            &&& n > 0 ==> text::utf8_len(t) - text::utf8_len(piece) > 3996 * n
            &&& n == 0 ==> text::utf8_len(t) == text::utf8_len(piece)
        }),
    decreases t.len(),
{
    let (before, piece) = markdown::in_pieces(src, st, t);
    if t.len() == 0 {
        assert(piece =~= t.skip(0));
    } else {
        let init = t.drop_last();
        lemma_cut(src, st, init);
        let (was, open) = markdown::in_pieces(src, st, init);
        let c = t.last();
        let k = was.chunk - st.chunk;
        if text::utf8_len(open) + text::char_width(c) > MAX_CHUNK_CHARS {
            assert(piece =~= t.skip(t.len() - 1));
            assert(seq![c].drop_last() =~= Seq::<char>::empty());
            assert(text::utf8_len(seq![c]) == text::char_width(c)) by {
                reveal_with_fuel(text::utf8_len, 2);
            }
            lemma_flushed_chunk(src, markdown::extended(was, open));
        } else {
            assert(piece == open.push(c));
            assert(open.push(c).drop_last() =~= open);
            assert(piece =~= t.skip(t.len() - piece.len())) by {
                assert forall|i: int| 0 <= i < piece.len() implies piece[i] == t.skip(
                    t.len() - piece.len(),
                )[i] by {
                    if i < open.len() {
                        assert(open[i] == init.skip(init.len() - open.len())[i]);
                    }
                }
            }
        }
    }
}

/// Putting out a document leaves nothing pending, and the number of the chunk.
proof fn lemma_flushed_chunk(src: ChunkSource, st: ChunkState)
    ensures
        markdown::split_off(src, st).chunk == st.chunk + 1,
        markdown::split_off(src, st).pending.len() == 0,
{
}

// ---------------------------------------------------------------------------
// Names and identities
// ---------------------------------------------------------------------------

/// The lines of a document are lines of the file: one more than the newlines before
/// the byte.
pub proof fn law_lines_of_file(
    package: PackageView,
    file: MarkdownFileView,
    content: Seq<char>,
    at: int,
)
    requires
        encode_utf8(content).len() <= usize::MAX,
        0 <= at <= encode_utf8(content).len() < u32::MAX,
    ensures
        ({
            let src = markdown::chunk_source(package, file, content);
            &&& src.package == package
            &&& src.file == file
            &&& lines::line_of(src.newlines, at) == 1 + text_laws::newlines(
                encode_utf8(content).take(at),
            )
        }),
{
    text_laws::law_line_numbers(encode_utf8(content), at);
}

/// A document above all headings has the title of its file: the name behind the
/// directories, without the extension of Markdown files.
pub proof fn law_file_title(directory: Seq<char>, stem: Seq<char>, extension: Seq<char>)
    requires
        !stem.contains('/'),
        !pieces::has_suffix(stem, ".md"@),
        !pieces::has_suffix(stem, ".markdown"@),
        extension == ".md"@ || extension == ".markdown"@ || extension == Seq::<char>::empty(),
    ensures
        markdown::title_of_file(stem + extension) == stem,
        markdown::title_of_file(directory + seq!['/'] + stem + extension) == stem,
{
    reveal_strlit(".md");
    reveal_strlit(".markdown");
    reveal_strlit("/");
    let md = ".md"@;
    let long = ".markdown"@;
    assert(md =~= seq!['.', 'm', 'd']);
    assert(long =~= seq!['.', 'm', 'a', 'r', 'k', 'd', 'o', 'w', 'n']);
    assert("/"@ =~= seq!['/']);
    let name = stem + extension;
    assert(!name.contains('/')) by {
        if name.contains('/') {
            let i = choose|i: int| 0 <= i < name.len() && name[i] == '/';
            if i < stem.len() {
                assert(stem[i] == '/');
            } else {
                assert(extension[i - stem.len()] == '/');
            }
        }
    }
    let path = directory + seq!['/'] + stem + extension;
    assert(path =~= directory + seq!['/'] + name);
    text_laws::lemma_behind_last_char(directory, name, '/');
    text_laws::lemma_no_last_char(name, '/');
    reveal_with_fuel(pieces::strip_suffixes, 2);
    if extension == md {
        assert(name.skip(name.len() - 3) =~= md);
        assert(name.take(name.len() - 3) =~= stem);
    } else if extension == long {
        assert(name.skip(name.len() - 9) =~= long);
        assert(name.take(name.len() - 9) =~= stem);
        assert(name.last() == 'n');
        if pieces::has_suffix(name, md) {
            assert(name.skip(name.len() - 3)[2] == name.last());
        }
    } else {
        assert(name =~= stem);
    }
}

/// Chunks of different files have different identities, whatever their sections:
/// the package, the kind and the path of the file tell them apart.
pub proof fn law_files_tell_chunks_apart(
    a: ChunkSource,
    b: ChunkSource,
    at: (nat, nat),
    other: (nat, nat),
)
    requires
        !a.package.package_id.contains(ids::unit_separator()),
        !b.package.package_id.contains(ids::unit_separator()),
        !a.file.rel_path.contains(ids::unit_separator()),
        !b.file.rel_path.contains(ids::unit_separator()),
        a.package.package_id != b.package.package_id || a.file.kind != b.file.kind
            || a.file.rel_path != b.file.rel_path || at != other,
    ensures
        ids::identity_text(markdown::chunk_identity(a, at.0, at.1)) != ids::identity_text(
            markdown::chunk_identity(b, other.0, other.1),
        ),
{
    let x = markdown::chunk_identity(a, at.0, at.1);
    let y = markdown::chunk_identity(b, other.0, other.1);
    text_laws::lemma_kind_name_plain(a.file.kind);
    text_laws::lemma_kind_name_plain(b.file.kind);
    text_laws::lemma_decimal_plain(at.0);
    text_laws::lemma_decimal_plain(at.1);
    text_laws::lemma_decimal_plain(other.0);
    text_laws::lemma_decimal_plain(other.1);
    assert(x[0] == a.package.package_id && y[0] == b.package.package_id);
    assert(x[1] == a.file.kind.name() && y[1] == b.file.kind.name());
    assert(x[2] == a.file.rel_path && y[2] == b.file.rel_path);
    assert(x[3] == pieces::decimal(at.0) && y[3] == pieces::decimal(other.0));
    assert(x[4] == pieces::decimal(at.1) && y[4] == pieces::decimal(other.1));
    if ids::identity_text(x) == ids::identity_text(y) {
        text_laws::law_identity_parts(x, y);
        crate::document::law_source_kind_round_trip(a.file.kind);
        crate::document::law_source_kind_round_trip(b.file.kind);
        pieces::lemma_decimal_injective(at.0, other.0);
        pieces::lemma_decimal_injective(at.1, other.1);
    }
}

} // verus!
