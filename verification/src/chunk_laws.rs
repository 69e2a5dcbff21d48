//! What holds of every chunking run.
use vstd::prelude::*;
use crate::document::DocumentView;
use crate::ids;
use crate::markdown;
use crate::markdown::{ChunkSource, ChunkState, EventView, CHUNK_SLACK, MAX_CHUNK_CHARS};
use crate::pieces;
use crate::text;
use crate::words;

verus! {

// ---------------------------------------------------------------------------
// What the laws speak of
// ---------------------------------------------------------------------------

/// The levels of the headings increase from the outermost to the innermost.
pub open spec fn nested(headings: Seq<(u8, Seq<char>)>) -> bool {
    forall|a: int, b: int|
        0 <= a < b < headings.len() ==> (#[trigger] headings[a]).0 < (#[trigger] headings[b]).0
}

/// The characters of a text that are not white space.
pub open spec fn visible(s: Seq<char>) -> Seq<char>
    decreases s.len(),
{
    if s.len() == 0 {
        Seq::empty()
    } else if text::white(s.last()) {
        visible(s.drop_last())
    } else {
        visible(s.drop_last()).push(s.last())
    }
}

/// The visible characters of all documents, one after another.
pub open spec fn visible_texts(docs: Seq<DocumentView>) -> Seq<char>
    decreases docs.len(),
{
    if docs.len() == 0 {
        Seq::empty()
    } else {
        visible_texts(docs.drop_last()) + visible(docs.last().text)
    }
}

/// Whether a heading is open after the events.
pub open spec fn heading_open(events: Seq<(EventView, usize, usize)>) -> bool
    decreases events.len(),
{
    if events.len() == 0 {
        false
    } else {
        match events.last().0 {
            EventView::HeadingStart(_) => true,
            EventView::HeadingEnd => false,
            _ => heading_open(events.drop_last()),
        }
    }
}

/// The visible characters that an event brings outside headings.
pub open spec fn brought(event: EventView) -> Seq<char> {
    match event {
        EventView::Content(t) | EventView::InlineCode(t) => visible(t),
        EventView::Markup(t) | EventView::InlineMarkup(t) => visible(t),
        EventView::ItemStart => seq!['-'],
        _ => Seq::empty(),
    }
}

/// The visible characters that the events bring outside headings, in order.
pub open spec fn visible_content(events: Seq<(EventView, usize, usize)>) -> Seq<char>
    decreases events.len(),
{
    if events.len() == 0 {
        Seq::empty()
    } else {
        let before = visible_content(events.drop_last());
        if heading_open(events.drop_last()) {
            before
        } else {
            before + brought(events.last().0)
        }
    }
}

/// Headings begin and end in turn and hold neither HTML nor list items.
pub open spec fn plain_headings(events: Seq<(EventView, usize, usize)>) -> bool
    decreases events.len(),
{
    if events.len() == 0 {
        true
    } else {
        let before = events.drop_last();
        &&& plain_headings(before)
        &&& match events.last().0 {
            EventView::HeadingEnd => heading_open(before),
            EventView::Markup(_) | EventView::InlineMarkup(_) | EventView::ItemStart => {
                !heading_open(before)
            },
            _ => true,
        }
    }
}

/// No event begins a list item.
pub open spec fn no_items(events: Seq<(EventView, usize, usize)>) -> bool {
    forall|i: int| 0 <= i < events.len() ==> (#[trigger] events[i]).0 !is ItemStart
}

/// Section and chunk come before another section and chunk.
pub open spec fn mark_less(a: (nat, nat), b: (nat, nat)) -> bool {
    a.0 < b.0 || (a.0 == b.0 && a.1 < b.1)
}

/// What holds of one document: it is the chunk of that section, it names its
/// package and file, its title is the innermost heading or that of the file, its
/// text is trimmed and not empty, and it is at most `slack` bytes over the limit.
pub open spec fn document_sound(
    src: ChunkSource,
    doc: DocumentView,
    mark: (nat, nat),
    slack: nat,
) -> bool {
    &&& doc.id == ids::identity_id(markdown::chunk_identity(src, mark.0, mark.1))
    &&& doc.package == src.package
    &&& doc.source_kind == src.file.kind
    &&& doc.source_path == Some(src.file.abs_path)
    &&& doc.symbol_path is None
    &&& doc.title == (if doc.section_path.len() > 0 {
        doc.section_path.last()
    } else {
        markdown::title_of_file(src.file.rel_path)
    })
    &&& doc.text.len() > 0
    &&& text::trim(doc.text) == doc.text
    &&& text::utf8_len(doc.text) <= MAX_CHUNK_CHARS + slack
}

/// What holds of all documents together: each is sound, and each comes later
/// in the file than those before it.
pub open spec fn documents_sound(
    src: ChunkSource,
    docs: Seq<DocumentView>,
    marks: Seq<(nat, nat)>,
    slack: nat,
) -> bool {
    &&& marks.len() == docs.len()
    &&& forall|i: int| 0 <= i < docs.len() ==> document_sound(src, #[trigger] docs[i], marks[i], slack)
    &&& forall|i: int, j: int|
        0 <= i < j < marks.len() ==> mark_less(#[trigger] marks[i], #[trigger] marks[j])
}

// ---------------------------------------------------------------------------
// Visible characters and trimming
// ---------------------------------------------------------------------------

/// The visible characters of a concatenation.
pub proof fn lemma_visible_add(a: Seq<char>, b: Seq<char>)
    ensures
        visible(a + b) == visible(a) + visible(b),
    decreases b.len(),
{
    if b.len() == 0 {
        assert(a + b == a);
        assert(visible(a) + visible(b) == visible(a));
    } else {
        assert((a + b).drop_last() == a + b.drop_last());
        lemma_visible_add(a, b.drop_last());
        if !text::white(b.last()) {
            assert(visible(a) + visible(b) == (visible(a) + visible(b.drop_last())).push(b.last()));
        }
    }
}

/// White space is not visible.
pub proof fn lemma_visible_white(s: Seq<char>)
    requires
        forall|i: int| 0 <= i < s.len() ==> text::white(#[trigger] s[i]),
    ensures
        visible(s) == Seq::<char>::empty(),
    decreases s.len(),
{
    if s.len() > 0 {
        assert(text::white(s[s.len() - 1]));
        lemma_visible_white(s.drop_last());
    }
}

/// Trimming the end takes nothing visible away.
proof fn lemma_visible_trim_end(s: Seq<char>)
    ensures
        visible(text::trim_end(s)) == visible(s),
    decreases s.len(),
{
    if s.len() > 0 && text::white(s.last()) {
        lemma_visible_trim_end(s.drop_last());
    }
}

/// Trimming the start takes nothing visible away.
proof fn lemma_visible_trim_start(s: Seq<char>)
    ensures
        visible(text::trim_start(s)) == visible(s),
    decreases s.len(),
{
    if s.len() > 0 && text::white(s[0]) {
        lemma_visible_trim_start(s.drop_first());
        let first = seq![s[0]];
        assert(s == first + s.drop_first());
        lemma_visible_add(first, s.drop_first());
        lemma_visible_white(first);
        assert(visible(s) == visible(s.drop_first()));
    }
}

/// Trimming takes nothing visible away.
pub proof fn lemma_visible_trim(s: Seq<char>)
    ensures
        visible(text::trim(s)) == visible(s),
{
    lemma_visible_trim_start(s);
    lemma_visible_trim_end(text::trim_start(s));
}

/// White space at the end changes nothing about the trimmed text.
pub proof fn lemma_trim_end_add_white(s: Seq<char>, w: Seq<char>)
    requires
        forall|i: int| 0 <= i < w.len() ==> text::white(#[trigger] w[i]),
    ensures
        text::trim_end(s + w) == text::trim_end(s),
    decreases w.len(),
{
    if w.len() == 0 {
        assert(s + w == s);
    } else {
        assert(text::white(w[w.len() - 1]));
        assert((s + w).last() == w.last());
        assert((s + w).drop_last() == s + w.drop_last());
        lemma_trim_end_add_white(s, w.drop_last());
    }
}

/// White space behind a text changes nothing about it once it is trimmed.
proof fn lemma_trim_add_white(s: Seq<char>, w: Seq<char>)
    requires
        forall|i: int| 0 <= i < w.len() ==> text::white(#[trigger] w[i]),
    ensures
        text::trim(s + w) == text::trim(s),
    decreases s.len(),
{
    if s.len() == 0 {
        assert(s + w =~= w);
        lemma_trim_start_white(w);
    } else if text::white(s[0]) {
        assert((s + w).drop_first() =~= s.drop_first() + w);
        lemma_trim_add_white(s.drop_first(), w);
    } else {
        lemma_trim_end_add_white(s, w);
    }
}

/// Nothing is left of white space.
pub proof fn lemma_trim_start_white(w: Seq<char>)
    requires
        forall|i: int| 0 <= i < w.len() ==> text::white(#[trigger] w[i]),
    ensures
        text::trim_start(w) == Seq::<char>::empty(),
    decreases w.len(),
{
    if w.len() > 0 {
        assert(text::white(w[0]));
        lemma_trim_start_white(w.drop_first());
    } else {
        assert(w =~= Seq::<char>::empty());
    }
}

// ---------------------------------------------------------------------------
// What every event keeps
// ---------------------------------------------------------------------------

/// What holds between two events: the documents are sound and come before the
/// current section and chunk, the headings are nested, and the pending text,
/// trimmed, is not too far over the limit.
spec fn sound(src: ChunkSource, st: ChunkState, marks: Seq<(nat, nat)>, slack: nat) -> bool {
    &&& documents_sound(src, st.docs, marks, slack)
    &&& forall|i: int|
        0 <= i < marks.len() ==> mark_less(#[trigger] marks[i], (st.section, st.chunk))
    &&& nested(st.headings)
    &&& text::utf8_len(text::trim(st.pending)) <= MAX_CHUNK_CHARS + slack
}

/// A document more keeps the documents sound.
proof fn lemma_flushed(
    src: ChunkSource,
    st: ChunkState,
    marks: Seq<(nat, nat)>,
    slack: nat,
) -> (more: Seq<(nat, nat)>)
    requires
        sound(src, st, marks, slack),
    ensures
        documents_sound(src, markdown::flushed(src, st).docs, more, slack),
        forall|i: int|
            0 <= i < more.len() ==> mark_less(#[trigger] more[i], (st.section, st.chunk + 1)),
        forall|i: int|
            0 <= i < more.len() ==> mark_less(#[trigger] more[i], (st.section + 1, 0)),
        visible_texts(markdown::flushed(src, st).docs) == visible_texts(st.docs) + visible(
            st.pending,
        ),
{
    let body = text::trim(st.pending);
    lemma_visible_trim(st.pending);
    if body.len() == 0 {
        assert(visible(st.pending) == Seq::<char>::empty());
        assert(visible_texts(st.docs) + visible(st.pending) == visible_texts(st.docs));
        marks
    } else {
        let doc = markdown::chunk_document(src, st, body);
        let docs = st.docs.push(doc);
        let more = marks.push((st.section, st.chunk));
        text::lemma_trim_idempotent(st.pending);
        assert forall|i: int| 0 <= i < docs.len() implies document_sound(
            src,
            #[trigger] docs[i],
            more[i],
            slack,
        ) by {
            if i < st.docs.len() {
                assert(document_sound(src, st.docs[i], marks[i], slack));
            }
        }
        assert(docs.drop_last() == st.docs);
        more
    }
}

/// Splitting off a chunk keeps the invariant, with nothing pending.
proof fn lemma_split_off(
    src: ChunkSource,
    st: ChunkState,
    marks: Seq<(nat, nat)>,
    slack: nat,
) -> (more: Seq<(nat, nat)>)
    requires
        sound(src, st, marks, slack),
    ensures
        sound(src, markdown::split_off(src, st), more, slack),
        visible_texts(markdown::split_off(src, st).docs) == visible_texts(st.docs) + visible(
            st.pending,
        ),
{
    assert(text::trim(Seq::<char>::empty()) == Seq::<char>::empty());
    lemma_flushed(src, st, marks, slack)
}

/// Putting out a text in pieces keeps the invariant, with nothing pending, and
/// leaves an open piece within the limit.
proof fn lemma_in_pieces(
    src: ChunkSource,
    st: ChunkState,
    t: Seq<char>,
    marks: Seq<(nat, nat)>,
    slack: nat,
) -> (more: Seq<(nat, nat)>)
    requires
        sound(src, st, marks, slack),
        st.pending.len() == 0,
    ensures
        ({
            let (after, piece) = markdown::in_pieces(src, st, t);
            &&& sound(src, after, more, slack)
            &&& after.pending.len() == 0
            &&& after.headings == st.headings
            &&& after.in_heading == st.in_heading
            &&& text::utf8_len(piece) <= MAX_CHUNK_CHARS
            &&& visible_texts(after.docs) + visible(piece) == visible_texts(st.docs) + visible(t)
        }),
    decreases t.len(),
{
    let init = t.drop_last();
    if t.len() == 0 {
        marks
    } else {
        let more = lemma_in_pieces(src, st, init, marks, slack);
        let (before, piece) = markdown::in_pieces(src, st, init);
        let c = t.last();
        assert(t == init.push(c));
        assert(init.push(c) == init + seq![c]);
        lemma_visible_add(init, seq![c]);
        if text::utf8_len(piece) + text::char_width(c) > MAX_CHUNK_CHARS {
            let full = markdown::extended(before, piece);
            assert(full.pending == piece);
            text::lemma_trim_shorter(piece);
            let next = lemma_split_off(src, full, more, slack);
            assert(seq![c].drop_last() == Seq::<char>::empty());
            assert(text::utf8_len(seq![c]) == text::char_width(c)) by {
                reveal_with_fuel(text::utf8_len, 2);
            }
            assert(visible_texts(st.docs) + visible(t) == (visible_texts(st.docs) + visible(init))
                + visible(seq![c]));
            next
        } else {
            assert(piece.push(c).drop_last() == piece);
            assert(piece.push(c) == piece + seq![c]);
            lemma_visible_add(piece, seq![c]);
            assert(visible_texts(before.docs) + visible(piece.push(c)) == (visible_texts(
                before.docs,
            ) + visible(piece)) + visible(seq![c]));
            assert(visible_texts(st.docs) + visible(t) == (visible_texts(st.docs) + visible(init))
                + visible(seq![c]));
            more
        }
    }
}

/// Adding text keeps the invariant and leaves the pending text within the limit.
proof fn lemma_appended(
    src: ChunkSource,
    st: ChunkState,
    t: Seq<char>,
    marks: Seq<(nat, nat)>,
    slack: nat,
) -> (more: Seq<(nat, nat)>)
    requires
        sound(src, st, marks, slack),
    ensures
        ({
            let after = markdown::appended(src, st, t);
            &&& sound(src, after, more, slack)
            &&& after.headings == st.headings
            &&& after.in_heading == st.in_heading
            &&& visible_texts(after.docs) + visible(after.pending) == visible_texts(st.docs)
                + visible(st.pending) + visible(t)
        }),
{
    let none = Seq::<char>::empty();
    if text::utf8_len(t) <= MAX_CHUNK_CHARS {
        let ready = markdown::split_if_full(src, st, text::utf8_len(t));
        let more = if st.pending.len() > 0 && text::utf8_len(st.pending) + text::utf8_len(t)
            > MAX_CHUNK_CHARS {
            lemma_split_off(src, st, marks, slack)
        } else {
            marks
        };
        let after = markdown::extended(ready, t);
        text::lemma_utf8_len_add(ready.pending, t);
        lemma_visible_add(ready.pending, t);
        text::lemma_trim_shorter(after.pending);
        if ready.pending.len() == 0 {
            assert(after.pending == t);
            assert(visible(ready.pending) == none);
        }
        assert(visible_texts(after.docs) + visible(after.pending) == (visible_texts(ready.docs)
            + visible(ready.pending)) + visible(t));
        assert(visible_texts(ready.docs) + none == visible_texts(ready.docs));
        more
    } else {
        let cleared = if st.pending.len() > 0 {
            markdown::split_off(src, st)
        } else {
            st
        };
        let next = if st.pending.len() > 0 {
            lemma_split_off(src, st, marks, slack)
        } else {
            marks
        };
        assert(cleared.pending == none);
        assert(visible(none) == none);
        assert(visible_texts(st.docs) + none == visible_texts(st.docs));
        let more = lemma_in_pieces(src, cleared, t, next, slack);
        let (before, piece) = markdown::in_pieces(src, cleared, t);
        let after = markdown::extended(before, piece);
        assert(after.pending == piece);
        text::lemma_trim_shorter(piece);
        more
    }
}

/// The headings above a new one are those of a lower level.
proof fn lemma_enclosing(headings: Seq<(u8, Seq<char>)>, level: u8)
    requires
        nested(headings),
    ensures
        nested(markdown::enclosing(headings, level)),
        forall|a: int|
            0 <= a < markdown::enclosing(headings, level).len() ==> (#[trigger] markdown::enclosing(
                headings,
                level,
            )[a]).0 < level,
    decreases headings.len(),
{
    if headings.len() > 0 && headings.last().0 >= level {
        lemma_enclosing(headings.drop_last(), level);
    } else if headings.len() > 0 {
        assert forall|a: int| 0 <= a < headings.len() implies (#[trigger] headings[a]).0 < level by {
            if a < headings.len() - 1 {
                assert(headings[a].0 < headings[headings.len() - 1].0);
            }
        }
    }
}

/// Separators are white space behind the pending text.
proof fn lemma_separator(st: ChunkState, w: Seq<char>)
    requires
        forall|i: int| 0 <= i < w.len() ==> text::white(#[trigger] w[i]),
    ensures
        text::trim(markdown::extended(st, w).pending) == text::trim(st.pending),
        visible(markdown::extended(st, w).pending) == visible(st.pending),
{
    lemma_trim_add_white(st.pending, w);
    lemma_visible_add(st.pending, w);
    lemma_visible_white(w);
    assert(visible(st.pending) + Seq::<char>::empty() == visible(st.pending));
}

/// A list marker is one visible character.
proof fn lemma_marker(pending: Seq<char>)
    ensures
        visible(markdown::item_marker(pending)) == seq!['-'],
{
    reveal_strlit("- ");
    reveal_strlit("\n- ");
    let none = Seq::<char>::empty();
    assert("- "@ =~= none.push('-').push(' '));
    assert("\n- "@ =~= none.push('\n').push('-').push(' '));
    assert(none.push('-').push(' ').drop_last() =~= none.push('-'));
    assert(none.push('-').drop_last() =~= none);
    assert(none.push('\n').push('-').push(' ').drop_last() =~= none.push('\n').push('-'));
    assert(none.push('\n').push('-').drop_last() =~= none.push('\n'));
    assert(none.push('\n').drop_last() =~= none);
    reveal_with_fuel(visible, 4);
    assert(none.push('-') =~= seq!['-']);
}

/// The visible characters of the documents and of the pending text.
spec fn carried(st: ChunkState) -> Seq<char> {
    visible_texts(st.docs) + visible(st.pending)
}

/// Making room keeps the invariant.
proof fn lemma_split_if_full(
    src: ChunkSource,
    st: ChunkState,
    incoming: nat,
    marks: Seq<(nat, nat)>,
    slack: nat,
) -> (more: Seq<(nat, nat)>)
    requires
        sound(src, st, marks, slack),
    ensures
        sound(src, markdown::split_if_full(src, st, incoming), more, slack),
        carried(markdown::split_if_full(src, st, incoming)) == carried(st),
        visible(st.pending).len() == 0 ==> visible(
            markdown::split_if_full(src, st, incoming).pending,
        ).len() == 0,
{
    if st.pending.len() > 0 && text::utf8_len(st.pending) + incoming > MAX_CHUNK_CHARS {
        let more = lemma_split_off(src, st, marks, slack);
        let after = markdown::split_off(src, st);
        assert(visible(after.pending) == Seq::<char>::empty());
        assert(carried(after) == visible_texts(after.docs));
        more
    } else {
        marks
    }
}

/// What one event does to the visible characters.
spec fn visible_step(
    st: ChunkState,
    after: ChunkState,
    event: EventView,
) -> bool {
    let plain = match event {
        EventView::HeadingEnd => st.in_heading,
        EventView::Markup(_) | EventView::InlineMarkup(_) | EventView::ItemStart => !st.in_heading,
        _ => true,
    };
    plain && (st.in_heading ==> visible(st.pending).len() == 0) ==> {
        &&& (after.in_heading ==> visible(after.pending).len() == 0)
        &&& carried(after) == if st.in_heading {
            carried(st)
        } else {
            carried(st) + brought(event)
        }
    }
}

/// Every event keeps the invariant, and the visible characters it brings are
/// carried on.
proof fn lemma_event(
    src: ChunkSource,
    st: ChunkState,
    event: EventView,
    start: usize,
    end: usize,
    marks: Seq<(nat, nat)>,
    slack: nat,
) -> (more: Seq<(nat, nat)>)
    requires
        sound(src, st, marks, slack),
        event is ItemStart ==> slack >= CHUNK_SLACK,
    ensures
        ({
            let after = markdown::after_event(src, st, event, start, end);
            &&& after.in_heading == (event is HeadingStart || (st.in_heading && event !is HeadingEnd))
            &&& visible_step(st, after, event)
            &&& sound(src, after, more, slack)
        }),
{
    let none = Seq::<char>::empty();
    assert(text::trim(none) == none);
    assert(visible(none) == none);
    let after = markdown::after_event(src, st, event, start, end);
    assert(carried(st) + none == carried(st));
    match event {
        EventView::HeadingStart(level) => {
            let more = lemma_flushed(src, st, marks, slack);
            assert(carried(after) == visible_texts(after.docs));
            more
        },
        EventView::HeadingEnd => {
            lemma_enclosing(st.headings, st.heading_level);
            assert(visible(st.pending).len() == 0 ==> visible(st.pending) == none);
            marks
        },
        EventView::Content(t) | EventView::InlineCode(t) => {
            if st.in_heading {
                marks
            } else if st.pending.len() == 0 {
                let moved = ChunkState { pending_start: start, ..st };
                lemma_appended(src, moved, t, marks, slack)
            } else {
                lemma_appended(src, st, t, marks, slack)
            }
        },
        EventView::ParagraphStart | EventView::ListStart => {
            lemma_split_if_full(src, st, 1, marks, slack)
        },
        EventView::ParagraphEnd | EventView::CodeEnd | EventView::ListEnd => {
            reveal_strlit("\n\n");
            let w = "\n\n"@;
            assert(w =~= seq!['\n', '\n']);
            lemma_separator(st, w);
            marks
        },
        EventView::CodeStart => {
            reveal_strlit("\n");
            let w = "\n"@;
            assert(w =~= seq!['\n']);
            let ready = markdown::split_if_full(src, st, 1);
            let more = lemma_split_if_full(src, st, 1, marks, slack);
            lemma_separator(ready, w);
            more
        },
        EventView::ItemStart => {
            let marked = text::trim(st.pending + markdown::item_marker(st.pending));
            if text::utf8_len(marked) > MAX_CHUNK_CHARS + CHUNK_SLACK {
                let more = lemma_split_off(src, st, marks, slack);
                let ready = markdown::split_off(src, st);
                let marker = markdown::item_marker(none);
                lemma_marker(none);
                markdown::lemma_marker_len(none);
                text::lemma_trim_shorter(marker);
                assert(after.pending =~= marker);
                assert(carried(after) == carried(st) + seq!['-']);
                more
            } else {
                lemma_marker(st.pending);
                lemma_visible_add(st.pending, markdown::item_marker(st.pending));
                assert(carried(after) == carried(st) + seq!['-']);
                marks
            }
        },
        EventView::SoftLine | EventView::HardLine => {
            reveal_strlit(" ");
            if st.in_heading {
                marks
            } else {
                assert(" "@ =~= seq![' ']);
                lemma_visible_white(" "@);
                lemma_appended(src, st, " "@, marks, slack)
            }
        },
        EventView::Markup(t) | EventView::InlineMarkup(t) => {
            reveal_strlit("\n");
            assert("\n"@ =~= seq!['\n']);
            lemma_visible_white("\n"@);
            lemma_visible_trim(t);
            lemma_visible_add(text::trim(t), "\n"@);
            assert(visible(t) + none == visible(t));
            lemma_appended(src, st, text::trim(t) + "\n"@, marks, slack)
        },
        EventView::Other => marks,
    }
}

/// What holds after any events.
proof fn lemma_events(
    src: ChunkSource,
    events: Seq<(EventView, usize, usize)>,
    slack: nat,
) -> (marks: Seq<(nat, nat)>)
    requires
        slack >= CHUNK_SLACK || no_items(events),
    ensures
        sound(src, markdown::after_events(src, events), marks, slack),
        markdown::after_events(src, events).in_heading == heading_open(events),
        plain_headings(events) ==> carried(markdown::after_events(src, events)) == visible_content(
            events,
        ) && (heading_open(events) ==> visible(
            markdown::after_events(src, events).pending,
        ).len() == 0),
    decreases events.len(),
{
    if events.len() == 0 {
        let none = Seq::<char>::empty();
        assert(text::trim(none) == none);
        assert(visible(none) == none);
        Seq::empty()
    } else {
        let before = events.drop_last();
        if no_items(events) {
            assert forall|i: int| 0 <= i < before.len() implies (#[trigger] before[i]).0 !is ItemStart by {
                assert(events[i].0 !is ItemStart);
            }
            assert(events[events.len() - 1].0 !is ItemStart);
        }
        let marks = lemma_events(src, before, slack);
        let st = markdown::after_events(src, before);
        let (event, start, end) = events.last();
        let more = lemma_event(src, st, event, start, end, marks, slack);
        let after = markdown::after_events(src, events);
        assert(visible_step(st, after, event));
        if !heading_open(before) {
            assert(carried(st) + Seq::<char>::empty() == carried(st));
        }
        more
    }
}

// ---------------------------------------------------------------------------
// The laws
// ---------------------------------------------------------------------------

/// The headings above any place of a file are nested: their levels increase
/// from the outermost to the innermost.
pub proof fn law_headings_nested(src: ChunkSource, events: Seq<(EventView, usize, usize)>)
    ensures
        nested(markdown::after_events(src, events).headings),
{
    let _ = lemma_events(src, events, CHUNK_SLACK as nat);
}

/// A heading that ends becomes the innermost one, below the headings of lower
/// levels that were open before it.
pub proof fn law_heading_takes_its_place(
    src: ChunkSource,
    events: Seq<(EventView, usize, usize)>,
    start: usize,
    end: usize,
)
    ensures
        ({
            let before = markdown::after_events(src, events);
            let after = markdown::after_events(
                src,
                events.push((EventView::HeadingEnd, start, end)),
            );
            &&& after.headings.len() > 0
            &&& after.headings.last() == (before.heading_level, text::trim(before.heading_text))
            &&& forall|a: int|
                0 <= a < after.headings.len() - 1 ==> (#[trigger] after.headings[a]).0
                    < before.heading_level && after.headings[a] == before.headings[a]
        }),
{
    let _ = lemma_events(src, events, CHUNK_SLACK as nat);
    let more = events.push((EventView::HeadingEnd, start, end));
    assert(more.drop_last() == events);
    let before = markdown::after_events(src, events);
    lemma_enclosing(before.headings, before.heading_level);
    lemma_enclosing_prefix(before.headings, before.heading_level);
}

/// One event on any state with nested headings: the headings stay nested; the end
/// of a heading puts it below those of lower levels, which stay; any other event
/// leaves the headings as they are.
pub proof fn law_event_keeps_headings(
    src: ChunkSource,
    st: ChunkState,
    event: EventView,
    start: usize,
    end: usize,
)
    requires
        nested(st.headings),
    ensures
        ({
            let after = markdown::after_event(src, st, event, start, end);
            &&& nested(after.headings)
            &&& event is HeadingEnd ==> after.headings == st.headings.filter(
                |h: (u8, Seq<char>)| h.0 < st.heading_level,
            ).push((st.heading_level, text::trim(st.heading_text)))
            &&& event !is HeadingEnd ==> after.headings == st.headings
        }),
{
    lemma_enclosing(st.headings, st.heading_level);
    lemma_enclosing_filter(st.headings, st.heading_level);
    if let EventView::Content(t) = event {
        lemma_pieces_keep_headings(src, st, t);
        lemma_pieces_keep_headings(src, ChunkState { pending_start: start, ..st }, t);
    }
    if let EventView::InlineCode(t) = event {
        lemma_pieces_keep_headings(src, st, t);
        lemma_pieces_keep_headings(src, ChunkState { pending_start: start, ..st }, t);
    }
    if let EventView::Markup(t) = event {
        lemma_pieces_keep_headings(src, st, text::trim(t) + "\n"@);
    }
    if let EventView::InlineMarkup(t) = event {
        lemma_pieces_keep_headings(src, st, text::trim(t) + "\n"@);
    }
    lemma_pieces_keep_headings(src, st, " "@);
}

/// Adding text leaves the headings as they are.
proof fn lemma_pieces_keep_headings(src: ChunkSource, st: ChunkState, t: Seq<char>)
    ensures
        markdown::in_pieces(src, st, t).0.headings == st.headings,
        markdown::appended(src, st, t).headings == st.headings,
    decreases t.len(),
{
    lemma_in_pieces_headings(src, st, t);
    lemma_in_pieces_headings(src, markdown::split_off(src, st), t);
}

/// Putting out a text in pieces leaves the headings as they are.
proof fn lemma_in_pieces_headings(src: ChunkSource, st: ChunkState, t: Seq<char>)
    ensures
        markdown::in_pieces(src, st, t).0.headings == st.headings,
    decreases t.len(),
{
    if t.len() > 0 {
        lemma_in_pieces_headings(src, st, t.drop_last());
    }
}

/// The headings above a new one are exactly those of a lower level.
proof fn lemma_enclosing_filter(headings: Seq<(u8, Seq<char>)>, level: u8)
    requires
        nested(headings),
    ensures
        markdown::enclosing(headings, level) == headings.filter(
            |h: (u8, Seq<char>)| h.0 < level,
        ),
    decreases headings.len(),
{
    reveal(Seq::filter);
    if headings.len() > 0 {
        let init = headings.drop_last();
        lemma_enclosing_filter(init, level);
        if headings.last().0 < level {
            assert forall|a: int| 0 <= a < init.len() implies (#[trigger] init[a]).0 < level by {
                assert(headings[a].0 < headings[headings.len() - 1].0);
            }
            lemma_none_enclosed(init, level);
            assert(init.push(headings.last()) =~= headings);
        }
    }
}

/// Where all headings are of lower levels, all enclose the new one.
proof fn lemma_none_enclosed(headings: Seq<(u8, Seq<char>)>, level: u8)
    requires
        forall|a: int| 0 <= a < headings.len() ==> (#[trigger] headings[a]).0 < level,
    ensures
        markdown::enclosing(headings, level) == headings,
{
    if headings.len() > 0 {
        assert(headings[headings.len() - 1].0 < level);
    }
}

/// The headings above a new one are leading headings of those open before.
proof fn lemma_enclosing_prefix(headings: Seq<(u8, Seq<char>)>, level: u8)
    ensures
        markdown::enclosing(headings, level).len() <= headings.len(),
        forall|a: int|
            0 <= a < markdown::enclosing(headings, level).len() ==> #[trigger] markdown::enclosing(
                headings,
                level,
            )[a] == headings[a],
    decreases headings.len(),
{
    if headings.len() > 0 && headings.last().0 >= level {
        lemma_enclosing_prefix(headings.drop_last(), level);
    }
}

/// Every chunk names its package and file, has the title of its innermost
/// heading or of the file, and holds a trimmed text that is not empty and at most
/// `CHUNK_SLACK` bytes over the limit. Each chunk belongs to a later section, or
/// is a later chunk of its section, than those before it.
pub proof fn law_chunks_sound(src: ChunkSource, events: Seq<(EventView, usize, usize)>) -> (marks:
    Seq<(nat, nat)>)
    ensures
        documents_sound(src, markdown::chunks_of(src, events), marks, CHUNK_SLACK as nat),
{
    let marks = lemma_events(src, events, CHUNK_SLACK as nat);
    lemma_flushed(src, markdown::after_events(src, events), marks, CHUNK_SLACK as nat)
}

/// No chunk takes more than 4000 bytes, and the three of a list marker.
pub proof fn law_chunks_bounded(src: ChunkSource, events: Seq<(EventView, usize, usize)>)
    ensures
        forall|i: int|
            0 <= i < markdown::chunks_of(src, events).len() ==> text::utf8_len(
                (#[trigger] markdown::chunks_of(src, events)[i]).text,
            ) <= 4003,
{
    let marks = law_chunks_sound(src, events);
    let docs = markdown::chunks_of(src, events);
    assert forall|i: int| 0 <= i < docs.len() implies text::utf8_len((#[trigger] docs[i]).text)
        <= MAX_CHUNK_CHARS + CHUNK_SLACK by {
        assert(document_sound(src, docs[i], marks[i], CHUNK_SLACK as nat));
    }
}

/// Without list items no chunk takes more than 4000 bytes.
pub proof fn law_chunks_within_limit(src: ChunkSource, events: Seq<(EventView, usize, usize)>)
    requires
        no_items(events),
    ensures
        forall|i: int|
            0 <= i < markdown::chunks_of(src, events).len() ==> text::utf8_len(
                (#[trigger] markdown::chunks_of(src, events)[i]).text,
            ) <= 4000,
{
    let marks = lemma_events(src, events, 0);
    let more = lemma_flushed(src, markdown::after_events(src, events), marks, 0);
    let docs = markdown::chunks_of(src, events);
    assert forall|i: int| 0 <= i < docs.len() implies text::utf8_len((#[trigger] docs[i]).text)
        <= MAX_CHUNK_CHARS by {
        assert(document_sound(src, docs[i], more[i], 0));
    }
}

/// Nothing that can be seen is lost: the visible characters of the chunks, one
/// after another, are those that the text brings outside its headings.
pub proof fn law_nothing_lost(src: ChunkSource, events: Seq<(EventView, usize, usize)>)
    requires
        plain_headings(events),
    ensures
        visible_texts(markdown::chunks_of(src, events)) == visible_content(events),
{
    let marks = lemma_events(src, events, CHUNK_SLACK as nat);
    let _ = lemma_flushed(src, markdown::after_events(src, events), marks, CHUNK_SLACK as nat);
}

/// Two chunks of one file have different identities.
pub proof fn law_chunk_identities_differ(src: ChunkSource, a: (nat, nat), b: (nat, nat))
    requires
        a != b,
    ensures
        ids::identity_text(markdown::chunk_identity(src, a.0, a.1)) != ids::identity_text(
            markdown::chunk_identity(src, b.0, b.1),
        ),
{
    let x = ids::identity_text(markdown::chunk_identity(src, a.0, a.1));
    let y = ids::identity_text(markdown::chunk_identity(src, b.0, b.1));
    if x == y {
        let sep = ids::unit_separator();
        let head = ids::identity_text(
            seq![src.package.package_id, src.file.kind.name(), src.file.rel_path],
        );
        lemma_identity_shape(src, a, head);
        lemma_identity_shape(src, b, head);
        let p = head + seq![sep];
        let u = pieces::decimal(a.0) + seq![sep] + pieces::decimal(a.1);
        let v = pieces::decimal(b.0) + seq![sep] + pieces::decimal(b.1);
        assert(x.skip(p.len() as int) == u);
        assert(y.skip(p.len() as int) == v);
        lemma_digits_before_separator(a.0, a.1);
        lemma_digits_before_separator(b.0, b.1);
        assert(u.take(pieces::decimal(a.0).len() as int) == pieces::decimal(a.0));
        assert(v.take(pieces::decimal(b.0).len() as int) == pieces::decimal(b.0));
        pieces::lemma_decimal_injective(a.0, b.0);
        let n = pieces::decimal(a.0).len() + 1;
        assert(u.skip(n as int) == pieces::decimal(a.1));
        assert(v.skip(n as int) == pieces::decimal(b.1));
        pieces::lemma_decimal_injective(a.1, b.1);
    }
}

/// No two chunks of a file have the same identity, from which the id is made.
pub proof fn law_chunks_distinct(src: ChunkSource, events: Seq<(EventView, usize, usize)>) -> (identities:
    Seq<Seq<Seq<char>>>)
    ensures
        identities.len() == markdown::chunks_of(src, events).len(),
        forall|i: int|
            0 <= i < identities.len() ==> (#[trigger] markdown::chunks_of(src, events)[i]).id
                == ids::identity_id(identities[i]),
        forall|i: int, j: int|
            0 <= i < j < identities.len() ==> ids::identity_text(#[trigger] identities[i])
                != ids::identity_text(#[trigger] identities[j]),
{
    let marks = law_chunks_sound(src, events);
    let docs = markdown::chunks_of(src, events);
    let identities = Seq::new(
        docs.len(),
        |i: int| markdown::chunk_identity(src, marks[i].0, marks[i].1),
    );
    assert forall|i: int| 0 <= i < identities.len() implies (#[trigger] docs[i]).id
        == ids::identity_id(identities[i]) by {
        assert(document_sound(src, docs[i], marks[i], CHUNK_SLACK as nat));
    }
    assert forall|i: int, j: int| 0 <= i < j < identities.len() implies ids::identity_text(
        #[trigger] identities[i],
    ) != ids::identity_text(#[trigger] identities[j]) by {
        assert(mark_less(marks[i], marks[j]));
        law_chunk_identities_differ(src, marks[i], marks[j]);
    }
    identities
}

/// The identity text of a chunk: what the file has in common, then section and
/// chunk.
proof fn lemma_identity_shape(src: ChunkSource, m: (nat, nat), head: Seq<char>)
    requires
        head == ids::identity_text(
            seq![src.package.package_id, src.file.kind.name(), src.file.rel_path],
        ),
    ensures
        ids::identity_text(markdown::chunk_identity(src, m.0, m.1)) == (head
            + seq![ids::unit_separator()]) + (pieces::decimal(m.0) + seq![ids::unit_separator()]
            + pieces::decimal(m.1)),
{
    let sep = seq![ids::unit_separator()];
    let parts = markdown::chunk_identity(src, m.0, m.1);
    let four = parts.drop_last();
    let three = four.drop_last();
    assert(three == seq![src.package.package_id, src.file.kind.name(), src.file.rel_path]);
    assert(four.last() == pieces::decimal(m.0));
    assert(parts.last() == pieces::decimal(m.1));
    assert(words::join(four, sep) == words::join(three, sep) + sep + pieces::decimal(m.0));
    assert(words::join(parts, sep) == words::join(four, sep) + sep + pieces::decimal(m.1));
    assert((head + sep + pieces::decimal(m.0)) + sep + pieces::decimal(m.1) == (head + sep) + (
    pieces::decimal(m.0) + sep + pieces::decimal(m.1)));
}

/// Digits, separator, digits: the separator is the first one behind the first
/// digits.
proof fn lemma_digits_before_separator(m: nat, n: nat)
    ensures
        pieces::first_index(
            pieces::decimal(m) + seq![ids::unit_separator()] + pieces::decimal(n),
            ids::unit_separator(),
        ) == Some(pieces::decimal(m).len() as int),
{
    let sep = ids::unit_separator();
    let all = pieces::decimal(m) + seq![sep] + pieces::decimal(n);
    let at = pieces::decimal(m).len() as int;
    pieces::lemma_decimal_digits(m);
    pieces::lemma_first_index(all, sep);
    assert(all[at] == sep);
    assert forall|k: int| 0 <= k < at implies all[k] != sep by {
        assert(all[k] == pieces::decimal(m)[k]);
    }
}

} // verus!
