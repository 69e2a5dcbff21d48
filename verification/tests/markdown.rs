//! Chunking of Markdown files.
use std::collections::HashSet;

use rust_knowledge::document::{KnowledgeDocument, PackageIdentity, SourceKind, SourceSpan};
use rust_knowledge::ids::DocumentId;
use rust_knowledge::markdown::{
    chunk_events, chunk_markdown, file_title, MarkdownEvent, MarkdownFile, CHUNK_SLACK,
    MAX_CHUNK_CHARS,
};

fn pkg() -> PackageIdentity {
    PackageIdentity {
        package_id: "test#pkg@1.0.0".into(),
        name: "pkg".into(),
        version: "1.0.0".into(),
        source: None,
        manifest_path: "/tmp/pkg/Cargo.toml".into(),
    }
}

fn md_file(rel: &str, kind: SourceKind) -> MarkdownFile {
    MarkdownFile { rel_path: rel.into(), abs_path: format!("/tmp/pkg/{rel}"), kind }
}

fn chunks(text: &str) -> Vec<KnowledgeDocument> {
    chunk_markdown(&pkg(), &md_file("README.md", SourceKind::CrateReadme), text)
}

#[test]
fn sections_retain_heading_ancestry() {
    let docs = chunks(
        "# Runtime\nintro text\n\n## CPU-bound work\noffload it.\n\n### details\nmore details.\n",
    );
    assert_eq!(docs.len(), 3);
    assert_eq!(docs[0].section_path, vec!["Runtime"]);
    assert!(docs[0].text.contains("intro text"));
    assert_eq!(docs[1].section_path, vec!["Runtime", "CPU-bound work"]);
    assert!(docs[1].text.contains("offload it."));
    assert_eq!(docs[2].section_path, vec!["Runtime", "CPU-bound work", "details"]);
    assert_eq!(docs[2].title, "details");
}

#[test]
fn preamble_is_its_own_chunk() {
    let docs = chunks("leading text before any heading\n\n# Section\nbody\n");
    assert_eq!(docs.len(), 2);
    assert!(docs[0].section_path.is_empty());
    assert_eq!(docs[0].title, "README");
    assert!(docs[0].text.contains("leading text"));
    assert_eq!(docs[1].section_path, vec!["Section"]);
}

#[test]
fn sibling_headings_close_the_previous_section() {
    let docs = chunks("# A\ntext a\n\n# B\ntext b\n");
    assert_eq!(docs.len(), 2);
    assert_eq!(docs[1].section_path, vec!["B"]);
}

#[test]
fn oversized_single_event_is_split_at_char_boundaries() {
    // One paragraph of multibyte text, larger than a chunk, without any block
    // boundary to cut at.
    let text = format!("# Big\n\n{}\n", "\u{e4}".repeat(3_000));
    let docs = chunks(&text);
    assert!(docs.len() >= 2, "expected a split, got {} chunks", docs.len());
    for doc in &docs {
        assert!(doc.text.len() <= MAX_CHUNK_CHARS, "chunk is {} bytes", doc.text.len());
        assert_eq!(doc.section_path, vec!["Big"]);
        assert!(doc.text.chars().all(|c| c == '\u{e4}'), "split mid-character");
    }
    // Splitting is deterministic: same input, same ids.
    let again = chunks(&text);
    assert_eq!(docs, again);
}

#[test]
fn oversized_ascii_event_is_split() {
    let text = format!("# Big\n\n{}\n", "a".repeat(9_000));
    let docs = chunks(&text);
    assert!(docs.len() >= 2, "got {} chunks", docs.len());
    for doc in &docs {
        assert!(doc.text.len() <= MAX_CHUNK_CHARS + 3, "chunk is {} bytes", doc.text.len());
    }
    let ids: HashSet<&DocumentId> = docs.iter().map(|d| &d.id).collect();
    assert_eq!(ids.len(), docs.len(), "split chunks must have unique ids");
}

#[test]
fn oversized_section_splits_with_ancestry_kept() {
    let para = "0123456789 ".repeat(30);
    let mut text = String::from("# Big\n\n");
    for _ in 0..30 {
        text.push_str(&para);
        text.push_str("\n\n");
    }
    let docs = chunks(&text);
    assert!(docs.len() > 1, "expected multiple chunks, got {}", docs.len());
    for doc in &docs {
        assert_eq!(doc.section_path, vec!["Big"]);
    }
    // Deterministic split: same input, same ids.
    let docs2 = chunks(&text);
    assert_eq!(docs, docs2);
}

#[test]
fn ids_are_stable_across_rebuilds() {
    let a = chunks("# A\nbody\n");
    let b = chunks("# A\nbody\n");
    assert_eq!(a[0].id, b[0].id);
}

#[test]
fn code_blocks_are_kept() {
    let docs = chunks("# Usage\n\n```rust\nlet w = Writer::new();\n```\n");
    assert_eq!(docs.len(), 1);
    assert!(docs[0].text.contains("let w = Writer::new();"));
}

#[test]
fn heading_level_skips_are_handled() {
    let docs = chunks("# A\n\ntext\n\n### Deep\n\nmore\n");
    assert_eq!(docs.len(), 2);
    assert_eq!(docs[1].section_path, vec!["A", "Deep"]);
}

#[test]
fn file_title_is_stem() {
    assert_eq!(file_title("docs/guide.md"), "guide");
    assert_eq!(file_title("README.markdown"), "README");
}

#[test]
fn file_title_edges() {
    assert_eq!(file_title(""), "");
    assert_eq!(file_title("docs/"), "");
    assert_eq!(file_title("a.md.md"), "a");
    assert_eq!(file_title("a.markdown.md"), "a");
    assert_eq!(file_title("a.md.markdown"), "a.md");
    assert_eq!(file_title("README"), "README");
}

#[test]
fn a_chunk_shows_its_provenance() {
    let docs = chunks("# A\n\none\ntwo\n\nthree\n");
    assert_eq!(docs.len(), 1);
    let doc = &docs[0];
    assert_eq!(doc.text, "one two\n\nthree");
    assert_eq!(doc.title, "A");
    assert_eq!(doc.symbol_path, None);
    assert_eq!(doc.item_kind, None);
    assert_eq!(doc.signature, None);
    assert!(doc.related_symbols.is_empty());
    assert_eq!(doc.source_path.as_deref(), Some("/tmp/pkg/README.md"));
    assert_eq!(doc.source_kind, SourceKind::CrateReadme);
    assert_eq!(doc.package, pkg());
    let span = doc.source_span.expect("a span");
    assert_eq!(span.start_col, 1);
    assert_eq!(span.end_col, 1);
    assert!(span.start_line >= 1 && span.end_line >= span.start_line);
}

#[test]
fn empty_sections_give_no_chunk() {
    assert!(chunks("").is_empty());
    assert!(chunks("# A\n\n## B\n\n# C\n").is_empty());
    let docs = chunks("# A\n\n## B\n\nbody\n");
    assert_eq!(docs.len(), 1);
    assert_eq!(docs[0].section_path, vec!["A", "B"]);
}

#[test]
fn a_deeper_heading_is_left_by_a_shallower_one() {
    let docs = chunks("# A\n\nx\n\n## B\n\nx\n\n### C\n\nx\n\n## D\n\nx\n\n# E\n\nx\n");
    let paths: Vec<Vec<String>> = docs.iter().map(|d| d.section_path.clone()).collect();
    assert_eq!(
        paths,
        vec![vec!["A"], vec!["A", "B"], vec!["A", "B", "C"], vec!["A", "D"], vec!["E"]]
    );
    let ids: HashSet<&str> = docs.iter().map(|d| d.id.as_str()).collect();
    assert_eq!(ids.len(), 5);
}

#[test]
fn repeated_sections_have_different_ids() {
    let docs = chunks("# A\n\nsame\n\n# A\n\nsame\n");
    assert_eq!(docs.len(), 2);
    assert_eq!(docs[0].text, docs[1].text);
    assert_ne!(docs[0].id, docs[1].id);
}

#[test]
fn nothing_of_the_text_is_lost() {
    let mut text = String::from("# Big\n\n");
    for k in 0..400 {
        text.push_str(&format!("paragraph number {k} with some words\n\n"));
    }
    let docs = chunks(&text);
    assert!(docs.len() > 1);
    let all: String = docs.iter().map(|d| d.text.as_str()).collect::<Vec<&str>>().join(" ");
    for k in 0..400 {
        assert!(all.contains(&format!("paragraph number {k} with some words")), "paragraph {k}");
    }
    for doc in &docs {
        assert!(doc.text.len() <= MAX_CHUNK_CHARS + 3);
    }
}

#[test]
fn list_items_are_marked() {
    let docs = chunks("# L\n\n- one\n- two\n");
    assert_eq!(docs.len(), 1);
    assert!(docs[0].text.contains("- one"));
    assert!(docs[0].text.contains("- two"));
}

#[test]
fn list_marks_never_pass_the_bound() {
    // The mark of the next item would come to four bytes beyond the limit, so it
    // begins a chunk.
    let text = format!("- {}\n\n- next\n", "a".repeat(MAX_CHUNK_CHARS));
    let docs = chunks(&text);
    let texts: Vec<usize> = docs.iter().map(|d| d.text.len()).collect();
    assert!(texts.iter().all(|n| *n <= MAX_CHUNK_CHARS + CHUNK_SLACK), "{texts:?}");
    assert!(docs.last().is_some_and(|d| d.text == "- next"));

    // Items without content are nothing but marks.
    let docs = chunks(&"-\n".repeat(2000));
    assert!(docs.len() > 1);
    assert!(docs.iter().all(|d| d.text.len() <= MAX_CHUNK_CHARS + CHUNK_SLACK));
    let marks: usize = docs.iter().map(|d| d.text.matches('-').count()).sum();
    assert_eq!(marks, 2000);
    let ids: HashSet<&str> = docs.iter().map(|d| d.id.as_str()).collect();
    assert_eq!(ids.len(), docs.len());

    // A tight list keeps its marks where they fit.
    let docs = chunks("- one\n- two\n");
    assert_eq!(docs[0].text, "- one\n- two");
}

#[test]
fn every_chunk_names_its_file_and_has_an_id() {
    let text = "lead\n\n# A\n\nbody `code` <b>x</b>\n\n## B\n\n<div>\nblock\n</div>\n";
    let docs = chunks(text);
    assert_eq!(docs, chunks(text));
    assert_eq!(docs.len(), 3);
    for doc in &docs {
        assert_eq!(DocumentId::from_raw(doc.id.as_str()).as_ref(), Some(&doc.id));
        assert_eq!(doc.package, pkg());
        assert_eq!(doc.source_kind, SourceKind::CrateReadme);
        assert_eq!(doc.source_path.as_deref(), Some("/tmp/pkg/README.md"));
        assert_eq!(doc.symbol_path, None);
    }
    let titles: Vec<&str> = docs.iter().map(|d| d.title.as_str()).collect();
    assert_eq!(titles, vec!["README", "A", "B"]);
    assert!(docs[1].text.contains("code") && docs[1].text.contains("<b>"));
    assert!(docs[2].text.contains("block"));
}

#[test]
fn events_alone_give_the_chunks() {
    let events: Vec<(MarkdownEvent, usize, usize)> = vec![
        (MarkdownEvent::HeadingStart(1), 0, 5),
        (MarkdownEvent::Content("Top".into()), 2, 5),
        (MarkdownEvent::HeadingEnd, 0, 5),
        (MarkdownEvent::ParagraphStart, 6, 11),
        (MarkdownEvent::Content("body".into()), 6, 10),
        (MarkdownEvent::ParagraphEnd, 6, 11),
    ];
    let file = md_file("docs/top.md", SourceKind::MarkdownDocument);
    let docs = chunk_events(&pkg(), &file, "# Top\nbody\n", &events);
    assert_eq!(docs.len(), 1);
    assert_eq!(docs[0].title, "Top");
    assert_eq!(docs[0].text, "body");
    assert_eq!(docs[0].section_path, vec!["Top"]);
    let parsed = chunk_markdown(&pkg(), &file, "# Top\nbody\n");
    assert_eq!(docs, parsed);
    assert_eq!(
        docs[0].source_span.map(|s| s.start_line),
        Some(2),
        "{:?}",
        docs[0].source_span
    );
    let none: Option<SourceSpan> = None;
    assert_ne!(docs[0].source_span, none);
}
