//! Query text: what reaches the engine's grammar, and how texts are cut.
use rust_knowledge::tantivy_index::engine::{is_manageable, MAX_CALLS, MAX_NESTING};
use rust_knowledge::tantivy_index::query_text::{
    grammar_escaped, searchable_text, syntax_free_text, truncate_at_word,
};

#[test]
fn truncates_on_word_boundary() {
    let text = "Runs the provided closure on a thread where blocking operations are acceptable";
    let cut = truncate_at_word(text, 30);
    assert!(cut.len() <= 33, "cut: {cut:?}");
    assert!(cut.ends_with("..."));
    assert!(!cut.ends_with(" ..."));
}

#[test]
fn short_text_passes_through() {
    assert_eq!(truncate_at_word("short text", 100), "short text");
}

#[test]
fn grammar_escaped_neutralizes_exists_markers() {
    // A bare asterisk anywhere would make the grammar build an "exists" query,
    // which panics without a field; escaped it is a literal character.
    assert_eq!(grammar_escaped("*[A"), "\\*[A");
    assert_eq!(grammar_escaped("a*b"), "a\\*b");
    assert_eq!(grammar_escaped("*"), "\\*");
    // Backslashes are escaped first, so they cannot undo the escape.
    assert_eq!(grammar_escaped("a\\*b"), "a\\\\\\*b");
    assert_eq!(grammar_escaped("plain text"), "plain text");
}

#[test]
fn syntax_free_text_strips_all_grammar() {
    // Range, set, occur and field syntax is reduced to plain words, which can
    // never build anything but term queries.
    assert_eq!(syntax_free_text("-G{a["), "G a");
    assert_eq!(syntax_free_text("title:[a TO z]"), "title a TO z");
    assert_eq!(syntax_free_text("+must -mustnot ^boost"), "must mustnot boost");
    assert_eq!(syntax_free_text("Writer::flush"), "Writer flush");
    assert_eq!(syntax_free_text(r#""a phrase"~2"#), "a phrase 2");
    assert_eq!(syntax_free_text("*"), "");
}

#[test]
fn searchable_text_drops_punctuation_only_tokens() {
    // The shapes that panic the grammar must be gone before parsing.
    assert_eq!(searchable_text("* * ** *** *?*"), "");
    assert_eq!(searchable_text("*"), "");
    // Field-scoped syntax and real tokens survive untouched.
    assert_eq!(searchable_text("a:* b"), "a:* b");
    assert_eq!(searchable_text("write_all *"), "write_all");
    assert_eq!(searchable_text("  how * should ::  this  "), "how should this");
    // Quoted phrases keep their quotes: the token has word characters.
    assert_eq!(searchable_text("\"writer\" *"), "\"writer\"");
    // Word characters of any script are kept; punctuation is not.
    assert_eq!(searchable_text("\u{4e2d}\u{6587} *"), "\u{4e2d}\u{6587}");
}

#[test]
fn respects_char_boundaries() {
    // Characters of several bytes must not be split.
    let text = "ä".repeat(50);
    let cut = truncate_at_word(&text, 20);
    assert!(cut.chars().all(|c| c == 'ä' || c == '.'));
}

#[test]
fn exact_cuts() {
    assert_eq!(truncate_at_word("alpha beta gamma", 12), "alpha beta...");
    assert_eq!(truncate_at_word("  alpha  ", 5), "alpha");
    assert_eq!(truncate_at_word("a bcdefghijkl", 8), "a bcdefg...");
    assert_eq!(truncate_at_word("ääää", 5), "ää...");
    assert_eq!(truncate_at_word("abc", 0), "...");
    assert_eq!(truncate_at_word("", 0), "");
    assert_eq!(truncate_at_word("   ", 3), "");
}

#[test]
fn cuts_stay_within_the_limit_and_the_dots() {
    let text = "word \u{4e2d}\u{6587} and more text that goes on and on";
    for max in 0..60 {
        let cut = truncate_at_word(text, max);
        assert!(cut.len() <= max + 3, "{max}: {cut:?}");
        if text.len() > max {
            assert!(cut.ends_with("..."));
            assert!(text.starts_with(cut.trim_end_matches("...")), "{max}: {cut:?}");
        } else {
            assert_eq!(cut, text);
        }
    }
}

#[test]
fn escaping_can_be_undone() {
    for text in ["", "*", "\\", "\\*", "a\\b*c", "**\\\\**", "plain"] {
        let escaped = grammar_escaped(text);
        let mut out = String::new();
        let mut chars = escaped.chars();
        while let Some(c) = chars.next() {
            if c == '\\' {
                out.push(chars.next().expect("an escape is followed by a character"));
            } else {
                assert_ne!(c, '*', "an asterisk without an escape in {escaped:?}");
                out.push(c);
            }
        }
        assert_eq!(out, text);
    }
}

#[test]
fn asterisks_stand_behind_an_odd_number_of_backslashes() {
    for text in ["*", "\\*", "\\\\*", "a\\\\\\*b*", "**", "\\"] {
        let escaped: Vec<char> = grammar_escaped(text).chars().collect();
        for at in 0..escaped.len() {
            if escaped[at] == '*' {
                let run = escaped[..at].iter().rev().take_while(|c| **c == '\\').count();
                assert_eq!(run % 2, 1, "{text:?}");
            }
        }
    }
}

#[test]
fn nothing_searchable_without_letters_and_digits() {
    for text in ["", "  ", "* :: \u{301}", "-- ++ ..."] {
        assert_eq!(searchable_text(text), "");
    }
    for text in ["a", " * 1 *", "\u{4e2d}", "--x--"] {
        assert!(!searchable_text(text).is_empty(), "{text:?}");
    }
}

#[test]
fn what_the_query_parser_can_take() {
    let nested = |n: usize| format!("{}x{}", "(".repeat(n), ")".repeat(n));
    assert!(is_manageable(""));
    assert!(is_manageable(&nested(MAX_NESTING)));
    assert!(!is_manageable(&nested(MAX_NESTING + 1)));
    // Pairs side by side do not nest.
    assert!(is_manageable(&"(a) ".repeat(100)));
    assert!(is_manageable(&")(".repeat(100)));
    // Nor do they beside quotes, slashes and backslashes.
    for text in ["\"a\" ", "it's ", "a/b ", "\\\\ ", "/x/ "] {
        assert!(is_manageable(&(text.to_string() + &"(a) ".repeat(100))), "{text}");
        assert!(is_manageable(&format!("({text}) ").repeat(100)), "{text}");
    }
    assert!(is_manageable(&"(')') ".repeat(100)));
    // In quotes, between slashes and behind a backslash a parenthesis closes nothing.
    for text in ["( \")\" ", "( ')' ", "( /)/ ", "( \\) "] {
        assert!(is_manageable(&text.repeat(MAX_NESTING)), "{text}");
        assert!(!is_manageable(&text.repeat(MAX_NESTING + 1)), "{text}");
    }
    // Nor does one open anything there.
    assert!(is_manageable(&format!("\"{}\"", "(".repeat(100))));
    // A run of negations, and the same in parentheses.
    assert!(is_manageable(&"NOT ".repeat(MAX_CALLS - 1)));
    assert!(!is_manageable(&"NOT ".repeat(MAX_CALLS)));
    assert!(is_manageable(&"a NOT b ".repeat(1000)));
    assert!(is_manageable(&"(NOT NOT ".repeat(MAX_NESTING)));
    assert!(!is_manageable(&format!("({}", "NOT ".repeat(MAX_CALLS / 2))));
    assert!(is_manageable(&"not No T ".repeat(1000)));
}

#[test]
fn searchable_text_is_settled_at_once() {
    for text in ["a  b", "* a", "x::y \u{3000} z", "\u{301} e", "-- ab --"] {
        let once = searchable_text(text);
        assert_eq!(searchable_text(&once), once);
        assert!(once.split(' ').all(|w| once.is_empty() || w.chars().any(char::is_alphanumeric)));
    }
}

#[test]
fn letters_and_digits_are_those_of_every_script() {
    for code in 0..=0x10ffff_u32 {
        if let Some(c) = char::from_u32(code) {
            let mut text = String::from("a");
            text.push(c);
            text.push('b');
            let words = syntax_free_text(&text);
            let expected = if c.is_alphanumeric() || c == '_' { text.clone() } else { String::from("a b") };
            assert_eq!(words, expected, "{code:x}");
            assert!(!(c.is_alphanumeric() && c.is_whitespace()), "{code:x}");
        }
    }
}

#[test]
fn blanks_are_those_of_every_script() {
    for code in 0..=0x10ffff_u32 {
        if let Some(c) = char::from_u32(code) {
            let mut text = String::from("a");
            text.push(c);
            let cut = truncate_at_word(&text, 100);
            assert_eq!(cut == "a", c.is_whitespace(), "{code:x}");
        }
    }
}
