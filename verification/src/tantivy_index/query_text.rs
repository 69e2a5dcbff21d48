//! Preparing the text of a query, and cutting text for display.
use vstd::prelude::*;
use crate::pieces;
use crate::tantivy_index::engine;
use crate::text;
use crate::words;
use crate::words::CharClass;

verus! {

// ---------------------------------------------------------------------------
// Searchable text
// ---------------------------------------------------------------------------

/// Whether a token holds a letter or a number.
pub open spec fn has_word_char(token: Seq<char>) -> bool {
    exists|i: int| 0 <= i < token.len() && text::alphanumeric(#[trigger] token[i])
}

/// The tokens that hold a letter or a number.
pub open spec fn worded(tokens: Seq<Seq<char>>) -> Seq<Seq<char>>
    decreases tokens.len(),
{
    if tokens.len() == 0 {
        Seq::empty()
    } else {
        let before = worded(tokens.drop_last());
        if has_word_char(tokens.last()) {
            before.push(tokens.last())
        } else {
            before
        }
    }
}

/// The text without tokens of punctuation alone, single spaces between tokens.
pub open spec fn searchable(raw: Seq<char>) -> Seq<char> {
    words::join(worded(words::words(raw, CharClass::Printable)), seq![' '])
}

/// Whether a token holds a letter or a number.
fn holds_word_char(token: &str) -> (r: bool)
    ensures
        r == has_word_char(token@),
{
    let chars = text::to_chars(token);
    let mut i: usize = 0;
    while i < chars.len()
        invariant
            i <= chars@.len(),
            chars@ == token@,
            forall|k: int| 0 <= k < i ==> !text::alphanumeric(#[trigger] token@[k]),
        decreases chars@.len() - i,
    {
        if text::is_alphanumeric(chars[i]) {
            assert(text::alphanumeric(token@[i as int]));
            return true;
        }
        i = i + 1;
    }
    false
}

/// The text of a query without tokens of punctuation alone. Such tokens never
/// match an indexed term, and some of them the query grammar cannot take.
pub fn searchable_text(raw: &str) -> (r: String)
    ensures
        r@ == searchable(raw@),
{
    let tokens = words::split_words(raw, CharClass::Printable);
    let ghost all = words::texts(tokens@);
    let mut kept: Vec<String> = Vec::new();
    let mut i: usize = 0;
    while i < tokens.len()
        invariant
            i <= tokens@.len(),
            all == words::texts(tokens@),
            words::texts(kept@) == worded(all.take(i as int)),
        decreases tokens@.len() - i,
    {
        assert(all.take(i + 1).drop_last() == all.take(i as int));
        assert(all.take(i + 1).last() == tokens@[i as int]@);
        let ghost before = words::texts(kept@);
        if holds_word_char(tokens[i].as_str()) {
            kept.push(tokens[i].clone());
            assert(words::texts(kept@) == before.push(tokens@[i as int]@));
        }
        i = i + 1;
    }
    assert(all.take(all.len() as int) == all);
    proof {
        reveal_strlit(" ");
        assert(" "@ =~= seq![' ']);
    }
    words::join_strings(&kept, " ")
}

/// What is kept is kept in order and holds a letter or a number.
proof fn lemma_worded(tokens: Seq<Seq<char>>)
    ensures
        forall|i: int|
            0 <= i < worded(tokens).len() ==> has_word_char(#[trigger] worded(tokens)[i])
                && tokens.contains(worded(tokens)[i]),
    decreases tokens.len(),
{
    if tokens.len() > 0 {
        let init = tokens.drop_last();
        lemma_worded(init);
        assert(tokens.contains(tokens[tokens.len() - 1]));
        assert forall|i: int| 0 <= i < worded(init).len() implies tokens.contains(
            #[trigger] worded(init)[i],
        ) by {
            assert(init.contains(worded(init)[i]));
            let k = choose|k: int| 0 <= k < init.len() && init[k] == worded(init)[i];
            assert(tokens[k] == worded(init)[i]);
        }
    }
}

/// Tokens that all hold a letter or a number are all kept.
proof fn lemma_worded_all(tokens: Seq<Seq<char>>)
    requires
        forall|i: int| 0 <= i < tokens.len() ==> has_word_char(#[trigger] tokens[i]),
    ensures
        worded(tokens) == tokens,
    decreases tokens.len(),
{
    if tokens.len() > 0 {
        let init = tokens.drop_last();
        assert forall|i: int| 0 <= i < init.len() implies has_word_char(#[trigger] init[i]) by {
            assert(has_word_char(tokens[i]));
        }
        lemma_worded_all(init);
        assert(has_word_char(tokens[tokens.len() - 1]));
        assert(init.push(tokens.last()) == tokens);
    }
}

/// The tokens of a searchable text are exactly those tokens of the raw text that
/// hold a letter or a number, and making it searchable again changes nothing.
pub proof fn law_searchable(raw: Seq<char>)
    ensures
        words::words(searchable(raw), CharClass::Printable) == worded(
            words::words(raw, CharClass::Printable),
        ),
        forall|i: int|
            0 <= i < words::words(searchable(raw), CharClass::Printable).len() ==> has_word_char(
                #[trigger] words::words(searchable(raw), CharClass::Printable)[i],
            ),
        searchable(searchable(raw)) == searchable(raw),
{
    let class = CharClass::Printable;
    let tokens = words::words(raw, class);
    let kept = worded(tokens);
    words::lemma_words_members(raw, class);
    lemma_worded(tokens);
    assert forall|i: int| 0 <= i < kept.len() implies (#[trigger] kept[i]).len() > 0 by {
        assert(tokens.contains(kept[i]));
        let k = choose|k: int| 0 <= k < tokens.len() && tokens[k] == kept[i];
        assert(tokens[k].len() > 0);
    }
    assert forall|i: int, j: int| 0 <= i < kept.len() && 0 <= j < kept[i].len() implies class.has(
        #[trigger] kept[i][j],
    ) by {
        assert(tokens.contains(kept[i]));
        let k = choose|k: int| 0 <= k < tokens.len() && tokens[k] == kept[i];
        assert(class.has(tokens[k][j]));
    }
    assert(!class.has(' '));
    words::lemma_words_of_join(kept, ' ', class);
    lemma_worded_all(kept);
}

/// Nothing is left just when no token holds a letter or a number.
proof fn lemma_worded_empty(tokens: Seq<Seq<char>>)
    ensures
        worded(tokens).len() == 0 <==> forall|i: int|
            0 <= i < tokens.len() ==> !has_word_char(#[trigger] tokens[i]),
    decreases tokens.len(),
{
    if tokens.len() > 0 {
        let init = tokens.drop_last();
        lemma_worded_empty(init);
        assert(tokens[tokens.len() - 1] == tokens.last());
        assert forall|i: int| 0 <= i < init.len() implies #[trigger] init[i] == tokens[i] by {}
        if worded(tokens).len() == 0 {
            assert forall|i: int| 0 <= i < tokens.len() implies !has_word_char(
                #[trigger] tokens[i],
            ) by {
                if i < init.len() {
                    assert(!has_word_char(init[i]));
                }
            }
        } else if worded(init).len() > 0 {
            let i = choose|i: int| 0 <= i < init.len() && has_word_char(#[trigger] init[i]);
            assert(has_word_char(tokens[i]));
        }
    }
}

/// The searchable text is empty just when no token of the raw text holds a letter
/// or a number; that is, when no character of it is one.
pub proof fn law_searchable_empty(raw: Seq<char>)
    ensures
        searchable(raw).len() == 0 <==> forall|i: int|
            0 <= i < words::words(raw, CharClass::Printable).len() ==> !has_word_char(
                #[trigger] words::words(raw, CharClass::Printable)[i],
            ),
        searchable(raw).len() == 0 <==> forall|i: int|
            0 <= i < raw.len() ==> !text::alphanumeric(#[trigger] raw[i]),
{
    let class = CharClass::Printable;
    let tokens = words::words(raw, class);
    let kept = worded(tokens);
    lemma_worded_empty(tokens);
    lemma_worded(tokens);
    if kept.len() > 0 {
        let last = kept[kept.len() - 1];
        assert(has_word_char(last));
        assert(last.len() > 0);
        assert(searchable(raw).len() >= last.len());
        let i = choose|i: int| 0 <= i < tokens.len() && has_word_char(#[trigger] tokens[i]);
        let j = choose|j: int| 0 <= j < tokens[i].len() && text::alphanumeric(#[trigger] tokens[i][j]);
        let at = words::lemma_words_inside(raw, class, i, j);
        assert(text::alphanumeric(raw[at]));
    } else {
        assert forall|at: int| 0 <= at < raw.len() implies !text::alphanumeric(#[trigger] raw[at]) by {
            if !text::white(raw[at]) {
                let (i, j) = words::lemma_words_cover(raw, class, at);
                assert(!has_word_char(tokens[i]));
                assert(!text::alphanumeric(tokens[i][j]));
            }
        }
    }
}

// ---------------------------------------------------------------------------
// Plain words
// ---------------------------------------------------------------------------

/// The text reduced to its words, single spaces between them.
pub open spec fn plain_words(raw: Seq<char>) -> Seq<char> {
    words::join(words::words(raw, CharClass::Identifier), seq![' '])
}

/// The text of a query reduced to plain words, without any of the query
/// grammar's syntax.
pub fn syntax_free_text(raw: &str) -> (r: String)
    ensures
        r@ == plain_words(raw@),
{
    let found = words::split_words(raw, CharClass::Identifier);
    proof {
        reveal_strlit(" ");
        assert(" "@ =~= seq![' ']);
    }
    words::join_strings(&found, " ")
}

/// Joined pieces hold the characters of the pieces and of what stands between
/// them.
proof fn lemma_join_chars(parts: Seq<Seq<char>>, class: CharClass)
    requires
        forall|i: int, j: int|
            0 <= i < parts.len() && 0 <= j < parts[i].len() ==> class.has(#[trigger] parts[i][j]),
    ensures
        forall|k: int|
            0 <= k < words::join(parts, seq![' ']).len() ==> class.has(
                #[trigger] words::join(parts, seq![' '])[k],
            ) || words::join(parts, seq![' '])[k] == ' ',
    decreases parts.len(),
{
    if parts.len() == 1 {
        assert forall|k: int| 0 <= k < parts[0].len() implies class.has(#[trigger] parts[0][k]) by {
            assert(class.has(parts[0][k]));
        }
    } else if parts.len() > 1 {
        let init = parts.drop_last();
        assert forall|i: int, j: int| 0 <= i < init.len() && 0 <= j < init[i].len() implies class.has(
            #[trigger] init[i][j],
        ) by {
            assert(class.has(parts[i][j]));
        }
        lemma_join_chars(init, class);
        let head = words::join(init, seq![' ']);
        let all = words::join(parts, seq![' ']);
        assert(all == head + seq![' '] + parts.last());
        assert forall|k: int| 0 <= k < all.len() implies class.has(#[trigger] all[k]) || all[k]
            == ' ' by {
            if k < head.len() {
                assert(all[k] == head[k]);
            } else if k > head.len() {
                let j = k - head.len() - 1;
                assert(all[k] == parts[parts.len() - 1][j]);
                assert(class.has(parts[parts.len() - 1][j]));
            }
        }
    }
}

/// Plain words hold nothing but letters, numbers, underscores and spaces; they
/// are the words of the raw text; and reducing them again changes nothing.
pub proof fn law_plain_words(raw: Seq<char>)
    ensures
        forall|k: int|
            0 <= k < plain_words(raw).len() ==> CharClass::Identifier.has(
                #[trigger] plain_words(raw)[k],
            ) || plain_words(raw)[k] == ' ',
        words::words(plain_words(raw), CharClass::Identifier) == words::words(
            raw,
            CharClass::Identifier,
        ),
        plain_words(plain_words(raw)) == plain_words(raw),
        engine::asterisks_escaped(plain_words(raw)),
{
    let class = CharClass::Identifier;
    words::lemma_words_members(raw, class);
    lemma_join_chars(words::words(raw, class), class);
    assert(!class.has(' '));
    words::lemma_words_of_join(words::words(raw, class), ' ', class);
}

// ---------------------------------------------------------------------------
// Escaping
// ---------------------------------------------------------------------------

/// The text with backslashes doubled and a backslash before each asterisk.
pub open spec fn escaped(raw: Seq<char>) -> Seq<char> {
    pieces::replace_each(pieces::replace_each(raw, '\\', "\\\\"@), '*', "\\*"@)
}

/// The text of a query with its asterisks escaped. A bare asterisk can make the
/// query grammar fail; escaped it is a character like any other. Backslashes
/// are escaped first, so that they cannot undo the escape.
pub fn grammar_escaped(raw: &str) -> (r: String)
    ensures
        r@ == escaped(raw@),
{
    let doubled = pieces::replace_char(raw, '\\', "\\\\");
    pieces::replace_char(doubled.as_str(), '*', "\\*")
}

/// What one character becomes.
pub open spec fn escape_of(c: char) -> Seq<char> {
    if c == '\\' {
        seq!['\\', '\\']
    } else if c == '*' {
        seq!['\\', '*']
    } else {
        seq![c]
    }
}

/// Replacing works piece by piece.
proof fn lemma_replace_add(a: Seq<char>, b: Seq<char>, from: char, with: Seq<char>)
    ensures
        pieces::replace_each(a + b, from, with) == pieces::replace_each(a, from, with)
            + pieces::replace_each(b, from, with),
    decreases b.len(),
{
    if b.len() == 0 {
        assert(a + b == a);
        assert(pieces::replace_each(b, from, with) =~= Seq::<char>::empty());
    } else {
        assert((a + b).drop_last() == a + b.drop_last());
        lemma_replace_add(a, b.drop_last(), from, with);
    }
}

/// Escaping works character by character.
pub proof fn lemma_escaped_push(raw: Seq<char>, c: char)
    ensures
        escaped(raw.push(c)) == escaped(raw) + escape_of(c),
{
    reveal_strlit("\\\\");
    reveal_strlit("\\*");
    assert("\\\\"@ =~= seq!['\\', '\\']);
    assert("\\*"@ =~= seq!['\\', '*']);
    let one = pieces::replace_each(raw, '\\', "\\\\"@);
    assert(raw.push(c).drop_last() == raw);
    let more = if c == '\\' {
        "\\\\"@
    } else {
        seq![c]
    };
    assert(pieces::replace_each(raw.push(c), '\\', "\\\\"@) == one + more);
    lemma_replace_add(one, more, '*', "\\*"@);
    assert(pieces::replace_each(more, '*', "\\*"@) == escape_of(c)) by {
        reveal_with_fuel(pieces::replace_each, 3);
        if c == '\\' {
            assert(more.drop_last() =~= seq!['\\']);
            assert(more.drop_last().drop_last() =~= Seq::<char>::empty());
            assert(pieces::replace_each(more, '*', "\\*"@) =~= escape_of(c));
        } else {
            assert(more.drop_last() =~= Seq::<char>::empty());
            assert(pieces::replace_each(more, '*', "\\*"@) =~= escape_of(c));
        }
    }
}

/// Every asterisk of an escaped text stands behind a backslash.
pub proof fn law_asterisks_escaped(raw: Seq<char>)
    ensures
        engine::asterisks_escaped(escaped(raw)),
    decreases raw.len(),
{
    if raw.len() == 0 {
        assert(escaped(raw) =~= Seq::<char>::empty());
    } else {
        let init = raw.drop_last();
        law_asterisks_escaped(init);
        assert(init.push(raw.last()) == raw);
        lemma_escaped_push(init, raw.last());
        let before = escaped(init);
        let all = escaped(raw);
        assert forall|i: int| 0 <= i < all.len() && #[trigger] all[i] == '*' implies i > 0 && all[i
            - 1] == '\\' by {
            if i < before.len() {
                assert(before[i] == '*');
                assert(all[i - 1] == before[i - 1]);
            } else {
                assert(all[i] == escape_of(raw.last())[i - before.len()]);
            }
        }
    }
}

/// How many backslashes stand directly before a place.
pub open spec fn backslashes_before(s: Seq<char>, at: int) -> nat
    decreases at,
{
    if 0 < at <= s.len() && s[at - 1] == '\\' {
        1 + backslashes_before(s, at - 1)
    } else {
        0
    }
}

/// What stands behind a place does not matter.
proof fn lemma_backslashes_before(a: Seq<char>, b: Seq<char>, at: int)
    requires
        0 <= at <= a.len(),
    ensures
        backslashes_before(a + b, at) == backslashes_before(a, at),
    decreases at,
{
    if at > 0 && a[at - 1] == '\\' {
        lemma_backslashes_before(a, b, at - 1);
    }
}

/// Every asterisk of an escaped text stands behind an odd number of backslashes:
/// the last of them escapes the asterisk and is not escaped itself.
pub proof fn law_asterisks_behind_odd_backslashes(raw: Seq<char>)
    ensures
        forall|i: int|
            0 <= i < escaped(raw).len() && #[trigger] escaped(raw)[i] == '*' ==> backslashes_before(
                escaped(raw),
                i,
            ) % 2 == 1,
        backslashes_before(escaped(raw), escaped(raw).len() as int) % 2 == 0,
    decreases raw.len(),
{
    if raw.len() == 0 {
        assert(escaped(raw) =~= Seq::<char>::empty());
    } else {
        let init = raw.drop_last();
        let c = raw.last();
        law_asterisks_behind_odd_backslashes(init);
        assert(init.push(c) == raw);
        lemma_escaped_push(init, c);
        let before = escaped(init);
        let all = escaped(raw);
        let n = before.len() as int;
        lemma_backslashes_before(before, escape_of(c), n);
        reveal_with_fuel(backslashes_before, 3);
        if c == '\\' {
            assert(all[n] == '\\' && all[n + 1] == '\\');
        } else if c == '*' {
            assert(all[n] == '\\' && all[n + 1] == '*');
        } else {
            assert(all[n] == c);
        }
        assert forall|i: int| 0 <= i < all.len() && #[trigger] all[i] == '*' implies backslashes_before(
            all,
            i,
        ) % 2 == 1 by {
            if i < n {
                assert(before[i] == '*');
                lemma_backslashes_before(before, escape_of(c), i);
            }
        }
    }
}

/// What an escaped text stands for: a backslash and the character behind it
/// stand for that character.
pub open spec fn unescaped(s: Seq<char>) -> Seq<char>
    decreases s.len(),
{
    if s.len() == 0 {
        Seq::empty()
    } else if s[0] == '\\' && s.len() >= 2 {
        seq![s[1]] + unescaped(s.skip(2))
    } else {
        seq![s[0]] + unescaped(s.skip(1))
    }
}

/// Reading an escape at the front.
proof fn lemma_unescape_front(c: char, rest: Seq<char>)
    ensures
        unescaped(escape_of(c) + rest) == seq![c] + unescaped(rest),
{
    let all = escape_of(c) + rest;
    if c == '\\' || c == '*' {
        assert(all[0] == '\\' && all[1] == c);
        assert(all.skip(2) =~= rest);
    } else {
        assert(all[0] == c);
        assert(all.skip(1) =~= rest);
    }
}

/// Escaping a text from its front.
proof fn lemma_escaped_front(raw: Seq<char>)
    requires
        raw.len() > 0,
    ensures
        escaped(raw) == escape_of(raw[0]) + escaped(raw.drop_first()),
    decreases raw.len(),
{
    let none = Seq::<char>::empty();
    let init = raw.drop_last();
    assert(init.push(raw.last()) == raw);
    lemma_escaped_push(init, raw.last());
    assert(escaped(none) =~= none);
    if raw.len() == 1 {
        assert(init =~= none);
        assert(raw.drop_first() =~= none);
        assert(none + escape_of(raw.last()) =~= escape_of(raw[0]) + none);
    } else {
        lemma_escaped_front(init);
        let rest = raw.drop_first();
        assert(rest.drop_last() =~= init.drop_first());
        assert(rest.drop_last().push(rest.last()) =~= rest);
        lemma_escaped_push(rest.drop_last(), rest.last());
        assert(escaped(raw) =~= escape_of(raw[0]) + (escaped(init.drop_first()) + escape_of(
            raw.last(),
        )));
    }
}

/// Escaping loses nothing: an escaped text stands for the text.
pub proof fn law_escape_reversible(raw: Seq<char>)
    ensures
        unescaped(escaped(raw)) == raw,
    decreases raw.len(),
{
    if raw.len() == 0 {
        assert(escaped(raw) =~= Seq::<char>::empty());
    } else {
        lemma_escaped_front(raw);
        lemma_unescape_front(raw[0], escaped(raw.drop_first()));
        law_escape_reversible(raw.drop_first());
        assert(seq![raw[0]] + raw.drop_first() =~= raw);
    }
}

// ---------------------------------------------------------------------------
// Cutting text
// ---------------------------------------------------------------------------

/// The longest beginning of a text that takes at most `max` bytes.
pub open spec fn fitting(s: Seq<char>, max: nat) -> Seq<char>
    decreases s.len(),
{
    if s.len() == 0 || text::utf8_len(s) <= max {
        s
    } else {
        fitting(s.drop_last(), max)
    }
}

/// Where the last white space of a text stands.
pub open spec fn last_white(s: Seq<char>) -> Option<int>
    decreases s.len(),
{
    if s.len() == 0 {
        None
    } else if text::white(s.last()) {
        Some(s.len() - 1)
    } else {
        last_white(s.drop_last())
    }
}

/// Where a beginning of a text is cut: at its last white space, if that is in
/// its second half, else nowhere.
pub open spec fn cut_at_word(head: Seq<char>, max: nat) -> Seq<char> {
    match last_white(head) {
        Some(i) => if text::utf8_len(head.take(i)) > max / 2 {
            text::trim_end(head.take(i))
        } else {
            head
        },
        None => head,
    }
}

/// The text, trimmed, if it takes at most `max` bytes; else as much of its
/// beginning, cut at a word where possible, and an ellipsis.
pub open spec fn truncated(s: Seq<char>, max: nat) -> Seq<char> {
    let t = text::trim(s);
    if text::utf8_len(t) <= max {
        t
    } else {
        cut_at_word(fitting(t, max), max) + "..."@
    }
}

/// A beginning that fits, where one character more does not.
proof fn lemma_fitting(s: Seq<char>, max: nat, n: int)
    requires
        0 <= n <= s.len(),
        text::utf8_len(s.take(n)) <= max,
        n < s.len() ==> text::utf8_len(s.take(n + 1)) > max,
    ensures
        fitting(s, max) == s.take(n),
    decreases s.len() - n,
{
    if n == s.len() {
        assert(s.take(n) == s);
    } else {
        let init = s.drop_last();
        let first = s.take(n + 1);
        assert(s == first + s.skip(n + 1));
        text::lemma_utf8_len_add(first, s.skip(n + 1));
        assert(init.take(n) == s.take(n));
        if n < init.len() {
            assert(init.take(n + 1) == s.take(n + 1));
        }
        lemma_fitting(init, max, n);
    }
}

/// The last white space, where nothing behind it is white.
proof fn lemma_last_white(s: Seq<char>, n: int)
    requires
        0 <= n <= s.len(),
        forall|i: int| n <= i < s.len() ==> !text::white(#[trigger] s[i]),
        n > 0 ==> text::white(s[n - 1]),
    ensures
        last_white(s) == (if n > 0 {
            Some(n - 1)
        } else {
            None
        }),
    decreases s.len(),
{
    if s.len() > n {
        assert(!text::white(s[s.len() - 1]));
        let init = s.drop_last();
        assert forall|i: int| n <= i < init.len() implies !text::white(#[trigger] init[i]) by {
            assert(!text::white(s[i]));
        }
        lemma_last_white(init, n);
    }
}

/// How many bytes the first `n` characters take.
fn bytes_before(chars: &Vec<char>, n: usize) -> (r: u128)
    requires
        n <= chars@.len(),
    ensures
        r == text::utf8_len(chars@.take(n as int)),
{
    let mut total: u128 = 0;
    let mut i: usize = 0;
    while i < n
        invariant
            i <= n <= chars@.len(),
            total == text::utf8_len(chars@.take(i as int)),
            total <= 4 * i,
        decreases n - i,
    {
        assert(chars@.take(i + 1).drop_last() == chars@.take(i as int));
        total = total + text::width_of(chars[i]) as u128;
        i = i + 1;
    }
    total
}

/// How many characters of a text fit in `max` bytes.
pub fn fitting_len(chars: &Vec<char>, max: usize) -> (n: usize)
    ensures
        n <= chars@.len(),
        chars@.take(n as int) == fitting(chars@, max as nat),
        text::utf8_len(chars@) > max ==> n < chars@.len(),
{
    let ghost t = chars@;
    let total: usize = chars.len();
    let mut n: usize = 0;
    let mut taken: usize = 0;
    assert(t.take(0) == Seq::<char>::empty());
    assert(t.take(t.len() as int) == t);
    while n < total
        invariant
            t == chars@,
            total == t.len(),
            n <= t.len(),
            taken == text::utf8_len(t.take(n as int)),
            taken <= max,
        ensures
            n <= t.len(),
            t == chars@,
            taken == text::utf8_len(t.take(n as int)),
            taken <= max,
            n < t.len() ==> text::utf8_len(t.take(n + 1)) > max,
        decreases t.len() - n,
    {
        assert(t.take(n + 1).drop_last() == t.take(n as int));
        let width: usize = text::width_of(chars[n]);
        if width > max - taken {
            break;
        }
        taken = taken + width;
        n = n + 1;
    }
    proof {
        if n < t.len() {
            lemma_fitting(t, max as nat, n as int);
        }
    }
    n
}

/// The text cut to at most `max` bytes, at a word boundary where possible, with
/// an ellipsis where something was cut off.
pub fn truncate_at_word(s: &str, max: usize) -> (r: String)
    ensures
        r@ == truncated(s@, max as nat),
{
    let trimmed = text::trimmed(s);
    if text::byte_len(trimmed.as_str()) <= max {
        return trimmed;
    }
    let chars = text::to_chars(trimmed.as_str());
    let ghost t = chars@;
    let n: usize = fitting_len(&chars, max);
    let ghost head = t.take(n as int);
    let mut w: usize = n;
    while w > 0 && !text::is_white(chars[w - 1])
        invariant
            w <= n < chars@.len(),
            t == chars@,
            head == t.take(n as int),
            forall|i: int| w <= i < n ==> !text::white(#[trigger] head[i]),
        decreases w,
    {
        w = w - 1;
    }
    proof {
        lemma_last_white(head, w as int);
    }
    let mut out = if w > 0 && bytes_before(&chars, w - 1) > (max / 2) as u128 {
        proof {
            assert(head.take(w - 1) == t.take(w - 1));
            assert(t.subrange(0, w - 1) == t.take(w - 1));
        }
        let front = text::from_range(&chars, 0, w - 1);
        text::trimmed_end(front.as_str())
    } else {
        proof {
            if w > 0 {
                assert(head.take(w - 1) == t.take(w - 1));
            }
            assert(t.subrange(0, n as int) == head);
        }
        text::from_range(&chars, 0, n)
    };
    out.push_str("...");
    out
}

/// A fitting beginning fits.
pub proof fn lemma_fitting_fits(s: Seq<char>, max: nat)
    ensures
        text::utf8_len(fitting(s, max)) <= max,
        fitting(s, max).len() <= s.len(),
        fitting(s, max) == s.take(fitting(s, max).len() as int),
    decreases s.len(),
{
    if s.len() == 0 || text::utf8_len(s) <= max {
        assert(s.take(s.len() as int) == s);
    } else {
        lemma_fitting_fits(s.drop_last(), max);
        let f = fitting(s.drop_last(), max);
        assert(s.drop_last().take(f.len() as int) == s.take(f.len() as int));
    }
}

/// What is shown of a text is either all of it, trimmed, or a beginning of it
/// with an ellipsis, and takes at most three bytes more than asked for.
pub proof fn law_truncated(s: Seq<char>, max: nat)
    ensures
        text::utf8_len(truncated(s, max)) <= max + 3,
        text::utf8_len(text::trim(s)) <= max ==> truncated(s, max) == text::trim(s),
        text::utf8_len(text::trim(s)) > max ==> exists|n: int|
            0 <= n <= text::trim(s).len() && truncated(s, max) == #[trigger] text::trim(s).take(n)
                + "..."@,
{
    let t = text::trim(s);
    if text::utf8_len(t) > max {
        reveal_strlit("...");
        lemma_fitting_fits(t, max);
        let head = fitting(t, max);
        let shown = cut_at_word(head, max);
        lemma_cut_prefix(head, max);
        let n = shown.len() as int;
        assert(head.take(n) == t.take(n));
        assert(truncated(s, max) == t.take(n) + "..."@);
        text::lemma_utf8_len_add(shown, "..."@);
        let dots = "..."@;
        assert(dots =~= seq!['.', '.', '.']);
        assert(dots.drop_last() =~= seq!['.', '.']);
        assert(dots.drop_last().drop_last() =~= seq!['.']);
        assert(dots.drop_last().drop_last().drop_last() =~= Seq::<char>::empty());
        assert(text::utf8_len(dots) == 3) by {
            reveal_with_fuel(text::utf8_len, 4);
        }
    }
}

/// Cutting at a word keeps a beginning.
proof fn lemma_cut_prefix(head: Seq<char>, max: nat)
    ensures
        cut_at_word(head, max).len() <= head.len(),
        cut_at_word(head, max) == head.take(cut_at_word(head, max).len() as int),
        text::utf8_len(cut_at_word(head, max)) <= text::utf8_len(head),
{
    assert(head.take(head.len() as int) == head);
    lemma_last_white_inside(head);
    if let Some(i) = last_white(head) {
        let front = head.take(i);
        let n = text::lemma_trim_end_part(front);
        assert(front.take(n) == head.take(n));
        if text::utf8_len(front) > max / 2 {
            assert(cut_at_word(head, max) == head.take(n));
            assert(head.take(n).len() == n);
            assert(head == head.take(n) + head.skip(n));
            text::lemma_utf8_len_add(head.take(n), head.skip(n));
        }
    }
}

/// The last white space is inside the text.
pub proof fn lemma_last_white_inside(s: Seq<char>)
    ensures
        last_white(s) matches Some(i) ==> 0 <= i < s.len() && text::white(s[i]) && forall|k: int|
            i < k < s.len() ==> !text::white(#[trigger] s[k]),
        last_white(s) is None ==> forall|k: int|
            0 <= k < s.len() ==> !text::white(#[trigger] s[k]),
    decreases s.len(),
{
    if s.len() > 0 && !text::white(s.last()) {
        let init = s.drop_last();
        lemma_last_white_inside(init);
        match last_white(init) {
            Some(i) => {
                assert forall|k: int| i < k < s.len() implies !text::white(#[trigger] s[k]) by {
                    if k < init.len() {
                        assert(!text::white(init[k]));
                    }
                }
            },
            None => {
                assert forall|k: int| 0 <= k < s.len() implies !text::white(#[trigger] s[k]) by {
                    if k < init.len() {
                        assert(!text::white(init[k]));
                    }
                }
            },
        }
    }
}

} // verus!
