//! What the functions on texts, numbers and lists give back.
use vstd::prelude::*;
use vstd::utf8::*;
use crate::chunk_laws;
use crate::document::SourceKind;
use crate::ids;
use crate::lines;
use crate::order;
use crate::pieces;
use crate::text;
use crate::words;
use crate::words::CharClass;

verus! {

// ---------------------------------------------------------------------------
// Lines
// ---------------------------------------------------------------------------

/// How many newlines there are among some bytes.
pub open spec fn newlines(bytes: Seq<u8>) -> nat
    decreases bytes.len(),
{
    if bytes.len() == 0 {
        0
    } else if bytes.last() == 10 {
        newlines(bytes.drop_last()) + 1
    } else {
        newlines(bytes.drop_last())
    }
}

/// The newlines before an offset are counted.
proof fn lemma_newlines_before(bytes: Seq<u8>, at: int)
    requires
        bytes.len() <= usize::MAX,
        0 <= at,
    ensures
        lines::count_before(lines::newline_positions(bytes), at) == newlines(
            bytes.take(if at <= bytes.len() {
                at
            } else {
                bytes.len() as int
            }),
        ),
        newlines(bytes) <= bytes.len(),
    decreases bytes.len(),
{
    if bytes.len() > 0 {
        let init = bytes.drop_last();
        lemma_newlines_before(init, at);
        let n = init.len() as int;
        if at <= n {
            assert(bytes.take(at) =~= init.take(at));
        } else {
            assert(bytes.take(bytes.len() as int) =~= bytes);
            assert(init.take(n) =~= init);
        }
        let all = lines::newline_positions(bytes);
        if bytes.last() == 10 {
            assert(all.drop_last() =~= lines::newline_positions(init));
        }
    }
}

/// A byte lies in the line whose number is one more than the newlines before it.
pub proof fn law_line_numbers(bytes: Seq<u8>, at: int)
    requires
        bytes.len() <= usize::MAX,
        0 <= at <= bytes.len() < u32::MAX,
    ensures
        lines::line_of(lines::newline_positions(bytes), at) == 1 + newlines(bytes.take(at)),
{
    lemma_newlines_before(bytes, at);
    lemma_newlines_before(bytes.take(at), at);
}

// ---------------------------------------------------------------------------
// Trimming, cases and classes of characters
// ---------------------------------------------------------------------------

/// Trimming takes the white space around a text away, and nothing of the text.
pub proof fn law_trim(before: Seq<char>, s: Seq<char>, behind: Seq<char>)
    requires
        forall|i: int| 0 <= i < before.len() ==> text::white(#[trigger] before[i]),
        forall|i: int| 0 <= i < behind.len() ==> text::white(#[trigger] behind[i]),
        s.len() > 0 ==> !text::white(s[0]) && !text::white(s.last()),
    ensures
        text::trim(before + s + behind) == s,
{
    let all = before + s + behind;
    let rest = s + behind;
    assert(all.skip(before.len() as int) =~= rest);
    assert forall|i: int| 0 <= i < before.len() implies text::white(all[i]) by {
        assert(text::white(before[i]));
    }
    text::lemma_trim_start_skip(all, before.len() as int);
    if s.len() > 0 {
        assert(rest[0] == s[0]);
        assert(text::trim_start(rest) == rest);
        chunk_laws::lemma_trim_end_add_white(s, behind);
    } else {
        assert(rest =~= behind);
        chunk_laws::lemma_trim_start_white(behind);
    }
}

/// What counts as white space, as a letter or number, and as upper case, among the
/// characters of ASCII; and what the classes of characters hold of them.
pub proof fn law_ascii_classes(c: char)
    requires
        (c as u32) < 128,
    ensures
        text::white(c) == (c == ' ' || '\t' <= c && c <= '\r'),
        text::alphanumeric(c) == ('0' <= c && c <= '9' || 'a' <= c && c <= 'z' || 'A' <= c && c
            <= 'Z'),
        text::uppercase(c) == ('A' <= c && c <= 'Z'),
        CharClass::Printable.has(c) == !(c == ' ' || '\t' <= c && c <= '\r'),
        CharClass::Alphanumeric.has(c) == ('0' <= c && c <= '9' || 'a' <= c && c <= 'z' || 'A' <= c
            && c <= 'Z'),
        CharClass::Identifier.has(c) == (c == '_' || '0' <= c && c <= '9' || 'a' <= c && c <= 'z'
            || 'A' <= c && c <= 'Z'),
{
}

/// What counts as white space beyond ASCII, and that none of it is a letter.
pub proof fn law_wide_white_space(c: char)
    requires
        c as u32 >= 128,
    ensures
        text::white(c) == (c == '\u{85}' || c == '\u{a0}' || c == '\u{1680}' || '\u{2000}' <= c && c
            <= '\u{200a}' || c == '\u{2028}' || c == '\u{2029}' || c == '\u{202f}' || c == '\u{205f}'
            || c == '\u{3000}'),
        text::white(c) ==> !text::alphanumeric(c) && !CharClass::Identifier.has(c)
            && !CharClass::Printable.has(c),
{
}

/// What reads as an id: thirty-two hexadecimal digits of either case.
pub proof fn law_id_digits(s: Seq<char>)
    ensures
        ids::reads_as_id(s) == (s.len() == 32 && forall|i: int|
            0 <= i < s.len() ==> '0' <= #[trigger] s[i] && s[i] <= '9' || 'a' <= s[i] && s[i] <= 'f'
                || 'A' <= s[i] && s[i] <= 'F'),
{
    if ids::reads_as_id(s) {
        assert forall|i: int| 0 <= i < s.len() implies '0' <= #[trigger] s[i] && s[i] <= '9' || 'a'
            <= s[i] && s[i] <= 'f' || 'A' <= s[i] && s[i] <= 'F' by {
            assert(ids::any_hex_digit(s[i]));
        }
    }
}

/// The lower-case form of a text of ASCII characters: as long as the text, letter
/// for letter the same but for the case.
pub proof fn law_ascii_lowercase(s: Seq<char>, i: int)
    requires
        is_ascii_chars(s),
        0 <= i < s.len(),
    ensures
        text::lowercase(s).len() == s.len(),
        'A' <= s[i] && s[i] <= 'Z' ==> text::lowercase(s)[i] as u32 == s[i] as u32 + 32,
        !('A' <= s[i] && s[i] <= 'Z') ==> text::lowercase(s)[i] == s[i],
{
}

// ---------------------------------------------------------------------------
// Parts of texts
// ---------------------------------------------------------------------------

/// What stands behind the last of a character.
pub proof fn lemma_behind_last_char(head: Seq<char>, tail: Seq<char>, c: char)
    requires
        !tail.contains(c),
    ensures
        pieces::last_match(head + seq![c] + tail, seq![c]) == Some(head.len() as int),
        pieces::behind_last(head + seq![c] + tail, seq![c]) == tail,
    decreases tail.len(),
{
    let all = head + seq![c] + tail;
    let pat = seq![c];
    if tail.len() == 0 {
        assert(all.skip(all.len() - 1) =~= pat);
    } else {
        let init = tail.drop_last();
        assert forall|i: int| 0 <= i < init.len() implies init[i] != c by {
            assert(tail[i] != c);
        }
        lemma_behind_last_char(head, init, c);
        assert(all.drop_last() =~= head + seq![c] + init);
        assert(tail[tail.len() - 1] != c);
        assert(all.skip(all.len() - 1)[0] == tail.last());
    }
    assert(all.skip(head.len() as int + 1) =~= tail);
}

/// Where a character does not stand, there is no last of it.
pub proof fn lemma_no_last_char(s: Seq<char>, c: char)
    requires
        !s.contains(c),
    ensures
        pieces::last_match(s, seq![c]) is None,
        pieces::behind_last(s, seq![c]) == s,
{
    pieces::lemma_last_match(s, seq![c]);
    if let Some(i) = pieces::last_match(s, seq![c]) {
        assert(s.subrange(i, i + 1)[0] == s[i]);
        assert(s[i] == c);
    }
}

/// The last segment of a path stands behind its last double colon, and a path of
/// one segment is its own last segment.
pub proof fn law_last_segment(head: Seq<char>, last: Seq<char>)
    requires
        !last.contains(':'),
    ensures
        pieces::behind_last(head + seq![':', ':'] + last, seq![':', ':']) == last,
        pieces::behind_last(last, seq![':', ':']) == last,
    decreases last.len(),
{
    let pat = seq![':', ':'];
    let all = head + pat + last;
    pieces::lemma_last_match(last, pat);
    if let Some(i) = pieces::last_match(last, pat) {
        assert(last.subrange(i, i + 2)[0] == last[i]);
        assert(last[i] == ':');
    }
    lemma_last_pair(head, last);
    assert(all.skip(head.len() as int + 2) =~= last);
}

/// Where the last double colon stands.
proof fn lemma_last_pair(head: Seq<char>, last: Seq<char>)
    requires
        !last.contains(':'),
    ensures
        pieces::last_match(head + seq![':', ':'] + last, seq![':', ':']) == Some(head.len() as int),
    decreases last.len(),
{
    let pat = seq![':', ':'];
    let all = head + pat + last;
    if last.len() == 0 {
        assert(all.skip(all.len() - 2) =~= pat);
    } else {
        let init = last.drop_last();
        assert forall|i: int| 0 <= i < init.len() implies init[i] != ':' by {
            assert(last[i] != ':');
        }
        lemma_last_pair(head, init);
        assert(all.drop_last() =~= head + pat + init);
        assert(last[last.len() - 1] != ':');
        assert(all.skip(all.len() - 2)[1] == last.last());
    }
}

/// A text occurs in another just when it stands somewhere in it.
pub proof fn law_occurs(before: Seq<char>, pat: Seq<char>, behind: Seq<char>)
    requires
        pat.len() > 0,
    ensures
        pieces::occurs(before + pat + behind, pat),
{
    let all = before + pat + behind;
    pieces::lemma_last_match(all, pat);
    assert(all.subrange(before.len() as int, (before.len() + pat.len()) as int) =~= pat);
    assert(pieces::shows_at(all, pat, before.len() as int));
}

/// A suffix is taken away as often as it stands there, and nothing else is.
pub proof fn law_strip_suffixes(s: Seq<char>, suffix: Seq<char>)
    requires
        suffix.len() > 0,
    ensures
        pieces::strip_suffixes(s + suffix, suffix) == pieces::strip_suffixes(s, suffix),
        !pieces::has_suffix(s, suffix) ==> pieces::strip_suffixes(s + suffix, suffix) == s,
        pieces::has_suffix(s + suffix, suffix),
{
    let all = s + suffix;
    assert(all.skip(all.len() - suffix.len()) =~= suffix);
    assert(all.take(all.len() - suffix.len()) =~= s);
}

/// Replacing a character by another one changes every place where it stands, and no
/// other place.
pub proof fn law_replace_char(s: Seq<char>, from: char, to: char)
    ensures
        pieces::replace_each(s, from, seq![to]).len() == s.len(),
        forall|i: int|
            0 <= i < s.len() ==> #[trigger] pieces::replace_each(s, from, seq![to])[i] == (if s[i]
                == from {
                to
            } else {
                s[i]
            }),
    decreases s.len(),
{
    if s.len() > 0 {
        law_replace_char(s.drop_last(), from, to);
        let all = pieces::replace_each(s, from, seq![to]);
        let init = pieces::replace_each(s.drop_last(), from, seq![to]);
        assert forall|i: int| 0 <= i < s.len() implies #[trigger] all[i] == (if s[i] == from {
            to
        } else {
            s[i]
        }) by {
            if i < s.len() - 1 {
                assert(all[i] == init[i]);
            }
        }
    }
}

// ---------------------------------------------------------------------------
// Numbers
// ---------------------------------------------------------------------------

/// The number that decimal digits say.
pub open spec fn number(digits: Seq<char>) -> int
    decreases digits.len(),
{
    if digits.len() == 0 {
        0
    } else {
        10 * number(digits.drop_last()) + (digits.last() as u32 - '0' as u32)
    }
}

/// The digits of a number say the number; there is no leading zero but for zero.
pub proof fn law_decimal_reads_back(n: nat)
    ensures
        number(pieces::decimal(n)) == n,
        pieces::decimal(n).len() > 1 ==> pieces::decimal(n)[0] != '0',
    decreases n,
{
    let all = pieces::decimal(n);
    reveal_with_fuel(number, 2);
    if n < 10 {
        assert(all.drop_last() =~= Seq::<char>::empty());
        assert(all.last() as u32 == '0' as u32 + n);
    } else {
        law_decimal_reads_back(n / 10);
        let init = pieces::decimal(n / 10);
        assert(all.drop_last() =~= init);
        assert(all.last() as u32 == '0' as u32 + n % 10);
        pieces::lemma_decimal_digits(n / 10);
        assert(all[0] == init[0]);
        if init.len() == 1 {
            assert(number(init) == n / 10);
            assert(init.drop_last() =~= Seq::<char>::empty());
        }
    }
}

/// The value of a hexadecimal digit.
pub open spec fn digit_value(c: char) -> int {
    if c <= '9' {
        c as u32 - '0' as u32
    } else {
        10 + (c as u32 - 'a' as u32)
    }
}

/// Two hexadecimal digits say each byte, the greater one first.
pub proof fn law_hex_reads_back(bytes: Seq<u8>, i: int)
    requires
        0 <= i < bytes.len(),
    ensures
        ids::hex(bytes).len() == 2 * bytes.len(),
        16 * digit_value(ids::hex(bytes)[2 * i]) + digit_value(ids::hex(bytes)[2 * i + 1])
            == bytes[i],
    decreases bytes.len(),
{
    ids::lemma_hex_digits(bytes);
    let init = bytes.drop_last();
    ids::lemma_hex_digits(init);
    let all = ids::hex(bytes);
    if i < init.len() {
        law_hex_reads_back(init, i);
        assert(all[2 * i] == ids::hex(init)[2 * i]);
        assert(all[2 * i + 1] == ids::hex(init)[2 * i + 1]);
    } else {
        let b = bytes.last();
        assert(all[2 * i] == ids::nibble(b / 16));
        assert(all[2 * i + 1] == ids::nibble(b % 16));
    }
}

/// The id of an identity says the leading sixteen bytes of the digest of its text,
/// and the text has the unit separator between the parts.
pub proof fn law_id_says_digest(parts: Seq<Seq<char>>, part: Seq<char>, i: int)
    requires
        parts.len() > 0,
        0 <= i < 16,
    ensures
        ids::identity_text(seq![part]) == part,
        ids::identity_text(parts.push(part)) == ids::identity_text(parts) + seq!['\u{1f}'] + part,
        ({
            let digest = ids::sha256(encode_utf8(ids::identity_text(parts)));
            let id = ids::identity_id(parts);
            digest.len() >= 16 ==> id.len() == 32 && 16 * digit_value(id[2 * i]) + digit_value(
                id[2 * i + 1],
            ) == digest[i]
        }),
{
    assert(parts.push(part).drop_last() =~= parts);
    let digest = ids::sha256(encode_utf8(ids::identity_text(parts)));
    if digest.len() >= 16 {
        law_hex_reads_back(digest.take(16), i);
    }
}

// ---------------------------------------------------------------------------
// Lists of texts
// ---------------------------------------------------------------------------

/// Parts without the separator can be told from the text of their identity.
pub proof fn law_identity_parts(a: Seq<Seq<char>>, b: Seq<Seq<char>>)
    requires
        a.len() == b.len(),
        ids::identity_text(a) == ids::identity_text(b),
        forall|i: int|
            0 <= i < a.len() ==> !(#[trigger] a[i]).contains(ids::unit_separator()),
        forall|i: int|
            0 <= i < b.len() ==> !(#[trigger] b[i]).contains(ids::unit_separator()),
    ensures
        a == b,
    decreases a.len(),
{
    let sep = ids::unit_separator();
    if a.len() == 0 {
        assert(a =~= b);
    } else if a.len() == 1 {
        assert(a[0] == b[0]);
        assert(a =~= b);
    } else {
        let x = a.drop_last();
        let y = b.drop_last();
        assert(!a[a.len() - 1].contains(sep));
        assert(!b[b.len() - 1].contains(sep));
        lemma_behind_last_char(ids::identity_text(x), a.last(), sep);
        lemma_behind_last_char(ids::identity_text(y), b.last(), sep);
        let whole = ids::identity_text(a);
        assert(whole.take(ids::identity_text(x).len() as int) =~= ids::identity_text(x));
        assert(whole.take(ids::identity_text(y).len() as int) =~= ids::identity_text(y));
        assert forall|i: int| 0 <= i < x.len() implies !(#[trigger] x[i]).contains(sep) by {
            assert(!a[i].contains(sep));
        }
        assert forall|i: int| 0 <= i < y.len() implies !(#[trigger] y[i]).contains(sep) by {
            assert(!b[i].contains(sep));
        }
        law_identity_parts(x, y);
        assert(a =~= x.push(a.last()));
        assert(b =~= y.push(b.last()));
    }
}

/// The name of a source kind is free of the separator.
pub proof fn lemma_kind_name_plain(kind: SourceKind)
    ensures
        !kind.name().contains(ids::unit_separator()),
{
    reveal_strlit("rustdoc_item");
    reveal_strlit("rustdoc_module");
    reveal_strlit("crate_readme");
    reveal_strlit("markdown_document");
}

/// So are digits.
pub proof fn lemma_decimal_plain(n: nat)
    ensures
        !pieces::decimal(n).contains(ids::unit_separator()),
{
    pieces::lemma_decimal_digits(n);
}

/// Words with a separator between them are read as these words again, whatever
/// single character outside the class separates them.
pub proof fn law_words_of_joined(ws: Seq<Seq<char>>, sep: char, class: CharClass)
    requires
        !class.has(sep),
        forall|i: int| 0 <= i < ws.len() ==> (#[trigger] ws[i]).len() > 0,
        forall|i: int, j: int|
            0 <= i < ws.len() && 0 <= j < ws[i].len() ==> class.has(#[trigger] ws[i][j]),
    ensures
        words::words(words::join(ws, seq![sep]), class) == ws,
{
    words::lemma_words_of_join(ws, sep, class);
}

/// A character outside the class ends a word: the words of a text are those before the
/// character, and then those behind it.
pub proof fn law_words_end_at_separator(a: Seq<char>, sep: char, b: Seq<char>, class: CharClass)
    requires
        !class.has(sep),
    ensures
        words::words(a + seq![sep] + b, class) == words::words(a, class) + words::words(b, class),
    decreases b.len(),
{
    let all = a + seq![sep] + b;
    let x = words::words(a, class);
    if b.len() == 0 {
        assert(all.drop_last() =~= a);
        assert(all.last() == sep);
        assert(x + words::words(b, class) =~= x);
    } else {
        let init = b.drop_last();
        law_words_end_at_separator(a, sep, init, class);
        assert(all.drop_last() =~= a + seq![sep] + init);
        assert(all.last() == b.last());
        let y = words::words(init, class);
        let c = b.last();
        if class.has(c) {
            if b.len() >= 2 {
                assert(all[all.len() - 2] == b[b.len() - 2]);
                if class.has(b[b.len() - 2]) {
                    words::lemma_words_members(init, class);
                    assert(init.last() == b[b.len() - 2]);
                    assert((x + y).last() == y.last());
                    assert((x + y).drop_last().push(y.last().push(c)) =~= x + y.drop_last().push(
                        y.last().push(c),
                    ));
                } else {
                    assert((x + y).push(seq![c]) =~= x + y.push(seq![c]));
                }
            } else {
                assert(all[all.len() - 2] == sep);
                assert((x + y).push(seq![c]) =~= x + y.push(seq![c]));
            }
        }
    }
}

/// A run of characters of the class is one word.
pub proof fn law_run_is_one_word(run: Seq<char>, class: CharClass)
    requires
        run.len() > 0,
        forall|i: int| 0 <= i < run.len() ==> class.has(#[trigger] run[i]),
    ensures
        words::words(run, class) == seq![run],
    decreases run.len(),
{
    let init = run.drop_last();
    assert(class.has(run[run.len() - 1]));
    if init.len() > 0 {
        assert forall|i: int| 0 <= i < init.len() implies class.has(#[trigger] init[i]) by {
            assert(class.has(run[i]));
        }
        law_run_is_one_word(init, class);
        assert(class.has(run[run.len() - 2]));
        assert(init.push(run.last()) =~= run);
        assert(words::words(run, class) =~= seq![run]);
    } else {
        assert(words::words(init, class) =~= Seq::<Seq<char>>::empty());
        assert(run =~= seq![run.last()]);
        assert(words::words(run, class) =~= seq![run]);
    }
}

/// Of two texts that begin in the same way, the one that ends first comes first,
/// else the one whose next character is smaller.
pub proof fn law_text_order(same: Seq<char>, c: char, a: Seq<char>, d: char, b: Seq<char>)
    requires
        c < d,
    ensures
        order::text_less(same + seq![c] + a, same + seq![d] + b),
        order::text_less(same, same + seq![c] + a),
    decreases same.len(),
{
    let x = same + seq![c] + a;
    let y = same + seq![d] + b;
    if same.len() > 0 {
        let rest = same.drop_first();
        law_text_order(rest, c, a, d, b);
        assert(x.drop_first() =~= rest + seq![c] + a);
        assert(y.drop_first() =~= rest + seq![d] + b);
    }
}

/// Of two lists that begin in the same way, the one that ends first comes first,
/// else the one whose next text comes first.
pub proof fn law_list_order(
    same: Seq<Seq<char>>,
    s: Seq<char>,
    a: Seq<Seq<char>>,
    t: Seq<char>,
    b: Seq<Seq<char>>,
)
    requires
        order::text_less(s, t),
    ensures
        order::key_less(same + seq![s] + a, same + seq![t] + b),
        order::key_less(same, same + seq![s] + a),
    decreases same.len(),
{
    let x = same + seq![s] + a;
    let y = same + seq![t] + b;
    order::lemma_text_less_asymmetric(s, t);
    if same.len() > 0 {
        let rest = same.drop_first();
        law_list_order(rest, s, a, t, b);
        assert(x.drop_first() =~= rest + seq![s] + a);
        assert(y.drop_first() =~= rest + seq![t] + b);
    }
}

} // verus!
