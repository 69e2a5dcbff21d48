//! Text primitives: characters, words, trimming, joining and UTF-8 lengths.
//!
//! Every function works on the sequence of characters that a string shows
//! (`s@`). Lengths in bytes are spoken of through `utf8_len`.
use vstd::prelude::*;
use vstd::utf8::*;

verus! {

// ---------------------------------------------------------------------------
// Building strings
// ---------------------------------------------------------------------------

/// `String::push`: appends one character to the end of the string.
pub assume_specification[ String::push ](s: &mut String, c: char)
    ensures
        final(s)@ == old(s)@.push(c),
;

/// `String::push_str`: appends a string slice to the end of the string.
pub assume_specification[ String::push_str ](s: &mut String, other: &str)
    ensures
        final(s)@ == old(s)@ + other@,
;

/// The characters of a string, in order.
pub fn to_chars(s: &str) -> (r: Vec<char>)
    ensures
        r@ == s@,
{
    let mut out: Vec<char> = Vec::new();
    for c in it: s.chars()
        invariant
            out@ == it.seq().take(it.index()),
            it.seq() == s@,
    {
        out.push(c);
    }
    out
}

/// The string made of the characters `chars[from..to]`.
pub fn from_range(chars: &Vec<char>, from: usize, to: usize) -> (r: String)
    requires
        from <= to <= chars@.len(),
    ensures
        r@ == chars@.subrange(from as int, to as int),
{
    let mut out = String::new();
    let mut i: usize = from;
    while i < to
        invariant
            from <= i <= to <= chars@.len(),
            out@ == chars@.subrange(from as int, i as int),
        decreases to - i,
    {
        out.push(chars[i]);
        i = i + 1;
    }
    out
}

/// Whether two strings show the same characters.
pub fn same_text(a: &str, b: &str) -> (r: bool)
    ensures
        r == (a@ == b@),
{
    let x = a.to_owned();
    let y = b.to_owned();
    x == y
}

// ---------------------------------------------------------------------------
// UTF-8 lengths
// ---------------------------------------------------------------------------

/// Number of bytes that encode one character.
pub open spec fn char_width(c: char) -> nat {
    if c as u32 <= 0x7f {
        1
    } else if c as u32 <= 0x7ff {
        2
    } else if c as u32 <= 0xffff {
        3
    } else {
        4
    }
}

/// Number of bytes that encode a text.
pub open spec fn utf8_len(s: Seq<char>) -> nat
    decreases s.len(),
{
    if s.len() == 0 {
        0
    } else {
        utf8_len(s.drop_last()) + char_width(s.last())
    }
}

/// The length of a concatenation is the sum of the lengths.
pub proof fn lemma_utf8_len_add(a: Seq<char>, b: Seq<char>)
    ensures
        utf8_len(a + b) == utf8_len(a) + utf8_len(b),
    decreases b.len(),
{
    if b.len() == 0 {
        assert(a + b == a);
    } else {
        assert((a + b).drop_last() == a + b.drop_last());
        lemma_utf8_len_add(a, b.drop_last());
    }
}

/// Every text takes at least one byte per character, and at most four.
pub proof fn lemma_utf8_len_bounds(s: Seq<char>)
    ensures
        s.len() <= utf8_len(s) <= 4 * s.len(),
    decreases s.len(),
{
    if s.len() > 0 {
        lemma_utf8_len_bounds(s.drop_last());
    }
}

/// `utf8_len` is the length of the UTF-8 encoding.
pub proof fn lemma_utf8_len_encoding(s: Seq<char>)
    ensures
        utf8_len(s) == encode_utf8(s).len(),
    decreases s.len(),
{
    if s.len() > 0 {
        let first = seq![s[0]];
        assert(s == first + s.drop_first());
        lemma_utf8_len_add(first, s.drop_first());
        lemma_utf8_len_encoding(s.drop_first());
        assert(first.drop_last() == Seq::<char>::empty());
        assert(utf8_len(first) == char_width(s[0])) by {
            reveal_with_fuel(utf8_len, 2);
        }
        char_is_scalar(s[0]);
    }
}

/// The number of bytes of a string.
pub fn byte_len(s: &str) -> (n: usize)
    ensures
        n == utf8_len(s@),
{
    proof {
        lemma_utf8_len_encoding(s@);
    }
    s.as_bytes().len()
}

/// The number of bytes that encode one character.
pub fn width_of(c: char) -> (n: usize)
    ensures
        n == char_width(c),
{
    if c <= '\u{7f}' {
        1
    } else if c <= '\u{7ff}' {
        2
    } else if c <= '\u{ffff}' {
        3
    } else {
        4
    }
}

// ---------------------------------------------------------------------------
// Character classes
// ---------------------------------------------------------------------------

/// The characters with Unicode's `White_Space` property.
pub open spec fn white(c: char) -> bool {
    let u = c as u32;
    ||| 0x09 <= u <= 0x0d
    ||| u == 0x20
    ||| u == 0x85
    ||| u == 0xa0
    ||| u == 0x1680
    ||| 0x2000 <= u <= 0x200a
    ||| u == 0x2028
    ||| u == 0x2029
    ||| u == 0x202f
    ||| u == 0x205f
    ||| u == 0x3000
}

/// Whether `c` is white space.
pub fn is_white(c: char) -> (b: bool)
    ensures
        b == white(c),
{
    let u: u32 = c as u32;
    (0x09 <= u && u <= 0x0d) || u == 0x20 || u == 0x85 || u == 0xa0 || u == 0x1680 || (0x2000 <= u
        && u <= 0x200a) || u == 0x2028 || u == 0x2029 || u == 0x202f || u == 0x205f || u == 0x3000
}

/// ASCII letters and digits.
pub open spec fn ascii_alphanumeric(c: char) -> bool {
    'a' <= c <= 'z' || 'A' <= c <= 'Z' || '0' <= c <= '9'
}

/// Unicode's verdict on letters and numbers, for characters beyond ASCII.
pub uninterp spec fn unicode_alphanumeric(c: char) -> bool;

/// Letters and numbers.
pub open spec fn alphanumeric(c: char) -> bool {
    ascii_alphanumeric(c) || (c as u32 > 0x7f && !white(c) && unicode_alphanumeric(c))
}

/// `char::is_alphanumeric`: on ASCII, exactly the letters and digits; beyond
/// ASCII, what Unicode's tables say, under the name `unicode_alphanumeric`. No
/// white space is among the letters and numbers: Unicode has it among separators
/// and controls.
#[verifier::external_body]
pub(crate) fn is_alphanumeric(c: char) -> (b: bool)
    ensures
        b == (ascii_alphanumeric(c) || (c as u32 > 0x7f && !white(c) && unicode_alphanumeric(c))),
{
    c.is_alphanumeric()
}

/// Unicode's verdict on upper-case letters, for characters beyond ASCII.
pub uninterp spec fn unicode_uppercase(c: char) -> bool;

/// Upper-case letters.
pub open spec fn uppercase(c: char) -> bool {
    'A' <= c <= 'Z' || (c as u32 > 0x7f && unicode_uppercase(c))
}

/// `char::is_uppercase`: on ASCII, exactly `A` to `Z`; beyond ASCII, what
/// Unicode's tables say, under the name `unicode_uppercase`.
#[verifier::external_body]
pub(crate) fn is_uppercase(c: char) -> (b: bool)
    ensures
        b == ('A' <= c <= 'Z' || (c as u32 > 0x7f && unicode_uppercase(c))),
{
    c.is_uppercase()
}

// ---------------------------------------------------------------------------
// Lower case
// ---------------------------------------------------------------------------

/// The lower-case form of an ASCII character.
pub open spec fn ascii_lower(c: char) -> char {
    if 'A' <= c <= 'Z' {
        ((c as u32 + 32) as u32) as char
    } else {
        c
    }
}

/// The text with its ASCII letters in lower case.
pub open spec fn ascii_lowercase(s: Seq<char>) -> Seq<char> {
    s.map_values(|c: char| ascii_lower(c))
}

/// The lower-case form of an ASCII letter; any other character as it is.
fn lower_char(c: char) -> (r: char)
    ensures
        r == ascii_lower(c),
{
    if 'A' <= c && c <= 'Z' {
        let code: u8 = c as u8;
        (code + 32) as char
    } else {
        c
    }
}

/// `s` with its ASCII letters in lower case.
pub fn to_ascii_lower(s: &str) -> (r: String)
    ensures
        r@ == ascii_lowercase(s@),
{
    let chars = to_chars(s);
    let mut out = String::new();
    let mut i: usize = 0;
    while i < chars.len()
        invariant
            i <= chars@.len(),
            out@ == ascii_lowercase(chars@.take(i as int)),
        decreases chars@.len() - i,
    {
        let ghost before = out@;
        out.push(lower_char(chars[i]));
        assert(ascii_lowercase(chars@.take(i + 1)) == before.push(ascii_lower(chars@[i as int])));
        i = i + 1;
    }
    assert(chars@.take(chars@.len() as int) == s@);
    out
}

/// Unicode's lower-case form of a text that is not all ASCII.
pub uninterp spec fn unicode_lowercase(s: Seq<char>) -> Seq<char>;

/// The lower-case form of a text.
pub open spec fn lowercase(s: Seq<char>) -> Seq<char> {
    if is_ascii_chars(s) {
        ascii_lowercase(s)
    } else {
        unicode_lowercase(s)
    }
}

/// `str::to_lowercase`: on an ASCII text, each letter `A` to `Z` becomes its
/// lower-case letter and nothing else changes; on any other text the result is
/// what Unicode's tables say, under the name `unicode_lowercase`.
#[verifier::external_body]
pub(crate) fn to_lowercase(s: &str) -> (r: String)
    ensures
        is_ascii_chars(s@) ==> r@ == ascii_lowercase(s@),
        !is_ascii_chars(s@) ==> r@ == unicode_lowercase(s@),
{
    s.to_lowercase()
}

/// Lower-casing an ASCII text twice changes nothing more.
pub proof fn lemma_lowercase_ascii_idempotent(s: Seq<char>)
    requires
        is_ascii_chars(s),
    ensures
        lowercase(lowercase(s)) == lowercase(s),
        lowercase(s).len() == s.len(),
        is_ascii_chars(lowercase(s)),
{
    let once = lowercase(s);
    assert forall|i: int| 0 <= i < once.len() implies (once[i] as u32) < 128 && ascii_lower(once[i])
        == once[i] by {
        assert(once[i] == ascii_lower(s[i]));
        assert((s[i] as u32) < 128);
    }
    assert(lowercase(once) =~= once);
}

// ---------------------------------------------------------------------------
// Trimming
// ---------------------------------------------------------------------------

/// The text without its leading white space.
pub open spec fn trim_start(s: Seq<char>) -> Seq<char>
    decreases s.len(),
{
    if s.len() > 0 && white(s[0]) {
        trim_start(s.drop_first())
    } else {
        s
    }
}

/// The text without its trailing white space.
pub open spec fn trim_end(s: Seq<char>) -> Seq<char>
    decreases s.len(),
{
    if s.len() > 0 && white(s.last()) {
        trim_end(s.drop_last())
    } else {
        s
    }
}

/// The text without leading and trailing white space.
pub open spec fn trim(s: Seq<char>) -> Seq<char> {
    trim_end(trim_start(s))
}

/// Dropping leading white space one run at a time changes nothing.
pub proof fn lemma_trim_start_skip(s: Seq<char>, n: int)
    requires
        0 <= n <= s.len(),
        forall|i: int| 0 <= i < n ==> white(s[i]),
    ensures
        trim_start(s.skip(n)) == trim_start(s),
    decreases n,
{
    if n == 0 {
        assert(s.skip(0) == s);
    } else {
        assert(white(s[0]));
        assert forall|i: int| 0 <= i < n - 1 implies white(#[trigger] s.drop_first()[i]) by {
            assert(white(s[i + 1]));
        }
        lemma_trim_start_skip(s.drop_first(), n - 1);
        assert(s.drop_first().skip(n - 1) == s.skip(n));
    }
}

/// Dropping trailing white space one run at a time changes nothing.
proof fn lemma_trim_end_take(s: Seq<char>, n: int)
    requires
        0 <= n <= s.len(),
        forall|i: int| n <= i < s.len() ==> white(s[i]),
    ensures
        trim_end(s.take(n)) == trim_end(s),
    decreases s.len() - n,
{
    if n == s.len() {
        assert(s.take(n) == s);
    } else {
        assert(white(s.last()));
        lemma_trim_end_take(s.drop_last(), n);
        assert(s.drop_last().take(n) == s.take(n));
    }
}

/// `s` without trailing white space.
pub fn trimmed_end(s: &str) -> (r: String)
    ensures
        r@ == trim_end(s@),
{
    let chars = to_chars(s);
    let mut end: usize = chars.len();
    while end > 0 && is_white(chars[end - 1])
        invariant
            end <= chars@.len(),
            forall|i: int| end <= i < chars@.len() ==> white(chars@[i]),
        decreases end,
    {
        end = end - 1;
    }
    proof {
        lemma_trim_end_take(chars@, end as int);
        assert(chars@.subrange(0, end as int) == chars@.take(end as int));
    }
    from_range(&chars, 0, end)
}

/// `s` without leading and trailing white space.
pub fn trimmed(s: &str) -> (r: String)
    ensures
        r@ == trim(s@),
{
    let chars = to_chars(s);
    let mut start: usize = 0;
    while start < chars.len() && is_white(chars[start])
        invariant
            start <= chars@.len(),
            forall|i: int| 0 <= i < start ==> white(chars@[i]),
        decreases chars@.len() - start,
    {
        start = start + 1;
    }
    let mut end: usize = chars.len();
    while end > start && is_white(chars[end - 1])
        invariant
            start <= end <= chars@.len(),
            forall|i: int| end <= i < chars@.len() ==> white(chars@[i]),
        decreases end,
    {
        end = end - 1;
    }
    proof {
        let rest = chars@.skip(start as int);
        lemma_trim_start_skip(chars@, start as int);
        assert(trim_start(rest) == rest);
        lemma_trim_end_take(rest, end - start);
        assert(rest.take(end - start) == chars@.subrange(start as int, end as int));
    }
    from_range(&chars, start, end)
}

/// Trimming takes a contiguous part of the text.
pub proof fn lemma_trim_part(s: Seq<char>) -> (r: (int, int))
    ensures
        0 <= r.0 <= r.1 <= s.len(),
        trim(s) == s.subrange(r.0, r.1),
        trim(s).len() > 0 ==> !white(trim(s)[0]) && !white(trim(s).last()),
{
    let a = lemma_trim_start_part(s);
    let rest = s.skip(a);
    let b = lemma_trim_end_part(rest);
    assert(rest.take(b) == s.subrange(a, a + b));
    assert(trim_start(s) == rest);
    if trim(s).len() > 0 {
        assert(trim(s)[0] == rest[0]);
    }
    (a, a + b)
}

/// Trimming the start drops a number of leading characters.
pub proof fn lemma_trim_start_part(s: Seq<char>) -> (n: int)
    ensures
        0 <= n <= s.len(),
        trim_start(s) == s.skip(n),
        trim_start(s).len() > 0 ==> !white(trim_start(s)[0]),
    decreases s.len(),
{
    if s.len() > 0 && white(s[0]) {
        let n = lemma_trim_start_part(s.drop_first());
        assert(s.drop_first().skip(n) == s.skip(n + 1));
        n + 1
    } else {
        assert(s.skip(0) == s);
        0
    }
}

/// Trimming the end keeps a number of leading characters.
pub proof fn lemma_trim_end_part(s: Seq<char>) -> (n: int)
    ensures
        0 <= n <= s.len(),
        trim_end(s) == s.take(n),
        trim_end(s).len() > 0 ==> !white(trim_end(s).last()),
    decreases s.len(),
{
    if s.len() > 0 && white(s.last()) {
        let n = lemma_trim_end_part(s.drop_last());
        assert(s.drop_last().take(n) == s.take(n));
        n
    } else {
        assert(s.take(s.len() as int) == s);
        s.len() as int
    }
}

/// Trimming twice changes nothing more.
pub proof fn lemma_trim_idempotent(s: Seq<char>)
    ensures
        trim(trim(s)) == trim(s),
{
    let _ = lemma_trim_part(s);
}

/// A trimmed text takes no more bytes than the text.
pub proof fn lemma_trim_shorter(s: Seq<char>)
    ensures
        utf8_len(trim(s)) <= utf8_len(s),
{
    let (a, b) = lemma_trim_part(s);
    let middle = s.subrange(a, b);
    assert(s =~= s.take(a) + middle + s.skip(b));
    lemma_utf8_len_add(s.take(a) + middle, s.skip(b));
    lemma_utf8_len_add(s.take(a), middle);
}

} // verus!
