//! Stable document ids, derived from what identifies a document.
use sha2::{Digest, Sha256};
use vstd::prelude::*;
use vstd::utf8::*;
use crate::text;
use crate::words;

verus! {

/// Number of hexadecimal digits of a document id.
pub const ID_DIGITS: usize = 32;

/// Lower-case hexadecimal digits.
pub open spec fn hex_digit(c: char) -> bool {
    '0' <= c <= '9' || 'a' <= c <= 'f'
}

/// Hexadecimal digits of either case.
pub open spec fn any_hex_digit(c: char) -> bool {
    hex_digit(c) || 'A' <= c <= 'F'
}

/// The texts that are document ids.
pub open spec fn is_id(s: Seq<char>) -> bool {
    s.len() == ID_DIGITS && forall|i: int| 0 <= i < s.len() ==> hex_digit(#[trigger] s[i])
}

/// The texts that `DocumentId::from_raw` reads as ids.
pub open spec fn reads_as_id(s: Seq<char>) -> bool {
    s.len() == ID_DIGITS && forall|i: int| 0 <= i < s.len() ==> any_hex_digit(#[trigger] s[i])
}

/// The digit of a value below sixteen.
pub open spec fn nibble(v: u8) -> char {
    if v < 10 {
        ((48 + v) as u32) as char
    } else {
        ((87 + v) as u32) as char
    }
}

/// Two digits for each byte.
pub open spec fn hex(bytes: Seq<u8>) -> Seq<char>
    decreases bytes.len(),
{
    if bytes.len() == 0 {
        Seq::empty()
    } else {
        hex(bytes.drop_last()).push(nibble(bytes.last() / 16)).push(nibble(bytes.last() % 16))
    }
}

/// The SHA-256 digest of some bytes.
pub uninterp spec fn sha256(data: Seq<u8>) -> Seq<u8>;

/// `sha2::Sha256::digest`: the SHA-256 digest of `data`, under the name
/// `sha256`, which is always thirty-two bytes long.
#[verifier::external_body]
fn sha256_of(data: &[u8]) -> (r: Vec<u8>)
    ensures
        r@ == sha256(data@),
        r@.len() == 32,
{
    Sha256::digest(data).to_vec()
}

/// What stands between the parts of an identity.
pub open spec fn unit_separator() -> char {
    '\u{1f}'
}

/// What a list of string slices shows.
pub open spec fn part_views(parts: Seq<&str>) -> Seq<Seq<char>> {
    parts.map_values(|p: &str| p@)
}

/// The canonical identity: the parts with the unit separator between them.
pub open spec fn identity_text(parts: Seq<Seq<char>>) -> Seq<char> {
    words::join(parts, seq![unit_separator()])
}

/// The id that belongs to an identity: the leading half of the hexadecimal
/// SHA-256 digest of its canonical text.
pub open spec fn identity_id(parts: Seq<Seq<char>>) -> Seq<char> {
    hex(sha256(encode_utf8(identity_text(parts))).take(16))
}

/// The digits of `bytes` are lower-case hexadecimal, two for each byte.
pub proof fn lemma_hex_digits(bytes: Seq<u8>)
    ensures
        hex(bytes).len() == 2 * bytes.len(),
        forall|i: int| 0 <= i < hex(bytes).len() ==> hex_digit(#[trigger] hex(bytes)[i]),
    decreases bytes.len(),
{
    if bytes.len() > 0 {
        lemma_hex_digits(bytes.drop_last());
    }
}

/// The digit of a value below sixteen.
fn nibble_char(v: u8) -> (c: char)
    requires
        v < 16,
    ensures
        c == nibble(v),
{
    match v {
        0 => '0',
        1 => '1',
        2 => '2',
        3 => '3',
        4 => '4',
        5 => '5',
        6 => '6',
        7 => '7',
        8 => '8',
        9 => '9',
        10 => 'a',
        11 => 'b',
        12 => 'c',
        13 => 'd',
        14 => 'e',
        _ => 'f',
    }
}

/// The lower-case form of a hexadecimal digit.
fn lower_hex(c: char) -> (r: char)
    requires
        any_hex_digit(c),
    ensures
        r == text::ascii_lower(c),
        hex_digit(r),
{
    match c {
        'A' => 'a',
        'B' => 'b',
        'C' => 'c',
        'D' => 'd',
        'E' => 'e',
        'F' => 'f',
        _ => c,
    }
}

/// A stable document id: thirty-two lower-case hexadecimal digits.
#[derive(Debug, PartialEq, Eq, Hash)]
pub struct DocumentId {
    digits: String,
}

impl View for DocumentId {
    type V = Seq<char>;

    closed spec fn view(&self) -> Seq<char> {
        self.digits@
    }
}

impl Clone for DocumentId {
    fn clone(&self) -> (r: Self)
        ensures
            r@ == self@,
    {
        proof {
            use_type_invariant(self);
        }
        DocumentId { digits: self.digits.clone() }
    }
}

impl DocumentId {
    #[verifier::type_invariant]
    spec fn well_formed(self) -> bool {
        is_id(self.digits@)
    }

    /// Every id is thirty-two lower-case hexadecimal digits.
    pub fn as_str(&self) -> (r: &str)
        ensures
            r@ == self@,
            is_id(r@),
    {
        proof {
            use_type_invariant(self);
        }
        self.digits.as_str()
    }

    /// Reads an id; upper-case digits are accepted and normalized. Anything but
    /// thirty-two hexadecimal digits is no id.
    pub fn from_raw(raw: &str) -> (r: Option<DocumentId>)
        ensures
            r is Some == reads_as_id(raw@),
            r matches Some(id) ==> id@ == text::lowercase(raw@) && is_id(id@),
    {
        let chars = text::to_chars(raw);
        if chars.len() != ID_DIGITS {
            return None;
        }
        let mut digits = String::new();
        let mut i: usize = 0;
        while i < chars.len()
            invariant
                i <= chars@.len(),
                chars@ == raw@,
                chars@.len() == ID_DIGITS,
                digits@.len() == i,
                forall|k: int| 0 <= k < i ==> any_hex_digit(#[trigger] chars@[k]),
                forall|k: int|
                    0 <= k < i ==> #[trigger] digits@[k] == text::ascii_lower(chars@[k])
                        && hex_digit(digits@[k]),
            decreases chars@.len() - i,
        {
            let c = chars[i];
            if !(('0' <= c && c <= '9') || ('a' <= c && c <= 'f') || ('A' <= c && c <= 'F')) {
                assert(!any_hex_digit(raw@[i as int]));
                return None;
            }
            digits.push(lower_hex(c));
            i = i + 1;
        }
        proof {
            assert forall|k: int| 0 <= k < raw@.len() implies (#[trigger] raw@[k] as u32) < 128 by {
                assert(any_hex_digit(chars@[k]));
            }
            assert(is_ascii_chars(raw@));
            assert(digits@ =~= text::lowercase(raw@));
        }
        Some(DocumentId { digits })
    }

    /// The id that belongs to an identity.
    pub fn from_identity(parts: &[&str]) -> (r: DocumentId)
        ensures
            r@ == identity_id(part_views(parts@)),
            is_id(r@),
    {
        let mut all = String::new();
        let mut i: usize = 0;
        while i < parts.len()
            invariant
                i <= parts@.len(),
                all@ == identity_text(part_views(parts@).take(i as int)),
            decreases parts@.len() - i,
        {
            let ghost views = part_views(parts@);
            assert(views.take(i + 1).drop_last() == views.take(i as int));
            assert(views.take(i + 1).last() == parts@[i as int]@);
            let ghost before = all@;
            if i > 0 {
                all.push('\u{1f}');
                assert(all@ == before + seq![unit_separator()]);
            } else {
                assert(before == Seq::<char>::empty());
            }
            all.push_str(parts[i]);
            assert(all@ == identity_text(views.take(i + 1)));
            i = i + 1;
        }
        assert(part_views(parts@).take(parts@.len() as int) == part_views(parts@));
        let digest = sha256_of(all.as_str().as_bytes());
        let mut digits = String::new();
        let mut k: usize = 0;
        while k < 16
            invariant
                k <= 16,
                digest@.len() == 32,
                digits@ == hex(digest@.take(k as int)),
            decreases 16 - k,
        {
            assert(digest@.take(k + 1).drop_last() == digest@.take(k as int));
            let b: u8 = digest[k];
            digits.push(nibble_char(b / 16));
            digits.push(nibble_char(b % 16));
            k = k + 1;
        }
        proof {
            lemma_hex_digits(digest@.take(16));
        }
        DocumentId { digits }
    }
}

/// Reading an id back gives the same id.
pub proof fn law_id_round_trip(id: Seq<char>)
    requires
        is_id(id),
    ensures
        reads_as_id(id),
        text::lowercase(id) == id,
{
    assert forall|k: int| 0 <= k < id.len() implies (#[trigger] id[k] as u32) < 128
        && text::ascii_lower(id[k]) == id[k] && any_hex_digit(id[k]) by {
        assert(hex_digit(id[k]));
    }
    assert(is_ascii_chars(id));
    assert(text::lowercase(id) =~= id);
}

/// The case of the digits does not matter: a text and its lower-case form read
/// as the same id.
pub proof fn law_id_case_insensitive(raw: Seq<char>)
    ensures
        is_ascii_chars(raw) ==> reads_as_id(text::lowercase(raw)) == reads_as_id(raw),
        reads_as_id(raw) ==> is_id(text::lowercase(raw)) && text::lowercase(text::lowercase(raw))
            == text::lowercase(raw),
{
    if is_ascii_chars(raw) {
        let low = text::lowercase(raw);
        assert forall|k: int| 0 <= k < raw.len() implies any_hex_digit(#[trigger] low[k])
            == any_hex_digit(raw[k]) && (any_hex_digit(raw[k]) ==> hex_digit(low[k])) by {
            assert(low[k] == text::ascii_lower(raw[k]));
        }
        if reads_as_id(low) {
            assert forall|k: int| 0 <= k < raw.len() implies any_hex_digit(#[trigger] raw[k]) by {
                assert(any_hex_digit(low[k]));
            }
        }
        text::lemma_lowercase_ascii_idempotent(raw);
    }
    if reads_as_id(raw) {
        assert forall|k: int| 0 <= k < raw.len() implies (#[trigger] raw[k] as u32) < 128 by {
            assert(any_hex_digit(raw[k]));
        }
        assert(is_ascii_chars(raw));
    }
}

} // verus!
