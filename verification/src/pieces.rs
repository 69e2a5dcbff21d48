//! Finding, cutting and replacing parts of a text, and decimal numerals.
use vstd::prelude::*;
use crate::text;

verus! {

// ---------------------------------------------------------------------------
// Finding
// ---------------------------------------------------------------------------

/// Where the last occurrence of `pat` in `s` begins.
pub open spec fn last_match(s: Seq<char>, pat: Seq<char>) -> Option<int>
    decreases s.len(),
{
    if s.len() < pat.len() || s.len() == 0 {
        None
    } else if s.skip(s.len() - pat.len()) == pat {
        Some(s.len() - pat.len())
    } else {
        last_match(s.drop_last(), pat)
    }
}

/// Whether `pat` stands in `s` at `i`.
pub open spec fn shows_at(s: Seq<char>, pat: Seq<char>, i: int) -> bool {
    s.subrange(i, i + pat.len()) == pat
}

/// The text behind the last occurrence of `pat`, or all of it where there is
/// none.
pub open spec fn behind_last(s: Seq<char>, pat: Seq<char>) -> Seq<char> {
    match last_match(s, pat) {
        Some(i) => s.skip(i + pat.len()),
        None => s,
    }
}

/// Where the first `c` in `s` stands.
pub open spec fn first_index(s: Seq<char>, c: char) -> Option<int>
    decreases s.len(),
{
    if s.len() == 0 {
        None
    } else {
        match first_index(s.drop_last(), c) {
            Some(i) => Some(i),
            None => if s.last() == c {
                Some(s.len() - 1)
            } else {
                None
            },
        }
    }
}

/// A match lies inside the text and shows the pattern.
pub proof fn lemma_last_match(s: Seq<char>, pat: Seq<char>)
    requires
        pat.len() > 0,
    ensures
        last_match(s, pat) matches Some(i) ==> 0 <= i <= s.len() - pat.len() && shows_at(s, pat, i),
        last_match(s, pat) is None ==> forall|i: int|
            0 <= i <= s.len() - pat.len() ==> !#[trigger] shows_at(s, pat, i),
    decreases s.len(),
{
    if s.len() < pat.len() {
    } else {
        let k = s.len() - pat.len();
        assert(s.skip(k) == s.subrange(k, k + pat.len()));
        if s.skip(k) != pat {
            let init = s.drop_last();
            lemma_last_match(init, pat);
            assert forall|i: int| 0 <= i < k implies shows_at(init, pat, i) == #[trigger] shows_at(
                s,
                pat,
                i,
            ) by {
                assert(init.subrange(i, i + pat.len()) == s.subrange(i, i + pat.len()));
            }
        }
    }
}

/// The last match within the first `n` characters, where nothing further on
/// matches.
proof fn lemma_last_match_take(s: Seq<char>, pat: Seq<char>, n: int)
    requires
        pat.len() > 0,
        pat.len() <= n <= s.len(),
        forall|i: int| n - pat.len() < i <= s.len() - pat.len() ==> !#[trigger] shows_at(s, pat, i),
    ensures
        last_match(s, pat) == last_match(s.take(n), pat),
    decreases s.len() - n,
{
    if n == s.len() {
        assert(s.take(n) == s);
    } else {
        let k = s.len() - pat.len();
        assert(s.skip(k) == s.subrange(k, k + pat.len()));
        assert(!shows_at(s, pat, k));
        let init = s.drop_last();
        assert forall|i: int| n - pat.len() < i <= init.len() - pat.len() implies !#[trigger] shows_at(
            init,
            pat,
            i,
        ) by {
            assert(!shows_at(s, pat, i));
            assert(init.subrange(i, i + pat.len()) == s.subrange(i, i + pat.len()));
        }
        lemma_last_match_take(init, pat, n);
        assert(init.take(n) == s.take(n));
    }
}

/// Whether `chars[at..]` begins with `pat`.
fn matches_at(chars: &Vec<char>, pat: &Vec<char>, at: usize) -> (r: bool)
    requires
        at + pat@.len() <= chars@.len(),
    ensures
        r == shows_at(chars@, pat@, at as int),
{
    let total: usize = chars.len();
    let mut j: usize = 0;
    while j < pat.len()
        invariant
            j <= pat@.len(),
            at + pat@.len() <= chars@.len(),
            total == chars@.len(),
            forall|k: int| 0 <= k < j ==> chars@[at + k] == pat@[k],
        decreases pat@.len() - j,
    {
        if chars[at + j] != pat[j] {
            assert(chars@.subrange(at as int, at + pat@.len())[j as int] != pat@[j as int]);
            return false;
        }
        j = j + 1;
    }
    assert(chars@.subrange(at as int, at + pat@.len()) =~= pat@);
    true
}

/// Where the last occurrence of `pat` in `s` begins, in characters.
fn find_last(chars: &Vec<char>, pat: &Vec<char>) -> (r: Option<usize>)
    requires
        pat@.len() > 0,
    ensures
        match r {
            Some(i) => last_match(chars@, pat@) == Some(i as int),
            None => last_match(chars@, pat@) is None,
        },
{
    if chars.len() < pat.len() {
        return None;
    }
    let mut at: usize = chars.len() - pat.len();
    loop
        invariant
            pat@.len() > 0,
            at + pat@.len() <= chars@.len(),
            forall|i: int|
                at < i <= chars@.len() - pat@.len() ==> !#[trigger] shows_at(chars@, pat@, i),
        decreases at,
    {
        if matches_at(chars, pat, at) {
            proof {
                let head = chars@.take(at + pat@.len());
                lemma_last_match_take(chars@, pat@, at + pat@.len());
                assert(head.skip(at as int) == chars@.subrange(at as int, at + pat@.len()));
            }
            return Some(at);
        }
        if at == 0 {
            proof {
                lemma_last_match(chars@, pat@);
            }
            return None;
        }
        at = at - 1;
    }
}

/// Whether `pat` occurs in `s`.
pub open spec fn occurs(s: Seq<char>, pat: Seq<char>) -> bool {
    last_match(s, pat) is Some
}

/// Whether `pat` occurs in `s`.
pub fn contains_text(s: &str, pat: &str) -> (r: bool)
    requires
        pat@.len() > 0,
    ensures
        r == occurs(s@, pat@),
{
    let chars = text::to_chars(s);
    let wanted = text::to_chars(pat);
    find_last(&chars, &wanted).is_some()
}

/// The text of `s` behind the last occurrence of `pat`, or all of it.
pub fn rest_behind_last(s: &str, pat: &str) -> (r: String)
    requires
        pat@.len() > 0,
    ensures
        r@ == behind_last(s@, pat@),
{
    let chars = text::to_chars(s);
    let wanted = text::to_chars(pat);
    let total: usize = chars.len();
    match find_last(&chars, &wanted) {
        Some(i) => {
            proof {
                lemma_last_match(s@, pat@);
                assert(s@.skip(i + pat@.len()) == s@.subrange(i + pat@.len(), s@.len() as int));
            }
            text::from_range(&chars, i + wanted.len(), total)
        },
        None => s.to_owned(),
    }
}

/// Whether `c` occurs in `s`.
pub fn contains_char(s: &str, c: char) -> (r: bool)
    ensures
        r == s@.contains(c),
{
    let chars = text::to_chars(s);
    let mut i: usize = 0;
    while i < chars.len()
        invariant
            i <= chars@.len(),
            chars@ == s@,
            forall|k: int| 0 <= k < i ==> chars@[k] != c,
        decreases chars@.len() - i,
    {
        if chars[i] == c {
            assert(s@[i as int] == c);
            return true;
        }
        i = i + 1;
    }
    false
}

/// The first occurrence is the first.
pub proof fn lemma_first_index(s: Seq<char>, c: char)
    ensures
        match first_index(s, c) {
            Some(i) => 0 <= i < s.len() && s[i] == c && (forall|k: int| 0 <= k < i ==> s[k] != c),
            None => forall|k: int| 0 <= k < s.len() ==> s[k] != c,
        },
    decreases s.len(),
{
    if s.len() > 0 {
        let init = s.drop_last();
        lemma_first_index(init, c);
        match first_index(init, c) {
            Some(i) => {
                assert forall|k: int| 0 <= k < i implies s[k] != c by {
                    assert(init[k] != c);
                }
            },
            None => {
                assert forall|k: int| 0 <= k < s.len() - 1 implies s[k] != c by {
                    assert(init[k] != c);
                }
            },
        }
    }
}

// ---------------------------------------------------------------------------
// Suffixes
// ---------------------------------------------------------------------------

/// Whether `s` ends with `suffix`.
pub open spec fn has_suffix(s: Seq<char>, suffix: Seq<char>) -> bool {
    s.len() >= suffix.len() && s.skip(s.len() - suffix.len()) == suffix
}

/// The text without any number of copies of `suffix` at its end.
pub open spec fn strip_suffixes(s: Seq<char>, suffix: Seq<char>) -> Seq<char>
    decreases s.len(),
{
    if suffix.len() > 0 && has_suffix(s, suffix) {
        strip_suffixes(s.take(s.len() - suffix.len()), suffix)
    } else {
        s
    }
}

/// `s` without any number of copies of `suffix` at its end.
pub fn without_suffixes(s: &str, suffix: &str) -> (r: String)
    requires
        suffix@.len() > 0,
    ensures
        r@ == strip_suffixes(s@, suffix@),
{
    let chars = text::to_chars(s);
    let pat = text::to_chars(suffix);
    let mut end: usize = chars.len();
    assert(chars@.take(end as int) == s@);
    while end >= pat.len()
        invariant
            end <= chars@.len(),
            pat@.len() > 0,
            strip_suffixes(chars@.take(end as int), pat@) == strip_suffixes(s@, suffix@),
            suffix@ == pat@,
        ensures
            end <= chars@.len(),
            chars@.take(end as int) == strip_suffixes(s@, suffix@),
        decreases end,
    {
        let from: usize = end - pat.len();
        let ghost head = chars@.take(end as int);
        assert(head.skip(from as int) == chars@.subrange(from as int, from + pat@.len()));
        if !matches_at(&chars, &pat, from) {
            break;
        }
        assert(head.take(from as int) == chars@.take(from as int));
        end = from;
    }
    assert(chars@.subrange(0, end as int) == chars@.take(end as int));
    text::from_range(&chars, 0, end)
}

/// Whether the text begins with that prefix.
pub fn starts_with_text(s: &str, prefix: &str) -> (r: bool)
    ensures
        r == prefix@.is_prefix_of(s@),
{
    let chars = text::to_chars(s);
    let pat = text::to_chars(prefix);
    if chars.len() < pat.len() {
        return false;
    }
    matches_at(&chars, &pat, 0)
}

/// Whether `s` ends with `suffix`.
pub fn ends_with_text(s: &str, suffix: &str) -> (r: bool)
    ensures
        r == has_suffix(s@, suffix@),
{
    let chars = text::to_chars(s);
    let pat = text::to_chars(suffix);
    if chars.len() < pat.len() {
        return false;
    }
    assert(s@.skip(s@.len() - suffix@.len()) == s@.subrange(
        s@.len() - suffix@.len(),
        s@.len() as int,
    ));
    matches_at(&chars, &pat, chars.len() - pat.len())
}

// ---------------------------------------------------------------------------
// Replacing
// ---------------------------------------------------------------------------

/// The text with `with` in place of each `from`.
pub open spec fn replace_each(s: Seq<char>, from: char, with: Seq<char>) -> Seq<char>
    decreases s.len(),
{
    if s.len() == 0 {
        Seq::empty()
    } else {
        replace_each(s.drop_last(), from, with) + if s.last() == from {
            with
        } else {
            seq![s.last()]
        }
    }
}

/// `s` with `with` in place of each `from`.
pub fn replace_char(s: &str, from: char, with: &str) -> (r: String)
    ensures
        r@ == replace_each(s@, from, with@),
{
    let chars = text::to_chars(s);
    let mut out = String::new();
    let mut i: usize = 0;
    while i < chars.len()
        invariant
            i <= chars@.len(),
            out@ == replace_each(chars@.take(i as int), from, with@),
        decreases chars@.len() - i,
    {
        assert(chars@.take(i + 1).drop_last() == chars@.take(i as int));
        let ghost before = out@;
        if chars[i] == from {
            out.push_str(with);
        } else {
            out.push(chars[i]);
            assert(out@ == before + seq![chars@[i as int]]);
        }
        i = i + 1;
    }
    assert(chars@.take(chars@.len() as int) == s@);
    out
}

// ---------------------------------------------------------------------------
// Decimal numerals
// ---------------------------------------------------------------------------

/// The digit that stands for `d`.
pub open spec fn digit(d: nat) -> char {
    (('0' as u32 + d) as u32) as char
}

/// The decimal numeral of `n`.
pub open spec fn decimal(n: nat) -> Seq<char>
    decreases n,
{
    if n < 10 {
        seq![digit(n)]
    } else {
        decimal(n / 10).push(digit(n % 10))
    }
}

/// The digit of `d`.
fn digit_char(d: u128) -> (c: char)
    requires
        d < 10,
    ensures
        c == digit(d as nat),
{
    match d {
        0 => '0',
        1 => '1',
        2 => '2',
        3 => '3',
        4 => '4',
        5 => '5',
        6 => '6',
        7 => '7',
        8 => '8',
        _ => '9',
    }
}

/// The decimal numeral of `n`.
pub fn decimal_string(n: u128) -> (r: String)
    ensures
        r@ == decimal(n as nat),
    decreases n,
{
    if n < 10 {
        let mut out = String::new();
        out.push(digit_char(n));
        assert(out@ == decimal(n as nat));
        out
    } else {
        let mut out = decimal_string(n / 10);
        out.push(digit_char(n % 10));
        out
    }
}

/// Different numbers have different numerals.
pub proof fn lemma_decimal_injective(m: nat, n: nat)
    requires
        decimal(m) == decimal(n),
    ensures
        m == n,
    decreases m,
{
    lemma_decimal_digits(m);
    lemma_decimal_digits(n);
    if m < 10 && n < 10 {
        assert(decimal(m)[0] == digit(m));
        assert(decimal(n)[0] == digit(n));
    } else if m >= 10 && n >= 10 {
        let a = decimal(m / 10).push(digit(m % 10));
        let b = decimal(n / 10).push(digit(n % 10));
        assert(a.last() == b.last());
        assert(a.drop_last() == decimal(m / 10));
        assert(b.drop_last() == decimal(n / 10));
        lemma_decimal_injective(m / 10, n / 10);
    } else if m < 10 {
        lemma_decimal_digits(n / 10);
        assert(decimal(n).len() == decimal(n / 10).len() + 1);
    } else {
        lemma_decimal_digits(m / 10);
        assert(decimal(m).len() == decimal(m / 10).len() + 1);
    }
}

/// A numeral is a non-empty run of digits.
pub proof fn lemma_decimal_digits(n: nat)
    ensures
        decimal(n).len() >= 1,
        forall|i: int| 0 <= i < decimal(n).len() ==> '0' <= #[trigger] decimal(n)[i] <= '9',
    decreases n,
{
    if n >= 10 {
        lemma_decimal_digits(n / 10);
    }
}

} // verus!
