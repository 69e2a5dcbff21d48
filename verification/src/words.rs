//! Splitting text into words and joining pieces of text.
use vstd::prelude::*;
use crate::text;

verus! {

/// The characters that words are made of.
#[derive(Clone, Copy, Debug, PartialEq, Eq, Structural)]
pub enum CharClass {
    /// Everything but white space.
    Printable,
    /// Letters and numbers.
    Alphanumeric,
    /// Letters, numbers and the underscore.
    Identifier,
}

impl CharClass {
    /// Whether `c` belongs to the class.
    pub open spec fn has(self, c: char) -> bool {
        match self {
            CharClass::Printable => !text::white(c),
            CharClass::Alphanumeric => text::alphanumeric(c),
            CharClass::Identifier => text::alphanumeric(c) || c == '_',
        }
    }

    /// Whether `c` belongs to the class.
    pub fn contains(self, c: char) -> (b: bool)
        ensures
            b == self.has(c),
    {
        match self {
            CharClass::Printable => !text::is_white(c),
            CharClass::Alphanumeric => text::is_alphanumeric(c),
            CharClass::Identifier => text::is_alphanumeric(c) || c == '_',
        }
    }
}

/// What a list of strings shows.
pub open spec fn texts(v: Seq<String>) -> Seq<Seq<char>> {
    v.map_values(|s: String| s@)
}

/// The maximal runs of characters of one class, in order.
pub open spec fn words(s: Seq<char>, class: CharClass) -> Seq<Seq<char>>
    decreases s.len(),
{
    if s.len() == 0 {
        Seq::empty()
    } else {
        let before = words(s.drop_last(), class);
        let c = s.last();
        if !class.has(c) {
            before
        } else if s.len() >= 2 && class.has(s[s.len() - 2]) {
            before.drop_last().push(before.last().push(c))
        } else {
            before.push(seq![c])
        }
    }
}

/// The words of a class in `s`, in order.
pub fn split_words(s: &str, class: CharClass) -> (r: Vec<String>)
    ensures
        texts(r@) == words(s@, class),
{
    let chars = text::to_chars(s);
    let mut out: Vec<String> = Vec::new();
    let mut current = String::new();
    let mut open: bool = false;
    let mut i: usize = 0;
    while i < chars.len()
        invariant
            i <= chars@.len(),
            open == (i > 0 && class.has(chars@[i - 1])),
            words(chars@.take(i as int), class) == (if open {
                texts(out@).push(current@)
            } else {
                texts(out@)
            }),
            !open ==> current@.len() == 0,
        decreases chars@.len() - i,
    {
        let ghost before = chars@.take(i as int);
        let ghost after = chars@.take(i + 1);
        let ghost old_current = current@;
        let ghost old_out = texts(out@);
        assert(after.drop_last() == before);
        assert(after.last() == chars@[i as int]);
        let c = chars[i];
        if class.contains(c) {
            current.push(c);
            proof {
                if open {
                    assert(old_out.push(old_current).drop_last() == old_out);
                } else {
                    assert(current@ == seq![c]);
                }
            }
            open = true;
        } else {
            if open {
                out.push(current);
                assert(texts(out@) == old_out.push(old_current));
                current = String::new();
            }
            open = false;
        }
        i = i + 1;
    }
    assert(chars@.take(chars@.len() as int) == s@);
    if open {
        let ghost old_out = texts(out@);
        let ghost last = current@;
        out.push(current);
        assert(texts(out@) == old_out.push(last));
    }
    out
}

/// Every word is a non-empty run of the class's characters.
pub proof fn lemma_words_members(s: Seq<char>, class: CharClass)
    ensures
        forall|i: int, j: int|
            0 <= i < words(s, class).len() && 0 <= j < words(s, class)[i].len() ==> class.has(
                #[trigger] words(s, class)[i][j],
            ),
        forall|i: int| 0 <= i < words(s, class).len() ==> (#[trigger] words(s, class)[i]).len() > 0,
        s.len() > 0 && class.has(s.last()) ==> words(s, class).len() > 0 && words(
            s,
            class,
        ).last().last() == s.last(),
    decreases s.len(),
{
    if s.len() > 0 {
        let init = s.drop_last();
        lemma_words_members(init, class);
        let before = words(init, class);
        let c = s.last();
        if class.has(c) && s.len() >= 2 && class.has(s[s.len() - 2]) {
            assert(init.last() == s[s.len() - 2]);
            assert(before.len() > 0);
            let grown = before.last().push(c);
            assert forall|i: int, j: int|
                0 <= i < words(s, class).len() && 0 <= j < words(s, class)[i].len() implies class.has(
                #[trigger] words(s, class)[i][j],
            ) by {
                if i == words(s, class).len() - 1 {
                    if j < before.last().len() {
                        assert(class.has(before[before.len() - 1][j]));
                    }
                } else {
                    assert(class.has(before[i][j]));
                }
            }
        }
    }
}

/// Every character of the class stands in some word.
pub proof fn lemma_words_cover(s: Seq<char>, class: CharClass, at: int) -> (r: (int, int))
    requires
        0 <= at < s.len(),
        class.has(s[at]),
    ensures
        0 <= r.0 < words(s, class).len(),
        0 <= r.1 < words(s, class)[r.0].len(),
        words(s, class)[r.0][r.1] == s[at],
    decreases s.len(),
{
    let init = s.drop_last();
    let before = words(init, class);
    let all = words(s, class);
    let c = s.last();
    lemma_words_members(init, class);
    lemma_words_members(s, class);
    if at == s.len() - 1 {
        let w = all.len() - 1;
        (w, all[w].len() - 1)
    } else {
        let r = lemma_words_cover(init, class, at);
        if class.has(c) && s.len() >= 2 && class.has(s[s.len() - 2]) && r.0 == before.len() - 1 {
            assert(all[r.0] == before.last().push(c));
        } else {
            assert(all[r.0] == before[r.0]);
        }
        r
    }
}

/// Every character of a word stands in the text.
pub proof fn lemma_words_inside(s: Seq<char>, class: CharClass, w: int, j: int) -> (at: int)
    requires
        0 <= w < words(s, class).len(),
        0 <= j < words(s, class)[w].len(),
    ensures
        0 <= at < s.len(),
        s[at] == words(s, class)[w][j],
        class.has(s[at]),
    decreases s.len(),
{
    let init = s.drop_last();
    let before = words(init, class);
    let c = s.last();
    lemma_words_members(init, class);
    lemma_words_members(s, class);
    if class.has(c) && s.len() >= 2 && class.has(s[s.len() - 2]) {
        assert(init.last() == s[s.len() - 2]);
        if w == before.len() - 1 && j == before.last().len() {
            s.len() - 1
        } else {
            let at = lemma_words_inside(init, class, w, j);
            assert(init[at] == s[at]);
            at
        }
    } else if class.has(c) && w == before.len() {
        s.len() - 1
    } else {
        let at = lemma_words_inside(init, class, w, j);
        assert(init[at] == s[at]);
        at
    }
}

/// A run of the class's characters behind something that is not of the class
/// is a word of its own.
proof fn lemma_words_append_run(s: Seq<char>, run: Seq<char>, class: CharClass)
    requires
        run.len() > 0,
        forall|j: int| 0 <= j < run.len() ==> class.has(run[j]),
        s.len() > 0 ==> !class.has(s.last()),
    ensures
        words(s + run, class) == words(s, class).push(run),
    decreases run.len(),
{
    let all = s + run;
    assert(all.drop_last() == s + run.drop_last());
    if run.len() == 1 {
        assert(run.drop_last() == Seq::<char>::empty());
        assert(s + run.drop_last() == s);
        assert(run == seq![run[0]]);
        if all.len() >= 2 {
            assert(all[all.len() - 2] == s.last());
        }
    } else {
        let shorter = run.drop_last();
        lemma_words_append_run(s, shorter, class);
        assert(all[all.len() - 2] == shorter.last());
        assert(shorter.push(run.last()) == run);
        let w = words(s, class).push(shorter);
        assert(w.drop_last() == words(s, class));
    }
}

/// Splitting what was joined gives the words back.
pub proof fn lemma_words_of_join(ws: Seq<Seq<char>>, sep: char, class: CharClass)
    requires
        !class.has(sep),
        forall|i: int| 0 <= i < ws.len() ==> (#[trigger] ws[i]).len() > 0,
        forall|i: int, j: int|
            0 <= i < ws.len() && 0 <= j < ws[i].len() ==> class.has(#[trigger] ws[i][j]),
    ensures
        words(join(ws, seq![sep]), class) == ws,
    decreases ws.len(),
{
    if ws.len() == 0 {
    } else {
        let init = ws.drop_last();
        let run = ws.last();
        assert forall|i: int| 0 <= i < init.len() implies (#[trigger] init[i]).len() > 0 by {
            assert(init[i] == ws[i]);
        }
        assert forall|i: int, j: int| 0 <= i < init.len() && 0 <= j < init[i].len() implies class.has(
            #[trigger] init[i][j],
        ) by {
            assert(class.has(ws[i][j]));
        }
        lemma_words_of_join(init, sep, class);
        assert forall|j: int| 0 <= j < run.len() implies class.has(run[j]) by {
            assert(class.has(ws[ws.len() - 1][j]));
        }
        assert(init.push(run) == ws);
        if ws.len() == 1 {
            assert(Seq::<char>::empty() + run == run);
            lemma_words_append_run(Seq::<char>::empty(), run, class);
            assert(init == Seq::<Seq<char>>::empty());
            assert(words(Seq::<char>::empty(), class) == Seq::<Seq<char>>::empty());
        } else {
            let head = join(init, seq![sep]);
            let front = head + seq![sep];
            assert(front.drop_last() == head);
            assert(front.last() == sep);
            assert(words(front, class) == words(head, class));
            lemma_words_append_run(front, run, class);
        }
    }
}

/// The pieces one after another, with `sep` between each two.
pub open spec fn join(parts: Seq<Seq<char>>, sep: Seq<char>) -> Seq<char>
    decreases parts.len(),
{
    if parts.len() == 0 {
        Seq::empty()
    } else if parts.len() == 1 {
        parts[0]
    } else {
        join(parts.drop_last(), sep) + sep + parts.last()
    }
}

/// The strings of `parts` one after another, with `sep` between each two.
pub fn join_strings(parts: &Vec<String>, sep: &str) -> (r: String)
    ensures
        r@ == join(texts(parts@), sep@),
{
    let mut out = String::new();
    let mut i: usize = 0;
    while i < parts.len()
        invariant
            i <= parts@.len(),
            out@ == join(texts(parts@).take(i as int), sep@),
        decreases parts@.len() - i,
    {
        let ghost all = texts(parts@);
        assert(all.take(i + 1).drop_last() == all.take(i as int));
        assert(all.take(i + 1).last() == parts@[i as int]@);
        let ghost before = out@;
        if i > 0 {
            out.push_str(sep);
        } else {
            assert(before == Seq::<char>::empty());
        }
        out.push_str(parts[i].as_str());
        assert(out@ == join(all.take(i + 1), sep@));
        i = i + 1;
    }
    assert(texts(parts@).take(parts@.len() as int) == texts(parts@));
    out
}

/// What an optional string shows.
pub open spec fn shown(o: Option<String>) -> Option<Seq<char>> {
    match o {
        Some(s) => Some(s@),
        None => None,
    }
}

/// A copy of an optional string.
pub fn copy_option(o: &Option<String>) -> (r: Option<String>)
    ensures
        shown(r) == shown(*o),
{
    match o {
        Some(s) => Some(s.clone()),
        None => None,
    }
}

/// A copy of a list of strings.
pub fn copy_strings(v: &Vec<String>) -> (r: Vec<String>)
    ensures
        texts(r@) == texts(v@),
{
    let mut out: Vec<String> = Vec::new();
    let mut i: usize = 0;
    while i < v.len()
        invariant
            i <= v@.len(),
            texts(out@) == texts(v@).take(i as int),
        decreases v@.len() - i,
    {
        let ghost before = texts(out@);
        out.push(v[i].clone());
        assert(texts(out@) == before.push(v@[i as int]@));
        assert(before.push(v@[i as int]@) == texts(v@).take(i + 1));
        i = i + 1;
    }
    assert(texts(v@).take(v@.len() as int) == texts(v@));
    out
}

} // verus!
