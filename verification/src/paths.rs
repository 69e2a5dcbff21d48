//! Paths as text, with `/` between their components.
use vstd::prelude::*;
use crate::pieces;
use crate::text;
use crate::words;

verus! {

// ---------------------------------------------------------------------------
// Components
// ---------------------------------------------------------------------------

/// The runs of characters between slashes, each as the positions of its begin
/// and its end.
pub open spec fn runs(p: Seq<char>) -> Seq<(int, int)>
    decreases p.len(),
{
    if p.len() == 0 {
        Seq::empty()
    } else {
        let before = runs(p.drop_last());
        if p.last() == '/' {
            before
        } else if p.len() >= 2 && p[p.len() - 2] != '/' {
            before.drop_last().push((before.last().0, p.len() as int))
        } else {
            before.push((p.len() - 1, p.len() as int))
        }
    }
}

/// A run counts as a component unless it is a single dot behind a slash.
pub open spec fn counts(p: Seq<char>, run: (int, int)) -> bool {
    run.0 == 0 || p.subrange(run.0, run.1) != seq!['.']
}

/// The runs that count, in order.
pub open spec fn named(p: Seq<char>, rs: Seq<(int, int)>) -> Seq<(int, int)>
    decreases rs.len(),
{
    if rs.len() == 0 {
        Seq::empty()
    } else {
        let before = named(p, rs.drop_last());
        if counts(p, rs.last()) {
            before.push(rs.last())
        } else {
            before
        }
    }
}

/// The components of a path, each as the positions of its begin and its end. A
/// leading slash is a component of its own.
pub open spec fn spans(p: Seq<char>) -> Seq<(int, int)> {
    if p.len() > 0 && p[0] == '/' {
        seq![(0int, 1int)] + named(p, runs(p))
    } else {
        named(p, runs(p))
    }
}

/// The components of a path.
pub open spec fn components(p: Seq<char>) -> Seq<Seq<char>> {
    spans(p).map_values(|r: (int, int)| p.subrange(r.0, r.1))
}

/// Whether the components of `prefix` are the first ones of `p`.
pub open spec fn has_prefix(p: Seq<char>, prefix: Seq<char>) -> bool {
    let a = components(p);
    let b = components(prefix);
    b.len() <= a.len() && a.take(b.len() as int) == b
}

/// Positions as mathematical integers.
pub open spec fn span_views(v: Seq<(usize, usize)>) -> Seq<(int, int)> {
    v.map_values(|r: (usize, usize)| (r.0 as int, r.1 as int))
}

/// Every run is a part of the path that is not empty.
pub open spec fn inside(p: Seq<char>, rs: Seq<(int, int)>) -> bool {
    forall|k: int| 0 <= k < rs.len() ==> 0 <= (#[trigger] rs[k]).0 < rs[k].1 <= p.len()
}

/// The runs between the slashes of a path.
fn find_runs(chars: &Vec<char>) -> (r: Vec<(usize, usize)>)
    ensures
        span_views(r@) == runs(chars@),
        inside(chars@, runs(chars@)),
{
    let mut out: Vec<(usize, usize)> = Vec::new();
    let total: usize = chars.len();
    let mut i: usize = 0;
    while i < total
        invariant
            i <= total,
            total == chars@.len(),
            span_views(out@) == runs(chars@.take(i as int)),
            inside(chars@.take(i as int), span_views(out@)),
            i > 0 && chars@[i - 1] != '/' ==> out@.len() > 0 && out@.last().1 == i,
        decreases total - i,
    {
        let ghost before = span_views(out@);
        assert(chars@.take(i + 1).drop_last() == chars@.take(i as int));
        if chars[i] != '/' {
            if i > 0 && chars[i - 1] != '/' {
                let from: usize = match out.pop() {
                    Some(last) => last.0,
                    None => i,
                };
                assert(span_views(out@) == before.drop_last());
                out.push((from, i + 1));
                assert(span_views(out@) == before.drop_last().push((from as int, i + 1)));
            } else {
                out.push((i, i + 1));
                assert(span_views(out@) == before.push((i as int, i + 1)));
            }
        }
        i = i + 1;
    }
    assert(chars@.take(chars@.len() as int) == chars@);
    out
}

/// The components of a path, by position.
fn find_spans(chars: &Vec<char>) -> (r: Vec<(usize, usize)>)
    ensures
        span_views(r@) == spans(chars@),
        inside(chars@, spans(chars@)),
{
    let found = find_runs(chars);
    let mut out: Vec<(usize, usize)> = Vec::new();
    let ghost lead: Seq<(int, int)> = Seq::empty();
    if chars.len() > 0 && chars[0] == '/' {
        out.push((0, 1));
        proof {
            lead = seq![(0int, 1int)];
        }
    }
    assert(span_views(out@) == lead);
    let ghost all = runs(chars@);
    let mut i: usize = 0;
    while i < found.len()
        invariant
            i <= found@.len(),
            all == runs(chars@),
            span_views(found@) == all,
            inside(chars@, all),
            inside(chars@, lead),
            inside(chars@, span_views(out@)),
            span_views(out@) == lead + named(chars@, all.take(i as int)),
        decreases found@.len() - i,
    {
        let ghost before = span_views(out@);
        assert(all.take(i + 1).drop_last() == all.take(i as int));
        let run = found[i];
        assert(all[i as int] == (run.0 as int, run.1 as int));
        let ghost part = chars@.subrange(run.0 as int, run.1 as int);
        let dot: bool = run.1 - run.0 == 1 && chars[run.0] == '.';
        assert(dot == (part == seq!['.'])) by {
            if dot {
                assert(part =~= seq!['.']);
            } else if part == seq!['.'] {
                assert(part.len() == 1 && part[0] == '.');
            }
        }
        if run.0 == 0 || !dot {
            out.push(run);
            assert(span_views(out@) == before.push(all[i as int]));
            assert(lead + named(chars@, all.take(i + 1)) == (lead + named(
                chars@,
                all.take(i as int),
            )).push(all[i as int]));
        }
        i = i + 1;
    }
    assert(all.take(all.len() as int) == all);
    assert(span_views(out@) == spans(chars@));
    out
}

/// Whether two parts of texts show the same characters.
fn same_part(
    a: &Vec<char>,
    x: (usize, usize),
    b: &Vec<char>,
    y: (usize, usize),
) -> (r: bool)
    requires
        x.0 <= x.1 <= a@.len(),
        y.0 <= y.1 <= b@.len(),
    ensures
        r == (a@.subrange(x.0 as int, x.1 as int) == b@.subrange(y.0 as int, y.1 as int)),
{
    let ghost p = a@.subrange(x.0 as int, x.1 as int);
    let ghost q = b@.subrange(y.0 as int, y.1 as int);
    if x.1 - x.0 != y.1 - y.0 {
        assert(p.len() != q.len());
        return false;
    }
    let n: usize = x.1 - x.0;
    let mut i: usize = 0;
    while i < n
        invariant
            i <= n,
            n == x.1 - x.0,
            n == y.1 - y.0,
            x.0 <= x.1 <= a@.len(),
            y.0 <= y.1 <= b@.len(),
            p == a@.subrange(x.0 as int, x.1 as int),
            q == b@.subrange(y.0 as int, y.1 as int),
            forall|k: int| 0 <= k < i ==> p[k] == q[k],
        decreases n - i,
    {
        if a[x.0 + i] != b[y.0 + i] {
            assert(p[i as int] != q[i as int]);
            return false;
        }
        i = i + 1;
    }
    assert(p =~= q);
    true
}

// ---------------------------------------------------------------------------
// Relative names, parents and joins
// ---------------------------------------------------------------------------

/// The rest of a path behind its first `n` components: what stands from the
/// begin of the next component to the end of the last one.
pub open spec fn tail(p: Seq<char>, n: int) -> Seq<char> {
    let all = spans(p);
    if n < all.len() {
        p.subrange(
            if n == 0 {
                0
            } else {
                all[n].0
            },
            all.last().1,
        )
    } else {
        Seq::empty()
    }
}

/// The path relative to `root`, or all of it where it does not lie below
/// `root`; with forward slashes.
pub open spec fn relative_name(path: Seq<char>, root: Seq<char>) -> Seq<char> {
    pieces::replace_each(
        if has_prefix(path, root) {
            tail(path, components(root).len() as int)
        } else {
            path
        },
        '\\',
        "/"@,
    )
}

/// Each run ends before the next one begins.
pub open spec fn in_order(rs: Seq<(int, int)>) -> bool {
    forall|a: int, b: int|
        0 <= a < b < rs.len() ==> (#[trigger] rs[a]).1 <= (#[trigger] rs[b]).0
}

/// The runs of a path lie inside it, one behind another, and begin with no
/// slash.
pub proof fn lemma_runs(p: Seq<char>)
    ensures
        inside(p, runs(p)),
        in_order(runs(p)),
        forall|k: int| 0 <= k < runs(p).len() ==> p[(#[trigger] runs(p)[k]).0] != '/',
        p.len() > 0 && p.last() != '/' ==> runs(p).len() > 0 && runs(p).last().1 == p.len(),
    decreases p.len(),
{
    if p.len() > 0 {
        let init = p.drop_last();
        lemma_runs(init);
        let before = runs(init);
        assert forall|k: int| 0 <= k < before.len() implies p[(#[trigger] before[k]).0] != '/' by {
            assert(init[before[k].0] != '/');
        }
        if p.last() != '/' && p.len() >= 2 && p[p.len() - 2] != '/' {
            assert(init.last() == p[p.len() - 2]);
            let grown = before.drop_last().push((before.last().0, p.len() as int));
            assert forall|k: int| 0 <= k < grown.len() implies p[(#[trigger] grown[k]).0] != '/' by {
                assert(grown[k].0 == before[k].0);
            }
            assert forall|a: int, b: int| 0 <= a < b < grown.len() implies (#[trigger] grown[a]).1 <= (
            #[trigger] grown[b]).0 by {
                assert(before[a].1 <= before[b].0);
            }
        }
    }
}

/// The runs that count are some of the runs, in their order.
pub proof fn lemma_named(p: Seq<char>, rs: Seq<(int, int)>)
    requires
        in_order(rs),
    ensures
        in_order(named(p, rs)),
        forall|k: int| 0 <= k < named(p, rs).len() ==> rs.contains(#[trigger] named(p, rs)[k]),
    decreases rs.len(),
{
    if rs.len() > 0 {
        let init = rs.drop_last();
        lemma_named(p, init);
        let before = named(p, init);
        assert forall|k: int| 0 <= k < before.len() implies rs.contains(#[trigger] before[k])
            && before[k].1 <= rs.last().0 by {
            assert(init.contains(before[k]));
            let j = choose|j: int| 0 <= j < init.len() && init[j] == before[k];
            assert(rs[j] == before[k]);
            assert(rs[j].1 <= rs[rs.len() - 1].0);
        }
        assert(rs.contains(rs[rs.len() - 1]));
    }
}

/// The components of a path lie one behind another.
proof fn lemma_spans_ordered(p: Seq<char>)
    ensures
        in_order(spans(p)),
{
    lemma_runs(p);
    lemma_named(p, runs(p));
    if p.len() > 0 && p[0] == '/' {
        let rest = named(p, runs(p));
        assert forall|k: int| 0 <= k < rest.len() implies (#[trigger] rest[k]).0 >= 1 by {
            assert(runs(p).contains(rest[k]));
            let j = choose|j: int| 0 <= j < runs(p).len() && runs(p)[j] == rest[k];
            assert(p[runs(p)[j].0] != '/');
        }
        let all = seq![(0int, 1int)] + rest;
        assert forall|a: int, b: int| 0 <= a < b < all.len() implies (#[trigger] all[a]).1 <= (
        #[trigger] all[b]).0 by {
            assert(all[b] == rest[b - 1]);
            if a > 0 {
                assert(all[a] == rest[a - 1]);
            }
        }
    }
}

/// The components are read off the spans.
proof fn lemma_components(p: Seq<char>, k: int)
    requires
        0 <= k < spans(p).len(),
    ensures
        components(p).len() == spans(p).len(),
        components(p)[k] == p.subrange(spans(p)[k].0, spans(p)[k].1),
{
}

/// The path relative to `root`, or all of it where it does not lie below
/// `root`; with forward slashes.
pub fn rel_name(path: &str, root: &str) -> (r: String)
    ensures
        r@ == relative_name(path@, root@),
{
    let p = text::to_chars(path);
    let q = text::to_chars(root);
    let whole = find_spans(&p);
    let lead = find_spans(&q);
    let mut below: bool = lead.len() <= whole.len();
    let mut i: usize = 0;
    while below && i < lead.len()
        invariant
            i <= lead@.len(),
            p@ == path@,
            q@ == root@,
            span_views(whole@) == spans(p@),
            span_views(lead@) == spans(q@),
            inside(p@, spans(p@)),
            inside(q@, spans(q@)),
            below ==> lead@.len() <= whole@.len(),
            below ==> forall|k: int| 0 <= k < i ==> components(p@)[k] == components(q@)[k],
            !below ==> !has_prefix(p@, q@),
        decreases lead@.len() - i, (if below { 1int } else { 0int }),
    {
        proof {
            lemma_components(p@, i as int);
            lemma_components(q@, i as int);
            assert(spans(p@)[i as int] == (whole@[i as int].0 as int, whole@[i as int].1 as int));
            assert(spans(q@)[i as int] == (lead@[i as int].0 as int, lead@[i as int].1 as int));
        }
        if same_part(&p, whole[i], &q, lead[i]) {
            i = i + 1;
        } else {
            assert(!has_prefix(p@, q@)) by {
                if has_prefix(p@, q@) {
                    let n = components(q@).len() as int;
                    assert(components(p@).take(n)[i as int] == components(q@)[i as int]);
                }
            }
            below = false;
        }
    }
    let cut = if below {
        assert(has_prefix(p@, q@)) by {
            assert(components(p@).take(components(q@).len() as int) =~= components(q@));
        }
        let n: usize = lead.len();
        if n < whole.len() {
            proof {
                let all = spans(p@);
                assert(all[n as int] == (whole@[n as int].0 as int, whole@[n as int].1 as int));
                let m = whole@.len() - 1;
                assert(all[m] == (whole@[m].0 as int, whole@[m].1 as int));
                lemma_spans_ordered(p@);
            }
            let from: usize = if n == 0 {
                0
            } else {
                whole[n].0
            };
            text::from_range(&p, from, whole[whole.len() - 1].1)
        } else {
            String::new()
        }
    } else {
        path.to_owned()
    };
    pieces::replace_char(cut.as_str(), '\\', "/")
}

/// The components of a path.
pub fn split_components(path: &str) -> (r: Vec<String>)
    ensures
        words::texts(r@) == components(path@),
{
    let p = text::to_chars(path);
    let all = find_spans(&p);
    let mut out: Vec<String> = Vec::new();
    let mut i: usize = 0;
    while i < all.len()
        invariant
            i <= all@.len(),
            p@ == path@,
            span_views(all@) == spans(p@),
            inside(p@, spans(p@)),
            words::texts(out@) == components(p@).take(i as int),
        decreases all@.len() - i,
    {
        let ghost before = words::texts(out@);
        proof {
            lemma_components(p@, i as int);
            assert(spans(p@)[i as int] == (all@[i as int].0 as int, all@[i as int].1 as int));
        }
        let name = text::from_range(&p, all[i].0, all[i].1);
        let ghost shown = name@;
        out.push(name);
        assert(words::texts(out@) == before.push(shown));
        assert(components(p@).take(i + 1) == components(p@).take(i as int).push(
            components(p@)[i as int],
        ));
        i = i + 1;
    }
    assert(components(p@).take(components(p@).len() as int) == components(p@));
    out
}

/// A path below a directory; an absolute path stands for itself.
pub open spec fn joined(base: Seq<char>, rel: Seq<char>) -> Seq<char> {
    if rel.len() > 0 && rel[0] == '/' {
        rel
    } else if base.len() == 0 || base.last() == '/' {
        base + rel
    } else {
        base + "/"@ + rel
    }
}

/// The path `rel` below the directory `base`; an absolute `rel` stands for
/// itself.
pub fn path_join(base: &str, rel: &str) -> (r: String)
    ensures
        r@ == joined(base@, rel@),
{
    let b = text::to_chars(base);
    let c = text::to_chars(rel);
    if c.len() > 0 && c[0] == '/' {
        return rel.to_owned();
    }
    let mut out = base.to_owned();
    if b.len() > 0 && b[b.len() - 1] != '/' {
        out.push_str("/");
    }
    out.push_str(rel);
    out
}

/// The directory that holds a path: the path without its last component.
pub open spec fn parent_of(p: Seq<char>) -> Option<Seq<char>> {
    let all = spans(p);
    if all.len() == 0 || (all.len() == 1 && p[0] == '/') {
        None
    } else if all.len() == 1 {
        Some(Seq::empty())
    } else {
        Some(p.take(all[all.len() - 2].1))
    }
}

/// The path without its last component.
pub fn parent(path: &str) -> (r: Option<String>)
    ensures
        words::shown(r) == parent_of(path@),
{
    let p = text::to_chars(path);
    let all = find_spans(&p);
    if all.len() == 0 || (all.len() == 1 && p[0] == '/') {
        return None;
    }
    if all.len() == 1 {
        let none = String::new();
        assert(none@ == Seq::<char>::empty());
        return Some(none);
    }
    let k: usize = all.len() - 2;
    assert(spans(p@)[k as int] == (all@[k as int].0 as int, all@[k as int].1 as int));
    assert(p@.subrange(0, all@[k as int].1 as int) == p@.take(all@[k as int].1 as int));
    Some(text::from_range(&p, 0, all[k].1))
}

// ---------------------------------------------------------------------------
// Order and identity
// ---------------------------------------------------------------------------

/// A component as it is ordered: the root first, the current directory, the
/// parent directory, then names.
pub open spec fn component_key(c: Seq<char>) -> Seq<char> {
    if c == "/"@ {
        seq!['\u{0}']
    } else if c == "."@ {
        seq!['\u{1}']
    } else if c == ".."@ {
        seq!['\u{2}']
    } else {
        seq!['\u{3}'] + c
    }
}

/// What a path is ordered by: its components, one after another.
pub open spec fn path_key(p: Seq<char>) -> Seq<Seq<char>> {
    components(p).map_values(|c: Seq<char>| component_key(c))
}

/// What the path is ordered by.
pub fn sort_key(path: &str) -> (r: Vec<String>)
    ensures
        words::texts(r@) == path_key(path@),
{
    let p = text::to_chars(path);
    let all = find_spans(&p);
    let mut out: Vec<String> = Vec::new();
    let mut i: usize = 0;
    while i < all.len()
        invariant
            i <= all@.len(),
            p@ == path@,
            span_views(all@) == spans(p@),
            inside(p@, spans(p@)),
            words::texts(out@) == path_key(p@).take(i as int),
        decreases all@.len() - i,
    {
        let ghost before = words::texts(out@);
        proof {
            lemma_components(p@, i as int);
            assert(spans(p@)[i as int] == (all@[i as int].0 as int, all@[i as int].1 as int));
        }
        let name = text::from_range(&p, all[i].0, all[i].1);
        let mut key = String::new();
        if text::same_text(name.as_str(), "/") {
            key.push('\u{0}');
        } else if text::same_text(name.as_str(), ".") {
            key.push('\u{1}');
        } else if text::same_text(name.as_str(), "..") {
            key.push('\u{2}');
        } else {
            key.push('\u{3}');
            key.push_str(name.as_str());
        }
        assert(key@ =~= component_key(name@));
        let ghost shown = key@;
        out.push(key);
        assert(words::texts(out@) == before.push(shown));
        assert(path_key(p@).take(i + 1) == path_key(p@).take(i as int).push(
            path_key(p@)[i as int],
        ));
        i = i + 1;
    }
    assert(path_key(p@).take(path_key(p@).len() as int) == path_key(p@));
    out
}

/// Two paths are the same path if they have the same components.
pub open spec fn same_path(a: Seq<char>, b: Seq<char>) -> bool {
    path_key(a) == path_key(b)
}

/// Whether two paths have the same components.
pub fn is_same_path(a: &str, b: &str) -> (r: bool)
    ensures
        r == same_path(a@, b@),
{
    let x = sort_key(a);
    let y = sort_key(b);
    if x.len() != y.len() {
        assert(words::texts(x@).len() != words::texts(y@).len());
        return false;
    }
    let mut i: usize = 0;
    while i < x.len()
        invariant
            i <= x@.len(),
            x@.len() == y@.len(),
            words::texts(x@) == path_key(a@),
            words::texts(y@) == path_key(b@),
            forall|k: int| 0 <= k < i ==> words::texts(x@)[k] == words::texts(y@)[k],
        decreases x@.len() - i,
    {
        assert(words::texts(x@)[i as int] == x@[i as int]@);
        assert(words::texts(y@)[i as int] == y@[i as int]@);
        if !text::same_text(x[i].as_str(), y[i].as_str()) {
            return false;
        }
        i = i + 1;
    }
    assert(words::texts(x@) =~= words::texts(y@));
    true
}

// ---------------------------------------------------------------------------
// Markdown file names
// ---------------------------------------------------------------------------

/// The extension of a file name: what stands behind the last dot, unless the
/// name begins with that dot or is the parent directory.
pub open spec fn extension(name: Seq<char>) -> Option<Seq<char>> {
    if name == ".."@ {
        None
    } else {
        match pieces::last_match(name, "."@) {
            Some(i) => if i > 0 {
                Some(name.skip(i + 1))
            } else {
                None
            },
            None => None,
        }
    }
}

/// Whether a file name ends in a Markdown extension, in any case.
pub open spec fn markdown_name(name: Seq<char>) -> bool {
    match extension(name) {
        Some(ext) => text::ascii_lowercase(ext) == "md"@ || text::ascii_lowercase(ext)
            == "markdown"@,
        None => false,
    }
}

/// Whether a file name ends in a Markdown extension, in any case.
pub fn is_markdown_name(name: &str) -> (r: bool)
    ensures
        r == markdown_name(name@),
{
    proof {
        reveal_strlit(".");
        pieces::lemma_last_match(name@, "."@);
    }
    if text::same_text(name, "..") || !pieces::contains_text(name, ".") {
        return false;
    }
    let ext = pieces::rest_behind_last(name, ".");
    let whole = text::to_chars(name);
    let rest = text::to_chars(ext.as_str());
    proof {
        let i = pieces::last_match(name@, "."@)->0;
        assert(rest@ == name@.skip(i + 1));
    }
    if rest.len() == whole.len() - 1 {
        return false;
    }
    let lower = text::to_ascii_lower(ext.as_str());
    text::same_text(lower.as_str(), "md") || text::same_text(lower.as_str(), "markdown")
}

} // verus!
