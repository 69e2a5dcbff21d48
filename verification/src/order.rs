//! Lexicographic order of texts and lists of texts, and stable sorting by it.
use vstd::prelude::*;
use crate::text;
use crate::words;

verus! {

/// Whether `a` comes before `b`: at the first difference the smaller
/// character comes first, and a proper prefix comes before the whole.
pub open spec fn text_less(a: Seq<char>, b: Seq<char>) -> bool
    decreases a.len(),
{
    if b.len() == 0 {
        false
    } else if a.len() == 0 {
        true
    } else if a[0] != b[0] {
        a[0] < b[0]
    } else {
        text_less(a.drop_first(), b.drop_first())
    }
}

/// The same order one level up: lists of texts.
pub open spec fn key_less(a: Seq<Seq<char>>, b: Seq<Seq<char>>) -> bool
    decreases a.len(),
{
    if b.len() == 0 {
        false
    } else if a.len() == 0 {
        true
    } else if a[0] != b[0] {
        text_less(a[0], b[0])
    } else {
        key_less(a.drop_first(), b.drop_first())
    }
}

/// No text comes before itself, and two texts never come before each other.
pub proof fn lemma_text_less_asymmetric(a: Seq<char>, b: Seq<char>)
    ensures
        !text_less(a, a),
        text_less(a, b) ==> !text_less(b, a),
    decreases a.len(),
{
    if a.len() > 0 {
        if b.len() > 0 {
            lemma_text_less_asymmetric(a.drop_first(), b.drop_first());
        } else {
            lemma_text_less_asymmetric(a.drop_first(), b);
        }
    }
}

/// The order is transitive.
pub proof fn lemma_text_less_transitive(a: Seq<char>, b: Seq<char>, c: Seq<char>)
    requires
        text_less(a, b),
        text_less(b, c),
    ensures
        text_less(a, c),
    decreases a.len(),
{
    if a.len() > 0 && a[0] == b[0] && b[0] == c[0] {
        lemma_text_less_transitive(a.drop_first(), b.drop_first(), c.drop_first());
    }
}

/// Of two different texts one comes before the other.
pub proof fn lemma_text_less_total(a: Seq<char>, b: Seq<char>)
    ensures
        a == b || text_less(a, b) || text_less(b, a),
    decreases a.len(),
{
    if a.len() == 0 || b.len() == 0 {
        if a.len() == 0 && b.len() == 0 {
            assert(a == b);
        }
    } else {
        lemma_text_less_total(a.drop_first(), b.drop_first());
        if a[0] == b[0] && a.drop_first() == b.drop_first() {
            assert(a == seq![a[0]] + a.drop_first());
            assert(b == seq![b[0]] + b.drop_first());
        }
    }
}

/// No key comes before itself, and two keys never come before each other.
pub proof fn lemma_key_less_asymmetric(a: Seq<Seq<char>>, b: Seq<Seq<char>>)
    ensures
        !key_less(a, a),
        key_less(a, b) ==> !key_less(b, a),
    decreases a.len(),
{
    if a.len() > 0 {
        if b.len() > 0 {
            lemma_key_less_asymmetric(a.drop_first(), b.drop_first());
            lemma_text_less_asymmetric(a[0], b[0]);
        } else {
            lemma_key_less_asymmetric(a.drop_first(), b);
        }
    }
}

/// The order of keys is transitive.
pub proof fn lemma_key_less_transitive(a: Seq<Seq<char>>, b: Seq<Seq<char>>, c: Seq<Seq<char>>)
    requires
        key_less(a, b),
        key_less(b, c),
    ensures
        key_less(a, c),
    decreases a.len(),
{
    if a.len() > 0 {
        if a[0] == b[0] && b[0] == c[0] {
            lemma_key_less_transitive(a.drop_first(), b.drop_first(), c.drop_first());
        } else if a[0] != b[0] && b[0] != c[0] {
            lemma_text_less_transitive(a[0], b[0], c[0]);
            lemma_text_less_asymmetric(a[0], c[0]);
        }
    }
}

/// Of two different keys one comes before the other.
pub proof fn lemma_key_less_total(a: Seq<Seq<char>>, b: Seq<Seq<char>>)
    ensures
        a == b || key_less(a, b) || key_less(b, a),
    decreases a.len(),
{
    if a.len() == 0 || b.len() == 0 {
        if a.len() == 0 && b.len() == 0 {
            assert(a == b);
        }
    } else {
        lemma_key_less_total(a.drop_first(), b.drop_first());
        lemma_text_less_total(a[0], b[0]);
        if a[0] == b[0] && a.drop_first() == b.drop_first() {
            assert(a == seq![a[0]] + a.drop_first());
            assert(b == seq![b[0]] + b.drop_first());
        }
    }
}

/// Whether `a` comes before `b`.
pub fn is_text_less(a: &str, b: &str) -> (r: bool)
    ensures
        r == text_less(a@, b@),
{
    let x = text::to_chars(a);
    let y = text::to_chars(b);
    let mut i: usize = 0;
    assert(x@.skip(0) == a@);
    assert(y@.skip(0) == b@);
    while i < x.len() && i < y.len()
        invariant
            i <= x@.len(),
            i <= y@.len(),
            text_less(a@, b@) == text_less(x@.skip(i as int), y@.skip(i as int)),
        decreases x@.len() - i,
    {
        assert(x@.skip(i as int).drop_first() == x@.skip(i + 1));
        assert(y@.skip(i as int).drop_first() == y@.skip(i + 1));
        if x[i] != y[i] {
            return x[i] < y[i];
        }
        i = i + 1;
    }
    i < y.len()
}

/// Whether the key `a` comes before the key `b`.
pub fn is_key_less(a: &Vec<String>, b: &Vec<String>) -> (r: bool)
    ensures
        r == key_less(words::texts(a@), words::texts(b@)),
{
    let ghost x = words::texts(a@);
    let ghost y = words::texts(b@);
    let mut i: usize = 0;
    assert(x.skip(0) == x);
    assert(y.skip(0) == y);
    while i < a.len() && i < b.len()
        invariant
            i <= a@.len(),
            i <= b@.len(),
            x == words::texts(a@),
            y == words::texts(b@),
            key_less(x, y) == key_less(x.skip(i as int), y.skip(i as int)),
        decreases a@.len() - i,
    {
        assert(x.skip(i as int).drop_first() == x.skip(i + 1));
        assert(y.skip(i as int).drop_first() == y.skip(i + 1));
        assert(x.skip(i as int)[0] == a@[i as int]@);
        assert(y.skip(i as int)[0] == b@[i as int]@);
        if !text::same_text(a[i].as_str(), b[i].as_str()) {
            return is_text_less(a[i].as_str(), b[i].as_str());
        }
        i = i + 1;
    }
    i < b.len()
}

// ---------------------------------------------------------------------------
// Stable sorting
// ---------------------------------------------------------------------------

/// What a list of keys shows.
pub open spec fn key_views(keys: Seq<Vec<String>>) -> Seq<Seq<Seq<char>>> {
    keys.map_values(|k: Vec<String>| words::texts(k@))
}

/// Position `i` goes before position `j`: by key, and among equal keys by
/// position.
pub open spec fn goes_before(keys: Seq<Seq<Seq<char>>>, i: int, j: int) -> bool {
    key_less(keys[i], keys[j]) || (keys[i] == keys[j] && i < j)
}

/// Every position of `order` goes before all later ones.
pub open spec fn ordered(keys: Seq<Seq<Seq<char>>>, order: Seq<usize>) -> bool {
    forall|a: int, b: int|
        0 <= a < b < order.len() ==> goes_before(
            keys,
            #[trigger] order[a] as int,
            #[trigger] order[b] as int,
        )
}

/// `order` lists each of the positions `lo..hi` once, in stable order.
pub open spec fn orders_range(
    keys: Seq<Seq<Seq<char>>>,
    order: Seq<usize>,
    lo: int,
    hi: int,
) -> bool {
    &&& order.len() == hi - lo
    &&& forall|a: int| 0 <= a < order.len() ==> lo <= #[trigger] order[a] < hi
    &&& forall|k: usize| lo <= k < hi ==> #[trigger] order.contains(k)
    &&& ordered(keys, order)
}

/// `order` lists each position of `keys` once: smaller keys first, equal keys
/// in the order in which they stood.
pub open spec fn stable_order(keys: Seq<Seq<Seq<char>>>, order: Seq<usize>) -> bool {
    orders_range(keys, order, 0, keys.len() as int)
}

/// The order of positions is transitive.
proof fn lemma_goes_before_transitive(keys: Seq<Seq<Seq<char>>>, i: int, j: int, k: int)
    requires
        goes_before(keys, i, j),
        goes_before(keys, j, k),
    ensures
        goes_before(keys, i, k),
{
    if key_less(keys[i], keys[j]) && key_less(keys[j], keys[k]) {
        lemma_key_less_transitive(keys[i], keys[j], keys[k]);
    }
}

/// What is left of the two runs while they are merged, and what has been put
/// out so far.
spec fn merging(
    keys: Seq<Seq<Seq<char>>>,
    left: Seq<usize>,
    right: Seq<usize>,
    i: int,
    j: int,
    out: Seq<usize>,
) -> bool {
    &&& 0 <= i <= left.len()
    &&& 0 <= j <= right.len()
    &&& out.len() == i + j
    &&& ordered(keys, out)
    &&& forall|a: int, b: int|
        0 <= a < out.len() && i <= b < left.len() ==> goes_before(
            keys,
            #[trigger] out[a] as int,
            #[trigger] left[b] as int,
        )
    &&& forall|a: int, b: int|
        0 <= a < out.len() && j <= b < right.len() ==> goes_before(
            keys,
            #[trigger] out[a] as int,
            #[trigger] right[b] as int,
        )
    &&& forall|b: int| 0 <= b < i ==> out.contains(#[trigger] left[b])
    &&& forall|b: int| 0 <= b < j ==> out.contains(#[trigger] right[b])
    &&& forall|a: int|
        0 <= a < out.len() ==> left.contains(#[trigger] out[a]) || right.contains(out[a])
}

/// Taking the next position from the left run keeps the state of the merge.
proof fn lemma_merge_left(
    keys: Seq<Seq<Seq<char>>>,
    left: Seq<usize>,
    right: Seq<usize>,
    i: int,
    j: int,
    out: Seq<usize>,
)
    requires
        merging(keys, left, right, i, j, out),
        ordered(keys, left),
        ordered(keys, right),
        i < left.len(),
        j < right.len() ==> goes_before(keys, left[i] as int, right[j] as int),
    ensures
        merging(keys, left, right, i + 1, j, out.push(left[i])),
{
    let grown = out.push(left[i]);
    assert forall|a: int, b: int| 0 <= a < b < grown.len() implies goes_before(
        keys,
        #[trigger] grown[a] as int,
        #[trigger] grown[b] as int,
    ) by {
        if b < out.len() {
            assert(goes_before(keys, out[a] as int, out[b] as int));
        } else {
            assert(goes_before(keys, out[a] as int, left[i] as int));
        }
    }
    assert forall|a: int, b: int| 0 <= a < grown.len() && i + 1 <= b < left.len() implies goes_before(
        keys,
        #[trigger] grown[a] as int,
        #[trigger] left[b] as int,
    ) by {
        if a < out.len() {
            assert(goes_before(keys, out[a] as int, left[b] as int));
        } else {
            assert(goes_before(keys, left[i] as int, left[b] as int));
        }
    }
    assert forall|a: int, b: int| 0 <= a < grown.len() && j <= b < right.len() implies goes_before(
        keys,
        #[trigger] grown[a] as int,
        #[trigger] right[b] as int,
    ) by {
        if a < out.len() {
            assert(goes_before(keys, out[a] as int, right[b] as int));
        } else if b > j {
            assert(goes_before(keys, right[j] as int, right[b] as int));
            lemma_goes_before_transitive(keys, left[i] as int, right[j] as int, right[b] as int);
        }
    }
    lemma_grown_contains(out, left[i]);
    assert forall|b: int| 0 <= b < i + 1 implies grown.contains(#[trigger] left[b]) by {
        if b < i {
            assert(out.contains(left[b]));
        }
    }
    assert forall|b: int| 0 <= b < j implies grown.contains(#[trigger] right[b]) by {
        assert(out.contains(right[b]));
    }
    assert forall|a: int| 0 <= a < grown.len() implies left.contains(#[trigger] grown[a])
        || right.contains(grown[a]) by {
        if a < out.len() {
            assert(grown[a] == out[a]);
        } else {
            assert(left.contains(left[i]));
        }
    }
}

/// Taking the next position from the right run keeps the state of the merge.
proof fn lemma_merge_right(
    keys: Seq<Seq<Seq<char>>>,
    left: Seq<usize>,
    right: Seq<usize>,
    i: int,
    j: int,
    out: Seq<usize>,
)
    requires
        merging(keys, left, right, i, j, out),
        ordered(keys, left),
        ordered(keys, right),
        j < right.len(),
        i < left.len() ==> goes_before(keys, right[j] as int, left[i] as int),
    ensures
        merging(keys, left, right, i, j + 1, out.push(right[j])),
{
    assert(merging(keys, right, left, j, i, out));
    lemma_merge_left(keys, right, left, j, i, out);
    let grown = out.push(right[j]);
    assert(merging(keys, right, left, j + 1, i, grown));
    assert(merging(keys, left, right, i, j + 1, grown));
}

/// A longer list still holds what it held, and the new element.
proof fn lemma_grown_contains(out: Seq<usize>, x: usize)
    ensures
        out.push(x).contains(x),
        forall|y: usize| #[trigger] out.contains(y) ==> out.push(x).contains(y),
{
    let grown = out.push(x);
    assert(grown[out.len() as int] == x);
    assert forall|y: usize| #[trigger] out.contains(y) implies grown.contains(y) by {
        let k = choose|k: int| 0 <= k < out.len() && out[k] == y;
        assert(grown[k] == y);
    }
}

/// Merges two ordered runs, all positions of the first below those of the
/// second.
fn merge(keys: &Vec<Vec<String>>, left: &Vec<usize>, right: &Vec<usize>) -> (out: Vec<usize>)
    requires
        ordered(key_views(keys@), left@),
        ordered(key_views(keys@), right@),
        forall|a: int| 0 <= a < left@.len() ==> #[trigger] left@[a] < keys@.len(),
        forall|a: int| 0 <= a < right@.len() ==> #[trigger] right@[a] < keys@.len(),
        forall|a: int, b: int|
            0 <= a < left@.len() && 0 <= b < right@.len() ==> #[trigger] left@[a]
                < #[trigger] right@[b],
    ensures
        merging(
            key_views(keys@),
            left@,
            right@,
            left@.len() as int,
            right@.len() as int,
            out@,
        ),
{
    let ghost views = key_views(keys@);
    let mut out: Vec<usize> = Vec::new();
    let mut i: usize = 0;
    let mut j: usize = 0;
    while i < left.len() || j < right.len()
        invariant
            views == key_views(keys@),
            ordered(views, left@),
            ordered(views, right@),
            forall|a: int| 0 <= a < left@.len() ==> #[trigger] left@[a] < keys@.len(),
            forall|a: int| 0 <= a < right@.len() ==> #[trigger] right@[a] < keys@.len(),
            forall|a: int, b: int|
                0 <= a < left@.len() && 0 <= b < right@.len() ==> #[trigger] left@[a]
                    < #[trigger] right@[b],
            merging(views, left@, right@, i as int, j as int, out@),
        decreases left@.len() - i + right@.len() - j,
    {
        let take_left: bool = if i >= left.len() {
            false
        } else if j >= right.len() {
            true
        } else {
            proof {
                lemma_key_less_total(views[left@[i as int] as int], views[right@[j as int] as int]);
                lemma_key_less_asymmetric(
                    views[right@[j as int] as int],
                    views[left@[i as int] as int],
                );
            }
            !is_key_less(&keys[right[j]], &keys[left[i]])
        };
        if take_left {
            proof {
                lemma_merge_left(views, left@, right@, i as int, j as int, out@);
            }
            out.push(left[i]);
            i = i + 1;
        } else {
            proof {
                lemma_merge_right(views, left@, right@, i as int, j as int, out@);
            }
            out.push(right[j]);
            j = j + 1;
        }
    }
    out
}

/// The stable order of the positions `lo..hi`.
fn order_range(keys: &Vec<Vec<String>>, lo: usize, hi: usize) -> (r: Vec<usize>)
    requires
        lo <= hi <= keys@.len(),
    ensures
        orders_range(key_views(keys@), r@, lo as int, hi as int),
    decreases hi - lo,
{
    if hi - lo <= 1 {
        let mut out: Vec<usize> = Vec::new();
        if lo < hi {
            out.push(lo);
            assert(out@[0] == lo);
        }
        return out;
    }
    let mid: usize = lo + (hi - lo) / 2;
    let left = order_range(keys, lo, mid);
    let right = order_range(keys, mid, hi);
    let out = merge(keys, &left, &right);
    proof {
        assert forall|a: int| 0 <= a < out@.len() implies lo <= #[trigger] out@[a] < hi by {
            assert(left@.contains(out@[a]) || right@.contains(out@[a]));
        }
        assert forall|k: usize| lo <= k < hi implies #[trigger] out@.contains(k) by {
            if k < mid {
                assert(left@.contains(k));
                let b = choose|b: int| 0 <= b < left@.len() && left@[b] == k;
                assert(out@.contains(left@[b]));
            } else {
                assert(right@.contains(k));
                let b = choose|b: int| 0 <= b < right@.len() && right@[b] == k;
                assert(out@.contains(right@[b]));
            }
        }
    }
    out
}

/// There is only one stable order.
pub proof fn lemma_stable_order_unique(
    keys: Seq<Seq<Seq<char>>>,
    p: Seq<usize>,
    q: Seq<usize>,
)
    requires
        keys.len() <= usize::MAX,
        stable_order(keys, p),
        stable_order(keys, q),
    ensures
        p == q,
{
    if p != q {
        if forall|n: int| 0 <= n < p.len() ==> p[n] == q[n] {
            assert(p =~= q);
        }
        let n0 = choose|n: int| 0 <= n < p.len() && p[n] != q[n];
        let n = lemma_least_difference(p, q, n0);
        lemma_position_behind(keys, p, q, n);
        lemma_position_behind(keys, q, p, n);
        let x = p[n] as int;
        let y = q[n] as int;
        lemma_key_less_asymmetric(keys[x], keys[y]);
        lemma_key_less_asymmetric(keys[y], keys[x]);
    }
}

/// The first place at which two lists differ.
proof fn lemma_least_difference(p: Seq<usize>, q: Seq<usize>, n: int) -> (m: int)
    requires
        0 <= n < p.len(),
        p[n] != q[n],
    ensures
        0 <= m <= n,
        p[m] != q[m],
        forall|k: int| 0 <= k < m ==> p[k] == q[k],
    decreases n,
{
    if exists|k: int| 0 <= k < n && p[k] != q[k] {
        let k = choose|k: int| 0 <= k < n && p[k] != q[k];
        lemma_least_difference(p, q, k)
    } else {
        n
    }
}

/// Where two stable orders first differ, each one's position goes before the
/// other's.
proof fn lemma_position_behind(keys: Seq<Seq<Seq<char>>>, p: Seq<usize>, q: Seq<usize>, n: int)
    requires
        stable_order(keys, p),
        stable_order(keys, q),
        0 <= n < p.len(),
        p[n] != q[n],
        forall|k: int| 0 <= k < n ==> p[k] == q[k],
    ensures
        goes_before(keys, p[n] as int, q[n] as int),
{
    let x = q[n];
    assert(p.contains(x));
    let k = choose|k: int| 0 <= k < p.len() && p[k] == x;
    if k < n {
        assert(q[k] == q[n]);
        assert(goes_before(keys, q[k] as int, q[n] as int));
        lemma_key_less_asymmetric(keys[x as int], keys[x as int]);
        assert(false);
    }
    assert(goes_before(keys, p[n] as int, p[k] as int));
}

/// The positions of `keys` in stable order.
pub open spec fn sorted_order(keys: Seq<Seq<Seq<char>>>) -> Seq<usize> {
    choose|order: Seq<usize>| stable_order(keys, order)
}

/// The leading elements of `order` that go before position `k`.
proof fn lemma_insertion_point(keys: Seq<Seq<Seq<char>>>, order: Seq<usize>, k: int) -> (n: int)
    requires
        ordered(keys, order),
        forall|a: int| 0 <= a < order.len() ==> #[trigger] order[a] < k,
    ensures
        0 <= n <= order.len(),
        forall|a: int| 0 <= a < n ==> goes_before(keys, #[trigger] order[a] as int, k),
        forall|a: int| n <= a < order.len() ==> goes_before(keys, k, #[trigger] order[a] as int),
    decreases order.len(),
{
    if order.len() == 0 {
        0
    } else {
        let init = order.drop_last();
        let last = order.last() as int;
        assert forall|a: int, b: int| 0 <= a < b < init.len() implies goes_before(
            keys,
            #[trigger] init[a] as int,
            #[trigger] init[b] as int,
        ) by {
            assert(goes_before(keys, order[a] as int, order[b] as int));
        }
        assert forall|a: int| 0 <= a < init.len() implies #[trigger] init[a] < k by {
            assert(order[a] < k);
        }
        lemma_key_less_total(keys[last], keys[k]);
        assert(order[order.len() - 1] < k);
        if goes_before(keys, last, k) {
            assert forall|a: int| 0 <= a < order.len() implies goes_before(
                keys,
                #[trigger] order[a] as int,
                k,
            ) by {
                if a < order.len() - 1 {
                    assert(goes_before(keys, order[a] as int, order[order.len() - 1] as int));
                    lemma_goes_before_transitive(keys, order[a] as int, last, k);
                }
            }
            order.len() as int
        } else {
            let n = lemma_insertion_point(keys, init, k);
            assert forall|a: int| n <= a < order.len() implies goes_before(
                keys,
                k,
                #[trigger] order[a] as int,
            ) by {
                if a < order.len() - 1 {
                    assert(goes_before(keys, k, init[a] as int));
                }
            }
            assert forall|a: int| 0 <= a < n implies goes_before(
                keys,
                #[trigger] order[a] as int,
                k,
            ) by {
                assert(goes_before(keys, init[a] as int, k));
            }
            n
        }
    }
}

/// The positions below `hi` have a stable order.
proof fn lemma_orders_range_exists(keys: Seq<Seq<Seq<char>>>, hi: int) -> (order: Seq<usize>)
    requires
        0 <= hi <= keys.len(),
        hi <= usize::MAX,
    ensures
        orders_range(keys, order, 0, hi),
    decreases hi,
{
    if hi == 0 {
        Seq::empty()
    } else {
        let k = hi - 1;
        let before = lemma_orders_range_exists(keys, k);
        let n = lemma_insertion_point(keys, before, k);
        let order = before.insert(n, k as usize);
        assert forall|a: int, b: int| 0 <= a < b < order.len() implies goes_before(
            keys,
            #[trigger] order[a] as int,
            #[trigger] order[b] as int,
        ) by {
            let x = if a < n {
                a
            } else {
                a - 1
            };
            let y = if b < n {
                b
            } else {
                b - 1
            };
            if a == n {
                assert(goes_before(keys, k, before[y] as int));
            } else if b == n {
                assert(goes_before(keys, before[x] as int, k));
            } else {
                assert(goes_before(keys, before[x] as int, before[y] as int));
            }
        }
        assert forall|a: int| 0 <= a < order.len() implies 0 <= #[trigger] order[a] < hi by {
            if a != n {
                let x = if a < n {
                    a
                } else {
                    a - 1
                };
                assert(order[a] == before[x]);
            }
        }
        assert forall|i: usize| 0 <= i < hi implies #[trigger] order.contains(i) by {
            if i == k {
                assert(order[n] == i);
            } else {
                assert(before.contains(i));
                let x = choose|x: int| 0 <= x < before.len() && before[x] == i;
                if x < n {
                    assert(order[x] == i);
                } else {
                    assert(order[x + 1] == i);
                }
            }
        }
        order
    }
}

/// The order of the positions is a stable order.
pub proof fn lemma_sorted_order(keys: Seq<Seq<Seq<char>>>)
    requires
        keys.len() <= usize::MAX,
    ensures
        stable_order(keys, sorted_order(keys)),
{
    let order = lemma_orders_range_exists(keys, keys.len() as int);
    assert(stable_order(keys, order));
}

/// The positions of `keys` in stable order.
pub fn sorted_positions(keys: &Vec<Vec<String>>) -> (r: Vec<usize>)
    ensures
        r@ == sorted_order(key_views(keys@)),
        stable_order(key_views(keys@), r@),
{
    let r = order_range(keys, 0, keys.len());
    proof {
        lemma_stable_order_unique(key_views(keys@), r@, sorted_order(key_views(keys@)));
    }
    r
}

} // verus!
