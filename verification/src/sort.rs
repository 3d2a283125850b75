//! Sorting that keeps the order of what compares equal.

use vstd::prelude::*;

verus! {

/// Whether a key comes before another: the first number in which they differ decides, and
/// a key comes before the longer ones that begin with it.
pub open spec fn key_less(a: Seq<u64>, b: Seq<u64>) -> bool
    decreases b.len(),
{
    if b.len() == 0 {
        false
    } else if a.len() == 0 {
        true
    } else if a[0] != b[0] {
        a[0] < b[0]
    } else {
        key_less(a.skip(1), b.skip(1))
    }
}

/// The first place in an order whose key comes behind a key.
pub open spec fn slot(order: Seq<int>, keys: Seq<Seq<u64>>, key: Seq<u64>, p: int) -> int
    decreases order.len() - p,
{
    if p >= order.len() || key_less(key, keys[order[p]]) {
        p
    } else {
        slot(order, keys, key, p + 1)
    }
}

/// The positions of keys in the order of the keys; equal keys keep their order.
pub open spec fn order_of(keys: Seq<Seq<u64>>) -> Seq<int>
    decreases keys.len(),
{
    if keys.len() == 0 {
        Seq::empty()
    } else {
        let before = order_of(keys.drop_last());
        before.insert(slot(before, keys, keys.last(), 0), keys.len() - 1)
    }
}

/// The items at the positions of an order.
pub open spec fn picked<T>(items: Seq<T>, order: Seq<int>) -> Seq<T> {
    order.map_values(|i: int| items[i])
}

/// The positions as a list of indexes gives them.
pub open spec fn positions(v: Seq<usize>) -> Seq<int> {
    v.map_values(|i: usize| i as int)
}

/// What a list of keys holds.
pub open spec fn key_views(v: Seq<Vec<u64>>) -> Seq<Seq<u64>> {
    v.map_values(|k: Vec<u64>| k@)
}

/// The characters of a text as a key.
pub open spec fn text_key(s: Seq<char>) -> Seq<u64> {
    s.map_values(|c: char| c as u64)
}

/// The characters of a text as a key by which texts of the same length sort backwards.
pub open spec fn reverse_text_key(s: Seq<char>) -> Seq<u64> {
    s.map_values(|c: char| (u64::MAX - c as u64) as u64)
}

// ----------------------------------------------------------------------- code

/// Whether a key comes before another.
fn less(a: &Vec<u64>, b: &Vec<u64>) -> (r: bool)
    ensures
        r == key_less(a@, b@),
{
    let mut i: usize = 0;
    assert(a@.skip(0) == a@ && b@.skip(0) == b@);
    while i < a.len() && i < b.len() && a[i] == b[i]
        invariant
            i <= a.len(),
            i <= b.len(),
            key_less(a@, b@) == key_less(a@.skip(i as int), b@.skip(i as int)),
        decreases a.len() - i,
    {
        assert(a@.skip(i as int).skip(1) == a@.skip(i + 1));
        assert(b@.skip(i as int).skip(1) == b@.skip(i + 1));
        i += 1;
    }
    if i == b.len() {
        false
    } else if i == a.len() {
        true
    } else {
        a[i] < b[i]
    }
}

/// Sorts positions by their keys. Equal keys keep their order.
pub fn stable_order(keys: &Vec<Vec<u64>>) -> (r: Vec<usize>)
    ensures
        positions(r@) == order_of(key_views(keys@)),
        r@.len() == keys@.len(),
        forall|p: int| 0 <= p < r@.len() ==> #[trigger] r@[p] < keys@.len(),
{
    let ghost all = key_views(keys@);
    let mut order: Vec<usize> = Vec::new();
    let mut n: usize = 0;
    assert(positions(order@) == order_of(all.take(0)));
    while n < keys.len()
        invariant
            n <= keys.len(),
            all == key_views(keys@),
            order@.len() == n,
            positions(order@) == order_of(all.take(n as int)),
            forall|p: int| 0 <= p < order@.len() ==> #[trigger] order@[p] < n,
        decreases keys.len() - n,
    {
        let ghost longer = all.take(n + 1);
        let ghost now = positions(order@);
        assert(longer.drop_last() == all.take(n as int));
        let mut p: usize = 0;
        while p < order.len() && !less(&keys[n], &keys[order[p]])
            invariant
                p <= order.len(),
                n < keys.len(),
                all == key_views(keys@),
                longer == all.take(n + 1),
                now == positions(order@),
                forall|q: int| 0 <= q < order@.len() ==> #[trigger] order@[q] < n,
                slot(now, longer, longer.last(), 0) == slot(now, longer, longer.last(), p as int),
            decreases order.len() - p,
        {
            assert(now[p as int] == order@[p as int]);
            assert(longer[now[p as int]] == keys@[order@[p as int] as int]@);
            p += 1;
        }
        if p < order.len() {
            assert(now[p as int] == order@[p as int]);
            assert(longer[now[p as int]] == keys@[order@[p as int] as int]@);
        }
        assert(slot(now, longer, longer.last(), 0) == p);
        let ghost before = order@;
        order.insert(p, n);
        assert(positions(order@) == now.insert(p as int, n as int));
        n += 1;
    }
    assert(all.take(n as int) == all);
    order
}

/// The characters of a text as a key.
pub fn key_of(s: &str) -> (r: Vec<u64>)
    ensures
        r@ == text_key(s@),
{
    let chars: Vec<char> = crate::text::chars_of(s);
    let mut out: Vec<u64> = Vec::new();
    let mut i: usize = 0;
    while i < chars.len()
        invariant
            i <= chars.len(),
            out@ == text_key(chars@.take(i as int)),
        decreases chars.len() - i,
    {
        out.push(chars[i] as u64);
        assert(out@ =~= text_key(chars@.take(i + 1)));
        i += 1;
    }
    assert(chars@.take(i as int) == chars@);
    out
}

/// The characters of a text as a key by which texts of the same length sort backwards.
pub fn reverse_key_of(s: &str) -> (r: Vec<u64>)
    ensures
        r@ == reverse_text_key(s@),
{
    let chars: Vec<char> = crate::text::chars_of(s);
    let mut out: Vec<u64> = Vec::new();
    let mut i: usize = 0;
    while i < chars.len()
        invariant
            i <= chars.len(),
            out@ == reverse_text_key(chars@.take(i as int)),
        decreases chars.len() - i,
    {
        let c: u64 = chars[i] as u64;
        out.push(u64::MAX - c);
        assert(out@ =~= reverse_text_key(chars@.take(i + 1)));
        i += 1;
    }
    assert(chars@.take(i as int) == chars@);
    out
}

// ----------------------------------------------------------------------- laws

proof fn lemma_less_irreflexive(a: Seq<u64>)
    ensures
        !key_less(a, a),
    decreases a.len(),
{
    if a.len() > 0 {
        lemma_less_irreflexive(a.skip(1));
    }
}

proof fn lemma_less_transitive(a: Seq<u64>, b: Seq<u64>, c: Seq<u64>)
    requires
        key_less(a, b),
        key_less(b, c),
    ensures
        key_less(a, c),
    decreases a.len(),
{
    if a.len() > 0 && b.len() > 0 && c.len() > 0 && a[0] == b[0] && b[0] == c[0] {
        lemma_less_transitive(a.skip(1), b.skip(1), c.skip(1));
    }
}

pub proof fn lemma_less_total(a: Seq<u64>, b: Seq<u64>)
    ensures
        key_less(a, b) || key_less(b, a) || a == b,
    decreases a.len(),
{
    if a.len() > 0 && b.len() > 0 && a[0] == b[0] {
        lemma_less_total(a.skip(1), b.skip(1));
        if a.skip(1) == b.skip(1) {
            assert forall|i: int| 0 <= i < a.len() implies a[i] == b[i] by {
                if i > 0 {
                    assert(a[i] == a.skip(1)[i - 1]);
                    assert(b[i] == b.skip(1)[i - 1]);
                }
            }
            assert(a.len() == a.skip(1).len() + 1 && b.len() == b.skip(1).len() + 1);
            assert(a =~= b);
        }
    } else if a.len() == 0 && b.len() == 0 {
        assert(a =~= b);
    }
}

proof fn lemma_slot(order: Seq<int>, keys: Seq<Seq<u64>>, key: Seq<u64>, p: int)
    requires
        0 <= p <= order.len(),
    ensures
        p <= slot(order, keys, key, p) <= order.len(),
        slot(order, keys, key, p) < order.len() ==> key_less(
            key,
            keys[order[slot(order, keys, key, p)]],
        ),
        forall|q: int|
            p <= q < slot(order, keys, key, p) ==> !key_less(key, keys[#[trigger] order[q]]),
    decreases order.len() - p,
{
    if p < order.len() && !key_less(key, keys[order[p]]) {
        lemma_slot(order, keys, key, p + 1);
    }
}

/// Whether positions are those of the keys, each once, in the order of the keys, and equal
/// keys in the order of their positions.
pub open spec fn is_stable_order(order: Seq<int>, keys: Seq<Seq<u64>>) -> bool {
    &&& order.len() == keys.len()
    &&& order.no_duplicates()
    &&& forall|p: int| 0 <= p < order.len() ==> 0 <= #[trigger] order[p] < keys.len()
    &&& forall|p: int, q: int|
        0 <= p < q < order.len() ==> !key_less(keys[#[trigger] order[q]], keys[#[trigger] order[p]])
            && (keys[order[p]] == keys[order[q]] ==> order[p] < order[q])
}

/// Sorting loses no position and adds none, it puts the keys in order, and equal keys keep
/// their order.
pub proof fn law_order_is_stable(keys: Seq<Seq<u64>>)
    ensures
        is_stable_order(order_of(keys), keys),
    decreases keys.len(),
{
    if keys.len() > 0 {
        let head = keys.drop_last();
        let n = keys.len() - 1;
        let key = keys.last();
        law_order_is_stable(head);
        let before = order_of(head);
        lemma_slot(before, keys, key, 0);
        let at = slot(before, keys, key, 0);
        let order = order_of(keys);
        assert(order == before.insert(at, n));
        assert forall|p: int| 0 <= p < before.len() implies keys[#[trigger] before[p]]
            == head[before[p]] by {}
        assert forall|p: int| 0 <= p < order.len() implies 0 <= #[trigger] order[p] < keys.len()
            && order[p] == if p < at {
            before[p]
        } else if p == at {
            n
        } else {
            before[p - 1]
        } by {}
        assert forall|p: int, q: int| 0 <= p < q < order.len() implies order[p] != order[q]
            && !key_less(keys[#[trigger] order[q]], keys[#[trigger] order[p]]) && (keys[order[p]]
            == keys[order[q]] ==> order[p] < order[q]) by {
            if p == at {
                // The new key against one behind it.
                let b = before[q - 1];
                if q - 1 == at {
                    lemma_less_irreflexive(key);
                    if key_less(keys[b], key) {
                        lemma_less_transitive(key, keys[b], key);
                    }
                } else {
                    assert(!key_less(keys[b], keys[before[at]]));
                    lemma_less_total(keys[before[at]], keys[b]);
                    if keys[before[at]] != keys[b] {
                        lemma_less_transitive(key, keys[before[at]], keys[b]);
                    }
                    lemma_less_irreflexive(key);
                    if key_less(keys[b], key) {
                        lemma_less_transitive(key, keys[b], key);
                    }
                }
            } else if q == at {
                assert(!key_less(key, keys[before[p]]));
            } else {
                let x = if p < at {
                    p
                } else {
                    p - 1
                };
                let y = if q < at {
                    q
                } else {
                    q - 1
                };
                assert(order[p] == before[x] && order[q] == before[y]);
            }
        }
        assert(order.no_duplicates());
    }
}

/// Sorting keeps every position.
pub proof fn lemma_order_has_all(keys: Seq<Seq<u64>>, i: int)
    requires
        0 <= i < keys.len(),
    ensures
        order_of(keys).contains(i),
    decreases keys.len(),
{
    let before = order_of(keys.drop_last());
    let at = slot(before, keys, keys.last(), 0);
    lemma_slot(before, keys, keys.last(), 0);
    let all = before.insert(at, keys.len() - 1);
    if i == keys.len() - 1 {
        assert(all[at] == i);
    } else {
        lemma_order_has_all(keys.drop_last(), i);
        let k = choose|k: int| 0 <= k < before.len() && before[k] == i;
        if k < at {
            assert(all[k] == i);
        } else {
            assert(all[k + 1] == i);
        }
    }
}

/// Whether two keys are the same up to position `k`, and the first one ends there or has the
/// smaller number.
pub open spec fn differs_at(a: Seq<u64>, b: Seq<u64>, k: int) -> bool {
    &&& 0 <= k <= a.len() && k < b.len()
    &&& forall|i: int| 0 <= i < k ==> #[trigger] a[i] == b[i]
    &&& k == a.len() || a[k] < b[k]
}

/// A key comes before another just where they are the same up to a position at which it ends
/// or has the smaller number.
pub proof fn law_keys_are_ordered(a: Seq<u64>, b: Seq<u64>)
    ensures
        key_less(a, b) <==> exists|k: int| #[trigger] differs_at(a, b, k),
    decreases a.len(),
{
    if a.len() > 0 && b.len() > 0 && a[0] == b[0] {
        let x = a.skip(1);
        let y = b.skip(1);
        law_keys_are_ordered(x, y);
        if exists|k: int| #[trigger] differs_at(x, y, k) {
            let k = choose|k: int| #[trigger] differs_at(x, y, k);
            assert forall|i: int| 0 <= i < k + 1 implies #[trigger] a[i] == b[i] by {
                if i > 0 {
                    assert(x[i - 1] == y[i - 1]);
                }
            }
            assert(differs_at(a, b, k + 1));
        }
        if exists|k: int| #[trigger] differs_at(a, b, k) {
            let k = choose|k: int| #[trigger] differs_at(a, b, k);
            assert(k > 0);
            assert forall|i: int| 0 <= i < k - 1 implies #[trigger] x[i] == y[i] by {
                assert(a[i + 1] == b[i + 1]);
            }
            assert(differs_at(x, y, k - 1));
        }
    } else if b.len() > 0 {
        if key_less(a, b) {
            assert(differs_at(a, b, 0));
        }
        if exists|k: int| #[trigger] differs_at(a, b, k) {
            let k = choose|k: int| #[trigger] differs_at(a, b, k);
            if k > 0 {
                assert(a[0] == b[0]);
            }
        }
    }
}

/// Whether a text comes before another, character by character; a text comes before one that
/// goes on.
pub open spec fn reads_before(a: Seq<char>, b: Seq<char>) -> bool {
    exists|k: int| #[trigger] parts_at(a, b, k)
}

/// Whether two texts are the same up to position `k`, and the first one ends there or has the
/// smaller character.
pub open spec fn parts_at(a: Seq<char>, b: Seq<char>, k: int) -> bool {
    &&& 0 <= k <= a.len() && k < b.len()
    &&& forall|i: int| 0 <= i < k ==> #[trigger] a[i] == b[i]
    &&& k == a.len() || a[k] < b[k]
}

} // verus!
