//! Places of a sequence that are picked out of it, in order and each once.

use vstd::prelude::*;

verus! {

/// Whether places rise and all lie below `n`: in order, and each once.
pub open spec fn rising(at: Seq<int>, n: int) -> bool {
    &&& forall|i: int, j: int| 0 <= i < j < at.len() ==> #[trigger] at[i] < #[trigger] at[j]
    &&& forall|i: int| 0 <= i < at.len() ==> 0 <= #[trigger] at[i] < n
}

/// The places below `n` that a test picks.
pub open spec fn places(n: int, keep: spec_fn(int) -> bool) -> Seq<int>
    decreases n,
{
    if n <= 0 {
        Seq::empty()
    } else if keep(n - 1) {
        places(n - 1, keep).push(n - 1)
    } else {
        places(n - 1, keep)
    }
}

/// The picked places rise, and they are all that the test picks.
pub proof fn lemma_places(n: int, keep: spec_fn(int) -> bool)
    ensures
        rising(places(n, keep), n),
        forall|k: int| #[trigger]
            places(n, keep).contains(k) == (0 <= k < n && keep(k)),
    decreases n,
{
    if n > 0 {
        lemma_places(n - 1, keep);
        let head = places(n - 1, keep);
        let all = places(n, keep);
        assert forall|k: int| #[trigger] all.contains(k) == (0 <= k < n && keep(k)) by {
            if keep(n - 1) {
                assert(all[head.len() as int] == n - 1);
            }
            if all.contains(k) {
                let i = choose|i: int| 0 <= i < all.len() && all[i] == k;
                if i < head.len() {
                    assert(head[i] == k);
                    assert(head.contains(k));
                }
            }
            if 0 <= k < n - 1 && keep(k) {
                assert(head.contains(k));
                let i = choose|i: int| 0 <= i < head.len() && head[i] == k;
                assert(all[i] == k);
            }
        }
    }
}

/// There are no more rising places than numbers to choose from.
pub proof fn lemma_rising_len(at: Seq<int>, n: int)
    requires
        0 <= n,
        rising(at, n),
    ensures
        at.len() <= n,
    decreases n,
{
    if at.len() > 0 {
        let last = at.last();
        let head = at.drop_last();
        assert forall|i: int| 0 <= i < head.len() implies 0 <= #[trigger] head[i] < last by {
            assert(at[i] < at[at.len() - 1]);
        }
        assert forall|i: int, j: int| 0 <= i < j < head.len() implies #[trigger] head[i]
            < #[trigger] head[j] by {
            assert(at[i] < at[j]);
        }
        lemma_rising_len(head, last);
    }
}

/// Two lists of rising places that hold the same are the same.
pub proof fn lemma_rising_unique(a: Seq<int>, b: Seq<int>, n: int)
    requires
        rising(a, n),
        rising(b, n),
        forall|k: int| 0 <= k < n ==> a.contains(k) == #[trigger] b.contains(k),
    ensures
        a == b,
{
    lemma_rising_prefix(a, b, n, a.len() as int);
    lemma_rising_prefix(b, a, n, b.len() as int);
}

/// A list of rising places begins with what one that holds all of it begins with.
proof fn lemma_rising_prefix(a: Seq<int>, b: Seq<int>, n: int, k: int)
    requires
        rising(a, n),
        rising(b, n),
        0 <= k <= a.len(),
        forall|j: int| 0 <= j < n ==> a.contains(j) == #[trigger] b.contains(j),
    ensures
        k <= b.len(),
        forall|i: int| 0 <= i < k ==> #[trigger] a[i] == b[i],
    decreases k,
{
    if k > 0 {
        lemma_rising_prefix(a, b, n, k - 1);
        let x = a[k - 1];
        assert(a.contains(x));
        assert(b.contains(x));
        let j = choose|j: int| 0 <= j < b.len() && b[j] == x;
        if j < k - 1 {
            assert(a[j] == b[j]);
            assert(a[j] < a[k - 1]);
        }
        if j > k - 1 {
            let y = b[k - 1];
            assert(b[k - 1] < b[j]);
            assert(b.contains(y));
            assert(a.contains(y));
            let i = choose|i: int| 0 <= i < a.len() && a[i] == y;
            if i < k - 1 {
                assert(a[i] == b[i]);
                assert(b[i] < b[k - 1]);
            } else if i > k - 1 {
                assert(a[k - 1] < a[i]);
            }
        }
    }
}

/// A list that grows by one item for each place that a test picks holds just these items.
pub proof fn lemma_collected<B>(
    grown: spec_fn(int) -> Seq<B>,
    n: int,
    keep: spec_fn(int) -> bool,
    item: spec_fn(int) -> B,
)
    requires
        0 <= n,
        grown(0) == Seq::<B>::empty(),
        forall|k: int|
            #![trigger keep(k)]
            0 <= k < n && keep(k) ==> grown(k + 1) == grown(k).push(item(k)),
        forall|k: int|
            #![trigger keep(k)]
            0 <= k < n && !keep(k) ==> grown(k + 1) == grown(k),
    ensures
        grown(n).len() == places(n, keep).len(),
        forall|i: int|
            0 <= i < grown(n).len() ==> #[trigger] grown(n)[i] == item(places(n, keep)[i]),
    decreases n,
{
    if n > 0 {
        lemma_collected(grown, n - 1, keep, item);
        let k = n - 1;
        assert(grown(k + 1) == grown(n));
        if keep(k) {
            assert(grown(n) == grown(k).push(item(k)));
        }
        assert forall|i: int| 0 <= i < grown(n).len() implies #[trigger] grown(n)[i] == item(
            places(n, keep)[i],
        ) by {
            if i < grown(k).len() {
                assert(grown(n)[i] == grown(k)[i]);
            }
        }
    }
}

/// Whether a list is what stands at some places of another.
pub open spec fn is_picked<A>(out: Seq<A>, all: Seq<A>, at: Seq<int>) -> bool {
    &&& rising(at, all.len() as int)
    &&& out.len() == at.len()
    &&& forall|i: int| 0 <= i < out.len() ==> #[trigger] out[i] == all[at[i]]
}

/// A list that grows by the items of another that a test picks is what stands at these places.
pub proof fn lemma_picked<A>(
    grown: spec_fn(int) -> Seq<A>,
    all: Seq<A>,
    keep: spec_fn(int) -> bool,
) -> (at: Seq<int>)
    requires
        grown(0) == Seq::<A>::empty(),
        forall|k: int|
            #![trigger keep(k)]
            0 <= k < all.len() && keep(k) ==> grown(k + 1) == grown(k).push(all[k]),
        forall|k: int|
            #![trigger keep(k)]
            0 <= k < all.len() && !keep(k) ==> grown(k + 1) == grown(k),
    ensures
        is_picked(grown(all.len() as int), all, at),
        forall|k: int| 0 <= k < all.len() ==> #[trigger] at.contains(k) == keep(k),
{
    let n = all.len() as int;
    lemma_places(n, keep);
    lemma_collected(grown, n, keep, |k: int| all[k]);
    places(n, keep)
}

/// A list of picked items without one of them is what stands at the other places.
pub proof fn lemma_removed<A>(out: Seq<A>, all: Seq<A>, at: Seq<int>, x: int)
    requires
        is_picked(out, all, at),
        0 <= x < at.len(),
    ensures
        is_picked(out.remove(x), all, at.remove(x)),
        forall|i: int| #[trigger]
            at.remove(x).contains(i) == (at.contains(i) && i != at[x]),
{
    let rest = at.remove(x);
    assert forall|i: int, j: int| 0 <= i < j < rest.len() implies #[trigger] rest[i]
        < #[trigger] rest[j] by {
        let a = if i < x {
            i
        } else {
            i + 1
        };
        let b = if j < x {
            j
        } else {
            j + 1
        };
        assert(at[a] < at[b]);
    }
    assert forall|i: int| #[trigger] rest.contains(i) == (at.contains(i) && i != at[x]) by {
        if rest.contains(i) {
            let k = choose|k: int| 0 <= k < rest.len() && rest[k] == i;
            if k < x {
                assert(at[k] == i);
                assert(at[k] < at[x]);
            } else {
                assert(at[k + 1] == i);
                assert(at[x] < at[k + 1]);
            }
        }
        if at.contains(i) && i != at[x] {
            let k = choose|k: int| 0 <= k < at.len() && at[k] == i;
            if k < x {
                assert(rest[k] == i);
            } else {
                assert(rest[k - 1] == i);
            }
        }
    }
}

} // verus!
