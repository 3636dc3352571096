//! Stable ordering of a list by integer positions.
//!
//! The order is computed on the positions alone and handed out as a list of
//! indices, so that the items themselves never move.

use vstd::prelude::*;

verus! {

/// Where an item with position `key` goes into `order`: behind the last entry
/// whose position is not greater.
pub open spec fn slot(keys: Seq<i64>, order: Seq<int>, key: i64) -> int
    decreases order.len(),
{
    if order.len() == 0 {
        0
    } else if keys[order.last()] <= key {
        order.len() as int
    } else {
        slot(keys, order.drop_last(), key)
    }
}

/// The indices of `keys`, arranged by ascending position; equal positions keep
/// the order in which they arrived.
pub open spec fn stable_order(keys: Seq<i64>) -> Seq<int>
    decreases keys.len(),
{
    if keys.len() == 0 {
        Seq::empty()
    } else {
        let rest = stable_order(keys.drop_last());
        rest.insert(slot(keys, rest, keys.last()), keys.len() - 1)
    }
}

/// `v` is one of the entries of `order`.
pub open spec fn occurs(order: Seq<int>, v: int) -> bool {
    exists|i: int| 0 <= i < order.len() && #[trigger] order[i] == v
}

/// `order` lists each index below `n` exactly once.
pub open spec fn is_arrangement(order: Seq<int>, n: nat) -> bool {
    &&& order.len() == n
    &&& forall|i: int| 0 <= i < n ==> 0 <= (#[trigger] order[i]) < n
    &&& forall|i: int, j: int| 0 <= i < j < n ==> #[trigger] order[i] != #[trigger] order[j]
    &&& forall|v: int| 0 <= v < n ==> #[trigger] occurs(order, v)
}

/// Along `order` the positions never decrease.
pub open spec fn ascending(keys: Seq<i64>, order: Seq<int>) -> bool {
    forall|i: int, j: int|
        0 <= i < j < order.len() ==> keys[#[trigger] order[i]] <= keys[#[trigger] order[j]]
}

/// Along `order`, items of equal position stand in the order of their indices.
pub open spec fn keeps_ties(keys: Seq<i64>, order: Seq<int>) -> bool {
    forall|i: int, j: int|
        0 <= i < j < order.len() && keys[#[trigger] order[i]] == keys[#[trigger] order[j]]
            ==> order[i] < order[j]
}

/// No two indices of `keys` hold the same position.
pub open spec fn distinct_keys(keys: Seq<i64>) -> bool {
    forall|i: int, j: int| 0 <= i < j < keys.len() ==> #[trigger] keys[i] != #[trigger] keys[j]
}

/// The items of `items` in the arrangement `order`.
pub open spec fn arranged<T>(items: Seq<T>, order: Seq<int>) -> Seq<T> {
    Seq::new(order.len(), |k: int| items[order[k]])
}

/// `slot` lies within `order`; everything from it on is greater than `key`,
/// and the entry before it is not.
pub proof fn lemma_slot(keys: Seq<i64>, order: Seq<int>, key: i64)
    ensures
        0 <= slot(keys, order, key) <= order.len(),
        forall|i: int|
            slot(keys, order, key) <= i < order.len() ==> keys[#[trigger] order[i]] > key,
        slot(keys, order, key) > 0 ==> keys[order[slot(keys, order, key) - 1]] <= key,
    decreases order.len(),
{
    if order.len() > 0 && keys[order.last()] > key {
        let front = order.drop_last();
        lemma_slot(keys, front, key);
        assert forall|i: int| slot(keys, order, key) <= i < order.len() implies keys[#[trigger] order[i]]
            > key by {
            if i < front.len() {
                assert(order[i] == front[i]);
            }
        }
    }
}

/// The stable order lists every index once, with ascending positions and ties
/// in arrival order.
pub proof fn lemma_stable_order(keys: Seq<i64>)
    ensures
        is_arrangement(stable_order(keys), keys.len()),
        ascending(keys, stable_order(keys)),
        keeps_ties(keys, stable_order(keys)),
    decreases keys.len(),
{
    let n = keys.len();
    if n > 0 {
        let front = keys.drop_last();
        let rest = stable_order(front);
        let key = keys.last();
        let s = slot(keys, rest, key);
        let order = stable_order(keys);
        lemma_stable_order(front);
        lemma_slot(keys, rest, key);
        assert(order == rest.insert(s, n - 1));
        assert forall|i: int| 0 <= i < n implies 0 <= (#[trigger] order[i]) < n by {
            if i < s {
                assert(order[i] == rest[i]);
            } else if i > s {
                assert(order[i] == rest[i - 1]);
            }
        }
        assert forall|i: int, j: int| 0 <= i < j < n implies #[trigger] order[i]
            != #[trigger] order[j] by {
            if i != s && j != s {
                let a = if i < s { i } else { i - 1 };
                let b = if j < s { j } else { j - 1 };
                assert(order[i] == rest[a] && order[j] == rest[b]);
            } else if i == s {
                assert(order[j] == rest[j - 1]);
            } else {
                assert(order[i] == rest[i]);
            }
        }
        assert forall|v: int| 0 <= v < n implies #[trigger] occurs(order, v) by {
            if v == n - 1 {
                assert(order[s] == v);
            } else {
                assert(occurs(rest, v));
                let i = choose|i: int| 0 <= i < rest.len() && #[trigger] rest[i] == v;
                let at = if i < s { i } else { i + 1 };
                assert(order[at] == v);
            }
        }
        assert forall|i: int, j: int| 0 <= i < j < n implies keys[#[trigger] order[i]]
            <= keys[#[trigger] order[j]] by {
            let a = if i < s { i } else { i - 1 };
            let b = if j < s { j } else { j - 1 };
            if i != s && j != s {
                assert(order[i] == rest[a] && order[j] == rest[b]);
                assert(front[rest[a]] == keys[rest[a]]);
                assert(front[rest[b]] == keys[rest[b]]);
            } else if i == s {
                assert(order[j] == rest[b]);
            } else {
                assert(order[i] == rest[a]);
                if a < s - 1 {
                    assert(front[rest[a]] <= front[rest[s - 1]]);
                }
            }
        }
        assert forall|i: int, j: int|
            0 <= i < j < n && keys[#[trigger] order[i]] == keys[#[trigger] order[j]]
            implies order[i] < order[j] by {
            let a = if i < s { i } else { i - 1 };
            let b = if j < s { j } else { j - 1 };
            if i != s && j != s {
                assert(order[i] == rest[a] && order[j] == rest[b]);
                assert(front[rest[a]] == keys[rest[a]]);
                assert(front[rest[b]] == keys[rest[b]]);
            } else if i == s {
                assert(order[j] == rest[b]);
            } else {
                assert(order[i] == rest[a]);
            }
        }
    }
}

/// The entries of an index list as mathematical integers.
pub open spec fn indices(order: Seq<usize>) -> Seq<int> {
    order.map_values(|i: usize| i as int)
}

/// Computes the stable order of `keys`: the one arrangement of their indices
/// along which the positions never decrease and equal positions stand in
/// arrival order.
pub fn sorted_order(keys: &Vec<i64>) -> (order: Vec<usize>)
    ensures
        indices(order@) == stable_order(keys@),
        order@.len() == keys@.len(),
        forall|k: int| 0 <= k < order@.len() ==> (#[trigger] order@[k]) < keys@.len(),
{
    let mut order: Vec<usize> = Vec::new();
    let mut i: usize = 0;
    while i < keys.len()
        invariant
            i <= keys.len(),
            indices(order@) == stable_order(keys@.take(i as int)),
        decreases keys.len() - i,
    {
        let key = keys[i];
        let ghost upto = keys@.take(i + 1);
        let ghost before = indices(order@);
        proof {
            lemma_stable_order(keys@.take(i as int));
            assert(upto.drop_last() == keys@.take(i as int));
        }
        let mut j: usize = order.len();
        proof {
            assert(before.take(j as int) == before);
        }
        while j > 0 && keys[order[j - 1]] > key
            invariant
                j <= order.len(),
                order.len() == i,
                i < keys.len(),
                upto == keys@.take(i + 1),
                before == indices(order@),
                forall|k: int| 0 <= k < i ==> 0 <= (#[trigger] before[k]) < i,
                slot(upto, before, key) == slot(upto, before.take(j as int), key),
            decreases j,
        {
            proof {
                assert(before[j - 1] == order@[j - 1]);
                assert(before.take(j as int).last() == before[j - 1]);
                assert(before.take(j as int).drop_last() == before.take(j - 1));
            }
            j -= 1;
        }
        proof {
            if j > 0 {
                assert(before[j - 1] == order@[j - 1]);
                assert(before.take(j as int).last() == before[j - 1]);
            }
            assert(upto.last() == key);
            assert(indices(order@.insert(j as int, i)) == before.insert(j as int, i as int));
        }
        order.insert(j, i);
        i += 1;
    }
    proof {
        assert(keys@.take(i as int) == keys@);
        lemma_stable_order(keys@);
        assert forall|k: int| 0 <= k < order@.len() implies (#[trigger] order@[k]) < keys@.len() by {
            assert(indices(order@)[k] == order@[k]);
        }
    }
    order
}

/// The stable order is the only one of its kind: an arrangement along which
/// the positions never decrease and ties stand in arrival order is the stable
/// order.
pub proof fn lemma_stable_order_is_unique(keys: Seq<i64>, order: Seq<int>)
    requires
        is_arrangement(order, keys.len()),
        ascending(keys, order),
        keeps_ties(keys, order),
    ensures
        order == stable_order(keys),
{
    lemma_stable_order(keys);
    lemma_agree_upto(keys, order, stable_order(keys), keys.len() as int);
    assert(order =~= stable_order(keys));
}

/// Two arrangements that both put distinct positions in ascending order are
/// the same arrangement.
pub proof fn lemma_ascending_arrangement_unique(keys: Seq<i64>, a: Seq<int>, b: Seq<int>)
    requires
        distinct_keys(keys),
        is_arrangement(a, keys.len()),
        is_arrangement(b, keys.len()),
        ascending(keys, a),
        ascending(keys, b),
    ensures
        a == b,
{
    lemma_no_ties(keys, a);
    lemma_no_ties(keys, b);
    lemma_stable_order_is_unique(keys, a);
    lemma_stable_order_is_unique(keys, b);
}

/// Among distinct positions there are no ties to keep.
proof fn lemma_no_ties(keys: Seq<i64>, order: Seq<int>)
    requires
        distinct_keys(keys),
        is_arrangement(order, keys.len()),
    ensures
        keeps_ties(keys, order),
{
    assert forall|i: int, j: int|
        0 <= i < j < order.len() && keys[#[trigger] order[i]] == keys[
            #[trigger] order[j]] implies order[i] < order[j] by {
        let x = order[i];
        let y = order[j];
        assert(x != y);
        if y < x {
            assert(keys[y] != keys[x]);
        }
    }
}

proof fn lemma_agree_upto(keys: Seq<i64>, a: Seq<int>, b: Seq<int>, m: int)
    requires
        is_arrangement(a, keys.len()),
        is_arrangement(b, keys.len()),
        ascending(keys, a),
        ascending(keys, b),
        keeps_ties(keys, a),
        keeps_ties(keys, b),
        0 <= m <= keys.len(),
    ensures
        forall|i: int| 0 <= i < m ==> a[i] == b[i],
    decreases m,
{
    if m > 0 {
        lemma_agree_upto(keys, a, b, m - 1);
        lemma_next_is_least(keys, a, b, m - 1);
        lemma_next_is_least(keys, b, a, m - 1);
    }
}

/// Where `a` and `b` agree before `at`, the entry of `b` at `at` is the least
/// of all that are left, by position and then by index: not greater than the
/// entry of `a` there.
proof fn lemma_next_is_least(keys: Seq<i64>, a: Seq<int>, b: Seq<int>, at: int)
    requires
        is_arrangement(a, keys.len()),
        is_arrangement(b, keys.len()),
        ascending(keys, b),
        keeps_ties(keys, b),
        0 <= at < keys.len(),
        forall|i: int| 0 <= i < at ==> a[i] == b[i],
    ensures
        keys[b[at]] <= keys[a[at]],
        keys[b[at]] == keys[a[at]] ==> b[at] <= a[at],
{
    let v = a[at];
    assert(occurs(b, v));
    let j = choose|j: int| 0 <= j < b.len() && #[trigger] b[j] == v;
    if j < at {
        assert(a[j] == b[j]);
        assert(a[j] != a[at]);
    } else if j > at {
        assert(keys[b[at]] <= keys[b[j]]);
        if keys[b[at]] == keys[b[j]] {
            assert(b[at] < b[j]);
        }
    }
}

/// An arrangement read through another arrangement is an arrangement.
pub proof fn lemma_arrangements_compose(p: Seq<int>, order: Seq<int>, n: nat)
    requires
        is_arrangement(p, n),
        is_arrangement(order, n),
    ensures
        is_arrangement(arranged(p, order), n),
{
    let q = arranged(p, order);
    assert forall|i: int| 0 <= i < n implies 0 <= (#[trigger] q[i]) < n by {
        assert(0 <= order[i] < n);
        assert(0 <= p[order[i]] < n);
    }
    assert forall|i: int, j: int| 0 <= i < j < n implies #[trigger] q[i] != #[trigger] q[j] by {
        assert(0 <= order[i] < n && 0 <= order[j] < n);
        assert(order[i] != order[j]);
        if order[i] < order[j] {
            assert(p[order[i]] != p[order[j]]);
        } else {
            assert(p[order[j]] != p[order[i]]);
        }
    }
    assert forall|v: int| 0 <= v < n implies #[trigger] occurs(q, v) by {
        assert(occurs(p, v));
        let i = choose|i: int| 0 <= i < p.len() && #[trigger] p[i] == v;
        assert(occurs(order, i));
        let j = choose|j: int| 0 <= j < order.len() && #[trigger] order[j] == i;
        assert(q[j] == v);
    }
}

/// Sorting does not depend on the order of arrival where no two positions are
/// equal: the stable order of a rearranged list, read through the
/// rearrangement, is the stable order of the list.
pub proof fn lemma_stable_order_of_rearranged(keys: Seq<i64>, p: Seq<int>)
    requires
        distinct_keys(keys),
        is_arrangement(p, keys.len()),
    ensures
        arranged(p, stable_order(arranged(keys, p))) == stable_order(keys),
{
    let moved = arranged(keys, p);
    let order = stable_order(moved);
    let q = arranged(p, order);
    lemma_stable_order(moved);
    lemma_stable_order(keys);
    lemma_arrangements_compose(p, order, keys.len());
    assert forall|i: int, j: int| 0 <= i < j < q.len() implies keys[#[trigger] q[i]] <= keys[
        #[trigger] q[j]] by {
        assert(0 <= order[i] < keys.len() && 0 <= order[j] < keys.len());
        assert(moved[order[i]] == keys[p[order[i]]]);
        assert(moved[order[j]] == keys[p[order[j]]]);
    }
    lemma_ascending_arrangement_unique(keys, q, stable_order(keys));
}

/// Items sorted by distinct positions come out the same in whatever order
/// they arrived.
pub proof fn lemma_sorted_items_of_rearranged<T>(items: Seq<T>, keys: Seq<i64>, p: Seq<int>)
    requires
        items.len() == keys.len(),
        distinct_keys(keys),
        is_arrangement(p, keys.len()),
    ensures
        arranged(arranged(items, p), stable_order(arranged(keys, p))) == arranged(
            items,
            stable_order(keys),
        ),
{
    let order = stable_order(arranged(keys, p));
    lemma_stable_order_of_rearranged(keys, p);
    lemma_stable_order(arranged(keys, p));
    let left = arranged(arranged(items, p), order);
    let right = arranged(items, stable_order(keys));
    assert(left.len() == right.len());
    assert forall|k: int| 0 <= k < left.len() implies left[k] == right[k] by {
        assert(0 <= order[k] < keys.len());
        assert(arranged(p, order)[k] == p[order[k]]);
    }
    assert(left =~= right);
}

} // verus!
