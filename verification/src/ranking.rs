//! Ranking by key: the greatest key first, equal keys in the order they came.
use vstd::prelude::*;

verus! {

/// Item `a` comes before item `b`: its key is greater, or equal and `a` came
/// first.
pub open spec fn outranks(keys: Seq<u32>, a: int, b: int) -> bool {
    keys[a] > keys[b] || (keys[a] == keys[b] && a < b)
}

/// `order` lists the items by rank, each of them once.
pub open spec fn is_ranking(keys: Seq<u32>, order: Seq<usize>) -> bool {
    &&& order.len() == keys.len()
    &&& is_ranking_of_range(keys, order, 0, keys.len() as int)
}

/// `order` lists the items from `from` up to `to` by rank.
pub open spec fn is_ranking_of_range(
    keys: Seq<u32>,
    order: Seq<usize>,
    from: int,
    to: int,
) -> bool {
    &&& forall|i: int| 0 <= i < order.len() ==> from <= #[trigger] order[i] < to
    &&& forall|i: int, j: int|
        0 <= i < j < order.len() ==> outranks(
            keys,
            #[trigger] order[i] as int,
            #[trigger] order[j] as int,
        )
    &&& forall|k: int| from <= k < to ==> #[trigger] order.contains(k as usize)
}

/// The items in an order, at most `limit` of them.
pub open spec fn taken_in_order<T>(items: Seq<T>, order: Seq<usize>, limit: nat) -> Seq<T> {
    Seq::new(
        if order.len() <= limit { order.len() } else { limit },
        |i: int| items[order[i] as int],
    )
}

/// The items ranked by their keys, at most `limit` of them.
pub open spec fn is_ranked<T>(items: Seq<T>, keys: Seq<u32>, limit: nat, ranked: Seq<T>) -> bool {
    exists|order: Seq<usize>|
        #[trigger] is_ranking(keys, order) && ranked == taken_in_order(items, order, limit)
}

/// Ranks items by their keys: the indices of the items, the greatest key first,
/// equal keys in the order they came.
pub fn rank_descending(keys: &[u32]) -> (order: Vec<usize>)
    ensures
        is_ranking(keys@, order@),
        order@.len() == keys@.len(),
        order@.no_duplicates(),
        forall|i: int| 0 <= i < order@.len() ==> #[trigger] order@[i] < keys@.len(),
        forall|i: int, j: int|
            0 <= i < j < order@.len() ==> {
                let (a, b) = (#[trigger] order@[i] as int, #[trigger] order@[j] as int);
                keys@[a] > keys@[b] || (keys@[a] == keys@[b] && a < b)
            },
{
    let order = rank_range(keys, 0, keys.len());
    proof {
        lemma_range_len(keys@, order@, 0, keys@.len() as int);
    }
    order
}

/// Ranks the items from `from` up to `to`: each half by itself, then the two
/// merged.
fn rank_range(keys: &[u32], from: usize, to: usize) -> (order: Vec<usize>)
    requires
        from <= to <= keys@.len(),
    ensures
        is_ranking_of_range(keys@, order@, from as int, to as int),
    decreases to - from,
{
    if to - from == 0 {
        Vec::new()
    } else if to - from == 1 {
        let order = vec![from];
        assert(order@[0] == from);
        order
    } else {
        let mid: usize = from + (to - from) / 2;
        let left = rank_range(keys, from, mid);
        let right = rank_range(keys, mid, to);
        merge(keys, &left, &right, Ghost(from as int), Ghost(mid as int), Ghost(to as int))
    }
}

/// Merges the rankings of two ranges, one behind the other.
fn merge(
    keys: &[u32],
    left: &Vec<usize>,
    right: &Vec<usize>,
    Ghost(from): Ghost<int>,
    Ghost(mid): Ghost<int>,
    Ghost(to): Ghost<int>,
) -> (order: Vec<usize>)
    requires
        0 <= from <= mid <= to <= keys@.len(),
        is_ranking_of_range(keys@, left@, from, mid),
        is_ranking_of_range(keys@, right@, mid, to),
    ensures
        is_ranking_of_range(keys@, order@, from, to),
{
    let mut order: Vec<usize> = Vec::new();
    let mut i: usize = 0;
    let mut j: usize = 0;
    while i < left.len() || j < right.len()
        invariant
            0 <= from <= mid <= to <= keys@.len(),
            is_ranking_of_range(keys@, left@, from, mid),
            is_ranking_of_range(keys@, right@, mid, to),
            i <= left@.len(),
            j <= right@.len(),
            forall|k: int| 0 <= k < order@.len() ==> from <= #[trigger] order@[k] < to,
            forall|k: int, l: int|
                0 <= k < l < order@.len() ==> outranks(
                    keys@,
                    #[trigger] order@[k] as int,
                    #[trigger] order@[l] as int,
                ),
            forall|k: int, l: int|
                0 <= k < order@.len() && i <= l < left@.len() ==> outranks(
                    keys@,
                    #[trigger] order@[k] as int,
                    #[trigger] left@[l] as int,
                ),
            forall|k: int, l: int|
                0 <= k < order@.len() && j <= l < right@.len() ==> outranks(
                    keys@,
                    #[trigger] order@[k] as int,
                    #[trigger] right@[l] as int,
                ),
            forall|l: int| 0 <= l < i ==> order@.contains(#[trigger] left@[l]),
            forall|l: int| 0 <= l < j ==> order@.contains(#[trigger] right@[l]),
        decreases left@.len() - i + right@.len() - j,
    {
        let ghost before = order@;
        if i < left.len() && (j >= right.len() || keys[left[i]] >= keys[right[j]]) {
            order.push(left[i]);
            i = i + 1;
        } else {
            order.push(right[j]);
            j = j + 1;
        }
        assert(order@ == before.push(order@.last()));
        assert forall|x: usize| #[trigger] before.contains(x) implies order@.contains(x) by {
            let k = choose|k: int| 0 <= k < before.len() && before[k] == x;
            assert(order@[k] == x);
        }
        assert(order@[order@.len() - 1] == order@.last());
    }
    assert forall|k: int| from <= k < to implies #[trigger] order@.contains(k as usize) by {
        if k < mid {
            assert(left@.contains(k as usize));
        } else {
            assert(right@.contains(k as usize));
        }
    }
    order
}

/// The items ranked by their keys, at most `limit` of them, copied out.
pub fn take_ranked<T: Copy>(items: &[T], keys: &[u32], limit: usize) -> (ranked: Vec<T>)
    requires
        items@.len() == keys@.len(),
    ensures
        is_ranked(items@, keys@, limit as nat, ranked@),
{
    let order = rank_descending(keys);
    let len: usize = if order.len() <= limit { order.len() } else { limit };
    let mut ranked: Vec<T> = Vec::new();
    for i in 0..len
        invariant
            len <= order@.len(),
            items@.len() == keys@.len(),
            is_ranking(keys@, order@),
            ranked@.len() == i,
            forall|k: int| 0 <= k < i ==> ranked@[k] == items@[#[trigger] order@[k] as int],
    {
        ranked.push(items[order[i]]);
    }
    assert(ranked@ =~= taken_in_order(items@, order@, limit as nat));
    ranked
}

/// There is one ranking of given keys.
pub proof fn law_ranking_is_unique(keys: Seq<u32>, a: Seq<usize>, b: Seq<usize>)
    requires
        is_ranking(keys, a),
        is_ranking(keys, b),
    ensures
        a == b,
{
    lemma_same_start(keys, a, b, a.len() as int);
    assert(a =~= b);
}

/// Every item is ranked, and none twice.
pub proof fn law_ranking_lists_each_once(keys: Seq<u32>, order: Seq<usize>)
    requires
        is_ranking(keys, order),
        keys.len() <= usize::MAX,
    ensures
        order.no_duplicates(),
        forall|k: usize| #[trigger] order.contains(k) <==> k < keys.len(),
{
    assert forall|k: usize| k < keys.len() implies #[trigger] order.contains(k) by {
        assert(order.contains((k as int) as usize));
    }
}

/// What stays within a limit outranks what is left out by it.
pub proof fn law_limit_keeps_the_best<T>(
    items: Seq<T>,
    keys: Seq<u32>,
    order: Seq<usize>,
    limit: nat,
    kept: int,
    dropped: int,
)
    requires
        is_ranking(keys, order),
        0 <= kept < limit <= dropped < order.len(),
    ensures
        taken_in_order(items, order, limit).len() == limit,
        taken_in_order(items, order, limit)[kept] == items[order[kept] as int],
        outranks(keys, order[kept] as int, order[dropped] as int),
{
}

/// A ranking of a range is as long as the range.
proof fn lemma_range_len(keys: Seq<u32>, order: Seq<usize>, from: int, to: int)
    requires
        0 <= from <= to <= usize::MAX,
        is_ranking_of_range(keys, order, from, to),
    ensures
        order.len() == to - from,
{
    assert(order.no_duplicates());
    order.unique_seq_to_set();
    let all = vstd::set_lib::set_int_range(from, to);
    vstd::set_lib::lemma_int_range(from, to);
    let image = order.to_set().map(|x: usize| x as int);
    assert(image =~= all) by {
        assert forall|k: int| all.contains(k) implies #[trigger] image.contains(k) by {
            assert(order.contains(k as usize));
            assert(order.to_set().contains(k as usize));
        }
    }
    vstd::set_lib::lemma_map_size(order.to_set(), image, |x: usize| x as int);
}

/// Two rankings of the same keys agree in their first `n` places.
proof fn lemma_same_start(keys: Seq<u32>, a: Seq<usize>, b: Seq<usize>, n: int)
    requires
        is_ranking(keys, a),
        is_ranking(keys, b),
        0 <= n <= a.len(),
    ensures
        forall|i: int| 0 <= i < n ==> a[i] == b[i],
    decreases n,
{
    if n > 0 {
        let m = n - 1;
        lemma_same_start(keys, a, b, m);
        assert(b.contains((a[m] as int) as usize));
        assert(a.contains((b[m] as int) as usize));
        let p = choose|p: int| 0 <= p < b.len() && b[p] == a[m];
        let q = choose|q: int| 0 <= q < a.len() && a[q] == b[m];
        if p < m {
            assert(outranks(keys, a[p] as int, a[m] as int));
        }
        if q < m {
            assert(outranks(keys, b[q] as int, b[m] as int));
        }
        if p > m && q > m {
            assert(outranks(keys, b[m] as int, b[p] as int));
            assert(outranks(keys, a[m] as int, a[q] as int));
        }
    }
}

/// Every item comes before those that follow it.
pub(crate) open spec fn is_sorted_by<T>(items: Seq<T>, before: spec_fn(T, T) -> bool) -> bool {
    forall|i: int, j: int|
        0 <= i < j < items.len() ==> before(#[trigger] items[i], #[trigger] items[j])
}

/// Items by their keys, the greatest first, and where they are equal as before.
pub(crate) open spec fn by_key<T>(
    key: spec_fn(T) -> u32,
    before: spec_fn(T, T) -> bool,
) -> spec_fn(T, T) -> bool {
    |a: T, b: T| key(a) > key(b) || (key(a) == key(b) && before(a, b))
}

/// No item comes before one that comes before it.
pub(crate) open spec fn is_asymmetric<T>(before: spec_fn(T, T) -> bool) -> bool {
    forall|a: T, b: T| #[trigger] before(a, b) ==> !before(b, a)
}

/// Items that stand in some order, when ranked, are sorted by their keys and
/// then by that order, and none is lost.
pub(crate) proof fn lemma_ranked_is_sorted<T>(
    items: Seq<T>,
    key: spec_fn(T) -> u32,
    before: spec_fn(T, T) -> bool,
    limit: nat,
    ranked: Seq<T>,
)
    requires
        is_sorted_by(items, before),
        items.len() <= limit,
        items.len() <= usize::MAX,
        is_ranked(items, items.map_values(key), limit, ranked),
    ensures
        ranked.len() == items.len(),
        is_sorted_by(ranked, by_key(key, before)),
        forall|x: T| #[trigger] ranked.contains(x) <==> items.contains(x),
{
    let keys = items.map_values(key);
    let order = choose|order: Seq<usize>|
        #[trigger] is_ranking(keys, order) && ranked == taken_in_order(items, order, limit);
    assert forall|i: int, j: int| 0 <= i < j < ranked.len() implies by_key(key, before)(
        #[trigger] ranked[i],
        #[trigger] ranked[j],
    ) by {
        let (p, q) = (order[i] as int, order[j] as int);
        assert(outranks(keys, p, q));
        assert(ranked[i] == items[p] && ranked[j] == items[q]);
        assert(keys[p] == key(items[p]) && keys[q] == key(items[q]));
    }
    assert forall|x: T| #[trigger] ranked.contains(x) <==> items.contains(x) by {
        if ranked.contains(x) {
            let i = choose|i: int| 0 <= i < ranked.len() && ranked[i] == x;
            assert(items[order[i] as int] == x);
        }
        if items.contains(x) {
            let k = choose|k: int| 0 <= k < items.len() && items[k] == x;
            assert(order.contains(k as usize));
            let i = choose|i: int| 0 <= i < order.len() && order[i] == k as usize;
            assert(ranked[i] == x);
        }
    }
}

/// Items can be sorted in one way only.
pub(crate) proof fn lemma_sorted_is_unique<T>(
    a: Seq<T>,
    b: Seq<T>,
    before: spec_fn(T, T) -> bool,
)
    requires
        is_asymmetric(before),
        is_sorted_by(a, before),
        is_sorted_by(b, before),
        forall|x: T| #[trigger] a.contains(x) <==> b.contains(x),
    ensures
        a == b,
    decreases a.len(),
{
    if a.len() == 0 {
        if b.len() > 0 {
            assert(b.contains(b[0]) && a.contains(b[0]));
        }
        assert(a =~= b);
    } else {
        let (x, y) = (a.last(), b.last());
        assert(a[a.len() - 1] == x);
        assert(a.contains(x) && b.contains(x));
        let p = choose|p: int| 0 <= p < b.len() && b[p] == x;
        assert(b[b.len() - 1] == y);
        assert(b.contains(y) && a.contains(y));
        let q = choose|q: int| 0 <= q < a.len() && a[q] == y;
        if p < b.len() - 1 && q < a.len() - 1 {
            assert(before(b[p], b[b.len() - 1]));
            assert(before(a[q], a[a.len() - 1]));
        }
        assert(x == y);
        let (c, d) = (a.drop_last(), b.drop_last());
        assert forall|z: T| #[trigger] c.contains(z) <==> d.contains(z) by {
            assert(a.contains(z) <==> b.contains(z));
            if c.contains(z) {
                let i = choose|i: int| 0 <= i < c.len() && c[i] == z;
                assert(a[i] == z);
                assert(before(a[i], a[a.len() - 1]));
                assert(b.contains(z));
                let j = choose|j: int| 0 <= j < b.len() && b[j] == z;
                assert(d[j] == z);
            }
            if d.contains(z) {
                let i = choose|i: int| 0 <= i < d.len() && d[i] == z;
                assert(b[i] == z);
                assert(before(b[i], b[b.len() - 1]));
                assert(a.contains(z));
                let j = choose|j: int| 0 <= j < a.len() && a[j] == z;
                assert(c[j] == z);
            }
        }
        lemma_sorted_is_unique(c, d, before);
        assert(a =~= c.push(x));
        assert(b =~= d.push(y));
    }
}

/// What is left of sorted items is sorted, and has the items that were to stay.
pub(crate) proof fn lemma_filtered_is_sorted<T>(
    items: Seq<T>,
    before: spec_fn(T, T) -> bool,
    stays: spec_fn(T) -> bool,
)
    requires
        is_sorted_by(items, before),
    ensures
        items.filter(stays).len() <= items.len(),
        is_sorted_by(items.filter(stays), before),
        forall|x: T| #[trigger]
            items.filter(stays).contains(x) <==> items.contains(x) && stays(x),
    decreases items.len(),
{
    reveal(Seq::filter);
    if items.len() > 0 {
        let start = items.drop_last();
        let last = items.last();
        lemma_filtered_is_sorted(start, before, stays);
        let left = start.filter(stays);
        let all = items.filter(stays);
        assert(items =~= start.push(last));
        assert forall|i: int, j: int| 0 <= i < j < all.len() implies before(
            #[trigger] all[i],
            #[trigger] all[j],
        ) by {
            assert(all[i] == left[i]);
            if j < left.len() {
                assert(all[j] == left[j]);
            } else {
                assert(left.contains(left[i]));
                let k = choose|k: int| 0 <= k < start.len() && start[k] == left[i];
                assert(before(items[k], items[items.len() - 1]));
            }
        }
        assert forall|x: T| #[trigger] all.contains(x) <==> items.contains(x) && stays(x) by {
            if all.contains(x) {
                let i = choose|i: int| 0 <= i < all.len() && all[i] == x;
                if i < left.len() {
                    assert(left[i] == x);
                    assert(left.contains(x));
                    let k = choose|k: int| 0 <= k < start.len() && start[k] == x;
                    assert(items[k] == x);
                } else {
                    assert(items[items.len() - 1] == x);
                }
            }
            if items.contains(x) && stays(x) {
                let k = choose|k: int| 0 <= k < items.len() && items[k] == x;
                if k < start.len() {
                    assert(start[k] == x);
                    assert(left.contains(x));
                    let i = choose|i: int| 0 <= i < left.len() && left[i] == x;
                    assert(all[i] == x);
                } else {
                    assert(all[all.len() - 1] == x);
                }
            }
        }
    }
}

/// Ranking what is left of items gives what is left of their ranking.
pub(crate) proof fn lemma_filter_keeps_ranking<T>(
    items: Seq<T>,
    key: spec_fn(T) -> u32,
    before: spec_fn(T, T) -> bool,
    stays: spec_fn(T) -> bool,
    limit: nat,
    ranked: Seq<T>,
    left: Seq<T>,
)
    requires
        is_asymmetric(before),
        is_sorted_by(items, before),
        items.len() <= limit <= usize::MAX,
        is_ranked(items, items.map_values(key), limit, ranked),
        is_ranked(items.filter(stays), items.filter(stays).map_values(key), limit, left),
    ensures
        left == ranked.filter(stays),
        is_sorted_by(ranked, by_key(key, before)),
        is_asymmetric(by_key(key, before)),
        ranked.len() == items.len(),
{
    lemma_filtered_is_sorted(items, before, stays);
    lemma_ranked_is_sorted(items, key, before, limit, ranked);
    lemma_ranked_is_sorted(items.filter(stays), key, before, limit, left);
    lemma_filtered_is_sorted(ranked, by_key(key, before), stays);
    assert forall|x: T| #[trigger] left.contains(x) <==> ranked.filter(stays).contains(x) by {
        assert(items.filter(stays).contains(x) <==> items.contains(x) && stays(x));
        assert(ranked.contains(x) <==> items.contains(x));
    }
    lemma_sorted_is_unique(left, ranked.filter(stays), by_key(key, before));
}

/// To leave out and then to change what is left is the same as to change all and
/// then to leave out.
pub(crate) proof fn lemma_filter_of_mapped<T, U>(
    items: Seq<T>,
    change: spec_fn(T) -> U,
    stays: spec_fn(T) -> bool,
    changed_stays: spec_fn(U) -> bool,
)
    requires
        forall|x: T| #[trigger] stays(x) == changed_stays(change(x)),
    ensures
        items.map_values(change).filter(changed_stays) == items.filter(stays).map_values(change),
    decreases items.len(),
{
    reveal(Seq::filter);
    let mapped = items.map_values(change);
    if items.len() > 0 {
        lemma_filter_of_mapped(items.drop_last(), change, stays, changed_stays);
        assert(mapped.drop_last() =~= items.drop_last().map_values(change));
        assert(stays(items.last()) == changed_stays(mapped.last()));
    }
    assert(mapped.filter(changed_stays) =~= items.filter(stays).map_values(change));
}

/// Ranked items go down by their keys, and items of one key are in the order they
/// came.
pub proof fn law_ranking_goes_down(keys: Seq<u32>, order: Seq<usize>, i: int, j: int)
    requires
        is_ranking(keys, order),
        0 <= i < j < order.len(),
    ensures
        order.len() == keys.len(),
        order[i] < keys.len(),
        keys[order[i] as int] >= keys[order[j] as int],
        keys[order[i] as int] == keys[order[j] as int] ==> order[i] < order[j],
        order[i] != order[j],
{
    assert(outranks(keys, order[i] as int, order[j] as int));
}

/// What is ranked are the items themselves, as many as the limit lets through.
/// The places they came from are returned: no place twice, by key from the
/// greatest down, those of one key in the order they came. What the limit leaves
/// out follows at the end.
pub proof fn law_ranked_items_are_the_items<T>(
    items: Seq<T>,
    keys: Seq<u32>,
    limit: nat,
    ranked: Seq<T>,
) -> (order: Seq<usize>)
    requires
        items.len() == keys.len(),
        is_ranked(items, keys, limit, ranked),
    ensures
        order.len() == items.len(),
        order.no_duplicates(),
        forall|i: int| 0 <= i < order.len() ==> #[trigger] order[i] < items.len(),
        forall|i: int, j: int|
            0 <= i < j < order.len() ==> {
                let (a, b) = (#[trigger] order[i] as int, #[trigger] order[j] as int);
                keys[a] > keys[b] || (keys[a] == keys[b] && a < b)
            },
        ranked.len() <= items.len(),
        ranked.len() <= limit,
        ranked.len() == items.len() || ranked.len() == limit,
        forall|i: int| 0 <= i < ranked.len() ==> #[trigger] ranked[i] == items[order[i] as int],
{
    let order = choose|order: Seq<usize>|
        #[trigger] is_ranking(keys, order) && ranked == taken_in_order(items, order, limit);
    order
}

} // verus!
