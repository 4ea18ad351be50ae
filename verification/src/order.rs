//! Stable sorting, as the order in which positions come out.
use vstd::prelude::*;

verus! {

/// `order` with `position` put in behind everything whose key is not greater than its own.
pub open spec fn placed(order: Seq<int>, keys: Seq<u64>, position: int) -> Seq<int>
    decreases order.len(),
{
    if order.len() == 0 || keys[order.last()] <= keys[position] {
        order.push(position)
    } else {
        placed(order.drop_last(), keys, position).push(order.last())
    }
}

/// The positions of `keys` by ascending key, equal keys in their original order.
pub open spec fn stable_order(keys: Seq<u64>) -> Seq<int>
    decreases keys.len(),
{
    if keys.len() == 0 {
        Seq::empty()
    } else {
        placed(stable_order(keys.drop_last()), keys, keys.len() - 1)
    }
}

/// The items at the positions in `order`.
pub open spec fn picked<T>(items: Seq<T>, order: Seq<int>) -> Seq<T> {
    order.map_values(|position: int| items[position])
}

/// Machine positions as mathematical ones.
pub open spec fn positions(order: Seq<usize>) -> Seq<int> {
    order.map_values(|position: usize| position as int)
}

/// Whether the entry at `a` has to come before the entry at `b`.
pub open spec fn precedes(keys: Seq<u64>, a: int, b: int) -> bool {
    keys[a] < keys[b] || (keys[a] == keys[b] && a < b)
}

/// Whether `order` lists every position below `count` once, each before those it precedes.
pub open spec fn is_stable_order(order: Seq<int>, keys: Seq<u64>, count: int) -> bool {
    &&& order.len() == count
    &&& forall|i: int| 0 <= i < order.len() ==> 0 <= #[trigger] order[i] < count
    &&& forall|i: int, j: int|
        0 <= i < j < order.len() ==> precedes(keys, #[trigger] order[i], #[trigger] order[j])
    &&& forall|position: int| 0 <= position < count ==> order.contains(position)
}

proof fn lemma_placed(order: Seq<int>, keys: Seq<u64>, position: int)
    requires
        0 <= position < keys.len(),
        forall|i: int| 0 <= i < order.len() ==> 0 <= #[trigger] order[i] < position,
        forall|i: int, j: int|
            0 <= i < j < order.len() ==> precedes(keys, #[trigger] order[i], #[trigger] order[j]),
    ensures
        placed(order, keys, position).len() == order.len() + 1,
        forall|i: int|
            0 <= i <= order.len() ==> 0 <= #[trigger] placed(order, keys, position)[i] <= position,
        forall|i: int, j: int|
            0 <= i < j <= order.len() ==> precedes(
                keys,
                #[trigger] placed(order, keys, position)[i],
                #[trigger] placed(order, keys, position)[j],
            ),
        forall|i: int|
            0 <= i <= order.len() ==> order.contains(#[trigger] placed(order, keys, position)[i])
                || placed(order, keys, position)[i] == position,
        forall|p: int| order.contains(p) ==> placed(order, keys, position).contains(p),
        placed(order, keys, position).contains(position),
    decreases order.len(),
{
    let after = placed(order, keys, position);
    if order.len() == 0 || keys[order.last()] <= keys[position] {
        assert(after[order.len() as int] == position);
        assert forall|p: int| order.contains(p) implies after.contains(p) by {
            let i = choose|i: int| 0 <= i < order.len() && order[i] == p;
            assert(after[i] == p);
        }
        assert forall|i: int| 0 <= i <= order.len() implies order.contains(#[trigger] after[i])
            || after[i] == position by {
            if i < order.len() {
                assert(order[i] == after[i]);
            }
        }
        assert forall|i: int, j: int| 0 <= i < j <= order.len() implies precedes(
            keys,
            #[trigger] after[i],
            #[trigger] after[j],
        ) by {
            if j == order.len() {
                assert(after[i] == order[i]);
                if i < order.len() - 1 {
                    assert(precedes(keys, order[i], order[order.len() - 1]));
                }
            } else {
                assert(after[i] == order[i] && after[j] == order[j]);
            }
        }
    } else {
        let shorter = order.drop_last();
        lemma_placed(shorter, keys, position);
        let inner = placed(shorter, keys, position);
        assert(after == inner.push(order.last()));
        assert forall|p: int| order.contains(p) implies after.contains(p) by {
            let i = choose|i: int| 0 <= i < order.len() && order[i] == p;
            if i < order.len() - 1 {
                assert(shorter[i] == p);
                assert(shorter.contains(p));
                let j = choose|j: int| 0 <= j < inner.len() && inner[j] == p;
                assert(after[j] == p);
            } else {
                assert(after[order.len() as int] == p);
            }
        }
        assert(after.contains(position)) by {
            let j = choose|j: int| 0 <= j < inner.len() && inner[j] == position;
            assert(after[j] == position);
        }
        assert forall|i: int| 0 <= i <= order.len() implies order.contains(#[trigger] after[i])
            || after[i] == position by {
            if i < order.len() {
                assert(after[i] == inner[i]);
                if shorter.contains(inner[i]) {
                    let j = choose|j: int| 0 <= j < shorter.len() && shorter[j] == inner[i];
                    assert(order[j] == inner[i]);
                }
            } else {
                assert(order[order.len() - 1] == after[i]);
            }
        }
        assert forall|i: int, j: int| 0 <= i < j <= order.len() implies precedes(
            keys,
            #[trigger] after[i],
            #[trigger] after[j],
        ) by {
            assert(after[i] == inner[i]);
            if j == order.len() {
                if shorter.contains(inner[i]) {
                    let k = choose|k: int| 0 <= k < shorter.len() && shorter[k] == inner[i];
                    assert(order[k] == inner[i]);
                    assert(precedes(keys, order[k], order[order.len() - 1]));
                }
            } else {
                assert(after[j] == inner[j]);
            }
        }
        assert forall|i: int| 0 <= i <= order.len() implies 0 <= #[trigger] after[i]
            <= position by {
            if i < order.len() {
                assert(after[i] == inner[i]);
            }
        }
    }
}

proof fn lemma_placed_same_keys(order: Seq<int>, keys: Seq<u64>, other: Seq<u64>, position: int)
    requires
        forall|i: int| 0 <= i < order.len() ==> keys[#[trigger] order[i]] == other[order[i]],
        keys[position] == other[position],
    ensures
        placed(order, keys, position) == placed(order, other, position),
    decreases order.len(),
{
    if order.len() > 0 {
        assert(order[order.len() - 1] == order.last());
        lemma_placed_same_keys(order.drop_last(), keys, other, position);
    }
}

/// Sorting lists every position exactly once, by ascending key, and keeps the original order
/// where keys are equal.
pub proof fn law_stable_order(keys: Seq<u64>)
    ensures
        is_stable_order(stable_order(keys), keys, keys.len() as int),
    decreases keys.len(),
{
    if keys.len() > 0 {
        let shorter = keys.drop_last();
        law_stable_order(shorter);
        let before = stable_order(shorter);
        let position = keys.len() - 1;
        assert forall|i: int, j: int| 0 <= i < j < before.len() implies precedes(
            keys,
            #[trigger] before[i],
            #[trigger] before[j],
        ) by {
            assert(precedes(shorter, before[i], before[j]));
        }
        lemma_placed(before, keys, position);
        assert forall|p: int| 0 <= p < keys.len() implies stable_order(keys).contains(p) by {
            if p < position {
                assert(before.contains(p));
            }
        }
    }
}

/// There is only one stable order.
pub proof fn law_stable_order_unique(order: Seq<int>, keys: Seq<u64>)
    requires
        is_stable_order(order, keys, keys.len() as int),
    ensures
        order == stable_order(keys),
{
    law_stable_order(keys);
    let sorted = stable_order(keys);
    assert forall|i: int| 0 <= i < order.len() implies order[i] == sorted[i] by {
        lemma_same_entry(order, sorted, keys, i);
    }
}

proof fn lemma_same_entry(order: Seq<int>, sorted: Seq<int>, keys: Seq<u64>, i: int)
    requires
        is_stable_order(order, keys, keys.len() as int),
        is_stable_order(sorted, keys, keys.len() as int),
        0 <= i < keys.len(),
    ensures
        order[i] == sorted[i],
    decreases i,
{
    if order[i] != sorted[i] {
        assert(sorted.contains(order[i]));
        let a = choose|a: int| 0 <= a < sorted.len() && sorted[a] == order[i];
        assert(order.contains(sorted[i]));
        let b = choose|b: int| 0 <= b < order.len() && order[b] == sorted[i];
        if a < i {
            lemma_same_entry(order, sorted, keys, a);
            assert(order[a] == order[i]);
            assert(precedes(keys, order[a], order[i]));
        } else if b < i {
            lemma_same_entry(order, sorted, keys, b);
            assert(sorted[b] == sorted[i]);
            assert(precedes(keys, sorted[b], sorted[i]));
        } else {
            assert(precedes(keys, sorted[i], sorted[a]));
            assert(precedes(keys, order[i], order[b]));
        }
    }
}

/// Picking by a stable order gives the same items, no more and no fewer.
pub proof fn law_picked_same_items<T>(items: Seq<T>, keys: Seq<u64>)
    requires
        items.len() == keys.len(),
    ensures
        picked(items, stable_order(keys)).to_multiset() == items.to_multiset(),
    decreases items.len(),
{
    if items.len() == 0 {
        assert(picked(items, stable_order(keys)) == items);
    } else {
        let shorter = keys.drop_last();
        let fewer = items.drop_last();
        law_picked_same_items(fewer, shorter);
        law_stable_order(shorter);
        let before = stable_order(shorter);
        lemma_picked_placed(items, before, keys, keys.len() - 1);
        assert(picked(items, before) == picked(fewer, before));
        assert(items == fewer.push(items.last()));
        fewer.to_multiset_ensures();
    }
}

proof fn lemma_picked_placed<T>(items: Seq<T>, order: Seq<int>, keys: Seq<u64>, position: int)
    ensures
        picked(items, placed(order, keys, position)).to_multiset() == picked(
            items,
            order,
        ).to_multiset().insert(items[position]),
    decreases order.len(),
{
    if order.len() == 0 || keys[order.last()] <= keys[position] {
        assert(picked(items, order.push(position)) == picked(items, order).push(items[position]));
        picked(items, order).to_multiset_ensures();
    } else {
        let shorter = order.drop_last();
        let inner = placed(shorter, keys, position);
        lemma_picked_placed(items, shorter, keys, position);
        assert(picked(items, inner.push(order.last())) == picked(items, inner).push(
            items[order.last()],
        ));
        picked(items, inner).to_multiset_ensures();
        assert(picked(items, order) == picked(items, shorter).push(items[order.last()]));
        picked(items, shorter).to_multiset_ensures();
        assert(picked(items, placed(order, keys, position)).to_multiset() =~= picked(
            items,
            order,
        ).to_multiset().insert(items[position]));
    }
}

proof fn lemma_placed_is_insert(order: Seq<int>, keys: Seq<u64>, position: int, at: int)
    requires
        0 <= at <= order.len(),
        at > 0 ==> keys[order[at - 1]] <= keys[position],
        forall|i: int| at <= i < order.len() ==> keys[#[trigger] order[i]] > keys[position],
    ensures
        placed(order, keys, position) == order.insert(at, position),
    decreases order.len() - at,
{
    if at == order.len() {
        assert(order.insert(at, position) == order.push(position));
        if order.len() > 0 {
            assert(order.last() == order[at - 1]);
        }
    } else {
        let shorter = order.drop_last();
        assert(order[order.len() - 1] == order.last());
        lemma_placed_is_insert(shorter, keys, position, at);
        assert(order.insert(at, position) == shorter.insert(at, position).push(order.last()));
    }
}

/// The positions of `keys` by ascending key, equal keys in their original order.
pub fn sort_order(keys: &Vec<u64>) -> (order: Vec<usize>)
    ensures
        positions(order@) == stable_order(keys@),
        is_stable_order(positions(order@), keys@, keys@.len() as int),
{
    let mut order: Vec<usize> = Vec::new();
    assert(positions(order@) == stable_order(keys@.take(0)));
    for position in 0..keys.len()
        invariant
            positions(order@) == stable_order(keys@.take(position as int)),
            is_stable_order(positions(order@), keys@.take(position as int), position as int),
    {
        let ghost before = positions(order@);
        let ghost known = keys@.take(position as int);
        let mut at: usize = order.len();
        assert forall|i: int| 0 <= i < order@.len() implies #[trigger] order@[i] < position by {
            assert(before[i] == order@[i]);
        }
        while at > 0 && keys[order[at - 1]] > keys[position]
            invariant
                at <= order@.len(),
                position < keys@.len(),
                before == positions(order@),
                forall|i: int| 0 <= i < order@.len() ==> #[trigger] order@[i] < position,
                forall|i: int|
                    at <= i < before.len() ==> keys@[#[trigger] before[i]] > keys@[position as int],
            decreases at,
        {
            at -= 1;
        }
        proof {
            if at > 0 {
                assert(before[at - 1] == order@[at - 1]);
            }
            lemma_placed_is_insert(before, keys@, position as int, at as int);
            let longer = keys@.take(position + 1);
            assert(longer.drop_last() == known);
            assert forall|i: int| 0 <= i < before.len() implies keys@[#[trigger] before[i]]
                == longer[before[i]] by {}
            lemma_placed_same_keys(before, keys@, longer, position as int);
            law_stable_order(longer);
        }
        let ghost old_order = order@;
        order.insert(at, position);
        assert(positions(order@) == positions(old_order).insert(at as int, position as int));
    }
    assert(keys@.take(keys@.len() as int) == keys@);
    order
}

/// Sorting puts lesser keys before greater ones and equal ones in the order they came in; every
/// position comes out, and none comes out twice.
pub proof fn law_lesser_keys_come_first(keys: Seq<u64>, i: int, j: int)
    requires
        0 <= i < j < keys.len(),
    ensures
        stable_order(keys).len() == keys.len(),
        0 <= stable_order(keys)[i] < keys.len(),
        0 <= stable_order(keys)[j] < keys.len(),
        stable_order(keys)[i] != stable_order(keys)[j],
        keys[stable_order(keys)[i]] <= keys[stable_order(keys)[j]],
        keys[stable_order(keys)[i]] == keys[stable_order(keys)[j]] ==> stable_order(keys)[i]
            < stable_order(keys)[j],
        stable_order(keys).contains(i) && stable_order(keys).contains(j),
{
    law_stable_order(keys);
    assert(precedes(keys, stable_order(keys)[i], stable_order(keys)[j]));
}

/// A list whose keys ascend already stays as it is.
pub proof fn law_sorted_stays_as_it_is<T>(items: Seq<T>, keys: Seq<u64>)
    requires
        items.len() == keys.len(),
        forall|i: int, j: int| 0 <= i < j < keys.len() ==> #[trigger] keys[i] <= #[trigger] keys[j],
    ensures
        picked(items, stable_order(keys)) == items,
{
    let same = Seq::new(keys.len(), |i: int| i);
    assert forall|p: int| 0 <= p < keys.len() implies same.contains(p) by {
        assert(same[p] == p);
    }
    law_stable_order_unique(same, keys);
    assert(picked(items, same) == items);
}

/// Picking takes the items at the positions, one for each, in the order of the positions.
pub proof fn law_picking_takes_items_at_positions<T>(items: Seq<T>, order: Seq<usize>, i: int)
    requires
        0 <= i < order.len(),
    ensures
        positions(order).len() == order.len(),
        positions(order)[i] == order[i],
        picked(items, positions(order)).len() == order.len(),
        picked(items, positions(order))[i] == items[order[i] as int],
{
}

} // verus!
