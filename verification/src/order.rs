//! Stable ordering of a list by integer keys.
//!
//! The items are taken one by one, in the order in which they came, and each
//! is put behind the last item placed so far whose key is not larger. Items
//! with equal keys therefore keep their order.

use vstd::prelude::*;

verus! {

/// Where an item with `key` goes among the ascending keys `sorted`: behind
/// the last key that is not larger.
pub open spec fn slot(sorted: Seq<i128>, key: i128) -> int
    decreases sorted.len(),
{
    if sorted.len() == 0 {
        0
    } else if sorted.last() <= key {
        sorted.len() as int
    } else {
        slot(sorted.drop_last(), key)
    }
}

/// The keys in ascending order.
pub open spec fn sorted_keys(keys: Seq<i128>) -> Seq<i128>
    decreases keys.len(),
{
    if keys.len() == 0 {
        keys
    } else {
        let rest = sorted_keys(keys.drop_last());
        rest.insert(slot(rest, keys.last()), keys.last())
    }
}

/// The items in ascending order of their keys, `keys[i]` being the key of
/// `items[i]`. Items with equal keys keep their order.
pub open spec fn sorted_by_keys<T>(items: Seq<T>, keys: Seq<i128>) -> Seq<T>
    decreases items.len(),
{
    if items.len() == 0 || keys.len() != items.len() {
        items
    } else {
        let rest = sorted_by_keys(items.drop_last(), keys.drop_last());
        rest.insert(slot(sorted_keys(keys.drop_last()), keys.last()), items.last())
    }
}

/// A slot lies inside the list or at its end.
pub proof fn lemma_slot_in_range(sorted: Seq<i128>, key: i128)
    ensures
        0 <= slot(sorted, key) <= sorted.len(),
    decreases sorted.len(),
{
    if sorted.len() > 0 && sorted.last() > key {
        lemma_slot_in_range(sorted.drop_last(), key);
    }
}

/// Sorting keeps the number of keys and of items.
pub proof fn lemma_sorted_len<T>(items: Seq<T>, keys: Seq<i128>)
    requires
        items.len() == keys.len(),
    ensures
        sorted_keys(keys).len() == keys.len(),
        sorted_by_keys(items, keys).len() == items.len(),
    decreases keys.len(),
{
    if keys.len() > 0 {
        lemma_sorted_len(items.drop_last(), keys.drop_last());
        lemma_slot_in_range(sorted_keys(keys.drop_last()), keys.last());
    }
}

/// The sorted keys ascend.
pub proof fn lemma_sorted_keys_ascend(keys: Seq<i128>)
    ensures
        forall|i: int, j: int|
            0 <= i <= j < sorted_keys(keys).len() ==> sorted_keys(keys)[i] <= sorted_keys(keys)[j],
    decreases keys.len(),
{
    if keys.len() > 0 {
        let rest = sorted_keys(keys.drop_last());
        let key = keys.last();
        lemma_sorted_keys_ascend(keys.drop_last());
        lemma_slot_splits(rest, key);
        lemma_slot_in_range(rest, key);
    }
}

/// In ascending keys, the keys before the slot are not larger than the new
/// key, and the keys from the slot on are larger.
pub proof fn lemma_slot_splits(sorted: Seq<i128>, key: i128)
    requires
        forall|i: int, j: int| 0 <= i <= j < sorted.len() ==> sorted[i] <= sorted[j],
    ensures
        forall|i: int| 0 <= i < slot(sorted, key) ==> sorted[i] <= key,
        forall|i: int| slot(sorted, key) <= i < sorted.len() ==> sorted[i] > key,
    decreases sorted.len(),
{
    lemma_slot_in_range(sorted, key);
    if sorted.len() > 0 && sorted.last() > key {
        let head = sorted.drop_last();
        lemma_slot_splits(head, key);
        assert forall|i: int| slot(sorted, key) <= i < sorted.len() implies sorted[i] > key by {
            if i < head.len() {
                assert(head[i] > key);
            }
        }
        assert forall|i: int| 0 <= i < slot(sorted, key) implies sorted[i] <= key by {
            lemma_slot_in_range(head, key);
            assert(head[i] <= key);
        }
    }
}

/// Sorts `items` by `keys`, where `keys[i]` is the key of `items[i]`: smallest
/// key first, items with equal keys in the order in which they came. The keys
/// are sorted along.
pub fn sort_by_keys<T>(items: &mut Vec<T>, keys: &mut Vec<i128>)
    requires
        old(items).len() == old(keys).len(),
    ensures
        final(items)@ == sorted_by_keys(old(items)@, old(keys)@),
        final(keys)@ == sorted_keys(old(keys)@),
        final(items).len() == old(items).len(),
        final(keys).len() == old(keys).len(),
{
    let n = items.len();
    let mut i: usize = 0;
    proof {
        assert(old(items)@.take(0) =~= Seq::<T>::empty());
        assert(old(keys)@.take(0) =~= Seq::<i128>::empty());
        assert(items@ =~= sorted_by_keys(old(items)@.take(0), old(keys)@.take(0)) + old(
            items,
        )@.skip(0));
        assert(keys@ =~= sorted_keys(old(keys)@.take(0)) + old(keys)@.skip(0));
    }
    while i < n
        invariant
            items.len() == n,
            keys.len() == n,
            old(items).len() == n,
            old(keys).len() == n,
            i <= n,
            items@ == sorted_by_keys(old(items)@.take(i as int), old(keys)@.take(i as int)) + old(
                items,
            )@.skip(i as int),
            keys@ == sorted_keys(old(keys)@.take(i as int)) + old(keys)@.skip(i as int),
        decreases n - i,
    {
        let ghost placed_keys = sorted_keys(old(keys)@.take(i as int));
        let ghost placed = sorted_by_keys(old(items)@.take(i as int), old(keys)@.take(i as int));
        proof {
            lemma_sorted_len(old(items)@.take(i as int), old(keys)@.take(i as int));
        }
        let key = keys[i];
        let mut p: usize = i;
        assert(placed_keys.take(i as int) =~= placed_keys);
        while p > 0 && keys[p - 1] > key
            invariant
                p <= i < n,
                keys.len() == n,
                placed_keys.len() == i,
                keys@ == placed_keys + old(keys)@.skip(i as int),
                slot(placed_keys, key) == slot(placed_keys.take(p as int), key),
            decreases p,
        {
            proof {
                assert(placed_keys.take(p as int).last() == keys@[p - 1]);
                assert(placed_keys.take(p as int).drop_last() =~= placed_keys.take(p - 1));
            }
            p = p - 1;
        }
        proof {
            if p > 0 {
                assert(placed_keys.take(p as int).last() == keys@[p - 1]);
            }
            assert(slot(placed_keys, key) == p);
        }
        let ghost keys_before = keys@;
        let ghost items_before = items@;
        let moved_key = keys.remove(i);
        keys.insert(p, moved_key);
        let moved = items.remove(i);
        items.insert(p, moved);
        proof {
            let next_keys = old(keys)@.take(i + 1);
            let next_items = old(items)@.take(i + 1);
            assert(next_keys.drop_last() =~= old(keys)@.take(i as int));
            assert(next_items.drop_last() =~= old(items)@.take(i as int));
            assert(next_keys.last() == key);
            assert(next_items.last() == moved);
            assert(keys@ =~= placed_keys.insert(p as int, key) + old(keys)@.skip(i + 1));
            assert(items@ =~= placed.insert(p as int, moved) + old(items)@.skip(i + 1));
        }
        i = i + 1;
    }
    proof {
        assert(old(items)@.take(n as int) =~= old(items)@);
        assert(old(keys)@.take(n as int) =~= old(keys)@);
        assert(old(items)@.skip(n as int) =~= Seq::<T>::empty());
        assert(old(keys)@.skip(n as int) =~= Seq::<i128>::empty());
        assert(items@ =~= sorted_by_keys(old(items)@, old(keys)@));
        assert(keys@ =~= sorted_keys(old(keys)@));
    }
}

/// Sorting and then reading each item through `f` is sorting what `f` reads.
pub proof fn lemma_sort_commutes<T, U>(items: Seq<T>, keys: Seq<i128>, f: spec_fn(T) -> U)
    requires
        items.len() == keys.len(),
    ensures
        sorted_by_keys(items, keys).map_values(f) == sorted_by_keys(items.map_values(f), keys),
    decreases items.len(),
{
    if items.len() > 0 {
        let rest = sorted_by_keys(items.drop_last(), keys.drop_last());
        let p = slot(sorted_keys(keys.drop_last()), keys.last());
        lemma_sort_commutes(items.drop_last(), keys.drop_last(), f);
        lemma_sorted_len(items.drop_last(), keys.drop_last());
        lemma_slot_in_range(sorted_keys(keys.drop_last()), keys.last());
        assert(items.map_values(f).drop_last() =~= items.drop_last().map_values(f));
        assert(rest.insert(p, items.last()).map_values(f) =~= rest.map_values(f).insert(
            p,
            f(items.last()),
        ));
    } else {
        assert(sorted_by_keys(items, keys).map_values(f) =~= sorted_by_keys(
            items.map_values(f),
            keys,
        ));
    }
}

/// Sorting keeps the items: each is in the result as often as it came.
pub proof fn lemma_sorted_keeps_items<T>(items: Seq<T>, keys: Seq<i128>)
    requires
        items.len() == keys.len(),
    ensures
        sorted_by_keys(items, keys).to_multiset() == items.to_multiset(),
    decreases items.len(),
{
    broadcast use vstd::seq_lib::to_multiset_insert;
    broadcast use vstd::seq_lib::to_multiset_build;

    if items.len() > 0 {
        let rest = sorted_by_keys(items.drop_last(), keys.drop_last());
        let p = slot(sorted_keys(keys.drop_last()), keys.last());
        lemma_sorted_keeps_items(items.drop_last(), keys.drop_last());
        lemma_sorted_len(items.drop_last(), keys.drop_last());
        lemma_slot_in_range(sorted_keys(keys.drop_last()), keys.last());
        assert(items.drop_last().push(items.last()) =~= items);
        assert(rest.insert(p, items.last()).to_multiset() == rest.to_multiset().insert(
            items.last(),
        ));
        let head = items.drop_last();
        assert(head.push(items.last()).to_multiset() == head.to_multiset().insert(items.last()));
    }
}

/// Keys sorted by themselves are the sorted keys.
pub proof fn lemma_keys_by_keys(keys: Seq<i128>)
    ensures
        sorted_by_keys(keys, keys) == sorted_keys(keys),
    decreases keys.len(),
{
    if keys.len() > 0 {
        lemma_keys_by_keys(keys.drop_last());
    }
}

/// Where each item has the key that `key` reads from it, the sorted items
/// ascend in what `key` reads, and each of them is one of the items.
pub proof fn lemma_sorted_by_own_keys<T>(items: Seq<T>, key: spec_fn(T) -> i128)
    ensures
        sorted_by_keys(items, items.map_values(key)).len() == items.len(),
        forall|i: int, j: int|
            0 <= i <= j < items.len() ==> key(
                #[trigger] sorted_by_keys(items, items.map_values(key))[i],
            ) <= key(#[trigger] sorted_by_keys(items, items.map_values(key))[j]),
        forall|i: int|
            0 <= i < items.len() ==> items.contains(
                #[trigger] sorted_by_keys(items, items.map_values(key))[i],
            ),
{
    broadcast use vstd::multiset::group_multiset_axioms;

    let keys = items.map_values(key);
    let sorted = sorted_by_keys(items, keys);
    lemma_sorted_len(items, keys);
    lemma_sort_commutes(items, keys, key);
    lemma_keys_by_keys(keys);
    lemma_sorted_keys_ascend(keys);
    lemma_sorted_keeps_items(items, keys);
    assert forall|i: int, j: int| 0 <= i <= j < items.len() implies key(#[trigger] sorted[i])
        <= key(#[trigger] sorted[j]) by {
        assert(sorted.map_values(key)[i] == key(sorted[i]));
        assert(sorted.map_values(key)[j] == key(sorted[j]));
    }
    assert forall|i: int| 0 <= i < items.len() implies items.contains(#[trigger] sorted[i]) by {
        sorted.to_multiset_ensures();
        items.to_multiset_ensures();
        assert(sorted.contains(sorted[i]));
        assert(sorted.to_multiset().count(sorted[i]) > 0);
    }
}

} // verus!
