//! What holds across the operations of a node, stated over the models that
//! their contracts use.

use vstd::prelude::*;
use vstd::seq_lib::{to_multiset_build, to_multiset_insert, to_multiset_remove, to_multiset_update};
use crate::leaf::lookup;
use crate::node::{fits_at, slot_for};
use crate::order::{
    lemma_bounds_exist, lemma_bounds_of_present_key, lemma_insert_keeps_order,
    lemma_remove_keeps_order, lower_bound, strictly_increasing,
};

verus! {

broadcast use vstd::multiset::group_multiset_axioms;

/// The dividing line between two keys that a search resolves to is a place
/// where a key that the node does not hold fits in order.
pub proof fn lemma_slot_fits(routing: bool, keys: Seq<u64>, key: u64)
    requires
        strictly_increasing(keys),
        !keys.contains(key),
    ensures
        0 <= slot_for(routing, keys, key) <= keys.len(),
        fits_at(keys, slot_for(routing, keys, key), key),
{
    lemma_bounds_exist(keys, key);
    let i = slot_for(routing, keys, key);
    if i > 0 {
        assert(keys.contains(keys[i - 1]));
    }
    if i < keys.len() {
        assert(keys.contains(keys[i]));
    }
}

/// After `insert` a node of either kind holds the new key and every key that
/// it held before, and no others.
pub proof fn lemma_insert_then_contains(routing: bool, keys: Seq<u64>, key: u64, other: u64)
    requires
        strictly_increasing(keys),
    ensures
        keys.insert(slot_for(routing, keys, key), key).contains(key),
        keys.insert(slot_for(routing, keys, key), key).contains(other) <==> other == key
            || keys.contains(other),
{
    lemma_bounds_exist(keys, key);
    let i = slot_for(routing, keys, key);
    let after = keys.insert(i, key);
    assert(after[i] == key);
    if keys.contains(other) {
        let m = keys.index_of(other);
        if m < i {
            assert(after[m] == other);
        } else {
            assert(after[m + 1] == other);
        }
    }
    if after.contains(other) && other != key {
        let m = after.index_of(other);
        if m < i {
            assert(keys[m] == other);
        } else {
            assert(keys[m - 1] == other);
        }
    }
}

/// After `remove` of a key that a node holds, the node holds every other key
/// that it held before, and not the removed one.
pub proof fn lemma_remove_then_contains(keys: Seq<u64>, key: u64, other: u64)
    requires
        strictly_increasing(keys),
        keys.contains(key),
    ensures
        !keys.remove(lower_bound(keys, key)).contains(key),
        other != key ==> (keys.remove(lower_bound(keys, key)).contains(other) <==> keys.contains(
            other,
        )),
{
    lemma_bounds_exist(keys, key);
    let at = lower_bound(keys, key);
    let after = keys.remove(at);
    lemma_remove_keeps_order(keys, at);
    if after.contains(key) {
        let m = after.index_of(key);
        if m < at {
            assert(keys[m] < keys[at]);
        } else {
            assert(keys[at] < keys[m + 1]);
        }
    }
    if keys.contains(other) && other != key {
        let m = keys.index_of(other);
        if m < at {
            assert(after[m] == other);
        } else {
            assert(after[m - 1] == other);
        }
    }
    if after.contains(other) {
        let m = after.index_of(other);
        if m < at {
            assert(keys[m] == other);
        } else {
            assert(keys[m + 1] == other);
        }
    }
}

/// After `insert` of a key that a leaf did not hold, the leaf stores the
/// inserted value under that key, and under every other key what it stored
/// before.
pub proof fn lemma_insert_then_lookup(
    keys: Seq<u64>,
    values: Seq<u64>,
    key: u64,
    value: u64,
    other: u64,
)
    requires
        strictly_increasing(keys),
        keys.len() == values.len(),
        !keys.contains(key),
    ensures
        lookup(
            keys.insert(lower_bound(keys, key), key),
            values.insert(lower_bound(keys, key), value),
            key,
        ) == Some(value),
        other != key ==> lookup(
            keys.insert(lower_bound(keys, key), key),
            values.insert(lower_bound(keys, key), value),
            other,
        ) == lookup(keys, values, other),
{
    let i = lower_bound(keys, key);
    let keys2 = keys.insert(i, key);
    let values2 = values.insert(i, value);
    lemma_slot_fits(false, keys, key);
    lemma_insert_keeps_order(keys, i, key);
    lemma_insert_then_contains(false, keys, key, other);
    assert(keys2[i] == key);
    lemma_bounds_of_present_key(keys2, key, i);
    assert(values2[i] == value);
    if other != key && keys.contains(other) {
        let m = keys.index_of(other);
        lemma_bounds_of_present_key(keys, other, m);
        let m2 = if m < i {
            m
        } else {
            m + 1
        };
        assert(keys2[m2] == other);
        lemma_bounds_of_present_key(keys2, other, m2);
        assert(values2[m2] == values[m]);
    }
}

/// After `remove` of a key that a leaf held, the leaf stores nothing under
/// that key, and under every other key what it stored before.
pub proof fn lemma_remove_then_lookup(keys: Seq<u64>, values: Seq<u64>, key: u64, other: u64)
    requires
        strictly_increasing(keys),
        keys.len() == values.len(),
        keys.contains(key),
    ensures
        lookup(
            keys.remove(lower_bound(keys, key)),
            values.remove(lower_bound(keys, key)),
            key,
        ) == None::<u64>,
        other != key ==> lookup(
            keys.remove(lower_bound(keys, key)),
            values.remove(lower_bound(keys, key)),
            other,
        ) == lookup(keys, values, other),
{
    lemma_bounds_exist(keys, key);
    let at = lower_bound(keys, key);
    let keys2 = keys.remove(at);
    let values2 = values.remove(at);
    lemma_remove_keeps_order(keys, at);
    lemma_remove_then_contains(keys, key, other);
    if other != key && keys.contains(other) {
        let m = keys.index_of(other);
        lemma_bounds_of_present_key(keys, other, m);
        let m2 = if m < at {
            m
        } else {
            m - 1
        };
        assert(keys2[m2] == other);
        lemma_bounds_of_present_key(keys2, other, m2);
        assert(values2[m2] == values[m]);
    }
}

/// Moving the first entry of a right-hand leaf to the end of its left
/// neighbour, or the last entry of a left-hand leaf to the front of its
/// right neighbour, leaves the entries of the two together as they were.
pub proof fn lemma_shift_conserves_entries<T>(node: Seq<T>, sibling: Seq<T>, is_right: bool)
    requires
        sibling.len() > 0,
    ensures
        is_right ==> node.push(sibling.first()).to_multiset().add(
            sibling.drop_first().to_multiset(),
        ) == node.to_multiset().add(sibling.to_multiset()),
        !is_right ==> node.insert(0, sibling.last()).to_multiset().add(
            sibling.drop_last().to_multiset(),
        ) == node.to_multiset().add(sibling.to_multiset()),
{
    if is_right {
        to_multiset_build(node, sibling.first());
        to_multiset_remove(sibling, 0);
        sibling.to_multiset_ensures();
        assert(sibling.contains(sibling[0]));
        assert(sibling.remove(0) =~= sibling.drop_first());
        assert(node.push(sibling.first()).to_multiset().add(sibling.drop_first().to_multiset())
            =~= node.to_multiset().add(sibling.to_multiset()));
    } else {
        to_multiset_insert(node, 0, sibling.last());
        to_multiset_remove(sibling, sibling.len() - 1);
        sibling.to_multiset_ensures();
        assert(sibling.contains(sibling[sibling.len() - 1]));
        assert(sibling.remove(sibling.len() - 1) =~= sibling.drop_last());
        assert(node.insert(0, sibling.last()).to_multiset().add(sibling.drop_last().to_multiset())
            =~= node.to_multiset().add(sibling.to_multiset()));
    }
}

/// Rotating a key from an inner node through the parent into its neighbour
/// leaves the keys of the three together as they were: the separator comes
/// down into the node, and the sibling's key takes its place in the parent.
pub proof fn lemma_rotation_conserves_keys(
    parent: Seq<u64>,
    at: int,
    node: Seq<u64>,
    sibling: Seq<u64>,
    is_right: bool,
)
    requires
        0 <= at < parent.len(),
        sibling.len() > 0,
    ensures
        is_right ==> parent.update(at, sibling.first()).to_multiset().add(
            node.push(parent[at]).to_multiset(),
        ).add(sibling.drop_first().to_multiset()) == parent.to_multiset().add(
            node.to_multiset(),
        ).add(sibling.to_multiset()),
        !is_right ==> parent.update(at, sibling.last()).to_multiset().add(
            node.insert(0, parent[at]).to_multiset(),
        ).add(sibling.drop_last().to_multiset()) == parent.to_multiset().add(
            node.to_multiset(),
        ).add(sibling.to_multiset()),
{
    if is_right {
        to_multiset_update(parent, at, sibling.first());
        to_multiset_build(node, parent[at]);
        to_multiset_remove(sibling, 0);
        sibling.to_multiset_ensures();
        parent.to_multiset_ensures();
        assert(sibling.contains(sibling[0]));
        assert(parent.contains(parent[at]));
        assert(sibling.remove(0) =~= sibling.drop_first());
        assert(parent.update(at, sibling.first()).to_multiset().add(
            node.push(parent[at]).to_multiset(),
        ).add(sibling.drop_first().to_multiset()) =~= parent.to_multiset().add(
            node.to_multiset(),
        ).add(sibling.to_multiset()));
    } else {
        to_multiset_update(parent, at, sibling.last());
        to_multiset_insert(node, 0, parent[at]);
        to_multiset_remove(sibling, sibling.len() - 1);
        sibling.to_multiset_ensures();
        parent.to_multiset_ensures();
        assert(sibling.contains(sibling[sibling.len() - 1]));
        assert(parent.contains(parent[at]));
        assert(sibling.remove(sibling.len() - 1) =~= sibling.drop_last());
        assert(parent.update(at, sibling.last()).to_multiset().add(
            node.insert(0, parent[at]).to_multiset(),
        ).add(sibling.drop_last().to_multiset()) =~= parent.to_multiset().add(
            node.to_multiset(),
        ).add(sibling.to_multiset()));
    }
}

} // verus!
