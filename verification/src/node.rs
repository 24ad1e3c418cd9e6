//! The contract that both node kinds meet.
//!
//! A node is a sorted run of at most [`CAPACITY`] keys with a payload beside
//! it. The two kinds differ in one respect, which [`Node::routing`] names:
//!
//! * a *storing* node (a leaf) pairs key `i` with payload `i`, and a key that
//!   is promoted to the parent stays in the node as well;
//! * a *routing* node (an inner node) has one payload more than it has keys,
//!   pairs key `i` with payload `i + 1`, the child to the right of the key,
//!   and gives a promoted key away.
//!
//! All contracts are stated over the three models of a node: its live keys,
//! its live payload and, for a leaf, the link to the next leaf.

use vstd::prelude::*;
use mappedheap::PageId;
use crate::inner::InnerNode;
use crate::order::{lemma_bounds_exist, lower_bound, strictly_increasing, upper_bound};

verus! {

/// The number of keys that a node can hold.
pub const CAPACITY: usize = 255;

/// A node with at most this many keys is half full: it may borrow from a
/// sibling or be merged with one.
pub const HALF: usize = 127;

/// The slot that a search for `key` resolves to in the sorted `keys`.
///
/// In a storing node this is the slot of `key` itself, or the slot at which
/// it has to be inserted. In a routing node it is the child to descend into,
/// which for a key that is present is the child to its right.
pub open spec fn slot_for(routing: bool, keys: Seq<u64>, key: u64) -> int {
    if routing {
        upper_bound(keys, key)
    } else {
        lower_bound(keys, key)
    }
}

/// `key` lies above the key in front of slot `i`, if there is one, and below
/// the key in slot `i`, if there is one.
pub open spec fn fits_at(keys: Seq<u64>, i: int, key: u64) -> bool {
    &&& 0 < i <= keys.len() ==> keys[i - 1] < key
    &&& 0 <= i < keys.len() ==> key < keys[i]
}

/// The payload index that goes with key index `i`.
pub open spec fn content_index(routing: bool, i: int) -> int {
    if routing {
        i + 1
    } else {
        i
    }
}

/// Where a full node is cut once the incoming key has been placed at `slot`
/// among its 255 keys: the index, among those 256 keys, of the key that is
/// handed to the parent. The keys in front of it stay.
///
/// The cut depends on the side that the incoming key lands on. A storing
/// node has its midpoint at 127 and keeps 127 keys if the key lands right of
/// it, 128 if not. A routing node has its midpoint at 128 and keeps 127 keys
/// if the key lands right of it, 129 if not.
pub open spec fn split_point(routing: bool, slot: int) -> int {
    if routing {
        if slot > 128 {
            127
        } else {
            129
        }
    } else {
        if slot > 127 {
            127
        } else {
            128
        }
    }
}

/// The key that a half-full node receives when it borrows an entry: a
/// storing node takes the sibling's key, a routing node takes the separator
/// from the parent.
pub open spec fn borrowed_key(routing: bool, separator: u64, sibling_key: u64) -> u64 {
    if routing {
        separator
    } else {
        sibling_key
    }
}

/// The keys of two neighbours after the right one has been merged into the
/// left one. Between routing nodes the separator from the parent comes down;
/// between storing nodes it is dropped.
pub open spec fn merged_keys(routing: bool, left: Seq<u64>, separator: u64, right: Seq<u64>) -> Seq<
    u64,
> {
    if routing {
        left.push(separator) + right
    } else {
        left + right
    }
}

/// The left node's keys all lie below the right node's keys, and, between
/// routing nodes, the separator lies strictly between the two.
pub open spec fn joins_in_order(
    routing: bool,
    left: Seq<u64>,
    separator: u64,
    right: Seq<u64>,
) -> bool {
    if routing {
        left.last() < separator && separator < right.first()
    } else {
        left.last() < right.first()
    }
}

/// What a node of either kind offers to the code that walks and rebalances
/// the tree. `T` is the payload: a child page in an inner node, a value in a
/// leaf.
///
/// The operations that search (`find_slot`, `contains`, `insert`, `remove`,
/// `split`) ask for sorted keys. All of them keep the keys sorted, as far as
/// the arguments allow it: `insert` and `split` unless they are given a key
/// that the node holds already, `borrow` and `merge` if the two nodes and
/// the separator are in order. The operations that work by slot do not
/// search and take the node as it is.
pub trait Node<T>: Sized {
    /// Whether this kind of node routes to children (an inner node) or
    /// stores values (a leaf).
    spec fn routing() -> bool;

    /// The live keys, in slot order.
    spec fn spec_keys(&self) -> Seq<u64>;

    /// The live payload, in slot order.
    spec fn spec_content(&self) -> Seq<T>;

    /// The link to the next node of the same level, if this kind has one.
    spec fn spec_link(&self) -> Option<PageId>;

    /// The live keys.
    fn keys(&self) -> (r: &[u64])
        ensures
            r@ == self.spec_keys(),
            r@.len() <= CAPACITY,
    ;

    /// The live payload: as many entries as keys in a leaf, one more in an
    /// inner node.
    fn content(&self) -> (r: &[T])
        ensures
            r@ == self.spec_content(),
            r@.len() == content_index(Self::routing(), self.spec_keys().len() as int),
    ;

    /// The live payload, open to be overwritten in place. Keys, count and
    /// link are out of reach of the borrow.
    fn content_mut(&mut self) -> (r: &mut [T])
        ensures
            r@ == old(self).spec_content(),
            final(self).spec_content() == final(r)@,
            final(self).spec_keys() == old(self).spec_keys(),
            final(self).spec_link() == old(self).spec_link(),
    ;

    /// The number of live keys.
    fn count(&self) -> (n: usize)
        ensures
            n == self.spec_keys().len(),
            n <= CAPACITY,
    ;

    /// Whether the node is at or below the minimum fill of [`HALF`] keys.
    fn half_full(&self) -> (b: bool)
        ensures
            b == (self.spec_keys().len() <= HALF),
            self.spec_keys().len() <= CAPACITY,
    {
        self.count() <= HALF
    }

    /// Whether the node holds [`CAPACITY`] keys and has to be split before
    /// the next insertion.
    fn full(&self) -> (b: bool)
        ensures
            b == (self.spec_keys().len() == CAPACITY),
            self.spec_keys().len() <= CAPACITY,
    {
        self.count() == CAPACITY
    }

    /// Puts `key` with `data` where the search for `key` resolves to.
    ///
    /// The node stays sorted unless it held `key` already.
    fn insert(&mut self, key: u64, data: T)
        requires
            strictly_increasing(old(self).spec_keys()),
            old(self).spec_keys().len() < CAPACITY,
        ensures
            final(self).spec_keys() == old(self).spec_keys().insert(
                slot_for(Self::routing(), old(self).spec_keys(), key),
                key,
            ),
            final(self).spec_content() == old(self).spec_content().insert(
                content_index(
                    Self::routing(),
                    slot_for(Self::routing(), old(self).spec_keys(), key),
                ),
                data,
            ),
            final(self).spec_link() == old(self).spec_link(),
            final(self).spec_keys().len() == old(self).spec_keys().len() + 1,
            final(self).spec_keys().contains(key),
            !old(self).spec_keys().contains(key) ==> strictly_increasing(final(self).spec_keys()),
    {
        let i = self.find_slot(key);
        proof {
            let s = self.spec_keys();
            lemma_bounds_exist(s, key);
            if !s.contains(key) {
                if i > 0 {
                    assert(s.contains(s[i - 1]));
                }
                if i < s.len() {
                    assert(s.contains(s[i as int]));
                }
            }
        }
        self.insert_idx(i, key, data);
        proof {
            assert(self.spec_keys()[i as int] == key);
        }
    }

    /// Opens slot `i` and writes `key` with `data` there. The entries from
    /// `i` on move one slot to the right.
    fn insert_idx(&mut self, i: usize, key: u64, data: T)
        requires
            old(self).spec_keys().len() < CAPACITY,
            i <= old(self).spec_keys().len(),
        ensures
            final(self).spec_keys() == old(self).spec_keys().insert(i as int, key),
            final(self).spec_content() == old(self).spec_content().insert(
                content_index(Self::routing(), i as int),
                data,
            ),
            final(self).spec_link() == old(self).spec_link(),
            strictly_increasing(old(self).spec_keys()) && fits_at(
                old(self).spec_keys(),
                i as int,
                key,
            ) ==> strictly_increasing(final(self).spec_keys()),
    ;

    /// Takes `key` out, with the payload that goes with it, and returns that
    /// payload. `None` says that the node does not hold `key` and is left as
    /// it was.
    fn remove(&mut self, key: u64) -> (r: Option<T>)
        requires
            strictly_increasing(old(self).spec_keys()),
        ensures
            r.is_some() == old(self).spec_keys().contains(key),
            match r {
                Some(data) => {
                    let at = lower_bound(old(self).spec_keys(), key);
                    &&& 0 <= at < old(self).spec_keys().len()
                    &&& old(self).spec_keys()[at] == key
                    &&& data == old(self).spec_content()[content_index(Self::routing(), at)]
                    &&& final(self).spec_keys() == old(self).spec_keys().remove(at)
                    &&& final(self).spec_content() == old(self).spec_content().remove(
                        content_index(Self::routing(), at),
                    )
                },
                None => {
                    &&& final(self).spec_keys() == old(self).spec_keys()
                    &&& final(self).spec_content() == old(self).spec_content()
                },
            },
            final(self).spec_link() == old(self).spec_link(),
            strictly_increasing(final(self).spec_keys()),
    ;

    /// Takes the key in slot `i` out, with the payload that goes with it, and
    /// returns both. The entries behind `i` move one slot to the left.
    ///
    /// A node may fall below half full here: the caller restores the fill
    /// with `borrow` or `merge` afterwards.
    fn remove_idx(&mut self, i: usize) -> (r: (u64, T))
        requires
            i < old(self).spec_keys().len(),
        ensures
            r.0 == old(self).spec_keys()[i as int],
            r.1 == old(self).spec_content()[content_index(Self::routing(), i as int)],
            final(self).spec_keys() == old(self).spec_keys().remove(i as int),
            final(self).spec_content() == old(self).spec_content().remove(
                content_index(Self::routing(), i as int),
            ),
            final(self).spec_link() == old(self).spec_link(),
            strictly_increasing(old(self).spec_keys()) ==> strictly_increasing(
                final(self).spec_keys(),
            ),
    ;

    /// Splits a full node around the incoming entry `*key`, `newval`.
    ///
    /// The incoming entry is placed among the 255 entries of the node, which
    /// are then cut at [`split_point`]: the keys in front of the cut stay,
    /// the key at the cut is written to `*key` for the parent, and the new
    /// right-hand node is returned. A storing node keeps the key at the cut
    /// as the first key of the new node; a routing node gives it away.
    ///
    /// `target_id` is the page that the caller stores the new node in. A
    /// leaf links to it, and the new leaf takes over the old link.
    fn split(&mut self, key: &mut u64, newval: T, target_id: PageId) -> (right: Self)
        requires
            strictly_increasing(old(self).spec_keys()),
            old(self).spec_keys().len() == CAPACITY,
        ensures
            ({
                let slot = slot_for(Self::routing(), old(self).spec_keys(), *old(key));
                let all_keys = old(self).spec_keys().insert(slot, *old(key));
                let all_content = old(self).spec_content().insert(
                    content_index(Self::routing(), slot),
                    newval,
                );
                let cut = split_point(Self::routing(), slot);
                let resume = content_index(Self::routing(), cut);
                &&& final(self).spec_keys() == all_keys.subrange(0, cut)
                &&& *final(key) == all_keys[cut]
                &&& right.spec_keys() == all_keys.subrange(resume, CAPACITY + 1)
                &&& final(self).spec_content() == all_content.subrange(0, resume)
                &&& right.spec_content() == all_content.subrange(
                    resume,
                    all_content.len() as int,
                )
            }),
            !Self::routing() ==> final(self).spec_link() == Some(target_id),
            right.spec_link() == old(self).spec_link(),
            final(self).spec_keys().len() == split_point(
                Self::routing(),
                slot_for(Self::routing(), old(self).spec_keys(), *old(key)),
            ),
            final(self).spec_keys().len() + right.spec_keys().len() + (if Self::routing() {
                1int
            } else {
                0int
            }) == CAPACITY + 1,
            !old(self).spec_keys().contains(*old(key)) ==> strictly_increasing(
                final(self).spec_keys(),
            ) && strictly_increasing(right.spec_keys()),
    ;

    /// Moves one entry from `sibling`, which has entries to spare, into this
    /// half-full node, and sets the separator between the two in `parent`.
    ///
    /// With `is_right` the sibling is the right neighbour, the separator is
    /// `parent`'s key `parent_slot`, and the sibling's first entry comes to
    /// the end of this node. Without it the sibling is the left neighbour,
    /// the separator is `parent`'s key `parent_slot - 1`, and the sibling's
    /// last entry comes to the front of this node.
    ///
    /// Between leaves the new separator is the first key of the right-hand
    /// leaf. Between inner nodes the entry rotates through the parent: the
    /// old separator comes down and the sibling's key goes up.
    fn borrow(
        &mut self,
        parent: &mut InnerNode,
        parent_slot: usize,
        sibling: &mut Self,
        is_right: bool,
    )
        requires
            old(self).spec_keys().len() <= HALF,
            old(sibling).spec_keys().len() > HALF,
            is_right ==> parent_slot < old(parent).separators().len(),
            !is_right ==> 1 <= parent_slot <= old(parent).separators().len(),
        ensures
            is_right ==> {
                &&& final(sibling).spec_keys() == old(sibling).spec_keys().drop_first()
                &&& final(sibling).spec_content() == old(sibling).spec_content().drop_first()
                &&& final(self).spec_keys() == old(self).spec_keys().push(
                    borrowed_key(
                        Self::routing(),
                        old(parent).separators()[parent_slot as int],
                        old(sibling).spec_keys()[0],
                    ),
                )
                &&& final(self).spec_content() == old(self).spec_content().push(
                    old(sibling).spec_content()[0],
                )
                &&& final(parent).separators() == old(parent).separators().update(
                    parent_slot as int,
                    if Self::routing() {
                        old(sibling).spec_keys()[0]
                    } else {
                        old(sibling).spec_keys()[1]
                    },
                )
            },
            !is_right ==> {
                &&& final(sibling).spec_keys() == old(sibling).spec_keys().drop_last()
                &&& final(sibling).spec_content() == old(sibling).spec_content().drop_last()
                &&& final(self).spec_keys() == old(self).spec_keys().insert(
                    0,
                    borrowed_key(
                        Self::routing(),
                        old(parent).separators()[parent_slot - 1],
                        old(sibling).spec_keys().last(),
                    ),
                )
                &&& final(self).spec_content() == old(self).spec_content().insert(
                    0,
                    old(sibling).spec_content().last(),
                )
                &&& final(parent).separators() == old(parent).separators().update(
                    parent_slot - 1,
                    old(sibling).spec_keys().last(),
                )
            },
            final(parent).children() == old(parent).children(),
            final(self).spec_link() == old(self).spec_link(),
            final(sibling).spec_link() == old(sibling).spec_link(),
            final(self).spec_keys().len() == old(self).spec_keys().len() + 1,
            final(sibling).spec_keys().len() == old(sibling).spec_keys().len() - 1,
            final(self).spec_keys().len() + final(sibling).spec_keys().len() == old(
                self,
            ).spec_keys().len() + old(sibling).spec_keys().len(),
            final(sibling).spec_keys().len() >= HALF,
            old(self).spec_keys().len() + 1 >= HALF ==> final(self).spec_keys().len() >= HALF,
            final(self).spec_content().to_multiset().add(
                final(sibling).spec_content().to_multiset(),
            ) == old(self).spec_content().to_multiset().add(
                old(sibling).spec_content().to_multiset(),
            ),
            if Self::routing() {
                final(parent).separators().to_multiset().add(
                    final(self).spec_keys().to_multiset(),
                ).add(final(sibling).spec_keys().to_multiset()) == old(
                    parent,
                ).separators().to_multiset().add(old(self).spec_keys().to_multiset()).add(
                    old(sibling).spec_keys().to_multiset(),
                )
            } else {
                final(self).spec_keys().to_multiset().add(final(sibling).spec_keys().to_multiset())
                    == old(self).spec_keys().to_multiset().add(
                    old(sibling).spec_keys().to_multiset(),
                )
            },
            strictly_increasing(old(sibling).spec_keys()) ==> strictly_increasing(
                final(sibling).spec_keys(),
            ),
            strictly_increasing(old(self).spec_keys()) && fits_at(
                old(self).spec_keys(),
                if is_right {
                    old(self).spec_keys().len() as int
                } else {
                    0
                },
                if is_right {
                    final(self).spec_keys().last()
                } else {
                    final(self).spec_keys()[0]
                },
            ) ==> strictly_increasing(final(self).spec_keys()),
    ;

    /// Takes all entries of `sibling`, the right neighbour, in at the end of
    /// this node. `sibling` is left as it was; the caller discards it.
    ///
    /// Between inner nodes `parent_key`, the separator that stood between the
    /// two in the parent, comes down between their keys. Between leaves it
    /// is not used, and it need not be the sibling's first key; this node
    /// takes over the sibling's link.
    fn merge(&mut self, sibling: &mut Self, parent_key: u64)
        requires
            old(self).spec_keys().len() > 0,
            old(sibling).spec_keys().len() > 0,
            old(self).spec_keys()[0] < old(sibling).spec_keys()[0],
            old(self).spec_keys().len() + old(sibling).spec_keys().len() + (if Self::routing() {
                1int
            } else {
                0int
            }) <= CAPACITY,
        ensures
            final(self).spec_keys() == merged_keys(
                Self::routing(),
                old(self).spec_keys(),
                parent_key,
                old(sibling).spec_keys(),
            ),
            final(self).spec_content() == old(self).spec_content() + old(sibling).spec_content(),
            final(self).spec_link() == old(sibling).spec_link(),
            final(sibling).spec_keys() == old(sibling).spec_keys(),
            final(sibling).spec_content() == old(sibling).spec_content(),
            final(sibling).spec_link() == old(sibling).spec_link(),
            final(self).spec_keys().len() == old(self).spec_keys().len() + old(
                sibling,
            ).spec_keys().len() + (if Self::routing() {
                1int
            } else {
                0int
            }),
            strictly_increasing(old(self).spec_keys()) && strictly_increasing(
                old(sibling).spec_keys(),
            ) && joins_in_order(
                Self::routing(),
                old(self).spec_keys(),
                parent_key,
                old(sibling).spec_keys(),
            ) ==> strictly_increasing(final(self).spec_keys()),
    ;

    /// The slot that `key` belongs to: see [`slot_for`].
    fn find_slot(&self, key: u64) -> (i: usize)
        requires
            strictly_increasing(self.spec_keys()),
        ensures
            i == slot_for(Self::routing(), self.spec_keys(), key),
            i <= self.spec_keys().len(),
    ;

    /// Whether `key` is one of the live keys.
    fn contains(&self, key: u64) -> (b: bool)
        requires
            strictly_increasing(self.spec_keys()),
        ensures
            b == self.spec_keys().contains(key),
    ;
}

} // verus!
