//! Leaf nodes: sorted keys with their values, chained in key order.

use vstd::prelude::*;
use mappedheap::PageId;
use crate::array::{copy_range, shift_left, shift_right};
use crate::inner::InnerNode;
use crate::laws::lemma_shift_conserves_entries;
use crate::node::{fits_at, joins_in_order, Node};
use crate::order::{
    lemma_bounds_exist, lemma_concat_keeps_order, lemma_insert_keeps_order,
    lemma_remove_keeps_order, lemma_subrange_keeps_order, lower_bound, strictly_increasing,
};
use crate::search::binary_search;

verus! {

/// The value that sorted `keys` with `values` beside them hold for `key`.
pub open spec fn lookup(keys: Seq<u64>, values: Seq<u64>, key: u64) -> Option<u64> {
    if keys.contains(key) {
        Some(values[lower_bound(keys, key)])
    } else {
        None
    }
}

/// A node of keys and the values stored under them.
///
/// Value `i` belongs to key `i`. Each leaf carries the page of the leaf that
/// follows it in key order, so that a range scan can walk from leaf to leaf.
///
/// The keys and values live in the front of two fixed arrays; what lies
/// behind the live part is never read.
pub struct LeafNode {
    count_: u16,
    keys: [u64; 255],
    data: [u64; 255],
    next: PageId,
}

impl LeafNode {
    #[verifier::type_invariant]
    spec fn inv(&self) -> bool {
        self.count_ <= 255
    }

    /// The page of the leaf that follows this one.
    pub closed spec fn spec_next(&self) -> PageId {
        self.next
    }

    /// A leaf without entries, in front of the leaf in page `next`.
    pub fn new(next: PageId) -> (node: LeafNode)
        ensures
            node.spec_keys() == Seq::<u64>::empty(),
            node.spec_content() == Seq::<u64>::empty(),
            node.spec_next() == next,
    {
        let node = LeafNode { count_: 0, keys: [0u64; 255], data: [0u64; 255], next };
        assert(node.spec_keys() =~= Seq::<u64>::empty());
        assert(node.spec_content() =~= Seq::<u64>::empty());
        node
    }

    /// The value stored under `key`, if there is one.
    pub fn get(&self, key: u64) -> (r: Option<u64>)
        requires
            strictly_increasing(self.spec_keys()),
        ensures
            r == lookup(self.spec_keys(), self.spec_content(), key),
    {
        proof {
            use_type_invariant(self);
        }
        match binary_search(self.keys(), key) {
            Ok(i) => Some(self.data[i]),
            Err(_) => None,
        }
    }

    /// The page of the leaf that follows this one.
    pub fn next(&self) -> (id: PageId)
        ensures
            id == self.spec_next(),
    {
        self.next
    }
}

impl Node<u64> for LeafNode {
    open spec fn routing() -> bool {
        false
    }

    closed spec fn spec_keys(&self) -> Seq<u64> {
        self.keys@.subrange(0, self.count_ as int)
    }

    closed spec fn spec_content(&self) -> Seq<u64> {
        self.data@.subrange(0, self.count_ as int)
    }

    open spec fn spec_link(&self) -> Option<PageId> {
        Some(self.spec_next())
    }

    fn keys(&self) -> (r: &[u64]) {
        proof {
            use_type_invariant(self);
        }
        let n: usize = self.count_ as usize;
        vstd::slice::slice_subrange(self.keys.as_slice(), 0, n)
    }

    fn content(&self) -> (r: &[u64]) {
        proof {
            use_type_invariant(self);
        }
        let n: usize = self.count_ as usize;
        vstd::slice::slice_subrange(self.data.as_slice(), 0, n)
    }

    fn content_mut(&mut self) -> (r: &mut [u64]) {
        proof {
            use_type_invariant(&*self);
        }
        let n: usize = self.count_ as usize;
        let (live, rest) = self.data.split_at_mut(n);
        proof {
            // the array keeps its length, and with it the live part does
            assert(final(self).data@.len() == 255);
            assert(final(self).data@ == final(live)@ + rest@);
            assert(final(live)@.len() == n);
            assert((final(live)@ + rest@).subrange(0, n as int) =~= final(live)@);
        }
        live
    }

    fn count(&self) -> (n: usize) {
        proof {
            use_type_invariant(self);
        }
        self.count_ as usize
    }

    fn insert_idx(&mut self, i: usize, key: u64, val: u64) {
        proof {
            use_type_invariant(&*self);
        }
        let n: usize = self.count_ as usize;
        shift_right(&mut self.keys, i, n);
        shift_right(&mut self.data, i, n);
        self.keys[i] = key;
        self.data[i] = val;
        self.count_ = self.count_ + 1;
        proof {
            assert(self.spec_keys() =~= old(self).spec_keys().insert(i as int, key));
            assert(self.spec_content() =~= old(self).spec_content().insert(i as int, val));
            if strictly_increasing(old(self).spec_keys()) && fits_at(
                old(self).spec_keys(),
                i as int,
                key,
            ) {
                lemma_insert_keeps_order(old(self).spec_keys(), i as int, key);
            }
        }
    }

    fn remove(&mut self, key: u64) -> (r: Option<u64>) {
        proof {
            use_type_invariant(&*self);
            lemma_bounds_exist(self.spec_keys(), key);
        }
        let i = self.find_slot(key);
        if i < self.count_ as usize && self.keys[i] == key {
            Some(self.remove_idx(i).1)
        } else {
            None
        }
    }

    fn remove_idx(&mut self, i: usize) -> (r: (u64, u64)) {
        proof {
            use_type_invariant(&*self);
        }
        let n: usize = self.count_ as usize;
        let ret = (self.keys[i], self.data[i]);
        shift_left(&mut self.keys, i, n);
        shift_left(&mut self.data, i, n);
        self.count_ = self.count_ - 1;
        proof {
            assert(self.spec_keys() =~= old(self).spec_keys().remove(i as int));
            assert(self.spec_content() =~= old(self).spec_content().remove(i as int));
            if strictly_increasing(old(self).spec_keys()) {
                lemma_remove_keeps_order(old(self).spec_keys(), i as int);
            }
        }
        ret
    }

    fn split(&mut self, key: &mut u64, newval: u64, target_id: PageId) -> (right: LeafNode)
        ensures
            *final(key) == right.spec_keys()[0],
            final(self).spec_next() == target_id,
            right.spec_next() == old(self).spec_next(),
            final(self).spec_keys().len() == 127 && right.spec_keys().len() == 129
                || final(self).spec_keys().len() == 128 && right.spec_keys().len() == 128,
    {
        proof {
            use_type_invariant(&*self);
            lemma_bounds_exist(self.spec_keys(), *key);
        }
        let newkey = *key;
        let mut target = LeafNode {
            count_: 0,
            keys: [0u64; 255],
            data: [0u64; 255],
            next: self.next,
        };
        let i = self.find_slot(newkey);
        let ghost all_keys = self.spec_keys().insert(i as int, newkey);
        let ghost all_content = self.spec_content().insert(i as int, newval);
        self.next = target_id;
        if i > 127 {
            let before: usize = i - 127;
            copy_range(&mut target.keys, 0, &self.keys, 127, i);
            copy_range(&mut target.data, 0, &self.data, 127, i);
            target.keys[before] = newkey;
            target.data[before] = newval;
            copy_range(&mut target.keys, before + 1, &self.keys, i, 255);
            copy_range(&mut target.data, before + 1, &self.data, i, 255);
            self.count_ = 127;
            target.count_ = 129;
            proof {
                assert(self.spec_keys() =~= all_keys.subrange(0, 127));
                assert(target.spec_keys() =~= all_keys.subrange(127, 256));
                assert(self.spec_content() =~= all_content.subrange(0, 127));
                assert(target.spec_content() =~= all_content.subrange(127, 256));
            }
        } else {
            copy_range(&mut target.keys, 0, &self.keys, 127, 255);
            copy_range(&mut target.data, 0, &self.data, 127, 255);
            shift_right(&mut self.keys, i, 127);
            shift_right(&mut self.data, i, 127);
            self.keys[i] = newkey;
            self.data[i] = newval;
            self.count_ = 128;
            target.count_ = 128;
            proof {
                assert(self.spec_keys() =~= all_keys.subrange(0, 128));
                assert(target.spec_keys() =~= all_keys.subrange(128, 256));
                assert(self.spec_content() =~= all_content.subrange(0, 128));
                assert(target.spec_content() =~= all_content.subrange(128, 256));
            }
        }
        proof {
            let s = old(self).spec_keys();
            if !s.contains(newkey) {
                if i < s.len() {
                    assert(s.contains(s[i as int]));
                }
                lemma_insert_keeps_order(s, i as int, newkey);
                lemma_subrange_keeps_order(all_keys, 0, self.count_ as int);
                lemma_subrange_keeps_order(all_keys, self.count_ as int, 256);
            }
        }
        *key = target.keys[0];
        target
    }

    fn borrow(
        &mut self,
        parent: &mut InnerNode,
        parent_slot: usize,
        sibling: &mut LeafNode,
        is_right: bool,
    ) {
        proof {
            use_type_invariant(&*self);
            use_type_invariant(&*sibling);
        }
        if is_right {
            let at: usize = self.count_ as usize;
            let (k, v) = sibling.remove_idx(0);
            proof {
                use_type_invariant(&*sibling);
            }
            let first = sibling.keys[0];
            assert(first == sibling.spec_keys()[0] && sibling.spec_keys()[0] == old(
                sibling,
            ).spec_keys()[1]);
            parent.replace_key(parent_slot, first);
            self.insert_idx(at, k, v);
            proof {
                assert(sibling.spec_keys() =~= old(sibling).spec_keys().drop_first());
                assert(sibling.spec_content() =~= old(sibling).spec_content().drop_first());
                assert(self.spec_keys() =~= old(self).spec_keys().push(k));
                assert(self.spec_content() =~= old(self).spec_content().push(v));
                lemma_shift_conserves_entries(old(self).spec_keys(), old(sibling).spec_keys(), true);
                lemma_shift_conserves_entries(
                    old(self).spec_content(),
                    old(sibling).spec_content(),
                    true,
                );
            }
        } else {
            let last: usize = sibling.count_ as usize - 1;
            let (k, v) = sibling.remove_idx(last);
            parent.replace_key(parent_slot - 1, k);
            self.insert_idx(0, k, v);
            proof {
                assert(sibling.spec_keys() =~= old(sibling).spec_keys().drop_last());
                assert(sibling.spec_content() =~= old(sibling).spec_content().drop_last());
                lemma_shift_conserves_entries(
                    old(self).spec_keys(),
                    old(sibling).spec_keys(),
                    false,
                );
                lemma_shift_conserves_entries(
                    old(self).spec_content(),
                    old(sibling).spec_content(),
                    false,
                );
            }
        }
    }

    fn merge(&mut self, sibling: &mut LeafNode, parent_key: u64)
        ensures
            final(self).spec_next() == old(sibling).spec_next(),
    {
        proof {
            use_type_invariant(&*self);
            use_type_invariant(&*sibling);
        }
        let n: usize = self.count_ as usize;
        let m: usize = sibling.count_ as usize;
        copy_range(&mut self.keys, n, &sibling.keys, 0, m);
        copy_range(&mut self.data, n, &sibling.data, 0, m);
        self.count_ = self.count_ + sibling.count_;
        self.next = sibling.next;
        proof {
            assert(self.spec_keys() =~= old(self).spec_keys() + old(sibling).spec_keys());
            assert(self.spec_content() =~= old(self).spec_content() + old(
                sibling,
            ).spec_content());
            let left = old(self).spec_keys();
            let right = old(sibling).spec_keys();
            if strictly_increasing(left) && strictly_increasing(right) && joins_in_order(
                false,
                left,
                parent_key,
                right,
            ) {
                lemma_concat_keeps_order(left, right);
            }
        }
    }

    fn find_slot(&self, key: u64) -> (i: usize) {
        match binary_search(self.keys(), key) {
            Ok(i) => i,
            Err(i) => i,
        }
    }

    fn contains(&self, key: u64) -> (b: bool) {
        proof {
            lemma_bounds_exist(self.spec_keys(), key);
        }
        let i = self.find_slot(key);
        let keys = self.keys();
        i < keys.len() && keys[i] == key
    }
}

} // verus!
