//! Inner nodes: sorted separator keys that route a search to child pages.

use vstd::prelude::*;
use mappedheap::PageId;
use crate::array::{copy_range, shift_left, shift_right};
use crate::laws::{lemma_rotation_conserves_keys, lemma_shift_conserves_entries};
use crate::node::{fits_at, joins_in_order, Node};
use crate::order::{
    lemma_bounds_exist, lemma_concat_keeps_order, lemma_insert_keeps_order,
    lemma_remove_keeps_order, lemma_subrange_keeps_order, strictly_increasing, upper_bound,
};
use crate::search::binary_search;

verus! {

/// A node of separator keys and child pages.
///
/// With `n` keys the node has `n + 1` children. Child `i` covers the keys
/// from key `i - 1` up to, and not including, key `i`: child 0 covers all
/// keys below the first separator, child `n` all keys from the last
/// separator on.
///
/// The keys and children live in the front of two fixed arrays; what lies
/// behind the live part is never read.
pub struct InnerNode {
    count_: u16,
    keys: [u64; 255],
    children: [PageId; 256],
}

impl InnerNode {
    #[verifier::type_invariant]
    spec fn inv(&self) -> bool {
        self.count_ <= 255
    }

    /// The live separator keys, in slot order.
    pub closed spec fn separators(&self) -> Seq<u64> {
        self.keys@.subrange(0, self.count_ as int)
    }

    /// The live children, in slot order: one more than there are keys.
    pub closed spec fn children(&self) -> Seq<PageId> {
        self.children@.subrange(0, self.count_ as int + 1)
    }

    /// A node without keys, whose only child is `init_prev`.
    pub fn new(init_prev: PageId) -> (node: InnerNode)
        ensures
            node.spec_keys() == Seq::<u64>::empty(),
            node.spec_content() == seq![init_prev],
    {
        let mut node = InnerNode { count_: 0, keys: [0u64; 255], children: [0u64; 256] };
        node.children[0] = init_prev;
        assert(node.spec_keys() =~= Seq::<u64>::empty());
        assert(node.spec_content() =~= seq![init_prev]);
        node
    }

    /// The child to descend into on the way to `key`.
    pub fn traverse(&self, key: u64) -> (child: PageId)
        requires
            strictly_increasing(self.spec_keys()),
        ensures
            child == self.spec_content()[upper_bound(self.spec_keys(), key)],
            0 <= upper_bound(self.spec_keys(), key) <= self.spec_keys().len(),
    {
        let i = self.find_slot(key);
        let content = self.content();
        content[i]
    }

    /// Overwrites the live key in slot `i` and returns the key that was
    /// there.
    pub(crate) fn replace_key(&mut self, i: usize, key: u64) -> (was: u64)
        requires
            i < old(self).separators().len(),
        ensures
            was == old(self).separators()[i as int],
            final(self).separators() == old(self).separators().update(i as int, key),
            final(self).children() == old(self).children(),
    {
        proof {
            use_type_invariant(&*self);
        }
        let was = self.keys[i];
        self.keys[i] = key;
        assert(self.spec_keys() =~= old(self).spec_keys().update(i as int, key));
        was
    }
}

impl Node<PageId> for InnerNode {
    open spec fn routing() -> bool {
        true
    }

    open spec fn spec_keys(&self) -> Seq<u64> {
        self.separators()
    }

    open spec fn spec_content(&self) -> Seq<PageId> {
        self.children()
    }

    open spec fn spec_link(&self) -> Option<PageId> {
        None
    }

    fn keys(&self) -> (r: &[u64]) {
        proof {
            use_type_invariant(self);
        }
        let n: usize = self.count_ as usize;
        vstd::slice::slice_subrange(self.keys.as_slice(), 0, n)
    }

    fn content(&self) -> (r: &[PageId]) {
        proof {
            use_type_invariant(self);
        }
        let n: usize = self.count_ as usize + 1;
        vstd::slice::slice_subrange(self.children.as_slice(), 0, n)
    }

    fn content_mut(&mut self) -> (r: &mut [PageId]) {
        proof {
            use_type_invariant(&*self);
        }
        let n: usize = self.count_ as usize + 1;
        let (live, rest) = self.children.split_at_mut(n);
        proof {
            // the array keeps its length, and with it the live part does
            assert(final(self).children@.len() == 256);
            assert(final(self).children@ == final(live)@ + rest@);
            assert(final(live)@.len() == n);
            assert((final(live)@ + rest@).subrange(0, n as int) =~= final(live)@);
        }
        live
    }

    fn count(&self) -> (n: usize) {
        proof {
            use_type_invariant(self);
        }
        self.count_ as usize
    }

    fn insert_idx(&mut self, i: usize, key: u64, newpage: PageId) {
        proof {
            use_type_invariant(&*self);
        }
        let n: usize = self.count_ as usize;
        shift_right(&mut self.keys, i, n);
        shift_right(&mut self.children, i + 1, n + 1);
        self.keys[i] = key;
        self.children[i + 1] = newpage;
        self.count_ = self.count_ + 1;
        proof {
            assert(self.spec_keys() =~= old(self).spec_keys().insert(i as int, key));
            assert(self.spec_content() =~= old(self).spec_content().insert(i + 1, newpage));
            if strictly_increasing(old(self).spec_keys()) && fits_at(
                old(self).spec_keys(),
                i as int,
                key,
            ) {
                lemma_insert_keeps_order(old(self).spec_keys(), i as int, key);
            }
        }
    }

    fn remove(&mut self, key: u64) -> (r: Option<PageId>) {
        proof {
            use_type_invariant(&*self);
            lemma_bounds_exist(self.spec_keys(), key);
        }
        let i = self.find_slot(key);
        if i > 0 && self.keys[i - 1] == key {
            Some(self.remove_idx(i - 1).1)
        } else {
            proof {
                let s = self.spec_keys();
                if s.contains(key) {
                    assert(s[i - 1] == key);
                }
            }
            None
        }
    }

    fn remove_idx(&mut self, i: usize) -> (r: (u64, PageId)) {
        proof {
            use_type_invariant(&*self);
        }
        let n: usize = self.count_ as usize;
        let ret = (self.keys[i], self.children[i + 1]);
        shift_left(&mut self.keys, i, n);
        shift_left(&mut self.children, i + 1, n + 1);
        self.count_ = self.count_ - 1;
        proof {
            assert(self.spec_keys() =~= old(self).spec_keys().remove(i as int));
            assert(self.spec_content() =~= old(self).spec_content().remove(i + 1));
            if strictly_increasing(old(self).spec_keys()) {
                lemma_remove_keeps_order(old(self).spec_keys(), i as int);
            }
        }
        ret
    }

    fn split(&mut self, key: &mut u64, newval: PageId, target_id: PageId) -> (right: InnerNode)
        ensures
            !old(self).spec_keys().contains(*old(key)) ==> !final(self).spec_keys().contains(
                *final(key),
            ) && !right.spec_keys().contains(*final(key)),
            final(self).spec_content().len() == final(self).spec_keys().len() + 1,
            right.spec_content().len() == right.spec_keys().len() + 1,
            final(self).spec_keys().len() == 127 && right.spec_keys().len() == 128
                || final(self).spec_keys().len() == 129 && right.spec_keys().len() == 126,
    {
        proof {
            use_type_invariant(&*self);
            lemma_bounds_exist(self.spec_keys(), *key);
        }
        let newkey = *key;
        let mut target = InnerNode { count_: 0, keys: [0u64; 255], children: [0u64; 256] };
        let i = self.find_slot(newkey);
        let ghost all_keys = self.spec_keys().insert(i as int, newkey);
        let ghost all_content = self.spec_content().insert(i + 1, newval);
        if i > 128 {
            *key = self.keys[127];
            let before: usize = i - 128;
            copy_range(&mut target.keys, 0, &self.keys, 128, i);
            copy_range(&mut target.children, 0, &self.children, 128, i + 1);
            target.keys[before] = newkey;
            target.children[before + 1] = newval;
            copy_range(&mut target.keys, before + 1, &self.keys, i, 255);
            copy_range(&mut target.children, before + 2, &self.children, i + 1, 256);
            self.count_ = 127;
            target.count_ = 128;
            proof {
                assert(self.spec_keys() =~= all_keys.subrange(0, 127));
                assert(target.spec_keys() =~= all_keys.subrange(128, 256));
                assert(self.spec_content() =~= all_content.subrange(0, 128));
                assert(target.spec_content() =~= all_content.subrange(128, 257));
            }
        } else {
            *key = self.keys[128];
            copy_range(&mut target.keys, 0, &self.keys, 129, 255);
            copy_range(&mut target.children, 0, &self.children, 129, 256);
            shift_right(&mut self.keys, i, 128);
            shift_right(&mut self.children, i + 1, 129);
            self.keys[i] = newkey;
            self.children[i + 1] = newval;
            self.count_ = 129;
            target.count_ = 126;
            proof {
                assert(self.spec_keys() =~= all_keys.subrange(0, 129));
                assert(target.spec_keys() =~= all_keys.subrange(130, 256));
                assert(self.spec_content() =~= all_content.subrange(0, 130));
                assert(target.spec_content() =~= all_content.subrange(130, 257));
            }
        }
        proof {
            let s = old(self).spec_keys();
            if !s.contains(newkey) {
                if i > 0 {
                    assert(s.contains(s[i - 1]));
                }
                lemma_insert_keeps_order(s, i as int, newkey);
                lemma_subrange_keeps_order(all_keys, 0, self.count_ as int);
                lemma_subrange_keeps_order(all_keys, self.count_ as int + 1, 256);
                let cut = self.count_ as int;
                assert forall|j: int| 0 <= j < self.spec_keys().len() implies self.spec_keys()[j]
                    != *key by {
                    assert(all_keys[j] < all_keys[cut]);
                }
                assert forall|j: int| 0 <= j < target.spec_keys().len() implies target.spec_keys()[j]
                    != *key by {
                    assert(all_keys[cut] < all_keys[cut + 1 + j]);
                }
            }
        }
        target
    }

    fn borrow(
        &mut self,
        parent: &mut InnerNode,
        parent_slot: usize,
        sibling: &mut InnerNode,
        is_right: bool,
    ) {
        proof {
            use_type_invariant(&*self);
            use_type_invariant(&*sibling);
        }
        if is_right {
            let at: usize = self.count_ as usize;
            let (up, page) = sibling.remove_idx(0);
            proof {
                use_type_invariant(&*sibling);
            }
            let down = parent.replace_key(parent_slot, up);
            let first = sibling.children[0];
            let ghost rest = sibling.spec_content();
            assert(first == rest[0] && rest[0] == old(sibling).spec_content()[0]);
            sibling.children[0] = page;
            self.insert_idx(at, down, first);
            proof {
                assert(sibling.spec_content() =~= rest.update(0, page));
                assert(sibling.spec_keys() =~= old(sibling).spec_keys().drop_first());
                assert(sibling.spec_content() =~= old(sibling).spec_content().drop_first());
                assert(self.spec_keys() =~= old(self).spec_keys().push(down));
                assert(self.spec_content() =~= old(self).spec_content().push(first));
                assert(old(self).spec_keys().push(down).last() == down);
                lemma_rotation_conserves_keys(
                    old(parent).separators(),
                    parent_slot as int,
                    old(self).spec_keys(),
                    old(sibling).spec_keys(),
                    true,
                );
                lemma_shift_conserves_entries(
                    old(self).spec_content(),
                    old(sibling).spec_content(),
                    true,
                );
            }
        } else {
            let last: usize = sibling.count_ as usize - 1;
            let (up, page) = sibling.remove_idx(last);
            proof {
                use_type_invariant(&*sibling);
            }
            let down = parent.replace_key(parent_slot - 1, up);
            let first = self.children[0];
            let ghost rest = self.spec_content();
            self.children[0] = page;
            proof {
                assert(self.spec_content() =~= rest.update(0, page));
            }
            self.insert_idx(0, down, first);
            proof {
                assert(sibling.spec_keys() =~= old(sibling).spec_keys().drop_last());
                assert(sibling.spec_content() =~= old(sibling).spec_content().drop_last());
                assert(self.spec_content() =~= old(self).spec_content().insert(0, page));
                lemma_rotation_conserves_keys(
                    old(parent).separators(),
                    parent_slot - 1,
                    old(self).spec_keys(),
                    old(sibling).spec_keys(),
                    false,
                );
                lemma_shift_conserves_entries(
                    old(self).spec_content(),
                    old(sibling).spec_content(),
                    false,
                );
            }
        }
    }

    fn merge(&mut self, sibling: &mut InnerNode, parent_key: u64) {
        proof {
            use_type_invariant(&*self);
            use_type_invariant(&*sibling);
        }
        let n: usize = self.count_ as usize;
        let m: usize = sibling.count_ as usize;
        copy_range(&mut self.keys, n + 1, &sibling.keys, 0, m);
        copy_range(&mut self.children, n + 1, &sibling.children, 0, m + 1);
        self.keys[n] = parent_key;
        self.count_ = self.count_ + sibling.count_ + 1;
        proof {
            assert(self.spec_keys() =~= old(self).spec_keys().push(parent_key) + old(
                sibling,
            ).spec_keys());
            assert(self.spec_content() =~= old(self).spec_content() + old(
                sibling,
            ).spec_content());
            let left = old(self).spec_keys();
            let right = old(sibling).spec_keys();
            if strictly_increasing(left) && strictly_increasing(right) && joins_in_order(
                true,
                left,
                parent_key,
                right,
            ) {
                lemma_insert_keeps_order(left, left.len() as int, parent_key);
                assert(left.insert(left.len() as int, parent_key) =~= left.push(parent_key));
                lemma_concat_keeps_order(left.push(parent_key), right);
            }
        }
    }

    fn find_slot(&self, key: u64) -> (i: usize) {
        proof {
            lemma_bounds_exist(self.spec_keys(), key);
        }
        match binary_search(self.keys(), key) {
            Ok(i) => i + 1,
            Err(i) => i,
        }
    }

    fn contains(&self, key: u64) -> (b: bool) {
        proof {
            lemma_bounds_exist(self.spec_keys(), key);
        }
        let i = self.find_slot(key);
        let keys = self.keys();
        let b = i > 0 && keys[i - 1] == key;
        proof {
            let s = self.spec_keys();
            if s.contains(key) {
                assert(s[i - 1] == key);
            }
        }
        b
    }
}

} // verus!
