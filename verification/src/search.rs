//! Binary search over a sorted key array.

use vstd::prelude::*;
use crate::order::{
    lemma_bounds_of_absent_key, lemma_bounds_of_present_key, is_lower_bound, lower_bound,
    strictly_increasing,
};

verus! {

/// Looks `key` up in the sorted `keys`.
///
/// `Ok(i)` says that `keys[i]` is `key`. `Err(i)` says that `key` is absent
/// and that `i` is where it has to be inserted to keep `keys` sorted.
pub fn binary_search(keys: &[u64], key: u64) -> (r: Result<usize, usize>)
    requires
        strictly_increasing(keys@),
    ensures
        match r {
            Ok(i) => i < keys@.len() && keys@[i as int] == key,
            Err(i) => i <= keys@.len() && !keys@.contains(key),
        },
        match r {
            Ok(i) => i == lower_bound(keys@, key),
            Err(i) => i == lower_bound(keys@, key),
        },
{
    let mut lo: usize = 0;
    let mut hi: usize = keys.len();
    while lo < hi
        invariant
            0 <= lo <= hi <= keys@.len(),
            strictly_increasing(keys@),
            forall|j: int| 0 <= j < lo ==> keys@[j] < key,
            forall|j: int| hi <= j < keys@.len() ==> key < keys@[j],
        decreases hi - lo,
    {
        let mid: usize = lo + (hi - lo) / 2;
        let k: u64 = keys[mid];
        if k == key {
            proof {
                lemma_bounds_of_present_key(keys@, key, mid as int);
            }
            return Ok(mid);
        } else if k < key {
            assert forall|j: int| 0 <= j < mid + 1 implies keys@[j] < key by {
                if j < mid {
                    assert(keys@[j] < keys@[mid as int]);
                }
            }
            lo = mid + 1;
        } else {
            assert forall|j: int| mid <= j < keys@.len() implies key < keys@[j] by {
                if mid < j {
                    assert(keys@[mid as int] < keys@[j]);
                }
            }
            hi = mid;
        }
    }
    proof {
        assert(is_lower_bound(keys@, key, lo as int));
        assert(!keys@.contains(key)) by {
            if keys@.contains(key) {
                let m = keys@.index_of(key);
                if m < lo {
                    assert(keys@[m] < key);
                } else {
                    assert(key < keys@[m]);
                }
            }
        }
        lemma_bounds_of_absent_key(keys@, key, lo as int);
    }
    Err(lo)
}

} // verus!
