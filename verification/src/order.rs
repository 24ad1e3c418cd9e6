//! Sorted key sequences: what it means for a key array to be in order, and
//! where a key belongs in one.

use vstd::prelude::*;

verus! {

/// Every key is smaller than all keys after it. This is the order that both
/// node kinds keep their keys in; it rules out duplicates.
pub open spec fn strictly_increasing(s: Seq<u64>) -> bool {
    forall|i: int, j: int| 0 <= i < j < s.len() ==> s[i] < s[j]
}

/// `i` parts `s` into the keys below `key`, in front of `i`, and the keys
/// that are at least `key`, from `i` on.
pub open spec fn is_lower_bound(s: Seq<u64>, key: u64, i: int) -> bool {
    &&& 0 <= i <= s.len()
    &&& forall|j: int| 0 <= j < i ==> s[j] < key
    &&& forall|j: int| i <= j < s.len() ==> key <= s[j]
}

/// `i` parts `s` into the keys that are at most `key`, in front of `i`, and
/// the keys above `key`, from `i` on.
pub open spec fn is_upper_bound(s: Seq<u64>, key: u64, i: int) -> bool {
    &&& 0 <= i <= s.len()
    &&& forall|j: int| 0 <= j < i ==> s[j] <= key
    &&& forall|j: int| i <= j < s.len() ==> key < s[j]
}

/// The index of `key` in a sorted `s` if it is there, and else the index at
/// which it has to be inserted to keep `s` sorted.
pub open spec fn lower_bound(s: Seq<u64>, key: u64) -> int {
    choose|i: int| is_lower_bound(s, key, i)
}

/// The index just behind `key` in a sorted `s` if it is there, and else the
/// index at which it has to be inserted to keep `s` sorted.
pub open spec fn upper_bound(s: Seq<u64>, key: u64) -> int {
    choose|i: int| is_upper_bound(s, key, i)
}

/// A sequence has at most one lower bound for a key.
pub proof fn lemma_lower_bound_unique(s: Seq<u64>, key: u64, i: int)
    requires
        is_lower_bound(s, key, i),
    ensures
        lower_bound(s, key) == i,
{
    let c = lower_bound(s, key);
    assert(is_lower_bound(s, key, c));
    if c < i {
        assert(s[c] < key);
    } else if i < c {
        assert(s[i] < key);
    }
}

/// A sequence has at most one upper bound for a key.
pub proof fn lemma_upper_bound_unique(s: Seq<u64>, key: u64, i: int)
    requires
        is_upper_bound(s, key, i),
    ensures
        upper_bound(s, key) == i,
{
    let c = upper_bound(s, key);
    assert(is_upper_bound(s, key, c));
    if c < i {
        assert(s[c] <= key);
    } else if i < c {
        assert(s[i] <= key);
    }
}

/// In a sorted sequence the two bounds of a key that it holds enclose exactly
/// that key.
pub proof fn lemma_bounds_of_present_key(s: Seq<u64>, key: u64, m: int)
    requires
        strictly_increasing(s),
        0 <= m < s.len(),
        s[m] == key,
    ensures
        lower_bound(s, key) == m,
        upper_bound(s, key) == m + 1,
{
    assert(is_lower_bound(s, key, m));
    assert(is_upper_bound(s, key, m + 1));
    lemma_lower_bound_unique(s, key, m);
    lemma_upper_bound_unique(s, key, m + 1);
}

/// For a key that a sequence does not hold, the two bounds coincide.
pub proof fn lemma_bounds_of_absent_key(s: Seq<u64>, key: u64, i: int)
    requires
        is_lower_bound(s, key, i),
        !s.contains(key),
    ensures
        lower_bound(s, key) == i,
        upper_bound(s, key) == i,
{
    assert forall|j: int| i <= j < s.len() implies key < s[j] by {
        assert(s.contains(s[j]));
    }
    assert(is_upper_bound(s, key, i));
    lemma_lower_bound_unique(s, key, i);
    lemma_upper_bound_unique(s, key, i);
}

/// Every sorted sequence has both bounds for every key, and they are at most
/// one apart.
pub proof fn lemma_bounds_exist(s: Seq<u64>, key: u64)
    requires
        strictly_increasing(s),
    ensures
        is_lower_bound(s, key, lower_bound(s, key)),
        is_upper_bound(s, key, upper_bound(s, key)),
        s.contains(key) ==> upper_bound(s, key) == lower_bound(s, key) + 1
            && s[lower_bound(s, key)] == key,
        !s.contains(key) ==> upper_bound(s, key) == lower_bound(s, key),
    decreases s.len(),
{
    if s.len() == 0 {
        assert(is_lower_bound(s, key, 0));
        assert(is_upper_bound(s, key, 0));
        lemma_bounds_of_absent_key(s, key, 0);
    } else {
        let t = s.drop_last();
        assert(strictly_increasing(t));
        lemma_bounds_exist(t, key);
        let n = s.len() - 1;
        let l = lower_bound(t, key);
        let witness = if s[n] < key { n + 1 } else { l };
        assert forall|j: int| 0 <= j < n implies s[j] == t[j] by {}
        if s[n] < key {
            assert forall|j: int| 0 <= j < n + 1 implies s[j] < key by {
                if j < n {
                    assert(s[j] < s[n]);
                }
            }
        } else {
            assert forall|j: int| l <= j < s.len() implies key <= s[j] by {
                if j < n {
                    assert(t[j] == s[j]);
                }
            }
            assert forall|j: int| 0 <= j < l implies s[j] < key by {
                assert(t[j] == s[j]);
            }
        }
        assert(is_lower_bound(s, key, witness));
        lemma_lower_bound_unique(s, key, witness);
        if s.contains(key) {
            let m = s.index_of(key);
            lemma_bounds_of_present_key(s, key, m);
            assert(is_upper_bound(s, key, m + 1));
        } else {
            lemma_bounds_of_absent_key(s, key, witness);
            assert(is_upper_bound(s, key, witness));
        }
    }
}

/// Inserting a key between a smaller left neighbour and a larger right
/// neighbour keeps a sequence sorted.
pub proof fn lemma_insert_keeps_order(s: Seq<u64>, i: int, key: u64)
    requires
        strictly_increasing(s),
        0 <= i <= s.len(),
        i > 0 ==> s[i - 1] < key,
        i < s.len() ==> key < s[i],
    ensures
        strictly_increasing(s.insert(i, key)),
{
    let t = s.insert(i, key);
    assert forall|a: int, b: int| 0 <= a < b < t.len() implies t[a] < t[b] by {
        if b < i {
        } else if b == i {
            assert(s[a] <= s[i - 1]);
        } else if a < i {
            assert(s[a] <= s[i - 1]);
            assert(s[i] <= s[b - 1]);
        } else if a == i {
            assert(s[i] <= s[b - 1]);
        } else {
            assert(s[a - 1] < s[b - 1]);
        }
    }
}

/// Taking a key out keeps a sequence sorted.
pub proof fn lemma_remove_keeps_order(s: Seq<u64>, i: int)
    requires
        strictly_increasing(s),
        0 <= i < s.len(),
    ensures
        strictly_increasing(s.remove(i)),
{
    let t = s.remove(i);
    assert forall|a: int, b: int| 0 <= a < b < t.len() implies t[a] < t[b] by {
        let a0 = if a < i { a } else { a + 1 };
        let b0 = if b < i { b } else { b + 1 };
        assert(s[a0] < s[b0]);
    }
}

/// Each contiguous part of a sorted sequence is sorted.
pub proof fn lemma_subrange_keeps_order(s: Seq<u64>, from: int, to: int)
    requires
        strictly_increasing(s),
        0 <= from <= to <= s.len(),
    ensures
        strictly_increasing(s.subrange(from, to)),
{
    let t = s.subrange(from, to);
    assert forall|a: int, b: int| 0 <= a < b < t.len() implies t[a] < t[b] by {
        assert(s[from + a] < s[from + b]);
    }
}

/// Two sorted sequences, the first all below the second, join to a sorted
/// one.
pub proof fn lemma_concat_keeps_order(a: Seq<u64>, b: Seq<u64>)
    requires
        strictly_increasing(a),
        strictly_increasing(b),
        a.len() > 0 && b.len() > 0 ==> a.last() < b.first(),
    ensures
        strictly_increasing(a + b),
{
    let t = a + b;
    assert forall|x: int, y: int| 0 <= x < y < t.len() implies t[x] < t[y] by {
        if y < a.len() {
        } else if x >= a.len() {
            assert(b[x - a.len()] < b[y - a.len()]);
        } else {
            assert(a[x] <= a.last());
            assert(b.first() <= b[y - a.len()]);
        }
    }
}

} // verus!
