//! In-place moves inside fixed-capacity buffers.
//!
//! Every node keeps its entries in the live prefix of a fixed array. The three
//! primitives here are the only code that moves entries around; each one is
//! safe for overlapping source and destination ranges.

use vstd::prelude::*;

verus! {

/// Opens a gap at `at`: the entries in `[at, end)` move one slot to the right,
/// so that they occupy `[at + 1, end + 1)`. Slot `at` keeps its old entry.
///
/// The move runs from the high end down, so no entry is read after it has
/// been overwritten.
pub fn shift_right(buf: &mut [u64], at: usize, end: usize)
    requires
        at <= end < old(buf)@.len(),
    ensures
        final(buf)@.len() == old(buf)@.len(),
        forall|j: int| 0 <= j <= at ==> final(buf)@[j] == old(buf)@[j],
        forall|j: int| at < j <= end ==> final(buf)@[j] == old(buf)@[j - 1],
        forall|j: int| end < j < old(buf)@.len() ==> final(buf)@[j] == old(buf)@[j],
{
    let mut j: usize = end;
    while j > at
        invariant
            at <= j <= end < buf@.len(),
            buf@.len() == old(buf)@.len(),
            forall|k: int| 0 <= k <= j ==> buf@[k] == old(buf)@[k],
            forall|k: int| j < k <= end ==> buf@[k] == old(buf)@[k - 1],
            forall|k: int| end < k < buf@.len() ==> buf@[k] == old(buf)@[k],
        decreases j,
    {
        buf[j] = buf[j - 1];
        j = j - 1;
    }
}

/// Closes the slot at `at`: the entries in `(at, end)` move one slot to the
/// left, so that they occupy `[at, end - 1)`. Slot `end - 1` keeps its old
/// entry.
///
/// The move runs from the low end up, so no entry is read after it has been
/// overwritten.
pub fn shift_left(buf: &mut [u64], at: usize, end: usize)
    requires
        at < end <= old(buf)@.len(),
    ensures
        final(buf)@.len() == old(buf)@.len(),
        forall|j: int| 0 <= j < at ==> final(buf)@[j] == old(buf)@[j],
        forall|j: int| at <= j < end - 1 ==> final(buf)@[j] == old(buf)@[j + 1],
        forall|j: int| end - 1 <= j < old(buf)@.len() ==> final(buf)@[j] == old(buf)@[j],
{
    let mut j: usize = at;
    while j + 1 < end
        invariant
            at <= j < end <= buf@.len(),
            buf@.len() == old(buf)@.len(),
            forall|k: int| 0 <= k < at ==> buf@[k] == old(buf)@[k],
            forall|k: int| at <= k < j ==> buf@[k] == old(buf)@[k + 1],
            forall|k: int| j <= k < buf@.len() ==> buf@[k] == old(buf)@[k],
        decreases end - j,
    {
        buf[j] = buf[j + 1];
        j = j + 1;
    }
}

/// Copies `src[from..to]` into `dst`, starting at `dst[at]`. The rest of `dst`
/// is left as it was.
pub fn copy_range(dst: &mut [u64], at: usize, src: &[u64], from: usize, to: usize)
    requires
        from <= to <= src@.len(),
        at + (to - from) <= old(dst)@.len(),
    ensures
        final(dst)@.len() == old(dst)@.len(),
        forall|j: int| 0 <= j < at ==> final(dst)@[j] == old(dst)@[j],
        forall|j: int| at <= j < at + (to - from) ==> final(dst)@[j] == src@[j - at + from],
        forall|j: int|
            at + (to - from) <= j < old(dst)@.len() ==> final(dst)@[j] == old(dst)@[j],
{
    let n: usize = to - from;
    let cap: usize = dst.len();
    let mut k: usize = 0;
    while k < n
        invariant
            k <= n,
            n == to - from,
            cap == dst@.len(),
            from <= to <= src@.len(),
            at + n <= dst@.len(),
            dst@.len() == old(dst)@.len(),
            forall|j: int| 0 <= j < at ==> dst@[j] == old(dst)@[j],
            forall|j: int| at <= j < at + k ==> dst@[j] == src@[j - at + from],
            forall|j: int| at + k <= j < dst@.len() ==> dst@[j] == old(dst)@[j],
        decreases n - k,
    {
        dst[at + k] = src[from + k];
        k = k + 1;
    }
}

} // verus!
