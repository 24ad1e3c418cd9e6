//! A transparent holder for a node.

use vstd::prelude::*;
use std::ops::{Deref, DerefMut};

verus! {

/// Holds one value and hands out references to it.
///
/// Pages are addressed by byte offset, so a node that lives in a page does
/// not sit at an address of the node type's own choosing. Code that keeps
/// nodes in pages holds them through this type and reaches them by
/// dereferencing it.
#[derive(Copy, Clone)]
pub struct Unalign<T>(T);

impl<T> Unalign<T> {
    /// The value held.
    pub closed spec fn value(&self) -> T {
        self.0
    }
}

impl<T> Deref for Unalign<T> {
    type Target = T;

    fn deref(&self) -> (r: &T)
        ensures
            *r == self.value(),
    {
        &self.0
    }
}

impl<T> DerefMut for Unalign<T> {
    fn deref_mut(&mut self) -> (r: &mut T)
        ensures
            *r == old(self).value(),
            final(self).value() == *final(r),
    {
        &mut self.0
    }
}

impl<T> From<T> for Unalign<T> {
    fn from(t: T) -> (r: Unalign<T>)
        ensures
            r.value() == t,
    {
        Unalign(t)
    }
}

impl<T> vstd::std_specs::convert::FromSpecImpl<T> for Unalign<T> {
    open spec fn obeys_from_spec() -> bool {
        true
    }

    closed spec fn from_spec(t: T) -> Unalign<T> {
        Unalign(t)
    }
}

} // verus!
