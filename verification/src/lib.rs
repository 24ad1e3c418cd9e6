//! Node-level mechanics of a B+tree whose nodes live in fixed-size pages:
//! the two node formats, and the operations that keep them sorted and
//! balanced (insertion, splitting, removal, borrowing from a sibling and
//! merging with one).
//!
//! The tree itself, the page store and the locking of pages are the
//! caller's. A caller finds the leaf for a key by `traverse` from inner node
//! to inner node, changes it with `insert` or `remove`, and restores the fill
//! of the nodes on the way back up with `split`, `borrow` and `merge`.

pub mod array;
pub mod inner;
pub mod laws;
pub mod leaf;
pub mod node;
pub mod order;
pub mod search;
pub mod unalign;

pub use inner::InnerNode;
pub use leaf::LeafNode;
pub use mappedheap::PageId;
pub use node::Node;
pub use unalign::Unalign;
