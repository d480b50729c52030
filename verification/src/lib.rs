//! A sparse, integer-keyed container that keeps its values densely packed.
//!
//! [`SmallVecMap`] maps `u32` keys, chosen by the caller and possibly far
//! apart, to values. An indirection array addressed directly by key holds
//! either a sentinel ("absent") or the position of the value inside a dense
//! array of `(value, key)` pairs; removal swaps the last dense element into
//! the vacated position and repairs the moved element's indirection slot, so
//! every point operation is O(1).
//!
//! [`VecMap`] is the alternate, directly-indexed strategy: one optional slot
//! per key, no compaction, for execution environments where the dense inline
//! layout cannot be trusted. Both strategies implement [`UniformMap`], so
//! call sites can stay polymorphic over "a mapping from an integer key to a
//! value".
//!
//! The contracts state each operation's effect on the abstract contents (a
//! finite `Map<u32, T>`); the [`history`] module lifts them to whole
//! operation sequences.

mod backing;
pub mod history;
pub mod sentinel;
pub mod smallvecmap;
pub mod uniform;
pub mod vecmap;

pub use smallvecmap::Arr;
pub use smallvecmap::SmallVecMap;
pub use uniform::UniformMap;
pub use vecmap::VecMap;
pub use vecmap::VecMapIter;
pub use vecmap::VecMapIterMut;
