//! The uniform mapping interface.
//!
//! Several differently-shaped containers map an integer key to a value;
//! this trait lets call sites stay polymorphic over which one backs them.
//! Both storage strategies of this crate implement it with `Key = u32`.

use vstd::prelude::*;

use crate::smallvecmap::SmallVecMap;
use crate::vecmap::VecMap;

verus! {

/// A mapping from an integer key to a value, with O(1) point operations.
pub trait UniformMap: Sized {
    /// The key type.
    type Key;

    /// The value type.
    type Val;

    /// The abstract contents: a finite map from keys to values.
    spec fn as_map(&self) -> Map<Self::Key, Self::Val>;

    /// Structural well-formedness, established by construction and kept by
    /// every operation.
    spec fn wf(&self) -> bool;

    /// The keys the container accepts for insertion.
    spec fn valid_key(key: Self::Key) -> bool;

    /// Creates an empty container with a capacity hint.
    fn with_capacity(capacity: usize) -> (r: Self)
        ensures
            r.wf(),
            r.as_map() == Map::<Self::Key, Self::Val>::empty(),
    ;

    /// The stored value under `key`, or absent.
    fn get(&self, key: &Self::Key) -> (r: Option<&Self::Val>)
        requires
            self.wf(),
        ensures
            self.as_map().dom().contains(*key) ==> (r matches Some(v) && *v == self.as_map()[*key]),
            !self.as_map().dom().contains(*key) ==> r is None,
    ;

    /// A mutable reference to the stored value under `key`, or absent.
    fn get_mut(&mut self, key: &Self::Key) -> (r: Option<&mut Self::Val>)
        requires
            old(self).wf(),
        ensures
            final(self).wf(),
            !old(self).as_map().dom().contains(*key) ==> (r is None && final(self).as_map() == old(
                self,
            ).as_map()),
            old(self).as_map().dom().contains(*key) ==> (r is Some
                && *r.unwrap() == old(self).as_map()[*key]
                && final(self).as_map() =~= old(self).as_map().insert(*key, *final(r.unwrap()))),
    ;

    /// The stored value under `key`, which must be live.
    fn get_unchecked(&self, key: &Self::Key) -> (r: &Self::Val)
        requires
            self.wf(),
            self.as_map().dom().contains(*key),
        ensures
            *r == self.as_map()[*key],
    ;

    /// A mutable reference to the value under `key`, which must be live.
    fn get_unchecked_mut(&mut self, key: &Self::Key) -> (r: &mut Self::Val)
        requires
            old(self).wf(),
            old(self).as_map().dom().contains(*key),
        ensures
            final(self).wf(),
            *r == old(self).as_map()[*key],
            final(self).as_map() =~= old(self).as_map().insert(*key, *final(r)),
    ;

    /// Removes the value under `key`, which must be live, and returns it.
    fn remove_unchecked(&mut self, key: &Self::Key) -> (r: Self::Val)
        requires
            old(self).wf(),
            old(self).as_map().dom().contains(*key),
        ensures
            final(self).wf(),
            r == old(self).as_map()[*key],
            final(self).as_map() == old(self).as_map().remove(*key),
    ;

    /// Inserts `val` under `key` and returns the displaced value, if any.
    fn insert(&mut self, key: Self::Key, val: Self::Val) -> (r: Option<Self::Val>)
        requires
            old(self).wf(),
            Self::valid_key(key),
        ensures
            final(self).wf(),
            final(self).as_map() == old(self).as_map().insert(key, val),
            r == (if old(self).as_map().dom().contains(key) {
                Some(old(self).as_map()[key])
            } else {
                None::<Self::Val>
            }),
    ;

    /// Removes the value under `key` and returns it, or absent.
    fn remove(&mut self, key: &Self::Key) -> (r: Option<Self::Val>)
        requires
            old(self).wf(),
        ensures
            final(self).wf(),
            final(self).as_map() == old(self).as_map().remove(*key),
            r == (if old(self).as_map().dom().contains(*key) {
                Some(old(self).as_map()[*key])
            } else {
                None::<Self::Val>
            }),
    ;

    /// Whether a value is stored under `key`.
    fn contains(&self, key: &Self::Key) -> (r: bool)
        requires
            self.wf(),
        ensures
            r == self.as_map().dom().contains(*key),
    ;

    /// The number of stored values.
    fn len(&self) -> (r: usize)
        requires
            self.wf(),
        ensures
            r == self.as_map().dom().len(),
    ;

    /// How many keys fit before a reallocation.
    fn capacity(&self) -> (r: usize)
        requires
            self.wf(),
    ;

    /// A memory-footprint estimate: backing capacity times the value size.
    fn mem_size(&self) -> (r: usize)
        requires
            self.wf(),
    ;
}

impl<T, const N: usize> UniformMap for SmallVecMap<T, N> {
    type Key = u32;

    type Val = T;

    open spec fn as_map(&self) -> Map<u32, T> {
        self.view()
    }

    open spec fn wf(&self) -> bool {
        self.inv()
    }

    open spec fn valid_key(key: u32) -> bool {
        key < u32::MAX
    }

    fn with_capacity(capacity: usize) -> (r: Self) {
        SmallVecMap::with_capacity(capacity)
    }

    fn get(&self, key: &u32) -> (r: Option<&T>) {
        self.get(*key)
    }

    fn get_mut(&mut self, key: &u32) -> (r: Option<&mut T>) {
        self.get_mut(*key)
    }

    fn get_unchecked(&self, key: &u32) -> (r: &T) {
        self.get_unchecked(*key)
    }

    fn get_unchecked_mut(&mut self, key: &u32) -> (r: &mut T) {
        self.get_unchecked_mut(*key)
    }

    fn remove_unchecked(&mut self, key: &u32) -> (r: T) {
        self.remove_unchecked(*key)
    }

    fn insert(&mut self, key: u32, val: T) -> (r: Option<T>) {
        self.insert(key, val)
    }

    fn remove(&mut self, key: &u32) -> (r: Option<T>) {
        self.remove(*key)
    }

    fn contains(&self, key: &u32) -> (r: bool) {
        self.contains(*key)
    }

    fn len(&self) -> (r: usize) {
        self.len()
    }

    fn capacity(&self) -> (r: usize) {
        self.capacity()
    }

    fn mem_size(&self) -> (r: usize) {
        self.mem_size()
    }
}

impl<T> UniformMap for VecMap<T> {
    type Key = u32;

    type Val = T;

    open spec fn as_map(&self) -> Map<u32, T> {
        self.view()
    }

    open spec fn wf(&self) -> bool {
        self.inv()
    }

    open spec fn valid_key(key: u32) -> bool {
        key < u32::MAX
    }

    fn with_capacity(capacity: usize) -> (r: Self) {
        VecMap::with_capacity(capacity)
    }

    fn get(&self, key: &u32) -> (r: Option<&T>) {
        self.get(*key)
    }

    fn get_mut(&mut self, key: &u32) -> (r: Option<&mut T>) {
        self.get_mut(*key)
    }

    fn get_unchecked(&self, key: &u32) -> (r: &T) {
        self.get_unchecked(*key)
    }

    fn get_unchecked_mut(&mut self, key: &u32) -> (r: &mut T) {
        self.get_unchecked_mut(*key)
    }

    fn remove_unchecked(&mut self, key: &u32) -> (r: T) {
        self.remove_unchecked(*key)
    }

    fn insert(&mut self, key: u32, val: T) -> (r: Option<T>) {
        self.insert(key, val)
    }

    fn remove(&mut self, key: &u32) -> (r: Option<T>) {
        self.remove(*key)
    }

    fn contains(&self, key: &u32) -> (r: bool) {
        self.contains(*key)
    }

    fn len(&self) -> (r: usize) {
        self.len()
    }

    fn capacity(&self) -> (r: usize) {
        self.capacity()
    }

    fn mem_size(&self) -> (r: usize) {
        self.mem_size()
    }
}

} // verus!
