//! The dense-plus-indirection storage strategy.
//!
//! `SmallVecMap` keeps an indirection array (`indexs`) addressed directly by
//! key, each slot holding either the sentinel or a position into a dense
//! array (`entries`) of `(value, original key)` pairs. Storing the original
//! key beside each value lets a swap-removal repair the indirection slot of
//! the element that was moved into the vacated position.

use vstd::prelude::*;

use crate::sentinel::is_null_u32;
use crate::sentinel::null_u32;
use crate::sentinel::spec_null_u32;

verus! {

/// Marker for the preferred inline element count of the dense array.
///
/// `N` is the number of dense slots the map reserves up front, before any
/// spill to further heap growth.
pub struct Arr<T, const N: usize>([(T, u32); N]);

impl<T, const N: usize> Arr<T, N> {
    /// The inline element count `N`.
    pub fn size() -> (r: usize)
        ensures
            r == N,
    {
        N
    }
}

/// A sparse map from `u32` keys to values of type `T`, backed by a dense
/// value array plus an indirection array.
#[derive(Debug, Hash, Clone)]
pub struct SmallVecMap<T, const N: usize> {
    indexs: Vec<u32>,
    entries: Vec<(T, u32)>,
}

impl<T, const N: usize> SmallVecMap<T, N> {
    /// The indirection array: one slot per key below the high-water mark,
    /// holding either the sentinel or a position into the dense array.
    pub closed spec fn indirection(&self) -> Seq<u32> {
        self.indexs@
    }

    /// The dense array of `(value, original key)` pairs, in iteration order.
    pub closed spec fn dense(&self) -> Seq<(T, u32)> {
        self.entries@
    }

    /// The key stored with the last dense element: the element that a
    /// swap-removal moves into the vacated position.
    pub closed spec fn last_dense_key(&self) -> u32 {
        self.entries@.last().1
    }

    spec fn spec_contains(&self, key: u32) -> bool {
        key < self.indexs@.len() && self.indexs@[key as int] != spec_null_u32()
    }

    spec fn value_at(&self, key: u32) -> T {
        self.entries@[self.indexs@[key as int] as int].0
    }

    /// The keys of the dense elements, in dense order.
    spec fn keys(&self) -> Seq<u32> {
        Seq::new(self.entries@.len(), |p: int| self.entries@[p].1)
    }

    /// Structural well-formedness: the indirection and dense arrays point at
    /// each other consistently.
    pub closed spec fn inv(&self) -> bool {
        &&& self.indexs@.len() <= u32::MAX as int
        &&& self.entries@.len() <= self.indexs@.len()
        &&& (forall|p: int|
            0 <= p < self.entries@.len() ==> (#[trigger] self.entries@[p]).1
                < self.indexs@.len() && self.indexs@[self.entries@[p].1 as int] == p as u32)
        &&& (forall|k: int|
            0 <= k < self.indexs@.len() && (#[trigger] self.indexs@[k]) != spec_null_u32()
                ==> self.indexs@[k] < self.entries@.len()
                && self.entries@[self.indexs@[k] as int].1 == k as u32)
    }

    /// The dense keys never repeat: each one's indirection slot holds its
    /// own dense position.
    proof fn lemma_keys_no_duplicates(self)
        requires
            self.inv(),
        ensures
            self.keys().no_duplicates(),
    {
        let ks = self.keys();
        assert forall|p: int, q: int|
            0 <= p < ks.len() && 0 <= q < ks.len() && p != q implies ks[p] != ks[q] by {
            assert(self.indexs@[self.entries@[p].1 as int] == p as u32);
            assert(self.indexs@[self.entries@[q].1 as int] == q as u32);
        }
    }

    /// The abstract domain is exactly the set of dense keys, so its
    /// cardinality is the dense length.
    proof fn lemma_dom_card(self)
        requires
            self.inv(),
        ensures
            self@.dom().finite(),
            self@.dom().len() == self.entries@.len(),
    {
        broadcast use vstd::seq_lib::seq_to_set_is_finite;

        let ks = self.keys();
        self.lemma_keys_no_duplicates();
        assert(self@.dom() =~= ks.to_set()) by {
            assert forall|k: u32| self@.dom().contains(k) implies ks.to_set().contains(k) by {
                let p = self.indexs@[k as int] as int;
                assert(self.entries@[p].1 == k);
                assert(0 <= p < ks.len() && ks[p] == k);
            }
            assert forall|k: u32| ks.to_set().contains(k) implies self@.dom().contains(k) by {
                let p = choose|p: int| 0 <= p < ks.len() && ks[p] == k;
                assert(self.indexs@[self.entries@[p].1 as int] == p as u32);
            }
        }
        ks.unique_seq_to_set();
    }

    /// A vacant in-range slot leaves room in the dense array: the dense keys
    /// plus the vacant key all fit below the indirection length.
    proof fn lemma_room(self, key: u32)
        requires
            self.inv(),
            key < self.indexs@.len(),
            self.indexs@[key as int] == spec_null_u32(),
        ensures
            self.entries@.len() < self.indexs@.len(),
    {
        broadcast use vstd::seq_lib::seq_to_set_is_finite;

        let n = self.indexs@.len() as int;
        let ki = Seq::new(self.entries@.len(), |p: int| self.entries@[p].1 as int);
        assert forall|p: int, q: int|
            0 <= p < ki.len() && 0 <= q < ki.len() && p != q implies ki[p] != ki[q] by {
            assert(self.indexs@[self.entries@[p].1 as int] == p as u32);
            assert(self.indexs@[self.entries@[q].1 as int] == q as u32);
        }
        assert(!ki.to_set().contains(key as int)) by {
            if ki.to_set().contains(key as int) {
                let p = choose|p: int| 0 <= p < ki.len() && ki[p] == key as int;
                assert(self.indexs@[self.entries@[p].1 as int] == p as u32);
            }
        }
        let s = ki.to_set().insert(key as int);
        ki.unique_seq_to_set();
        vstd::set_lib::lemma_int_range(0, n);
        assert(s.subset_of(vstd::set_lib::set_int_range(0, n))) by {
            assert forall|x: int| s.contains(x) implies 0 <= x < n by {
                if x != key as int {
                    let p = choose|p: int| 0 <= p < ki.len() && ki[p] == x;
                    assert((self.entries@[p]).1 < self.indexs@.len());
                }
            }
        }
        vstd::set_lib::lemma_len_subset(s, vstd::set_lib::set_int_range(0, n));
    }

    /// Creates an empty map, reserving the inline element count up front.
    pub fn new() -> (r: Self)
        ensures
            r.inv(),
            r@ == Map::<u32, T>::empty(),
            r.indirection().len() == 0,
            r.dense().len() == 0,
    {
        SmallVecMap::with_capacity(0)
    }

    /// Creates an empty map with a pre-reserved indirection capacity hint.
    pub fn with_capacity(capacity: usize) -> (r: Self)
        ensures
            r.inv(),
            r@ == Map::<u32, T>::empty(),
            r.indirection().len() == 0,
            r.dense().len() == 0,
    {
        let r = SmallVecMap { indexs: Vec::with_capacity(capacity), entries: Vec::with_capacity(
            Arr::<T, N>::size(),
        ) };
        proof {
            assert(r@ =~= Map::<u32, T>::empty());
        }
        r
    }

    /// Whether a value is stored under `index`.
    pub fn contains(&self, index: u32) -> (r: bool)
        requires
            self.inv(),
        ensures
            r == self@.dom().contains(index),
    {
        if index as usize >= self.indexs.len() {
            return false;
        }
        !is_null_u32(self.indexs[index as usize])
    }

    /// The stored value under `index`, or absent.
    pub fn get(&self, index: u32) -> (r: Option<&T>)
        requires
            self.inv(),
        ensures
            self@.dom().contains(index) ==> (r matches Some(v) && *v == self@[index]),
            !self@.dom().contains(index) ==> r is None,
    {
        if index as usize >= self.indexs.len() {
            return None;
        }
        let i = self.indexs[index as usize];
        if is_null_u32(i) {
            return None;
        }
        Some(&self.entries[i as usize].0)
    }

    /// The number of stored values.
    pub fn len(&self) -> (r: usize)
        requires
            self.inv(),
        ensures
            r == self@.dom().len(),
    {
        proof {
            self.lemma_dom_card();
        }
        self.entries.len()
    }

    /// Whether the map stores no value at all.
    pub fn is_empty(&self) -> (r: bool)
        requires
            self.inv(),
        ensures
            r == (self@.dom().len() == 0),
    {
        proof {
            self.lemma_dom_card();
        }
        self.entries.is_empty()
    }

    /// Inserts `val` under `index` and returns the displaced value, or
    /// absent if the key was not live. A key beyond the current indirection
    /// range extends the indirection array with sentinel slots up to and
    /// including the key; a live key's value is overwritten in place and the
    /// dense order is untouched.
    pub fn insert(&mut self, index: u32, val: T) -> (r: Option<T>)
        requires
            old(self).inv(),
            index < u32::MAX,
        ensures
            final(self).inv(),
            final(self)@ == old(self)@.insert(index, val),
            r == (if old(self)@.dom().contains(index) {
                Some(old(self)@[index])
            } else {
                None::<T>
            }),
            final(self).indirection().len() >= old(self).indirection().len(),
            index < final(self).indirection().len(),
            old(self)@.dom().contains(index) ==> final(self).indirection() == old(
                self,
            ).indirection() && final(self).dense() == old(self).dense().update(
                old(self).indirection()[index as int] as int,
                (val, index),
            ),
            !old(self)@.dom().contains(index) ==> final(self).dense() == old(self).dense().push(
                (val, index),
            ),
    {
        let len = self.indexs.len();
        if index as usize >= len {
            // The key lies beyond the indirection range: grow the array with
            // sentinel slots up to and including the key.
            self.indexs.reserve(index as usize + 1 - len);
            let nul = null_u32();
            while self.indexs.len() <= index as usize
                invariant
                    old(self).inv(),
                    index < u32::MAX,
                    len == old(self).indexs@.len(),
                    len <= index as usize,
                    len <= self.indexs@.len() <= index as int + 1,
                    forall|j: int| 0 <= j < len ==> self.indexs@[j] == old(self).indexs@[j],
                    forall|j: int|
                        len <= j < self.indexs@.len() ==> self.indexs@[j] == spec_null_u32(),
                    self.entries@ == old(self).entries@,
                    nul == spec_null_u32(),
                decreases index as int + 1 - self.indexs@.len(),
            {
                self.indexs.push(nul);
            }
            let pos = self.entries.len();
            self.indexs[index as usize] = pos as u32;
            self.entries.push((val, index));
            proof {
                let es = self.entries@;
                let ix = self.indexs@;
                let oes = old(self).entries@;
                let oix = old(self).indexs@;
                assert(!old(self).spec_contains(index));
                assert forall|p: int| 0 <= p < es.len() implies (#[trigger] es[p]).1 < ix.len()
                    && ix[es[p].1 as int] == p as u32 by {
                    if p < oes.len() {
                        assert(es[p] == oes[p]);
                        assert((oes[p]).1 < oix.len());
                    }
                }
                assert forall|k: int|
                    0 <= k < ix.len() && (#[trigger] ix[k]) != spec_null_u32() implies ix[k]
                    < es.len() && es[ix[k] as int].1 == k as u32 by {
                    if k < len && k != index as int {
                        assert(ix[k] == oix[k]);
                    }
                }
                assert(self@ =~= old(self)@.insert(index, val)) by {
                    assert forall|k: u32| self.spec_contains(k) implies self@[k] == old(
                        self,
                    )@.insert(index, val)[k] by {
                        if k != index {
                            assert(ix[k as int] == oix[k as int]);
                        }
                    }
                }
            }
            None
        } else {
            let i = self.indexs[index as usize];
            if is_null_u32(i) {
                proof {
                    (*self).lemma_room(index);
                }
                let pos = self.entries.len();
                self.indexs[index as usize] = pos as u32;
                self.entries.push((val, index));
                proof {
                    let es = self.entries@;
                    let ix = self.indexs@;
                    let oes = old(self).entries@;
                    let oix = old(self).indexs@;
                    assert(!old(self).spec_contains(index));
                    assert forall|p: int| 0 <= p < es.len() implies (#[trigger] es[p]).1 < ix.len()
                        && ix[es[p].1 as int] == p as u32 by {
                        if p < oes.len() {
                            assert(es[p] == oes[p]);
                            assert(oix[(oes[p]).1 as int] == p as u32);
                        }
                    }
                    assert(self@ =~= old(self)@.insert(index, val)) by {
                        assert forall|k: u32| self.spec_contains(k) implies self@[k] == old(
                            self,
                        )@.insert(index, val)[k] by {
                            if k != index {
                                assert(ix[k as int] == oix[k as int]);
                            }
                        }
                    }
                }
                None
            } else {
                let pos = i as usize;
                let mut tmp = val;
                core::mem::swap(&mut tmp, &mut self.entries[pos].0);
                proof {
                    let es = self.entries@;
                    let ix = self.indexs@;
                    let oes = old(self).entries@;
                    let oix = old(self).indexs@;
                    assert(old(self).spec_contains(index));
                    assert((oes[pos as int]).1 == index);
                    assert forall|p: int| 0 <= p < es.len() implies (#[trigger] es[p]).1 < ix.len()
                        && ix[es[p].1 as int] == p as u32 by {
                        if p != pos as int {
                            assert(es[p] == oes[p]);
                        }
                    }
                    assert(self@ =~= old(self)@.insert(index, val)) by {
                        assert forall|k: u32| self.spec_contains(k) implies self@[k] == old(
                            self,
                        )@.insert(index, val)[k] by {
                            if k != index && self.spec_contains(k) {
                                assert(oix[k as int] != oix[index as int]);
                            }
                        }
                    }
                }
                Some(tmp)
            }
        }
    }

    /// Removes the value under `index` and returns it, or absent if the key
    /// is not live.
    ///
    /// A removed non-last dense element is replaced by the last dense
    /// element and only that element's indirection slot is repaired: every
    /// slot other than the removed key's and the moved key's is unchanged.
    /// An absent key leaves the container untouched.
    pub fn remove(&mut self, index: u32) -> (r: Option<T>)
        requires
            old(self).inv(),
        ensures
            final(self).inv(),
            final(self)@ == old(self)@.remove(index),
            r == (if old(self)@.dom().contains(index) {
                Some(old(self)@[index])
            } else {
                None::<T>
            }),
            final(self).indirection().len() == old(self).indirection().len(),
            !old(self)@.dom().contains(index) ==> final(self).indirection() == old(
                self,
            ).indirection() && final(self).dense() == old(self).dense(),
            old(self)@.dom().contains(index) ==> final(self).dense() == old(self).dense().update(
                old(self).indirection()[index as int] as int,
                old(self).dense().last(),
            ).drop_last() && final(self).indirection()[index as int] == spec_null_u32(),
            old(self)@.dom().contains(index) ==> (forall|j: int|
                0 <= j < old(self).indirection().len() && j != index && j != old(
                    self,
                ).last_dense_key() ==> final(self).indirection()[j] == old(self).indirection()[j]),
            old(self)@.dom().contains(index) && old(self).last_dense_key() != index
                ==> final(self).indirection()[old(self).last_dense_key() as int]
                == old(self).indirection()[index as int],
    {
        if index as usize >= self.indexs.len() {
            proof {
                assert(self@ =~= old(self)@.remove(index));
            }
            return None;
        }
        let i = self.indexs[index as usize];
        if is_null_u32(i) {
            proof {
                assert(self@ =~= old(self)@.remove(index));
            }
            return None;
        }
        let pos = i as usize;
        self.indexs[index as usize] = null_u32();
        if pos + 1 == self.entries.len() {
            // The removed element is the last dense element: pop it.
            let pair = self.entries.pop().unwrap();
            proof {
                let es = self.entries@;
                let ix = self.indexs@;
                let oes = old(self).entries@;
                let oix = old(self).indexs@;
                assert forall|p: int| 0 <= p < es.len() implies (#[trigger] es[p]).1 < ix.len()
                    && ix[es[p].1 as int] == p as u32 by {
                    assert(es[p] == oes[p]);
                    assert(oix[(oes[p]).1 as int] == p as u32);
                }
                assert forall|k: int|
                    0 <= k < ix.len() && (#[trigger] ix[k]) != spec_null_u32() implies ix[k]
                    < es.len() && es[ix[k] as int].1 == k as u32 by {
                    assert(oix[k] == ix[k]);
                    assert(oes[oix[k] as int].1 == k as u32);
                    if oix[k] as int == pos as int {
                        assert(k == index);
                    }
                    assert(es[ix[k] as int] == oes[oix[k] as int]);
                }
                assert(self@ =~= old(self)@.remove(index)) by {
                    assert forall|k: u32| self.spec_contains(k) implies self@[k] == old(
                        self,
                    )@.remove(index)[k] by {
                        assert(ix[k as int] == oix[k as int]);
                    }
                }
            }
            Some(pair.0)
        } else {
            // Swap the last dense element into the vacated position, then
            // repair the moved element's indirection slot.
            let pair = self.entries.swap_remove(pos);
            let moved_key = self.entries[pos].1;
            self.indexs[moved_key as usize] = pos as u32;
            proof {
                let es = self.entries@;
                let ix = self.indexs@;
                let oes = old(self).entries@;
                let oix = old(self).indexs@;
                let olen = oes.len() as int;
                let mk = oes[olen - 1].1;
                assert(oix[mk as int] == (olen - 1) as u32);
                assert(mk != index);
                assert(moved_key == mk);
                assert forall|p: int| 0 <= p < es.len() implies (#[trigger] es[p]).1 < ix.len()
                    && ix[es[p].1 as int] == p as u32 by {
                    if p != pos as int {
                        assert(es[p] == oes[p]);
                        assert(oix[(oes[p]).1 as int] == p as u32);
                        assert((oes[p]).1 != mk && (oes[p]).1 != index);
                    }
                }
                assert forall|k: int|
                    0 <= k < ix.len() && (#[trigger] ix[k]) != spec_null_u32() implies ix[k]
                    < es.len() && es[ix[k] as int].1 == k as u32 by {
                    if k != mk as int && k != index {
                        assert(ix[k] == oix[k]);
                        assert(oes[oix[k] as int].1 == k as u32);
                        if oix[k] as int == olen - 1 {
                            assert(k == mk as int);
                        }
                        if oix[k] as int == pos as int {
                            assert(k == index);
                        }
                        assert(es[ix[k] as int] == oes[oix[k] as int]);
                    }
                }
                assert(self@ =~= old(self)@.remove(index)) by {
                    assert forall|k: u32| self.spec_contains(k) implies self@[k] == old(
                        self,
                    )@.remove(index)[k] by {
                        if k != mk {
                            assert(ix[k as int] == oix[k as int]);
                            assert(es[ix[k as int] as int] == oes[oix[k as int] as int]);
                        }
                    }
                    assert forall|k: u32| old(self).spec_contains(k) && k != index implies self
                        .spec_contains(k) by {
                        if k != mk {
                            assert(ix[k as int] == oix[k as int]);
                        }
                    }
                }
            }
            Some(pair.0)
        }
    }

    /// The stored value under `index`, which must be live.
    pub fn get_unchecked(&self, index: u32) -> (r: &T)
        requires
            self.inv(),
            self@.dom().contains(index),
        ensures
            *r == self@[index],
    {
        &self.entries[self.indexs[index as usize] as usize].0
    }

    /// A mutable reference to the value under `index`, which must be live.
    /// Only that key's value changes; the key stays live and no indirection
    /// slot moves.
    pub fn get_unchecked_mut(&mut self, index: u32) -> (r: &mut T)
        requires
            old(self).inv(),
            old(self)@.dom().contains(index),
        ensures
            *r == old(self)@[index],
            final(self).inv(),
            final(self)@ =~= old(self)@.insert(index, *final(r)),
            final(self).indirection() == old(self).indirection(),
            final(self).dense().len() == old(self).dense().len(),
    {
        let pos = self.indexs[index as usize] as usize;
        let pair = &mut self.entries[pos];
        &mut pair.0
    }

    /// A mutable reference to the stored value under `index`, or absent.
    /// When the key is live, only that key's value changes; when it is not,
    /// the container is untouched.
    pub fn get_mut(&mut self, index: u32) -> (r: Option<&mut T>)
        requires
            old(self).inv(),
        ensures
            !old(self)@.dom().contains(index) ==> (r is None
                && final(self)@ == old(self)@
                && final(self).inv()
                && final(self).indirection() == old(self).indirection()
                && final(self).dense() == old(self).dense()),
            old(self)@.dom().contains(index) ==> (r is Some
                && *r.unwrap() == old(self)@[index]
                && final(self)@ =~= old(self)@.insert(index, *final(r.unwrap()))
                && final(self).inv()
                && final(self).indirection() == old(self).indirection()
                && final(self).dense().len() == old(self).dense().len()),
    {
        if index as usize >= self.indexs.len() {
            return None;
        }
        let i = self.indexs[index as usize];
        if is_null_u32(i) {
            return None;
        }
        Some(self.get_unchecked_mut(index))
    }

    /// Replaces the value under `index`, which must be live, and returns the
    /// old value.
    pub fn replace(&mut self, index: u32, val: T) -> (r: T)
        requires
            old(self).inv(),
            old(self)@.dom().contains(index),
        ensures
            final(self).inv(),
            r == old(self)@[index],
            final(self)@ == old(self)@.insert(index, val),
            final(self).indirection() == old(self).indirection(),
            final(self).dense().len() == old(self).dense().len(),
    {
        let mut tmp = val;
        let vref = self.get_unchecked_mut(index);
        core::mem::swap(&mut tmp, vref);
        tmp
    }

    /// Removes the value under `index`, which must be live, and returns it.
    pub fn remove_unchecked(&mut self, index: u32) -> (r: T)
        requires
            old(self).inv(),
            old(self)@.dom().contains(index),
        ensures
            final(self).inv(),
            final(self)@ == old(self)@.remove(index),
            r == old(self)@[index],
            final(self).indirection().len() == old(self).indirection().len(),
            final(self).dense().len() + 1 == old(self).dense().len(),
    {
        let r = self.remove(index);
        r.unwrap()
    }

    /// Positional indexing: the value under dense key `index`, which must be
    /// live. Equivalent to `get_unchecked` after a cast of the key.
    pub fn index(&self, index: usize) -> (r: &T)
        requires
            self.inv(),
            index < u32::MAX as usize,
            self@.dom().contains(index as u32),
        ensures
            *r == self@[index as u32],
    {
        self.get_unchecked(index as u32)
    }

    /// Positional mutable indexing: equivalent to `get_unchecked_mut` after
    /// a cast of the key.
    pub fn index_mut(&mut self, index: usize) -> (r: &mut T)
        requires
            old(self).inv(),
            index < u32::MAX as usize,
            old(self)@.dom().contains(index as u32),
        ensures
            *r == old(self)@[index as u32],
            final(self).inv(),
            final(self)@ =~= old(self)@.insert(index as u32, *final(r)),
            final(self).indirection() == old(self).indirection(),
            final(self).dense().len() == old(self).dense().len(),
    {
        self.get_unchecked_mut(index as u32)
    }

    /// Empties the map. Both backing arrays are cleared; allocated capacity
    /// is kept. This is the one operation that shrinks the indirection array.
    pub fn clear(&mut self)
        requires
            old(self).inv(),
        ensures
            final(self).inv(),
            final(self)@ == Map::<u32, T>::empty(),
            final(self).indirection().len() == 0,
            final(self).dense().len() == 0,
    {
        self.indexs.clear();
        self.entries.clear();
        proof {
            assert(self@ =~= Map::<u32, T>::empty());
        }
    }

    /// Builds a map from a dense, zero-based list of `(value, key)` pairs:
    /// the pair at position `i` must carry key `i`, and the indirection
    /// array becomes the identity permutation.
    pub fn from_pairs(pairs: Vec<(T, u32)>) -> (r: Self)
        requires
            pairs@.len() <= u32::MAX as int,
            forall|i: int| 0 <= i < pairs@.len() ==> (#[trigger] pairs@[i]).1 == i as u32,
        ensures
            r.inv(),
            r.dense() == pairs@,
            r.indirection().len() == pairs@.len(),
            forall|k: u32| r@.dom().contains(k) == (k < pairs@.len()),
            forall|k: u32| k < pairs@.len() ==> r@[k] == (#[trigger] pairs@[k as int]).0,
    {
        let n = pairs.len();
        let mut indexs: Vec<u32> = Vec::with_capacity(n);
        let mut idx: usize = 0;
        while idx < n
            invariant
                idx <= n,
                n == pairs@.len() <= u32::MAX as int,
                indexs@.len() == idx,
                forall|j: int| 0 <= j < idx ==> indexs@[j] == j as u32,
            decreases n - idx,
        {
            indexs.push(idx as u32);
            idx += 1;
        }
        let r = SmallVecMap { indexs, entries: pairs };
        proof {
            assert forall|k: u32| r@.dom().contains(k) == (k < pairs@.len()) by {
                if (k as int) < pairs@.len() {
                    assert(r.indexs@[k as int] == k);
                }
            }
        }
        r
    }

    /// Read-only iteration over the dense `(value, original key)` pairs.
    /// Every pair is live, every live key appears, and the order is the
    /// dense (insertion/compaction) order, not key order.
    pub fn iter(&self) -> (r: &Vec<(T, u32)>)
        requires
            self.inv(),
        ensures
            r@ == self.dense(),
            forall|p: int|
                0 <= p < r@.len() ==> self@.dom().contains((#[trigger] r@[p]).1) && self@[r@[p].1]
                    == r@[p].0,
            forall|k: u32|
                self@.dom().contains(k) ==> exists|p: int|
                    0 <= p < r@.len() && (#[trigger] r@[p]).1 == k,
    {
        proof {
            assert forall|k: u32| self@.dom().contains(k) implies exists|p: int|
                0 <= p < self.entries@.len() && (#[trigger] self.entries@[p]).1 == k by {
                let p = self.indexs@[k as int] as int;
                assert(0 <= p < self.entries@.len() && self.entries@[p].1 == k);
            }
        }
        &self.entries
    }

    /// Whether an edit of the dense array kept the pair count and each
    /// pair's stored key: the discipline `iter_mut` asks of its caller.
    pub open spec fn keys_preserved(pre: Seq<(T, u32)>, post: Seq<(T, u32)>) -> bool {
        &&& post.len() == pre.len()
        &&& forall|p: int| 0 <= p < post.len() ==> (#[trigger] post[p]).1 == pre[p].1
    }

    /// Mutable iteration over the dense `(value, original key)` pairs, in
    /// dense order. As long as the caller leaves the pair count and the
    /// stored keys alone, the map stays well formed, no key's liveness
    /// changes, and each live key reads back the value left in its pair.
    pub fn iter_mut(&mut self) -> (r: &mut Vec<(T, u32)>)
        requires
            old(self).inv(),
        ensures
            r@ == old(self).dense(),
            final(self).dense() == final(r)@,
            final(self).indirection() == old(self).indirection(),
            Self::keys_preserved(old(self).dense(), final(r)@) ==> (final(self).inv() && (forall|
                k: u32,
            |
                #[trigger] final(self)@.dom().contains(k) == old(self)@.dom().contains(k)) && (
            forall|k: u32|
                old(self)@.dom().contains(k)
                    ==> #[trigger] final(self)@[k]
                    == final(r)@[old(self).indirection()[k as int] as int].0)),
    {
        &mut self.entries
    }

    /// Reserves indirection capacity for at least `additional` more keys.
    /// The contents are unchanged.
    pub fn reserve(&mut self, additional: usize)
        requires
            old(self).inv(),
        ensures
            final(self).inv(),
            final(self)@ == old(self)@,
            final(self).indirection() == old(self).indirection(),
            final(self).dense() == old(self).dense(),
    {
        self.indexs.reserve(additional);
        proof {
            assert(self@ =~= old(self)@);
        }
    }

    /// Reserves the minimum indirection capacity for exactly `additional`
    /// more keys. The contents are unchanged.
    pub fn reserve_exact(&mut self, additional: usize)
        requires
            old(self).inv(),
        ensures
            final(self).inv(),
            final(self)@ == old(self)@,
            final(self).indirection() == old(self).indirection(),
            final(self).dense() == old(self).dense(),
    {
        crate::backing::vec_reserve_exact(&mut self.indexs, additional);
        proof {
            assert(self@ =~= old(self)@);
        }
    }

    /// The indirection capacity: how many keys fit before a reallocation.
    /// Always at least the indirection length.
    pub fn capacity(&self) -> (r: usize)
        requires
            self.inv(),
        ensures
            r >= self.indirection().len(),
    {
        crate::backing::vec_capacity(&self.indexs)
    }

    /// A memory-footprint estimate: the indirection capacity times the
    /// value size, saturating instead of overflowing.
    pub fn mem_size(&self) -> (r: usize)
        requires
            self.inv(),
        ensures
            exists|c: nat|
                c >= self.indirection().len() && r == crate::backing::spec_mem_size(
                    c,
                    vstd::layout::size_of::<T>(),
                ),
    {
        let cap = crate::backing::vec_capacity(&self.indexs);
        let r = cap.checked_mul(core::mem::size_of::<T>()).unwrap_or(usize::MAX);
        proof {
            assert(cap as nat >= self.indirection().len() && r == crate::backing::spec_mem_size(
                cap as nat,
                vstd::layout::size_of::<T>(),
            ));
        }
        r
    }
}

impl<T, const N: usize> View for SmallVecMap<T, N> {
    type V = Map<u32, T>;

    /// The abstract contents: the finite map from each live key to its value.
    closed spec fn view(&self) -> Map<u32, T> {
        Map::new(|k: u32| self.spec_contains(k), |k: u32| self.value_at(k))
    }
}

impl<T, const N: usize> Default for SmallVecMap<T, N> {
    /// An empty map.
    fn default() -> (r: Self)
        ensures
            r.inv(),
            r@ == Map::<u32, T>::empty(),
    {
        SmallVecMap::new()
    }
}

} // verus!
