//! The directly-indexed storage strategy.
//!
//! `VecMap` keeps one optional slot per key: the slot at position `k` is
//! either empty or holds the `(value, key)` pair stored under `k`. There is
//! no compaction; removal simply empties the slot. It is the fallback
//! strategy for execution environments where the dense inline layout of the
//! other strategy cannot be trusted.

use vstd::prelude::*;

verus! {

/// The number of occupied slots.
pub open spec fn live_count<T>(s: Seq<Option<(T, u32)>>) -> nat
    decreases s.len(),
{
    if s.len() == 0 {
        0
    } else {
        live_count(s.drop_last()) + (if s.last() is Some {
            1nat
        } else {
            0nat
        })
    }
}

/// Occupied slots number at most the slots themselves.
proof fn lemma_live_count_le_len<T>(s: Seq<Option<(T, u32)>>)
    ensures
        live_count(s) <= s.len(),
    decreases s.len(),
{
    if s.len() > 0 {
        lemma_live_count_le_len(s.drop_last());
    }
}

/// An empty slot keeps the occupied count strictly below the slot count.
proof fn lemma_live_count_lt_len<T>(s: Seq<Option<(T, u32)>>, i: int)
    requires
        0 <= i < s.len(),
        s[i] is None,
    ensures
        live_count(s) < s.len(),
    decreases s.len(),
{
    if i == s.len() - 1 {
        lemma_live_count_le_len(s.drop_last());
    } else {
        lemma_live_count_lt_len(s.drop_last(), i);
    }
}

/// Overwriting one slot changes the occupied count by the difference of the
/// two slot states.
proof fn lemma_live_count_update<T>(s: Seq<Option<(T, u32)>>, i: int, v: Option<(T, u32)>)
    requires
        0 <= i < s.len(),
    ensures
        live_count(s.update(i, v)) + (if s[i] is Some {
            1nat
        } else {
            0nat
        }) == live_count(s) + (if v is Some {
            1nat
        } else {
            0nat
        }),
    decreases s.len(),
{
    if i == s.len() - 1 {
        assert(s.update(i, v).drop_last() =~= s.drop_last());
    } else {
        assert(s.update(i, v).drop_last() =~= s.drop_last().update(i, v));
        lemma_live_count_update(s.drop_last(), i, v);
    }
}

/// Editing values without touching the slot layout keeps the occupied
/// count.
proof fn lemma_live_count_same_shape<T>(s1: Seq<Option<(T, u32)>>, s2: Seq<Option<(T, u32)>>)
    requires
        s2.len() == s1.len(),
        forall|p: int| 0 <= p < s2.len() ==> (#[trigger] s2[p]) is Some == s1[p] is Some,
    ensures
        live_count(s2) == live_count(s1),
    decreases s1.len(),
{
    if s1.len() > 0 {
        lemma_live_count_same_shape(s1.drop_last(), s2.drop_last());
    }
}

/// The set of occupied positions is finite and as large as the occupied
/// count.
proof fn lemma_live_count_is_card<T>(s: Seq<Option<(T, u32)>>)
    requires
        s.len() <= u32::MAX as int,
    ensures
        Set::new(|k: u32| k < s.len() && s[k as int] is Some).finite(),
        Set::new(|k: u32| k < s.len() && s[k as int] is Some).len() == live_count(s),
    decreases s.len(),
{
    let d = Set::new(|k: u32| k < s.len() && s[k as int] is Some);
    if s.len() == 0 {
        assert(d =~= Set::<u32>::empty());
    } else {
        let s0 = s.drop_last();
        let d0 = Set::new(|k: u32| k < s0.len() && s0[k as int] is Some);
        lemma_live_count_is_card(s0);
        let last: u32 = (s.len() - 1) as u32;
        if s.last() is Some {
            assert(d =~= d0.insert(last));
            assert(!d0.contains(last));
        } else {
            assert(d =~= d0);
        }
    }
}

/// A sparse map from `u32` keys to values of type `T`, backed by one
/// optional slot per key.
#[derive(Debug, Hash, Clone)]
pub struct VecMap<T> {
    slots: Vec<Option<(T, u32)>>,
    len: usize,
}

impl<T> VecMap<T> {
    /// The slot array: position `k` holds the pair stored under key `k`, or
    /// nothing.
    pub closed spec fn slots_view(&self) -> Seq<Option<(T, u32)>> {
        self.slots@
    }

    spec fn spec_contains(&self, key: u32) -> bool {
        key < self.slots@.len() && self.slots@[key as int] is Some
    }

    /// Structural well-formedness: each occupied slot stores its own key,
    /// and the cached length counts the occupied slots.
    pub closed spec fn inv(&self) -> bool {
        &&& self.slots@.len() <= u32::MAX as int
        &&& (forall|p: int|
            0 <= p < self.slots@.len() && (#[trigger] self.slots@[p]) is Some
                ==> self.slots@[p].unwrap().1 == p as u32)
        &&& self.len == live_count(self.slots@)
    }

    /// The abstract domain is the set of occupied slots, so its cardinality
    /// is the cached length.
    proof fn lemma_dom_card(self)
        requires
            self.inv(),
        ensures
            self@.dom().finite(),
            self@.dom().len() == self.len,
    {
        lemma_live_count_is_card(self.slots@);
        assert(self@.dom() =~= Set::new(
            |k: u32| k < self.slots@.len() && self.slots@[k as int] is Some,
        ));
    }

    /// The slot layout is determined by the abstract contents: below the
    /// slot count, a key's slot holds exactly its live pair, or nothing.
    /// This is what lets a caller predict what the traversals yield.
    pub proof fn lemma_slots_determined(self)
        requires
            self.inv(),
        ensures
            forall|p: int|
                0 <= p < self.slots_view().len() ==> self.slots_view()[p] == (
                if self@.dom().contains(p as u32) {
                    Some((self@[p as u32], p as u32))
                } else {
                    None
                }),
            forall|k: u32|
                self@.dom().contains(k) ==> k < self.slots_view().len(),
            self.slots_view().len() <= u32::MAX as int,
    {
        assert forall|p: int| 0 <= p < self.slots_view().len() implies self.slots_view()[p] == (
        if self@.dom().contains(p as u32) {
            Some((self@[p as u32], p as u32))
        } else {
            None
        }) by {
            if self.slots@[p] is Some {
                assert(self.slots@[p].unwrap().1 == p as u32);
            }
        }
    }

    /// Creates an empty map.
    pub fn new() -> (r: Self)
        ensures
            r.inv(),
            r@ == Map::<u32, T>::empty(),
            r.slots_view().len() == 0,
    {
        VecMap::with_capacity(0)
    }

    /// Creates an empty map with a pre-reserved slot capacity hint.
    pub fn with_capacity(capacity: usize) -> (r: Self)
        ensures
            r.inv(),
            r@ == Map::<u32, T>::empty(),
            r.slots_view().len() == 0,
    {
        let r = VecMap { slots: Vec::with_capacity(capacity), len: 0 };
        proof {
            assert(r@ =~= Map::<u32, T>::empty());
        }
        r
    }

    /// Whether a value is stored under `key`.
    pub fn contains(&self, key: u32) -> (r: bool)
        requires
            self.inv(),
        ensures
            r == self@.dom().contains(key),
    {
        if key as usize >= self.slots.len() {
            return false;
        }
        self.slots[key as usize].is_some()
    }

    /// The stored value under `key`, or absent.
    pub fn get(&self, key: u32) -> (r: Option<&T>)
        requires
            self.inv(),
        ensures
            self@.dom().contains(key) ==> (r matches Some(v) && *v == self@[key]),
            !self@.dom().contains(key) ==> r is None,
    {
        if key as usize >= self.slots.len() {
            return None;
        }
        match &self.slots[key as usize] {
            Some(pair) => Some(&pair.0),
            None => None,
        }
    }

    /// The stored value under `key`, which must be live.
    pub fn get_unchecked(&self, key: u32) -> (r: &T)
        requires
            self.inv(),
            self@.dom().contains(key),
        ensures
            *r == self@[key],
    {
        match &self.slots[key as usize] {
            Some(pair) => &pair.0,
            None => unreached(),
        }
    }

    /// A mutable reference to the value under `key`, which must be live.
    /// Only that key's value changes.
    pub fn get_unchecked_mut(&mut self, key: u32) -> (r: &mut T)
        requires
            old(self).inv(),
            old(self)@.dom().contains(key),
        ensures
            *r == old(self)@[key],
            final(self).inv(),
            final(self)@ =~= old(self)@.insert(key, *final(r)),
            final(self).slots_view().len() == old(self).slots_view().len(),
    {
        proof {
            assert forall|v: (T, u32)|
                live_count(old(self).slots@.update(key as int, Some(v))) == live_count(
                    old(self).slots@,
                ) by {
                lemma_live_count_update(old(self).slots@, key as int, Some(v));
            }
        }
        let slot = &mut self.slots[key as usize];
        match slot {
            Some(pair) => &mut pair.0,
            None => unreached(),
        }
    }

    /// A mutable reference to the stored value under `key`, or absent.
    pub fn get_mut(&mut self, key: u32) -> (r: Option<&mut T>)
        requires
            old(self).inv(),
        ensures
            !old(self)@.dom().contains(key) ==> (r is None
                && final(self)@ == old(self)@
                && final(self).inv()
                && final(self).slots_view() == old(self).slots_view()),
            old(self)@.dom().contains(key) ==> (r is Some
                && *r.unwrap() == old(self)@[key]
                && final(self)@ =~= old(self)@.insert(key, *final(r.unwrap()))
                && final(self).inv()
                && final(self).slots_view().len() == old(self).slots_view().len()),
    {
        if key as usize >= self.slots.len() {
            return None;
        }
        if self.slots[key as usize].is_none() {
            return None;
        }
        Some(self.get_unchecked_mut(key))
    }

    /// Inserts `val` under `key` and returns the displaced value, or absent
    /// if the key was not live. The slot array grows with empty slots as
    /// needed and never shrinks.
    pub fn insert(&mut self, key: u32, val: T) -> (r: Option<T>)
        requires
            old(self).inv(),
            key < u32::MAX,
        ensures
            final(self).inv(),
            final(self)@ == old(self)@.insert(key, val),
            r == (if old(self)@.dom().contains(key) {
                Some(old(self)@[key])
            } else {
                None::<T>
            }),
            final(self).slots_view().len() >= old(self).slots_view().len(),
            key < final(self).slots_view().len(),
    {
        if (key as usize) < self.slots.len() {
            let mut tmp = Some((val, key));
            core::mem::swap(&mut tmp, &mut self.slots[key as usize]);
            proof {
                lemma_live_count_update(old(self).slots@, key as int, self.slots@[key as int]);
                assert(self@ =~= old(self)@.insert(key, val));
            }
            match tmp {
                Some(pair) => Some(pair.0),
                None => {
                    proof {
                        lemma_live_count_lt_len(old(self).slots@, key as int);
                    }
                    self.len = self.len + 1;
                    None
                },
            }
        } else {
            while self.slots.len() < key as usize
                invariant
                    old(self).inv(),
                    key < u32::MAX,
                    old(self).slots@.len() <= self.slots@.len() <= key as int,
                    forall|j: int|
                        0 <= j < old(self).slots@.len() ==> self.slots@[j] == old(self).slots@[j],
                    forall|j: int|
                        old(self).slots@.len() <= j < self.slots@.len() ==> self.slots@[j]
                            is None,
                    live_count(self.slots@) == live_count(old(self).slots@),
                    self.len == old(self).len,
                decreases key as int - self.slots@.len(),
            {
                let ghost prev = self.slots@;
                self.slots.push(None);
                proof {
                    assert(self.slots@.drop_last() =~= prev);
                }
            }
            let ghost grown = self.slots@;
            self.slots.push(Some((val, key)));
            proof {
                assert(self.slots@.drop_last() =~= grown);
                lemma_live_count_le_len(old(self).slots@);
            }
            self.len = self.len + 1;
            proof {
                assert(self@ =~= old(self)@.insert(key, val));
            }
            None
        }
    }

    /// Removes the value under `key` and returns it, or absent if the key
    /// is not live. Only that slot is emptied; an absent key leaves the
    /// container untouched.
    pub fn remove(&mut self, key: u32) -> (r: Option<T>)
        requires
            old(self).inv(),
        ensures
            final(self).inv(),
            final(self)@ == old(self)@.remove(key),
            r == (if old(self)@.dom().contains(key) {
                Some(old(self)@[key])
            } else {
                None::<T>
            }),
            final(self).slots_view().len() == old(self).slots_view().len(),
            !old(self)@.dom().contains(key) ==> final(self).slots_view() == old(self).slots_view(),
    {
        if key as usize >= self.slots.len() {
            proof {
                assert(self@ =~= old(self)@.remove(key));
            }
            return None;
        }
        let mut tmp: Option<(T, u32)> = None;
        core::mem::swap(&mut tmp, &mut self.slots[key as usize]);
        proof {
            lemma_live_count_update(old(self).slots@, key as int, self.slots@[key as int]);
            assert(self@ =~= old(self)@.remove(key));
        }
        match tmp {
            Some(pair) => {
                self.len = self.len - 1;
                Some(pair.0)
            },
            None => {
                proof {
                    assert(self.slots@ =~= old(self).slots@);
                }
                None
            },
        }
    }

    /// Removes the value under `key`, which must be live, and returns it.
    pub fn remove_unchecked(&mut self, key: u32) -> (r: T)
        requires
            old(self).inv(),
            old(self)@.dom().contains(key),
        ensures
            final(self).inv(),
            final(self)@ == old(self)@.remove(key),
            r == old(self)@[key],
            final(self).slots_view().len() == old(self).slots_view().len(),
    {
        let r = self.remove(key);
        r.unwrap()
    }

    /// Replaces the value under `key`, which must be live, and returns the
    /// old value.
    pub fn replace(&mut self, key: u32, val: T) -> (r: T)
        requires
            old(self).inv(),
            old(self)@.dom().contains(key),
        ensures
            final(self).inv(),
            r == old(self)@[key],
            final(self)@ == old(self)@.insert(key, val),
            final(self).slots_view().len() == old(self).slots_view().len(),
    {
        let mut tmp = val;
        let vref = self.get_unchecked_mut(key);
        core::mem::swap(&mut tmp, vref);
        tmp
    }

    /// The number of stored values.
    pub fn len(&self) -> (r: usize)
        requires
            self.inv(),
        ensures
            r == self@.dom().len(),
    {
        proof {
            self.lemma_dom_card();
        }
        self.len
    }

    /// Whether the map stores no value at all.
    pub fn is_empty(&self) -> (r: bool)
        requires
            self.inv(),
        ensures
            r == (self@.dom().len() == 0),
    {
        proof {
            self.lemma_dom_card();
        }
        self.len == 0
    }

    /// Empties the map; allocated capacity is kept.
    pub fn clear(&mut self)
        requires
            old(self).inv(),
        ensures
            final(self).inv(),
            final(self)@ == Map::<u32, T>::empty(),
            final(self).slots_view().len() == 0,
    {
        self.slots.clear();
        self.len = 0;
        proof {
            assert(self@ =~= Map::<u32, T>::empty());
        }
    }

    /// The slot capacity: how many keys fit before a reallocation.
    pub fn capacity(&self) -> (r: usize)
        requires
            self.inv(),
        ensures
            r >= self.slots_view().len(),
    {
        crate::backing::vec_capacity(&self.slots)
    }

    /// Whether an edit of the slot array kept its length, each slot's
    /// occupancy and each occupied slot's key: the discipline that editing
    /// values through `iter_mut` follows.
    pub open spec fn layout_preserved(
        pre: Seq<Option<(T, u32)>>,
        post: Seq<Option<(T, u32)>>,
    ) -> bool {
        &&& post.len() == pre.len()
        &&& forall|p: int|
            0 <= p < post.len() ==> ((#[trigger] post[p]) is Some == pre[p] is Some && (pre[p]
                is Some ==> post[p].unwrap().1 == pre[p].unwrap().1))
    }

    /// Mutable iteration over the occupied slots, in key order. The
    /// traversal can only edit values, so the layout and the keys stay as
    /// they are, no key's liveness changes, and each live key reads back
    /// the value left in its slot.
    pub fn iter_mut(&mut self) -> (r: VecMapIterMut<'_, T>)
        requires
            old(self).inv(),
        ensures
            r.inv(),
            r.position() == 0,
            r.slots_view() == old(self).slots_view(),
            final(self).slots_view() == final(r.slots_ref())@,
            Self::layout_preserved(old(self).slots_view(), final(r.slots_ref())@)
                ==> (final(self).inv() && (forall|k: u32|
                #[trigger] final(self)@.dom().contains(k) == old(self)@.dom().contains(k)) && (
            forall|k: u32|
                old(self)@.dom().contains(k)
                    ==> #[trigger] final(self)@[k]
                    == final(r.slots_ref())@[k as int].unwrap().0)),
    {
        proof {
            assert forall|s2: Seq<Option<(T, u32)>>|
                Self::layout_preserved(self.slots@, s2) implies live_count(s2) == live_count(
                self.slots@,
            ) by {
                lemma_live_count_same_shape(self.slots@, s2);
            }
        }
        VecMapIterMut { slots: &mut self.slots, pos: 0 }
    }

    /// A memory-footprint estimate: the slot capacity times the value size,
    /// saturating instead of overflowing.
    pub fn mem_size(&self) -> (r: usize)
        requires
            self.inv(),
        ensures
            exists|c: nat|
                c >= self.slots_view().len() && r == crate::backing::spec_mem_size(
                    c,
                    vstd::layout::size_of::<T>(),
                ),
    {
        let cap = crate::backing::vec_capacity(&self.slots);
        let r = cap.checked_mul(core::mem::size_of::<T>()).unwrap_or(usize::MAX);
        proof {
            assert(cap as nat >= self.slots_view().len() && r == crate::backing::spec_mem_size(
                cap as nat,
                vstd::layout::size_of::<T>(),
            ));
        }
        r
    }

    /// Read-only iteration over the occupied slots, in key order. Every
    /// yielded pair is live in the map.
    pub fn iter(&self) -> (r: VecMapIter<'_, T>)
        requires
            self.inv(),
        ensures
            r.inv(),
            r.position() == 0,
            r.slots_view() == self.slots_view(),
            forall|p: int|
                0 <= p < self.slots_view().len() && (#[trigger] self.slots_view()[p]) is Some
                    ==> self@.dom().contains(self.slots_view()[p].unwrap().1)
                    && self@[self.slots_view()[p].unwrap().1] == self.slots_view()[p].unwrap().0,
    {
        VecMapIter { slots: &self.slots, pos: 0 }
    }
}

impl<T> View for VecMap<T> {
    type V = Map<u32, T>;

    /// The abstract contents: the finite map from each occupied slot's key
    /// to its value.
    closed spec fn view(&self) -> Map<u32, T> {
        Map::new(
            |k: u32| self.spec_contains(k),
            |k: u32| self.slots@[k as int].unwrap().0,
        )
    }
}

impl<T> Default for VecMap<T> {
    /// An empty map.
    fn default() -> (r: Self)
        ensures
            r.inv(),
            r@ == Map::<u32, T>::empty(),
    {
        VecMap::new()
    }
}

/// A lazy, restartable read-only traversal of a [`VecMap`]'s occupied
/// slots: each call to [`VecMapIter::next`] yields the next live
/// `(value, key)` pair, skipping the empty slots.
pub struct VecMapIter<'a, T> {
    slots: &'a Vec<Option<(T, u32)>>,
    pos: usize,
}

impl<'a, T> VecMapIter<'a, T> {
    /// The slot array being traversed.
    pub closed spec fn slots_view(&self) -> Seq<Option<(T, u32)>> {
        self.slots@
    }

    /// How many slots have been visited so far.
    pub closed spec fn position(&self) -> int {
        self.pos as int
    }

    /// The cursor never passes the end of the slot array.
    pub closed spec fn inv(&self) -> bool {
        self.pos <= self.slots@.len()
    }

    /// The next occupied slot's pair, or absent when the traversal is done.
    /// The slots skipped on the way were all empty.
    pub fn next(&mut self) -> (r: Option<&'a (T, u32)>)
        requires
            old(self).inv(),
        ensures
            final(self).inv(),
            final(self).slots_view() == old(self).slots_view(),
            old(self).position() <= final(self).position() <= old(self).slots_view().len(),
            (r matches Some(pair) ==> (old(self).position() <= final(self).position() - 1
                < old(self).slots_view().len() && old(self).slots_view()[final(self).position()
                - 1] == Some(*pair) && (forall|q: int|
                old(self).position() <= q < final(self).position() - 1 ==> old(
                    self,
                ).slots_view()[q] is None))),
            (r is None ==> final(self).position() == old(self).slots_view().len() && (forall|
                q: int,
            |
                old(self).position() <= q < old(self).slots_view().len() ==> old(
                    self,
                ).slots_view()[q] is None)),
    {
        let s = self.slots;
        while self.pos < s.len()
            invariant
                self.slots == s,
                s@ == old(self).slots_view(),
                old(self).position() <= self.pos as int <= s@.len(),
                forall|q: int| old(self).position() <= q < self.pos as int ==> s@[q] is None,
            decreases s@.len() - self.pos,
        {
            let cur = self.pos;
            self.pos = cur + 1;
            match &s[cur] {
                Some(pair) => {
                    return Some(pair);
                },
                None => {},
            }
        }
        None
    }
}

/// A lazy mutable traversal of a [`VecMap`]'s occupied slots: each call to
/// [`VecMapIterMut::next`] yields the key and a mutable reference to the
/// value of the next live slot, skipping the empty slots. Only values can
/// be edited; the slot layout and the stored keys cannot.
pub struct VecMapIterMut<'a, T> {
    slots: &'a mut Vec<Option<(T, u32)>>,
    pos: usize,
}

impl<'a, T> VecMapIterMut<'a, T> {
    /// The borrow of the slot array that the traversal holds.
    pub closed spec fn slots_ref(self) -> &'a mut Vec<Option<(T, u32)>> {
        self.slots
    }

    /// The slot array being traversed, in its current state.
    pub closed spec fn slots_view(&self) -> Seq<Option<(T, u32)>> {
        self.slots@
    }

    /// How many slots have been visited so far.
    pub closed spec fn position(&self) -> int {
        self.pos as int
    }

    /// The cursor never passes the end of the slot array.
    pub closed spec fn inv(&self) -> bool {
        self.pos <= self.slots@.len()
    }

    /// The key and value of the next occupied slot, or absent when the
    /// traversal is done. The slots skipped on the way were all empty, and
    /// only the yielded slot's value can change through the reference.
    pub fn next(&mut self) -> (r: Option<(u32, &mut T)>)
        requires
            old(self).inv(),
        ensures
            final(self).inv(),
            old(self).position() <= final(self).position() <= old(self).slots_view().len(),
            (r is None ==> final(self).slots_view() == old(self).slots_view()
                && final(self).position() == old(self).slots_view().len()
                && (forall|q: int|
                    old(self).position() <= q < old(self).slots_view().len()
                        ==> old(self).slots_view()[q] is None)),
            (r matches Some((key, v)) ==> ({
                let p = final(self).position() - 1;
                &&& old(self).position() <= p < old(self).slots_view().len()
                &&& old(self).slots_view()[p] is Some
                &&& old(self).slots_view()[p].unwrap().1 == key
                &&& *v == old(self).slots_view()[p].unwrap().0
                &&& final(self).slots_view() == old(self).slots_view().update(
                    p,
                    Some((*final(v), key)),
                )
                &&& (forall|q: int|
                    old(self).position() <= q < p ==> old(self).slots_view()[q] is None)
            })),
    {
        // Find the next occupied slot with a read-only scan, then take the
        // one mutable borrow outside the loop.
        let mut cur = self.pos;
        while cur < self.slots.len() && self.slots[cur].is_none()
            invariant
                self.inv(),
                self.pos <= cur <= self.slots@.len(),
                forall|q: int| self.pos <= q < cur ==> self.slots@[q] is None,
            decreases self.slots@.len() - cur,
        {
            cur = cur + 1;
        }
        if cur < self.slots.len() {
            self.pos = cur + 1;
            match &mut self.slots[cur] {
                Some(pair) => {
                    let key = pair.1;
                    Some((key, &mut pair.0))
                },
                None => unreached(),
            }
        } else {
            self.pos = cur;
            None
        }
    }
}

} // verus!
