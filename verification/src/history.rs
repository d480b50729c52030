//! Histories of point operations, and what they determine.
//!
//! The `ensures` of `insert` and `remove` on both storage strategies state
//! that one operation turns the abstract contents `m` into
//! `apply_op(m, op)`. The lemmas here lift that to whole histories: after
//! any sequence of inserts and removals, a key is live exactly when an
//! insert to it is still unresolved (no removal of the key came after), and
//! it then reads back the value of that latest insert.

use vstd::prelude::*;

verus! {

/// One point operation on an integer-keyed map.
pub enum MapOp<T> {
    /// Store the value under the key, replacing any live value.
    Insert(u32, T),
    /// Empty the key's slot if it is live.
    Remove(u32),
}

/// The abstract effect of one operation on the contents, as stated by the
/// `ensures` of `insert` and `remove` on both storage strategies.
pub open spec fn apply_op<T>(m: Map<u32, T>, op: MapOp<T>) -> Map<u32, T> {
    match op {
        MapOp::Insert(k, v) => m.insert(k, v),
        MapOp::Remove(k) => m.remove(k),
    }
}

/// The contents after a whole history of operations, applied in order.
pub open spec fn apply_ops<T>(m: Map<u32, T>, ops: Seq<MapOp<T>>) -> Map<u32, T>
    decreases ops.len(),
{
    if ops.len() == 0 {
        m
    } else {
        apply_op(apply_ops(m, ops.drop_last()), ops.last())
    }
}

/// Whether an operation reads or writes `key`.
pub open spec fn touches<T>(op: MapOp<T>, key: u32) -> bool {
    match op {
        MapOp::Insert(k, _) => k == key,
        MapOp::Remove(k) => k == key,
    }
}

/// The value the history leaves under `key`: the value of the latest
/// insert, or absent if a removal (or no operation at all) came after
/// every insert to the key.
pub open spec fn last_write<T>(ops: Seq<MapOp<T>>, key: u32) -> Option<T>
    decreases ops.len(),
{
    if ops.len() == 0 {
        None
    } else {
        match ops.last() {
            MapOp::Insert(k, v) => if k == key {
                Some(v)
            } else {
                last_write(ops.drop_last(), key)
            },
            MapOp::Remove(k) => if k == key {
                None
            } else {
                last_write(ops.drop_last(), key)
            },
        }
    }
}

/// After any history of inserts and removals starting from the empty map,
/// a key is live exactly when an insert to it has not been followed by a
/// removal of it, and it then holds the value of that latest insert. This
/// holds after each operation, since every prefix of a history is itself a
/// history.
pub proof fn lemma_history_semantics<T>(ops: Seq<MapOp<T>>, key: u32)
    ensures
        apply_ops(Map::<u32, T>::empty(), ops).dom().contains(key) == (last_write(ops, key)
            is Some),
        last_write(ops, key) matches Some(v) ==> apply_ops(Map::<u32, T>::empty(), ops)[key] == v,
    decreases ops.len(),
{
    if ops.len() > 0 {
        lemma_history_semantics(ops.drop_last(), key);
    }
}

/// A key that no operation of a history touches keeps its liveness and its
/// value through the whole history.
pub proof fn lemma_untouched_key_stable<T>(m: Map<u32, T>, ops: Seq<MapOp<T>>, key: u32)
    requires
        forall|i: int| 0 <= i < ops.len() ==> !touches(#[trigger] ops[i], key),
    ensures
        apply_ops(m, ops).dom().contains(key) == m.dom().contains(key),
        m.dom().contains(key) ==> apply_ops(m, ops)[key] == m[key],
    decreases ops.len(),
{
    if ops.len() > 0 {
        assert(forall|i: int|
            0 <= i < ops.drop_last().len() ==> !touches(#[trigger] ops.drop_last()[i], key));
        lemma_untouched_key_stable(m, ops.drop_last(), key);
        assert(!touches(ops[ops.len() - 1], key));
    }
}

/// Round trip: a value inserted under a key reads back unchanged after any
/// further operations that do not touch the key.
pub proof fn lemma_round_trip<T>(m: Map<u32, T>, key: u32, val: T, ops: Seq<MapOp<T>>)
    requires
        forall|i: int| 0 <= i < ops.len() ==> !touches(#[trigger] ops[i], key),
    ensures
        apply_ops(m.insert(key, val), ops).dom().contains(key),
        apply_ops(m.insert(key, val), ops)[key] == val,
{
    lemma_untouched_key_stable(m.insert(key, val), ops, key);
}

/// Replacing the value under a live key keeps the domain, and with it the
/// number of stored values, unchanged, and the key reads back the new
/// value.
pub proof fn lemma_replace_semantics<T>(m: Map<u32, T>, key: u32, val: T)
    requires
        m.dom().contains(key),
    ensures
        m.insert(key, val).dom() == m.dom(),
        m.insert(key, val).dom().len() == m.dom().len(),
        m.insert(key, val)[key] == val,
{
    assert(m.insert(key, val).dom() =~= m.dom());
}

/// Removing an absent key changes nothing: the contents, and so every
/// later read, are those of the map before the removal.
pub proof fn lemma_remove_absent<T>(m: Map<u32, T>, key: u32)
    requires
        !m.dom().contains(key),
    ensures
        m.remove(key) == m,
{
    assert(m.remove(key) =~= m);
}

/// Removing a live key empties exactly that key: every other key keeps its
/// liveness and value, and the number of stored values drops by one.
pub proof fn lemma_remove_live<T>(m: Map<u32, T>, key: u32)
    requires
        m.dom().contains(key),
        m.dom().finite(),
    ensures
        !m.remove(key).dom().contains(key),
        forall|k: u32|
            k != key ==> m.remove(key).dom().contains(k) == m.dom().contains(k) && (
            m.dom().contains(k) ==> m.remove(key)[k] == m[k]),
        m.remove(key).dom().len() + 1 == m.dom().len(),
{
    assert(m.remove(key).dom() =~= m.dom().remove(key));
}

} // verus!
