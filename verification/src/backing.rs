//! Allocation bookkeeping of the backing arrays.
//!
//! vstd specifies most of `Vec`; the two allocation queries the container
//! exposes (`capacity`, `reserve_exact`) go through the wrappers here.

use vstd::prelude::*;

verus! {

/// Relies on Vec::capacity: the capacity is at least the length.
#[verifier::external_body]
pub(crate) fn vec_capacity<T>(v: &Vec<T>) -> (r: usize)
    ensures
        r >= v@.len(),
{
    v.capacity()
}

/// Relies on Vec::reserve_exact: reserves capacity for at least
/// `additional` more elements without changing the contents.
#[verifier::external_body]
pub(crate) fn vec_reserve_exact<T>(v: &mut Vec<T>, additional: usize)
    ensures
        final(v)@ == old(v)@,
{
    v.reserve_exact(additional)
}

/// The memory-footprint estimate for a backing capacity of `cap` slots of
/// `size` bytes each, saturating at the machine word.
pub open spec fn spec_mem_size(cap: nat, size: nat) -> usize {
    if cap * size > usize::MAX {
        usize::MAX
    } else {
        (cap * size) as usize
    }
}

} // verus!
