//! The reserved "null" slot value used by the indirection array.
//!
//! The container marks an empty indirection slot with a reserved value of
//! `u32` instead of an explicit optional wrapper, so a slot needs no extra
//! tag bits. The reserved value and its test come from the `pi_null` crate.

use vstd::prelude::*;

verus! {

/// The reserved slot value meaning "absent": pi_null's null value for `u32`.
pub open spec fn spec_null_u32() -> u32 {
    u32::MAX
}

/// Relies on pi_null's `Null` impl for `u32`: `null()` returns `u32::MAX`.
#[verifier::external_body]
pub(crate) fn null_u32() -> (r: u32)
    ensures
        r == spec_null_u32(),
{
    <u32 as pi_null::Null>::null()
}

/// Relies on pi_null's `Null` impl for `u32`: `is_null` tests for `u32::MAX`.
#[verifier::external_body]
pub(crate) fn is_null_u32(v: u32) -> (r: bool)
    ensures
        r == (v == spec_null_u32()),
{
    pi_null::Null::is_null(&v)
}

} // verus!
