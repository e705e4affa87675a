//! Two's-complement reinterpretation between signed and unsigned integers.
//!
//! The variable-length integer codec works on unsigned accumulators; signed
//! values are carried through it by reinterpreting their bit pattern. These
//! helpers state that reinterpretation exactly, as a shift by `2^32` (or
//! `2^64`) on the mathematical value.

use vstd::prelude::*;

verus! {

/// The mathematical value of the `i32` whose two's-complement bit pattern is `v`.
pub open spec fn spec_i32_from_u32_2c(v: u32) -> int {
    if v < 0x8000_0000 {
        v as int
    } else {
        v - 0x1_0000_0000
    }
}

/// The mathematical value of the `u32` whose bit pattern equals that of `v`.
pub open spec fn spec_i32_to_u32_2c(v: i32) -> int {
    if v >= 0 {
        v as int
    } else {
        v + 0x1_0000_0000
    }
}

/// The mathematical value of the `i64` whose two's-complement bit pattern is `v`.
pub open spec fn spec_i64_from_u64_2c(v: u64) -> int {
    if v < 0x8000_0000_0000_0000 {
        v as int
    } else {
        v - 0x1_0000_0000_0000_0000
    }
}

/// The mathematical value of the `u64` whose bit pattern equals that of `v`.
pub open spec fn spec_i64_to_u64_2c(v: i64) -> int {
    if v >= 0 {
        v as int
    } else {
        v + 0x1_0000_0000_0000_0000
    }
}

/// Reinterprets the bits of a `u32` as an `i32`.
pub fn i32_from_u32_2c(v: u32) -> (r: i32)
    ensures
        r as int == spec_i32_from_u32_2c(v),
{
    proof {
        assert(#[verifier::truncate] (v as i32) as int == spec_i32_from_u32_2c(v)) by (bit_vector);
    }
    #[verifier::truncate] (v as i32)
}

/// Reinterprets the bits of an `i32` as a `u32`.
pub fn i32_to_u32_2c(v: i32) -> (r: u32)
    ensures
        r as int == spec_i32_to_u32_2c(v),
{
    proof {
        assert(#[verifier::truncate] (v as u32) as int == spec_i32_to_u32_2c(v)) by (bit_vector);
    }
    #[verifier::truncate] (v as u32)
}

/// Reinterprets the bits of a `u64` as an `i64`.
pub fn i64_from_u64_2c(v: u64) -> (r: i64)
    ensures
        r as int == spec_i64_from_u64_2c(v),
{
    proof {
        assert(#[verifier::truncate] (v as i64) as int == spec_i64_from_u64_2c(v)) by (bit_vector);
    }
    #[verifier::truncate] (v as i64)
}

/// Reinterprets the bits of an `i64` as a `u64`.
pub fn i64_to_u64_2c(v: i64) -> (r: u64)
    ensures
        r as int == spec_i64_to_u64_2c(v),
{
    proof {
        assert(#[verifier::truncate] (v as u64) as int == spec_i64_to_u64_2c(v)) by (bit_vector);
    }
    #[verifier::truncate] (v as u64)
}

/// Reinterpreting there and back is the identity.
pub proof fn lemma_u32_2c_round_trip(v: i32)
    ensures
        spec_i32_from_u32_2c((spec_i32_to_u32_2c(v)) as u32) == v as int,
{
}

/// Reinterpreting there and back is the identity.
pub proof fn lemma_u64_2c_round_trip(v: i64)
    ensures
        spec_i64_from_u64_2c((spec_i64_to_u64_2c(v)) as u64) == v as int,
{
}

} // verus!
