//! Zig-zag mapping between signed and unsigned integers.
//!
//! Small magnitudes of either sign map to small unsigned numbers:
//! `0, -1, 1, -2, 2, ...` become `0, 1, 2, 3, 4, ...`.

use vstd::prelude::*;

verus! {

/// The zig-zag image of `n`: `2n` for `n >= 0`, `-2n - 1` for `n < 0`.
pub open spec fn zigzag(n: int) -> int {
    if n >= 0 {
        2 * n
    } else {
        -2 * n - 1
    }
}

/// The inverse of [`zigzag`]: even numbers are halved, odd numbers come from
/// the negatives.
pub open spec fn unzigzag(u: int) -> int {
    if u % 2 == 0 {
        u / 2
    } else {
        -(u / 2) - 1
    }
}

/// Zig-zag is a bijection between the integers and the naturals, and it
/// maps each signed width onto the unsigned width of the same size, so
/// neither direction can overflow.
pub proof fn lemma_zigzag_roundtrip(n: int)
    ensures
        zigzag(n) >= 0,
        unzigzag(zigzag(n)) == n,
        n >= 0 ==> zigzag(unzigzag(n)) == n,
        i32::MIN <= n <= i32::MAX <==> 0 <= zigzag(n) <= u32::MAX,
        i64::MIN <= n <= i64::MAX <==> 0 <= zigzag(n) <= u64::MAX,
        i16::MIN <= n <= i16::MAX <==> 0 <= zigzag(n) <= u16::MAX,
{
}

/// Zig-zag encodes a 32-bit signed integer.
pub fn zigzag32(n: i32) -> (u: u32)
    ensures
        u == zigzag(n as int),
{
    assert((((n as u32) << 1) ^ ((n >> 31) as u32)) == (if n >= 0 {
        (2 * n) as u32
    } else {
        (-2 * n - 1) as u32
    })) by (bit_vector);
    ((n as u32) << 1) ^ ((n >> 31) as u32)
}

/// Zig-zag encodes a 64-bit signed integer.
pub fn zigzag64(n: i64) -> (u: u64)
    ensures
        u == zigzag(n as int),
{
    assert((((n as u64) << 1) ^ ((n >> 63) as u64)) == (if n >= 0 {
        (2 * n) as u64
    } else {
        (-2 * n - 1) as u64
    })) by (bit_vector);
    ((n as u64) << 1) ^ ((n >> 63) as u64)
}

/// Zig-zag decodes a 32-bit unsigned integer.
pub fn unzigzag32(u: u32) -> (n: i32)
    ensures
        n == unzigzag(u as int),
{
    let half: i32 = (u / 2) as i32;
    if u % 2 == 0 {
        half
    } else {
        -half - 1
    }
}

/// Zig-zag decodes a 64-bit unsigned integer.
pub fn unzigzag64(u: u64) -> (n: i64)
    ensures
        n == unzigzag(u as int),
{
    let half: i64 = (u / 2) as i64;
    if u % 2 == 0 {
        half
    } else {
        -half - 1
    }
}

} // verus!
