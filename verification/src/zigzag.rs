use vstd::prelude::*;

use crate::error::Error;

verus! {

/// ZigZag code of a 32-bit signed integer: non-negative `n` maps to `2n`,
/// negative `n` maps to `-2n - 1`, interleaving small magnitudes of either
/// sign onto small unsigned values.
pub open spec fn zigzag_encode32(n: i32) -> u32 {
    if n >= 0 {
        (2 * n) as u32
    } else {
        (-2 * (n as int) - 1) as u32
    }
}

/// ZigZag code of a 64-bit signed integer.
pub open spec fn zigzag_encode64(n: i64) -> u64 {
    if n >= 0 {
        (2 * n) as u64
    } else {
        (-2 * (n as int) - 1) as u64
    }
}

/// Inverse of the ZigZag mapping, on the full 128-bit varint payload: even
/// codes come from non-negative integers, odd codes from negative ones.
pub open spec fn zigzag_decode(n: u128) -> i128 {
    if n % 2 == 0 {
        (n / 2) as i128
    } else {
        (-((n / 2) as int) - 1) as i128
    }
}

/// ZigZag decoding narrowed to `i32`: the code must be a 32-bit value.
pub open spec fn zigzag_decode32_spec(n: u128) -> Result<i32, Error> {
    let v = zigzag_decode(n);
    if i32::MIN <= v <= i32::MAX {
        Ok(v as i32)
    } else {
        Err(Error::ValueOutOfRange { found: v, lower: i32::MIN as i128, upper: i32::MAX as i128 })
    }
}

/// ZigZag decoding narrowed to `i64`: the code must be a 64-bit value.
pub open spec fn zigzag_decode64_spec(n: u128) -> Result<i64, Error> {
    let v = zigzag_decode(n);
    if i64::MIN <= v <= i64::MAX {
        Ok(v as i64)
    } else {
        Err(Error::ValueOutOfRange { found: v, lower: i64::MIN as i128, upper: i64::MAX as i128 })
    }
}

/// Signed integers that have a ZigZag code of their own width.
pub trait ZigZag: Sized {
    type Output;

    /// The ZigZag code of `self`.
    spec fn encode_spec(&self) -> Self::Output;

    fn encode(&self) -> (r: Self::Output)
        ensures
            r == self.encode_spec(),
    ;
}

impl ZigZag for i32 {
    type Output = u32;

    open spec fn encode_spec(&self) -> u32 {
        zigzag_encode32(*self)
    }

    fn encode(&self) -> (r: u32) {
        let n: i32 = *self;
        if n >= 0 {
            (n as u32) * 2
        } else {
            let m: i32 = -(n + 1);
            (m as u32) * 2 + 1
        }
    }
}

impl ZigZag for i64 {
    type Output = u64;

    open spec fn encode_spec(&self) -> u64 {
        zigzag_encode64(*self)
    }

    fn encode(&self) -> (r: u64) {
        let n: i64 = *self;
        if n >= 0 {
            (n as u64) * 2
        } else {
            let m: i64 = -(n + 1);
            (m as u64) * 2 + 1
        }
    }
}

/// ZigZag-encodes a signed integer of either supported width.
pub fn encode<T: ZigZag>(n: T) -> (r: T::Output)
    ensures
        r == n.encode_spec(),
{
    n.encode()
}

/// ZigZag-decodes a varint payload without any range check.
pub fn decode_raw(n: u128) -> (r: i128)
    ensures
        r == zigzag_decode(n),
{
    if n % 2 == 0 {
        (n / 2) as i128
    } else {
        -((n / 2) as i128) - 1
    }
}

/// ZigZag-decodes a varint payload into an `i32`, rejecting codes wider than
/// 32 bits.
pub fn decode_i32(n: u128) -> (r: Result<i32, Error>)
    ensures
        r == zigzag_decode32_spec(n),
{
    let v: i128 = decode_raw(n);
    if i32::MIN as i128 <= v && v <= i32::MAX as i128 {
        Ok(v as i32)
    } else {
        Err(Error::ValueOutOfRange { found: v, lower: i32::MIN as i128, upper: i32::MAX as i128 })
    }
}

/// ZigZag-decodes a varint payload into an `i64`, rejecting codes wider than
/// 64 bits.
pub fn decode_i64(n: u128) -> (r: Result<i64, Error>)
    ensures
        r == zigzag_decode64_spec(n),
{
    let v: i128 = decode_raw(n);
    if i64::MIN as i128 <= v && v <= i64::MAX as i128 {
        Ok(v as i64)
    } else {
        Err(Error::ValueOutOfRange { found: v, lower: i64::MIN as i128, upper: i64::MAX as i128 })
    }
}

/// Law: the ZigZag mapping is a bijection on 32-bit integers — decoding an
/// encoded value gives the value back.
pub proof fn lemma_zigzag_roundtrip_i32(n: i32)
    ensures
        zigzag_decode32_spec(zigzag_encode32(n) as u128) == Ok::<i32, Error>(n),
{
}

/// Law: the ZigZag mapping is a bijection on 64-bit integers — decoding an
/// encoded value gives the value back.
pub proof fn lemma_zigzag_roundtrip_i64(n: i64)
    ensures
        zigzag_decode64_spec(zigzag_encode64(n) as u128) == Ok::<i64, Error>(n),
{
}

/// Law: a 32-bit ZigZag decode succeeds exactly on codes that fit in 32 bits.
pub proof fn lemma_zigzag_decode32_range(n: u128)
    ensures
        zigzag_decode32_spec(n) is Ok <==> n <= u32::MAX,
{
}

/// Law: a 64-bit ZigZag decode succeeds exactly on codes that fit in 64 bits.
pub proof fn lemma_zigzag_decode64_range(n: u128)
    ensures
        zigzag_decode64_spec(n) is Ok <==> n <= u64::MAX,
{
}

} // verus!
