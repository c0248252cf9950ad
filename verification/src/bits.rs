//! Two's complement, bit masks and fixed-width arithmetic.
use vstd::arithmetic::power2::pow2;
use vstd::prelude::*;

verus! {

/// The signed reading of a 32-bit word.
pub open spec fn signed32(x: u32) -> int {
    if x < 0x8000_0000 {
        x as int
    } else {
        x - 0x1_0000_0000
    }
}

/// The signed reading of the low 16 bits of a word.
pub open spec fn signed16(x: int) -> int {
    if x % 0x1_0000 < 0x8000 {
        x % 0x1_0000
    } else {
        x % 0x1_0000 - 0x1_0000
    }
}

/// The signed reading of the low 8 bits of a word.
pub open spec fn signed8(x: int) -> int {
    if x % 0x100 < 0x80 {
        x % 0x100
    } else {
        x % 0x100 - 0x100
    }
}

/// The 32-bit word that holds an integer, modulo 2^32.
pub open spec fn wrap32(x: int) -> u32 {
    (x % 0x1_0000_0000) as u32
}

/// The 64-bit word that holds an integer, modulo 2^64.
pub open spec fn wrap64(x: int) -> u64 {
    (x % 0x1_0000_0000_0000_0000) as u64
}

/// `x` with the bits of `mask` all set or all cleared.
pub open spec fn put_spec(x: u32, mask: u32, on: bool) -> u32 {
    if on {
        x | mask
    } else {
        x & !mask
    }
}

/// Sets or clears the bits of `mask` in `x`.
#[verifier::when_used_as_spec(put_spec)]
pub fn put(x: u32, mask: u32, on: bool) -> (r: u32)
    ensures
        r == put_spec(x, mask, on),
{
    if on {
        x | mask
    } else {
        x & !mask
    }
}

proof fn lemma_casts(x: u32, y: i32, z: u64)
    by (bit_vector)
    ensures
        x < 0x8000_0000u32 ==> (x as i32) as int == x as int,
        x >= 0x8000_0000u32 ==> (x as i32) as int == x - 0x1_0000_0000int,
        y >= 0 ==> (y as u32) as int == y as int,
        y < 0 ==> (y as u32) as int == y + 0x1_0000_0000int,
        (z as u32) as int == z % 0x1_0000_0000u64,
        z >> 32 == z / 0x1_0000_0000u64,
{
}

/// Reinterprets a word as a signed number.
pub fn to_i32(x: u32) -> (r: i32)
    ensures
        r == signed32(x),
{
    proof {
        lemma_casts(x, 0, 0);
    }
    x as i32
}

/// `x` moved into the range from `lo` to `hi`.
pub open spec fn clamp(x: int, lo: int, hi: int) -> int {
    if x < lo {
        lo
    } else if x > hi {
        hi
    } else {
        x
    }
}

/// 2^s.
pub fn power(s: u32) -> (r: u64)
    requires
        s < 64,
    ensures
        r == pow2(s as nat),
        r >= 1,
{
    proof {
        vstd::arithmetic::power2::lemma2_to64();
        vstd::arithmetic::power2::lemma2_to64_rest();
        vstd::arithmetic::power2::lemma_pow2_pos(s as nat);
        vstd::arithmetic::power2::lemma_pow2_strictly_increases(s as nat, 64);
        vstd::bits::lemma_u64_shl_is_mul(1, s as u64);
    }
    1u64 << (s as u64)
}

/// The low 32 bits of an integer.
pub fn low32(v: i128) -> (r: u32)
    requires
        -0x1_0000_0000_0000_0000_0000_0000 <= v <= 0x1_0000_0000_0000_0000_0000_0000,
    ensures
        r == wrap32(v as int),
{
    let t: i128 = v + 0x1_0000_0000_0000_0000_0000_0000;
    (t as u128 % 0x1_0000_0000u128) as u32
}

/// The low 64 bits of an integer.
pub fn low64(v: i128) -> (r: u64)
    requires
        -0x1_0000_0000_0000_0000_0000_0000 <= v <= 0x1_0000_0000_0000_0000_0000_0000,
    ensures
        r == wrap64(v as int),
{
    let t: i128 = v + 0x1_0000_0000_0000_0000_0000_0000;
    (t as u128 % 0x1_0000_0000_0000_0000u128) as u64
}

/// A word rotated right by fewer than 32 places.
pub open spec fn rotated(x: u32, n: u32) -> u32 {
    if n == 0 {
        x
    } else {
        (x >> n) | (x << ((32 - n) as u32))
    }
}

/// Rotates a word right.
pub fn rotate(x: u32, n: u32) -> (r: u32)
    requires
        n < 32,
    ensures
        r == rotated(x, n),
{
    if n == 0 {
        x
    } else {
        (x >> n) | (x << (32 - n))
    }
}

} // verus!
