//! DSP arithmetic: saturation and lanes.
//!
//! The functions compute values; the Q and GE flags are written by the executor.
use crate::bits::{clamp, power, signed16, signed8};
use crate::engine::decode::Simd16Kind;
use vstd::arithmetic::power2::pow2;
use vstd::prelude::*;

verus! {

/// The signed 32-bit range.
pub open spec fn sat_i32(x: int) -> int {
    clamp(x, -0x8000_0000, 0x7FFF_FFFF)
}

/// `x` saturated to a signed number of `n` bits; `n` is moved into 1 to 32.
pub open spec fn ssat_value(x: int, n: int) -> int {
    let w = (clamp(n, 1, 32) - 1) as nat;
    clamp(x, -(pow2(w) as int), pow2(w) - 1)
}

/// `x` saturated to an unsigned number of `n + 1` bits; `n` is moved into 0 to 31.
pub open spec fn usat_value(x: int, n: int) -> int {
    clamp(x, 0, pow2((clamp(n, 0, 31) + 1) as nat) - 1)
}

/// Saturates to a signed number of `bit_pos` bits.
pub fn ssat(val: i32, bit_pos: u32) -> (r: i32)
    ensures
        r == ssat_value(val as int, bit_pos as int),
{
    let n: u32 = if bit_pos < 1 {
        1
    } else if bit_pos > 32 {
        32
    } else {
        bit_pos
    };
    proof {
        vstd::arithmetic::power2::lemma2_to64();
        if n < 32 {
            vstd::arithmetic::power2::lemma_pow2_strictly_increases((n - 1) as nat, 31);
        }
    }
    let p: i64 = power(n - 1) as i64;
    let v: i64 = val as i64;
    if v < -p {
        (-p) as i32
    } else if v > p - 1 {
        (p - 1) as i32
    } else {
        val
    }
}

/// Saturates to an unsigned number of `bit_pos + 1` bits.
pub fn usat(val: i32, bit_pos: u32) -> (r: u32)
    ensures
        r == usat_value(val as int, bit_pos as int),
{
    let n: u32 = if bit_pos > 31 {
        31
    } else {
        bit_pos
    };
    proof {
        vstd::arithmetic::power2::lemma2_to64();
        if n < 31 {
            vstd::arithmetic::power2::lemma_pow2_strictly_increases((n + 1) as nat, 32);
        }
    }
    let max: u64 = power(n + 1) - 1;
    if val < 0 {
        0
    } else if val as u64 > max {
        max as u32
    } else {
        val as u32
    }
}

/// The number that saturates a sum.
fn saturate(x: i64) -> (r: (i32, bool))
    ensures
        r.0 == sat_i32(x as int),
        r.1 == (sat_i32(x as int) != x),
{
    if x > 0x7FFF_FFFF {
        (0x7FFF_FFFF, true)
    } else if x < -0x8000_0000 {
        (-0x8000_0000, true)
    } else {
        (x as i32, false)
    }
}

/// Saturating addition.
pub fn qadd(a: i32, b: i32) -> (r: i32)
    ensures
        r == sat_i32(a + b),
{
    saturate(a as i64 + b as i64).0
}

/// Saturating subtraction.
pub fn qsub(a: i32, b: i32) -> (r: i32)
    ensures
        r == sat_i32(a - b),
{
    saturate(a as i64 - b as i64).0
}

/// Saturating addition, and whether it saturated.
pub fn qadd_q(a: i32, b: i32) -> (r: (i32, bool))
    ensures
        r.0 == sat_i32(a + b),
        r.1 == (sat_i32(a + b) != a + b),
{
    saturate(a as i64 + b as i64)
}

/// Saturating subtraction, and whether it saturated.
pub fn qsub_q(a: i32, b: i32) -> (r: (i32, bool))
    ensures
        r.0 == sat_i32(a - b),
        r.1 == (sat_i32(a - b) != a - b),
{
    saturate(a as i64 - b as i64)
}

/// `a` plus the saturated double of `b`, and whether either step saturated.
pub fn qdadd_q(a: i32, b: i32) -> (r: (i32, bool))
    ensures
        r.0 == sat_i32(a + sat_i32(2 * b)),
        r.1 == (sat_i32(2 * b) != 2 * b || sat_i32(a + sat_i32(2 * b)) != a + sat_i32(2 * b)),
{
    let (db, s1): (i32, bool) = saturate(2 * (b as i64));
    let (r, s2): (i32, bool) = qadd_q(a, db);
    (r, s1 || s2)
}

/// `a` minus the saturated double of `b`, and whether either step saturated.
pub fn qdsub_q(a: i32, b: i32) -> (r: (i32, bool))
    ensures
        r.0 == sat_i32(a - sat_i32(2 * b)),
        r.1 == (sat_i32(2 * b) != 2 * b || sat_i32(a - sat_i32(2 * b)) != a - sat_i32(2 * b)),
{
    let (db, s1): (i32, bool) = saturate(2 * (b as i64));
    let (r, s2): (i32, bool) = qsub_q(a, db);
    (r, s1 || s2)
}

/// Saturating to a range twice is saturating once, the result lies in the range,
/// and what lies in the range stays as it is.
pub proof fn law_saturation(x: int, n: int)
    ensures
        ssat_value(ssat_value(x, n), n) == ssat_value(x, n),
        usat_value(usat_value(x, n), n) == usat_value(x, n),
        1 <= n <= 32 ==> -(pow2((n - 1) as nat) as int) <= ssat_value(x, n) < pow2((n - 1) as nat),
        0 <= n <= 31 ==> 0 <= usat_value(x, n) < pow2((n + 1) as nat),
        1 <= n <= 32 && -(pow2((n - 1) as nat) as int) <= x < pow2((n - 1) as nat) ==> ssat_value(
            x,
            n,
        ) == x,
        0 <= n <= 31 && 0 <= x < pow2((n + 1) as nat) ==> usat_value(x, n) == x,
{
    vstd::arithmetic::power2::lemma_pow2_pos((clamp(n, 1, 32) - 1) as nat);
    vstd::arithmetic::power2::lemma_pow2_pos((clamp(n, 0, 31) + 1) as nat);
}

/// The low halfword of a word.
pub open spec fn lo16(x: u32) -> int {
    x as int % 0x1_0000
}

/// The high halfword of a word.
pub open spec fn hi16(x: u32) -> int {
    x as int / 0x1_0000
}

/// The word with two halfwords, each modulo 2^16.
pub open spec fn pack16(lo: int, hi: int) -> u32 {
    (lo % 0x1_0000 + 0x1_0000 * (hi % 0x1_0000)) as u32
}

/// Adds the halfwords of two words.
pub fn sadd16(a: u32, b: u32) -> (r: u32)
    ensures
        r == pack16(lo16(a) + lo16(b), hi16(a) + hi16(b)),
{
    let lo: u32 = (a % 0x1_0000 + b % 0x1_0000) % 0x1_0000;
    let hi: u32 = (a / 0x1_0000 + b / 0x1_0000) % 0x1_0000;
    lo + 0x1_0000 * hi
}

/// Subtracts the halfwords of two words.
pub fn ssub16(a: u32, b: u32) -> (r: u32)
    ensures
        r == pack16(lo16(a) - lo16(b), hi16(a) - hi16(b)),
{
    let lo: u32 = (0x1_0000 + a % 0x1_0000 - b % 0x1_0000) % 0x1_0000;
    let hi: u32 = (0x1_0000 + a / 0x1_0000 - b / 0x1_0000) % 0x1_0000;
    lo + 0x1_0000 * hi
}

/// The exact low and high lane of a halfword operation.
pub open spec fn lanes16(a: u32, b: u32, kind: Simd16Kind) -> (int, int) {
    match kind {
        Simd16Kind::Add16 => (lo16(a) + lo16(b), hi16(a) + hi16(b)),
        Simd16Kind::Asx => (lo16(a) + hi16(b), hi16(a) - lo16(b)),
        Simd16Kind::Sax => (lo16(a) - hi16(b), hi16(a) + lo16(b)),
        Simd16Kind::Sub16 => (lo16(a) - lo16(b), hi16(a) - hi16(b)),
    }
}

/// Which lanes of a halfword operation add; the others subtract.
pub open spec fn adds16(kind: Simd16Kind) -> (bool, bool) {
    match kind {
        Simd16Kind::Add16 => (true, true),
        Simd16Kind::Asx => (true, false),
        Simd16Kind::Sax => (false, true),
        Simd16Kind::Sub16 => (false, false),
    }
}

/// The GE bit of a lane: for unsigned lanes the carry of an addition and the
/// absence of a borrow of a subtraction, for signed lanes that the result read as
/// a signed halfword is not negative.
pub open spec fn ge16(lane: int, add: bool, unsigned: bool) -> bool {
    if !unsigned {
        signed16(lane) >= 0
    } else if add {
        lane > 0xFFFF
    } else {
        lane >= 0
    }
}

/// A number with the given bits, lowest first.
pub open spec fn flag_bits(b0: bool, b1: bool, b2: bool, b3: bool) -> u8 {
    ((if b0 {
        1int
    } else {
        0
    }) + (if b1 {
        2int
    } else {
        0
    }) + (if b2 {
        4int
    } else {
        0
    }) + (if b3 {
        8int
    } else {
        0
    })) as u8
}

fn make_flags(b0: bool, b1: bool, b2: bool, b3: bool) -> (r: u8)
    ensures
        r == flag_bits(b0, b1, b2, b3),
        r < 16,
        !b2 && !b3 ==> r < 4,
{
    let mut r: u8 = 0;
    if b0 {
        r = r + 1;
    }
    if b1 {
        r = r + 2;
    }
    if b2 {
        r = r + 4;
    }
    if b3 {
        r = r + 8;
    }
    r
}

/// Result and GE[1:0] of a halfword lane operation.
pub open spec fn simd16_value(a: u32, b: u32, kind: Simd16Kind, unsigned: bool) -> (u32, u8) {
    let (lo, hi) = lanes16(a, b, kind);
    (
        pack16(lo, hi),
        flag_bits(
            ge16(lo, adds16(kind).0, unsigned),
            ge16(hi, adds16(kind).1, unsigned),
            false,
            false,
        ),
    )
}

fn lane_ge16(lane: i32, add: bool, unsigned: bool) -> (r: bool)
    requires
        -0x1_0000 < lane < 0x2_0000,
    ensures
        r == ge16(lane as int, add, unsigned),
{
    if !unsigned {
        wrap_lane16(lane) < 0x8000
    } else if add {
        lane > 0xFFFF
    } else {
        lane >= 0
    }
}

/// A lane modulo 2^16.
fn wrap_lane16(lane: i32) -> (r: u32)
    requires
        -0x1_0000 < lane < 0x2_0000,
    ensures
        r == lane as int % 0x1_0000,
        r < 0x1_0000,
{
    (lane + 0x1_0000) as u32 % 0x1_0000
}

/// Halfword lanes: the result and GE[1:0].
pub fn simd16(a: u32, b: u32, kind: Simd16Kind, unsigned: bool) -> (r: (u32, u8))
    ensures
        r == simd16_value(a, b, kind, unsigned),
        r.1 < 4,
{
    let al: i32 = (a % 0x1_0000) as i32;
    let ah: i32 = (a / 0x1_0000) as i32;
    let bl: i32 = (b % 0x1_0000) as i32;
    let bh: i32 = (b / 0x1_0000) as i32;
    let (lo_add, hi_add, lo, hi): (bool, bool, i32, i32) = match kind {
        Simd16Kind::Add16 => (true, true, al + bl, ah + bh),
        Simd16Kind::Asx => (true, false, al + bh, ah - bl),
        Simd16Kind::Sax => (false, true, al - bh, ah + bl),
        Simd16Kind::Sub16 => (false, false, al - bl, ah - bh),
    };
    let res_lo: u32 = wrap_lane16(lo);
    let res_hi: u32 = wrap_lane16(hi);
    let ge: u8 = make_flags(
        lane_ge16(lo, lo_add, unsigned),
        lane_ge16(hi, hi_add, unsigned),
        false,
        false,
    );
    (res_lo + 0x1_0000 * res_hi, ge)
}

/// Byte `n` of a word.
pub open spec fn byte_of(x: u32, n: int) -> int {
    if n == 0 {
        x as int % 0x100
    } else if n == 1 {
        x as int / 0x100 % 0x100
    } else if n == 2 {
        x as int / 0x1_0000 % 0x100
    } else {
        x as int / 0x100_0000
    }
}

/// The exact sum or difference of two bytes.
pub open spec fn exact8(x: int, y: int, unsigned: bool, sub: bool) -> int {
    let p = if unsigned {
        x
    } else {
        signed8(x)
    };
    let q = if unsigned {
        y
    } else {
        signed8(y)
    };
    if sub {
        p - q
    } else {
        p + q
    }
}

/// A byte lane: the sum or its half, modulo 2^8.
pub open spec fn lane8(x: int, y: int, unsigned: bool, halving: bool, sub: bool) -> int {
    let s = exact8(x, y, unsigned, sub);
    if halving {
        s / 2 % 0x100
    } else {
        s % 0x100
    }
}

/// The GE bit of a byte lane: the carry, the absence of a borrow, or that the
/// exact signed result is not negative. Halving operations clear it.
pub open spec fn ge8(x: int, y: int, unsigned: bool, halving: bool, sub: bool) -> bool {
    let s = exact8(x, y, unsigned, sub);
    !halving && (if unsigned && !sub {
        s > 0xFF
    } else {
        s >= 0
    })
}

/// Result and GE[3:0] of a byte lane operation.
pub open spec fn simd8_value(a: u32, b: u32, unsigned: bool, halving: bool, sub: bool) -> (
    u32,
    u8,
) {
    let lane = |n: int| lane8(byte_of(a, n), byte_of(b, n), unsigned, halving, sub);
    let ge = |n: int| ge8(byte_of(a, n), byte_of(b, n), unsigned, halving, sub);
    (
        (lane(0) + 0x100 * lane(1) + 0x1_0000 * lane(2) + 0x100_0000 * lane(3)) as u32,
        flag_bits(ge(0), ge(1), ge(2), ge(3)),
    )
}

/// A byte as a number.
fn number8(x: u32, unsigned: bool) -> (r: i32)
    requires
        x < 0x100,
    ensures
        r == if unsigned {
            x as int
        } else {
            signed8(x as int)
        },
        -0x80 <= r < 0x100,
{
    if unsigned || x < 0x80 {
        x as i32
    } else {
        x as i32 - 0x100
    }
}

/// A sum, or its half, modulo 2^8.
fn wrap_lane8(s: i32, halving: bool) -> (r: u32)
    requires
        -0x200 <= s <= 0x200,
    ensures
        r == if halving {
            s as int / 2 % 0x100
        } else {
            s as int % 0x100
        },
        r < 0x100,
{
    let u: u32 = (s + 0x1000) as u32;
    if halving {
        u / 2 % 0x100
    } else {
        u % 0x100
    }
}

fn simd8_lane(x: u32, y: u32, unsigned: bool, halving: bool, sub: bool) -> (r: (u32, bool))
    requires
        x < 0x100,
        y < 0x100,
    ensures
        r.0 == lane8(x as int, y as int, unsigned, halving, sub),
        r.0 < 0x100,
        r.1 == ge8(x as int, y as int, unsigned, halving, sub),
{
    let p: i32 = number8(x, unsigned);
    let q: i32 = number8(y, unsigned);
    let s: i32 = if sub {
        p - q
    } else {
        p + q
    };
    let byte: u32 = wrap_lane8(s, halving);
    let flag: bool = !halving && (if unsigned && !sub {
        s > 0xFF
    } else {
        s >= 0
    });
    (byte, flag)
}

/// Byte lanes: the result and GE[3:0].
pub fn simd8(a: u32, b: u32, unsigned: bool, halving: bool, sub: bool) -> (r: (u32, u8))
    ensures
        r == simd8_value(a, b, unsigned, halving, sub),
        r.1 < 16,
{
    let (r0, g0): (u32, bool) = simd8_lane(a % 0x100, b % 0x100, unsigned, halving, sub);
    let (r1, g1): (u32, bool) = simd8_lane(
        a / 0x100 % 0x100,
        b / 0x100 % 0x100,
        unsigned,
        halving,
        sub,
    );
    let (r2, g2): (u32, bool) = simd8_lane(
        a / 0x1_0000 % 0x100,
        b / 0x1_0000 % 0x100,
        unsigned,
        halving,
        sub,
    );
    let (r3, g3): (u32, bool) = simd8_lane(a / 0x100_0000, b / 0x100_0000, unsigned, halving, sub);
    (r0 + 0x100 * r1 + 0x1_0000 * r2 + 0x100_0000 * r3, make_flags(g0, g1, g2, g3))
}

/// The halfwords of an operand, sign extended: low and high, or swapped.
pub fn dual_half_operands(rm: u32, swap: bool) -> (r: (i32, i32))
    ensures
        !swap ==> r.0 == signed16(lo16(rm)) && r.1 == signed16(hi16(rm)),
        swap ==> r.0 == signed16(hi16(rm)) && r.1 == signed16(lo16(rm)),
{
    let l: i32 = (rm % 0x1_0000) as i32;
    let h: i32 = (rm / 0x1_0000) as i32;
    let lo: i32 = if l < 0x8000 {
        l
    } else {
        l - 0x1_0000
    };
    let hi: i32 = if h < 0x8000 {
        h
    } else {
        h - 0x1_0000
    };
    if swap {
        (hi, lo)
    } else {
        (lo, hi)
    }
}

} // verus!
