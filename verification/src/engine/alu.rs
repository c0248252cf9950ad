//! Data processing instructions.
//!
//! Each instruction has a function from state to state that says what it does, and
//! an executable function that does it. `update` tells whether the flags are
//! written.
use crate::bits::{low32, low64, rotate, rotated, signed16, signed32, signed8, to_i32, wrap32, wrap64};
use crate::cpu::CpuState;
use crate::engine::decode::{BitFieldKind, ExtendKind, RevKind, ShiftAmount, ShiftKind};
use vstd::arithmetic::power2::pow2;
use vstd::prelude::*;

verus! {

/// The second operand: a register if there is one, else the immediate, else 0.
pub open spec fn operand(cpu: CpuState, rm: Option<u8>, imm: Option<u32>) -> u32 {
    match rm {
        Some(r) => cpu.reg(r),
        None => match imm {
            Some(v) => v,
            None => 0,
        },
    }
}

pub(crate) fn get_operand(cpu: &CpuState, rm: Option<u8>, imm: Option<u32>) -> (r: u32)
    requires
        crate::engine::decode::reg_ok(rm),
    ensures
        r == operand(*cpu, rm, imm),
{
    match rm {
        Some(r) => cpu.get(r),
        None => match imm {
            Some(v) => v,
            None => 0,
        },
    }
}

/// PC + 4 rounded down to a multiple of four.
pub open spec fn pc_base(cpu: CpuState) -> u32 {
    let p = wrap32(cpu.regs[15] + 4);
    (p - p % 4) as u32
}

pub(crate) fn get_pc_base(cpu: &CpuState) -> (r: u32)
    ensures
        r == pc_base(*cpu),
{
    let p: u32 = cpu.regs[15].wrapping_add(4);
    p - p % 4
}

/// The first operand of an addition: PC stands for its aligned base.
pub open spec fn add_base(cpu: CpuState, rn: u8) -> u32 {
    if rn == 15 {
        pc_base(cpu)
    } else {
        cpu.reg(rn)
    }
}

pub(crate) fn get_add_base(cpu: &CpuState, rn: u8) -> (r: u32)
    requires
        rn < 16,
    ensures
        r == add_base(*cpu, rn),
{
    if rn == 15 {
        get_pc_base(cpu)
    } else {
        cpu.get(rn)
    }
}

/// A result without carry: N and Z may be updated.
pub open spec fn after_logical(cpu: CpuState, update: bool, rd: u8, r: u32) -> CpuState {
    (if update {
        cpu.with_nz(r)
    } else {
        cpu
    }).with_reg(rd, r)
}

pub(crate) fn logical(cpu: &mut CpuState, update: bool, rd: u8, r: u32)
    requires
        rd < 16,
    ensures
        *final(cpu) == after_logical(*old(cpu), update, rd, r),
{
    if update {
        cpu.set_nz(r);
    }
    cpu.set(rd, r);
}

/// The flags of `a + b + cin`.
pub open spec fn sum_flags(cpu: CpuState, update: bool, a: u32, b: u32, cin: int) -> CpuState {
    if update {
        cpu.with_nzcv(
            wrap32(a + b + cin),
            a + b + cin >= 0x1_0000_0000,
            signed32(a) + signed32(b) + cin,
        )
    } else {
        cpu
    }
}

/// Sets the flags of a sum and returns it.
pub(crate) fn sum(cpu: &mut CpuState, update: bool, a: u32, b: u32, cin: bool) -> (r: u32)
    ensures
        *final(cpu) == sum_flags(
            *old(cpu),
            update,
            a,
            b,
            if cin {
                1
            } else {
                0
            },
        ),
        r == wrap32(
            a + b + if cin {
                1int
            } else {
                0
            },
        ),
{
    let c: u64 = if cin {
        1
    } else {
        0
    };
    let ext: u64 = a as u64 + b as u64 + c;
    let r: u32 = (ext % 0x1_0000_0000) as u32;
    if update {
        let exact: i64 = to_i32(a) as i64 + to_i32(b) as i64 + c as i64;
        cpu.set_nzcv(r, ext >= 0x1_0000_0000, exact);
    }
    r
}

/// The flags of `a - b - bin`; the carry is set where there is no borrow.
pub open spec fn difference_flags(cpu: CpuState, update: bool, a: u32, b: u32, bin: int) -> CpuState {
    if update {
        cpu.with_nzcv(wrap32(a - b - bin), a - b - bin >= 0, signed32(a) - signed32(b) - bin)
    } else {
        cpu
    }
}

/// Sets the flags of a difference and returns it.
pub(crate) fn difference(cpu: &mut CpuState, update: bool, a: u32, b: u32, bin: bool) -> (r: u32)
    ensures
        *final(cpu) == difference_flags(
            *old(cpu),
            update,
            a,
            b,
            if bin {
                1
            } else {
                0
            },
        ),
        r == wrap32(
            a - b - if bin {
                1int
            } else {
                0
            },
        ),
{
    let c: i64 = if bin {
        1
    } else {
        0
    };
    let ext: i64 = a as i64 - b as i64 - c;
    let r: u32 = low32(ext as i128);
    if update {
        let exact: i64 = to_i32(a) as i64 - to_i32(b) as i64 - c;
        cpu.set_nzcv(r, ext >= 0, exact);
    }
    r
}

/// ADD.
pub open spec fn after_add(cpu: CpuState, update: bool, rd: u8, a: u32, b: u32) -> CpuState {
    sum_flags(cpu, update, a, b, 0).with_reg_synced(rd, wrap32(a + b))
}

pub(crate) fn add_to(cpu: &mut CpuState, update: bool, rd: u8, a: u32, b: u32)
    requires
        rd < 16,
    ensures
        *final(cpu) == after_add(*old(cpu), update, rd, a, b),
{
    let r: u32 = sum(cpu, update, a, b, false);
    cpu.set_synced(rd, r);
}

/// SUB.
pub open spec fn after_sub(cpu: CpuState, update: bool, rd: u8, a: u32, b: u32) -> CpuState {
    difference_flags(cpu, update, a, b, 0).with_reg_synced(rd, wrap32(a - b))
}

pub(crate) fn sub_to(cpu: &mut CpuState, update: bool, rd: u8, a: u32, b: u32)
    requires
        rd < 16,
    ensures
        *final(cpu) == after_sub(*old(cpu), update, rd, a, b),
{
    let r: u32 = difference(cpu, update, a, b, false);
    cpu.set_synced(rd, r);
}

/// RSB and NEG: a difference that does not move the stack pointers.
pub open spec fn after_rsb(cpu: CpuState, update: bool, rd: u8, a: u32, b: u32) -> CpuState {
    difference_flags(cpu, update, a, b, 0).with_reg(rd, wrap32(a - b))
}

pub(crate) fn rsb_to(cpu: &mut CpuState, update: bool, rd: u8, a: u32, b: u32)
    requires
        rd < 16,
    ensures
        *final(cpu) == after_rsb(*old(cpu), update, rd, a, b),
{
    let r: u32 = difference(cpu, update, a, b, false);
    cpu.set(rd, r);
}

/// ADC.
pub open spec fn after_adc(cpu: CpuState, update: bool, rd: u8, a: u32, b: u32) -> CpuState {
    let c = if cpu.carry() {
        1int
    } else {
        0
    };
    sum_flags(cpu, update, a, b, c).with_reg(rd, wrap32(a + b + c))
}

pub(crate) fn adc_to(cpu: &mut CpuState, update: bool, rd: u8, a: u32, b: u32)
    requires
        rd < 16,
    ensures
        *final(cpu) == after_adc(*old(cpu), update, rd, a, b),
{
    let c: bool = cpu.has_carry();
    let r: u32 = sum(cpu, update, a, b, c);
    cpu.set(rd, r);
}

/// SBC: borrows where the carry is clear.
pub open spec fn after_sbc(cpu: CpuState, update: bool, rd: u8, a: u32, b: u32) -> CpuState {
    let c = if cpu.carry() {
        0int
    } else {
        1
    };
    difference_flags(cpu, update, a, b, c).with_reg(rd, wrap32(a - b - c))
}

pub(crate) fn sbc_to(cpu: &mut CpuState, update: bool, rd: u8, a: u32, b: u32)
    requires
        rd < 16,
    ensures
        *final(cpu) == after_sbc(*old(cpu), update, rd, a, b),
{
    let c: bool = !cpu.has_carry();
    let r: u32 = difference(cpu, update, a, b, c);
    cpu.set(rd, r);
}

/// MOVW and MOVT.
pub open spec fn after_mov_imm(cpu: CpuState, rd: u8, imm16: u16, top: bool) -> CpuState {
    cpu.with_reg(
        rd,
        if top {
            (cpu.reg(rd) % 0x1_0000 + imm16 * 0x1_0000) as u32
        } else {
            imm16 as u32
        },
    )
}

pub(crate) fn mov_imm(cpu: &mut CpuState, rd: u8, imm16: u16, top: bool)
    requires
        rd < 16,
    ensures
        *final(cpu) == after_mov_imm(*old(cpu), rd, imm16, top),
{
    let v: u32 = if top {
        cpu.get(rd) % 0x1_0000 + imm16 as u32 * 0x1_0000
    } else {
        imm16 as u32
    };
    cpu.set(rd, v);
}

/// The arithmetic right shift: the sign bit fills.
pub open spec fn asr(val: u32, n: nat) -> u32 {
    wrap32(signed32(val) / (pow2(n) as int))
}

/// Shifts right by at most 31 places, filling with the sign bit.
pub(crate) fn asr32(val: u32, n: u8) -> (r: u32)
    requires
        n < 32,
    ensures
        r == asr(val, n as nat),
{
    let v: i64 = to_i32(val) as i64;
    let p: u64 = crate::bits::power(n as u32);
    proof {
        vstd::arithmetic::power2::lemma2_to64();
        if n < 31 {
            vstd::arithmetic::power2::lemma_pow2_strictly_increases(n as nat, 31);
        }
        vstd::arithmetic::div_mod::lemma_div_pos_is_pos(0x8000_0000_0000, p as int);
    }
    // A multiple of every power below 2^32 makes the dividend positive.
    let t: u64 = (v + 0x8000_0000_0000) as u64;
    let q: u64 = t / p;
    let k: u64 = 0x8000_0000_0000 / p;
    proof {
        lemma_shifted_quotient(v as int, p as int, n as nat);
        vstd::arithmetic::div_mod::lemma_div_is_ordered_by_denominator(t as int, 1, p as int);
        vstd::arithmetic::div_mod::lemma_div_is_ordered_by_denominator(
            0x8000_0000_0000,
            1,
            p as int,
        );
        vstd::arithmetic::div_mod::lemma_div_basics(t as int);
        vstd::arithmetic::div_mod::lemma_div_basics(0x8000_0000_0000);
    }
    low32(q as i128 - k as i128)
}

proof fn lemma_shifted_quotient(v: int, p: int, n: nat)
    requires
        p == pow2(n),
        n < 32,
    ensures
        p > 0,
        (v + 0x8000_0000_0000) / p - 0x8000_0000_0000int / p == v / p,
{
    vstd::arithmetic::power2::lemma_pow2_pos(n);
    vstd::arithmetic::power2::lemma2_to64_rest();
    vstd::arithmetic::power2::lemma_pow2_adds(n, (47 - n) as nat);
    let w = pow2((47 - n) as nat) as int;
    assert(p * w == 0x8000_0000_0000);
    vstd::arithmetic::div_mod::lemma_div_multiples_vanish(w, p);
    vstd::arithmetic::div_mod::lemma_hoist_over_denominator(v, w, p as nat);
    assert(p * w == w * p) by (nonlinear_arith);
}

/// The value of a shift by `n` places.
pub open spec fn shifted(val: u32, kind: ShiftKind, n: u8, carry: bool) -> u32 {
    match kind {
        ShiftKind::Lsl => if n >= 32 {
            0
        } else {
            val << n
        },
        ShiftKind::Lsr => if n >= 32 {
            0
        } else {
            val >> n
        },
        ShiftKind::Asr => if n >= 32 {
            asr(val, 31)
        } else {
            asr(val, n as nat)
        },
        ShiftKind::Ror => rotated(val, (n % 32) as u32),
        ShiftKind::Rrx => (val / 2 + if carry {
            0x8000_0000int
        } else {
            0
        }) as u32,
    }
}

/// Bit `i` of a word.
pub open spec fn bit_at(val: u32, i: int) -> bool {
    (val >> (i as u8)) & 1 != 0
}

/// The carry of a shift by `n` places: the last bit shifted out, clear where
/// nothing is. A left shift by 32 or more clears it; a right shift by 32 or more,
/// and a rotation by a multiple of 32, give the sign bit.
pub open spec fn shift_out(val: u32, kind: ShiftKind, n: u8) -> bool {
    match kind {
        ShiftKind::Lsl => 0 < n < 32 && bit_at(val, 32 - n),
        ShiftKind::Lsr | ShiftKind::Asr => if n >= 32 {
            bit_at(val, 31)
        } else {
            n > 0 && bit_at(val, n - 1)
        },
        ShiftKind::Ror => n > 0 && bit_at(
            val,
            if n % 32 == 0 {
                31
            } else {
                n % 32 - 1
            },
        ),
        ShiftKind::Rrx => bit_at(val, 0),
    }
}

pub(crate) fn shift_val(val: u32, kind: ShiftKind, n: u8, carry: bool) -> (r: u32)
    ensures
        r == shifted(val, kind, n, carry),
{
    match kind {
        ShiftKind::Lsl => if n >= 32 {
            0
        } else {
            val << n
        },
        ShiftKind::Lsr => if n >= 32 {
            0
        } else {
            val >> n
        },
        ShiftKind::Asr => if n >= 32 {
            asr32(val, 31)
        } else {
            asr32(val, n)
        },
        ShiftKind::Ror => rotate(val, (n % 32) as u32),
        ShiftKind::Rrx => if carry {
            val / 2 + 0x8000_0000
        } else {
            val / 2
        },
    }
}

fn test_bit(val: u32, i: u8) -> (r: bool)
    requires
        i < 32,
    ensures
        r == bit_at(val, i as int),
{
    (val >> i) & 1 != 0
}

pub(crate) fn shift_carry(val: u32, kind: ShiftKind, n: u8) -> (r: bool)
    ensures
        r == shift_out(val, kind, n),
{
    match kind {
        ShiftKind::Lsl => n > 0 && n < 32 && test_bit(val, 32 - n),
        ShiftKind::Lsr | ShiftKind::Asr => if n >= 32 {
            test_bit(val, 31)
        } else {
            n > 0 && test_bit(val, n - 1)
        },
        ShiftKind::Ror => if n == 0 {
            false
        } else if n % 32 == 0 {
            test_bit(val, 31)
        } else {
            test_bit(val, n % 32 - 1)
        },
        ShiftKind::Rrx => test_bit(val, 0),
    }
}

/// The number of places of a shift; a register gives its low byte.
pub open spec fn places(cpu: CpuState, amount: ShiftAmount) -> u8 {
    match amount {
        ShiftAmount::Immediate(n) => n,
        ShiftAmount::Register(r) => (cpu.reg(r) % 0x100) as u8,
    }
}

/// Shifts.
pub open spec fn after_shift(
    cpu: CpuState,
    update: bool,
    rd: u8,
    rm: u8,
    kind: ShiftKind,
    amount: ShiftAmount,
) -> CpuState {
    let n = places(cpu, amount);
    let r = shifted(cpu.reg(rm), kind, n, cpu.carry());
    (if update {
        cpu.with_nz(r).with_carry(shift_out(cpu.reg(rm), kind, n))
    } else {
        cpu
    }).with_reg(rd, r)
}

pub(crate) fn shift(
    cpu: &mut CpuState,
    update: bool,
    rd: u8,
    rm: u8,
    kind: ShiftKind,
    amount: ShiftAmount,
)
    requires
        rd < 16,
        rm < 16,
        amount.wf(),
    ensures
        *final(cpu) == after_shift(*old(cpu), update, rd, rm, kind, amount),
{
    let val: u32 = cpu.get(rm);
    let n: u8 = match amount {
        ShiftAmount::Immediate(n) => n,
        ShiftAmount::Register(r) => (cpu.get(r) % 0x100) as u8,
    };
    let r: u32 = shift_val(val, kind, n, cpu.has_carry());
    if update {
        cpu.set_nz(r);
        cpu.set_carry(shift_carry(val, kind, n));
    }
    cpu.set(rd, r);
}

/// The low 32 bits of a product.
pub(crate) fn mul_low(a: u32, b: u32) -> (r: u32)
    ensures
        r == wrap32(a * b),
{
    proof {
        assert(a * b <= 0xFFFF_FFFF * 0xFFFF_FFFF) by (nonlinear_arith)
            requires
                a <= 0xFFFF_FFFF,
                b <= 0xFFFF_FFFF,
        ;
    }
    (a as u64 * b as u64 % 0x1_0000_0000) as u32
}

/// A pair of registers as a 64-bit number.
pub open spec fn pair(cpu: CpuState, lo: u8, hi: u8) -> u64 {
    (cpu.reg(lo) + cpu.reg(hi) * 0x1_0000_0000) as u64
}

pub(crate) fn get_pair(cpu: &CpuState, lo: u8, hi: u8) -> (r: u64)
    requires
        lo < 16,
        hi < 16,
    ensures
        r == pair(*cpu, lo, hi),
{
    cpu.get(lo) as u64 + cpu.get(hi) as u64 * 0x1_0000_0000
}

/// The state with a pair of registers written, the low one first.
pub open spec fn with_pair(cpu: CpuState, lo: u8, hi: u8, v: u64) -> CpuState {
    cpu.with_reg(lo, (v % 0x1_0000_0000) as u32).with_reg(hi, (v / 0x1_0000_0000) as u32)
}

pub(crate) fn set_pair(cpu: &mut CpuState, lo: u8, hi: u8, v: u64)
    requires
        lo < 16,
        hi < 16,
    ensures
        *final(cpu) == with_pair(*old(cpu), lo, hi, v),
{
    cpu.set(lo, (v % 0x1_0000_0000) as u32);
    cpu.set(hi, (v / 0x1_0000_0000) as u32);
}

/// UMULL, SMULL and SMLAL: the product, added to the pair where `accumulate`,
/// modulo 2^64.
pub open spec fn after_mull(
    cpu: CpuState,
    lo: u8,
    hi: u8,
    a: u32,
    b: u32,
    signed: bool,
    accumulate: bool,
) -> CpuState {
    let product = if signed {
        signed32(a) * signed32(b)
    } else {
        a * b
    };
    let base = if accumulate {
        pair(cpu, lo, hi) as int
    } else {
        0
    };
    with_pair(cpu, lo, hi, wrap64(product + base))
}

pub(crate) fn mull(
    cpu: &mut CpuState,
    lo: u8,
    hi: u8,
    a: u32,
    b: u32,
    signed: bool,
    accumulate: bool,
)
    requires
        lo < 16,
        hi < 16,
    ensures
        *final(cpu) == after_mull(*old(cpu), lo, hi, a, b, signed, accumulate),
{
    let x: i128 = if signed {
        to_i32(a) as i128
    } else {
        a as i128
    };
    let y: i128 = if signed {
        to_i32(b) as i128
    } else {
        b as i128
    };
    proof {
        assert(-0x1_0000_0000_0000_0000 <= x * y <= 0x1_0000_0000_0000_0000) by (nonlinear_arith)
            requires
                -0x8000_0000 <= x <= 0xFFFF_FFFF,
                -0x8000_0000 <= y <= 0xFFFF_FFFF,
        ;
    }
    let base: i128 = if accumulate {
        get_pair(cpu, lo, hi) as i128
    } else {
        0
    };
    let r: u64 = low64(x * y + base);
    set_pair(cpu, lo, hi, r);
}

/// MLA and MLS.
pub open spec fn multiplied_in(acc: u32, a: u32, b: u32, sub: bool) -> u32 {
    if sub {
        wrap32(acc - wrap32(a * b))
    } else {
        wrap32(acc + wrap32(a * b))
    }
}

pub(crate) fn multiply_in(acc: u32, a: u32, b: u32, sub: bool) -> (r: u32)
    ensures
        r == multiplied_in(acc, a, b, sub),
{
    let p: u32 = mul_low(a, b);
    if sub {
        acc.wrapping_sub(p)
    } else {
        acc.wrapping_add(p)
    }
}

/// UDIV; division by zero gives 0.
pub open spec fn udiv(a: u32, b: u32) -> u32 {
    if b == 0 {
        0
    } else {
        a / b
    }
}

pub(crate) fn udiv_of(a: u32, b: u32) -> (r: u32)
    ensures
        r == udiv(a, b),
{
    if b == 0 {
        0
    } else {
        a / b
    }
}

/// The magnitude of an integer.
pub open spec fn abs(x: int) -> nat {
    (if x < 0 {
        -x
    } else {
        x
    }) as nat
}

/// SDIV rounds towards zero; division by zero gives 0, and the one quotient out of
/// range wraps.
pub open spec fn sdiv(a: u32, b: u32) -> u32 {
    let x = signed32(a);
    let y = signed32(b);
    if y == 0 {
        0
    } else {
        let q = (abs(x) / abs(y)) as int;
        wrap32(
            if (x < 0) == (y < 0) {
                q
            } else {
                -q
            },
        )
    }
}

pub(crate) fn sdiv_of(a: u32, b: u32) -> (r: u32)
    ensures
        r == sdiv(a, b),
{
    let x: i64 = to_i32(a) as i64;
    let y: i64 = to_i32(b) as i64;
    if y == 0 {
        return 0;
    }
    let ax: u64 = if x < 0 {
        (-x) as u64
    } else {
        x as u64
    };
    let ay: u64 = if y < 0 {
        (-y) as u64
    } else {
        y as u64
    };
    let q: u64 = ax / ay;
    if (x < 0) == (y < 0) {
        low32(q as i128)
    } else {
        low32(-(q as i128))
    }
}

/// The number of leading zeros of a word.
pub open spec fn clz(x: u32) -> int
    decreases x,
{
    if x == 0 {
        32
    } else {
        clz(x / 2) - 1
    }
}

pub(crate) fn clz_of(x: u32) -> (r: u32)
    ensures
        r == clz(x),
        r <= 32,
        x < 0x8000_0000 ==> r >= 1,
    decreases x,
{
    proof {
        lemma_clz_bounds(x);
        vstd::arithmetic::power2::lemma2_to64();
        assert(x < 0x8000_0000 ==> x < pow2(31));
    }
    if x == 0 {
        32
    } else {
        clz_of(x / 2) - 1
    }
}

proof fn lemma_clz_bounds(x: u32)
    ensures
        0 <= clz(x) <= 32,
        forall|k: nat| k <= 32 && x < #[trigger] pow2(k) ==> clz(x) >= 32 - k,
    decreases x,
{
    vstd::arithmetic::power2::lemma2_to64();
    if x > 0 {
        lemma_clz_bounds(x / 2);
        assert forall|k: nat| k <= 32 && x < #[trigger] pow2(k) implies clz(x) >= 32 - k by {
            if k == 0 {
                vstd::arithmetic::power2::lemma2_to64();
            } else {
                vstd::arithmetic::power2::lemma_pow2_unfold(k);
                assert((x / 2) < pow2((k - 1) as nat));
            }
        }
        assert(x < pow2(32));
    }
}

/// The low `n` bits of a word in reverse order.
pub open spec fn reversed(x: int, n: nat) -> int
    decreases n,
{
    if n == 0 {
        0
    } else {
        x % 2 * pow2((n - 1) as nat) + reversed(x / 2, (n - 1) as nat)
    }
}

/// RBIT.
pub(crate) fn rbit_of(x: u32) -> (r: u32)
    ensures
        r == reversed(x as int, 32),
{
    let mut rest: u32 = x;
    let mut acc: u64 = 0;
    let mut i: u32 = 0;
    proof {
        vstd::arithmetic::power2::lemma2_to64();
        assert(0 * pow2(32) == 0);
    }
    while i < 32
        invariant
            i <= 32,
            acc < pow2(i as nat),
            acc * pow2((32 - i) as nat) + reversed(rest as int, (32 - i) as nat) == reversed(
                x as int,
                32,
            ),
        decreases 32 - i,
    {
        proof {
            let n = (32 - i) as nat;
            vstd::arithmetic::power2::lemma_pow2_unfold(n);
            vstd::arithmetic::power2::lemma_pow2_unfold((i + 1) as nat);
            vstd::arithmetic::power2::lemma2_to64();
            if i < 31 {
                vstd::arithmetic::power2::lemma_pow2_strictly_increases((i + 1) as nat, 32);
            }
            let p = pow2((n - 1) as nat) as int;
            let b = rest % 2;
            assert(acc * (2 * p) == 2 * acc * p) by (nonlinear_arith);
            assert((2 * acc + b) * p == 2 * acc * p + b * p) by (nonlinear_arith);
        }
        acc = 2 * acc + (rest % 2) as u64;
        rest = rest / 2;
        i = i + 1;
    }
    proof {
        vstd::arithmetic::power2::lemma2_to64();
        assert(acc * 1 == acc);
    }
    acc as u32
}

/// REV, REV16 and REVSH.
pub open spec fn byte_reversed(v: u32, kind: RevKind) -> u32 {
    let b0 = v % 0x100;
    let b1 = v / 0x100 % 0x100;
    let b2 = v / 0x1_0000 % 0x100;
    let b3 = v / 0x100_0000;
    match kind {
        RevKind::Rev => (b0 * 0x100_0000 + b1 * 0x1_0000 + b2 * 0x100 + b3) as u32,
        RevKind::Rev16 => (b2 * 0x100_0000 + b3 * 0x1_0000 + b0 * 0x100 + b1) as u32,
        RevKind::RevSh => wrap32(signed16(b0 * 0x100 + b1)),
    }
}

/// Sign extends a halfword.
pub(crate) fn extend16(v: u32) -> (r: u32)
    ensures
        r == wrap32(signed16(v as int)),
{
    let h: u32 = v % 0x1_0000;
    if h < 0x8000 {
        h
    } else {
        h + 0xFFFF_0000
    }
}

/// Sign extends a byte.
pub(crate) fn extend8(v: u32) -> (r: u32)
    ensures
        r == wrap32(signed8(v as int)),
{
    let h: u32 = v % 0x100;
    if h < 0x80 {
        h
    } else {
        h + 0xFFFF_FF00
    }
}

pub(crate) fn reverse_bytes(v: u32, kind: RevKind) -> (r: u32)
    ensures
        r == byte_reversed(v, kind),
{
    let b0: u32 = v % 0x100;
    let b1: u32 = v / 0x100 % 0x100;
    let b2: u32 = v / 0x1_0000 % 0x100;
    let b3: u32 = v / 0x100_0000;
    match kind {
        RevKind::Rev => b0 * 0x100_0000 + b1 * 0x1_0000 + b2 * 0x100 + b3,
        RevKind::Rev16 => b2 * 0x100_0000 + b3 * 0x1_0000 + b0 * 0x100 + b1,
        RevKind::RevSh => extend16(b0 * 0x100 + b1),
    }
}

/// SXTH, SXTB, UXTH and UXTB.
pub open spec fn extended(v: u32, kind: ExtendKind) -> u32 {
    match kind {
        ExtendKind::Sxth => wrap32(signed16(v as int)),
        ExtendKind::Sxtb => wrap32(signed8(v as int)),
        ExtendKind::Uxth => v % 0x1_0000,
        ExtendKind::Uxtb => v % 0x100,
    }
}

pub(crate) fn extend(v: u32, kind: ExtendKind) -> (r: u32)
    ensures
        r == extended(v, kind),
{
    match kind {
        ExtendKind::Sxth => extend16(v),
        ExtendKind::Sxtb => extend8(v),
        ExtendKind::Uxth => v % 0x1_0000,
        ExtendKind::Uxtb => v % 0x100,
    }
}

/// A mask of the low `width` bits.
pub open spec fn low_mask(width: u8) -> u32 {
    if width >= 32 {
        0xFFFF_FFFF
    } else {
        ((1u32 << width) - 1) as u32
    }
}

fn make_mask(width: u8) -> (r: u32)
    ensures
        r == low_mask(width),
{
    if width >= 32 {
        0xFFFF_FFFF
    } else {
        proof {
            assert(1u32 << width >= 1) by (bit_vector)
                requires
                    width < 32,
            ;
        }
        (1u32 << width) - 1
    }
}

/// UBFX, SBFX, BFI and BFC: a field of `width` bits from bit `lsb`.
pub open spec fn bit_field(dst: u32, src: u32, lsb: u8, width: u8, kind: BitFieldKind) -> u32 {
    let mask = low_mask(width);
    match kind {
        BitFieldKind::Ubfx => (src >> lsb) & mask,
        BitFieldKind::Sbfx => {
            let u = (src >> lsb) & mask;
            if u & (1u32 << ((width - 1) as u8)) != 0 {
                u | !mask
            } else {
                u
            }
        },
        BitFieldKind::Bfi => (dst & !(mask << lsb)) | ((src << lsb) & (mask << lsb)),
        BitFieldKind::Bfc => dst & !(mask << lsb),
    }
}

pub(crate) fn bit_field_of(dst: u32, src: u32, lsb: u8, width: u8, kind: BitFieldKind) -> (r: u32)
    requires
        lsb < 32,
        kind == BitFieldKind::Sbfx ==> 1 <= width <= 32,
    ensures
        r == bit_field(dst, src, lsb, width, kind),
{
    let mask: u32 = make_mask(width);
    match kind {
        BitFieldKind::Ubfx => (src >> lsb) & mask,
        BitFieldKind::Sbfx => {
            let u: u32 = (src >> lsb) & mask;
            if u & (1u32 << (width - 1)) != 0 {
                u | !mask
            } else {
                u
            }
        },
        BitFieldKind::Bfi => (dst & !(mask << lsb)) | ((src << lsb) & (mask << lsb)),
        BitFieldKind::Bfc => dst & !(mask << lsb),
    }
}

} // verus!
