//! DSP instructions.
use crate::bits::{low32, low64, signed16, signed32, to_i32, wrap32, wrap64};
use crate::cpu::CpuState;
use crate::engine::alu::{asr, asr32, get_pair, pair, set_pair, with_pair};
use crate::engine::decode::{DspShiftKind, QAddKind, Simd16Kind};
use crate::engine::dsp;
use vstd::prelude::*;

verus! {

/// The operand of SSAT and USAT: shifted left, or right with the sign bit, where 0
/// places to the right stand for 32.
pub open spec fn sat_operand(t: u32, kind: DspShiftKind, imm: u8) -> u32 {
    let n = (imm % 32) as u8;
    match kind {
        DspShiftKind::Lsl => t << n,
        DspShiftKind::Asr => if n == 0 {
            asr(t, 31)
        } else {
            asr(t, n as nat)
        },
    }
}

fn get_sat_operand(t: u32, kind: DspShiftKind, imm: u8) -> (r: u32)
    ensures
        r == sat_operand(t, kind, imm),
{
    let n: u8 = imm % 32;
    match kind {
        DspShiftKind::Lsl => t << n,
        DspShiftKind::Asr => if n == 0 {
            asr32(t, 31)
        } else {
            asr32(t, n)
        },
    }
}

/// SSAT and USAT: the saturated operand; Q is set where it changed.
pub open spec fn after_sat(
    cpu: CpuState,
    rd: u8,
    rn: u8,
    n: u8,
    signed: bool,
    kind: DspShiftKind,
    imm: u8,
) -> CpuState {
    let x = signed32(sat_operand(cpu.reg(rn), kind, imm));
    let y = if signed {
        dsp::ssat_value(x, n as int)
    } else {
        dsp::usat_value(x, n as int)
    };
    cpu.with_q(y != x).with_reg(rd, wrap32(y))
}

pub(crate) fn sat(
    cpu: &mut CpuState,
    rd: u8,
    rn: u8,
    n: u8,
    signed: bool,
    kind: DspShiftKind,
    imm: u8,
)
    requires
        rd < 16,
        rn < 16,
    ensures
        *final(cpu) == after_sat(*old(cpu), rd, rn, n, signed, kind, imm),
{
    let x: i32 = to_i32(get_sat_operand(cpu.get(rn), kind, imm));
    if signed {
        let y: i32 = dsp::ssat(x, n as u32);
        cpu.set_q(y != x);
        cpu.set(rd, low32(y as i128));
    } else {
        let y: u32 = dsp::usat(x, n as u32);
        cpu.set_q(y as i64 != x as i64);
        cpu.set(rd, y);
    }
}

/// The exact result of a saturating addition before its last saturation, and
/// whether the doubling saturated.
pub open spec fn qadd_exact(a: int, b: int, kind: QAddKind) -> (int, bool) {
    match kind {
        QAddKind::Qadd => (a + b, false),
        QAddKind::Qsub => (a - b, false),
        QAddKind::Qdadd => (a + dsp::sat_i32(2 * b), dsp::sat_i32(2 * b) != 2 * b),
        QAddKind::Qdsub => (a - dsp::sat_i32(2 * b), dsp::sat_i32(2 * b) != 2 * b),
    }
}

/// QADD, QSUB, QDADD and QDSUB of Rm and Rn; Q is set where a step saturated.
pub open spec fn after_qadd(cpu: CpuState, rd: u8, rn: u8, rm: u8, kind: QAddKind) -> CpuState {
    let (x, early) = qadd_exact(signed32(cpu.reg(rm)), signed32(cpu.reg(rn)), kind);
    cpu.with_q(early || dsp::sat_i32(x) != x).with_reg(rd, wrap32(dsp::sat_i32(x)))
}

pub(crate) fn qadd(cpu: &mut CpuState, rd: u8, rn: u8, rm: u8, kind: QAddKind)
    requires
        rd < 16,
        rn < 16,
        rm < 16,
    ensures
        *final(cpu) == after_qadd(*old(cpu), rd, rn, rm, kind),
{
    let a: i32 = to_i32(cpu.get(rm));
    let b: i32 = to_i32(cpu.get(rn));
    let (r, sat): (i32, bool) = match kind {
        QAddKind::Qadd => dsp::qadd_q(a, b),
        QAddKind::Qsub => dsp::qsub_q(a, b),
        QAddKind::Qdadd => dsp::qdadd_q(a, b),
        QAddKind::Qdsub => dsp::qdsub_q(a, b),
    };
    cpu.set_q(sat);
    cpu.set(rd, low32(r as i128));
}

/// The status word with the low GE bits written: `mask` covers them, at bit 16.
pub open spec fn with_ge(cpu: CpuState, mask: u32, ge: u8) -> CpuState {
    CpuState { xpsr: (cpu.xpsr & !mask) | (((ge as u32) << 16u32) & mask), ..cpu }
}

fn set_ge(cpu: &mut CpuState, mask: u32, ge: u8)
    ensures
        *final(cpu) == with_ge(*old(cpu), mask, ge),
{
    cpu.xpsr = (cpu.xpsr & !mask) | (((ge as u32) << 16u32) & mask);
}

/// Halfword lanes; GE[1:0] are written.
pub open spec fn after_simd16(
    cpu: CpuState,
    rd: u8,
    rn: u8,
    rm: u8,
    kind: Simd16Kind,
    unsigned: bool,
) -> CpuState {
    let (r, ge) = dsp::simd16_value(cpu.reg(rn), cpu.reg(rm), kind, unsigned);
    with_ge(cpu.with_reg(rd, r), 0x0003_0000, ge)
}

pub(crate) fn simd16(
    cpu: &mut CpuState,
    rd: u8,
    rn: u8,
    rm: u8,
    kind: Simd16Kind,
    unsigned: bool,
)
    requires
        rd < 16,
        rn < 16,
        rm < 16,
    ensures
        *final(cpu) == after_simd16(*old(cpu), rd, rn, rm, kind, unsigned),
{
    let (r, ge): (u32, u8) = dsp::simd16(cpu.get(rn), cpu.get(rm), kind, unsigned);
    cpu.set(rd, r);
    set_ge(cpu, 0x0003_0000, ge);
}

/// Byte lanes; GE[3:0] are written.
pub open spec fn after_simd8(
    cpu: CpuState,
    rd: u8,
    rn: u8,
    rm: u8,
    unsigned: bool,
    halving: bool,
    sub: bool,
) -> CpuState {
    let (r, ge) = dsp::simd8_value(cpu.reg(rn), cpu.reg(rm), unsigned, halving, sub);
    with_ge(cpu.with_reg(rd, r), 0x000F_0000, ge)
}

pub(crate) fn simd8(
    cpu: &mut CpuState,
    rd: u8,
    rn: u8,
    rm: u8,
    unsigned: bool,
    halving: bool,
    sub: bool,
)
    requires
        rd < 16,
        rn < 16,
        rm < 16,
    ensures
        *final(cpu) == after_simd8(*old(cpu), rd, rn, rm, unsigned, halving, sub),
{
    let (r, ge): (u32, u8) = dsp::simd8(cpu.get(rn), cpu.get(rm), unsigned, halving, sub);
    cpu.set(rd, r);
    set_ge(cpu, 0x000F_0000, ge);
}

/// The sum or difference of the two signed halfword products, those of `b` taken
/// crosswise where `swap`.
pub open spec fn dual_product(a: u32, b: u32, swap: bool, sub: bool) -> int {
    let (al, ah) = (signed16(dsp::lo16(a)), signed16(dsp::hi16(a)));
    let (bl, bh) = (signed16(dsp::lo16(b)), signed16(dsp::hi16(b)));
    let p = if swap {
        al * bh
    } else {
        al * bl
    };
    let q = if swap {
        ah * bl
    } else {
        ah * bh
    };
    if sub {
        p - q
    } else {
        p + q
    }
}

fn get_dual_product(a: u32, b: u32, swap: bool, sub: bool) -> (r: i64)
    ensures
        r == dual_product(a, b, swap, sub),
        -0x8000_0000 <= r <= 0x8000_0000,
{
    let (al, ah): (i32, i32) = dsp::dual_half_operands(a, false);
    let (x, y): (i32, i32) = dsp::dual_half_operands(b, swap);
    proof {
        assert(-0x4000_0000 <= al * x <= 0x4000_0000) by (nonlinear_arith)
            requires
                -0x8000 <= al <= 0x7FFF,
                -0x8000 <= x <= 0x7FFF,
        ;
        assert(-0x4000_0000 <= ah * y <= 0x4000_0000) by (nonlinear_arith)
            requires
                -0x8000 <= ah <= 0x7FFF,
                -0x8000 <= y <= 0x7FFF,
        ;
    }
    let p: i64 = al as i64 * x as i64;
    let q: i64 = ah as i64 * y as i64;
    if sub {
        p - q
    } else {
        p + q
    }
}

/// SMUAD, SMUSD, SMLAD and SMLSD, modulo 2^32.
pub open spec fn after_dual(
    cpu: CpuState,
    rd: u8,
    rn: u8,
    rm: u8,
    acc: int,
    swap: bool,
    sub: bool,
) -> CpuState {
    cpu.with_reg(rd, wrap32(acc + dual_product(cpu.reg(rn), cpu.reg(rm), swap, sub)))
}

pub(crate) fn dual(
    cpu: &mut CpuState,
    rd: u8,
    rn: u8,
    rm: u8,
    acc: u32,
    swap: bool,
    sub: bool,
)
    requires
        rd < 16,
        rn < 16,
        rm < 16,
    ensures
        *final(cpu) == after_dual(*old(cpu), rd, rn, rm, acc as int, swap, sub),
{
    let p: i64 = get_dual_product(cpu.get(rn), cpu.get(rm), swap, sub);
    cpu.set(rd, low32(acc as i128 + p as i128));
}

/// SMLALD and SMLSLD, modulo 2^64.
pub open spec fn after_dual_long(
    cpu: CpuState,
    lo: u8,
    hi: u8,
    rn: u8,
    rm: u8,
    swap: bool,
    sub: bool,
) -> CpuState {
    with_pair(
        cpu,
        lo,
        hi,
        wrap64(pair(cpu, lo, hi) + dual_product(cpu.reg(rn), cpu.reg(rm), swap, sub)),
    )
}

pub(crate) fn dual_long(
    cpu: &mut CpuState,
    lo: u8,
    hi: u8,
    rn: u8,
    rm: u8,
    swap: bool,
    sub: bool,
)
    requires
        lo < 16,
        hi < 16,
        rn < 16,
        rm < 16,
    ensures
        *final(cpu) == after_dual_long(*old(cpu), lo, hi, rn, rm, swap, sub),
{
    let p: i64 = get_dual_product(cpu.get(rn), cpu.get(rm), swap, sub);
    let acc: u64 = get_pair(cpu, lo, hi);
    let r: u64 = low64(acc as i128 + p as i128);
    set_pair(cpu, lo, hi, r);
}

/// PKHBT takes the low half of Rn and the high half of Rm shifted left; PKHTB the
/// high half of Rn and the low half of Rm shifted right with the sign bit, where 0
/// places stand for 32.
pub open spec fn packed(n: u32, m: u32, tb: bool, imm: u8) -> u32 {
    if tb {
        (n / 0x1_0000 * 0x1_0000 + sat_operand(m, DspShiftKind::Asr, imm) % 0x1_0000) as u32
    } else {
        (sat_operand(m, DspShiftKind::Lsl, imm) / 0x1_0000 * 0x1_0000 + n % 0x1_0000) as u32
    }
}

pub(crate) fn pack(n: u32, m: u32, tb: bool, imm: u8) -> (r: u32)
    ensures
        r == packed(n, m, tb, imm),
{
    if tb {
        n / 0x1_0000 * 0x1_0000 + get_sat_operand(m, DspShiftKind::Asr, imm) % 0x1_0000
    } else {
        get_sat_operand(m, DspShiftKind::Lsl, imm) / 0x1_0000 * 0x1_0000 + n % 0x1_0000
    }
}

} // verus!
