//! Floating point instructions.
use crate::bits::{signed32, to_i32, wrap32};
use crate::cpu::CpuState;
use crate::engine::alu::{get_pair, pair, set_pair, with_pair};
use crate::engine::decode::{FpArithOp, FpCvtOp, FpUnaryOp};
use crate::engine::exec::{Effect, ExecOutcome};
use crate::engine::fpu;
use crate::engine::fpu::{negate, negated, BinOp, FpOpFlags, FpuRegisters};
use crate::engine::softfloat::{
    exact_fixed, mag_of, neg_of, order, root, root_exact, root_nearest, Format, Rel,
};
use crate::engine::transfer::next;
use crate::engine::FaultReason;
use crate::memory::{Memory, MemoryFault, MemoryModel};
use vstd::prelude::*;

verus! {

/// VMOV between floating point registers.
pub open spec fn after_vmov(f: FpuRegisters, d: u8, m: u8, double: bool) -> FpuRegisters {
    if double {
        f.with_d(d as int, f.d_reg(m as int))
    } else {
        f.with_s(d as int, f.s_reg(m as int))
    }
}

pub(crate) fn vmov(f: &mut FpuRegisters, d: u8, m: u8, double: bool)
    ensures
        *final(f) == after_vmov(*old(f), d, m, double),
{
    if double {
        let v: u64 = f.read_d(m as usize);
        f.write_d(d as usize, v);
    } else {
        let v: u32 = f.read_s(m as usize);
        f.write_s(d as usize, v);
    }
}

/// VMOV of an immediate.
pub open spec fn after_vmov_imm(f: FpuRegisters, d: u8, imm: u64, double: bool) -> FpuRegisters {
    if double {
        f.with_d(d as int, imm)
    } else {
        f.with_s(d as int, (imm % 0x1_0000_0000) as u32)
    }
}

pub(crate) fn vmov_imm(f: &mut FpuRegisters, d: u8, imm: u64, double: bool)
    ensures
        *final(f) == after_vmov_imm(*old(f), d, imm, double),
{
    if double {
        f.write_d(d as usize, imm);
    } else {
        f.write_s(d as usize, (imm % 0x1_0000_0000) as u32);
    }
}

/// VMOV between a core register and a single precision register.
pub open spec fn after_vmov_core(cpu: CpuState, rt: u8, sn: u8, to_core: bool) -> CpuState {
    if to_core {
        cpu.with_reg(rt, cpu.fpu.s_reg(sn as int))
    } else {
        cpu.with_fpu(cpu.fpu.with_s(sn as int, cpu.reg(rt)))
    }
}

pub(crate) fn vmov_core(cpu: &mut CpuState, rt: u8, sn: u8, to_core: bool)
    requires
        rt < 16,
    ensures
        *final(cpu) == after_vmov_core(*old(cpu), rt, sn, to_core),
{
    if to_core {
        let v: u32 = cpu.fpu.read_s(sn as usize);
        cpu.set(rt, v);
    } else {
        let v: u32 = cpu.get(rt);
        cpu.fpu.write_s(sn as usize, v);
    }
}

/// VMOV between two core registers and a double precision register.
pub open spec fn after_vmov_core_d(
    cpu: CpuState,
    rt: u8,
    rt2: u8,
    dn: u8,
    to_core: bool,
) -> CpuState {
    if to_core {
        with_pair(cpu, rt, rt2, cpu.fpu.d_reg(dn as int))
    } else {
        cpu.with_fpu(cpu.fpu.with_d(dn as int, pair(cpu, rt, rt2)))
    }
}

pub(crate) fn vmov_core_d(cpu: &mut CpuState, rt: u8, rt2: u8, dn: u8, to_core: bool)
    requires
        rt < 16,
        rt2 < 16,
    ensures
        *final(cpu) == after_vmov_core_d(*old(cpu), rt, rt2, dn, to_core),
{
    if to_core {
        let v: u64 = cpu.fpu.read_d(dn as usize);
        set_pair(cpu, rt, rt2, v);
    } else {
        let v: u64 = get_pair(cpu, rt, rt2);
        cpu.fpu.write_d(dn as usize, v);
    }
}

/// Result and exceptions of single precision arithmetic; `c` is the accumulator.
pub open spec fn arith32(f: FpuRegisters, op: FpArithOp, a: u32, b: u32, c: u32) -> (u32, FpOpFlags) {
    match op {
        FpArithOp::Vadd => fpu::f32_op(f, BinOp::Add, a, b),
        FpArithOp::Vsub => fpu::f32_op(f, BinOp::Sub, a, b),
        FpArithOp::Vmul => fpu::f32_op(f, BinOp::Mul, a, b),
        FpArithOp::Vnmul => {
            let (r, flags) = fpu::f32_op(f, BinOp::Mul, a, b);
            (negated(Format::Single, r as u64) as u32, flags)
        },
        FpArithOp::Vdiv => fpu::f32_op(f, BinOp::Div, a, b),
        FpArithOp::Vmla => fpu::f32_fused(f, a, b, c, false, false),
        FpArithOp::Vmls => fpu::f32_fused(f, a, b, c, true, false),
        FpArithOp::Vnmls => fpu::f32_fused(f, a, b, c, true, true),
        FpArithOp::Vnmla => fpu::f32_fused(f, a, b, c, false, true),
    }
}

/// Result and exceptions of double precision arithmetic; `c` is the accumulator.
pub open spec fn arith64(f: FpuRegisters, op: FpArithOp, a: u64, b: u64, c: u64) -> (u64, FpOpFlags) {
    match op {
        FpArithOp::Vadd => fpu::f64_op(f, BinOp::Add, a, b),
        FpArithOp::Vsub => fpu::f64_op(f, BinOp::Sub, a, b),
        FpArithOp::Vmul => fpu::f64_op(f, BinOp::Mul, a, b),
        FpArithOp::Vnmul => {
            let (r, flags) = fpu::f64_op(f, BinOp::Mul, a, b);
            (negated(Format::Double, r), flags)
        },
        FpArithOp::Vdiv => fpu::f64_op(f, BinOp::Div, a, b),
        FpArithOp::Vmla => fpu::f64_fused(a, b, c, false, false),
        FpArithOp::Vmls => fpu::f64_fused(a, b, c, true, false),
        FpArithOp::Vnmls => fpu::f64_fused(a, b, c, true, true),
        FpArithOp::Vnmla => fpu::f64_fused(a, b, c, false, true),
    }
}

/// Three-register arithmetic: the exceptions are recorded, then Vd is written.
pub open spec fn after_arith(
    f: FpuRegisters,
    op: FpArithOp,
    d: u8,
    n: u8,
    m: u8,
    double: bool,
) -> FpuRegisters {
    if double {
        let (r, flags) = arith64(f, op, f.d_reg(n as int), f.d_reg(m as int), f.d_reg(d as int));
        f.flagged(flags).with_d(d as int, r)
    } else {
        let (r, flags) = arith32(f, op, f.s_reg(n as int), f.s_reg(m as int), f.s_reg(d as int));
        f.flagged(flags).with_s(d as int, r)
    }
}

fn compute32(f: &FpuRegisters, op: FpArithOp, a: u32, b: u32, c: u32) -> (r: (u32, FpOpFlags))
    ensures
        r == arith32(*f, op, a, b, c),
{
    match op {
        FpArithOp::Vadd => fpu::f32_add(f, a, b),
        FpArithOp::Vsub => fpu::f32_sub(f, a, b),
        FpArithOp::Vmul => fpu::f32_mul(f, a, b),
        FpArithOp::Vnmul => {
            let (r, flags): (u32, FpOpFlags) = fpu::f32_mul(f, a, b);
            proof {
                crate::engine::softfloat::lemma_constants();
            }
            (negate(Format::Single, r as u64) as u32, flags)
        },
        FpArithOp::Vdiv => fpu::f32_div(f, a, b),
        FpArithOp::Vmla => fpu::f32_mul_add(f, a, b, c, false, false),
        FpArithOp::Vmls => fpu::f32_mul_add(f, a, b, c, true, false),
        FpArithOp::Vnmls => fpu::f32_mul_add(f, a, b, c, true, true),
        FpArithOp::Vnmla => fpu::f32_mul_add(f, a, b, c, false, true),
    }
}

fn compute64(f: &FpuRegisters, op: FpArithOp, a: u64, b: u64, c: u64) -> (r: (u64, FpOpFlags))
    ensures
        r == arith64(*f, op, a, b, c),
{
    match op {
        FpArithOp::Vadd => fpu::f64_add(f, a, b),
        FpArithOp::Vsub => fpu::f64_sub(f, a, b),
        FpArithOp::Vmul => fpu::f64_mul(f, a, b),
        FpArithOp::Vnmul => {
            let (r, flags): (u64, FpOpFlags) = fpu::f64_mul(f, a, b);
            proof {
                crate::engine::softfloat::lemma_constants();
            }
            (negate(Format::Double, r), flags)
        },
        FpArithOp::Vdiv => fpu::f64_div(f, a, b),
        FpArithOp::Vmla => fpu::f64_mul_add(f, a, b, c, false, false),
        FpArithOp::Vmls => fpu::f64_mul_add(f, a, b, c, true, false),
        FpArithOp::Vnmls => fpu::f64_mul_add(f, a, b, c, true, true),
        FpArithOp::Vnmla => fpu::f64_mul_add(f, a, b, c, false, true),
    }
}

pub(crate) fn arith(f: &mut FpuRegisters, op: FpArithOp, d: u8, n: u8, m: u8, double: bool)
    ensures
        *final(f) == after_arith(*old(f), op, d, n, m, double),
{
    if double {
        let a: u64 = f.read_d(n as usize);
        let b: u64 = f.read_d(m as usize);
        let c: u64 = f.read_d(d as usize);
        let (r, flags): (u64, FpOpFlags) = compute64(f, op, a, b, c);
        f.apply_flags(&flags);
        f.write_d(d as usize, r);
    } else {
        let a: u32 = f.read_s(n as usize);
        let b: u32 = f.read_s(m as usize);
        let c: u32 = f.read_s(d as usize);
        let (r, flags): (u32, FpOpFlags) = compute32(f, op, a, b, c);
        f.apply_flags(&flags);
        f.write_s(d as usize, r);
    }
}

/// A NaN made quiet.
pub open spec fn quieted(f: Format, x: u64) -> u64 {
    match f {
        Format::Single => (x as u32 | 0x0040_0000) as u64,
        Format::Double => x | 0x0008_0000_0000_0000,
    }
}

/// The square root: NaNs are quieted, negative numbers are invalid, zeros and
/// infinity stay; otherwise the nearest number, inexact unless the square is.
pub open spec fn square_root(f: Format, x: u64) -> (u64, FpOpFlags) {
    if f.is_nan(x) {
        (quieted(f, x), fpu::no_flags())
    } else if f.is_zero(x) {
        (x, fpu::no_flags())
    } else if f.neg(x) {
        (f.default_nan(), FpOpFlags { ioc: true, ..fpu::no_flags() })
    } else if f.is_inf(x) {
        (x, fpu::no_flags())
    } else {
        (
            root_nearest(f, f.mag(x)) as u64,
            FpOpFlags { ixc: !root_exact(f, f.mag(x)), ..fpu::no_flags() },
        )
    }
}

/// VABS, VNEG and VSQRT of a bit pattern.
pub open spec fn unary_value(f: Format, op: FpUnaryOp, x: u64) -> (u64, FpOpFlags) {
    match op {
        FpUnaryOp::Vabs => (f.mag(x) as u64, fpu::no_flags()),
        FpUnaryOp::Vneg => (negated(f, x), fpu::no_flags()),
        FpUnaryOp::Vsqrt => square_root(f, x),
    }
}

fn unary_of(f: Format, op: FpUnaryOp, x: u64) -> (r: (u64, FpOpFlags))
    requires
        f.fits(x),
    ensures
        r == unary_value(f, op, x),
        f.fits(r.0),
{
    proof {
        crate::engine::softfloat::lemma_constants();
        fpu::lemma_sign_split(f, x);
    }
    let mut flags = FpOpFlags::default();
    let m: u64 = mag_of(f, x);
    match op {
        FpUnaryOp::Vabs => (m, flags),
        FpUnaryOp::Vneg => (negate(f, x), flags),
        FpUnaryOp::Vsqrt => {
            let inf: u64 = f.infinity();
            if m > inf {
                let q: u64 = match f {
                    Format::Single => (x as u32 | 0x0040_0000) as u64,
                    Format::Double => x | 0x0008_0000_0000_0000,
                };
                (q, flags)
            } else if m == 0 {
                (x, flags)
            } else if neg_of(f, x) {
                flags.ioc = true;
                let nan: u64 = match f {
                    Format::Single => fpu::DEFAULT_NAN_F32 as u64,
                    Format::Double => fpu::DEFAULT_NAN_F64,
                };
                (nan, flags)
            } else if m == inf {
                (x, flags)
            } else {
                let (r, exact): (u64, bool) = root(f, m);
                flags.ixc = !exact;
                (r, flags)
            }
        },
    }
}

/// VABS, VNEG and VSQRT.
pub open spec fn after_unary(f: FpuRegisters, op: FpUnaryOp, d: u8, m: u8, double: bool) -> FpuRegisters {
    if double {
        let (r, flags) = unary_value(Format::Double, op, f.d_reg(m as int));
        f.flagged(flags).with_d(d as int, r)
    } else {
        let (r, flags) = unary_value(Format::Single, op, f.s_reg(m as int) as u64);
        f.flagged(flags).with_s(d as int, r as u32)
    }
}

pub(crate) fn unary(f: &mut FpuRegisters, op: FpUnaryOp, d: u8, m: u8, double: bool)
    ensures
        *final(f) == after_unary(*old(f), op, d, m, double),
{
    proof {
        crate::engine::softfloat::lemma_constants();
    }
    if double {
        let v: u64 = f.read_d(m as usize);
        let (r, flags): (u64, FpOpFlags) = unary_of(Format::Double, op, v);
        f.apply_flags(&flags);
        f.write_d(d as usize, r);
    } else {
        let v: u32 = f.read_s(m as usize);
        let (r, flags): (u64, FpOpFlags) = unary_of(Format::Single, op, v as u64);
        f.apply_flags(&flags);
        f.write_s(d as usize, r as u32);
    }
}

/// A NaN without its quiet bit.
pub open spec fn signaling(f: Format, x: u64) -> bool {
    f.is_nan(x) && match f {
        Format::Single => x as u32 & 0x0040_0000 == 0,
        Format::Double => x & 0x0008_0000_0000_0000 == 0,
    }
}

/// N, Z, C, V of a comparison, and whether it is invalid: with a NaN the operands
/// are unordered, which is invalid for VCMPE and for signalling NaNs.
pub open spec fn comparison(f: Format, a: u64, b: u64, e: bool) -> (bool, bool, bool, bool, bool) {
    if f.is_nan(a) || f.is_nan(b) {
        (false, false, true, true, e || signaling(f, a) || signaling(f, b))
    } else if f.sval(a) == f.sval(b) {
        (false, true, true, false, false)
    } else if f.sval(a) < f.sval(b) {
        (true, false, false, false, false)
    } else {
        (false, false, true, false, false)
    }
}

/// Compares two bit patterns.
fn compare(f: Format, a: u64, b: u64, e: bool) -> (r: (bool, bool, bool, bool, bool))
    requires
        f.fits(a),
        f.fits(b),
    ensures
        r == comparison(f, a, b, e),
{
    let inf: u64 = f.infinity();
    let na: bool = mag_of(f, a) > inf;
    let nb: bool = mag_of(f, b) > inf;
    if na || nb {
        let snan: bool = match f {
            Format::Single => (na && a as u32 & 0x0040_0000 == 0) || (nb && b as u32 & 0x0040_0000
                == 0),
            Format::Double => (na && a & 0x0008_0000_0000_0000 == 0) || (nb && b
                & 0x0008_0000_0000_0000 == 0),
        };
        return (false, false, true, true, e || snan);
    }
    match order(f, a, b) {
        Rel::Equal => (false, true, true, false, false),
        Rel::Below => (true, false, false, false, false),
        Rel::Above => (false, false, true, false, false),
    }
}

/// The registers with the outcome of a comparison recorded.
pub open spec fn with_comparison(f: FpuRegisters, c: (bool, bool, bool, bool, bool)) -> FpuRegisters {
    let g = FpuRegisters {
        fpscr: (f.fpscr & 0x0FFF_FFFF) | fpu::nzcv_bits(c.0, c.1, c.2, c.3),
        ..f
    };
    if c.4 {
        g.flagged(FpOpFlags { ioc: true, ..fpu::no_flags() })
    } else {
        g
    }
}

/// VCMP and VCMPE, with Vm or with zero.
pub open spec fn after_compare(
    f: FpuRegisters,
    d: u8,
    m: u8,
    double: bool,
    e: bool,
    zero: bool,
) -> FpuRegisters {
    if double {
        let b = if zero {
            0u64
        } else {
            f.d_reg(m as int)
        };
        with_comparison(f, comparison(Format::Double, f.d_reg(d as int), b, e))
    } else {
        let b = if zero {
            0u64
        } else {
            f.s_reg(m as int) as u64
        };
        with_comparison(f, comparison(Format::Single, f.s_reg(d as int) as u64, b, e))
    }
}

pub(crate) fn compare_regs(f: &mut FpuRegisters, d: u8, m: u8, double: bool, e: bool, zero: bool)
    ensures
        *final(f) == after_compare(*old(f), d, m, double, e, zero),
{
    proof {
        crate::engine::softfloat::lemma_constants();
    }
    let (n, z, c, v, ioc): (bool, bool, bool, bool, bool) = if double {
        let a: u64 = f.read_d(d as usize);
        let b: u64 = if zero {
            0
        } else {
            f.read_d(m as usize)
        };
        compare(Format::Double, a, b, e)
    } else {
        let a: u32 = f.read_s(d as usize);
        let b: u32 = if zero {
            0
        } else {
            f.read_s(m as usize)
        };
        compare(Format::Single, a as u64, b as u64, e)
    };
    f.set_nzcv(n, z, c, v);
    if ioc {
        let mut flags = FpOpFlags::default();
        flags.ioc = true;
        f.apply_flags(&flags);
    }
}

/// VCVT.
pub open spec fn after_convert(f: FpuRegisters, op: FpCvtOp, d: u8, m: u8) -> FpuRegisters {
    let s = f.s_reg(m as int);
    let w = f.d_reg(m as int);
    let to_s = |r: (u32, FpOpFlags)| f.flagged(r.1).with_s(d as int, r.0);
    match op {
        FpCvtOp::S32ToF32 => f.with_s(
            d as int,
            fpu::narrowed(f.mode(), fpu::int_to_f64(signed32(s))),
        ),
        FpCvtOp::U32ToF32 => f.with_s(d as int, fpu::narrowed(f.mode(), fpu::int_to_f64(s as int))),
        FpCvtOp::F32ToS32 => to_s(fpu::to_int(Format::Single, s as u64, true, false)),
        FpCvtOp::F32ToU32 => to_s(fpu::to_int(Format::Single, s as u64, false, false)),
        FpCvtOp::F32ToS32R => to_s(fpu::to_int(Format::Single, s as u64, true, true)),
        FpCvtOp::F32ToU32R => to_s(fpu::to_int(Format::Single, s as u64, false, true)),
        FpCvtOp::F32ToF64 => to_s(fpu::f64_to_f32(f.mode(), w)),
        FpCvtOp::F64ToF32 => f.with_d(d as int, fpu::widened(s)),
        FpCvtOp::S32ToF64 => f.with_d(d as int, fpu::int_to_f64(signed32(s))),
        FpCvtOp::U32ToF64 => f.with_d(d as int, fpu::int_to_f64(s as int)),
        FpCvtOp::F64ToS32 => to_s(fpu::to_int(Format::Double, w, true, false)),
        FpCvtOp::F64ToU32 => to_s(fpu::to_int(Format::Double, w, false, false)),
        FpCvtOp::F64ToS32R => to_s(fpu::to_int(Format::Double, w, true, true)),
        FpCvtOp::F64ToU32R => to_s(fpu::to_int(Format::Double, w, false, true)),
    }
}

fn write_result(f: &mut FpuRegisters, d: u8, r: (u32, FpOpFlags))
    ensures
        *final(f) == old(f).flagged(r.1).with_s(d as int, r.0),
{
    f.apply_flags(&r.1);
    f.write_s(d as usize, r.0);
}

pub(crate) fn convert(f: &mut FpuRegisters, op: FpCvtOp, d: u8, m: u8)
    ensures
        *final(f) == after_convert(*old(f), op, d, m),
{
    let s: u32 = f.read_s(m as usize);
    let w: u64 = f.read_d(m as usize);
    match op {
        FpCvtOp::S32ToF32 => {
            let r: u32 = fpu::cvt_int_to_f32(f, to_i32(s) as i64);
            f.write_s(d as usize, r);
        },
        FpCvtOp::U32ToF32 => {
            let r: u32 = fpu::cvt_int_to_f32(f, s as i64);
            f.write_s(d as usize, r);
        },
        FpCvtOp::F32ToS32 => {
            let r = fpu::cvt_f32_to_int(f, s, true, false);
            write_result(f, d, r);
        },
        FpCvtOp::F32ToU32 => {
            let r = fpu::cvt_f32_to_int(f, s, false, false);
            write_result(f, d, r);
        },
        FpCvtOp::F32ToS32R => {
            let r = fpu::cvt_f32_to_int(f, s, true, true);
            write_result(f, d, r);
        },
        FpCvtOp::F32ToU32R => {
            let r = fpu::cvt_f32_to_int(f, s, false, true);
            write_result(f, d, r);
        },
        FpCvtOp::F32ToF64 => {
            let r = fpu::cvt_f64_to_f32(f, w);
            write_result(f, d, r);
        },
        FpCvtOp::F64ToF32 => {
            let r: u64 = fpu::widen(s);
            f.write_d(d as usize, r);
        },
        FpCvtOp::S32ToF64 => {
            let r: u64 = fpu::cvt_int_to_f64(to_i32(s) as i64);
            f.write_d(d as usize, r);
        },
        FpCvtOp::U32ToF64 => {
            let r: u64 = fpu::cvt_int_to_f64(s as i64);
            f.write_d(d as usize, r);
        },
        FpCvtOp::F64ToS32 => {
            let r = fpu::cvt_f64_to_int(f, w, true, false);
            write_result(f, d, r);
        },
        FpCvtOp::F64ToU32 => {
            let r = fpu::cvt_f64_to_int(f, w, false, false);
            write_result(f, d, r);
        },
        FpCvtOp::F64ToS32R => {
            let r = fpu::cvt_f64_to_int(f, w, true, true);
            write_result(f, d, r);
        },
        FpCvtOp::F64ToU32R => {
            let r = fpu::cvt_f64_to_int(f, w, false, true);
            write_result(f, d, r);
        },
    }
}

/// VCVT between single precision and fixed point.
pub open spec fn after_convert_fixed(
    f: FpuRegisters,
    d: u8,
    fbits: u8,
    width: u8,
    signed: bool,
    to_float: bool,
) -> FpuRegisters {
    let v = f.s_reg(d as int);
    let (r, flags) = if to_float {
        let x = exact_fixed(
            Format::Single,
            fpu::fixed_value(v, signed, width as nat),
            fbits as nat,
        );
        (
            x.rounded(Format::Single, f.mode()) as u32,
            FpOpFlags { ixc: x.inexact(Format::Single), ..fpu::no_flags() },
        )
    } else {
        fpu::to_fixed(f.mode(), v, fbits as nat, signed, width as nat)
    };
    f.flagged(flags).with_s(d as int, r)
}

pub(crate) fn convert_fixed(
    f: &mut FpuRegisters,
    d: u8,
    fbits: u8,
    width: u8,
    signed: bool,
    to_float: bool,
)
    requires
        fbits <= 63,
        !to_float ==> if signed {
            1 <= width <= 63
        } else {
            width <= 62
        },
    ensures
        *final(f) == after_convert_fixed(*old(f), d, fbits, width, signed, to_float),
{
    let v: u32 = f.read_s(d as usize);
    let r = if to_float {
        fpu::cvt_fixed_to_f32(f, v, fbits, signed, width)
    } else {
        fpu::cvt_f32_to_fixed(f, v, fbits, signed, width)
    };
    write_result(f, d, r);
}

/// The engine's fault for a memory fault.
pub open spec fn fault_of(f: MemoryFault) -> FaultReason {
    match f {
        MemoryFault::UnalignedAccess { address } => FaultReason::UnalignedAccess { address },
        MemoryFault::MemManage { address } => FaultReason::MemManage { address },
        MemoryFault::BusFault { address } => FaultReason::BusFault { address },
        MemoryFault::ReadOnlyWrite { address } => FaultReason::MemManage { address },
    }
}

fn map_mem_fault(f: MemoryFault) -> (r: FaultReason)
    ensures
        r == fault_of(f),
{
    match f {
        MemoryFault::UnalignedAccess { address } => FaultReason::UnalignedAccess { address },
        MemoryFault::MemManage { address } => FaultReason::MemManage { address },
        MemoryFault::BusFault { address } => FaultReason::BusFault { address },
        MemoryFault::ReadOnlyWrite { address } => FaultReason::MemManage { address },
    }
}

/// Loading one register: the fault if there is one, the registers and the memory.
#[verifier::opaque]
pub open spec fn load_one(f: FpuRegisters, mem: MemoryModel, n: int, addr: u32, double: bool) -> (
    Option<MemoryFault>,
    FpuRegisters,
    MemoryModel,
) {
    match mem.reading(addr, 4) {
        (Err(e), m1) => (Some(e), f, m1),
        (Ok(lo), m1) => if !double {
            (None, f.with_s(n, lo), m1)
        } else {
            match m1.reading(wrap32(addr + 4), 4) {
                (Err(e), m2) => (Some(e), f, m2),
                (Ok(hi), m2) => (None, f.with_d(n, (lo + 0x1_0000_0000 * hi) as u64), m2),
            }
        },
    }
}

/// Storing one register: the fault if there is one, and the memory.
#[verifier::opaque]
pub open spec fn store_one(f: FpuRegisters, mem: MemoryModel, n: int, addr: u32, double: bool) -> (
    Option<MemoryFault>,
    MemoryModel,
) {
    if !double {
        match mem.writing(addr, 4, f.s_reg(n)) {
            (Err(e), m) => (Some(e), m),
            (Ok(_), m) => (None, m),
        }
    } else {
        match mem.writing(addr, 4, (f.d_reg(n) % 0x1_0000_0000) as u32) {
            (Err(e), m1) => (Some(e), m1),
            (Ok(_), m1) => match m1.writing(
                wrap32(addr + 4),
                4,
                (f.d_reg(n) / 0x1_0000_0000) as u32,
            ) {
                (Err(e), m2) => (Some(e), m2),
                (Ok(_), m2) => (None, m2),
            },
        }
    }
}

fn load_reg(f: &mut FpuRegisters, memory: &mut Memory, n: usize, addr: u32, double: bool) -> (r:
    Option<MemoryFault>)
    requires
        old(memory).wf(),
    ensures
        final(memory).wf(),
        load_one(*old(f), old(memory)@, n as int, addr, double) == (r, *final(f), final(memory)@),
{
    proof {
        reveal(load_one);
    }
    let lo: u32 = match memory.read_u32(addr) {
        Ok(v) => v,
        Err(e) => {
            return Some(e);
        },
    };
    if !double {
        f.write_s(n, lo);
        return None;
    }
    let hi: u32 = match memory.read_u32(addr.wrapping_add(4)) {
        Ok(v) => v,
        Err(e) => {
            return Some(e);
        },
    };
    f.write_d(n, lo as u64 + 0x1_0000_0000 * (hi as u64));
    None
}

fn store_reg(f: &FpuRegisters, memory: &mut Memory, n: usize, addr: u32, double: bool) -> (r: Option<
    MemoryFault,
>)
    requires
        old(memory).wf(),
    ensures
        final(memory).wf(),
        store_one(*f, old(memory)@, n as int, addr, double) == (r, final(memory)@),
{
    proof {
        reveal(store_one);
    }
    if !double {
        return match memory.write_u32(addr, f.read_s(n)) {
            Ok(()) => None,
            Err(e) => Some(e),
        };
    }
    let v: u64 = f.read_d(n);
    match memory.write_u32(addr, (v % 0x1_0000_0000) as u32) {
        Ok(()) => {},
        Err(e) => {
            return Some(e);
        },
    }
    match memory.write_u32(addr.wrapping_add(4), (v / 0x1_0000_0000) as u32) {
        Ok(()) => None,
        Err(e) => Some(e),
    }
}

/// An unaligned access.
pub open spec fn unaligned(cpu: CpuState, mem: MemoryModel, addr: u32) -> Effect {
    Effect {
        outcome: ExecOutcome::Fault { reason: FaultReason::UnalignedAccess { address: addr } },
        cpu,
        mem,
    }
}

/// The effect of an access that may have faulted.
pub open spec fn after_access(cpu: CpuState, fault: Option<MemoryFault>, mem: MemoryModel) -> Effect {
    match fault {
        Some(e) => Effect { outcome: ExecOutcome::Fault { reason: fault_of(e) }, cpu, mem },
        None => next(cpu, mem),
    }
}

/// VLDR and VSTR: single precision is aligned to four bytes, double to eight.
#[verifier::opaque]
pub open spec fn after_vldr(
    cpu: CpuState,
    mem: MemoryModel,
    rt: u8,
    rn: u8,
    offset: u32,
    load: bool,
    double: bool,
) -> Effect {
    let addr = wrap32(cpu.reg(rn) + offset);
    if (double && addr % 8 != 0) || addr % 4 != 0 {
        unaligned(cpu, mem, addr)
    } else if load {
        let (fault, f, m) = load_one(cpu.fpu, mem, rt as int, addr, double);
        after_access(cpu.with_fpu(f), fault, m)
    } else {
        let (fault, m) = store_one(cpu.fpu, mem, rt as int, addr, double);
        after_access(cpu, fault, m)
    }
}

fn outcome_of(fault: Option<MemoryFault>) -> (r: ExecOutcome)
    ensures
        r == match fault {
            Some(e) => ExecOutcome::Fault { reason: fault_of(e) },
            None => ExecOutcome::Continue,
        },
{
    match fault {
        Some(e) => ExecOutcome::Fault { reason: map_mem_fault(e) },
        None => ExecOutcome::Continue,
    }
}

pub(crate) fn vldr(
    cpu: &mut CpuState,
    memory: &mut Memory,
    rt: u8,
    rn: u8,
    offset: u32,
    load: bool,
    double: bool,
) -> (r: ExecOutcome)
    requires
        old(memory).wf(),
        rn < 16,
    ensures
        final(memory).wf(),
        after_vldr(*old(cpu), old(memory)@, rt, rn, offset, load, double) == (Effect {
            outcome: r,
            cpu: *final(cpu),
            mem: final(memory)@,
        }),
{
    proof {
        reveal(after_vldr);
    }
    let addr: u32 = cpu.get(rn).wrapping_add(offset);
    if (double && addr % 8 != 0) || addr % 4 != 0 {
        return ExecOutcome::Fault { reason: FaultReason::UnalignedAccess { address: addr } };
    }
    if load {
        let fault = load_reg(&mut cpu.fpu, memory, rt as usize, addr, double);
        outcome_of(fault)
    } else {
        let fault = store_reg(&cpu.fpu, memory, rt as usize, addr, double);
        outcome_of(fault)
    }
}

/// The number of bytes of a register.
pub open spec fn stride(double: bool) -> int {
    if double {
        8
    } else {
        4
    }
}

/// Loading registers `i` to `count` of a list, number `i` from `addr`.
pub open spec fn multi_loaded(
    f: FpuRegisters,
    mem: MemoryModel,
    d: u8,
    i: int,
    count: int,
    addr: u32,
    double: bool,
) -> (Option<MemoryFault>, FpuRegisters, MemoryModel)
    decreases count - i,
{
    if i >= count {
        (None, f, mem)
    } else {
        match load_one(f, mem, d + i, addr, double) {
            (Some(e), g, m) => (Some(e), g, m),
            (None, g, m) => multi_loaded(
                g,
                m,
                d,
                i + 1,
                count,
                wrap32(addr + stride(double)),
                double,
            ),
        }
    }
}

/// Storing registers `i` to `count` of a list, number `i` to `addr`.
pub open spec fn multi_stored(
    f: FpuRegisters,
    mem: MemoryModel,
    d: u8,
    i: int,
    count: int,
    addr: u32,
    double: bool,
) -> (Option<MemoryFault>, MemoryModel)
    decreases count - i,
{
    if i >= count {
        (None, mem)
    } else {
        match store_one(f, mem, d + i, addr, double) {
            (Some(e), m) => (Some(e), m),
            (None, m) => multi_stored(
                f,
                m,
                d,
                i + 1,
                count,
                wrap32(addr + stride(double)),
                double,
            ),
        }
    }
}

fn load_multi(
    f: &mut FpuRegisters,
    memory: &mut Memory,
    d: u8,
    count: u32,
    addr: u32,
    double: bool,
) -> (r: Option<MemoryFault>)
    requires
        old(memory).wf(),
        count <= 0x3FFF_FFFF,
    ensures
        final(memory).wf(),
        multi_loaded(*old(f), old(memory)@, d, 0, count as int, addr, double) == (
            r,
            *final(f),
            final(memory)@,
        ),
{
    let step: u32 = if double {
        8
    } else {
        4
    };
    let mut i: u32 = 0;
    let mut a: u32 = addr;
    while i < count
        invariant
            i <= count <= 0x3FFF_FFFF,
            memory.wf(),
            step == stride(double),
            multi_loaded(*old(f), old(memory)@, d, 0, count as int, addr, double) == multi_loaded(
                *f,
                memory@,
                d,
                i as int,
                count as int,
                a,
                double,
            ),
        decreases count - i,
    {
        match load_reg(f, memory, d as usize + i as usize, a, double) {
            Some(e) => {
                return Some(e);
            },
            None => {},
        }
        a = a.wrapping_add(step);
        i = i + 1;
    }
    None
}

fn store_multi(
    f: &FpuRegisters,
    memory: &mut Memory,
    d: u8,
    count: u32,
    addr: u32,
    double: bool,
) -> (r: Option<MemoryFault>)
    requires
        old(memory).wf(),
        count <= 0x3FFF_FFFF,
    ensures
        final(memory).wf(),
        multi_stored(*f, old(memory)@, d, 0, count as int, addr, double) == (r, final(memory)@),
{
    let step: u32 = if double {
        8
    } else {
        4
    };
    let mut i: u32 = 0;
    let mut a: u32 = addr;
    while i < count
        invariant
            i <= count <= 0x3FFF_FFFF,
            memory.wf(),
            step == stride(double),
            multi_stored(*f, old(memory)@, d, 0, count as int, addr, double) == multi_stored(
                *f,
                memory@,
                d,
                i as int,
                count as int,
                a,
                double,
            ),
        decreases count - i,
    {
        match store_reg(f, memory, d as usize + i as usize, a, double) {
            Some(e) => {
                return Some(e);
            },
            None => {},
        }
        a = a.wrapping_add(step);
        i = i + 1;
    }
    None
}

/// The base of VLDM and VSTM moved over the list.
pub open spec fn moved_base(base: u32, count: u32, double: bool, decrement: bool) -> u32 {
    let bytes = if double {
        8 * count
    } else {
        4 * count
    };
    wrap32(
        if decrement {
            base - bytes
        } else {
            base + bytes
        },
    )
}

fn move_base(base: u32, count: u32, double: bool, decrement: bool) -> (r: u32)
    requires
        count * stride(double) <= u32::MAX,
    ensures
        r == moved_base(base, count, double, decrement),
{
    let bytes: u32 = if double {
        8 * count
    } else {
        4 * count
    };
    if decrement {
        base.wrapping_sub(bytes)
    } else {
        base.wrapping_add(bytes)
    }
}

/// The accesses of VLDM and VSTM.
#[verifier::opaque]
pub open spec fn after_list(
    cpu: CpuState,
    mem: MemoryModel,
    d: u8,
    count: u32,
    addr: u32,
    load: bool,
    double: bool,
) -> Effect {
    if load {
        let (fault, f, m) = multi_loaded(cpu.fpu, mem, d, 0, count as int, addr, double);
        after_access(cpu.with_fpu(f), fault, m)
    } else {
        let (fault, m) = multi_stored(cpu.fpu, mem, d, 0, count as int, addr, double);
        after_access(cpu, fault, m)
    }
}

fn access_list(
    cpu: &mut CpuState,
    memory: &mut Memory,
    d: u8,
    count: u32,
    addr: u32,
    load: bool,
    double: bool,
) -> (r: ExecOutcome)
    requires
        old(memory).wf(),
        count <= 0x3FFF_FFFF,
    ensures
        final(memory).wf(),
        after_list(*old(cpu), old(memory)@, d, count, addr, load, double) == (Effect {
            outcome: r,
            cpu: *final(cpu),
            mem: final(memory)@,
        }),
{
    proof {
        reveal(after_list);
    }
    if load {
        let fault = load_multi(&mut cpu.fpu, memory, d, count, addr, double);
        outcome_of(fault)
    } else {
        let fault = store_multi(&cpu.fpu, memory, d, count, addr, double);
        outcome_of(fault)
    }
}

/// VLDM and VSTM: the list starts at the base or ends there; the base may be
/// written back where no access faulted.
#[verifier::opaque]
pub open spec fn after_vldm(
    cpu: CpuState,
    mem: MemoryModel,
    d: u8,
    rn: u8,
    count: u32,
    load: bool,
    double: bool,
    decrement: bool,
    writeback: bool,
) -> Effect {
    let base = cpu.reg(rn);
    let moved = moved_base(base, count, double, decrement);
    let addr = if decrement {
        moved
    } else {
        base
    };
    if addr % 4 != 0 {
        unaligned(cpu, mem, addr)
    } else {
        let e = after_list(cpu, mem, d, count, addr, load, double);
        if writeback && e.outcome == ExecOutcome::Continue {
            next(e.cpu.with_reg(rn, moved), e.mem)
        } else {
            e
        }
    }
}

pub(crate) fn vldm(
    cpu: &mut CpuState,
    memory: &mut Memory,
    d: u8,
    rn: u8,
    count: u32,
    load: bool,
    double: bool,
    decrement: bool,
    writeback: bool,
) -> (r: ExecOutcome)
    requires
        old(memory).wf(),
        rn < 16,
        count * stride(double) <= u32::MAX,
    ensures
        final(memory).wf(),
        after_vldm(*old(cpu), old(memory)@, d, rn, count, load, double, decrement, writeback) == (
        Effect { outcome: r, cpu: *final(cpu), mem: final(memory)@ }),
{
    proof {
        reveal(after_vldm);
    }
    let base: u32 = cpu.get(rn);
    let moved: u32 = move_base(base, count, double, decrement);
    let addr: u32 = if decrement {
        moved
    } else {
        base
    };
    if addr % 4 != 0 {
        return ExecOutcome::Fault { reason: FaultReason::UnalignedAccess { address: addr } };
    }
    let outcome = access_list(cpu, memory, d, count, addr, load, double);
    if writeback && outcome == ExecOutcome::Continue {
        cpu.set(rn, moved);
    }
    outcome
}

} // verus!
