//! What floating point instructions compute, as numbers. The number of a bit pattern is a
//! whole multiple of the smallest number of its precision, 2^-149 or 2^-1074.
use crate::cpu::CpuState;
use crate::engine::decode::{FpArithOp, FpCvtOp, FpUnaryOp, Instruction};
use crate::engine::exec::{
    data_step, effect, float_step, media_step, needs_fpu, Effect, ExecOutcome, Executor,
};
use crate::engine::fpu;
use crate::engine::fpu::{BinOp, FpOpFlags, FpRounding, FpuRegisters};
use crate::engine::softfloat::{
    exact_div, exact_mul, exact_of, law_exact_rounding, law_magnitude_order, law_nearest, lemma_constants,
    lemma_in_format, lemma_root_unique, lemma_unpack, radicand, Format,
};
use crate::memory::MemoryModel;
use vstd::arithmetic::power2::pow2;
use vstd::prelude::*;

verus! {

/// The floating point registers after an instruction.
pub open spec fn left(e: Executor, cpu: CpuState, mem: MemoryModel, instr: Instruction) -> FpuRegisters {
    e.executed(cpu, mem, instr).effect.cpu.fpu
}

/// An instruction goes on with the next one and changes neither the memory nor anything
/// of the core but the floating point registers and the mark that they are live.
pub open spec fn floats_only(e: Executor, cpu: CpuState, mem: MemoryModel, instr: Instruction) -> bool {
    let r = e.executed(cpu, mem, instr).effect;
    &&& r.outcome == ExecOutcome::Continue
    &&& r.mem == mem
    &&& r.cpu == CpuState { fpu: r.cpu.fpu, control: cpu.control | 4, ..cpu }
}

/// Single precision register `i` after another was written.
pub open spec fn only_s(a: FpuRegisters, b: FpuRegisters, d: u8) -> bool {
    forall|i: int| 0 <= i < 32 && i != d as int % 32 ==> #[trigger] a.s[i] == b.s[i]
}

proof fn lemma_float(e: Executor, cpu: CpuState, mem: MemoryModel, instr: Instruction)
    requires
        e.it_remaining == 0,
        cpu.has_fpu(),
        needs_fpu(instr),
        float_step(CpuState { control: cpu.control | 4, ..cpu }, instr) is Some,
    ensures
        e.executed(cpu, mem, instr).effect == (Effect {
            outcome: ExecOutcome::Continue,
            cpu: float_step(CpuState { control: cpu.control | 4, ..cpu }, instr)->Some_0,
            mem,
        }),
{
    reveal(Executor::executed);
    reveal(Executor::passed);
    reveal(effect);
    reveal(data_step);
    reveal(media_step);
}

/// The double precision pattern of an integer of up to 33 bits is that integer.
proof fn lemma_int_double(x: int)
    requires
        -0x1_0000_0000 <= x <= 0x1_0000_0000,
    ensures
        Format::Double.sval(fpu::int_to_f64(x)) == x * pow2(1074),
        Format::Double.neg(fpu::int_to_f64(x)) == (x < 0),
        Format::Double.mag(fpu::int_to_f64(x)) < Format::Double.inf(),
        x != 0 ==> Format::Double.mag(fpu::int_to_f64(x)) > 0,
        Format::Double.val(Format::Double.mag(fpu::int_to_f64(x))) == (if x < 0 {
            -x
        } else {
            x
        }) * pow2(1074),
{
    let f = Format::Double;
    lemma_constants();
    vstd::arithmetic::power2::lemma2_to64();
    vstd::arithmetic::power2::lemma2_to64_rest();
    vstd::arithmetic::power2::lemma_pow2_pos(1074);
    let u = pow2(1074) as int;
    if x == 0 {
        assert(0 * u == 0);
        lemma_unpack(f, false, 0);
        assert(f.val(0) == 0);
    } else {
        let m = if x < 0 {
            (-x) as nat
        } else {
            x as nat
        };
        assert(m * pow2(52) >= pow2(52)) by (nonlinear_arith)
            requires
                m >= 1,
        ;
        let r = lemma_in_format(f, m, 1074, 52);
        assert(x * u != 0 && (x < 0 <==> x * u < 0) && -(x * u) == (-x) * u && m * u > 0) by (
        nonlinear_arith)
            requires
                x != 0,
                u > 0,
                m >= 1,
        ;
        assert(f.val(r) * 1 == m * u);
        law_exact_rounding(f, FpRounding::Nearest, x < 0, r, (m * u) as nat, 1);
        lemma_unpack(f, x < 0, r);
        if r == 0 {
            assert(f.val(0) == 0);
        }
    }
}

/// Where an integer of up to 24 bits stands in single precision.
proof fn lemma_int_place(m: nat) -> (r: nat)
    requires
        0 < m <= 0x100_0000,
    ensures
        r < Format::Single.inf(),
        Format::Single.val(r) == m * pow2(149),
{
    let f = Format::Single;
    lemma_constants();
    vstd::arithmetic::power2::lemma2_to64();
    if m == 0x100_0000 {
        vstd::arithmetic::power2::lemma_pow2_unfold(150);
        assert(0x80_0000 * pow2(0) == 0x80_0000);
        let r = lemma_in_format(f, 0x80_0000, 150, 0);
        assert(0x80_0000 * (2 * pow2(149)) == m * pow2(149)) by (nonlinear_arith)
            requires
                m == 0x100_0000,
        ;
        r
    } else {
        assert(m * pow2(23) >= pow2(23)) by (nonlinear_arith)
            requires
                m >= 1,
        ;
        lemma_in_format(f, m, 149, 23)
    }
}

/// Converting an integer to single precision keeps every integer of up to 24 bits.
proof fn lemma_int_single(mode: FpRounding, x: int)
    requires
        -0x100_0000 <= x <= 0x100_0000,
    ensures
        ({
            let r = fpu::narrowed(mode, fpu::int_to_f64(x)) as u64;
            &&& Format::Single.sval(r) == x * pow2(149)
            &&& Format::Single.neg(r) == (x < 0)
            &&& Format::Single.mag(r) < Format::Single.inf()
        }),
{
    let (f, g) = (Format::Single, Format::Double);
    lemma_constants();
    lemma_int_double(x);
    let w = fpu::int_to_f64(x);
    if x == 0 {
        assert(0 * pow2(149) == 0 && 0 * pow2(1074) == 0);
        if g.mag(w) > 0 {
            law_magnitude_order(g, 0, g.mag(w));
        }
        lemma_unpack(f, false, 0);
        assert(f.val(0) == 0);
    } else {
        let m = if x < 0 {
            (-x) as nat
        } else {
            x as nat
        };
        let r = lemma_int_place(m);
        vstd::arithmetic::power2::lemma_pow2_pos(1074);
        let (p, q) = (pow2(149), pow2(1074));
        assert((m * q) * p == (m * p) * q && -(m * p) == (-m) * p) by (nonlinear_arith);
        law_exact_rounding(f, mode, x < 0, r, g.val(g.mag(w)) * p, q);
        lemma_unpack(f, x < 0, r);
        assert(f.pack(x < 0, r) as u32 == f.pack(x < 0, r));
    }
}

proof fn lemma_from_integer(e: Executor, cpu: CpuState, mem: MemoryModel, vd: u8, vm: u8)
    requires
        e.it_remaining == 0,
        cpu.has_fpu(),
    ensures
        ({
            let v = cpu.fpu.s[vm as int % 32];
            let si = Instruction::FpCvt { op: FpCvtOp::S32ToF32, vd, vm };
            let ui = Instruction::FpCvt { op: FpCvtOp::U32ToF32, vd, vm };
            &&& floats_only(e, cpu, mem, si)
            &&& floats_only(e, cpu, mem, ui)
            &&& only_s(left(e, cpu, mem, si), cpu.fpu, vd)
            &&& only_s(left(e, cpu, mem, ui), cpu.fpu, vd)
            &&& left(e, cpu, mem, si).s[vd as int % 32] == fpu::narrowed(
                cpu.fpu.mode(),
                fpu::int_to_f64(crate::bits::signed32(v)),
            )
            &&& left(e, cpu, mem, ui).s[vd as int % 32] == fpu::narrowed(
                cpu.fpu.mode(),
                fpu::int_to_f64(v as int),
            )
        }),
{
    reveal(float_step);
    lemma_float(e, cpu, mem, Instruction::FpCvt { op: FpCvtOp::S32ToF32, vd, vm });
    lemma_float(e, cpu, mem, Instruction::FpCvt { op: FpCvtOp::U32ToF32, vd, vm });
}

/// VCVT.F32.S32 and VCVT.F32.U32 read the register as a signed and as an unsigned
/// number; in every rounding mode an integer of up to 24 bits becomes the float that is
/// that integer, negative exactly where the integer is.
pub proof fn law_integer_to_single(
    e: Executor,
    cpu: CpuState,
    mem: MemoryModel,
    vd: u8,
    vm: u8,
    x: int,
)
    requires
        e.it_remaining == 0,
        cpu.has_fpu(),
        -0x100_0000 <= x <= 0x100_0000,
        cpu.fpu.s[vm as int % 32] == x % 0x1_0000_0000,
    ensures
        ({
            let si = Instruction::FpCvt { op: FpCvtOp::S32ToF32, vd, vm };
            let ui = Instruction::FpCvt { op: FpCvtOp::U32ToF32, vd, vm };
            let s = left(e, cpu, mem, si).s[vd as int % 32] as u64;
            let u = left(e, cpu, mem, ui).s[vd as int % 32] as u64;
            &&& floats_only(e, cpu, mem, si)
            &&& floats_only(e, cpu, mem, ui)
            &&& only_s(left(e, cpu, mem, si), cpu.fpu, vd)
            &&& only_s(left(e, cpu, mem, ui), cpu.fpu, vd)
            &&& Format::Single.sval(s) == x * pow2(149)
            &&& (s >= 0x8000_0000) == (x < 0)
            &&& x >= 0 ==> u == s
        }),
{
    let v = cpu.fpu.s[vm as int % 32];
    assert(crate::bits::signed32(v) == x);
    lemma_from_integer(e, cpu, mem, vd, vm);
    lemma_constants();
    lemma_int_single(cpu.fpu.mode(), x);
}

/// The distance of two numbers.
pub open spec fn distance(a: int, b: int) -> int {
    if a < b {
        b - a
    } else {
        a - b
    }
}

proof fn lemma_int_nearest(x: int, c: nat)
    requires
        -0x1_0000_0000 <= x <= 0x1_0000_0000,
        x != 0,
        c <= Format::Single.inf(),
    ensures
        ({
            let f = Format::Single;
            let r = fpu::narrowed(FpRounding::Nearest, fpu::int_to_f64(x)) as u64;
            let m = distance(x, 0) * pow2(149);
            &&& f.neg(r) == (x < 0)
            &&& f.mag(r) <= f.inf()
            &&& distance(f.val(f.mag(r)) as int, m) <= distance(f.val(c) as int, m)
        }),
{
    let (f, g) = (Format::Single, Format::Double);
    lemma_constants();
    vstd::arithmetic::power2::lemma2_to64();
    lemma_int_double(x);
    let w = fpu::int_to_f64(x);
    let m = distance(x, 0) as nat;
    let (p, q) = (pow2(149), pow2(1074));
    vstd::arithmetic::power2::lemma_pow2_pos(1074);
    vstd::arithmetic::power2::lemma_pow2_pos(149);
    let n = g.val(g.mag(w)) * p;
    assert(n == (m * p) * q) by (nonlinear_arith)
        requires
            n == (m * q) * p,
    ;
    // 2^33 is a number of the format, below the largest.
    assert(0x80_0000 * pow2(0) == 0x80_0000);
    let top = lemma_in_format(f, 0x80_0000, 160, 0);
    law_magnitude_order(f, top, f.inf());
    vstd::arithmetic::power2::lemma_pow2_adds(11, 149);
    assert(m * p < 0x80_0000 * (0x800 * p)) by (nonlinear_arith)
        requires
            m <= 0x1_0000_0000,
            p > 0,
    ;
    let t = f.val(f.inf());
    assert(n < t * q) by (nonlinear_arith)
        requires
            n == (m * p) * q,
            m * p < t,
            q > 0,
    ;
    law_nearest(f, n, q, c);
    let near = f.nearest(n, q);
    lemma_near_bound(f, n, q);
    lemma_unpack(f, x < 0, near);
    assert(f.pack(x < 0, near) as u32 == f.pack(x < 0, near));
    let (a, b) = (f.val(near) as int, f.val(c) as int);
    let k = (m * p) as int;
    assert(distance(a, k) * q == distance(a * q, k * q) && distance(b, k) * q == distance(b * q, k * q))
        by (nonlinear_arith)
        requires
            q > 0,
            distance(a, k) == (if a < k {
                k - a
            } else {
                a - k
            }),
            distance(b, k) == (if b < k {
                k - b
            } else {
                b - k
            }),
            distance(a * q, k * q) == (if a * q < k * q {
                k * q - a * q
            } else {
                a * q - k * q
            }),
            distance(b * q, k * q) == (if b * q < k * q {
                k * q - b * q
            } else {
                b * q - k * q
            }),
    ;
    let (da, db) = (distance(a, k), distance(b, k));
    assert(da <= db) by (nonlinear_arith)
        requires
            da * q <= db * q,
            q > 0,
    ;
}

/// The nearest magnitude is at most infinity.
proof fn lemma_near_bound(f: Format, n: nat, d: nat)
    ensures
        f.nearest(n, d) <= f.inf(),
{
}

/// To nearest, no float is nearer to the integer in the register than the one that
/// VCVT.F32.S32 or VCVT.F32.U32 gives; and it has the sign of the integer.
pub proof fn law_integer_to_nearest(
    e: Executor,
    cpu: CpuState,
    mem: MemoryModel,
    vd: u8,
    vm: u8,
    c: u32,
)
    requires
        e.it_remaining == 0,
        cpu.has_fpu(),
        cpu.fpu.fpscr / 0x40_0000 % 4 == 0,
        cpu.fpu.s[vm as int % 32] != 0,
        Format::Single.mag(c as u64) < Format::Single.inf(),
    ensures
        ({
            let f = Format::Single;
            let v = cpu.fpu.s[vm as int % 32];
            let x = if v >= 0x8000_0000 {
                v - 0x1_0000_0000
            } else {
                v as int
            };
            let si = Instruction::FpCvt { op: FpCvtOp::S32ToF32, vd, vm };
            let ui = Instruction::FpCvt { op: FpCvtOp::U32ToF32, vd, vm };
            let s = left(e, cpu, mem, si).s[vd as int % 32] as u64;
            let u = left(e, cpu, mem, ui).s[vd as int % 32] as u64;
            let near = f.val(f.mag(c as u64)) as int;
            &&& (s >= 0x8000_0000) == (x < 0)
            &&& u < 0x8000_0000
            &&& distance(f.val(f.mag(s)) as int, distance(x, 0) * pow2(149)) <= distance(
                near,
                distance(x, 0) * pow2(149),
            )
            &&& distance(f.val(f.mag(u)) as int, v * pow2(149)) <= distance(near, v * pow2(149))
        }),
{
    let si = Instruction::FpCvt { op: FpCvtOp::S32ToF32, vd, vm };
    let ui = Instruction::FpCvt { op: FpCvtOp::U32ToF32, vd, vm };
    reveal(float_step);
    lemma_float(e, cpu, mem, si);
    lemma_float(e, cpu, mem, ui);
    lemma_constants();
    let v = cpu.fpu.s[vm as int % 32];
    let x = if v >= 0x8000_0000 {
        v - 0x1_0000_0000
    } else {
        v as int
    };
    lemma_int_nearest(x, Format::Single.mag(c as u64));
    lemma_int_nearest(v as int, Format::Single.mag(c as u64));
}

/// VCVT.F64.S32 and VCVT.F64.U32 keep every integer, read as signed and as unsigned.
pub proof fn law_integer_to_double(e: Executor, cpu: CpuState, mem: MemoryModel, vd: u8, vm: u8)
    requires
        e.it_remaining == 0,
        cpu.has_fpu(),
    ensures
        ({
            let v = cpu.fpu.s[vm as int % 32];
            let x = if v >= 0x8000_0000 {
                v - 0x1_0000_0000
            } else {
                v as int
            };
            let si = Instruction::FpCvt { op: FpCvtOp::S32ToF64, vd, vm };
            let ui = Instruction::FpCvt { op: FpCvtOp::U32ToF64, vd, vm };
            &&& floats_only(e, cpu, mem, si)
            &&& floats_only(e, cpu, mem, ui)
            &&& Format::Double.sval(left(e, cpu, mem, si).d_reg(vd as int)) == x * pow2(1074)
            &&& Format::Double.sval(left(e, cpu, mem, ui).d_reg(vd as int)) == v * pow2(1074)
        }),
{
    let si = Instruction::FpCvt { op: FpCvtOp::S32ToF64, vd, vm };
    let ui = Instruction::FpCvt { op: FpCvtOp::U32ToF64, vd, vm };
    reveal(float_step);
    lemma_float(e, cpu, mem, si);
    lemma_float(e, cpu, mem, ui);
    let v = cpu.fpu.s[vm as int % 32];
    lemma_int_double(v as int);
    lemma_int_double(v - 0x1_0000_0000);
    lemma_d_back(cpu.fpu, vd as int, fpu::int_to_f64(v as int));
    lemma_d_back(cpu.fpu, vd as int, fpu::int_to_f64(v - 0x1_0000_0000));
}

/// A double precision register holds what was written to it.
proof fn lemma_d_back(f: FpuRegisters, d: int, v: u64)
    ensures
        f.with_d(d, v).d_reg(d) == v,
{
    let k = 2 * (d % 16);
    assert(k % 32 == k && (k + 1) % 32 == k + 1);
}

proof fn lemma_to_integer(e: Executor, cpu: CpuState, mem: MemoryModel, op: FpCvtOp, vd: u8, vm: u8)
    requires
        e.it_remaining == 0,
        cpu.has_fpu(),
        op == FpCvtOp::F32ToS32 || op == FpCvtOp::F32ToU32 || op == FpCvtOp::F32ToS32R || op
            == FpCvtOp::F32ToU32R || op == FpCvtOp::F64ToS32 || op == FpCvtOp::F64ToU32 || op
            == FpCvtOp::F64ToS32R || op == FpCvtOp::F64ToU32R,
    ensures
        ({
            let i = Instruction::FpCvt { op, vd, vm };
            let double = op == FpCvtOp::F64ToS32 || op == FpCvtOp::F64ToU32 || op
                == FpCvtOp::F64ToS32R || op == FpCvtOp::F64ToU32R;
            let signed = op == FpCvtOp::F32ToS32 || op == FpCvtOp::F32ToS32R || op
                == FpCvtOp::F64ToS32 || op == FpCvtOp::F64ToS32R;
            let nearest = op == FpCvtOp::F32ToS32R || op == FpCvtOp::F32ToU32R || op
                == FpCvtOp::F64ToS32R || op == FpCvtOp::F64ToU32R;
            let (r, flags) = if double {
                fpu::to_int(Format::Double, cpu.fpu.d_reg(vm as int), signed, nearest)
            } else {
                fpu::to_int(Format::Single, cpu.fpu.s[vm as int % 32] as u64, signed, nearest)
            };
            &&& floats_only(e, cpu, mem, i)
            &&& only_s(left(e, cpu, mem, i), cpu.fpu, vd)
            &&& left(e, cpu, mem, i).s[vd as int % 32] == r
            &&& left(e, cpu, mem, i).fpscr == cpu.fpu.flagged(flags).fpscr
        }),
{
    reveal(float_step);
    lemma_float(e, cpu, mem, Instruction::FpCvt { op, vd, vm });
}

/// The source and the kind of a conversion to an integer.
pub open spec fn converted_from(cpu: CpuState, vm: u8, double: bool) -> u64 {
    if double {
        cpu.fpu.d_reg(vm as int)
    } else {
        cpu.fpu.s[vm as int % 32] as u64
    }
}

/// The format and its unit: 2^149 or 2^1074 of its smallest number are one.
pub open spec fn format_of(double: bool) -> (Format, nat) {
    if double {
        (Format::Double, pow2(1074))
    } else {
        (Format::Single, pow2(149))
    }
}

/// The conversions towards zero cut off what follows the integer part. What is too large
/// gives the largest integer, what is too small the smallest, and what is no number gives
/// zero.
pub proof fn law_to_integer(
    e: Executor,
    cpu: CpuState,
    mem: MemoryModel,
    double: bool,
    vd: u8,
    vm: u8,
)
    requires
        e.it_remaining == 0,
        cpu.has_fpu(),
    ensures
        ({
            let si = Instruction::FpCvt {
                op: if double {
                    FpCvtOp::F64ToS32
                } else {
                    FpCvtOp::F32ToS32
                },
                vd,
                vm,
            };
            let ui = Instruction::FpCvt {
                op: if double {
                    FpCvtOp::F64ToU32
                } else {
                    FpCvtOp::F32ToU32
                },
                vd,
                vm,
            };
            let s = left(e, cpu, mem, si).s[vd as int % 32];
            let u = left(e, cpu, mem, ui).s[vd as int % 32];
            let q = if s >= 0x8000_0000 {
                s - 0x1_0000_0000
            } else {
                s as int
            };
            let x = converted_from(cpu, vm, double);
            let (f, one) = format_of(double);
            let v = f.sval(x);
            let finite = f.mag(x) < f.inf();
            &&& floats_only(e, cpu, mem, si) && floats_only(e, cpu, mem, ui)
            &&& f.mag(x) > f.inf() ==> s == 0 && u == 0
            &&& finite && 0 <= v <= 0x7FFF_FFFF * one ==> q * one <= v < (q + 1) * one
            &&& finite && -0x8000_0000 * one <= v <= 0 ==> (q - 1) * one < v <= q * one
            &&& finite && 0 <= v <= 0xFFFF_FFFF * one ==> u * one <= v < (u + 1) * one
            &&& finite && v > 0x7FFF_FFFF * one ==> s == 0x7FFF_FFFF
            &&& finite && v < -0x8000_0000 * one ==> s == 0x8000_0000
            &&& finite && v > 0xFFFF_FFFF * one ==> u == 0xFFFF_FFFF
            &&& finite && v < 0 ==> u == 0
            &&& f.mag(x) == f.inf() && !f.neg(x) ==> s == 0x7FFF_FFFF && u == 0xFFFF_FFFF
            &&& f.mag(x) == f.inf() && f.neg(x) ==> s == 0x8000_0000
        }),
{
    lemma_to_integer(
        e,
        cpu,
        mem,
        if double {
            FpCvtOp::F64ToS32
        } else {
            FpCvtOp::F32ToS32
        },
        vd,
        vm,
    );
    lemma_to_integer(
        e,
        cpu,
        mem,
        if double {
            FpCvtOp::F64ToU32
        } else {
            FpCvtOp::F32ToU32
        },
        vd,
        vm,
    );
    let (f, one) = format_of(double);
    let x = converted_from(cpu, vm, double);
    let n = f.val(f.mag(x));
    vstd::arithmetic::power2::lemma_pow2_pos(149);
    vstd::arithmetic::power2::lemma_pow2_pos(1074);
    vstd::arithmetic::div_mod::lemma_fundamental_div_mod(n as int, one as int);
    vstd::arithmetic::div_mod::lemma_mod_pos_bound(n as int, one as int);
    let q = (n / one) as int;
    let r = (n % one) as int;
    lemma_cut_off(n as int, one as int, q, r);
}

/// A quotient cut off, and its negative.
proof fn lemma_cut_off(n: int, d: int, q: int, r: int)
    requires
        d > 0,
        n == d * q + r,
        0 <= r < d,
        n >= 0,
    ensures
        q >= 0,
        q * d <= n < (q + 1) * d,
        (-q - 1) * d < -n <= (-q) * d,
        n <= 0x7FFF_FFFF * d ==> q <= 0x7FFF_FFFF,
        n <= 0x8000_0000 * d ==> q <= 0x8000_0000,
        n <= 0xFFFF_FFFF * d ==> q <= 0xFFFF_FFFF,
        -0x8000_0000 * d <= -n <==> n <= 0x8000_0000 * d,
        q == 0 ==> n < d,
{
    assert(q >= 0) by (nonlinear_arith)
        requires
            n == d * q + r,
            0 <= r < d,
            n >= 0,
            d > 0,
    ;
    assert(q * d <= n < (q + 1) * d && (-q - 1) * d < -n <= (-q) * d) by (nonlinear_arith)
        requires
            n == d * q + r,
            0 <= r < d,
    ;
    assert((n <= 0x7FFF_FFFF * d ==> q <= 0x7FFF_FFFF) && (n <= 0x8000_0000 * d ==> q <= 0x8000_0000)
        && (n <= 0xFFFF_FFFF * d ==> q <= 0xFFFF_FFFF)) by (nonlinear_arith)
        requires
            q * d <= n,
            d > 0,
    ;
    assert(-0x8000_0000 * d == -(0x8000_0000 * d)) by (nonlinear_arith);
}

proof fn lemma_record(x: u32, ioc: bool, dzc: bool, ofc: bool, ufc: bool, ixc: bool, idc: bool, qc: bool)
    by (bit_vector)
    ensures
        ({
            let f0 = if ioc { 0u32 | 0x01u32 } else { 0u32 };
            let f1 = if dzc { f0 | 0x02u32 } else { f0 };
            let f2 = if ofc { f1 | 0x04u32 } else { f1 };
            let f3 = if ufc { f2 | 0x08u32 } else { f2 };
            let f4 = if ixc { f3 | 0x10u32 } else { f3 };
            let f5 = if idc { f4 | 0x80u32 } else { f4 };
            let y = if qc { (x | f5) | 0x0800_0000 } else { x | f5 };
            &&& (y & 0x01 != 0) == (x & 0x01 != 0 || ioc)
            &&& (y & 0x02 != 0) == (x & 0x02 != 0 || dzc)
            &&& (y & 0x04 != 0) == (x & 0x04 != 0 || ofc)
            &&& (y & 0x08 != 0) == (x & 0x08 != 0 || ufc)
            &&& (y & 0x10 != 0) == (x & 0x10 != 0 || ixc)
            &&& (y & 0x80 != 0) == (x & 0x80 != 0 || idc)
            &&& (y & 0x0800_0000 != 0) == (x & 0x0800_0000 != 0 || qc)
            &&& y & 0xF7FF_FF60 == x & 0xF7FF_FF60
            &&& y & 0x8000_0000 == x & 0x8000_0000
            &&& y & 0x4000_0000 == x & 0x4000_0000
            &&& y & 0x2000_0000 == x & 0x2000_0000
            &&& y & 0x1000_0000 == x & 0x1000_0000
            &&& !ioc && !dzc && !ofc && !ufc && !ixc && !idc && !qc ==> y == x
        }),
{
}

/// Each exception is recorded in its own bit of FPSCR and stays recorded: invalid
/// operation in bit 0, division by zero in bit 1, overflow, underflow and inexactness in
/// bits 2 to 4, a subnormal operand in bit 7, and saturation in bit 27. No other bit
/// changes.
pub proof fn law_exception_bits(f: FpuRegisters, x: FpOpFlags)
    ensures
        ({
            let (a, b) = (f.fpscr, f.flagged(x).fpscr);
            &&& (b & 0x01 != 0) == (a & 0x01 != 0 || x.ioc)
            &&& (b & 0x02 != 0) == (a & 0x02 != 0 || x.dzc)
            &&& (b & 0x04 != 0) == (a & 0x04 != 0 || x.ofc)
            &&& (b & 0x08 != 0) == (a & 0x08 != 0 || x.ufc)
            &&& (b & 0x10 != 0) == (a & 0x10 != 0 || x.ixc)
            &&& (b & 0x80 != 0) == (a & 0x80 != 0 || x.idc)
            &&& (b & 0x0800_0000 != 0) == (a & 0x0800_0000 != 0 || x.qc)
            &&& b & 0xF7FF_FF60 == a & 0xF7FF_FF60
            &&& float_flags(f.flagged(x)) == float_flags(f)
            &&& x == fpu::no_flags() ==> b == a
        }),
{
    lemma_record(f.fpscr, x.ioc, x.dzc, x.ofc, x.ufc, x.ixc, x.idc, x.qc);
}

/// VABS clears the sign and VNEG turns it round; nothing else of the bit pattern changes,
/// and no exception is recorded.
pub proof fn law_sign_operations(
    e: Executor,
    cpu: CpuState,
    mem: MemoryModel,
    vd: u8,
    vm: u8,
)
    requires
        e.it_remaining == 0,
        cpu.has_fpu(),
    ensures
        ({
            let ai = Instruction::FpUnary { op: FpUnaryOp::Vabs, vd, vm, double: false };
            let ni = Instruction::FpUnary { op: FpUnaryOp::Vneg, vd, vm, double: false };
            let x = cpu.fpu.s[vm as int % 32];
            let a = left(e, cpu, mem, ai).s[vd as int % 32];
            let n = left(e, cpu, mem, ni).s[vd as int % 32];
            &&& floats_only(e, cpu, mem, ai) && floats_only(e, cpu, mem, ni)
            &&& only_s(left(e, cpu, mem, ai), cpu.fpu, vd)
            &&& only_s(left(e, cpu, mem, ni), cpu.fpu, vd)
            &&& a == x % 0x8000_0000
            &&& n == (x + 0x8000_0000) % 0x1_0000_0000
            &&& left(e, cpu, mem, ai).fpscr == cpu.fpu.fpscr
            &&& left(e, cpu, mem, ni).fpscr == cpu.fpu.fpscr
        }),
{
    let ai = Instruction::FpUnary { op: FpUnaryOp::Vabs, vd, vm, double: false };
    let ni = Instruction::FpUnary { op: FpUnaryOp::Vneg, vd, vm, double: false };
    reveal(float_step);
    lemma_float(e, cpu, mem, ai);
    lemma_float(e, cpu, mem, ni);
    lemma_constants();
    law_exception_bits(cpu.fpu, fpu::no_flags());
}

/// The flags N, Z, C and V of FPSCR.
pub open spec fn float_flags(f: FpuRegisters) -> (bool, bool, bool, bool) {
    (
        f.fpscr & 0x8000_0000 != 0,
        f.fpscr & 0x4000_0000 != 0,
        f.fpscr & 0x2000_0000 != 0,
        f.fpscr & 0x1000_0000 != 0,
    )
}

proof fn lemma_put_flags(x: u32, n: bool, z: bool, c: bool, v: bool)
    by (bit_vector)
    ensures
        ({
            let a = if n { 0x8000_0000u32 } else { 0u32 };
            let b = if z { 0x4000_0000u32 } else { 0u32 };
            let d = if c { 0x2000_0000u32 } else { 0u32 };
            let e = if v { 0x1000_0000u32 } else { 0u32 };
            let y = (x & 0x0FFF_FFFF) | (a | b | d | e);
            &&& (y & 0x8000_0000 != 0) == n
            &&& (y & 0x4000_0000 != 0) == z
            &&& (y & 0x2000_0000 != 0) == c
            &&& (y & 0x1000_0000 != 0) == v
            &&& y & 0x0FFF_FFFF == x & 0x0FFF_FFFF
        }),
{
}

/// Comparing two numbers sets the flags as comparing integers would: equal ones set Z and
/// C, a smaller first one sets N, and a larger one C. What is no number compares with
/// nothing and sets C and V; VCMPE then records an invalid operation.
pub proof fn law_compare(
    e: Executor,
    cpu: CpuState,
    mem: MemoryModel,
    vd: u8,
    vm: u8,
    double: bool,
    signals: bool,
    zero: bool,
)
    requires
        e.it_remaining == 0,
        cpu.has_fpu(),
    ensures
        ({
            let i = Instruction::FpCmp { vd, vm, double, e: signals, zero };
            let a = converted_from(cpu, vd, double);
            let b = if zero {
                0
            } else {
                converted_from(cpu, vm, double)
            };
            let (f, _) = format_of(double);
            let r = left(e, cpu, mem, i);
            let number = f.mag(a) <= f.inf() && f.mag(b) <= f.inf();
            &&& floats_only(e, cpu, mem, i)
            &&& r.s == cpu.fpu.s
            &&& !number ==> float_flags(r) == (false, false, true, true)
            &&& !number && signals ==> r.fpscr & 1 != 0
            &&& number && f.sval(a) == f.sval(b) ==> float_flags(r) == (false, true, true, false)
            &&& number && f.sval(a) < f.sval(b) ==> float_flags(r) == (true, false, false, false)
            &&& number && f.sval(a) > f.sval(b) ==> float_flags(r) == (false, false, true, false)
            &&& number ==> r.fpscr & 0x0FFF_FFFF == cpu.fpu.fpscr & 0x0FFF_FFFF
        }),
{
    let i = Instruction::FpCmp { vd, vm, double, e: signals, zero };
    reveal(float_step);
    lemma_float(e, cpu, mem, i);
    let x = cpu.fpu.fpscr;
    lemma_put_flags(x, false, false, true, true);
    lemma_put_flags(x, false, true, true, false);
    lemma_put_flags(x, true, false, false, false);
    lemma_put_flags(x, false, false, true, false);
    let y = (x & 0x0FFF_FFFF) | fpu::nzcv_bits(false, false, true, true);
    law_exception_bits(
        FpuRegisters { fpscr: y, ..cpu.fpu },
        FpOpFlags { ioc: true, ..fpu::no_flags() },
    );
}

/// VMOV copies bit patterns: between single precision registers, to and from a core
/// register, and of a constant.
pub proof fn law_float_moves(
    e: Executor,
    cpu: CpuState,
    mem: MemoryModel,
    d: u8,
    m: u8,
    rt: u8,
    imm: u64,
)
    requires
        e.it_remaining == 0,
        cpu.has_fpu(),
        rt < 16,
    ensures
        ({
            let copy = Instruction::FpVmovReg { sd: d, sm: m, double: false };
            let wide = Instruction::FpVmovReg { sd: d, sm: m, double: true };
            let set = Instruction::FpVmovImm { sd: d, imm, double: false };
            let set_wide = Instruction::FpVmovImm { sd: d, imm, double: true };
            let get = Instruction::FpVmovCore { rt, sn: d, to_core: true };
            let put = Instruction::FpVmovCore { rt, sn: d, to_core: false };
            let got = e.executed(cpu, mem, get).effect;
            &&& floats_only(e, cpu, mem, copy) && only_s(left(e, cpu, mem, copy), cpu.fpu, d)
            &&& left(e, cpu, mem, copy).s[d as int % 32] == cpu.fpu.s[m as int % 32]
            &&& floats_only(e, cpu, mem, wide)
            &&& left(e, cpu, mem, wide).d_reg(d as int) == cpu.fpu.d_reg(m as int)
            &&& floats_only(e, cpu, mem, set) && only_s(left(e, cpu, mem, set), cpu.fpu, d)
            &&& left(e, cpu, mem, set).s[d as int % 32] == imm % 0x1_0000_0000
            &&& left(e, cpu, mem, set_wide).d_reg(d as int) == imm
            &&& floats_only(e, cpu, mem, put) && only_s(left(e, cpu, mem, put), cpu.fpu, d)
            &&& left(e, cpu, mem, put).s[d as int % 32] == cpu.regs[rt as int]
            &&& got.cpu.regs[rt as int] == cpu.fpu.s[d as int % 32]
            &&& got.cpu.fpu == cpu.fpu
            &&& got.outcome == ExecOutcome::Continue && got.mem == mem
            &&& forall|i: int| 0 <= i < 16 && i != rt ==> #[trigger] got.cpu.regs[i] == cpu.regs[i]
        }),
{
    reveal(float_step);
    lemma_float(e, cpu, mem, Instruction::FpVmovReg { sd: d, sm: m, double: false });
    lemma_float(e, cpu, mem, Instruction::FpVmovReg { sd: d, sm: m, double: true });
    lemma_float(e, cpu, mem, Instruction::FpVmovImm { sd: d, imm, double: false });
    lemma_float(e, cpu, mem, Instruction::FpVmovImm { sd: d, imm, double: true });
    lemma_float(e, cpu, mem, Instruction::FpVmovCore { rt, sn: d, to_core: true });
    lemma_float(e, cpu, mem, Instruction::FpVmovCore { rt, sn: d, to_core: false });
    lemma_d_back(cpu.fpu, d as int, cpu.fpu.d_reg(m as int));
    lemma_d_back(cpu.fpu, d as int, imm);
}

/// A signed fraction that is a number of the format is rounded to that number.
proof fn lemma_rounds_to(f: Format, mode: FpRounding, t: int, d: nat, zero_neg: bool, c: u64)
    requires
        d > 0,
        f.fits(c),
        0 < f.mag(c) < f.inf(),
        t == f.sval(c) * d,
    ensures
        exact_of(t, d, zero_neg).rounded(f, mode) == c,
        t != 0,
        (t < 0) == f.neg(c),
        !exact_of(t, d, zero_neg).inexact(f),
{
    lemma_constants();
    law_magnitude_order(f, 0, f.mag(c));
    let v = f.val(f.mag(c)) as int;
    assert(v * d > 0 && (-v) * d == -(v * d)) by (nonlinear_arith)
        requires
            v > 0,
            d > 0,
    ;
    fpu::lemma_sign_split(f, c);
    law_exact_rounding(f, mode, f.neg(c), f.mag(c), (v * d) as nat, d);
    lemma_unpack(f, f.neg(c), f.mag(c));
}

/// The product of two numbers as a signed fraction.
proof fn lemma_product_fraction(f: Format, x: u64, y: u64)
    requires
        f.mag(x) < f.inf(),
        f.mag(y) < f.inf(),
        f.sval(x) * f.sval(y) != 0,
    ensures
        exact_mul(f, x, y) == exact_of(f.sval(x) * f.sval(y), pow2(f.unit()), false),
{
    lemma_constants();
    let (a, b) = (f.val(f.mag(x)) as int, f.val(f.mag(y)) as int);
    assert(0 * f.sval(y) == 0 && f.sval(x) * 0 == 0);
    lemma_val_zero(f);
    if f.mag(x) > 0 {
        law_magnitude_order(f, 0, f.mag(x));
    }
    if f.mag(y) > 0 {
        law_magnitude_order(f, 0, f.mag(y));
    }
    assert(a * b > 0 && (-a) * b == -(a * b) && a * (-b) == -(a * b) && (-a) * (-b) == a * b) by (
    nonlinear_arith)
        requires
            a > 0,
            b > 0,
    ;
}

proof fn lemma_val_zero(f: Format)
    ensures
        f.val(0) == 0,
{
    lemma_constants();
}

/// A quotient that is a number of the format.
proof fn lemma_quotient_value(f: Format, mode: FpRounding, x: u64, y: u64, c: u64)
    requires
        f.mag(x) < f.inf(),
        0 < f.mag(y) < f.inf(),
        f.fits(c),
        0 < f.mag(c) < f.inf(),
        f.sval(x) * pow2(f.unit()) == f.sval(c) * f.sval(y),
    ensures
        exact_div(f, x, y).rounded(f, mode) == c,
        f.mag(x) > 0,
{
    lemma_constants();
    lemma_val_zero(f);
    vstd::arithmetic::power2::lemma_pow2_pos(f.unit());
    let u = pow2(f.unit()) as int;
    let (a, b, v) = (f.val(f.mag(x)) as int, f.val(f.mag(y)) as int, f.val(f.mag(c)) as int);
    law_magnitude_order(f, 0, f.mag(y));
    law_magnitude_order(f, 0, f.mag(c));
    assert(v * b > 0 && (-v) * b == -(v * b) && v * (-b) == -(v * b) && (-v) * (-b) == v * b && (-a)
        * u == -(a * u) && (a > 0 ==> a * u > 0) && (a == 0 ==> a * u == 0)) by (nonlinear_arith)
        requires
            v > 0,
            b > 0,
            u > 0,
    ;
    if f.mag(x) > 0 {
        law_magnitude_order(f, 0, f.mag(x));
    }
    assert(v * b == a * u);
    assert((f.neg(x) != f.neg(y)) == f.neg(c));
    fpu::lemma_sign_split(f, c);
    law_exact_rounding(f, mode, f.neg(c), f.mag(c), (a * u) as nat, b as nat);
    lemma_unpack(f, f.neg(c), f.mag(c));
}

/// The number with the other sign.
proof fn lemma_negated(f: Format, x: u64)
    requires
        f.fits(x),
    ensures
        f.sval(fpu::negated(f, x)) == -f.sval(x),
        f.mag(fpu::negated(f, x)) == f.mag(x),
        f.neg(fpu::negated(f, x)) == !f.neg(x),
        f.fits(fpu::negated(f, x)),
        fpu::negated(f, fpu::negated(f, x)) == x,
{
    fpu::lemma_sign_split(f, x);
    lemma_unpack(f, !f.neg(x), f.mag(x));
    lemma_unpack(f, f.neg(x), f.mag(x));
}

/// `c` is the result of an operation on `a`, `b` and the accumulator, all in units of
/// which there are `one` in one.
pub open spec fn solves(op: FpArithOp, one: int, a: int, b: int, acc: int, c: int) -> bool {
    match op {
        FpArithOp::Vadd => a + b == c,
        FpArithOp::Vsub => a - b == c,
        FpArithOp::Vmul => a * b == c * one,
        FpArithOp::Vnmul => a * b == -c * one,
        FpArithOp::Vdiv => b != 0 && a * one == c * b,
        FpArithOp::Vmla => acc * one + a * b == c * one,
        FpArithOp::Vmls => acc * one - a * b == c * one,
        FpArithOp::Vnmla => acc * one + a * b == -c * one,
        FpArithOp::Vnmls => acc * one - a * b == -c * one,
    }
}

proof fn lemma_binary(f: Format, op: BinOp, a: u64, b: u64, c: u64, mode: FpRounding)
    requires
        f.fits(a),
        f.fits(b),
        f.fits(c),
        f.mag(a) < f.inf(),
        f.mag(b) < f.inf(),
        0 < f.mag(c) < f.inf(),
        solves(
            match op {
                BinOp::Add => FpArithOp::Vadd,
                BinOp::Sub => FpArithOp::Vsub,
                BinOp::Mul => FpArithOp::Vmul,
                BinOp::Div => FpArithOp::Vdiv,
            },
            pow2(f.unit()) as int,
            f.sval(a),
            f.sval(b),
            0,
            f.sval(c),
        ),
    ensures
        fpu::exact_op(op, f, a, b).rounded(f, mode) == c,
        op == BinOp::Div ==> f.mag(b) != 0,
{
    lemma_constants();
    vstd::arithmetic::power2::lemma_pow2_pos(f.unit());
    lemma_val_zero(f);
    match op {
        BinOp::Add => {
            lemma_rounds_to(f, mode, f.sval(a) + f.sval(b), 1, f.neg(a) && f.neg(b), c);
        },
        BinOp::Sub => {
            lemma_negated(f, b);
            lemma_rounds_to(
                f,
                mode,
                f.sval(a) - f.sval(b),
                1,
                f.neg(a) && f.neg(fpu::negated(f, b)),
                c,
            );
        },
        BinOp::Mul => {
            lemma_rounds_to(f, mode, f.sval(a) * f.sval(b), pow2(f.unit()), false, c);
            lemma_product_fraction(f, a, b);
        },
        BinOp::Div => {
            lemma_quotient_value(f, mode, a, b, c);
        },
    }
}

/// Single precision arithmetic gives the number that solves the equation of the
/// operation, to nearest and without flushing: the sum, the difference, the product, its
/// negative, the quotient.
pub proof fn law_single_arithmetic(
    e: Executor,
    cpu: CpuState,
    mem: MemoryModel,
    op: FpArithOp,
    vd: u8,
    vn: u8,
    vm: u8,
    c: u32,
)
    requires
        e.it_remaining == 0,
        cpu.has_fpu(),
        cpu.fpu.fpscr / 0x40_0000 % 4 == 0,
        cpu.fpu.fpscr & 0x0100_0000 == 0,
        op == FpArithOp::Vadd || op == FpArithOp::Vsub || op == FpArithOp::Vmul || op
            == FpArithOp::Vnmul || op == FpArithOp::Vdiv,
        Format::Single.mag(cpu.fpu.s[vn as int % 32] as u64) < Format::Single.inf(),
        Format::Single.mag(cpu.fpu.s[vm as int % 32] as u64) < Format::Single.inf(),
        0 < Format::Single.mag(c as u64) < Format::Single.inf(),
        solves(
            op,
            pow2(149) as int,
            Format::Single.sval(cpu.fpu.s[vn as int % 32] as u64),
            Format::Single.sval(cpu.fpu.s[vm as int % 32] as u64),
            0,
            Format::Single.sval(c as u64),
        ),
    ensures
        ({
            let i = Instruction::FpArith3 { op, vd, vn, vm, double: false };
            &&& floats_only(e, cpu, mem, i)
            &&& only_s(left(e, cpu, mem, i), cpu.fpu, vd)
            &&& left(e, cpu, mem, i).s[vd as int % 32] == c
        }),
{
    let f = Format::Single;
    let i = Instruction::FpArith3 { op, vd, vn, vm, double: false };
    reveal(float_step);
    lemma_float(e, cpu, mem, i);
    lemma_constants();
    let (a, b) = (cpu.fpu.s[vn as int % 32] as u64, cpu.fpu.s[vm as int % 32] as u64);
    let near = FpRounding::Nearest;
    lemma_negated(f, c as u64);
    match op {
        FpArithOp::Vadd => lemma_binary(f, BinOp::Add, a, b, c as u64, near),
        FpArithOp::Vsub => lemma_binary(f, BinOp::Sub, a, b, c as u64, near),
        FpArithOp::Vmul => lemma_binary(f, BinOp::Mul, a, b, c as u64, near),
        FpArithOp::Vdiv => lemma_binary(f, BinOp::Div, a, b, c as u64, near),
        _ => lemma_binary(f, BinOp::Mul, a, b, fpu::negated(f, c as u64), near),
    }
}

/// Double precision sums, differences, products and their negatives, in every rounding
/// mode, and quotients to nearest, give the number that solves the equation of the
/// operation.
pub proof fn law_double_arithmetic(
    e: Executor,
    cpu: CpuState,
    mem: MemoryModel,
    op: FpArithOp,
    vd: u8,
    vn: u8,
    vm: u8,
    c: u64,
)
    requires
        e.it_remaining == 0,
        cpu.has_fpu(),
        op == FpArithOp::Vadd || op == FpArithOp::Vsub || op == FpArithOp::Vmul || op
            == FpArithOp::Vnmul || (op == FpArithOp::Vdiv && cpu.fpu.fpscr / 0x40_0000 % 4 == 0),
        Format::Double.mag(cpu.fpu.d_reg(vn as int)) < Format::Double.inf(),
        Format::Double.mag(cpu.fpu.d_reg(vm as int)) < Format::Double.inf(),
        0 < Format::Double.mag(c) < Format::Double.inf(),
        solves(
            op,
            pow2(1074) as int,
            Format::Double.sval(cpu.fpu.d_reg(vn as int)),
            Format::Double.sval(cpu.fpu.d_reg(vm as int)),
            0,
            Format::Double.sval(c),
        ),
    ensures
        ({
            let i = Instruction::FpArith3 { op, vd, vn, vm, double: true };
            &&& floats_only(e, cpu, mem, i)
            &&& left(e, cpu, mem, i).d_reg(vd as int) == c
        }),
{
    let f = Format::Double;
    let i = Instruction::FpArith3 { op, vd, vn, vm, double: true };
    reveal(float_step);
    lemma_float(e, cpu, mem, i);
    lemma_constants();
    let (a, b) = (cpu.fpu.d_reg(vn as int), cpu.fpu.d_reg(vm as int));
    let mode = cpu.fpu.mode();
    lemma_negated(f, c);
    match op {
        FpArithOp::Vadd => lemma_binary(f, BinOp::Add, a, b, c, mode),
        FpArithOp::Vsub => lemma_binary(f, BinOp::Sub, a, b, c, mode),
        FpArithOp::Vmul => lemma_binary(f, BinOp::Mul, a, b, c, mode),
        FpArithOp::Vdiv => lemma_binary(f, BinOp::Div, a, b, c, mode),
        _ => lemma_binary(f, BinOp::Mul, a, b, fpu::negated(f, c), mode),
    }
    let (r, flags) = crate::engine::vfp::arith64(cpu.fpu, op, a, b, cpu.fpu.d_reg(vd as int));
    lemma_d_back(cpu.fpu.flagged(flags), vd as int, r);
}

proof fn lemma_fused(f: Format, a: u64, b: u64, acc: u64, neg_prod: bool, neg_acc: bool, c: u64)
    requires
        f.fits(a),
        f.fits(b),
        f.fits(acc),
        f.fits(c),
        f.mag(a) < f.inf(),
        f.mag(b) < f.inf(),
        f.mag(acc) < f.inf(),
        0 < f.mag(c) < f.inf(),
        ({
            let one = pow2(f.unit()) as int;
            let p = if neg_prod {
                -(f.sval(a) * f.sval(b))
            } else {
                f.sval(a) * f.sval(b)
            };
            f.sval(acc) * one + p == if neg_acc {
                -f.sval(c) * one
            } else {
                f.sval(c) * one
            }
        }),
    ensures
        fpu::fused(f, a, b, acc, neg_prod, neg_acc) == c,
{
    lemma_constants();
    vstd::arithmetic::power2::lemma_pow2_pos(f.unit());
    lemma_negated(f, a);
    lemma_negated(f, c);
    let pa = if neg_prod {
        fpu::negated(f, a)
    } else {
        a
    };
    let (x, y) = (f.sval(a), f.sval(b));
    assert((-x) * y == -(x * y)) by (nonlinear_arith);
    let t = f.sval(pa) * f.sval(b) + f.sval(acc) * pow2(f.unit());
    let zero_neg = (f.neg(pa) != f.neg(b)) && f.neg(acc);
    if neg_acc {
        lemma_rounds_to(f, FpRounding::Nearest, t, pow2(f.unit()), zero_neg, fpu::negated(f, c));
    } else {
        lemma_rounds_to(f, FpRounding::Nearest, t, pow2(f.unit()), zero_neg, c);
    }
}

/// The accumulating operations round once: VMLA adds the product to the accumulator, VMLS
/// subtracts it, and VNMLA and VNMLS give the negatives of these.
pub proof fn law_accumulation(
    e: Executor,
    cpu: CpuState,
    mem: MemoryModel,
    op: FpArithOp,
    vd: u8,
    vn: u8,
    vm: u8,
    double: bool,
    c: u64,
)
    requires
        e.it_remaining == 0,
        cpu.has_fpu(),
        cpu.fpu.fpscr & 0x0100_0000 == 0,
        op == FpArithOp::Vmla || op == FpArithOp::Vmls || op == FpArithOp::Vnmla || op
            == FpArithOp::Vnmls,
        ({
            let (f, one) = format_of(double);
            let a = converted_from(cpu, vn, double);
            let b = converted_from(cpu, vm, double);
            let acc = converted_from(cpu, vd, double);
            &&& f.mag(a) < f.inf() && f.mag(b) < f.inf() && f.mag(acc) < f.inf()
            &&& f.fits(c) && 0 < f.mag(c) < f.inf()
            &&& solves(op, one as int, f.sval(a), f.sval(b), f.sval(acc), f.sval(c))
        }),
    ensures
        ({
            let i = Instruction::FpArith3 { op, vd, vn, vm, double };
            let r = left(e, cpu, mem, i);
            &&& floats_only(e, cpu, mem, i)
            &&& double ==> r.d_reg(vd as int) == c
            &&& !double ==> r.s[vd as int % 32] == c && only_s(r, cpu.fpu, vd)
        }),
{
    let (f, one) = format_of(double);
    let i = Instruction::FpArith3 { op, vd, vn, vm, double };
    reveal(float_step);
    lemma_float(e, cpu, mem, i);
    lemma_constants();
    let a = converted_from(cpu, vn, double);
    let b = converted_from(cpu, vm, double);
    let acc = converted_from(cpu, vd, double);
    let neg_prod = op == FpArithOp::Vmls || op == FpArithOp::Vnmls;
    let neg_acc = op == FpArithOp::Vnmla || op == FpArithOp::Vnmls;
    lemma_fused(f, a, b, acc, neg_prod, neg_acc, c);
    if double {
        let (r, flags) = crate::engine::vfp::arith64(cpu.fpu, op, a, b, acc);
        lemma_d_back(cpu.fpu.flagged(flags), vd as int, r);
    }
}

/// Where the square of `c` is the operand, VSQRT gives `c`, with no exception. Zeros and
/// infinity are their own roots; of a negative number there is none, which is an invalid
/// operation.
pub proof fn law_square_root(
    e: Executor,
    cpu: CpuState,
    mem: MemoryModel,
    vd: u8,
    vm: u8,
    c: u32,
)
    requires
        e.it_remaining == 0,
        cpu.has_fpu(),
    ensures
        ({
            let i = Instruction::FpUnary { op: FpUnaryOp::Vsqrt, vd, vm, double: false };
            let x = cpu.fpu.s[vm as int % 32];
            let f = left(e, cpu, mem, i);
            let r = f.s[vd as int % 32];
            let (a, b) = (Format::Single.val(x as nat), Format::Single.val(c as nat));
            &&& floats_only(e, cpu, mem, i)
            &&& only_s(f, cpu.fpu, vd)
            &&& 0 < x < 0x7F80_0000 && 0 < c < 0x7F80_0000 && b * b == a * pow2(149) ==> r == c
                && f.fpscr == cpu.fpu.fpscr
            &&& x % 0x8000_0000 == 0 || x == 0x7F80_0000 ==> r == x && f.fpscr == cpu.fpu.fpscr
            &&& 0x8000_0000 < x <= 0xFF80_0000 ==> r == 0x7FC0_0000 && f.fpscr & 1 != 0
        }),
{
    let i = Instruction::FpUnary { op: FpUnaryOp::Vsqrt, vd, vm, double: false };
    reveal(float_step);
    lemma_float(e, cpu, mem, i);
    lemma_constants();
    law_exception_bits(cpu.fpu, fpu::no_flags());
    law_exception_bits(cpu.fpu, FpOpFlags { ioc: true, ..fpu::no_flags() });
    let x = cpu.fpu.s[vm as int % 32];
    let f = Format::Single;
    let (a, b) = (f.val(x as nat), f.val(c as nat));
    if 0 < x < 0x7F80_0000 && 0 < c < 0x7F80_0000 && b * b == a * pow2(149) {
        law_magnitude_order(f, c as nat, (c + 1) as nat);
        let d = f.val((c + 1) as nat);
        assert(b * b < d * d && 4 * (b * b) < (b + d) * (b + d)) by (nonlinear_arith)
            requires
                0 <= b < d,
        ;
        lemma_root_unique(f, c as nat, radicand(f, x as nat));
    }
}

/// A number divided by zero is infinite with the sign of the number, and is recorded as a
/// division by zero; zero divided by zero is no number, and an invalid operation.
pub proof fn law_zero_divisor(
    e: Executor,
    cpu: CpuState,
    mem: MemoryModel,
    vd: u8,
    vn: u8,
    vm: u8,
)
    requires
        e.it_remaining == 0,
        cpu.has_fpu(),
        cpu.fpu.s[vm as int % 32] % 0x8000_0000 == 0,
    ensures
        ({
            let i = Instruction::FpArith3 { op: FpArithOp::Vdiv, vd, vn, vm, double: false };
            let x = cpu.fpu.s[vn as int % 32];
            let f = left(e, cpu, mem, i);
            let r = f.s[vd as int % 32];
            &&& floats_only(e, cpu, mem, i)
            &&& only_s(f, cpu.fpu, vd)
            &&& x % 0x8000_0000 == 0 ==> r == 0x7FC0_0000 && f.fpscr & 1 != 0 && (f.fpscr & 2 != 0)
                == (cpu.fpu.fpscr & 2 != 0)
            &&& 0 < x % 0x8000_0000 <= 0x7F80_0000 ==> r == (if x < 0x8000_0000 {
                0x7F80_0000u32
            } else {
                0xFF80_0000u32
            }) && f.fpscr & 2 != 0 && (f.fpscr & 1 != 0) == (cpu.fpu.fpscr & 1 != 0)
        }),
{
    let i = Instruction::FpArith3 { op: FpArithOp::Vdiv, vd, vn, vm, double: false };
    reveal(float_step);
    lemma_float(e, cpu, mem, i);
    lemma_constants();
    let (a, b) = (cpu.fpu.s[vn as int % 32], cpu.fpu.s[vm as int % 32]);
    law_exception_bits(cpu.fpu, fpu::f32_op(cpu.fpu, BinOp::Div, a, b).1);
}

/// Widening a single precision number gives the same number in double precision, and
/// narrowing that gives the pattern back.
pub proof fn law_precision_change(e: Executor, cpu: CpuState, mem: MemoryModel, vd: u8, vm: u8, vs: u8)
    requires
        e.it_remaining == 0,
        cpu.has_fpu(),
        Format::Single.mag(cpu.fpu.s[vm as int % 32] as u64) < Format::Single.inf(),
    ensures
        ({
            let wide = Instruction::FpCvt { op: FpCvtOp::F64ToF32, vd, vm };
            let back = Instruction::FpCvt { op: FpCvtOp::F32ToF64, vd: vs, vm: vd };
            let x = cpu.fpu.s[vm as int % 32];
            let r = e.executed(cpu, mem, wide).effect;
            &&& floats_only(e, cpu, mem, wide)
            &&& Format::Double.sval(r.cpu.fpu.d_reg(vd as int)) == Format::Single.sval(x as u64)
                * pow2(925)
            &&& Format::Double.neg(r.cpu.fpu.d_reg(vd as int)) == Format::Single.neg(x as u64)
            &&& r.cpu.fpu.fpscr == cpu.fpu.fpscr
            &&& left(e, r.cpu, r.mem, back).s[vs as int % 32] == x
        }),
{
    let wide = Instruction::FpCvt { op: FpCvtOp::F64ToF32, vd, vm };
    let back = Instruction::FpCvt { op: FpCvtOp::F32ToF64, vd: vs, vm: vd };
    let x = cpu.fpu.s[vm as int % 32];
    reveal(float_step);
    lemma_constants();
    lemma_float(e, cpu, mem, wide);
    let r = e.executed(cpu, mem, wide).effect;
    lemma_float(e, r.cpu, r.mem, back);
    lemma_d_back(cpu.fpu, vd as int, fpu::widened(x));
    fpu::law_widening_exact(x);
    fpu::law_narrowing_undoes_widening(r.cpu.fpu.mode(), x);
}

/// The integer that a register holds in fixed point: its low half or the whole of it, with
/// or without a sign.
pub open spec fn held(v: u32, width: u8, signed: bool) -> int {
    let (low, half) = if width == 16 {
        (v as int % 0x1_0000, 0x8000int)
    } else {
        (v as int, 0x8000_0000)
    };
    if signed && low >= half {
        low - 2 * half
    } else {
        low
    }
}

/// A fixed point number with `fbits` fraction bits is the integer in the register divided
/// by 2^fbits: where that is a number of the format it is the result, with no exception.
pub proof fn law_from_fixed(
    e: Executor,
    cpu: CpuState,
    mem: MemoryModel,
    vd: u8,
    fbits: u8,
    width: u8,
    signed: bool,
    c: u32,
)
    requires
        e.it_remaining == 0,
        cpu.has_fpu(),
        width == 16 || width == 32,
        0 < Format::Single.mag(c as u64) < Format::Single.inf(),
        Format::Single.sval(c as u64) * pow2(fbits as nat) == held(
            cpu.fpu.s[vd as int % 32],
            width,
            signed,
        ) * pow2(149),
    ensures
        ({
            let i = Instruction::FpCvtFixed { vd, fbits, width, signed, to_float: true };
            let f = left(e, cpu, mem, i);
            &&& floats_only(e, cpu, mem, i)
            &&& only_s(f, cpu.fpu, vd)
            &&& f.s[vd as int % 32] == c
            &&& f.fpscr == cpu.fpu.fpscr
        }),
{
    let i = Instruction::FpCvtFixed { vd, fbits, width, signed, to_float: true };
    reveal(float_step);
    lemma_float(e, cpu, mem, i);
    lemma_constants();
    law_exception_bits(cpu.fpu, fpu::no_flags());
    let v = cpu.fpu.s[vd as int % 32];
    let x = held(v, width, signed);
    assert(fpu::fixed_value(v, signed, width as nat) == x);
    vstd::arithmetic::power2::lemma_pow2_pos(fbits as nat);
    lemma_rounds_to(
        Format::Single,
        cpu.fpu.mode(),
        x * pow2(149),
        pow2(fbits as nat),
        false,
        c as u64,
    );
}

/// Where a number times 2^fbits is an integer that the fixed point register can hold, that
/// integer is the result in every rounding mode, with no exception.
pub proof fn law_to_fixed(
    e: Executor,
    cpu: CpuState,
    mem: MemoryModel,
    vd: u8,
    fbits: u8,
    width: u8,
    signed: bool,
    x: int,
)
    requires
        e.it_remaining == 0,
        cpu.has_fpu(),
        width == 16 || width == 32,
        Format::Single.mag(cpu.fpu.s[vd as int % 32] as u64) < Format::Single.inf(),
        Format::Single.sval(cpu.fpu.s[vd as int % 32] as u64) * pow2(fbits as nat) == x * pow2(149),
        signed && width == 16 ==> -0x8000 <= x <= 0x7FFF,
        !signed && width == 16 ==> 0 <= x <= 0xFFFF,
        signed && width == 32 ==> -0x8000_0000 <= x <= 0x7FFF_FFFF,
        !signed && width == 32 ==> 0 <= x <= 0xFFFF_FFFF,
    ensures
        ({
            let i = Instruction::FpCvtFixed { vd, fbits, width, signed, to_float: false };
            let f = left(e, cpu, mem, i);
            &&& floats_only(e, cpu, mem, i)
            &&& only_s(f, cpu.fpu, vd)
            &&& f.s[vd as int % 32] == x % 0x1_0000_0000
            &&& f.fpscr == cpu.fpu.fpscr
        }),
{
    let i = Instruction::FpCvtFixed { vd, fbits, width, signed, to_float: false };
    reveal(float_step);
    lemma_float(e, cpu, mem, i);
    lemma_constants();
    law_exception_bits(cpu.fpu, fpu::no_flags());
    vstd::arithmetic::power2::lemma2_to64();
    vstd::arithmetic::power2::lemma_pow2_pos(149);
    let f = Format::Single;
    let v = cpu.fpu.s[vd as int % 32] as u64;
    let a = f.val(f.mag(v)) as int;
    let p = pow2(fbits as nat) as int;
    let d = pow2(149) as int;
    let m = if f.neg(v) { -x } else { x };
    assert((-a) * p == -(a * p) && (-x) * d == -(x * d)) by (nonlinear_arith);
    assert(a * p == m * d);
    assert(m >= 0) by (nonlinear_arith)
        requires
            a * p == m * d,
            a >= 0,
            p >= 0,
            d > 0,
    ;
    vstd::arithmetic::div_mod::lemma_fundamental_div_mod_converse(a * p, d, m, 0);
}

} // verus!
