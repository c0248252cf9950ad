//! Floating point unit: register file, status register and operations.
//!
//! Single precision is what a Cortex-M4F has; double precision follows the same
//! rules, with D(n) laid over S(2n) and S(2n+1). Operands and results are bit
//! patterns. The rounding mode of FPSCR applies to addition, subtraction,
//! multiplication, division and conversions; fused operations round to nearest.
use crate::bits::{low32, power};
use crate::engine::softfloat::{
    exact_add, exact_convert, exact_div, exact_fixed, exact_fma, exact_mul, frac_of, int_part, mag_of,
    neg_of, num_add, num_convert, num_div, num_fixed, num_fma, num_mul, order, pack_bits, round_num,
    sig_of, split, step_of, Exact, Format, Frac, Num, Rel,
};
use vstd::arithmetic::power2::pow2;
use vstd::prelude::*;

verus! {

/// Floating point registers.
#[derive(Debug, Clone)]
pub struct FpuRegisters {
    /// S0-S31.
    pub s: [u32; 32],
    /// Status and control.
    pub fpscr: u32,
    /// Context control.
    pub fpccr: u32,
}

/// Rounding mode of FPSCR.
#[derive(Debug, Clone, Copy, PartialEq, Eq, Structural)]
pub enum FpRounding {
    /// To the nearest number, ties to even.
    Nearest,
    /// Towards plus infinity.
    PlusInf,
    /// Towards minus infinity.
    MinusInf,
    /// Towards zero.
    Zero,
}

/// The bits of a condition in the top four bits of a status register.
pub open spec fn nzcv_bits(n: bool, z: bool, c: bool, v: bool) -> u32 {
    (if n {
        0x8000_0000u32
    } else {
        0u32
    }) | (if z {
        0x4000_0000u32
    } else {
        0u32
    }) | (if c {
        0x2000_0000u32
    } else {
        0u32
    }) | (if v {
        0x1000_0000u32
    } else {
        0u32
    })
}

/// The FPSCR bits of the cumulative exceptions.
pub open spec fn cumulative_bits(
    ioc: bool,
    dzc: bool,
    ofc: bool,
    ufc: bool,
    ixc: bool,
    idc: bool,
) -> u32 {
    let f0 = if ioc {
        0u32 | 0x01u32
    } else {
        0u32
    };
    let f1 = if dzc {
        f0 | 0x02u32
    } else {
        f0
    };
    let f2 = if ofc {
        f1 | 0x04u32
    } else {
        f1
    };
    let f3 = if ufc {
        f2 | 0x08u32
    } else {
        f2
    };
    let f4 = if ixc {
        f3 | 0x10u32
    } else {
        f3
    };
    if idc {
        f4 | 0x80u32
    } else {
        f4
    }
}

impl FpuRegisters {
    /// S(n), with the number taken modulo 32.
    pub open spec fn s_reg(self, n: int) -> u32 {
        self.s[n % 32]
    }

    /// D(n), with the number taken modulo 16: S(2n) is the low word.
    pub open spec fn d_reg(self, n: int) -> u64 {
        (self.s[2 * (n % 16)] + 0x1_0000_0000 * self.s[2 * (n % 16) + 1]) as u64
    }

    pub open spec fn with_s(self, n: int, val: u32) -> FpuRegisters {
        FpuRegisters { s: vstd::array::spec_array_update(self.s, n % 32, val), ..self }
    }

    pub open spec fn with_d(self, n: int, val: u64) -> FpuRegisters {
        let k = 2 * (n % 16);
        self.with_s(k, (val % 0x1_0000_0000) as u32).with_s(k + 1, (val / 0x1_0000_0000) as u32)
    }

    /// The rounding mode in FPSCR bits 23 and 22.
    pub open spec fn mode(self) -> FpRounding {
        let b = self.fpscr / 0x40_0000 % 4;
        if b == 0 {
            FpRounding::Nearest
        } else if b == 1 {
            FpRounding::PlusInf
        } else if b == 2 {
            FpRounding::MinusInf
        } else {
            FpRounding::Zero
        }
    }

    /// FPSCR bit 24.
    pub open spec fn fz(self) -> bool {
        self.fpscr & 0x0100_0000 != 0
    }

    /// The registers after the exceptions of an operation were recorded.
    pub open spec fn flagged(self, f: FpOpFlags) -> FpuRegisters {
        let bits = self.fpscr | cumulative_bits(f.ioc, f.dzc, f.ofc, f.ufc, f.ixc, f.idc);
        FpuRegisters {
            fpscr: if f.qc {
                bits | 0x0800_0000
            } else {
                bits
            },
            ..self
        }
    }

    /// All registers 0.
    pub fn new() -> (r: Self)
        ensures
            forall|i: int| 0 <= i < 32 ==> r.s[i] == 0,
            r.fpscr == 0,
            r.fpccr == 0,
    {
        FpuRegisters { s: [0; 32], fpscr: 0, fpccr: 0 }
    }

    /// Reads S(n).
    pub fn read_s(&self, n: usize) -> (r: u32)
        ensures
            r == self.s_reg(n as int),
    {
        self.s[n % 32]
    }

    /// Writes S(n).
    pub fn write_s(&mut self, n: usize, val: u32)
        ensures
            *final(self) == old(self).with_s(n as int, val),
    {
        self.s[n % 32] = val;
        assert(self.s =~= old(self).with_s(n as int, val).s);
    }

    /// Reads D(n).
    pub fn read_d(&self, n: usize) -> (r: u64)
        ensures
            r == self.d_reg(n as int),
    {
        let idx: usize = (n % 16) * 2;
        self.s[idx] as u64 + 0x1_0000_0000 * (self.s[idx + 1] as u64)
    }

    /// Writes D(n).
    pub fn write_d(&mut self, n: usize, val: u64)
        ensures
            *final(self) == old(self).with_d(n as int, val),
    {
        let idx: usize = (n % 16) * 2;
        self.write_s(idx, (val % 0x1_0000_0000) as u32);
        self.write_s(idx + 1, (val / 0x1_0000_0000) as u32);
    }

    /// N, Z, C and V of FPSCR.
    pub fn fpscr_flags(&self) -> (r: (bool, bool, bool, bool))
        ensures
            r.0 == (self.fpscr & 0x8000_0000 != 0),
            r.1 == (self.fpscr & 0x4000_0000 != 0),
            r.2 == (self.fpscr & 0x2000_0000 != 0),
            r.3 == (self.fpscr & 0x1000_0000 != 0),
    {
        (
            self.fpscr & 0x8000_0000 != 0,
            self.fpscr & 0x4000_0000 != 0,
            self.fpscr & 0x2000_0000 != 0,
            self.fpscr & 0x1000_0000 != 0,
        )
    }

    /// Sets N, Z, C and V of FPSCR.
    pub fn set_nzcv(&mut self, n: bool, z: bool, c: bool, v: bool)
        ensures
            *final(self) == (FpuRegisters {
                fpscr: (old(self).fpscr & 0x0FFF_FFFF) | nzcv_bits(n, z, c, v),
                ..*old(self)
            }),
    {
        let nb: u32 = if n {
            0x8000_0000
        } else {
            0
        };
        let zb: u32 = if z {
            0x4000_0000
        } else {
            0
        };
        let cb: u32 = if c {
            0x2000_0000
        } else {
            0
        };
        let vb: u32 = if v {
            0x1000_0000
        } else {
            0
        };
        self.fpscr = (self.fpscr & 0x0FFF_FFFF) | (nb | zb | cb | vb);
    }

    /// Records exceptions; what is already recorded stays.
    pub fn set_cumulative(
        &mut self,
        ioc: bool,
        dzc: bool,
        ofc: bool,
        ufc: bool,
        ixc: bool,
        idc: bool,
    )
        ensures
            *final(self) == (FpuRegisters {
                fpscr: old(self).fpscr | cumulative_bits(ioc, dzc, ofc, ufc, ixc, idc),
                ..*old(self)
            }),
    {
        let mut flags: u32 = 0;
        if ioc {
            flags = flags | 0x01;
        }
        if dzc {
            flags = flags | 0x02;
        }
        if ofc {
            flags = flags | 0x04;
        }
        if ufc {
            flags = flags | 0x08;
        }
        if ixc {
            flags = flags | 0x10;
        }
        if idc {
            flags = flags | 0x80;
        }
        self.fpscr = self.fpscr | flags;
    }

    /// Records a saturation.
    pub fn set_qc(&mut self)
        ensures
            *final(self) == (FpuRegisters { fpscr: old(self).fpscr | 0x0800_0000, ..*old(self) }),
    {
        self.fpscr = self.fpscr | 0x0800_0000;
    }

    /// Whether a saturation was recorded.
    pub fn qc(&self) -> (r: bool)
        ensures
            r == (self.fpscr & 0x0800_0000 != 0),
    {
        self.fpscr & 0x0800_0000 != 0
    }

    /// The rounding mode.
    pub fn rounding_mode(&self) -> (r: FpRounding)
        ensures
            r == self.mode(),
    {
        match self.fpscr / 0x40_0000 % 4 {
            0 => FpRounding::Nearest,
            1 => FpRounding::PlusInf,
            2 => FpRounding::MinusInf,
            _ => FpRounding::Zero,
        }
    }

    /// Whether subnormal results are replaced by 0.
    pub fn flush_to_zero(&self) -> (r: bool)
        ensures
            r == self.fz(),
    {
        self.fpscr & 0x0100_0000 != 0
    }

    /// Clears the registers and FPSCR.
    pub fn reset(&mut self)
        ensures
            forall|i: int| 0 <= i < 32 ==> final(self).s[i] == 0,
            final(self).fpscr == 0,
            final(self).fpccr == old(self).fpccr,
    {
        self.s = [0; 32];
        self.fpscr = 0;
    }

    /// Records the exceptions of an operation.
    pub fn apply_flags(&mut self, flags: &FpOpFlags)
        ensures
            *final(self) == old(self).flagged(*flags),
    {
        self.set_cumulative(
            flags.ioc,
            flags.dzc,
            flags.ofc,
            flags.ufc,
            flags.ixc,
            flags.idc,
        );
        if flags.qc {
            self.set_qc();
        }
    }
}

impl Default for FpuRegisters {
    fn default() -> (r: Self)
        ensures
            forall|i: int| 0 <= i < 32 ==> r.s[i] == 0,
            r.fpscr == 0,
            r.fpccr == 0,
    {
        Self::new()
    }
}

/// The bit pattern of a VFP immediate, from the top: bit 7 as the sign, bit 6
/// inverted, bit 6 repeated (five times in single precision, eight times in double
/// precision), bits 5 to 0, and zeros.
pub open spec fn vfp_imm(imm8: u8, double: bool) -> u64 {
    let sign = imm8 as int / 0x80;
    let bit6 = imm8 as int / 0x40 % 2;
    let low = imm8 as int % 0x40;
    (if double {
        sign * 0x8000_0000_0000_0000 + (1 - bit6) * 0x4000_0000_0000_0000 + bit6
            * 0x3FC0_0000_0000_0000 + low * 0x1_0000_0000_0000
    } else {
        sign * 0x8000_0000 + (1 - bit6) * 0x4000_0000 + bit6 * 0x3E00_0000 + low * 0x8_0000
    }) as u64
}

/// Expands a VFP immediate.
pub fn vfp_expand_imm(imm8: u8, double: bool) -> (r: u64)
    ensures
        r == vfp_imm(imm8, double),
{
    let sign: u64 = imm8 as u64 / 0x80;
    let bit6: u64 = imm8 as u64 / 0x40 % 2;
    let low: u64 = imm8 as u64 % 0x40;
    if double {
        sign * 0x8000_0000_0000_0000 + (1 - bit6) * 0x4000_0000_0000_0000 + bit6
            * 0x3FC0_0000_0000_0000 + low * 0x1_0000_0000_0000
    } else {
        sign * 0x8000_0000 + (1 - bit6) * 0x4000_0000 + bit6 * 0x3E00_0000 + low * 0x8_0000
    }
}

/// The exceptions that an operation raised.
#[derive(Debug, Clone, Copy, PartialEq, Eq, Structural)]
pub struct FpOpFlags {
    /// Invalid operation.
    pub ioc: bool,
    /// Division by zero.
    pub dzc: bool,
    /// Overflow.
    pub ofc: bool,
    /// Underflow.
    pub ufc: bool,
    /// Inexact.
    pub ixc: bool,
    /// Subnormal input.
    pub idc: bool,
    /// Saturation.
    pub qc: bool,
}

/// No exception.
pub open spec fn no_flags() -> FpOpFlags {
    FpOpFlags {
        ioc: false,
        dzc: false,
        ofc: false,
        ufc: false,
        ixc: false,
        idc: false,
        qc: false,
    }
}

impl Default for FpOpFlags {
    fn default() -> (r: Self)
        ensures
            r == no_flags(),
    {
        FpOpFlags {
            ioc: false,
            dzc: false,
            ofc: false,
            ufc: false,
            ixc: false,
            idc: false,
            qc: false,
        }
    }
}

/// A magnitude below the normal numbers, but not 0.
pub open spec fn subnormal(f: Format, x: u64) -> bool {
    0 < f.mag(x) < f.hidden()
}

/// Whether a bit pattern is subnormal.
fn is_subnormal(f: Format, x: u64) -> (r: bool)
    ensures
        r == subnormal(f, x),
{
    proof {
        crate::engine::softfloat::lemma_constants();
    }
    let m: u64 = mag_of(f, x);
    m > 0 && m < (match f {
        Format::Single => 0x80_0000u64,
        Format::Double => 0x10_0000_0000_0000u64,
    })
}

/// Whether a single precision bit pattern is subnormal.
pub fn is_denormal_f32(bits: u32) -> (r: bool)
    ensures
        r == subnormal(Format::Single, bits as u64),
{
    is_subnormal(Format::Single, bits as u64)
}

/// Whether a double precision bit pattern is subnormal.
pub fn is_denormal_f64(bits: u64) -> (r: bool)
    ensures
        r == subnormal(Format::Double, bits),
{
    is_subnormal(Format::Double, bits)
}

/// Whether a single precision bit pattern is a NaN.
pub fn is_nan_f32(bits: u32) -> (r: bool)
    ensures
        r == Format::Single.is_nan(bits as u64),
{
    mag_of(Format::Single, bits as u64) > Format::Single.infinity()
}

/// Whether a double precision bit pattern is a NaN.
pub fn is_nan_f64(bits: u64) -> (r: bool)
    ensures
        r == Format::Double.is_nan(bits),
{
    mag_of(Format::Double, bits) > Format::Double.infinity()
}

/// The quiet NaN with the payload of a NaN.
pub fn quiet_nan(bits: u32) -> (r: u32)
    ensures
        r == bits | 0x0040_0000,
{
    bits | 0x0040_0000
}

/// Whether a single precision bit pattern is a signalling NaN.
pub fn is_signaling_nan_f32(bits: u32) -> (r: bool)
    ensures
        r == (Format::Single.is_nan(bits as u64) && bits & 0x0040_0000 == 0),
{
    is_nan_f32(bits) && bits & 0x0040_0000 == 0
}

/// Whether a double precision bit pattern is a signalling NaN.
pub fn is_signaling_nan_f64(bits: u64) -> (r: bool)
    ensures
        r == (Format::Double.is_nan(bits) && bits & 0x0008_0000_0000_0000 == 0),
{
    is_nan_f64(bits) && bits & 0x0008_0000_0000_0000 == 0
}

/// The quiet NaN with the payload of a NaN.
pub fn quiet_nan_f64(bits: u64) -> (r: u64)
    ensures
        r == bits | 0x0008_0000_0000_0000,
{
    bits | 0x0008_0000_0000_0000
}

/// The NaN that an invalid single precision operation gives.
pub const DEFAULT_NAN_F32: u32 = 0x7FC0_0000;

/// The NaN that an invalid double precision operation gives.
pub const DEFAULT_NAN_F64: u64 = 0x7FF8_0000_0000_0000;

/// The four operations that FPSCR rounds.
#[derive(Debug, Clone, Copy, PartialEq, Eq, Structural)]
pub enum BinOp {
    Add,
    Sub,
    Mul,
    Div,
}

/// A bit pattern with the other sign.
pub open spec fn negated(f: Format, x: u64) -> u64 {
    f.pack(!f.neg(x), f.mag(x))
}

/// The bit pattern with the other sign.
pub fn negate(f: Format, x: u64) -> (r: u64)
    requires
        f.fits(x),
    ensures
        r == negated(f, x),
        f.fits(r),
{
    proof {
        crate::engine::softfloat::lemma_constants();
        crate::engine::softfloat::lemma_unpack(f, !f.neg(x), f.mag(x));
        lemma_sign_split(f, x);
    }
    if neg_of(f, x) {
        x - f.sign_bit()
    } else {
        x + f.sign_bit()
    }
}

pub proof fn lemma_sign_split(f: Format, x: u64)
    requires
        f.fits(x),
    ensures
        x == f.mag(x) + (if f.neg(x) {
            f.sign_weight()
        } else {
            0
        }),
        f.mag(x) < f.sign_weight(),
{
    crate::engine::softfloat::lemma_constants();
    let w = f.sign_weight() as int;
    if f.neg(x) {
        vstd::arithmetic::div_mod::lemma_fundamental_div_mod_converse(x as int, w, 1, x - w);
    } else {
        vstd::arithmetic::div_mod::lemma_small_mod(x as nat, w as nat);
    }
}

/// The exact result of an operation.
pub open spec fn exact_op(op: BinOp, f: Format, x: u64, y: u64) -> Exact {
    match op {
        BinOp::Add => exact_add(f, x, y),
        BinOp::Sub => exact_add(f, x, negated(f, y)),
        BinOp::Mul => exact_mul(f, x, y),
        BinOp::Div => exact_div(f, x, y),
    }
}

/// The exact result of an operation.
fn num_op(op: BinOp, f: Format, x: u64, y: u64) -> (r: Num)
    requires
        f.fits(x),
        f.fits(y),
    ensures
        r.denotes(exact_op(op, f, x, y)),
{
    match op {
        BinOp::Add => num_add(f, x, y),
        BinOp::Sub => num_add(f, x, negate(f, y)),
        BinOp::Mul => num_mul(f, x, y),
        BinOp::Div => num_div(f, x, y),
    }
}

/// A single precision number as a double precision bit pattern.
pub open spec fn widened(a: u32) -> u64 {
    exact_convert(Format::Single, Format::Double, a as u64).rounded(
        Format::Double,
        FpRounding::Nearest,
    )
}

/// Converts single precision to double precision.
pub fn widen(a: u32) -> (r: u64)
    ensures
        r == widened(a),
        Format::Double.fits(r),
{
    proof {
        crate::engine::softfloat::lemma_constants();
    }
    let num = num_convert(Format::Single, Format::Double, a as u64);
    round_num(
        Format::Double,
        FpRounding::Nearest,
        num,
        Ghost(exact_convert(Format::Single, Format::Double, a as u64)),
    ).0
}

/// A double precision bit pattern rounded to single precision.
pub open spec fn narrowed(mode: FpRounding, x: u64) -> u32 {
    exact_convert(Format::Double, Format::Single, x).rounded(Format::Single, mode) as u32
}

/// Converts double precision to single precision.
fn narrow(mode: FpRounding, x: u64) -> (r: u32)
    ensures
        r == narrowed(mode, x),
        exact_convert(Format::Double, Format::Single, x).rounded(Format::Single, mode)
            <= 0xFFFF_FFFF,
{
    proof {
        crate::engine::softfloat::lemma_constants();
    }
    let num = num_convert(Format::Double, Format::Single, x);
    round_num(
        Format::Single,
        mode,
        num,
        Ghost(exact_convert(Format::Double, Format::Single, x)),
    ).0 as u32
}

/// A single precision result is not the number that a double precision one is;
/// a NaN is no number.
pub open spec fn differs(res: u32, wide: u64) -> bool {
    Format::Double.is_nan(widened(res)) || Format::Double.is_nan(wide) || Format::Double.sval(
        widened(res),
    ) != Format::Double.sval(wide)
}

fn differ(res: u32, wide: u64) -> (r: bool)
    ensures
        r == differs(res, wide),
{
    proof {
        crate::engine::softfloat::lemma_constants();
    }
    let w: u64 = widen(res);
    is_nan_f64(w) || is_nan_f64(wide) || order(Format::Double, w, wide) != Rel::Equal
}

/// The double precision result of an operation on single precision operands.
pub open spec fn wide_result(op: BinOp, a: u32, b: u32) -> u64 {
    exact_op(op, Format::Double, widened(a), widened(b)).rounded(
        Format::Double,
        FpRounding::Nearest,
    )
}

/// The single precision result before subnormal results are flushed: rounded to
/// nearest directly, and in the other modes from the double precision result.
pub open spec fn f32_result(mode: FpRounding, op: BinOp, a: u32, b: u32) -> u32 {
    if mode == FpRounding::Nearest {
        exact_op(op, Format::Single, a as u64, b as u64).rounded(Format::Single, mode) as u32
    } else {
        narrowed(mode, wide_result(op, a, b))
    }
}

/// A result overflowed: it is infinite though no operand is.
pub open spec fn overflowed(f: Format, res: u64, a: u64, b: u64) -> bool {
    f.is_inf(res) && !f.is_inf(a) && !f.is_inf(b)
}

/// The first NaN of two operands, made quiet.
pub open spec fn f32_nan(a: u32, b: u32) -> u32 {
    if Format::Single.is_nan(a as u64) {
        a | 0x0040_0000
    } else {
        b | 0x0040_0000
    }
}

/// Result and exceptions of a single precision operation.
///
/// Invalid are a NaN operand and zero divided by zero. The other results that are no
/// number (differences of infinities, products of zero and infinity, quotients of
/// infinities) come from valid operands; being no number, they differ from the double
/// precision result, and count as inexact.
pub open spec fn f32_op(fpu: FpuRegisters, op: BinOp, a: u32, b: u32) -> (u32, FpOpFlags) {
    let sp = Format::Single;
    let idc = subnormal(sp, a as u64) || subnormal(sp, b as u64);
    if sp.is_nan(a as u64) || sp.is_nan(b as u64) {
        (f32_nan(a, b), FpOpFlags { ioc: true, idc, ..no_flags() })
    } else if op == BinOp::Div && sp.is_zero(b as u64) {
        if sp.is_zero(a as u64) {
            (sp.default_nan() as u32, FpOpFlags { ioc: true, idc, ..no_flags() })
        } else {
            (sp.pack(sp.neg(a as u64), sp.inf()) as u32, FpOpFlags { dzc: true, idc, ..no_flags() })
        }
    } else {
        let res = f32_result(fpu.mode(), op, a, b);
        let ofc = overflowed(sp, res as u64, a as u64, b as u64);
        let ufc = subnormal(sp, res as u64);
        (
            if fpu.fz() && ufc {
                0
            } else {
                res
            },
            FpOpFlags {
                ofc,
                ufc,
                ixc: ofc || ufc || differs(res, wide_result(op, a, b)),
                idc,
                ..no_flags()
            },
        )
    }
}

/// Computes a single precision operation in the rounding mode of FPSCR.
fn f32_binop(fpu: &FpuRegisters, op: BinOp, a: u32, b: u32) -> (r: (u32, FpOpFlags))
    ensures
        r == f32_op(*fpu, op, a, b),
{
    proof {
        crate::engine::softfloat::lemma_constants();
    }
    let sp = Format::Single;
    let mut flags = FpOpFlags::default();
    flags.idc = is_denormal_f32(a) || is_denormal_f32(b);
    if is_nan_f32(a) || is_nan_f32(b) {
        flags.ioc = true;
        let nan: u32 = if is_nan_f32(a) {
            a
        } else {
            b
        };
        return (quiet_nan(nan), flags);
    }
    let ma: u64 = mag_of(sp, a as u64);
    let mb: u64 = mag_of(sp, b as u64);
    if op == BinOp::Div && mb == 0 {
        if ma == 0 {
            flags.ioc = true;
            return (DEFAULT_NAN_F32, flags);
        }
        flags.dzc = true;
        return (pack_bits(sp, neg_of(sp, a as u64), sp.infinity()) as u32, flags);
    }
    let wa: u64 = widen(a);
    let wb: u64 = widen(b);
    let wide_num = num_op(op, Format::Double, wa, wb);
    let wide: u64 = round_num(
        Format::Double,
        FpRounding::Nearest,
        wide_num,
        Ghost(exact_op(op, Format::Double, wa, wb)),
    ).0;
    let mode = fpu.rounding_mode();
    let res: u32 = if mode == FpRounding::Nearest {
        let num = num_op(op, sp, a as u64, b as u64);
        round_num(sp, mode, num, Ghost(exact_op(op, sp, a as u64, b as u64))).0 as u32
    } else {
        narrow(mode, wide)
    };
    let inf: u64 = sp.infinity();
    if mag_of(sp, res as u64) == inf && ma != inf && mb != inf {
        flags.ofc = true;
        flags.ixc = true;
    }
    if is_denormal_f32(res) {
        flags.ufc = true;
        flags.ixc = true;
    }
    if differ(res, wide) {
        flags.ixc = true;
    }
    if fpu.flush_to_zero() && is_denormal_f32(res) {
        return (0, flags);
    }
    (res, flags)
}

/// Single precision addition.
pub fn f32_add(fpu: &FpuRegisters, a: u32, b: u32) -> (r: (u32, FpOpFlags))
    ensures
        r == f32_op(*fpu, BinOp::Add, a, b),
{
    f32_binop(fpu, BinOp::Add, a, b)
}

/// Single precision subtraction.
pub fn f32_sub(fpu: &FpuRegisters, a: u32, b: u32) -> (r: (u32, FpOpFlags))
    ensures
        r == f32_op(*fpu, BinOp::Sub, a, b),
{
    f32_binop(fpu, BinOp::Sub, a, b)
}

/// Single precision multiplication.
pub fn f32_mul(fpu: &FpuRegisters, a: u32, b: u32) -> (r: (u32, FpOpFlags))
    ensures
        r == f32_op(*fpu, BinOp::Mul, a, b),
{
    f32_binop(fpu, BinOp::Mul, a, b)
}

/// Single precision division; a number divided by zero is infinite with the sign
/// of the dividend, and zero divided by zero is invalid.
pub fn f32_div(fpu: &FpuRegisters, a: u32, b: u32) -> (r: (u32, FpOpFlags))
    ensures
        r == f32_op(*fpu, BinOp::Div, a, b),
{
    f32_binop(fpu, BinOp::Div, a, b)
}

/// The first NaN of three operands.
pub open spec fn first_nan(f: Format, a: u64, b: u64, c: u64) -> u64 {
    if f.is_nan(a) {
        a
    } else if f.is_nan(b) {
        b
    } else {
        c
    }
}

/// The exact value of `c + a * b`, with the sign of the product changed on demand.
pub open spec fn fused_exact(f: Format, a: u64, b: u64, c: u64, neg_prod: bool) -> Exact {
    let pa = if neg_prod {
        negated(f, a)
    } else {
        a
    };
    exact_fma(f, pa, b, c)
}

/// `c + a * b` with the signs of the product and of the whole result changed on
/// demand, rounded once to nearest.
pub open spec fn fused(f: Format, a: u64, b: u64, c: u64, neg_prod: bool, neg_acc: bool) -> u64 {
    let r = fused_exact(f, a, b, c, neg_prod).rounded(f, FpRounding::Nearest);
    if neg_acc {
        negated(f, r)
    } else {
        r
    }
}

/// Exceptions of a fused operation on numbers whose exact value is `x`. A value that
/// is no number raises none of its own.
pub open spec fn fused_flags(f: Format, x: Exact, res: u64, a: u64, b: u64, c: u64) -> FpOpFlags {
    let ofc = overflowed(f, res, a, b) && !f.is_inf(c);
    let ufc = subnormal(f, res);
    FpOpFlags {
        ofc,
        ufc,
        ixc: ofc || ufc || x.inexact(f),
        idc: subnormal(f, a) || subnormal(f, b) || subnormal(f, c),
        ..no_flags()
    }
}

/// Computes a fused operation on numbers.
fn fuse(f: Format, a: u64, b: u64, c: u64, neg_prod: bool, neg_acc: bool) -> (r: (u64, FpOpFlags))
    requires
        f.fits(a),
        f.fits(b),
        f.fits(c),
    ensures
        r.0 == fused(f, a, b, c, neg_prod, neg_acc),
        r.1 == fused_flags(f, fused_exact(f, a, b, c, neg_prod), r.0, a, b, c),
        f.fits(r.0),
{
    let pa: u64 = if neg_prod {
        negate(f, a)
    } else {
        a
    };
    let mut flags = FpOpFlags::default();
    flags.idc = is_subnormal(f, a) || is_subnormal(f, b) || is_subnormal(f, c);
    let num = num_fma(f, pa, b, c);
    let (rounded, inexact): (u64, bool) = round_num(
        f,
        FpRounding::Nearest,
        num,
        Ghost(exact_fma(f, pa, b, c)),
    );
    let res: u64 = if neg_acc {
        negate(f, rounded)
    } else {
        rounded
    };
    let inf: u64 = f.infinity();
    if inexact {
        flags.ixc = true;
    }
    if mag_of(f, res) == inf && mag_of(f, a) != inf && mag_of(f, b) != inf && mag_of(f, c) != inf {
        flags.ofc = true;
        flags.ixc = true;
    }
    if is_subnormal(f, res) {
        flags.ufc = true;
        flags.ixc = true;
    }
    (res, flags)
}

/// Result and exceptions of a single precision multiply-accumulate.
pub open spec fn f32_fused(
    fpu: FpuRegisters,
    a: u32,
    b: u32,
    c: u32,
    neg_prod: bool,
    neg_acc: bool,
) -> (u32, FpOpFlags) {
    let f = Format::Single;
    let (x, y, z) = (a as u64, b as u64, c as u64);
    if f.is_nan(x) || f.is_nan(y) || f.is_nan(z) {
        (
            first_nan(f, x, y, z) as u32 | 0x0040_0000,
            FpOpFlags {
                ioc: true,
                idc: subnormal(f, x) || subnormal(f, y) || subnormal(f, z),
                ..no_flags()
            },
        )
    } else {
        let res = fused(f, x, y, z, neg_prod, neg_acc);
        (
            if fpu.fz() && subnormal(f, res) {
                0
            } else {
                res as u32
            },
            fused_flags(f, fused_exact(f, x, y, z, neg_prod), res, x, y, z),
        )
    }
}

/// Single precision multiply-accumulate, rounded once.
pub fn f32_mul_add(
    fpu: &FpuRegisters,
    a: u32,
    b: u32,
    c: u32,
    neg_prod: bool,
    neg_acc: bool,
) -> (r: (u32, FpOpFlags))
    ensures
        r == f32_fused(*fpu, a, b, c, neg_prod, neg_acc),
{
    proof {
        crate::engine::softfloat::lemma_constants();
    }
    let f = Format::Single;
    if is_nan_f32(a) || is_nan_f32(b) || is_nan_f32(c) {
        let mut flags = FpOpFlags::default();
        flags.ioc = true;
        flags.idc = is_denormal_f32(a) || is_denormal_f32(b) || is_denormal_f32(c);
        let nan: u32 = if is_nan_f32(a) {
            a
        } else if is_nan_f32(b) {
            b
        } else {
            c
        };
        return (quiet_nan(nan), flags);
    }
    let (res, flags): (u64, FpOpFlags) = fuse(
        f,
        a as u64,
        b as u64,
        c as u64,
        neg_prod,
        neg_acc,
    );
    if fpu.flush_to_zero() && is_subnormal(f, res) {
        return (0, flags);
    }
    (res as u32, flags)
}

/// Greatest common divisor.
pub open spec fn gcd(a: nat, b: nat) -> nat
    decreases b,
{
    if b == 0 {
        a
    } else {
        gcd(b, a % b)
    }
}

/// Greatest common divisor.
fn gcd_u64(a: u64, b: u64) -> (r: u64)
    ensures
        r == gcd(a as nat, b as nat),
{
    let mut x: u64 = a;
    let mut y: u64 = b;
    while y != 0
        invariant
            gcd(x as nat, y as nat) == gcd(a as nat, b as nat),
        decreases y,
    {
        let t: u64 = y;
        y = x % y;
        x = t;
    }
    x
}

proof fn lemma_gcd_pos(a: nat, b: nat)
    requires
        a > 0 || b > 0,
    ensures
        gcd(a, b) > 0,
    decreases b,
{
    if b > 0 {
        lemma_gcd_pos(b, a % b);
    }
}

/// A quotient counts as exact if the divisor, after cancelling, is a power of two
/// and the exponents differ by an amount that stays in the normal range.
pub open spec fn quotient_exact(a: u64, b: u64) -> bool {
    let f = Format::Double;
    f.is_zero(a) || f.is_inf(a) || f.is_inf(b) || {
        let (ma, mb) = (sig_of(f, f.mag(a)), sig_of(f, f.mag(b)));
        exists|s: nat|
            mb / gcd(ma, mb) == #[trigger] pow2(s) && -1021 <= step_of(f, f.mag(a)) - step_of(
                f,
                f.mag(b),
            ) - s <= 1024
    }
}

/// The exponent of a power of two.
fn exact_log2(x: u64) -> (r: Option<u32>)
    ensures
        match r {
            Some(s) => x == pow2(s as nat) && s < 64,
            None => forall|s: nat| x != #[trigger] pow2(s),
        },
    decreases x,
{
    proof {
        vstd::arithmetic::power2::lemma2_to64();
    }
    if x == 0 {
        assert forall|s: nat| x != #[trigger] pow2(s) by {
            vstd::arithmetic::power2::lemma_pow2_pos(s);
        }
        return None;
    }
    if x == 1 {
        return Some(0);
    }
    if x % 2 == 1 {
        assert forall|s: nat| x != #[trigger] pow2(s) by {
            if s > 0 {
                vstd::arithmetic::power2::lemma_pow2_unfold(s);
            }
        }
        return None;
    }
    match exact_log2(x / 2) {
        Some(s) => {
            proof {
                vstd::arithmetic::power2::lemma_pow2_unfold((s + 1) as nat);
                vstd::arithmetic::power2::lemma2_to64_rest();
                if s >= 63 {
                    assert(x / 2 >= 0x8000_0000_0000_0000);
                }
            }
            Some(s + 1)
        },
        None => {
            assert forall|s: nat| x != #[trigger] pow2(s) by {
                if s > 0 {
                    vstd::arithmetic::power2::lemma_pow2_unfold(s);
                    assert(x / 2 != pow2((s - 1) as nat));
                }
            }
            None
        },
    }
}

/// Whether a quotient counts as exact.
fn f64_div_exact(a: u64, b: u64) -> (r: bool)
    requires
        !Format::Double.is_nan(a),
        !Format::Double.is_nan(b),
        Format::Double.is_zero(a) || !Format::Double.is_zero(b),
    ensures
        r == quotient_exact(a, b),
{
    let f = Format::Double;
    let inf: u64 = f.infinity();
    let x: u64 = mag_of(f, a);
    let y: u64 = mag_of(f, b);
    if x == 0 || x == inf || y == inf {
        return true;
    }
    let (ma, ka): (u64, u32) = split(f, x);
    let (mb, kb): (u64, u32) = split(f, y);
    let g: u64 = gcd_u64(ma, mb);
    proof {
        lemma_gcd_pos(ma as nat, mb as nat);
    }
    match exact_log2(mb / g) {
        Some(s) => {
            let exp: i32 = ka as i32 - kb as i32 - s as i32;
            proof {
                assert forall|t: nat| mb as nat / g as nat == #[trigger] pow2(t) implies t == s by {
                    if t < s {
                        vstd::arithmetic::power2::lemma_pow2_strictly_increases(t, s as nat);
                    } else if s < t {
                        vstd::arithmetic::power2::lemma_pow2_strictly_increases(s as nat, t);
                    }
                }
                if -1021 <= exp <= 1024 {
                    assert(mb as nat / g as nat == pow2(s as nat));
                }
            }
            -1021 <= exp && exp <= 1024
        },
        None => false,
    }
}

/// The next bit pattern towards plus infinity.
pub open spec fn next_up(f: Format, x: u64) -> u64 {
    if f.is_nan(x) || (f.is_inf(x) && !f.neg(x)) {
        x
    } else if f.is_zero(x) {
        1
    } else if f.neg(x) {
        (x - 1) as u64
    } else {
        (x + 1) as u64
    }
}

/// The next bit pattern towards minus infinity.
pub open spec fn next_down(f: Format, x: u64) -> u64 {
    if f.is_nan(x) || (f.is_inf(x) && f.neg(x)) {
        x
    } else if f.is_zero(x) {
        f.pack(true, 1)
    } else if f.neg(x) {
        (x + 1) as u64
    } else {
        (x - 1) as u64
    }
}

/// The next double precision bit pattern towards plus infinity.
fn next_up_f64(x: u64) -> (r: u64)
    ensures
        r == next_up(Format::Double, x),
{
    proof {
        crate::engine::softfloat::lemma_constants();
        lemma_sign_split(Format::Double, x);
    }
    let f = Format::Double;
    let m: u64 = mag_of(f, x);
    let neg: bool = neg_of(f, x);
    if m > f.infinity() || (m == f.infinity() && !neg) {
        x
    } else if m == 0 {
        1
    } else if neg {
        x - 1
    } else {
        x + 1
    }
}

/// The next double precision bit pattern towards minus infinity.
fn next_down_f64(x: u64) -> (r: u64)
    ensures
        r == next_down(Format::Double, x),
{
    proof {
        crate::engine::softfloat::lemma_constants();
        lemma_sign_split(Format::Double, x);
    }
    let f = Format::Double;
    let m: u64 = mag_of(f, x);
    let neg: bool = neg_of(f, x);
    if m > f.infinity() || (m == f.infinity() && neg) {
        x
    } else if m == 0 {
        pack_bits(f, true, 1)
    } else if neg {
        x + 1
    } else {
        x - 1
    }
}

/// How an exact quotient compares with its nearest number `r`, told by the sign of
/// the fused remainder `r * b - a`.
pub open spec fn quotient_rel(a: u64, b: u64, r: u64) -> Rel {
    let f = Format::Double;
    if f.is_inf(a) || f.is_inf(b) {
        Rel::Equal
    } else if f.is_zero(r) {
        if f.is_zero(a) {
            Rel::Equal
        } else if f.neg(a) == f.neg(b) {
            Rel::Above
        } else {
            Rel::Below
        }
    } else if f.is_inf(r) {
        if f.neg(r) {
            Rel::Above
        } else {
            Rel::Below
        }
    } else {
        let rem = exact_fma(f, r, b, negated(f, a)).rounded(f, FpRounding::Nearest);
        if f.is_zero(rem) {
            Rel::Equal
        } else if f.neg(rem) == f.neg(b) {
            Rel::Below
        } else {
            Rel::Above
        }
    }
}

/// How an exact quotient compares with its nearest number.
fn f64_div_relation(a: u64, b: u64, r: u64) -> (rel: Rel)
    ensures
        rel == quotient_rel(a, b, r),
{
    proof {
        crate::engine::softfloat::lemma_constants();
    }
    let f = Format::Double;
    let inf: u64 = f.infinity();
    if mag_of(f, a) == inf || mag_of(f, b) == inf {
        return Rel::Equal;
    }
    if mag_of(f, r) == 0 {
        return if mag_of(f, a) == 0 {
            Rel::Equal
        } else if neg_of(f, a) == neg_of(f, b) {
            Rel::Above
        } else {
            Rel::Below
        };
    }
    if mag_of(f, r) == inf {
        return if neg_of(f, r) {
            Rel::Above
        } else {
            Rel::Below
        };
    }
    let na: u64 = negate(f, a);
    let num = num_fma(f, r, b, na);
    let rem: u64 = round_num(f, FpRounding::Nearest, num, Ghost(exact_fma(f, r, b, na))).0;
    if mag_of(f, rem) == 0 {
        Rel::Equal
    } else if neg_of(f, rem) == neg_of(f, b) {
        Rel::Below
    } else {
        Rel::Above
    }
}

/// A result rounded to nearest, moved to the neighbour that a mode asks for.
pub open spec fn adjusted(mode: FpRounding, r: u64, rel: Rel) -> u64 {
    let f = Format::Double;
    match mode {
        FpRounding::Nearest => r,
        FpRounding::Zero => if rel == Rel::Above && f.neg(r) && !f.is_zero(r) {
            next_up(f, r)
        } else if rel == Rel::Below && !f.neg(r) && !f.is_zero(r) {
            next_down(f, r)
        } else {
            r
        },
        FpRounding::PlusInf => if rel == Rel::Above {
            next_up(f, r)
        } else {
            r
        },
        FpRounding::MinusInf => if rel == Rel::Below {
            next_down(f, r)
        } else {
            r
        },
    }
}

/// Moves a result rounded to nearest to the neighbour that a mode asks for.
fn round_f64_dir(mode: FpRounding, r: u64, rel: Rel) -> (res: u64)
    ensures
        res == adjusted(mode, r, rel),
{
    let f = Format::Double;
    match mode {
        FpRounding::Nearest => r,
        FpRounding::Zero => if mag_of(f, r) == 0 {
            r
        } else if rel == Rel::Above && neg_of(f, r) {
            next_up_f64(r)
        } else if rel == Rel::Below && !neg_of(f, r) {
            next_down_f64(r)
        } else {
            r
        },
        FpRounding::PlusInf => if rel == Rel::Above {
            next_up_f64(r)
        } else {
            r
        },
        FpRounding::MinusInf => if rel == Rel::Below {
            next_down_f64(r)
        } else {
            r
        },
    }
}

/// A double precision result, and whether it counts as inexact by itself.
///
/// Sums, differences and products are rounded exactly. Quotients are rounded to
/// nearest exactly; whether they are exact, and on which side of the nearest
/// number they lie, is told by cancelling and by the fused remainder. What is no number
/// counts as inexact in the directed modes.
pub open spec fn f64_result(mode: FpRounding, op: BinOp, a: u64, b: u64) -> (u64, bool) {
    let f = Format::Double;
    let x = exact_op(op, f, a, b);
    if op != BinOp::Div {
        (x.rounded(f, mode), x.inexact(f) || (mode != FpRounding::Nearest && x is Nan))
    } else {
        let r = x.rounded(f, FpRounding::Nearest);
        if mode == FpRounding::Nearest {
            (r, !(x is Nan) && !quotient_exact(a, b))
        } else if x is Nan {
            (r, true)
        } else {
            let rel = quotient_rel(a, b, r);
            (adjusted(mode, r, rel), rel != Rel::Equal)
        }
    }
}

/// The first NaN of two operands, made quiet.
pub open spec fn f64_nan(a: u64, b: u64) -> u64 {
    if Format::Double.is_nan(a) {
        a | 0x0008_0000_0000_0000
    } else {
        b | 0x0008_0000_0000_0000
    }
}

/// Result and exceptions of a double precision operation.
///
/// Invalid are a NaN operand and zero divided by zero. The other results that are no
/// number come from valid operands; they count as inexact in the directed modes.
pub open spec fn f64_op(fpu: FpuRegisters, op: BinOp, a: u64, b: u64) -> (u64, FpOpFlags) {
    let f = Format::Double;
    let idc = subnormal(f, a) || subnormal(f, b);
    if f.is_nan(a) || f.is_nan(b) {
        (f64_nan(a, b), FpOpFlags { ioc: true, idc, ..no_flags() })
    } else if op == BinOp::Div && f.is_zero(b) {
        if f.is_zero(a) {
            (f.default_nan(), FpOpFlags { ioc: true, idc, ..no_flags() })
        } else {
            (f.pack(f.neg(a), f.inf()), FpOpFlags { dzc: true, idc, ..no_flags() })
        }
    } else {
        let (res, inexact) = f64_result(fpu.mode(), op, a, b);
        let ofc = overflowed(f, res, a, b);
        let ufc = subnormal(f, res);
        (res, FpOpFlags { ofc, ufc, ixc: ofc || ufc || inexact, idc, ..no_flags() })
    }
}

/// Computes a double precision operation in the rounding mode of FPSCR.
fn f64_binop(fpu: &FpuRegisters, op: BinOp, a: u64, b: u64) -> (r: (u64, FpOpFlags))
    ensures
        r == f64_op(*fpu, op, a, b),
{
    proof {
        crate::engine::softfloat::lemma_constants();
    }
    let f = Format::Double;
    let inf: u64 = f.infinity();
    let mut flags = FpOpFlags::default();
    flags.idc = is_denormal_f64(a) || is_denormal_f64(b);
    if is_nan_f64(a) || is_nan_f64(b) {
        flags.ioc = true;
        let nan: u64 = if is_nan_f64(a) {
            a
        } else {
            b
        };
        return (quiet_nan_f64(nan), flags);
    }
    let ma: u64 = mag_of(f, a);
    let mb: u64 = mag_of(f, b);
    if op == BinOp::Div && mb == 0 {
        if ma == 0 {
            flags.ioc = true;
            return (DEFAULT_NAN_F64, flags);
        }
        flags.dzc = true;
        return (pack_bits(f, neg_of(f, a), inf), flags);
    }
    let mode = fpu.rounding_mode();
    let num = num_op(op, f, a, b);
    let ghost x = exact_op(op, f, a, b);
    let nan: bool = match &num {
        Num::Nan => true,
        _ => false,
    };
    let (res, inexact): (u64, bool) = if op != BinOp::Div {
        let (r, i): (u64, bool) = round_num(f, mode, num, Ghost(x));
        (r, i || (mode != FpRounding::Nearest && nan))
    } else {
        let r: u64 = round_num(f, FpRounding::Nearest, num, Ghost(x)).0;
        if mode == FpRounding::Nearest {
            (r, !nan && !f64_div_exact(a, b))
        } else if nan {
            (r, true)
        } else {
            let rel = f64_div_relation(a, b, r);
            (round_f64_dir(mode, r, rel), rel != Rel::Equal)
        }
    };
    if mag_of(f, res) == inf && ma != inf && mb != inf {
        flags.ofc = true;
        flags.ixc = true;
    }
    if is_denormal_f64(res) {
        flags.ufc = true;
        flags.ixc = true;
    }
    if inexact {
        flags.ixc = true;
    }
    (res, flags)
}

/// Double precision addition.
pub fn f64_add(fpu: &FpuRegisters, a: u64, b: u64) -> (r: (u64, FpOpFlags))
    ensures
        r == f64_op(*fpu, BinOp::Add, a, b),
{
    f64_binop(fpu, BinOp::Add, a, b)
}

/// Double precision subtraction.
pub fn f64_sub(fpu: &FpuRegisters, a: u64, b: u64) -> (r: (u64, FpOpFlags))
    ensures
        r == f64_op(*fpu, BinOp::Sub, a, b),
{
    f64_binop(fpu, BinOp::Sub, a, b)
}

/// Double precision multiplication.
pub fn f64_mul(fpu: &FpuRegisters, a: u64, b: u64) -> (r: (u64, FpOpFlags))
    ensures
        r == f64_op(*fpu, BinOp::Mul, a, b),
{
    f64_binop(fpu, BinOp::Mul, a, b)
}

/// Double precision division; a number divided by zero is infinite with the sign
/// of the dividend, and zero divided by zero is invalid.
pub fn f64_div(fpu: &FpuRegisters, a: u64, b: u64) -> (r: (u64, FpOpFlags))
    ensures
        r == f64_op(*fpu, BinOp::Div, a, b),
{
    f64_binop(fpu, BinOp::Div, a, b)
}

/// Result and exceptions of a double precision multiply-accumulate.
pub open spec fn f64_fused(a: u64, b: u64, c: u64, neg_prod: bool, neg_acc: bool) -> (
    u64,
    FpOpFlags,
) {
    let f = Format::Double;
    if f.is_nan(a) || f.is_nan(b) || f.is_nan(c) {
        (
            first_nan(f, a, b, c) | 0x0008_0000_0000_0000,
            FpOpFlags {
                ioc: true,
                idc: subnormal(f, a) || subnormal(f, b) || subnormal(f, c),
                ..no_flags()
            },
        )
    } else {
        let res = fused(f, a, b, c, neg_prod, neg_acc);
        (res, fused_flags(f, fused_exact(f, a, b, c, neg_prod), res, a, b, c))
    }
}

/// Double precision multiply-accumulate, rounded once.
pub fn f64_mul_add(
    _fpu: &FpuRegisters,
    a: u64,
    b: u64,
    c: u64,
    neg_prod: bool,
    neg_acc: bool,
) -> (r: (u64, FpOpFlags))
    ensures
        r == f64_fused(a, b, c, neg_prod, neg_acc),
{
    proof {
        crate::engine::softfloat::lemma_constants();
    }
    let f = Format::Double;
    if is_nan_f64(a) || is_nan_f64(b) || is_nan_f64(c) {
        let mut flags = FpOpFlags::default();
        flags.ioc = true;
        flags.idc = is_denormal_f64(a) || is_denormal_f64(b) || is_denormal_f64(c);
        let nan: u64 = if is_nan_f64(a) {
            a
        } else if is_nan_f64(b) {
            b
        } else {
            c
        };
        return (quiet_nan_f64(nan), flags);
    }
    fuse(f, a, b, c, neg_prod, neg_acc)
}

/// An integer as a double precision bit pattern.
pub open spec fn int_to_f64(x: int) -> u64 {
    exact_fixed(Format::Double, x, 0).rounded(Format::Double, FpRounding::Nearest)
}

/// Integer to double precision.
pub fn cvt_int_to_f64(x: i64) -> (r: u64)
    ensures
        r == int_to_f64(x as int),
{
    let num = num_fixed(Format::Double, x, 0);
    round_num(
        Format::Double,
        FpRounding::Nearest,
        num,
        Ghost(exact_fixed(Format::Double, x as int, 0)),
    ).0
}

/// Integer to single precision, in the rounding mode of FPSCR.
pub fn cvt_int_to_f32(fpu: &FpuRegisters, x: i64) -> (r: u32)
    ensures
        r == narrowed(fpu.mode(), int_to_f64(x as int)),
{
    narrow(fpu.rounding_mode(), cvt_int_to_f64(x))
}

/// The integer that a fraction is rounded to.
pub open spec fn round_int(n: nat, d: nat, nearest: bool) -> nat {
    let fr = frac_of(n, d);
    if nearest && (fr == Frac::High || (fr == Frac::Half && (n / d) % 2 == 1)) {
        n / d + 1
    } else {
        n / d
    }
}

/// A number as a 32-bit integer: NaNs give 0, numbers out of range saturate.
pub open spec fn to_int(f: Format, x: u64, signed: bool, nearest: bool) -> (u32, FpOpFlags) {
    let n = f.val(f.mag(x));
    let d = pow2(f.unit());
    let neg = f.neg(x);
    if f.is_nan(x) {
        (0, FpOpFlags { ioc: true, ..no_flags() })
    } else if signed && !neg && (f.is_inf(x) || n > 0x7FFF_FFFF * d) {
        (0x7FFF_FFFF, FpOpFlags { qc: true, ..no_flags() })
    } else if signed && neg && (f.is_inf(x) || n > 0x8000_0000 * d) {
        (0x8000_0000, FpOpFlags { qc: true, ..no_flags() })
    } else if !signed && !neg && (f.is_inf(x) || n > 0xFFFF_FFFF * d) {
        (0xFFFF_FFFF, FpOpFlags { qc: true, ..no_flags() })
    } else if !signed && neg && n > 0 {
        (0, FpOpFlags { qc: true, ..no_flags() })
    } else {
        let q = round_int(n, d, nearest);
        (
            crate::bits::wrap32(
                if neg {
                    -(q as int)
                } else {
                    q as int
                },
            ),
            FpOpFlags { ixc: n % d != 0, ..no_flags() },
        )
    }
}

proof fn lemma_above(n: nat, d: nat, limit: nat)
    requires
        d > 0,
    ensures
        n > limit * d <==> n / d > limit || (n / d == limit && n % d != 0),
{
    vstd::arithmetic::div_mod::lemma_fundamental_div_mod(n as int, d as int);
    vstd::arithmetic::div_mod::lemma_mod_pos_bound(n as int, d as int);
    let q = n / d;
    let r = n % d;
    assert(n > limit * d <==> q > limit || (q == limit && r != 0)) by (nonlinear_arith)
        requires
            n == d * q + r,
            0 <= r < d,
    ;
}

/// Converts a number to a 32-bit integer.
fn cvt_to_int(f: Format, x: u64, signed: bool, nearest: bool) -> (r: (u32, FpOpFlags))
    requires
        f.fits(x),
    ensures
        r == to_int(f, x, signed, nearest),
{
    let mut flags = FpOpFlags::default();
    let inf: u64 = f.infinity();
    let m: u64 = mag_of(f, x);
    let neg: bool = neg_of(f, x);
    if m > inf {
        flags.ioc = true;
        return (0, flags);
    }
    let limit: u64 = if signed {
        if neg {
            0x8000_0000
        } else {
            0x7FFF_FFFF
        }
    } else {
        if neg {
            0
        } else {
            0xFFFF_FFFF
        }
    };
    let edge: u32 = if signed {
        if neg {
            0x8000_0000
        } else {
            0x7FFF_FFFF
        }
    } else {
        if neg {
            0
        } else {
            0xFFFF_FFFF
        }
    };
    if m == inf {
        proof {
            crate::engine::softfloat::lemma_constants();
            crate::engine::softfloat::law_magnitude_order(f, 0, f.inf());
        }
        flags.qc = true;
        return (edge, flags);
    }
    let ghost n = f.val(m as nat);
    let ghost d = pow2(f.unit());
    let (q, fr): (u64, Frac) = int_part(f, m, 0);
    proof {
        vstd::arithmetic::power2::lemma2_to64();
        vstd::arithmetic::power2::lemma_pow2_pos(f.unit());
        assert(f.val(m as nat) * 1 == f.val(m as nat));
        lemma_above(n, d, limit as nat);
        assert(0 * d == 0);
    }
    if q > limit || (q == limit && fr != Frac::Zero) {
        flags.qc = true;
        return (edge, flags);
    }
    let up: bool = nearest && (fr == Frac::High || (fr == Frac::Half && q % 2 == 1));
    let rounded: u64 = if up {
        q + 1
    } else {
        q
    };
    if fr != Frac::Zero {
        flags.ixc = true;
    }
    let res: u32 = low32(
        if neg {
            -(rounded as i128)
        } else {
            rounded as i128
        },
    );
    (res, flags)
}

/// Single precision to a 32-bit integer, towards zero or (`round_nearest`) to the
/// nearest one.
pub fn cvt_f32_to_int(
    _fpu: &FpuRegisters,
    bits: u32,
    signed: bool,
    round_nearest: bool,
) -> (r: (u32, FpOpFlags))
    ensures
        r == to_int(Format::Single, bits as u64, signed, round_nearest),
{
    proof {
        crate::engine::softfloat::lemma_constants();
    }
    cvt_to_int(Format::Single, bits as u64, signed, round_nearest)
}

/// Double precision to a 32-bit integer, towards zero or (`round_nearest`) to the
/// nearest one.
pub fn cvt_f64_to_int(
    _fpu: &FpuRegisters,
    bits: u64,
    signed: bool,
    round_nearest: bool,
) -> (r: (u32, FpOpFlags))
    ensures
        r == to_int(Format::Double, bits, signed, round_nearest),
{
    proof {
        crate::engine::softfloat::lemma_constants();
    }
    cvt_to_int(Format::Double, bits, signed, round_nearest)
}

/// Double precision to single precision with exceptions.
pub open spec fn f64_to_f32(mode: FpRounding, x: u64) -> (u32, FpOpFlags) {
    let f = Format::Double;
    if f.is_nan(x) {
        (((x | 0x0008_0000_0000_0000) / 0x1_0000_0000) as u32 | 0x0040_0000, no_flags())
    } else {
        let res = narrowed(mode, x);
        let ofc = Format::Single.is_inf(res as u64) && !f.is_inf(x);
        let ufc = subnormal(Format::Single, res as u64);
        (
            res,
            FpOpFlags {
                ofc,
                ufc,
                ixc: ofc || ufc || differs(res, x),
                idc: subnormal(f, x),
                ..no_flags()
            },
        )
    }
}

/// Double precision to single precision, in the rounding mode of FPSCR.
pub fn cvt_f64_to_f32(fpu: &FpuRegisters, bits: u64) -> (r: (u32, FpOpFlags))
    ensures
        r == f64_to_f32(fpu.mode(), bits),
{
    proof {
        crate::engine::softfloat::lemma_constants();
    }
    let mut flags = FpOpFlags::default();
    if is_nan_f64(bits) {
        let q: u64 = quiet_nan_f64(bits);
        return ((q / 0x1_0000_0000) as u32 | 0x0040_0000, flags);
    }
    flags.idc = is_denormal_f64(bits);
    let res: u32 = narrow(fpu.rounding_mode(), bits);
    if mag_of(Format::Single, res as u64) == Format::Single.infinity() && mag_of(
        Format::Double,
        bits,
    ) != Format::Double.infinity() {
        flags.ofc = true;
        flags.ixc = true;
    }
    if is_denormal_f32(res) {
        flags.ufc = true;
        flags.ixc = true;
    }
    if differ(res, bits) {
        flags.ixc = true;
    }
    (res, flags)
}

/// The integer that a signed fraction is rounded to in a mode.
pub open spec fn round_mode(neg: bool, n: nat, d: nat, mode: FpRounding) -> int {
    let away = match mode {
        FpRounding::Nearest => round_int(n, d, true) != n / d,
        FpRounding::Zero => false,
        FpRounding::PlusInf => !neg && n % d != 0,
        FpRounding::MinusInf => neg && n % d != 0,
    };
    let q = if away {
        n / d + 1
    } else {
        n / d
    };
    if neg {
        -(q as int)
    } else {
        q as int
    }
}

/// Single precision to fixed point with `fbits` fraction bits: the number times
/// 2^fbits, rounded and saturated to `width` bits.
pub open spec fn to_fixed(mode: FpRounding, bits: u32, fbits: nat, signed: bool, width: nat) -> (
    u32,
    FpOpFlags,
) {
    let f = Format::Single;
    let x = bits as u64;
    let n = f.val(f.mag(x)) * pow2(fbits);
    let d = pow2(f.unit());
    let k = if signed {
        (width - 1) as nat
    } else {
        width
    };
    let max = pow2(k) - 1;
    let min = if signed {
        -(pow2(k) as int)
    } else {
        0
    };
    if f.is_nan(x) {
        (0, FpOpFlags { ioc: true, ..no_flags() })
    } else if f.is_inf(x) {
        (
            crate::bits::wrap32(
                if f.neg(x) {
                    min
                } else {
                    max
                },
            ),
            FpOpFlags { qc: true, ..no_flags() },
        )
    } else {
        let q = round_mode(f.neg(x), n, d, mode);
        let v = if q > max {
            max
        } else if q < min {
            min
        } else {
            q
        };
        (
            crate::bits::wrap32(v),
            FpOpFlags { qc: q > max || q < min, ixc: n % d != 0, ..no_flags() },
        )
    }
}

/// Single precision to fixed point.
pub fn cvt_f32_to_fixed(
    fpu: &FpuRegisters,
    bits: u32,
    fbits: u8,
    signed: bool,
    width: u8,
) -> (r: (u32, FpOpFlags))
    requires
        fbits <= 63,
        if signed {
            1 <= width <= 63
        } else {
            width <= 62
        },
    ensures
        r == to_fixed(fpu.mode(), bits, fbits as nat, signed, width as nat),
{
    proof {
        crate::engine::softfloat::lemma_constants();
    }
    let f = Format::Single;
    let mut flags = FpOpFlags::default();
    let m: u64 = mag_of(f, bits as u64);
    let neg: bool = neg_of(f, bits as u64);
    if m > f.infinity() {
        flags.ioc = true;
        return (0, flags);
    }
    proof {
        vstd::arithmetic::power2::lemma2_to64_rest();
    }
    let k: u32 = if signed {
        width as u32 - 1
    } else {
        width as u32
    };
    proof {
        if k < 62 {
            vstd::arithmetic::power2::lemma_pow2_strictly_increases(k as nat, 62);
        }
        vstd::arithmetic::power2::lemma_pow2_pos(k as nat);
    }
    let p: i128 = power(k) as i128;
    let max: i128 = p - 1;
    let min: i128 = if signed {
        -p
    } else {
        0
    };
    if m == f.infinity() {
        flags.qc = true;
        return (
            low32(
                if neg {
                    min
                } else {
                    max
                },
            ),
            flags,
        );
    }
    let ghost n = f.val(m as nat) * pow2(fbits as nat);
    let ghost d = pow2(f.unit());
    let (q, fr): (u64, Frac) = int_part(f, m, fbits as u32);
    proof {
        vstd::arithmetic::power2::lemma_pow2_pos(f.unit());
    }
    if q >= crate::engine::softfloat::INT_LIMIT {
        // Out of every range, and a whole number.
        proof {
            lemma_large_is_whole(m, fbits);
        }
        flags.qc = true;
        return (
            low32(
                if neg {
                    min
                } else {
                    max
                },
            ),
            flags,
        );
    }
    let away: bool = match fpu.rounding_mode() {
        FpRounding::Nearest => fr == Frac::High || (fr == Frac::Half && q % 2 == 1),
        FpRounding::Zero => false,
        FpRounding::PlusInf => !neg && fr != Frac::Zero,
        FpRounding::MinusInf => neg && fr != Frac::Zero,
    };
    let mag: i128 = if away {
        q as i128 + 1
    } else {
        q as i128
    };
    let v: i128 = if neg {
        -mag
    } else {
        mag
    };
    if fr != Frac::Zero {
        flags.ixc = true;
    }
    if v > max {
        flags.qc = true;
        (low32(max), flags)
    } else if v < min {
        flags.qc = true;
        (low32(min), flags)
    } else {
        (low32(v), flags)
    }
}

/// A single precision magnitude times 2^fbits that is at least 2^63 is a whole
/// number.
proof fn lemma_large_is_whole(m: u64, fbits: u8)
    requires
        m < Format::Single.inf(),
        fbits <= 63,
        (Format::Single.val(m as nat) * pow2(fbits as nat)) / pow2(149)
            >= 0x8000_0000_0000_0000,
    ensures
        (Format::Single.val(m as nat) * pow2(fbits as nat)) % pow2(149) == 0,
{
    let f = Format::Single;
    let sig = sig_of(f, m as nat);
    let k = step_of(f, m as nat);
    let e = k + fbits as nat;
    let n = f.val(m as nat) * pow2(fbits as nat);
    crate::engine::softfloat::lemma_constants();
    vstd::arithmetic::power2::lemma_pow2_adds(k, fbits as nat);
    let g = pow2(k);
    let v = pow2(fbits as nat);
    assert((sig * g) * v == sig * (g * v)) by (nonlinear_arith);
    let d = pow2(149);
    vstd::arithmetic::power2::lemma_pow2_pos(149);
    vstd::arithmetic::div_mod::lemma_fundamental_div_mod(n as int, d as int);
    vstd::arithmetic::div_mod::lemma_mod_pos_bound(n as int, d as int);
    if e < 149 {
        // The number would be below 2^24.
        vstd::arithmetic::power2::lemma_pow2_strictly_increases(e, 149);
        let q = n / d;
        assert(sig * pow2(e) < 0x8000_0000_0000_0000 * d) by (nonlinear_arith)
            requires
                sig < 0x100_0000,
                pow2(e) < d,
        ;
        assert(d * q >= 0x8000_0000_0000_0000 * d) by (nonlinear_arith)
            requires
                q >= 0x8000_0000_0000_0000,
                d > 0,
        ;
        assert(false);
    }
    let w = pow2((e - 149) as nat);
    vstd::arithmetic::power2::lemma_pow2_adds((e - 149) as nat, 149);
    assert(sig * (w * d) == (sig * w) * d) by (nonlinear_arith);
    vstd::arithmetic::div_mod::lemma_mod_multiples_basic((sig * w) as int, d as int);
}

/// The integer in a fixed point register.
pub open spec fn fixed_value(bits: u32, signed: bool, width: nat) -> int {
    if width == 16 {
        if signed {
            crate::bits::signed16(bits as int)
        } else {
            bits as int % 0x1_0000
        }
    } else if signed {
        crate::bits::signed32(bits)
    } else {
        bits as int
    }
}

/// Fixed point to single precision, in the rounding mode of FPSCR.
pub fn cvt_fixed_to_f32(
    fpu: &FpuRegisters,
    bits: u32,
    fbits: u8,
    signed: bool,
    width: u8,
) -> (r: (u32, FpOpFlags))
    requires
        fbits <= 63,
    ensures
        ({
            let x = exact_fixed(
                Format::Single,
                fixed_value(bits, signed, width as nat),
                fbits as nat,
            );
            &&& r.0 == x.rounded(Format::Single, fpu.mode())
            &&& r.1 == FpOpFlags { ixc: x.inexact(Format::Single), ..no_flags() }
        }),
{
    proof {
        crate::engine::softfloat::lemma_constants();
    }
    let mut flags = FpOpFlags::default();
    let v: i64 = if width == 16 {
        let low: u32 = bits % 0x1_0000;
        if signed && low >= 0x8000 {
            low as i64 - 0x1_0000
        } else {
            low as i64
        }
    } else if signed {
        crate::bits::to_i32(bits) as i64
    } else {
        bits as i64
    };
    let num = num_fixed(Format::Single, v, fbits as u32);
    let (res, inexact): (u64, bool) = round_num(
        Format::Single,
        fpu.rounding_mode(),
        num,
        Ghost(exact_fixed(Format::Single, v as int, fbits as nat)),
    );
    flags.ixc = inexact;
    (res as u32, flags)
}

/// D(n) is S(2n+1) above S(2n): a write of one is seen in the other, and no other
/// register changes.
pub proof fn law_register_alias(f: FpuRegisters, n: int, d: u64, w: u32, k: int)
    requires
        0 <= n < 16,
        0 <= k < 32,
    ensures
        f.with_d(n, d).d_reg(n) == d,
        f.with_d(n, d).s_reg(2 * n) == d % 0x1_0000_0000,
        f.with_d(n, d).s_reg(2 * n + 1) == d / 0x1_0000_0000,
        k != 2 * n && k != 2 * n + 1 ==> f.with_d(n, d).s_reg(k) == f.s_reg(k),
        f.with_s(2 * n, w).d_reg(n) == w + 0x1_0000_0000 * f.s_reg(2 * n + 1),
        f.with_s(2 * n + 1, w).d_reg(n) == f.s_reg(2 * n) + 0x1_0000_0000 * w,
        f.with_s(k, w).s_reg(k) == w,
{
}

/// A recorded exception stays recorded until FPSCR is written, and recording one
/// touches neither the rounding mode nor flush-to-zero.
pub proof fn law_exceptions_stay(f: FpuRegisters, x: FpOpFlags)
    ensures
        f.fpscr & !f.flagged(x).fpscr == 0,
        f.flagged(x).mode() == f.mode(),
        f.flagged(x).fz() == f.fz(),
        f.flagged(x).s == f.s,
{
    let a = f.fpscr;
    let b = cumulative_bits(x.ioc, x.dzc, x.ofc, x.ufc, x.ixc, x.idc);
    lemma_cumulative_bits(x);
    assert(b & 0x9Fu32 == b ==> (a & !(a | b) == 0 && a & !((a | b) | 0x0800_0000) == 0 && (a | b)
        / 0x40_0000 % 4 == a / 0x40_0000 % 4 && ((a | b) | 0x0800_0000) / 0x40_0000 % 4 == a
        / 0x40_0000 % 4 && (a | b) & 0x0100_0000 == a & 0x0100_0000 && ((a | b) | 0x0800_0000)
        & 0x0100_0000 == a & 0x0100_0000)) by (bit_vector);
}

/// Only the six exception bits are ever recorded.
proof fn lemma_cumulative_bits(x: FpOpFlags)
    ensures
        cumulative_bits(x.ioc, x.dzc, x.ofc, x.ufc, x.ixc, x.idc) & 0x9Fu32 == cumulative_bits(
            x.ioc,
            x.dzc,
            x.ofc,
            x.ufc,
            x.ixc,
            x.idc,
        ),
{
    let (ioc, dzc, ofc, ufc, ixc, idc) = (x.ioc, x.dzc, x.ofc, x.ufc, x.ixc, x.idc);
    assert(cumulative_bits(ioc, dzc, ofc, ufc, ixc, idc) & 0x9Fu32 == cumulative_bits(
        ioc,
        dzc,
        ofc,
        ufc,
        ixc,
        idc,
    )) by (bit_vector);
}

/// An immediate stands for the same number in both precisions, in units of their own
/// smallest numbers.
pub proof fn law_immediate_precisions(imm8: u8)
    ensures
        Format::Double.sval(vfp_imm(imm8, true)) == Format::Single.sval(vfp_imm(imm8, false))
            * pow2(925),
        Format::Double.neg(vfp_imm(imm8, true)) == Format::Single.neg(vfp_imm(imm8, false)),
{
    crate::engine::softfloat::lemma_constants();
    vstd::arithmetic::power2::lemma2_to64();
    let sp = Format::Single;
    let dp = Format::Double;
    let neg = imm8 >= 0x80;
    let low = (imm8 as int % 0x40) as nat;
    let e = low / 16 + if imm8 as int / 0x40 % 2 == 1 {
        124nat
    } else {
        128nat
    };
    let frac = (low % 16) * 0x8_0000;
    let ms = e * 0x80_0000 + frac;
    let md = (e + 896) * 0x10_0000_0000_0000 + frac * 0x2000_0000;
    crate::engine::softfloat::lemma_unpack(sp, neg, ms);
    crate::engine::softfloat::lemma_unpack(dp, neg, md);
    assert(vfp_imm(imm8, false) == sp.pack(neg, ms));
    assert(vfp_imm(imm8, true) == dp.pack(neg, md));
    let sig = frac + 0x80_0000;
    let k = (e - 1) as nat;
    assert(sp.val(ms) == sig * pow2(k));
    assert(dp.val(md) == (sig * 0x2000_0000) * pow2(k + 896));
    vstd::arithmetic::power2::lemma_pow2_adds(29, k + 896);
    vstd::arithmetic::power2::lemma_pow2_adds(k, 925);
    let (a, b, c) = (pow2(k + 896), pow2(k), pow2(925));
    assert((sig * 0x2000_0000) * a == (sig * b) * c && -((sig * b) * c) == (-(sig * b)) * c)
        by (nonlinear_arith)
        requires
            0x2000_0000 * a == b * c,
    ;
}

/// Widening loses nothing: the double is the same number, in units of its own
/// smallest number, with the same sign.
pub proof fn law_widening_exact(a: u32)
    requires
        !Format::Single.is_nan(a as u64),
        !Format::Single.is_inf(a as u64),
    ensures
        Format::Double.sval(widened(a)) == Format::Single.sval(a as u64) * pow2(925),
        Format::Double.neg(widened(a)) == Format::Single.neg(a as u64),
        Format::Double.mag(widened(a)) < Format::Double.inf(),
{
    crate::engine::softfloat::lemma_constants();
    let sp = Format::Single;
    let dp = Format::Double;
    let neg = sp.neg(a as u64);
    let mag = sp.mag(a as u64);
    if mag == 0 {
        crate::engine::softfloat::lemma_unpack(dp, neg, 0);
        assert(0 * pow2(925) == 0);
    } else {
        let r = crate::engine::softfloat::lemma_widen(mag);
        vstd::arithmetic::power2::lemma_pow2_pos(149);
        crate::engine::softfloat::law_exact_rounding(
            dp,
            FpRounding::Nearest,
            neg,
            r,
            sp.val(mag) * pow2(1074),
            pow2(149),
        );
        crate::engine::softfloat::lemma_unpack(dp, neg, r);
        let v = sp.val(mag) as int;
        assert(-(v * pow2(925)) == (-v) * pow2(925)) by (nonlinear_arith);
    }
}

/// Narrowing undoes widening, in every rounding mode.
pub proof fn law_narrowing_undoes_widening(mode: FpRounding, a: u32)
    requires
        !Format::Single.is_nan(a as u64),
    ensures
        narrowed(mode, widened(a)) == a,
{
    crate::engine::softfloat::lemma_constants();
    let sp = Format::Single;
    let dp = Format::Double;
    let neg = sp.neg(a as u64);
    let mag = sp.mag(a as u64);
    lemma_sign_split(sp, a as u64);
    crate::engine::softfloat::lemma_unpack(sp, neg, mag);
    if mag == 0 {
        crate::engine::softfloat::lemma_unpack(dp, neg, 0);
    } else if mag == sp.inf() {
        crate::engine::softfloat::lemma_unpack(dp, neg, dp.inf());
    } else {
        let r = crate::engine::softfloat::lemma_widen(mag);
        vstd::arithmetic::power2::lemma_pow2_pos(149);
        vstd::arithmetic::power2::lemma_pow2_pos(1074);
        let n = sp.val(mag) * pow2(1074);
        crate::engine::softfloat::law_exact_rounding(dp, FpRounding::Nearest, neg, r, n, pow2(149));
        crate::engine::softfloat::lemma_unpack(dp, neg, r);
        assert(r > 0) by {
            if r == 0 {
                assert(dp.val(0) == 0);
                crate::engine::softfloat::law_magnitude_order(sp, 0, mag);
                vstd::arithmetic::power2::lemma_pow2_pos(925);
                let v = sp.val(mag);
                assert(v * pow2(925) > 0) by (nonlinear_arith)
                    requires
                        v > 0,
                        pow2(925) > 0,
                ;
            }
        }
        crate::engine::softfloat::law_exact_rounding(
            sp,
            mode,
            neg,
            mag,
            dp.val(r) * pow2(149),
            pow2(1074),
        );
    }
}

} // verus!
