//! Thumb-2 instruction decoder for ARMv7E-M.
//!
//! 16-bit and 32-bit encodings are decoded to one instruction type. What each
//! encoding means is stated field by field, where a field is written as the
//! quotient by the weight of its lowest bit, modulo its range.
use crate::bits::{low32, rotate, rotated, signed8, wrap32};
use crate::engine::fpu::{vfp_expand_imm, vfp_imm};
use crate::engine::FaultReason;
use vstd::prelude::*;

verus! {

/// Width of an encoding.
#[derive(Debug, Clone, Copy, PartialEq, Eq, Structural)]
pub enum InstrWidth {
    HalfWord,
    Word,
}

/// A decoded instruction.
#[derive(Debug, Clone, PartialEq, Eq)]
pub enum Instruction {
    /// NOP and hints.
    Nop,
    /// MOV Rd, #imm or MOV Rd, Rm; `flags` updates N and Z.
    Mov { rd: u8, rm: u8, imm: Option<u32>, flags: bool },
    /// MOVW (low half, high half cleared) or MOVT (`top`: high half).
    MovImm32 { rd: u8, imm16: u16, top: bool },
    /// ADD Rd, Rn, Rm or #imm.
    Add { rd: u8, rn: u8, rm: Option<u8>, imm: Option<u32>, flags: bool },
    /// ADD Rd, Rn, Rm, LSL #lsl.
    AddShifted { rd: u8, rn: u8, rm: u8, lsl: u8, flags: bool },
    /// SUB Rd, Rn, Rm or #imm.
    Sub { rd: u8, rn: u8, rm: Option<u8>, imm: Option<u32>, flags: bool },
    /// SUB Rd, Rn, Rm, LSL #lsl.
    SubShifted { rd: u8, rn: u8, rm: u8, lsl: u8, flags: bool },
    /// AND Rd, Rn, Rm or #imm.
    And { rd: u8, rn: u8, rm: Option<u8>, imm: Option<u32>, flags: bool },
    /// ORR Rd, Rn, Rm or #imm.
    Orr { rd: u8, rn: u8, rm: Option<u8>, imm: Option<u32>, flags: bool },
    /// EOR Rd, Rn, Rm or #imm.
    Eor { rd: u8, rn: u8, rm: Option<u8>, imm: Option<u32>, flags: bool },
    /// BIC Rd, Rn, Rm or #imm.
    Bic { rd: u8, rn: u8, rm: Option<u8>, imm: Option<u32>, flags: bool },
    /// ADC Rd, Rn, Rm.
    Adc { rd: u8, rn: u8, rm: u8, flags: bool },
    /// SBC Rd, Rn, Rm.
    Sbc { rd: u8, rn: u8, rm: u8, flags: bool },
    /// NEG Rd, Rn: 0 - Rn.
    Neg { rd: u8, rn: u8, flags: bool },
    /// RSB Rd, Rn, Rm or #imm: the operand minus Rn.
    Rsb { rd: u8, rn: u8, rm: Option<u8>, imm: Option<u32>, flags: bool },
    /// MVN Rd, Rm or #imm.
    Mvn { rd: u8, rm: u8, imm: Option<u32>, flags: bool },
    /// MUL Rd, Rn, Rm.
    Mul { rd: u8, rn: u8, rm: u8, flags: bool },
    /// UMULL, and the signed SMULL and SMLAL: the 64-bit product in RdHi:RdLo, which
    /// SMLAL adds to.
    MullLong { rdlo: u8, rdhi: u8, rn: u8, rm: u8, signed: bool, accumulate: bool },
    /// UDIV Rd, Rn, Rm.
    Udiv { rd: u8, rn: u8, rm: u8 },
    /// SDIV Rd, Rn, Rm.
    Sdiv { rd: u8, rn: u8, rm: u8 },
    /// LSL, LSR, ASR, ROR, RRX by an immediate or a register.
    Shift { rd: u8, rm: u8, kind: ShiftKind, amount: ShiftAmount, flags: bool },
    /// CMP Rn, Rm or #imm.
    Cmp { rn: u8, rm: Option<u8>, imm: Option<u32> },
    /// CMN Rn, Rm or #imm.
    Cmn { rn: u8, rm: Option<u8>, imm: Option<u32> },
    /// TST Rn, Rm or #imm.
    Tst { rn: u8, rm: Option<u8>, imm: Option<u32> },
    /// TEQ Rn, Rm or #imm.
    Teq { rn: u8, rm: Option<u8>, imm: Option<u32> },
    /// B, with a condition or without.
    Branch { cond: Option<Cond>, target: u32 },
    /// BL.
    BranchLink { target: u32 },
    /// BLX with an immediate.
    BranchLinkExchangeImm { target: u32 },
    /// BX Rm.
    BranchExchange { rm: u8 },
    /// BLX Rm.
    BranchLinkExchange { rm: u8 },
    /// CBZ (`zero`) and CBNZ.
    CompareBranch { rn: u8, target: u32, zero: bool },
    /// TBB and TBH.
    TableBranch { rn: u8, rm: u8, halfword: bool },
    /// PUSH.
    Push { regs: u16, lr: bool },
    /// POP.
    Pop { regs: u16, pc: bool },
    /// LDM; `descending` is the decrement-before form.
    Ldm { rn: u8, regs: u16, writeback: bool, descending: bool },
    /// STM; `descending` is the decrement-before form.
    Stm { rn: u8, regs: u16, writeback: bool, descending: bool },
    /// DSB, ISB, DMB.
    Barrier { kind: BarrierKind },
    /// CPSIE and CPSID (`disable`) on PRIMASK (`i`) and FAULTMASK (`f`).
    Cps { disable: bool, i: bool, f: bool },
    /// CLZ Rd, Rm.
    Clz { rd: u8, rm: u8 },
    /// RBIT Rd, Rm.
    Rbit { rd: u8, rm: u8 },
    /// REV, REV16, REVSH.
    Rev { rd: u8, rm: u8, kind: RevKind },
    /// SXTH, SXTB, UXTH, UXTB.
    Extend { rd: u8, rm: u8, kind: ExtendKind },
    /// UBFX, SBFX, BFI, BFC.
    BitField { rd: u8, rn: u8, lsb: u8, width: u8, kind: BitFieldKind },
    /// LDREX, LDREXB, LDREXH.
    Ldrex { rt: u8, rn: u8, imm: u32, width: AccessWidth },
    /// STREX, STREXB, STREXH; Rd receives 0.
    Strex { rd: u8, rt: u8, rn: u8, imm: u32, width: AccessWidth },
    /// LDR, LDRH, LDRB.
    Ldr { rt: u8, rn: u8, offset: LoadStoreOffset, width: AccessWidth },
    /// LDRSB, LDRSH.
    LdrSignExtend { rt: u8, rn: u8, offset: LoadStoreOffset, width: AccessWidth },
    /// STR, STRH, STRB.
    Str { rt: u8, rn: u8, offset: LoadStoreOffset, width: AccessWidth },
    /// Loads and stores that write the address back: before (`pre`) or after the
    /// access.
    LdrStrWb {
        rt: u8,
        rn: u8,
        imm: u32,
        width: AccessWidth,
        load: bool,
        sign_extend: bool,
        pre: bool,
    },
    /// LDR relative to PC.
    LdrLiteral { rt: u8, imm: u32 },
    /// LDRD.
    LdrD { rt: u8, rt2: u8, rn: u8, imm: u32 },
    /// STRD.
    StrD { rt: u8, rt2: u8, rn: u8, imm: u32 },
    /// MRS (`read`) and MSR.
    MsrMrs { rt: u8, reg: SpecialReg, read: bool },
    /// SVC.
    Svc { imm8: u8 },
    /// BKPT.
    Breakpoint { imm8: u8 },
    /// IT: the next one to four instructions are conditional.
    It { cond: Cond, mask: u8 },
    /// Return from an exception by the value in LR.
    ExceptionReturn,
    /// SSAT (`signed`) and USAT with a shift of the operand.
    Sat {
        rd: u8,
        rn: u8,
        sat_imm: u8,
        signed: bool,
        shift_kind: DspShiftKind,
        shift_imm: u8,
    },
    /// QADD, QSUB, QDADD, QDSUB.
    QAddSub { rd: u8, rn: u8, rm: u8, kind: QAddKind },
    /// Halfword lanes; writes GE[1:0].
    Simd16 { rd: u8, rn: u8, rm: u8, kind: Simd16Kind, unsigned: bool },
    /// Byte lanes; writes GE[3:0].
    Simd8 { rd: u8, rn: u8, rm: u8, unsigned: bool, halving: bool, sub: bool },
    /// SMUAD and SMUSD (`sub`).
    DualHalfMul { rd: u8, rn: u8, rm: u8, swap: bool, sub: bool },
    /// SMLAD and SMLSD (`sub`).
    DualHalfMulAcc { rd: u8, rn: u8, rm: u8, ra: u8, swap: bool, sub: bool },
    /// SMLALD and SMLSLD (`sub`).
    DualHalfMulLong { rdlo: u8, rdhi: u8, rn: u8, rm: u8, swap: bool, sub: bool },
    /// MLA and MLS (`sub`).
    Mla { rd: u8, rn: u8, rm: u8, ra: u8, sub: bool },
    /// PKHBT and PKHTB (`tb`).
    Pkh { rd: u8, rn: u8, rm: u8, tb: bool, shift_imm: u8 },
    /// VMOV between floating point registers.
    FpVmovReg { sd: u8, sm: u8, double: bool },
    /// VMOV between a core register and a single precision register.
    FpVmovCore { rt: u8, sn: u8, to_core: bool },
    /// VMOV between two core registers and a double precision register.
    FpVmovCoreD { rt: u8, rt2: u8, dn: u8, to_core: bool },
    /// VMOV of an immediate, already expanded.
    FpVmovImm { sd: u8, imm: u64, double: bool },
    /// Three-register arithmetic.
    FpArith3 { op: FpArithOp, vd: u8, vn: u8, vm: u8, double: bool },
    /// VABS, VNEG, VSQRT.
    FpUnary { op: FpUnaryOp, vd: u8, vm: u8, double: bool },
    /// VCMP and VCMPE (`e`), with a register or with zero.
    FpCmp { vd: u8, vm: u8, double: bool, e: bool, zero: bool },
    /// VCVT between integers, single and double precision.
    FpCvt { op: FpCvtOp, vd: u8, vm: u8 },
    /// VLDR and VSTR; `offset` is the signed byte offset modulo 2^32.
    FpLoadStore { rt: u8, rn: u8, offset: u32, load: bool, double: bool },
    /// VLDM and VSTM of `count` registers.
    FpLoadStoreMulti {
        vd: u8,
        rn: u8,
        count: u32,
        load: bool,
        double: bool,
        decrement: bool,
        writeback: bool,
    },
    /// VCVT between single precision and fixed point in the same register.
    FpCvtFixed { vd: u8, fbits: u8, width: u8, signed: bool, to_float: bool },
    /// An encoding that is not modelled.
    Unimplemented { bits: u32 },
    /// An undefined encoding.
    Invalid { address: u32 },
}

/// Barriers.
#[derive(Debug, Clone, Copy, PartialEq, Eq, Structural)]
pub enum BarrierKind {
    Dsb,
    Isb,
    Dmb,
}

/// Byte reversals.
#[derive(Debug, Clone, Copy, PartialEq, Eq, Structural)]
pub enum RevKind {
    Rev,
    Rev16,
    RevSh,
}

/// Sign and zero extensions.
#[derive(Debug, Clone, Copy, PartialEq, Eq, Structural)]
pub enum ExtendKind {
    Sxth,
    Sxtb,
    Uxth,
    Uxtb,
}

/// Bit field operations.
#[derive(Debug, Clone, Copy, PartialEq, Eq, Structural)]
pub enum BitFieldKind {
    Ubfx,
    Sbfx,
    Bfi,
    Bfc,
}

/// Shift of a saturating instruction's operand.
#[derive(Debug, Clone, Copy, PartialEq, Eq, Structural)]
pub enum DspShiftKind {
    Lsl,
    Asr,
}

/// Saturating additions and subtractions.
#[derive(Debug, Clone, Copy, PartialEq, Eq, Structural)]
pub enum QAddKind {
    Qadd,
    Qsub,
    Qdadd,
    Qdsub,
}

/// Halfword lane operations.
#[derive(Debug, Clone, Copy, PartialEq, Eq, Structural)]
pub enum Simd16Kind {
    /// Both lanes added.
    Add16,
    /// Low: Rn.lo + Rm.hi; high: Rn.hi - Rm.lo.
    Asx,
    /// Low: Rn.lo - Rm.hi; high: Rn.hi + Rm.lo.
    Sax,
    /// Both lanes subtracted.
    Sub16,
}

/// Three-register floating point operations.
#[derive(Debug, Clone, Copy, PartialEq, Eq, Structural)]
pub enum FpArithOp {
    Vmla,
    Vmls,
    Vnmls,
    Vnmla,
    Vmul,
    Vnmul,
    Vadd,
    Vsub,
    Vdiv,
}

/// Two-register floating point operations.
#[derive(Debug, Clone, Copy, PartialEq, Eq, Structural)]
pub enum FpUnaryOp {
    Vabs,
    Vneg,
    Vsqrt,
}

/// Floating point conversions. `R` rounds to the nearest integer, the others
/// towards zero.
#[derive(Debug, Clone, Copy, PartialEq, Eq, Structural)]
pub enum FpCvtOp {
    S32ToF32,
    U32ToF32,
    F32ToS32,
    F32ToU32,
    F32ToS32R,
    F32ToU32R,
    /// VCVT.F64.F32: single precision source, double precision destination.
    F64ToF32,
    /// VCVT.F32.F64: double precision source, single precision destination.
    F32ToF64,
    S32ToF64,
    U32ToF64,
    F64ToS32,
    F64ToU32,
    F64ToS32R,
    F64ToU32R,
}

/// Shifts.
#[derive(Debug, Clone, Copy, PartialEq, Eq, Structural)]
pub enum ShiftKind {
    Lsl,
    Lsr,
    Asr,
    Ror,
    Rrx,
}

/// Shift amounts; a register gives its low byte.
#[derive(Debug, Clone, Copy, PartialEq, Eq, Structural)]
pub enum ShiftAmount {
    Immediate(u8),
    Register(u8),
}

/// Conditions.
#[derive(Debug, Clone, Copy, PartialEq, Eq, Structural)]
pub enum Cond {
    Eq,
    Ne,
    Cs,
    Cc,
    Mi,
    Pl,
    Vs,
    Vc,
    Hi,
    Ls,
    Ge,
    Lt,
    Gt,
    Le,
    Al,
}

impl Cond {
    /// The number of a condition.
    pub open spec fn number(self) -> u8 {
        match self {
            Cond::Eq => 0,
            Cond::Ne => 1,
            Cond::Cs => 2,
            Cond::Cc => 3,
            Cond::Mi => 4,
            Cond::Pl => 5,
            Cond::Vs => 6,
            Cond::Vc => 7,
            Cond::Hi => 8,
            Cond::Ls => 9,
            Cond::Ge => 10,
            Cond::Lt => 11,
            Cond::Gt => 12,
            Cond::Le => 13,
            Cond::Al => 14,
        }
    }

    /// The condition with a number; 15 is none.
    pub open spec fn of_number(n: u8) -> Option<Cond> {
        if n == 0 {
            Some(Cond::Eq)
        } else if n == 1 {
            Some(Cond::Ne)
        } else if n == 2 {
            Some(Cond::Cs)
        } else if n == 3 {
            Some(Cond::Cc)
        } else if n == 4 {
            Some(Cond::Mi)
        } else if n == 5 {
            Some(Cond::Pl)
        } else if n == 6 {
            Some(Cond::Vs)
        } else if n == 7 {
            Some(Cond::Vc)
        } else if n == 8 {
            Some(Cond::Hi)
        } else if n == 9 {
            Some(Cond::Ls)
        } else if n == 10 {
            Some(Cond::Ge)
        } else if n == 11 {
            Some(Cond::Lt)
        } else if n == 12 {
            Some(Cond::Gt)
        } else if n == 13 {
            Some(Cond::Le)
        } else if n == 14 {
            Some(Cond::Al)
        } else {
            None
        }
    }

    /// The condition in the low four bits.
    pub fn from_bits(bits: u8) -> (r: Option<Self>)
        ensures
            r == Cond::of_number((bits % 16) as u8),
    {
        match bits % 16 {
            0 => Some(Cond::Eq),
            1 => Some(Cond::Ne),
            2 => Some(Cond::Cs),
            3 => Some(Cond::Cc),
            4 => Some(Cond::Mi),
            5 => Some(Cond::Pl),
            6 => Some(Cond::Vs),
            7 => Some(Cond::Vc),
            8 => Some(Cond::Hi),
            9 => Some(Cond::Ls),
            10 => Some(Cond::Ge),
            11 => Some(Cond::Lt),
            12 => Some(Cond::Gt),
            13 => Some(Cond::Le),
            14 => Some(Cond::Al),
            _ => None,
        }
    }

    /// The number of the condition.
    pub fn to_bits(self) -> (r: u8)
        ensures
            r == self.number(),
            r <= 14,
    {
        match self {
            Cond::Eq => 0,
            Cond::Ne => 1,
            Cond::Cs => 2,
            Cond::Cc => 3,
            Cond::Mi => 4,
            Cond::Pl => 5,
            Cond::Vs => 6,
            Cond::Vc => 7,
            Cond::Hi => 8,
            Cond::Ls => 9,
            Cond::Ge => 10,
            Cond::Lt => 11,
            Cond::Gt => 12,
            Cond::Le => 13,
            Cond::Al => 14,
        }
    }
}

/// Numbering conditions and reading a number back are inverse to each other, and
/// fifteen numbers are conditions.
pub proof fn law_cond_numbers(c: Cond, n: u8)
    ensures
        Cond::of_number(c.number()) == Some(c),
        Cond::of_number(n) matches Some(d) ==> d.number() == n,
        Cond::of_number(n) is Some <==> n <= 14,
{
}

/// Offsets of loads and stores.
#[derive(Debug, Clone, Copy, PartialEq, Eq, Structural)]
pub enum LoadStoreOffset {
    Immediate(u32),
    Register(u8),
    RegisterShifted { rm: u8, lsl: u8 },
}

/// Access widths.
#[derive(Debug, Clone, Copy, PartialEq, Eq, Structural)]
pub enum AccessWidth {
    Byte,
    HalfWord,
    Word,
}

/// Special registers of MRS and MSR.
#[derive(Debug, Clone, Copy, PartialEq, Eq, Structural)]
pub enum SpecialReg {
    Msp,
    Psp,
    Primask,
    Faultmask,
    Basepri,
    /// A write takes effect only where it lowers BASEPRI.
    BasepriMax,
    Control,
    /// N, Z, C, V and Q.
    Apsr,
    /// N, Z, C, V, Q and GE.
    ApsrGe,
    /// IPSR and APSR.
    Iapsr,
    /// EPSR and APSR.
    Eapsr,
    /// Exception number.
    Ipsr,
    /// T and GE.
    Epsr,
}

impl LoadStoreOffset {
    /// The register of an offset exists.
    pub open spec fn wf(self) -> bool {
        match self {
            LoadStoreOffset::Immediate(_) => true,
            LoadStoreOffset::Register(rm) => rm < 16,
            LoadStoreOffset::RegisterShifted { rm, lsl } => rm < 16,
        }
    }
}

impl ShiftAmount {
    /// The register of a shift amount exists.
    pub open spec fn wf(self) -> bool {
        match self {
            ShiftAmount::Immediate(n) => true,
            ShiftAmount::Register(r) => r < 16,
        }
    }
}

/// A register number, if there is one, exists.
pub open spec fn reg_ok(r: Option<u8>) -> bool {
    match r {
        Some(n) => n < 16,
        None => true,
    }
}

impl Instruction {
    /// The register numbers and the widths of an instruction are in range.
    pub open spec fn wf(self) -> bool {
        match self {
            Instruction::Nop => true,
            Instruction::Mov { rd, rm, imm, flags } => rd < 16 && rm < 16,
            Instruction::MovImm32 { rd, imm16, top } => rd < 16,
            Instruction::Add { rd, rn, rm, imm, flags } => rd < 16 && rn < 16 && reg_ok(rm),
            Instruction::AddShifted { rd, rn, rm, lsl, flags } => rd < 16 && rn < 16 && rm < 16,
            Instruction::Sub { rd, rn, rm, imm, flags } => rd < 16 && rn < 16 && reg_ok(rm),
            Instruction::SubShifted { rd, rn, rm, lsl, flags } => rd < 16 && rn < 16 && rm < 16,
            Instruction::And { rd, rn, rm, imm, flags } => rd < 16 && rn < 16 && reg_ok(rm),
            Instruction::Orr { rd, rn, rm, imm, flags } => rd < 16 && rn < 16 && reg_ok(rm),
            Instruction::Eor { rd, rn, rm, imm, flags } => rd < 16 && rn < 16 && reg_ok(rm),
            Instruction::Bic { rd, rn, rm, imm, flags } => rd < 16 && rn < 16 && reg_ok(rm),
            Instruction::Adc { rd, rn, rm, flags } => rd < 16 && rn < 16 && rm < 16,
            Instruction::Sbc { rd, rn, rm, flags } => rd < 16 && rn < 16 && rm < 16,
            Instruction::Neg { rd, rn, flags } => rd < 16 && rn < 16,
            Instruction::Rsb { rd, rn, rm, imm, flags } => rd < 16 && rn < 16 && reg_ok(rm),
            Instruction::Mvn { rd, rm, imm, flags } => rd < 16 && rm < 16,
            Instruction::Mul { rd, rn, rm, flags } => rd < 16 && rn < 16 && rm < 16,
            Instruction::MullLong { rdlo, rdhi, rn, rm, signed, accumulate } => rdlo < 16 && rdhi
                < 16 && rn < 16 && rm < 16,
            Instruction::Udiv { rd, rn, rm } => rd < 16 && rn < 16 && rm < 16,
            Instruction::Sdiv { rd, rn, rm } => rd < 16 && rn < 16 && rm < 16,
            Instruction::Shift { rd, rm, kind, amount, flags } => rd < 16 && rm < 16 && amount.wf(),
            Instruction::Cmp { rn, rm, imm } => rn < 16 && reg_ok(rm),
            Instruction::Cmn { rn, rm, imm } => rn < 16 && reg_ok(rm),
            Instruction::Tst { rn, rm, imm } => rn < 16 && reg_ok(rm),
            Instruction::Teq { rn, rm, imm } => rn < 16 && reg_ok(rm),
            Instruction::Branch { cond, target } => true,
            Instruction::BranchLink { target } => true,
            Instruction::BranchLinkExchangeImm { target } => true,
            Instruction::BranchExchange { rm } => rm < 16,
            Instruction::BranchLinkExchange { rm } => rm < 16,
            Instruction::CompareBranch { rn, target, zero } => rn < 16,
            Instruction::TableBranch { rn, rm, halfword } => true,
            Instruction::Push { regs, lr } => true,
            Instruction::Pop { regs, pc } => true,
            Instruction::Ldm { rn, regs, writeback, descending } => rn < 16,
            Instruction::Stm { rn, regs, writeback, descending } => rn < 16,
            Instruction::Barrier { kind } => true,
            Instruction::Cps { disable, i, f } => true,
            Instruction::Clz { rd, rm } => rd < 16 && rm < 16,
            Instruction::Rbit { rd, rm } => rd < 16 && rm < 16,
            Instruction::Rev { rd, rm, kind } => rd < 16 && rm < 16,
            Instruction::Extend { rd, rm, kind } => rd < 16 && rm < 16,
            Instruction::BitField { rd, rn, lsb, width, kind } => rd < 16 && rn < 16 && lsb < 32
                && (kind == BitFieldKind::Sbfx ==> 1 <= width <= 32),
            Instruction::Ldrex { rt, rn, imm, width } => rt < 16 && rn < 16,
            Instruction::Strex { rd, rt, rn, imm, width } => rd < 16 && rt < 16 && rn < 16,
            Instruction::Ldr { rt, rn, offset, width } => rt < 16 && rn < 16 && offset.wf(),
            Instruction::LdrSignExtend { rt, rn, offset, width } => rt < 16 && rn < 16
                && offset.wf(),
            Instruction::Str { rt, rn, offset, width } => rt < 16 && rn < 16 && offset.wf(),
            Instruction::LdrStrWb { rt, rn, imm, width, load, sign_extend, pre } => rt < 16 && rn
                < 16,
            Instruction::LdrLiteral { rt, imm } => rt < 16,
            Instruction::LdrD { rt, rt2, rn, imm } => rt < 16 && rt2 < 16 && rn < 16,
            Instruction::StrD { rt, rt2, rn, imm } => rt < 16 && rt2 < 16 && rn < 16,
            Instruction::MsrMrs { rt, reg, read } => rt < 16,
            Instruction::Svc { imm8 } => true,
            Instruction::Breakpoint { imm8 } => true,
            Instruction::It { cond, mask } => mask % 32 != 0,
            Instruction::ExceptionReturn => true,
            Instruction::Sat { rd, rn, sat_imm, signed, shift_kind, shift_imm } => rd < 16 && rn
                < 16,
            Instruction::QAddSub { rd, rn, rm, kind } => rd < 16 && rn < 16 && rm < 16,
            Instruction::Simd16 { rd, rn, rm, kind, unsigned } => rd < 16 && rn < 16 && rm < 16,
            Instruction::Simd8 { rd, rn, rm, unsigned, halving, sub } => rd < 16 && rn < 16 && rm
                < 16,
            Instruction::DualHalfMul { rd, rn, rm, swap, sub } => rd < 16 && rn < 16 && rm < 16,
            Instruction::DualHalfMulAcc { rd, rn, rm, ra, swap, sub } => rd < 16 && rn < 16 && rm
                < 16 && ra < 16,
            Instruction::DualHalfMulLong { rdlo, rdhi, rn, rm, swap, sub } => rdlo < 16 && rdhi
                < 16 && rn < 16 && rm < 16,
            Instruction::Mla { rd, rn, rm, ra, sub } => rd < 16 && rn < 16 && rm < 16 && ra < 16,
            Instruction::Pkh { rd, rn, rm, tb, shift_imm } => rd < 16 && rn < 16 && rm < 16,
            Instruction::FpVmovReg { sd, sm, double } => true,
            Instruction::FpVmovCore { rt, sn, to_core } => rt < 16,
            Instruction::FpVmovCoreD { rt, rt2, dn, to_core } => rt < 16 && rt2 < 16,
            Instruction::FpVmovImm { sd, imm, double } => true,
            Instruction::FpArith3 { op, vd, vn, vm, double } => true,
            Instruction::FpUnary { op, vd, vm, double } => true,
            Instruction::FpCmp { vd, vm, double, e, zero } => true,
            Instruction::FpCvt { op, vd, vm } => true,
            Instruction::FpLoadStore { rt, rn, offset, load, double } => rn < 16,
            Instruction::FpLoadStoreMulti {
                vd,
                rn,
                count,
                load,
                double,
                decrement,
                writeback,
            } => rn < 16 && count * (if double {
                8int
            } else {
                4
            }) <= u32::MAX,
            Instruction::FpCvtFixed { vd, fbits, width, signed, to_float } => fbits <= 63 && (to_float
                || if signed {
                1 <= width <= 63
            } else {
                width <= 62
            }),
            Instruction::Unimplemented { bits } => true,
            Instruction::Invalid { address } => true,
        }
    }
}


/// The three-bit register number at a bit weight.
#[verifier::inline]
pub open spec fn reg3(bits: u16, weight: u16) -> u8 {
    (bits / weight % 8) as u8
}

/// The four-bit register number at a bit weight.
#[verifier::inline]
pub open spec fn reg4(bits: u32, weight: u32) -> u8 {
    (bits / weight % 16) as u8
}

/// The bit at a weight.
#[verifier::inline]
pub open spec fn on(bits: u32, weight: u32) -> bool {
    bits / weight % 2 == 1
}

/// An encoding that is not modelled.
pub open spec fn unmodelled(bits: u16) -> Instruction {
    Instruction::Unimplemented { bits: bits as u32 }
}

/// LSL, LSR, ASR by an immediate; LSR and ASR by 0 stand for 32.
pub open spec fn shift_imm16(bits: u16) -> Instruction {
    let op = bits / 0x800 % 4;
    let imm5 = bits / 0x40 % 32;
    if op == 3 {
        unmodelled(bits)
    } else {
        Instruction::Shift {
            rd: reg3(bits, 1),
            rm: reg3(bits, 8),
            kind: if op == 0 {
                ShiftKind::Lsl
            } else if op == 1 {
                ShiftKind::Lsr
            } else {
                ShiftKind::Asr
            },
            amount: ShiftAmount::Immediate(
                if op != 0 && imm5 == 0 {
                    32
                } else {
                    imm5 as u8
                },
            ),
            flags: true,
        }
    }
}

/// ADDS and SUBS with a register or a three-bit immediate.
pub open spec fn add_sub16(bits: u16) -> Instruction {
    let rd = reg3(bits, 1);
    let rn = reg3(bits, 8);
    let field = bits / 0x40 % 8;
    let (rm, imm) = if bits / 0x400 % 2 == 0 {
        (Some(field as u8), None)
    } else {
        (None, Some(field as u32))
    };
    if bits / 0x200 % 2 == 0 {
        Instruction::Add { rd, rn, rm, imm, flags: true }
    } else {
        Instruction::Sub { rd, rn, rm, imm, flags: true }
    }
}

/// MOVS, CMP, ADDS, SUBS with an eight-bit immediate.
pub open spec fn imm8_16(bits: u16) -> Instruction {
    let rd = reg3(bits, 0x100);
    let imm = Some((bits % 0x100) as u32);
    let op = bits / 0x800 % 4;
    if op == 0 {
        Instruction::Mov { rd, rm: 0, imm, flags: true }
    } else if op == 1 {
        Instruction::Cmp { rn: rd, rm: None, imm }
    } else if op == 2 {
        Instruction::Add { rd, rn: rd, rm: None, imm, flags: true }
    } else {
        Instruction::Sub { rd, rn: rd, rm: None, imm, flags: true }
    }
}

/// Register data processing: all but MUL update the flags.
pub open spec fn data_proc16(bits: u16) -> Instruction {
    let rd = reg3(bits, 1);
    let rm = reg3(bits, 8);
    let op = bits / 0x40 % 16;
    let shift = |kind: ShiftKind|
        Instruction::Shift { rd, rm: rd, kind, amount: ShiftAmount::Register(rm), flags: true };
    if op == 0 {
        Instruction::And { rd, rn: rd, rm: Some(rm), imm: None, flags: true }
    } else if op == 1 {
        Instruction::Eor { rd, rn: rd, rm: Some(rm), imm: None, flags: true }
    } else if op == 2 {
        shift(ShiftKind::Lsl)
    } else if op == 3 {
        shift(ShiftKind::Lsr)
    } else if op == 4 {
        shift(ShiftKind::Asr)
    } else if op == 5 {
        Instruction::Adc { rd, rn: rd, rm, flags: true }
    } else if op == 6 {
        Instruction::Sbc { rd, rn: rd, rm, flags: true }
    } else if op == 7 {
        shift(ShiftKind::Ror)
    } else if op == 8 {
        Instruction::Tst { rn: rd, rm: Some(rm), imm: None }
    } else if op == 9 {
        Instruction::Neg { rd, rn: rm, flags: true }
    } else if op == 10 {
        Instruction::Cmp { rn: rd, rm: Some(rm), imm: None }
    } else if op == 11 {
        Instruction::Cmn { rn: rd, rm: Some(rm), imm: None }
    } else if op == 12 {
        Instruction::Orr { rd, rn: rd, rm: Some(rm), imm: None, flags: true }
    } else if op == 13 {
        Instruction::Mul { rd, rn: rd, rm, flags: false }
    } else if op == 14 {
        Instruction::Bic { rd, rn: rd, rm: Some(rm), imm: None, flags: true }
    } else {
        Instruction::Mvn { rd, rm, imm: None, flags: true }
    }
}

/// ADD, CMP, MOV on all sixteen registers, BX and BLX.
pub open spec fn high_reg16(bits: u16) -> Instruction {
    let rd = (bits / 0x80 % 2 * 8 + bits % 8) as u8;
    let rm = (bits / 8 % 16) as u8;
    let op = bits / 0x100 % 4;
    if op == 0 {
        Instruction::Add { rd, rn: rd, rm: Some(rm), imm: None, flags: false }
    } else if op == 1 {
        Instruction::Cmp { rn: rd, rm: Some(rm), imm: None }
    } else if op == 2 {
        Instruction::Mov { rd, rm, imm: None, flags: false }
    } else if bits / 0x80 % 2 == 0 {
        Instruction::BranchExchange { rm }
    } else {
        Instruction::BranchLinkExchange { rm }
    }
}

/// Loads and stores with a register offset.
pub open spec fn load_store_reg16(bits: u16) -> Instruction {
    let rt = reg3(bits, 1);
    let rn = reg3(bits, 8);
    let offset = LoadStoreOffset::Register(reg3(bits, 0x40));
    let op = bits / 0x200 % 8;
    if op == 0 {
        Instruction::Str { rt, rn, offset, width: AccessWidth::Word }
    } else if op == 1 {
        Instruction::Str { rt, rn, offset, width: AccessWidth::HalfWord }
    } else if op == 2 {
        Instruction::Str { rt, rn, offset, width: AccessWidth::Byte }
    } else if op == 3 {
        Instruction::LdrSignExtend { rt, rn, offset, width: AccessWidth::Byte }
    } else if op == 4 {
        Instruction::Ldr { rt, rn, offset, width: AccessWidth::Word }
    } else if op == 5 {
        Instruction::Ldr { rt, rn, offset, width: AccessWidth::HalfWord }
    } else if op == 6 {
        Instruction::Ldr { rt, rn, offset, width: AccessWidth::Byte }
    } else {
        Instruction::Invalid { address: 0 }
    }
}

/// Loads and stores with an immediate offset, scaled by the width.
pub open spec fn load_store_imm16(bits: u16) -> Instruction {
    let op = bits / 0x800;
    let rt = reg3(bits, 1);
    let rn = reg3(bits, 8);
    let imm5 = bits / 0x40 % 32;
    let (width, scale) = if op <= 13 {
        (AccessWidth::Word, 4int)
    } else if op <= 15 {
        (AccessWidth::Byte, 1int)
    } else {
        (AccessWidth::HalfWord, 2int)
    };
    let offset = LoadStoreOffset::Immediate((imm5 * scale) as u32);
    if op % 2 == 1 {
        Instruction::Ldr { rt, rn, offset, width }
    } else {
        Instruction::Str { rt, rn, offset, width }
    }
}

/// Loads and stores relative to SP.
pub open spec fn sp_relative16(bits: u16) -> Instruction {
    let rt = reg3(bits, 0x100);
    let offset = LoadStoreOffset::Immediate((bits % 0x100 * 4) as u32);
    if bits / 0x800 % 2 == 1 {
        Instruction::Ldr { rt, rn: 13, offset, width: AccessWidth::Word }
    } else {
        Instruction::Str { rt, rn: 13, offset, width: AccessWidth::Word }
    }
}

/// ADD of an immediate to PC or SP.
pub open spec fn add_pc_sp16(bits: u16) -> Instruction {
    Instruction::Add {
        rd: reg3(bits, 0x100),
        rn: if bits / 0x800 % 2 == 0 {
            15
        } else {
            13
        },
        rm: None,
        imm: Some((bits % 0x100 * 4) as u32),
        flags: false,
    }
}

/// ADD SP, SUB SP, CBZ, sign and zero extension, PUSH, CPS.
pub open spec fn misc16(bits: u16, pc: u32) -> Instruction {
    let op = bits / 0x100 % 8;
    if op == 0 {
        let imm = Some((bits % 0x80 * 4) as u32);
        if bits / 0x80 % 2 == 0 {
            Instruction::Add { rd: 13, rn: 13, rm: None, imm, flags: false }
        } else {
            Instruction::Sub { rd: 13, rn: 13, rm: None, imm, flags: false }
        }
    } else if op == 1 {
        Instruction::CompareBranch {
            rn: reg3(bits, 1),
            target: wrap32(pc + 4 + 2 * (bits / 8 % 32)),
            zero: true,
        }
    } else if op == 2 {
        let kind = bits / 0x40 % 4;
        Instruction::Extend {
            rd: reg3(bits, 1),
            rm: reg3(bits, 8),
            kind: if kind == 0 {
                ExtendKind::Sxth
            } else if kind == 1 {
                ExtendKind::Sxtb
            } else if kind == 2 {
                ExtendKind::Uxth
            } else {
                ExtendKind::Uxtb
            },
        }
    } else if op == 4 || op == 5 {
        Instruction::Push { regs: (bits % 0x100) as u16, lr: op == 5 }
    } else if op == 6 && bits / 0x20 == 0x5B3 {
        Instruction::Cps {
            disable: bits / 0x10 % 2 == 1,
            i: bits / 2 % 2 == 1,
            f: bits % 2 == 1,
        }
    } else {
        unmodelled(bits)
    }
}

/// CBNZ, byte reversal, POP, BKPT, hints and IT.
pub open spec fn misc_top16(bits: u16, pc: u32) -> Instruction {
    let op = bits / 0x100 % 8;
    if op == 1 {
        Instruction::CompareBranch {
            rn: reg3(bits, 1),
            target: wrap32(pc + 4 + 2 * (bits / 8 % 32)),
            zero: false,
        }
    } else if op == 2 {
        let kind = bits / 0x40 % 4;
        if kind == 2 {
            unmodelled(bits)
        } else {
            Instruction::Rev {
                rd: reg3(bits, 1),
                rm: reg3(bits, 8),
                kind: if kind == 0 {
                    RevKind::Rev
                } else if kind == 1 {
                    RevKind::Rev16
                } else {
                    RevKind::RevSh
                },
            }
        }
    } else if op == 4 || op == 5 {
        Instruction::Pop { regs: (bits % 0x100) as u16, pc: op == 5 }
    } else if op == 6 {
        Instruction::Breakpoint { imm8: (bits % 0x100) as u8 }
    } else if op == 7 {
        if bits % 16 == 0 {
            Instruction::Nop
        } else {
            match Cond::of_number((bits / 16 % 16) as u8) {
                Some(cond) => if cond == Cond::Al {
                    Instruction::Invalid { address: pc }
                } else {
                    Instruction::It { cond, mask: (bits % 16) as u8 }
                },
                None => Instruction::Invalid { address: pc },
            }
        }
    } else {
        unmodelled(bits)
    }
}

/// Conditional branches and SVC.
pub open spec fn branch_cond16(bits: u16, pc: u32) -> Instruction {
    match Cond::of_number((bits / 0x100 % 16) as u8) {
        Some(cond) => Instruction::Branch {
            cond: Some(cond),
            target: wrap32(pc + 4 + 2 * signed8(bits as int)),
        },
        None => Instruction::Svc { imm8: (bits % 0x100) as u8 },
    }
}

/// The signed reading of an eleven-bit field.
pub open spec fn signed11(x: int) -> int {
    if x % 0x800 < 0x400 {
        x % 0x800
    } else {
        x % 0x800 - 0x800
    }
}

/// What a 16-bit encoding at an address means.
#[verifier::opaque]
pub open spec fn decoded16(bits: u16, pc: u32) -> Instruction {
    let op = bits / 0x800;
    if op <= 2 {
        shift_imm16(bits)
    } else if op == 3 {
        add_sub16(bits)
    } else if op <= 7 {
        imm8_16(bits)
    } else if op == 8 {
        if bits / 0x400 % 2 == 0 {
            data_proc16(bits)
        } else {
            high_reg16(bits)
        }
    } else if op == 9 {
        Instruction::LdrLiteral { rt: reg3(bits, 0x100), imm: (bits % 0x100 * 4) as u32 }
    } else if op <= 11 {
        load_store_reg16(bits)
    } else if op <= 17 {
        load_store_imm16(bits)
    } else if op <= 19 {
        sp_relative16(bits)
    } else if op <= 21 {
        add_pc_sp16(bits)
    } else if op == 22 {
        misc16(bits, pc)
    } else if op == 23 {
        misc_top16(bits, pc)
    } else if op == 24 {
        Instruction::Stm {
            rn: reg3(bits, 0x100),
            regs: (bits % 0x100) as u16,
            writeback: true,
            descending: false,
        }
    } else if op == 25 {
        Instruction::Ldm {
            rn: reg3(bits, 0x100),
            regs: (bits % 0x100) as u16,
            writeback: true,
            descending: false,
        }
    } else if op <= 27 {
        branch_cond16(bits, pc)
    } else if op == 28 {
        Instruction::Branch { cond: None, target: wrap32(pc + 4 + 2 * signed11(bits as int)) }
    } else {
        unmodelled(bits)
    }
}

/// The number of bits[14:12]:bits[7:6].
pub open spec fn imm5_32(bits: u32) -> int {
    bits / 0x1000 % 8 * 4 + bits / 0x40 % 4
}

/// A 32-bit encoding that is not modelled.
pub open spec fn unmodelled32(bits: u32) -> Instruction {
    Instruction::Unimplemented { bits }
}

/// MOVW and MOVT: the immediate is imm4:i:imm3:imm8.
pub open spec fn mov_imm32(bits: u32) -> Instruction {
    Instruction::MovImm32 {
        rd: reg4(bits, 0x100),
        imm16: (bits / 0x1_0000 % 16 * 0x1000 + bits / 0x400_0000 % 2 * 0x800 + bits / 0x1000 % 8
            * 0x100 + bits % 0x100) as u16,
        top: on(bits, 0x80_0000),
    }
}

/// The offset of BL: S:imm10:I1:I2:imm11:0 read as a signed number, where I1 and
/// I2 are 1 if the J bits equal S.
pub open spec fn bl_offset(bits: u32) -> int {
    let s = bits / 0x400_0000 % 2;
    let i1 = (bits / 0x4000 % 2 + s + 1) % 2;
    let i2 = (bits / 0x2000 % 2 + s + 1) % 2;
    bits / 0x1_0000 % 0x400 * 0x4000 + i1 * 0x2000 + i2 * 0x1000 + bits % 0x800 * 2 - s * 0x100_0000
}

/// MRS: the special register by number.
pub open spec fn mrs32(bits: u32) -> Instruction {
    let rt = reg4(bits, 0x100);
    let sysm = bits % 0x100;
    let read = |reg: SpecialReg| Instruction::MsrMrs { rt, reg, read: true };
    if sysm == 0x00 {
        read(SpecialReg::Apsr)
    } else if sysm == 0x01 {
        read(SpecialReg::Iapsr)
    } else if sysm == 0x02 {
        read(SpecialReg::Eapsr)
    } else if sysm == 0x05 {
        read(SpecialReg::Ipsr)
    } else if sysm == 0x06 {
        read(SpecialReg::Epsr)
    } else if sysm == 0x08 {
        read(SpecialReg::Msp)
    } else if sysm == 0x09 {
        read(SpecialReg::Psp)
    } else if sysm == 0x10 {
        read(SpecialReg::Primask)
    } else if sysm == 0x11 {
        read(SpecialReg::Basepri)
    } else if sysm == 0x13 {
        read(SpecialReg::Faultmask)
    } else if sysm == 0x14 {
        read(SpecialReg::Control)
    } else {
        unmodelled32(bits)
    }
}

/// MSR: the special register by number; bit 10 adds GE to APSR.
pub open spec fn msr32(bits: u32) -> Instruction {
    let rt = reg4(bits, 0x1_0000);
    let sysm = bits % 0x100;
    let write = |reg: SpecialReg| Instruction::MsrMrs { rt, reg, read: false };
    if sysm == 0x00 {
        if on(bits, 0x400) {
            write(SpecialReg::ApsrGe)
        } else {
            write(SpecialReg::Apsr)
        }
    } else if sysm == 0x08 {
        write(SpecialReg::Msp)
    } else if sysm == 0x09 {
        write(SpecialReg::Psp)
    } else if sysm == 0x10 {
        write(SpecialReg::Primask)
    } else if sysm == 0x11 {
        write(SpecialReg::Basepri)
    } else if sysm == 0x12 {
        write(SpecialReg::BasepriMax)
    } else if sysm == 0x13 {
        write(SpecialReg::Faultmask)
    } else if sysm == 0x14 {
        write(SpecialReg::Control)
    } else {
        unmodelled32(bits)
    }
}

/// SSAT holds its width less one, USAT its width.
pub open spec fn sat32(bits: u32) -> Instruction {
    let signed = !on(bits, 0x80_0000);
    Instruction::Sat {
        rd: reg4(bits, 0x100),
        rn: reg4(bits, 0x1_0000),
        sat_imm: (bits % 32 + (if signed {
            1int
        } else {
            0
        })) as u8,
        signed,
        shift_kind: if on(bits, 0x20_0000) {
            DspShiftKind::Asr
        } else {
            DspShiftKind::Lsl
        },
        shift_imm: imm5_32(bits) as u8,
    }
}

/// UBFX, SBFX, BFI, BFC. Insertions whose last bit lies below the first are not
/// modelled.
pub open spec fn bitfield32(bits: u32) -> Instruction {
    let op = bits / 0x10_0000;
    let rd = reg4(bits, 0x100);
    let rn = reg4(bits, 0x1_0000);
    let lsb = imm5_32(bits);
    let last = bits % 32;
    if op == 0xF3C || op == 0xF34 {
        Instruction::BitField {
            rd,
            rn,
            lsb: lsb as u8,
            width: (last + 1) as u8,
            kind: if op == 0xF3C {
                BitFieldKind::Ubfx
            } else {
                BitFieldKind::Sbfx
            },
        }
    } else if last < lsb {
        unmodelled32(bits)
    } else {
        Instruction::BitField {
            rd,
            rn,
            lsb: lsb as u8,
            width: (last - lsb + 1) as u8,
            kind: if rn == 15 {
                BitFieldKind::Bfc
            } else {
                BitFieldKind::Bfi
            },
        }
    }
}

/// QADD, QDADD, QSUB, QDSUB.
pub open spec fn qaddsub32(bits: u32) -> Instruction {
    let op = bits / 16 % 4;
    Instruction::QAddSub {
        rd: reg4(bits, 0x100),
        rn: reg4(bits, 0x1_0000),
        rm: reg4(bits, 1),
        kind: if op == 0 {
            QAddKind::Qadd
        } else if op == 1 {
            QAddKind::Qdadd
        } else if op == 2 {
            QAddKind::Qsub
        } else {
            QAddKind::Qdsub
        },
    }
}

/// Halfword lanes.
pub open spec fn simd16_32(bits: u32) -> Instruction {
    let op = bits / 0x10_0000 % 16;
    Instruction::Simd16 {
        rd: reg4(bits, 0x100),
        rn: reg4(bits, 0x1_0000),
        rm: reg4(bits, 1),
        kind: if op == 0x9 {
            Simd16Kind::Add16
        } else if op == 0xA {
            Simd16Kind::Asx
        } else if op == 0xE {
            Simd16Kind::Sax
        } else {
            Simd16Kind::Sub16
        },
        unsigned: on(bits, 0x40),
    }
}

/// Byte lanes.
pub open spec fn simd8_32(bits: u32) -> Instruction {
    Instruction::Simd8 {
        rd: reg4(bits, 0x100),
        rn: reg4(bits, 0x1_0000),
        rm: reg4(bits, 1),
        unsigned: on(bits, 0x40),
        halving: on(bits, 0x20),
        sub: on(bits, 0x40_0000),
    }
}

/// SMUAD, SMUSD, and with an accumulator SMLAD, SMLSD.
pub open spec fn dual_half32(bits: u32) -> Instruction {
    let rd = reg4(bits, 0x100);
    let rn = reg4(bits, 0x1_0000);
    let rm = reg4(bits, 1);
    let ra = reg4(bits, 0x1000);
    let swap = on(bits, 0x10);
    let sub = on(bits, 0x40_0000);
    if ra == 15 {
        Instruction::DualHalfMul { rd, rn, rm, swap, sub }
    } else {
        Instruction::DualHalfMulAcc { rd, rn, rm, ra, swap, sub }
    }
}

/// SMLALD and SMLSLD.
pub open spec fn dual_half_long32(bits: u32) -> Instruction {
    Instruction::DualHalfMulLong {
        rdlo: reg4(bits, 0x1000),
        rdhi: reg4(bits, 0x100),
        rn: reg4(bits, 0x1_0000),
        rm: reg4(bits, 1),
        swap: on(bits, 0x10),
        sub: on(bits, 0x10_0000),
    }
}

/// MLA and MLS.
pub open spec fn mla32(bits: u32) -> Instruction {
    Instruction::Mla {
        rd: reg4(bits, 0x100),
        rn: reg4(bits, 0x1_0000),
        rm: reg4(bits, 1),
        ra: reg4(bits, 0x1000),
        sub: on(bits, 0x10),
    }
}

/// UMULL, and the signed SMULL and SMLAL.
pub open spec fn mull32(bits: u32) -> Instruction {
    Instruction::MullLong {
        rdlo: reg4(bits, 0x1000),
        rdhi: reg4(bits, 0x100),
        rn: reg4(bits, 0x1_0000),
        rm: reg4(bits, 1),
        signed: bits / 0x10_0000 != 0xFBA,
        accumulate: bits / 0x10_0000 == 0xFBC,
    }
}

/// PKHBT and PKHTB.
pub open spec fn pkh32(bits: u32) -> Instruction {
    Instruction::Pkh {
        rd: reg4(bits, 0x100),
        rn: reg4(bits, 0x1_0000),
        rm: reg4(bits, 1),
        tb: on(bits, 0x20),
        shift_imm: imm5_32(bits) as u8,
    }
}

/// Shifts by a register.
pub open spec fn shift_reg32(bits: u32) -> Instruction {
    let op = bits / 0x20_0000 % 4;
    Instruction::Shift {
        rd: reg4(bits, 0x100),
        rm: reg4(bits, 0x1_0000),
        kind: if op == 0 {
            ShiftKind::Lsl
        } else if op == 1 {
            ShiftKind::Lsr
        } else if op == 2 {
            ShiftKind::Asr
        } else {
            ShiftKind::Ror
        },
        amount: ShiftAmount::Register(reg4(bits, 1)),
        flags: on(bits, 0x10_0000),
    }
}

/// A load or store with an offset.
pub open spec fn access32(
    load: bool,
    sign: bool,
    rt: u8,
    rn: u8,
    offset: LoadStoreOffset,
    width: AccessWidth,
) -> Instruction {
    if !load {
        Instruction::Str { rt, rn, offset, width }
    } else if sign {
        Instruction::LdrSignExtend { rt, rn, offset, width }
    } else {
        Instruction::Ldr { rt, rn, offset, width }
    }
}

/// Direction, sign extension and width of the accesses from 0xF80 to 0xF9B, by the
/// number of the encoding's first twelve bits; bit 3 of it, which selects the long
/// immediate, is left out.
pub open spec fn access_kind(op: u32) -> Option<(bool, bool, AccessWidth)> {
    if op == 0xF80 {
        Some((false, false, AccessWidth::Byte))
    } else if op == 0xF81 {
        Some((true, false, AccessWidth::Byte))
    } else if op == 0xF82 {
        Some((false, false, AccessWidth::HalfWord))
    } else if op == 0xF83 {
        Some((true, false, AccessWidth::HalfWord))
    } else if op == 0xF84 {
        Some((false, false, AccessWidth::Word))
    } else if op == 0xF85 {
        Some((true, false, AccessWidth::Word))
    } else if op == 0xF91 {
        Some((true, true, AccessWidth::Byte))
    } else if op == 0xF93 {
        Some((true, true, AccessWidth::HalfWord))
    } else {
        None
    }
}

/// Loads and stores. The long form has a twelve-bit offset, LDR from PC is
/// literal. The short form has either an eight-bit offset, subtracted, or written
/// back before or after the access; or, for words, a register offset.
pub open spec fn load_store32(bits: u32) -> Option<Instruction> {
    let op = bits / 0x10_0000;
    let rt = reg4(bits, 0x1000);
    let rn = reg4(bits, 0x1_0000);
    if op / 8 % 2 == 1 {
        match access_kind((op - 8) as u32) {
            Some((load, sign, width)) => if load && !sign && width == AccessWidth::Word && rn
                == 15 {
                Some(Instruction::LdrLiteral { rt, imm: bits % 0x1000 })
            } else {
                Some(
                    access32(load, sign, rt, rn, LoadStoreOffset::Immediate(bits % 0x1000), width),
                )
            },
            None => None,
        }
    } else {
        match access_kind(op) {
            Some((load, sign, width)) => if on(bits, 0x800) {
                let p = on(bits, 0x400);
                let u = on(bits, 0x200);
                let w = on(bits, 0x100);
                let imm = if u {
                    bits % 0x100
                } else {
                    wrap32(-(bits as int % 0x100))
                };
                if p && !u && !w {
                    Some(access32(load, sign, rt, rn, LoadStoreOffset::Immediate(imm), width))
                } else if w {
                    Some(
                        Instruction::LdrStrWb {
                            rt,
                            rn,
                            imm,
                            width,
                            load,
                            sign_extend: sign,
                            pre: p,
                        },
                    )
                } else {
                    None
                }
            } else if width == AccessWidth::Word {
                let rm = reg4(bits, 1);
                let lsl = bits / 16 % 4;
                Some(
                    access32(
                        load,
                        sign,
                        rt,
                        rn,
                        if lsl == 0 {
                            LoadStoreOffset::Register(rm)
                        } else {
                            LoadStoreOffset::RegisterShifted { rm, lsl: lsl as u8 }
                        },
                        width,
                    ),
                )
            } else {
                None
            },
            None => None,
        }
    }
}

/// LDRD and STRD.
pub open spec fn double32(bits: u32) -> Instruction {
    let rt = reg4(bits, 0x1000);
    let rt2 = reg4(bits, 0x100);
    let rn = reg4(bits, 0x1_0000);
    let imm = (bits % 0x100 * 4) as u32;
    if bits / 0x10_0000 == 0xE9D {
        Instruction::LdrD { rt, rt2, rn, imm }
    } else {
        Instruction::StrD { rt, rt2, rn, imm }
    }
}

/// LDM and STM: increment-after and decrement-before.
pub open spec fn multiple32(bits: u32) -> Instruction {
    let p = on(bits, 0x100_0000);
    let u = on(bits, 0x80_0000);
    let rn = reg4(bits, 0x1_0000);
    let regs = (bits % 0x1_0000) as u16;
    let writeback = on(bits, 0x20_0000);
    if p == u {
        unmodelled32(bits)
    } else if on(bits, 0x10_0000) {
        Instruction::Ldm { rn, regs, writeback, descending: p }
    } else {
        Instruction::Stm { rn, regs, writeback, descending: p }
    }
}

/// LDREX, STREX and their byte and halfword forms.
pub open spec fn exclusive32(bits: u32) -> Instruction {
    let op = bits / 0x10_0000;
    let rn = reg4(bits, 0x1_0000);
    let rt = reg4(bits, 0x1000);
    let imm = (bits % 0x100 * 4) as u32;
    let low = bits % 0x1000;
    if op == 0xE85 {
        Instruction::Ldrex { rt, rn, imm, width: AccessWidth::Word }
    } else if op == 0xE84 {
        Instruction::Strex { rd: reg4(bits, 0x100), rt, rn, imm, width: AccessWidth::Word }
    } else if op == 0xE8D && low == 0xF4F {
        Instruction::Ldrex { rt, rn, imm: 0, width: AccessWidth::Byte }
    } else if op == 0xE8D && low == 0xF5F {
        Instruction::Ldrex { rt, rn, imm: 0, width: AccessWidth::HalfWord }
    } else if op == 0xE8C && low / 16 == 0xF4 {
        Instruction::Strex { rd: reg4(bits, 1), rt, rn, imm: 0, width: AccessWidth::Byte }
    } else if op == 0xE8C && low / 16 == 0xF5 {
        Instruction::Strex { rd: reg4(bits, 1), rt, rn, imm: 0, width: AccessWidth::HalfWord }
    } else {
        unmodelled32(bits)
    }
}

/// Register data processing: ADD and SUB with a left shift, and MVN, ADC, SBC, RSB
/// without a shift; none of them to PC.
pub open spec fn data_proc_reg32(bits: u32) -> Instruction {
    let op = bits / 0x20_0000 % 16;
    let flags = on(bits, 0x10_0000);
    let rn = reg4(bits, 0x1_0000);
    let rd = reg4(bits, 0x100);
    let rm = reg4(bits, 1);
    let lsl = imm5_32(bits) as u8;
    if on(bits, 0x8000) || rd == 15 || bits / 16 % 4 != 0 {
        unmodelled32(bits)
    } else if op == 0x8 {
        Instruction::AddShifted { rd, rn, rm, lsl, flags }
    } else if op == 0xD {
        Instruction::SubShifted { rd, rn, rm, lsl, flags }
    } else if lsl != 0 {
        unmodelled32(bits)
    } else if op == 0x3 && rn == 15 {
        Instruction::Mvn { rd, rm, imm: None, flags }
    } else if op == 0xA {
        Instruction::Adc { rd, rn, rm, flags }
    } else if op == 0xB {
        Instruction::Sbc { rd, rn, rm, flags }
    } else if op == 0xE {
        Instruction::Rsb { rd, rn, rm: Some(rm), imm: None, flags }
    } else {
        unmodelled32(bits)
    }
}

/// The 32-bit number that a twelve-bit modified immediate stands for: a byte,
/// repeated on a pattern, or a byte with its top bit set, rotated right.
pub open spec fn expanded_imm(imm12: u32) -> u32 {
    let mode = imm12 / 0x100 % 16;
    let byte = imm12 % 0x100;
    if mode == 0 {
        byte
    } else if mode == 1 {
        (byte * 0x0001_0001) as u32
    } else if mode == 2 {
        (byte * 0x0100_0100) as u32
    } else if mode == 3 {
        (byte * 0x0101_0101) as u32
    } else {
        rotated((byte % 0x80 + 0x80) as u32, imm12 / 0x80 % 32)
    }
}

/// Data processing with a modified immediate. With Rd = 15 the comparing forms
/// are meant; with Rn = 15 ORR is MOV.
pub open spec fn data_proc_imm32(bits: u32) -> Instruction {
    let op = bits / 0x20_0000 % 16;
    let flags = on(bits, 0x10_0000);
    let rn = reg4(bits, 0x1_0000);
    let rd = reg4(bits, 0x100);
    let imm = Some(
        expanded_imm(
            (bits / 0x400_0000 % 2 * 0x800 + bits / 0x1000 % 8 * 0x100 + bits % 0x100) as u32,
        ),
    );
    if op == 0x0 {
        if rd == 15 {
            Instruction::Tst { rn, rm: None, imm }
        } else {
            Instruction::And { rd, rn, rm: None, imm, flags }
        }
    } else if op == 0x1 {
        Instruction::Bic { rd, rn, rm: None, imm, flags }
    } else if op == 0x2 {
        if rn != 15 {
            Instruction::Orr { rd, rn, rm: None, imm, flags }
        } else if rd == 15 && flags {
            unmodelled32(bits)
        } else {
            Instruction::Mov { rd, rm: 0, imm, flags }
        }
    } else if op == 0x4 {
        if rd == 15 {
            Instruction::Teq { rn, rm: None, imm }
        } else {
            Instruction::Eor { rd, rn, rm: None, imm, flags }
        }
    } else if op == 0x8 {
        if rd == 15 {
            Instruction::Cmn { rn, rm: None, imm }
        } else {
            Instruction::Add { rd, rn, rm: None, imm, flags }
        }
    } else if op == 0xD {
        if rd == 15 {
            Instruction::Cmp { rn, rm: None, imm }
        } else {
            Instruction::Sub { rd, rn, rm: None, imm, flags }
        }
    } else if op == 0xE && rd != 15 {
        Instruction::Rsb { rd, rn, rm: None, imm, flags }
    } else {
        unmodelled32(bits)
    }
}

/// The destination register Vd: four bits, and for single precision a fifth as the
/// lowest.
pub open spec fn vd_of(bits: u32, double: bool) -> u8 {
    if double {
        reg4(bits, 0x1000)
    } else {
        (bits / 0x1000 % 16 * 2 + bits / 0x40_0000 % 2) as u8
    }
}

/// The first operand register Vn.
pub open spec fn vn_of(bits: u32, double: bool) -> u8 {
    if double {
        reg4(bits, 0x1_0000)
    } else {
        (bits / 0x1_0000 % 16 * 2 + bits / 0x80 % 2) as u8
    }
}

/// The second operand register Vm.
pub open spec fn vm_of(bits: u32, double: bool) -> u8 {
    if double {
        reg4(bits, 1)
    } else {
        (bits % 16 * 2 + bits / 0x20 % 2) as u8
    }
}

/// The three-register operation with an opcode and its sub bit.
pub open spec fn arith_op(opc: u32, sub: bool) -> FpArithOp {
    if opc == 0 {
        if sub {
            FpArithOp::Vmls
        } else {
            FpArithOp::Vmla
        }
    } else if opc == 1 {
        if sub {
            FpArithOp::Vnmla
        } else {
            FpArithOp::Vnmls
        }
    } else if opc == 2 {
        if sub {
            FpArithOp::Vnmul
        } else {
            FpArithOp::Vmul
        }
    } else {
        if sub {
            FpArithOp::Vsub
        } else {
            FpArithOp::Vadd
        }
    }
}

/// Floating point data processing and moves of a core register.
pub open spec fn fpu32(bits: u32) -> Option<Instruction> {
    let double = on(bits, 0x100);
    let opc = bits / 0x80_0000 % 2 * 4 + bits / 0x10_0000 % 4;
    if bits / 0x200 % 8 != 5 {
        None
    } else if on(bits, 0x10) {
        if !on(bits, 0x20_0000) && bits / 0x20 % 4 == 0 {
            Some(
                Instruction::FpVmovCore {
                    rt: reg4(bits, 0x1000),
                    sn: vn_of(bits, false),
                    to_core: on(bits, 0x10_0000),
                },
            )
        } else {
            None
        }
    } else if opc <= 3 {
        Some(
            Instruction::FpArith3 {
                op: arith_op(opc as u32, on(bits, 0x40)),
                vd: vd_of(bits, double),
                vn: vn_of(bits, double),
                vm: vm_of(bits, double),
                double,
            },
        )
    } else if opc == 4 {
        Some(
            Instruction::FpArith3 {
                op: FpArithOp::Vdiv,
                vd: vd_of(bits, double),
                vn: vn_of(bits, double),
                vm: vm_of(bits, double),
                double,
            },
        )
    } else if opc == 7 {
        Some(fpu_2reg32(bits))
    } else {
        None
    }
}

/// The conversion of an integer opcode.
pub open spec fn convert_op(op: u32, double: bool) -> FpCvtOp {
    if op == 0x10 {
        if double {
            FpCvtOp::U32ToF64
        } else {
            FpCvtOp::U32ToF32
        }
    } else if op == 0x11 {
        if double {
            FpCvtOp::S32ToF64
        } else {
            FpCvtOp::S32ToF32
        }
    } else if op == 0x18 {
        if double {
            FpCvtOp::F64ToU32R
        } else {
            FpCvtOp::F32ToU32R
        }
    } else if op == 0x19 {
        if double {
            FpCvtOp::F64ToU32
        } else {
            FpCvtOp::F32ToU32
        }
    } else if op == 0x1A {
        if double {
            FpCvtOp::F64ToS32R
        } else {
            FpCvtOp::F32ToS32R
        }
    } else {
        if double {
            FpCvtOp::F64ToS32
        } else {
            FpCvtOp::F32ToS32
        }
    }
}

/// Two-register floating point instructions: fixed point conversions, immediates,
/// VMOV, VABS, VNEG, VSQRT, comparisons and conversions.
pub open spec fn fpu_2reg32(bits: u32) -> Instruction {
    let double = on(bits, 0x100);
    let vd = vd_of(bits, double);
    let vm = vm_of(bits, double);
    let group = bits / 0x1_0000 % 16;
    let op = group * 2 + bits / 0x80 % 2;
    let marker = bits / 16 % 16;
    if group == 0xA || group == 0xB || group == 0xE || group == 0xF {
        let width = if marker == 0x4 {
            16int
        } else {
            32int
        };
        let less = 2 * (bits % 16);
        if (marker == 0x4 || marker == 0xC) && less < width {
            Instruction::FpCvtFixed {
                vd,
                fbits: (width - less) as u8,
                width: width as u8,
                signed: group == 0xA || group == 0xE,
                to_float: group == 0xA || group == 0xB,
            }
        } else {
            unmodelled32(bits)
        }
    } else if marker == 0 {
        Instruction::FpVmovImm {
            sd: vd,
            imm: vfp_imm((group * 16 + bits % 16) as u8, double),
            double,
        }
    } else if op == 0 {
        Instruction::FpVmovReg { sd: vd, sm: vm, double }
    } else if op == 1 {
        Instruction::FpUnary { op: FpUnaryOp::Vabs, vd, vm, double }
    } else if op == 2 {
        Instruction::FpUnary { op: FpUnaryOp::Vneg, vd, vm, double }
    } else if op == 3 {
        Instruction::FpUnary { op: FpUnaryOp::Vsqrt, vd, vm, double }
    } else if 8 <= op <= 11 {
        Instruction::FpCmp { vd, vm, double, e: op % 2 == 1, zero: op >= 10 }
    } else if op == 15 {
        if double {
            Instruction::FpCvt {
                op: FpCvtOp::F32ToF64,
                vd: vd_of(bits, false),
                vm: vm_of(bits, true),
            }
        } else {
            Instruction::FpCvt {
                op: FpCvtOp::F64ToF32,
                vd: vd_of(bits, true),
                vm: vm_of(bits, false),
            }
        }
    } else if op == 16 || op == 17 {
        Instruction::FpCvt {
            op: convert_op(op as u32, double),
            vd: vd_of(bits, double),
            vm: vm_of(bits, false),
        }
    } else if 24 <= op <= 27 {
        Instruction::FpCvt {
            op: convert_op(op as u32, double),
            vd: vd_of(bits, false),
            vm: vm_of(bits, double),
        }
    } else {
        unmodelled32(bits)
    }
}

/// VLDM and VSTM: increment-after and decrement-before, on D0 to D15 or S0 to S31.
pub open spec fn vldm32(bits: u32) -> Instruction {
    let p = on(bits, 0x100_0000);
    let u = on(bits, 0x80_0000);
    let d = on(bits, 0x40_0000);
    let double = on(bits, 0x100);
    if p == u || (double && d) {
        unmodelled32(bits)
    } else {
        Instruction::FpLoadStoreMulti {
            vd: vd_of(bits, double),
            rn: reg4(bits, 0x1_0000),
            count: if double {
                bits % 0x100 / 2
            } else {
                bits % 0x100
            },
            load: on(bits, 0x10_0000),
            double,
            decrement: !u,
            writeback: on(bits, 0x20_0000),
        }
    }
}

/// VLDR and VSTR.
pub open spec fn vldr32(bits: u32) -> Instruction {
    let double = on(bits, 0x100);
    let imm = bits as int % 0x100 * 4;
    Instruction::FpLoadStore {
        rt: vd_of(bits, double),
        rn: reg4(bits, 0x1_0000),
        offset: wrap32(
            if on(bits, 0x80_0000) {
                imm
            } else {
                -imm
            },
        ),
        load: on(bits, 0x10_0000),
        double,
    }
}

/// VMOV between two core registers and a double precision register.
pub open spec fn vmov_core_d32(bits: u32) -> Instruction {
    Instruction::FpVmovCoreD {
        rt: reg4(bits, 0x1000),
        rt2: reg4(bits, 0x1_0000),
        dn: (bits / 0x40_0000 % 2 * 16 + bits % 16) as u8,
        to_core: on(bits, 0x10_0000),
    }
}

/// What a 32-bit encoding at an address means. `hi` is the first halfword; the
/// first row that fits decides.
#[verifier::opaque]
pub open spec fn decoded32(bits: u32, pc: u32) -> Instruction {
    let hi = bits / 0x1_0000;
    let lo = bits % 0x1_0000;
    if hi / 0x800 == 30 && hi / 0x100 % 4 == 2 && hi / 0x10 % 8 == 4 {
        mov_imm32(bits)
    } else if hi / 0x100 == 0xDF {
        Instruction::Svc { imm8: (bits % 0x100) as u8 }
    } else if hi / 0x800 == 30 && lo / 0x800 == 31 {
        Instruction::BranchLink { target: wrap32(pc + 4 + bl_offset(bits)) }
    } else if hi / 0x800 == 30 && lo / 0x800 == 29 {
        unmodelled32(bits)
    } else if hi == 0xF3EF && lo / 0x8000 == 1 {
        mrs32(bits)
    } else if hi / 0x10 == 0xF38 && lo / 0x8000 == 1 {
        msr32(bits)
    } else if hi == 0xF3AF && lo / 0x100 == 0x80 {
        Instruction::Nop
    } else if hi / 0x10 % 2 == 0 && (hi / 0x40 == 0x3CC || (hi / 0x40 == 0x3CE && lo / 0x8000
        == 0)) {
        sat32(bits)
    } else if hi == 0xF3BF && lo / 0x100 == 0x8F && lo % 0x10 == 0xF {
        Instruction::Barrier {
            kind: if lo / 0x10 % 16 == 5 {
                BarrierKind::Dmb
            } else if lo / 0x10 % 16 == 6 {
                BarrierKind::Isb
            } else {
                BarrierKind::Dsb
            },
        }
    } else if hi / 0x10 == 0xF3C || hi / 0x10 == 0xF34 || hi / 0x10 == 0xF36 {
        bitfield32(bits)
    } else if hi / 8 == 0x1F50 && lo / 0x1000 == 15 && lo / 0x40 % 4 == 2 {
        qaddsub32(bits)
    } else if (hi / 8 == 0x1F52 || hi / 8 == 0x1F54 || hi / 8 == 0x1F5A || hi / 8 == 0x1F5C) && lo
        / 0x1000 == 15 && (lo / 0x10 % 16 == 0 || lo / 0x10 % 16 == 4) {
        simd16_32(bits)
    } else if (hi / 8 == 0x1F50 || hi / 8 == 0x1F58) && lo / 0x1000 == 15 && lo / 0x40 % 4 != 2 {
        simd8_32(bits)
    } else if (hi / 8 == 0x1F64 || hi / 8 == 0x1F68) && lo / 0x20 % 8 == 0 {
        dual_half32(bits)
    } else if (hi / 8 == 0x1F78 || hi / 8 == 0x1F7A) && lo / 0x40 % 4 == 3 {
        dual_half_long32(bits)
    } else if hi / 0x10 == 0xFB0 && lo / 0x20 % 8 == 0 {
        mla32(bits)
    } else if (hi / 0x10 == 0xFBA || hi / 0x10 == 0xFB8 || hi / 0x10 == 0xFBC) && lo / 0x10 % 16
        == 0 {
        mull32(bits)
    } else if hi / 0x10 == 0xEAC {
        pkh32(bits)
    } else if hi / 0x10 == 0xFAB && lo / 0x1000 == 15 && lo / 0x10 % 16 == 8 {
        Instruction::Clz { rd: reg4(bits, 0x100), rm: reg4(bits, 1) }
    } else if hi / 0x10 == 0xFA9 && lo / 0x1000 == 15 && lo / 0x10 % 16 == 10 {
        Instruction::Rbit { rd: reg4(bits, 0x100), rm: reg4(bits, 1) }
    } else if hi / 0x80 == 0x1F4 && lo / 0x1000 == 15 && lo / 0x10 % 16 == 0 {
        shift_reg32(bits)
    } else {
        decoded32_rest(bits)
    }
}

/// The rows for memory accesses, data processing and floating point.
pub open spec fn decoded32_rest(bits: u32) -> Instruction {
    let hi = bits / 0x1_0000;
    let lo = bits % 0x1_0000;
    if hi / 0x800 == 31 {
        match load_store32(bits) {
            Some(instr) => instr,
            None => unmodelled32(bits),
        }
    } else if hi / 0x10 == 0xE9D || hi / 0x10 == 0xE9C {
        double32(bits)
    } else if hi / 0x200 == 0x74 {
        if hi / 0x40 % 2 == 0 {
            multiple32(bits)
        } else {
            exclusive32(bits)
        }
    } else if hi / 0x200 == 0x75 {
        data_proc_reg32(bits)
    } else if hi / 0x800 == 30 && hi / 0x200 % 2 == 0 && lo / 0x8000 == 0 {
        data_proc_imm32(bits)
    } else if hi / 0x100 == 0xEE {
        match fpu32(bits) {
            Some(instr) => instr,
            None => unmodelled32(bits),
        }
    } else if hi / 0x20 == 0x762 && lo / 0x100 % 16 == 11 && lo / 0x10 % 8 == 1 {
        vmov_core_d32(bits)
    } else if (hi / 0x100 == 0xEC || (hi / 0x100 == 0xED && hi / 0x20 % 2 == 1)) && lo / 0x200 % 8
        == 5 {
        vldm32(bits)
    } else if hi / 0x100 == 0xED && lo / 0x200 % 8 == 5 {
        vldr32(bits)
    } else {
        unmodelled32(bits)
    }
}

proof fn lemma_fields32(bits: u32)
    by (bit_vector)
    ensures
        bits >> 16 == bits / 0x1_0000,
        bits >> 20 == bits / 0x10_0000,
        (bits >> 26) & 1 == bits / 0x400_0000 % 2,
        (bits >> 23) & 1 == bits / 0x80_0000 % 2,
        (bits >> 22) & 1 == bits / 0x40_0000 % 2,
        (bits >> 21) & 3 == bits / 0x20_0000 % 4,
        (bits >> 21) & 0xF == bits / 0x20_0000 % 16,
        (bits >> 20) & 3 == bits / 0x10_0000 % 4,
        (bits >> 20) & 0xF == bits / 0x10_0000 % 16,
        (bits >> 16) & 0xF == bits / 0x1_0000 % 16,
        (bits >> 16) & 0x3FF == bits / 0x1_0000 % 0x400,
        (bits >> 14) & 1 == bits / 0x4000 % 2,
        (bits >> 13) & 1 == bits / 0x2000 % 2,
        (bits >> 12) & 7 == bits / 0x1000 % 8,
        (bits >> 12) & 0xF == bits / 0x1000 % 16,
        (bits >> 9) & 7 == bits / 0x200 % 8,
        (bits >> 8) & 0xF == bits / 0x100 % 16,
        (bits >> 7) & 1 == bits / 0x80 % 2,
        (bits >> 6) & 3 == bits / 0x40 % 4,
        (bits >> 5) & 1 == bits / 0x20 % 2,
        (bits >> 5) & 3 == bits / 0x20 % 4,
        (bits >> 4) & 3 == bits / 16 % 4,
        (bits >> 4) & 0xF == bits / 16 % 16,
        bits & 0xF == bits % 16,
        bits & 0x1F == bits % 32,
        bits & 0xFF == bits % 0x100,
        bits & 0x7FF == bits % 0x800,
        bits & 0xFFF == bits % 0x1000,
        bits & 0xFFFF == bits % 0x1_0000,
        (bits & 0x10 != 0) == (bits / 0x10 % 2 == 1),
        (bits & 0x20 != 0) == (bits / 0x20 % 2 == 1),
        (bits & 0x40 != 0) == (bits / 0x40 % 2 == 1),
        (bits & 0x100 != 0) == (bits / 0x100 % 2 == 1),
        (bits & 0x200 != 0) == (bits / 0x200 % 2 == 1),
        (bits & 0x400 != 0) == (bits / 0x400 % 2 == 1),
        (bits & 0x800 != 0) == (bits / 0x800 % 2 == 1),
        (bits & 0x8000 != 0) == (bits / 0x8000 % 2 == 1),
        (bits & 0x10_0000 != 0) == (bits / 0x10_0000 % 2 == 1),
        (bits & 0x20_0000 != 0) == (bits / 0x20_0000 % 2 == 1),
        (bits & 0x40_0000 != 0) == (bits / 0x40_0000 % 2 == 1),
        (bits & 0x80_0000 != 0) == (bits / 0x80_0000 % 2 == 1),
        (bits & 0x80_0000 != 0) == (bits / 0x10_0000 / 8 % 2 == 1),
        (bits & 0x100_0000 != 0) == (bits / 0x100_0000 % 2 == 1),
{
}

proof fn lemma_half(h: u32)
    by (bit_vector)
    requires
        h <= 0xFFFF,
    ensures
        (h & 0xFB70 == 0xF240) == (h / 0x800 == 30 && h / 0x100 % 4 == 2 && h / 0x10 % 8 == 4),
        (h & 0xFFD0 == 0xF300) == (h / 0x10 % 2 == 0 && h / 0x40 == 0x3CC),
        (h & 0xFFD0 == 0xF380) == (h / 0x10 % 2 == 0 && h / 0x40 == 0x3CE),
        (h & 0xFF0F == 0x8F0F) == (h / 0x100 == 0x8F && h % 0x10 == 0xF),
        (h & 0xFA00 == 0xF000) == (h / 0x800 == 30 && h / 0x200 % 2 == 0),
        (h & 0x8000 != 0) == (h / 0x8000 == 1),
        (h & 0x8000 == 0) == (h / 0x8000 == 0),
        (h & 0x40 == 0) == (h / 0x40 % 2 == 0),
        (h & 0x20 != 0) == (h / 0x20 % 2 == 1),
        h & 0xFF00 == h / 0x100 * 0x100,
        h & 0xF800 == h / 0x800 * 0x800,
        h & 0xFE00 == h / 0x200 * 0x200,
        h & 0xFF80 == h / 0x80 * 0x80,
        h & 0xFFE0 == h / 0x20 * 0x20,
        h & 0xFFF0 == h / 0x10 * 0x10,
        h & 0xFFF8 == h / 8 * 8,
        h & 0xF000 == h / 0x1000 * 0x1000,
        h & 0x0F00 == h / 0x100 % 16 * 0x100,
        h & 0x0E00 == h / 0x200 % 8 * 0x200,
        h & 0xF0 == h / 0x10 % 16 * 0x10,
        h & 0xE0 == h / 0x20 % 8 * 0x20,
        h & 0xC0 == h / 0x40 % 4 * 0x40,
        h & 0x70 == h / 0x10 % 8 * 0x10,
        (h >> 4) & 0xF == h / 0x10 % 16,
{
}

proof fn lemma_fields16(bits: u16)
    by (bit_vector)
    ensures
        bits >> 11 == bits / 0x800,
        (bits >> 11) & 1 == bits / 0x800 % 2,
        (bits >> 11) & 3 == bits / 0x800 % 4,
        (bits >> 10) & 1 == bits / 0x400 % 2,
        (bits >> 9) & 1 == bits / 0x200 % 2,
        (bits >> 9) & 7 == bits / 0x200 % 8,
        (bits >> 8) & 3 == bits / 0x100 % 4,
        (bits >> 8) & 7 == bits / 0x100 % 8,
        (bits >> 8) & 0xF == bits / 0x100 % 16,
        (bits >> 7) & 1 == bits / 0x80 % 2,
        (bits >> 6) & 3 == bits / 0x40 % 4,
        (bits >> 6) & 7 == bits / 0x40 % 8,
        (bits >> 6) & 0xF == bits / 0x40 % 16,
        (bits >> 6) & 0x1F == bits / 0x40 % 32,
        (bits >> 4) & 1 == bits / 0x10 % 2,
        (bits >> 4) & 0xF == bits / 0x10 % 16,
        (bits >> 3) & 7 == bits / 8 % 8,
        (bits >> 3) & 0xF == bits / 8 % 16,
        (bits >> 3) & 0x1F == bits / 8 % 32,
        bits & 7 == bits % 8,
        bits & 0xF == bits % 16,
        bits & 0x7F == bits % 0x80,
        bits & 0xFF == bits % 0x100,
        bits & 0x7FF == bits % 0x800,
        (bits & 0x2 != 0) == (bits / 2 % 2 == 1),
        (bits & 0x1 != 0) == (bits % 2 == 1),
        (bits & 0xFFE0 == 0xB660) == (bits / 0x20 == 0x5B3),
{
}

/// A branch target: PC + 4 plus an offset.
fn branch_target(pc: u32, offset: i32) -> (r: u32)
    ensures
        r == wrap32(pc + 4 + offset),
{
    low32(pc as i128 + 4 + offset as i128)
}

/// Instruction decoder.
#[derive(Debug)]
pub struct Decoder {
    /// Decoded instructions, modulo 2^64.
    pub decoded_count: u64,
}

impl Default for Decoder {
    fn default() -> (r: Self)
        ensures
            r.decoded_count == 0,
    {
        Decoder { decoded_count: 0 }
    }
}

impl Decoder {
    /// A decoder that has decoded nothing.
    pub fn new() -> (r: Self)
        ensures
            r.decoded_count == 0,
    {
        Decoder { decoded_count: 0 }
    }

    /// The fault of an undefined instruction at an address.
    pub fn invalid(&self, address: u32) -> (r: FaultReason)
        ensures
            r == (FaultReason::IllegalInstruction { pc: address }),
    {
        FaultReason::IllegalInstruction { pc: address }
    }

    /// Decodes a 16-bit encoding.
    pub fn decode_halfword(&mut self, bits: u16, pc: u32) -> (r: Instruction)
        ensures
            r == decoded16(bits, pc),
            r.wf(),
            final(self).decoded_count == old(self).decoded_count.wrapping_add(1),
    {
        self.decoded_count = self.decoded_count.wrapping_add(1);
        proof {
            reveal(decoded16);
            lemma_fields16(bits);
        }
        match bits >> 11 {
            0 | 1 | 2 => self.decode_shift_imm(bits),
            3 => self.decode_add_sub_imm(bits),
            4 | 5 | 6 | 7 => self.decode_imm8(bits),
            8 => self.decode_data_proc_high(bits),
            9 => self.decode_ldr_literal(bits),
            10 | 11 => self.decode_ldr_str_reg(bits),
            12 | 13 | 14 | 15 | 16 | 17 => self.decode_ldr_str_imm(bits),
            18 | 19 => self.decode_sp_relative(bits),
            20 | 21 => self.decode_add_pc_sp_imm(bits),
            22 => self.decode_b_misc(bits, pc),
            23 => self.decode_b_top(bits, pc),
            24 => self.decode_stmia(bits),
            25 => self.decode_ldmia(bits),
            26 | 27 => self.decode_branch_cond(bits, pc),
            28 => self.decode_branch_uncond(bits, pc),
            _ => Instruction::Unimplemented { bits: bits as u32 },
        }
    }

    fn decode_shift_imm(&self, bits: u16) -> (r: Instruction)
        ensures
            r == shift_imm16(bits),
            r.wf(),
    {
        proof {
            lemma_fields16(bits);
        }
        let rd: u8 = (bits & 7) as u8;
        let rm: u8 = ((bits >> 3) & 7) as u8;
        let imm5: u8 = ((bits >> 6) & 0x1F) as u8;
        let kind = match (bits >> 11) & 3 {
            0 => ShiftKind::Lsl,
            1 => ShiftKind::Lsr,
            2 => ShiftKind::Asr,
            _ => {
                return Instruction::Unimplemented { bits: bits as u32 };
            },
        };
        let amount: u8 = if imm5 == 0 && kind != ShiftKind::Lsl {
            32
        } else {
            imm5
        };
        Instruction::Shift { rd, rm, kind, amount: ShiftAmount::Immediate(amount), flags: true }
    }

    fn decode_add_sub_imm(&self, bits: u16) -> (r: Instruction)
        ensures
            r == add_sub16(bits),
            r.wf(),
    {
        proof {
            lemma_fields16(bits);
        }
        let rd: u8 = (bits & 7) as u8;
        let rn: u8 = ((bits >> 3) & 7) as u8;
        let field: u16 = (bits >> 6) & 7;
        let (rm, imm): (Option<u8>, Option<u32>) = if (bits >> 10) & 1 == 0 {
            (Some(field as u8), None)
        } else {
            (None, Some(field as u32))
        };
        if (bits >> 9) & 1 == 0 {
            Instruction::Add { rd, rn, rm, imm, flags: true }
        } else {
            Instruction::Sub { rd, rn, rm, imm, flags: true }
        }
    }

    fn decode_imm8(&self, bits: u16) -> (r: Instruction)
        ensures
            r == imm8_16(bits),
            r.wf(),
    {
        proof {
            lemma_fields16(bits);
        }
        let rd: u8 = ((bits >> 8) & 7) as u8;
        let imm: Option<u32> = Some((bits & 0xFF) as u32);
        match (bits >> 11) & 3 {
            0 => Instruction::Mov { rd, rm: 0, imm, flags: true },
            1 => Instruction::Cmp { rn: rd, rm: None, imm },
            2 => Instruction::Add { rd, rn: rd, rm: None, imm, flags: true },
            _ => Instruction::Sub { rd, rn: rd, rm: None, imm, flags: true },
        }
    }

    fn decode_data_proc_high(&self, bits: u16) -> (r: Instruction)
        ensures
            r == if bits / 0x400 % 2 == 0 {
                data_proc16(bits)
            } else {
                high_reg16(bits)
            },
            r.wf(),
    {
        proof {
            lemma_fields16(bits);
        }
        if (bits >> 10) & 1 == 0 {
            let rd: u8 = (bits & 7) as u8;
            let rm: u8 = ((bits >> 3) & 7) as u8;
            let amount = ShiftAmount::Register(rm);
            match (bits >> 6) & 0xF {
                0x0 => Instruction::And { rd, rn: rd, rm: Some(rm), imm: None, flags: true },
                0x1 => Instruction::Eor { rd, rn: rd, rm: Some(rm), imm: None, flags: true },
                0x2 => Instruction::Shift {
                    rd,
                    rm: rd,
                    kind: ShiftKind::Lsl,
                    amount,
                    flags: true,
                },
                0x3 => Instruction::Shift {
                    rd,
                    rm: rd,
                    kind: ShiftKind::Lsr,
                    amount,
                    flags: true,
                },
                0x4 => Instruction::Shift {
                    rd,
                    rm: rd,
                    kind: ShiftKind::Asr,
                    amount,
                    flags: true,
                },
                0x5 => Instruction::Adc { rd, rn: rd, rm, flags: true },
                0x6 => Instruction::Sbc { rd, rn: rd, rm, flags: true },
                0x7 => Instruction::Shift {
                    rd,
                    rm: rd,
                    kind: ShiftKind::Ror,
                    amount,
                    flags: true,
                },
                0x8 => Instruction::Tst { rn: rd, rm: Some(rm), imm: None },
                0x9 => Instruction::Neg { rd, rn: rm, flags: true },
                0xA => Instruction::Cmp { rn: rd, rm: Some(rm), imm: None },
                0xB => Instruction::Cmn { rn: rd, rm: Some(rm), imm: None },
                0xC => Instruction::Orr { rd, rn: rd, rm: Some(rm), imm: None, flags: true },
                0xD => Instruction::Mul { rd, rn: rd, rm, flags: false },
                0xE => Instruction::Bic { rd, rn: rd, rm: Some(rm), imm: None, flags: true },
                _ => Instruction::Mvn { rd, rm, imm: None, flags: true },
            }
        } else {
            let h1: u16 = (bits >> 7) & 1;
            let rd: u8 = (h1 * 8 + (bits & 7)) as u8;
            let rm: u8 = ((bits >> 3) & 0xF) as u8;
            match (bits >> 8) & 3 {
                0 => Instruction::Add { rd, rn: rd, rm: Some(rm), imm: None, flags: false },
                1 => Instruction::Cmp { rn: rd, rm: Some(rm), imm: None },
                2 => Instruction::Mov { rd, rm, imm: None, flags: false },
                _ => if h1 == 0 {
                    Instruction::BranchExchange { rm }
                } else {
                    Instruction::BranchLinkExchange { rm }
                },
            }
        }
    }

    fn decode_ldr_literal(&self, bits: u16) -> (r: Instruction)
        ensures
            r == (Instruction::LdrLiteral {
                rt: reg3(bits, 0x100),
                imm: (bits % 0x100 * 4) as u32,
            }),
            r.wf(),
    {
        proof {
            lemma_fields16(bits);
        }
        Instruction::LdrLiteral { rt: ((bits >> 8) & 7) as u8, imm: (bits & 0xFF) as u32 * 4 }
    }

    fn decode_ldr_str_reg(&self, bits: u16) -> (r: Instruction)
        ensures
            r == load_store_reg16(bits),
            r.wf(),
    {
        proof {
            lemma_fields16(bits);
        }
        let rt: u8 = (bits & 7) as u8;
        let rn: u8 = ((bits >> 3) & 7) as u8;
        let offset = LoadStoreOffset::Register(((bits >> 6) & 7) as u8);
        match (bits >> 9) & 7 {
            0 => Instruction::Str { rt, rn, offset, width: AccessWidth::Word },
            1 => Instruction::Str { rt, rn, offset, width: AccessWidth::HalfWord },
            2 => Instruction::Str { rt, rn, offset, width: AccessWidth::Byte },
            3 => Instruction::LdrSignExtend { rt, rn, offset, width: AccessWidth::Byte },
            4 => Instruction::Ldr { rt, rn, offset, width: AccessWidth::Word },
            5 => Instruction::Ldr { rt, rn, offset, width: AccessWidth::HalfWord },
            6 => Instruction::Ldr { rt, rn, offset, width: AccessWidth::Byte },
            _ => Instruction::Invalid { address: 0 },
        }
    }

    fn decode_ldr_str_imm(&self, bits: u16) -> (r: Instruction)
        requires
            12 <= bits / 0x800 <= 17,
        ensures
            r == load_store_imm16(bits),
            r.wf(),
    {
        proof {
            lemma_fields16(bits);
        }
        let rt: u8 = (bits & 7) as u8;
        let rn: u8 = ((bits >> 3) & 7) as u8;
        let imm5: u32 = ((bits >> 6) & 0x1F) as u32;
        let (load, width, scale): (bool, AccessWidth, u32) = match bits >> 11 {
            12 => (false, AccessWidth::Word, 4),
            13 => (true, AccessWidth::Word, 4),
            14 => (false, AccessWidth::Byte, 1),
            15 => (true, AccessWidth::Byte, 1),
            16 => (false, AccessWidth::HalfWord, 2),
            _ => (true, AccessWidth::HalfWord, 2),
        };
        proof {
            assert(imm5 * scale == imm5 || imm5 * scale == 2 * imm5 || imm5 * scale == 4 * imm5)
                by (nonlinear_arith)
                requires
                    scale == 1 || scale == 2 || scale == 4,
            ;
        }
        let offset = LoadStoreOffset::Immediate(imm5 * scale);
        if load {
            Instruction::Ldr { rt, rn, offset, width }
        } else {
            Instruction::Str { rt, rn, offset, width }
        }
    }

    fn decode_sp_relative(&self, bits: u16) -> (r: Instruction)
        ensures
            r == sp_relative16(bits),
            r.wf(),
    {
        proof {
            lemma_fields16(bits);
        }
        let rt: u8 = ((bits >> 8) & 7) as u8;
        let offset = LoadStoreOffset::Immediate((bits & 0xFF) as u32 * 4);
        if (bits >> 11) & 1 == 1 {
            Instruction::Ldr { rt, rn: 13, offset, width: AccessWidth::Word }
        } else {
            Instruction::Str { rt, rn: 13, offset, width: AccessWidth::Word }
        }
    }

    fn decode_add_pc_sp_imm(&self, bits: u16) -> (r: Instruction)
        ensures
            r == add_pc_sp16(bits),
            r.wf(),
    {
        proof {
            lemma_fields16(bits);
        }
        let rn: u8 = if (bits >> 11) & 1 == 0 {
            15
        } else {
            13
        };
        Instruction::Add {
            rd: ((bits >> 8) & 7) as u8,
            rn,
            rm: None,
            imm: Some((bits & 0xFF) as u32 * 4),
            flags: false,
        }
    }

    fn decode_b_misc(&self, bits: u16, pc: u32) -> (r: Instruction)
        ensures
            r == misc16(bits, pc),
            r.wf(),
    {
        proof {
            lemma_fields16(bits);
        }
        match (bits >> 8) & 7 {
            0 => {
                let imm: Option<u32> = Some((bits & 0x7F) as u32 * 4);
                if (bits >> 7) & 1 == 0 {
                    Instruction::Add { rd: 13, rn: 13, rm: None, imm, flags: false }
                } else {
                    Instruction::Sub { rd: 13, rn: 13, rm: None, imm, flags: false }
                }
            },
            1 => Instruction::CompareBranch {
                rn: (bits & 7) as u8,
                target: branch_target(pc, ((bits >> 3) & 0x1F) as i32 * 2),
                zero: true,
            },
            2 => Instruction::Extend {
                rd: (bits & 7) as u8,
                rm: ((bits >> 3) & 7) as u8,
                kind: match (bits >> 6) & 3 {
                    0 => ExtendKind::Sxth,
                    1 => ExtendKind::Sxtb,
                    2 => ExtendKind::Uxth,
                    _ => ExtendKind::Uxtb,
                },
            },
            4 => Instruction::Push { regs: bits & 0xFF, lr: false },
            5 => Instruction::Push { regs: bits & 0xFF, lr: true },
            6 => if bits & 0xFFE0 == 0xB660 {
                Instruction::Cps {
                    disable: (bits >> 4) & 1 == 1,
                    i: bits & 0x2 != 0,
                    f: bits & 0x1 != 0,
                }
            } else {
                Instruction::Unimplemented { bits: bits as u32 }
            },
            _ => Instruction::Unimplemented { bits: bits as u32 },
        }
    }

    fn decode_b_top(&self, bits: u16, pc: u32) -> (r: Instruction)
        ensures
            r == misc_top16(bits, pc),
            r.wf(),
    {
        proof {
            lemma_fields16(bits);
        }
        match (bits >> 8) & 7 {
            1 => Instruction::CompareBranch {
                rn: (bits & 7) as u8,
                target: branch_target(pc, ((bits >> 3) & 0x1F) as i32 * 2),
                zero: false,
            },
            2 => {
                let rd: u8 = (bits & 7) as u8;
                let rm: u8 = ((bits >> 3) & 7) as u8;
                match (bits >> 6) & 3 {
                    0 => Instruction::Rev { rd, rm, kind: RevKind::Rev },
                    1 => Instruction::Rev { rd, rm, kind: RevKind::Rev16 },
                    3 => Instruction::Rev { rd, rm, kind: RevKind::RevSh },
                    _ => Instruction::Unimplemented { bits: bits as u32 },
                }
            },
            4 => Instruction::Pop { regs: bits & 0xFF, pc: false },
            5 => Instruction::Pop { regs: bits & 0xFF, pc: true },
            6 => Instruction::Breakpoint { imm8: (bits & 0xFF) as u8 },
            7 => {
                let mask: u8 = (bits & 0xF) as u8;
                if mask == 0 {
                    Instruction::Nop
                } else {
                    match Cond::from_bits(((bits >> 4) & 0xF) as u8) {
                        Some(cond) => if cond == Cond::Al {
                            Instruction::Invalid { address: pc }
                        } else {
                            Instruction::It { cond, mask }
                        },
                        None => Instruction::Invalid { address: pc },
                    }
                }
            },
            _ => Instruction::Unimplemented { bits: bits as u32 },
        }
    }

    fn decode_stmia(&self, bits: u16) -> (r: Instruction)
        ensures
            r == (Instruction::Stm {
                rn: reg3(bits, 0x100),
                regs: (bits % 0x100) as u16,
                writeback: true,
                descending: false,
            }),
            r.wf(),
    {
        proof {
            lemma_fields16(bits);
        }
        Instruction::Stm {
            rn: ((bits >> 8) & 7) as u8,
            regs: bits & 0xFF,
            writeback: true,
            descending: false,
        }
    }

    fn decode_ldmia(&self, bits: u16) -> (r: Instruction)
        ensures
            r == (Instruction::Ldm {
                rn: reg3(bits, 0x100),
                regs: (bits % 0x100) as u16,
                writeback: true,
                descending: false,
            }),
            r.wf(),
    {
        proof {
            lemma_fields16(bits);
        }
        Instruction::Ldm {
            rn: ((bits >> 8) & 7) as u8,
            regs: bits & 0xFF,
            writeback: true,
            descending: false,
        }
    }

    fn decode_branch_cond(&self, bits: u16, pc: u32) -> (r: Instruction)
        ensures
            r == branch_cond16(bits, pc),
            r.wf(),
    {
        proof {
            lemma_fields16(bits);
        }
        let imm8: i32 = (bits & 0xFF) as i32;
        let offset: i32 = if imm8 < 0x80 {
            imm8
        } else {
            imm8 - 0x100
        };
        match Cond::from_bits(((bits >> 8) & 0xF) as u8) {
            Some(cond) => Instruction::Branch {
                cond: Some(cond),
                target: branch_target(pc, offset * 2),
            },
            None => Instruction::Svc { imm8: (bits & 0xFF) as u8 },
        }
    }

    fn decode_branch_uncond(&self, bits: u16, pc: u32) -> (r: Instruction)
        ensures
            r == (Instruction::Branch {
                cond: None,
                target: wrap32(pc + 4 + 2 * signed11(bits as int)),
            }),
            r.wf(),
    {
        proof {
            lemma_fields16(bits);
        }
        let imm11: i32 = (bits & 0x7FF) as i32;
        let offset: i32 = if imm11 < 0x400 {
            imm11
        } else {
            imm11 - 0x800
        };
        Instruction::Branch { cond: None, target: branch_target(pc, offset * 2) }
    }

    /// Decodes a 32-bit encoding; the first halfword is the upper half of `bits`.
    pub fn decode_word(&mut self, bits: u32, pc: u32) -> (r: Instruction)
        ensures
            r == decoded32(bits, pc),
            r.wf(),
            final(self).decoded_count == old(self).decoded_count.wrapping_add(1),
    {
        self.decoded_count = self.decoded_count.wrapping_add(1);
        let top: u32 = bits >> 16;
        let low: u32 = bits & 0xFFFF;
        proof {
            reveal(decoded32);
            lemma_fields32(bits);
            lemma_half(top);
            lemma_half(low);
        }
        if top & 0xFB70 == 0xF240 {
            return self.decode_mov_imm(bits);
        }
        if top & 0xFF00 == 0xDF00 {
            return Instruction::Svc { imm8: (bits & 0xFF) as u8 };
        }
        if top & 0xF800 == 0xF000 && low & 0xF800 == 0xF800 {
            return self.decode_bl(bits, pc);
        }
        if top & 0xF800 == 0xF000 && low & 0xF800 == 0xE800 {
            return Instruction::Unimplemented { bits };
        }
        if top == 0xF3EF && low & 0x8000 != 0 {
            return self.decode_mrs(bits);
        }
        if top & 0xFFF0 == 0xF380 && low & 0x8000 != 0 {
            return self.decode_msr(bits);
        }
        if top == 0xF3AF && low & 0xFF00 == 0x8000 {
            return Instruction::Nop;
        }
        if top & 0xFFD0 == 0xF300 || (top & 0xFFD0 == 0xF380 && low & 0x8000 == 0) {
            return self.decode_sat(bits);
        }
        if top == 0xF3BF && low & 0xFF0F == 0x8F0F {
            let kind = match (low >> 4) & 0xF {
                5 => BarrierKind::Dmb,
                6 => BarrierKind::Isb,
                _ => BarrierKind::Dsb,
            };
            return Instruction::Barrier { kind };
        }
        if top & 0xFFF0 == 0xF3C0 || top & 0xFFF0 == 0xF340 || top & 0xFFF0 == 0xF360 {
            return self.decode_bitfield(bits);
        }
        let family: u32 = top & 0xFFF8;
        if family == 0xFA80 && low & 0xF000 == 0xF000 && low & 0xC0 == 0x80 {
            return self.decode_qaddsub(bits);
        }
        if (family == 0xFA90 || family == 0xFAA0 || family == 0xFAD0 || family == 0xFAE0) && low
            & 0xF000 == 0xF000 && (low & 0xF0 == 0 || low & 0xF0 == 0x40) {
            return self.decode_simd16(bits);
        }
        if (family == 0xFA80 || family == 0xFAC0) && low & 0xF000 == 0xF000 && low & 0xC0
            != 0x80 {
            return self.decode_simd8(bits);
        }
        if (family == 0xFB20 || family == 0xFB40) && low & 0xE0 == 0 {
            return self.decode_dual_half_mul(bits);
        }
        if (family == 0xFBC0 || family == 0xFBD0) && low & 0xC0 == 0xC0 {
            return self.decode_dual_half_mul_long(bits);
        }
        if top & 0xFFF0 == 0xFB00 && low & 0xE0 == 0 {
            return self.decode_mla(bits);
        }
        if (top & 0xFFF0 == 0xFBA0 || top & 0xFFF0 == 0xFB80 || top & 0xFFF0 == 0xFBC0) && low
            & 0xF0 == 0 {
            return self.decode_mull(bits);
        }
        if top & 0xFFF0 == 0xEAC0 {
            return self.decode_pkh(bits);
        }
        if top & 0xFFF0 == 0xFAB0 && low & 0xF000 == 0xF000 && low & 0xF0 == 0x80 {
            return Instruction::Clz { rd: ((bits >> 8) & 0xF) as u8, rm: (bits & 0xF) as u8 };
        }
        if top & 0xFFF0 == 0xFA90 && low & 0xF000 == 0xF000 && low & 0xF0 == 0xA0 {
            return Instruction::Rbit { rd: ((bits >> 8) & 0xF) as u8, rm: (bits & 0xF) as u8 };
        }
        if top & 0xFF80 == 0xFA00 && low & 0xF000 == 0xF000 && low & 0xF0 == 0 {
            return self.decode_shift_reg(bits);
        }
        self.decode_word_rest(bits)
    }

    fn decode_word_rest(&self, bits: u32) -> (r: Instruction)
        ensures
            r == decoded32_rest(bits),
            r.wf(),
    {
        let top: u32 = bits >> 16;
        let low: u32 = bits & 0xFFFF;
        proof {
            lemma_fields32(bits);
            lemma_half(top);
            lemma_half(low);
        }
        if top & 0xF800 == 0xF800 {
            return match self.try_decode_ldr_str_32(bits) {
                Some(instr) => instr,
                None => Instruction::Unimplemented { bits },
            };
        }
        if top & 0xFFF0 == 0xE9D0 || top & 0xFFF0 == 0xE9C0 {
            return self.decode_ldrd_strd(bits);
        }
        if top & 0xFE00 == 0xE800 {
            return if top & 0x40 == 0 {
                self.decode_ldm_stm(bits)
            } else {
                self.decode_ldrex_strex(bits)
            };
        }
        if top & 0xFE00 == 0xEA00 {
            return self.decode_data_proc_reg(bits);
        }
        if top & 0xFA00 == 0xF000 && low & 0x8000 == 0 {
            return self.decode_data_proc_imm(bits);
        }
        if top & 0xFF00 == 0xEE00 {
            return match self.try_decode_fpu(bits) {
                Some(instr) => instr,
                None => Instruction::Unimplemented { bits },
            };
        }
        if top & 0xFFE0 == 0xEC40 && low & 0x0F00 == 0x0B00 && low & 0x70 == 0x10 {
            return self.decode_vmov_core_d(bits);
        }
        if (top & 0xFF00 == 0xEC00 || (top & 0xFF00 == 0xED00 && top & 0x20 != 0)) && low & 0x0E00
            == 0x0A00 {
            return self.decode_vldm_vstm(bits);
        }
        if top & 0xFF00 == 0xED00 && low & 0x0E00 == 0x0A00 {
            return self.decode_fpu_loadstore(bits);
        }
        Instruction::Unimplemented { bits }
    }

    fn decode_mov_imm(&self, bits: u32) -> (r: Instruction)
        ensures
            r == mov_imm32(bits),
            r.wf(),
    {
        proof {
            lemma_fields32(bits);
        }
        let imm4: u32 = (bits >> 16) & 0xF;
        let i: u32 = (bits >> 26) & 1;
        let imm3: u32 = (bits >> 12) & 7;
        Instruction::MovImm32 {
            rd: ((bits >> 8) & 0xF) as u8,
            imm16: (imm4 * 0x1000 + i * 0x800 + imm3 * 0x100 + (bits & 0xFF)) as u16,
            top: bits & 0x80_0000 != 0,
        }
    }

    fn decode_bl(&self, bits: u32, pc: u32) -> (r: Instruction)
        ensures
            r == (Instruction::BranchLink { target: wrap32(pc + 4 + bl_offset(bits)) }),
            r.wf(),
    {
        proof {
            lemma_fields32(bits);
        }
        let s: i32 = ((bits >> 26) & 1) as i32;
        let imm10: i32 = ((bits >> 16) & 0x3FF) as i32;
        let j1: i32 = ((bits >> 14) & 1) as i32;
        let j2: i32 = ((bits >> 13) & 1) as i32;
        let imm11: i32 = (bits & 0x7FF) as i32;
        let i1: i32 = if j1 == s {
            1
        } else {
            0
        };
        let i2: i32 = if j2 == s {
            1
        } else {
            0
        };
        let offset: i32 = imm10 * 0x4000 + i1 * 0x2000 + i2 * 0x1000 + imm11 * 2 - s * 0x100_0000;
        Instruction::BranchLink { target: branch_target(pc, offset) }
    }

    fn decode_mrs(&self, bits: u32) -> (r: Instruction)
        ensures
            r == mrs32(bits),
            r.wf(),
    {
        proof {
            lemma_fields32(bits);
        }
        let reg = match bits & 0xFF {
            0x00 => SpecialReg::Apsr,
            0x01 => SpecialReg::Iapsr,
            0x02 => SpecialReg::Eapsr,
            0x05 => SpecialReg::Ipsr,
            0x06 => SpecialReg::Epsr,
            0x08 => SpecialReg::Msp,
            0x09 => SpecialReg::Psp,
            0x10 => SpecialReg::Primask,
            0x11 => SpecialReg::Basepri,
            0x13 => SpecialReg::Faultmask,
            0x14 => SpecialReg::Control,
            _ => {
                return Instruction::Unimplemented { bits };
            },
        };
        Instruction::MsrMrs { rt: ((bits >> 8) & 0xF) as u8, reg, read: true }
    }

    fn decode_msr(&self, bits: u32) -> (r: Instruction)
        ensures
            r == msr32(bits),
            r.wf(),
    {
        proof {
            lemma_fields32(bits);
        }
        let reg = match bits & 0xFF {
            0x00 => if bits & 0x400 != 0 {
                SpecialReg::ApsrGe
            } else {
                SpecialReg::Apsr
            },
            0x08 => SpecialReg::Msp,
            0x09 => SpecialReg::Psp,
            0x10 => SpecialReg::Primask,
            0x11 => SpecialReg::Basepri,
            0x12 => SpecialReg::BasepriMax,
            0x13 => SpecialReg::Faultmask,
            0x14 => SpecialReg::Control,
            _ => {
                return Instruction::Unimplemented { bits };
            },
        };
        Instruction::MsrMrs { rt: ((bits >> 16) & 0xF) as u8, reg, read: false }
    }

    fn decode_sat(&self, bits: u32) -> (r: Instruction)
        ensures
            r == sat32(bits),
            r.wf(),
    {
        proof {
            lemma_fields32(bits);
        }
        let signed: bool = bits & 0x80_0000 == 0;
        let imm5: u32 = ((bits >> 12) & 7) * 4 + ((bits >> 6) & 3);
        let sat_imm: u8 = if signed {
            (bits & 0x1F) as u8 + 1
        } else {
            (bits & 0x1F) as u8
        };
        let shift_kind = if bits & 0x20_0000 != 0 {
            DspShiftKind::Asr
        } else {
            DspShiftKind::Lsl
        };
        Instruction::Sat {
            rd: ((bits >> 8) & 0xF) as u8,
            rn: ((bits >> 16) & 0xF) as u8,
            sat_imm,
            signed,
            shift_kind,
            shift_imm: imm5 as u8,
        }
    }

    fn decode_bitfield(&self, bits: u32) -> (r: Instruction)
        ensures
            r == bitfield32(bits),
            r.wf(),
    {
        proof {
            lemma_fields32(bits);
        }
        let rd: u8 = ((bits >> 8) & 0xF) as u8;
        let rn: u8 = ((bits >> 16) & 0xF) as u8;
        let lsb: u8 = (((bits >> 12) & 7) * 4 + ((bits >> 6) & 3)) as u8;
        let last: u8 = (bits & 0x1F) as u8;
        match bits >> 20 {
            0xF3C => Instruction::BitField {
                rd,
                rn,
                lsb,
                width: last + 1,
                kind: BitFieldKind::Ubfx,
            },
            0xF34 => Instruction::BitField {
                rd,
                rn,
                lsb,
                width: last + 1,
                kind: BitFieldKind::Sbfx,
            },
            _ => {
                if last < lsb {
                    return Instruction::Unimplemented { bits };
                }
                let kind = if rn == 0xF {
                    BitFieldKind::Bfc
                } else {
                    BitFieldKind::Bfi
                };
                Instruction::BitField { rd, rn, lsb, width: last - lsb + 1, kind }
            },
        }
    }

    fn decode_qaddsub(&self, bits: u32) -> (r: Instruction)
        ensures
            r == qaddsub32(bits),
            r.wf(),
    {
        proof {
            lemma_fields32(bits);
        }
        let kind = match (bits >> 4) & 3 {
            0 => QAddKind::Qadd,
            1 => QAddKind::Qdadd,
            2 => QAddKind::Qsub,
            _ => QAddKind::Qdsub,
        };
        Instruction::QAddSub {
            rd: ((bits >> 8) & 0xF) as u8,
            rn: ((bits >> 16) & 0xF) as u8,
            rm: (bits & 0xF) as u8,
            kind,
        }
    }

    fn decode_simd16(&self, bits: u32) -> (r: Instruction)
        ensures
            r == simd16_32(bits),
            r.wf(),
    {
        proof {
            lemma_fields32(bits);
        }
        let kind = match (bits >> 20) & 0xF {
            0x9 => Simd16Kind::Add16,
            0xA => Simd16Kind::Asx,
            0xE => Simd16Kind::Sax,
            _ => Simd16Kind::Sub16,
        };
        Instruction::Simd16 {
            rd: ((bits >> 8) & 0xF) as u8,
            rn: ((bits >> 16) & 0xF) as u8,
            rm: (bits & 0xF) as u8,
            kind,
            unsigned: bits & 0x40 != 0,
        }
    }

    fn decode_simd8(&self, bits: u32) -> (r: Instruction)
        ensures
            r == simd8_32(bits),
            r.wf(),
    {
        proof {
            lemma_fields32(bits);
        }
        Instruction::Simd8 {
            rd: ((bits >> 8) & 0xF) as u8,
            rn: ((bits >> 16) & 0xF) as u8,
            rm: (bits & 0xF) as u8,
            unsigned: bits & 0x40 != 0,
            halving: bits & 0x20 != 0,
            sub: bits & 0x40_0000 != 0,
        }
    }

    fn decode_dual_half_mul(&self, bits: u32) -> (r: Instruction)
        ensures
            r == dual_half32(bits),
            r.wf(),
    {
        proof {
            lemma_fields32(bits);
        }
        let rd: u8 = ((bits >> 8) & 0xF) as u8;
        let rn: u8 = ((bits >> 16) & 0xF) as u8;
        let rm: u8 = (bits & 0xF) as u8;
        let ra: u8 = ((bits >> 12) & 0xF) as u8;
        let swap: bool = bits & 0x10 != 0;
        let sub: bool = bits & 0x40_0000 != 0;
        if ra == 0xF {
            Instruction::DualHalfMul { rd, rn, rm, swap, sub }
        } else {
            Instruction::DualHalfMulAcc { rd, rn, rm, ra, swap, sub }
        }
    }

    fn decode_dual_half_mul_long(&self, bits: u32) -> (r: Instruction)
        ensures
            r == dual_half_long32(bits),
            r.wf(),
    {
        proof {
            lemma_fields32(bits);
        }
        Instruction::DualHalfMulLong {
            rdlo: ((bits >> 12) & 0xF) as u8,
            rdhi: ((bits >> 8) & 0xF) as u8,
            rn: ((bits >> 16) & 0xF) as u8,
            rm: (bits & 0xF) as u8,
            swap: bits & 0x10 != 0,
            sub: bits & 0x10_0000 != 0,
        }
    }

    fn decode_mla(&self, bits: u32) -> (r: Instruction)
        ensures
            r == mla32(bits),
            r.wf(),
    {
        proof {
            lemma_fields32(bits);
        }
        Instruction::Mla {
            rd: ((bits >> 8) & 0xF) as u8,
            rn: ((bits >> 16) & 0xF) as u8,
            rm: (bits & 0xF) as u8,
            ra: ((bits >> 12) & 0xF) as u8,
            sub: bits & 0x10 != 0,
        }
    }

    fn decode_mull(&self, bits: u32) -> (r: Instruction)
        ensures
            r == mull32(bits),
            r.wf(),
    {
        proof {
            lemma_fields32(bits);
        }
        Instruction::MullLong {
            rdlo: ((bits >> 12) & 0xF) as u8,
            rdhi: ((bits >> 8) & 0xF) as u8,
            rn: ((bits >> 16) & 0xF) as u8,
            rm: (bits & 0xF) as u8,
            signed: bits >> 20 != 0xFBA,
            accumulate: bits >> 20 == 0xFBC,
        }
    }

    fn decode_pkh(&self, bits: u32) -> (r: Instruction)
        ensures
            r == pkh32(bits),
            r.wf(),
    {
        proof {
            lemma_fields32(bits);
        }
        Instruction::Pkh {
            rd: ((bits >> 8) & 0xF) as u8,
            rn: ((bits >> 16) & 0xF) as u8,
            rm: (bits & 0xF) as u8,
            tb: bits & 0x20 != 0,
            shift_imm: (((bits >> 12) & 7) * 4 + ((bits >> 6) & 3)) as u8,
        }
    }

    fn decode_shift_reg(&self, bits: u32) -> (r: Instruction)
        ensures
            r == shift_reg32(bits),
            r.wf(),
    {
        proof {
            lemma_fields32(bits);
        }
        let kind = match (bits >> 21) & 3 {
            0 => ShiftKind::Lsl,
            1 => ShiftKind::Lsr,
            2 => ShiftKind::Asr,
            _ => ShiftKind::Ror,
        };
        Instruction::Shift {
            rd: ((bits >> 8) & 0xF) as u8,
            rm: ((bits >> 16) & 0xF) as u8,
            kind,
            amount: ShiftAmount::Register((bits & 0xF) as u8),
            flags: bits & 0x10_0000 != 0,
        }
    }

    fn make_access(
        &self,
        load: bool,
        sign: bool,
        rt: u8,
        rn: u8,
        offset: LoadStoreOffset,
        width: AccessWidth,
    ) -> (r: Instruction)
        requires
            rt < 16,
            rn < 16,
            offset.wf(),
        ensures
            r == access32(load, sign, rt, rn, offset, width),
            r.wf(),
    {
        if !load {
            Instruction::Str { rt, rn, offset, width }
        } else if sign {
            Instruction::LdrSignExtend { rt, rn, offset, width }
        } else {
            Instruction::Ldr { rt, rn, offset, width }
        }
    }

    fn kind_of_access(&self, op: u32) -> (r: Option<(bool, bool, AccessWidth)>)
        ensures
            r == access_kind(op),
    {
        match op {
            0xF80 => Some((false, false, AccessWidth::Byte)),
            0xF81 => Some((true, false, AccessWidth::Byte)),
            0xF82 => Some((false, false, AccessWidth::HalfWord)),
            0xF83 => Some((true, false, AccessWidth::HalfWord)),
            0xF84 => Some((false, false, AccessWidth::Word)),
            0xF85 => Some((true, false, AccessWidth::Word)),
            0xF91 => Some((true, true, AccessWidth::Byte)),
            0xF93 => Some((true, true, AccessWidth::HalfWord)),
            _ => None,
        }
    }

    fn try_decode_ldr_str_32(&self, bits: u32) -> (r: Option<Instruction>)
        ensures
            r == load_store32(bits),
            r matches Some(i) ==> i.wf(),
    {
        proof {
            lemma_fields32(bits);
        }
        let op: u32 = bits >> 20;
        let rt: u8 = ((bits >> 12) & 0xF) as u8;
        let rn: u8 = ((bits >> 16) & 0xF) as u8;
        if bits & 0x80_0000 != 0 {
            return match self.kind_of_access(op - 8) {
                Some((load, sign, width)) => if load && !sign && width == AccessWidth::Word && rn
                    == 0xF {
                    Some(Instruction::LdrLiteral { rt, imm: bits & 0xFFF })
                } else {
                    Some(
                        self.make_access(
                            load,
                            sign,
                            rt,
                            rn,
                            LoadStoreOffset::Immediate(bits & 0xFFF),
                            width,
                        ),
                    )
                },
                None => None,
            };
        }
        match self.kind_of_access(op) {
            Some((load, sign, width)) => if bits & 0x800 != 0 {
                let p: bool = bits & 0x400 != 0;
                let u: bool = bits & 0x200 != 0;
                let w: bool = bits & 0x100 != 0;
                let imm: u32 = if u {
                    bits & 0xFF
                } else {
                    0u32.wrapping_sub(bits & 0xFF)
                };
                if p && !u && !w {
                    Some(
                        self.make_access(load, sign, rt, rn, LoadStoreOffset::Immediate(imm), width),
                    )
                } else if w {
                    Some(
                        Instruction::LdrStrWb { rt, rn, imm, width, load, sign_extend: sign, pre: p },
                    )
                } else {
                    None
                }
            } else if width == AccessWidth::Word {
                let rm: u8 = (bits & 0xF) as u8;
                let lsl: u8 = ((bits >> 4) & 3) as u8;
                let offset = if lsl == 0 {
                    LoadStoreOffset::Register(rm)
                } else {
                    LoadStoreOffset::RegisterShifted { rm, lsl }
                };
                Some(self.make_access(load, sign, rt, rn, offset, width))
            } else {
                None
            },
            None => None,
        }
    }

    fn decode_ldrd_strd(&self, bits: u32) -> (r: Instruction)
        ensures
            r == double32(bits),
            r.wf(),
    {
        proof {
            lemma_fields32(bits);
        }
        let rn: u8 = ((bits >> 16) & 0xF) as u8;
        let rt: u8 = ((bits >> 12) & 0xF) as u8;
        let rt2: u8 = ((bits >> 8) & 0xF) as u8;
        let imm: u32 = (bits & 0xFF) * 4;
        if bits >> 20 == 0xE9D {
            Instruction::LdrD { rt, rt2, rn, imm }
        } else {
            Instruction::StrD { rt, rt2, rn, imm }
        }
    }

    fn decode_ldm_stm(&self, bits: u32) -> (r: Instruction)
        ensures
            r == multiple32(bits),
            r.wf(),
    {
        proof {
            lemma_fields32(bits);
        }
        let p: bool = bits & 0x100_0000 != 0;
        let u: bool = bits & 0x80_0000 != 0;
        let rn: u8 = ((bits >> 16) & 0xF) as u8;
        let regs: u16 = (bits & 0xFFFF) as u16;
        let writeback: bool = bits & 0x20_0000 != 0;
        if p == u {
            Instruction::Unimplemented { bits }
        } else if bits & 0x10_0000 != 0 {
            Instruction::Ldm { rn, regs, writeback, descending: p }
        } else {
            Instruction::Stm { rn, regs, writeback, descending: p }
        }
    }

    fn decode_ldrex_strex(&self, bits: u32) -> (r: Instruction)
        ensures
            r == exclusive32(bits),
            r.wf(),
    {
        proof {
            lemma_fields32(bits);
        }
        let op: u32 = bits >> 20;
        let rn: u8 = ((bits >> 16) & 0xF) as u8;
        let rt: u8 = ((bits >> 12) & 0xF) as u8;
        let imm: u32 = (bits & 0xFF) * 4;
        let low: u32 = bits & 0xFFF;
        if op == 0xE85 {
            Instruction::Ldrex { rt, rn, imm, width: AccessWidth::Word }
        } else if op == 0xE84 {
            Instruction::Strex {
                rd: ((bits >> 8) & 0xF) as u8,
                rt,
                rn,
                imm,
                width: AccessWidth::Word,
            }
        } else if op == 0xE8D && low == 0xF4F {
            Instruction::Ldrex { rt, rn, imm: 0, width: AccessWidth::Byte }
        } else if op == 0xE8D && low == 0xF5F {
            Instruction::Ldrex { rt, rn, imm: 0, width: AccessWidth::HalfWord }
        } else if op == 0xE8C && low / 16 == 0xF4 {
            Instruction::Strex { rd: (bits & 0xF) as u8, rt, rn, imm: 0, width: AccessWidth::Byte }
        } else if op == 0xE8C && low / 16 == 0xF5 {
            Instruction::Strex {
                rd: (bits & 0xF) as u8,
                rt,
                rn,
                imm: 0,
                width: AccessWidth::HalfWord,
            }
        } else {
            Instruction::Unimplemented { bits }
        }
    }

    fn decode_data_proc_reg(&self, bits: u32) -> (r: Instruction)
        ensures
            r == data_proc_reg32(bits),
            r.wf(),
    {
        proof {
            lemma_fields32(bits);
        }
        let op: u32 = (bits >> 21) & 0xF;
        let flags: bool = bits & 0x10_0000 != 0;
        let rn: u8 = ((bits >> 16) & 0xF) as u8;
        let rd: u8 = ((bits >> 8) & 0xF) as u8;
        let rm: u8 = (bits & 0xF) as u8;
        let lsl: u8 = (((bits >> 12) & 7) * 4 + ((bits >> 6) & 3)) as u8;
        if bits & 0x8000 != 0 || rd == 0xF || (bits >> 4) & 3 != 0 {
            return Instruction::Unimplemented { bits };
        }
        match op {
            0x8 => Instruction::AddShifted { rd, rn, rm, lsl, flags },
            0xD => Instruction::SubShifted { rd, rn, rm, lsl, flags },
            _ if lsl != 0 => Instruction::Unimplemented { bits },
            0x3 if rn == 0xF => Instruction::Mvn { rd, rm, imm: None, flags },
            0xA => Instruction::Adc { rd, rn, rm, flags },
            0xB => Instruction::Sbc { rd, rn, rm, flags },
            0xE => Instruction::Rsb { rd, rn, rm: Some(rm), imm: None, flags },
            _ => Instruction::Unimplemented { bits },
        }
    }

    fn decode_data_proc_imm(&self, bits: u32) -> (r: Instruction)
        ensures
            r == data_proc_imm32(bits),
            r.wf(),
    {
        proof {
            lemma_fields32(bits);
        }
        let op: u32 = (bits >> 21) & 0xF;
        let flags: bool = bits & 0x10_0000 != 0;
        let rn: u8 = ((bits >> 16) & 0xF) as u8;
        let rd: u8 = ((bits >> 8) & 0xF) as u8;
        let imm12: u32 = ((bits >> 26) & 1) * 0x800 + ((bits >> 12) & 7) * 0x100 + (bits & 0xFF);
        let imm: Option<u32> = Some(Self::thumb_expand_imm(imm12));
        match op {
            0x0 if rd == 0xF => Instruction::Tst { rn, rm: None, imm },
            0x0 => Instruction::And { rd, rn, rm: None, imm, flags },
            0x1 => Instruction::Bic { rd, rn, rm: None, imm, flags },
            0x2 if rn == 0xF && rd == 0xF && flags => Instruction::Unimplemented { bits },
            0x2 if rn == 0xF => Instruction::Mov { rd, rm: 0, imm, flags },
            0x2 => Instruction::Orr { rd, rn, rm: None, imm, flags },
            0x4 if rd == 0xF => Instruction::Teq { rn, rm: None, imm },
            0x4 => Instruction::Eor { rd, rn, rm: None, imm, flags },
            0x8 if rd == 0xF => Instruction::Cmn { rn, rm: None, imm },
            0x8 => Instruction::Add { rd, rn, rm: None, imm, flags },
            0xD if rd == 0xF => Instruction::Cmp { rn, rm: None, imm },
            0xD => Instruction::Sub { rd, rn, rm: None, imm, flags },
            0xE if rd != 0xF => Instruction::Rsb { rd, rn, rm: None, imm, flags },
            _ => Instruction::Unimplemented { bits },
        }
    }

    /// Expands a modified immediate, i:imm3:imm8.
    pub fn thumb_expand_imm(imm12: u32) -> (r: u32)
        ensures
            r == expanded_imm(imm12),
    {
        let byte: u32 = imm12 % 0x100;
        match imm12 / 0x100 % 16 {
            0 => byte,
            1 => byte * 0x0001_0001,
            2 => byte * 0x0100_0100,
            3 => byte * 0x0101_0101,
            _ => rotate(byte % 0x80 + 0x80, imm12 / 0x80 % 32),
        }
    }

    fn vd(&self, bits: u32, double: bool) -> (r: u8)
        ensures
            r == vd_of(bits, double),
    {
        proof {
            lemma_fields32(bits);
        }
        if double {
            ((bits >> 12) & 0xF) as u8
        } else {
            (((bits >> 12) & 0xF) * 2 + ((bits >> 22) & 1)) as u8
        }
    }

    fn vn(&self, bits: u32, double: bool) -> (r: u8)
        ensures
            r == vn_of(bits, double),
    {
        proof {
            lemma_fields32(bits);
        }
        if double {
            ((bits >> 16) & 0xF) as u8
        } else {
            (((bits >> 16) & 0xF) * 2 + ((bits >> 7) & 1)) as u8
        }
    }

    fn vm(&self, bits: u32, double: bool) -> (r: u8)
        ensures
            r == vm_of(bits, double),
    {
        proof {
            lemma_fields32(bits);
        }
        if double {
            (bits & 0xF) as u8
        } else {
            ((bits & 0xF) * 2 + ((bits >> 5) & 1)) as u8
        }
    }

    fn try_decode_fpu(&self, bits: u32) -> (r: Option<Instruction>)
        ensures
            r == fpu32(bits),
            r matches Some(i) ==> i.wf(),
    {
        proof {
            lemma_fields32(bits);
        }
        let double: bool = bits & 0x100 != 0;
        if (bits >> 9) & 7 != 5 {
            return None;
        }
        if bits & 0x10 != 0 {
            return if bits & 0x20_0000 == 0 && (bits >> 5) & 3 == 0 {
                Some(
                    Instruction::FpVmovCore {
                        rt: ((bits >> 12) & 0xF) as u8,
                        sn: self.vn(bits, false),
                        to_core: bits & 0x10_0000 != 0,
                    },
                )
            } else {
                None
            };
        }
        let sub: bool = bits & 0x40 != 0;
        let op = match ((bits >> 23) & 1) * 4 + ((bits >> 20) & 3) {
            0 => if sub {
                FpArithOp::Vmls
            } else {
                FpArithOp::Vmla
            },
            1 => if sub {
                FpArithOp::Vnmla
            } else {
                FpArithOp::Vnmls
            },
            2 => if sub {
                FpArithOp::Vnmul
            } else {
                FpArithOp::Vmul
            },
            3 => if sub {
                FpArithOp::Vsub
            } else {
                FpArithOp::Vadd
            },
            4 => FpArithOp::Vdiv,
            7 => {
                return Some(self.decode_fpu_2reg(bits));
            },
            _ => {
                return None;
            },
        };
        Some(
            Instruction::FpArith3 {
                op,
                vd: self.vd(bits, double),
                vn: self.vn(bits, double),
                vm: self.vm(bits, double),
                double,
            },
        )
    }

    fn decode_convert(&self, op: u32, double: bool) -> (r: FpCvtOp)
        ensures
            r == convert_op(op, double),
    {
        match (op, double) {
            (0x10, true) => FpCvtOp::U32ToF64,
            (0x10, false) => FpCvtOp::U32ToF32,
            (0x11, true) => FpCvtOp::S32ToF64,
            (0x11, false) => FpCvtOp::S32ToF32,
            (0x18, true) => FpCvtOp::F64ToU32R,
            (0x18, false) => FpCvtOp::F32ToU32R,
            (0x19, true) => FpCvtOp::F64ToU32,
            (0x19, false) => FpCvtOp::F32ToU32,
            (0x1A, true) => FpCvtOp::F64ToS32R,
            (0x1A, false) => FpCvtOp::F32ToS32R,
            (_, true) => FpCvtOp::F64ToS32,
            (_, false) => FpCvtOp::F32ToS32,
        }
    }

    fn decode_fpu_2reg(&self, bits: u32) -> (r: Instruction)
        ensures
            r == fpu_2reg32(bits),
            r.wf(),
    {
        proof {
            lemma_fields32(bits);
        }
        let double: bool = bits & 0x100 != 0;
        let vd: u8 = self.vd(bits, double);
        let vm: u8 = self.vm(bits, double);
        let group: u32 = (bits >> 16) & 0xF;
        let op: u32 = group * 2 + ((bits >> 7) & 1);
        let marker: u32 = (bits >> 4) & 0xF;
        if group == 0xA || group == 0xB || group == 0xE || group == 0xF {
            let width: u8 = if marker == 0x4 {
                16
            } else {
                32
            };
            let less: u8 = (bits & 0xF) as u8 * 2;
            if (marker != 0x4 && marker != 0xC) || less >= width {
                return Instruction::Unimplemented { bits };
            }
            return Instruction::FpCvtFixed {
                vd,
                fbits: width - less,
                width,
                signed: group == 0xA || group == 0xE,
                to_float: group == 0xA || group == 0xB,
            };
        }
        if marker == 0 {
            let imm8: u8 = (group * 16 + (bits & 0xF)) as u8;
            return Instruction::FpVmovImm { sd: vd, imm: vfp_expand_imm(imm8, double), double };
        }
        match op {
            0 => Instruction::FpVmovReg { sd: vd, sm: vm, double },
            1 => Instruction::FpUnary { op: FpUnaryOp::Vabs, vd, vm, double },
            2 => Instruction::FpUnary { op: FpUnaryOp::Vneg, vd, vm, double },
            3 => Instruction::FpUnary { op: FpUnaryOp::Vsqrt, vd, vm, double },
            8 => Instruction::FpCmp { vd, vm, double, e: false, zero: false },
            9 => Instruction::FpCmp { vd, vm, double, e: true, zero: false },
            10 => Instruction::FpCmp { vd, vm, double, e: false, zero: true },
            11 => Instruction::FpCmp { vd, vm, double, e: true, zero: true },
            15 => if double {
                Instruction::FpCvt {
                    op: FpCvtOp::F32ToF64,
                    vd: self.vd(bits, false),
                    vm: self.vm(bits, true),
                }
            } else {
                Instruction::FpCvt {
                    op: FpCvtOp::F64ToF32,
                    vd: self.vd(bits, true),
                    vm: self.vm(bits, false),
                }
            },
            16 | 17 => Instruction::FpCvt {
                op: self.decode_convert(op, double),
                vd,
                vm: self.vm(bits, false),
            },
            24 | 25 | 26 | 27 => Instruction::FpCvt {
                op: self.decode_convert(op, double),
                vd: self.vd(bits, false),
                vm,
            },
            _ => Instruction::Unimplemented { bits },
        }
    }

    fn decode_vldm_vstm(&self, bits: u32) -> (r: Instruction)
        ensures
            r == vldm32(bits),
            r.wf(),
    {
        proof {
            lemma_fields32(bits);
        }
        let p: bool = bits & 0x100_0000 != 0;
        let u: bool = bits & 0x80_0000 != 0;
        let d: bool = bits & 0x40_0000 != 0;
        let double: bool = bits & 0x100 != 0;
        if p == u || (double && d) {
            return Instruction::Unimplemented { bits };
        }
        let words: u32 = bits & 0xFF;
        let count: u32 = if double {
            words / 2
        } else {
            words
        };
        Instruction::FpLoadStoreMulti {
            vd: self.vd(bits, double),
            rn: ((bits >> 16) & 0xF) as u8,
            count,
            load: bits & 0x10_0000 != 0,
            double,
            decrement: !u,
            writeback: bits & 0x20_0000 != 0,
        }
    }

    fn decode_fpu_loadstore(&self, bits: u32) -> (r: Instruction)
        ensures
            r == vldr32(bits),
            r.wf(),
    {
        proof {
            lemma_fields32(bits);
        }
        let double: bool = bits & 0x100 != 0;
        let imm: u32 = (bits & 0xFF) * 4;
        let offset: u32 = if bits & 0x80_0000 != 0 {
            imm
        } else {
            0u32.wrapping_sub(imm)
        };
        Instruction::FpLoadStore {
            rt: self.vd(bits, double),
            rn: ((bits >> 16) & 0xF) as u8,
            offset,
            load: bits & 0x10_0000 != 0,
            double,
        }
    }

    fn decode_vmov_core_d(&self, bits: u32) -> (r: Instruction)
        ensures
            r == vmov_core_d32(bits),
            r.wf(),
    {
        proof {
            lemma_fields32(bits);
        }
        Instruction::FpVmovCoreD {
            rt: ((bits >> 12) & 0xF) as u8,
            rt2: ((bits >> 16) & 0xF) as u8,
            dn: (((bits >> 22) & 1) * 16 + (bits & 0xF)) as u8,
            to_core: bits & 0x10_0000 != 0,
        }
    }
}

} // verus!
