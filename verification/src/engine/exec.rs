//! Instruction execution.
//!
//! An instruction is a function from the executor, the core and the memory to their
//! next states and an outcome, which tells the engine how to go on.
use crate::bits::{wrap32, wrap64};
use crate::cpu::CpuState;
use crate::engine::alu;
use crate::engine::decode::{AccessWidth, Cond, Instruction};
use crate::engine::media;
use crate::engine::special;
use crate::engine::transfer;
use crate::engine::transfer::next;
use crate::engine::vfp;
use crate::engine::FaultReason;
use crate::memory::{Memory, MemoryModel};
use crate::nvic::{ExcReturn, ExceptionNumber};
use vstd::prelude::*;

verus! {

/// What the engine has to do after an instruction.
#[derive(Debug, Clone, Copy, PartialEq, Eq, Structural)]
pub enum ExecOutcome {
    /// Go on with the next instruction.
    Continue,
    /// Go on at a target.
    Branch { target: u32 },
    /// Return from an exception.
    ExceptionReturn { exc_return: u32 },
    /// Enter an exception; the frame holds `return_pc`.
    TakeException { number: u8, return_pc: u32 },
    /// The condition of the IT block does not hold.
    Skipped,
    /// Breakpoint.
    DebugEvent,
    /// Fault.
    Fault { reason: FaultReason },
}

/// The effect of an instruction on the core and the memory.
pub struct Effect {
    pub outcome: ExecOutcome,
    pub cpu: CpuState,
    pub mem: MemoryModel,
}

/// Whether a condition holds for the flags in a status word.
pub open spec fn holds(xpsr: u32, cond: Cond) -> bool {
    let n = xpsr & 0x8000_0000 != 0;
    let z = xpsr & 0x4000_0000 != 0;
    let c = xpsr & 0x2000_0000 != 0;
    let v = xpsr & 0x1000_0000 != 0;
    match cond {
        Cond::Eq => z,
        Cond::Ne => !z,
        Cond::Cs => c,
        Cond::Cc => !c,
        Cond::Mi => n,
        Cond::Pl => !n,
        Cond::Vs => v,
        Cond::Vc => !v,
        Cond::Hi => c && !z,
        Cond::Ls => !c || z,
        Cond::Ge => n == v,
        Cond::Lt => n != v,
        Cond::Gt => !z && n == v,
        Cond::Le => z || n != v,
        Cond::Al => true,
    }
}

fn cond_holds(cpu: &CpuState, cond: Cond) -> (r: bool)
    ensures
        r == holds(cpu.xpsr, cond),
{
    let n: bool = cpu.xpsr & 0x8000_0000 != 0;
    let z: bool = cpu.xpsr & 0x4000_0000 != 0;
    let c: bool = cpu.xpsr & 0x2000_0000 != 0;
    let v: bool = cpu.xpsr & 0x1000_0000 != 0;
    match cond {
        Cond::Eq => z,
        Cond::Ne => !z,
        Cond::Cs => c,
        Cond::Cc => !c,
        Cond::Mi => n,
        Cond::Pl => !n,
        Cond::Vs => v,
        Cond::Vc => !v,
        Cond::Hi => c && !z,
        Cond::Ls => !c || z,
        Cond::Ge => n == v,
        Cond::Lt => n != v,
        Cond::Gt => !z && n == v,
        Cond::Le => z || n != v,
        Cond::Al => true,
    }
}

/// Floating point instructions need the floating point unit.
pub open spec fn needs_fpu(instr: Instruction) -> bool {
    match instr {
        Instruction::FpVmovReg { .. } => true,
        Instruction::FpVmovCore { .. } => true,
        Instruction::FpVmovCoreD { .. } => true,
        Instruction::FpVmovImm { .. } => true,
        Instruction::FpArith3 { .. } => true,
        Instruction::FpUnary { .. } => true,
        Instruction::FpCmp { .. } => true,
        Instruction::FpCvt { .. } => true,
        Instruction::FpCvtFixed { .. } => true,
        Instruction::FpLoadStore { .. } => true,
        Instruction::FpLoadStoreMulti { .. } => true,
        _ => false,
    }
}

fn is_fpu_instr(instr: &Instruction) -> (r: bool)
    ensures
        r == needs_fpu(*instr),
{
    match instr {
        Instruction::FpVmovReg { .. } => true,
        Instruction::FpVmovCore { .. } => true,
        Instruction::FpVmovCoreD { .. } => true,
        Instruction::FpVmovImm { .. } => true,
        Instruction::FpArith3 { .. } => true,
        Instruction::FpUnary { .. } => true,
        Instruction::FpCmp { .. } => true,
        Instruction::FpCvt { .. } => true,
        Instruction::FpCvtFixed { .. } => true,
        Instruction::FpLoadStore { .. } => true,
        Instruction::FpLoadStoreMulti { .. } => true,
        _ => false,
    }
}

/// Instructions whose 16-bit form updates the flags outside IT blocks only.
pub open spec fn implicit_flags(instr: Instruction) -> bool {
    match instr {
        Instruction::Mov { flags, .. } => flags,
        Instruction::Add { flags, .. } => flags,
        Instruction::Sub { flags, .. } => flags,
        Instruction::And { flags, .. } => flags,
        Instruction::Orr { flags, .. } => flags,
        Instruction::Eor { flags, .. } => flags,
        Instruction::Bic { flags, .. } => flags,
        Instruction::Mvn { flags, .. } => flags,
        Instruction::Neg { flags, .. } => flags,
        Instruction::Shift { flags, .. } => flags,
        Instruction::Rsb { flags, .. } => flags,
        Instruction::Adc { flags, .. } => flags,
        Instruction::Sbc { flags, .. } => flags,
        _ => false,
    }
}

fn is_implicit_s_16bit(instr: &Instruction) -> (r: bool)
    ensures
        r == implicit_flags(*instr),
{
    match instr {
        Instruction::Mov { flags, .. } => *flags,
        Instruction::Add { flags, .. } => *flags,
        Instruction::Sub { flags, .. } => *flags,
        Instruction::And { flags, .. } => *flags,
        Instruction::Orr { flags, .. } => *flags,
        Instruction::Eor { flags, .. } => *flags,
        Instruction::Bic { flags, .. } => *flags,
        Instruction::Mvn { flags, .. } => *flags,
        Instruction::Neg { flags, .. } => *flags,
        Instruction::Shift { flags, .. } => *flags,
        Instruction::Rsb { flags, .. } => *flags,
        Instruction::Adc { flags, .. } => *flags,
        Instruction::Sbc { flags, .. } => *flags,
        _ => false,
    }
}

/// Data processing: the next state of the core, for the instructions of this
/// group. `keep` leaves the flags as they are.
#[verifier::opaque]
pub open spec fn data_step(cpu: CpuState, keep: bool, instr: Instruction) -> Option<CpuState> {
    match instr {
        Instruction::Nop => Some(cpu),
        Instruction::Barrier { .. } => Some(cpu),
        Instruction::Mov { rd, rm, imm, flags } => Some(
            alu::after_logical(
                cpu,
                flags && !keep,
                rd,
                match imm {
                    Some(v) => v,
                    None => cpu.reg(rm),
                },
            ),
        ),
        Instruction::MovImm32 { rd, imm16, top } => Some(alu::after_mov_imm(cpu, rd, imm16, top)),
        Instruction::Add { rd, rn, rm, imm, flags } => Some(
            alu::after_add(
                cpu,
                flags && !keep,
                rd,
                alu::add_base(cpu, rn),
                alu::operand(cpu, rm, imm),
            ),
        ),
        Instruction::AddShifted { rd, rn, rm, lsl, flags } => Some(
            alu::after_add(cpu, flags && !keep, rd, alu::add_base(cpu, rn), cpu.reg(rm) << (lsl % 32)),
        ),
        Instruction::Sub { rd, rn, rm, imm, flags } => Some(
            alu::after_sub(cpu, flags && !keep, rd, cpu.reg(rn), alu::operand(cpu, rm, imm)),
        ),
        Instruction::SubShifted { rd, rn, rm, lsl, flags } => Some(
            alu::after_sub(cpu, flags && !keep, rd, cpu.reg(rn), cpu.reg(rm) << (lsl % 32)),
        ),
        Instruction::And { rd, rn, rm, imm, flags } => Some(
            alu::after_logical(
                cpu,
                flags && !keep,
                rd,
                cpu.reg(rn) & alu::operand(cpu, rm, imm),
            ),
        ),
        Instruction::Orr { rd, rn, rm, imm, flags } => Some(
            alu::after_logical(
                cpu,
                flags && !keep,
                rd,
                cpu.reg(rn) | alu::operand(cpu, rm, imm),
            ),
        ),
        Instruction::Eor { rd, rn, rm, imm, flags } => Some(
            alu::after_logical(
                cpu,
                flags && !keep,
                rd,
                cpu.reg(rn) ^ alu::operand(cpu, rm, imm),
            ),
        ),
        Instruction::Bic { rd, rn, rm, imm, flags } => Some(
            alu::after_logical(
                cpu,
                flags && !keep,
                rd,
                cpu.reg(rn) & !alu::operand(cpu, rm, imm),
            ),
        ),
        Instruction::Adc { rd, rn, rm, flags } => Some(
            alu::after_adc(cpu, flags && !keep, rd, cpu.reg(rn), cpu.reg(rm)),
        ),
        Instruction::Sbc { rd, rn, rm, flags } => Some(
            alu::after_sbc(cpu, flags && !keep, rd, cpu.reg(rn), cpu.reg(rm)),
        ),
        Instruction::Neg { rd, rn, flags } => Some(
            alu::after_rsb(cpu, flags && !keep, rd, 0, cpu.reg(rn)),
        ),
        Instruction::Rsb { rd, rn, rm, imm, flags } => Some(
            alu::after_rsb(cpu, flags && !keep, rd, alu::operand(cpu, rm, imm), cpu.reg(rn)),
        ),
        Instruction::Mvn { rd, rm, imm, flags } => Some(
            alu::after_logical(
                cpu,
                flags && !keep,
                rd,
                !(match imm {
                    Some(v) => v,
                    None => cpu.reg(rm),
                }),
            ),
        ),
        Instruction::Mul { rd, rn, rm, flags } => Some(
            alu::after_logical(cpu, flags && !keep, rd, wrap32(cpu.reg(rn) * cpu.reg(rm))),
        ),
        Instruction::MullLong { rdlo, rdhi, rn, rm, signed, accumulate } => Some(
            alu::after_mull(cpu, rdlo, rdhi, cpu.reg(rn), cpu.reg(rm), signed, accumulate),
        ),
        Instruction::Udiv { rd, rn, rm } => Some(
            cpu.with_reg(rd, alu::udiv(cpu.reg(rn), cpu.reg(rm))),
        ),
        Instruction::Sdiv { rd, rn, rm } => Some(
            cpu.with_reg(rd, alu::sdiv(cpu.reg(rn), cpu.reg(rm))),
        ),
        Instruction::Shift { rd, rm, kind, amount, flags } => Some(
            alu::after_shift(cpu, flags && !keep, rd, rm, kind, amount),
        ),
        Instruction::Cmp { rn, rm, imm } => Some(
            alu::difference_flags(cpu, !keep, cpu.reg(rn), alu::operand(cpu, rm, imm), 0),
        ),
        Instruction::Cmn { rn, rm, imm } => Some(
            alu::sum_flags(cpu, !keep, cpu.reg(rn), alu::operand(cpu, rm, imm), 0),
        ),
        Instruction::Tst { rn, rm, imm } => Some(
            if keep {
                cpu
            } else {
                cpu.with_nz(cpu.reg(rn) & alu::operand(cpu, rm, imm))
            },
        ),
        Instruction::Teq { rn, rm, imm } => Some(
            if keep {
                cpu
            } else {
                cpu.with_nz(cpu.reg(rn) ^ alu::operand(cpu, rm, imm))
            },
        ),
        _ => None,
    }
}

fn run_data(cpu: &mut CpuState, keep: bool, instr: &Instruction) -> (r: bool)
    requires
        instr.wf(),
    ensures
        match data_step(*old(cpu), keep, *instr) {
            Some(c) => r && *final(cpu) == c,
            None => !r && *final(cpu) == *old(cpu),
        },
{
    proof {
        reveal(data_step);
    }
    match instr {
        Instruction::Nop => {},
        Instruction::Barrier { .. } => {},
        Instruction::Mov { rd, rm, imm, flags } => {
            let v: u32 = match imm {
                Some(v) => *v,
                None => cpu.get(*rm),
            };
            alu::logical(cpu, *flags && !keep, *rd, v);
        },
        Instruction::MovImm32 { rd, imm16, top } => {
            alu::mov_imm(cpu, *rd, *imm16, *top);
        },
        Instruction::Add { rd, rn, rm, imm, flags } => {
            let a: u32 = alu::get_add_base(cpu, *rn);
            let b: u32 = alu::get_operand(cpu, *rm, *imm);
            alu::add_to(cpu, *flags && !keep, *rd, a, b);
        },
        Instruction::AddShifted { rd, rn, rm, lsl, flags } => {
            let a: u32 = alu::get_add_base(cpu, *rn);
            let b: u32 = cpu.get(*rm) << (*lsl % 32);
            alu::add_to(cpu, *flags && !keep, *rd, a, b);
        },
        Instruction::Sub { rd, rn, rm, imm, flags } => {
            let a: u32 = cpu.get(*rn);
            let b: u32 = alu::get_operand(cpu, *rm, *imm);
            alu::sub_to(cpu, *flags && !keep, *rd, a, b);
        },
        Instruction::SubShifted { rd, rn, rm, lsl, flags } => {
            let a: u32 = cpu.get(*rn);
            let b: u32 = cpu.get(*rm) << (*lsl % 32);
            alu::sub_to(cpu, *flags && !keep, *rd, a, b);
        },
        Instruction::And { rd, rn, rm, imm, flags } => {
            let v: u32 = cpu.get(*rn) & alu::get_operand(cpu, *rm, *imm);
            alu::logical(cpu, *flags && !keep, *rd, v);
        },
        Instruction::Orr { rd, rn, rm, imm, flags } => {
            let v: u32 = cpu.get(*rn) | alu::get_operand(cpu, *rm, *imm);
            alu::logical(cpu, *flags && !keep, *rd, v);
        },
        Instruction::Eor { rd, rn, rm, imm, flags } => {
            let v: u32 = cpu.get(*rn) ^ alu::get_operand(cpu, *rm, *imm);
            alu::logical(cpu, *flags && !keep, *rd, v);
        },
        Instruction::Bic { rd, rn, rm, imm, flags } => {
            let v: u32 = cpu.get(*rn) & !alu::get_operand(cpu, *rm, *imm);
            alu::logical(cpu, *flags && !keep, *rd, v);
        },
        Instruction::Adc { rd, rn, rm, flags } => {
            let a: u32 = cpu.get(*rn);
            let b: u32 = cpu.get(*rm);
            alu::adc_to(cpu, *flags && !keep, *rd, a, b);
        },
        Instruction::Sbc { rd, rn, rm, flags } => {
            let a: u32 = cpu.get(*rn);
            let b: u32 = cpu.get(*rm);
            alu::sbc_to(cpu, *flags && !keep, *rd, a, b);
        },
        Instruction::Neg { rd, rn, flags } => {
            let b: u32 = cpu.get(*rn);
            alu::rsb_to(cpu, *flags && !keep, *rd, 0, b);
        },
        Instruction::Rsb { rd, rn, rm, imm, flags } => {
            let a: u32 = alu::get_operand(cpu, *rm, *imm);
            let b: u32 = cpu.get(*rn);
            alu::rsb_to(cpu, *flags && !keep, *rd, a, b);
        },
        Instruction::Mvn { rd, rm, imm, flags } => {
            let v: u32 = match imm {
                Some(v) => *v,
                None => cpu.get(*rm),
            };
            alu::logical(cpu, *flags && !keep, *rd, !v);
        },
        Instruction::Mul { rd, rn, rm, flags } => {
            let v: u32 = alu::mul_low(cpu.get(*rn), cpu.get(*rm));
            alu::logical(cpu, *flags && !keep, *rd, v);
        },
        Instruction::MullLong { rdlo, rdhi, rn, rm, signed, accumulate } => {
            let a: u32 = cpu.get(*rn);
            let b: u32 = cpu.get(*rm);
            alu::mull(cpu, *rdlo, *rdhi, a, b, *signed, *accumulate);
        },
        Instruction::Udiv { rd, rn, rm } => {
            let v: u32 = alu::udiv_of(cpu.get(*rn), cpu.get(*rm));
            cpu.set(*rd, v);
        },
        Instruction::Sdiv { rd, rn, rm } => {
            let v: u32 = alu::sdiv_of(cpu.get(*rn), cpu.get(*rm));
            cpu.set(*rd, v);
        },
        Instruction::Shift { rd, rm, kind, amount, flags } => {
            alu::shift(cpu, *flags && !keep, *rd, *rm, *kind, *amount);
        },
        Instruction::Cmp { rn, rm, imm } => {
            let a: u32 = cpu.get(*rn);
            let b: u32 = alu::get_operand(cpu, *rm, *imm);
            let _ = alu::difference(cpu, !keep, a, b, false);
        },
        Instruction::Cmn { rn, rm, imm } => {
            let a: u32 = cpu.get(*rn);
            let b: u32 = alu::get_operand(cpu, *rm, *imm);
            let _ = alu::sum(cpu, !keep, a, b, false);
        },
        Instruction::Tst { rn, rm, imm } => {
            let v: u32 = cpu.get(*rn) & alu::get_operand(cpu, *rm, *imm);
            if !keep {
                cpu.set_nz(v);
            }
        },
        Instruction::Teq { rn, rm, imm } => {
            let v: u32 = cpu.get(*rn) ^ alu::get_operand(cpu, *rm, *imm);
            if !keep {
                cpu.set_nz(v);
            }
        },
        _ => {
            return false;
        },
    }
    true
}

/// Bit manipulation, DSP and special registers: the next state of the core, for the
/// instructions of this group.
#[verifier::opaque]
pub open spec fn media_step(cpu: CpuState, instr: Instruction) -> Option<CpuState> {
    match instr {
        Instruction::MsrMrs { rt, reg, read } => Some(
            if read {
                cpu.with_reg(rt, special::special_value(cpu, reg))
            } else {
                special::after_msr(cpu, reg, cpu.reg(rt))
            },
        ),
        Instruction::Cps { disable, i, f } => Some(special::after_cps(cpu, disable, i, f)),
        Instruction::Clz { rd, rm } => Some(cpu.with_reg(rd, alu::clz(cpu.reg(rm)) as u32)),
        Instruction::Rbit { rd, rm } => Some(
            cpu.with_reg(rd, alu::reversed(cpu.reg(rm) as int, 32) as u32),
        ),
        Instruction::Rev { rd, rm, kind } => Some(
            cpu.with_reg(rd, alu::byte_reversed(cpu.reg(rm), kind)),
        ),
        Instruction::Extend { rd, rm, kind } => Some(
            cpu.with_reg(rd, alu::extended(cpu.reg(rm), kind)),
        ),
        Instruction::BitField { rd, rn, lsb, width, kind } => Some(
            cpu.with_reg(rd, alu::bit_field(cpu.reg(rd), cpu.reg(rn), lsb, width, kind)),
        ),
        Instruction::Sat { rd, rn, sat_imm, signed, shift_kind, shift_imm } => Some(
            media::after_sat(cpu, rd, rn, sat_imm, signed, shift_kind, shift_imm),
        ),
        Instruction::QAddSub { rd, rn, rm, kind } => Some(media::after_qadd(cpu, rd, rn, rm, kind)),
        Instruction::Simd16 { rd, rn, rm, kind, unsigned } => Some(
            media::after_simd16(cpu, rd, rn, rm, kind, unsigned),
        ),
        Instruction::Simd8 { rd, rn, rm, unsigned, halving, sub } => Some(
            media::after_simd8(cpu, rd, rn, rm, unsigned, halving, sub),
        ),
        Instruction::DualHalfMul { rd, rn, rm, swap, sub } => Some(
            media::after_dual(cpu, rd, rn, rm, 0, swap, sub),
        ),
        Instruction::DualHalfMulAcc { rd, rn, rm, ra, swap, sub } => Some(
            media::after_dual(cpu, rd, rn, rm, cpu.reg(ra) as int, swap, sub),
        ),
        Instruction::DualHalfMulLong { rdlo, rdhi, rn, rm, swap, sub } => Some(
            media::after_dual_long(cpu, rdlo, rdhi, rn, rm, swap, sub),
        ),
        Instruction::Mla { rd, rn, rm, ra, sub } => Some(
            cpu.with_reg(rd, alu::multiplied_in(cpu.reg(ra), cpu.reg(rn), cpu.reg(rm), sub)),
        ),
        Instruction::Pkh { rd, rn, rm, tb, shift_imm } => Some(
            cpu.with_reg(rd, media::packed(cpu.reg(rn), cpu.reg(rm), tb, shift_imm)),
        ),
        _ => None,
    }
}

fn run_media(cpu: &mut CpuState, instr: &Instruction) -> (r: bool)
    requires
        instr.wf(),
    ensures
        match media_step(*old(cpu), *instr) {
            Some(c) => r && *final(cpu) == c,
            None => !r && *final(cpu) == *old(cpu),
        },
{
    proof {
        reveal(media_step);
    }
    match instr {
        Instruction::MsrMrs { rt, reg, read } => {
            if *read {
                let v: u32 = special::read_special(cpu, *reg);
                cpu.set(*rt, v);
            } else {
                let v: u32 = cpu.get(*rt);
                special::write_special(cpu, *reg, v);
            }
        },
        Instruction::Cps { disable, i, f } => {
            special::cps(cpu, *disable, *i, *f);
        },
        Instruction::Clz { rd, rm } => {
            let v: u32 = alu::clz_of(cpu.get(*rm));
            cpu.set(*rd, v);
        },
        Instruction::Rbit { rd, rm } => {
            let v: u32 = alu::rbit_of(cpu.get(*rm));
            cpu.set(*rd, v);
        },
        Instruction::Rev { rd, rm, kind } => {
            let v: u32 = alu::reverse_bytes(cpu.get(*rm), *kind);
            cpu.set(*rd, v);
        },
        Instruction::Extend { rd, rm, kind } => {
            let v: u32 = alu::extend(cpu.get(*rm), *kind);
            cpu.set(*rd, v);
        },
        Instruction::BitField { rd, rn, lsb, width, kind } => {
            let v: u32 = alu::bit_field_of(cpu.get(*rd), cpu.get(*rn), *lsb, *width, *kind);
            cpu.set(*rd, v);
        },
        Instruction::Sat { rd, rn, sat_imm, signed, shift_kind, shift_imm } => {
            media::sat(cpu, *rd, *rn, *sat_imm, *signed, *shift_kind, *shift_imm);
        },
        Instruction::QAddSub { rd, rn, rm, kind } => {
            media::qadd(cpu, *rd, *rn, *rm, *kind);
        },
        Instruction::Simd16 { rd, rn, rm, kind, unsigned } => {
            media::simd16(cpu, *rd, *rn, *rm, *kind, *unsigned);
        },
        Instruction::Simd8 { rd, rn, rm, unsigned, halving, sub } => {
            media::simd8(cpu, *rd, *rn, *rm, *unsigned, *halving, *sub);
        },
        Instruction::DualHalfMul { rd, rn, rm, swap, sub } => {
            media::dual(cpu, *rd, *rn, *rm, 0, *swap, *sub);
        },
        Instruction::DualHalfMulAcc { rd, rn, rm, ra, swap, sub } => {
            let acc: u32 = cpu.get(*ra);
            media::dual(cpu, *rd, *rn, *rm, acc, *swap, *sub);
        },
        Instruction::DualHalfMulLong { rdlo, rdhi, rn, rm, swap, sub } => {
            media::dual_long(cpu, *rdlo, *rdhi, *rn, *rm, *swap, *sub);
        },
        Instruction::Mla { rd, rn, rm, ra, sub } => {
            let v: u32 = alu::multiply_in(cpu.get(*ra), cpu.get(*rn), cpu.get(*rm), *sub);
            cpu.set(*rd, v);
        },
        Instruction::Pkh { rd, rn, rm, tb, shift_imm } => {
            let v: u32 = media::pack(cpu.get(*rn), cpu.get(*rm), *tb, *shift_imm);
            cpu.set(*rd, v);
        },
        _ => {
            return false;
        },
    }
    true
}

/// Floating point on registers: the next state of the core, for the instructions of
/// this group.
#[verifier::opaque]
pub open spec fn float_step(cpu: CpuState, instr: Instruction) -> Option<CpuState> {
    match instr {
        Instruction::FpVmovReg { sd, sm, double } => Some(
            cpu.with_fpu(vfp::after_vmov(cpu.fpu, sd, sm, double)),
        ),
        Instruction::FpVmovCore { rt, sn, to_core } => Some(
            vfp::after_vmov_core(cpu, rt, sn, to_core),
        ),
        Instruction::FpVmovCoreD { rt, rt2, dn, to_core } => Some(
            vfp::after_vmov_core_d(cpu, rt, rt2, dn, to_core),
        ),
        Instruction::FpVmovImm { sd, imm, double } => Some(
            cpu.with_fpu(vfp::after_vmov_imm(cpu.fpu, sd, imm, double)),
        ),
        Instruction::FpArith3 { op, vd, vn, vm, double } => Some(
            cpu.with_fpu(vfp::after_arith(cpu.fpu, op, vd, vn, vm, double)),
        ),
        Instruction::FpUnary { op, vd, vm, double } => Some(
            cpu.with_fpu(vfp::after_unary(cpu.fpu, op, vd, vm, double)),
        ),
        Instruction::FpCmp { vd, vm, double, e, zero } => Some(
            cpu.with_fpu(vfp::after_compare(cpu.fpu, vd, vm, double, e, zero)),
        ),
        Instruction::FpCvt { op, vd, vm } => Some(
            cpu.with_fpu(vfp::after_convert(cpu.fpu, op, vd, vm)),
        ),
        Instruction::FpCvtFixed { vd, fbits, width, signed, to_float } => Some(
            cpu.with_fpu(
                vfp::after_convert_fixed(cpu.fpu, vd, fbits, width, signed, to_float),
            ),
        ),
        _ => None,
    }
}

fn run_float(cpu: &mut CpuState, instr: &Instruction) -> (r: bool)
    requires
        instr.wf(),
    ensures
        match float_step(*old(cpu), *instr) {
            Some(c) => r && *final(cpu) == c,
            None => !r && *final(cpu) == *old(cpu),
        },
{
    proof {
        reveal(float_step);
    }
    match instr {
        Instruction::FpVmovReg { sd, sm, double } => {
            vfp::vmov(&mut cpu.fpu, *sd, *sm, *double);
        },
        Instruction::FpVmovCore { rt, sn, to_core } => {
            vfp::vmov_core(cpu, *rt, *sn, *to_core);
        },
        Instruction::FpVmovCoreD { rt, rt2, dn, to_core } => {
            vfp::vmov_core_d(cpu, *rt, *rt2, *dn, *to_core);
        },
        Instruction::FpVmovImm { sd, imm, double } => {
            vfp::vmov_imm(&mut cpu.fpu, *sd, *imm, *double);
        },
        Instruction::FpArith3 { op, vd, vn, vm, double } => {
            vfp::arith(&mut cpu.fpu, *op, *vd, *vn, *vm, *double);
        },
        Instruction::FpUnary { op, vd, vm, double } => {
            vfp::unary(&mut cpu.fpu, *op, *vd, *vm, *double);
        },
        Instruction::FpCmp { vd, vm, double, e, zero } => {
            vfp::compare_regs(&mut cpu.fpu, *vd, *vm, *double, *e, *zero);
        },
        Instruction::FpCvt { op, vd, vm } => {
            vfp::convert(&mut cpu.fpu, *op, *vd, *vm);
        },
        Instruction::FpCvtFixed { vd, fbits, width, signed, to_float } => {
            vfp::convert_fixed(&mut cpu.fpu, *vd, *fbits, *width, *signed, *to_float);
        },
        _ => {
            return false;
        },
    }
    true
}

/// Loads and stores: the effect, for the instructions of this group.
#[verifier::opaque]
pub open spec fn memory_step(cpu: CpuState, mem: MemoryModel, instr: Instruction) -> Option<Effect> {
    match instr {
        Instruction::Push { regs, lr } => Some(transfer::after_push(cpu, mem, regs, lr)),
        Instruction::Pop { regs, pc } => Some(transfer::after_pop(cpu, mem, regs, pc)),
        Instruction::Ldm { rn, regs, writeback, descending } => Some(
            transfer::after_ldm(cpu, mem, rn, regs, writeback, descending),
        ),
        Instruction::Stm { rn, regs, writeback, descending } => Some(
            transfer::after_stm(cpu, mem, rn, regs, writeback, descending),
        ),
        Instruction::Ldr { rt, rn, offset, width } => Some(
            transfer::after_load(
                cpu,
                mem,
                rt,
                transfer::address(cpu, rn, offset),
                width,
                false,
            ),
        ),
        Instruction::LdrSignExtend { rt, rn, offset, width } => Some(
            transfer::after_load(cpu, mem, rt, transfer::address(cpu, rn, offset), width, true),
        ),
        Instruction::Str { rt, rn, offset, width } => Some(
            transfer::after_store(
                cpu,
                mem,
                cpu.reg(rt),
                transfer::address(cpu, rn, offset),
                width,
            ),
        ),
        Instruction::LdrStrWb { rt, rn, imm, width, load, sign_extend, pre } => Some(
            transfer::after_indexed(cpu, mem, rt, rn, imm, width, load, sign_extend, pre),
        ),
        Instruction::LdrLiteral { rt, imm } => Some(
            transfer::after_load(
                cpu,
                mem,
                rt,
                wrap32(alu::pc_base(cpu) + imm),
                AccessWidth::Word,
                false,
            ),
        ),
        Instruction::LdrD { rt, rt2, rn, imm } => Some(
            transfer::after_ldrd(cpu, mem, rt, rt2, wrap32(cpu.reg(rn) + imm)),
        ),
        Instruction::StrD { rt, rt2, rn, imm } => Some(
            transfer::after_strd(cpu, mem, rt, rt2, wrap32(cpu.reg(rn) + imm)),
        ),
        Instruction::Ldrex { rt, rn, imm, width } => Some(
            transfer::after_load(cpu, mem, rt, wrap32(cpu.reg(rn) + imm), width, false),
        ),
        Instruction::Strex { rd, rt, rn, imm, width } => Some(
            transfer::after_strex(cpu, mem, rd, cpu.reg(rt), wrap32(cpu.reg(rn) + imm), width),
        ),
        Instruction::FpLoadStore { rt, rn, offset, load, double } => Some(
            vfp::after_vldr(cpu, mem, rt, rn, offset, load, double),
        ),
        Instruction::FpLoadStoreMulti { vd, rn, count, load, double, decrement, writeback } => Some(
            vfp::after_vldm(cpu, mem, vd, rn, count, load, double, decrement, writeback),
        ),
        _ => None,
    }
}

fn run_memory(cpu: &mut CpuState, memory: &mut Memory, instr: &Instruction) -> (r: Option<
    ExecOutcome,
>)
    requires
        instr.wf(),
        old(memory).wf(),
    ensures
        final(memory).wf(),
        match memory_step(*old(cpu), old(memory)@, *instr) {
            Some(e) => r == Some(e.outcome) && *final(cpu) == e.cpu && final(memory)@ == e.mem,
            None => r is None && *final(cpu) == *old(cpu) && final(memory)@ == old(memory)@,
        },
{
    proof {
        reveal(memory_step);
    }
    match instr {
        Instruction::Push { regs, lr } => Some(transfer::push(cpu, memory, *regs, *lr)),
        Instruction::Pop { regs, pc } => Some(transfer::pop(cpu, memory, *regs, *pc)),
        Instruction::Ldm { rn, regs, writeback, descending } => Some(
            transfer::ldm(cpu, memory, *rn, *regs, *writeback, *descending),
        ),
        Instruction::Stm { rn, regs, writeback, descending } => Some(
            transfer::stm(cpu, memory, *rn, *regs, *writeback, *descending),
        ),
        Instruction::Ldr { rt, rn, offset, width } => {
            let addr: u32 = transfer::get_address(cpu, *rn, *offset);
            Some(transfer::load(cpu, memory, *rt, addr, *width, false))
        },
        Instruction::LdrSignExtend { rt, rn, offset, width } => {
            let addr: u32 = transfer::get_address(cpu, *rn, *offset);
            Some(transfer::load(cpu, memory, *rt, addr, *width, true))
        },
        Instruction::Str { rt, rn, offset, width } => {
            let addr: u32 = transfer::get_address(cpu, *rn, *offset);
            let val: u32 = cpu.get(*rt);
            Some(transfer::store(cpu, memory, val, addr, *width))
        },
        Instruction::LdrStrWb { rt, rn, imm, width, load, sign_extend, pre } => Some(
            transfer::indexed(cpu, memory, *rt, *rn, *imm, *width, *load, *sign_extend, *pre),
        ),
        Instruction::LdrLiteral { rt, imm } => {
            let addr: u32 = transfer::moved(alu::get_pc_base(cpu), *imm);
            Some(transfer::load(cpu, memory, *rt, addr, AccessWidth::Word, false))
        },
        Instruction::LdrD { rt, rt2, rn, imm } => {
            let addr: u32 = transfer::moved(cpu.get(*rn), *imm);
            Some(transfer::ldrd(cpu, memory, *rt, *rt2, addr))
        },
        Instruction::StrD { rt, rt2, rn, imm } => {
            let addr: u32 = transfer::moved(cpu.get(*rn), *imm);
            Some(transfer::strd(cpu, memory, *rt, *rt2, addr))
        },
        Instruction::Ldrex { rt, rn, imm, width } => {
            let addr: u32 = transfer::moved(cpu.get(*rn), *imm);
            Some(transfer::load(cpu, memory, *rt, addr, *width, false))
        },
        Instruction::Strex { rd, rt, rn, imm, width } => {
            let addr: u32 = transfer::moved(cpu.get(*rn), *imm);
            let val: u32 = cpu.get(*rt);
            Some(transfer::strex(cpu, memory, *rd, val, addr, *width))
        },
        Instruction::FpLoadStore { rt, rn, offset, load, double } => Some(
            vfp::vldr(cpu, memory, *rt, *rn, *offset, *load, *double),
        ),
        Instruction::FpLoadStoreMulti { vd, rn, count, load, double, decrement, writeback } => Some(
            vfp::vldm(cpu, memory, *vd, *rn, *count, *load, *double, *decrement, *writeback),
        ),
        _ => None,
    }
}

/// A fault.
pub open spec fn fault(reason: FaultReason) -> ExecOutcome {
    ExecOutcome::Fault { reason }
}

/// BLX and BX to an address without the Thumb bit are usage faults.
pub open spec fn exchange(target: u32) -> ExecOutcome {
    if target % 2 == 0 {
        fault(FaultReason::UsageFault { address: target })
    } else {
        ExecOutcome::Branch { target: (target - 1) as u32 }
    }
}

fn exchange_to(target: u32) -> (r: ExecOutcome)
    ensures
        r == exchange(target),
{
    if target % 2 == 0 {
        ExecOutcome::Fault { reason: FaultReason::UsageFault { address: target } }
    } else {
        ExecOutcome::Branch { target: target - 1 }
    }
}

/// The return address of a call: the address of the instruction after one of `width`
/// bytes, with the Thumb bit.
pub open spec fn return_address(cpu: CpuState, width: u32) -> u32 {
    wrap32(cpu.regs[15] + width) | 1
}

/// Branches, calls, exceptions and what is not modelled: the outcome and the next
/// state of the core. A call by BL or by BLX with an immediate is a 32-bit instruction,
/// one by BLX with a register a 16-bit one. `gated` tells that an IT block already let the instruction
/// pass; its own condition then does not count.
#[verifier::opaque]
pub open spec fn flow_step(cpu: CpuState, gated: bool, instr: Instruction) -> (ExecOutcome, CpuState) {
    match instr {
        Instruction::Branch { cond, target } => match cond {
            Some(c) => if gated || holds(cpu.xpsr, c) {
                (ExecOutcome::Branch { target }, cpu)
            } else {
                (ExecOutcome::Continue, cpu)
            },
            None => (ExecOutcome::Branch { target }, cpu),
        },
        Instruction::BranchLink { target } => (
            ExecOutcome::Branch { target },
            cpu.with_reg(14, return_address(cpu, 4)),
        ),
        Instruction::BranchLinkExchangeImm { target } => (
            ExecOutcome::Branch { target },
            cpu.with_reg(14, return_address(cpu, 4)),
        ),
        Instruction::BranchExchange { rm } => (
            if ExcReturn::of_value(cpu.reg(rm)) != ExcReturn::Invalid {
                ExecOutcome::ExceptionReturn { exc_return: cpu.reg(rm) }
            } else {
                exchange(cpu.reg(rm))
            },
            cpu,
        ),
        Instruction::BranchLinkExchange { rm } => (
            exchange(cpu.reg(rm)),
            cpu.with_reg(14, return_address(cpu, 2)),
        ),
        Instruction::CompareBranch { rn, target, zero } => (
            if (cpu.reg(rn) == 0) == zero {
                ExecOutcome::Branch { target }
            } else {
                ExecOutcome::Continue
            },
            cpu,
        ),
        Instruction::Svc { imm8 } => (
            ExecOutcome::TakeException { number: 11, return_pc: wrap32(cpu.regs[15] + 2) },
            cpu,
        ),
        Instruction::Breakpoint { imm8 } => (ExecOutcome::DebugEvent, cpu),
        Instruction::ExceptionReturn => (
            ExecOutcome::ExceptionReturn { exc_return: cpu.regs[14] },
            cpu,
        ),
        Instruction::Invalid { address } => (
            fault(FaultReason::IllegalInstruction { pc: address }),
            cpu,
        ),
        _ => (fault(FaultReason::UnimplementedInstr), cpu),
    }
}

fn run_flow(cpu: &mut CpuState, gated: bool, instr: &Instruction) -> (r: ExecOutcome)
    requires
        instr.wf(),
    ensures
        flow_step(*old(cpu), gated, *instr) == (r, *final(cpu)),
{
    proof {
        reveal(flow_step);
    }
    match instr {
        Instruction::Branch { cond, target } => match cond {
            Some(c) => if gated || cond_holds(cpu, *c) {
                ExecOutcome::Branch { target: *target }
            } else {
                ExecOutcome::Continue
            },
            None => ExecOutcome::Branch { target: *target },
        },
        Instruction::BranchLink { target } => {
            let lr: u32 = cpu.get(15).wrapping_add(4) | 1;
            cpu.set(14, lr);
            ExecOutcome::Branch { target: *target }
        },
        Instruction::BranchLinkExchangeImm { target } => {
            let lr: u32 = cpu.get(15).wrapping_add(4) | 1;
            cpu.set(14, lr);
            ExecOutcome::Branch { target: *target }
        },
        Instruction::BranchExchange { rm } => {
            let target: u32 = cpu.get(*rm);
            if ExcReturn::from_value(target) != ExcReturn::Invalid {
                ExecOutcome::ExceptionReturn { exc_return: target }
            } else {
                exchange_to(target)
            }
        },
        Instruction::BranchLinkExchange { rm } => {
            let target: u32 = cpu.get(*rm);
            let lr: u32 = cpu.get(15).wrapping_add(2) | 1;
            cpu.set(14, lr);
            exchange_to(target)
        },
        Instruction::CompareBranch { rn, target, zero } => {
            if (cpu.get(*rn) == 0) == *zero {
                ExecOutcome::Branch { target: *target }
            } else {
                ExecOutcome::Continue
            }
        },
        Instruction::Svc { .. } => ExecOutcome::TakeException {
            number: ExceptionNumber::SvCall.as_u8(),
            return_pc: cpu.get(15).wrapping_add(2),
        },
        Instruction::Breakpoint { .. } => ExecOutcome::DebugEvent,
        Instruction::ExceptionReturn => ExecOutcome::ExceptionReturn { exc_return: cpu.get(14) },
        Instruction::Invalid { address } => ExecOutcome::Fault {
            reason: FaultReason::IllegalInstruction { pc: *address },
        },
        _ => ExecOutcome::Fault { reason: FaultReason::UnimplementedInstr },
    }
}

/// The effect of an instruction that is executed.
#[verifier::opaque]
pub open spec fn effect(
    cpu: CpuState,
    mem: MemoryModel,
    keep: bool,
    gated: bool,
    instr: Instruction,
) -> Effect {
    match data_step(cpu, keep, instr) {
        Some(c) => next(c, mem),
        None => match media_step(cpu, instr) {
            Some(c) => next(c, mem),
            None => match float_step(cpu, instr) {
                Some(c) => next(c, mem),
                None => match memory_step(cpu, mem, instr) {
                    Some(e) => e,
                    None => {
                        let (outcome, c) = flow_step(cpu, gated, instr);
                        Effect { outcome, cpu: c, mem }
                    },
                },
            },
        },
    }
}

/// Instruction executor.
#[derive(Debug)]
pub struct Executor {
    /// Executed instructions, modulo 2^64.
    pub executed_count: u64,
    /// Clock cycles, modulo 2^64.
    pub cycle_count: u64,
    /// Instructions left in the IT block.
    pub it_remaining: u8,
    /// Instructions of the IT block.
    pub it_block_len: u8,
    /// Condition of the first instruction of the IT block.
    pub it_firstcond: Cond,
    /// Mask of the IT block.
    pub it_mask: u8,
    /// The current instruction is inside an IT block.
    pub it_was_active: bool,
    /// The current instruction has a 16-bit encoding.
    pub cur_is_16bit: bool,
    /// The current instruction does not update the flags.
    pub it_suppress_flags: bool,
}

/// An executor and the effect of an instruction.
pub struct Execution {
    pub executor: Executor,
    pub effect: Effect,
}

/// The number of instructions that the mask of an IT block stands for: four less
/// the number of its trailing zeros, none where the low four bits are clear.
pub open spec fn block_len(mask: u8) -> u8 {
    if mask % 2 == 1 {
        4
    } else if mask % 4 == 2 {
        3
    } else if mask % 8 == 4 {
        2
    } else if mask % 16 == 8 {
        1
    } else {
        0
    }
}

impl Executor {
    /// At most four instructions are left in an IT block, and no more than it has.
    pub open spec fn wf(self) -> bool {
        self.it_remaining <= self.it_block_len <= 4
    }

    /// Outside any IT block, with nothing executed.
    pub open spec fn initial() -> Executor {
        Executor {
            executed_count: 0,
            cycle_count: 0,
            it_remaining: 0,
            it_block_len: 0,
            it_firstcond: Cond::Al,
            it_mask: 0,
            it_was_active: false,
            cur_is_16bit: false,
            it_suppress_flags: false,
        }
    }

    /// The condition of instruction `k` of the IT block: the first condition, with
    /// its lowest bit replaced from the mask for the later instructions.
    pub open spec fn cond_at(self, k: int) -> Cond {
        let first = self.it_firstcond.number();
        let bit = if k == 1 {
            self.it_mask / 8 % 2
        } else if k == 2 {
            self.it_mask / 4 % 2
        } else {
            self.it_mask / 2 % 2
        };
        if k == 0 {
            self.it_firstcond
        } else {
            match Cond::of_number((first / 2 * 2 + bit) as u8) {
                Some(c) => c,
                None => Cond::Al,
            }
        }
    }

    /// The condition of the next instruction of the IT block; outside a block, the
    /// first condition of the last one.
    pub open spec fn current_cond(self) -> Cond {
        if self.it_remaining == 0 {
            self.it_firstcond
        } else {
            self.cond_at(self.it_block_len - self.it_remaining)
        }
    }

    /// The executor with the IT state cleared.
    pub open spec fn cleared(self) -> Executor {
        Executor { it_remaining: 0, it_block_len: 0, it_firstcond: Cond::Al, it_mask: 0, ..self }
    }

    /// An instruction whose condition holds.
    ///
    /// Without access to the floating point unit its instructions are usage faults;
    /// with it they mark the floating point context as live.
    #[verifier::opaque]
    pub open spec fn passed(self, cpu: CpuState, mem: MemoryModel, instr: Instruction) -> Execution {
        if needs_fpu(instr) && !cpu.has_fpu() {
            Execution {
                executor: self,
                effect: Effect {
                    outcome: fault(FaultReason::UsageFault { address: cpu.regs[15] }),
                    cpu,
                    mem,
                },
            }
        } else {
            let live = if needs_fpu(instr) {
                CpuState { control: cpu.control | 4, ..cpu }
            } else {
                cpu
            };
            match instr {
                Instruction::It { cond, mask } => Execution {
                    executor: Executor {
                        it_remaining: block_len(mask),
                        it_block_len: block_len(mask),
                        it_firstcond: cond,
                        it_mask: mask,
                        ..self
                    },
                    effect: next(live, mem),
                },
                _ => Execution {
                    executor: self,
                    effect: effect(live, mem, self.it_suppress_flags, self.it_was_active, instr),
                },
            }
        }
    }

    /// Executing an instruction. In an IT block it is skipped unless its condition
    /// holds, and 16-bit forms leave the flags as they are.
    #[verifier::opaque]
    pub open spec fn executed(self, cpu: CpuState, mem: MemoryModel, instr: Instruction) -> Execution {
        let counted = Executor {
            executed_count: wrap64(self.executed_count + 1),
            cycle_count: wrap64(self.cycle_count + 1),
            it_was_active: false,
            it_suppress_flags: false,
            ..self
        };
        if self.it_remaining == 0 {
            counted.passed(cpu, mem, instr)
        } else {
            let stepped = Executor { it_remaining: (self.it_remaining - 1) as u8, ..counted };
            if holds(cpu.xpsr, self.current_cond()) {
                Executor {
                    it_was_active: true,
                    it_suppress_flags: self.cur_is_16bit && implicit_flags(instr),
                    ..stepped
                }.passed(cpu, mem, instr)
            } else {
                Execution {
                    executor: stepped,
                    effect: Effect { outcome: ExecOutcome::Skipped, cpu, mem },
                }
            }
        }
    }

    /// An executor outside any IT block.
    pub fn new() -> (r: Self)
        ensures
            r == Executor::initial(),
            r.wf(),
    {
        Executor {
            executed_count: 0,
            cycle_count: 0,
            it_remaining: 0,
            it_block_len: 0,
            it_firstcond: Cond::Al,
            it_mask: 0,
            it_was_active: false,
            cur_is_16bit: false,
            it_suppress_flags: false,
        }
    }

    /// Whether an IT block is open.
    pub fn it_active(&self) -> (r: bool)
        ensures
            r == (self.it_remaining > 0),
    {
        self.it_remaining > 0
    }

    /// The condition of the next instruction of the IT block; outside a block, the
    /// first condition of the last one.
    pub fn it_cond(&self) -> (r: Cond)
        requires
            self.wf(),
        ensures
            r == self.current_cond(),
    {
        if self.it_remaining == 0 {
            self.it_firstcond
        } else {
            self.it_cond_at(self.it_block_len - self.it_remaining)
        }
    }

    fn it_cond_at(&self, k: u8) -> (r: Cond)
        requires
            k < 4,
        ensures
            r == self.cond_at(k as int),
    {
        let bit: u8 = match k {
            0 => {
                return self.it_firstcond;
            },
            1 => self.it_mask / 8 % 2,
            2 => self.it_mask / 4 % 2,
            _ => self.it_mask / 2 % 2,
        };
        let base: u8 = self.it_firstcond.to_bits() / 2 * 2;
        match Cond::from_bits(base + bit) {
            Some(c) => c,
            None => Cond::Al,
        }
    }

    /// Leaves the IT block.
    pub fn clear_it(&mut self)
        ensures
            *final(self) == old(self).cleared(),
            final(self).wf(),
    {
        self.it_remaining = 0;
        self.it_block_len = 0;
        self.it_firstcond = Cond::Al;
        self.it_mask = 0;
    }

    /// Executes an instruction.
    pub fn execute(
        &mut self,
        cpu: &mut CpuState,
        memory: &mut Memory,
        instr: &Instruction,
    ) -> (r: ExecOutcome)
        requires
            old(self).wf(),
            old(memory).wf(),
            instr.wf(),
        ensures
            final(self).wf(),
            final(memory).wf(),
            ({
                let e = old(self).executed(*old(cpu), old(memory)@, *instr);
                &&& *final(self) == e.executor
                &&& r == e.effect.outcome
                &&& *final(cpu) == e.effect.cpu
                &&& final(memory)@ == e.effect.mem
            }),
    {
        proof {
            reveal(Executor::executed);
        }
        self.executed_count = self.executed_count.wrapping_add(1);
        self.cycle_count = self.cycle_count.wrapping_add(1);
        self.it_was_active = false;
        self.it_suppress_flags = false;
        if self.it_remaining > 0 {
            let cond = self.it_cond();
            self.it_remaining = self.it_remaining - 1;
            if !cond_holds(cpu, cond) {
                return ExecOutcome::Skipped;
            }
            self.it_was_active = true;
            self.it_suppress_flags = self.cur_is_16bit && is_implicit_s_16bit(instr);
        }
        self.pass(cpu, memory, instr)
    }

    fn pass(&mut self, cpu: &mut CpuState, memory: &mut Memory, instr: &Instruction) -> (r:
        ExecOutcome)
        requires
            old(self).wf(),
            old(memory).wf(),
            instr.wf(),
        ensures
            final(self).wf(),
            final(memory).wf(),
            ({
                let e = old(self).passed(*old(cpu), old(memory)@, *instr);
                &&& *final(self) == e.executor
                &&& r == e.effect.outcome
                &&& *final(cpu) == e.effect.cpu
                &&& final(memory)@ == e.effect.mem
            }),
    {
        proof {
            reveal(Executor::passed);
        }
        if is_fpu_instr(instr) {
            if !cpu.fpu_enabled() {
                return ExecOutcome::Fault {
                    reason: FaultReason::UsageFault { address: cpu.regs[15] },
                };
            }
            cpu.control = cpu.control | 4;
        }
        if let Instruction::It { cond, mask } = instr {
            let n: u8 = if *mask % 2 == 1 {
                4
            } else if *mask % 4 == 2 {
                3
            } else if *mask % 8 == 4 {
                2
            } else if *mask % 16 == 8 {
                1
            } else {
                0
            };
            self.it_remaining = n;
            self.it_block_len = n;
            self.it_firstcond = *cond;
            self.it_mask = *mask;
            return ExecOutcome::Continue;
        }
        run(cpu, memory, self.it_suppress_flags, self.it_was_active, instr)
    }
}

/// Executes an instruction other than IT.
fn run(
    cpu: &mut CpuState,
    memory: &mut Memory,
    keep: bool,
    gated: bool,
    instr: &Instruction,
) -> (r: ExecOutcome)
    requires
        old(memory).wf(),
        instr.wf(),
    ensures
        final(memory).wf(),
        effect(*old(cpu), old(memory)@, keep, gated, *instr) == (Effect {
            outcome: r,
            cpu: *final(cpu),
            mem: final(memory)@,
        }),
{
    proof {
        reveal(effect);
    }
    if run_data(cpu, keep, instr) {
        return ExecOutcome::Continue;
    }
    if run_media(cpu, instr) {
        return ExecOutcome::Continue;
    }
    if run_float(cpu, instr) {
        return ExecOutcome::Continue;
    }
    match run_memory(cpu, memory, instr) {
        Some(outcome) => outcome,
        None => run_flow(cpu, gated, instr),
    }
}

impl Default for Executor {
    fn default() -> (r: Self)
        ensures
            r == Executor::initial(),
            r.wf(),
    {
        Executor::new()
    }
}

} // verus!
