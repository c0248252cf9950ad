//! Special registers: MRS, MSR and CPS.
use crate::cpu::CpuState;
use crate::engine::decode::SpecialReg;
use vstd::prelude::*;

verus! {

/// What MRS reads.
pub open spec fn special_value(cpu: CpuState, reg: SpecialReg) -> u32 {
    match reg {
        SpecialReg::Apsr => cpu.xpsr & 0xF800_0000,
        SpecialReg::ApsrGe => cpu.xpsr & 0xF8FF_0000,
        SpecialReg::Iapsr => cpu.xpsr & 0xF800_01FF,
        SpecialReg::Eapsr => cpu.xpsr & 0xF9FF_0000,
        SpecialReg::Ipsr => cpu.xpsr & 0x1FF,
        SpecialReg::Epsr => cpu.xpsr & 0x01FF_0000,
        SpecialReg::Msp => cpu.msp,
        SpecialReg::Psp => cpu.psp,
        SpecialReg::Primask => cpu.primask as u32,
        SpecialReg::Faultmask => cpu.faultmask as u32,
        SpecialReg::Basepri => cpu.basepri as u32,
        SpecialReg::BasepriMax => cpu.basepri as u32,
        SpecialReg::Control => cpu.control as u32,
    }
}

pub(crate) fn read_special(cpu: &CpuState, reg: SpecialReg) -> (r: u32)
    ensures
        r == special_value(*cpu, reg),
{
    match reg {
        SpecialReg::Apsr => cpu.xpsr & 0xF800_0000,
        SpecialReg::ApsrGe => cpu.xpsr & 0xF8FF_0000,
        SpecialReg::Iapsr => cpu.xpsr & 0xF800_01FF,
        SpecialReg::Eapsr => cpu.xpsr & 0xF9FF_0000,
        SpecialReg::Ipsr => cpu.xpsr & 0x1FF,
        SpecialReg::Epsr => cpu.xpsr & 0x01FF_0000,
        SpecialReg::Msp => cpu.msp,
        SpecialReg::Psp => cpu.psp,
        SpecialReg::Primask => cpu.primask as u32,
        SpecialReg::Faultmask => cpu.faultmask as u32,
        SpecialReg::Basepri => cpu.basepri as u32,
        SpecialReg::BasepriMax => cpu.basepri as u32,
        SpecialReg::Control => cpu.control as u32,
    }
}

/// The status word with the bits of `mask` taken from `v`.
pub open spec fn with_status(cpu: CpuState, mask: u32, v: u32) -> CpuState {
    CpuState { xpsr: (cpu.xpsr & !mask) | (v & mask), ..cpu }
}

/// What MSR leaves. The exception number and the execution state cannot be
/// written. BASEPRI_MAX only lowers BASEPRI. A write to CONTROL switches SP to the
/// selected stack.
pub open spec fn after_msr(cpu: CpuState, reg: SpecialReg, v: u32) -> CpuState {
    match reg {
        SpecialReg::Apsr => with_status(cpu, 0xF800_0000, v),
        SpecialReg::ApsrGe => with_status(cpu, 0xF8FF_0000, v),
        SpecialReg::Iapsr => with_status(cpu, 0xF800_0000, v),
        SpecialReg::Eapsr => with_status(cpu, 0xF800_0000, v),
        SpecialReg::Ipsr => cpu,
        SpecialReg::Epsr => cpu,
        SpecialReg::Msp => CpuState { msp: v, ..cpu },
        SpecialReg::Psp => CpuState { psp: v, ..cpu },
        SpecialReg::Primask => CpuState { primask: (v % 2) as u8, ..cpu },
        SpecialReg::Faultmask => CpuState { faultmask: (v % 2) as u8, ..cpu },
        SpecialReg::Basepri => CpuState { basepri: (v % 0x100) as u8, ..cpu },
        SpecialReg::BasepriMax => CpuState {
            basepri: if v % 0x100 < cpu.basepri {
                (v % 0x100) as u8
            } else {
                cpu.basepri
            },
            ..cpu
        },
        SpecialReg::Control => CpuState { control: (v % 4) as u8, ..cpu }.with_reg(
            13,
            if v % 2 == 1 {
                cpu.psp
            } else {
                cpu.msp
            },
        ),
    }
}

fn set_status(cpu: &mut CpuState, mask: u32, v: u32)
    ensures
        *final(cpu) == with_status(*old(cpu), mask, v),
{
    cpu.xpsr = (cpu.xpsr & !mask) | (v & mask);
}

pub(crate) fn write_special(cpu: &mut CpuState, reg: SpecialReg, v: u32)
    ensures
        *final(cpu) == after_msr(*old(cpu), reg, v),
{
    match reg {
        SpecialReg::Apsr => set_status(cpu, 0xF800_0000, v),
        SpecialReg::ApsrGe => set_status(cpu, 0xF8FF_0000, v),
        SpecialReg::Iapsr => set_status(cpu, 0xF800_0000, v),
        SpecialReg::Eapsr => set_status(cpu, 0xF800_0000, v),
        SpecialReg::Ipsr => {},
        SpecialReg::Epsr => {},
        SpecialReg::Msp => {
            cpu.msp = v;
        },
        SpecialReg::Psp => {
            cpu.psp = v;
        },
        SpecialReg::Primask => {
            cpu.primask = (v % 2) as u8;
        },
        SpecialReg::Faultmask => {
            cpu.faultmask = (v % 2) as u8;
        },
        SpecialReg::Basepri => {
            cpu.basepri = (v % 0x100) as u8;
        },
        SpecialReg::BasepriMax => {
            let n: u8 = (v % 0x100) as u8;
            if n < cpu.basepri {
                cpu.basepri = n;
            }
        },
        SpecialReg::Control => {
            cpu.control = (v % 4) as u8;
            let sp: u32 = if v % 2 == 1 {
                cpu.psp
            } else {
                cpu.msp
            };
            cpu.set(13, sp);
        },
    }
}

/// CPSIE and CPSID: PRIMASK (`i`) and FAULTMASK (`f`) are cleared or set.
pub open spec fn after_cps(cpu: CpuState, disable: bool, i: bool, f: bool) -> CpuState {
    let value = if disable {
        1u8
    } else {
        0u8
    };
    CpuState {
        primask: if i {
            value
        } else {
            cpu.primask
        },
        faultmask: if f {
            value
        } else {
            cpu.faultmask
        },
        ..cpu
    }
}

pub(crate) fn cps(cpu: &mut CpuState, disable: bool, i: bool, f: bool)
    ensures
        *final(cpu) == after_cps(*old(cpu), disable, i, f),
{
    let value: u8 = if disable {
        1
    } else {
        0
    };
    if i {
        cpu.primask = value;
    }
    if f {
        cpu.faultmask = value;
    }
}

} // verus!
