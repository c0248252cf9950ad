//! Core models and the state of a core.
use crate::bits::put;
use crate::engine::fpu::FpuRegisters;
use vstd::prelude::*;

verus! {

/// Cortex-M cores.
#[derive(Debug, Clone, Copy, PartialEq, Eq, Structural)]
pub enum CoreType {
    M0,
    M3,
    M4,
    /// M4 with floating point unit.
    M4F,
    /// With TrustZone.
    M33,
}

impl CoreType {
    /// The architecture of a core.
    pub fn arch_name(self) -> (r: &'static str)
        ensures
            r@ == match self {
                CoreType::M0 => "ARMv6-M"@,
                CoreType::M3 => "ARMv7-M"@,
                CoreType::M4 => "ARMv7E-M"@,
                CoreType::M4F => "ARMv7E-M"@,
                CoreType::M33 => "ARMv8-M"@,
            },
    {
        match self {
            CoreType::M0 => "ARMv6-M",
            CoreType::M3 => "ARMv7-M",
            CoreType::M4 | CoreType::M4F => "ARMv7E-M",
            CoreType::M33 => "ARMv8-M",
        }
    }
}

/// The registers of a core.
#[derive(Debug)]
pub struct CpuState {
    /// R0-R15; R13 is SP, R14 is LR, R15 is PC.
    pub regs: [u32; 16],
    /// Program status.
    pub xpsr: u32,
    /// Main stack pointer.
    pub msp: u32,
    /// Process stack pointer.
    pub psp: u32,
    pub primask: u8,
    pub faultmask: u8,
    pub basepri: u8,
    /// Bit 0 selects the process stack, bit 2 marks a live floating point context.
    pub control: u8,
    /// Floating point registers.
    pub fpu: FpuRegisters,
    /// Coprocessor access control.
    pub cpacr: u32,
}

impl CpuState {
    /// The value of a register.
    pub open spec fn reg(self, i: u8) -> u32 {
        self.regs[i as int]
    }

    pub open spec fn with_reg(self, i: u8, v: u32) -> CpuState {
        CpuState { regs: vstd::array::spec_array_update(self.regs, i as int, v), ..self }
    }

    /// The carry flag.
    pub open spec fn carry(self) -> bool {
        self.xpsr & 0x2000_0000 != 0
    }

    /// The state with N and Z set from a result.
    pub open spec fn with_nz(self, r: u32) -> CpuState {
        CpuState {
            xpsr: put(put(self.xpsr, 0x8000_0000, r >= 0x8000_0000), 0x4000_0000, r == 0),
            ..self
        }
    }

    pub open spec fn with_carry(self, on: bool) -> CpuState {
        CpuState { xpsr: put(self.xpsr, 0x2000_0000, on), ..self }
    }

    pub open spec fn with_overflow(self, on: bool) -> CpuState {
        CpuState { xpsr: put(self.xpsr, 0x1000_0000, on), ..self }
    }

    /// The state with the four flags set from a result, the carry, and the exact
    /// signed value of the result.
    pub open spec fn with_nzcv(self, r: u32, carry: bool, exact: int) -> CpuState {
        self.with_nz(r).with_carry(carry).with_overflow(exact < -0x8000_0000 || exact > 0x7FFF_FFFF)
    }

    /// The state with the sticky saturation flag set where `on`.
    pub open spec fn with_q(self, on: bool) -> CpuState {
        if on {
            CpuState { xpsr: self.xpsr | 0x0800_0000, ..self }
        } else {
            self
        }
    }

    /// SP is copied to the stack pointer it stands for: MSP in handler mode and
    /// with SPSEL clear, PSP otherwise.
    pub open spec fn synced(self) -> CpuState {
        if self.xpsr & 0x1FF != 0 || self.control & 1 == 0 {
            CpuState { msp: self.regs[13], ..self }
        } else {
            CpuState { psp: self.regs[13], ..self }
        }
    }

    /// The state with a register written; SP is copied to its stack pointer.
    pub open spec fn with_reg_synced(self, i: u8, v: u32) -> CpuState {
        if i == 13 {
            self.with_reg(i, v).synced()
        } else {
            self.with_reg(i, v)
        }
    }

    /// The state with other floating point registers.
    pub open spec fn with_fpu(self, fpu: FpuRegisters) -> CpuState {
        CpuState { fpu, ..self }
    }

    /// Whether CPACR grants full access to the floating point unit.
    pub open spec fn has_fpu(self) -> bool {
        self.cpacr / 0x10_0000 % 16 == 15
    }

    /// Whether the floating point unit may be used.
    pub fn fpu_enabled(&self) -> (r: bool)
        ensures
            r == self.has_fpu(),
    {
        self.cpacr / 0x10_0000 % 16 == 15
    }

    pub(crate) fn get(&self, i: u8) -> (r: u32)
        requires
            i < 16,
        ensures
            r == self.reg(i),
    {
        self.regs[i as usize]
    }

    pub(crate) fn set(&mut self, i: u8, v: u32)
        requires
            i < 16,
        ensures
            *final(self) == old(self).with_reg(i, v),
    {
        self.regs[i as usize] = v;
        assert(self.regs =~= old(self).with_reg(i, v).regs);
    }

    pub(crate) fn has_carry(&self) -> (r: bool)
        ensures
            r == self.carry(),
    {
        self.xpsr & 0x2000_0000 != 0
    }

    pub(crate) fn set_nz(&mut self, r: u32)
        ensures
            *final(self) == old(self).with_nz(r),
    {
        self.xpsr = put(put(self.xpsr, 0x8000_0000, r >= 0x8000_0000), 0x4000_0000, r == 0);
    }

    pub(crate) fn set_carry(&mut self, on: bool)
        ensures
            *final(self) == old(self).with_carry(on),
    {
        self.xpsr = put(self.xpsr, 0x2000_0000, on);
    }

    pub(crate) fn set_nzcv(&mut self, r: u32, carry: bool, exact: i64)
        ensures
            *final(self) == old(self).with_nzcv(r, carry, exact as int),
    {
        self.set_nz(r);
        self.set_carry(carry);
        self.xpsr = put(self.xpsr, 0x1000_0000, exact < -0x8000_0000 || exact > 0x7FFF_FFFF);
    }

    pub(crate) fn set_q(&mut self, on: bool)
        ensures
            *final(self) == old(self).with_q(on),
    {
        if on {
            self.xpsr = self.xpsr | 0x0800_0000;
        }
    }

    pub(crate) fn sync_sp(&mut self)
        ensures
            *final(self) == old(self).synced(),
    {
        let sp: u32 = self.regs[13];
        if self.xpsr & 0x1FF != 0 || self.control & 1 == 0 {
            self.msp = sp;
        } else {
            self.psp = sp;
        }
    }

    pub(crate) fn set_synced(&mut self, i: u8, v: u32)
        requires
            i < 16,
        ensures
            *final(self) == old(self).with_reg_synced(i, v),
    {
        self.set(i, v);
        if i == 13 {
            self.sync_sp();
        }
    }
}

/// The state after power on: everything 0, and the floating point unit accessible.
pub open spec fn power_on(s: CpuState) -> bool {
    &&& forall|i: int| 0 <= i < 16 ==> s.regs[i] == 0
    &&& s.xpsr == 0
    &&& s.msp == 0
    &&& s.psp == 0
    &&& s.primask == 0
    &&& s.faultmask == 0
    &&& s.basepri == 0
    &&& s.control == 0
    &&& forall|i: int| 0 <= i < 32 ==> s.fpu.s[i] == 0
    &&& s.fpu.fpscr == 0
    &&& s.fpu.fpccr == 0
    &&& s.cpacr == 0x00F0_0000
}

impl Default for CpuState {
    fn default() -> (r: Self)
        ensures
            power_on(r),
    {
        CpuState {
            regs: [0; 16],
            xpsr: 0,
            msp: 0,
            psp: 0,
            primask: 0,
            faultmask: 0,
            basepri: 0,
            control: 0,
            fpu: FpuRegisters::new(),
            cpacr: 0x00F0_0000,
        }
    }
}

} // verus!
