//! System control block and SysTick timer of a Cortex-M core.
//!
//! Covers the address window 0xE000_E000..0xE000_F000:
//! - SysTick: CTRL, LOAD, VAL, CALIB; counts down and pends exception 15
//! - SCB: CPUID, ICSR, VTOR, AIRCR, SCR, CCR, SHPR1-3, CPACR
//! - FPU: FPCCR (ASPEN and LSPEN are kept)
use crate::peripheral::{BusDevice, DeviceModel};
use crate::uart::{width_mask, width_mask_spec};
use vstd::prelude::*;

verus! {

/// Name of the system block on the bus.
pub const SYSTEM_BLOCK_NAME: &'static str = "SYSTEM-BLOCK";

const SYST_CTRL: u32 = 0x010;

const SYST_LOAD: u32 = 0x014;

const SYST_VAL: u32 = 0x018;

const SYST_CALIB: u32 = 0x01C;

const SCB_CPUID: u32 = 0xD00;

const SCB_ICSR: u32 = 0xD04;

const SCB_VTOR: u32 = 0xD08;

const SCB_AIRCR: u32 = 0xD0C;

const SCB_SCR: u32 = 0xD10;

const SCB_CCR: u32 = 0xD14;

const SCB_SHPR1: u32 = 0xD18;

const SCB_SHPR2: u32 = 0xD1C;

const SCB_SHPR3: u32 = 0xD20;

const SCB_CPACR: u32 = 0xD88;

const FPU_FPCCR: u32 = 0xF34;

/// CTRL: the counter runs.
pub const SYST_ENABLE: u32 = 0x1;

/// CTRL: reaching 0 pends the exception.
pub const SYST_TICKINT: u32 = 0x2;

/// CTRL: the counter reached 0 since the last read.
pub const SYST_COUNTFLAG: u32 = 0x1_0000;

/// CCR: exception entry aligns the stack to 8 bytes.
pub const CCR_STKALIGN: u32 = 0x200;

const EXC_SYSTICK: u8 = 15;

/// The bit of exception `n` in a pending set.
pub open spec fn exc_mask_spec(n: u8) -> u16 {
    1u16 << n
}

/// The bit of exception `n` in a pending set.
#[verifier::when_used_as_spec(exc_mask_spec)]
pub fn exc_mask(n: u8) -> (r: u16)
    requires
        n < 16,
    ensures
        r == exc_mask_spec(n),
{
    1u16 << n
}

/// System control block and SysTick timer.
#[derive(Debug)]
pub struct SystemBlock {
    /// SysTick CTRL: bit 0 ENABLE, bit 1 TICKINT, bit 2 CLKSOURCE, bit 16 COUNTFLAG.
    pub syst_ctrl: u32,
    /// SysTick reload value.
    pub syst_load: u32,
    /// SysTick current value; 0 means that the next cycle reloads.
    pub syst_val: u32,
    /// SysTick CALIB, read only: TENMS is 0x027BCA, bit 31 is set.
    pub syst_calib: u32,
    /// Stored bits of ICSR; the pending state is in `pended`.
    pub icsr: u32,
    /// Vector table base; always 0.
    pub vtor: u32,
    /// AIRCR; reads the key field, writes are ignored.
    pub aircr: u32,
    /// Sleep control.
    pub scr: u32,
    /// Configuration control; STKALIGN is always set.
    pub ccr: u32,
    /// Priorities of MemManage, BusFault and UsageFault.
    pub shpr1: u32,
    /// Priority of SVCall.
    pub shpr2: u32,
    /// Priorities of SysTick and PendSV.
    pub shpr3: u32,
    /// Coprocessor access control.
    pub cpacr: u32,
    /// FPU context control: bit 31 ASPEN, bit 30 LSPEN.
    pub fpccr: u32,
    /// Number of the active exception, 0 in thread mode.
    pub vectactive: u8,
    /// Pending system exceptions, bit `n` for exception `n`.
    pub pended: u16,
}

impl SystemBlock {
    /// Name of the system block on the bus.
    pub const NAME: &'static str = SYSTEM_BLOCK_NAME;

    /// The state after reset.
    pub open spec fn reset_state() -> SystemBlock {
        SystemBlock {
            syst_ctrl: 0,
            syst_load: 0,
            syst_val: 0,
            syst_calib: 0x8002_7BCA,
            icsr: 0,
            vtor: 0,
            aircr: 0xFA05_0000,
            scr: 0,
            ccr: 0x200,
            shpr1: 0,
            shpr2: 0,
            shpr3: 0,
            cpacr: 0x00F0_0000,
            fpccr: 0,
            vectactive: 0,
            pended: 0,
        }
    }

    /// What every reachable state keeps: VTOR is 0 and STKALIGN is set.
    pub open spec fn wf(self) -> bool {
        self.vtor == 0 && self.ccr & 0x200 != 0
    }

    pub open spec fn enabled(self) -> bool {
        self.syst_ctrl & SYST_ENABLE != 0
    }

    pub open spec fn is_pended(self, n: u8) -> bool {
        self.pended & exc_mask_spec(n) != 0
    }

    pub open spec fn pend(self, n: u8) -> SystemBlock {
        if 1 <= n < 16 {
            SystemBlock { pended: self.pended | exc_mask_spec(n), ..self }
        } else {
            self
        }
    }

    pub open spec fn unpend(self, n: u8) -> SystemBlock {
        if 1 <= n < 16 {
            SystemBlock { pended: self.pended & !exc_mask_spec(n), ..self }
        } else {
            self
        }
    }

    /// The counter leaves 1 for 0 in the next cycle.
    pub open spec fn wraps(self) -> bool {
        self.enabled() && self.syst_load != 0 && self.syst_val == 1
    }

    /// The next cycle pends SysTick.
    pub open spec fn fires(self) -> bool {
        self.wraps() && self.syst_ctrl & SYST_TICKINT != 0
    }

    /// One clock cycle: a stopped counter keeps its state; a zero reload value
    /// holds the counter at 0; 0 reloads; 1 becomes 0, sets COUNTFLAG and pends
    /// exception 15 if TICKINT is set; anything else counts down.
    pub open spec fn cycle(self) -> SystemBlock {
        if !self.enabled() {
            self
        } else if self.syst_load == 0 {
            SystemBlock { syst_val: 0, ..self }
        } else if self.syst_val == 0 {
            SystemBlock { syst_val: self.syst_load, ..self }
        } else if self.syst_val == 1 {
            let counted = SystemBlock {
                syst_val: 0,
                syst_ctrl: self.syst_ctrl | SYST_COUNTFLAG,
                ..self
            };
            if self.fires() {
                counted.pend(15)
            } else {
                counted
            }
        } else {
            SystemBlock { syst_val: (self.syst_val - 1) as u32, ..self }
        }
    }

    /// The state after `n` clock cycles.
    pub open spec fn after_cycles(self, n: nat) -> SystemBlock
        decreases n,
    {
        if n == 0 {
            self
        } else {
            self.after_cycles((n - 1) as nat).cycle()
        }
    }

    /// SysTick is pended in one of the next `n` cycles.
    pub open spec fn fires_within(self, n: nat) -> bool {
        exists|i: nat| i < n && (#[trigger] self.after_cycles(i)).fires()
    }

    /// Offset of the word that holds an address.
    pub open spec fn word_offset(addr: u32) -> u32 {
        crate::bits::wrap32((addr & !3u32) - 0xE000_E000)
    }

    /// Bit position of an address inside its word.
    pub open spec fn lane_shift(addr: u32) -> u32 {
        ((addr & 3u32) * 8) as u32
    }

    /// The word at an offset, as software reads it.
    pub open spec fn word_at(self, off: u32) -> u32 {
        if off == 0x010 {
            self.syst_ctrl
        } else if off == 0x014 {
            self.syst_load
        } else if off == 0x018 {
            self.syst_val
        } else if off == 0x01C {
            self.syst_calib
        } else if off == 0xD00 {
            0x410F_C241u32
        } else if off == 0xD04 {
            (self.icsr & !0x1FFu32) | (self.vectactive as u32)
        } else if off == 0xD08 {
            self.vtor
        } else if off == 0xD0C {
            self.aircr
        } else if off == 0xD10 {
            self.scr
        } else if off == 0xD14 {
            self.ccr
        } else if off == 0xD18 {
            self.shpr1
        } else if off == 0xD1C {
            self.shpr2
        } else if off == 0xD20 {
            self.shpr3
        } else if off == 0xD88 {
            self.cpacr
        } else if off == 0xF34 {
            self.fpccr
        } else {
            0
        }
    }

    /// The lanes of a register that a read of `width` bytes sees.
    pub open spec fn read_value(self, addr: u32, width: u32) -> u32 {
        (self.word_at(Self::word_offset(addr)) >> Self::lane_shift(addr)) & width_mask_spec(width)
    }

    /// Reading the whole of CTRL clears COUNTFLAG; no other read has an effect.
    pub open spec fn after_read(self, addr: u32, width: u32) -> SystemBlock {
        if Self::word_offset(addr) == 0x010 && width != 1 && width != 2 {
            SystemBlock { syst_ctrl: self.syst_ctrl & !SYST_COUNTFLAG, ..self }
        } else {
            self
        }
    }

    /// The stored word that a write of a part of it is merged into; none where
    /// the offset holds no writable register.
    pub open spec fn stored_at(self, off: u32) -> Option<u32> {
        if off == 0xD04 {
            Some(self.icsr)
        } else if off == 0x010 || off == 0x014 || off == 0x018 || off == 0xD08 || off == 0xD0C
            || off == 0xD10 || off == 0xD14 || off == 0xD18 || off == 0xD1C || off == 0xD20 || off
            == 0xD88 || off == 0xF34 {
            Some(self.word_at(off))
        } else {
            None
        }
    }

    /// The word that a write of `width` bytes at `addr` leaves in a stored word.
    pub open spec fn merged(current: u32, addr: u32, width: u32, val: u32) -> u32 {
        let shift = Self::lane_shift(addr);
        let lane = width_mask_spec(width) << shift;
        (current & !lane) | ((val << shift) & lane)
    }

    /// A write of ICSR pends or unpends PendSV (bits 28, 27) and SysTick (bits 26,
    /// 25), where 1 acts and 0 does not; the other bits are stored.
    pub open spec fn write_icsr(self, word: u32) -> SystemBlock {
        let s1 = if word & 0x1000_0000 != 0 {
            self.pend(14)
        } else {
            self
        };
        let s2 = if word & 0x0800_0000 != 0 {
            s1.unpend(14)
        } else {
            s1
        };
        let s3 = if word & 0x0400_0000 != 0 {
            s2.pend(15)
        } else {
            s2
        };
        let s4 = if word & 0x0200_0000 != 0 {
            s3.unpend(15)
        } else {
            s3
        };
        SystemBlock { icsr: word & !0x1E00_0000u32, ..s4 }
    }

    /// A write of a whole word at an offset.
    pub open spec fn write_word(self, off: u32, word: u32) -> SystemBlock {
        if off == 0x010 {
            let kept = if word & SYST_COUNTFLAG != 0 {
                0
            } else {
                self.syst_ctrl & SYST_COUNTFLAG
            };
            SystemBlock { syst_ctrl: (word & 0x7) | kept, ..self }
        } else if off == 0x014 {
            SystemBlock { syst_load: word, ..self }
        } else if off == 0x018 {
            SystemBlock { syst_val: 0, syst_ctrl: self.syst_ctrl & !SYST_COUNTFLAG, ..self }
        } else if off == 0xD04 {
            self.write_icsr(word)
        } else if off == 0xD08 {
            SystemBlock { vtor: 0, ..self }
        } else if off == 0xD10 {
            SystemBlock { scr: word & 0x1F, ..self }
        } else if off == 0xD14 {
            SystemBlock { ccr: word | CCR_STKALIGN, ..self }
        } else if off == 0xD18 {
            SystemBlock { shpr1: word, ..self }
        } else if off == 0xD1C {
            SystemBlock { shpr2: word, ..self }
        } else if off == 0xD20 {
            SystemBlock { shpr3: word, ..self }
        } else if off == 0xD88 {
            SystemBlock { cpacr: word, ..self }
        } else if off == 0xF34 {
            SystemBlock {
                fpccr: (self.fpccr & !0xC000_0000u32) | (word & 0xC000_0000u32),
                ..self
            }
        } else {
            self
        }
    }

    /// The state after a write of `width` bytes.
    pub open spec fn after_write(self, addr: u32, width: u32, val: u32) -> SystemBlock {
        match self.stored_at(Self::word_offset(addr)) {
            Some(current) => self.write_word(
                Self::word_offset(addr),
                Self::merged(current, addr, width, val),
            ),
            None => self,
        }
    }

    /// The system block after reset.
    pub fn new() -> (r: Self)
        ensures
            r == Self::reset_state(),
            r.wf(),
    {
        let r = SystemBlock {
            syst_ctrl: 0,
            syst_load: 0,
            syst_val: 0,
            syst_calib: 0x8002_7BCA,
            icsr: 0,
            vtor: 0,
            aircr: 0xFA05_0000,
            scr: 0,
            ccr: CCR_STKALIGN,
            shpr1: 0,
            shpr2: 0,
            shpr3: 0,
            cpacr: 0x00F0_0000,
            fpccr: 0,
            vectactive: 0,
            pended: 0,
        };
        assert(0x200u32 & 0x200u32 != 0) by (bit_vector);
        r
    }

    /// Advances SysTick; gives the exception that was pended on the way.
    pub fn tick(&mut self, cycles: u64) -> (r: Option<u8>)
        ensures
            *final(self) == old(self).after_cycles(cycles as nat),
            r == (if old(self).fires_within(cycles as nat) {
                Some(15u8)
            } else {
                None
            }),
    {
        if self.syst_ctrl & SYST_ENABLE == 0 {
            proof {
                lemma_stopped(*self, cycles as nat);
            }
            return None;
        }
        let ghost start = *self;
        let mut new_pend: Option<u8> = None;
        let mut i: u64 = 0;
        while i < cycles
            invariant
                i <= cycles,
                start.enabled(),
                *self == start.after_cycles(i as nat),
                self.enabled(),
                new_pend == (if start.fires_within(i as nat) {
                    Some(15u8)
                } else {
                    None
                }),
            decreases cycles - i,
        {
            let ghost before = *self;
            proof {
                lemma_cycle_keeps_enable(before);
                lemma_fires_step(start, i as nat);
            }
            if self.syst_load == 0 {
                self.syst_val = 0;
            } else if self.syst_val == 0 {
                self.syst_val = self.syst_load;
            } else if self.syst_val == 1 {
                self.syst_val = 0;
                self.syst_ctrl = self.syst_ctrl | SYST_COUNTFLAG;
                proof {
                    let c = before.syst_ctrl;
                    assert((c | 0x1_0000u32) & 0x2u32 == c & 0x2u32) by (bit_vector);
                }
                if self.syst_ctrl & SYST_TICKINT != 0 {
                    self.pend_exception(EXC_SYSTICK);
                    new_pend = Some(EXC_SYSTICK);
                }
            } else {
                self.syst_val = self.syst_val - 1;
            }
            i = i + 1;
            assert(*self == before.cycle());
        }
        new_pend
    }

    /// The pending system exception with the lowest number.
    pub fn next_pending_exception(&self) -> (r: Option<u8>)
        ensures
            match r {
                Some(n) => 1 <= n < 16 && self.is_pended(n) && forall|m: u8|
                    1 <= m < n ==> !self.is_pended(m),
                None => forall|m: u8| 1 <= m < 16 ==> !self.is_pended(m),
            },
    {
        let mut n: u8 = 1;
        while n < 16
            invariant
                1 <= n <= 16,
                forall|m: u8| 1 <= m < n ==> !self.is_pended(m),
            decreases 16 - n,
        {
            if self.pended & exc_mask(n) != 0 {
                return Some(n);
            }
            n = n + 1;
        }
        None
    }

    /// Pends a system exception; other numbers are ignored.
    pub fn pend_exception(&mut self, n: u8)
        ensures
            *final(self) == old(self).pend(n),
    {
        if 1 <= n && n < 16 {
            self.pended = self.pended | exc_mask(n);
        }
    }

    /// Clears the pending state of a system exception; other numbers are ignored.
    pub fn unpend_exception(&mut self, n: u8)
        ensures
            *final(self) == old(self).unpend(n),
    {
        if 1 <= n && n < 16 {
            self.pended = self.pended & !exc_mask(n);
        }
    }

    /// Records the active exception.
    pub fn set_vectactive(&mut self, number: u8)
        ensures
            *final(self) == (SystemBlock { vectactive: number, ..*old(self) }),
    {
        self.vectactive = number;
    }

    /// CPACR.
    pub fn cpacr_value(&self) -> (r: u32)
        ensures
            r == self.cpacr,
    {
        self.cpacr
    }

    /// Sets CPACR.
    pub fn set_cpacr(&mut self, v: u32)
        ensures
            *final(self) == (SystemBlock { cpacr: v, ..*old(self) }),
    {
        self.cpacr = v;
    }

    /// Whether FPCCR has ASPEN or LSPEN set.
    pub fn fpccr_aspen_lspen(&self) -> (r: bool)
        ensures
            r == (self.fpccr & 0xC000_0000 != 0),
    {
        self.fpccr & 0xC000_0000 != 0
    }

    /// SysTick VAL.
    pub fn systick_val(&self) -> (r: u32)
        ensures
            r == self.syst_val,
    {
        self.syst_val
    }

    /// SysTick LOAD.
    pub fn systick_load(&self) -> (r: u32)
        ensures
            r == self.syst_load,
    {
        self.syst_load
    }

    /// SysTick CTRL.
    pub fn systick_ctrl(&self) -> (r: u32)
        ensures
            r == self.syst_ctrl,
    {
        self.syst_ctrl
    }

    /// SHPR1.
    pub fn shpr1(&self) -> (r: u32)
        ensures
            r == self.shpr1,
    {
        self.shpr1
    }

    /// SHPR2.
    pub fn shpr2(&self) -> (r: u32)
        ensures
            r == self.shpr2,
    {
        self.shpr2
    }

    /// SHPR3.
    pub fn shpr3(&self) -> (r: u32)
        ensures
            r == self.shpr3,
    {
        self.shpr3
    }

    /// VTOR.
    pub fn vtor(&self) -> (r: u32)
        ensures
            r == self.vtor,
    {
        self.vtor
    }

    /// CCR.STKALIGN.
    pub fn ccr_stkalign(&self) -> (r: bool)
        ensures
            r == (self.ccr & CCR_STKALIGN != 0),
    {
        self.ccr & CCR_STKALIGN != 0
    }

    /// The set of pending system exceptions.
    pub fn pended_bits(&self) -> (r: u16)
        ensures
            r == self.pended,
    {
        self.pended
    }

    /// Reads the lanes of a register.
    fn read_reg(&mut self, addr: u32, width: u32) -> (r: u32)
        ensures
            r == old(self).read_value(addr, width),
            *final(self) == old(self).after_read(addr, width),
    {
        proof {
            lemma_lane(addr);
        }
        let word_addr: u32 = addr & !3u32;
        let off: u32 = word_addr.wrapping_sub(0xE000_E000);
        let shift: u32 = (addr & 3) * 8;
        let v: u32 = match off {
            SYST_CTRL => {
                let ctrl: u32 = self.syst_ctrl;
                if width != 1 && width != 2 {
                    self.syst_ctrl = self.syst_ctrl & !SYST_COUNTFLAG;
                }
                ctrl
            },
            SYST_LOAD => self.syst_load,
            SYST_VAL => self.syst_val,
            SYST_CALIB => self.syst_calib,
            SCB_CPUID => 0x410F_C241,
            SCB_ICSR => (self.icsr & !0x1FFu32) | (self.vectactive as u32),
            SCB_VTOR => self.vtor,
            SCB_AIRCR => self.aircr,
            SCB_SCR => self.scr,
            SCB_CCR => self.ccr,
            SCB_SHPR1 => self.shpr1,
            SCB_SHPR2 => self.shpr2,
            SCB_SHPR3 => self.shpr3,
            SCB_CPACR => self.cpacr,
            FPU_FPCCR => self.fpccr,
            _ => 0,
        };
        (v >> shift) & width_mask(width)
    }

    /// Writes the lanes of a register.
    fn write_reg(&mut self, addr: u32, width: u32, val: u32)
        ensures
            *final(self) == old(self).after_write(addr, width, val),
    {
        proof {
            lemma_lane(addr);
        }
        let word_addr: u32 = addr & !3u32;
        let off: u32 = word_addr.wrapping_sub(0xE000_E000);
        let shift: u32 = (addr & 3) * 8;
        let lane: u32 = width_mask(width) << shift;
        let current: u32 = match off {
            SYST_CTRL => self.syst_ctrl,
            SYST_LOAD => self.syst_load,
            SYST_VAL => self.syst_val,
            SCB_ICSR => self.icsr,
            SCB_VTOR => self.vtor,
            SCB_AIRCR => self.aircr,
            SCB_SCR => self.scr,
            SCB_CCR => self.ccr,
            SCB_SHPR1 => self.shpr1,
            SCB_SHPR2 => self.shpr2,
            SCB_SHPR3 => self.shpr3,
            SCB_CPACR => self.cpacr,
            FPU_FPCCR => self.fpccr,
            _ => {
                return;
            },
        };
        let word: u32 = (current & !lane) | ((val << shift) & lane);
        match off {
            SYST_CTRL => {
                let kept: u32 = if word & SYST_COUNTFLAG != 0 {
                    0
                } else {
                    self.syst_ctrl & SYST_COUNTFLAG
                };
                self.syst_ctrl = (word & 0x7) | kept;
            },
            SYST_LOAD => {
                self.syst_load = word;
            },
            SYST_VAL => {
                self.syst_val = 0;
                self.syst_ctrl = self.syst_ctrl & !SYST_COUNTFLAG;
            },
            SCB_ICSR => {
                if word & 0x1000_0000 != 0 {
                    self.pend_exception(14);
                }
                if word & 0x0800_0000 != 0 {
                    self.unpend_exception(14);
                }
                if word & 0x0400_0000 != 0 {
                    self.pend_exception(15);
                }
                if word & 0x0200_0000 != 0 {
                    self.unpend_exception(15);
                }
                self.icsr = word & !0x1E00_0000u32;
            },
            SCB_VTOR => {
                self.vtor = 0;
            },
            SCB_SCR => {
                self.scr = word & 0x1F;
            },
            SCB_CCR => {
                self.ccr = word | CCR_STKALIGN;
            },
            SCB_SHPR1 => {
                self.shpr1 = word;
            },
            SCB_SHPR2 => {
                self.shpr2 = word;
            },
            SCB_SHPR3 => {
                self.shpr3 = word;
            },
            SCB_CPACR => {
                self.cpacr = word;
            },
            FPU_FPCCR => {
                self.fpccr = (self.fpccr & !0xC000_0000u32) | (word & 0xC000_0000u32);
            },
            _ => {},
        }
    }
}

impl Default for SystemBlock {
    fn default() -> (r: Self)
        ensures
            r == SystemBlock::reset_state(),
    {
        Self::new()
    }
}

impl BusDevice for SystemBlock {
    open spec fn model(&self) -> DeviceModel {
        DeviceModel::System(*self)
    }

    fn name(&self) -> (r: &'static str) {
        SYSTEM_BLOCK_NAME
    }

    fn base_address(&self) -> (r: u32) {
        0xE000_E000
    }

    fn window_size(&self) -> (r: u32) {
        0x1000
    }

    fn read(&mut self, addr: u32, width: u32) -> (r: u32) {
        self.read_reg(addr, width)
    }

    fn write(&mut self, addr: u32, width: u32, val: u32) {
        self.write_reg(addr, width, val);
    }
}

proof fn lemma_lane(addr: u32)
    by (bit_vector)
    ensures
        addr & 3 <= 3,
{
}

proof fn lemma_cycle_keeps_enable(s: SystemBlock)
    ensures
        s.cycle().enabled() == s.enabled(),
        s.cycle().syst_load == s.syst_load,
        s.cycle().syst_ctrl & SYST_TICKINT == s.syst_ctrl & SYST_TICKINT,
{
    let c = s.syst_ctrl;
    assert((c | 0x1_0000u32) & 0x1u32 == c & 0x1u32 && (c | 0x1_0000u32) & 0x2u32 == c & 0x2u32)
        by (bit_vector);
}

proof fn lemma_stopped(s: SystemBlock, n: nat)
    requires
        !s.enabled(),
    ensures
        s.after_cycles(n) == s,
        !s.fires_within(n),
    decreases n,
{
    if n > 0 {
        lemma_stopped(s, (n - 1) as nat);
    }
    assert forall|i: nat| i < n implies !(#[trigger] s.after_cycles(i)).fires() by {
        lemma_stopped_state(s, i);
    }
}

proof fn lemma_stopped_state(s: SystemBlock, n: nat)
    requires
        !s.enabled(),
    ensures
        s.after_cycles(n) == s,
    decreases n,
{
    if n > 0 {
        lemma_stopped_state(s, (n - 1) as nat);
    }
}

proof fn lemma_fires_step(s: SystemBlock, n: nat)
    ensures
        s.fires_within((n + 1) as nat) == (s.fires_within(n) || s.after_cycles(n).fires()),
{
    if s.fires_within((n + 1) as nat) {
        let i = choose|i: nat| i < n + 1 && (#[trigger] s.after_cycles(i)).fires();
        if i < n {
            assert(s.fires_within(n));
        }
    }
    if s.fires_within(n) {
        let i = choose|i: nat| i < n && (#[trigger] s.after_cycles(i)).fires();
        assert(i < n + 1 && s.after_cycles(i).fires());
    }
}

/// VTOR stays 0 and STKALIGN stays set, whatever is written and however long the
/// timer runs.
pub proof fn law_system_invariant(s: SystemBlock, addr: u32, width: u32, val: u32, n: u8)
    requires
        s.wf(),
    ensures
        SystemBlock::reset_state().wf(),
        s.after_write(addr, width, val).wf(),
        s.after_read(addr, width).wf(),
        s.cycle().wf(),
        s.pend(n).wf(),
        s.unpend(n).wf(),
{
    assert(0x200u32 & 0x200u32 != 0) by (bit_vector);
    let off = SystemBlock::word_offset(addr);
    if let Some(current) = s.stored_at(off) {
        let word = SystemBlock::merged(current, addr, width, val);
        assert((word | 0x200u32) & 0x200u32 != 0) by (bit_vector);
    }
}

/// Pending an exception makes it pending, unpending makes it not, and neither
/// touches another exception.
pub proof fn law_pend_unpend(s: SystemBlock, n: u8, other: u8)
    requires
        1 <= n < 16,
        1 <= other < 16,
    ensures
        s.pend(n).is_pended(n),
        !s.unpend(n).is_pended(n),
        n != other ==> s.pend(n).is_pended(other) == s.is_pended(other),
        n != other ==> s.unpend(n).is_pended(other) == s.is_pended(other),
        !s.is_pended(n) ==> s.pend(n).unpend(n) == s,
        s.is_pended(n) ==> s.unpend(n).pend(n) == s,
{
    let p = s.pended;
    assert((p | (1u16 << n)) & (1u16 << n) != 0 && (p & !(1u16 << n)) & (1u16 << n) == 0 && (p & (
    1u16 << n) == 0 ==> (p | (1u16 << n)) & !(1u16 << n) == p) && (p & (1u16 << n) != 0 ==> (p & !(
    1u16 << n)) | (1u16 << n) == p)) by (bit_vector)
        requires
            n < 16,
    ;
    if n != other {
        assert((p | (1u16 << n)) & (1u16 << other) == p & (1u16 << other) && (p & !(1u16 << n)) & (
        1u16 << other) == p & (1u16 << other)) by (bit_vector)
            requires
                n < 16,
                other < 16,
                n != other,
        ;
    }
}

/// Reading CTRL gives COUNTFLAG and clears it; the next read no longer has it. A
/// read of a part of CTRL leaves it.
pub proof fn law_countflag_clears(s: SystemBlock, addr: u32, width: u32)
    ensures
        width == 1 || width == 2 ==> s.after_read(addr, width) == s,
        s.read_value(0xE000_E010, 4) == s.syst_ctrl,
        s.after_read(0xE000_E010, 4).read_value(0xE000_E010, 4) & SYST_COUNTFLAG == 0,
{
    let c = s.syst_ctrl;
    assert(0xE000_E010u32 & !3u32 == 0xE000_E010u32 && 0xE000_E010u32 & 3u32 == 0) by (bit_vector);
    assert((c >> 0u32) & 0xFFFF_FFFFu32 == c && (((c & !0x1_0000u32) >> 0u32) & 0xFFFF_FFFFu32)
        & 0x1_0000u32 == 0) by (bit_vector);
}

proof fn lemma_countdown(s: SystemBlock, k: nat)
    requires
        s.enabled(),
        s.syst_load > 0,
        s.syst_val == 0,
        1 <= k <= s.syst_load,
    ensures
        s.after_cycles(k) == (SystemBlock { syst_val: (s.syst_load + 1 - k) as u32, ..s }),
    decreases k,
{
    if k == 1 {
        assert(s.after_cycles(0) == s);
        assert(s.after_cycles(1) == s.after_cycles(0).cycle());
    } else {
        lemma_countdown(s, (k - 1) as nat);
    }
}

/// The timer counts from LOAD down to 0 and then starts again: a period has LOAD + 1
/// cycles, the counter reads LOAD + 1 - k after k of them, only the last one sets
/// COUNTFLAG, and it pends exception 15 exactly where TICKINT is set.
pub proof fn law_systick_period(s: SystemBlock)
    requires
        s.enabled(),
        s.syst_load > 0,
        s.syst_val == 0,
    ensures
        forall|k: nat|
            1 <= k <= s.syst_load ==> #[trigger] s.after_cycles(k) == (SystemBlock {
                syst_val: (s.syst_load + 1 - k) as u32,
                ..s
            }),
        forall|k: nat|
            k <= s.syst_load ==> (#[trigger] s.after_cycles(k)).fires() == (k == s.syst_load
                && s.syst_ctrl & SYST_TICKINT != 0),
        ({
            let last = SystemBlock { syst_ctrl: s.syst_ctrl | SYST_COUNTFLAG, ..s };
            s.after_cycles((s.syst_load + 1) as nat) == if s.syst_ctrl & SYST_TICKINT != 0 {
                last.pend(15)
            } else {
                last
            }
        }),
        s.after_cycles((s.syst_load + 1) as nat).enabled(),
{
    assert forall|k: nat| 1 <= k <= s.syst_load implies #[trigger] s.after_cycles(k) == (
    SystemBlock { syst_val: (s.syst_load + 1 - k) as u32, ..s }) by {
        lemma_countdown(s, k);
    }
    assert forall|k: nat| k <= s.syst_load implies (#[trigger] s.after_cycles(k)).fires() == (k
        == s.syst_load && s.syst_ctrl & SYST_TICKINT != 0) by {
        if k == 0 {
            assert(s.after_cycles(0) == s);
        }
    }
    let l = s.syst_load as nat;
    lemma_countdown(s, l);
    assert(s.after_cycles(l + 1) == s.after_cycles(l).cycle());
    lemma_cycle_keeps_enable(s.after_cycles(l));
}

} // verus!
