//! What holds of exceptions in terms of the registers that software sees: enable and
//! pending bits, priority bytes, masks, stack frames and vectors.
use crate::engine::engine::{
    acceptable, frame_place, frame_words, is_pending, masked, priority, running_priority,
    words_read, words_written, Machine,
};
use crate::engine::laws::{is_stack, law_arbitration, lemma_frame_read};
use crate::memory::MemoryRegionType;
use crate::nvic::NvicModel;
use vstd::prelude::*;

verus! {

/// The bit of an interrupt in its word.
pub open spec fn own_bit(irq: int) -> u32 {
    1u32 << ((irq % 32) as u32)
}

/// An interrupt waits: bit `irq % 32` of word `irq / 32` is set among the pending and
/// among the enabled ones.
pub open spec fn waits(nvic: NvicModel, irq: int) -> bool {
    nvic.pending[irq / 32] & own_bit(irq) != 0 && nvic.enabled[irq / 32] & own_bit(irq) != 0
}

/// Every interrupt is ruled by its own bits. One that is not both pending and enabled is
/// never entered. One that is, with no masks and in thread mode, leads to an entry, of
/// itself or of something at least as urgent; also with BASEPRI set to a less urgent
/// priority.
pub proof fn law_interrupt_entry(m: Machine, irq: int)
    requires
        0 <= irq < 240,
    ensures
        !waits(m.nvic, irq) ==> m.next_exception() != Some((16 + irq) as u8),
        waits(m.nvic, irq) && m.nvic.current == 0 && m.cpu.primask == 0 && m.cpu.faultmask == 0 && (
        m.cpu.basepri == 0 || m.nvic.priority[irq] < m.cpu.basepri) ==> m.next_exception() is Some,
{
    law_arbitration(m.cpu, m.mem, m.nvic, 256);
    assert(waits(m.nvic, irq) == is_pending(m.mem, m.nvic, 16 + irq));
    assert(acceptable(m.cpu, m.mem, m.nvic, 16 + irq) ==> m.next_exception() is Some);
}

/// The masks hold interrupts back: PRIMASK and FAULTMASK all of them, BASEPRI those with
/// its priority or a less urgent one.
pub proof fn law_interrupt_masks(m: Machine, irq: int)
    requires
        0 <= irq < 240,
        m.cpu.primask != 0 || m.cpu.faultmask != 0 || (m.cpu.basepri != 0 && m.nvic.priority[irq]
            >= m.cpu.basepri),
    ensures
        m.next_exception() != Some((16 + irq) as u8),
{
    law_arbitration(m.cpu, m.mem, m.nvic, 256);
}

/// Of two interrupts that wait, the one that is entered has the smaller priority, and of
/// equal ones the smaller number, unless a mask holds the other back.
pub proof fn law_interrupt_order(m: Machine, irq: int, other: int)
    requires
        0 <= irq < 240,
        0 <= other < 240,
        m.next_exception() == Some((16 + irq) as u8),
        waits(m.nvic, other),
        m.cpu.basepri == 0,
    ensures
        m.nvic.priority[irq] < m.nvic.priority[other] || (m.nvic.priority[irq]
            == m.nvic.priority[other] && irq <= other),
{
    law_arbitration(m.cpu, m.mem, m.nvic, 256);
    assert(acceptable(m.cpu, m.mem, m.nvic, 16 + irq));
    assert(is_pending(m.mem, m.nvic, 16 + other));
    let (a, b) = ((16 + irq) as u8, (16 + other) as u8);
    assert(priority(m.mem, m.nvic, a) == 2 + m.nvic.priority[irq]);
    assert(priority(m.mem, m.nvic, b) == 2 + m.nvic.priority[other]);
    assert(!masked(m.cpu, b, priority(m.mem, m.nvic, b)));
    if priority(m.mem, m.nvic, b) < running_priority(m.mem, m.nvic) {
        assert(acceptable(m.cpu, m.mem, m.nvic, 16 + other));
    }
}

/// A handler is interrupted only by what is more urgent: an interrupt enters over another
/// only with a smaller priority.
pub proof fn law_interrupt_nesting(m: Machine, irq: int)
    requires
        0 <= irq < 240,
        m.nvic.current >= 16,
        m.next_exception() == Some((16 + irq) as u8),
    ensures
        m.nvic.priority[irq] < m.nvic.priority[m.nvic.current - 16],
{
    law_arbitration(m.cpu, m.mem, m.nvic, 256);
}

/// A system exception with its bit among the pending ones, in thread mode without masks,
/// leads to an entry; without its bit it is never entered. NMI is entered whatever the
/// masks say, and over everything but itself.
pub proof fn law_system_entry(m: Machine, number: u8)
    requires
        1 <= number < 16,
    ensures
        (m.mem.system() matches Some(s) ==> s.pended & (1u16 << number) == 0)
            ==> m.next_exception() != Some(number),
        (m.mem.system() matches Some(s) && s.pended & (1u16 << number) != 0) && m.nvic.current == 0
            && m.cpu.primask == 0 && m.cpu.faultmask == 0 && m.cpu.basepri == 0
            ==> m.next_exception() is Some,
        (m.mem.system() matches Some(s) && s.pended & (1u16 << 2u8) != 0) && m.nvic.current != 2
            ==> m.next_exception() == Some(2u8),
{
    law_arbitration(m.cpu, m.mem, m.nvic, 256);
    assert(acceptable(m.cpu, m.mem, m.nvic, number as int) ==> m.next_exception() is Some);
    assert(priority(m.mem, m.nvic, 2) == 0);
    if let Some(s) = m.mem.system() {
        if s.pended & (1u16 << 2u8) != 0 && m.nvic.current != 2 {
            assert(acceptable(m.cpu, m.mem, m.nvic, 2));
        }
    }
}

/// Where the priority of a system exception stands: in its byte of SHPR1 to SHPR3. The
/// most urgent of two that are pending is entered, unless a mask or a handler holds it
/// back.
pub proof fn law_system_priority(m: Machine, a: u8, b: u8)
    requires
        shpr_byte(m, a) is Some,
        shpr_byte(m, b) is Some,
        m.cpu.basepri == 0,
        m.next_exception() == Some(a),
        m.mem.system() matches Some(s) && s.pended & (1u16 << b) != 0,
    ensures
        shpr_byte(m, a)->Some_0 <= shpr_byte(m, b)->Some_0,
{
    law_arbitration(m.cpu, m.mem, m.nvic, 256);
    assert(acceptable(m.cpu, m.mem, m.nvic, a as int));
    assert(priority(m.mem, m.nvic, a) == 2 + shpr_byte(m, a)->Some_0);
    assert(priority(m.mem, m.nvic, b) == 2 + shpr_byte(m, b)->Some_0);
    assert(!masked(m.cpu, b, priority(m.mem, m.nvic, b)));
    if priority(m.mem, m.nvic, b) < running_priority(m.mem, m.nvic) {
        assert(acceptable(m.cpu, m.mem, m.nvic, b as int));
    }
}

/// The byte of the priority registers that belongs to a system exception.
pub open spec fn shpr_byte(m: Machine, number: u8) -> Option<int> {
    match m.mem.system() {
        Some(s) => if number == 4 {
            Some(s.shpr1 as int / 0x100_0000)
        } else if number == 5 {
            Some(s.shpr1 as int / 0x1_0000 % 0x100)
        } else if number == 6 {
            Some(s.shpr1 as int / 0x100 % 0x100)
        } else if number == 12 {
            Some(s.shpr1 as int % 0x100)
        } else if number == 11 {
            Some(s.shpr2 as int / 0x100_0000)
        } else if number == 14 {
            Some(s.shpr3 as int / 0x1_0000 % 0x100)
        } else if number == 15 {
            Some(s.shpr3 as int / 0x100_0000)
        } else {
            None
        },
        None => None,
    }
}

/// Entering an interrupt clears its pending bit and sets its active bit; leaving it clears
/// the active bit. No other bit of any interrupt changes, and the entry is recorded with
/// the number of the interrupt and the depth of nesting.
pub proof fn law_interrupt_bits(n: NvicModel, irq: int)
    requires
        0 <= irq < 240,
    ensures
        ({
            let e = n.entered((16 + irq) as u8);
            let l = e.exited();
            let (w, bit) = (irq / 32, own_bit(irq));
            &&& e.pending[w] == n.pending[w] & !bit
            &&& e.active[w] == n.active[w] | bit
            &&& l.active[w] == (n.active[w] | bit) & !bit
            &&& l.pending == e.pending
            &&& forall|i: int|
                0 <= i < 8 && i != w ==> #[trigger] e.pending[i] == n.pending[i] && #[trigger] e.active[i]
                    == n.active[i] && #[trigger] l.active[i] == n.active[i]
            &&& e.enabled == n.enabled
            &&& e.priority == n.priority
            &&& e.events.len() == n.events.len() + 1
            &&& e.events.last().irq == irq
            &&& n.stack.len() < 255 ==> e.events.last().nesting_level == n.stack.len() + 1
            &&& e.events.drop_last() == n.events
        }),
{
    let e = n.entered((16 + irq) as u8);
    assert(e.events.drop_last() =~= n.events);
}

/// The value that LR receives at an entry: it tells the mode and the stack that were
/// interrupted, and whether floating point registers were saved.
pub proof fn law_entry_link(m: Machine, number: u8, pc: Option<u32>)
    ensures
        ({
            let lr = m.entered(number, pc).cpu.regs[14];
            let float = m.cpu.control & 4 != 0;
            let process = m.cpu.control & 1 != 0;
            &&& m.nvic.current != 0 && !float ==> lr == 0xFFFF_FFF1
            &&& m.nvic.current != 0 && float ==> lr == 0xFFFF_FFE1
            &&& m.nvic.current == 0 && !process && !float ==> lr == 0xFFFF_FFF9
            &&& m.nvic.current == 0 && process && !float ==> lr == 0xFFFF_FFFD
            &&& m.nvic.current == 0 && !process && float ==> lr == 0xFFFF_FFE9
            &&& m.nvic.current == 0 && process && float ==> lr == 0xFFFF_FFED
        }),
{
    reveal(Machine::entered);
}

/// The stack of an entry: the process stack in thread mode where CONTROL selects it, the
/// main stack otherwise. It moves down by a frame of 0x20 bytes, or 0x68 with floating
/// point registers, and by four more to become a multiple of eight; SP is the main stack
/// pointer afterwards.
pub proof fn law_entry_stack(m: Machine, number: u8, pc: Option<u32>)
    requires
        m.mem.system() matches Some(s) ==> s.ccr & 0x200 != 0,
        m.cpu.msp % 4 == 0,
        m.cpu.psp % 4 == 0,
        m.cpu.msp >= 0x100,
        m.cpu.psp >= 0x100,
    ensures
        ({
            let e = m.entered(number, pc);
            let process = m.nvic.current == 0 && m.cpu.control & 1 != 0;
            let size: int = if m.cpu.control & 4 != 0 {
                0x68
            } else {
                0x20
            };
            let (top, sp) = if process {
                (m.cpu.psp, e.cpu.psp)
            } else {
                (m.cpu.msp, e.cpu.msp)
            };
            &&& sp % 8 == 0
            &&& sp <= top - size < sp + 8
            &&& process ==> e.cpu.msp == m.cpu.msp
            &&& !process ==> e.cpu.psp == m.cpu.psp
            &&& e.cpu.regs[13] == e.cpu.msp
        }),
{
    reveal(Machine::entered);
}

/// What an entry leaves of the core: R0 to R12 and the flags stay, the status word
/// receives the number of the exception, PC what stands at that number in the vector
/// table, without its lowest bit, and the floating point context is no longer live where
/// it was saved.
pub proof fn law_entry_core(m: Machine, number: u8, pc: Option<u32>)
    ensures
        ({
            let e = m.entered(number, pc);
            &&& forall|i: int| 0 <= i < 13 ==> #[trigger] e.cpu.regs[i] == m.cpu.regs[i]
            &&& e.cpu.xpsr & 0x1FF == number
            &&& e.cpu.xpsr & !0x1FFu32 == m.cpu.xpsr & !0x1FFu32
            &&& e.cpu.control & 4 == 0
            &&& e.cpu.control & 3 == m.cpu.control & 3
            &&& e.cpu.primask == m.cpu.primask
            &&& e.cpu.faultmask == m.cpu.faultmask
            &&& e.cpu.basepri == m.cpu.basepri
            &&& e.cpu.fpu == m.cpu.fpu
            &&& e.nvic == m.nvic.entered(number)
        }),
{
    reveal(Machine::entered);
    let (x, n, c) = (m.cpu.xpsr, number as u32, m.cpu.control);
    assert(((x & !0x1FFu32) | n) & 0x1FF == n && ((x & !0x1FFu32) | n) & !0x1FFu32 == x & !0x1FFu32
        && (c & !4u8) & 4 == 0 && (c & !4u8) & 3 == c & 3) by (bit_vector)
        requires
            n < 256,
    ;
}

/// The vector of an exception is the word at four times its number above the base that
/// the system block holds, read after the frame was written.
pub proof fn law_entry_vector(m: Machine, number: u8, pc: u32)
    ensures
        ({
            let p = frame_place(m);
            let framed = words_written(
                m.mem,
                p.sp,
                frame_words(m.cpu, pc, p.realigned, p.extended),
            );
            let base = match framed.system() {
                Some(s) => s.vtor,
                None => 0,
            };
            let vector = framed.reading(((base + 4 * number) % 0x1_0000_0000) as u32, 4).0;
            vector matches Ok(v) ==> m.entered(number, Some(pc)).cpu.regs[15] == v - v % 2
        }),
{
    reveal(Machine::entered);
}

/// The frame of an entry in memory, from the new stack pointer up: R0 to R3, R12, LR, the
/// return address, and the status word without its IT bits, in which bit 9 marks a
/// frame that was moved for alignment.
pub proof fn law_frame_layout(m: Machine, number: u8, pc: u32, kind: MemoryRegionType, off: int)
    requires
        m.mem.wf(),
        m.mem.storage(kind) is Some,
        m.cpu.control & 4 == 0,
        is_stack(m.mem, frame_place(m).sp, 8, kind, off),
    ensures
        ({
            let e = m.entered(number, Some(pc));
            let process = m.nvic.current == 0 && m.cpu.control & 1 != 0;
            let (top, sp) = if process {
                (m.cpu.psp, e.cpu.psp)
            } else {
                (m.cpu.msp, e.cpu.msp)
            };
            let words = words_read(e.mem, sp, 8).0;
            &&& words.len() == 8
            &&& words[0] == m.cpu.regs[0]
            &&& words[1] == m.cpu.regs[1]
            &&& words[2] == m.cpu.regs[2]
            &&& words[3] == m.cpu.regs[3]
            &&& words[4] == m.cpu.regs[12]
            &&& words[5] == m.cpu.regs[14]
            &&& words[6] == pc
            &&& words[7] & !0xFE00u32 == m.cpu.xpsr & !0xFE00u32
            &&& words[7] & 0xFC00 == 0
            &&& sp == (top - 0x24) % 0x1_0000_0000 ==> words[7] & 0x200 != 0
        }),
{
    reveal(Machine::entered);
    let p = frame_place(m);
    assert(frame_words(m.cpu, pc, p.realigned, p.extended).len() == 8);
    lemma_frame_read(m, number, pc, kind, off);
    let x = m.cpu.xpsr;
    assert(((x & !0xFC00u32) | 0x200) & !0xFE00u32 == x & !0xFE00u32 && ((x & !0xFC00u32) | 0)
        & !0xFE00u32 == x & !0xFE00u32 && ((x & !0xFC00u32) | 0x200) & 0xFC00 == 0 && ((x
        & !0xFC00u32) | 0) & 0xFC00 == 0 && ((x & !0xFC00u32) | 0x200) & 0x200 != 0)
        by (bit_vector);
}

/// Returning takes the registers from the frame: R0 to R3, R12, LR, PC and the status
/// word from the words above the stack pointer that the value names, which moves up by
/// the size of the frame, and by four more where bit 9 of the saved status word is set.
/// The stack is selected by the value, and the interrupted exception is current again.
pub proof fn law_return_core(m: Machine, exc_return: u32)
    requires
        exc_return & 0x10 != 0,
    ensures
        ({
            let process = exc_return & 4 != 0;
            let top = if process {
                m.cpu.psp
            } else {
                m.cpu.msp
            };
            let words = words_read(m.mem, top, 8).0;
            let b = m.returned(exc_return);
            let sp = if process {
                b.cpu.psp
            } else {
                b.cpu.msp
            };
            &&& b.cpu.regs[0] == words[0]
            &&& b.cpu.regs[1] == words[1]
            &&& b.cpu.regs[2] == words[2]
            &&& b.cpu.regs[3] == words[3]
            &&& b.cpu.regs[12] == words[4]
            &&& b.cpu.regs[14] == words[5]
            &&& b.cpu.regs[15] == words[6] - words[6] % 2
            &&& b.cpu.xpsr == words[7] & !0x3FFu32 || words[7] & 0x200 == 0 && b.cpu.xpsr == words[7]
                & !0x1FFu32
            &&& b.cpu.regs[13] == sp
            &&& sp == (top + 0x20 + if words[7] & 0x200 != 0 {
                4int
            } else {
                0
            }) % 0x1_0000_0000
            &&& process ==> b.cpu.msp == m.cpu.msp
            &&& !process ==> b.cpu.psp == m.cpu.psp
            &&& (b.cpu.control & 1 != 0) == process
            &&& b.cpu.control & 0xFE == m.cpu.control & 0xFE
            &&& forall|i: int| 4 <= i < 12 ==> #[trigger] b.cpu.regs[i] == m.cpu.regs[i]
            &&& b.cpu.fpu == m.cpu.fpu
            &&& b.nvic == m.nvic.exited()
        }),
{
    reveal(Machine::returned);
    let c = m.cpu.control;
    let process = exc_return & 4 != 0;
    let top = if process {
        m.cpu.psp
    } else {
        m.cpu.msp
    };
    let w = words_read(m.mem, top, 8).0[7];
    assert((c | 1) & 1 != 0 && (c & !1u8) & 1 == 0 && (c | 1) & 0xFE == c & 0xFE && (c & !1u8) & 0xFE
        == c & 0xFE && (w & !0x200u32) & !0x1FFu32 == w & !0x3FFu32) by (bit_vector);
}

} // verus!
