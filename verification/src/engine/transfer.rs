//! Loads and stores.
use crate::bits::{signed16, signed8, wrap32};
use crate::cpu::CpuState;
use crate::engine::alu::{extend16, extend8};
use crate::engine::decode::{AccessWidth, LoadStoreOffset};
use crate::engine::exec::{Effect, ExecOutcome};
use crate::engine::FaultReason;
use crate::memory::{low_bytes, Memory, MemoryModel};
use crate::nvic::ExcReturn;
use vstd::prelude::*;

verus! {

/// The number of bytes of a width.
pub open spec fn bytes_of(width: AccessWidth) -> u32 {
    match width {
        AccessWidth::Byte => 1,
        AccessWidth::HalfWord => 2,
        AccessWidth::Word => 4,
    }
}

fn byte_count(width: AccessWidth) -> (r: u32)
    ensures
        r == bytes_of(width),
{
    match width {
        AccessWidth::Byte => 1,
        AccessWidth::HalfWord => 2,
        AccessWidth::Word => 4,
    }
}

/// The value of an offset.
pub open spec fn offset_value(cpu: CpuState, offset: LoadStoreOffset) -> u32 {
    match offset {
        LoadStoreOffset::Immediate(imm) => imm,
        LoadStoreOffset::Register(rm) => cpu.reg(rm),
        LoadStoreOffset::RegisterShifted { rm, lsl } => cpu.reg(rm) << (lsl % 32),
    }
}

/// The address of a base register and an offset.
pub open spec fn address(cpu: CpuState, rn: u8, offset: LoadStoreOffset) -> u32 {
    wrap32(cpu.reg(rn) + offset_value(cpu, offset))
}

pub(crate) fn get_address(cpu: &CpuState, rn: u8, offset: LoadStoreOffset) -> (r: u32)
    requires
        rn < 16,
        offset.wf(),
    ensures
        r == address(*cpu, rn, offset),
{
    let off: u32 = match offset {
        LoadStoreOffset::Immediate(imm) => imm,
        LoadStoreOffset::Register(rm) => cpu.get(rm),
        LoadStoreOffset::RegisterShifted { rm, lsl } => cpu.get(rm) << (lsl % 32),
    };
    cpu.get(rn).wrapping_add(off)
}

/// The sum of two words, modulo 2^32.
pub(crate) fn moved(base: u32, imm: u32) -> (r: u32)
    ensures
        r == wrap32(base + imm),
{
    base.wrapping_add(imm)
}

/// What a register receives of a value that was read.
pub open spec fn extended_value(v: u32, width: AccessWidth, sign: bool) -> u32 {
    if !sign {
        v
    } else {
        match width {
            AccessWidth::Byte => wrap32(signed8(v as int)),
            AccessWidth::HalfWord => wrap32(signed16(v as int)),
            AccessWidth::Word => v,
        }
    }
}

fn extend_value(v: u32, width: AccessWidth, sign: bool) -> (r: u32)
    ensures
        r == extended_value(v, width, sign),
{
    if !sign {
        v
    } else {
        match width {
            AccessWidth::Byte => extend8(v),
            AccessWidth::HalfWord => extend16(v),
            AccessWidth::Word => v,
        }
    }
}

/// A bus fault at an address.
pub open spec fn bus_fault(cpu: CpuState, mem: MemoryModel, addr: u32) -> Effect {
    Effect {
        outcome: ExecOutcome::Fault { reason: FaultReason::BusFault { address: addr } },
        cpu,
        mem,
    }
}

/// A memory management fault at an address.
pub open spec fn mem_fault(cpu: CpuState, mem: MemoryModel, addr: u32) -> Effect {
    Effect {
        outcome: ExecOutcome::Fault { reason: FaultReason::MemManage { address: addr } },
        cpu,
        mem,
    }
}

/// The next instruction follows.
pub open spec fn next(cpu: CpuState, mem: MemoryModel) -> Effect {
    Effect { outcome: ExecOutcome::Continue, cpu, mem }
}

/// A load; a refused read is a bus fault.
#[verifier::opaque]
pub open spec fn after_load(
    cpu: CpuState,
    mem: MemoryModel,
    rt: u8,
    addr: u32,
    width: AccessWidth,
    sign: bool,
) -> Effect {
    match mem.reading(addr, bytes_of(width)) {
        (Ok(v), m) => next(cpu.with_reg(rt, extended_value(v, width, sign)), m),
        (Err(_), m) => bus_fault(cpu, m, addr),
    }
}

pub(crate) fn load(
    cpu: &mut CpuState,
    memory: &mut Memory,
    rt: u8,
    addr: u32,
    width: AccessWidth,
    sign: bool,
) -> (r: ExecOutcome)
    requires
        old(memory).wf(),
        rt < 16,
    ensures
        final(memory).wf(),
        after_load(*old(cpu), old(memory)@, rt, addr, width, sign) == (Effect {
            outcome: r,
            cpu: *final(cpu),
            mem: final(memory)@,
        }),
{
    proof {
        reveal(after_load);
    }
    match memory.read(addr, byte_count(width)) {
        Ok(v) => {
            cpu.set(rt, extend_value(v, width, sign));
            ExecOutcome::Continue
        },
        Err(_) => ExecOutcome::Fault { reason: FaultReason::BusFault { address: addr } },
    }
}

/// A store; a refused write is a memory management fault.
#[verifier::opaque]
pub open spec fn after_store(
    cpu: CpuState,
    mem: MemoryModel,
    val: u32,
    addr: u32,
    width: AccessWidth,
) -> Effect {
    match mem.writing(addr, bytes_of(width), low_bytes(val, bytes_of(width))) {
        (Ok(_), m) => next(cpu, m),
        (Err(_), m) => mem_fault(cpu, m, addr),
    }
}

pub(crate) fn store(
    cpu: &CpuState,
    memory: &mut Memory,
    val: u32,
    addr: u32,
    width: AccessWidth,
) -> (r: ExecOutcome)
    requires
        old(memory).wf(),
    ensures
        final(memory).wf(),
        after_store(*cpu, old(memory)@, val, addr, width) == (Effect {
            outcome: r,
            cpu: *cpu,
            mem: final(memory)@,
        }),
{
    proof {
        reveal(after_store);
    }
    match memory.write(addr, byte_count(width), val) {
        Ok(()) => ExecOutcome::Continue,
        Err(_) => ExecOutcome::Fault { reason: FaultReason::MemManage { address: addr } },
    }
}

/// A load or store that writes the address back, before (`pre`) or after the
/// access. Nothing is written back where the access is refused.
#[verifier::opaque]
pub open spec fn after_indexed(
    cpu: CpuState,
    mem: MemoryModel,
    rt: u8,
    rn: u8,
    imm: u32,
    width: AccessWidth,
    load: bool,
    sign: bool,
    pre: bool,
) -> Effect {
    let moved = wrap32(cpu.reg(rn) + imm);
    let addr = if pre {
        moved
    } else {
        cpu.reg(rn)
    };
    let e = if load {
        after_load(cpu, mem, rt, addr, width, sign)
    } else {
        after_store(cpu, mem, cpu.reg(rt), addr, width)
    };
    if e.outcome == ExecOutcome::Continue {
        next(e.cpu.with_reg_synced(rn, moved), e.mem)
    } else {
        e
    }
}

pub(crate) fn indexed(
    cpu: &mut CpuState,
    memory: &mut Memory,
    rt: u8,
    rn: u8,
    imm: u32,
    width: AccessWidth,
    is_load: bool,
    sign: bool,
    pre: bool,
) -> (r: ExecOutcome)
    requires
        old(memory).wf(),
        rt < 16,
        rn < 16,
    ensures
        final(memory).wf(),
        after_indexed(*old(cpu), old(memory)@, rt, rn, imm, width, is_load, sign, pre) == (Effect {
            outcome: r,
            cpu: *final(cpu),
            mem: final(memory)@,
        }),
{
    proof {
        reveal(after_indexed);
    }
    let base: u32 = cpu.get(rn);
    let moved: u32 = base.wrapping_add(imm);
    let addr: u32 = if pre {
        moved
    } else {
        base
    };
    let outcome = if is_load {
        load(cpu, memory, rt, addr, width, sign)
    } else {
        let val: u32 = cpu.get(rt);
        store(cpu, memory, val, addr, width)
    };
    if outcome == ExecOutcome::Continue {
        cpu.set_synced(rn, moved);
    }
    outcome
}

/// An exclusive store always succeeds where the write does, and says so in Rd.
#[verifier::opaque]
pub open spec fn after_strex(
    cpu: CpuState,
    mem: MemoryModel,
    rd: u8,
    val: u32,
    addr: u32,
    width: AccessWidth,
) -> Effect {
    match mem.writing(addr, bytes_of(width), low_bytes(val, bytes_of(width))) {
        (Ok(_), m) => next(cpu.with_reg(rd, 0), m),
        (Err(_), m) => bus_fault(cpu, m, addr),
    }
}

pub(crate) fn strex(
    cpu: &mut CpuState,
    memory: &mut Memory,
    rd: u8,
    val: u32,
    addr: u32,
    width: AccessWidth,
) -> (r: ExecOutcome)
    requires
        old(memory).wf(),
        rd < 16,
    ensures
        final(memory).wf(),
        after_strex(*old(cpu), old(memory)@, rd, val, addr, width) == (Effect {
            outcome: r,
            cpu: *final(cpu),
            mem: final(memory)@,
        }),
{
    proof {
        reveal(after_strex);
    }
    match memory.write(addr, byte_count(width), val) {
        Ok(()) => {
            cpu.set(rd, 0);
            ExecOutcome::Continue
        },
        Err(_) => ExecOutcome::Fault { reason: FaultReason::BusFault { address: addr } },
    }
}

/// LDRD: both words are read; the fault names the first address.
#[verifier::opaque]
pub open spec fn after_ldrd(cpu: CpuState, mem: MemoryModel, rt: u8, rt2: u8, addr: u32) -> Effect {
    let (a, m1) = mem.reading(addr, 4);
    let (b, m2) = m1.reading(wrap32(addr + 4), 4);
    match (a, b) {
        (Ok(lo), Ok(hi)) => next(cpu.with_reg(rt, lo).with_reg(rt2, hi), m2),
        _ => bus_fault(cpu, m2, addr),
    }
}

pub(crate) fn ldrd(
    cpu: &mut CpuState,
    memory: &mut Memory,
    rt: u8,
    rt2: u8,
    addr: u32,
) -> (r: ExecOutcome)
    requires
        old(memory).wf(),
        rt < 16,
        rt2 < 16,
    ensures
        final(memory).wf(),
        after_ldrd(*old(cpu), old(memory)@, rt, rt2, addr) == (Effect {
            outcome: r,
            cpu: *final(cpu),
            mem: final(memory)@,
        }),
{
    proof {
        reveal(after_ldrd);
    }
    let a = memory.read_u32(addr);
    let b = memory.read_u32(addr.wrapping_add(4));
    match (a, b) {
        (Ok(lo), Ok(hi)) => {
            cpu.set(rt, lo);
            cpu.set(rt2, hi);
            ExecOutcome::Continue
        },
        _ => ExecOutcome::Fault { reason: FaultReason::BusFault { address: addr } },
    }
}

/// STRD: both words are written as far as they can be; the fault names the first
/// address.
#[verifier::opaque]
pub open spec fn after_strd(cpu: CpuState, mem: MemoryModel, rt: u8, rt2: u8, addr: u32) -> Effect {
    let (a, m1) = mem.writing(addr, 4, cpu.reg(rt));
    let (b, m2) = m1.writing(wrap32(addr + 4), 4, cpu.reg(rt2));
    if a is Ok && b is Ok {
        next(cpu, m2)
    } else {
        bus_fault(cpu, m2, addr)
    }
}

pub(crate) fn strd(
    cpu: &CpuState,
    memory: &mut Memory,
    rt: u8,
    rt2: u8,
    addr: u32,
) -> (r: ExecOutcome)
    requires
        old(memory).wf(),
        rt < 16,
        rt2 < 16,
    ensures
        final(memory).wf(),
        after_strd(*cpu, old(memory)@, rt, rt2, addr) == (Effect {
            outcome: r,
            cpu: *cpu,
            mem: final(memory)@,
        }),
{
    proof {
        reveal(after_strd);
    }
    let a = memory.write_u32(addr, cpu.get(rt));
    let b = memory.write_u32(addr.wrapping_add(4), cpu.get(rt2));
    match (a, b) {
        (Ok(()), Ok(())) => ExecOutcome::Continue,
        _ => ExecOutcome::Fault { reason: FaultReason::BusFault { address: addr } },
    }
}

/// Register `i` is in a list.
pub open spec fn listed(regs: u16, i: int) -> bool {
    regs & (1u16 << (i as u16)) != 0
}

/// The number of registers from `i` on in a list.
pub open spec fn count_from(regs: u16, i: int) -> int
    decreases 16 - i,
{
    if i >= 16 {
        0
    } else {
        count_from(regs, i + 1) + (if listed(regs, i) {
            1int
        } else {
            0
        })
    }
}

fn count_listed(regs: u16) -> (r: u32)
    ensures
        r == count_from(regs, 0),
        r <= 16,
{
    let mut n: u32 = 0;
    let mut i: u16 = 0;
    while i < 16
        invariant
            i <= 16,
            n <= i,
            n + count_from(regs, i as int) == count_from(regs, 0),
        decreases 16 - i,
    {
        if regs & (1u16 << i) != 0 {
            n = n + 1;
        }
        i = i + 1;
    }
    n
}

/// Storing the registers of a list from `i` on at ascending addresses: the address
/// that faulted if one did, the memory, and the address after the last word.
pub open spec fn stored_from(cpu: CpuState, mem: MemoryModel, regs: u16, i: int, addr: u32) -> (
    Option<u32>,
    MemoryModel,
    u32,
)
    decreases 16 - i,
{
    if i >= 16 {
        (None, mem, addr)
    } else if !listed(regs, i) {
        stored_from(cpu, mem, regs, i + 1, addr)
    } else {
        match mem.writing(addr, 4, cpu.regs[i]) {
            (Ok(_), m) => stored_from(cpu, m, regs, i + 1, wrap32(addr + 4)),
            (Err(_), m) => (Some(addr), m, addr),
        }
    }
}

fn store_list(cpu: &CpuState, memory: &mut Memory, regs: u16, start: u32) -> (r: Result<u32, u32>)
    requires
        old(memory).wf(),
    ensures
        final(memory).wf(),
        ({
            let (fault, m, end) = stored_from(*cpu, old(memory)@, regs, 0, start);
            &&& final(memory)@ == m
            &&& match fault {
                Some(a) => r == Err::<u32, u32>(a),
                None => r == Ok::<u32, u32>(end),
            }
        }),
{
    let mut addr: u32 = start;
    let mut i: u16 = 0;
    while i < 16
        invariant
            i <= 16,
            memory.wf(),
            stored_from(*cpu, old(memory)@, regs, 0, start) == stored_from(
                *cpu,
                memory@,
                regs,
                i as int,
                addr,
            ),
        decreases 16 - i,
    {
        if regs & (1u16 << i) != 0 {
            match memory.write_u32(addr, cpu.regs[i as usize]) {
                Ok(()) => {},
                Err(_) => {
                    return Err(addr);
                },
            }
            addr = addr.wrapping_add(4);
        }
        i = i + 1;
    }
    Ok(addr)
}

/// The outcome of loading a list of registers.
pub struct ListLoad {
    /// The address that faulted.
    pub fault: Option<u32>,
    pub cpu: CpuState,
    pub mem: MemoryModel,
    /// The address after the last word.
    pub end: u32,
    /// The word for PC.
    pub pc: Option<u32>,
}

/// Loading the registers of a list from `i` on at ascending addresses. The word
/// for PC is kept apart.
pub open spec fn loaded_from(
    cpu: CpuState,
    mem: MemoryModel,
    regs: u16,
    i: int,
    addr: u32,
    pc: Option<u32>,
) -> ListLoad
    decreases 16 - i,
{
    if i >= 16 {
        ListLoad { fault: None, cpu, mem, end: addr, pc }
    } else if !listed(regs, i) {
        loaded_from(cpu, mem, regs, i + 1, addr, pc)
    } else {
        match mem.reading(addr, 4) {
            (Ok(v), m) => if i == 15 {
                loaded_from(cpu, m, regs, i + 1, wrap32(addr + 4), Some(v))
            } else {
                loaded_from(cpu.with_reg(i as u8, v), m, regs, i + 1, wrap32(addr + 4), pc)
            },
            (Err(_), m) => ListLoad { fault: Some(addr), cpu, mem: m, end: addr, pc },
        }
    }
}

fn load_list(cpu: &mut CpuState, memory: &mut Memory, regs: u16, start: u32) -> (r: Result<
    (u32, Option<u32>),
    u32,
>)
    requires
        old(memory).wf(),
    ensures
        final(memory).wf(),
        ({
            let l = loaded_from(*old(cpu), old(memory)@, regs, 0, start, None);
            &&& final(memory)@ == l.mem
            &&& *final(cpu) == l.cpu
            &&& match l.fault {
                Some(a) => r == Err::<(u32, Option<u32>), u32>(a),
                None => r == Ok::<(u32, Option<u32>), u32>((l.end, l.pc)),
            }
        }),
{
    let mut addr: u32 = start;
    let mut i: u16 = 0;
    let mut pc: Option<u32> = None;
    while i < 16
        invariant
            i <= 16,
            memory.wf(),
            loaded_from(*old(cpu), old(memory)@, regs, 0, start, None) == loaded_from(
                *cpu,
                memory@,
                regs,
                i as int,
                addr,
                pc,
            ),
        decreases 16 - i,
    {
        if regs & (1u16 << i) != 0 {
            match memory.read_u32(addr) {
                Ok(v) => {
                    if i == 15 {
                        pc = Some(v);
                    } else {
                        cpu.set(i as u8, v);
                    }
                },
                Err(_) => {
                    return Err(addr);
                },
            }
            addr = addr.wrapping_add(4);
        }
        i = i + 1;
    }
    Ok((addr, pc))
}

/// What a word loaded to PC does: it returns from an exception, or branches.
pub open spec fn pc_outcome(v: u32) -> ExecOutcome {
    if ExcReturn::of_value(v) != ExcReturn::Invalid {
        ExecOutcome::ExceptionReturn { exc_return: v }
    } else {
        ExecOutcome::Branch { target: (v - v % 2) as u32 }
    }
}

fn get_pc_outcome(v: u32) -> (r: ExecOutcome)
    ensures
        r == pc_outcome(v),
{
    if ExcReturn::from_value(v) != ExcReturn::Invalid {
        ExecOutcome::ExceptionReturn { exc_return: v }
    } else {
        ExecOutcome::Branch { target: v - v % 2 }
    }
}

/// The list of PUSH: the low registers and LR.
pub open spec fn push_list(regs: u16, lr: bool) -> u16 {
    (regs & 0xFF) | (if lr {
        0x4000u16
    } else {
        0u16
    })
}

/// PUSH: the registers are stored below SP, which moves only where all were.
#[verifier::opaque]
pub open spec fn after_push(cpu: CpuState, mem: MemoryModel, regs: u16, lr: bool) -> Effect {
    let list = push_list(regs, lr);
    let sp = wrap32(cpu.regs[13] - 4 * count_from(list, 0));
    match stored_from(cpu, mem, list, 0, sp) {
        (Some(a), m, _) => mem_fault(cpu, m, a),
        (None, m, _) => next(cpu.with_reg_synced(13, sp), m),
    }
}

pub(crate) fn push(cpu: &mut CpuState, memory: &mut Memory, regs: u16, lr: bool) -> (r: ExecOutcome)
    requires
        old(memory).wf(),
    ensures
        final(memory).wf(),
        after_push(*old(cpu), old(memory)@, regs, lr) == (Effect {
            outcome: r,
            cpu: *final(cpu),
            mem: final(memory)@,
        }),
{
    proof {
        reveal(after_push);
    }
    let list: u16 = (regs & 0xFF) | (if lr {
        0x4000u16
    } else {
        0u16
    });
    let sp: u32 = cpu.get(13).wrapping_sub(4 * count_listed(list));
    match store_list(cpu, memory, list, sp) {
        Ok(_) => {
            cpu.set_synced(13, sp);
            ExecOutcome::Continue
        },
        Err(a) => ExecOutcome::Fault { reason: FaultReason::MemManage { address: a } },
    }
}

/// The list of POP: the low registers and PC.
pub open spec fn pop_list(regs: u16, pc: bool) -> u16 {
    (regs & 0xFF) | (if pc {
        0x8000u16
    } else {
        0u16
    })
}

/// POP: the registers are loaded from SP on, which moves only where all were. A
/// branch also writes PC.
#[verifier::opaque]
pub open spec fn after_pop(cpu: CpuState, mem: MemoryModel, regs: u16, pc: bool) -> Effect {
    let list = pop_list(regs, pc);
    let l = loaded_from(cpu, mem, list, 0, cpu.regs[13], None);
    match l.fault {
        Some(a) => bus_fault(l.cpu, l.mem, a),
        None => {
            let moved = l.cpu.with_reg_synced(
                13,
                wrap32(cpu.regs[13] + 4 * count_from(list, 0)),
            );
            match l.pc {
                None => next(moved, l.mem),
                Some(v) => Effect {
                    outcome: pc_outcome(v),
                    cpu: match pc_outcome(v) {
                        ExecOutcome::Branch { target } => moved.with_reg(15, target),
                        _ => moved,
                    },
                    mem: l.mem,
                },
            }
        },
    }
}

pub(crate) fn pop(cpu: &mut CpuState, memory: &mut Memory, regs: u16, pc: bool) -> (r: ExecOutcome)
    requires
        old(memory).wf(),
    ensures
        final(memory).wf(),
        after_pop(*old(cpu), old(memory)@, regs, pc) == (Effect {
            outcome: r,
            cpu: *final(cpu),
            mem: final(memory)@,
        }),
{
    proof {
        reveal(after_pop);
    }
    let list: u16 = (regs & 0xFF) | (if pc {
        0x8000u16
    } else {
        0u16
    });
    let sp: u32 = cpu.get(13);
    match load_list(cpu, memory, list, sp) {
        Ok((_, word)) => {
            cpu.set_synced(13, sp.wrapping_add(4 * count_listed(list)));
            match word {
                None => ExecOutcome::Continue,
                Some(v) => {
                    let outcome = get_pc_outcome(v);
                    if let ExecOutcome::Branch { target } = outcome {
                        cpu.set(15, target);
                    }
                    outcome
                },
            }
        },
        Err(a) => ExecOutcome::Fault { reason: FaultReason::BusFault { address: a } },
    }
}

/// The first address of a list: at the base, or so far below it that the list ends
/// there.
pub open spec fn list_start(cpu: CpuState, rn: u8, regs: u16, descending: bool) -> u32 {
    if descending {
        wrap32(cpu.reg(rn) - 4 * count_from(regs, 0))
    } else {
        cpu.reg(rn)
    }
}

fn get_list_start(cpu: &CpuState, rn: u8, regs: u16, descending: bool) -> (r: u32)
    requires
        rn < 16,
    ensures
        r == list_start(*cpu, rn, regs, descending),
{
    if descending {
        cpu.get(rn).wrapping_sub(4 * count_listed(regs))
    } else {
        cpu.get(rn)
    }
}

/// The base written back: the first address of a descending list, else the address
/// after the last word.
pub open spec fn with_base(
    cpu: CpuState,
    rn: u8,
    writeback: bool,
    descending: bool,
    start: u32,
    end: u32,
) -> CpuState {
    if !writeback {
        cpu
    } else if descending {
        cpu.with_reg_synced(rn, start)
    } else {
        cpu.with_reg_synced(rn, end)
    }
}

fn set_base(
    cpu: &mut CpuState,
    rn: u8,
    writeback: bool,
    descending: bool,
    start: u32,
    end: u32,
)
    requires
        rn < 16,
    ensures
        *final(cpu) == with_base(*old(cpu), rn, writeback, descending, start, end),
{
    if writeback {
        if descending {
            cpu.set_synced(rn, start);
        } else {
            cpu.set_synced(rn, end);
        }
    }
}

/// LDM.
#[verifier::opaque]
pub open spec fn after_ldm(
    cpu: CpuState,
    mem: MemoryModel,
    rn: u8,
    regs: u16,
    writeback: bool,
    descending: bool,
) -> Effect {
    let start = list_start(cpu, rn, regs, descending);
    let l = loaded_from(cpu, mem, regs, 0, start, None);
    match l.fault {
        Some(a) => bus_fault(l.cpu, l.mem, a),
        None => Effect {
            outcome: match l.pc {
                Some(v) => pc_outcome(v),
                None => ExecOutcome::Continue,
            },
            cpu: with_base(l.cpu, rn, writeback, descending, start, l.end),
            mem: l.mem,
        },
    }
}

pub(crate) fn ldm(
    cpu: &mut CpuState,
    memory: &mut Memory,
    rn: u8,
    regs: u16,
    writeback: bool,
    descending: bool,
) -> (r: ExecOutcome)
    requires
        old(memory).wf(),
        rn < 16,
    ensures
        final(memory).wf(),
        after_ldm(*old(cpu), old(memory)@, rn, regs, writeback, descending) == (Effect {
            outcome: r,
            cpu: *final(cpu),
            mem: final(memory)@,
        }),
{
    proof {
        reveal(after_ldm);
    }
    let start: u32 = get_list_start(cpu, rn, regs, descending);
    match load_list(cpu, memory, regs, start) {
        Ok((end, word)) => {
            set_base(cpu, rn, writeback, descending, start, end);
            match word {
                Some(v) => get_pc_outcome(v),
                None => ExecOutcome::Continue,
            }
        },
        Err(a) => ExecOutcome::Fault { reason: FaultReason::BusFault { address: a } },
    }
}

/// STM.
#[verifier::opaque]
pub open spec fn after_stm(
    cpu: CpuState,
    mem: MemoryModel,
    rn: u8,
    regs: u16,
    writeback: bool,
    descending: bool,
) -> Effect {
    let start = list_start(cpu, rn, regs, descending);
    match stored_from(cpu, mem, regs, 0, start) {
        (Some(a), m, _) => mem_fault(cpu, m, a),
        (None, m, end) => next(with_base(cpu, rn, writeback, descending, start, end), m),
    }
}

pub(crate) fn stm(
    cpu: &mut CpuState,
    memory: &mut Memory,
    rn: u8,
    regs: u16,
    writeback: bool,
    descending: bool,
) -> (r: ExecOutcome)
    requires
        old(memory).wf(),
        rn < 16,
    ensures
        final(memory).wf(),
        after_stm(*old(cpu), old(memory)@, rn, regs, writeback, descending) == (Effect {
            outcome: r,
            cpu: *final(cpu),
            mem: final(memory)@,
        }),
{
    proof {
        reveal(after_stm);
    }
    let start: u32 = get_list_start(cpu, rn, regs, descending);
    match store_list(cpu, memory, regs, start) {
        Ok(end) => {
            set_base(cpu, rn, writeback, descending, start, end);
            ExecOutcome::Continue
        },
        Err(a) => ExecOutcome::Fault { reason: FaultReason::MemManage { address: a } },
    }
}

} // verus!
