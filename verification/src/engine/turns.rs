//! Why a run comes to an end: only so many exceptions can be entered in a row.
//!
//! Every entry is more urgent than what it interrupts, so a row of entries ends as
//! long as the priorities stay. An entry changes them only where its frame falls on
//! the priority registers of the system block. The main stack pointer moves down
//! with every entry of a handler, so it passes these registers once.
use crate::bits::{wrap32, wrap64};
use crate::engine::engine::{
    frame_place, frame_words, most_urgent, priority, running_priority, vector_of, with_unpended,
    with_vectactive, words_written, Machine,
};
use crate::engine::exec::ExecOutcome;
use crate::engine::EngineResult;
use crate::memory::{first_device, first_named, MemoryModel};
use crate::nvic::NvicModel;
use crate::peripheral::DeviceModel;
use crate::system::{SystemBlock, SYSTEM_BLOCK_NAME};
use vstd::prelude::*;

verus! {

/// How far an address is above the priority registers SHPR1 to SHPR3.
pub open spec fn above_priorities(addr: u32) -> u32 {
    wrap32(addr - 0xE000_ED18)
}

/// A number that falls with every exception entry: the priority of the running
/// exception, where the main stack has room for as many frames above or below the
/// priority registers; until then the distance to these registers.
pub open spec fn entries_left(m: Machine) -> int {
    let p = running_priority(m.mem, m.nvic);
    let d = above_priorities(m.cpu.msp);
    if m.nvic.current == 0 {
        0x2_0000_0000
    } else if d > 0x6C * p + 0x100 {
        p
    } else {
        0x1000 + d
    }
}

/// Two memories give the system exceptions the same priorities.
pub open spec fn same_priorities(a: MemoryModel, b: MemoryModel) -> bool {
    match (a.system(), b.system()) {
        (Some(s), Some(t)) => s.shpr1 == t.shpr1 && s.shpr2 == t.shpr2 && s.shpr3 == t.shpr3,
        (None, None) => true,
        _ => false,
    }
}

proof fn lemma_same_priority(a: MemoryModel, b: MemoryModel, n: NvicModel, o: NvicModel, number: u8)
    requires
        same_priorities(a, b),
        n.priority == o.priority,
    ensures
        priority(a, n, number) == priority(b, o, number),
{
}

proof fn lemma_device_index(devices: Seq<DeviceModel>, addr: u32, from: int)
    requires
        0 <= from,
    ensures
        first_device(devices, addr, from) matches Some(i) ==> from <= i < devices.len(),
    decreases devices.len() - from,
{
    if from < devices.len() {
        lemma_device_index(devices, addr, from + 1);
    }
}

proof fn lemma_named_index(devices: Seq<DeviceModel>, name: Seq<char>, from: int)
    requires
        0 <= from,
    ensures
        first_named(devices, name, from) matches Some(i) ==> from <= i < devices.len(),
    decreases devices.len() - from,
{
    if from < devices.len() {
        lemma_named_index(devices, name, from + 1);
    }
}

/// A device that keeps its name keeps its place among the names.
proof fn lemma_named_update(
    devices: Seq<DeviceModel>,
    i: int,
    d: DeviceModel,
    name: Seq<char>,
    from: int,
)
    requires
        0 <= i < devices.len(),
        0 <= from,
        d.name() == devices[i].name(),
    ensures
        first_named(devices.update(i, d), name, from) == first_named(devices, name, from),
    decreases devices.len() - from,
{
    if from < devices.len() {
        lemma_named_update(devices, i, d, name, from + 1);
    }
}

/// A memory with one device changed, which is not the system block or keeps its
/// priorities.
proof fn lemma_device_changed(m: MemoryModel, after: MemoryModel, i: int, d: DeviceModel)
    requires
        0 <= i < m.devices.len(),
        after.devices == m.devices.update(i, d),
        d.name() == m.devices[i].name(),
        match (m.devices[i], d) {
            (DeviceModel::System(s), DeviceModel::System(t)) => s.shpr1 == t.shpr1 && s.shpr2
                == t.shpr2 && s.shpr3 == t.shpr3,
            (DeviceModel::System(_), _) => false,
            (_, DeviceModel::System(_)) => false,
            _ => true,
        },
    ensures
        same_priorities(m, after),
{
    lemma_named_update(m.devices, i, d, SYSTEM_BLOCK_NAME@, 0);
    lemma_named_index(m.devices, SYSTEM_BLOCK_NAME@, 0);
}

/// Reading keeps the priorities.
proof fn lemma_read_keeps(m: MemoryModel, addr: u32)
    ensures
        same_priorities(m, m.reading(addr, 4).1),
{
    reveal(MemoryModel::reading);
    if let Some(i) = m.device_for(addr) {
        lemma_device_index(m.devices, addr, 0);
        let after = m.after_read(addr, 4);
        lemma_device_changed(m, after, i, m.devices[i].after_read(addr, 4));
    }
}

/// Writing elsewhere keeps the priorities.
proof fn lemma_write_keeps(m: MemoryModel, addr: u32, val: u32)
    requires
        above_priorities(addr) >= 0x10,
    ensures
        same_priorities(m, m.writing(addr, 4, val).1),
{
    reveal(MemoryModel::writing);
    if let Some(i) = m.device_for(addr) {
        lemma_device_index(m.devices, addr, 0);
        let after = m.after_write(addr, 4, val);
        let d = m.devices[i].after_write(addr, 4, val);
        if let DeviceModel::System(s) = m.devices[i] {
            let word = addr & !3u32;
            assert(addr & !3u32 <= addr && addr <= (addr & !3u32) + 3) by (bit_vector);
            assert(SystemBlock::word_offset(addr) == wrap32(word - 0xE000_E000));
            assert(SystemBlock::word_offset(addr) != 0xD18);
            assert(SystemBlock::word_offset(addr) != 0xD1C);
            assert(SystemBlock::word_offset(addr) != 0xD20);
        }
        lemma_device_changed(m, after, i, d);
    }
}

proof fn lemma_words_keep(m: MemoryModel, addr: u32, words: Seq<u32>)
    requires
        above_priorities(addr) >= 0x10,
        above_priorities(addr) + 4 * words.len() <= 0x1_0000_0000,
    ensures
        same_priorities(m, words_written(m, addr, words)),
    decreases words.len(),
{
    if words.len() > 0 {
        lemma_write_keeps(m, addr, words[0]);
        let after = m.writing(addr, 4, words[0]).1;
        if words.len() > 1 {
            assert(above_priorities(wrap32(addr + 4)) == above_priorities(addr) + 4);
            lemma_words_keep(after, wrap32(addr + 4), words.skip(1));
        } else {
            assert(words.skip(1).len() == 0);
        }
    }
}

/// Marking an exception keeps the priorities.
proof fn lemma_mark_keeps(m: MemoryModel, s: SystemBlock)
    requires
        m.system() matches Some(t) && s.shpr1 == t.shpr1 && s.shpr2 == t.shpr2 && s.shpr3
            == t.shpr3,
    ensures
        same_priorities(m, m.with_system(s)),
{
    lemma_named_index(m.devices, SYSTEM_BLOCK_NAME@, 0);
    let i = first_named(m.devices, SYSTEM_BLOCK_NAME@, 0)->0;
    lemma_device_changed(m, m.with_system(s), i, DeviceModel::System(s));
}

/// The most urgent exception is more urgent than what is running.
proof fn lemma_more_urgent(m: Machine, k: int)
    requires
        k <= 256,
    ensures
        most_urgent(m.cpu, m.mem, m.nvic, k) matches Some(n) ==> 1 <= n && priority(
            m.mem,
            m.nvic,
            n,
        ) < running_priority(m.mem, m.nvic),
    decreases k,
{
    if k > 1 {
        lemma_more_urgent(m, k - 1);
    }
}

/// An entry with a frame away from the priority registers keeps the priorities.
proof fn lemma_entry_keeps(m: Machine, number: u8)
    requires
        m.nvic.current != 0,
        above_priorities(m.cpu.msp) > 0x100,
    ensures
        same_priorities(m.mem, m.entered(number, None).mem),
{
    reveal(Machine::entered);
    let p = frame_place(m);
    let words = frame_words(m.cpu, m.cpu.regs[15], p.realigned, p.extended);
    let framed = words_written(m.mem, p.sp, words);
    assert(words.len() == if p.extended {
        25nat
    } else {
        8nat
    });
    assert(above_priorities(p.sp) == above_priorities(m.cpu.msp) - (if p.realigned {
        4int
    } else {
        0
    }) - (if p.extended {
        0x68int
    } else {
        0x20
    }));
    lemma_words_keep(m.mem, p.sp, words);
    let base = match framed.system() {
        Some(s) => s.vtor,
        None => 0,
    };
    lemma_read_keeps(framed, wrap32(base + 4 * number));
    let read = vector_of(framed, number).1;
    let unpended = with_unpended(read, number);
    assert(same_priorities(read, unpended)) by {
        if let Some(s) = read.system() {
            if number < 16 {
                lemma_mark_keeps(read, s.unpend(number));
            }
        }
    }
    assert(same_priorities(unpended, with_vectactive(unpended, number))) by {
        if let Some(s) = unpended.system() {
            lemma_mark_keeps(unpended, SystemBlock { vectactive: number, ..s });
        }
    }
}

/// A turn that enters an exception brings the end of the row nearer and counts no
/// instruction.
pub proof fn lemma_entry_turn(m: Machine, number: u8)
    requires
        m.next_exception() == Some(number),
    ensures
        ({
            let after = m.entered(number, None).excepted();
            &&& 0 <= entries_left(after) < entries_left(m)
            &&& after.engine.stats.instructions == m.engine.stats.instructions
            &&& after.engine.max_instructions == m.engine.max_instructions
        }),
{
    let entered = m.entered(number, None);
    let after = entered.excepted();
    lemma_more_urgent(m, 256);
    assert(entered.nvic == m.nvic.entered(number) && entered.cpu.msp == if frame_place(m).process {
        m.cpu.msp
    } else {
        frame_place(m).sp
    } && entered.engine.stats.instructions == m.engine.stats.instructions
        && entered.engine.max_instructions == m.engine.max_instructions) by {
        reveal(Machine::entered);
    }
    if m.nvic.current != 0 && above_priorities(m.cpu.msp) > 0x100 {
        lemma_entry_keeps(m, number);
        lemma_same_priority(m.mem, after.mem, m.nvic, after.nvic, number);
    }
}

/// A step that goes on counts one instruction.
pub proof fn lemma_step_turn(m: Machine)
    ensures
        ({
            let (r, after) = m.stepped();
            let (before, count) = (m.engine.stats.instructions, after.engine.stats.instructions);
            &&& count == before || count == wrap64(before + 1)
            &&& r == EngineResult::Halted ==> count == wrap64(before + 1)
            &&& r != EngineResult::LimitReached
            &&& after.engine.max_instructions == m.engine.max_instructions
        }),
{
    reveal(Machine::stepped);
    reveal(Machine::fetched);
    let (fetched, m1) = m.fetched();
    assert(m1.engine.stats == m.engine.stats);
    assert(m1.engine.max_instructions == m.engine.max_instructions);
    if let Ok((instr, width)) = fetched {
        let (outcome, m2) = m1.executed(instr);
        assert(m2.engine.stats.instructions == wrap64(m.engine.stats.instructions + 1));
        lemma_followed_counts(m2, outcome, width);
    }
}

proof fn lemma_followed_counts(m: Machine, outcome: ExecOutcome, width: u32)
    ensures
        m.followed(outcome, width).0 != EngineResult::LimitReached,
        m.followed(outcome, width).1.engine.stats.instructions == m.engine.stats.instructions,
        m.followed(outcome, width).1.engine.max_instructions == m.engine.max_instructions,
{
    reveal(Machine::followed);
    reveal(Machine::entered);
    reveal(Machine::returned);
}

} // verus!
