//! What holds of the engine as a whole: arbitration, masking, exception entry and
//! return, IT blocks.
use crate::bits::{wrap32, wrap64};
use crate::cpu::CpuState;
use crate::engine::decode::{AccessWidth, Cond, Instruction, SpecialReg};
use crate::engine::engine::{
    acceptable, entry_lr, frame_place, frame_words, masked, most_urgent, priority, restored_cpu,
    restored_s, vector_of, with_unpended, with_vectactive, words_read, words_written, Machine,
};
use crate::engine::exec::{
    block_len, data_step, effect, holds, implicit_flags, needs_fpu, ExecOutcome, Executor,
};
use crate::engine::fpu::FpuRegisters;
use crate::engine::special::{after_msr, special_value};
use crate::engine::transfer::{
    after_load, after_pop, after_push, after_store, bytes_of, count_from, extended_value, listed,
    loaded_from, pc_outcome, pop_list, push_list, stored_from,
};
use crate::engine::turns::{entries_left, lemma_entry_turn, lemma_step_turn};
use crate::engine::{EngineResult, EngineStats, FaultReason};
use crate::memory::{le_bytes, le_value, low_bytes, splice, MemoryModel, MemoryRegionType};
use crate::nvic::NvicModel;
use vstd::prelude::*;

verus! {

/// Arbitration: the chosen exception is acceptable and no acceptable one is more
/// urgent, and of equally urgent ones it has the least number; where none is
/// chosen, none is acceptable.
pub proof fn law_arbitration(cpu: CpuState, mem: MemoryModel, nvic: NvicModel, k: int)
    requires
        1 <= k <= 256,
    ensures
        match most_urgent(cpu, mem, nvic, k) {
            Some(b) => 1 <= b < k && acceptable(cpu, mem, nvic, b as int) && forall|n: int|
                1 <= n < k && #[trigger] acceptable(cpu, mem, nvic, n) ==> priority(mem, nvic, b)
                    < priority(mem, nvic, n as u8) || (priority(mem, nvic, b) == priority(
                    mem,
                    nvic,
                    n as u8,
                ) && b <= n),
            None => forall|n: int| 1 <= n < k ==> !#[trigger] acceptable(cpu, mem, nvic, n),
        },
    decreases k,
{
    if k > 1 {
        law_arbitration(cpu, mem, nvic, k - 1);
    }
}

/// An exception preempts only what is less urgent: one of the same priority as the
/// running one stays pending.
pub proof fn law_no_equal_preemption(cpu: CpuState, mem: MemoryModel, nvic: NvicModel, n: u8)
    requires
        nvic.current != 0,
        priority(mem, nvic, n) >= priority(mem, nvic, nvic.current),
    ensures
        !acceptable(cpu, mem, nvic, n as int),
{
}

/// NMI is never masked. FAULTMASK holds everything else back, PRIMASK everything but
/// NMI and HardFault, and BASEPRI what has its priority or a less urgent one.
pub proof fn law_masking(cpu: CpuState, mem: MemoryModel, nvic: NvicModel, n: u8)
    ensures
        !masked(cpu, 2, priority(mem, nvic, 2)),
        cpu.faultmask != 0 && n != 2 ==> !acceptable(cpu, mem, nvic, n as int),
        cpu.primask != 0 && n != 2 && n != 3 ==> !acceptable(cpu, mem, nvic, n as int),
        cpu.basepri != 0 && n != 2 && n != 3 && priority(mem, nvic, n) >= 2 + cpu.basepri
            ==> !acceptable(cpu, mem, nvic, n as int),
        cpu.faultmask == 0 && cpu.primask == 0 && cpu.basepri == 0 ==> !masked(
            cpu,
            n,
            priority(mem, nvic, n),
        ),
{
}

/// An IT instruction, whose mask has four bits, opens a block of one to four
/// instructions, and in a block each instruction, skipped or not, is one less to come.
pub proof fn law_it_block(e: Executor, cpu: CpuState, mem: MemoryModel, instr: Instruction)
    requires
        e.wf(),
    ensures
        e.executed(cpu, mem, instr).executor.wf(),
        instr matches Instruction::It { mask, .. } ==> (0 < mask < 16 ==> 1 <= block_len(mask)
            <= 4),
        e.it_remaining == 0 ==> (instr matches Instruction::It { mask, .. } ==> e.executed(
            cpu,
            mem,
            instr,
        ).executor.it_remaining == block_len(mask)),
        !(instr is It) ==> e.executed(cpu, mem, instr).executor.it_remaining == if e.it_remaining
            == 0 {
            0
        } else {
            (e.it_remaining - 1) as u8
        },
{
    reveal(Executor::executed);
    reveal(Executor::passed);
}

/// In an IT block an instruction whose condition fails changes neither the core nor
/// the memory.
pub proof fn law_skipped(e: Executor, cpu: CpuState, mem: MemoryModel, instr: Instruction)
    requires
        e.it_remaining > 0,
        !holds(cpu.xpsr, e.current_cond()),
    ensures
        e.executed(cpu, mem, instr).effect.outcome == ExecOutcome::Skipped,
        e.executed(cpu, mem, instr).effect.cpu == cpu,
        e.executed(cpu, mem, instr).effect.mem == mem,
{
    reveal(Executor::executed);
}

/// Without access to the floating point unit its instructions fault and change
/// neither the core nor the memory.
pub proof fn law_fpu_gate(e: Executor, cpu: CpuState, mem: MemoryModel, instr: Instruction)
    requires
        e.it_remaining == 0,
        needs_fpu(instr),
        !cpu.has_fpu(),
    ensures
        e.executed(cpu, mem, instr).effect.outcome == (ExecOutcome::Fault {
            reason: FaultReason::UsageFault { address: cpu.regs[15] },
        }),
        e.executed(cpu, mem, instr).effect.cpu == cpu,
        e.executed(cpu, mem, instr).effect.mem == mem,
{
    reveal(Executor::executed);
    reveal(Executor::passed);
}

/// Exception entry, a fault and a breakpoint leave the IT block.
pub proof fn law_it_left(m: Machine, number: u8, pc: Option<u32>, reason: FaultReason, width: u32)
    ensures
        m.entered(number, pc).engine.executor.it_remaining == 0,
        m.followed(ExecOutcome::Fault { reason }, width).1.engine.executor.it_remaining == 0,
        m.followed(ExecOutcome::DebugEvent, width).1.engine.executor.it_remaining == 0,
{
    reveal(Machine::entered);
    reveal(Machine::followed);
}

/// An exception that was entered is active and no longer pending.
pub proof fn law_entry_state(m: Machine, number: u8, pc: Option<u32>)
    requires
        1 <= number,
    ensures
        m.entered(number, pc).nvic.current == number,
        m.entered(number, pc).nvic.stack == m.nvic.stack.push(m.nvic.current),
        m.entered(number, pc).cpu.regs[14] == entry_lr(
            m.cpu.control & 4 != 0,
            m.nvic.current == 0,
            m.nvic.current == 0 && m.cpu.control & 1 != 0,
        ),
        m.entered(number, pc).cpu.regs[15] % 2 == 0,
        m.entered(number, pc).cpu.xpsr & 0x1FF == number,
{
    reveal(Machine::entered);
    let x = m.cpu.xpsr;
    let n = number as u32;
    assert(((x & !0x1FFu32) | n) & 0x1FF == n) by (bit_vector)
        requires
            n < 256,
    ;
}

/// Two memories with the same regions, protection and bytes.
pub open spec fn same_bytes(a: MemoryModel, b: MemoryModel) -> bool {
    &&& a.regions == b.regions
    &&& a.mpu_regions == b.mpu_regions
    &&& a.mpu_enabled == b.mpu_enabled
    &&& a.unalign_trap == b.unalign_trap
    &&& a.flash == b.flash
    &&& a.sram == b.sram
    &&& a.ccm == b.ccm
}

/// The `n` words from an address on are granted RAM, one after the other from an
/// offset of a kind of storage on.
pub open spec fn is_stack(
    m: MemoryModel,
    addr: u32,
    n: nat,
    kind: MemoryRegionType,
    off: int,
) -> bool {
    &&& addr + 4 * n <= 0x1_0000_0000
    &&& forall|i: int|
        0 <= i < n ==> m.place_of(#[trigger] word_addr(addr, i)) == Some((kind, off + 4 * i))
            && m.access_fault(word_addr(addr, i), 4, true) is None && m.access_fault(
            word_addr(addr, i),
            4,
            false,
        ) is None
}

/// The address of word `i` from an address on.
pub open spec fn word_addr(addr: u32, i: int) -> u32 {
    wrap32(addr + 4 * i)
}

proof fn lemma_same_bytes(a: MemoryModel, b: MemoryModel, addr: u32, write: bool)
    requires
        same_bytes(a, b),
    ensures
        a.wf() == b.wf(),
        a.region_of(addr) == b.region_of(addr),
        a.place_of(addr) == b.place_of(addr),
        a.access_fault(addr, 4, write) == b.access_fault(addr, 4, write),
{
    reveal(MemoryModel::wf);
    if a.wf() {
        assert(b.wf());
    }
    if b.wf() {
        assert forall|i: int| 0 <= i < a.regions.len() implies match a.storage(
            (#[trigger] a.regions[i]).region_type,
        ) {
            Some(bytes) => a.regions[i].end - a.regions[i].start <= bytes.len(),
            None => true,
        } by {
            assert(b.regions[i] == a.regions[i]);
            assert(a.storage(a.regions[i].region_type) == b.storage(a.regions[i].region_type));
        }
    }
}

proof fn lemma_reading_keeps(m: MemoryModel, addr: u32)
    ensures
        same_bytes(m, m.reading(addr, 4).1),
{
    reveal(MemoryModel::reading);
}

proof fn lemma_marking_keeps(m: MemoryModel, number: u8, active: u8)
    ensures
        same_bytes(m, with_vectactive(m, active)),
        same_bytes(m, with_unpended(m, number)),
{
}

/// One written word of a stack.
proof fn lemma_word_written(
    m: MemoryModel,
    addr: u32,
    n: nat,
    kind: MemoryRegionType,
    off: int,
    word: u32,
)
    requires
        m.wf(),
        n > 0,
        is_stack(m, addr, n, kind, off),
    ensures
        ({
            let after = m.writing(addr, 4, word).1;
            &&& after.wf()
            &&& is_stack(after, wrap32(addr + 4), (n - 1) as nat, kind, off + 4)
            &&& off >= 0
            &&& m.storage(kind) matches Some(s) && off + 4 <= s.len() && after.storage(kind)
                == Some(splice(s, off, le_bytes(word, 4)))
            &&& after.regions == m.regions
            &&& after.mpu_regions == m.mpu_regions
            &&& after.mpu_enabled == m.mpu_enabled
            &&& after.unalign_trap == m.unalign_trap
        }),
{
    reveal(MemoryModel::writing);
    let after = m.writing(addr, 4, word).1;
    assert(word_addr(addr, 0) == addr);
    assert(m.place_of(addr) == Some((kind, off)));
    crate::memory::lemma_region_backed(m, addr);
    let r = m.region_of(addr)->0;
    let s = m.storage(kind)->0;
    assert(after.storage(kind) == Some(splice(s, off, le_bytes(word, 4))));
    assert(after.wf()) by {
        reveal(MemoryModel::wf);
        assert forall|i: int| 0 <= i < after.regions.len() implies match after.storage(
            (#[trigger] after.regions[i]).region_type,
        ) {
            Some(bytes) => after.regions[i].end - after.regions[i].start <= bytes.len(),
            None => true,
        } by {
            assert(m.regions[i] == after.regions[i]);
        }
    }
    assert forall|i: int| 0 <= i < n - 1 implies after.place_of(
        #[trigger] word_addr(wrap32(addr + 4), i),
    ) == Some((kind, off + 4 + 4 * i)) && after.access_fault(
        word_addr(wrap32(addr + 4), i),
        4,
        true,
    ) is None && after.access_fault(word_addr(wrap32(addr + 4), i), 4, false) is None by {
        assert(word_addr(wrap32(addr + 4), i) == word_addr(addr, i + 1));
        assert(after.region_of(word_addr(addr, i + 1)) == m.region_of(word_addr(addr, i + 1)));
    }
}

/// A spliced word is read back where nothing was changed at its place since.
proof fn lemma_spliced_word(s0: Seq<u8>, s: Seq<u8>, off: int, word: u32)
    requires
        0 <= off,
        off + 4 <= s0.len(),
        s.len() == s0.len(),
        forall|j: int| off <= j < off + 4 ==> s[j] == #[trigger] splice(s0, off, le_bytes(word, 4))[j],
    ensures
        le_value(s, off, 4) == word,
{
    let bytes = le_bytes(word, 4);
    let s1 = splice(s0, off, bytes);
    assert(s1[off] == bytes[0] && s1[off + 1] == bytes[1] && s1[off + 2] == bytes[2] && s1[off + 3]
        == bytes[3]);
}

/// The words of a stack after they were written; what is below and above is kept.
#[verifier::spinoff_prover]
#[verifier::rlimit(40)]
proof fn lemma_words_written(
    m: MemoryModel,
    addr: u32,
    kind: MemoryRegionType,
    off: int,
    words: Seq<u32>,
)
    requires
        m.wf(),
        is_stack(m, addr, words.len(), kind, off),
        m.storage(kind) is Some,
    ensures
        ({
            let after = words_written(m, addr, words);
            let old = m.storage(kind)->0;
            &&& after.wf()
            &&& is_stack(after, addr, words.len(), kind, off)
            &&& after.storage(kind) matches Some(s) && s.len() == old.len() && (forall|i: int|
                0 <= i < words.len() ==> #[trigger] le_value(s, off + 4 * i, 4) == words[i]) && (
            forall|j: int|
                0 <= j < old.len() && (j < off || j >= off + 4 * words.len()) ==> #[trigger] s[j]
                    == old[j])
        }),
    decreases words.len(),
{
    let after = words_written(m, addr, words);
    if words.len() > 0 {
        lemma_word_written(m, addr, words.len(), kind, off, words[0]);
        let one = m.writing(addr, 4, words[0]).1;
        let rest = words.skip(1);
        lemma_words_written(one, wrap32(addr + 4), kind, off + 4, rest);
        let bytes = le_bytes(words[0], 4);
        let s0 = m.storage(kind)->0;
        let s1 = splice(s0, off, bytes);
        let s = after.storage(kind)->0;
        assert forall|i: int| 0 <= i < words.len() implies #[trigger] le_value(s, off + 4 * i, 4)
            == words[i] by {
            if i == 0 {
                lemma_spliced_word(s0, s, off, words[0]);
            } else {
                assert(le_value(s, off + 4 + 4 * (i - 1), 4) == rest[i - 1]);
                assert(off + 4 + 4 * (i - 1) == off + 4 * i);
            }
        }
        assert forall|j: int| 0 <= j < s0.len() && (j < off || j >= off + 4 * words.len()) implies
            #[trigger] s[j] == s0[j] by {
            assert(s1[j] == s0[j]);
        }
        assert forall|i: int| 0 <= i < words.len() implies after.place_of(
            #[trigger] word_addr(addr, i),
        ) == Some((kind, off + 4 * i)) && after.access_fault(word_addr(addr, i), 4, true) is None
            && after.access_fault(word_addr(addr, i), 4, false) is None by {
            lemma_written_layout(m, addr, words, word_addr(addr, i));
        }
    }
}

/// Writing words changes neither the regions nor the protection.
proof fn lemma_written_layout(m: MemoryModel, addr: u32, words: Seq<u32>, at: u32)
    ensures
        ({
            let after = words_written(m, addr, words);
            &&& after.regions == m.regions
            &&& after.mpu_regions == m.mpu_regions
            &&& after.mpu_enabled == m.mpu_enabled
            &&& after.unalign_trap == m.unalign_trap
            &&& after.place_of(at) == m.place_of(at)
            &&& after.access_fault(at, 4, true) == m.access_fault(at, 4, true)
            &&& after.access_fault(at, 4, false) == m.access_fault(at, 4, false)
        }),
    decreases words.len(),
{
    if words.len() > 0 {
        let one = m.writing(addr, 4, words[0]).1;
        assert(one.regions == m.regions && one.mpu_regions == m.mpu_regions && one.mpu_enabled
            == m.mpu_enabled && one.unalign_trap == m.unalign_trap && (one.flash.len()
            == m.flash.len())) by {
            reveal(MemoryModel::writing);
        }
        lemma_written_layout(one, wrap32(addr + 4), words.skip(1), at);
        assert(one.region_of(at) == m.region_of(at));
    }
}

/// Reading the words of a stack gives what its bytes hold.
proof fn lemma_words_read(
    m: MemoryModel,
    addr: u32,
    n: nat,
    kind: MemoryRegionType,
    off: int,
    words: Seq<u32>,
)
    requires
        m.wf(),
        is_stack(m, addr, n, kind, off),
        words.len() == n,
        m.storage(kind) matches Some(s) && forall|i: int|
            0 <= i < n ==> #[trigger] le_value(s, off + 4 * i, 4) == words[i],
    ensures
        words_read(m, addr, n).0 == words,
    decreases n,
{
    if n > 0 {
        let (r, one) = m.reading(addr, 4);
        assert(word_addr(addr, 0) == addr);
        assert(m.place_of(addr) == Some((kind, off)));
        lemma_reading_keeps(m, addr);
        lemma_same_bytes(m, one, addr, true);
        let s = m.storage(kind)->0;
        assert(le_value(s, off + 4 * 0, 4) == words[0]);
        assert(r == Ok::<u32, crate::memory::MemoryFault>(words[0])) by {
            reveal(MemoryModel::reading);
        }
        let rest = words.skip(1);
        assert forall|i: int| 0 <= i < n - 1 implies one.place_of(
            #[trigger] word_addr(wrap32(addr + 4), i),
        ) == Some((kind, off + 4 + 4 * i)) && one.access_fault(
            word_addr(wrap32(addr + 4), i),
            4,
            true,
        ) is None && one.access_fault(word_addr(wrap32(addr + 4), i), 4, false) is None by {
            assert(word_addr(wrap32(addr + 4), i) == word_addr(addr, i + 1));
            lemma_same_bytes(m, one, word_addr(addr, i + 1), true);
            lemma_same_bytes(m, one, word_addr(addr, i + 1), false);
        }
        assert(one.storage(kind) == Some(s));
        assert forall|i: int| 0 <= i < n - 1 implies #[trigger] le_value(s, off + 4 + 4 * i, 4)
            == rest[i] by {
            assert(off + 4 + 4 * i == off + 4 * (i + 1));
            assert(le_value(s, off + 4 * (i + 1), 4) == words[i + 1]);
        }
        lemma_words_read(one, wrap32(addr + 4), (n - 1) as nat, kind, off + 4, rest);
        assert(words =~= seq![words[0]] + rest);
    }
}

/// What the six return values say: which stack holds the frame, and whether it is
/// an extended one.
proof fn lemma_return_values()
    by (bit_vector)
    ensures
        0xFFFF_FFE1u32 & 4 == 0 && 0xFFFF_FFE1u32 & 0x10 == 0,
        0xFFFF_FFE9u32 & 4 == 0 && 0xFFFF_FFE9u32 & 0x10 == 0,
        0xFFFF_FFEDu32 & 4 != 0 && 0xFFFF_FFEDu32 & 0x10 == 0,
        0xFFFF_FFF1u32 & 4 == 0 && 0xFFFF_FFF1u32 & 0x10 != 0,
        0xFFFF_FFF9u32 & 4 == 0 && 0xFFFF_FFF9u32 & 0x10 != 0,
        0xFFFF_FFFDu32 & 4 != 0 && 0xFFFF_FFFDu32 & 0x10 != 0,
{
}

/// The status word of a frame: the realignment mark comes back, the rest is the
/// status word without IT bits.
proof fn lemma_status(x: u32)
    by (bit_vector)
    requires
        x & 0x200 == 0,
    ensures
        ((x & !0xFC00u32) | 0x200u32) & 0x200 != 0,
        ((x & !0xFC00u32) | 0u32) & 0x200 == 0,
        ((x & !0xFC00u32) | 0x200u32) & !0x200u32 & !0x1FFu32 == x & !0xFDFFu32,
        ((x & !0xFC00u32) | 0u32) & !0x1FFu32 == x & !0xFDFFu32,
{
}

proof fn lemma_restored_s(f: FpuRegisters, words: Seq<u32>, n: int)
    requires
        0 <= n <= 16,
        forall|i: int| 0 <= i < 16 ==> #[trigger] words[8 + i] == f.s[i],
    ensures
        restored_s(f, words, n) == f,
    decreases n,
{
    if n > 0 {
        lemma_restored_s(f, words, n - 1);
        assert(words[8 + (n - 1)] == f.s[n - 1]);
        assert(f.with_s(n - 1, f.s[n - 1]).s =~= f.s);
    }
}

/// Reading a frame back from where an entry put it.
pub(crate) proof fn lemma_frame_read(
    m: Machine,
    number: u8,
    pc: u32,
    kind: MemoryRegionType,
    off: int,
)
    requires
        m.mem.wf(),
        m.mem.storage(kind) is Some,
        ({
            let p = frame_place(m);
            is_stack(m.mem, p.sp, frame_words(m.cpu, pc, p.realigned, p.extended).len(), kind, off)
        }),
    ensures
        ({
            let p = frame_place(m);
            let words = frame_words(m.cpu, pc, p.realigned, p.extended);
            let (vector, read) = vector_of(words_written(m.mem, p.sp, words), number);
            let mem = with_vectactive(with_unpended(read, number), number);
            words_read(mem, p.sp, words.len()).0 == words
        }),
{
    let p = frame_place(m);
    let words = frame_words(m.cpu, pc, p.realigned, p.extended);
    let framed = words_written(m.mem, p.sp, words);
    lemma_words_written(m.mem, p.sp, kind, off, words);
    let base = match framed.system() {
        Some(s) => s.vtor,
        None => 0,
    };
    let (vector, read) = vector_of(framed, number);
    lemma_reading_keeps(framed, wrap32(base + 4 * number));
    assert(same_bytes(framed, read));
    lemma_marking_keeps(read, number, number);
    let unpended = with_unpended(read, number);
    lemma_marking_keeps(unpended, number, number);
    let mem = with_vectactive(unpended, number);
    assert(same_bytes(framed, mem));
    lemma_same_bytes(framed, mem, 0, true);
    assert forall|i: int| 0 <= i < words.len() implies mem.place_of(#[trigger] word_addr(p.sp, i))
        == Some((kind, off + 4 * i)) && mem.access_fault(word_addr(p.sp, i), 4, true) is None
        && mem.access_fault(word_addr(p.sp, i), 4, false) is None by {
        lemma_same_bytes(framed, mem, word_addr(p.sp, i), true);
        lemma_same_bytes(framed, mem, word_addr(p.sp, i), false);
    }
    assert(mem.storage(kind) == framed.storage(kind));
    lemma_words_read(mem, p.sp, words.len(), kind, off, words);
}

/// A handler that returns at once gives back the interrupted context: R0 to R12, LR,
/// both stack pointers, the flags, the floating point registers, and the exception
/// that was current. PC is the return address without its lowest bit, and of the
/// status word the IT bits and the exception number are cleared.
///
/// The frame has to lie in granted RAM, and bit 9 of the status word, which marks a
/// realigned frame, has to be clear.
#[verifier::rlimit(40)]
pub proof fn law_entry_return(
    m: Machine,
    number: u8,
    pc: u32,
    kind: MemoryRegionType,
    off: int,
)
    requires
        m.mem.wf(),
        m.mem.storage(kind) is Some,
        m.cpu.xpsr & 0x200 == 0,
        ({
            let p = frame_place(m);
            is_stack(m.mem, p.sp, frame_words(m.cpu, pc, p.realigned, p.extended).len(), kind, off)
        }),
    ensures
        ({
            let entered = m.entered(number, Some(pc));
            let back = entered.returned(entered.cpu.regs[14]);
            &&& forall|i: int|
                0 <= i < 15 && i != 13 ==> #[trigger] back.cpu.regs[i] == m.cpu.regs[i]
            &&& back.cpu.regs[15] == pc - pc % 2
            &&& back.cpu.regs[13] == if frame_place(m).process {
                m.cpu.psp
            } else {
                m.cpu.msp
            }
            &&& back.cpu.msp == m.cpu.msp
            &&& back.cpu.psp == m.cpu.psp
            &&& back.cpu.xpsr == m.cpu.xpsr & !0xFDFFu32
            &&& back.cpu.fpu == m.cpu.fpu
            &&& back.nvic.current == m.nvic.current
            &&& back.nvic.stack == m.nvic.stack
        }),
{
    reveal(Machine::entered);
    reveal(Machine::returned);
    let p = frame_place(m);
    let words = frame_words(m.cpu, pc, p.realigned, p.extended);
    let entered = m.entered(number, Some(pc));
    let lr = entry_lr(p.extended, p.from_thread, p.process);
    lemma_return_values();
    lemma_status(m.cpu.xpsr);
    lemma_frame_read(m, number, pc, kind, off);
    assert(entered.cpu.regs[14] == lr);
    let back = entered.returned(lr);
    assert(back.cpu == restored_cpu(entered.cpu, words, lr));
    crate::nvic::law_enter_exit(m.nvic, number);
    if p.extended {
        assert forall|i: int| 0 <= i < 16 implies #[trigger] words[8 + i] == m.cpu.fpu.s[i] by {
            assert(words[8 + i] == m.cpu.fpu.s@.take(16)[i]);
        }
        lemma_restored_s(m.cpu.fpu, words, 16);
        assert(words[24] == m.cpu.fpu.fpscr);
    }
}

/// Entering an exception counts a frame with floating point registers where it writes
/// one and nothing else. A handler that returns at once counts such a return exactly
/// where its entry counted such a frame, and nothing else.
pub proof fn law_frame_counters(m: Machine, number: u8, pc: Option<u32>)
    ensures
        ({
            let extended = frame_place(m).extended;
            let entered = m.entered(number, pc);
            let back = entered.returned(entered.cpu.regs[14]);
            let stats = m.engine.stats;
            let one: int = if extended {
                1
            } else {
                0
            };
            &&& entered.engine.stats == (EngineStats {
                fpu_frames: wrap64(stats.fpu_frames + one),
                ..stats
            })
            &&& back.engine.stats == (EngineStats {
                fpu_frames: wrap64(stats.fpu_frames + one),
                fpu_exc_returns: wrap64(stats.fpu_exc_returns + one),
                ..stats
            })
        }),
{
    reveal(Machine::entered);
    reveal(Machine::returned);
    lemma_return_values();
}

/// Of two conditions that differ in the lowest bit of their numbers exactly one
/// holds; the conditions of an IT block differ in nothing else.
pub proof fn law_opposite_conditions(xpsr: u32, a: Cond, b: Cond)
    requires
        a != b,
        a.number() / 2 == b.number() / 2,
    ensures
        holds(xpsr, a) != holds(xpsr, b),
{
}

/// MRS reads back what MSR wrote, as far as the register can hold it.
pub proof fn law_special_read_back(cpu: CpuState, v: u32)
    ensures
        special_value(after_msr(cpu, SpecialReg::Apsr, v), SpecialReg::Apsr) == v & 0xF800_0000,
        special_value(after_msr(cpu, SpecialReg::ApsrGe, v), SpecialReg::ApsrGe) == v & 0xF8FF_0000,
        special_value(after_msr(cpu, SpecialReg::Msp, v), SpecialReg::Msp) == v,
        special_value(after_msr(cpu, SpecialReg::Psp, v), SpecialReg::Psp) == v,
        special_value(after_msr(cpu, SpecialReg::Primask, v), SpecialReg::Primask) == v % 2,
        special_value(after_msr(cpu, SpecialReg::Faultmask, v), SpecialReg::Faultmask) == v % 2,
        special_value(after_msr(cpu, SpecialReg::Basepri, v), SpecialReg::Basepri) == v % 0x100,
        special_value(after_msr(cpu, SpecialReg::Control, v), SpecialReg::Control) == v % 4,
        special_value(after_msr(cpu, SpecialReg::BasepriMax, v), SpecialReg::Basepri)
            <= cpu.basepri,
        special_value(after_msr(cpu, SpecialReg::Ipsr, v), SpecialReg::Ipsr) == special_value(
            cpu,
            SpecialReg::Ipsr,
        ),
{
    let x = cpu.xpsr;
    assert(((x & !0xF800_0000u32) | (v & 0xF800_0000u32)) & 0xF800_0000u32 == v & 0xF800_0000u32
        && ((x & !0xF8FF_0000u32) | (v & 0xF8FF_0000u32)) & 0xF8FF_0000u32 == v & 0xF8FF_0000u32)
        by (bit_vector);
}

/// A load gives back what a store of the same width left at the address, extended
/// as the load asks.
pub proof fn law_store_load(
    cpu: CpuState,
    m: MemoryModel,
    val: u32,
    addr: u32,
    width: AccessWidth,
    sign: bool,
    later: CpuState,
    rt: u8,
)
    requires
        m.wf(),
        m.place_of(addr) is Some,
        m.access_fault(addr, bytes_of(width), true) is None,
        m.access_fault(addr, bytes_of(width), false) is None,
        rt < 16,
    ensures
        ({
            let stored = after_store(cpu, m, val, addr, width);
            let loaded = after_load(later, stored.mem, rt, addr, width, sign);
            &&& stored.outcome == ExecOutcome::Continue
            &&& loaded.outcome == ExecOutcome::Continue
            &&& loaded.cpu == later.with_reg(
                rt,
                extended_value(low_bytes(val, bytes_of(width)), width, sign),
            )
        }),
{
    reveal(after_store);
    reveal(after_load);
    let w = bytes_of(width);
    crate::memory::law_write_read(m, addr, w, low_bytes(val, w));
    assert(low_bytes(low_bytes(val, w), w) == low_bytes(val, w));
}

/// The registers of a list from `i` on, in order.
pub open spec fn listed_words(cpu: CpuState, regs: u16, i: int) -> Seq<u32>
    decreases 16 - i,
{
    if i >= 16 {
        Seq::empty()
    } else if listed(regs, i) {
        seq![cpu.regs[i]] + listed_words(cpu, regs, i + 1)
    } else {
        listed_words(cpu, regs, i + 1)
    }
}

proof fn lemma_listed_len(cpu: CpuState, regs: u16, i: int)
    ensures
        listed_words(cpu, regs, i).len() == count_from(regs, i),
        0 <= count_from(regs, i),
        i >= 0 ==> count_from(regs, i) <= 16,
        i >= 0 && i <= 16 ==> count_from(regs, i) <= 16 - i,
    decreases 16 - i,
{
    if i < 16 {
        lemma_listed_len(cpu, regs, i + 1);
    }
}

/// Storing a list on a stack writes its registers one after the other.
proof fn lemma_stored(
    cpu: CpuState,
    m: MemoryModel,
    regs: u16,
    i: int,
    addr: u32,
    kind: MemoryRegionType,
    off: int,
)
    requires
        m.wf(),
        is_stack(m, addr, listed_words(cpu, regs, i).len(), kind, off),
    ensures
        stored_from(cpu, m, regs, i, addr).0 is None,
        stored_from(cpu, m, regs, i, addr).1 == words_written(m, addr, listed_words(cpu, regs, i)),
    decreases 16 - i,
{
    let words = listed_words(cpu, regs, i);
    if i < 16 {
        if listed(regs, i) {
            let rest = listed_words(cpu, regs, i + 1);
            lemma_word_written(m, addr, words.len(), kind, off, words[0]);
            assert(words.skip(1) =~= rest);
            assert(words[0] == cpu.regs[i]);
            assert(word_addr(addr, 0) == addr);
            assert(m.writing(addr, 4, cpu.regs[i]).0 is Ok) by {
                reveal(MemoryModel::writing);
            }
            lemma_stored(
                cpu,
                m.writing(addr, 4, cpu.regs[i]).1,
                regs,
                i + 1,
                wrap32(addr + 4),
                kind,
                off + 4,
            );
        } else {
            lemma_stored(cpu, m, regs, i + 1, addr, kind, off);
        }
    }
}

/// Loading a list from a stack: every listed register receives its word.
proof fn lemma_loaded(
    cpu: CpuState,
    m: MemoryModel,
    regs: u16,
    i: int,
    addr: u32,
    pc: Option<u32>,
    kind: MemoryRegionType,
    off: int,
    words: Seq<u32>,
)
    requires
        m.wf(),
        0 <= i <= 16,
        words.len() == count_from(regs, i),
        is_stack(m, addr, words.len(), kind, off),
        m.storage(kind) matches Some(s) && forall|j: int|
            0 <= j < words.len() ==> #[trigger] le_value(s, off + 4 * j, 4) == words[j],
    ensures
        ({
            let l = loaded_from(cpu, m, regs, i, addr, pc);
            &&& l.fault is None
            &&& l.pc == if i <= 15 && listed(regs, 15) {
                Some(words.last())
            } else {
                pc
            }
            &&& forall|j: int|
                0 <= j < 16 ==> #[trigger] l.cpu.regs[j] == if i <= j < 15 && listed(regs, j) {
                    words[count_from(regs, i) - count_from(regs, j)]
                } else {
                    cpu.regs[j]
                }
            &&& l.cpu.xpsr == cpu.xpsr
            &&& l.cpu.control == cpu.control
            &&& l.cpu.msp == cpu.msp
            &&& l.cpu.psp == cpu.psp
        }),
    decreases 16 - i,
{
    lemma_listed_len(cpu, regs, i);
    if i < 16 {
        lemma_listed_len(cpu, regs, i + 1);
        if listed(regs, i) {
            let (r, one) = m.reading(addr, 4);
            assert(word_addr(addr, 0) == addr);
            assert(m.place_of(addr) == Some((kind, off)));
            lemma_reading_keeps(m, addr);
            lemma_same_bytes(m, one, addr, true);
            let s = m.storage(kind)->0;
            assert(le_value(s, off + 4 * 0, 4) == words[0]);
            assert(r == Ok::<u32, crate::memory::MemoryFault>(words[0])) by {
                reveal(MemoryModel::reading);
            }
            let rest = words.skip(1);
            let next_addr = wrap32(addr + 4);
            assert forall|j: int| 0 <= j < rest.len() implies one.place_of(
                #[trigger] word_addr(next_addr, j),
            ) == Some((kind, off + 4 + 4 * j)) && one.access_fault(word_addr(next_addr, j), 4, true)
                is None && one.access_fault(word_addr(next_addr, j), 4, false) is None by {
                assert(word_addr(next_addr, j) == word_addr(addr, j + 1));
                lemma_same_bytes(m, one, word_addr(addr, j + 1), true);
                lemma_same_bytes(m, one, word_addr(addr, j + 1), false);
            }
            assert(one.storage(kind) == Some(s));
            assert forall|j: int| 0 <= j < rest.len() implies #[trigger] le_value(
                s,
                off + 4 + 4 * j,
                4,
            ) == rest[j] by {
                assert(off + 4 + 4 * j == off + 4 * (j + 1));
                assert(le_value(s, off + 4 * (j + 1), 4) == words[j + 1]);
            }
            let here = if i == 15 {
                cpu
            } else {
                cpu.with_reg(i as u8, words[0])
            };
            let pc2 = if i == 15 {
                Some(words[0])
            } else {
                pc
            };
            lemma_loaded(here, one, regs, i + 1, next_addr, pc2, kind, off + 4, rest);
            assert forall|j: int| i < j < 15 && listed(regs, j) implies rest[count_from(
                regs,
                i + 1,
            ) - #[trigger] count_from(regs, j)] == words[count_from(regs, i) - count_from(regs, j)] by {
                lemma_count_less(regs, i + 1, j);
            }
            if i < 15 && listed(regs, 15) {
                lemma_count_less(regs, i + 1, 15);
                assert(rest.last() == words.last());
            }
        } else {
            lemma_loaded(cpu, m, regs, i + 1, addr, pc, kind, off, words);
        }
    }
}

/// A listed register is counted from every place up to it.
proof fn lemma_count_less(regs: u16, i: int, j: int)
    requires
        i <= j < 16,
        listed(regs, j),
    ensures
        count_from(regs, i) >= count_from(regs, j) >= 1,
    decreases j - i,
{
    if i < j {
        lemma_count_less(regs, i + 1, j);
    } else {
        lemma_count_pos(regs, j + 1);
    }
}

proof fn lemma_count_pos(regs: u16, i: int)
    ensures
        count_from(regs, i) >= 0,
    decreases 16 - i,
{
    if i < 16 {
        lemma_count_pos(regs, i + 1);
    }
}

/// The word of a listed register among the listed words.
proof fn lemma_listed_word(cpu: CpuState, regs: u16, i: int, j: int)
    requires
        0 <= i <= j < 16,
        listed(regs, j),
    ensures
        listed_words(cpu, regs, i).len() == count_from(regs, i),
        count_from(regs, i) >= count_from(regs, j) >= 1,
        listed_words(cpu, regs, i)[count_from(regs, i) - count_from(regs, j)] == cpu.regs[j],
    decreases j - i,
{
    lemma_listed_len(cpu, regs, i);
    lemma_listed_len(cpu, regs, j);
    lemma_count_less(regs, i, j);
    if i < j {
        lemma_listed_word(cpu, regs, i + 1, j);
        lemma_count_less(regs, i + 1, j);
    }
}

/// The lists of PUSH and POP hold the same low registers; the last place is LR in
/// the one and PC in the other.
proof fn lemma_lists(regs: u16, b: bool)
    ensures
        forall|i: int|
            0 <= i < 8 ==> (#[trigger] listed(push_list(regs, b), i)) == listed(regs, i),
        forall|i: int|
            0 <= i < 8 ==> (#[trigger] listed(pop_list(regs, b), i)) == listed(regs, i),
        forall|i: int|
            8 <= i < 16 ==> (#[trigger] listed(push_list(regs, b), i)) == (b && i == 14),
        forall|i: int|
            8 <= i < 16 ==> (#[trigger] listed(pop_list(regs, b), i)) == (b && i == 15),
{
    assert forall|i: int| 0 <= i < 16 implies listed(push_list(regs, b), i) == (if i < 8 {
        listed(regs, i)
    } else {
        b && i == 14
    }) && listed(pop_list(regs, b), i) == (if i < 8 {
        listed(regs, i)
    } else {
        b && i == 15
    }) by {
        let k = i as u16;
        assert((k < 8 ==> ((((regs & 0xFF) | 0x4000u16) & (1u16 << k) != 0) == (regs & (1u16 << k)
            != 0)) && ((((regs & 0xFF) | 0x8000u16) & (1u16 << k) != 0) == (regs & (1u16 << k)
            != 0)) && ((((regs & 0xFF) | 0u16) & (1u16 << k) != 0) == (regs & (1u16 << k) != 0)))
            && (k >= 8 ==> ((((regs & 0xFF) | 0x4000u16) & (1u16 << k) != 0) == (k == 14)) && ((((
        regs & 0xFF) | 0x8000u16) & (1u16 << k) != 0) == (k == 15)) && ((((regs & 0xFF) | 0u16) & (
        1u16 << k) != 0) == false))) by (bit_vector)
            requires
                k < 16,
        ;
    }
}

proof fn lemma_list_counts(regs: u16, b: bool, i: int)
    requires
        0 <= i <= 8,
    ensures
        count_from(push_list(regs, b), i) == count_from(pop_list(regs, b), i),
        count_from(push_list(regs, b), 8) == if b {
            1int
        } else {
            0
        },
        count_from(push_list(regs, b), 14) == if b {
            1int
        } else {
            0
        },
    decreases 8 - i,
{
    lemma_lists(regs, b);
    if i == 8 {
        reveal_with_fuel(count_from, 9);
    } else {
        lemma_list_counts(regs, b, i + 1);
    }
}

/// POP undoes PUSH: whatever the core did in between, where SP is back at the pushed
/// words and they are still there, the listed registers have their values again and
/// SP is where it was. With LR pushed, PC receives it.
pub proof fn law_push_pop(
    cpu: CpuState,
    m: MemoryModel,
    regs: u16,
    b: bool,
    later: CpuState,
    kind: MemoryRegionType,
    off: int,
)
    requires
        m.wf(),
        m.storage(kind) is Some,
        is_stack(
            m,
            wrap32(cpu.regs[13] - 4 * count_from(push_list(regs, b), 0)),
            count_from(push_list(regs, b), 0) as nat,
            kind,
            off,
        ),
        later.regs[13] == after_push(cpu, m, regs, b).cpu.regs[13],
    ensures
        ({
            let pushed = after_push(cpu, m, regs, b);
            let popped = after_pop(later, pushed.mem, regs, b);
            &&& pushed.outcome == ExecOutcome::Continue
            &&& popped.outcome == if b {
                pc_outcome(cpu.regs[14])
            } else {
                ExecOutcome::Continue
            }
            &&& popped.cpu.regs[13] == cpu.regs[13]
            &&& forall|j: int|
                0 <= j < 8 ==> #[trigger] popped.cpu.regs[j] == if listed(regs, j) {
                    cpu.regs[j]
                } else {
                    later.regs[j]
                }
            &&& forall|j: int| 8 <= j < 13 ==> #[trigger] popped.cpu.regs[j] == later.regs[j]
        }),
{
    reveal(after_push);
    reveal(after_pop);
    let down = push_list(regs, b);
    let up = pop_list(regs, b);
    let n = count_from(down, 0);
    let sp = wrap32(cpu.regs[13] - 4 * n);
    let words = listed_words(cpu, down, 0);
    lemma_lists(regs, b);
    lemma_list_counts(regs, b, 0);
    lemma_listed_len(cpu, down, 0);
    lemma_stored(cpu, m, down, 0, sp, kind, off);
    lemma_words_written(m, sp, kind, off, words);
    let stored = words_written(m, sp, words);
    assert(later.regs[13] == sp);
    lemma_loaded(later, stored, up, 0, sp, None, kind, off, words);
    let l = loaded_from(later, stored, up, 0, sp, None);
    assert forall|j: int| 0 <= j < 8 && listed(regs, j) implies #[trigger] l.cpu.regs[j]
        == cpu.regs[j] by {
        lemma_list_counts(regs, b, j);
        lemma_listed_word(cpu, down, 0, j);
    }
    if b {
        lemma_listed_word(cpu, down, 0, 14);
        assert(words.last() == cpu.regs[14]);
    }
}

/// NOP and the barriers change neither the core nor the memory.
pub proof fn law_barriers(e: Executor, cpu: CpuState, mem: MemoryModel, instr: Instruction)
    requires
        instr is Nop || instr is Barrier,
        e.it_remaining == 0,
    ensures
        e.executed(cpu, mem, instr).effect == crate::engine::transfer::next(cpu, mem),
{
    reveal(Executor::executed);
    reveal(Executor::passed);
    reveal(effect);
    reveal(data_step);
}

/// In an IT block the 16-bit forms that set flags elsewhere leave them alone.
pub proof fn law_it_keeps_flags(e: Executor, cpu: CpuState, mem: MemoryModel, instr: Instruction)
    requires
        e.it_remaining > 0,
        e.cur_is_16bit,
        implicit_flags(instr),
    ensures
        e.executed(cpu, mem, instr).effect.cpu.xpsr == cpu.xpsr,
{
    reveal(Executor::executed);
    reveal(Executor::passed);
    reveal(effect);
    reveal(data_step);
}

/// What sums, differences, PUSH, POP and the transfers that move their base leave in SP
/// goes to the stack pointer that SP stands for: the main one in handler mode, whatever
/// CONTROL says, and the selected one in thread mode.
pub proof fn law_stack_pointer(cpu: CpuState, v: u32)
    ensures
        cpu.with_reg_synced(13, v).regs[13] == v,
        cpu.xpsr & 0x1FF != 0 || cpu.control & 1 == 0 ==> cpu.with_reg_synced(13, v).msp == v
            && cpu.with_reg_synced(13, v).psp == cpu.psp,
        cpu.xpsr & 0x1FF == 0 && cpu.control & 1 != 0 ==> cpu.with_reg_synced(13, v).psp == v
            && cpu.with_reg_synced(13, v).msp == cpu.msp,
{
}

/// A run never ends as a step does. It executes no more instructions than its limit
/// allows, and where it ends for the limit it has executed exactly as many. With
/// nothing left to execute it changes nothing.
pub proof fn law_run_limit(m: Machine, start: u64)
    requires
        m.executed_since(start) <= m.engine.max_instructions,
    ensures
        ({
            let (r, end) = m.ran(start);
            &&& r != EngineResult::Halted
            &&& end.engine.max_instructions == m.engine.max_instructions
            &&& end.executed_since(start) <= m.engine.max_instructions
            &&& r == EngineResult::LimitReached ==> end.executed_since(start)
                == m.engine.max_instructions
        }),
        m.executed_since(start) == m.engine.max_instructions ==> m.ran(start) == (
            EngineResult::LimitReached,
            m,
        ),
    decreases m.engine.max_instructions - m.executed_since(start), entries_left(m),
{
    if m.executed_since(start) < m.engine.max_instructions {
        match m.next_exception() {
            Some(number) => {
                lemma_entry_turn(m, number);
                law_run_limit(m.entered(number, None).excepted(), start);
            },
            None => {
                let (r, after) = m.stepped();
                lemma_step_turn(m);
                if r == EngineResult::Halted {
                    law_run_limit(after.ticked(), start);
                }
            },
        }
    }
}

} // verus!
