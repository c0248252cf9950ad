//! What holds of every step and every turn of a run: where PC goes, which halfwords are
//! read as an instruction, and what is counted.
use crate::engine::decode::{decoded16, decoded32, Instruction};
use crate::engine::engine::{with_vectactive, Machine};
use crate::engine::exec::{holds, ExecOutcome, Executor};
use crate::engine::{Engine, EngineResult, EngineStats, FaultReason};
use crate::memory::MemoryFault;
use vstd::prelude::*;

verus! {

/// The width of the encoding that starts with a halfword: four bytes from 0xE800 on, else
/// two.
pub open spec fn width_of(first: u32) -> int {
    if first >= 0xE800 {
        4
    } else {
        2
    }
}

/// An instruction starts at PC. A halfword below 0xE800 is one by itself; any other is
/// the upper half of one, and the lower half follows it in memory.
pub proof fn law_fetch(m: Machine)
    ensures
        ({
            let pc = m.cpu.regs[15];
            let (first, m1) = m.mem.reading(pc, 2);
            let (second, m2) = m1.reading(((pc + 2) % 0x1_0000_0000) as u32, 2);
            let (got, after) = m.fetched();
            &&& first is Err ==> got == Err::<(Instruction, u32), FaultReason>(
                FaultReason::BusFault { address: pc },
            ) && after.mem == m1
            &&& first matches Ok(f) ==> (f < 0xE800 ==> got == Ok::<(Instruction, u32), FaultReason>(
                (decoded16(f as u16, pc), 2),
            ) && after.mem == m1 && after.engine.executor.cur_is_16bit)
            &&& first matches Ok(f) ==> (0xE800 <= f < 0x1_0000 ==> after.mem == m2 && (second is Err
                ==> got == Err::<(Instruction, u32), FaultReason>(
                FaultReason::BusFault { address: ((pc + 2) % 0x1_0000_0000) as u32 },
            )) && (second matches Ok(s) ==> (s < 0x1_0000 ==> got == Ok::<
                (Instruction, u32),
                FaultReason,
            >((decoded32((0x1_0000 * f + s) as u32, pc), 4))
                && !after.engine.executor.cur_is_16bit)))
            &&& after.cpu == m.cpu
            &&& after.nvic == m.nvic
        }),
{
    reveal(Machine::fetched);
    let pc = m.cpu.regs[15];
    if let (Ok(f), m1) = m.mem.reading(pc, 2) {
        if f < 0x1_0000 {
            assert(f as u16 == f);
        }
    }
}

/// Whether it was executed or skipped by an IT block, an instruction that neither
/// branches nor stops the engine is followed by what stands behind it: PC moves on by the
/// width of its encoding, and nothing else changes any more. What an IT block skips
/// changes nothing but PC.
pub proof fn law_next_instruction(m: Machine, f: u32)
    requires
        m.mem.reading(m.cpu.regs[15], 2).0 == Ok::<u32, MemoryFault>(f),
        f < 0x1_0000,
        m.fetched().0 is Ok,
    ensures
        ({
            let (instr, _) = m.fetched().0->Ok_0;
            let (outcome, done) = m.fetched().1.executed(instr);
            let (r, after) = m.stepped();
            let moved = ((done.cpu.regs[15] + width_of(f)) % 0x1_0000_0000) as u32;
            &&& outcome is Continue || outcome is Skipped ==> r == EngineResult::Halted
                && after.cpu.regs[15] == moved && after.mem == done.mem && after.nvic == done.nvic
                && forall|i: int| 0 <= i < 15 ==> #[trigger] after.cpu.regs[i] == done.cpu.regs[i]
            &&& m.engine.executor.it_remaining > 0 && !holds(
                m.cpu.xpsr,
                m.engine.executor.current_cond(),
            ) ==> outcome is Skipped && done.cpu == m.cpu && after.cpu.xpsr == m.cpu.xpsr
        }),
{
    reveal(Machine::stepped);
    reveal(Machine::followed);
    reveal(Executor::executed);
    reveal(Machine::fetched);
    law_fetch(m);
    assert(f as u16 == f);
}

/// A branch, a fault and a breakpoint: where the step leaves PC, what it returns and what
/// it counts.
pub proof fn law_step_outcome(m: Machine)
    requires
        m.fetched().0 is Ok,
    ensures
        ({
            let (instr, _) = m.fetched().0->Ok_0;
            let (outcome, done) = m.fetched().1.executed(instr);
            let (r, after) = m.stepped();
            let (s, t) = (m.engine.stats, after.engine.stats);
            &&& t.instructions == (s.instructions + 1) % 0x1_0000_0000_0000_0000
            &&& outcome matches ExecOutcome::Branch { target } ==> r == EngineResult::Halted
                && after.cpu == done.cpu.with_reg(15, target) && after.mem == done.mem
                && after.nvic == done.nvic && t.exceptions == s.exceptions && t.faults == s.faults
            &&& outcome matches ExecOutcome::Fault { reason } ==> r == (EngineResult::Fault {
                reason,
            }) && after.cpu == done.cpu && after.mem == done.mem && after.nvic == done.nvic
                && t.faults == (s.faults + 1) % 0x1_0000_0000_0000_0000 && t.exceptions
                == s.exceptions
            &&& outcome is DebugEvent ==> r == EngineResult::DebugEvent && after.cpu == done.cpu
                && after.mem == done.mem && t.exceptions == (s.exceptions + 1)
                % 0x1_0000_0000_0000_0000 && t.faults == s.faults
            &&& outcome matches ExecOutcome::ExceptionReturn { exc_return } ==> r
                == EngineResult::Halted && t.exceptions == (s.exceptions + 1)
                % 0x1_0000_0000_0000_0000 && t.faults == s.faults
            &&& outcome matches ExecOutcome::TakeException { number, .. } ==> r
                == EngineResult::Halted && after.nvic.current == number && t.exceptions == (
            s.exceptions + 1) % 0x1_0000_0000_0000_0000 && t.faults == s.faults
        }),
{
    reveal(Machine::stepped);
    reveal(Machine::followed);
    reveal(Machine::fetched);
    reveal(Machine::entered);
    reveal(Machine::returned);
}

/// A step that cannot fetch is a fault: nothing is executed, and PC stays.
pub proof fn law_failed_fetch(m: Machine)
    requires
        m.fetched().0 is Err,
    ensures
        m.stepped().0 == (EngineResult::Fault { reason: m.fetched().0->Err_0 }),
        m.stepped().1.cpu == m.cpu,
        m.stepped().1.nvic == m.nvic,
        m.stepped().1.engine.executor == m.engine.executor,
        m.stepped().1.engine.stats == (EngineStats {
            faults: ((m.engine.stats.faults + 1) % 0x1_0000_0000_0000_0000) as u64,
            ..m.engine.stats
        }),
{
    reveal(Machine::stepped);
    reveal(Machine::fetched);
}

/// A run goes on turn by turn: an acceptable exception is entered before anything else is
/// executed, and counted; otherwise one instruction is executed, after which the system
/// timer has advanced by a cycle.
pub proof fn law_run_turn(m: Machine, start: u64)
    requires
        (m.engine.stats.instructions - start) % 0x1_0000_0000_0000_0000
            < m.engine.max_instructions,
    ensures
        match m.next_exception() {
            Some(number) => ({
                let entered = m.entered(number, None);
                let counted = EngineStats {
                    exceptions: ((entered.engine.stats.exceptions + 1)
                        % 0x1_0000_0000_0000_0000) as u64,
                    ..entered.engine.stats
                };
                m.ran(start) == Machine {
                    engine: Engine { stats: counted, ..entered.engine },
                    ..entered
                }.ran(start)
            }),
            None => ({
                let (r, after) = m.stepped();
                let later = Machine {
                    mem: match after.mem.system() {
                        Some(s) => after.mem.with_system(s.after_cycles(1)),
                        None => after.mem,
                    },
                    ..after
                };
                if r != EngineResult::Halted {
                    m.ran(start) == (r, after)
                } else {
                    m.ran(start) == Machine {
                        mem: with_vectactive(later.mem, after.nvic.current),
                        ..later
                    }.ran(start)
                }
            }),
        },
{
}

} // verus!
