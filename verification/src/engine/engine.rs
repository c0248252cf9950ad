//! Engine: fetch, decode, execute, and exceptions.
use crate::bits::{wrap32, wrap64};
use crate::cpu::CpuState;
use crate::engine::decode::{decoded16, decoded32, Decoder, Instruction};
use crate::engine::exec::{ExecOutcome, Executor};
use crate::engine::fpu::FpuRegisters;
use crate::engine::laws::law_run_limit;
use crate::engine::turns::{entries_left, lemma_entry_turn, lemma_step_turn};
use crate::engine::FaultReason;
use crate::memory::{Memory, MemoryModel};
use crate::nvic::{irq_set, Nvic, NvicModel};
use crate::system::{exc_mask, SystemBlock, CCR_STKALIGN};
use vstd::prelude::*;

verus! {

/// Counters of an engine, modulo 2^64.
#[derive(Debug, Clone, Copy)]
pub struct EngineStats {
    pub instructions: u64,
    pub cycles: u64,
    pub faults: u64,
    pub exceptions: u64,
    /// Exceptions entered with a frame that holds floating point registers.
    pub fpu_frames: u64,
    /// Returns that took floating point registers from their frame.
    pub fpu_exc_returns: u64,
}

impl EngineStats {
    /// Nothing counted.
    pub open spec fn zero() -> EngineStats {
        EngineStats {
            instructions: 0,
            cycles: 0,
            faults: 0,
            exceptions: 0,
            fpu_frames: 0,
            fpu_exc_returns: 0,
        }
    }

    /// The counters after a frame was written, with floating point registers or not.
    pub open spec fn framed(self, extended: bool) -> EngineStats {
        if extended {
            EngineStats { fpu_frames: wrap64(self.fpu_frames + 1), ..self }
        } else {
            self
        }
    }

    /// The counters after a frame was taken back, with floating point registers or not.
    pub open spec fn unframed(self, extended: bool) -> EngineStats {
        if extended {
            EngineStats { fpu_exc_returns: wrap64(self.fpu_exc_returns + 1), ..self }
        } else {
            self
        }
    }
}

impl Default for EngineStats {
    fn default() -> (r: Self)
        ensures
            r == EngineStats::zero(),
    {
        EngineStats {
            instructions: 0,
            cycles: 0,
            faults: 0,
            exceptions: 0,
            fpu_frames: 0,
            fpu_exc_returns: 0,
        }
    }
}

/// Why an engine stopped.
#[derive(Debug, Clone, Copy, PartialEq, Eq, Structural)]
pub enum EngineResult {
    /// A step is done.
    Halted,
    /// Fault.
    Fault { reason: FaultReason },
    /// Breakpoint.
    DebugEvent,
    /// The limit of instructions was reached.
    LimitReached,
}

impl EngineResult {
    /// Exit code of a program that ran a firmware: 1 after a fault, 0 otherwise.
    pub fn exit_code(&self) -> (r: u8)
        ensures
            r == if *self is Fault {
                1u8
            } else {
                0u8
            },
    {
        match self {
            EngineResult::Fault { .. } => 1,
            _ => 0,
        }
    }
}

/// Core engine.
#[derive(Debug)]
pub struct Engine {
    pub decoder: Decoder,
    pub executor: Executor,
    pub stats: EngineStats,
    /// Limit of instructions of one run.
    pub max_instructions: u64,
    /// Base of the vector table.
    pub vector_base: u32,
}

/// The state of an engine and all it works on.
#[verifier::ext_equal]
pub struct Machine {
    pub engine: Engine,
    pub cpu: CpuState,
    pub mem: MemoryModel,
    pub nvic: NvicModel,
}

/// The encoding that starts with a halfword has 32 bits.
pub open spec fn is_wide(raw: u16) -> bool {
    raw / 0x800 == 0x1D || raw / 0x1000 == 0xF
}

fn wide(raw: u16) -> (r: bool)
    ensures
        r == is_wide(raw),
{
    raw / 0x800 == 0x1D || raw / 0x1000 == 0xF
}

/// The priority byte of an exception: from SHPR1 to SHPR3 for system exceptions,
/// from the interrupt controller for interrupts.
pub open spec fn configured_priority(mem: MemoryModel, nvic: NvicModel, number: u8) -> u8 {
    let s = mem.system();
    let shpr1 = match s {
        Some(b) => b.shpr1,
        None => 0,
    };
    let shpr2 = match s {
        Some(b) => b.shpr2,
        None => 0,
    };
    let shpr3 = match s {
        Some(b) => b.shpr3,
        None => 0,
    };
    if number == 4 {
        (shpr1 / 0x100_0000 % 0x100) as u8
    } else if number == 5 {
        (shpr1 / 0x1_0000 % 0x100) as u8
    } else if number == 6 {
        (shpr1 / 0x100 % 0x100) as u8
    } else if number == 12 {
        (shpr1 % 0x100) as u8
    } else if number == 11 {
        (shpr2 / 0x100_0000 % 0x100) as u8
    } else if number == 14 {
        (shpr3 / 0x1_0000 % 0x100) as u8
    } else if number == 15 {
        (shpr3 / 0x100_0000 % 0x100) as u8
    } else if number >= 16 {
        nvic.priority[number - 16]
    } else {
        0
    }
}

/// The priority of an exception; smaller is more urgent. NMI and HardFault come
/// before all configurable ones.
pub open spec fn priority(mem: MemoryModel, nvic: NvicModel, number: u8) -> int {
    if number == 2 {
        0
    } else if number == 3 {
        1
    } else {
        2 + configured_priority(mem, nvic, number)
    }
}

/// PRIMASK, FAULTMASK and BASEPRI hold an exception back.
pub open spec fn masked(cpu: CpuState, number: u8, pri: int) -> bool {
    if number == 2 {
        false
    } else if number == 3 {
        cpu.faultmask != 0
    } else {
        cpu.faultmask != 0 || cpu.primask != 0 || (cpu.basepri != 0 && pri >= 2 + cpu.basepri)
    }
}

/// The priority of what is being executed; thread mode comes after all exceptions.
pub open spec fn running_priority(mem: MemoryModel, nvic: NvicModel) -> int {
    if nvic.current == 0 {
        512
    } else {
        priority(mem, nvic, nvic.current)
    }
}

/// An exception is pending, and enabled if it is an interrupt.
pub open spec fn is_pending(mem: MemoryModel, nvic: NvicModel, number: int) -> bool {
    if number < 16 {
        match mem.system() {
            Some(s) => s.pended & exc_mask(number as u8) != 0,
            None => false,
        }
    } else {
        irq_set(nvic.pending, number - 16) && irq_set(nvic.enabled, number - 16)
    }
}

/// An exception can be entered now: it is pending, not masked, and more urgent than
/// what is being executed.
pub open spec fn acceptable(cpu: CpuState, mem: MemoryModel, nvic: NvicModel, number: int) -> bool {
    let pri = priority(mem, nvic, number as u8);
    is_pending(mem, nvic, number) && !masked(cpu, number as u8, pri) && pri < running_priority(
        mem,
        nvic,
    )
}

/// The most urgent acceptable exception with a number from 1 to below `k`; of equal
/// ones the first.
pub open spec fn most_urgent(cpu: CpuState, mem: MemoryModel, nvic: NvicModel, k: int) -> Option<u8>
    decreases k,
{
    if k <= 1 {
        None
    } else {
        let best = most_urgent(cpu, mem, nvic, k - 1);
        if acceptable(cpu, mem, nvic, k - 1) && match best {
            Some(b) => priority(mem, nvic, (k - 1) as u8) < priority(mem, nvic, b),
            None => true,
        } {
            Some((k - 1) as u8)
        } else {
            best
        }
    }
}

/// Writing words at ascending addresses; refused writes are passed over.
pub open spec fn words_written(mem: MemoryModel, addr: u32, words: Seq<u32>) -> MemoryModel
    decreases words.len(),
{
    if words.len() == 0 {
        mem
    } else {
        words_written(mem.writing(addr, 4, words[0]).1, wrap32(addr + 4), words.skip(1))
    }
}

/// Reading words at ascending addresses; refused reads give 0.
pub open spec fn words_read(mem: MemoryModel, addr: u32, n: nat) -> (Seq<u32>, MemoryModel)
    decreases n,
{
    if n == 0 {
        (Seq::empty(), mem)
    } else {
        let (r, m) = mem.reading(addr, 4);
        let v = match r {
            Ok(v) => v,
            Err(_) => 0u32,
        };
        let (rest, last) = words_read(m, wrap32(addr + 4), (n - 1) as nat);
        (seq![v] + rest, last)
    }
}

/// The words of an exception frame: R0 to R3, R12, LR, PC, the status word without
/// IT bits and with the realignment mark; and in the extended frame S0 to S15 and
/// FPSCR.
pub open spec fn frame_words(cpu: CpuState, pc: u32, realigned: bool, extended: bool) -> Seq<u32> {
    let status = (cpu.xpsr & !0xFC00u32) | (if realigned {
        0x200u32
    } else {
        0u32
    });
    let basic = seq![
        cpu.regs[0],
        cpu.regs[1],
        cpu.regs[2],
        cpu.regs[3],
        cpu.regs[12],
        cpu.regs[14],
        pc,
        status,
    ];
    if extended {
        basic + cpu.fpu.s@.take(16).push(cpu.fpu.fpscr)
    } else {
        basic
    }
}

/// The value that LR receives at an exception entry.
pub open spec fn entry_lr(extended: bool, from_thread: bool, process: bool) -> u32 {
    if extended {
        if !from_thread {
            0xFFFF_FFE1
        } else if process {
            0xFFFF_FFED
        } else {
            0xFFFF_FFE9
        }
    } else {
        if !from_thread {
            0xFFFF_FFF1
        } else if process {
            0xFFFF_FFFD
        } else {
            0xFFFF_FFF9
        }
    }
}

/// Where the frame of an exception entry is put: the stack that is in use, moved
/// down for alignment and for the frame.
pub struct FramePlace {
    pub from_thread: bool,
    /// The process stack is used.
    pub process: bool,
    pub realigned: bool,
    pub extended: bool,
    pub sp: u32,
}

/// The place of the frame of an entry.
pub open spec fn frame_place(m: Machine) -> FramePlace {
    let from_thread = m.nvic.current == 0;
    let process = from_thread && m.cpu.control & 1 != 0;
    let top = if process {
        m.cpu.psp
    } else {
        m.cpu.msp
    };
    let aligns = match m.mem.system() {
        Some(s) => s.ccr & CCR_STKALIGN != 0,
        None => true,
    };
    let realigned = aligns && top / 4 % 2 == 1;
    let extended = m.cpu.control & 4 != 0;
    FramePlace {
        from_thread,
        process,
        realigned,
        extended,
        sp: wrap32(
            top - (if realigned {
                4int
            } else {
                0
            }) - (if extended {
                0x68int
            } else {
                0x20
            }),
        ),
    }
}

/// The core after an exception entry to a vector.
pub open spec fn entered_cpu(cpu: CpuState, p: FramePlace, number: u8, vector: u32) -> CpuState {
    let msp = if p.process {
        cpu.msp
    } else {
        p.sp
    };
    CpuState {
        msp,
        psp: if p.process {
            p.sp
        } else {
            cpu.psp
        },
        xpsr: (cpu.xpsr & !0x1FFu32) | (number as u32),
        control: if p.extended {
            cpu.control & !4u8
        } else {
            cpu.control
        },
        ..cpu
    }.with_reg(14, entry_lr(p.extended, p.from_thread, p.process)).with_reg(13, msp).with_reg(
        15,
        (vector - vector % 2) as u32,
    )
}

/// The memory with the active exception recorded in the system block.
pub open spec fn with_vectactive(mem: MemoryModel, number: u8) -> MemoryModel {
    match mem.system() {
        Some(s) => mem.with_system(SystemBlock { vectactive: number, ..s }),
        None => mem,
    }
}

/// The memory with a system exception no longer pending.
pub open spec fn with_unpended(mem: MemoryModel, number: u8) -> MemoryModel {
    match mem.system() {
        Some(s) => if number < 16 {
            mem.with_system(s.unpend(number))
        } else {
            mem
        },
        None => mem,
    }
}

/// The vector of an exception, and the memory after it was read.
pub open spec fn vector_of(mem: MemoryModel, number: u8) -> (u32, MemoryModel) {
    let base = match mem.system() {
        Some(s) => s.vtor,
        None => 0,
    };
    match mem.reading(wrap32(base + 4 * number), 4) {
        (Ok(v), m) => (v, m),
        (Err(_), m) => (0, m),
    }
}

/// The registers that an exception frame gives back.
pub open spec fn restored_cpu(cpu: CpuState, words: Seq<u32>, exc_return: u32) -> CpuState {
    let process = exc_return & 4 != 0;
    let extended = exc_return & 0x10 == 0;
    let top = if process {
        cpu.psp
    } else {
        cpu.msp
    };
    let realigned = words[7] & 0x200 != 0;
    let sp = wrap32(
        top + (if extended {
            0x68int
        } else {
            0x20
        }) + (if realigned {
            4int
        } else {
            0
        }),
    );
    let status = if realigned {
        words[7] & !0x200u32
    } else {
        words[7]
    };
    let popped = cpu.with_reg(0, words[0]).with_reg(1, words[1]).with_reg(2, words[2]).with_reg(
        3,
        words[3],
    ).with_reg(12, words[4]).with_reg(14, words[5]).with_reg(
        15,
        (words[6] - words[6] % 2) as u32,
    ).with_reg(13, sp);
    CpuState {
        fpu: if extended {
            FpuRegisters { fpscr: words[24], ..restored_s(cpu.fpu, words, 16) }
        } else {
            cpu.fpu
        },
        xpsr: status & !0x1FFu32,
        msp: if process {
            cpu.msp
        } else {
            sp
        },
        psp: if process {
            sp
        } else {
            cpu.psp
        },
        control: if process {
            cpu.control | 1
        } else {
            cpu.control & !1u8
        },
        ..popped
    }
}

/// The first `n` single precision registers taken from an extended frame.
pub open spec fn restored_s(f: FpuRegisters, words: Seq<u32>, n: int) -> FpuRegisters
    decreases n,
{
    if n <= 0 {
        f
    } else {
        restored_s(f, words, n - 1).with_s(n - 1, words[8 + n - 1])
    }
}

impl Machine {
    /// The machine made of its parts.
    pub open spec fn of(engine: Engine, cpu: CpuState, mem: MemoryModel, nvic: NvicModel) -> Machine {
        Machine { engine, cpu, mem, nvic }
    }

    /// Entering an exception: the frame is written, LR, SP, the status word and PC
    /// are set, the IT block is left, and the exception is active and no longer
    /// pending. The frame holds `return_pc`, or PC where it is none. A frame that holds
    /// floating point registers is counted.
    #[verifier::opaque]
    pub open spec fn entered(self, number: u8, return_pc: Option<u32>) -> Machine {
        let p = frame_place(self);
        let pc = match return_pc {
            Some(v) => v,
            None => self.cpu.regs[15],
        };
        let framed = words_written(
            self.mem,
            p.sp,
            frame_words(self.cpu, pc, p.realigned, p.extended),
        );
        let (vector, read) = vector_of(framed, number);
        Machine {
            engine: Engine {
                executor: self.engine.executor.cleared(),
                stats: self.engine.stats.framed(p.extended),
                ..self.engine
            },
            cpu: entered_cpu(self.cpu, p, number, vector),
            mem: with_vectactive(with_unpended(read, number), number),
            nvic: self.nvic.entered(number),
        }
    }

    /// Returning from an exception: the frame is read from the stack that the value
    /// names, and the interrupted exception is current again. A return that takes
    /// floating point registers is counted.
    #[verifier::opaque]
    pub open spec fn returned(self, exc_return: u32) -> Machine {
        let top = if exc_return & 4 != 0 {
            self.cpu.psp
        } else {
            self.cpu.msp
        };
        let n = if exc_return & 0x10 == 0 {
            25nat
        } else {
            8
        };
        let (words, read) = words_read(self.mem, top, n);
        let nvic = self.nvic.exited();
        Machine {
            engine: Engine {
                stats: self.engine.stats.unframed(exc_return & 0x10 == 0),
                ..self.engine
            },
            cpu: restored_cpu(self.cpu, words, exc_return),
            mem: with_vectactive(read, nvic.current),
            nvic,
        }
    }

    /// The machine with other counters.
    pub open spec fn counted(self, stats: EngineStats) -> Machine {
        Machine { engine: Engine { stats, ..self.engine }, ..self }
    }

    /// One more fault.
    pub open spec fn faulted(self) -> Machine {
        self.counted(
            EngineStats {
                faults: wrap64(self.engine.stats.faults + 1),
                ..self.engine.stats
            },
        )
    }

    /// One more exception.
    pub open spec fn excepted(self) -> Machine {
        self.counted(
            EngineStats {
                exceptions: wrap64(self.engine.stats.exceptions + 1),
                ..self.engine.stats
            },
        )
    }

    /// The machine with another PC.
    pub open spec fn at(self, pc: u32) -> Machine {
        Machine { cpu: self.cpu.with_reg(15, pc), ..self }
    }

    /// The machine outside any IT block.
    pub open spec fn cleared(self) -> Machine {
        Machine {
            engine: Engine { executor: self.engine.executor.cleared(), ..self.engine },
            ..self
        }
    }

    /// Fetching and decoding: the fault, or the instruction and its width in bytes;
    /// and the machine after the fetch.
    #[verifier::opaque]
    pub open spec fn fetched(self) -> (Result<(Instruction, u32), FaultReason>, Machine) {
        let pc = self.cpu.regs[15];
        match self.mem.reading(pc, 2) {
            (Err(_), m) => (
                Err(FaultReason::BusFault { address: pc }),
                Machine { mem: m, ..self },
            ),
            (Ok(first), m) => {
                let decoder = Decoder {
                    decoded_count: wrap64(self.engine.decoder.decoded_count + 1),
                };
                if is_wide(first as u16) {
                    match m.reading(wrap32(pc + 2), 2) {
                        (Err(_), m2) => (
                            Err(FaultReason::BusFault { address: wrap32(pc + 2) }),
                            Machine { mem: m2, ..self },
                        ),
                        (Ok(second), m2) => (
                            Ok((decoded32((first * 0x1_0000 + second) as u32, pc), 4)),
                            Machine {
                                engine: Engine {
                                    decoder,
                                    executor: Executor {
                                        cur_is_16bit: false,
                                        ..self.engine.executor
                                    },
                                    ..self.engine
                                },
                                mem: m2,
                                ..self
                            },
                        ),
                    }
                } else {
                    (
                        Ok((decoded16(first as u16, pc), 2)),
                        Machine {
                            engine: Engine {
                                decoder,
                                executor: Executor { cur_is_16bit: true, ..self.engine.executor },
                                ..self.engine
                            },
                            mem: m,
                            ..self
                        },
                    )
                }
            },
        }
    }

    /// Executing an instruction and counting it.
    pub open spec fn executed(self, instr: Instruction) -> (ExecOutcome, Machine) {
        let e = self.engine.executor.executed(self.cpu, self.mem, instr);
        (
            e.effect.outcome,
            Machine {
                engine: Engine {
                    executor: e.executor,
                    stats: EngineStats {
                        instructions: wrap64(self.engine.stats.instructions + 1),
                        cycles: e.executor.cycle_count,
                        ..self.engine.stats
                    },
                    ..self.engine
                },
                cpu: e.effect.cpu,
                mem: e.effect.mem,
                ..self
            },
        )
    }

    /// What follows the outcome of an instruction of a width.
    #[verifier::opaque]
    pub open spec fn followed(self, outcome: ExecOutcome, width: u32) -> (EngineResult, Machine) {
        match outcome {
            ExecOutcome::Continue => (
                EngineResult::Halted,
                self.at(wrap32(self.cpu.regs[15] + width)),
            ),
            ExecOutcome::Skipped => (
                EngineResult::Halted,
                self.at(wrap32(self.cpu.regs[15] + width)),
            ),
            ExecOutcome::Branch { target } => (EngineResult::Halted, self.at(target)),
            ExecOutcome::ExceptionReturn { exc_return } => (
                EngineResult::Halted,
                self.excepted().returned(exc_return),
            ),
            ExecOutcome::TakeException { number, return_pc } => (
                EngineResult::Halted,
                self.excepted().entered(number, Some(return_pc)),
            ),
            ExecOutcome::DebugEvent => (EngineResult::DebugEvent, self.excepted().cleared()),
            ExecOutcome::Fault { reason } => (
                EngineResult::Fault { reason },
                self.faulted().cleared(),
            ),
        }
    }

    /// One step: an instruction is fetched, decoded and executed.
    #[verifier::opaque]
    pub open spec fn stepped(self) -> (EngineResult, Machine) {
        match self.fetched() {
            (Err(reason), m) => (EngineResult::Fault { reason }, m.faulted()),
            (Ok((instr, width)), m) => {
                let (outcome, m2) = m.executed(instr);
                m2.followed(outcome, width)
            },
        }
    }

    /// The system timer advanced by a cycle, and the active exception recorded.
    pub open spec fn ticked(self) -> Machine {
        let mem = match self.mem.system() {
            Some(s) => self.mem.with_system(s.after_cycles(1)),
            None => self.mem,
        };
        Machine { mem: with_vectactive(mem, self.nvic.current), ..self }
    }

    /// The exception to enter next.
    pub open spec fn next_exception(self) -> Option<u8> {
        most_urgent(self.cpu, self.mem, self.nvic, 256)
    }

    /// Instructions executed since a count.
    pub open spec fn executed_since(self, start: u64) -> u64 {
        wrap64(self.engine.stats.instructions - start)
    }

    /// Running from a count of instructions until the limit is reached or a step does
    /// not go on: a turn enters an exception where one is acceptable, and else is a
    /// step, after which the timer advances.
    pub open spec fn ran(self, start: u64) -> (EngineResult, Machine)
        decreases
            self.engine.max_instructions - self.executed_since(start),
            entries_left(self),
    {
        if self.executed_since(start) >= self.engine.max_instructions {
            (EngineResult::LimitReached, self)
        } else {
            match self.next_exception() {
                Some(number) => {
                    proof {
                        lemma_entry_turn(self, number);
                    }
                    self.entered(number, None).excepted().ran(start)
                },
                None => {
                    proof {
                        lemma_step_turn(self);
                    }
                    match self.stepped() {
                        (EngineResult::Halted, m) => m.ticked().ran(start),
                        (r, m) => (r, m),
                    }
                },
            }
        }
    }
}

/// Writes words at ascending addresses.
fn write_words(mem: &mut Memory, start: u32, words: &Vec<u32>)
    requires
        old(mem).wf(),
    ensures
        final(mem).wf(),
        final(mem)@ == words_written(old(mem)@, start, words@),
{
    let mut i: usize = 0;
    let mut addr: u32 = start;
    proof {
        assert(words@.skip(0) =~= words@);
    }
    while i < words.len()
        invariant
            i <= words.len(),
            mem.wf(),
            words_written(mem@, addr, words@.skip(i as int)) == words_written(
                old(mem)@,
                start,
                words@,
            ),
        decreases words.len() - i,
    {
        proof {
            assert(words@.skip(i as int).skip(1) =~= words@.skip(i + 1));
            assert(words@.skip(i as int)[0] == words@[i as int]);
        }
        let _ = mem.write_u32(addr, words[i]);
        addr = addr.wrapping_add(4);
        i = i + 1;
    }
}

/// Reads words at ascending addresses.
fn read_words(mem: &mut Memory, start: u32, n: usize) -> (r: Vec<u32>)
    requires
        old(mem).wf(),
        n <= 64,
    ensures
        final(mem).wf(),
        words_read(old(mem)@, start, n as nat) == (r@, final(mem)@),
        r@.len() == n,
{
    let mut words: Vec<u32> = Vec::new();
    let mut i: usize = 0;
    let mut addr: u32 = start;
    while i < n
        invariant
            i <= n <= 64,
            mem.wf(),
            words@.len() == i,
            words_read(old(mem)@, start, n as nat).0 =~= words@ + words_read(
                mem@,
                addr,
                (n - i) as nat,
            ).0,
            words_read(old(mem)@, start, n as nat).1 == words_read(mem@, addr, (n - i) as nat).1,
        decreases n - i,
    {
        let v: u32 = match mem.read_u32(addr) {
            Ok(v) => v,
            Err(_) => 0,
        };
        words.push(v);
        addr = addr.wrapping_add(4);
        i = i + 1;
    }
    words
}

/// Marks the active exception in the system block.
fn mark_active(mem: &mut Memory, number: u8)
    ensures
        old(mem).wf() ==> final(mem).wf(),
        final(mem)@ == with_vectactive(old(mem)@, number),
{
    if let Some(sb) = mem.system_block_mut() {
        sb.set_vectactive(number);
    }
}

/// The frame of an exception entry.
fn make_frame(cpu: &CpuState, pc: u32, realigned: bool, extended: bool) -> (r: Vec<u32>)
    ensures
        r@ == frame_words(*cpu, pc, realigned, extended),
{
    let status: u32 = (cpu.xpsr & !0xFC00u32) | (if realigned {
        0x200u32
    } else {
        0u32
    });
    let mut words: Vec<u32> = Vec::new();
    words.push(cpu.regs[0]);
    words.push(cpu.regs[1]);
    words.push(cpu.regs[2]);
    words.push(cpu.regs[3]);
    words.push(cpu.regs[12]);
    words.push(cpu.regs[14]);
    words.push(pc);
    words.push(status);
    if extended {
        let ghost basic = words@;
        let mut i: usize = 0;
        while i < 16
            invariant
                i <= 16,
                words@ == basic + cpu.fpu.s@.take(i as int),
            decreases 16 - i,
        {
            words.push(cpu.fpu.s[i]);
            assert(cpu.fpu.s@.take(i + 1) =~= cpu.fpu.s@.take(i as int).push(cpu.fpu.s[i as int]));
            i = i + 1;
        }
        words.push(cpu.fpu.fpscr);
    }
    assert(words@ =~= frame_words(*cpu, pc, realigned, extended));
    words
}

impl Engine {
    /// The IT state of the executor is valid.
    pub open spec fn wf(self) -> bool {
        self.executor.wf()
    }

    /// An engine with nothing executed and a limit of a million instructions.
    pub fn new() -> (r: Self)
        ensures
            r.wf(),
            r.executor == Executor::initial(),
            r.decoder.decoded_count == 0,
            r.stats == EngineStats::zero(),
            r.max_instructions == 1_000_000,
            r.vector_base == 0,
    {
        Engine {
            decoder: Decoder::new(),
            executor: Executor::new(),
            stats: EngineStats::default(),
            max_instructions: 1_000_000,
            vector_base: 0,
        }
    }

    fn fetch(&mut self, cpu: &CpuState, mem: &mut Memory, Ghost(nvic): Ghost<NvicModel>) -> (r:
        Result<(Instruction, u32), FaultReason>)
        requires
            old(self).wf(),
            old(mem).wf(),
        ensures
            final(self).wf(),
            final(mem).wf(),
            r matches Ok(p) ==> p.0.wf(),
            Machine::of(*old(self), *cpu, old(mem)@, nvic).fetched() == (
                r,
                Machine::of(*final(self), *cpu, final(mem)@, nvic),
            ),
    {
        proof {
            reveal(Machine::fetched);
        }
        let pc: u32 = cpu.regs[15];
        let first: u16 = match mem.read_u16(pc) {
            Ok(v) => v,
            Err(_) => {
                return Err(FaultReason::BusFault { address: pc });
            },
        };
        if wide(first) {
            let next: u32 = pc.wrapping_add(2);
            let second: u16 = match mem.read_u16(next) {
                Ok(v) => v,
                Err(_) => {
                    return Err(FaultReason::BusFault { address: next });
                },
            };
            self.executor.cur_is_16bit = false;
            let bits: u32 = first as u32 * 0x1_0000 + second as u32;
            Ok((self.decoder.decode_word(bits, pc), 4))
        } else {
            self.executor.cur_is_16bit = true;
            Ok((self.decoder.decode_halfword(first, pc), 2))
        }
    }

    /// Executes one instruction.
    pub fn step(&mut self, cpu: &mut CpuState, mem: &mut Memory, nvic: &mut Nvic) -> (r: EngineResult)
        requires
            old(self).wf(),
            old(mem).wf(),
        ensures
            final(self).wf(),
            final(mem).wf(),
            Machine::of(*old(self), *old(cpu), old(mem)@, old(nvic)@).stepped() == (
                r,
                Machine::of(*final(self), *final(cpu), final(mem)@, final(nvic)@),
            ),
    {
        proof {
            reveal(Machine::stepped);
        }
        let (instr, width): (Instruction, u32) = match self.fetch(cpu, mem, Ghost(nvic@)) {
            Ok(p) => p,
            Err(reason) => {
                self.stats.faults = self.stats.faults.wrapping_add(1);
                return EngineResult::Fault { reason };
            },
        };
        let outcome = self.executor.execute(cpu, mem, &instr);
        self.stats.instructions = self.stats.instructions.wrapping_add(1);
        self.stats.cycles = self.executor.cycle_count;
        self.follow(cpu, mem, nvic, outcome, width)
    }

    fn follow(
        &mut self,
        cpu: &mut CpuState,
        mem: &mut Memory,
        nvic: &mut Nvic,
        outcome: ExecOutcome,
        width: u32,
    ) -> (r: EngineResult)
        requires
            old(self).wf(),
            old(mem).wf(),
        ensures
            final(self).wf(),
            final(mem).wf(),
            Machine::of(*old(self), *old(cpu), old(mem)@, old(nvic)@).followed(outcome, width) == (
                r,
                Machine::of(*final(self), *final(cpu), final(mem)@, final(nvic)@),
            ),
    {
        proof {
            reveal(Machine::followed);
        }
        match outcome {
            ExecOutcome::Continue | ExecOutcome::Skipped => {
                let pc: u32 = cpu.get(15).wrapping_add(width);
                cpu.set(15, pc);
                EngineResult::Halted
            },
            ExecOutcome::Branch { target } => {
                cpu.set(15, target);
                EngineResult::Halted
            },
            ExecOutcome::ExceptionReturn { exc_return } => {
                self.stats.exceptions = self.stats.exceptions.wrapping_add(1);
                self.return_from_exception(cpu, mem, nvic, exc_return);
                EngineResult::Halted
            },
            ExecOutcome::TakeException { number, return_pc } => {
                self.stats.exceptions = self.stats.exceptions.wrapping_add(1);
                self.take_exception(cpu, mem, nvic, number, Some(return_pc));
                EngineResult::Halted
            },
            ExecOutcome::DebugEvent => {
                self.stats.exceptions = self.stats.exceptions.wrapping_add(1);
                self.executor.clear_it();
                EngineResult::DebugEvent
            },
            ExecOutcome::Fault { reason } => {
                self.stats.faults = self.stats.faults.wrapping_add(1);
                self.executor.clear_it();
                EngineResult::Fault { reason }
            },
        }
    }

    /// Runs until an instruction stops the engine or the limit is reached.
    pub fn run(&mut self, cpu: &mut CpuState, mem: &mut Memory, nvic: &mut Nvic) -> (r: EngineResult)
        requires
            old(self).wf(),
            old(mem).wf(),
        ensures
            final(self).wf(),
            final(mem).wf(),
            Machine::of(*old(self), *old(cpu), old(mem)@, old(nvic)@).ran(
                old(self).stats.instructions,
            ) == (r, Machine::of(*final(self), *final(cpu), final(mem)@, final(nvic)@)),
            r != EngineResult::Halted,
            final(self).max_instructions == old(self).max_instructions,
            wrap64(final(self).stats.instructions - old(self).stats.instructions)
                <= old(self).max_instructions,
            r == EngineResult::LimitReached ==> final(self).stats.instructions == wrap64(
                old(self).stats.instructions + old(self).max_instructions,
            ),
    {
        let start: u64 = self.stats.instructions;
        let ghost whole = Machine::of(*self, *cpu, mem@, nvic@).ran(start);
        proof {
            law_run_limit(Machine::of(*self, *cpu, mem@, nvic@), start);
        }
        while self.stats.instructions.wrapping_sub(start) < self.max_instructions
            invariant
                self.wf(),
                mem.wf(),
                Machine::of(*self, *cpu, mem@, nvic@).ran(start) == whole,
                start == old(self).stats.instructions,
                whole == Machine::of(*old(self), *old(cpu), old(mem)@, old(nvic)@).ran(start),
                whole.0 != EngineResult::Halted,
                whole.1.engine.max_instructions == old(self).max_instructions,
                whole.1.executed_since(start) <= old(self).max_instructions,
                whole.0 == EngineResult::LimitReached ==> whole.1.executed_since(start)
                    == old(self).max_instructions,
            decreases
                self.max_instructions - Machine::of(*self, *cpu, mem@, nvic@).executed_since(start),
                entries_left(Machine::of(*self, *cpu, mem@, nvic@)),
        {
            let ghost m = Machine::of(*self, *cpu, mem@, nvic@);
            match self.pending_exception_to_take(cpu, mem, nvic) {
                Some(number) => {
                    proof {
                        lemma_entry_turn(m, number);
                    }
                    self.take_exception(cpu, mem, nvic, number, None);
                    self.stats.exceptions = self.stats.exceptions.wrapping_add(1);
                },
                None => {
                    proof {
                        lemma_step_turn(m);
                    }
                    let r = self.step(cpu, mem, nvic);
                    if r != EngineResult::Halted {
                        return r;
                    }
                    let _ = mem.tick_system(1);
                    mark_active(mem, nvic.current_exception);
                },
            }
        }
        EngineResult::LimitReached
    }

    /// The priority of an exception.
    fn exception_priority(&self, mem: &Memory, nvic: &Nvic, number: u8) -> (r: u16)
        ensures
            r == priority(mem@, nvic@, number),
            r <= 257,
    {
        match number {
            2 => 0,
            3 => 1,
            _ => 2 + self.configurable_priority(mem, nvic, number) as u16,
        }
    }

    fn configurable_priority(&self, mem: &Memory, nvic: &Nvic, number: u8) -> (r: u8)
        ensures
            r == configured_priority(mem@, nvic@, number),
    {
        if number >= 16 {
            return nvic.priority[(number - 16) as usize];
        }
        match mem.system_block() {
            Some(sb) => match number {
                4 => (sb.shpr1() / 0x100_0000 % 0x100) as u8,
                5 => (sb.shpr1() / 0x1_0000 % 0x100) as u8,
                6 => (sb.shpr1() / 0x100 % 0x100) as u8,
                12 => (sb.shpr1() % 0x100) as u8,
                11 => (sb.shpr2() / 0x100_0000 % 0x100) as u8,
                14 => (sb.shpr3() / 0x1_0000 % 0x100) as u8,
                15 => (sb.shpr3() / 0x100_0000 % 0x100) as u8,
                _ => 0,
            },
            None => 0,
        }
    }

    fn is_masked(&self, cpu: &CpuState, number: u8, pri: u16) -> (r: bool)
        ensures
            r == masked(*cpu, number, pri as int),
    {
        match number {
            2 => false,
            3 => cpu.faultmask != 0,
            _ => cpu.faultmask != 0 || cpu.primask != 0 || (cpu.basepri != 0 && pri
                >= 2 + cpu.basepri as u16),
        }
    }

    fn current_priority(&self, mem: &Memory, nvic: &Nvic) -> (r: u16)
        ensures
            r == running_priority(mem@, nvic@),
    {
        if nvic.current_exception == 0 {
            512
        } else {
            self.exception_priority(mem, nvic, nvic.current_exception)
        }
    }

    fn is_pending(&self, mem: &Memory, nvic: &Nvic, number: u8) -> (r: bool)
        ensures
            r == is_pending(mem@, nvic@, number as int),
    {
        if number < 16 {
            match mem.system_block() {
                Some(sb) => sb.pended_bits() & exc_mask(number) != 0,
                None => false,
            }
        } else {
            let irq: u8 = number - 16;
            let w: usize = (irq / 32) as usize;
            let mask: u32 = 1u32 << ((irq % 32) as u32);
            nvic.pending[w] & mask != 0 && nvic.enabled[w] & mask != 0
        }
    }

    fn pending_exception_to_take(&self, cpu: &CpuState, mem: &Memory, nvic: &Nvic) -> (r: Option<u8>)
        ensures
            r == most_urgent(*cpu, mem@, nvic@, 256),
    {
        let current: u16 = self.current_priority(mem, nvic);
        let mut best: Option<(u16, u8)> = None;
        let mut number: u16 = 1;
        while number < 256
            invariant
                1 <= number <= 256,
                current == running_priority(mem@, nvic@),
                match best {
                    Some((p, n)) => most_urgent(*cpu, mem@, nvic@, number as int) == Some(n) && p
                        == priority(mem@, nvic@, n),
                    None => most_urgent(*cpu, mem@, nvic@, number as int) is None,
                },
            decreases 256 - number,
        {
            let n: u8 = number as u8;
            if self.is_pending(mem, nvic, n) {
                let pri: u16 = self.exception_priority(mem, nvic, n);
                if !self.is_masked(cpu, n, pri) && pri < current {
                    let better: bool = match best {
                        Some((p, _)) => pri < p,
                        None => true,
                    };
                    if better {
                        best = Some((pri, n));
                    }
                }
            }
            number = number + 1;
        }
        match best {
            Some((_, n)) => Some(n),
            None => None,
        }
    }

    fn place_frame(&self, cpu: &CpuState, mem: &Memory, nvic: &Nvic) -> (r: FramePlace)
        ensures
            forall|engine: Engine|
                #![auto]
                frame_place(Machine { engine, cpu: *cpu, mem: mem@, nvic: nvic@ }) == r,
    {
        let from_thread: bool = nvic.current_exception == 0;
        let process: bool = from_thread && cpu.control & 1 != 0;
        let top: u32 = if process {
            cpu.psp
        } else {
            cpu.msp
        };
        let aligns: bool = match mem.system_block() {
            Some(sb) => sb.ccr_stkalign(),
            None => true,
        };
        let realigned: bool = aligns && top / 4 % 2 == 1;
        let extended: bool = cpu.control & 4 != 0;
        let pad: u32 = if realigned {
            4
        } else {
            0
        };
        let size: u32 = if extended {
            0x68
        } else {
            0x20
        };
        FramePlace {
            from_thread,
            process,
            realigned,
            extended,
            sp: top.wrapping_sub(pad).wrapping_sub(size),
        }
    }

    fn read_vector(&self, mem: &mut Memory, number: u8) -> (r: u32)
        requires
            old(mem).wf(),
        ensures
            final(mem).wf(),
            vector_of(old(mem)@, number) == (r, final(mem)@),
    {
        let base: u32 = match mem.system_block() {
            Some(sb) => sb.vtor(),
            None => 0,
        };
        match mem.read_u32(base.wrapping_add(4 * number as u32)) {
            Ok(v) => v,
            Err(_) => 0,
        }
    }

    /// Enters an exception.
    fn take_exception(
        &mut self,
        cpu: &mut CpuState,
        mem: &mut Memory,
        nvic: &mut Nvic,
        number: u8,
        return_pc: Option<u32>,
    )
        requires
            old(self).wf(),
            old(mem).wf(),
        ensures
            final(self).wf(),
            final(mem).wf(),
            Machine::of(*old(self), *old(cpu), old(mem)@, old(nvic)@).entered(number, return_pc) == Machine::of(*final(self), *final(cpu), final(mem)@, final(nvic)@),
    {
        proof {
            reveal(Machine::entered);
        }
        let p = self.place_frame(cpu, mem, nvic);
        let pc: u32 = match return_pc {
            Some(v) => v,
            None => cpu.regs[15],
        };
        let frame: Vec<u32> = make_frame(cpu, pc, p.realigned, p.extended);
        write_words(mem, p.sp, &frame);
        if p.extended {
            self.stats.fpu_frames = self.stats.fpu_frames.wrapping_add(1);
        }
        let lr: u32 = if p.extended {
            if !p.from_thread {
                0xFFFF_FFE1
            } else if p.process {
                0xFFFF_FFED
            } else {
                0xFFFF_FFE9
            }
        } else {
            if !p.from_thread {
                0xFFFF_FFF1
            } else if p.process {
                0xFFFF_FFFD
            } else {
                0xFFFF_FFF9
            }
        };
        if p.process {
            cpu.psp = p.sp;
        } else {
            cpu.msp = p.sp;
        }
        let msp: u32 = cpu.msp;
        cpu.xpsr = (cpu.xpsr & !0x1FFu32) | (number as u32);
        if p.extended {
            cpu.control = cpu.control & !4u8;
        }
        cpu.set(14, lr);
        cpu.set(13, msp);
        self.executor.clear_it();
        let vector: u32 = self.read_vector(mem, number);
        cpu.set(15, vector - vector % 2);
        if number < 16 {
            if let Some(sb) = mem.system_block_mut() {
                sb.unpend_exception(number);
            }
        }
        nvic.enter_exception(number);
        mark_active(mem, nvic.current_exception);
    }

    /// Returns from an exception.
    fn return_from_exception(
        &mut self,
        cpu: &mut CpuState,
        mem: &mut Memory,
        nvic: &mut Nvic,
        exc_return: u32,
    )
        requires
            old(self).wf(),
            old(mem).wf(),
        ensures
            final(self).wf(),
            final(mem).wf(),
            Machine::of(*old(self), *old(cpu), old(mem)@, old(nvic)@).returned(exc_return) == Machine::of(*final(self), *final(cpu), final(mem)@, final(nvic)@),
    {
        proof {
            reveal(Machine::returned);
        }
        let process: bool = exc_return & 4 != 0;
        let extended: bool = exc_return & 0x10 == 0;
        let top: u32 = if process {
            cpu.psp
        } else {
            cpu.msp
        };
        let n: usize = if extended {
            25
        } else {
            8
        };
        let words: Vec<u32> = read_words(mem, top, n);
        self.restore(cpu, &words, exc_return);
        if extended {
            self.stats.fpu_exc_returns = self.stats.fpu_exc_returns.wrapping_add(1);
        }
        nvic.exit_exception();
        mark_active(mem, nvic.current_exception);
    }

    fn restore(&self, cpu: &mut CpuState, words: &Vec<u32>, exc_return: u32)
        requires
            words@.len() >= 8,
            exc_return & 0x10 == 0 ==> words@.len() == 25,
        ensures
            *final(cpu) == restored_cpu(*old(cpu), words@, exc_return),
    {
        let process: bool = exc_return & 4 != 0;
        let extended: bool = exc_return & 0x10 == 0;
        let top: u32 = if process {
            cpu.psp
        } else {
            cpu.msp
        };
        let realigned: bool = words[7] & 0x200 != 0;
        let size: u32 = if extended {
            0x68
        } else {
            0x20
        };
        let pad: u32 = if realigned {
            4
        } else {
            0
        };
        let sp: u32 = top.wrapping_add(size).wrapping_add(pad);
        if extended {
            self.restore_fpu(&mut cpu.fpu, words);
        }
        cpu.set(0, words[0]);
        cpu.set(1, words[1]);
        cpu.set(2, words[2]);
        cpu.set(3, words[3]);
        cpu.set(12, words[4]);
        cpu.set(14, words[5]);
        cpu.set(15, words[6] - words[6] % 2);
        cpu.set(13, sp);
        let status: u32 = if realigned {
            words[7] & !0x200u32
        } else {
            words[7]
        };
        cpu.xpsr = status & !0x1FFu32;
        if process {
            cpu.psp = sp;
            cpu.control = cpu.control | 1;
        } else {
            cpu.msp = sp;
            cpu.control = cpu.control & !1u8;
        }
    }

    fn restore_fpu(&self, f: &mut FpuRegisters, words: &Vec<u32>)
        requires
            words@.len() == 25,
        ensures
            *final(f) == (FpuRegisters { fpscr: words@[24], ..restored_s(*old(f), words@, 16) }),
    {
        let mut i: usize = 0;
        while i < 16
            invariant
                i <= 16,
                words@.len() == 25,
                *f == restored_s(*old(f), words@, i as int),
            decreases 16 - i,
        {
            f.write_s(i, words[8 + i]);
            i = i + 1;
        }
        f.fpscr = words[24];
    }
}

impl Default for Engine {
    fn default() -> (r: Self)
        ensures
            r.wf(),
            r.executor == Executor::initial(),
            r.stats == EngineStats::zero(),
            r.max_instructions == 1_000_000,
    {
        Engine::new()
    }
}

} // verus!
