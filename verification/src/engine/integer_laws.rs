//! What integer instructions compute, as numbers: each is executed outside an IT block,
//! and its result is compared with its operands.
use crate::cpu::CpuState;
use crate::engine::alu;
use crate::engine::decode::{Cond, Instruction, ShiftAmount, ShiftKind};
use crate::engine::exec::{
    data_step, effect, flow_step, float_step, holds, media_step, memory_step, Effect, ExecOutcome,
    Executor,
};
use crate::memory::MemoryModel;
use vstd::arithmetic::power2::pow2;
use vstd::prelude::*;

verus! {

/// What an instruction does outside an IT block.
pub open spec fn done(e: Executor, cpu: CpuState, mem: MemoryModel, instr: Instruction) -> Effect {
    e.executed(cpu, mem, instr).effect
}

/// The number that a word stands for in two's complement.
pub open spec fn reading(x: u32) -> int {
    if x >= 0x8000_0000 {
        x - 0x1_0000_0000
    } else {
        x as int
    }
}

/// The flags N, Z, C and V of a core.
pub open spec fn nzcv(cpu: CpuState) -> (bool, bool, bool, bool) {
    (
        cpu.xpsr & 0x8000_0000 != 0,
        cpu.xpsr & 0x4000_0000 != 0,
        cpu.xpsr & 0x2000_0000 != 0,
        cpu.xpsr & 0x1000_0000 != 0,
    )
}

/// Nothing but R0 to R15, the stack pointers and the four flags differs.
pub open spec fn same_rest(a: CpuState, b: CpuState) -> bool {
    &&& a.xpsr & 0x0FFF_FFFF == b.xpsr & 0x0FFF_FFFF
    &&& a.primask == b.primask
    &&& a.faultmask == b.faultmask
    &&& a.basepri == b.basepri
    &&& a.control == b.control
    &&& a.fpu == b.fpu
    &&& a.cpacr == b.cpacr
}

/// An instruction goes on with the next one, leaves the memory alone, and changes no core
/// register but one; of the rest at most the flags and the stack pointers.
pub open spec fn writes_only(r: Effect, cpu: CpuState, mem: MemoryModel, rd: u8) -> bool {
    &&& r.outcome == ExecOutcome::Continue
    &&& r.mem == mem
    &&& same_rest(r.cpu, cpu)
    &&& forall|i: int| 0 <= i < 16 && i != rd ==> #[trigger] r.cpu.regs[i] == cpu.regs[i]
    &&& rd != 13 ==> r.cpu.msp == cpu.msp && r.cpu.psp == cpu.psp
}

/// The bits of a status word that flags were put into.
proof fn lemma_flags(x: u32, n: bool, z: bool, c: bool, v: bool)
    by (bit_vector)
    ensures
        ({
            let x1 = if n { x | 0x8000_0000 } else { x & !0x8000_0000u32 };
            let x2 = if z { x1 | 0x4000_0000 } else { x1 & !0x4000_0000u32 };
            let x3 = if c { x2 | 0x2000_0000 } else { x2 & !0x2000_0000u32 };
            let x4 = if v { x3 | 0x1000_0000 } else { x3 & !0x1000_0000u32 };
            &&& (x2 & 0x8000_0000 != 0) == n
            &&& (x2 & 0x4000_0000 != 0) == z
            &&& x2 & 0x2000_0000 == x & 0x2000_0000
            &&& x2 & 0x1000_0000 == x & 0x1000_0000
            &&& x2 & 0x0FFF_FFFF == x & 0x0FFF_FFFF
            &&& x2 & 0x1FF == x & 0x1FF
            &&& (x3 & 0x8000_0000 != 0) == n
            &&& (x3 & 0x4000_0000 != 0) == z
            &&& (x3 & 0x2000_0000 != 0) == c
            &&& x3 & 0x1000_0000 == x & 0x1000_0000
            &&& x3 & 0x0FFF_FFFF == x & 0x0FFF_FFFF
            &&& (x4 & 0x8000_0000 != 0) == n
            &&& (x4 & 0x4000_0000 != 0) == z
            &&& (x4 & 0x2000_0000 != 0) == c
            &&& (x4 & 0x1000_0000 != 0) == v
            &&& x4 & 0x0FFF_FFFF == x & 0x0FFF_FFFF
            &&& x4 & 0x1FF == x & 0x1FF
        }),
{
}

/// A data processing instruction outside an IT block has the effect of its group.
proof fn lemma_data(e: Executor, cpu: CpuState, mem: MemoryModel, instr: Instruction)
    requires
        e.it_remaining == 0,
        data_step(cpu, false, instr) is Some,
    ensures
        done(e, cpu, mem, instr) == (Effect {
            outcome: ExecOutcome::Continue,
            cpu: data_step(cpu, false, instr)->Some_0,
            mem,
        }),
{
    reveal(Executor::executed);
    reveal(Executor::passed);
    reveal(effect);
    reveal(data_step);
}

/// A branch or a call outside an IT block has the effect of its group.
proof fn lemma_flow(e: Executor, cpu: CpuState, mem: MemoryModel, instr: Instruction)
    requires
        e.it_remaining == 0,
        instr is Branch || instr is BranchLink || instr is BranchLinkExchangeImm
            || instr is BranchExchange || instr is BranchLinkExchange || instr is CompareBranch
            || instr is Svc || instr is Breakpoint || instr is Invalid || instr is Unimplemented
            || instr is TableBranch || instr is ExceptionReturn,
    ensures
        done(e, cpu, mem, instr) == (Effect {
            outcome: flow_step(cpu, false, instr).0,
            cpu: flow_step(cpu, false, instr).1,
            mem,
        }),
{
    reveal(Executor::executed);
    reveal(Executor::passed);
    reveal(effect);
    reveal(data_step);
    reveal(media_step);
    reveal(float_step);
    reveal(memory_step);
}

/// The relation of two words that a condition asks for after they were compared.
pub open spec fn related(c: Cond, a: u32, b: u32) -> bool {
    let difference = reading(a) - reading(b);
    match c {
        Cond::Eq => a == b,
        Cond::Ne => a != b,
        Cond::Cs => a >= b,
        Cond::Cc => a < b,
        Cond::Hi => a > b,
        Cond::Ls => a <= b,
        Cond::Ge => reading(a) >= reading(b),
        Cond::Lt => reading(a) < reading(b),
        Cond::Gt => reading(a) > reading(b),
        Cond::Le => reading(a) <= reading(b),
        Cond::Mi => (a - b) % 0x1_0000_0000 >= 0x8000_0000,
        Cond::Pl => (a - b) % 0x1_0000_0000 < 0x8000_0000,
        Cond::Vs => difference < -0x8000_0000 || difference > 0x7FFF_FFFF,
        Cond::Vc => -0x8000_0000 <= difference <= 0x7FFF_FFFF,
        Cond::Al => true,
    }
}

/// After a comparison a conditional branch is taken exactly where the named relation
/// holds of the two numbers: GE, GT, LT and LE of their signed readings, CS, CC, HI and LS
/// of their unsigned ones. The comparison changes nothing but the flags.
pub proof fn law_compare_branch(
    e: Executor,
    f: Executor,
    cpu: CpuState,
    mem: MemoryModel,
    rn: u8,
    rm: Option<u8>,
    imm: Option<u32>,
    b: u32,
    cond: Cond,
    target: u32,
)
    requires
        e.it_remaining == 0,
        f.it_remaining == 0,
        match rm {
            Some(r) => cpu.regs[r as int] == b,
            None => imm == Some(b),
        },
    ensures
        ({
            let compared = done(e, cpu, mem, Instruction::Cmp { rn, rm, imm });
            let branched = done(
                f,
                compared.cpu,
                compared.mem,
                Instruction::Branch { cond: Some(cond), target },
            );
            &&& compared.outcome == ExecOutcome::Continue
            &&& compared.mem == mem
            &&& compared.cpu.regs == cpu.regs
            &&& same_rest(compared.cpu, cpu)
            &&& branched.outcome == if related(cond, cpu.regs[rn as int], b) {
                ExecOutcome::Branch { target }
            } else {
                ExecOutcome::Continue
            }
            &&& branched.cpu == compared.cpu
            &&& branched.mem == mem
        }),
{
    let instr = Instruction::Cmp { rn, rm, imm };
    let a = cpu.regs[rn as int];
    reveal(data_step);
    reveal(flow_step);
    lemma_data(e, cpu, mem, instr);
    let compared = done(e, cpu, mem, instr);
    lemma_flow(f, compared.cpu, compared.mem, Instruction::Branch { cond: Some(cond), target });
    let d = reading(a) - reading(b);
    let r = ((a - b) % 0x1_0000_0000) as u32;
    lemma_flags(cpu.xpsr, r >= 0x8000_0000, r == 0, a >= b, d < -0x8000_0000 || d > 0x7FFF_FFFF);
}

/// An unconditional branch is always taken. Inside an IT block, whose condition has been
/// tested already, so is a conditional one.
pub proof fn law_branch(e: Executor, cpu: CpuState, mem: MemoryModel, cond: Option<Cond>, target: u32)
    ensures
        e.it_remaining == 0 && cond is None ==> done(
            e,
            cpu,
            mem,
            Instruction::Branch { cond, target },
        ).outcome == (ExecOutcome::Branch { target }),
        e.it_remaining > 0 && holds(cpu.xpsr, e.current_cond()) ==> done(
            e,
            cpu,
            mem,
            Instruction::Branch { cond, target },
        ).outcome == (ExecOutcome::Branch { target }),
{
    reveal(Executor::executed);
    reveal(Executor::passed);
    reveal(effect);
    reveal(data_step);
    reveal(media_step);
    reveal(float_step);
    reveal(memory_step);
    reveal(flow_step);
}

/// Calls leave the address of the next instruction in LR, with its lowest bit set: BL and
/// BLX with an immediate are four bytes long, BLX with a register two.
pub proof fn law_calls(e: Executor, cpu: CpuState, mem: MemoryModel, target: u32, rm: u8)
    requires
        e.it_remaining == 0,
        cpu.regs[15] % 2 == 0,
        cpu.regs[15] < 0xFFFF_FFF0,
    ensures
        ({
            let bl = done(e, cpu, mem, Instruction::BranchLink { target });
            let blx = done(e, cpu, mem, Instruction::BranchLinkExchangeImm { target });
            let reg = done(e, cpu, mem, Instruction::BranchLinkExchange { rm });
            let t = cpu.regs[rm as int];
            &&& bl.outcome == (ExecOutcome::Branch { target })
            &&& bl.cpu == cpu.with_reg(14, (cpu.regs[15] + 5) as u32)
            &&& bl.mem == mem
            &&& blx.outcome == (ExecOutcome::Branch { target })
            &&& blx.cpu == bl.cpu
            &&& reg.cpu == cpu.with_reg(14, (cpu.regs[15] + 3) as u32)
            &&& t % 2 == 1 ==> reg.outcome == (ExecOutcome::Branch { target: (t - 1) as u32 })
            &&& t % 2 == 0 ==> reg.outcome == (ExecOutcome::Fault {
                reason: crate::engine::FaultReason::UsageFault { address: t },
            })
        }),
{
    reveal(flow_step);
    lemma_flow(e, cpu, mem, Instruction::BranchLink { target });
    lemma_flow(e, cpu, mem, Instruction::BranchLinkExchangeImm { target });
    lemma_flow(e, cpu, mem, Instruction::BranchLinkExchange { rm });
    let (x, y) = ((cpu.regs[15] + 4) as u32, (cpu.regs[15] + 2) as u32);
    assert(x | 1 == x + 1 && y | 1 == y + 1) by (bit_vector)
        requires
            x % 2 == 0,
            y % 2 == 0,
            x < 0xFFFF_FFFF,
            y < 0xFFFF_FFFF,
    ;
}

/// BX goes to an odd address without its lowest bit; one of the six values that stand for
/// an exception return returns, and any other even address is a usage fault.
pub proof fn law_exchange(e: Executor, cpu: CpuState, mem: MemoryModel, rm: u8)
    requires
        e.it_remaining == 0,
    ensures
        ({
            let t = cpu.regs[rm as int];
            let r = done(e, cpu, mem, Instruction::BranchExchange { rm });
            &&& r.cpu == cpu
            &&& r.mem == mem
            &&& r.outcome == if t == 0xFFFF_FFF1 || t == 0xFFFF_FFF9 || t == 0xFFFF_FFFD || t
                == 0xFFFF_FFE1 || t == 0xFFFF_FFE9 || t == 0xFFFF_FFED {
                ExecOutcome::ExceptionReturn { exc_return: t }
            } else if t % 2 == 1 {
                ExecOutcome::Branch { target: (t - 1) as u32 }
            } else {
                ExecOutcome::Fault { reason: crate::engine::FaultReason::UsageFault { address: t } }
            }
        }),
{
    reveal(flow_step);
    lemma_flow(e, cpu, mem, Instruction::BranchExchange { rm });
}

/// CBZ branches where the register is zero and CBNZ where it is not; SVC asks for
/// exception 11 and the next instruction's address in the frame; BKPT stops the engine.
/// None of them changes the core.
pub proof fn law_other_flow(
    e: Executor,
    cpu: CpuState,
    mem: MemoryModel,
    rn: u8,
    target: u32,
    imm8: u8,
)
    requires
        e.it_remaining == 0,
    ensures
        ({
            let z = done(e, cpu, mem, Instruction::CompareBranch { rn, target, zero: true });
            let nz = done(e, cpu, mem, Instruction::CompareBranch { rn, target, zero: false });
            let svc = done(e, cpu, mem, Instruction::Svc { imm8 });
            let bkpt = done(e, cpu, mem, Instruction::Breakpoint { imm8 });
            let (taken, not) = (ExecOutcome::Branch { target }, ExecOutcome::Continue);
            &&& z.cpu == cpu && nz.cpu == cpu && svc.cpu == cpu && bkpt.cpu == cpu
            &&& z.mem == mem && nz.mem == mem && svc.mem == mem && bkpt.mem == mem
            &&& cpu.regs[rn as int] == 0 ==> z.outcome == taken && nz.outcome == not
            &&& cpu.regs[rn as int] != 0 ==> z.outcome == not && nz.outcome == taken
            &&& svc.outcome == (ExecOutcome::TakeException {
                number: 11,
                return_pc: ((cpu.regs[15] + 2) % 0x1_0000_0000) as u32,
            })
            &&& bkpt.outcome == ExecOutcome::DebugEvent
        }),
{
    reveal(flow_step);
    lemma_flow(e, cpu, mem, Instruction::CompareBranch { rn, target, zero: true });
    lemma_flow(e, cpu, mem, Instruction::CompareBranch { rn, target, zero: false });
    lemma_flow(e, cpu, mem, Instruction::Svc { imm8 });
    lemma_flow(e, cpu, mem, Instruction::Breakpoint { imm8 });
}

/// The first operand of an addition: for PC, four bytes on and rounded down to a word.
pub open spec fn first_operand(cpu: CpuState, rn: u8) -> int {
    if rn == 15 {
        let p = (cpu.regs[15] + 4) % 0x1_0000_0000;
        p - p % 4
    } else {
        cpu.regs[rn as int] as int
    }
}

/// `b` is the second operand of an instruction: its register or its immediate.
pub open spec fn second_operand(cpu: CpuState, rm: Option<u8>, imm: Option<u32>, b: u32) -> bool {
    match rm {
        Some(r) => cpu.regs[r as int] == b,
        None => imm == Some(b),
    }
}

/// The flags that a sum or difference `x` sets: sign and zero of its low word, the carry
/// as given, and overflow where the signed value `s` does not fit.
pub open spec fn flags_of(x: int, carry: bool, s: int) -> (bool, bool, bool, bool) {
    (
        x % 0x1_0000_0000 >= 0x8000_0000,
        x % 0x1_0000_0000 == 0,
        carry,
        s < -0x8000_0000 || s > 0x7FFF_FFFF,
    )
}

proof fn lemma_sum_flags(cpu: CpuState, a: u32, b: u32, cin: int)
    requires
        cin == 0 || cin == 1,
    ensures
        ({
            let c = alu::sum_flags(cpu, true, a, b, cin);
            &&& nzcv(c) == flags_of(
                a + b + cin,
                a + b + cin >= 0x1_0000_0000,
                reading(a) + reading(b) + cin,
            )
            &&& same_rest(c, cpu)
            &&& c.regs == cpu.regs
            &&& c.xpsr & 0x1FF == cpu.xpsr & 0x1FF
        }),
{
    let x = a + b + cin;
    let r = (x % 0x1_0000_0000) as u32;
    let s = reading(a) + reading(b) + cin;
    lemma_flags(
        cpu.xpsr,
        r >= 0x8000_0000,
        r == 0,
        x >= 0x1_0000_0000,
        s < -0x8000_0000 || s > 0x7FFF_FFFF,
    );
}

proof fn lemma_difference_flags(cpu: CpuState, a: u32, b: u32, bin: int)
    requires
        bin == 0 || bin == 1,
    ensures
        ({
            let c = alu::difference_flags(cpu, true, a, b, bin);
            &&& nzcv(c) == flags_of(a - b - bin, a >= b + bin, reading(a) - reading(b) - bin)
            &&& same_rest(c, cpu)
            &&& c.regs == cpu.regs
            &&& c.xpsr & 0x1FF == cpu.xpsr & 0x1FF
        }),
{
    let x = a - b - bin;
    let r = (x % 0x1_0000_0000) as u32;
    let s = reading(a) - reading(b) - bin;
    lemma_flags(
        cpu.xpsr,
        r >= 0x8000_0000,
        r == 0,
        x >= 0,
        s < -0x8000_0000 || s > 0x7FFF_FFFF,
    );
}

/// ADD and SUB leave the sum and the difference modulo 2^32. With flags, the carry of a
/// sum tells that it did not fit into 32 bits, that of a difference that nothing had to
/// be borrowed; without flags the status word stays.
pub proof fn law_add_sub(
    e: Executor,
    cpu: CpuState,
    mem: MemoryModel,
    rd: u8,
    rn: u8,
    rm: Option<u8>,
    imm: Option<u32>,
    b: u32,
    flags: bool,
)
    requires
        e.it_remaining == 0,
        rd < 16,
        second_operand(cpu, rm, imm, b),
    ensures
        ({
            let add = done(e, cpu, mem, Instruction::Add { rd, rn, rm, imm, flags });
            let sub = done(e, cpu, mem, Instruction::Sub { rd, rn, rm, imm, flags });
            let x = first_operand(cpu, rn);
            let a = cpu.regs[rn as int];
            &&& writes_only(add, cpu, mem, rd)
            &&& writes_only(sub, cpu, mem, rd)
            &&& add.cpu.regs[rd as int] == (x + b) % 0x1_0000_0000
            &&& sub.cpu.regs[rd as int] == (a - b) % 0x1_0000_0000
            &&& flags && rn != 15 ==> nzcv(add.cpu) == flags_of(
                x + b,
                x + b >= 0x1_0000_0000,
                reading(a) + reading(b),
            )
            &&& flags ==> nzcv(sub.cpu) == flags_of(a - b, a >= b, reading(a) - reading(b))
            &&& !flags ==> add.cpu.xpsr == cpu.xpsr && sub.cpu.xpsr == cpu.xpsr
            &&& rd == 13 && (cpu.xpsr & 0x1FF != 0 || cpu.control & 1 == 0) ==> add.cpu.msp
                == add.cpu.regs[13] && add.cpu.psp == cpu.psp && sub.cpu.msp == sub.cpu.regs[13]
            &&& rd == 13 && cpu.xpsr & 0x1FF == 0 && cpu.control & 1 != 0 ==> add.cpu.psp
                == add.cpu.regs[13] && add.cpu.msp == cpu.msp && sub.cpu.psp == sub.cpu.regs[13]
        }),
{
    let (add, sub) = (
        Instruction::Add { rd, rn, rm, imm, flags },
        Instruction::Sub { rd, rn, rm, imm, flags },
    );
    reveal(data_step);
    lemma_data(e, cpu, mem, add);
    lemma_data(e, cpu, mem, sub);
    lemma_sum_flags(cpu, first_operand(cpu, rn) as u32, b, 0);
    lemma_difference_flags(cpu, cpu.regs[rn as int], b, 0);
}

/// RSB subtracts the other way round, and NEG from zero.
pub proof fn law_reverse_sub(
    e: Executor,
    cpu: CpuState,
    mem: MemoryModel,
    rd: u8,
    rn: u8,
    rm: Option<u8>,
    imm: Option<u32>,
    b: u32,
    flags: bool,
)
    requires
        e.it_remaining == 0,
        rd < 16,
        second_operand(cpu, rm, imm, b),
    ensures
        ({
            let rsb = done(e, cpu, mem, Instruction::Rsb { rd, rn, rm, imm, flags });
            let neg = done(e, cpu, mem, Instruction::Neg { rd, rn, flags });
            let a = cpu.regs[rn as int];
            &&& writes_only(rsb, cpu, mem, rd)
            &&& writes_only(neg, cpu, mem, rd)
            &&& rsb.cpu.regs[rd as int] == (b - a) % 0x1_0000_0000
            &&& neg.cpu.regs[rd as int] == (-a) % 0x1_0000_0000
            &&& flags ==> nzcv(rsb.cpu) == flags_of(b - a, b >= a, reading(b) - reading(a))
            &&& flags ==> nzcv(neg.cpu) == flags_of(-a, a == 0, -reading(a))
            &&& !flags ==> rsb.cpu.xpsr == cpu.xpsr && neg.cpu.xpsr == cpu.xpsr
        }),
{
    reveal(data_step);
    lemma_data(e, cpu, mem, Instruction::Rsb { rd, rn, rm, imm, flags });
    lemma_data(e, cpu, mem, Instruction::Neg { rd, rn, flags });
    lemma_difference_flags(cpu, b, cpu.regs[rn as int], 0);
    lemma_difference_flags(cpu, 0, cpu.regs[rn as int], 0);
}

/// ADC adds the carry, SBC subtracts what is missing to it.
pub proof fn law_carry_sums(
    e: Executor,
    cpu: CpuState,
    mem: MemoryModel,
    rd: u8,
    rn: u8,
    rm: u8,
    flags: bool,
)
    requires
        e.it_remaining == 0,
        rd < 16,
    ensures
        ({
            let adc = done(e, cpu, mem, Instruction::Adc { rd, rn, rm, flags });
            let sbc = done(e, cpu, mem, Instruction::Sbc { rd, rn, rm, flags });
            let (a, b) = (cpu.regs[rn as int], cpu.regs[rm as int]);
            let c: int = if nzcv(cpu).2 {
                1
            } else {
                0
            };
            &&& writes_only(adc, cpu, mem, rd)
            &&& writes_only(sbc, cpu, mem, rd)
            &&& adc.cpu.regs[rd as int] == (a + b + c) % 0x1_0000_0000
            &&& sbc.cpu.regs[rd as int] == (a - b - (1 - c)) % 0x1_0000_0000
            &&& flags ==> nzcv(adc.cpu) == flags_of(
                a + b + c,
                a + b + c >= 0x1_0000_0000,
                reading(a) + reading(b) + c,
            )
            &&& flags ==> nzcv(sbc.cpu) == flags_of(
                a - b - (1 - c),
                a - b - (1 - c) >= 0,
                reading(a) - reading(b) - (1 - c),
            )
            &&& !flags ==> adc.cpu.xpsr == cpu.xpsr && sbc.cpu.xpsr == cpu.xpsr
        }),
{
    reveal(data_step);
    lemma_data(e, cpu, mem, Instruction::Adc { rd, rn, rm, flags });
    lemma_data(e, cpu, mem, Instruction::Sbc { rd, rn, rm, flags });
    let c: int = if cpu.carry() {
        1
    } else {
        0
    };
    lemma_sum_flags(cpu, cpu.regs[rn as int], cpu.regs[rm as int], c);
    lemma_difference_flags(cpu, cpu.regs[rn as int], cpu.regs[rm as int], 1 - c);
}

/// ADDS of the low words and ADC of the high words add numbers of 64 bits, and SUBS and
/// SBC subtract them.
pub proof fn law_double_word_sums(
    e: Executor,
    f: Executor,
    cpu: CpuState,
    mem: MemoryModel,
    lo: u8,
    hi: u8,
    xlo: u8,
    xhi: u8,
    ylo: u8,
    yhi: u8,
)
    requires
        e.it_remaining == 0,
        f.it_remaining == 0,
        lo < 13,
        hi < 13,
        lo != hi,
        xlo < 13,
        xhi < 13,
        ylo < 13,
        yhi < 13,
        lo != xhi,
        lo != yhi,
    ensures
        ({
            let rm = Some(ylo);
            let a1 = done(e, cpu, mem, Instruction::Add { rd: lo, rn: xlo, rm, imm: None, flags: true });
            let a2 = done(f, a1.cpu, mem, Instruction::Adc { rd: hi, rn: xhi, rm: yhi, flags: true });
            let s1 = done(e, cpu, mem, Instruction::Sub { rd: lo, rn: xlo, rm, imm: None, flags: true });
            let s2 = done(f, s1.cpu, mem, Instruction::Sbc { rd: hi, rn: xhi, rm: yhi, flags: true });
            let x = cpu.regs[xhi as int] * 0x1_0000_0000 + cpu.regs[xlo as int];
            let y = cpu.regs[yhi as int] * 0x1_0000_0000 + cpu.regs[ylo as int];
            &&& a2.cpu.regs[hi as int] * 0x1_0000_0000 + a2.cpu.regs[lo as int] == (x + y)
                % 0x1_0000_0000_0000_0000
            &&& s2.cpu.regs[hi as int] * 0x1_0000_0000 + s2.cpu.regs[lo as int] == (x - y)
                % 0x1_0000_0000_0000_0000
            &&& nzcv(a2.cpu).2 == (x + y >= 0x1_0000_0000_0000_0000)
            &&& nzcv(s2.cpu).2 == (x >= y)
        }),
{
    let rm = Some(ylo);
    law_add_sub(e, cpu, mem, lo, xlo, rm, None, cpu.regs[ylo as int], true);
    let a1 = done(e, cpu, mem, Instruction::Add { rd: lo, rn: xlo, rm, imm: None, flags: true });
    let s1 = done(e, cpu, mem, Instruction::Sub { rd: lo, rn: xlo, rm, imm: None, flags: true });
    law_carry_sums(f, a1.cpu, mem, hi, xhi, yhi, true);
    law_carry_sums(f, s1.cpu, mem, hi, xhi, yhi, true);
    lemma_wide_sum(
        cpu.regs[xlo as int],
        cpu.regs[xhi as int],
        cpu.regs[ylo as int],
        cpu.regs[yhi as int],
    );
}

proof fn lemma_wide_sum(xl: u32, xh: u32, yl: u32, yh: u32)
    ensures
        ({
            let (x, y) = (xh * 0x1_0000_0000 + xl, yh * 0x1_0000_0000 + yl);
            let c: int = if xl + yl >= 0x1_0000_0000 {
                1
            } else {
                0
            };
            let d: int = if xl >= yl {
                1
            } else {
                0
            };
            &&& (xh + yh + c) % 0x1_0000_0000 * 0x1_0000_0000 + (xl + yl) % 0x1_0000_0000 == (x + y)
                % 0x1_0000_0000_0000_0000
            &&& (xh - yh - (1 - d)) % 0x1_0000_0000 * 0x1_0000_0000 + (xl - yl) % 0x1_0000_0000 == (x
                - y) % 0x1_0000_0000_0000_0000
            &&& (xh + yh + c >= 0x1_0000_0000) == (x + y >= 0x1_0000_0000_0000_0000)
            &&& (xh - yh - (1 - d) >= 0) == (x >= y)
        }),
{
}

/// ADD and SUB with a shifted operand work on the register times a power of two, modulo
/// 2^32.
pub proof fn law_shifted_sums(
    e: Executor,
    cpu: CpuState,
    mem: MemoryModel,
    rd: u8,
    rn: u8,
    rm: u8,
    lsl: u8,
    flags: bool,
)
    requires
        e.it_remaining == 0,
        rd < 16,
        lsl < 32,
    ensures
        ({
            let add = done(e, cpu, mem, Instruction::AddShifted { rd, rn, rm, lsl, flags });
            let sub = done(e, cpu, mem, Instruction::SubShifted { rd, rn, rm, lsl, flags });
            let b = cpu.regs[rm as int] * pow2(lsl as nat) % 0x1_0000_0000;
            let a = cpu.regs[rn as int];
            &&& writes_only(add, cpu, mem, rd)
            &&& writes_only(sub, cpu, mem, rd)
            &&& add.cpu.regs[rd as int] == (first_operand(cpu, rn) + b) % 0x1_0000_0000
            &&& sub.cpu.regs[rd as int] == (a - b) % 0x1_0000_0000
            &&& flags && rn != 15 ==> nzcv(add.cpu) == flags_of(
                a + b,
                a + b >= 0x1_0000_0000,
                reading(a) + reading(b as u32),
            )
            &&& flags ==> nzcv(sub.cpu) == flags_of(a - b, a >= b, reading(a) - reading(b as u32))
            &&& !flags ==> add.cpu.xpsr == cpu.xpsr && sub.cpu.xpsr == cpu.xpsr
        }),
{
    reveal(data_step);
    lemma_data(e, cpu, mem, Instruction::AddShifted { rd, rn, rm, lsl, flags });
    lemma_data(e, cpu, mem, Instruction::SubShifted { rd, rn, rm, lsl, flags });
    lemma_shl(cpu.regs[rm as int], lsl);
    let b = cpu.regs[rm as int] << lsl;
    lemma_sum_flags(cpu, first_operand(cpu, rn) as u32, b, 0);
    lemma_difference_flags(cpu, cpu.regs[rn as int], b, 0);
}

/// Shifting a word left multiplies it by a power of two, modulo 2^32.
pub(crate) proof fn lemma_shl(v: u32, n: u8)
    requires
        n < 32,
    ensures
        v << n == v * pow2(n as nat) % 0x1_0000_0000,
{
    let (w, k) = (v as u64, n as u64);
    assert((v << n) as u64 == (w << k) % 0x1_0000_0000u64 && w * (1u64 << k) < 0x1_0000_0000_0000_0000
        && w << k == w * (1u64 << k)) by (bit_vector)
        requires
            n < 32,
            w == v as u64,
            k == n as u64,
    ;
    vstd::arithmetic::power2::lemma2_to64();
    if n < 32 {
        vstd::arithmetic::power2::lemma_pow2_strictly_increases(n as nat, 32);
    }
    vstd::bits::lemma_u64_shl_is_mul(1, k);
}

proof fn lemma_nz(cpu: CpuState, r: u32)
    ensures
        nzcv(cpu.with_nz(r)) == (r >= 0x8000_0000, r == 0, nzcv(cpu).2, nzcv(cpu).3),
        same_rest(cpu.with_nz(r), cpu),
{
    lemma_flags(cpu.xpsr, r >= 0x8000_0000, r == 0, false, false);
}

/// AND, ORR, EOR and BIC work bit by bit. With flags they set N and Z from the result and
/// keep C and V; without flags the status word stays.
pub proof fn law_logic(
    e: Executor,
    cpu: CpuState,
    mem: MemoryModel,
    rd: u8,
    rn: u8,
    rm: Option<u8>,
    imm: Option<u32>,
    b: u32,
    flags: bool,
)
    requires
        e.it_remaining == 0,
        rd < 16,
        second_operand(cpu, rm, imm, b),
    ensures
        ({
            let and = done(e, cpu, mem, Instruction::And { rd, rn, rm, imm, flags });
            let orr = done(e, cpu, mem, Instruction::Orr { rd, rn, rm, imm, flags });
            let eor = done(e, cpu, mem, Instruction::Eor { rd, rn, rm, imm, flags });
            let bic = done(e, cpu, mem, Instruction::Bic { rd, rn, rm, imm, flags });
            let a = cpu.regs[rn as int];
            &&& logical_result(and, cpu, mem, rd, a & b, flags)
            &&& logical_result(orr, cpu, mem, rd, a | b, flags)
            &&& logical_result(eor, cpu, mem, rd, a ^ b, flags)
            &&& logical_result(bic, cpu, mem, rd, a & !b, flags)
        }),
{
    reveal(data_step);
    lemma_data(e, cpu, mem, Instruction::And { rd, rn, rm, imm, flags });
    lemma_data(e, cpu, mem, Instruction::Orr { rd, rn, rm, imm, flags });
    lemma_data(e, cpu, mem, Instruction::Eor { rd, rn, rm, imm, flags });
    lemma_data(e, cpu, mem, Instruction::Bic { rd, rn, rm, imm, flags });
    let a = cpu.regs[rn as int];
    lemma_nz(cpu, a & b);
    lemma_nz(cpu, a | b);
    lemma_nz(cpu, a ^ b);
    lemma_nz(cpu, a & !b);
}

/// A register received a value, and N and Z tell of it where flags are asked for.
pub open spec fn logical_result(
    r: Effect,
    cpu: CpuState,
    mem: MemoryModel,
    rd: u8,
    v: u32,
    flags: bool,
) -> bool {
    &&& writes_only(r, cpu, mem, rd)
    &&& r.cpu.msp == cpu.msp && r.cpu.psp == cpu.psp
    &&& r.cpu.regs[rd as int] == v
    &&& flags ==> nzcv(r.cpu) == (v >= 0x8000_0000, v == 0, nzcv(cpu).2, nzcv(cpu).3)
    &&& !flags ==> r.cpu.xpsr == cpu.xpsr
}

/// MOV copies, MVN inverts every bit, MUL leaves the low word of the product.
pub proof fn law_moves(
    e: Executor,
    cpu: CpuState,
    mem: MemoryModel,
    rd: u8,
    rm: u8,
    imm: Option<u32>,
    rn: u8,
    flags: bool,
)
    requires
        e.it_remaining == 0,
        rd < 16,
    ensures
        ({
            let mov = done(e, cpu, mem, Instruction::Mov { rd, rm, imm, flags });
            let mvn = done(e, cpu, mem, Instruction::Mvn { rd, rm, imm, flags });
            let mul = done(e, cpu, mem, Instruction::Mul { rd, rn, rm, flags });
            let v = match imm {
                Some(v) => v,
                None => cpu.regs[rm as int],
            };
            let product = cpu.regs[rn as int] * cpu.regs[rm as int];
            &&& logical_result(mov, cpu, mem, rd, v, flags)
            &&& logical_result(mvn, cpu, mem, rd, (0xFFFF_FFFF - v) as u32, flags)
            &&& logical_result(mul, cpu, mem, rd, (product % 0x1_0000_0000) as u32, flags)
        }),
{
    reveal(data_step);
    lemma_data(e, cpu, mem, Instruction::Mov { rd, rm, imm, flags });
    lemma_data(e, cpu, mem, Instruction::Mvn { rd, rm, imm, flags });
    lemma_data(e, cpu, mem, Instruction::Mul { rd, rn, rm, flags });
    let v = match imm {
        Some(v) => v,
        None => cpu.regs[rm as int],
    };
    assert(!v == 0xFFFF_FFFF - v) by (bit_vector);
    lemma_nz(cpu, v);
    lemma_nz(cpu, !v);
    lemma_nz(cpu, ((cpu.regs[rn as int] * cpu.regs[rm as int]) % 0x1_0000_0000) as u32);
}

/// MOVW of the low half and MOVT of the high half put a constant together.
pub proof fn law_wide_constant(
    e: Executor,
    f: Executor,
    cpu: CpuState,
    mem: MemoryModel,
    rd: u8,
    low: u16,
    high: u16,
)
    requires
        e.it_remaining == 0,
        f.it_remaining == 0,
        rd < 16,
    ensures
        ({
            let w = done(e, cpu, mem, Instruction::MovImm32 { rd, imm16: low, top: false });
            let t = done(f, w.cpu, mem, Instruction::MovImm32 { rd, imm16: high, top: true });
            &&& writes_only(w, cpu, mem, rd) && w.cpu.xpsr == cpu.xpsr
            &&& writes_only(t, cpu, mem, rd) && t.cpu.xpsr == cpu.xpsr
            &&& w.cpu.regs[rd as int] == low
            &&& t.cpu.regs[rd as int] == high * 0x1_0000 + low
        }),
{
    reveal(data_step);
    let i = Instruction::MovImm32 { rd, imm16: low, top: false };
    lemma_data(e, cpu, mem, i);
    lemma_data(
        f,
        done(e, cpu, mem, i).cpu,
        mem,
        Instruction::MovImm32 { rd, imm16: high, top: true },
    );
}

/// CMN, TST and TEQ set the flags of the sum, of the common bits and of the differing
/// bits, and change nothing else.
pub proof fn law_tests(
    e: Executor,
    cpu: CpuState,
    mem: MemoryModel,
    rn: u8,
    rm: Option<u8>,
    imm: Option<u32>,
    b: u32,
)
    requires
        e.it_remaining == 0,
        second_operand(cpu, rm, imm, b),
    ensures
        ({
            let cmn = done(e, cpu, mem, Instruction::Cmn { rn, rm, imm });
            let tst = done(e, cpu, mem, Instruction::Tst { rn, rm, imm });
            let teq = done(e, cpu, mem, Instruction::Teq { rn, rm, imm });
            let a = cpu.regs[rn as int];
            &&& cmn.cpu.regs == cpu.regs && same_rest(cmn.cpu, cpu) && cmn.mem == mem
            &&& tst.cpu.regs == cpu.regs && same_rest(tst.cpu, cpu) && tst.mem == mem
            &&& teq.cpu.regs == cpu.regs && same_rest(teq.cpu, cpu) && teq.mem == mem
            &&& nzcv(cmn.cpu) == flags_of(
                a + b,
                a + b >= 0x1_0000_0000,
                reading(a) + reading(b),
            )
            &&& nzcv(tst.cpu) == (
                a & b >= 0x8000_0000,
                a & b == 0,
                nzcv(cpu).2,
                nzcv(cpu).3,
            )
            &&& nzcv(teq.cpu) == (
                a ^ b >= 0x8000_0000,
                a ^ b == 0,
                nzcv(cpu).2,
                nzcv(cpu).3,
            )
        }),
{
    reveal(data_step);
    lemma_data(e, cpu, mem, Instruction::Cmn { rn, rm, imm });
    lemma_data(e, cpu, mem, Instruction::Tst { rn, rm, imm });
    lemma_data(e, cpu, mem, Instruction::Teq { rn, rm, imm });
    let a = cpu.regs[rn as int];
    lemma_sum_flags(cpu, a, b, 0);
    lemma_nz(cpu, a & b);
    lemma_nz(cpu, a ^ b);
}

/// What a shift by `n` places leaves, as a number.
pub open spec fn shifted_number(v: u32, kind: ShiftKind, n: int, carry: bool) -> int {
    match kind {
        ShiftKind::Lsl => if n >= 32 {
            0
        } else {
            v * pow2(n as nat) % 0x1_0000_0000
        },
        ShiftKind::Lsr => if n >= 32 {
            0
        } else {
            v as int / pow2(n as nat) as int
        },
        ShiftKind::Asr => if n >= 32 {
            if v >= 0x8000_0000 {
                0xFFFF_FFFF
            } else {
                0
            }
        } else {
            reading(v) / pow2(n as nat) as int % 0x1_0000_0000
        },
        ShiftKind::Ror => {
            let p = pow2((n % 32) as nat) as int;
            v as int / p + v as int % p * pow2((32 - n % 32) as nat)
        },
        ShiftKind::Rrx => v as int / 2 + if carry {
            0x8000_0000int
        } else {
            0
        },
    }
}

/// The last bit that a shift by `n` places moves out, where `n` is below 33.
pub open spec fn bit_moved_out(v: u32, kind: ShiftKind, n: int) -> bool {
    match kind {
        ShiftKind::Lsl => v as int / pow2((32 - n) as nat) as int % 2 == 1,
        ShiftKind::Rrx => v % 2 == 1,
        _ => v as int / pow2((n - 1) as nat) as int % 2 == 1,
    }
}

proof fn lemma_shift_number(v: u32, kind: ShiftKind, n: u8, carry: bool)
    ensures
        alu::shifted(v, kind, n, carry) == shifted_number(v, kind, n as int, carry),
{
    vstd::arithmetic::power2::lemma2_to64();
    match kind {
        ShiftKind::Lsl => {
            if n < 32 {
                lemma_shl(v, n);
            }
        },
        ShiftKind::Lsr => {
            if n < 32 {
                lemma_shr(v, n);
            }
        },
        ShiftKind::Asr => {
            if n >= 32 {
                assert(reading(v) / 0x8000_0000 == if v >= 0x8000_0000 {
                    -1int
                } else {
                    0
                });
            }
        },
        ShiftKind::Ror => {
            let k = n % 32;
            if k == 0 {
                assert(v as int / 1 == v && v as int % 1 == 0);
                assert(0 * pow2(32) == 0);
            } else {
                lemma_rotation(v, k);
            }
        },
        ShiftKind::Rrx => {},
    }
}

/// Shifting a word right divides it by a power of two.
proof fn lemma_shr(v: u32, n: u8)
    requires
        n < 32,
    ensures
        v >> n == v as int / pow2(n as nat) as int,
{
    vstd::bits::lemma_u32_shr_is_div(v, n as u32);
    assert(v >> n == v >> (n as u32));
}

/// A rotation brings the bits that are shifted out in again at the top.
proof fn lemma_rotation(v: u32, n: u8)
    requires
        0 < n < 32,
    ensures
        (v >> (n as u32)) | (v << ((32 - n) as u32)) == v as int / pow2(n as nat) as int + v as int
            % pow2(n as nat) as int * pow2((32 - n) as nat),
{
    let (k, m) = (n as u32, (32 - n) as u32);
    assert((v >> k) | (v << m) == (v >> k) + (v << m)) by (bit_vector)
        requires
            0 < k < 32,
            m == 32 - k,
    ;
    let (p, q) = (pow2(n as nat) as int, pow2((32 - n) as nat) as int);
    vstd::arithmetic::power2::lemma2_to64();
    vstd::arithmetic::power2::lemma_pow2_adds(n as nat, (32 - n) as nat);
    vstd::arithmetic::power2::lemma_pow2_pos(n as nat);
    vstd::arithmetic::power2::lemma_pow2_pos((32 - n) as nat);
    lemma_shr(v, n);
    lemma_shl(v, (32 - n) as u8);
    assert(v >> n == v >> k && v << ((32 - n) as u8) == v << m);
    vstd::arithmetic::div_mod::lemma_truncate_middle(v as int, q, p);
    assert(q * p == 0x1_0000_0000 && q * v == v * q && q * (v as int % p) == v as int % p * q) by (
    nonlinear_arith)
        requires
            p * q == 0x1_0000_0000,
    ;
}

/// Shifts as numbers: LSL multiplies by a power of two and LSR divides by it, ASR divides
/// the signed number and rounds down, ROR brings in at the top what leaves at the bottom,
/// and RRX brings in the carry. With flags, the carry is the last bit that was moved out.
pub proof fn law_shifts(
    e: Executor,
    cpu: CpuState,
    mem: MemoryModel,
    rd: u8,
    rm: u8,
    kind: ShiftKind,
    amount: ShiftAmount,
    n: int,
    flags: bool,
)
    requires
        e.it_remaining == 0,
        rd < 16,
        match amount {
            ShiftAmount::Immediate(k) => n == k,
            ShiftAmount::Register(r) => n == cpu.regs[r as int] % 0x100,
        },
    ensures
        ({
            let r = done(e, cpu, mem, Instruction::Shift { rd, rm, kind, amount, flags });
            let v = cpu.regs[rm as int];
            let x = shifted_number(v, kind, n, nzcv(cpu).2);
            &&& writes_only(r, cpu, mem, rd)
            &&& r.cpu.msp == cpu.msp && r.cpu.psp == cpu.psp
            &&& r.cpu.regs[rd as int] == x
            &&& !flags ==> r.cpu.xpsr == cpu.xpsr
            &&& flags ==> nzcv(r.cpu).0 == (x >= 0x8000_0000) && nzcv(r.cpu).1 == (x == 0)
                && nzcv(r.cpu).3 == nzcv(cpu).3
            &&& flags && 0 < n < 32 ==> nzcv(r.cpu).2 == bit_moved_out(v, kind, n)
            &&& flags && n >= 32 && (kind == ShiftKind::Lsr || kind == ShiftKind::Asr)
                ==> nzcv(r.cpu).2 == (v >= 0x8000_0000)
            &&& flags && n >= 32 && kind == ShiftKind::Lsl ==> !nzcv(r.cpu).2
        }),
{
    let i = Instruction::Shift { rd, rm, kind, amount, flags };
    reveal(data_step);
    lemma_data(e, cpu, mem, i);
    let v = cpu.regs[rm as int];
    let k = n as u8;
    lemma_shift_number(v, kind, k, cpu.carry());
    let out = alu::shift_out(v, kind, k);
    let x = alu::shifted(v, kind, k, cpu.carry());
    lemma_flags(cpu.xpsr, x >= 0x8000_0000, x == 0, out, false);
    if 0 < n < 32 {
        lemma_bit(v, (n - 1) as u8);
        lemma_bit(v, (32 - n) as u8);
    }
    lemma_bit(v, 31);
    lemma_bit(v, 0);
    vstd::arithmetic::power2::lemma2_to64();
}

/// Bit `i` of a word by division.
proof fn lemma_bit(v: u32, i: u8)
    requires
        i < 32,
    ensures
        alu::bit_at(v, i as int) == (v as int / pow2(i as nat) as int % 2 == 1),
{
    lemma_shr(v, i);
    let w = v >> i;
    assert((w & 1 != 0) == (w % 2 == 1)) by (bit_vector);
}

} // verus!
