//! What loads and stores do, by the single accesses that they stand for: each is executed
//! outside an IT block.
use crate::cpu::CpuState;
use crate::engine::decode::{AccessWidth, Cond, Instruction, LoadStoreOffset};
use crate::engine::exec::{
    data_step, effect, float_step, holds, media_step, memory_step, ExecOutcome, Executor,
};
use crate::engine::integer_laws::{done, lemma_shl, reading, same_rest};
use crate::engine::transfer::{
    after_indexed, after_ldm, after_ldrd, after_load, after_pop, after_push, after_stm, after_store,
    after_strd, after_strex, count_from, extended_value, listed, loaded_from, pop_list, push_list, stored_from,
};
use crate::engine::fpu::FpuRegisters;
use crate::engine::vfp::{
    after_list, after_vldm, after_vldr, load_one, moved_base, multi_loaded, multi_stored,
    store_one,
};
use crate::engine::FaultReason;
use crate::memory::{low_bytes, MemoryModel};
use vstd::arithmetic::power2::pow2;
use vstd::prelude::*;

verus! {

/// A transfer outside an IT block has the effect of its group.
proof fn lemma_transfer(e: Executor, cpu: CpuState, mem: MemoryModel, instr: Instruction)
    requires
        e.it_remaining == 0,
        memory_step(cpu, mem, instr) is Some,
        !(instr is FpLoadStore || instr is FpLoadStoreMulti),
    ensures
        done(e, cpu, mem, instr) == memory_step(cpu, mem, instr)->Some_0,
{
    reveal(Executor::executed);
    reveal(Executor::passed);
    reveal(effect);
    reveal(data_step);
    reveal(media_step);
    reveal(float_step);
    reveal(memory_step);
}

/// The number of bytes of an access.
pub open spec fn size(width: AccessWidth) -> u32 {
    match width {
        AccessWidth::Byte => 1,
        AccessWidth::HalfWord => 2,
        AccessWidth::Word => 4,
    }
}

/// The address of a base and an offset, as a number below 2^32.
pub open spec fn target(cpu: CpuState, rn: u8, offset: LoadStoreOffset) -> int {
    (cpu.regs[rn as int] + match offset {
        LoadStoreOffset::Immediate(imm) => imm as int,
        LoadStoreOffset::Register(rm) => cpu.regs[rm as int] as int,
        LoadStoreOffset::RegisterShifted { rm, lsl } => cpu.regs[rm as int] * pow2(lsl as nat),
    }) % 0x1_0000_0000
}

/// Only one register differs.
pub open spec fn only_reg(a: CpuState, b: CpuState, rd: u8) -> bool {
    a == b.with_reg(rd, a.regs[rd as int])
}

proof fn lemma_target(cpu: CpuState, rn: u8, offset: LoadStoreOffset)
    requires
        offset matches LoadStoreOffset::RegisterShifted { lsl, .. } ==> lsl < 32,
    ensures
        crate::engine::transfer::address(cpu, rn, offset) == target(cpu, rn, offset),
{
    if let LoadStoreOffset::RegisterShifted { rm, lsl } = offset {
        lemma_shl(cpu.regs[rm as int], lsl);
        let p = cpu.regs[rm as int] * pow2(lsl as nat);
        vstd::arithmetic::div_mod::lemma_add_mod_noop_right(
            cpu.regs[rn as int] as int,
            p,
            0x1_0000_0000,
        );
    }
}

proof fn lemma_extended(v: u32, width: AccessWidth)
    requires
        v < pow2(8 * size(width) as nat),
    ensures
        ({
            let half = pow2((8 * size(width) - 1) as nat) as int;
            let s = reading(extended_value(v, width, true));
            &&& -half <= s < half
            &&& s == v || s == v - 2 * half
        }),
{
    vstd::arithmetic::power2::lemma2_to64();
    vstd::arithmetic::power2::lemma2_to64_rest();
    match width {
        AccessWidth::Byte => {},
        AccessWidth::HalfWord => {},
        AccessWidth::Word => {},
    }
}

proof fn lemma_low(v: u32, width: AccessWidth)
    ensures
        low_bytes(v, size(width)) == v as int % pow2(8 * size(width) as nat) as int,
{
    vstd::arithmetic::power2::lemma2_to64();
    let p = pow2(8 * size(width) as nat) as int;
    match width {
        AccessWidth::Byte => {
            assert(p == 0x100);
            assert(v as int % p == v as int % 0x100);
        },
        AccessWidth::HalfWord => {
            assert(p == 0x1_0000);
            assert(v as int % p == v as int % 0x1_0000);
        },
        AccessWidth::Word => {
            assert(p == 0x1_0000_0000);
            assert(v as int % p == v as int);
        },
    }
}

/// LDR, LDRB and LDRH give Rt what is read at the sum of base and offset, in the width
/// asked for; the signed forms give it the same number read with a sign. A read that the
/// memory refuses is a bus fault at that address, and changes no register.
#[verifier::spinoff_prover]
#[verifier::rlimit(60)]
pub proof fn law_load(
    e: Executor,
    cpu: CpuState,
    mem: MemoryModel,
    rt: u8,
    rn: u8,
    offset: LoadStoreOffset,
    width: AccessWidth,
)
    requires
        e.it_remaining == 0,
        rt < 16,
        rn < 16,
        offset matches LoadStoreOffset::RegisterShifted { lsl, .. } ==> lsl < 32,
        mem.reading(target(cpu, rn, offset) as u32, size(width)).0 matches Ok(v) ==> v < pow2(
            8 * size(width) as nat,
        ),
    ensures
        ({
            let at = target(cpu, rn, offset) as u32;
            let (got, m) = mem.reading(at, size(width));
            let plain = done(e, cpu, mem, Instruction::Ldr { rt, rn, offset, width });
            let signed = done(e, cpu, mem, Instruction::LdrSignExtend { rt, rn, offset, width });
            let half = pow2((8 * size(width) - 1) as nat) as int;
            &&& plain.mem == m
            &&& signed.mem == m
            &&& match got {
                Ok(v) => {
                    let s = reading(signed.cpu.regs[rt as int]);
                    &&& plain.outcome == ExecOutcome::Continue
                    &&& plain.cpu.regs[rt as int] == v
                    &&& only_reg(plain.cpu, cpu, rt)
                    &&& signed.outcome == ExecOutcome::Continue
                    &&& -half <= s < half
                    &&& s == v || s == v - 2 * half
                    &&& only_reg(signed.cpu, cpu, rt)
                },
                Err(_) => {
                    let fault = ExecOutcome::Fault { reason: FaultReason::BusFault { address: at } };
                    &&& plain.outcome == fault
                    &&& plain.cpu == cpu
                    &&& signed.outcome == fault
                    &&& signed.cpu == cpu
                },
            }
        }),
{
    reveal(memory_step);
    reveal(after_load);
    if let Ok(v) = mem.reading(target(cpu, rn, offset) as u32, size(width)).0 {
        lemma_extended(v, width);
    }
    lemma_target(cpu, rn, offset);
    lemma_transfer(e, cpu, mem, Instruction::Ldr { rt, rn, offset, width });
    lemma_transfer(e, cpu, mem, Instruction::LdrSignExtend { rt, rn, offset, width });
}

/// STR, STRB and STRH write the low bytes of Rt at the sum of base and offset, and nothing
/// else; STREX does the same at its own offset, and says in Rd that it did.
#[verifier::spinoff_prover]
#[verifier::rlimit(60)]
pub proof fn law_store(
    e: Executor,
    cpu: CpuState,
    mem: MemoryModel,
    rt: u8,
    rn: u8,
    offset: LoadStoreOffset,
    width: AccessWidth,
    rd: u8,
    imm: u32,
)
    requires
        e.it_remaining == 0,
        rt < 16,
        rn < 16,
        rd < 16,
        offset matches LoadStoreOffset::RegisterShifted { lsl, .. } ==> lsl < 32,
    ensures
        ({
            let low = (cpu.regs[rt as int] as int % pow2(8 * size(width) as nat) as int) as u32;
            let at = target(cpu, rn, offset) as u32;
            let (got, m) = mem.writing(at, size(width), low);
            let plain = done(e, cpu, mem, Instruction::Str { rt, rn, offset, width });
            let to = ((cpu.regs[rn as int] + imm) % 0x1_0000_0000) as u32;
            let (had, n) = mem.writing(to, size(width), low);
            let exclusive = done(e, cpu, mem, Instruction::Strex { rd, rt, rn, imm, width });
            &&& plain.mem == m
            &&& plain.cpu == cpu
            &&& plain.outcome == if got is Ok {
                ExecOutcome::Continue
            } else {
                ExecOutcome::Fault { reason: FaultReason::MemManage { address: at } }
            }
            &&& exclusive.mem == n
            &&& had is Ok ==> exclusive.outcome == ExecOutcome::Continue
                && exclusive.cpu.regs[rd as int] == 0 && only_reg(exclusive.cpu, cpu, rd)
            &&& had is Err ==> exclusive.cpu == cpu && exclusive.outcome == (ExecOutcome::Fault {
                reason: FaultReason::BusFault { address: to },
            })
        }),
{
    reveal(memory_step);
    reveal(after_store);
    reveal(after_strex);
    lemma_low(cpu.regs[rt as int], width);
    lemma_target(cpu, rn, offset);
    lemma_transfer(e, cpu, mem, Instruction::Str { rt, rn, offset, width });
    lemma_transfer(e, cpu, mem, Instruction::Strex { rd, rt, rn, imm, width });
}

/// A literal is read from a word address: the offset is added to PC + 4 rounded down to a
/// multiple of four. LDREX reads at base and offset, as LDR does.
#[verifier::spinoff_prover]
#[verifier::rlimit(60)]
pub proof fn law_literal(
    e: Executor,
    cpu: CpuState,
    mem: MemoryModel,
    rt: u8,
    rn: u8,
    imm: u32,
    width: AccessWidth,
    base: u32,
)
    requires
        e.it_remaining == 0,
        rt < 16,
        rn < 16,
        cpu.regs[15] < 0xFFFF_FFFC,
        base % 4 == 0,
        cpu.regs[15] + 1 <= base <= cpu.regs[15] + 4,
    ensures
        ({
            let at = ((base + imm) % 0x1_0000_0000) as u32;
            let (got, m) = mem.reading(at, 4);
            let r = done(e, cpu, mem, Instruction::LdrLiteral { rt, imm });
            let offset = LoadStoreOffset::Immediate(imm);
            &&& r.mem == m
            &&& got matches Ok(v) ==> r.outcome == ExecOutcome::Continue && r.cpu == cpu.with_reg(
                rt,
                v,
            )
            &&& got is Err ==> r.cpu == cpu && r.outcome == (ExecOutcome::Fault {
                reason: FaultReason::BusFault { address: at },
            })
            &&& done(e, cpu, mem, Instruction::Ldrex { rt, rn, imm, width }) == done(
                e,
                cpu,
                mem,
                Instruction::Ldr { rt, rn, offset, width },
            )
        }),
{
    reveal(memory_step);
    reveal(after_load);
    lemma_transfer(e, cpu, mem, Instruction::LdrLiteral { rt, imm });
    lemma_transfer(e, cpu, mem, Instruction::Ldrex { rt, rn, imm, width });
    let offset = LoadStoreOffset::Immediate(imm);
    lemma_transfer(e, cpu, mem, Instruction::Ldr { rt, rn, offset, width });
}

/// LDRD and STRD are two accesses of words, the second four bytes above the first.
#[verifier::spinoff_prover]
#[verifier::rlimit(60)]
pub proof fn law_double_transfer(
    e: Executor,
    cpu: CpuState,
    mem: MemoryModel,
    rt: u8,
    rt2: u8,
    rn: u8,
    imm: u32,
)
    requires
        e.it_remaining == 0,
        rt < 16,
        rt2 < 16,
        rt != rt2,
        rn < 16,
    ensures
        ({
            let at = ((cpu.regs[rn as int] + imm) % 0x1_0000_0000) as u32;
            let above = ((cpu.regs[rn as int] + imm + 4) % 0x1_0000_0000) as u32;
            let (lo, m1) = mem.reading(at, 4);
            let (hi, m2) = m1.reading(above, 4);
            let load = done(e, cpu, mem, Instruction::LdrD { rt, rt2, rn, imm });
            let (one, w1) = mem.writing(at, 4, cpu.regs[rt as int]);
            let (two, w2) = w1.writing(above, 4, cpu.regs[rt2 as int]);
            let store = done(e, cpu, mem, Instruction::StrD { rt, rt2, rn, imm });
            let fault = ExecOutcome::Fault { reason: FaultReason::BusFault { address: at } };
            &&& load.mem == m2
            &&& lo is Ok && hi is Ok ==> {
                &&& load.outcome == ExecOutcome::Continue
                &&& load.cpu.regs[rt as int] == lo->Ok_0
                &&& load.cpu.regs[rt2 as int] == hi->Ok_0
                &&& forall|i: int|
                    0 <= i < 16 && i != rt && i != rt2 ==> #[trigger] load.cpu.regs[i]
                        == cpu.regs[i]
                &&& same_rest(load.cpu, cpu) && load.cpu.xpsr == cpu.xpsr
            }
            &&& !(lo is Ok && hi is Ok) ==> load.cpu == cpu && load.outcome == fault
            &&& store.mem == w2
            &&& store.cpu == cpu
            &&& store.outcome == if one is Ok && two is Ok { ExecOutcome::Continue } else { fault }
        }),
{
    reveal(memory_step);
    reveal(after_ldrd);
    reveal(after_strd);
    lemma_transfer(e, cpu, mem, Instruction::LdrD { rt, rt2, rn, imm });
    lemma_transfer(e, cpu, mem, Instruction::StrD { rt, rt2, rn, imm });
    assert((((cpu.regs[rn as int] + imm) % 0x1_0000_0000) + 4) % 0x1_0000_0000 == (
    cpu.regs[rn as int] + imm + 4) % 0x1_0000_0000);
}

/// The forms that move the base register are the plain ones at the moved address (`pre`)
/// or at the old one, after which the base is the moved address; where the access fails
/// it stays.
#[verifier::spinoff_prover]
#[verifier::rlimit(60)]
pub proof fn law_moved_base(
    e: Executor,
    cpu: CpuState,
    mem: MemoryModel,
    rt: u8,
    rn: u8,
    imm: u32,
    width: AccessWidth,
    load: bool,
    sign_extend: bool,
    pre: bool,
)
    requires
        e.it_remaining == 0,
        rt < 16,
        rn < 16,
        rn != 13,
        rt != rn,
    ensures
        ({
            let r = done(
                e,
                cpu,
                mem,
                Instruction::LdrStrWb { rt, rn, imm, width, load, sign_extend, pre },
            );
            let offset = LoadStoreOffset::Immediate(if pre { imm } else { 0 });
            let plain = done(
                e,
                cpu,
                mem,
                if !load {
                    Instruction::Str { rt, rn, offset, width }
                } else if sign_extend {
                    Instruction::LdrSignExtend { rt, rn, offset, width }
                } else {
                    Instruction::Ldr { rt, rn, offset, width }
                },
            );
            &&& r.outcome == plain.outcome
            &&& r.mem == plain.mem
            &&& r.outcome == ExecOutcome::Continue ==> r.cpu.regs[rn as int] == (
            cpu.regs[rn as int] + imm) % 0x1_0000_0000 && only_reg(r.cpu, plain.cpu, rn)
            &&& r.outcome != ExecOutcome::Continue ==> r.cpu == cpu
        }),
{
    reveal(memory_step);
    reveal(after_indexed);
    reveal(after_load);
    reveal(after_store);
    lemma_transfer(
        e,
        cpu,
        mem,
        Instruction::LdrStrWb { rt, rn, imm, width, load, sign_extend, pre },
    );
    let offset = LoadStoreOffset::Immediate(if pre { imm } else { 0 });
    lemma_transfer(e, cpu, mem, Instruction::Str { rt, rn, offset, width });
    lemma_transfer(e, cpu, mem, Instruction::LdrSignExtend { rt, rn, offset, width });
    lemma_transfer(e, cpu, mem, Instruction::Ldr { rt, rn, offset, width });
}

/// The condition that holds exactly where `c` does not.
pub open spec fn opposite(c: Cond) -> Cond {
    match c {
        Cond::Eq => Cond::Ne,
        Cond::Ne => Cond::Eq,
        Cond::Cs => Cond::Cc,
        Cond::Cc => Cond::Cs,
        Cond::Mi => Cond::Pl,
        Cond::Pl => Cond::Mi,
        Cond::Vs => Cond::Vc,
        Cond::Vc => Cond::Vs,
        Cond::Hi => Cond::Ls,
        Cond::Ls => Cond::Hi,
        Cond::Ge => Cond::Lt,
        Cond::Lt => Cond::Ge,
        Cond::Gt => Cond::Le,
        Cond::Le => Cond::Gt,
        Cond::Al => Cond::Al,
    }
}

/// The conditions whose number is odd.
pub open spec fn odd(c: Cond) -> bool {
    match c {
        Cond::Ne | Cond::Cc | Cond::Pl | Cond::Vc | Cond::Ls | Cond::Lt | Cond::Le => true,
        _ => false,
    }
}

/// The condition of a place in an IT block whose mask bit is `bit`: the first condition
/// where the bit is the lowest of its number, else the opposite.
pub open spec fn then_or_else(c: Cond, bit: bool) -> Cond {
    if bit == odd(c) {
        c
    } else {
        opposite(c)
    }
}

/// What an executor makes of an instruction that does nothing: it goes on where the
/// condition holds, and skips it where it does not.
pub open spec fn runs_if(e: Executor, cpu: CpuState, mem: MemoryModel, c: Cond) -> bool {
    done(e, cpu, mem, Instruction::Nop).outcome == if holds(cpu.xpsr, c) {
        ExecOutcome::Continue
    } else {
        ExecOutcome::Skipped
    }
}

/// Every instruction runs.
pub open spec fn outside(e: Executor, cpu: CpuState, mem: MemoryModel) -> bool {
    done(e, cpu, mem, Instruction::Nop).outcome == ExecOutcome::Continue
}

/// An IT instruction with the mask bits `x`, `y`, `z` and `w` gives up to four
/// instructions their conditions: the first its own, the others that condition or the
/// opposite. The lowest set bit of the mask ends the block.
#[verifier::spinoff_prover]
#[verifier::rlimit(60)]
pub proof fn law_it_conditions(
    e: Executor,
    cpu: CpuState,
    mem: MemoryModel,
    cond: Cond,
    x: bool,
    y: bool,
    z: bool,
    w: bool,
    i1: Instruction,
    i2: Instruction,
    i3: Instruction,
    i4: Instruction,
)
    requires
        e.it_remaining == 0,
        x || y || z || w,
        cond != Cond::Al,
        !(i1 is It) && !(i2 is It) && !(i3 is It) && !(i4 is It),
    ensures
        ({
            let mask = ((if x { 8int } else { 0 }) + (if y { 4int } else { 0 }) + (if z {
                2int
            } else {
                0
            }) + (if w { 1int } else { 0 })) as u8;
            let e1 = e.executed(cpu, mem, Instruction::It { cond, mask }).executor;
            let e2 = e1.executed(cpu, mem, i1).executor;
            let e3 = e2.executed(cpu, mem, i2).executor;
            let e4 = e3.executed(cpu, mem, i3).executor;
            let e5 = e4.executed(cpu, mem, i4).executor;
            &&& runs_if(e1, cpu, mem, cond)
            &&& if y || z || w {
                runs_if(e2, cpu, mem, then_or_else(cond, x))
            } else {
                outside(e2, cpu, mem)
            }
            &&& if z || w {
                runs_if(e3, cpu, mem, then_or_else(cond, y))
            } else {
                outside(e3, cpu, mem)
            }
            &&& if w {
                runs_if(e4, cpu, mem, then_or_else(cond, z))
            } else {
                outside(e4, cpu, mem)
            }
            &&& outside(e5, cpu, mem)
        }),
{
    let mask = ((if x { 8int } else { 0 }) + (if y { 4int } else { 0 }) + (if z { 2int } else { 0 })
        + (if w { 1int } else { 0 })) as u8;
    let it = Instruction::It { cond, mask };
    let e1 = e.executed(cpu, mem, it).executor;
    let e2 = e1.executed(cpu, mem, i1).executor;
    let e3 = e2.executed(cpu, mem, i2).executor;
    let e4 = e3.executed(cpu, mem, i3).executor;
    let e5 = e4.executed(cpu, mem, i4).executor;
    assert(e1.it_firstcond == cond && e1.it_mask == mask && e1.it_remaining == e1.it_block_len
        && e1.it_remaining == if w {
        4
    } else if z {
        3int
    } else if y {
        2
    } else {
        1
    }) by {
        reveal(Executor::executed);
        reveal(Executor::passed);
    }
    lemma_it_step(e1, cpu, mem, i1);
    lemma_it_step(e2, cpu, mem, i2);
    lemma_it_step(e3, cpu, mem, i3);
    lemma_it_step(e4, cpu, mem, i4);
    assert(mask / 8 % 2 == (if x { 1int } else { 0 }) && mask / 4 % 2 == (if y {
        1int
    } else {
        0
    }) && mask / 2 % 2 == (if z { 1int } else { 0 }));
    lemma_place(e2, 1, x);
    lemma_place(e3, 2, y);
    lemma_place(e4, 3, z);
    lemma_nop(e1, cpu, mem);
    lemma_nop(e2, cpu, mem);
    lemma_nop(e3, cpu, mem);
    lemma_nop(e4, cpu, mem);
    lemma_nop(e5, cpu, mem);
}

proof fn lemma_place(e: Executor, k: int, bit: bool)
    requires
        1 <= k <= 3,
        e.it_firstcond != Cond::Al,
        (if k == 1 {
            e.it_mask / 8 % 2
        } else if k == 2 {
            e.it_mask / 4 % 2
        } else {
            e.it_mask / 2 % 2
        }) == if bit { 1int } else { 0 },
    ensures
        e.cond_at(k) == then_or_else(e.it_firstcond, bit),
{
}

proof fn lemma_it_step(e: Executor, cpu: CpuState, mem: MemoryModel, instr: Instruction)
    requires
        !(instr is It),
    ensures
        ({
            let f = e.executed(cpu, mem, instr).executor;
            &&& f.it_remaining == if e.it_remaining == 0 { 0int } else { e.it_remaining - 1 }
            &&& f.it_block_len == e.it_block_len
            &&& f.it_firstcond == e.it_firstcond
            &&& f.it_mask == e.it_mask
        }),
{
    reveal(Executor::executed);
    reveal(Executor::passed);
}

proof fn lemma_nop(e: Executor, cpu: CpuState, mem: MemoryModel)
    ensures
        e.it_remaining == 0 ==> outside(e, cpu, mem),
        e.it_remaining > 0 ==> runs_if(e, cpu, mem, e.current_cond()),
{
    reveal(Executor::executed);
    reveal(Executor::passed);
    reveal(effect);
    reveal(data_step);
}

/// Register `i` is in a list.
pub open spec fn in_list(regs: u16, i: u16) -> bool {
    (regs >> i) & 1 == 1
}

proof fn lemma_list_bits(regs: u16, i: u16)
    by (bit_vector)
    requires
        i < 16,
    ensures
        (regs & (1u16 << i) != 0) == in_list(regs, i),
        in_list((regs & 0xFF) | 0x4000u16, i) == (i < 8 && in_list(regs, i) || i == 14),
        in_list((regs & 0xFF) | 0x8000u16, i) == (i < 8 && in_list(regs, i) || i == 15),
        in_list((regs & 0xFF) | 0u16, i) == (i < 8 && in_list(regs, i)),
{
}

proof fn lemma_listed(regs: u16)
    ensures
        forall|i: int| 0 <= i < 16 ==> #[trigger] listed(regs, i) == in_list(regs, i as u16),
        forall|i: int|
            0 <= i < 16 ==> #[trigger] listed(push_list(regs, true), i) == (i < 8 && in_list(
                regs,
                i as u16,
            ) || i == 14),
        forall|i: int|
            0 <= i < 16 ==> #[trigger] listed(push_list(regs, false), i) == (i < 8 && in_list(
                regs,
                i as u16,
            )),
        forall|i: int|
            0 <= i < 16 ==> #[trigger] listed(pop_list(regs, true), i) == (i < 8 && in_list(
                regs,
                i as u16,
            ) || i == 15),
        forall|i: int|
            0 <= i < 16 ==> #[trigger] listed(pop_list(regs, false), i) == (i < 8 && in_list(
                regs,
                i as u16,
            )),
{
    assert forall|i: int| 0 <= i < 16 implies #[trigger] listed(regs, i) == in_list(
        regs,
        i as u16,
    ) by {
        lemma_list_bits(regs, i as u16);
    }
    assert forall|i: int| 0 <= i < 16 implies #[trigger] listed(push_list(regs, true), i) == (i < 8
        && in_list(regs, i as u16) || i == 14) by {
        lemma_list_bits(regs, i as u16);
        lemma_list_bits(push_list(regs, true), i as u16);
    }
    assert forall|i: int| 0 <= i < 16 implies #[trigger] listed(push_list(regs, false), i) == (i
        < 8 && in_list(regs, i as u16)) by {
        lemma_list_bits(regs, i as u16);
        lemma_list_bits(push_list(regs, false), i as u16);
    }
    assert forall|i: int| 0 <= i < 16 implies #[trigger] listed(pop_list(regs, true), i) == (i < 8
        && in_list(regs, i as u16) || i == 15) by {
        lemma_list_bits(regs, i as u16);
        lemma_list_bits(pop_list(regs, true), i as u16);
    }
    assert forall|i: int| 0 <= i < 16 implies #[trigger] listed(pop_list(regs, false), i) == (i < 8
        && in_list(regs, i as u16)) by {
        lemma_list_bits(regs, i as u16);
        lemma_list_bits(pop_list(regs, false), i as u16);
    }
}

proof fn lemma_stored_skip(cpu: CpuState, mem: MemoryModel, regs: u16, k: int, i: int, addr: u32)
    requires
        0 <= k <= i <= 16,
        forall|j: int| k <= j < i ==> !#[trigger] listed(regs, j),
    ensures
        stored_from(cpu, mem, regs, k, addr) == stored_from(cpu, mem, regs, i, addr),
        count_from(regs, k) == count_from(regs, i),
    decreases i - k,
{
    if k < i {
        assert(!listed(regs, k));
        lemma_stored_skip(cpu, mem, regs, k + 1, i, addr);
    }
}

/// Two lists that agree from `k` on, and two cores that agree on their registers, store
/// the same, and the address after the last word is as far as there are registers.
proof fn lemma_stored_same(
    c: CpuState,
    d: CpuState,
    mem: MemoryModel,
    regs: u16,
    rest: u16,
    k: int,
    addr: u32,
)
    requires
        0 <= k,
        forall|j: int| k <= j < 16 ==> #[trigger] listed(regs, j) == listed(rest, j),
        forall|j: int| k <= j < 16 && #[trigger] listed(regs, j) ==> c.regs[j] == d.regs[j],
    ensures
        stored_from(c, mem, regs, k, addr) == stored_from(d, mem, rest, k, addr),
        count_from(regs, k) == count_from(rest, k),
        stored_from(c, mem, regs, k, addr).0 is None ==> stored_from(c, mem, regs, k, addr).2 == (
        addr + 4 * count_from(regs, k)) % 0x1_0000_0000,
        0 <= count_from(regs, k) <= 16,
        k <= 16 ==> count_from(regs, k) <= 16 - k,
    decreases 16 - k,
{
    if k < 16 {
        assert(listed(regs, k) == listed(rest, k));
        if listed(regs, k) {
            let (got, m) = mem.writing(addr, 4, c.regs[k]);
            let up = crate::bits::wrap32(addr + 4);
            lemma_stored_same(c, d, m, regs, rest, k + 1, up);
            lemma_next_word(addr, count_from(regs, k + 1));
        } else {
            lemma_stored_same(c, d, mem, regs, rest, k + 1, addr);
        }
    }
}

proof fn lemma_next_word(addr: u32, n: int)
    ensures
        ((addr + 4) % 0x1_0000_0000 + 4 * n) % 0x1_0000_0000 == (addr + 4 * (n + 1))
            % 0x1_0000_0000,
{
    assert(((addr + 4) % 0x1_0000_0000 + 4 * n) % 0x1_0000_0000 == (addr + 4 + 4 * n)
        % 0x1_0000_0000) by {
        vstd::arithmetic::div_mod::lemma_add_mod_noop_right(4 * n, addr + 4, 0x1_0000_0000);
    }
}

/// STM stores the lowest register of its list at the base, and then does what it would do
/// for the rest of the list from four bytes above. An empty list stores nothing.
/// `later` is any core that agrees on the rest of the list and has the base moved.
pub proof fn law_store_list(
    e: Executor,
    cpu: CpuState,
    later: CpuState,
    mem: MemoryModel,
    rn: u8,
    regs: u16,
    rest: u16,
    i: u16,
)
    requires
        e.it_remaining == 0,
        rn < 16,
        i < 16,
        in_list(regs, i),
        forall|j: u16| j < i ==> !#[trigger] in_list(regs, j),
        forall|j: u16| j < 16 ==> #[trigger] in_list(rest, j) == (in_list(regs, j) && j != i),
        forall|j: u16| j < 16 && #[trigger] in_list(rest, j) ==> later.regs[j as int] == cpu.regs[j as int],
        later.regs[rn as int] == (cpu.regs[rn as int] + 4) % 0x1_0000_0000,
    ensures
        ({
            let base = cpu.regs[rn as int];
            let all = done(
                e,
                cpu,
                mem,
                Instruction::Stm { rn, regs, writeback: true, descending: false },
            );
            let (got, m) = mem.writing(base, 4, cpu.regs[i as int]);
            let more = done(
                e,
                later,
                m,
                Instruction::Stm { rn, regs: rest, writeback: true, descending: false },
            );
            &&& got is Ok ==> {
                &&& all.outcome == more.outcome
                &&& all.mem == more.mem
                &&& all.outcome == ExecOutcome::Continue ==> all.cpu.regs[rn as int]
                    == more.cpu.regs[rn as int]
            }
            &&& got is Err ==> all.mem == m && all.cpu == cpu && all.outcome
                == (ExecOutcome::Fault { reason: FaultReason::MemManage { address: base } })
            &&& all.outcome == ExecOutcome::Continue ==> all.cpu == cpu.with_reg_synced(
                rn,
                all.cpu.regs[rn as int],
            )
        }),
{
    reveal(memory_step);
    reveal(after_stm);
    lemma_transfer(e, cpu, mem, Instruction::Stm { rn, regs, writeback: true, descending: false });
    let base = cpu.regs[rn as int];
    let (got, m) = mem.writing(base, 4, cpu.regs[i as int]);
    lemma_transfer(
        e,
        later,
        m,
        Instruction::Stm { rn, regs: rest, writeback: true, descending: false },
    );
    lemma_listed(regs);
    lemma_listed(rest);
    let k = i as int;
    assert(listed(regs, k));
    assert forall|j: int| 0 <= j < k implies !#[trigger] listed(regs, j) by {
        assert(!in_list(regs, j as u16));
    }
    assert forall|j: int| 0 <= j < k + 1 implies !#[trigger] listed(rest, j) by {
        assert(in_list(rest, j as u16) == (in_list(regs, j as u16) && j != k));
        if j < k {
            assert(!listed(regs, j));
        }
    }
    let up = crate::bits::wrap32(base + 4);
    lemma_stored_skip(cpu, mem, regs, 0, k, base);
    lemma_stored_skip(later, m, rest, 0, k + 1, up);
    assert forall|j: int| k + 1 <= j < 16 implies #[trigger] listed(regs, j) == listed(rest, j) by {
        assert(in_list(rest, j as u16) == (in_list(regs, j as u16) && j != k));
    }
    assert forall|j: int| k + 1 <= j < 16 && #[trigger] listed(regs, j) implies cpu.regs[j]
        == later.regs[j] by {
        assert(listed(regs, j) == listed(rest, j));
        assert(in_list(rest, j as u16));
    }
    lemma_stored_same(cpu, later, m, regs, rest, k + 1, up);
}

/// An empty list stores nothing, and the base stays. Without writing back STM stores the
/// same and changes no register. Descending, it stores what the ascending form stores from
/// the address that is left in the base, and that form ends where this one began.
pub proof fn law_store_list_forms(
    e: Executor,
    cpu: CpuState,
    low: CpuState,
    mem: MemoryModel,
    rn: u8,
    regs: u16,
)
    requires
        e.it_remaining == 0,
        rn < 16,
        forall|j: u16|
            j < 16 && j != rn && #[trigger] in_list(regs, j) ==> low.regs[j as int] == cpu.regs[j as int],
        !in_list(regs, rn as u16),
        low.regs[rn as int] == done(
            e,
            cpu,
            mem,
            Instruction::Stm { rn, regs, writeback: true, descending: true },
        ).cpu.regs[rn as int],
    ensures
        ({
            let up = done(
                e,
                cpu,
                mem,
                Instruction::Stm { rn, regs, writeback: true, descending: false },
            );
            let still = done(
                e,
                cpu,
                mem,
                Instruction::Stm { rn, regs, writeback: false, descending: false },
            );
            let down = done(
                e,
                cpu,
                mem,
                Instruction::Stm { rn, regs, writeback: true, descending: true },
            );
            let again = done(
                e,
                low,
                mem,
                Instruction::Stm { rn, regs, writeback: true, descending: false },
            );
            &&& still.outcome == up.outcome && still.mem == up.mem && still.cpu == cpu
            &&& (forall|j: u16| j < 16 ==> !#[trigger] in_list(regs, j)) ==> up.mem == mem
                && up.outcome == ExecOutcome::Continue && up.cpu.regs[rn as int]
                == cpu.regs[rn as int]
            &&& down.outcome == ExecOutcome::Continue ==> {
                &&& again.outcome == ExecOutcome::Continue
                &&& again.mem == down.mem
                &&& again.cpu.regs[rn as int] == cpu.regs[rn as int]
            }
        }),
{
    reveal(memory_step);
    reveal(after_stm);
    lemma_transfer(e, cpu, mem, Instruction::Stm { rn, regs, writeback: true, descending: false });
    lemma_transfer(e, cpu, mem, Instruction::Stm { rn, regs, writeback: false, descending: false });
    lemma_transfer(e, cpu, mem, Instruction::Stm { rn, regs, writeback: true, descending: true });
    lemma_transfer(e, low, mem, Instruction::Stm { rn, regs, writeback: true, descending: false });
    lemma_listed(regs);
    let base = cpu.regs[rn as int];
    if forall|j: u16| j < 16 ==> !#[trigger] in_list(regs, j) {
        assert forall|j: int| 0 <= j < 16 implies !#[trigger] listed(regs, j) by {
            assert(!in_list(regs, j as u16));
        }
        lemma_stored_skip(cpu, mem, regs, 0, 16, base);
    }
    assert forall|j: int| 0 <= j < 16 && #[trigger] listed(regs, j) implies cpu.regs[j]
        == low.regs[j] by {
        assert(in_list(regs, j as u16));
    }
    let n = count_from(regs, 0);
    let start = crate::bits::wrap32(base - 4 * n);
    lemma_stored_same(cpu, low, mem, regs, regs, 0, start);
    lemma_stored_same(cpu, cpu, mem, regs, regs, 0, base);
    assert(((base - 4 * n) % 0x1_0000_0000 + 4 * n) % 0x1_0000_0000 == base) by {
        vstd::arithmetic::div_mod::lemma_add_mod_noop_right(4 * n, base - 4 * n, 0x1_0000_0000);
    }
}

/// PUSH is STM below SP, with SP written back, of R0 to R7 and LR.
pub proof fn law_push(
    e: Executor,
    cpu: CpuState,
    mem: MemoryModel,
    regs: u16,
    lr: bool,
    list: u16,
)
    requires
        e.it_remaining == 0,
        forall|j: u16|
            j < 16 ==> #[trigger] in_list(list, j) == (j < 8 && in_list(regs, j) || j == 14 && lr),
    ensures
        done(e, cpu, mem, Instruction::Push { regs, lr }) == done(
            e,
            cpu,
            mem,
            Instruction::Stm { rn: 13, regs: list, writeback: true, descending: true },
        ),
{
    reveal(memory_step);
    reveal(after_stm);
    reveal(after_push);
    lemma_transfer(e, cpu, mem, Instruction::Push { regs, lr });
    lemma_transfer(
        e,
        cpu,
        mem,
        Instruction::Stm { rn: 13, regs: list, writeback: true, descending: true },
    );
    lemma_listed(regs);
    lemma_listed(list);
    let pushed = push_list(regs, lr);
    assert forall|j: int| 0 <= j < 16 implies #[trigger] listed(list, j) == listed(pushed, j) by {
        assert(in_list(list, j as u16) == (j < 8 && in_list(regs, j as u16) || j == 14 && lr));
    }
    let start = crate::bits::wrap32(cpu.regs[13] - 4 * count_from(pushed, 0));
    lemma_stored_same(cpu, cpu, mem, list, pushed, 0, start);
}

proof fn lemma_loaded_skip(
    cpu: CpuState,
    mem: MemoryModel,
    regs: u16,
    k: int,
    i: int,
    addr: u32,
    pc: Option<u32>,
)
    requires
        0 <= k <= i <= 16,
        forall|j: int| k <= j < i ==> !#[trigger] listed(regs, j),
    ensures
        loaded_from(cpu, mem, regs, k, addr, pc) == loaded_from(cpu, mem, regs, i, addr, pc),
    decreases i - k,
{
    if k < i {
        assert(!listed(regs, k));
        lemma_loaded_skip(cpu, mem, regs, k + 1, i, addr, pc);
    }
}

/// Two lists that agree from `k` on load the same into two cores that differ in a
/// register beside the lists only.
proof fn lemma_loaded_same(
    c: CpuState,
    d: CpuState,
    mem: MemoryModel,
    regs: u16,
    rest: u16,
    k: int,
    addr: u32,
    pc: Option<u32>,
    rn: u8,
)
    requires
        0 <= k,
        rn < 16,
        forall|j: int| k <= j < 16 ==> #[trigger] listed(regs, j) == listed(rest, j),
        !listed(regs, rn as int),
        !listed(rest, rn as int),
        forall|j: int| 0 <= j < 16 && j != rn ==> #[trigger] c.regs[j] == d.regs[j],
    ensures
        ({
            let l = loaded_from(c, mem, regs, k, addr, pc);
            let m = loaded_from(d, mem, rest, k, addr, pc);
            &&& l.fault == m.fault
            &&& l.mem == m.mem
            &&& l.end == m.end
            &&& l.pc == m.pc
            &&& l.cpu.regs[rn as int] == c.regs[rn as int]
            &&& m.cpu.regs[rn as int] == d.regs[rn as int]
            &&& forall|j: int| 0 <= j < 16 && j != rn ==> #[trigger] l.cpu.regs[j] == m.cpu.regs[j]
            &&& l.cpu == (CpuState { regs: l.cpu.regs, ..c })
            &&& l.fault is None ==> l.end == (addr + 4 * count_from(regs, k)) % 0x1_0000_0000
            &&& count_from(regs, k) == count_from(rest, k)
        }),
    decreases 16 - k,
{
    if k < 16 {
        assert(listed(regs, k) == listed(rest, k));
        if listed(regs, k) {
            let (got, m) = mem.reading(addr, 4);
            let up = crate::bits::wrap32(addr + 4);
            lemma_next_word(addr, count_from(regs, k + 1));
            if let Ok(v) = got {
                if k == 15 {
                    lemma_loaded_same(c, d, m, regs, rest, k + 1, up, Some(v), rn);
                } else {
                    lemma_loaded_same(
                        c.with_reg(k as u8, v),
                        d.with_reg(k as u8, v),
                        m,
                        regs,
                        rest,
                        k + 1,
                        up,
                        pc,
                        rn,
                    );
                }
            } else {
                lemma_stored_same(c, c, mem, regs, rest, k, addr);
            }
        } else {
            lemma_loaded_same(c, d, mem, regs, rest, k + 1, addr, pc, rn);
        }
    }
}

/// LDM loads the lowest register of its list from the base, and then does what it would
/// do for the rest of the list from four bytes above: `later` is the core with that
/// register loaded and the base moved. A refused read is a bus fault at its address.
pub proof fn law_load_list(
    e: Executor,
    cpu: CpuState,
    later: CpuState,
    mem: MemoryModel,
    rn: u8,
    regs: u16,
    rest: u16,
    i: u16,
)
    requires
        e.it_remaining == 0,
        rn < 16,
        i < 15,
        in_list(regs, i),
        !in_list(regs, rn as u16),
        forall|j: u16| j < i ==> !#[trigger] in_list(regs, j),
        forall|j: u16| j < 16 ==> #[trigger] in_list(rest, j) == (in_list(regs, j) && j != i),
        forall|j: int|
            0 <= j < 16 && j != rn ==> #[trigger] later.regs[j] == if j == i && mem.reading(
                cpu.regs[rn as int],
                4,
            ).0 is Ok {
                mem.reading(cpu.regs[rn as int], 4).0->Ok_0
            } else {
                cpu.regs[j]
            },
        later.regs[rn as int] == (cpu.regs[rn as int] + 4) % 0x1_0000_0000,
    ensures
        ({
            let base = cpu.regs[rn as int];
            let all = done(
                e,
                cpu,
                mem,
                Instruction::Ldm { rn, regs, writeback: true, descending: false },
            );
            let (got, m) = mem.reading(base, 4);
            let more = done(
                e,
                later,
                m,
                Instruction::Ldm { rn, regs: rest, writeback: true, descending: false },
            );
            &&& got is Ok ==> {
                &&& all.outcome == more.outcome
                &&& all.mem == more.mem
                &&& forall|j: int|
                    0 <= j < 16 && j != rn ==> #[trigger] all.cpu.regs[j] == more.cpu.regs[j]
                &&& !(all.outcome is Fault) ==> all.cpu.regs[rn as int] == more.cpu.regs[rn as int]
            }
            &&& got is Err ==> all.mem == m && all.cpu == cpu && all.outcome
                == (ExecOutcome::Fault { reason: FaultReason::BusFault { address: base } })
            &&& all.cpu.xpsr == cpu.xpsr && same_rest(all.cpu, cpu)
        }),
{
    reveal(memory_step);
    reveal(after_ldm);
    lemma_transfer(e, cpu, mem, Instruction::Ldm { rn, regs, writeback: true, descending: false });
    let base = cpu.regs[rn as int];
    let (got, m) = mem.reading(base, 4);
    lemma_transfer(
        e,
        later,
        m,
        Instruction::Ldm { rn, regs: rest, writeback: true, descending: false },
    );
    lemma_listed(regs);
    lemma_listed(rest);
    let k = i as int;
    assert(listed(regs, k));
    assert(in_list(rest, rn as u16) == (in_list(regs, rn as u16) && rn != i));
    assert forall|j: int| 0 <= j < k implies !#[trigger] listed(regs, j) by {
        assert(!in_list(regs, j as u16));
    }
    assert forall|j: int| 0 <= j < k + 1 implies !#[trigger] listed(rest, j) by {
        assert(in_list(rest, j as u16) == (in_list(regs, j as u16) && j != k));
        if j < k {
            assert(!listed(regs, j));
        }
    }
    assert forall|j: int| k + 1 <= j < 16 implies #[trigger] listed(regs, j) == listed(rest, j) by {
        assert(in_list(rest, j as u16) == (in_list(regs, j as u16) && j != k));
    }
    let up = crate::bits::wrap32(base + 4);
    lemma_loaded_skip(cpu, mem, regs, 0, k, base, None);
    lemma_loaded_skip(later, m, rest, 0, k + 1, up, None);
    if let Ok(v) = got {
        let c = cpu.with_reg(i as u8, v);
        lemma_loaded_same(c, later, m, regs, rest, k + 1, up, None, rn);
    }
}

/// A list of PC alone branches to the word at the base without its lowest bit, and an
/// empty list goes on; either way nothing but the base changes. Without writing back LDM
/// loads the same and leaves the base. Descending, it loads what the ascending form loads
/// from the address that is left in the base, and that form ends where this one began.
pub proof fn law_load_list_forms(
    e: Executor,
    cpu: CpuState,
    low: CpuState,
    mem: MemoryModel,
    rn: u8,
    regs: u16,
)
    requires
        e.it_remaining == 0,
        rn < 16,
        !in_list(regs, rn as u16),
        low.regs[rn as int] == done(
            e,
            cpu,
            mem,
            Instruction::Ldm { rn, regs, writeback: true, descending: true },
        ).cpu.regs[rn as int],
        forall|j: int| 0 <= j < 16 && j != rn ==> #[trigger] low.regs[j] == cpu.regs[j],
    ensures
        ({
            let base = cpu.regs[rn as int];
            let up = done(
                e,
                cpu,
                mem,
                Instruction::Ldm { rn, regs, writeback: true, descending: false },
            );
            let still = done(
                e,
                cpu,
                mem,
                Instruction::Ldm { rn, regs, writeback: false, descending: false },
            );
            let down = done(
                e,
                cpu,
                mem,
                Instruction::Ldm { rn, regs, writeback: true, descending: true },
            );
            let again = done(
                e,
                low,
                mem,
                Instruction::Ldm { rn, regs, writeback: true, descending: false },
            );
            &&& still.outcome == up.outcome && still.mem == up.mem
            &&& forall|j: int|
                0 <= j < 16 && j != rn ==> #[trigger] still.cpu.regs[j] == up.cpu.regs[j]
            &&& still.cpu.regs[rn as int] == base
            &&& (forall|j: u16| j < 16 ==> !#[trigger] in_list(regs, j)) ==> still.cpu == cpu
                && still.mem == mem && still.outcome == ExecOutcome::Continue
            &&& (forall|j: u16| j < 16 ==> #[trigger] in_list(regs, j) == (j == 15)) ==> match mem.reading(
                base,
                4,
            ).0 {
                Ok(v) => {
                    &&& v < 0xFFFF_FF00 ==> still.outcome == (ExecOutcome::Branch {
                        target: (v - v % 2) as u32,
                    })
                    &&& still.cpu == cpu
                    &&& up.cpu.regs[rn as int] == (base + 4) % 0x1_0000_0000
                },
                Err(_) => still.outcome == (ExecOutcome::Fault {
                    reason: FaultReason::BusFault { address: base },
                }),
            }
            &&& !(down.outcome is Fault) ==> {
                &&& again.outcome == down.outcome
                &&& again.mem == down.mem
                &&& again.cpu.regs[rn as int] == base
                &&& forall|j: int|
                    0 <= j < 16 && j != rn ==> #[trigger] again.cpu.regs[j] == down.cpu.regs[j]
            }
        }),
{
    reveal(memory_step);
    reveal(after_ldm);
    lemma_transfer(e, cpu, mem, Instruction::Ldm { rn, regs, writeback: true, descending: false });
    lemma_transfer(e, cpu, mem, Instruction::Ldm { rn, regs, writeback: false, descending: false });
    lemma_transfer(e, cpu, mem, Instruction::Ldm { rn, regs, writeback: true, descending: true });
    lemma_transfer(e, low, mem, Instruction::Ldm { rn, regs, writeback: true, descending: false });
    lemma_listed(regs);
    let base = cpu.regs[rn as int];
    if forall|j: u16| j < 16 ==> !#[trigger] in_list(regs, j) {
        assert forall|j: int| 0 <= j < 16 implies !#[trigger] listed(regs, j) by {
            assert(!in_list(regs, j as u16));
        }
        lemma_loaded_skip(cpu, mem, regs, 0, 16, base, None);
    }
    if forall|j: u16| j < 16 ==> #[trigger] in_list(regs, j) == (j == 15) {
        assert forall|j: int| 0 <= j < 15 implies !#[trigger] listed(regs, j) by {
            assert(in_list(regs, j as u16) == (j == 15));
        }
        assert(listed(regs, 15)) by {
            assert(in_list(regs, 15u16));
        }
        lemma_loaded_skip(cpu, mem, regs, 0, 15, base, None);
        reveal_with_fuel(loaded_from, 3);
        reveal_with_fuel(count_from, 3);
    }
    let n = count_from(regs, 0);
    let start = crate::bits::wrap32(base - 4 * n);
    lemma_loaded_same(cpu, low, mem, regs, regs, 0, start, None, rn);
    lemma_loaded_same(cpu, cpu, mem, regs, regs, 0, base, None, rn);
    assert(((base - 4 * n) % 0x1_0000_0000 + 4 * n) % 0x1_0000_0000 == base) by {
        vstd::arithmetic::div_mod::lemma_add_mod_noop_right(4 * n, base - 4 * n, 0x1_0000_0000);
    }
}

/// POP is LDM from SP on, with SP written back, of R0 to R7 and PC; where it branches PC
/// has the target already.
pub proof fn law_pop(
    e: Executor,
    cpu: CpuState,
    mem: MemoryModel,
    regs: u16,
    pc: bool,
    list: u16,
)
    requires
        e.it_remaining == 0,
        forall|j: u16|
            j < 16 ==> #[trigger] in_list(list, j) == (j < 8 && in_list(regs, j) || j == 15 && pc),
    ensures
        ({
            let pop = done(e, cpu, mem, Instruction::Pop { regs, pc });
            let ldm = done(
                e,
                cpu,
                mem,
                Instruction::Ldm { rn: 13, regs: list, writeback: true, descending: false },
            );
            &&& pop.outcome == ldm.outcome
            &&& pop.mem == ldm.mem
            &&& forall|j: int| 0 <= j < 15 ==> #[trigger] pop.cpu.regs[j] == ldm.cpu.regs[j]
            &&& pop.cpu.regs[15] == match pop.outcome {
                ExecOutcome::Branch { target } => target,
                _ => cpu.regs[15],
            }
            &&& pop.cpu.xpsr == cpu.xpsr && same_rest(pop.cpu, cpu)
        }),
{
    reveal(memory_step);
    reveal(after_ldm);
    reveal(after_pop);
    lemma_transfer(e, cpu, mem, Instruction::Pop { regs, pc });
    lemma_transfer(
        e,
        cpu,
        mem,
        Instruction::Ldm { rn: 13, regs: list, writeback: true, descending: false },
    );
    lemma_listed(regs);
    lemma_listed(list);
    let popped = pop_list(regs, pc);
    assert forall|j: int| 0 <= j < 16 implies #[trigger] listed(list, j) == listed(popped, j) by {
        assert(in_list(list, j as u16) == (j < 8 && in_list(regs, j as u16) || j == 15 && pc));
    }
    assert(!listed(list, 13) && !listed(popped, 13));
    lemma_loaded_same(cpu, cpu, mem, list, popped, 0, cpu.regs[13], None, 13);
    lemma_loaded_same(cpu, cpu, mem, popped, list, 0, cpu.regs[13], None, 13);
    lemma_pc_kept(cpu, mem, popped, 0, cpu.regs[13], None);
}

/// PC itself is not loaded, and its word is kept only where it is in the list.
proof fn lemma_pc_kept(
    c: CpuState,
    mem: MemoryModel,
    regs: u16,
    k: int,
    addr: u32,
    pc: Option<u32>,
)
    requires
        0 <= k,
    ensures
        loaded_from(c, mem, regs, k, addr, pc).cpu.regs[15] == c.regs[15],
    decreases 16 - k,
{
    if k < 16 {
        if listed(regs, k) {
            let (got, m) = mem.reading(addr, 4);
            let up = crate::bits::wrap32(addr + 4);
            if let Ok(v) = got {
                if k == 15 {
                    lemma_pc_kept(c, m, regs, k + 1, up, Some(v));
                } else {
                    lemma_pc_kept(c.with_reg(k as u8, v), m, regs, k + 1, up, pc);
                }
            }
        } else {
            lemma_pc_kept(c, mem, regs, k + 1, addr, pc);
        }
    }
}

/// A floating point transfer outside an IT block has the effect of its group; it marks
/// the floating point context as live.
proof fn lemma_float_transfer(e: Executor, cpu: CpuState, mem: MemoryModel, instr: Instruction)
    requires
        e.it_remaining == 0,
        cpu.has_fpu(),
        instr is FpLoadStore || instr is FpLoadStoreMulti,
    ensures
        Some(done(e, cpu, mem, instr)) == memory_step(
            CpuState { control: cpu.control | 4, ..cpu },
            mem,
            instr,
        ),
{
    reveal(Executor::executed);
    reveal(Executor::passed);
    reveal(effect);
    reveal(data_step);
    reveal(media_step);
    reveal(float_step);
    reveal(memory_step);
}

/// VLDR and VSTR of S(n): one word at the sum of base and offset, which has to be a word
/// address, and no other register.
pub proof fn law_single_float_transfer(
    e: Executor,
    cpu: CpuState,
    mem: MemoryModel,
    rt: u8,
    rn: u8,
    offset: u32,
)
    requires
        e.it_remaining == 0,
        cpu.has_fpu(),
        rt < 32,
        rn < 16,
    ensures
        ({
            let at = ((cpu.regs[rn as int] + offset) % 0x1_0000_0000) as u32;
            let live = CpuState { control: cpu.control | 4, ..cpu };
            let load = done(
                e,
                cpu,
                mem,
                Instruction::FpLoadStore { rt, rn, offset, load: true, double: false },
            );
            let store = done(
                e,
                cpu,
                mem,
                Instruction::FpLoadStore { rt, rn, offset, load: false, double: false },
            );
            let (got, m) = mem.reading(at, 4);
            let (had, w) = mem.writing(at, 4, cpu.fpu.s[rt as int]);
            let fault = ExecOutcome::Fault {
                reason: FaultReason::UnalignedAccess { address: at },
            };
            &&& at % 4 != 0 ==> load.outcome == fault && load.mem == mem && load.cpu == live
            &&& at % 4 != 0 ==> store.outcome == fault && store.mem == mem && store.cpu == live
            &&& at % 4 == 0 ==> load.mem == m && store.mem == w && store.cpu == live
            &&& at % 4 == 0 && got is Ok ==> {
                &&& load.outcome == ExecOutcome::Continue
                &&& load.cpu.fpu.s[rt as int] == got->Ok_0
                &&& load.cpu.fpu.fpscr == cpu.fpu.fpscr
                &&& load.cpu == (CpuState { fpu: load.cpu.fpu, ..live })
                &&& forall|j: int|
                    0 <= j < 32 && j != rt ==> #[trigger] load.cpu.fpu.s[j] == cpu.fpu.s[j]
            }
            &&& at % 4 == 0 && got is Err ==> load.outcome is Fault && load.cpu == live
            &&& at % 4 == 0 ==> (store.outcome == ExecOutcome::Continue <==> had is Ok)
        }),
{
    reveal(memory_step);
    reveal(after_vldr);
    reveal(load_one);
    reveal(store_one);
    lemma_float_transfer(
        e,
        cpu,
        mem,
        Instruction::FpLoadStore { rt, rn, offset, load: true, double: false },
    );
    lemma_float_transfer(
        e,
        cpu,
        mem,
        Instruction::FpLoadStore { rt, rn, offset, load: false, double: false },
    );
}

/// VLDR and VSTR of D(n): S(2n) is the word at the address, which has to be a multiple of
/// eight, and S(2n + 1) the one above it.
pub proof fn law_double_float_transfer(
    e: Executor,
    cpu: CpuState,
    mem: MemoryModel,
    rt: u8,
    rn: u8,
    offset: u32,
)
    requires
        e.it_remaining == 0,
        cpu.has_fpu(),
        rt < 16,
        rn < 16,
    ensures
        ({
            let at = ((cpu.regs[rn as int] + offset) % 0x1_0000_0000) as u32;
            let live = CpuState { control: cpu.control | 4, ..cpu };
            let load = done(
                e,
                cpu,
                mem,
                Instruction::FpLoadStore { rt, rn, offset, load: true, double: true },
            );
            let store = done(
                e,
                cpu,
                mem,
                Instruction::FpLoadStore { rt, rn, offset, load: false, double: true },
            );
            let above = (at + 4) as u32;
            let (lo, m1) = mem.reading(at, 4);
            let (hi, m2) = m1.reading(above, 4);
            let (one, w1) = mem.writing(at, 4, cpu.fpu.s[2 * rt as int]);
            let (two, w2) = w1.writing(above, 4, cpu.fpu.s[2 * rt + 1]);
            &&& at % 8 != 0 ==> load.outcome == (ExecOutcome::Fault {
                reason: FaultReason::UnalignedAccess { address: at },
            }) && load.mem == mem && load.cpu == live
            &&& at % 8 != 0 ==> store.outcome == load.outcome && store.mem == mem && store.cpu
                == live
            &&& at % 8 == 0 && lo is Ok && hi is Ok ==> {
                &&& load.outcome == ExecOutcome::Continue
                &&& load.mem == m2
                &&& load.cpu.fpu.s[2 * rt as int] == lo->Ok_0
                &&& load.cpu.fpu.s[2 * rt + 1] == hi->Ok_0
                &&& load.cpu.fpu.fpscr == cpu.fpu.fpscr
                &&& load.cpu == (CpuState { fpu: load.cpu.fpu, ..live })
                &&& forall|j: int|
                    0 <= j < 32 && j != 2 * rt && j != 2 * rt + 1 ==> #[trigger] load.cpu.fpu.s[j]
                        == cpu.fpu.s[j]
            }
            &&& at % 8 == 0 && !(lo is Ok && hi is Ok) ==> load.outcome is Fault && load.cpu == live
            &&& at % 8 == 0 && one is Ok && two is Ok ==> store.outcome == ExecOutcome::Continue
                && store.mem == w2 && store.cpu == live
            &&& at % 8 == 0 && !(one is Ok && two is Ok) ==> store.outcome is Fault
        }),
{
    reveal(memory_step);
    reveal(after_vldr);
    reveal(load_one);
    reveal(store_one);
    lemma_float_transfer(
        e,
        cpu,
        mem,
        Instruction::FpLoadStore { rt, rn, offset, load: true, double: true },
    );
    lemma_float_transfer(
        e,
        cpu,
        mem,
        Instruction::FpLoadStore { rt, rn, offset, load: false, double: true },
    );
    let (lo, hi) = (cpu.fpu.s[2 * rt as int], cpu.fpu.s[2 * rt + 1]);
    lemma_double_word(lo, hi);
    let at = ((cpu.regs[rn as int] + offset) % 0x1_0000_0000) as u32;
    let (got, m) = mem.reading(at, 4);
    let (more, _) = m.reading((at + 4) as u32, 4);
    if got is Ok && more is Ok {
        lemma_double_word(got->Ok_0, more->Ok_0);
    }
}

proof fn lemma_double_word(lo: u32, hi: u32)
    ensures
        lo + 0x1_0000_0000 * hi <= 0xFFFF_FFFF_FFFF_FFFF,
        (lo + 0x1_0000_0000 * hi) % 0x1_0000_0000 == lo,
        (lo + 0x1_0000_0000 * hi) / 0x1_0000_0000 == hi,
{
}

proof fn lemma_multi_shift(
    f: FpuRegisters,
    mem: MemoryModel,
    d: u8,
    i: int,
    count: int,
    addr: u32,
    double: bool,
)
    requires
        1 <= i,
        d < 64,
    ensures
        multi_loaded(f, mem, d, i, count, addr, double) == multi_loaded(
            f,
            mem,
            (d + 1) as u8,
            i - 1,
            count - 1,
            addr,
            double,
        ),
        multi_stored(f, mem, d, i, count, addr, double) == multi_stored(
            f,
            mem,
            (d + 1) as u8,
            i - 1,
            count - 1,
            addr,
            double,
        ),
    decreases count - i,
{
    if i < count {
        let up = crate::bits::wrap32(addr + crate::engine::vfp::stride(double));
        let (_, g, m) = load_one(f, mem, d + i, addr, double);
        let (_, w) = store_one(f, mem, d + i, addr, double);
        assert(d + i == (d + 1) as u8 + (i - 1));
        lemma_multi_shift(g, m, d, i + 1, count, up, double);
        lemma_multi_shift(f, w, d, i + 1, count, up, double);
    }
}

proof fn lemma_list_split(
    cpu: CpuState,
    later: CpuState,
    mem: MemoryModel,
    d: u8,
    count: u32,
    addr: u32,
    load: bool,
    double: bool,
)
    requires
        d < 64,
        count > 1,
        later.fpu == after_list(cpu, mem, d, 1, addr, load, double).cpu.fpu,
    ensures
        ({
            let whole = after_list(cpu, mem, d, count, addr, load, double);
            let first = after_list(cpu, mem, d, 1, addr, load, double);
            let up = crate::bits::wrap32(addr + crate::engine::vfp::stride(double));
            let rest = after_list(
                later,
                first.mem,
                (d + 1) as u8,
                (count - 1) as u32,
                up,
                load,
                double,
            );
            &&& first.outcome == ExecOutcome::Continue ==> whole.outcome == rest.outcome
                && whole.mem == rest.mem && whole.cpu.fpu == rest.cpu.fpu
            &&& first.outcome != ExecOutcome::Continue ==> whole == first
        }),
{
    reveal(after_list);
    reveal_with_fuel(multi_loaded, 2);
    reveal_with_fuel(multi_stored, 2);
    let up = crate::bits::wrap32(addr + crate::engine::vfp::stride(double));
    let (_, g, m) = load_one(cpu.fpu, mem, d as int, addr, double);
    let (_, w) = store_one(cpu.fpu, mem, d as int, addr, double);
    lemma_multi_shift(g, m, d, 1, count as int, up, double);
    lemma_multi_shift(cpu.fpu, w, d, 1, count as int, up, double);
}

proof fn lemma_list_kept(
    cpu: CpuState,
    mem: MemoryModel,
    d: u8,
    count: u32,
    addr: u32,
    load: bool,
    double: bool,
)
    ensures
        ({
            let r = after_list(cpu, mem, d, count, addr, load, double);
            &&& r.cpu == (CpuState { fpu: r.cpu.fpu, ..cpu })
            &&& r.outcome == ExecOutcome::Continue || r.outcome is Fault
        }),
{
    reveal(after_list);
}

proof fn lemma_list_one(
    cpu: CpuState,
    mem: MemoryModel,
    d: u8,
    rn: u8,
    load: bool,
    double: bool,
)
    requires
        rn < 16,
        cpu.regs[rn as int] % 8 == 0,
    ensures
        after_list(cpu, mem, d, 1, cpu.regs[rn as int], load, double) == after_vldr(
            cpu,
            mem,
            d,
            rn,
            0,
            load,
            double,
        ),
{
    reveal(after_list);
    reveal(after_vldr);
    reveal_with_fuel(multi_loaded, 2);
    reveal_with_fuel(multi_stored, 2);
}

/// VLDM and VSTM of one register are VLDR and VSTR at the base; of more, they are the
/// transfer of the first, with the base moved behind it, and then of the others.
#[verifier::spinoff_prover]
pub proof fn law_float_list(
    e: Executor,
    cpu: CpuState,
    mem: MemoryModel,
    vd: u8,
    rn: u8,
    count: u32,
    load: bool,
    double: bool,
)
    requires
        e.it_remaining == 0,
        cpu.has_fpu(),
        vd < 32,
        rn < 16,
        1 < count < 0x1000_0000,
        cpu.regs[rn as int] % 8 == 0,
    ensures
        ({
            let all = Instruction::FpLoadStoreMulti {
                vd,
                rn,
                count,
                load,
                double,
                decrement: false,
                writeback: true,
            };
            let one = Instruction::FpLoadStoreMulti {
                vd,
                rn,
                count: 1,
                load,
                double,
                decrement: false,
                writeback: true,
            };
            let others = Instruction::FpLoadStoreMulti {
                vd: (vd + 1) as u8,
                rn,
                count: (count - 1) as u32,
                load,
                double,
                decrement: false,
                writeback: true,
            };
            let first = done(e, cpu, mem, one);
            let plain = done(
                e,
                cpu,
                mem,
                Instruction::FpLoadStore { rt: vd, rn, offset: 0, load, double },
            );
            let whole = done(e, cpu, mem, all);
            let rest = done(e, first.cpu, first.mem, others);
            let step = if double { 8int } else { 4 };
            &&& first.outcome == plain.outcome && first.mem == plain.mem && first.cpu.fpu
                == plain.cpu.fpu
            &&& first.outcome == ExecOutcome::Continue ==> {
                &&& first.cpu.regs[rn as int] == (cpu.regs[rn as int] + step) % 0x1_0000_0000
                &&& whole.outcome == rest.outcome
                &&& whole.mem == rest.mem
                &&& whole.cpu.fpu == rest.cpu.fpu
                &&& whole.outcome == ExecOutcome::Continue ==> whole.cpu.regs[rn as int]
                    == rest.cpu.regs[rn as int]
            }
            &&& first.outcome != ExecOutcome::Continue ==> whole.outcome == first.outcome
                && whole.mem == first.mem && whole.cpu == first.cpu
        }),
{
    reveal(memory_step);
    reveal(after_vldm);
    let all = Instruction::FpLoadStoreMulti {
        vd,
        rn,
        count,
        load,
        double,
        decrement: false,
        writeback: true,
    };
    let one = Instruction::FpLoadStoreMulti {
        vd,
        rn,
        count: 1,
        load,
        double,
        decrement: false,
        writeback: true,
    };
    let others = Instruction::FpLoadStoreMulti {
        vd: (vd + 1) as u8,
        rn,
        count: (count - 1) as u32,
        load,
        double,
        decrement: false,
        writeback: true,
    };
    lemma_float_transfer(e, cpu, mem, all);
    lemma_float_transfer(e, cpu, mem, one);
    lemma_float_transfer(
        e,
        cpu,
        mem,
        Instruction::FpLoadStore { rt: vd, rn, offset: 0, load, double },
    );
    let first = done(e, cpu, mem, one);
    let base = cpu.regs[rn as int];
    let up = crate::bits::wrap32(base + crate::engine::vfp::stride(double));
    let live = CpuState { control: cpu.control | 4, ..cpu };
    let next = CpuState { control: first.cpu.control | 4, ..first.cpu };
    lemma_base_steps(base, count, double);
    lemma_list_one(live, mem, vd, rn, load, double);
    lemma_list_kept(live, mem, vd, 1, base, load, double);
    lemma_list_kept(live, mem, vd, count, base, load, double);
    lemma_float_transfer(e, first.cpu, first.mem, others);
    lemma_list_kept(next, first.mem, (vd + 1) as u8, (count - 1) as u32, up, load, double);
    lemma_list_split(live, next, mem, vd, count, base, load, double);
}

proof fn lemma_base_steps(base: u32, count: u32, double: bool)
    requires
        base % 8 == 0,
        count > 1,
    ensures
        ({
            let up = moved_base(base, 1, double, false);
            &&& up == crate::bits::wrap32(base + crate::engine::vfp::stride(double))
            &&& up % 4 == 0
            &&& moved_base(up, (count - 1) as u32, double, false) == moved_base(
                base,
                count,
                double,
                false,
            )
        }),
{
    let step = if double { 8int } else { 4 };
    let more = step * (count - 1);
    assert((more + (base + step) % 0x1_0000_0000) % 0x1_0000_0000 == (more + base + step)
        % 0x1_0000_0000) by {
        vstd::arithmetic::div_mod::lemma_add_mod_noop_right(more, base + step, 0x1_0000_0000);
    }
}

/// The forms that go down from the base transfer what the forms that go up from the moved
/// base do. Without writing back the base stays.
pub proof fn law_float_list_forms(
    e: Executor,
    cpu: CpuState,
    low: CpuState,
    mem: MemoryModel,
    vd: u8,
    rn: u8,
    count: u32,
    load: bool,
    double: bool,
)
    requires
        e.it_remaining == 0,
        cpu.has_fpu(),
        rn < 16,
        count < 0x1000_0000,
        low == cpu.with_reg(
            rn,
            ((cpu.regs[rn as int] - (if double { 8int } else { 4 }) * count) % 0x1_0000_0000) as u32,
        ),
    ensures
        ({
            let still = Instruction::FpLoadStoreMulti {
                vd,
                rn,
                count,
                load,
                double,
                decrement: false,
                writeback: false,
            };
            let down = Instruction::FpLoadStoreMulti {
                vd,
                rn,
                count,
                load,
                double,
                decrement: true,
                writeback: true,
            };
            let a = done(e, cpu, mem, down);
            let b = done(e, low, mem, still);
            &&& a.outcome == b.outcome
            &&& a.mem == b.mem
            &&& a.cpu.fpu == b.cpu.fpu
            &&& b.cpu.regs == low.regs
            &&& a.outcome == ExecOutcome::Continue ==> a.cpu.regs[rn as int]
                == low.regs[rn as int]
        }),
{
    reveal(memory_step);
    reveal(after_vldm);
    reveal(after_list);
    let still = Instruction::FpLoadStoreMulti {
        vd,
        rn,
        count,
        load,
        double,
        decrement: false,
        writeback: false,
    };
    let down = Instruction::FpLoadStoreMulti {
        vd,
        rn,
        count,
        load,
        double,
        decrement: true,
        writeback: true,
    };
    lemma_float_transfer(e, cpu, mem, down);
    lemma_float_transfer(e, low, mem, still);
}

} // verus!
