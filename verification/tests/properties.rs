//! What the library promises as a whole, on chosen values.
use dtwin::chip::profile::validate;
use dtwin::chip::{
    chip_profile, memory_from_profile, memory_with_uart, ChipProfile, ClockTree, CoreDef,
    MemoryDef, PeripheralDef, S32K312,
};
use dtwin::engine::decode::{
    AccessWidth, BitFieldKind, Cond, Decoder, Instruction, LoadStoreOffset, ShiftAmount, ShiftKind,
    SpecialReg,
};
use dtwin::engine::dsp::{ssat, usat};
use dtwin::engine::exec::{ExecOutcome, Executor};
use dtwin::engine::fpu::{
    cvt_f32_to_fixed, cvt_f64_to_f32, cvt_fixed_to_f32, f32_add, f32_div, f32_mul, f32_mul_add,
    f32_sub, f64_add, f64_div, f64_mul, f64_mul_add, f64_sub, vfp_expand_imm, widen, FpOpFlags, FpuRegisters,
};
use dtwin::engine::{Engine, EngineResult, FaultReason};
use dtwin::memory::{Memory, MemoryFault, MpuRegion, Watchpoint};
use dtwin::nvic::Nvic;
use dtwin::peripheral::{BusDevice, Device, DeviceModel};
use dtwin::system::{SystemBlock, SYST_COUNTFLAG};
use dtwin::text::{parse_hex_u32, push_decimal, push_hex};
use dtwin::uart::CmsdkUart;
use dtwin::CpuState;

fn bare_core() -> (Executor, CpuState, Memory) {
    (Executor::new(), CpuState::default(), Memory::test_ram())
}

/// Code in flash from address 0x100 on, and PC there.
fn machine(code: &[u16]) -> (Engine, CpuState, Memory, Nvic) {
    let mut mem = Memory::m4f_default();
    mem.attach_peripheral(SystemBlock::new());
    for (i, h) in code.iter().enumerate() {
        mem.flash[0x100 + 2 * i..0x102 + 2 * i].copy_from_slice(&h.to_le_bytes());
    }
    let mut cpu = CpuState::default();
    cpu.msp = 0x2000_1000;
    cpu.regs[13] = 0x2000_1000;
    cpu.regs[15] = 0x100;
    (Engine::new(), cpu, mem, Nvic::new())
}

fn set_vector(mem: &mut Memory, number: usize, handler: u32) {
    mem.flash[4 * number..4 * number + 4].copy_from_slice(&(handler | 1).to_le_bytes());
}

#[test]
fn written_bytes_are_read_back_at_every_width() {
    let mut m = Memory::test_ram();
    m.write(0x2000_0010, 4, 0x1122_3344).unwrap();
    assert_eq!(m.read(0x2000_0010, 4), Ok(0x1122_3344));
    m.write(0x2000_0014, 2, 0xFFFF_5566).unwrap();
    assert_eq!(m.read(0x2000_0014, 2), Ok(0x5566));
    m.write(0x2000_0016, 1, 0xFFFF_FF77).unwrap();
    assert_eq!(m.read(0x2000_0016, 1), Ok(0x77));
    assert_eq!(m.read(0x2000_0010, 4), Ok(0x1122_3344));
    assert_eq!(m.read(0x2000_0011, 1), Ok(0x33));
}

#[test]
fn a_write_keeps_its_neighbours() {
    let mut m = Memory::test_ram();
    m.write_u32(0x2000_0000, 0xAAAA_AAAA).unwrap();
    m.write_u32(0x2000_0008, 0xBBBB_BBBB).unwrap();
    m.write_u32(0x2000_0004, 0xCCCC_CCCC).unwrap();
    assert_eq!(m.read_u32(0x2000_0000), Ok(0xAAAA_AAAA));
    assert_eq!(m.read_u32(0x2000_0008), Ok(0xBBBB_BBBB));
    assert!(m.flash.iter().all(|b| *b == 0xFF));
}

#[test]
fn a_refused_access_changes_nothing() {
    let mut m = Memory::test_ram();
    let sram = m.sram.clone();
    let flash = m.flash.clone();
    assert!(m.write_u32(0x3000_0000, 1).is_err());
    assert!(m.write_u32(0x0000_0010, 1).is_err());
    assert!(m.write_u16(0x2000_0001, 1).is_err());
    assert!(m.read_u32(0x2000_0FFE).is_err());
    assert_eq!(m.sram, sram);
    assert_eq!(m.flash, flash);
    assert_eq!(m.write_count, 0);
    assert_eq!(m.read_count, 0);
}

#[test]
fn an_access_may_not_leave_its_region() {
    let mut m = Memory::test_ram();
    m.unalign_trap = false;
    assert_eq!(
        m.read_u32(0x2000_0FFD),
        Err(MemoryFault::BusFault { address: 0x2000_0FFD })
    );
    assert_eq!(m.read_u32(0x2000_0FFC), Ok(0));
    assert_eq!(
        m.read(0x2000_0000, 3),
        Err(MemoryFault::BusFault { address: 0x2000_0000 })
    );
}

#[test]
fn loaded_bytes_are_read_back_from_flash() {
    let mut m = Memory::test_ram();
    m.load_bytes(0x0000_0040, &[1, 2, 3, 4, 5]).unwrap();
    for i in 0..5u32 {
        assert_eq!(m.read_u8(0x40 + i), Ok(i as u8 + 1));
    }
    assert_eq!(m.read_u8(0x45), Ok(0xFF));
    assert!(m.write_u8(0x40, 9).is_err());
}

#[test]
fn erased_flash_reads_ones_and_the_rest_stays() {
    let mut m = Memory::test_ram();
    m.load_bytes(0, &[0x11; 64]).unwrap();
    m.flash_erase_sector(16, 16).unwrap();
    assert_eq!(m.read_u8(15), Ok(0x11));
    assert_eq!(m.read_u8(16), Ok(0xFF));
    assert_eq!(m.read_u8(31), Ok(0xFF));
    assert_eq!(m.read_u8(32), Ok(0x11));
    m.flash_erase_sector(0xFF0, 0x100).unwrap();
    assert_eq!(
        m.flash_erase_sector(0x2000_0000, 4),
        Err(MemoryFault::BusFault { address: 0x2000_0000 })
    );
}

#[test]
fn the_first_protection_region_decides() {
    let mut m = Memory::test_ram();
    let region = |start: u32, write: bool, read: bool| MpuRegion {
        index: 0,
        start,
        size: 0x100,
        read,
        write,
        execute: true,
        privileged_only: false,
    };
    m.mpu_add_region(region(0x2000_0000, true, true));
    m.mpu_add_region(region(0x2000_0080, false, false));
    assert_eq!(m.write_u32(0x2000_0180 - 0x80, 1), Ok(()));
    m.mpu_enabled = true;
    assert_eq!(m.write_u32(0x2000_0090, 1), Ok(()));
    assert_eq!(
        m.read_u32(0x2000_0110),
        Err(MemoryFault::MemManage { address: 0x2000_0110 })
    );
    m.reset();
    assert_eq!(m.read_u32(0x2000_0110), Ok(0));
}

#[test]
fn faults_as_text() {
    assert_eq!(
        MemoryFault::BusFault { address: 0x3000_0000 }.describe(),
        "BusFault @ 0x30000000"
    );
    assert_eq!(MemoryFault::MemManage { address: 0x2A }.describe(), "MemManage @ 0x2a");
    assert_eq!(MemoryFault::UnalignedAccess { address: 1 }.describe(), "Unaligned @ 0x1");
    assert_eq!(MemoryFault::ReadOnlyWrite { address: 0 }.describe(), "ReadOnlyWrite @ 0x0");
}

#[test]
fn vtor_and_stkalign_withstand_writes() {
    let mut s = SystemBlock::new();
    s.write(0xE000_ED08, 4, 0xFFFF_FFFF);
    s.write(0xE000_ED14, 4, 0);
    assert_eq!(s.vtor(), 0);
    assert!(s.ccr_stkalign());
    assert_eq!(s.read(0xE000_ED14, 4), 0x200);
}

#[test]
fn pending_bits_are_set_and_cleared_one_by_one() {
    let mut s = SystemBlock::new();
    s.pend_exception(11);
    s.pend_exception(14);
    assert_eq!(s.pended_bits(), (1 << 11) | (1 << 14));
    s.unpend_exception(11);
    assert_eq!(s.pended_bits(), 1 << 14);
    s.pend_exception(0);
    s.pend_exception(16);
    assert_eq!(s.pended_bits(), 1 << 14);
}

#[test]
fn systick_fires_every_load_plus_one_cycles() {
    let mut s = SystemBlock::new();
    s.write(0xE000_E014, 4, 9);
    s.write(0xE000_E010, 4, 3);
    let mut fired = Vec::new();
    for cycle in 1..=30u32 {
        if s.tick(1) == Some(15) {
            fired.push(cycle);
        }
        s.unpend_exception(15);
    }
    assert_eq!(fired, vec![10, 20, 30]);
}

#[test]
fn countflag_is_read_once() {
    let mut s = SystemBlock::new();
    s.write(0xE000_E014, 4, 1);
    s.write(0xE000_E010, 4, 1);
    s.tick(2);
    assert_eq!(s.read(0xE000_E010, 4), SYST_COUNTFLAG | 1);
    assert_eq!(s.read(0xE000_E010, 4), 1);
}

#[test]
fn icsr_shows_the_active_exception() {
    let mut s = SystemBlock::new();
    s.set_vectactive(15);
    assert_eq!(s.read(0xE000_ED04, 4), 15);
    assert_eq!(s.read(0xE000_ED04, 1), 15);
}

#[test]
fn double_registers_lie_over_single_ones() {
    let mut f = FpuRegisters::new();
    f.write_d(15, 0x1111_2222_3333_4444);
    assert_eq!(f.read_s(30), 0x3333_4444);
    assert_eq!(f.read_s(31), 0x1111_2222);
    assert_eq!(f.read_s(29), 0);
    f.write_s(31, 7);
    assert_eq!(f.read_d(15), 0x7_3333_4444);
}

#[test]
fn recorded_exceptions_stay() {
    let mut f = FpuRegisters::new();
    f.fpscr = 3 << 22;
    f.apply_flags(&FpOpFlags { ioc: true, ..FpOpFlags::default() });
    f.apply_flags(&FpOpFlags { ixc: true, qc: true, ..FpOpFlags::default() });
    f.apply_flags(&FpOpFlags::default());
    assert_eq!(f.fpscr, (3 << 22) | 0x0800_0011);
}

#[test]
fn exact_results_do_not_depend_on_the_mode() {
    for mode in 0..4u32 {
        let mut f = FpuRegisters::new();
        f.fpscr = mode << 22;
        let (r, flags) = f64_mul(&f, 1.5f64.to_bits(), (-2.5f64).to_bits());
        assert_eq!(r, (-3.75f64).to_bits());
        assert!(!flags.ixc);
        let (r, flags) = f32_mul(&f, 1.5f32.to_bits(), (-2.5f32).to_bits());
        assert_eq!(r, (-3.75f32).to_bits());
        assert!(!flags.ixc);
    }
}

#[test]
fn directed_modes_bracket_the_nearest_result() {
    let result = |mode: u32| {
        let mut f = FpuRegisters::new();
        f.fpscr = mode << 22;
        f64_div(&f, 2.0f64.to_bits(), 3.0f64.to_bits()).0
    };
    let (nearest, up, down, zero) = (result(0), result(1), result(2), result(3));
    assert_eq!(up, down + 1);
    assert_eq!(zero, down);
    assert!(down <= nearest && nearest <= up);
    assert_eq!(nearest, (2.0f64 / 3.0).to_bits());
}

#[test]
fn addition_and_multiplication_commute() {
    let f = FpuRegisters::new();
    let (a, b) = (0.1f32.to_bits(), 1e-40f32.to_bits());
    assert_eq!(f32_add(&f, a, b), f32_add(&f, b, a));
    assert_eq!(f32_mul(&f, a, b), f32_mul(&f, b, a));
    let (a, b) = (0.1f64.to_bits(), (-7.25f64).to_bits());
    assert_eq!(f64_add(&f, a, b), f64_add(&f, b, a));
}

#[test]
fn widening_is_exact_and_undone_by_narrowing() {
    for x in [0.0f32, -0.0, 1.0, -0.1, 1e-45, 3.4e38, f32::INFINITY, f32::MIN_POSITIVE] {
        let wide = widen(x.to_bits());
        assert_eq!(wide, (x as f64).to_bits());
        for mode in 0..4u32 {
            let mut f = FpuRegisters::new();
            f.fpscr = mode << 22;
            assert_eq!(cvt_f64_to_f32(&f, wide).0, x.to_bits());
        }
    }
}

#[test]
fn hardware_agrees_on_single_precision() {
    let f = FpuRegisters::new();
    let values = [0.0f32, 1.0, -1.5, 3.3, 1e-44, -7.1e-39, 2.5e38, -1e20, 0.333];
    for a in values {
        for b in values {
            assert_eq!(f32_add(&f, a.to_bits(), b.to_bits()).0, (a + b).to_bits());
            assert_eq!(f32_mul(&f, a.to_bits(), b.to_bits()).0, (a * b).to_bits());
            if b != 0.0 {
                assert_eq!(f32_div(&f, a.to_bits(), b.to_bits()).0, (a / b).to_bits());
            }
        }
    }
}

#[test]
fn hardware_agrees_on_double_precision() {
    let f = FpuRegisters::new();
    let values = [0.0f64, 1.0, -1.5, 3.3, 5e-324, -7.1e-310, 1.7e308, -1e200, 0.333];
    for a in values {
        for b in values {
            assert_eq!(f64_add(&f, a.to_bits(), b.to_bits()).0, (a + b).to_bits());
            assert_eq!(f64_mul(&f, a.to_bits(), b.to_bits()).0, (a * b).to_bits());
            if b != 0.0 {
                assert_eq!(f64_div(&f, a.to_bits(), b.to_bits()).0, (a / b).to_bits());
            }
        }
    }
}

#[test]
fn saturation_keeps_what_fits_and_clamps_the_rest() {
    assert_eq!(ssat(127, 8), 127);
    assert_eq!(ssat(128, 8), 127);
    assert_eq!(ssat(-129, 8), -128);
    assert_eq!(usat(-5, 4), 0);
    assert_eq!(usat(31, 4), 31);
    assert_eq!(usat(32, 4), 31);
}

#[test]
fn condition_numbers_round_trip() {
    for n in 0..16u8 {
        match Cond::from_bits(n) {
            Some(c) => assert_eq!(c.to_bits(), n),
            None => assert_eq!(n, 15),
        }
    }
}

#[test]
fn opposite_conditions_take_opposite_branches() {
    let mut d = Decoder::new();
    for flags in 0..16u32 {
        for pair in 0..7u16 {
            let mut taken = 0;
            for cond in [2 * pair, 2 * pair + 1] {
                let (mut e, mut cpu, mut mem) = bare_core();
                cpu.xpsr = flags << 28;
                let instr = d.decode_halfword(0xD000 | (cond << 8) | 4, 0);
                if e.execute(&mut cpu, &mut mem, &instr) != ExecOutcome::Continue {
                    taken += 1;
                }
            }
            assert_eq!(taken, 1);
        }
    }
}

#[test]
fn an_it_block_has_as_many_instructions_as_its_mask_says() {
    for (mask, n) in [(0b1000u8, 1u8), (0b0100, 2), (0b1100, 2), (0b0010, 3), (0b0001, 4)] {
        let (mut e, mut cpu, mut mem) = bare_core();
        let it = Instruction::It { cond: Cond::Eq, mask };
        assert_eq!(e.execute(&mut cpu, &mut mem, &it), ExecOutcome::Continue);
        let mut seen = 0;
        while e.it_active() {
            e.execute(&mut cpu, &mut mem, &Instruction::Nop);
            seen += 1;
        }
        assert_eq!(seen, n);
    }
}

#[test]
fn a_skipped_instruction_changes_nothing() {
    let (mut e, mut cpu, mut mem) = bare_core();
    e.execute(&mut cpu, &mut mem, &Instruction::It { cond: Cond::Eq, mask: 8 });
    let store = Instruction::Str {
        rt: 0,
        rn: 1,
        offset: LoadStoreOffset::Immediate(0),
        width: AccessWidth::Word,
    };
    cpu.regs[1] = 0x3000_0000;
    assert_eq!(e.execute(&mut cpu, &mut mem, &store), ExecOutcome::Skipped);
    assert_eq!(mem.write_count, 0);
    assert!(matches!(
        e.execute(&mut cpu, &mut mem, &store),
        ExecOutcome::Fault { reason: FaultReason::MemManage { address: 0x3000_0000 } }
    ));
}

#[test]
fn calls_return_to_the_next_instruction() {
    for (instr, lr) in [
        (Instruction::BranchLink { target: 0x200 }, 0x105),
        (Instruction::BranchLinkExchangeImm { target: 0x200 }, 0x105),
        (Instruction::BranchLinkExchange { rm: 3 }, 0x103),
    ] {
        let (mut e, mut cpu, mut mem) = bare_core();
        cpu.regs[15] = 0x100;
        cpu.regs[3] = 0x201;
        assert_eq!(e.execute(&mut cpu, &mut mem, &instr), ExecOutcome::Branch { target: 0x200 });
        assert_eq!(cpu.regs[14], lr);
    }
}

#[test]
fn a_register_call_comes_back_behind_itself() {
    let (mut engine, mut cpu, mut mem, mut nvic) = machine(&[0x4798, 0x2107, 0xE7FE]);
    mem.flash[0x200..0x204].copy_from_slice(&[0x2A, 0x20, 0x70, 0x47]);
    cpu.regs[3] = 0x201;
    engine.max_instructions = 4;
    assert_eq!(engine.run(&mut cpu, &mut mem, &mut nvic), EngineResult::LimitReached);
    assert_eq!((cpu.regs[0], cpu.regs[1]), (0x2A, 7));
    assert_eq!(cpu.regs[15], 0x104);
}

#[test]
fn frames_with_floating_point_registers_are_counted() {
    for (add, count) in [([0xEE30, 0x0A81], 1), ([0xBF00, 0xBF00], 0)] {
        let (mut engine, mut cpu, mut mem, mut nvic) =
            machine(&[add[0], add[1], 0xDF00, 0xE7FE]);
        set_vector(&mut mem, 11, 0x200);
        mem.flash[0x200..0x204].copy_from_slice(&[0x00, 0xBF, 0x70, 0x47]);
        cpu.cpacr = 0x00F0_0000;
        engine.max_instructions = 4 - count;
        assert_eq!(engine.run(&mut cpu, &mut mem, &mut nvic), EngineResult::LimitReached);
        assert_eq!(nvic.current_exception, 11);
        assert_eq!((engine.stats.fpu_frames, engine.stats.fpu_exc_returns), (count, 0));
        assert_eq!(cpu.regs[14], if count == 1 { 0xFFFF_FFE9 } else { 0xFFFF_FFF9 });
        engine.max_instructions = 1;
        assert_eq!(engine.run(&mut cpu, &mut mem, &mut nvic), EngineResult::LimitReached);
        assert_eq!(nvic.current_exception, 0);
        assert_eq!((engine.stats.fpu_frames, engine.stats.fpu_exc_returns), (count, count));
        assert_eq!((engine.stats.exceptions, engine.stats.faults), (2, 0));
    }
}

#[test]
fn floating_point_needs_access() {
    let (mut e, mut cpu, mut mem) = bare_core();
    let mut d = Decoder::new();
    cpu.cpacr = 0;
    cpu.regs[15] = 0x40;
    let vadd = d.decode_word(0xEE30_0A81, 0x40);
    assert_eq!(
        e.execute(&mut cpu, &mut mem, &vadd),
        ExecOutcome::Fault { reason: FaultReason::UsageFault { address: 0x40 } }
    );
    assert_eq!(cpu.control, 0);
    cpu.cpacr = 0x00F0_0000;
    assert_eq!(e.execute(&mut cpu, &mut mem, &vadd), ExecOutcome::Continue);
    assert_eq!(cpu.control, 4);
}

#[test]
fn special_registers_read_back() {
    for (reg, v, expected) in [
        (SpecialReg::Msp, 0x2000_0100, 0x2000_0100),
        (SpecialReg::Psp, 0x2000_0200, 0x2000_0200),
        (SpecialReg::Primask, 0xFF, 1),
        (SpecialReg::Faultmask, 0xFE, 0),
        (SpecialReg::Basepri, 0x1234, 0x34),
        (SpecialReg::Control, 0xFF, 3),
        (SpecialReg::Apsr, 0xFFFF_FFFF, 0xF800_0000),
    ] {
        let (mut e, mut cpu, mut mem) = bare_core();
        cpu.regs[1] = v;
        e.execute(&mut cpu, &mut mem, &Instruction::MsrMrs { rt: 1, reg, read: false });
        e.execute(&mut cpu, &mut mem, &Instruction::MsrMrs { rt: 2, reg, read: true });
        assert_eq!(cpu.regs[2], expected);
    }
}

#[test]
fn loads_extend_what_stores_left() {
    let (mut e, mut cpu, mut mem) = bare_core();
    let mut d = Decoder::new();
    cpu.regs[1] = 0x2000_0000;
    cpu.regs[0] = 0x1234_85F6;
    // strh.w r0, [r1]; ldrsh.w r3, [r1]; ldrsb.w r4, [r1]; ldrh.w r5, [r1]
    for word in [0xF8A1_0000u32, 0xF9B1_3000, 0xF991_4000, 0xF8B1_5000] {
        let instr = d.decode_word(word, 0);
        assert_eq!(e.execute(&mut cpu, &mut mem, &instr), ExecOutcome::Continue);
    }
    assert_eq!(cpu.regs[3], 0xFFFF_85F6);
    assert_eq!(cpu.regs[4], 0xFFFF_FFF6);
    assert_eq!(cpu.regs[5], 0x85F6);
}

#[test]
fn pop_undoes_push() {
    let (mut e, mut cpu, mut mem) = bare_core();
    let mut d = Decoder::new();
    cpu.regs[13] = 0x2000_0100;
    cpu.regs[0] = 10;
    cpu.regs[3] = 13;
    cpu.regs[7] = 17;
    cpu.regs[14] = 0x0000_0201;
    // push {r0, r3, r7, lr}
    let push = d.decode_halfword(0xB589, 0);
    assert_eq!(e.execute(&mut cpu, &mut mem, &push), ExecOutcome::Continue);
    assert_eq!(cpu.regs[13], 0x2000_00F0);
    for r in [0, 1, 3, 7, 14] {
        cpu.regs[r] = 0xDEAD;
    }
    // pop {r0, r3, r7, pc}
    let pop = d.decode_halfword(0xBD89, 0);
    assert_eq!(
        e.execute(&mut cpu, &mut mem, &pop),
        ExecOutcome::Branch { target: 0x200 }
    );
    assert_eq!((cpu.regs[0], cpu.regs[3], cpu.regs[7]), (10, 13, 17));
    assert_eq!(cpu.regs[1], 0xDEAD);
    assert_eq!(cpu.regs[13], 0x2000_0100);
}

#[test]
fn the_most_urgent_exception_comes_first() {
    // nop; b .
    let (mut e, mut cpu, mut mem, mut nvic) = machine(&[0xBF00, 0xE7FE]);
    for n in [14, 15, 20, 21] {
        set_vector(&mut mem, n, 0x100);
    }
    mem.write_u32(0xE000_ED20, 0x40C0_0000).unwrap();
    mem.write_u32(0xE000_ED04, (1 << 28) | (1 << 26)).unwrap();
    nvic.enabled[0] = 0x30;
    nvic.pending[0] = 0x30;
    nvic.priority[4] = 0x40;
    nvic.priority[5] = 0x40;
    e.max_instructions = 1;
    e.run(&mut cpu, &mut mem, &mut nvic);
    assert_eq!(nvic.current_exception, 15);
    assert_eq!(nvic.pending[0], 0x30);
}

#[test]
fn an_exception_of_the_same_priority_waits() {
    let (mut e, mut cpu, mut mem, mut nvic) = machine(&[0xBF00, 0xE7FE]);
    set_vector(&mut mem, 16, 0x100);
    set_vector(&mut mem, 17, 0x100);
    nvic.enabled[0] = 3;
    nvic.priority[0] = 8;
    nvic.priority[1] = 8;
    nvic.pending[0] = 1;
    e.max_instructions = 1;
    e.run(&mut cpu, &mut mem, &mut nvic);
    assert_eq!(nvic.current_exception, 16);
    nvic.pending[0] = 2;
    e.max_instructions = 10;
    e.run(&mut cpu, &mut mem, &mut nvic);
    assert_eq!(nvic.current_exception, 16);
    nvic.priority[1] = 7;
    e.max_instructions = 1;
    e.run(&mut cpu, &mut mem, &mut nvic);
    assert_eq!(nvic.current_exception, 17);
    assert_eq!(nvic.nesting, vec![0, 16]);
}

#[test]
fn nmi_is_never_masked() {
    let (mut e, mut cpu, mut mem, mut nvic) = machine(&[0xBF00, 0xE7FE]);
    set_vector(&mut mem, 2, 0x100);
    cpu.primask = 1;
    cpu.faultmask = 1;
    cpu.basepri = 1;
    mem.system_block_mut().unwrap().pend_exception(3);
    e.max_instructions = 1;
    e.run(&mut cpu, &mut mem, &mut nvic);
    assert_eq!(nvic.current_exception, 0);
    mem.system_block_mut().unwrap().pend_exception(2);
    e.run(&mut cpu, &mut mem, &mut nvic);
    assert_eq!(nvic.current_exception, 2);
}

#[test]
fn a_handler_that_returns_gives_back_the_context() {
    // svc #0; b .
    let (mut e, mut cpu, mut mem, mut nvic) = machine(&[0xDF00, 0xE7FE]);
    set_vector(&mut mem, 11, 0x180);
    mem.flash[0x180] = 0x70;
    mem.flash[0x181] = 0x47;
    for i in 0..13 {
        cpu.regs[i] = 0x100 + i as u32;
    }
    cpu.regs[14] = 0x55;
    cpu.xpsr = 0xA100_0000;
    cpu.msp = 0x2000_0FFC;
    cpu.regs[13] = cpu.msp;
    let before = cpu.regs;
    e.step(&mut cpu, &mut mem, &mut nvic);
    assert_eq!(nvic.current_exception, 11);
    assert_eq!(cpu.xpsr & 0x1FF, 11);
    assert_eq!(cpu.regs[14], 0xFFFF_FFF9);
    assert_eq!(cpu.regs[15], 0x180);
    assert_eq!(cpu.msp, 0x2000_0FD8);
    e.step(&mut cpu, &mut mem, &mut nvic);
    assert_eq!(nvic.current_exception, 0);
    assert_eq!(cpu.regs[..15], before[..15]);
    assert_eq!(cpu.regs[15], 0x102);
    assert_eq!(cpu.msp, 0x2000_0FFC);
    assert_eq!(cpu.xpsr, 0xA100_0000);
}

#[test]
fn a_run_stops_at_its_limit_and_at_a_fault() {
    let (mut e, mut cpu, mut mem, mut nvic) = machine(&[0xE7FE]);
    e.max_instructions = 25;
    let r = e.run(&mut cpu, &mut mem, &mut nvic);
    assert_eq!(r, EngineResult::LimitReached);
    assert_eq!(r.exit_code(), 0);
    assert_eq!(e.stats.instructions, 25);
    cpu.regs[15] = 0x3000_0000;
    let r = e.run(&mut cpu, &mut mem, &mut nvic);
    assert_eq!(
        r,
        EngineResult::Fault { reason: FaultReason::BusFault { address: 0x3000_0000 } }
    );
    assert_eq!(r.exit_code(), 1);
    assert_eq!(e.stats.faults, 1);
}

#[test]
fn a_run_ends_at_its_limit() {
    // b . at 0x100
    let (mut e, mut cpu, mut mem, mut nvic) = machine(&[0xE7FE]);
    e.max_instructions = 7;
    for total in [7, 14] {
        assert_eq!(e.run(&mut cpu, &mut mem, &mut nvic), EngineResult::LimitReached);
        assert_eq!(e.stats.instructions, total);
    }
    e.max_instructions = 0;
    let reads = mem.read_count;
    assert_eq!(e.run(&mut cpu, &mut mem, &mut nvic), EngineResult::LimitReached);
    assert_eq!((e.stats.instructions, mem.read_count, cpu.regs[15]), (14, reads, 0x100));
}

#[test]
fn a_row_of_entries_ends_on_the_priority_registers() {
    let (mut e, mut cpu, mut mem, mut nvic) = machine(&[0xE7FE]);
    for number in [14, 15] {
        set_vector(&mut mem, number, 0x100);
        mem.system_block_mut().unwrap().pend_exception(number as u8);
    }
    // The frames fall on SHPR1 to SHPR3.
    cpu.msp = 0xE000_ED40;
    cpu.regs[0] = 0xFFFF_FFFF;
    e.max_instructions = 3;
    assert_eq!(e.run(&mut cpu, &mut mem, &mut nvic), EngineResult::LimitReached);
    assert_eq!(e.stats.instructions, 3);
    assert!(e.stats.exceptions >= 1);
}

#[test]
fn smlal_multiplies_signed_numbers() {
    let (mut e, mut cpu, mut mem) = bare_core();
    cpu.regs[0] = 5;
    cpu.regs[2] = 0xFFFF_FFFE;
    cpu.regs[3] = 3;
    // smlal r0, r1, r2, r3
    let instr = Decoder::new().decode_word(0xFBC2_0103, 0);
    e.execute(&mut cpu, &mut mem, &instr);
    assert_eq!((cpu.regs[0], cpu.regs[1]), (0xFFFF_FFFF, 0xFFFF_FFFF));
}

#[test]
fn entering_and_leaving_nests() {
    let mut n = Nvic::new();
    n.pending[1] = 0x3;
    n.enter_exception(15);
    n.enter_exception(16 + 32);
    assert_eq!(n.current_exception, 48);
    assert_eq!(n.pending[1], 0x2);
    assert_eq!(n.active[1], 0x1);
    assert_eq!(n.events[0].irq, 0);
    assert_eq!((n.events[1].irq, n.events[1].nesting_level), (32, 2));
    n.exit_exception();
    assert_eq!(n.current_exception, 15);
    assert_eq!(n.active[1], 0);
    n.exit_exception();
    n.exit_exception();
    assert_eq!(n.current_exception, 0);
}

#[test]
fn addresses_round_trip() {
    for n in [0u32, 9, 10, 0xABC, 0x4000_4000, u32::MAX] {
        let mut hex = String::new();
        push_hex(&mut hex, n as u64);
        assert_eq!(hex, format!("{n:#x}"));
        assert_eq!(parse_hex_u32(&hex), Ok(n));
        let mut dec = String::new();
        push_decimal(&mut dec, n as u64);
        assert_eq!(dec, n.to_string());
        assert_eq!(parse_hex_u32(&dec), Ok(n));
    }
}

#[test]
fn characters_leave_the_uart_in_order() {
    let mut u = CmsdkUart::with_echo(0x4000_4000, true);
    for b in [0x41u32, 0x142, 0x43] {
        u.write(0x4000_4000, 1, b);
        u.write(0x4000_4010, 4, b);
    }
    assert_eq!(u.output(), b"ABC");
    assert_eq!(u.bauddiv(), 0x43);
    assert!(u.echo());
    assert_eq!(u.take_output(), b"ABC");
    assert_eq!(u.tx_count(), 3);
}

fn profile(memory: Vec<MemoryDef>, peripherals: Vec<PeripheralDef>) -> ChipProfile {
    ChipProfile {
        name: "X".to_string(),
        core: CoreDef { core_type: "Cortex-M4F".to_string(), default_freq_hz: 1 },
        memory,
        peripherals,
        clock: ClockTree { source_hz: 1, apb1_hz: 1, apb2_hz: 1 },
    }
}

fn region(name: &str, start: u32, size: u32, kind: &str) -> MemoryDef {
    MemoryDef {
        name: name.to_string(),
        start,
        size,
        region_type: kind.to_string(),
        writable: true,
    }
}

#[test]
fn overlaps_are_errors_and_conflicts_warnings() {
    let stub = |name: &str, base_address: u32| PeripheralDef {
        name: name.to_string(),
        base_address,
        model: "stub".to_string(),
    };
    let p = profile(
        vec![
            region("A", 0x1000, 0x1000, "Sram"),
            region("B", 0x2000, 0x1000, "Sram"),
            region("C", 0x2800, 0x1000, "Sram"),
        ],
        vec![stub("U", 0x4000_0000), stub("V", 0x4000_1000), stub("W", 0x4000_0000)],
    );
    let r = validate(&p);
    assert!(!r.is_valid());
    assert_eq!(
        r.errors,
        vec!["内存区域重叠: B (0x2000-0x3000) 与 C (0x2800-0x3800)".to_string()]
    );
    assert_eq!(
        r.warnings,
        vec!["外设地址冲突: U 与 W 基地址相同 (0x40000000)".to_string()]
    );
    assert_eq!(r.passed, vec!["内存区域 3 个检查完成".to_string()]);
    let mut swapped = p.clone();
    swapped.memory.reverse();
    assert_eq!(
        validate(&swapped).errors,
        vec!["内存区域重叠: C (0x2800-0x3800) 与 B (0x2000-0x3000)".to_string()]
    );
}

#[test]
fn a_profile_gives_a_memory_map() {
    let mut m = memory_from_profile(&S32K312::new());
    assert_eq!(m.read_u32(0x003F_FFFC), Ok(0xFFFF_FFFF));
    assert_eq!(m.read_u32(0x203F_FFFC), Ok(0));
    assert_eq!(m.read_u32(0xE000_ED00), Ok(0x410F_C241));
    assert_eq!(
        m.read_u32(0x2040_0000),
        Err(MemoryFault::BusFault { address: 0x2040_0000 })
    );
    assert_eq!(
        m.write_u32(0, 1),
        Err(MemoryFault::ReadOnlyWrite { address: 0 })
    );
    let small = profile(
        vec![region("R", 0x100, 0x10, "Ccm"), region("S", 0x200, 0x20, "Other")],
        Vec::new(),
    );
    let mut m = memory_from_profile(&small);
    assert_eq!(m.ccm.len(), 0x10);
    assert_eq!(m.sram.len(), 0);
    assert!(m.peripherals.is_empty());
    m.write_u8(0x10F, 3).unwrap();
    assert_eq!(m.read_u8(0x10F), Ok(3));
}

#[test]
fn a_profile_with_a_uart() {
    let mut m = memory_with_uart(&S32K312::new(), 0x4000_4000);
    m.write_u32(0x4000_4000, 0x21).unwrap();
    let uart = m.peripheral_mut_by_name("CMSDK-APB-UART").unwrap().as_uart_mut().unwrap();
    assert_eq!(uart.output(), b"!");
    assert!(uart.echo());
    assert!(m.peripheral_mut_by_name("SYSTEM-BLOCK").is_some());
    assert!(m.peripheral_mut_by_name("GPIO").is_none());
}

#[test]
fn only_known_chips_have_a_profile() {
    assert_eq!(chip_profile("S32K312").unwrap().core.core_type, "Cortex-M4F");
    assert!(chip_profile("S32K311").is_none());
    assert!(chip_profile("").is_none());
}

#[test]
fn misaligned_accesses_are_refused_everywhere() {
    let mut m = Memory::m4f_default();
    for addr in [0x2000_0001u32, 0x4000_0003, 0x3000_0001, 0xE000_E011] {
        let fault = MemoryFault::UnalignedAccess { address: addr };
        assert_eq!(m.read_u32(addr), Err(fault));
        assert_eq!(m.write_u16(addr, 1), Err(fault));
    }
}

#[test]
fn watchpoints_record_what_touches_them() {
    let mut m = Memory::test_ram();
    m.watchpoint_add(Watchpoint {
        address: 0x2000_0012,
        size: 2,
        on_write: false,
        on_read: true,
    });
    m.write_u32(0x2000_0010, 1).unwrap();
    assert_eq!(m.watchpoint_hit, None);
    m.read_u16(0x2000_0010).unwrap();
    assert_eq!(m.watchpoint_hit, None);
    m.read_u32(0x2000_0010).unwrap();
    assert_eq!(m.watchpoint_hit, Some(0x2000_0010));
    m.read_u8(0x2000_0013).unwrap();
    assert_eq!(m.watchpoint_hit, Some(0x2000_0013));
}

#[test]
fn placing_bytes_is_not_counted() {
    let mut m = Memory::test_ram();
    m.load_bytes(0x2000_0000, &[1, 2, 3]).unwrap();
    assert_eq!((m.read_count, m.write_count), (0, 0));
    m.read_u8(0x2000_0000).unwrap();
    assert_eq!((m.read_count, m.write_count), (1, 0));
}

#[test]
fn barriers_change_nothing() {
    let mut d = Decoder::new();
    for word in [0xF3BF_8F4Fu32, 0xF3BF_8F5F, 0xF3BF_8F6F, 0xF3AF_8000] {
        let (mut e, mut cpu, mut mem) = bare_core();
        cpu.regs[3] = 3;
        cpu.xpsr = 0x9000_0000;
        let instr = d.decode_word(word, 0);
        assert_eq!(e.execute(&mut cpu, &mut mem, &instr), ExecOutcome::Continue);
        assert_eq!((cpu.regs[3], cpu.xpsr, mem.write_count), (3, 0x9000_0000, 0));
    }
}

#[test]
fn handlers_use_the_main_stack() {
    let mut d = Decoder::new();
    // add sp, #8
    let add = d.decode_halfword(0xB002, 0);
    let (mut e, mut cpu, mut mem) = bare_core();
    cpu.control = 1;
    cpu.regs[13] = 0x2000_0100;
    e.execute(&mut cpu, &mut mem, &add);
    assert_eq!((cpu.msp, cpu.psp), (0, 0x2000_0108));
    cpu.xpsr = 11;
    e.execute(&mut cpu, &mut mem, &add);
    assert_eq!((cpu.msp, cpu.psp), (0x2000_0110, 0x2000_0108));
}

#[test]
fn an_immediate_is_one_number_in_both_precisions() {
    assert_eq!(vfp_expand_imm(0x50, false), 0x3E80_0000);
    assert_eq!(vfp_expand_imm(0x50, true), 0x3FD0_0000_0000_0000);
    for imm8 in 0..=255u8 {
        let single = f32::from_bits(vfp_expand_imm(imm8, false) as u32);
        let double = f64::from_bits(vfp_expand_imm(imm8, true));
        assert_eq!(single as f64, double);
    }
}

#[test]
fn multiply_accumulate_reports_its_operands_and_its_rounding() {
    let f = FpuRegisters::new();
    let one = 1.0f32.to_bits();
    for (a, b, c) in [(1, one, one), (one, 1, one), (one, one, 1)] {
        assert!(f32_mul_add(&f, a, b, c, false, false).1.idc);
    }
    assert_eq!(f32_mul_add(&f, 1, one, one, false, false).0, one);
    assert!(f32_mul_add(&f, 1, 0x7FC0_0000, one, false, false).1.idc);
    assert!(!f32_mul_add(&f, one, one, one, false, false).1.idc);
    let done = 1.0f64.to_bits();
    for (a, b, c) in [(1, done, done), (done, 1, done), (done, done, 1)] {
        assert!(f64_mul_add(&f, a, b, c, false, false).1.idc);
    }
    let (r, flags) = f32_mul_add(&f, one, one, 2.0f32.powi(-24).to_bits(), false, false);
    assert_eq!((r, flags.ixc, flags.ioc), (one, true, false));
    assert!(!f32_mul_add(&f, one, one, one, true, false).1.ixc);
    let (r, flags) = f32_mul_add(&f, f32::INFINITY.to_bits(), 0, one, false, false);
    assert_eq!((r, flags.ioc, flags.ixc), (0x7FC0_0000, false, false));
    let (r, flags) = f64_mul_add(&f, f64::INFINITY.to_bits(), 0, done, false, false);
    assert_eq!((r, flags.ioc, flags.ixc), (0x7FF8_0000_0000_0000, false, false));
}

#[test]
fn zero_divided_by_zero_is_invalid() {
    let mut f = FpuRegisters::new();
    for mode in 0..4u32 {
        f.fpscr = mode << 22;
        for (a, b) in [(0, 0), (0, 1), (1, 0), (1, 1)] {
            let (r, flags) = f32_div(&f, a << 31, b << 31);
            assert_eq!((r, flags.ioc, flags.ixc, flags.dzc), (0x7FC0_0000, true, false, false));
            let (r, flags) = f64_div(&f, (a as u64) << 63, (b as u64) << 63);
            assert_eq!(
                (r, flags.ioc, flags.ixc, flags.dzc),
                (0x7FF8_0000_0000_0000, true, false, false)
            );
        }
    }
}

#[test]
fn other_results_that_are_no_number_are_not_invalid() {
    let mut f = FpuRegisters::new();
    let inf = f32::INFINITY.to_bits();
    let dinf = f64::INFINITY.to_bits();
    for mode in 0..4u32 {
        f.fpscr = mode << 22;
        for (r, flags) in [
            f32_add(&f, inf, inf | 0x8000_0000),
            f32_sub(&f, inf, inf),
            f32_mul(&f, inf, 0),
            f32_div(&f, inf, inf),
        ] {
            assert_eq!((r, flags.ioc, flags.ixc, flags.dzc), (0x7FC0_0000, false, true, false));
        }
        for (r, flags) in [
            f64_add(&f, dinf, dinf | 1 << 63),
            f64_sub(&f, dinf, dinf),
            f64_mul(&f, dinf, 0),
            f64_div(&f, dinf, dinf),
        ] {
            assert_eq!(
                (r, flags.ioc, flags.ixc, flags.dzc),
                (0x7FF8_0000_0000_0000, false, mode != 0, false)
            );
        }
    }
}

#[test]
fn fixed_point_saturates_at_its_width() {
    let f = FpuRegisters::new();
    let fixed = |x: f32, fbits: u8, signed: bool, width: u8| {
        let (v, flags) = cvt_f32_to_fixed(&f, x.to_bits(), fbits, signed, width);
        (v, flags.qc, flags.ixc)
    };
    assert_eq!(fixed(1.5, 8, true, 16), (0x180, false, false));
    assert_eq!(fixed(-1.25, 1, true, 16), (0xFFFF_FFFE, false, true));
    assert_eq!(fixed(300.0, 0, false, 8), (255, true, false));
    assert_eq!(fixed(-300.0, 0, true, 8), (0xFFFF_FF80, true, false));
    assert_eq!(fixed(f32::INFINITY, 8, true, 16), (0x7FFF, true, false));
    assert_eq!(fixed(f32::NEG_INFINITY, 8, true, 16), (0xFFFF_8000, true, false));
    assert_eq!(fixed(f32::NEG_INFINITY, 0, false, 16), (0, true, false));
    assert_eq!(fixed(2305843009213693952.0, 0, true, 62), (0xFFFF_FFFF, true, false));
    assert_eq!(fixed(1152921504606846976.0, 0, true, 62), (0, false, false));
    assert_eq!(fixed(4611686018427387904.0, 0, true, 62), (0xFFFF_FFFF, true, false));
    assert_eq!(cvt_fixed_to_f32(&f, 0xFF80, 8, true, 16).0, (-0.5f32).to_bits());
    assert_eq!(cvt_fixed_to_f32(&f, 0xFFFF_FFFF, 0, false, 32).0, 4294967296.0f32.to_bits());
}

/// A word that reads back what was written, and counts its reads.
struct Latch {
    name: &'static str,
    value: u32,
    reads: u32,
}

impl BusDevice for Latch {
    fn model(&self) -> DeviceModel {
        unreachable!("a device is described in proofs only")
    }

    fn name(&self) -> &'static str {
        self.name
    }

    fn base_address(&self) -> u32 {
        0x4000_2000
    }

    fn window_size(&self) -> u32 {
        8
    }

    fn read(&mut self, addr: u32, _width: u32) -> u32 {
        self.reads += 1;
        if addr == 0x4000_2000 {
            self.value
        } else {
            self.reads
        }
    }

    fn write(&mut self, _addr: u32, _width: u32, val: u32) {
        self.value = val;
    }
}

#[test]
fn a_device_of_another_kind_serves_its_window() {
    let mut m = Memory::m4f_default();
    m.attach_peripheral(SystemBlock::new());
    m.attach_peripheral(Device::Custom(Box::new(Latch { name: "LATCH", value: 5, reads: 0 })));
    m.attach_peripheral(CmsdkUart::new(0x4000_2000));
    assert_eq!(m.read_u32(0x4000_2000), Ok(5));
    m.write_u16(0x4000_2000, 0xABCD).unwrap();
    assert_eq!(m.read_u32(0x4000_2000), Ok(0xABCD));
    assert_eq!(m.read_u8(0x4000_2001), Ok(3));
    assert_eq!(m.read_u32(0x4000_2008), Ok(0));
    let latch = m.peripheral_mut_by_name("LATCH").unwrap();
    assert_eq!((latch.base_address(), latch.window_size()), (0x4000_2000, 8));
    assert!(latch.as_uart_mut().is_none());
}

#[test]
fn a_part_of_ctrl_keeps_countflag() {
    let mut s = SystemBlock::new();
    s.write(0xE000_E014, 4, 1);
    s.write(0xE000_E010, 4, 1);
    s.tick(2);
    assert_eq!(s.read(0xE000_E012, 1), 1);
    assert_eq!(s.read(0xE000_E012, 2), 1);
    assert_eq!(s.read(0xE000_E010, 4), SYST_COUNTFLAG | 1);
    assert_eq!(s.read(0xE000_E012, 1), 0);
    assert_eq!(s.read(0xE000_E01C, 4), 0x8002_7BCA);
}

#[test]
fn the_condition_follows_the_block() {
    let (mut e, mut cpu, mut m) = bare_core();
    assert_eq!(e.it_cond(), Cond::Al);
    e.execute(&mut cpu, &mut m, &Instruction::It { cond: Cond::Ne, mask: 0b0010 });
    let mut seen = Vec::new();
    while e.it_active() {
        seen.push(e.it_cond());
        e.execute(&mut cpu, &mut m, &Instruction::Nop);
    }
    assert_eq!(seen, vec![Cond::Ne, Cond::Eq, Cond::Eq]);
    assert_eq!(e.it_cond(), Cond::Ne);
    e.clear_it();
    assert_eq!(e.it_cond(), Cond::Al);
}

#[test]
fn amounts_beyond_the_encodings_are_executed() {
    let (mut e, mut cpu, mut m) = bare_core();
    cpu.regs[1] = 100;
    cpu.regs[2] = 0x8000_0003;
    let add = Instruction::AddShifted { rd: 0, rn: 1, rm: 2, lsl: 33, flags: false };
    assert_eq!(e.execute(&mut cpu, &mut m, &add), ExecOutcome::Continue);
    assert_eq!(cpu.regs[0], 106);
    let shift = Instruction::Shift {
        rd: 3,
        rm: 2,
        kind: ShiftKind::Lsl,
        amount: ShiftAmount::Immediate(40),
        flags: true,
    };
    e.execute(&mut cpu, &mut m, &shift);
    assert_eq!((cpu.regs[3], cpu.xpsr >> 29), (0, 0b010));
    let field = |width: u8, kind: BitFieldKind| Instruction::BitField { rd: 0, rn: 2, lsb: 0, width, kind };
    e.execute(&mut cpu, &mut m, &field(0, BitFieldKind::Bfi));
    assert_eq!(cpu.regs[0], 106);
    e.execute(&mut cpu, &mut m, &field(40, BitFieldKind::Ubfx));
    assert_eq!(cpu.regs[0], 0x8000_0003);
    e.execute(&mut cpu, &mut m, &Instruction::It { cond: Cond::Eq, mask: 0x10 });
    assert!(!e.it_active());
}

#[test]
fn the_first_device_with_its_name_is_the_system_block() {
    let mut m = Memory::m4f_default();
    m.attach_peripheral(CmsdkUart::new(0x4000_4000));
    assert!(m.system_block().is_none());
    m.attach_peripheral(SystemBlock::new());
    m.attach_peripheral(SystemBlock::new());
    assert!(m.system_block().is_some());
    assert!(m.system_block_mut().is_some());
    let mut shadowed = Memory::m4f_default();
    let other = Latch { name: SystemBlock::NAME, value: 0, reads: 0 };
    shadowed.attach_peripheral(Device::Custom(Box::new(other)));
    shadowed.attach_peripheral(SystemBlock::new());
    assert!(shadowed.system_block().is_none());
    assert!(shadowed.system_block_mut().is_none());
    assert_eq!(shadowed.tick_system(10), None);
}

#[test]
fn a_boxed_device_behaves_as_itself() {
    let mut plain = CmsdkUart::new(0x4000_4000);
    let mut boxed = Device::Custom(Box::new(CmsdkUart::new(0x4000_4000)));
    for (addr, val) in [(0x4000_4008u32, 3u32), (0x4000_4010, 16), (0x4000_4000, 0x41)] {
        plain.write(addr, 4, val);
        boxed.write(addr, 4, val);
    }
    for addr in [0x4000_4000u32, 0x4000_4004, 0x4000_4008, 0x4000_4010] {
        assert_eq!(plain.read(addr, 4), boxed.read(addr, 4));
    }
    assert_eq!(boxed.name(), plain.name());
}
