//! Runs of the engine.
use dtwin::CpuState;
use dtwin::engine::{Engine, EngineResult};
use dtwin::memory::Memory;
use dtwin::nvic::Nvic;
use dtwin::system::SystemBlock;

#[test]
fn engine_steps_through_code() {
    let mut cpu = CpuState::default();
    let mut mem = Memory::test_ram();
    let mut nvic = Nvic::new();
    let mut eng = Engine::new();

    mem.flash[0] = 0x05;
    mem.flash[1] = 0x20;
    mem.flash[2] = 0x00;
    mem.flash[3] = 0xBF;
    cpu.regs[15] = 0;

    eng.step(&mut cpu, &mut mem, &mut nvic);
    assert_eq!(cpu.regs[0], 5);
    assert_eq!(cpu.regs[15], 2);
    assert_eq!(eng.stats.instructions, 1);
}

#[test]
fn engine_full_pipeline_dsp_and_fpu() {
    let mut cpu = CpuState::default();
    let mut mem = Memory::test_ram();
    let mut nvic = Nvic::new();
    let mut eng = Engine::new();
    cpu.regs[15] = 0;
    cpu.regs[1] = 200;
    cpu.fpu.write_s(1, 1.0f32.to_bits());
    cpu.fpu.write_s(2, 2.0f32.to_bits());

    mem.flash[0] = 0x01;
    mem.flash[1] = 0xF3;
    mem.flash[2] = 0x07;
    mem.flash[3] = 0x00;

    mem.flash[4] = 0x30;
    mem.flash[5] = 0xEE;
    mem.flash[6] = 0x81;
    mem.flash[7] = 0x0A;

    assert_eq!(
        eng.step(&mut cpu, &mut mem, &mut nvic),
        EngineResult::Halted
    );
    assert_eq!(
        eng.step(&mut cpu, &mut mem, &mut nvic),
        EngineResult::Halted
    );

    assert_eq!(cpu.regs[0], 127);
    assert_ne!(cpu.xpsr & (1 << 27), 0);
    assert_eq!(cpu.fpu.read_s(0), 3.0f32.to_bits());
    assert_eq!(cpu.regs[15], 8);
    assert_eq!(eng.stats.instructions, 2);
}

#[test]
fn engine_flash_16bit_ldr_str() {
    let mut cpu = CpuState::default();
    let mut mem = Memory::test_ram();
    let mut nvic = Nvic::new();
    let mut eng = Engine::new();
    cpu.regs[15] = 0;
    cpu.regs[1] = 0x2000_0000;
    mem.flash[0] = 0x2A;
    mem.flash[1] = 0x20;
    mem.flash[2] = 0x48;
    mem.flash[3] = 0x60;
    mem.flash[4] = 0x4A;
    mem.flash[5] = 0x68;
    mem.flash[6] = 0x0B;
    mem.flash[7] = 0x79;

    for _ in 0..4 {
        assert_eq!(
            eng.step(&mut cpu, &mut mem, &mut nvic),
            EngineResult::Halted
        );
    }

    assert_eq!(cpu.regs[0], 0x2A);
    assert_eq!(mem.read_u32(0x2000_0004).unwrap(), 0x2A);
    assert_eq!(cpu.regs[2], 0x2A);
    assert_eq!(cpu.regs[3], 0x2A);
    assert_eq!(cpu.regs[15], 8);
}

#[test]
fn e2_it_block_condition_skip() {
    let mut cpu = CpuState::default();
    let mut mem = Memory::test_ram();
    let mut nvic = Nvic::new();
    let mut eng = Engine::new();
    cpu.regs[15] = 0;

    for (i, b) in [
        0x01, 0x20, 0x08, 0xBF, 0x01, 0x21, 0x02, 0x21, 0x14, 0xBF, 0x01, 0x22, 0x02, 0x23,
    ]
    .iter()
    .enumerate()
    {
        mem.flash[i] = *b;
    }

    for _ in 0..7 {
        assert_eq!(eng.step(&mut cpu, &mut mem, &mut nvic), EngineResult::Halted);
    }

    assert_eq!(cpu.regs[0], 1);
    assert_eq!(cpu.regs[1], 2, "it eq 后 moveq 应被跳过");
    assert_eq!(cpu.regs[2], 1, "ite ne 前半 movne 应执行");
    assert_eq!(cpu.regs[3], 0, "ite ne 后半 moveq（翻转条件）应被跳过");
    assert_eq!(cpu.regs[15], 14);
    assert_eq!(eng.stats.instructions, 7);
    assert_eq!(eng.stats.faults, 0);
    assert!(!eng.executor.it_active(), "IT 块结束后状态应清空");
}

#[test]
fn e2_it_block_all_execute() {
    let mut cpu = CpuState::default();
    let mut mem = Memory::test_ram();
    let mut nvic = Nvic::new();
    let mut eng = Engine::new();
    cpu.regs[15] = 0;
    cpu.regs[0] = 0x2000_0000;
    cpu.regs[1] = 0xA1;
    cpu.regs[2] = 0xB2;
    cpu.regs[3] = 0xC3;
    cpu.regs[4] = 0xD4;

    for (i, b) in [
        0x00, 0x25, 0x01, 0xBF, 0x01, 0x60, 0x42, 0x60, 0x83, 0x60, 0xC4, 0x60,
    ]
    .iter()
    .enumerate()
    {
        mem.flash[i] = *b;
    }
    for _ in 0..6 {
        assert_eq!(eng.step(&mut cpu, &mut mem, &mut nvic), EngineResult::Halted);
    }

    assert_eq!(mem.read_u32(0x2000_0000).unwrap(), 0xA1);
    assert_eq!(mem.read_u32(0x2000_0004).unwrap(), 0xB2);
    assert_eq!(mem.read_u32(0x2000_0008).unwrap(), 0xC3);
    assert_eq!(mem.read_u32(0x2000_000C).unwrap(), 0xD4);
    assert_eq!(cpu.regs[15], 12);
    assert!(!eng.executor.it_active());
}

#[test]
fn e2_ite_eq_else_executes() {
    let mut cpu = CpuState::default();
    let mut mem = Memory::test_ram();
    let mut nvic = Nvic::new();
    let mut eng = Engine::new();
    cpu.regs[15] = 0;

    for (i, b) in [0x00, 0x25, 0x0C, 0xBF, 0xA1, 0x21, 0xB2, 0x22].iter().enumerate() {
        mem.flash[i] = *b;
    }
    for _ in 0..4 {
        assert_eq!(eng.step(&mut cpu, &mut mem, &mut nvic), EngineResult::Halted);
    }
    assert_eq!(cpu.regs[1], 0xA1, "instr0 moveq 执行（Z=1，EQ 成立）");

    assert_eq!(cpu.regs[2], 0, "instr1 movne 跳过（16 位 MOVS 块内不更新标志，Z=1 保持）");
    assert!(!eng.executor.it_active());
}

#[test]
fn e2_bkpt_triggers_debug_event() {
    let mut cpu = CpuState::default();
    let mut mem = Memory::test_ram();
    let mut nvic = Nvic::new();
    let mut eng = Engine::new();
    cpu.regs[15] = 0;

    mem.flash[0] = 0x01;
    mem.flash[1] = 0x20;
    mem.flash[2] = 0xAB;
    mem.flash[3] = 0xBE;
    assert_eq!(eng.step(&mut cpu, &mut mem, &mut nvic), EngineResult::Halted);
    assert_eq!(
        eng.step(&mut cpu, &mut mem, &mut nvic),
        EngineResult::DebugEvent
    );
    assert_eq!(eng.stats.exceptions, 1);
    assert_eq!(eng.stats.faults, 0);

    let mut eng2 = Engine::new();
    let mut cpu2 = CpuState::default();
    let mut mem2 = Memory::test_ram();
    let mut nvic2 = Nvic::new();
    cpu2.regs[15] = 0;
    mem2.flash[0] = 0xAB;
    mem2.flash[1] = 0xBE;
    assert_eq!(
        eng2.run(&mut cpu2, &mut mem2, &mut nvic2),
        EngineResult::DebugEvent
    );
}

#[test]
fn e2_bkpt_inside_it_cond_fail_skips() {
    let mut cpu = CpuState::default();
    let mut mem = Memory::test_ram();
    let mut nvic = Nvic::new();
    let mut eng = Engine::new();
    cpu.regs[15] = 0;

    for (i, b) in [0x01, 0x20, 0x08, 0xBF, 0xAB, 0xBE].iter().enumerate() {
        mem.flash[i] = *b;
    }
    for _ in 0..3 {
        assert_eq!(eng.step(&mut cpu, &mut mem, &mut nvic), EngineResult::Halted);
    }
    assert_eq!(eng.stats.exceptions, 0, "条件不成立的 BKPT 被跳过");
    assert_eq!(cpu.regs[15], 6);
}

#[test]
fn e2_it_block_adcs_suppressed_32bit_s_updates() {
    let mut cpu = CpuState::default();
    let mut mem = Memory::test_ram();
    let mut nvic = Nvic::new();
    let mut eng = Engine::new();
    cpu.regs[15] = 0;
    cpu.regs[0] = 0x7FFF_FFFF;
    cpu.regs[1] = 1;
    cpu.regs[2] = 0x7FFF_FFFF;
    cpu.regs[3] = 1;

    for (i, b) in [
        0x00u8, 0x25, 0x08, 0xBF, 0x48, 0x41, 0x08, 0xBF, 0x12, 0xEB, 0x03, 0x00,
    ]
    .iter()
    .enumerate()
    {
        mem.flash[i] = *b;
    }

    for _ in 0..3 {
        assert_eq!(eng.step(&mut cpu, &mut mem, &mut nvic), EngineResult::Halted);
    }

    assert_eq!(cpu.regs[0], 0x8000_0000, "ADCS 结果仍写入");
    assert_ne!(cpu.xpsr & (1 << 30), 0, "Z=1 保持（16 位隐式 S 被抑制）");
    assert_eq!(cpu.xpsr & (1 << 31), 0, "N 未被 ADCS 置位");

    for _ in 0..2 {
        assert_eq!(eng.step(&mut cpu, &mut mem, &mut nvic), EngineResult::Halted);
    }

    assert_ne!(cpu.xpsr & (1 << 31), 0, "ADDS.W 正常更新 N");
    assert_ne!(cpu.xpsr & (1 << 28), 0, "ADDS.W 正常更新 V");
    assert_eq!(cpu.xpsr & (1 << 30), 0, "ADDS.W 清除 Z");
    assert_eq!(cpu.regs[15], 12);
    assert_eq!(eng.stats.faults, 0);
    assert!(!eng.executor.it_active(), "IT 块结束后状态应清空");
}

#[test]
fn e2_it_state_cleared_across_exception() {
    let mut cpu = CpuState::default();
    let mut mem = Memory::m4f_default();
    mem.attach_peripheral(SystemBlock::new());
    let mut nvic = Nvic::new();
    let mut eng = Engine::new();

    cpu.msp = 0x2000_2000;
    cpu.regs[13] = cpu.msp;
    cpu.regs[15] = 0;

    let vec11 = 0x40u32;
    mem.flash[0x2C..0x30].copy_from_slice(&vec11.to_le_bytes());
    mem.flash[0x40] = 0x70;
    mem.flash[0x41] = 0x47;

    for (i, b) in [0x00u8, 0x20, 0x08, 0xBF, 0x00, 0xDF, 0x00, 0xBF]
        .iter()
        .enumerate()
    {
        mem.flash[i] = *b;
    }

    for _ in 0..2 {
        assert_eq!(eng.step(&mut cpu, &mut mem, &mut nvic), EngineResult::Halted);
    }
    assert!(eng.executor.it_active(), "SVC 前 IT 块应处于活跃");

    for _ in 0..2 {
        assert_eq!(eng.step(&mut cpu, &mut mem, &mut nvic), EngineResult::Halted);
    }

    assert!(!eng.executor.it_active(), "异常返回后 IT 状态机应为 0");
    assert_eq!(cpu.xpsr & (0x3F << 10), 0, "xPSR IT 位（bits[15:10]）应为 0");
    assert_eq!(cpu.regs[15], 0x06, "返回 svc 下一条");
    assert_eq!(eng.stats.exceptions, 2, "入口+出口各计 1");
    assert_eq!(eng.stats.faults, 0);

    assert_eq!(nvic.current_exception, 0, "返回线程模式");
}

#[test]
fn e2_systick_tick_pends_exception15() {
    let mut cpu = CpuState::default();

    let mut mem = Memory::m4f_default();
    mem.attach_peripheral(SystemBlock::new());

    for (i, b) in [
        0x04u8, 0x49, 0x07, 0x20, 0x08, 0x60, 0x64, 0x20, 0x48, 0x60, 0x00, 0x20, 0x88,
        0x60, 0x00, 0xBF, 0xFD, 0xE7, 0x00, 0x00, 0x10, 0xE0, 0x00, 0xE0,
    ]
    .iter()
    .enumerate()
    {
        mem.flash[i] = *b;
    }

    let vec15 = 0x21u32;
    mem.flash[60..64].copy_from_slice(&vec15.to_le_bytes());
    mem.flash[0x20] = 0x70;
    mem.flash[0x21] = 0x47;
    let mut nvic = Nvic::new();
    let mut eng = Engine::new();
    eng.max_instructions = 800;
    let r = eng.run(&mut cpu, &mut mem, &mut nvic);
    assert_eq!(r, EngineResult::LimitReached);

    assert!(eng.stats.exceptions >= 4, "exceptions={}", eng.stats.exceptions);
    assert_eq!(eng.stats.faults, 0);
    assert_eq!(nvic.current_exception, 0, "handler bx lr 返回线程模式");

    let sb = mem.system_block_mut().expect("SystemBlock 已挂接");
    assert_eq!(sb.next_pending_exception(), None);
}

#[test]
fn e2_system_region_routes_to_system_block() {
    let mut mem = Memory::m4f_default();
    mem.attach_peripheral(SystemBlock::new());

    mem.write_u32(0xE000_E014, 25000).unwrap();
    assert_eq!(mem.read_u32(0xE000_E014).unwrap(), 25000);

    assert_eq!(mem.read_u32(0xE000_ED00).unwrap(), 0x410F_C241);

    mem.write_u32(0xE000_ED04, 1 << 28).unwrap();
    let sb = mem.system_block_mut().unwrap();
    assert_eq!(sb.next_pending_exception(), Some(14));

    let mut mem2 = Memory::m4f_default();
    mem2.write_u32(0xE000_E018, 0x1234).unwrap();
    assert_eq!(mem2.read_u32(0xE000_E018).unwrap(), 0);
}
