//! Exception entry, exit, masking and nesting.
use dtwin::CpuState;
use dtwin::engine::{Engine, EngineResult};
use dtwin::memory::Memory;
use dtwin::nvic::Nvic;
use dtwin::system::SystemBlock;

const SCN_A_START: u32 = 0x4A;
const SCN_A_RET: u32 = 0x50;
const SCN_B_START: u32 = 0x54;
const TASK2_BODY: u32 = 0x7A;
const SCN_C_START: u32 = 0x7E;
const SCN_C_SYSTICK_HANDLER: u32 = 0x8E;
const SCN_D_START: u32 = 0x96;
const SCN_E_START: u32 = 0xBC;
const SCN_E_PENDSV_HANDLER: u32 = 0xC6;
const SCN_F_START: u32 = 0xD2;
const SCN_G_START: u32 = 0xD8;
const SCN_G_SVC_HANDLER: u32 = 0xE2;

/// The code of the scenarios, from address 0x42 on.
const CODE: [u16; 82] = [
    // 0x42: SVC handler: mrs r2, ipsr; movs r3, #0x33; bx lr
    0xF3EF, 0x8205, 0x2333, 0x4770,
    // 0x4A: movs r0, #0x11; movs r1, #0x22; svc #0
    0x2011, 0x2122, 0xDF00,
    // 0x50: movs r4, #0x44; b 0x50
    0x2444, 0xE7FD,
    // 0x54: movs r0, #1; msr control, r0; isb
    0x2001, 0xF380, 0x8814, 0xF3BF, 0x8F6F,
    // 0x5E: ldr r1, =ICSR; movs r0, #1; lsls r0, r0, #28; str r0, [r1]; b .
    0x4928, 0x2001, 0x0700, 0x6008, 0xE7FE,
    // 0x68: padding
    0xBF00, 0xBF00, 0xBF00,
    // 0x6E: PendSV handler: ldr r0, =0x20000800; msr psp, r0; bx lr
    0x4825, 0xF380, 0x8809, 0x4770,
    // 0x76: task 1: movs r5, #0x66; b .
    0x2566, 0xE7FE,
    // 0x7A: task 2: movs r5, #0x77; b .
    0x2577, 0xE7FE,
    // 0x7E: ldr r1, =SYST_CSR; movs r0, #100; str r0, [r1, #4]; movs r0, #7; str r0, [r1]
    0x4922, 0x2064, 0x6048, 0x2007, 0x6008,
    // 0x88: nop; b .; nop
    0xBF00, 0xE7FE, 0xBF00,
    // 0x8E: SysTick handler: svc #0; movs r7, #0xC7; bx lr
    0xDF00, 0x27C7, 0x4770,
    // 0x94: SysTick handler: bx lr
    0x4770,
    // 0x96: movs r0, #5; msr basepri, r0
    0x2005, 0xF380, 0x8811,
    // 0x9C: ldr r1, =SYST_CSR; movs r0, #100; str r0, [r1, #4]; movs r0, #7; str r0, [r1]
    0x491A, 0x2064, 0x6048, 0x2007, 0x6008,
    // 0xA6: movs r2, #1; lsls r2, r2, #29
    0x2201, 0x0752,
    // 0xAA: ldr r3, [r2]; cmp r3, #0; beq 0xAA
    0x6813, 0x2B00, 0xD0FC,
    // 0xB0: movs r0, #0; msr basepri, r0; b .; padding
    0x2000, 0xF380, 0x8811, 0xE7FE, 0xBF00, 0xBF00,
    // 0xBC: ldr r1, =ICSR; movs r0, #1; lsls r0, r0, #28; str r0, [r1]; b .
    0x4910, 0x2001, 0x0700, 0x6008, 0xE7FE,
    // 0xC6: PendSV handler: ldr r1, =ICSR; movs r0, #1; lsls r0, r0, #26; str r0, [r1]
    0x490E, 0x2001, 0x0680, 0x6008,
    // 0xCE: movs r6, #0xE6; bx lr
    0x26E6, 0x4770,
    // 0xD2: movs r0, #0xFA; svc #0; b .
    0x20FA, 0xDF00, 0xE7FE,
    // 0xD8: vadd.f32 s0, s0, s1; svc #0; b .; nop
    0xEE30, 0x0A20, 0xDF00, 0xE7FE, 0xBF00,
    // 0xE2: SVC handler: ldr r0, [sp, #32]; bx lr
    0x9808, 0x4770,
];

/// The literals that the code loads, from address 0x100 on: ICSR, a stack, SYST_CSR.
const LITERALS: [u32; 3] = [0xE000_ED04, 0x2000_0800, 0xE000_E010];

/// A core with its code in flash, on the main stack.
fn setup() -> (Engine, CpuState, Memory, Nvic) {
    let mut cpu = CpuState::default();
    let mut mem = Memory::m4f_default();
    mem.attach_peripheral(SystemBlock::new());
    mem.flash[0..4].copy_from_slice(&0x2000_2000u32.to_le_bytes());
    mem.flash[44..48].copy_from_slice(&0x43u32.to_le_bytes());
    mem.flash[56..60].copy_from_slice(&0x6Fu32.to_le_bytes());
    mem.flash[60..64].copy_from_slice(&0x95u32.to_le_bytes());
    for (i, h) in CODE.iter().enumerate() {
        mem.flash[0x42 + 2 * i..0x44 + 2 * i].copy_from_slice(&h.to_le_bytes());
    }
    for (i, w) in LITERALS.iter().enumerate() {
        mem.flash[0x100 + 4 * i..0x104 + 4 * i].copy_from_slice(&w.to_le_bytes());
    }
    cpu.msp = 0x2000_2000;
    cpu.psp = 0x2000_1000;
    cpu.regs[13] = cpu.msp;
    (Engine::new(), cpu, mem, Nvic::new())
}

#[test]
fn svc_entry_exit_restores_context() {
    let (mut eng, mut cpu, mut mem, mut nvic) = setup();
    cpu.regs[15] = SCN_A_START;
    eng.max_instructions = 20;
    let r = eng.run(&mut cpu, &mut mem, &mut nvic);
    assert_eq!(r, EngineResult::LimitReached);

    assert_eq!(cpu.regs[0], 0x11, "r0 现场恢复");
    assert_eq!(cpu.regs[1], 0x22, "r1 现场恢复");
    assert_eq!(cpu.regs[2], 0, "r2 恢复为 SVC 前原值");
    assert_eq!(cpu.regs[3], 0, "r3 恢复为 SVC 前原值");
    assert_eq!(cpu.regs[4], 0x44, "返回后继续执行（PC 槽 = 下一条指令）");
    assert!(
        cpu.regs[15] == SCN_A_RET || cpu.regs[15] == SCN_A_RET + 2,
        "PC 停在返回点循环（交替 0x50/0x52）"
    );
    assert_eq!(nvic.current_exception, 0, "出口切回线程模式");
    assert_eq!(cpu.xpsr & 0x1FF, 0, "线程模式 IPSR=0");
    assert_eq!(eng.stats.faults, 0);

    assert!(eng.stats.exceptions >= 2, "exceptions={}", eng.stats.exceptions);
    assert!(nvic.events.iter().any(|e| e.irq == 0), "SVC 异常事件已记录");

    assert_eq!(mem.read_u32(0x2000_1FE0).unwrap(), 0x11, "帧 r0");
    assert_eq!(mem.read_u32(0x2000_1FE4).unwrap(), 0x22, "帧 r1");
    assert_eq!(mem.read_u32(0x2000_1FF8).unwrap(), SCN_A_RET, "帧 pc = 下一条指令");
    assert_eq!(cpu.msp, 0x2000_2000, "SP 出口后恢复");
}

#[test]
fn pendsv_context_switch_via_psp() {
    let (mut eng, mut cpu, mut mem, mut nvic) = setup();
    cpu.regs[15] = SCN_B_START;
    cpu.psp = 0x2000_1000;

    let frame: [u32; 8] = [0x22, 0x33, 0, 0, 0, 0x2000_0001, TASK2_BODY | 1, 0x0100_0000];
    for (i, v) in frame.iter().enumerate() {
        mem.write_u32(0x2000_0800 + (i as u32) * 4, *v).unwrap();
    }
    eng.max_instructions = 40;
    let r = eng.run(&mut cpu, &mut mem, &mut nvic);
    assert_eq!(r, EngineResult::LimitReached);
    assert_eq!(eng.stats.faults, 0);

    assert_eq!(cpu.regs[0], 0x22, "task2 r0 恢复");
    assert_eq!(cpu.regs[1], 0x33, "task2 r1 恢复");
    assert_eq!(cpu.regs[5], 0x77, "task2 主体已执行");
    assert_eq!(nvic.current_exception, 0, "PendSV 返回线程模式");
    assert_eq!(cpu.control & 1, 1, "EXC_RETURN FD → SPSEL=1（线程+PSP）");
    assert_eq!(cpu.psp, 0x2000_0820, "task2 栈消费 8 字后回写");
}

#[test]
fn nested_exception_svc_in_systick() {
    let (mut eng, mut cpu, mut mem, mut nvic) = setup();
    cpu.regs[15] = SCN_C_START;

    mem.write_u32(0xE000_ED20, 0xFFFF_0000).unwrap();

    mem.flash[60..64].copy_from_slice(&((SCN_C_SYSTICK_HANDLER | 1) as u32).to_le_bytes());
    eng.max_instructions = 600;
    let r = eng.run(&mut cpu, &mut mem, &mut nvic);
    assert_eq!(r, EngineResult::LimitReached);
    assert_eq!(eng.stats.faults, 0);
    assert_eq!(cpu.regs[7], 0xC7, "SysTick handler 在嵌套 SVC 返回后继续执行");
    assert_eq!(nvic.current_exception, 0, "嵌套返回后回线程");

    assert!(
        nvic.events.iter().any(|e| e.nesting_level == 2),
        "存在嵌套深度 2 的事件（嵌套 SVC 入口）"
    );
    assert!(nvic.events.iter().any(|e| e.nesting_level == 1), "SysTick 事件深度 1");
}

#[test]
fn basepri_masks_systick_until_cleared() {
    let (mut eng, mut cpu, mut mem, mut nvic) = setup();
    cpu.regs[15] = SCN_D_START;
    eng.max_instructions = 500;

    mem.write_u32(0xE000_ED20, 0xFFFF_0000).unwrap();
    let r = eng.run(&mut cpu, &mut mem, &mut nvic);
    assert_eq!(r, EngineResult::LimitReached);

    assert_eq!(eng.stats.exceptions, 0, "BASEPRI=5 屏蔽 SysTick(255)");
    assert_eq!(nvic.current_exception, 0);
    let pended = mem.system_block_mut().unwrap().pended_bits();
    assert_ne!(pended & (1 << 15), 0, "SysTick 保持挂起");

    mem.write_u32(0x2000_0000, 1).unwrap();
    let r2 = eng.run(&mut cpu, &mut mem, &mut nvic);
    assert_eq!(r2, EngineResult::LimitReached);
    assert!(eng.stats.exceptions >= 1, "解除屏蔽后 SysTick 进入（exceptions={}）", eng.stats.exceptions);
    assert_eq!(eng.stats.faults, 0);
}

#[test]
fn same_priority_no_preemption() {
    let (mut eng, mut cpu, mut mem, mut nvic) = setup();
    cpu.regs[15] = SCN_E_START;
    mem.write_u32(0xE000_ED20, 0xFFFF_0000).unwrap();

    mem.flash[56..60].copy_from_slice(&((SCN_E_PENDSV_HANDLER | 1) as u32).to_le_bytes());
    eng.max_instructions = 300;
    let r = eng.run(&mut cpu, &mut mem, &mut nvic);
    assert_eq!(r, EngineResult::LimitReached);
    assert_eq!(eng.stats.faults, 0);
    assert_eq!(cpu.regs[6], 0xE6, "PendSV handler 已执行（含 PENDSTSET）");

    let systick_ev = nvic
        .events
        .iter()
        .find(|e| e.nesting_level == 2);
    assert!(systick_ev.is_none(), "SysTick 不得嵌套进 PendSV（同优先级 255）");
    assert!(
        nvic.events.iter().any(|e| e.nesting_level == 1),
        "PendSV 与 SysTick 均从线程（深度 1）进入"
    );
    assert_eq!(nvic.current_exception, 0);
}

#[test]
fn stkalign_sprealign_roundtrip() {
    let (mut eng, mut cpu, mut mem, mut nvic) = setup();
    cpu.regs[15] = SCN_F_START;
    cpu.msp = 0x2000_2004;
    cpu.regs[13] = cpu.msp;
    eng.max_instructions = 20;
    let r = eng.run(&mut cpu, &mut mem, &mut nvic);
    assert_eq!(r, EngineResult::LimitReached);
    assert_eq!(eng.stats.faults, 0);
    assert_eq!(cpu.regs[0], 0xFA, "r0 现场恢复");
    assert!(eng.stats.exceptions >= 2, "SVC 入口+出口（exceptions={}）", eng.stats.exceptions);
    assert_eq!(cpu.msp, 0x2000_2004, "SP 出口恢复原值（含 SPREALIGN 加回）");

    let frame_xpsr = mem.read_u32(0x2000_1FFC).unwrap();
    assert_ne!(frame_xpsr & (1 << 9), 0, "帧 xPSR.SPREALIGN 置位");
    assert_eq!(cpu.xpsr & (1 << 9), 0, "恢复后 SPREALIGN 清除");
}

#[test]
fn primask_faultmask_mask_systick() {
    let (mut eng, mut cpu, mut mem, mut nvic) = setup();
    cpu.regs[15] = SCN_C_START;
    mem.write_u32(0xE000_ED20, 0xFFFF_0000).unwrap();
    cpu.primask = 1;
    eng.max_instructions = 400;
    let r = eng.run(&mut cpu, &mut mem, &mut nvic);
    assert_eq!(r, EngineResult::LimitReached);
    assert_eq!(eng.stats.exceptions, 0, "PRIMASK=1 屏蔽 SysTick(255)");
    assert_eq!(nvic.current_exception, 0);
    let pended = mem.system_block_mut().unwrap().pended_bits();
    assert_ne!(pended & (1 << 15), 0, "SysTick 保持挂起");

    cpu.primask = 0;
    let r2 = eng.run(&mut cpu, &mut mem, &mut nvic);
    assert_eq!(r2, EngineResult::LimitReached);
    assert!(eng.stats.exceptions >= 1, "PRIMASK 清除后 SysTick 进入");
    assert_eq!(eng.stats.faults, 0);

    let (mut eng2, mut cpu2, mut mem2, mut nvic2) = setup();
    cpu2.regs[15] = SCN_C_START;
    mem2.write_u32(0xE000_ED20, 0xFFFF_0000).unwrap();
    cpu2.faultmask = 1;
    eng2.max_instructions = 400;
    let r3 = eng2.run(&mut cpu2, &mut mem2, &mut nvic2);
    assert_eq!(r3, EngineResult::LimitReached);
    assert_eq!(eng2.stats.exceptions, 0, "FAULTMASK=1 屏蔽 SysTick(255)");
    cpu2.faultmask = 0;
    let r4 = eng2.run(&mut cpu2, &mut mem2, &mut nvic2);
    assert_eq!(r4, EngineResult::LimitReached);
    assert!(eng2.stats.exceptions >= 1, "FAULTMASK 清除后 SysTick 进入");
}

#[test]
fn fpu_extended_frame_roundtrip() {
    let (mut eng, mut cpu, mut mem, mut nvic) = setup();
    cpu.regs[15] = SCN_G_START;

    mem.flash[44..48].copy_from_slice(&((SCN_G_SVC_HANDLER | 1) as u32).to_le_bytes());
    cpu.fpu.write_s(0, 1.0f32.to_bits());
    cpu.fpu.write_s(1, 2.0f32.to_bits());
    eng.max_instructions = 30;
    let r = eng.run(&mut cpu, &mut mem, &mut nvic);
    assert_eq!(r, EngineResult::LimitReached);
    assert_eq!(eng.stats.faults, 0);
    assert!(eng.stats.exceptions >= 2, "SVC 入口+出口（exceptions={}）", eng.stats.exceptions);
    assert!(nvic.events.iter().any(|e| e.irq == 0), "SVC 事件已记录");

    assert_eq!(cpu.fpu.read_s(0), 3.0f32.to_bits(), "S0 经扩展帧恢复");
    assert_eq!(cpu.fpu.read_s(1), 2.0f32.to_bits(), "S1 未被破坏");

    assert_eq!(mem.read_u32(0x2000_1FB8).unwrap(), 0x4040_0000, "帧内 S0 = 3.0f32（vadd 结果）");
    assert_eq!(nvic.current_exception, 0);
}
