//! The system block.
use dtwin::system::{SYST_COUNTFLAG, SystemBlock};
use dtwin::peripheral::BusDevice;

#[test]
fn systick_ctrl_load_val_basic() {
    let mut sb = SystemBlock::new();

    sb.write(0xE000_E010, 4, 0x7);
    assert_eq!(sb.read(0xE000_E010, 4) & 0x7, 0x7);

    sb.write(0xE000_E014, 4, 100);
    assert_eq!(sb.systick_load(), 100);

    sb.write(0xE000_E018, 4, 0xDEAD);
    assert_eq!(sb.systick_val(), 0);

    assert_eq!(sb.tick(99), None);
    assert_eq!(sb.systick_val(), 2);

    assert_eq!(sb.tick(1), None);
    assert_eq!(sb.systick_val(), 1);

    let p = sb.tick(1);
    assert_eq!(p, Some(15), "TICKINT=1 → 挂起 SysTick");
    assert_eq!(sb.systick_val(), 0);
    assert_ne!(sb.read(0xE000_E010, 4) & SYST_COUNTFLAG, 0, "COUNTFLAG 置位");

    assert_eq!(sb.tick(1), None);
    assert_eq!(sb.systick_val(), 100, "归零后自 LOAD 重载");
}

#[test]
fn systick_read_ctrl_clears_countflag() {
    let mut sb = SystemBlock::new();
    sb.write(0xE000_E010, 4, 0x3);
    sb.write(0xE000_E014, 4, 2);
    let _ = sb.tick(3);
    assert_ne!(sb.read(0xE000_E010, 4) & SYST_COUNTFLAG, 0);

    assert_eq!(sb.read(0xE000_E010, 4) & SYST_COUNTFLAG, 0);
}

#[test]
fn systick_load_zero_no_trigger() {
    let mut sb = SystemBlock::new();
    sb.write(0xE000_E010, 4, 0x7);
    sb.write(0xE000_E014, 4, 0);
    assert_eq!(sb.tick(1000), None, "LOAD=0 不触发");
    assert_eq!(sb.systick_val(), 0);
}

#[test]
fn systick_disabled_no_tick() {
    let mut sb = SystemBlock::new();
    sb.write(0xE000_E014, 4, 10);
    assert_eq!(sb.tick(100), None, "ENABLE=0 不递减");
    assert_eq!(sb.systick_val(), 0);
}

#[test]
fn systick_tickint_off_no_pend() {
    let mut sb = SystemBlock::new();
    sb.write(0xE000_E010, 4, 0x1);
    sb.write(0xE000_E014, 4, 3);

    let mut p = None;
    for _ in 0..4 {
        if let Some(x) = sb.tick(1) {
            p = Some(x);
        }
    }
    assert_eq!(p, None, "TICKINT=0 只置 COUNTFLAG 不挂起");
    assert_ne!(sb.read(0xE000_E010, 4) & SYST_COUNTFLAG, 0);
}

#[test]
fn icsr_w1s_w1c_pend_semantics() {
    let mut sb = SystemBlock::new();

    sb.write(0xE000_ED04, 4, 1 << 28);
    assert_eq!(sb.next_pending_exception(), Some(14));

    sb.write(0xE000_ED04, 4, 1 << 27);
    assert_eq!(sb.next_pending_exception(), None);

    sb.write(0xE000_ED04, 4, 1 << 26);
    assert_eq!(sb.next_pending_exception(), Some(15));
    sb.write(0xE000_ED04, 4, 1 << 25);
    assert_eq!(sb.next_pending_exception(), None);

    sb.write(0xE000_ED04, 4, 0);
    assert_eq!(sb.next_pending_exception(), None);

    sb.set_vectactive(11);
    assert_eq!(sb.read(0xE000_ED04, 4) & 0x1FF, 11);
    sb.set_vectactive(0);
    assert_eq!(sb.read(0xE000_ED04, 4) & 0x1FF, 0);
}

#[test]
fn scb_register_model() {
    let mut sb = SystemBlock::new();

    assert_eq!(sb.read(0xE000_ED00, 4), 0x410F_C241);

    assert_eq!(sb.read(0xE000_ED08, 4), 0);
    sb.write(0xE000_ED08, 4, 0x1000);
    assert_eq!(sb.read(0xE000_ED08, 4), 0, "VTOR 仅支持 0");

    assert_eq!(sb.read(0xE000_ED0C, 4), 0xFA05_0000);

    assert_ne!(sb.read(0xE000_ED14, 4) & (1 << 9), 0);

    sb.write(0xE000_ED1C, 4, 0x00FF_0000);
    assert_eq!((sb.read(0xE000_ED1C, 4) >> 24) & 0xFF, 0x00);
    sb.write(0xE000_ED1C, 4, 0xFF00_0000);
    assert_eq!((sb.read(0xE000_ED1C, 4) >> 24) & 0xFF, 0xFF, "SVCall 优先级 0xFF");
    sb.write(0xE000_ED20, 4, 0xFFFF_0000);
    assert_eq!((sb.read(0xE000_ED20, 4) >> 24) & 0xFF, 0xFF, "SysTick 优先级");
    assert_eq!((sb.read(0xE000_ED20, 4) >> 16) & 0xFF, 0xFF, "PendSV 优先级");

    sb.write(0xE000_ED88, 4, 0x00F0_0000);
    assert_eq!(sb.read(0xE000_ED88, 4), 0x00F0_0000);

    assert!(!sb.fpccr_aspen_lspen());
    sb.write(0xE000_EF34, 4, 0xC000_0000);
    assert!(sb.fpccr_aspen_lspen());

    assert_eq!(sb.read(0xE000_E400, 4), 0);
    sb.write(0xE000_E400, 4, 0x1234);
    assert_eq!(sb.read(0xE000_E400, 4), 0);
}

#[test]
fn halfword_byte_width_masking() {
    let mut sb = SystemBlock::new();
    sb.write(0xE000_ED88, 4, 0xFFFF_FFFF);

    sb.write(0xE000_ED88 + 3, 1, 0xAB);
    assert_eq!((sb.read(0xE000_ED88, 4) >> 24) & 0xFF, 0xAB);

    sb.write(0xE000_ED1C, 2, 0xCDEF);
    assert_eq!(sb.read(0xE000_ED1C, 2), 0xCDEF);
}
