//! Saturation and packed arithmetic.
use dtwin::CpuState;
use dtwin::engine::decode::{Decoder, Simd16Kind};
use dtwin::engine::dsp::{
    qadd, qadd_q, qdadd_q, qdsub_q, qsub_q, sadd16, simd16, simd8, ssat, ssub16, usat,
};
use dtwin::engine::exec::{ExecOutcome, Executor};
use dtwin::memory::Memory;

/// A core with memory that runs single instructions.
struct Harness {
    cpu: CpuState,
    mem: Memory,
    decoder: Decoder,
    executor: Executor,
}

impl Harness {
    fn new() -> Self {
        Harness {
            cpu: CpuState::default(),
            mem: Memory::test_ram(),
            decoder: Decoder::new(),
            executor: Executor::new(),
        }
    }

    fn exec_word(&mut self, word: u32) -> ExecOutcome {
        let instr = self.decoder.decode_word(word, self.cpu.regs[15]);
        self.executor.execute(&mut self.cpu, &mut self.mem, &instr)
    }

    fn q_flag(&self) -> bool {
        self.cpu.xpsr & (1 << 27) != 0
    }

    fn ge_flags(&self) -> u32 {
        (self.cpu.xpsr >> 16) & 0xF
    }
}

#[test]
fn ssat_bounds() {
    assert_eq!(ssat(200, 8), 127);
    assert_eq!(ssat(-200, 8), -128);
    assert_eq!(ssat(100, 8), 100);
    assert_eq!(ssat(-100, 8), -100);
}

#[test]
fn usat_bounds() {
    assert_eq!(usat(-1, 8), 0);
    assert_eq!(usat(600, 8), 511);
    assert_eq!(usat(300, 8), 300);
    assert_eq!(usat(100, 8), 100);
}

#[test]
fn qadd_saturates() {
    assert_eq!(qadd(i32::MAX, 1), i32::MAX);
    assert_eq!(qadd(i32::MIN, -1), i32::MIN);
}

#[test]
fn simd_halfword() {
    assert_eq!(sadd16(0x0001_0002, 0x0001_0002), 0x0002_0004);
    assert_eq!(ssub16(0x0005_0005, 0x0002_0001), 0x0003_0004);
}

#[test]
fn q_saturating_helpers() {
    assert_eq!(qadd_q(i32::MAX, 1), (i32::MAX, true));
    assert_eq!(qadd_q(5, 3), (8, false));

    assert_eq!(qsub_q(i32::MIN, 1), (i32::MIN, true));
    assert_eq!(qsub_q(5, 3), (2, false));

    assert_eq!(qdadd_q(0x7FFF_FFFF, 0x4000_0000), (0x7FFF_FFFF, true));
    assert_eq!(qdadd_q(100, 50), (200, false));

    assert_eq!(qdsub_q(0, 0x4000_0000), (i32::MIN + 1, true));
    assert_eq!(qdsub_q(-100, 50), (-200, false));
}

#[test]
fn simd16_ge_semantics() {
    let (r, ge) = simd16(0x0001_0002, 0x0003_0004, Simd16Kind::Add16, false);
    assert_eq!(r, 0x0004_0006);
    assert_eq!(ge, 0b11);
    let (r, ge) = simd16(0x8000_0000, 0x0000_0000, Simd16Kind::Add16, false);
    assert_eq!(r, 0x8000_0000);
    assert_eq!(ge, 0b01);

    let (r, ge) = simd16(0xFFFF_0001, 0x0001_0001, Simd16Kind::Add16, true);
    assert_eq!(r, 0x0000_0002);
    assert_eq!(ge, 0b10);

    let (r, ge) = simd16(0x0002_0005, 0x0001_0003, Simd16Kind::Sax, false);

    assert_eq!(r, 0x0005_0004);
    assert_eq!(ge, 0b11);
}

#[test]
fn simd8_ge_semantics() {
    let (r, ge) = simd8(0x01_02_03_04, 0x01_02_03_04, false, false, false);
    assert_eq!(r, 0x02_04_06_08);
    assert_eq!(ge, 0b1111);

    let (r, ge) = simd8(0xFF_00_00_00, 0x00_00_00_00, false, false, false);
    assert_eq!(r, 0xFF_00_00_00);
    assert_eq!(ge, 0b0111);

    let (r, ge) = simd8(0xFF_01_01_01, 0x01_01_01_01, true, false, false);
    assert_eq!(r, 0x00_02_02_02);
    assert_eq!(ge, 0b1000);

    let (r, ge) = simd8(0x05_05_05_05, 0x02_08_01_0F, true, false, true);
    assert_eq!(r, 0x03_FD_04_F6);
    assert_eq!(ge, 0b1010);

    let (r, ge) = simd8(0x05_05_00_05, 0x02_01_01_01, false, false, true);
    assert_eq!(r, 0x0304_FF04);
    assert_eq!(ge, 0b1101);
}

#[test]
fn simd8_halving_semantics() {
    let (r, ge) = simd8(0x01_01_01_01, 0x03_03_03_03, false, true, false);
    assert_eq!(r, 0x02_02_02_02);
    assert_eq!(ge, 0);
    let (r, _) = simd8(0xFF_FF_FF_FF, 0xFF_FF_FF_FF, false, true, false);
    assert_eq!(r, 0xFF_FF_FF_FF);

    let (r, ge) = simd8(0xFF_00_00_00, 0x01_00_00_00, true, true, false);
    assert_eq!(r, 0x80_00_00_00);
    assert_eq!(ge, 0);

    let (r, _) = simd8(0x01_00_00_00, 0x03_00_00_00, false, true, true);
    assert_eq!(r, 0xFF_00_00_00);
    let (r, _) = simd8(0x05_00_00_00, 0x03_00_00_00, true, true, true);
    assert_eq!(r, 0x01_00_00_00);

    let (r, _) = simd8(0x01_00_00_00, 0x03_00_00_00, true, true, true);
    assert_eq!(r, 0xFF_00_00_00);
}

#[test]
fn golden_ssat_saturates_and_sets_q() {
    let mut h = Harness::new();
    h.cpu.regs[1] = 200;

    assert_eq!(h.exec_word(0xF301_0007), ExecOutcome::Continue);

    assert_eq!(h.cpu.regs[0], 127);
    assert!(h.q_flag());
}

#[test]
fn golden_ssat_no_saturation_keeps_q_clear() {
    let mut h = Harness::new();
    h.cpu.regs[1] = 100;

    assert_eq!(h.exec_word(0xF301_0007), ExecOutcome::Continue);

    assert_eq!(h.cpu.regs[0], 100);
    assert!(!h.q_flag());
}

#[test]
fn golden_ssat_shift_lsl() {
    let mut h = Harness::new();
    h.cpu.regs[1] = 0x08;

    assert_eq!(h.exec_word(0xF301_1007), ExecOutcome::Continue);

    assert_eq!(h.cpu.regs[0], 127);
    assert!(h.q_flag());
}

#[test]
fn golden_ssat_shift_asr() {
    let mut h = Harness::new();
    h.cpu.regs[1] = 0x8000_0000;

    assert_eq!(h.exec_word(0xF321_1007), ExecOutcome::Continue);

    assert_eq!(h.cpu.regs[0], 0xFFFF_FF80u32 as i32 as u32);
    assert_eq!(h.cpu.regs[0] as i32, -128);
    assert!(h.q_flag());
}

#[test]
fn golden_usat_saturates() {
    let mut h = Harness::new();
    h.cpu.regs[1] = 600;

    assert_eq!(h.exec_word(0xF381_0008), ExecOutcome::Continue);

    assert_eq!(h.cpu.regs[0], 511);
    assert!(h.q_flag());
}

#[test]
fn golden_usat_negative_clamps_to_zero() {
    let mut h = Harness::new();
    h.cpu.regs[1] = 0xFFFF_FFFF;

    assert_eq!(h.exec_word(0xF381_0008), ExecOutcome::Continue);

    assert_eq!(h.cpu.regs[0], 0);
    assert!(h.q_flag());
}

#[test]
fn golden_qadd_saturates() {
    let mut h = Harness::new();
    h.cpu.regs[1] = 0x7FFF_FFFF;
    h.cpu.regs[2] = 1;

    assert_eq!(h.exec_word(0xFA82_F081), ExecOutcome::Continue);

    assert_eq!(h.cpu.regs[0], 0x7FFF_FFFF);
    assert!(h.q_flag());
}

#[test]
fn golden_qadd_normal() {
    let mut h = Harness::new();
    h.cpu.regs[1] = 100;
    h.cpu.regs[2] = 50;

    h.cpu.regs[4] = 100;
    h.cpu.regs[5] = 50;
    assert_eq!(h.exec_word(0xFA85_F384), ExecOutcome::Continue);

    assert_eq!(h.cpu.regs[3], 150);
    assert!(!h.q_flag());
}

#[test]
fn golden_qdadd_doubling_saturates() {
    let mut h = Harness::new();
    h.cpu.regs[1] = 0x7FFF_FFFF;
    h.cpu.regs[2] = 0x4000_0000;

    assert_eq!(h.exec_word(0xFA82_F091), ExecOutcome::Continue);

    assert_eq!(h.cpu.regs[0], 0x7FFF_FFFF);
    assert!(h.q_flag());
}

#[test]
fn golden_qdsub() {
    let mut h = Harness::new();
    h.cpu.regs[1] = 0;
    h.cpu.regs[2] = 0x4000_0000;

    assert_eq!(h.exec_word(0xFA82_F0B1), ExecOutcome::Continue);

    assert_eq!(h.cpu.regs[0], 0x8000_0001);
    assert!(h.q_flag());
}

#[test]
fn golden_qsub_saturates() {
    let mut h = Harness::new();
    h.cpu.regs[1] = 0x8000_0000;
    h.cpu.regs[2] = 1;

    assert_eq!(h.exec_word(0xFA82_F0A1), ExecOutcome::Continue);

    assert_eq!(h.cpu.regs[0], 0x8000_0000);
    assert!(h.q_flag());
}

#[test]
fn golden_sadd16_ge_flags() {
    let mut h = Harness::new();
    h.cpu.regs[1] = 0x0001_0002;
    h.cpu.regs[2] = 0x0003_0004;

    assert_eq!(h.exec_word(0xFA91_F002), ExecOutcome::Continue);

    assert_eq!(h.cpu.regs[0], 0x0004_0006);
    assert_eq!(h.ge_flags(), 0b11);
}

#[test]
fn golden_sadd16_negative_ge_clear() {
    let mut h = Harness::new();
    h.cpu.regs[1] = 0x8000_0000;

    assert_eq!(h.exec_word(0xFA91_F002), ExecOutcome::Continue);

    assert_eq!(h.cpu.regs[0], 0x8000_0000);
    assert_eq!(h.ge_flags(), 0b01);
}

#[test]
fn golden_uadd16_carry_ge() {
    let mut h = Harness::new();
    h.cpu.regs[1] = 0xFFFF_0001;
    h.cpu.regs[2] = 0x0001_0001;

    assert_eq!(h.exec_word(0xFA91_F042), ExecOutcome::Continue);

    assert_eq!(h.cpu.regs[0], 0x0000_0002);
    assert_eq!(h.ge_flags(), 0b10);
}

#[test]
fn golden_usub16_borrow_ge() {
    let mut h = Harness::new();
    h.cpu.regs[1] = 0x0005_0005;
    h.cpu.regs[2] = 0x0002_0001;

    assert_eq!(h.exec_word(0xFAD1_F042), ExecOutcome::Continue);

    assert_eq!(h.cpu.regs[0], 0x0003_0004);
    assert_eq!(h.ge_flags(), 0b11);
}

#[test]
fn golden_sasx_cross_halfword() {
    let mut h = Harness::new();
    h.cpu.regs[1] = 0x0002_0005;
    h.cpu.regs[2] = 0x0001_0003;

    assert_eq!(h.exec_word(0xFAA1_F002), ExecOutcome::Continue);

    assert_eq!(h.cpu.regs[0], 0xFFFF_0006);
    assert_eq!(h.ge_flags(), 0b01);
}

#[test]
fn golden_ssax_cross_halfword() {
    let mut h = Harness::new();
    h.cpu.regs[1] = 0x0002_0005;
    h.cpu.regs[2] = 0x0001_0003;

    assert_eq!(h.exec_word(0xFAE1_F002), ExecOutcome::Continue);

    assert_eq!(h.cpu.regs[0], 0x0005_0004);
    assert_eq!(h.ge_flags(), 0b11);
}

#[test]
fn golden_ssub16() {
    let mut h = Harness::new();
    h.cpu.regs[1] = 0x0005_0005;
    h.cpu.regs[2] = 0x0002_0001;

    assert_eq!(h.exec_word(0xFAD1_F002), ExecOutcome::Continue);

    assert_eq!(h.cpu.regs[0], 0x0003_0004);
    assert_eq!(h.ge_flags(), 0b11);
}

#[test]
fn golden_smuad() {
    let mut h = Harness::new();
    h.cpu.regs[1] = 0x0002_0003;
    h.cpu.regs[2] = 0x0004_0005;

    assert_eq!(h.exec_word(0xFB21_F002), ExecOutcome::Continue);

    assert_eq!(h.cpu.regs[0], 23);
}

#[test]
fn golden_smuadx_swaps_rm() {
    let mut h = Harness::new();
    h.cpu.regs[1] = 0x0002_0003;
    h.cpu.regs[2] = 0x0004_0005;

    assert_eq!(h.exec_word(0xFB21_F012), ExecOutcome::Continue);

    assert_eq!(h.cpu.regs[0], 22);
}

#[test]
fn golden_smusd() {
    let mut h = Harness::new();
    h.cpu.regs[1] = 0x0002_0003;
    h.cpu.regs[2] = 0x0004_0005;

    assert_eq!(h.exec_word(0xFB41_F002), ExecOutcome::Continue);

    assert_eq!(h.cpu.regs[0], 7);
}

#[test]
fn golden_smusdx() {
    let mut h = Harness::new();
    h.cpu.regs[1] = 0x0002_0003;
    h.cpu.regs[2] = 0x0004_0005;

    assert_eq!(h.exec_word(0xFB41_F012), ExecOutcome::Continue);

    assert_eq!(h.cpu.regs[0], 2);
}

#[test]
fn golden_smlad_accumulate() {
    let mut h = Harness::new();
    h.cpu.regs[1] = 0x0002_0003;
    h.cpu.regs[2] = 0x0004_0005;
    h.cpu.regs[3] = 100;

    assert_eq!(h.exec_word(0xFB21_3002), ExecOutcome::Continue);

    assert_eq!(h.cpu.regs[0], 123);
}

#[test]
fn golden_smlsd_subtract_accumulate() {
    let mut h = Harness::new();
    h.cpu.regs[1] = 0x0002_0003;
    h.cpu.regs[2] = 0x0004_0005;
    h.cpu.regs[3] = 100;

    assert_eq!(h.exec_word(0xFB41_3002), ExecOutcome::Continue);

    assert_eq!(h.cpu.regs[0], 107);
}

#[test]
fn golden_smlald_64bit_accumulate() {
    let mut h = Harness::new();
    h.cpu.regs[2] = 0x0002_0003;
    h.cpu.regs[3] = 0x0004_0005;

    assert_eq!(h.exec_word(0xFBC2_01C3), ExecOutcome::Continue);

    assert_eq!(h.cpu.regs[0], 23);
    assert_eq!(h.cpu.regs[1], 0);
}

#[test]
fn golden_smlald_carry_into_high() {
    let mut h = Harness::new();
    h.cpu.regs[0] = 0xFFFF_FFFF;
    h.cpu.regs[1] = 0;
    h.cpu.regs[2] = 0x0002_0003;
    h.cpu.regs[3] = 0x0004_0005;

    assert_eq!(h.exec_word(0xFBC2_01C3), ExecOutcome::Continue);

    assert_eq!(h.cpu.regs[0], 0x16);
    assert_eq!(h.cpu.regs[1], 1);
}

#[test]
fn golden_smlsld_subtract_long() {
    let mut h = Harness::new();
    h.cpu.regs[0] = 100;
    h.cpu.regs[1] = 0;
    h.cpu.regs[2] = 0x0002_0003;
    h.cpu.regs[3] = 0x0004_0005;

    assert_eq!(h.exec_word(0xFBD2_01C3), ExecOutcome::Continue);

    assert_eq!(h.cpu.regs[0], 107);
    assert_eq!(h.cpu.regs[1], 0);
}

#[test]
fn golden_mla_mls() {
    let mut h = Harness::new();
    h.cpu.regs[1] = 6;
    h.cpu.regs[2] = 7;
    h.cpu.regs[3] = 100;

    assert_eq!(h.exec_word(0xFB01_3002), ExecOutcome::Continue);
    assert_eq!(h.cpu.regs[0], 142);

    assert_eq!(h.exec_word(0xFB01_3012), ExecOutcome::Continue);
    assert_eq!(h.cpu.regs[0], 58);
}

#[test]
fn golden_pkhbt_pkhtb() {
    let mut h = Harness::new();
    h.cpu.regs[1] = 0xAAAA_BBBB;
    h.cpu.regs[2] = 0xCCCC_DDDD;

    assert_eq!(h.exec_word(0xEAC1_1002), ExecOutcome::Continue);

    assert_eq!(h.cpu.regs[0], 0xCCCD_BBBB);

    assert_eq!(h.exec_word(0xEAC1_1022), ExecOutcome::Continue);

    assert_eq!(h.cpu.regs[0], 0xAAAA_CDDD);
}

#[test]
fn golden_pkhbt_no_shift() {
    let mut h = Harness::new();
    h.cpu.regs[1] = 0x1111_2222;
    h.cpu.regs[2] = 0x3333_4444;

    assert_eq!(h.exec_word(0xEAC1_0002), ExecOutcome::Continue);

    assert_eq!(h.cpu.regs[0], 0x3333_2222);
}

#[test]
fn golden_sadd8_ge() {
    let mut h = Harness::new();
    h.cpu.regs[1] = 0x0102_0304;
    h.cpu.regs[2] = 0x0102_0304;

    assert_eq!(h.exec_word(0xFA81_F002), ExecOutcome::Continue);

    assert_eq!(h.cpu.regs[0], 0x0204_0608);
    assert_eq!(h.ge_flags(), 0b1111);
}

#[test]
fn golden_sadd8_negative_ge_clear() {
    let mut h = Harness::new();
    h.cpu.regs[1] = 0xFF00_0000;

    assert_eq!(h.exec_word(0xFA81_F002), ExecOutcome::Continue);

    assert_eq!(h.cpu.regs[0], 0xFF00_0000);
    assert_eq!(h.ge_flags(), 0b0111);
}

#[test]
fn golden_uadd8_carry_ge() {
    let mut h = Harness::new();
    h.cpu.regs[1] = 0xFF01_0101;
    h.cpu.regs[2] = 0x0101_0101;

    assert_eq!(h.exec_word(0xFA81_F042), ExecOutcome::Continue);

    assert_eq!(h.cpu.regs[0], 0x0002_0202);
    assert_eq!(h.ge_flags(), 0b1000);
}

#[test]
fn golden_usub8_borrow_ge() {
    let mut h = Harness::new();
    h.cpu.regs[1] = 0x0505_0505;
    h.cpu.regs[2] = 0x0208_010F;

    assert_eq!(h.exec_word(0xFAC1_F042), ExecOutcome::Continue);

    assert_eq!(h.cpu.regs[0], 0x03FD_04F6);
    assert_eq!(h.ge_flags(), 0b1010);
}

#[test]
fn golden_ssub8_signed_ge() {
    let mut h = Harness::new();
    h.cpu.regs[1] = 0x0505_0005;
    h.cpu.regs[2] = 0x0201_0101;

    assert_eq!(h.exec_word(0xFAC1_F002), ExecOutcome::Continue);

    assert_eq!(h.cpu.regs[0], 0x0304_FF04);
    assert_eq!(h.ge_flags(), 0b1101);
}

#[test]
fn golden_shadd8_halving_ge_zero() {
    let mut h = Harness::new();
    h.cpu.regs[1] = 0x0101_0101;
    h.cpu.regs[2] = 0x0303_0303;
    h.cpu.xpsr |= 0xF << 16;

    assert_eq!(h.exec_word(0xFA81_F022), ExecOutcome::Continue);

    assert_eq!(h.cpu.regs[0], 0x0202_0202);
    assert_eq!(h.ge_flags(), 0);
}

#[test]
fn golden_uhadd8_wide_sum() {
    let mut h = Harness::new();
    h.cpu.regs[1] = 0xFF00_0000;
    h.cpu.regs[2] = 0x0100_0000;

    assert_eq!(h.exec_word(0xFA81_F062), ExecOutcome::Continue);

    assert_eq!(h.cpu.regs[0], 0x8000_0000);
    assert_eq!(h.ge_flags(), 0);
}

#[test]
fn golden_shsub8_uhsub8() {
    let mut h = Harness::new();
    h.cpu.regs[1] = 0x0100_0000;
    h.cpu.regs[2] = 0x0300_0000;

    assert_eq!(h.exec_word(0xFAC1_F022), ExecOutcome::Continue);
    assert_eq!(h.cpu.regs[0], 0xFF00_0000);

    assert_eq!(h.exec_word(0xFAC1_F062), ExecOutcome::Continue);
    assert_eq!(h.cpu.regs[0], 0xFF00_0000);
    assert_eq!(h.ge_flags(), 0);
}
