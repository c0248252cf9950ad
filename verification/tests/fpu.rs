//! Floating point.
use dtwin::CpuState;
use dtwin::engine::FaultReason;
use dtwin::engine::decode::Decoder;
use dtwin::engine::exec::{ExecOutcome, Executor};
use dtwin::engine::fpu::{
    DEFAULT_NAN_F32, FpOpFlags, FpRounding, FpuRegisters, f32_add, f32_div, f64_add, f64_div,
    f64_mul, is_nan_f32, vfp_expand_imm,
};
use dtwin::memory::Memory;
use std::cmp::Ordering;

/// A core with memory that runs single instructions.
struct Harness {
    cpu: CpuState,
    mem: Memory,
    decoder: Decoder,
    executor: Executor,
}

impl Harness {
    fn new() -> Self {
        Harness {
            cpu: CpuState::default(),
            mem: Memory::test_ram(),
            decoder: Decoder::new(),
            executor: Executor::new(),
        }
    }

    fn exec_word(&mut self, word: u32) -> ExecOutcome {
        let instr = self.decoder.decode_word(word, self.cpu.regs[15]);
        self.executor.execute(&mut self.cpu, &mut self.mem, &instr)
    }
}

/// Whether an operation rounds nothing away.
fn exact(op: fn(&FpuRegisters, u64, u64) -> (u64, FpOpFlags), a: f64, b: f64) -> bool {
    !op(&FpuRegisters::new(), a.to_bits(), b.to_bits()).1.ixc
}

fn f64_add_exact(a: f64, b: f64) -> bool {
    exact(f64_add, a, b)
}

fn f64_mul_exact(a: f64, b: f64) -> bool {
    exact(f64_mul, a, b)
}

fn f64_div_exact(a: f64, b: f64) -> bool {
    exact(f64_div, a, b)
}

/// How the exact result of an operation compares with `r`.
fn relation(op: fn(&FpuRegisters, u64, u64) -> (u64, FpOpFlags), a: f64, b: f64, r: f64) -> Ordering {
    let mut up = FpuRegisters::new();
    up.fpscr = 1 << 22;
    let mut down = FpuRegisters::new();
    down.fpscr = 2 << 22;
    if f64::from_bits(op(&up, a.to_bits(), b.to_bits()).0) > r {
        Ordering::Greater
    } else if f64::from_bits(op(&down, a.to_bits(), b.to_bits()).0) < r {
        Ordering::Less
    } else {
        Ordering::Equal
    }
}

fn f64_add_relation(a: f64, b: f64, r: f64) -> Ordering {
    relation(f64_add, a, b, r)
}

fn f64_mul_relation(a: f64, b: f64, r: f64) -> Ordering {
    relation(f64_mul, a, b, r)
}

#[test]
fn vfp_expand_imm_golden() {
    assert_eq!(vfp_expand_imm(0x70, false), 0x3F80_0000);
    assert_eq!(vfp_expand_imm(0x60, false), 0x3F00_0000);
    assert_eq!(vfp_expand_imm(0x00, false), 0x4000_0000);
    assert_eq!(vfp_expand_imm(0x08, false), 0x4040_0000);
    assert_eq!(vfp_expand_imm(0x78, false), 0x3FC0_0000);
    assert_eq!(vfp_expand_imm(0x68, false), 0x3F40_0000);
    assert_eq!(vfp_expand_imm(0xF0, false), 0xBF80_0000);
    assert_eq!(vfp_expand_imm(0x84, false), 0xC020_0000);

    assert_eq!(vfp_expand_imm(0x70, true), 0x3FF0_0000_0000_0000);
    assert_eq!(vfp_expand_imm(0x84, true), 0xC004_0000_0000_0000);
}

#[test]
fn fpu_register_file_alias() {
    let mut fpu = FpuRegisters::new();
    fpu.write_d(3, 0x0123_4567_89AB_CDEF);
    assert_eq!(fpu.read_s(6), 0x89AB_CDEF);
    assert_eq!(fpu.read_s(7), 0x0123_4567);
    assert_eq!(fpu.read_d(3), 0x0123_4567_89AB_CDEF);
    fpu.write_s(6, 0xFFFF_FFFF);
    assert_eq!(fpu.read_d(3) & 0xFFFF_FFFF, 0xFFFF_FFFF);
}

#[test]
fn f32_add_flags() {
    let fpu = FpuRegisters::new();

    let (res, flags) = f32_add(&fpu, 0x3F80_0000, 0x4000_0000);
    assert_eq!(res, 0x4040_0000);
    assert!(!flags.ioc && !flags.ixc && !flags.ofc && !flags.ufc && !flags.dzc);

    let (res, flags) = f32_add(&fpu, 0x7FC0_0000, 0x3F80_0000);
    assert!(is_nan_f32(res));
    assert!(flags.ioc);

    let (res, flags) = f32_add(&fpu, 0x7F7F_FFFF, 0x7F7F_FFFF);
    assert!(res == f32::INFINITY.to_bits());
    assert!(flags.ofc && flags.ixc);
}

#[test]
fn f32_div_zero() {
    let fpu = FpuRegisters::new();
    let (res, flags) = f32_div(&fpu, 0x3F80_0000, 0x0000_0000);
    assert_eq!(res, f32::INFINITY.to_bits());
    assert!(flags.dzc);
}

#[test]
fn f64_exactness_helpers() {
    assert!(f64_add_exact(1.0, 2.0));

    assert!(!f64_add_exact(1.0, 2f64.powi(-53)));

    assert!(f64_mul_exact(1.5, 2.0));

    assert!(!f64_mul_exact(0.1, 0.2));

    assert!(f64_div_exact(1.0, 4.0));

    assert!(!f64_div_exact(1.0, 3.0));
}

#[test]
fn f64_directed_rounding_add() {
    let mut fpu = FpuRegisters::new();

    let rn = f64_add(&fpu, 1.0f64.to_bits(), 0.1f64.to_bits()).0;
    assert_eq!(rn, 0x3FF1_9999_9999_999A);

    assert_eq!(
        f64_add_relation(1.0, 0.1, f64::from_bits(rn)),
        Ordering::Less
    );

    fpu.fpscr = 1 << 22;
    let (rp, flags) = f64_add(&fpu, 1.0f64.to_bits(), 0.1f64.to_bits());
    assert_eq!(rp, 0x3FF1_9999_9999_999A);
    assert!(flags.ixc);

    fpu.fpscr = 2 << 22;
    let (rm, _) = f64_add(&fpu, 1.0f64.to_bits(), 0.1f64.to_bits());
    assert_eq!(rm, 0x3FF1_9999_9999_9999);

    fpu.fpscr = 3 << 22;
    let (rz, _) = f64_add(&fpu, 1.0f64.to_bits(), 0.1f64.to_bits());
    assert_eq!(rz, 0x3FF1_9999_9999_9999);
}

#[test]
fn f64_directed_rounding_mul_div() {
    let mut fpu = FpuRegisters::new();
    let rn = f64_mul(&fpu, 0.1f64.to_bits(), 0.2f64.to_bits()).0;
    let rel = f64_mul_relation(0.1, 0.2, f64::from_bits(rn));

    fpu.fpscr = 1 << 22;
    let rp = f64_mul(&fpu, 0.1f64.to_bits(), 0.2f64.to_bits()).0;
    let expected_rp = if rel == Ordering::Greater {
        rn + 1
    } else {
        rn
    };
    assert_eq!(rp, expected_rp);

    fpu.fpscr = 3 << 22;
    let rz = f64_mul(&fpu, 0.1f64.to_bits(), 0.2f64.to_bits()).0;
    assert!(rz <= rn);

    let rn3 = f64_div(&fpu, 1.0f64.to_bits(), 3.0f64.to_bits()).0;
    assert_eq!(rn3, 0x3FD5_5555_5555_5555);
    fpu.fpscr = 1 << 22;
    let rp3 = f64_div(&fpu, 1.0f64.to_bits(), 3.0f64.to_bits()).0;
    assert_eq!(rp3, 0x3FD5_5555_5555_5556);
    fpu.fpscr = 2 << 22;
    let rm3 = f64_div(&fpu, 1.0f64.to_bits(), 3.0f64.to_bits()).0;
    assert_eq!(rm3, 0x3FD5_5555_5555_5555);
}

#[test]
fn f64_directed_rounding_exact_case() {
    let mut fpu = FpuRegisters::new();

    for mode in [0u32, 1, 2, 3] {
        fpu.fpscr = mode << 22;
        let (r, flags) = f64_add(&fpu, 1.5f64.to_bits(), 2.25f64.to_bits());
        assert_eq!(r, 3.75f64.to_bits());
        assert!(!flags.ixc);
    }

    fpu.fpscr = 1 << 22;
    let (r, flags) = f64_div(&fpu, 1.0f64.to_bits(), 4.0f64.to_bits());
    assert_eq!(r, 0.25f64.to_bits());
    assert!(!flags.ixc);
}

#[test]
fn f64_relation_helpers() {
    let rn = (1.0f64 + 0.1f64).to_bits();
    assert_eq!(
        f64_add_relation(1.0, 0.1, f64::from_bits(rn)),
        Ordering::Less
    );

    assert_eq!(f64_add_relation(1.0, 2.0, 3.0), Ordering::Equal);

    assert_ne!(f64_mul_relation(0.1, 0.2, 0.1 * 0.2), Ordering::Equal);

    assert_eq!(f64_add_relation(1.0, -0.1, 1.0 - 0.1), Ordering::Less);

    assert_eq!(f64_add_relation(1.5, -0.25, 1.25), Ordering::Equal);
}

#[test]
fn f64_add_flags() {
    let fpu = FpuRegisters::new();
    let (res, flags) = f64_add(&fpu, 0x3FF0_0000_0000_0000, 0x4000_0000_0000_0000);
    assert_eq!(res, 0x4008_0000_0000_0000);
    assert!(!flags.ioc && !flags.ixc && !flags.ofc && !flags.ufc && !flags.dzc);

    let (_, flags) = f64_add(&fpu, 1.0f64.to_bits(), (2f64.powi(-53)).to_bits());
    assert!(flags.ixc);
}

#[test]
fn rounding_mode_helpers() {
    let mut fpu = FpuRegisters::new();
    assert_eq!(fpu.rounding_mode(), FpRounding::Nearest);
    fpu.fpscr |= 3 << 22;
    assert_eq!(fpu.rounding_mode(), FpRounding::Zero);
}

fn f32(v: f32) -> u32 {
    v.to_bits()
}

#[test]
fn golden_vmov_reg() {
    let mut h = Harness::new();
    h.cpu.fpu.write_s(1, f32(1.5));

    assert_eq!(h.exec_word(0xEEB0_0A60), ExecOutcome::Continue);

    assert_eq!(h.cpu.fpu.read_s(0), f32(1.5));

    h.cpu.fpu.write_s(17, f32(-2.25));
    assert_eq!(h.exec_word(0xEEB0_8A68), ExecOutcome::Continue);
    assert_eq!(h.cpu.fpu.read_s(16), f32(-2.25));
}

#[test]
fn golden_vmov_core_roundtrip() {
    let mut h = Harness::new();
    h.cpu.regs[1] = f32(1.0);

    assert_eq!(h.exec_word(0xEE00_1A10), ExecOutcome::Continue);

    assert_eq!(h.cpu.fpu.read_s(0), f32(1.0));

    assert_eq!(h.exec_word(0xEE10_2A10), ExecOutcome::Continue);

    assert_eq!(h.cpu.regs[2], f32(1.0));

    h.cpu.fpu.write_s(16, f32(3.5));
    assert_eq!(h.exec_word(0xEE18_3A10), ExecOutcome::Continue);
    assert_eq!(h.cpu.regs[3], f32(3.5));
}

#[test]
fn golden_vmov_imm() {
    let mut h = Harness::new();

    assert_eq!(h.exec_word(0xEEB7_0A00), ExecOutcome::Continue);

    assert_eq!(h.cpu.fpu.read_s(0), f32(1.0));

    assert_eq!(h.exec_word(0xEEF8_0A04), ExecOutcome::Continue);

    assert_eq!(h.cpu.fpu.read_s(1), f32(-2.5));

    assert_eq!(h.exec_word(0xEEB7_8A00), ExecOutcome::Continue);
    assert_eq!(h.cpu.fpu.read_s(16), f32(1.0));
}

#[test]
fn golden_vadd_f32() {
    let mut h = Harness::new();
    h.cpu.fpu.write_s(1, f32(1.0));
    h.cpu.fpu.write_s(2, f32(2.0));

    assert_eq!(h.exec_word(0xEE30_0A81), ExecOutcome::Continue);

    assert_eq!(h.cpu.fpu.read_s(0), f32(3.0));
    assert_eq!(h.cpu.fpu.fpscr & 0xFF, 0);
}

#[test]
fn golden_vsub_vmul_vdiv_f32() {
    let mut h = Harness::new();
    h.cpu.fpu.write_s(1, f32(1.5));
    h.cpu.fpu.write_s(2, f32(2.0));

    assert_eq!(h.exec_word(0xEE30_0AC1), ExecOutcome::Continue);
    assert_eq!(h.cpu.fpu.read_s(0), f32(-0.5));

    assert_eq!(h.exec_word(0xEE20_0A81), ExecOutcome::Continue);
    assert_eq!(h.cpu.fpu.read_s(0), f32(3.0));

    assert_eq!(h.exec_word(0xEE80_0A81), ExecOutcome::Continue);
    assert_eq!(h.cpu.fpu.read_s(0), f32(0.75));
}

#[test]
fn golden_vdiv_by_zero_sets_dzc() {
    let mut h = Harness::new();
    h.cpu.fpu.write_s(1, f32(1.0));
    h.cpu.fpu.write_s(2, f32(0.0));

    assert_eq!(h.exec_word(0xEE80_0A81), ExecOutcome::Continue);

    assert_eq!(h.cpu.fpu.read_s(0), f32::INFINITY.to_bits());
    assert_ne!(h.cpu.fpu.fpscr & (1 << 1), 0);
}

#[test]
fn golden_vmla_fused() {
    let mut h = Harness::new();
    h.cpu.fpu.write_s(0, f32(10.0));
    h.cpu.fpu.write_s(1, f32(1.5));
    h.cpu.fpu.write_s(2, f32(2.0));

    assert_eq!(h.exec_word(0xEE00_0A81), ExecOutcome::Continue);
    assert_eq!(h.cpu.fpu.read_s(0), f32(13.0));

    assert_eq!(h.exec_word(0xEE00_0AC1), ExecOutcome::Continue);
    assert_eq!(h.cpu.fpu.read_s(0), f32(10.0));
}

#[test]
fn golden_vnmla_vnmls_vnmul() {
    let mut h = Harness::new();
    h.cpu.fpu.write_s(0, f32(4.0));
    h.cpu.fpu.write_s(1, f32(1.5));
    h.cpu.fpu.write_s(2, f32(2.0));

    assert_eq!(h.exec_word(0xEE10_0AC1), ExecOutcome::Continue);
    assert_eq!(h.cpu.fpu.read_s(0), f32(-7.0));

    assert_eq!(h.exec_word(0xEE10_0A81), ExecOutcome::Continue);
    assert_eq!(h.cpu.fpu.read_s(0), f32(10.0));

    assert_eq!(h.exec_word(0xEE20_0AC1), ExecOutcome::Continue);
    assert_eq!(h.cpu.fpu.read_s(0), f32(-3.0));
}

#[test]
fn golden_vabs_vneg_vsqrt() {
    let mut h = Harness::new();
    h.cpu.fpu.write_s(1, f32(-4.0));

    assert_eq!(h.exec_word(0xEEB0_0AE0), ExecOutcome::Continue);
    assert_eq!(h.cpu.fpu.read_s(0), f32(4.0));

    assert_eq!(h.exec_word(0xEEB1_0A60), ExecOutcome::Continue);
    assert_eq!(h.cpu.fpu.read_s(0), f32(4.0));

    h.cpu.fpu.write_s(1, f32(4.0));
    assert_eq!(h.exec_word(0xEEB1_0AE0), ExecOutcome::Continue);
    assert_eq!(h.cpu.fpu.read_s(0), f32(2.0));

    h.cpu.fpu.write_s(1, f32(-1.0));
    assert_eq!(h.exec_word(0xEEB1_0AE0), ExecOutcome::Continue);
    assert_eq!(h.cpu.fpu.read_s(0), DEFAULT_NAN_F32);
    assert_ne!(h.cpu.fpu.fpscr & 1, 0);
}

#[test]
fn golden_vcmp_flags() {
    let mut h = Harness::new();

    h.cpu.fpu.write_s(0, f32(1.0));
    h.cpu.fpu.write_s(1, f32(2.0));

    assert_eq!(h.exec_word(0xEEB4_0A60), ExecOutcome::Continue);

    assert_eq!(h.cpu.fpu.fpscr & (0xF << 28), 1 << 31);

    assert_eq!(h.exec_word(0xEEB4_0A60), ExecOutcome::Continue);
    h.cpu.fpu.write_s(1, f32(1.0));
    assert_eq!(h.exec_word(0xEEB4_0A60), ExecOutcome::Continue);
    assert_eq!(h.cpu.fpu.fpscr & (0xF << 28), (0b0110) << 28);

    assert_eq!(h.exec_word(0xEEB5_0A40), ExecOutcome::Continue);
    assert_eq!(h.cpu.fpu.fpscr & (0xF << 28), (0b0010) << 28);
}

#[test]
fn golden_vcmpe_nan_sets_ioc() {
    let mut h = Harness::new();
    h.cpu.fpu.write_s(0, 0x7FC0_0000);
    h.cpu.fpu.write_s(1, f32(1.0));

    assert_eq!(h.exec_word(0xEEB4_0AE0), ExecOutcome::Continue);

    assert_eq!(h.cpu.fpu.fpscr & (0xF << 28), (0b0011) << 28);
    assert_ne!(h.cpu.fpu.fpscr & 1, 0);
}

#[test]
fn golden_vcvt_s32_f32() {
    let mut h = Harness::new();

    h.cpu.fpu.write_s(1, f32(1.9));

    assert_eq!(h.exec_word(0xEEBD_0AE0), ExecOutcome::Continue);

    assert_eq!(h.cpu.fpu.read_s(0), 1);
    assert_ne!(h.cpu.fpu.fpscr & (1 << 4), 0);

    assert_eq!(h.exec_word(0xEEBD_0A60), ExecOutcome::Continue);
    assert_eq!(h.cpu.fpu.read_s(0), 2);

    h.cpu.fpu.write_s(1, 5);
    assert_eq!(h.exec_word(0xEEB8_0AE0), ExecOutcome::Continue);
    assert_eq!(h.cpu.fpu.read_s(0), f32(5.0));
}

#[test]
fn golden_vcvt_u32_saturation() {
    let mut h = Harness::new();
    h.cpu.fpu.write_s(1, f32(-1.0));

    assert_eq!(h.exec_word(0xEEBC_0AE0), ExecOutcome::Continue);

    assert_eq!(h.cpu.fpu.read_s(0), 0);
    assert!(h.cpu.fpu.qc());

    h.cpu.fpu.write_s(1, f32(5e9));
    assert_eq!(h.exec_word(0xEEBC_0AE0), ExecOutcome::Continue);
    assert_eq!(h.cpu.fpu.read_s(0), 0xFFFF_FFFF);
}

#[test]
fn golden_vcvt_nan_sets_ioc() {
    let mut h = Harness::new();
    h.cpu.fpu.write_s(1, 0x7FC0_0000);

    assert_eq!(h.exec_word(0xEEBD_0AE0), ExecOutcome::Continue);

    assert_eq!(h.cpu.fpu.read_s(0), 0);
    assert_ne!(h.cpu.fpu.fpscr & 1, 0);
}

#[test]
fn golden_vcvt_f32_f64() {
    let mut h = Harness::new();

    h.cpu.fpu.write_d(1, 1.5f64.to_bits());

    assert_eq!(h.exec_word(0xEEB7_0BC1), ExecOutcome::Continue);

    assert_eq!(h.cpu.fpu.read_s(0), f32(1.5));

    h.cpu.fpu.write_s(3, f32(2.25));
    assert_eq!(h.exec_word(0xEEB7_2AE1), ExecOutcome::Continue);
    assert_eq!(h.cpu.fpu.read_d(2), 2.25f64.to_bits());
}

#[test]
fn golden_f64_arith() {
    let mut h = Harness::new();

    h.cpu.fpu.write_d(1, 1.5f64.to_bits());
    h.cpu.fpu.write_d(2, 2.0f64.to_bits());

    assert_eq!(h.exec_word(0xEE31_0B02), ExecOutcome::Continue);
    assert_eq!(h.cpu.fpu.read_d(0), 3.5f64.to_bits());

    assert_eq!(h.exec_word(0xEE21_0B02), ExecOutcome::Continue);
    assert_eq!(h.cpu.fpu.read_d(0), 3.0f64.to_bits());

    assert_eq!(h.exec_word(0xEE31_0B42), ExecOutcome::Continue);
    assert_eq!(h.cpu.fpu.read_d(0), (-0.5f64).to_bits());

    assert_eq!(h.exec_word(0xEE81_0B02), ExecOutcome::Continue);
    assert_eq!(h.cpu.fpu.read_d(0), 0.75f64.to_bits());
}

#[test]
fn golden_f64_mla_vmov_cmp() {
    let mut h = Harness::new();
    h.cpu.fpu.write_d(0, 10.0f64.to_bits());
    h.cpu.fpu.write_d(1, 1.5f64.to_bits());
    h.cpu.fpu.write_d(2, 2.0f64.to_bits());

    assert_eq!(h.exec_word(0xEE01_0B02), ExecOutcome::Continue);
    assert_eq!(h.cpu.fpu.read_d(0), 13.0f64.to_bits());

    assert_eq!(h.exec_word(0xEEB0_3B40), ExecOutcome::Continue);
    assert_eq!(h.cpu.fpu.read_d(3), 13.0f64.to_bits());

    assert_eq!(h.exec_word(0xEEB4_0B41), ExecOutcome::Continue);
    assert_eq!(h.cpu.fpu.fpscr & (0xF << 28), (0b0010) << 28);
}

#[test]
fn golden_vldr_vstr_roundtrip() {
    let mut h = Harness::new();
    h.cpu.regs[1] = 0x2000_0000;
    h.cpu.fpu.write_s(1, f32(1.25));

    assert_eq!(h.exec_word(0xEDC1_0A01), ExecOutcome::Continue);

    assert_eq!(h.mem.read_u32(0x2000_0004).unwrap(), f32(1.25));

    assert_eq!(h.exec_word(0xED91_0A01), ExecOutcome::Continue);

    assert_eq!(h.cpu.fpu.read_s(0), f32(1.25));

    h.cpu.regs[2] = 0x2000_000C;
    h.mem.write_u32(0x2000_0004, f32(-3.5)).unwrap();
    assert_eq!(h.exec_word(0xED12_8A02), ExecOutcome::Continue);
    assert_eq!(h.cpu.fpu.read_s(16), f32(-3.5));
}

#[test]
fn golden_vldr_double() {
    let mut h = Harness::new();
    h.cpu.regs[1] = 0x2000_0000;
    h.cpu.fpu.write_d(0, 2.5f64.to_bits());

    assert_eq!(h.exec_word(0xED81_0B02), ExecOutcome::Continue);

    assert_eq!(
        h.mem.read_u32(0x2000_0008).unwrap(),
        2.5f64.to_bits() as u32
    );
    assert_eq!(
        h.mem.read_u32(0x2000_000C).unwrap(),
        (2.5f64.to_bits() >> 32) as u32
    );

    assert_eq!(h.exec_word(0xED91_2B02), ExecOutcome::Continue);
    assert_eq!(h.cpu.fpu.read_d(2), 2.5f64.to_bits());
}

#[test]
fn golden_vmov_core_double() {
    let mut h = Harness::new();
    h.cpu.regs[1] = 0x89AB_CDEF;
    h.cpu.regs[2] = 0x0123_4567;

    assert_eq!(h.exec_word(0xEC42_1B10), ExecOutcome::Continue);

    assert_eq!(h.cpu.fpu.read_d(0), 0x0123_4567_89AB_CDEF);

    assert_eq!(h.exec_word(0xEC54_3B10), ExecOutcome::Continue);

    assert_eq!(h.cpu.regs[3], 0x89AB_CDEF);
    assert_eq!(h.cpu.regs[4], 0x0123_4567);
}

#[test]
fn golden_vldr_unaligned_faults() {
    let mut h = Harness::new();
    h.cpu.regs[1] = 0x2000_0002;

    let outcome = h.exec_word(0xED91_0A00);

    assert_eq!(
        outcome,
        ExecOutcome::Fault {
            reason: FaultReason::UnalignedAccess {
                address: 0x2000_0002
            }
        }
    );
}

#[test]
fn golden_vstm_vldm_roundtrip() {
    let mut h = Harness::new();
    h.cpu.regs[0] = 0x2000_0000;
    for (i, v) in [1.0f32, 2.0, 3.0, 4.0].iter().enumerate() {
        h.cpu.fpu.write_s(i, v.to_bits());
    }

    assert_eq!(h.exec_word(0xEC80_0A04), ExecOutcome::Continue);

    for (i, v) in [1.0f32, 2.0, 3.0, 4.0].iter().enumerate() {
        assert_eq!(h.mem.read_u32(0x2000_0000 + i as u32 * 4).unwrap(), v.to_bits());
    }

    h.cpu.fpu.write_s(0, 0);
    h.cpu.fpu.write_s(1, 0);
    h.cpu.fpu.write_s(2, 0);
    h.cpu.fpu.write_s(3, 0);
    h.cpu.regs[0] = 0x2000_0000;
    assert_eq!(h.exec_word(0xEC90_0A04), ExecOutcome::Continue);
    assert_eq!(h.cpu.fpu.read_s(0), f32(1.0));
    assert_eq!(h.cpu.fpu.read_s(1), f32(2.0));
    assert_eq!(h.cpu.fpu.read_s(2), f32(3.0));
    assert_eq!(h.cpu.fpu.read_s(3), f32(4.0));
}

#[test]
fn golden_vldm_writeback_vstmdb() {
    let mut h = Harness::new();

    h.cpu.regs[0] = 0x2000_0010;
    for (i, v) in [1.0f32, 2.0, 3.0, 4.0].iter().enumerate() {
        h.cpu.fpu.write_s(i, v.to_bits());
    }
    assert_eq!(h.exec_word(0xED20_0A04), ExecOutcome::Continue);
    assert_eq!(h.cpu.regs[0], 0x2000_0000);
    assert_eq!(h.mem.read_u32(0x2000_0000).unwrap(), f32(1.0));
    assert_eq!(h.mem.read_u32(0x2000_000C).unwrap(), f32(4.0));

    h.cpu.fpu.write_s(0, 0);
    h.cpu.regs[0] = 0x2000_0000;
    assert_eq!(h.exec_word(0xECB0_0A04), ExecOutcome::Continue);
    assert_eq!(h.cpu.regs[0], 0x2000_0010);
    assert_eq!(h.cpu.fpu.read_s(0), f32(1.0));
    assert_eq!(h.cpu.fpu.read_s(3), f32(4.0));
}

#[test]
fn golden_vldm_double_and_s16() {
    let mut h = Harness::new();

    h.cpu.regs[0] = 0x2000_0000;
    h.cpu.fpu.write_d(0, 2.5f64.to_bits());
    h.cpu.fpu.write_d(1, (-1.25f64).to_bits());
    assert_eq!(h.exec_word(0xEC80_0B04), ExecOutcome::Continue);
    assert_eq!(h.mem.read_u32(0x2000_0000).unwrap(), 2.5f64.to_bits() as u32);
    assert_eq!(h.mem.read_u32(0x2000_0008).unwrap(), (-1.25f64).to_bits() as u32);

    h.cpu.fpu.write_d(0, 0);
    h.cpu.fpu.write_d(1, 0);
    assert_eq!(h.exec_word(0xEC90_0B04), ExecOutcome::Continue);
    assert_eq!(h.cpu.fpu.read_d(0), 2.5f64.to_bits());
    assert_eq!(h.cpu.fpu.read_d(1), (-1.25f64).to_bits());

    for (i, v) in [1.5f32, -2.5, 3.5, -4.5].iter().enumerate() {
        h.mem.write_u32(0x2000_0000 + i as u32 * 4, v.to_bits()).unwrap();
    }
    h.cpu.regs[1] = 0x2000_0000;
    assert_eq!(h.exec_word(0xECB1_8A04), ExecOutcome::Continue);
    assert_eq!(h.cpu.fpu.read_s(16), f32(1.5));
    assert_eq!(h.cpu.fpu.read_s(17), f32(-2.5));
    assert_eq!(h.cpu.fpu.read_s(18), f32(3.5));
    assert_eq!(h.cpu.fpu.read_s(19), f32(-4.5));
    assert_eq!(h.cpu.regs[1], 0x2000_0010);
}

#[test]
fn golden_vcvt_s16_f32_fixed() {
    let mut h = Harness::new();

    h.cpu.fpu.write_s(0, f32(1.5));

    assert_eq!(h.exec_word(0xEEBE_0A44), ExecOutcome::Continue);

    assert_eq!(h.cpu.fpu.read_s(0), 384);
    assert!(!h.cpu.fpu.qc());

    h.cpu.fpu.write_s(0, f32(1000.0));
    assert_eq!(h.exec_word(0xEEBE_0A44), ExecOutcome::Continue);
    assert_eq!(h.cpu.fpu.read_s(0) as i32, 32767);
    assert!(h.cpu.fpu.qc());
}

#[test]
fn golden_vcvt_f32_s16_fixed() {
    let mut h = Harness::new();

    h.cpu.fpu.write_s(0, 384);

    assert_eq!(h.exec_word(0xEEBA_0A44), ExecOutcome::Continue);

    assert_eq!(h.cpu.fpu.read_s(0), f32(1.5));

    h.cpu.fpu.write_s(0, 0xFFFF_FF80u32);
    assert_eq!(h.exec_word(0xEEBA_0A44), ExecOutcome::Continue);
    assert_eq!(h.cpu.fpu.read_s(0), f32(-0.5));
}

#[test]
fn golden_vcvt_s32_f32_q16() {
    let mut h = Harness::new();

    h.cpu.fpu.write_s(0, f32(1.5));

    assert_eq!(h.exec_word(0xEEBE_0AC8), ExecOutcome::Continue);
    assert_eq!(h.cpu.fpu.read_s(0), 98304);

    assert_eq!(h.exec_word(0xEEBA_0AC8), ExecOutcome::Continue);
    assert_eq!(h.cpu.fpu.read_s(0), f32(1.5));

    h.cpu.fpu.write_s(0, f32(1e10));
    assert_eq!(h.exec_word(0xEEBE_0AC8), ExecOutcome::Continue);
    assert_eq!(h.cpu.fpu.read_s(0), 0x7FFF_FFFF);
    assert!(h.cpu.fpu.qc());

    h.cpu.fpu.write_s(0, f32(-1.0));
    assert_eq!(h.exec_word(0xEEBF_0AC8), ExecOutcome::Continue);
    assert_eq!(h.cpu.fpu.read_s(0), 0);
    assert!(h.cpu.fpu.qc());
}

#[test]
fn golden_vcvt_fixed_flags() {
    let mut h = Harness::new();

    h.cpu.fpu.write_s(0, 0x7FC0_0000);
    assert_eq!(h.exec_word(0xEEBE_0A44), ExecOutcome::Continue);
    assert_eq!(h.cpu.fpu.read_s(0), 0);
    assert_ne!(h.cpu.fpu.fpscr & 1, 0);

    h.cpu.fpu.write_s(0, f32(0.1));
    assert_eq!(h.exec_word(0xEEBE_0A44), ExecOutcome::Continue);
    assert_eq!(h.cpu.fpu.read_s(0), 26);
    assert_ne!(h.cpu.fpu.fpscr & (1 << 4), 0);
}
