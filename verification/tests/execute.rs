//! Single instructions on the core.
use dtwin::CpuState;
use dtwin::engine::FaultReason;
use dtwin::engine::decode::{AccessWidth, Decoder, Instruction, LoadStoreOffset};
use dtwin::engine::exec::{ExecOutcome, Executor};
use dtwin::memory::Memory;

/// A core with memory that runs single instructions.
struct Harness {
    cpu: CpuState,
    mem: Memory,
    decoder: Decoder,
    executor: Executor,
}

impl Harness {
    fn new() -> Self {
        Harness {
            cpu: CpuState::default(),
            mem: Memory::test_ram(),
            decoder: Decoder::new(),
            executor: Executor::new(),
        }
    }

    fn exec_halfword(&mut self, half: u16) -> ExecOutcome {
        let instr = self.decoder.decode_halfword(half, self.cpu.regs[15]);
        self.executor.execute(&mut self.cpu, &mut self.mem, &instr)
    }

    fn exec_word(&mut self, word: u32) -> ExecOutcome {
        let instr = self.decoder.decode_word(word, self.cpu.regs[15]);
        self.executor.execute(&mut self.cpu, &mut self.mem, &instr)
    }

    /// N, Z, C and V, from bit 3 down to bit 0.
    fn nzcv(&self) -> u32 {
        self.cpu.xpsr >> 28
    }
}

fn setup() -> (Executor, CpuState, Memory) {
    (Executor::new(), CpuState::default(), Memory::test_ram())
}

#[test]
fn e1_ands_eors_orrs_bics() {
    let mut h = Harness::new();

    h.cpu.regs[2] = 0xFF00_FF00;
    h.cpu.regs[3] = 0xF0F0_F0F0;
    h.exec_halfword(0x401A);
    assert_eq!(h.cpu.regs[2], 0xF000_F000);
    assert_eq!(h.nzcv(), 0b1000, "N 置位（结果 bit31=1）");

    h.cpu.regs[2] = 0x0F00;
    h.cpu.regs[3] = 0x00F0;
    h.exec_halfword(0x401A);
    assert_eq!(h.cpu.regs[2], 0);
    assert_eq!(h.nzcv(), 0b0100, "Z 置位");

    h.cpu.regs[2] = 0xFF00_FF00;
    h.cpu.regs[3] = 0x0FF0_0FF0;
    h.exec_halfword(0x405A);
    assert_eq!(h.cpu.regs[2], 0xF0F0_F0F0);
    assert_eq!(h.nzcv(), 0b1000, "N 置位");

    h.cpu.regs[2] = 0xF0F0_F0F0;
    h.cpu.regs[3] = 0x0F0F_0F0F;
    h.exec_halfword(0x431A);
    assert_eq!(h.cpu.regs[2], 0xFFFF_FFFF);
    assert_eq!(h.nzcv(), 0b1000, "N 置位");

    h.cpu.regs[2] = 0xFF00_FF00;
    h.cpu.regs[3] = 0x0F0F_0F0F;
    h.exec_halfword(0x439A);
    assert_eq!(h.cpu.regs[2], 0xF000_F000);
    assert_eq!(h.nzcv(), 0b1000, "N 置位");

    h.cpu.regs[2] = 0xFF;
    h.cpu.regs[3] = 0xFF;
    h.exec_halfword(0x439A);
    assert_eq!(h.cpu.regs[2], 0);
    assert_eq!(h.nzcv(), 0b0100, "Z 置位");
}

#[test]
fn e1_lsl_lsr_asr_ror_register() {
    let mut h = Harness::new();

    h.cpu.regs[2] = 1;
    h.cpu.regs[5] = 4;
    h.exec_halfword(0x40AA);
    assert_eq!(h.cpu.regs[2], 16);
    assert_eq!(h.nzcv(), 0, "N/Z 清零");

    h.cpu.regs[2] = 0x8000_0000;
    h.cpu.regs[5] = 1;
    h.exec_halfword(0x40AA);
    assert_eq!(h.cpu.regs[2], 0);
    assert_eq!(h.nzcv(), 0b0110, "Z 置位 + C 置位（bit31 移出）");

    h.cpu.regs[2] = 0x8000_0000;
    h.cpu.regs[5] = 1;
    h.exec_halfword(0x40EA);
    assert_eq!(h.cpu.regs[2], 0x4000_0000);
    assert_eq!(h.nzcv(), 0, "N/Z 清零");

    h.cpu.regs[2] = 0x8000_0000;
    h.cpu.regs[5] = 1;
    h.exec_halfword(0x412A);
    assert_eq!(h.cpu.regs[2], 0xC000_0000);
    assert_eq!(h.nzcv(), 0b1000, "N 置位（符号扩展）");

    h.cpu.regs[2] = 0x0000_0008;
    h.cpu.regs[5] = 4;
    h.exec_halfword(0x41EA);
    assert_eq!(h.cpu.regs[2], 0x8000_0000);
    assert_eq!(h.nzcv(), 0b1010, "N 置位 + C 置位（移出 bit3）");

    h.cpu.regs[2] = 0x0000_000F;
    h.cpu.regs[5] = 2;
    h.exec_halfword(0x41EA);
    assert_eq!(h.cpu.regs[2], 0xC000_0003);
}

#[test]
fn e1_adc_sbc_flags() {
    let mut h = Harness::new();

    h.cpu.regs[2] = 1;
    h.cpu.regs[3] = 1;
    h.cpu.xpsr = 1 << 29;
    h.exec_halfword(0x415A);
    assert_eq!(h.cpu.regs[2], 3);
    assert_eq!(h.nzcv(), 0, "1+1+1=3：无进位出 C=0，N/Z 清零");

    h.cpu.regs[2] = 0x7FFF_FFFF;
    h.cpu.regs[3] = 1;
    h.cpu.xpsr = 1 << 29;
    h.exec_halfword(0x415A);
    assert_eq!(h.cpu.regs[2], 0x8000_0001);
    assert_eq!(h.nzcv(), 0b1001, "N=1 V=1 C=0（正+正溢出）");

    h.cpu.regs[2] = 0xFFFF_FFFF;
    h.cpu.regs[3] = 1;
    h.cpu.xpsr = 0;
    h.exec_halfword(0x415A);
    assert_eq!(h.cpu.regs[2], 0);
    assert_eq!(h.nzcv(), 0b0110, "C=1 Z=1（进位出、结果为 0）");

    h.cpu.regs[2] = 5;
    h.cpu.regs[3] = 3;
    h.cpu.xpsr = 1 << 29;
    h.exec_halfword(0x419A);
    assert_eq!(h.cpu.regs[2], 2);
    assert_eq!(h.nzcv(), 0b0010, "C=1（无借位）");

    h.cpu.regs[2] = 3;
    h.cpu.regs[3] = 5;
    h.cpu.xpsr = 1 << 29;
    h.exec_halfword(0x419A);
    assert_eq!(h.cpu.regs[2], 0xFFFF_FFFE);
    assert_eq!(h.nzcv(), 0b1000, "N=1 C=0（借位）");

    h.cpu.regs[2] = 5;
    h.cpu.regs[3] = 3;
    h.cpu.xpsr = 0;
    h.exec_halfword(0x419A);
    assert_eq!(h.cpu.regs[2], 1);
    assert_eq!(h.nzcv(), 0b0010, "C=1（无借位）");
}

#[test]
fn e2_bl_sets_lr_and_branches() {
    let mut h = Harness::new();
    h.cpu.regs[15] = 0x86E;
    assert_eq!(
        h.exec_word(0xF000_F80F),
        ExecOutcome::Branch { target: 0x890 }
    );
    assert_eq!(h.cpu.regs[14], (0x86E + 4) | 1, "LR = (PC+4)|1");
    assert_eq!(h.cpu.regs[15], 0x86E, "PC 由引擎推进/分支目标写入");
}

#[test]
fn e2_blx_sets_lr_and_branches() {
    let mut h = Harness::new();
    h.cpu.regs[15] = 0x4;
    assert_eq!(
        h.exec_word(0xF000_E80C),
        ExecOutcome::Fault {
            reason: FaultReason::UnimplementedInstr,
        }
    );
    assert_eq!(h.cpu.regs[14], 0, "LR 不被写入（未执行跳转）");
}

#[test]
fn e2_blx_negative_offset() {
    let mut h = Harness::new();
    h.cpu.regs[15] = 0x0;
    assert_eq!(
        h.exec_word(0xF7FF_EFFE),
        ExecOutcome::Fault {
            reason: FaultReason::UnimplementedInstr,
        }
    );
}

#[test]
fn e2_blx_aligned_base() {
    let mut h = Harness::new();
    h.cpu.regs[15] = 0x6;
    assert_eq!(
        h.exec_word(0xF000_E808),
        ExecOutcome::Fault {
            reason: FaultReason::UnimplementedInstr,
        }
    );
    assert_eq!(h.cpu.regs[14], 0, "LR 不被写入（未执行跳转）");
}

#[test]
fn e1_tst_cmp_cmn_neg_mvn_mul() {
    let mut h = Harness::new();

    h.cpu.regs[2] = 0xFF00_FF00;
    h.cpu.regs[3] = 0x00FF_00FF;
    h.exec_halfword(0x421A);
    assert_eq!(h.nzcv(), 0b0100, "Z 置位");

    h.cpu.regs[2] = 0xFF00;
    h.cpu.regs[3] = 0x0FF0;
    h.exec_halfword(0x421A);
    assert_eq!(h.nzcv(), 0, "N/Z 清零");

    h.cpu.regs[2] = 5;
    h.cpu.regs[3] = 5;
    h.exec_halfword(0x429A);
    assert_eq!(h.nzcv(), 0b0110, "Z=1 C=1");

    h.cpu.regs[2] = 3;
    h.cpu.regs[3] = 5;
    h.exec_halfword(0x429A);
    assert_eq!(h.nzcv(), 0b1000, "N=1 C=0");

    h.cpu.regs[2] = 5;
    h.cpu.regs[3] = 0xFFFF_FFFB;
    h.exec_halfword(0x42DA);
    assert_eq!(h.nzcv(), 0b0110, "Z=1 C=1");

    h.cpu.regs[2] = 0xDEAD_BEEF;
    h.cpu.regs[3] = 5;
    h.exec_halfword(0x425A);
    assert_eq!(h.cpu.regs[2], 0xFFFF_FFFB);
    assert_eq!(h.nzcv(), 0b1000, "N=1 C=0");

    h.cpu.regs[3] = 0;
    h.exec_halfword(0x425A);
    assert_eq!(h.cpu.regs[2], 0);
    assert_eq!(h.nzcv(), 0b0110, "Z=1 C=1");

    h.cpu.regs[3] = 0x8000_0000;
    h.exec_halfword(0x425A);
    assert_eq!(h.cpu.regs[2], 0x8000_0000);
    assert_eq!(h.nzcv(), 0b1001, "N=1 V=1（0-INT_MIN 溢出）");

    h.cpu.xpsr = 0;
    h.cpu.regs[2] = 0;
    h.cpu.regs[3] = 0xFFFF_FFFF;
    h.exec_halfword(0x43DA);
    assert_eq!(h.cpu.regs[2], 0);
    assert_eq!(h.nzcv(), 0b0100, "Z 置位");

    h.cpu.regs[3] = 0;
    h.exec_halfword(0x43DA);
    assert_eq!(h.cpu.regs[2], 0xFFFF_FFFF);
    assert_eq!(h.nzcv(), 0b1000, "N 置位");

    h.cpu.regs[2] = 0x1234_5678;
    h.cpu.regs[3] = 0x0001_0000;
    h.cpu.xpsr = 0;
    h.exec_halfword(0x435A);
    assert_eq!(h.cpu.regs[2], 0x5678_0000);
    assert_eq!(h.nzcv(), 0, "ARMv7E-M：MUL 不更新 flags");

    h.cpu.regs[2] = 0;
    h.cpu.regs[3] = 0xFFFF_FFFF;
    h.cpu.xpsr = 0;
    h.exec_halfword(0x435A);
    assert_eq!(h.cpu.regs[2], 0);
    assert_eq!(h.nzcv(), 0, "MUL 0 结果也不写 flags");
}

#[test]
fn ldr_str_word_roundtrip() {
    let (mut ex, mut cpu, mut mem) = setup();

    cpu.regs[0] = 0x2000_0000;
    cpu.regs[1] = 0x1234_5678;

    let instr = Instruction::Str {
        rt: 1,
        rn: 0,
        offset: LoadStoreOffset::Immediate(0),
        width: AccessWidth::Word,
    };
    assert_eq!(
        ex.execute(&mut cpu, &mut mem, &instr),
        ExecOutcome::Continue
    );

    let instr = Instruction::Ldr {
        rt: 2,
        rn: 0,
        offset: LoadStoreOffset::Immediate(0),
        width: AccessWidth::Word,
    };
    assert_eq!(
        ex.execute(&mut cpu, &mut mem, &instr),
        ExecOutcome::Continue
    );
    assert_eq!(cpu.regs[2], 0x1234_5678);
}

#[test]
fn ldr_byte() {
    let (mut ex, mut cpu, mut mem) = setup();
    cpu.regs[0] = 0x2000_0000;
    mem.write_u8(0x2000_0004, 0xAB).unwrap();
    let instr = Instruction::Ldr {
        rt: 3,
        rn: 0,
        offset: LoadStoreOffset::Immediate(4),
        width: AccessWidth::Byte,
    };
    assert_eq!(
        ex.execute(&mut cpu, &mut mem, &instr),
        ExecOutcome::Continue
    );
    assert_eq!(cpu.regs[3], 0xAB);
}

#[test]
fn push_pop_roundtrip() {
    let (mut ex, mut cpu, mut mem) = setup();
    cpu.regs[13] = 0x2000_1000;
    cpu.regs[0] = 0x1111_1111;
    cpu.regs[1] = 0x2222_2222;
    cpu.regs[14] = 0x0800_0001;

    let instr = Instruction::Push {
        regs: 0b11,
        lr: true,
    };
    assert_eq!(
        ex.execute(&mut cpu, &mut mem, &instr),
        ExecOutcome::Continue
    );
    assert_eq!(cpu.regs[13], 0x2000_0FF4);

    cpu.regs[0] = 0;
    cpu.regs[1] = 0;
    let instr = Instruction::Pop {
        regs: 0b11,
        pc: true,
    };
    assert_eq!(
        ex.execute(&mut cpu, &mut mem, &instr),
        ExecOutcome::Branch {
            target: 0x0800_0000
        }
    );
    assert_eq!(cpu.regs[0], 0x1111_1111);
    assert_eq!(cpu.regs[1], 0x2222_2222);
    assert_eq!(cpu.regs[15], 0x0800_0000);
    assert_eq!(cpu.regs[13], 0x2000_1000);
}

#[test]
fn ldm_stm_writeback() {
    let (mut ex, mut cpu, mut mem) = setup();
    cpu.regs[0] = 0x2000_0000;
    cpu.regs[1] = 0xAA;
    cpu.regs[2] = 0xBB;

    let instr = Instruction::Stm {
        rn: 0,
        regs: 0b110,
        writeback: true,
        descending: false,
    };
    assert_eq!(
        ex.execute(&mut cpu, &mut mem, &instr),
        ExecOutcome::Continue
    );
    assert_eq!(cpu.regs[0], 0x2000_0008);

    cpu.regs[0] = 0x2000_0000;
    let instr = Instruction::Ldm {
        rn: 0,
        regs: 0b11000,
        writeback: true,
        descending: false,
    };
    assert_eq!(
        ex.execute(&mut cpu, &mut mem, &instr),
        ExecOutcome::Continue
    );
    assert_eq!(cpu.regs[3], 0xAA);
    assert_eq!(cpu.regs[4], 0xBB);
    assert_eq!(cpu.regs[0], 0x2000_0008);
}

#[test]
fn sp_sync_msp_psp() {
    let (mut ex, mut cpu, mut mem) = setup();

    cpu.regs[13] = 0x2000_1000;

    let instr = Instruction::Sub {
        rd: 13,
        rn: 13,
        rm: None,
        imm: Some(8),
        flags: false,
    };
    assert_eq!(
        ex.execute(&mut cpu, &mut mem, &instr),
        ExecOutcome::Continue
    );
    assert_eq!(cpu.regs[13], 0x2000_0FF8);
    assert_eq!(cpu.msp, 0x2000_0FF8, "SPSEL=0 → SP 同步到 msp");

    cpu.control = 1;
    cpu.regs[13] = 0x2000_2000;
    let instr = Instruction::Add {
        rd: 13,
        rn: 13,
        rm: None,
        imm: Some(16),
        flags: false,
    };
    assert_eq!(
        ex.execute(&mut cpu, &mut mem, &instr),
        ExecOutcome::Continue
    );
    assert_eq!(cpu.regs[13], 0x2000_2010);
    assert_eq!(cpu.psp, 0x2000_2010, "SPSEL=1 → SP 同步到 psp");
    assert_eq!(cpu.msp, 0x2000_0FF8, "msp 不受 PSP 运算影响");

    cpu.control = 0;
    cpu.regs[13] = 0x2000_1000;
    let instr = Instruction::Push {
        regs: 0b1,
        lr: false,
    };
    assert_eq!(
        ex.execute(&mut cpu, &mut mem, &instr),
        ExecOutcome::Continue
    );
    assert_eq!(cpu.msp, 0x2000_0FFC, "PUSH 后 SP 同步到 msp");
}

#[test]
fn golden_32bit_ldr_str_family() {
    let (mut ex, mut cpu, mut mem) = setup();
    let mut dec = Decoder::new();
    cpu.regs[1] = 0x2000_0000;

    mem.write_u32(0x2000_0004, 0x1122_3344).unwrap();
    assert_eq!(
        ex.execute(&mut cpu, &mut mem, &dec.decode_word(0xF8D1_0004, 0)),
        ExecOutcome::Continue
    );
    assert_eq!(cpu.regs[0], 0x1122_3344);

    cpu.regs[0] = 0xAABB_CCDD;
    assert_eq!(
        ex.execute(&mut cpu, &mut mem, &dec.decode_word(0xF8C1_0008, 0)),
        ExecOutcome::Continue
    );
    assert_eq!(mem.read_u32(0x2000_0008).unwrap(), 0xAABB_CCDD);

    mem.write_u16(0x2000_0002, 0xABCD).unwrap();
    assert_eq!(
        ex.execute(&mut cpu, &mut mem, &dec.decode_word(0xF8B1_0002, 0)),
        ExecOutcome::Continue
    );
    assert_eq!(cpu.regs[0], 0xABCD);

    cpu.regs[0] = 0x1234;
    assert_eq!(
        ex.execute(&mut cpu, &mut mem, &dec.decode_word(0xF8A1_0006, 0)),
        ExecOutcome::Continue
    );
    assert_eq!(mem.read_u16(0x2000_0006).unwrap(), 0x1234);

    mem.write_u8(0x2000_0001, 0x7F).unwrap();
    assert_eq!(
        ex.execute(&mut cpu, &mut mem, &dec.decode_word(0xF891_0001, 0)),
        ExecOutcome::Continue
    );
    assert_eq!(cpu.regs[0], 0x7F);

    cpu.regs[0] = 0x9A;
    assert_eq!(
        ex.execute(&mut cpu, &mut mem, &dec.decode_word(0xF881_0003, 0)),
        ExecOutcome::Continue
    );
    assert_eq!(mem.read_u8(0x2000_0003).unwrap(), 0x9A);

    mem.write_u16(0x2000_0004, 0xFFFF).unwrap();
    assert_eq!(
        ex.execute(&mut cpu, &mut mem, &dec.decode_word(0xF9B1_0004, 0)),
        ExecOutcome::Continue
    );
    assert_eq!(cpu.regs[0], 0xFFFF_FFFF);

    mem.write_u8(0x2000_0005, 0xFF).unwrap();
    assert_eq!(
        ex.execute(&mut cpu, &mut mem, &dec.decode_word(0xF991_0005, 0)),
        ExecOutcome::Continue
    );
    assert_eq!(cpu.regs[0], 0xFFFF_FFFF);

    cpu.regs[2] = 0x10;
    mem.write_u32(0x2000_0010, 0xCAFE_BABE).unwrap();
    assert_eq!(
        ex.execute(&mut cpu, &mut mem, &dec.decode_word(0xF851_0002, 0)),
        ExecOutcome::Continue
    );
    assert_eq!(cpu.regs[0], 0xCAFE_BABE);

    cpu.regs[0] = 0xDEAD_BEEF;
    assert_eq!(
        ex.execute(&mut cpu, &mut mem, &dec.decode_word(0xF841_0002, 0)),
        ExecOutcome::Continue
    );
    assert_eq!(mem.read_u32(0x2000_0010).unwrap(), 0xDEAD_BEEF);

    cpu.regs[2] = 0x2000_0000;
    mem.write_u32(0x2000_0008, 0x1111_1111).unwrap();
    mem.write_u32(0x2000_000C, 0x2222_2222).unwrap();
    assert_eq!(
        ex.execute(&mut cpu, &mut mem, &dec.decode_word(0xE9D2_0102, 0)),
        ExecOutcome::Continue
    );
    assert_eq!(cpu.regs[0], 0x1111_1111);
    assert_eq!(cpu.regs[1], 0x2222_2222);

    cpu.regs[0] = 0xAAAA_AAAA;
    cpu.regs[1] = 0xBBBB_BBBB;
    assert_eq!(
        ex.execute(&mut cpu, &mut mem, &dec.decode_word(0xE9C2_0102, 0)),
        ExecOutcome::Continue
    );
    assert_eq!(mem.read_u32(0x2000_0008).unwrap(), 0xAAAA_AAAA);
    assert_eq!(mem.read_u32(0x2000_000C).unwrap(), 0xBBBB_BBBB);
}

#[test]
fn golden_16bit_ldr_str_word_imm() {
    let (mut ex, mut cpu, mut mem) = setup();
    let mut dec = Decoder::new();
    cpu.regs[1] = 0x2000_0000;
    cpu.regs[0] = 0x1122_3344;

    let instr = dec.decode_halfword(0x60C8, 0);
    assert_eq!(
        ex.execute(&mut cpu, &mut mem, &instr),
        ExecOutcome::Continue
    );
    assert_eq!(mem.read_u32(0x2000_000C).unwrap(), 0x1122_3344);

    cpu.regs[3] = 0x2000_0000;
    mem.write_u32(0x2000_0014, 0x1122_3344).unwrap();
    let instr = dec.decode_halfword(0x695A, 0);
    assert_eq!(
        ex.execute(&mut cpu, &mut mem, &instr),
        ExecOutcome::Continue
    );
    assert_eq!(cpu.regs[2], 0x1122_3344);
}

#[test]
fn golden_16bit_ldr_str_byte_half() {
    let (mut ex, mut cpu, mut mem) = setup();
    let mut dec = Decoder::new();
    cpu.regs[5] = 0x2000_0000;
    cpu.regs[4] = 0xDEAD_BEEF;

    let instr = dec.decode_halfword(0x71EC, 0);
    assert_eq!(
        ex.execute(&mut cpu, &mut mem, &instr),
        ExecOutcome::Continue
    );
    assert_eq!(mem.read_u8(0x2000_0007).unwrap(), 0xEF);

    cpu.regs[7] = 0x2000_0000;
    mem.write_u8(0x2000_0003, 0xEF).unwrap();
    let instr = dec.decode_halfword(0x78FE, 0);
    assert_eq!(
        ex.execute(&mut cpu, &mut mem, &instr),
        ExecOutcome::Continue
    );
    assert_eq!(cpu.regs[6], 0xEF);

    cpu.regs[1] = 0x2000_0000;
    cpu.regs[0] = 0xABCD_1234;
    let instr = dec.decode_halfword(0x80C8, 0);
    assert_eq!(
        ex.execute(&mut cpu, &mut mem, &instr),
        ExecOutcome::Continue
    );
    assert_eq!(mem.read_u16(0x2000_0006).unwrap(), 0x1234);

    cpu.regs[3] = 0x2000_0000;
    mem.write_u16(0x2000_000A, 0x5A5A).unwrap();
    let instr = dec.decode_halfword(0x895A, 0);
    assert_eq!(
        ex.execute(&mut cpu, &mut mem, &instr),
        ExecOutcome::Continue
    );
    assert_eq!(cpu.regs[2], 0x5A5A);
}

#[test]
fn golden_16bit_ldr_str_reg_sp() {
    let (mut ex, mut cpu, mut mem) = setup();
    let mut dec = Decoder::new();
    cpu.regs[1] = 0x2000_0000;
    cpu.regs[2] = 0x10;
    cpu.regs[0] = 0xCAFE_BABE;

    let instr = dec.decode_halfword(0x5088, 0);
    assert_eq!(
        ex.execute(&mut cpu, &mut mem, &instr),
        ExecOutcome::Continue
    );
    assert_eq!(mem.read_u32(0x2000_0010).unwrap(), 0xCAFE_BABE);

    cpu.regs[4] = 0x2000_0000;
    cpu.regs[5] = 0x10;
    let instr = dec.decode_halfword(0x5963, 0);
    assert_eq!(
        ex.execute(&mut cpu, &mut mem, &instr),
        ExecOutcome::Continue
    );
    assert_eq!(cpu.regs[3], 0xCAFE_BABE);

    cpu.regs[13] = 0x2000_0100;
    let instr = dec.decode_halfword(0x9001, 0);
    assert_eq!(
        ex.execute(&mut cpu, &mut mem, &instr),
        ExecOutcome::Continue
    );
    assert_eq!(mem.read_u32(0x2000_0104).unwrap(), 0xCAFE_BABE);

    let instr = dec.decode_halfword(0x9801, 0);
    assert_eq!(
        ex.execute(&mut cpu, &mut mem, &instr),
        ExecOutcome::Continue
    );
    assert_eq!(cpu.regs[0], 0xCAFE_BABE);
}

#[test]
fn golden_16bit_stmia_ldmia() {
    let (mut ex, mut cpu, mut mem) = setup();
    let mut dec = Decoder::new();
    cpu.regs[0] = 0x2000_0000;
    cpu.regs[1] = 0xAA;
    cpu.regs[2] = 0xBB;

    let instr = dec.decode_halfword(0xC006, 0);
    assert_eq!(
        ex.execute(&mut cpu, &mut mem, &instr),
        ExecOutcome::Continue
    );
    assert_eq!(cpu.regs[0], 0x2000_0008);
    assert_eq!(mem.read_u32(0x2000_0000).unwrap(), 0xAA);
    assert_eq!(mem.read_u32(0x2000_0004).unwrap(), 0xBB);

    cpu.regs[0] = 0x2000_0000;
    let instr = dec.decode_halfword(0xC806, 0);
    assert_eq!(
        ex.execute(&mut cpu, &mut mem, &instr),
        ExecOutcome::Continue
    );
    assert_eq!(cpu.regs[1], 0xAA);
    assert_eq!(cpu.regs[2], 0xBB);
    assert_eq!(cpu.regs[0], 0x2000_0008);
}

#[test]
fn golden_16bit_cond_branch() {
    let (mut ex, mut cpu, mut mem) = setup();
    let mut dec = Decoder::new();

    cpu.regs[15] = 0x1000;
    let instr = dec.decode_halfword(0xD006, 0x1000);
    assert_eq!(
        ex.execute(&mut cpu, &mut mem, &instr),
        ExecOutcome::Continue
    );

    cpu.xpsr |= 1 << 30;
    let instr = dec.decode_halfword(0xD006, 0x1000);
    assert_eq!(
        ex.execute(&mut cpu, &mut mem, &instr),
        ExecOutcome::Branch {
            target: 0x1000 + 4 + 12,
        }
    );

    let instr = dec.decode_halfword(0xD106, 0x1000);
    assert_eq!(
        ex.execute(&mut cpu, &mut mem, &instr),
        ExecOutcome::Continue
    );
}

#[test]
fn golden_msr_mrs_roundtrip() {
    let mut h = Harness::new();

    h.cpu.regs[2] = 1;

    assert_eq!(h.exec_word(0xF382_8810), ExecOutcome::Continue);

    assert_eq!(h.cpu.primask, 1);

    assert_eq!(h.exec_word(0xF3EF_8310), ExecOutcome::Continue);

    assert_eq!(h.cpu.regs[3], 1);
}

#[test]
fn golden_msr_mrs_apsr() {
    let mut h = Harness::new();

    h.cpu.xpsr = (1 << 31) | (1 << 30);

    assert_eq!(h.exec_word(0xF3EF_8000), ExecOutcome::Continue);

    assert_eq!(h.cpu.regs[0], 0xC000_0000);

    h.cpu.regs[1] = 0x8000_0000;
    h.cpu.xpsr = 0;
    assert_eq!(h.exec_word(0xF381_8800), ExecOutcome::Continue);

    assert_eq!(h.cpu.xpsr, 0x8000_0000);

    h.cpu.xpsr = (1 << 27) | (0b1010 << 16);
    assert_eq!(h.exec_word(0xF3EF_8002), ExecOutcome::Continue);
    assert_eq!(h.cpu.regs[0], (1 << 27) | (0b1010 << 16));
}

#[test]
fn golden_msr_special_regs() {
    let mut h = Harness::new();

    h.cpu.regs[6] = 0x3;
    assert_eq!(h.exec_word(0xF386_8814), ExecOutcome::Continue);
    assert_eq!(h.cpu.control, 0x3);

    h.cpu.regs[7] = 0x2000_1000;
    assert_eq!(h.exec_word(0xF387_8808), ExecOutcome::Continue);
    assert_eq!(h.cpu.msp, 0x2000_1000);

    assert_eq!(h.exec_word(0xF3EF_8008), ExecOutcome::Continue);
    assert_eq!(h.cpu.regs[0], 0x2000_1000);

    h.cpu.regs[5] = 1;
    assert_eq!(h.exec_word(0xF385_8813), ExecOutcome::Continue);
    assert_eq!(h.cpu.faultmask, 1);

    assert_eq!(h.exec_word(0xF3EF_8413), ExecOutcome::Continue);
    assert_eq!(h.cpu.regs[4], 1);
}

#[test]
fn golden_basepri_max_semantics() {
    let mut h = Harness::new();

    h.cpu.basepri = 0x60;

    h.cpu.regs[4] = 0x50;
    assert_eq!(h.exec_word(0xF384_8812), ExecOutcome::Continue);

    assert_eq!(h.cpu.basepri, 0x50);

    h.cpu.regs[4] = 0x70;
    assert_eq!(h.exec_word(0xF384_8812), ExecOutcome::Continue);

    assert_eq!(h.cpu.basepri, 0x50);
}

#[test]
fn golden_mrs_unknown_sysm_faults() {
    let mut h = Harness::new();

    let out = h.exec_word(0xF3EF_8099);

    assert_eq!(
        out,
        ExecOutcome::Fault {
            reason: FaultReason::UnimplementedInstr,
        }
    );
}

#[test]
fn golden_vsqrt_ixc() {
    let mut h = Harness::new();

    h.cpu.fpu.write_s(1, 4.0f32.to_bits());
    assert_eq!(h.exec_word(0xEEB1_0AE0), ExecOutcome::Continue);
    assert_eq!(h.cpu.fpu.read_s(0), 2.0f32.to_bits());
    assert_eq!(h.cpu.fpu.fpscr & (1 << 4), 0);

    h.cpu.fpu.write_s(1, 2.0f32.to_bits());
    assert_eq!(h.exec_word(0xEEB1_0AE0), ExecOutcome::Continue);
    assert_ne!(h.cpu.fpu.fpscr & (1 << 4), 0);

    h.cpu.fpu.fpscr = 0;
    h.cpu.fpu.write_d(1, 9.0f64.to_bits());
    assert_eq!(h.exec_word(0xEEB1_0BC1), ExecOutcome::Continue);
    assert_eq!(h.cpu.fpu.read_d(0), 3.0f64.to_bits());
    assert_eq!(h.cpu.fpu.fpscr & (1 << 4), 0);

    h.cpu.fpu.write_d(1, 2.0f64.to_bits());
    assert_eq!(h.exec_word(0xEEB1_0BC1), ExecOutcome::Continue);
    assert_ne!(h.cpu.fpu.fpscr & (1 << 4), 0);
}

#[test]
fn golden_cpacr_gate_fpu_disabled() {
    let mut h = Harness::new();

    h.cpu.cpacr = 0;

    let out = h.exec_word(0xEE30_0A81);

    assert_eq!(
        out,
        ExecOutcome::Fault {
            reason: FaultReason::UsageFault {
                address: h.cpu.regs[15],
            }
        }
    );
    assert_eq!(h.cpu.fpu.read_s(0), 0);

    h.cpu.regs[1] = 0x2000_0000;
    let out = h.exec_word(0xED91_0A00);
    assert!(matches!(
        out,
        ExecOutcome::Fault {
            reason: FaultReason::UsageFault { .. }
        }
    ));

    h.cpu.regs[2] = 1;
    assert_eq!(h.exec_word(0xF382_8810), ExecOutcome::Continue);
    assert_eq!(h.cpu.primask, 1);
}

#[test]
fn golden_cpacr_gate_reenable() {
    let mut h = Harness::new();
    h.cpu.cpacr = 0;
    assert!(matches!(
        h.exec_word(0xEE30_0A81),
        ExecOutcome::Fault {
            reason: FaultReason::UsageFault { .. }
        }
    ));

    h.cpu.cpacr = 0x00F0_0000;
    h.cpu.fpu.write_s(1, 1.0f32.to_bits());
    h.cpu.fpu.write_s(2, 2.0f32.to_bits());
    assert_eq!(h.exec_word(0xEE30_0A81), ExecOutcome::Continue);
    assert_eq!(h.cpu.fpu.read_s(0), 3.0f32.to_bits());
}

#[test]
fn b1_16bit_lsr_asr_imm32() {
    let mut h = Harness::new();

    h.cpu.regs[2] = 0x8000_0000;
    h.exec_halfword(0x0813);
    assert_eq!(h.cpu.regs[3], 0x0000_0000, "LSRS #32 → 0");
    assert_eq!(h.nzcv(), 0b0110, "Z 置位 + C 置位（bit31 移出）");

    h.exec_halfword(0x1013);
    assert_eq!(h.cpu.regs[3], 0xFFFF_FFFF, "ASRS #32 → 0xFFFFFFFF");
    assert_eq!(h.nzcv(), 0b1010, "N 置位 + C 置位（bit31 移出）");

    h.exec_halfword(0x0FD3);
    assert_eq!(h.cpu.regs[3], 0x0000_0001, "LSRS #31 → 1");
    assert_eq!(h.nzcv(), 0, "N/Z/C 清零");

    h.exec_halfword(0x17D3);
    assert_eq!(h.cpu.regs[3], 0xFFFF_FFFF, "ASRS #31 → 0xFFFFFFFF");
    assert_eq!(h.nzcv(), 0b1000, "N 置位");

    h.cpu.regs[2] = 0x1234_5678;
    h.exec_halfword(0x0013);
    assert_eq!(h.cpu.regs[3], 0x1234_5678, "LSLS #0 不移位");
}

#[test]
fn b2_movs_imm32_not_pc_tainted() {
    let mut h = Harness::new();
    h.cpu.regs[15] = 0x54;

    assert_eq!(h.exec_word(0xF45F_4000), ExecOutcome::Continue);
    assert_eq!(h.cpu.regs[0], 0x0000_8000, "MOVS.W #0x8000 → 0x8000（不读 PC）");
    assert_eq!(h.nzcv(), 0, "N/Z/C/V 均清零（0x8000 非负非零）");

    h.cpu.xpsr = 0x8000_0000;
    h.exec_word(0xF44F_4000);
    assert_eq!(h.cpu.regs[0], 0x0000_8000);
    assert_eq!(h.nzcv(), 0b1000, "MOV.W 不置标志（N 保持）");

    let outcome = h.exec_word(0xF45F_4F80);
    assert!(matches!(outcome, ExecOutcome::Fault { .. }), "MOVS.W r15 → Fault/Unimplemented，不得静默写 PC");
}

#[test]
fn p1_cpsie_cpsid_primask_faultmask() {
    let mut h = Harness::new();

    assert_eq!(h.cpu.primask, 0);
    assert_eq!(h.cpu.faultmask, 0);

    assert_eq!(h.exec_halfword(0xB672), ExecOutcome::Continue);
    assert_eq!(h.exec_halfword(0xB671), ExecOutcome::Continue);

    assert_eq!(h.cpu.primask, 1, "cpsid i 置 PRIMASK");
    assert_eq!(h.cpu.faultmask, 1, "cpsid f 置 FAULTMASK");

    assert_eq!(h.exec_halfword(0xB662), ExecOutcome::Continue);
    assert_eq!(h.exec_halfword(0xB661), ExecOutcome::Continue);

    assert_eq!(h.cpu.primask, 0, "cpsie i 清 PRIMASK");
    assert_eq!(h.cpu.faultmask, 0, "cpsie f 清 FAULTMASK");
}

#[test]
fn p1_barriers_noop() {
    let mut h = Harness::new();
    h.cpu.regs[0] = 0x1234_5678;
    let before_xpsr = h.cpu.xpsr;

    for word in [0xF3BF_8F4Fu32, 0xF3BF_8F5F, 0xF3BF_8F6F] {
        assert_eq!(h.exec_word(word), ExecOutcome::Continue, "{word:#010x} 不应 fault");
    }

    assert_eq!(h.cpu.regs[0], 0x1234_5678);
    assert_eq!(h.cpu.xpsr, before_xpsr);
}

#[test]
fn p1_ldm_stm_32bit_family() {
    let mut h = Harness::new();

    h.cpu.regs[0] = 0x2000_0000;
    for (i, reg) in [4u8, 5, 6, 7, 8, 9, 10, 11, 14].iter().enumerate() {
        h.cpu.regs[*reg as usize] = 0x1000 + i as u32;
    }
    assert_eq!(h.exec_word(0xE8A0_4FF0), ExecOutcome::Continue);
    assert_eq!(h.cpu.regs[0], 0x2000_0024, "STMIA 回写 = base+4×9");
    assert_eq!(h.mem.read_u32(0x2000_0000).unwrap(), 0x1000, "r4");
    assert_eq!(h.mem.read_u32(0x2000_0020).unwrap(), 0x1008, "r14 在最后槽");

    for i in 0..16 {
        h.cpu.regs[i] = 0;
    }
    h.cpu.regs[0] = 0x2000_0000;
    assert_eq!(h.exec_word(0xE8B0_4FF0), ExecOutcome::Continue);
    assert_eq!(h.cpu.regs[4], 0x1000);
    assert_eq!(h.cpu.regs[11], 0x1007);
    assert_eq!(h.cpu.regs[14], 0x1008);
    assert_eq!(h.cpu.regs[0], 0x2000_0024, "LDMIA 回写");

    h.cpu.regs[0] = 0x2000_0024;
    assert_eq!(h.exec_word(0xE920_4FF0), ExecOutcome::Continue);
    assert_eq!(h.cpu.regs[0], 0x2000_0000, "STMDB 回写 = base-4×9");
    assert_eq!(h.mem.read_u32(0x2000_0000).unwrap(), 0x1000, "r4 在最低地址");
    assert_eq!(h.mem.read_u32(0x2000_0020).unwrap(), 0x1008, "r14 在最高槽");

    for i in 0..16 {
        h.cpu.regs[i] = 0;
    }
    h.cpu.regs[0] = 0x2000_0024;
    assert_eq!(h.exec_word(0xE930_4FF0), ExecOutcome::Continue);
    assert_eq!(h.cpu.regs[4], 0x1000);
    assert_eq!(h.cpu.regs[14], 0x1008);
    assert_eq!(h.cpu.regs[0], 0x2000_0000, "LDMDB 回写");

    h.cpu.regs[13] = 0x2000_0100;
    for i in 0..16 {
        h.cpu.regs[i] = 0;
    }
    h.cpu.regs[13] = 0x2000_0100;

    for (j, val) in [0x1111u32, 0x2222, 0x3333, 0x4444, 0x5555, 0x6666, 0x7777, 0x8888, 0x0800_0001]
        .iter()
        .enumerate()
    {
        h.mem.write_u32(0x2000_0100 + (j as u32) * 4, *val).unwrap();
    }
    let out = h.exec_word(0xE8BD_8FF0);
    assert!(
        matches!(out, ExecOutcome::Branch { target: 0x0800_0000 }),
        "LDM 含 pc → Branch 语义清 T 位"
    );
    assert_eq!(h.cpu.regs[4], 0x1111);

    assert_eq!(h.cpu.regs[13], 0x2000_0124, "SP 回写 = base+4×9");
}

#[test]
fn p1_clz() {
    let mut h = Harness::new();

    h.cpu.regs[1] = 0x0000_0001;
    assert_eq!(h.exec_word(0xFAB1_F081), ExecOutcome::Continue);
    assert_eq!(h.cpu.regs[0], 31);

    h.cpu.regs[1] = 0x8000_0000;
    assert_eq!(h.exec_word(0xFAB1_F081), ExecOutcome::Continue);
    assert_eq!(h.cpu.regs[0], 0);

    h.cpu.regs[1] = 0;
    assert_eq!(h.exec_word(0xFAB1_F081), ExecOutcome::Continue);
    assert_eq!(h.cpu.regs[0], 32);

    h.cpu.regs[1] = 0x00FF_0000;
    assert_eq!(h.exec_word(0xFAB1_F081), ExecOutcome::Continue);
    assert_eq!(h.cpu.regs[0], 8);
}

#[test]
fn p1_rev_family() {
    let mut h = Harness::new();

    h.cpu.regs[1] = 0xAABB_CCDD;
    assert_eq!(h.exec_halfword(0xBA08), ExecOutcome::Continue);
    assert_eq!(h.cpu.regs[0], 0xDDCC_BBAA, "REV 整字反转");

    h.cpu.regs[1] = 0xAABB_CCDD;
    assert_eq!(h.exec_halfword(0xBA48), ExecOutcome::Continue);
    assert_eq!(h.cpu.regs[0], 0xBBAA_DDCC, "REV16 半字内反转");

    h.cpu.regs[1] = 0x0000_00DD;
    assert_eq!(h.exec_halfword(0xBAC8), ExecOutcome::Continue);
    assert_eq!(h.cpu.regs[0], 0xFFFF_DD00u32, "REVSH 符号扩展");

    h.cpu.regs[1] = 0x0000_004D;
    assert_eq!(h.exec_halfword(0xBAC8), ExecOutcome::Continue);
    assert_eq!(h.cpu.regs[0], 0x0000_4D00, "REVSH 正值符号扩展");
}

#[test]
fn p1_bitfield_ops() {
    let mut h = Harness::new();

    h.cpu.regs[1] = 0x0000_00F8;
    assert_eq!(h.exec_word(0xF3C1_00C4), ExecOutcome::Continue);
    assert_eq!(h.cpu.regs[0], 0x1F);
    h.cpu.regs[1] = 0xFFFF_FFFF;
    assert_eq!(h.exec_word(0xF3C1_00C4), ExecOutcome::Continue);
    assert_eq!(h.cpu.regs[0], 0x1F, "UBFX 无符号：全 1 只取 5 位");

    h.cpu.regs[1] = 0xFFFF_FFFF;
    assert_eq!(h.exec_word(0xF341_00C4), ExecOutcome::Continue);
    assert_eq!(h.cpu.regs[0], 0xFFFF_FFFFu32, "SBFX 全 1 → 符号扩展后仍全 1");
    h.cpu.regs[1] = 0x0000_0018;
    assert_eq!(h.exec_word(0xF341_00C4), ExecOutcome::Continue);
    assert_eq!(h.cpu.regs[0], 3);

    h.cpu.regs[0] = 0xFFFF_FFFF;
    h.cpu.regs[1] = 0x0000_0000;
    assert_eq!(h.exec_word(0xF361_00C7), ExecOutcome::Continue);
    assert_eq!(h.cpu.regs[0], 0xFFFF_FF07, "BFI 清 bits[7:3] 后插入 0");
    h.cpu.regs[1] = 0x0000_001F;
    assert_eq!(h.exec_word(0xF361_00C7), ExecOutcome::Continue);
    assert_eq!(h.cpu.regs[0], 0xFFFF_FFFF, "BFI 插入全 1");

    h.cpu.regs[0] = 0xFFFF_FFFF;
    assert_eq!(h.exec_word(0xF36F_00C7), ExecOutcome::Continue);
    assert_eq!(h.cpu.regs[0], 0xFFFF_FF07, "BFC 清除 bits[7:3]");
}

#[test]
fn p1_ldrex_strex() {
    let mut h = Harness::new();

    h.cpu.regs[1] = 0x2000_0000;
    h.mem.write_u32(0x2000_0000, 0xDEAD_BEEF).unwrap();
    assert_eq!(h.exec_word(0xE851_0F00), ExecOutcome::Continue);
    assert_eq!(h.cpu.regs[0], 0xDEAD_BEEF);

    h.cpu.regs[2] = 0x2000_0000;
    h.cpu.regs[1] = 0x1122_3344;
    assert_eq!(h.exec_word(0xE842_1000), ExecOutcome::Continue);
    assert_eq!(h.mem.read_u32(0x2000_0000).unwrap(), 0x1122_3344, "STREX 写入");
    assert_eq!(h.cpu.regs[0], 0, "STREX 单核语义成功 → Rd=0");

    h.cpu.regs[10] = 0x2000_0000;
    h.mem.write_u16(0x2000_0000, 0xABCD).unwrap();
    assert_eq!(h.exec_word(0xE8DA_9F5F), ExecOutcome::Continue);
    assert_eq!(h.cpu.regs[9], 0xABCD);

    h.cpu.regs[0] = 0x2000_0000;
    h.cpu.regs[12] = 0x0000_CDEF;
    assert_eq!(h.exec_word(0xE8C0_CF5B), ExecOutcome::Continue);
    assert_eq!(h.mem.read_u16(0x2000_0000).unwrap(), 0xCDEF);
    assert_eq!(h.cpu.regs[11], 0);

    h.cpu.regs[5] = 0x2000_0000;
    h.mem.write_u8(0x2000_0000, 0x7F).unwrap();
    assert_eq!(h.exec_word(0xE8D5_4F4F), ExecOutcome::Continue);
    assert_eq!(h.cpu.regs[4], 0x7F);

    h.cpu.regs[8] = 0x2000_0000;
    h.cpu.regs[7] = 0x5A;
    assert_eq!(h.exec_word(0xE8C8_7F46), ExecOutcome::Continue);
    assert_eq!(h.mem.read_u8(0x2000_0000).unwrap(), 0x5A);
    assert_eq!(h.cpu.regs[6], 0);
}

#[test]
fn p1_mull_long() {
    let mut h = Harness::new();

    h.cpu.regs[2] = 0xFFFF_FFFF;
    h.cpu.regs[3] = 0xFFFF_FFFF;
    assert_eq!(h.exec_word(0xFBA2_0103), ExecOutcome::Continue);
    assert_eq!(h.cpu.regs[0], 0x0000_0001, "UMULL 低 32 位");
    assert_eq!(h.cpu.regs[1], 0xFFFF_FFFE, "UMULL 高 32 位");

    h.cpu.regs[6] = 0xFFFF_FFFF;
    h.cpu.regs[7] = 0xFFFF_FFFF;
    assert_eq!(h.exec_word(0xFB86_4507), ExecOutcome::Continue);
    assert_eq!(h.cpu.regs[4], 1, "SMULL 低 32 位");
    assert_eq!(h.cpu.regs[5], 0, "SMULL 高 32 位");

    h.cpu.regs[6] = 0x8000_0000;
    h.cpu.regs[7] = 2;
    assert_eq!(h.exec_word(0xFB86_4507), ExecOutcome::Continue);
    assert_eq!(h.cpu.regs[4], 0, "SMULL 低 32 位（负数积）");
    assert_eq!(h.cpu.regs[5], 0xFFFF_FFFF, "SMULL 高 32 位（符号填充）");

    h.cpu.regs[0] = 5;
    h.cpu.regs[1] = 0;
    h.cpu.regs[2] = 0x100;
    h.cpu.regs[3] = 0x100;
    assert_eq!(h.exec_word(0xFBC2_0103), ExecOutcome::Continue);
    assert_eq!(h.cpu.regs[0], 0x0001_0005, "SMLAL 累加低 32 位");
    assert_eq!(h.cpu.regs[1], 0, "SMLAL 累加高 32 位");
}

#[test]
fn p1_ldr_str_writeback() {
    let mut h = Harness::new();

    h.cpu.regs[1] = 0x2000_0000;
    h.mem.write_u32(0x2000_0008, 0xCAFE_BABE).unwrap();
    assert_eq!(h.exec_word(0xF851_0F08), ExecOutcome::Continue);
    assert_eq!(h.cpu.regs[0], 0xCAFE_BABE, "前变址 LDR 读值");
    assert_eq!(h.cpu.regs[1], 0x2000_0008, "前变址回写 rn=addr");

    h.cpu.regs[3] = 0x2000_0100;
    h.cpu.regs[2] = 0x1122_3344;
    assert_eq!(h.exec_word(0xF843_2F0C), ExecOutcome::Continue);
    assert_eq!(h.mem.read_u32(0x2000_010C).unwrap(), 0x1122_3344, "前变址 STR 写入");
    assert_eq!(h.cpu.regs[3], 0x2000_010C, "前变址 STR 回写");

    h.cpu.regs[1] = 0x2000_0020;
    h.mem.write_u32(0x2000_0020, 0xDEAD_BEEF).unwrap();
    assert_eq!(h.exec_word(0xF851_0B08), ExecOutcome::Continue);
    assert_eq!(h.cpu.regs[0], 0xDEAD_BEEF, "后变址 LDR 读 base 处");
    assert_eq!(h.cpu.regs[1], 0x2000_0028, "后变址回写 rn=base+imm");

    h.cpu.regs[3] = 0x2000_0100;
    h.cpu.regs[2] = 0x5566_7788;
    assert_eq!(h.exec_word(0xF843_2B0C), ExecOutcome::Continue);
    assert_eq!(h.mem.read_u32(0x2000_0100).unwrap(), 0x5566_7788, "后变址 STR 写 base 处");
    assert_eq!(h.cpu.regs[3], 0x2000_010C, "后变址 STR 回写");

    h.cpu.regs[1] = 0x2000_0030;
    h.mem.write_u16(0x2000_0034, 0xABCD).unwrap();
    assert_eq!(h.exec_word(0xF831_0F04), ExecOutcome::Continue);
    assert_eq!(h.cpu.regs[0], 0xABCD, "LDRH 零扩展");
    assert_eq!(h.cpu.regs[1], 0x2000_0034, "LDRH 回写");

    h.cpu.regs[1] = 0x2000_0040;
    h.mem.write_u16(0x2000_0046, 0x8000).unwrap();
    assert_eq!(h.exec_word(0xF931_0F06), ExecOutcome::Continue);
    assert_eq!(h.cpu.regs[0], 0xFFFF_8000, "LDRSH 符号扩展");
    assert_eq!(h.cpu.regs[1], 0x2000_0046, "LDRSH 回写");

    h.cpu.regs[1] = 0x2000_0050;
    h.mem.write_u8(0x2000_0052, 0x7F).unwrap();
    assert_eq!(h.exec_word(0xF811_0F02), ExecOutcome::Continue);
    assert_eq!(h.cpu.regs[0], 0x7F, "LDRB 零扩展");
    assert_eq!(h.cpu.regs[1], 0x2000_0052, "LDRB 回写");

    h.cpu.regs[1] = 0x2000_0060;
    h.mem.write_u8(0x2000_0063, 0x80).unwrap();
    assert_eq!(h.exec_word(0xF911_0F03), ExecOutcome::Continue);
    assert_eq!(h.cpu.regs[0], 0xFFFF_FF80, "LDRSB 符号扩展");
    assert_eq!(h.cpu.regs[1], 0x2000_0063, "LDRSB 回写");
}

#[test]
fn wip_add_sub_shifted_exec() {
    let mut h = Harness::new();

    h.cpu.regs[1] = 0x10;
    h.cpu.regs[0] = 3;
    assert_eq!(h.exec_word(0xEB01_0E80), ExecOutcome::Continue);
    assert_eq!(h.cpu.regs[14], 0x1C, "ADD 带 LSL#2 移位");

    h.cpu.regs[3] = 0x20;
    h.cpu.regs[4] = 3;
    assert_eq!(h.exec_word(0xEBA3_0244), ExecOutcome::Continue);
    assert_eq!(h.cpu.regs[2], 0x1A, "SUB 带 LSL#1 移位");

    h.cpu.regs[1] = 0x7FFF_FFFF;
    h.cpu.regs[0] = 1;
    assert_eq!(h.exec_word(0xEB11_0E80), ExecOutcome::Continue);
    assert_eq!(h.cpu.regs[14], 0x8000_0003, "0x7FFFFFFF + (1<<2)");
    assert_eq!(h.nzcv(), 0b1001, "正+正溢出：N=1 V=1 C=0");
}

#[test]
fn wip_rsb_exec() {
    let mut h = Harness::new();
    h.cpu.regs[0] = 0x10;
    assert_eq!(h.exec_word(0xF1C0_0301), ExecOutcome::Continue);
    assert_eq!(h.cpu.regs[3], 0xFFFF_FFF1, "RSB imm：imm - Rn");

    h.cpu.regs[0] = 0x10;
    assert_eq!(h.exec_word(0xF1C0_0301 | 0x0010_0000), ExecOutcome::Continue);
    assert_eq!(h.nzcv(), 0b1000, "RSBS：N=1 C=0（无符号借位）");
    h.cpu.regs[1] = 0x20;
    h.cpu.regs[2] = 5;
    assert_eq!(h.exec_word(0xEBC1_0502), ExecOutcome::Continue);
    assert_eq!(h.cpu.regs[5], 0xFFFF_FFE5, "RSB reg：Rm - Rn");
}

#[test]
fn wip_ldr_str_negative_offset_exec() {
    let mut h = Harness::new();
    h.cpu.regs[0] = 0x2000_0004;
    h.cpu.regs[3] = 0xDEAD_BEEF;
    assert_eq!(h.exec_word(0xF840_3C04), ExecOutcome::Continue);
    assert_eq!(h.mem.read_u32(0x2000_0000).unwrap(), 0xDEAD_BEEF, "STR 负偏移");
    assert_eq!(h.cpu.regs[0], 0x2000_0004, "STR 不回写基址");
    assert_eq!(h.exec_word(0xF850_3C04), ExecOutcome::Continue);
    assert_eq!(h.cpu.regs[3], 0xDEAD_BEEF, "LDR 负偏移读回");
}

#[test]
fn wip_ldr_reg_shifted_offset_exec() {
    let mut h = Harness::new();
    h.cpu.regs[1] = 0x2000_0010;
    h.cpu.regs[0] = 4;
    h.mem.write_u32(0x2000_0020, 0xCAFE_F00D).unwrap();
    assert_eq!(h.exec_word(0xF851_3020), ExecOutcome::Continue);
    assert_eq!(h.cpu.regs[3], 0xCAFE_F00D, "LDR 寄存器移位偏移");
}

#[test]
fn wip_data_proc_reg_flags() {
    let mut h = Harness::new();

    h.cpu.regs[1] = 0x0F00;
    assert_eq!(h.exec_word(0xEA6F_0001 | 0x0010_0000), ExecOutcome::Continue);
    assert_eq!(h.cpu.regs[0], 0xFFFF_F0FF);
    assert_eq!(h.nzcv(), 0b1000, "MVNS：N=1");

    h.cpu.regs[7] = 1;
    h.cpu.regs[8] = 1;
    h.cpu.xpsr = 1 << 29;
    assert_eq!(h.exec_word(0xEB47_0608 | 0x0010_0000), ExecOutcome::Continue);
    assert_eq!(h.cpu.regs[6], 3);
    assert_eq!(h.nzcv(), 0, "ADCS：1+1+C=3，无进位出");

    h.cpu.regs[10] = 5;
    h.cpu.regs[11] = 2;
    h.cpu.xpsr = 1 << 29;
    assert_eq!(h.exec_word(0xEB6A_090B | 0x0010_0000), ExecOutcome::Continue);
    assert_eq!(h.cpu.regs[9], 3, "SBC：a - b - ~C，C=1 → 5-2-0=3");
    assert_eq!(h.nzcv(), 0b0010, "SBCS：无借位 C=1，N/Z 清零");
}

#[test]
fn freertos_extend_16bit() {
    let mut h = Harness::new();
    h.cpu.regs[3] = 0xFFFF_80FF;

    assert_eq!(h.exec_halfword(0xB21A), ExecOutcome::Continue);
    assert_eq!(h.cpu.regs[2], 0xFFFF_80FF, "SXTH：0x80FF 符号扩展");

    assert_eq!(h.exec_halfword(0xB25A), ExecOutcome::Continue);
    assert_eq!(h.cpu.regs[2], 0xFFFF_FFFF, "SXTB：0xFF 符号扩展");

    assert_eq!(h.exec_halfword(0xB29A), ExecOutcome::Continue);
    assert_eq!(h.cpu.regs[2], 0x0000_80FF, "UXTH：零扩展");

    assert_eq!(h.exec_halfword(0xB2DB), ExecOutcome::Continue);
    assert_eq!(h.cpu.regs[3], 0x0000_00FF, "UXTB：零扩展");
}

#[test]
fn freertos_shift_register_32bit() {
    let mut h = Harness::new();

    h.cpu.regs[7] = 0x8000_0001;
    h.cpu.regs[1] = 1;
    assert_eq!(h.exec_word(0xFA07_F101), ExecOutcome::Continue);
    assert_eq!(h.cpu.regs[1], 0x0000_0002, "LSL.W 寄存器移位量");

    h.cpu.regs[3] = 0x8000_0000;
    h.cpu.regs[4] = 4;
    assert_eq!(h.exec_word(0xFA23_F204), ExecOutcome::Continue);
    assert_eq!(h.cpu.regs[2], 0x0800_0000, "LSR.W");

    h.cpu.regs[6] = 0x8000_0000;
    h.cpu.regs[7] = 4;
    assert_eq!(h.exec_word(0xFA46_F507), ExecOutcome::Continue);
    assert_eq!(h.cpu.regs[5], 0xF800_0000, "ASR.W 符号填充");

    h.cpu.regs[1] = 0x8000_0001;
    h.cpu.regs[2] = 1;
    assert_eq!(h.exec_word(0xFA61_F002), ExecOutcome::Continue);
    assert_eq!(h.cpu.regs[0], 0xC000_0000, "ROR.W");
}

#[test]
fn freertos_strb_neg_pre_index_wb() {
    let mut h = Harness::new();
    h.cpu.regs[12] = 0x2000_0020;
    h.cpu.regs[2] = 0x41;
    assert_eq!(h.exec_word(0xF80C_2D01), ExecOutcome::Continue);
    assert_eq!(h.mem.read_u8(0x2000_001F).unwrap(), 0x41, "写入 [ip-1]");
    assert_eq!(h.cpu.regs[12], 0x2000_001F, "前变址回写 ip -= 1");

    h.cpu.regs[12] = 0x2000_0030;
    assert_eq!(h.exec_word(0xF80C_2C01), ExecOutcome::Continue);
    assert_eq!(h.mem.read_u8(0x2000_002F).unwrap(), 0x41);
    assert_eq!(h.cpu.regs[12], 0x2000_0030, "无回写形式 ip 不变");

    h.mem.write_u8(0x2000_004E, 0x7F).unwrap();
    h.cpu.regs[12] = 0x2000_004F;
    assert_eq!(h.exec_word(0xF81C_2D01), ExecOutcome::Continue);
    assert_eq!(h.cpu.regs[2], 0x7F, "LDRB 前变址负偏移");
    assert_eq!(h.cpu.regs[12], 0x2000_004E, "回写");
}

#[test]
fn freertos_adds_reg_sets_flags() {
    let mut h = Harness::new();
    h.cpu.xpsr = 1 << 29;
    h.cpu.regs[4] = 0xFFFF_FFFF;
    h.cpu.regs[6] = 1;

    assert_eq!(h.exec_halfword(0x19A4), ExecOutcome::Continue);
    assert_eq!(h.cpu.regs[4], 0);
    assert_eq!(h.nzcv(), 0b0110, "ADDS：Z=1 且 C=1（进位出）");

    assert_eq!(h.exec_halfword(0x19A4), ExecOutcome::Continue);
    assert_eq!(h.cpu.regs[4], 1);
    assert_eq!(h.nzcv(), 0b0000, "ADDS：C=0（无进位）");

    h.cpu.regs[3] = 5;
    h.cpu.regs[2] = 5;
    assert_eq!(h.exec_halfword(0x1A9B), ExecOutcome::Continue);
    assert_eq!(h.cpu.regs[3], 0);
    assert_eq!(h.nzcv(), 0b0110, "SUBS：Z=1 且 C=1");
}

#[test]
fn freertos_addsub_shifted_reg() {
    let mut h = Harness::new();

    h.cpu.regs[3] = 4;
    assert_eq!(h.exec_word(0xEB03_0283), ExecOutcome::Continue);
    assert_eq!(h.cpu.regs[2], 20, "ADD Rd, Rn, Rm, LSL#2");

    h.cpu.regs[4] = 42;
    assert_eq!(h.exec_word(0xEBA4_0242), ExecOutcome::Continue);
    assert_eq!(h.cpu.regs[2], 2, "SUB Rd, Rn, Rm, LSL#1");
}

#[test]
fn freertos_pop_pc_exc_return() {
    let mut h = Harness::new();

    h.cpu.regs[13] = 0x2000_0800;
    h.mem.write_u32(0x2000_0800, 0x1111_1111).unwrap();
    h.mem.write_u32(0x2000_0804, 0xFFFF_FFFD).unwrap();
    let outcome = h.exec_halfword(0xBD08);
    assert_eq!(
        outcome,
        ExecOutcome::ExceptionReturn { exc_return: 0xFFFF_FFFD },
        "POP{{pc}} 装入 EXC_RETURN 应产生异常返回"
    );
    assert_eq!(h.cpu.regs[13], 0x2000_0808, "SP 已弹 8 字节");
    assert_eq!(h.cpu.regs[3], 0x1111_1111);
}

#[test]
fn golden_nopw_executes_as_nop() {
    let mut h = Harness::new();
    h.cpu.regs[15] = 0x1000;

    let out = h.exec_word(0xF3AF_8000);

    assert_eq!(out, ExecOutcome::Continue);

    assert_eq!(h.decoder.decode_word(0xF3AF_8000, 0x1000), Instruction::Nop);

    assert_eq!(h.decoder.decode_word(0xF3AF_8003, 0x1000), Instruction::Nop);
}

#[test]
fn golden_vldm_vstm_s16_s31_roundtrip() {
    let mut h = Harness::new();
    h.cpu.regs[0] = 0x2000_1000;

    for i in 0..16u32 {
        h.cpu.fpu.write_s((16 + i) as usize, 0x5A00_0000 + i);
    }

    let out = h.exec_word(0xED20_8A10);
    assert_eq!(out, ExecOutcome::Continue);

    assert_eq!(h.cpu.regs[0], 0x2000_1000 - 0x40, "VSTMDB 回写 SP");

    for i in 0..16u32 {
        let addr = 0x2000_0FC0 + i * 4;
        let v = h.mem.read_u32(addr).expect("栈读取");
        assert_eq!(v, 0x5A00_0000 + i, "栈[{addr:#x}] = s{}", 16 + i);
    }

    for i in 0..16u32 {
        h.cpu.fpu.write_s((16 + i) as usize, 0);
    }
    let out = h.exec_word(0xECB0_8A10);
    assert_eq!(out, ExecOutcome::Continue);

    assert_eq!(h.cpu.regs[0], 0x2000_1000, "VLDMIA 回写 SP");
    for i in 0..16u32 {
        assert_eq!(
            h.cpu.fpu.read_s((16 + i) as usize),
            0x5A00_0000 + i,
            "s{} 恢复",
            16 + i
        );
    }
}

#[test]
fn golden_vldr_vstr_large_offset_exec() {
    let mut h = Harness::new();
    h.cpu.regs[1] = 0x2000_0040;
    h.cpu.fpu.write_s(0, 0xDEAD_BEEF);

    assert_eq!(h.exec_word(0xED81_0A10), ExecOutcome::Continue);
    assert_eq!(h.mem.read_u32(0x2000_0080).unwrap(), 0xDEAD_BEEF);

    h.cpu.fpu.write_s(0, 0);
    assert_eq!(h.exec_word(0xED91_0A10), ExecOutcome::Continue);
    assert_eq!(h.cpu.fpu.read_s(0), 0xDEAD_BEEF);
}

#[test]
fn golden_it_block_shift_preserves_c() {
    let mut h = Harness::new();

    h.cpu.xpsr = (1 << 29) | (1 << 30);
    h.cpu.regs[0] = 0x4000_0000;

    for (i, b) in [0x0C, 0xBF, 0x40, 0x00].iter().enumerate() {
        h.mem.flash[i] = *b;
    }
    let mut nvic = dtwin::nvic::Nvic::new();
    let mut eng = dtwin::engine::Engine::new();

    for _ in 0..2 {
        assert_eq!(
            eng.step(&mut h.cpu, &mut h.mem, &mut nvic),
            dtwin::engine::EngineResult::Halted
        );
    }

    assert_eq!(h.cpu.regs[0], 0x8000_0000, "移位结果照常写入");
    assert_eq!(
        h.cpu.xpsr & ((1 << 29) | (1 << 30)),
        (1 << 29) | (1 << 30),
        "IT 块内移位不更新 C/Z（N/Z/C/V 全抑制）"
    );

    let mut h2 = Harness::new();
    h2.cpu.xpsr = (1 << 29) | (1 << 30);
    h2.cpu.regs[0] = 0x4000_0000;
    assert_eq!(h2.exec_halfword(0x0040), ExecOutcome::Continue);
    assert_eq!(h2.cpu.xpsr & (1 << 29), 0, "块外 LSLS 正常更新 C=0");
    assert_eq!(h2.cpu.xpsr & (1 << 30), 0, "块外 LSLS 正常更新 Z=0");
    assert_eq!(h2.cpu.xpsr & (1 << 31), 1 << 31, "块外 LSLS 正常更新 N=1");
}

#[test]
fn golden_it_block_sbc_preserves_flags() {
    let mut h = Harness::new();

    h.cpu.xpsr = (1 << 31) | (1 << 30) | (1 << 28);
    h.cpu.regs[0] = 5;
    h.cpu.regs[1] = 3;

    for (i, b) in [0x0C, 0xBF, 0x88, 0x41].iter().enumerate() {
        h.mem.flash[i] = *b;
    }
    let mut nvic = dtwin::nvic::Nvic::new();
    let mut eng = dtwin::engine::Engine::new();

    for _ in 0..2 {
        assert_eq!(
            eng.step(&mut h.cpu, &mut h.mem, &mut nvic),
            dtwin::engine::EngineResult::Halted
        );
    }

    assert_eq!(h.cpu.regs[0], 1);
    assert_eq!(
        h.cpu.xpsr,
        (1 << 31) | (1 << 30) | (1 << 28),
        "IT 块内 SBC 不更新任何标志"
    );

    let mut h2 = Harness::new();
    h2.cpu.xpsr = (1 << 31) | (1 << 30) | (1 << 28);
    h2.cpu.regs[0] = 5;
    h2.cpu.regs[1] = 3;
    assert_eq!(h2.exec_halfword(0x4188), ExecOutcome::Continue);
    assert_eq!(h2.cpu.regs[0], 1);
    assert_eq!(h2.cpu.xpsr & (1 << 29), 1 << 29, "块外 SBC 正常更新 C=1（无借位）");
}
