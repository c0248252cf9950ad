//! The instruction decoder.
use dtwin::engine::decode::{
    AccessWidth, BarrierKind, BitFieldKind, Cond, Decoder, Instruction, LoadStoreOffset, RevKind,
    ShiftAmount, ShiftKind, SpecialReg,
};

#[test]
fn decode_16bit_ldr_str_imm() {
    let mut d = Decoder::new();

    assert_eq!(
        d.decode_halfword(0x60C8, 0),
        Instruction::Str {
            rt: 0,
            rn: 1,
            offset: LoadStoreOffset::Immediate(12),
            width: AccessWidth::Word,
        }
    );

    assert_eq!(
        d.decode_halfword(0x695A, 0),
        Instruction::Ldr {
            rt: 2,
            rn: 3,
            offset: LoadStoreOffset::Immediate(20),
            width: AccessWidth::Word,
        }
    );

    assert_eq!(
        d.decode_halfword(0x71EC, 0),
        Instruction::Str {
            rt: 4,
            rn: 5,
            offset: LoadStoreOffset::Immediate(7),
            width: AccessWidth::Byte,
        }
    );

    assert_eq!(
        d.decode_halfword(0x78FE, 0),
        Instruction::Ldr {
            rt: 6,
            rn: 7,
            offset: LoadStoreOffset::Immediate(3),
            width: AccessWidth::Byte,
        }
    );

    assert_eq!(
        d.decode_halfword(0x80C8, 0),
        Instruction::Str {
            rt: 0,
            rn: 1,
            offset: LoadStoreOffset::Immediate(6),
            width: AccessWidth::HalfWord,
        }
    );

    assert_eq!(
        d.decode_halfword(0x895A, 0),
        Instruction::Ldr {
            rt: 2,
            rn: 3,
            offset: LoadStoreOffset::Immediate(10),
            width: AccessWidth::HalfWord,
        }
    );
}

#[test]
fn decode_16bit_ldr_str_reg() {
    let mut d = Decoder::new();

    assert_eq!(
        d.decode_halfword(0x5088, 0),
        Instruction::Str {
            rt: 0,
            rn: 1,
            offset: LoadStoreOffset::Register(2),
            width: AccessWidth::Word,
        }
    );

    assert_eq!(
        d.decode_halfword(0x5488, 0),
        Instruction::Str {
            rt: 0,
            rn: 1,
            offset: LoadStoreOffset::Register(2),
            width: AccessWidth::Byte,
        }
    );

    assert_eq!(
        d.decode_halfword(0x5963, 0),
        Instruction::Ldr {
            rt: 3,
            rn: 4,
            offset: LoadStoreOffset::Register(5),
            width: AccessWidth::Word,
        }
    );

    assert_eq!(
        d.decode_halfword(0x5D63, 0),
        Instruction::Ldr {
            rt: 3,
            rn: 4,
            offset: LoadStoreOffset::Register(5),
            width: AccessWidth::Byte,
        }
    );
}

#[test]
fn decode_16bit_sp_relative_multi_branch() {
    let mut d = Decoder::new();

    assert_eq!(
        d.decode_halfword(0x9001, 0),
        Instruction::Str {
            rt: 0,
            rn: 13,
            offset: LoadStoreOffset::Immediate(4),
            width: AccessWidth::Word,
        }
    );

    assert_eq!(
        d.decode_halfword(0x9801, 0),
        Instruction::Ldr {
            rt: 0,
            rn: 13,
            offset: LoadStoreOffset::Immediate(4),
            width: AccessWidth::Word,
        }
    );

    assert_eq!(
        d.decode_halfword(0xC006, 0),
        Instruction::Stm {
            rn: 0,
            regs: 0b110,
            writeback: true,
            descending: false,
        }
    );

    assert_eq!(
        d.decode_halfword(0xC806, 0),
        Instruction::Ldm {
            rn: 0,
            regs: 0b110,
            writeback: true,
            descending: false,
        }
    );

    assert_eq!(
        d.decode_halfword(0xD006, 0x1000),
        Instruction::Branch {
            cond: Some(Cond::Eq),
            target: 0x1000 + 4 + 12,
        }
    );

    assert_eq!(
        d.decode_halfword(0xD106, 0x1000),
        Instruction::Branch {
            cond: Some(Cond::Ne),
            target: 0x1000 + 4 + 12,
        }
    );
}

#[test]
fn decode_mrs_variants() {
    let mut d = Decoder::new();

    assert_eq!(
        d.decode_word(0xF3EF_8000, 0),
        Instruction::MsrMrs {
            rt: 0,
            reg: SpecialReg::Apsr,
            read: true,
        }
    );

    assert_eq!(
        d.decode_word(0xF3EF_8005, 0),
        Instruction::MsrMrs {
            rt: 0,
            reg: SpecialReg::Ipsr,
            read: true,
        }
    );

    assert_eq!(
        d.decode_word(0xF3EF_8006, 0),
        Instruction::MsrMrs {
            rt: 0,
            reg: SpecialReg::Epsr,
            read: true,
        }
    );

    assert_eq!(
        d.decode_word(0xF3EF_8010, 0),
        Instruction::MsrMrs {
            rt: 0,
            reg: SpecialReg::Primask,
            read: true,
        }
    );

    assert_eq!(
        d.decode_word(0xF3EF_8314, 0),
        Instruction::MsrMrs {
            rt: 3,
            reg: SpecialReg::Control,
            read: true,
        }
    );

    assert_eq!(
        d.decode_word(0xF3EF_8008, 0),
        Instruction::MsrMrs {
            rt: 0,
            reg: SpecialReg::Msp,
            read: true,
        }
    );

    assert_eq!(
        d.decode_word(0xF3EF_8113, 0),
        Instruction::MsrMrs {
            rt: 1,
            reg: SpecialReg::Faultmask,
            read: true,
        }
    );
}

#[test]
fn decode_msr_variants() {
    let mut d = Decoder::new();

    assert_eq!(
        d.decode_word(0xF381_8800, 0),
        Instruction::MsrMrs {
            rt: 1,
            reg: SpecialReg::Apsr,
            read: false,
        }
    );

    assert_eq!(
        d.decode_word(0xF381_8C00, 0),
        Instruction::MsrMrs {
            rt: 1,
            reg: SpecialReg::ApsrGe,
            read: false,
        }
    );

    assert_eq!(
        d.decode_word(0xF382_8810, 0),
        Instruction::MsrMrs {
            rt: 2,
            reg: SpecialReg::Primask,
            read: false,
        }
    );

    assert_eq!(
        d.decode_word(0xF384_8812, 0),
        Instruction::MsrMrs {
            rt: 4,
            reg: SpecialReg::BasepriMax,
            read: false,
        }
    );

    assert_eq!(
        d.decode_word(0xF386_8814, 0),
        Instruction::MsrMrs {
            rt: 6,
            reg: SpecialReg::Control,
            read: false,
        }
    );

    assert_eq!(
        d.decode_word(0xF387_8808, 0),
        Instruction::MsrMrs {
            rt: 7,
            reg: SpecialReg::Msp,
            read: false,
        }
    );

    assert_eq!(
        d.decode_word(0xF388_8809, 0),
        Instruction::MsrMrs {
            rt: 8,
            reg: SpecialReg::Psp,
            read: false,
        }
    );
}

#[test]
fn decode_mrs_msr_unknown_sysm() {
    let mut d = Decoder::new();

    assert_eq!(
        d.decode_word(0xF3EF_8099, 0),
        Instruction::Unimplemented { bits: 0xF3EF_8099 }
    );

    assert_eq!(
        d.decode_word(0xF3EF_8012, 0),
        Instruction::Unimplemented { bits: 0xF3EF_8012 }
    );

    assert_eq!(
        d.decode_word(0xF382_8820, 0),
        Instruction::Unimplemented { bits: 0xF382_8820 }
    );
}

#[test]
fn decode_vldm_vstm_variants() {
    let mut d = Decoder::new();

    assert_eq!(
        d.decode_word(0xEC80_0A04, 0),
        Instruction::FpLoadStoreMulti {
            vd: 0,
            rn: 0,
            count: 4,
            load: false,
            double: false,
            decrement: false,
            writeback: false,
        }
    );

    assert_eq!(
        d.decode_word(0xEC90_0A04, 0),
        Instruction::FpLoadStoreMulti {
            vd: 0,
            rn: 0,
            count: 4,
            load: true,
            double: false,
            decrement: false,
            writeback: false,
        }
    );

    assert_eq!(
        d.decode_word(0xED20_0A04, 0),
        Instruction::FpLoadStoreMulti {
            vd: 0,
            rn: 0,
            count: 4,
            load: false,
            double: false,
            decrement: true,
            writeback: true,
        }
    );

    assert_eq!(
        d.decode_word(0xECB1_8A04, 0),
        Instruction::FpLoadStoreMulti {
            vd: 16,
            rn: 1,
            count: 4,
            load: true,
            double: false,
            decrement: false,
            writeback: true,
        }
    );

    assert_eq!(
        d.decode_word(0xECC0_0A02, 0),
        Instruction::FpLoadStoreMulti {
            vd: 1,
            rn: 0,
            count: 2,
            load: false,
            double: false,
            decrement: false,
            writeback: false,
        }
    );

    assert_eq!(
        d.decode_word(0xEC80_0B04, 0),
        Instruction::FpLoadStoreMulti {
            vd: 0,
            rn: 0,
            count: 2,
            load: false,
            double: true,
            decrement: false,
            writeback: false,
        }
    );

    assert_eq!(
        d.decode_word(0xED20_0B04, 0),
        Instruction::FpLoadStoreMulti {
            vd: 0,
            rn: 0,
            count: 2,
            load: false,
            double: true,
            decrement: true,
            writeback: true,
        }
    );
}

#[test]
fn decode_vcvt_fixed_variants() {
    let mut d = Decoder::new();

    assert_eq!(
        d.decode_word(0xEEBE_0A44, 0),
        Instruction::FpCvtFixed {
            vd: 0,
            fbits: 8,
            width: 16,
            signed: true,
            to_float: false,
        }
    );

    assert_eq!(
        d.decode_word(0xEEBF_0A44, 0),
        Instruction::FpCvtFixed {
            vd: 0,
            fbits: 8,
            width: 16,
            signed: false,
            to_float: false,
        }
    );

    assert_eq!(
        d.decode_word(0xEEBE_2AC8, 0),
        Instruction::FpCvtFixed {
            vd: 4,
            fbits: 16,
            width: 32,
            signed: true,
            to_float: false,
        }
    );

    assert_eq!(
        d.decode_word(0xEEBF_0AC8, 0),
        Instruction::FpCvtFixed {
            vd: 0,
            fbits: 16,
            width: 32,
            signed: false,
            to_float: false,
        }
    );

    assert_eq!(
        d.decode_word(0xEEBA_0A44, 0),
        Instruction::FpCvtFixed {
            vd: 0,
            fbits: 8,
            width: 16,
            signed: true,
            to_float: true,
        }
    );

    assert_eq!(
        d.decode_word(0xEEFB_1AC8, 0),
        Instruction::FpCvtFixed {
            vd: 3,
            fbits: 16,
            width: 32,
            signed: false,
            to_float: true,
        }
    );
}

#[test]
fn decode_add_sub_reg_and_imm_forms() {
    let mut d = Decoder::new();

    assert_eq!(
        d.decode_halfword(0x1A9B, 0),
        Instruction::Sub {
            rd: 3,
            rn: 3,
            rm: Some(2),
            imm: None,
            flags: true,
        }
    );

    assert_eq!(
        d.decode_halfword(0x1C5A, 0),
        Instruction::Add {
            rd: 2,
            rn: 3,
            rm: None,
            imm: Some(1),
            flags: true,
        }
    );

    assert_eq!(
        d.decode_halfword(0x1E5A, 0),
        Instruction::Sub {
            rd: 2,
            rn: 3,
            rm: None,
            imm: Some(1),
            flags: true,
        }
    );

    assert_eq!(
        d.decode_halfword(0x1A52, 0),
        Instruction::Sub {
            rd: 2,
            rn: 2,
            rm: Some(1),
            imm: None,
            flags: true,
        }
    );
}

#[test]
fn decode_high_register_mov() {
    let mut d = Decoder::new();
    assert_eq!(
        d.decode_halfword(0x46BD, 0),
        Instruction::Mov {
            rd: 13,
            rm: 7,
            imm: None,
            flags: false,
        }
    );
    assert_eq!(
        d.decode_halfword(0x4618, 0),
        Instruction::Mov {
            rd: 0,
            rm: 3,
            imm: None,
            flags: false,
        }
    );
    assert_eq!(
        d.decode_halfword(0x4603, 0),
        Instruction::Mov {
            rd: 3,
            rm: 0,
            imm: None,
            flags: false,
        }
    );
}

#[test]
fn decode_bx_blx() {
    let mut d = Decoder::new();
    assert_eq!(
        d.decode_halfword(0x4770, 0),
        Instruction::BranchExchange { rm: 14 }
    );
    assert_eq!(
        d.decode_halfword(0x4708, 0),
        Instruction::BranchExchange { rm: 1 }
    );
    assert_eq!(
        d.decode_halfword(0x4780, 0),
        Instruction::BranchLinkExchange { rm: 0 }
    );
}

#[test]
fn decode_ldr_literal() {
    let mut d = Decoder::new();
    assert_eq!(
        d.decode_halfword(0x480C, 0x844),
        Instruction::LdrLiteral { rt: 0, imm: 48 }
    );

    assert_eq!(
        d.decode_halfword(0x4B06, 0x404),
        Instruction::LdrLiteral { rt: 3, imm: 24 }
    );
}

#[test]
fn decode_push_pop() {
    let mut d = Decoder::new();
    assert_eq!(
        d.decode_halfword(0xB580, 0),
        Instruction::Push {
            regs: 0x80,
            lr: true,
        }
    );
    assert_eq!(
        d.decode_halfword(0xB480, 0),
        Instruction::Push {
            regs: 0x80,
            lr: false,
        }
    );
    assert_eq!(
        d.decode_halfword(0xBD80, 0),
        Instruction::Pop {
            regs: 0x80,
            pc: true,
        }
    );
    assert_eq!(
        d.decode_halfword(0xBC80, 0),
        Instruction::Pop {
            regs: 0x80,
            pc: false,
        }
    );

    assert_eq!(
        d.decode_halfword(0xB510, 0),
        Instruction::Push {
            regs: 0x10,
            lr: true,
        }
    );
}

#[test]
fn decode_sp_imm() {
    let mut d = Decoder::new();
    assert_eq!(
        d.decode_halfword(0xAF00, 0),
        Instruction::Add {
            rd: 7,
            rn: 13,
            rm: None,
            imm: Some(0),
            flags: false,
        }
    );
    assert_eq!(
        d.decode_halfword(0xB002, 0),
        Instruction::Add {
            rd: 13,
            rn: 13,
            rm: None,
            imm: Some(8),
            flags: false,
        }
    );
    assert_eq!(
        d.decode_halfword(0xB083, 0),
        Instruction::Sub {
            rd: 13,
            rn: 13,
            rm: None,
            imm: Some(12),
            flags: false,
        }
    );
}

#[test]
fn decode_cbz_cbnz() {
    let mut d = Decoder::new();
    assert_eq!(
        d.decode_halfword(0xB140, 0),
        Instruction::CompareBranch {
            rn: 0,
            target: 0x14,
            zero: true,
        }
    );
    assert_eq!(
        d.decode_halfword(0xB939, 0x2),
        Instruction::CompareBranch {
            rn: 1,
            target: 0x14,
            zero: false,
        }
    );
}

#[test]
fn decode_hints() {
    let mut d = Decoder::new();
    assert_eq!(d.decode_halfword(0xBF00, 0), Instruction::Nop);
    assert_eq!(d.decode_halfword(0xBF30, 0), Instruction::Nop);

    assert_eq!(
        d.decode_halfword(0xBF08, 0),
        Instruction::It {
            cond: Cond::Eq,
            mask: 0x8,
        }
    );

    assert_eq!(
        d.decode_halfword(0xBEAB, 0),
        Instruction::Breakpoint { imm8: 0xAB }
    );
}

#[test]
fn decode_backward_branches() {
    let mut d = Decoder::new();

    assert_eq!(
        d.decode_halfword(0xD1F9, 0x45A),
        Instruction::Branch {
            cond: Some(Cond::Ne),
            target: 0x450,
        }
    );

    assert_eq!(
        d.decode_halfword(0xE7FE, 0x762),
        Instruction::Branch {
            cond: None,
            target: 0x762,
        }
    );
}

#[test]
fn decode_bl_targets() {
    let mut d = Decoder::new();
    assert_eq!(
        d.decode_word(0xF000_F80F, 0x86E),
        Instruction::BranchLink { target: 0x890 }
    );
    assert_eq!(
        d.decode_word(0xF7FF_FF93, 0x54A),
        Instruction::BranchLink { target: 0x474 }
    );

    assert!(matches!(
        d.decode_word(0xF000_F000, 0),
        Instruction::Unimplemented { .. }
    ));
}

#[test]
fn thumb_expand_imm_verified() {
    assert_eq!(Decoder::thumb_expand_imm(0xBE1), 115200);

    assert_eq!(Decoder::thumb_expand_imm(0x3A5), 0xA5A5_A5A5);

    assert_eq!(Decoder::thumb_expand_imm(0x2FF), 0xFF00_FF00);

    assert_eq!(Decoder::thumb_expand_imm(0x001), 1);
    assert_eq!(Decoder::thumb_expand_imm(0x000), 0);
}

#[test]
fn decode_data_proc_imm() {
    let mut d = Decoder::new();

    assert_eq!(
        d.decode_word(0xF44F_32E1, 0),
        Instruction::Mov {
            rd: 2,
            rm: 0,
            imm: Some(115200),
            flags: false,
        }
    );

    assert_eq!(
        d.decode_word(0xF003_0301, 0),
        Instruction::And {
            rd: 3,
            rn: 3,
            rm: None,
            imm: Some(1),
            flags: false,
        }
    );

    assert_eq!(
        d.decode_word(0xF1B3_3FA5, 0),
        Instruction::Cmp {
            rn: 3,
            rm: None,
            imm: Some(0xA5A5_A5A5),
        }
    );

    assert_eq!(
        d.decode_word(0xF013_0F01, 0),
        Instruction::Tst {
            rn: 3,
            rm: None,
            imm: Some(1),
        }
    );

    assert_eq!(
        d.decode_word(0xF093_0F02, 0),
        Instruction::Teq {
            rn: 3,
            rm: None,
            imm: Some(2),
        }
    );

    assert_eq!(
        d.decode_word(0xF113_0F03, 0),
        Instruction::Cmn {
            rn: 3,
            rm: None,
            imm: Some(3),
        }
    );

    assert_eq!(
        d.decode_word(0xF1A3_0304, 0),
        Instruction::Sub {
            rd: 3,
            rn: 3,
            rm: None,
            imm: Some(4),
            flags: false,
        }
    );
}

#[test]
fn decode_data_proc_reg_16ops() {
    let mut d = Decoder::new();

    assert_eq!(
        d.decode_halfword(0x401A, 0),
        Instruction::And {
            rd: 2,
            rn: 2,
            rm: Some(3),
            imm: None,
            flags: true,
        }
    );

    assert_eq!(
        d.decode_halfword(0x405A, 0),
        Instruction::Eor {
            rd: 2,
            rn: 2,
            rm: Some(3),
            imm: None,
            flags: true,
        }
    );

    assert_eq!(
        d.decode_halfword(0x40AA, 0),
        Instruction::Shift {
            rd: 2,
            rm: 2,
            kind: ShiftKind::Lsl,
            amount: ShiftAmount::Register(5),
            flags: true,
        }
    );

    assert_eq!(
        d.decode_halfword(0x40EA, 0),
        Instruction::Shift {
            rd: 2,
            rm: 2,
            kind: ShiftKind::Lsr,
            amount: ShiftAmount::Register(5),
            flags: true,
        }
    );

    assert_eq!(
        d.decode_halfword(0x412A, 0),
        Instruction::Shift {
            rd: 2,
            rm: 2,
            kind: ShiftKind::Asr,
            amount: ShiftAmount::Register(5),
            flags: true,
        }
    );

    assert_eq!(
        d.decode_halfword(0x415A, 0),
        Instruction::Adc {
            rd: 2,
            rn: 2,
            rm: 3,
            flags: true,
        }
    );

    assert_eq!(
        d.decode_halfword(0x419A, 0),
        Instruction::Sbc {
            rd: 2,
            rn: 2,
            rm: 3,
            flags: true,
        }
    );

    assert_eq!(
        d.decode_halfword(0x41EA, 0),
        Instruction::Shift {
            rd: 2,
            rm: 2,
            kind: ShiftKind::Ror,
            amount: ShiftAmount::Register(5),
            flags: true,
        }
    );

    assert_eq!(
        d.decode_halfword(0x421A, 0),
        Instruction::Tst {
            rn: 2,
            rm: Some(3),
            imm: None,
        }
    );

    assert_eq!(
        d.decode_halfword(0x425A, 0),
        Instruction::Neg {
            rd: 2,
            rn: 3,
            flags: true,
        }
    );

    assert_eq!(
        d.decode_halfword(0x429A, 0),
        Instruction::Cmp {
            rn: 2,
            rm: Some(3),
            imm: None,
        }
    );

    assert_eq!(
        d.decode_halfword(0x42DA, 0),
        Instruction::Cmn {
            rn: 2,
            rm: Some(3),
            imm: None,
        }
    );

    assert_eq!(
        d.decode_halfword(0x431A, 0),
        Instruction::Orr {
            rd: 2,
            rn: 2,
            rm: Some(3),
            imm: None,
            flags: true,
        }
    );

    assert_eq!(
        d.decode_halfword(0x435A, 0),
        Instruction::Mul {
            rd: 2,
            rn: 2,
            rm: 3,
            flags: false,
        }
    );

    assert_eq!(
        d.decode_halfword(0x439A, 0),
        Instruction::Bic {
            rd: 2,
            rn: 2,
            rm: Some(3),
            imm: None,
            flags: true,
        }
    );

    assert_eq!(
        d.decode_halfword(0x43DA, 0),
        Instruction::Mvn {
            rd: 2,
            rm: 3,
            imm: None,
            flags: true,
        }
    );
}

#[test]
fn decode_16bit_shift_imm() {
    let mut d = Decoder::new();

    assert_eq!(
        d.decode_halfword(0x0813, 0),
        Instruction::Shift {
            rd: 3,
            rm: 2,
            kind: ShiftKind::Lsr,
            amount: ShiftAmount::Immediate(32),
            flags: true,
        }
    );

    assert_eq!(
        d.decode_halfword(0x1013, 0),
        Instruction::Shift {
            rd: 3,
            rm: 2,
            kind: ShiftKind::Asr,
            amount: ShiftAmount::Immediate(32),
            flags: true,
        }
    );

    assert_eq!(
        d.decode_halfword(0x0013, 0),
        Instruction::Shift {
            rd: 3,
            rm: 2,
            kind: ShiftKind::Lsl,
            amount: ShiftAmount::Immediate(0),
            flags: true,
        }
    );

    assert_eq!(
        d.decode_halfword(0x0FD3, 0),
        Instruction::Shift {
            rd: 3,
            rm: 2,
            kind: ShiftKind::Lsr,
            amount: ShiftAmount::Immediate(31),
            flags: true,
        }
    );

    assert_eq!(
        d.decode_halfword(0x17D3, 0),
        Instruction::Shift {
            rd: 3,
            rm: 2,
            kind: ShiftKind::Asr,
            amount: ShiftAmount::Immediate(31),
            flags: true,
        }
    );
}

#[test]
fn decode_32bit_movs_imm() {
    let mut d = Decoder::new();

    assert_eq!(
        d.decode_word(0xF45F_4000, 0),
        Instruction::Mov {
            rd: 0,
            rm: 0,
            imm: Some(0x8000),
            flags: true,
        }
    );

    assert_eq!(
        d.decode_word(0xF44F_4000, 0),
        Instruction::Mov {
            rd: 0,
            rm: 0,
            imm: Some(0x8000),
            flags: false,
        }
    );

    assert!(matches!(
        d.decode_word(0xF45F_4F80, 0),
        Instruction::Unimplemented { .. }
    ));

    assert_eq!(
        d.decode_word(0xF052_0301, 0),
        Instruction::Orr {
            rd: 3,
            rn: 2,
            rm: None,
            imm: Some(1),
            flags: true,
        }
    );

    assert_eq!(
        d.decode_word(0xF042_0301, 0),
        Instruction::Orr {
            rd: 3,
            rn: 2,
            rm: None,
            imm: Some(1),
            flags: false,
        }
    );
}

#[test]
fn decode_cpsie_cpsid() {
    let mut d = Decoder::new();
    assert_eq!(
        d.decode_halfword(0xB662, 0),
        Instruction::Cps {
            disable: false,
            i: true,
            f: false,
        }
    );
    assert_eq!(
        d.decode_halfword(0xB672, 0),
        Instruction::Cps {
            disable: true,
            i: true,
            f: false,
        }
    );
    assert_eq!(
        d.decode_halfword(0xB661, 0),
        Instruction::Cps {
            disable: false,
            i: false,
            f: true,
        }
    );
    assert_eq!(
        d.decode_halfword(0xB671, 0),
        Instruction::Cps {
            disable: true,
            i: false,
            f: true,
        }
    );
}

#[test]
fn decode_barriers() {
    let mut d = Decoder::new();
    assert_eq!(
        d.decode_word(0xF3BF_8F4F, 0),
        Instruction::Barrier {
            kind: BarrierKind::Dsb
        }
    );
    assert_eq!(
        d.decode_word(0xF3BF_8F5F, 0),
        Instruction::Barrier {
            kind: BarrierKind::Dmb
        }
    );
    assert_eq!(
        d.decode_word(0xF3BF_8F6F, 0),
        Instruction::Barrier {
            kind: BarrierKind::Isb
        }
    );
}

#[test]
fn decode_ldm_stm_32bit() {
    let mut d = Decoder::new();

    assert_eq!(
        d.decode_word(0xE8A0_4FF0, 0),
        Instruction::Stm {
            rn: 0,
            regs: 0b0100_1111_1111_0000,
            writeback: true,
            descending: false,
        }
    );

    assert_eq!(
        d.decode_word(0xE8B0_4FF0, 0),
        Instruction::Ldm {
            rn: 0,
            regs: 0b0100_1111_1111_0000,
            writeback: true,
            descending: false,
        }
    );

    assert_eq!(
        d.decode_word(0xE920_4FF0, 0),
        Instruction::Stm {
            rn: 0,
            regs: 0b0100_1111_1111_0000,
            writeback: true,
            descending: true,
        }
    );

    assert_eq!(
        d.decode_word(0xE930_4FF0, 0),
        Instruction::Ldm {
            rn: 0,
            regs: 0b0100_1111_1111_0000,
            writeback: true,
            descending: true,
        }
    );

    assert_eq!(
        d.decode_word(0xE880_0030, 0),
        Instruction::Stm {
            rn: 0,
            regs: 0b11_0000,
            writeback: false,
            descending: false,
        }
    );

    assert_eq!(
        d.decode_word(0xE8BD_8FF0, 0),
        Instruction::Ldm {
            rn: 13,
            regs: 0b1000_1111_1111_0000,
            writeback: true,
            descending: false,
        }
    );

    assert_eq!(
        d.decode_word(0xE921_0009, 0),
        Instruction::Stm {
            rn: 1,
            regs: 0b1001,
            writeback: true,
            descending: true,
        }
    );
}

#[test]
fn decode_clz_rev_rbit() {
    let mut d = Decoder::new();
    assert_eq!(
        d.decode_word(0xFAB1_F081, 0),
        Instruction::Clz { rd: 0, rm: 1 }
    );
    assert_eq!(
        d.decode_word(0xFA91_F0A1, 0),
        Instruction::Rbit { rd: 0, rm: 1 }
    );
    assert_eq!(
        d.decode_halfword(0xBA08, 0),
        Instruction::Rev {
            rd: 0,
            rm: 1,
            kind: RevKind::Rev
        }
    );
    assert_eq!(
        d.decode_halfword(0xBA48, 0),
        Instruction::Rev {
            rd: 0,
            rm: 1,
            kind: RevKind::Rev16
        }
    );
    assert_eq!(
        d.decode_halfword(0xBAC8, 0),
        Instruction::Rev {
            rd: 0,
            rm: 1,
            kind: RevKind::RevSh
        }
    );
}

#[test]
fn decode_bitfield_ops() {
    let mut d = Decoder::new();

    assert_eq!(
        d.decode_word(0xF3C1_00C4, 0),
        Instruction::BitField {
            rd: 0,
            rn: 1,
            lsb: 3,
            width: 5,
            kind: BitFieldKind::Ubfx,
        }
    );

    assert_eq!(
        d.decode_word(0xF341_00C4, 0),
        Instruction::BitField {
            rd: 0,
            rn: 1,
            lsb: 3,
            width: 5,
            kind: BitFieldKind::Sbfx,
        }
    );

    assert_eq!(
        d.decode_word(0xF361_00C7, 0),
        Instruction::BitField {
            rd: 0,
            rn: 1,
            lsb: 3,
            width: 5,
            kind: BitFieldKind::Bfi,
        }
    );

    assert_eq!(
        d.decode_word(0xF36F_00C7, 0),
        Instruction::BitField {
            rd: 0,
            rn: 0xF,
            lsb: 3,
            width: 5,
            kind: BitFieldKind::Bfc,
        }
    );
}

#[test]
fn decode_ldrex_strex() {
    let mut d = Decoder::new();

    assert_eq!(
        d.decode_word(0xE851_0F00, 0),
        Instruction::Ldrex {
            rt: 0,
            rn: 1,
            imm: 0,
            width: AccessWidth::Word,
        }
    );

    assert_eq!(
        d.decode_word(0xE850_1F01, 0),
        Instruction::Ldrex {
            rt: 1,
            rn: 0,
            imm: 4,
            width: AccessWidth::Word,
        }
    );

    assert_eq!(
        d.decode_word(0xE842_1000, 0),
        Instruction::Strex {
            rd: 0,
            rt: 1,
            rn: 2,
            imm: 0,
            width: AccessWidth::Word,
        }
    );

    assert_eq!(
        d.decode_word(0xE840_3201, 0),
        Instruction::Strex {
            rd: 2,
            rt: 3,
            rn: 0,
            imm: 4,
            width: AccessWidth::Word,
        }
    );

    assert_eq!(
        d.decode_word(0xE8D5_4F4F, 0),
        Instruction::Ldrex {
            rt: 4,
            rn: 5,
            imm: 0,
            width: AccessWidth::Byte,
        }
    );

    assert_eq!(
        d.decode_word(0xE8DA_9F5F, 0),
        Instruction::Ldrex {
            rt: 9,
            rn: 10,
            imm: 0,
            width: AccessWidth::HalfWord,
        }
    );

    assert_eq!(
        d.decode_word(0xE8C8_7F46, 0),
        Instruction::Strex {
            rd: 6,
            rt: 7,
            rn: 8,
            imm: 0,
            width: AccessWidth::Byte,
        }
    );

    assert_eq!(
        d.decode_word(0xE8C0_CF5B, 0),
        Instruction::Strex {
            rd: 11,
            rt: 12,
            rn: 0,
            imm: 0,
            width: AccessWidth::HalfWord,
        }
    );
}
