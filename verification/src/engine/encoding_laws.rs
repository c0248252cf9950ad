//! Decoding undoes assembling: the encoding made up from the fields of an instruction
//! is read back as that instruction.
use crate::bits::{rotated, wrap32};
use crate::engine::decode::{
    add_pc_sp16, add_sub16, bitfield32, bl_offset, branch_cond16, data_proc16, decoded16,
    data_proc_imm32, data_proc_reg32, decoded32, decoded32_rest, double32, dual_half32,
    dual_half_long32, exclusive32, expanded_imm, fpu32, high_reg16, imm8_16, load_store32,
    load_store_imm16, load_store_reg16, misc16, misc_top16, mla32, mov_imm32, mrs32, msr32,
    mull32, multiple32, pkh32, qaddsub32, sat32, shift_imm16, shift_reg32, signed11, simd16_32,
        simd8_32,
    sp_relative16, vldm32, vldr32, AccessWidth, BarrierKind, BitFieldKind, Cond, DspShiftKind,
        ExtendKind,
    FpArithOp, FpCvtOp, FpUnaryOp, Instruction, LoadStoreOffset, QAddKind, RevKind, ShiftAmount,
    ShiftKind, Simd16Kind, SpecialReg,
};
use crate::engine::fpu::vfp_imm;
use vstd::arithmetic::power2::pow2;
use vstd::prelude::*;

verus! {

/// The fields of an encoding that ends in two numbers of three bits.
proof fn lemma_fields(bits: u16, h: u16, p: u16, n: u16, d: u16)
    by (bit_vector)
    requires
        bits == h * 0x800 + p * 0x40 + n * 8 + d,
        h < 32,
        p < 32,
        n < 8,
        d < 8,
    ensures
        bits / 0x800 == h,
        bits / 0x400 % 2 == p / 16,
        bits / 0x200 % 2 == p / 8 % 2,
        bits / 0x200 % 8 == h % 2 * 4 + p / 8,
        bits / 0x100 % 4 == p / 4 % 4,
        bits / 0x100 % 8 == p / 4,
        bits / 0x80 % 2 == p / 2 % 2,
        bits / 0x40 % 4 == p % 4,
        bits / 0x40 % 8 == p % 8,
        bits / 0x40 % 16 == p % 16,
        bits / 0x40 % 32 == p,
        bits / 8 % 8 == n,
        bits / 8 % 16 == p % 2 * 8 + n,
        bits / 8 % 32 == p % 4 * 8 + n,
        bits / 1 % 8 == d,
        bits % 8 == d,
{
}

/// The fields of an encoding that ends in a byte.
proof fn lemma_byte(bits: u16, h: u16, r: u16, byte: u16)
    by (bit_vector)
    requires
        bits == h * 0x800 + r * 0x100 + byte,
        h < 32,
        r < 8,
        byte < 0x100,
    ensures
        bits / 0x800 == h,
        bits / 0x100 % 8 == r,
        bits / 0x100 % 16 == h % 2 * 8 + r,
        bits / 0x80 % 2 == byte / 0x80,
        bits / 0x20 == h * 0x40 + r * 8 + byte / 0x20,
        bits / 0x10 % 2 == byte / 0x10 % 2,
        bits / 16 % 16 == byte / 16,
        bits / 2 % 2 == byte / 2 % 2,
        bits % 2 == byte % 2,
        bits % 16 == byte % 16,
        bits % 0x80 == byte % 0x80,
        bits % 0x100 == byte,
{
}

proof fn lemma_row_shift(bits: u16, pc: u32)
    requires
        bits / 0x800 <= 2,
    ensures
        decoded16(bits, pc) == shift_imm16(bits),
{
    reveal(decoded16);
}

proof fn lemma_row_add_sub(bits: u16, pc: u32)
    requires
        bits / 0x800 == 3,
    ensures
        decoded16(bits, pc) == add_sub16(bits),
{
    reveal(decoded16);
}

proof fn lemma_row_imm8(bits: u16, pc: u32)
    requires
        4 <= bits / 0x800 <= 7,
    ensures
        decoded16(bits, pc) == imm8_16(bits),
{
    reveal(decoded16);
}

proof fn lemma_row_data(bits: u16, pc: u32)
    requires
        bits / 0x800 == 8,
        bits / 0x400 % 2 == 0,
    ensures
        decoded16(bits, pc) == data_proc16(bits),
{
    reveal(decoded16);
}

proof fn lemma_row_high(bits: u16, pc: u32)
    requires
        bits / 0x800 == 8,
        bits / 0x400 % 2 == 1,
    ensures
        decoded16(bits, pc) == high_reg16(bits),
{
    reveal(decoded16);
}

proof fn lemma_row_reg_offset(bits: u16, pc: u32)
    requires
        10 <= bits / 0x800 <= 11,
    ensures
        decoded16(bits, pc) == load_store_reg16(bits),
{
    reveal(decoded16);
}

proof fn lemma_row_imm_offset(bits: u16, pc: u32)
    requires
        12 <= bits / 0x800 <= 17,
    ensures
        decoded16(bits, pc) == load_store_imm16(bits),
{
    reveal(decoded16);
}

proof fn lemma_row_sp_relative(bits: u16, pc: u32)
    requires
        18 <= bits / 0x800 <= 19,
    ensures
        decoded16(bits, pc) == sp_relative16(bits),
{
    reveal(decoded16);
}

proof fn lemma_row_add_pc_sp(bits: u16, pc: u32)
    requires
        20 <= bits / 0x800 <= 21,
    ensures
        decoded16(bits, pc) == add_pc_sp16(bits),
{
    reveal(decoded16);
}

proof fn lemma_row_misc(bits: u16, pc: u32)
    requires
        bits / 0x800 == 22,
    ensures
        decoded16(bits, pc) == misc16(bits, pc),
{
    reveal(decoded16);
}

proof fn lemma_row_misc_top(bits: u16, pc: u32)
    requires
        bits / 0x800 == 23,
    ensures
        decoded16(bits, pc) == misc_top16(bits, pc),
{
    reveal(decoded16);
}

proof fn lemma_row_cond(bits: u16, pc: u32)
    requires
        26 <= bits / 0x800 <= 27,
    ensures
        decoded16(bits, pc) == branch_cond16(bits, pc),
{
    reveal(decoded16);
}

proof fn lemma_row_literal(bits: u16, pc: u32)
    requires
        bits / 0x800 == 9,
    ensures
        decoded16(bits, pc) == (Instruction::LdrLiteral {
            rt: (bits / 0x100 % 8) as u8,
            imm: (bits % 0x100 * 4) as u32,
        }),
{
    reveal(decoded16);
}

proof fn lemma_row_stm(bits: u16, pc: u32)
    requires
        bits / 0x800 == 24,
    ensures
        decoded16(bits, pc) == (Instruction::Stm {
            rn: (bits / 0x100 % 8) as u8,
            regs: (bits % 0x100) as u16,
            writeback: true,
            descending: false,
        }),
{
    reveal(decoded16);
}

proof fn lemma_row_ldm(bits: u16, pc: u32)
    requires
        bits / 0x800 == 25,
    ensures
        decoded16(bits, pc) == (Instruction::Ldm {
            rn: (bits / 0x100 % 8) as u8,
            regs: (bits % 0x100) as u16,
            writeback: true,
            descending: false,
        }),
{
    reveal(decoded16);
}

proof fn lemma_row_branch(bits: u16, pc: u32)
    requires
        bits / 0x800 == 28,
    ensures
        decoded16(bits, pc) == (Instruction::Branch {
            cond: None,
            target: wrap32(pc + 4 + 2 * signed11(bits as int)),
        }),
{
    reveal(decoded16);
}

/// A shift by an immediate. LSL shifts by 0 to 31 places, LSR and ASR by 1 to 32, of
/// which 32 is written as 0.
#[verifier::spinoff_prover]
pub proof fn law_shift_encoding(rd: u8, rm: u8, n: u8, pc: u32)
    requires
        rd < 8,
        rm < 8,
        n <= 32,
    ensures
        n < 32 ==> decoded16((n * 0x40 + rm * 8 + rd) as u16, pc) == (Instruction::Shift {
            rd,
            rm,
            kind: ShiftKind::Lsl,
            amount: ShiftAmount::Immediate(n),
            flags: true,
        }),
        n > 0 ==> decoded16((0x800 + n % 32 * 0x40 + rm * 8 + rd) as u16, pc) == (
        Instruction::Shift {
            rd,
            rm,
            kind: ShiftKind::Lsr,
            amount: ShiftAmount::Immediate(n),
            flags: true,
        }),
        n > 0 ==> decoded16((0x1000 + n % 32 * 0x40 + rm * 8 + rd) as u16, pc) == (
        Instruction::Shift {
            rd,
            rm,
            kind: ShiftKind::Asr,
            amount: ShiftAmount::Immediate(n),
            flags: true,
        }),
{
    if n < 32 {
        lemma_fields((n * 0x40 + rm * 8 + rd) as u16, 0, n as u16, rm as u16, rd as u16);
        lemma_row_shift((n * 0x40 + rm * 8 + rd) as u16, pc);
    }
    lemma_fields((0x800 + n % 32 * 0x40 + rm * 8 + rd) as u16, 1, (n % 32) as u16, rm as u16,
        rd as u16);
    lemma_row_shift((0x800 + n % 32 * 0x40 + rm * 8 + rd) as u16, pc);
    lemma_fields((0x1000 + n % 32 * 0x40 + rm * 8 + rd) as u16, 2, (n % 32) as u16, rm as u16,
        rd as u16);
    lemma_row_shift((0x1000 + n % 32 * 0x40 + rm * 8 + rd) as u16, pc);
}

/// ADDS and SUBS of low registers, with a register or an immediate of three bits.
#[verifier::spinoff_prover]
pub proof fn law_add_sub_encoding(rd: u8, rn: u8, x: u8, pc: u32)
    requires
        rd < 8,
        rn < 8,
        x < 8,
    ensures
        decoded16((0x1800 + x * 0x40 + rn * 8 + rd) as u16, pc) == (Instruction::Add {
            rd,
            rn,
            rm: Some(x),
            imm: None,
            flags: true,
        }),
        decoded16((0x1A00 + x * 0x40 + rn * 8 + rd) as u16, pc) == (Instruction::Sub {
            rd,
            rn,
            rm: Some(x),
            imm: None,
            flags: true,
        }),
        decoded16((0x1C00 + x * 0x40 + rn * 8 + rd) as u16, pc) == (Instruction::Add {
            rd,
            rn,
            rm: None,
            imm: Some(x as u32),
            flags: true,
        }),
        decoded16((0x1E00 + x * 0x40 + rn * 8 + rd) as u16, pc) == (Instruction::Sub {
            rd,
            rn,
            rm: None,
            imm: Some(x as u32),
            flags: true,
        }),
{
    lemma_fields((0x1800 + x * 0x40 + rn * 8 + rd) as u16, 3, x as u16, rn as u16, rd as u16);
    lemma_row_add_sub((0x1800 + x * 0x40 + rn * 8 + rd) as u16, pc);
    lemma_fields((0x1A00 + x * 0x40 + rn * 8 + rd) as u16, 3, (8 + x) as u16, rn as u16, rd as u16);
    lemma_row_add_sub((0x1A00 + x * 0x40 + rn * 8 + rd) as u16, pc);
    lemma_fields((0x1C00 + x * 0x40 + rn * 8 + rd) as u16, 3, (16 + x) as u16, rn as u16,
        rd as u16);
    lemma_row_add_sub((0x1C00 + x * 0x40 + rn * 8 + rd) as u16, pc);
    lemma_fields((0x1E00 + x * 0x40 + rn * 8 + rd) as u16, 3, (24 + x) as u16, rn as u16,
        rd as u16);
    lemma_row_add_sub((0x1E00 + x * 0x40 + rn * 8 + rd) as u16, pc);
}

/// MOVS, CMP, ADDS and SUBS of a low register with a byte.
#[verifier::spinoff_prover]
pub proof fn law_byte_immediate_encoding(rd: u8, byte: u8, pc: u32)
    requires
        rd < 8,
    ensures
        decoded16((0x2000 + rd * 0x100 + byte) as u16, pc) == (Instruction::Mov {
            rd,
            rm: 0,
            imm: Some(byte as u32),
            flags: true,
        }),
        decoded16((0x2800 + rd * 0x100 + byte) as u16, pc) == (Instruction::Cmp {
            rn: rd,
            rm: None,
            imm: Some(byte as u32),
        }),
        decoded16((0x3000 + rd * 0x100 + byte) as u16, pc) == (Instruction::Add {
            rd,
            rn: rd,
            rm: None,
            imm: Some(byte as u32),
            flags: true,
        }),
        decoded16((0x3800 + rd * 0x100 + byte) as u16, pc) == (Instruction::Sub {
            rd,
            rn: rd,
            rm: None,
            imm: Some(byte as u32),
            flags: true,
        }),
{
    lemma_byte((0x2000 + rd * 0x100 + byte) as u16, 4, rd as u16, byte as u16);
    lemma_row_imm8((0x2000 + rd * 0x100 + byte) as u16, pc);
    lemma_byte((0x2800 + rd * 0x100 + byte) as u16, 5, rd as u16, byte as u16);
    lemma_row_imm8((0x2800 + rd * 0x100 + byte) as u16, pc);
    lemma_byte((0x3000 + rd * 0x100 + byte) as u16, 6, rd as u16, byte as u16);
    lemma_row_imm8((0x3000 + rd * 0x100 + byte) as u16, pc);
    lemma_byte((0x3800 + rd * 0x100 + byte) as u16, 7, rd as u16, byte as u16);
    lemma_row_imm8((0x3800 + rd * 0x100 + byte) as u16, pc);
}

/// The logical and arithmetic operations on two low registers.
#[verifier::spinoff_prover]
pub proof fn law_data_encoding(rd: u8, rm: u8, pc: u32)
    requires
        rd < 8,
        rm < 8,
    ensures
        decoded16((0x4000 + rm * 8 + rd) as u16, pc) == (Instruction::And {
            rd,
            rn: rd,
            rm: Some(rm),
            imm: None,
            flags: true,
        }),
        decoded16((0x4040 + rm * 8 + rd) as u16, pc) == (Instruction::Eor {
            rd,
            rn: rd,
            rm: Some(rm),
            imm: None,
            flags: true,
        }),
        decoded16((0x4140 + rm * 8 + rd) as u16, pc) == (Instruction::Adc {
            rd,
            rn: rd,
            rm,
            flags: true,
        }),
        decoded16((0x4180 + rm * 8 + rd) as u16, pc) == (Instruction::Sbc {
            rd,
            rn: rd,
            rm,
            flags: true,
        }),
        decoded16((0x4200 + rm * 8 + rd) as u16, pc) == (Instruction::Tst {
            rn: rd,
            rm: Some(rm),
            imm: None,
        }),
        decoded16((0x4240 + rm * 8 + rd) as u16, pc) == (Instruction::Neg {
            rd,
            rn: rm,
            flags: true,
        }),
        decoded16((0x4280 + rm * 8 + rd) as u16, pc) == (Instruction::Cmp {
            rn: rd,
            rm: Some(rm),
            imm: None,
        }),
        decoded16((0x42C0 + rm * 8 + rd) as u16, pc) == (Instruction::Cmn {
            rn: rd,
            rm: Some(rm),
            imm: None,
        }),
        decoded16((0x4300 + rm * 8 + rd) as u16, pc) == (Instruction::Orr {
            rd,
            rn: rd,
            rm: Some(rm),
            imm: None,
            flags: true,
        }),
        decoded16((0x4340 + rm * 8 + rd) as u16, pc) == (Instruction::Mul {
            rd,
            rn: rd,
            rm,
            flags: false,
        }),
        decoded16((0x4380 + rm * 8 + rd) as u16, pc) == (Instruction::Bic {
            rd,
            rn: rd,
            rm: Some(rm),
            imm: None,
            flags: true,
        }),
        decoded16((0x43C0 + rm * 8 + rd) as u16, pc) == (Instruction::Mvn {
            rd,
            rm,
            imm: None,
            flags: true,
        }),
{
    lemma_fields((0x4000 + rm * 8 + rd) as u16, 8, 0, rm as u16, rd as u16);
    lemma_row_data((0x4000 + rm * 8 + rd) as u16, pc);
    lemma_fields((0x4040 + rm * 8 + rd) as u16, 8, 1, rm as u16, rd as u16);
    lemma_row_data((0x4040 + rm * 8 + rd) as u16, pc);
    lemma_fields((0x4140 + rm * 8 + rd) as u16, 8, 5, rm as u16, rd as u16);
    lemma_row_data((0x4140 + rm * 8 + rd) as u16, pc);
    lemma_fields((0x4180 + rm * 8 + rd) as u16, 8, 6, rm as u16, rd as u16);
    lemma_row_data((0x4180 + rm * 8 + rd) as u16, pc);
    lemma_fields((0x4200 + rm * 8 + rd) as u16, 8, 8, rm as u16, rd as u16);
    lemma_row_data((0x4200 + rm * 8 + rd) as u16, pc);
    lemma_fields((0x4240 + rm * 8 + rd) as u16, 8, 9, rm as u16, rd as u16);
    lemma_row_data((0x4240 + rm * 8 + rd) as u16, pc);
    lemma_fields((0x4280 + rm * 8 + rd) as u16, 8, 10, rm as u16, rd as u16);
    lemma_row_data((0x4280 + rm * 8 + rd) as u16, pc);
    lemma_fields((0x42C0 + rm * 8 + rd) as u16, 8, 11, rm as u16, rd as u16);
    lemma_row_data((0x42C0 + rm * 8 + rd) as u16, pc);
    lemma_fields((0x4300 + rm * 8 + rd) as u16, 8, 12, rm as u16, rd as u16);
    lemma_row_data((0x4300 + rm * 8 + rd) as u16, pc);
    lemma_fields((0x4340 + rm * 8 + rd) as u16, 8, 13, rm as u16, rd as u16);
    lemma_row_data((0x4340 + rm * 8 + rd) as u16, pc);
    lemma_fields((0x4380 + rm * 8 + rd) as u16, 8, 14, rm as u16, rd as u16);
    lemma_row_data((0x4380 + rm * 8 + rd) as u16, pc);
    lemma_fields((0x43C0 + rm * 8 + rd) as u16, 8, 15, rm as u16, rd as u16);
    lemma_row_data((0x43C0 + rm * 8 + rd) as u16, pc);
}

/// Shifts of a low register by a low register.
#[verifier::spinoff_prover]
pub proof fn law_register_shift_encoding(rd: u8, rs: u8, pc: u32)
    requires
        rd < 8,
        rs < 8,
    ensures
        ({
            let shift = |kind: ShiftKind|
                Instruction::Shift {
                    rd,
                    rm: rd,
                    kind,
                    amount: ShiftAmount::Register(rs),
                    flags: true,
                };
            &&& decoded16((0x4080 + rs * 8 + rd) as u16, pc) == shift(ShiftKind::Lsl)
            &&& decoded16((0x40C0 + rs * 8 + rd) as u16, pc) == shift(ShiftKind::Lsr)
            &&& decoded16((0x4100 + rs * 8 + rd) as u16, pc) == shift(ShiftKind::Asr)
            &&& decoded16((0x41C0 + rs * 8 + rd) as u16, pc) == shift(ShiftKind::Ror)
        }),
{
    lemma_fields((0x4080 + rs * 8 + rd) as u16, 8, 2, rs as u16, rd as u16);
    lemma_row_data((0x4080 + rs * 8 + rd) as u16, pc);
    lemma_fields((0x40C0 + rs * 8 + rd) as u16, 8, 3, rs as u16, rd as u16);
    lemma_row_data((0x40C0 + rs * 8 + rd) as u16, pc);
    lemma_fields((0x4100 + rs * 8 + rd) as u16, 8, 4, rs as u16, rd as u16);
    lemma_row_data((0x4100 + rs * 8 + rd) as u16, pc);
    lemma_fields((0x41C0 + rs * 8 + rd) as u16, 8, 7, rs as u16, rd as u16);
    lemma_row_data((0x41C0 + rs * 8 + rd) as u16, pc);
}

/// ADD, CMP and MOV on all registers, BX and BLX.
#[verifier::spinoff_prover]
pub proof fn law_high_register_encoding(rd: u8, rm: u8, pc: u32)
    requires
        rd < 16,
        rm < 16,
    ensures
        decoded16((0x4400 + rd / 8 * 0x80 + rm * 8 + rd % 8) as u16, pc) == (Instruction::Add {
            rd,
            rn: rd,
            rm: Some(rm),
            imm: None,
            flags: false,
        }),
        decoded16((0x4500 + rd / 8 * 0x80 + rm * 8 + rd % 8) as u16, pc) == (Instruction::Cmp {
            rn: rd,
            rm: Some(rm),
            imm: None,
        }),
        decoded16((0x4600 + rd / 8 * 0x80 + rm * 8 + rd % 8) as u16, pc) == (Instruction::Mov {
            rd,
            rm,
            imm: None,
            flags: false,
        }),
        decoded16((0x4700 + rm * 8) as u16, pc) == (Instruction::BranchExchange { rm }),
        decoded16((0x4780 + rm * 8) as u16, pc) == (Instruction::BranchLinkExchange { rm }),
{
    lemma_fields(
        (0x4400 + rd / 8 * 0x80 + rm * 8 + rd % 8) as u16,
        8,
        (16 + rd / 8 * 2 + rm / 8) as u16,
        (rm % 8) as u16,
        (rd % 8) as u16,
    );
    lemma_row_high((0x4400 + rd / 8 * 0x80 + rm * 8 + rd % 8) as u16, pc);
    lemma_fields(
        (0x4500 + rd / 8 * 0x80 + rm * 8 + rd % 8) as u16,
        8,
        (20 + rd / 8 * 2 + rm / 8) as u16,
        (rm % 8) as u16,
        (rd % 8) as u16,
    );
    lemma_row_high((0x4500 + rd / 8 * 0x80 + rm * 8 + rd % 8) as u16, pc);
    lemma_fields(
        (0x4600 + rd / 8 * 0x80 + rm * 8 + rd % 8) as u16,
        8,
        (24 + rd / 8 * 2 + rm / 8) as u16,
        (rm % 8) as u16,
        (rd % 8) as u16,
    );
    lemma_row_high((0x4600 + rd / 8 * 0x80 + rm * 8 + rd % 8) as u16, pc);
    lemma_fields((0x4700 + rm * 8) as u16, 8, (28 + rm / 8) as u16, (rm % 8) as u16, 0);
    lemma_row_high((0x4700 + rm * 8) as u16, pc);
    lemma_fields((0x4780 + rm * 8) as u16, 8, (30 + rm / 8) as u16, (rm % 8) as u16, 0);
    lemma_row_high((0x4780 + rm * 8) as u16, pc);
}

/// Loads and stores of low registers with a register offset.
#[verifier::spinoff_prover]
pub proof fn law_register_offset_encoding(rt: u8, rn: u8, rm: u8, pc: u32)
    requires
        rt < 8,
        rn < 8,
        rm < 8,
    ensures
        ({
            let fields = rm * 0x40 + rn * 8 + rt;
            let offset = LoadStoreOffset::Register(rm);
            &&& decoded16((0x5000 + fields) as u16, pc) == (Instruction::Str {
                rt,
                rn,
                offset,
                width: AccessWidth::Word,
            })
            &&& decoded16((0x5200 + fields) as u16, pc) == (Instruction::Str {
                rt,
                rn,
                offset,
                width: AccessWidth::HalfWord,
            })
            &&& decoded16((0x5400 + fields) as u16, pc) == (Instruction::Str {
                rt,
                rn,
                offset,
                width: AccessWidth::Byte,
            })
            &&& decoded16((0x5600 + fields) as u16, pc) == (Instruction::LdrSignExtend {
                rt,
                rn,
                offset,
                width: AccessWidth::Byte,
            })
            &&& decoded16((0x5800 + fields) as u16, pc) == (Instruction::Ldr {
                rt,
                rn,
                offset,
                width: AccessWidth::Word,
            })
            &&& decoded16((0x5A00 + fields) as u16, pc) == (Instruction::Ldr {
                rt,
                rn,
                offset,
                width: AccessWidth::HalfWord,
            })
            &&& decoded16((0x5C00 + fields) as u16, pc) == (Instruction::Ldr {
                rt,
                rn,
                offset,
                width: AccessWidth::Byte,
            })
        }),
{
    lemma_fields((0x5000 + rm * 0x40 + rn * 8 + rt) as u16, 10, rm as u16, rn as u16, rt as u16);
    lemma_row_reg_offset((0x5000 + rm * 0x40 + rn * 8 + rt) as u16, pc);
    lemma_fields((0x5200 + rm * 0x40 + rn * 8 + rt) as u16, 10, (8 + rm) as u16, rn as u16,
        rt as u16);
    lemma_row_reg_offset((0x5200 + rm * 0x40 + rn * 8 + rt) as u16, pc);
    lemma_fields((0x5400 + rm * 0x40 + rn * 8 + rt) as u16, 10, (16 + rm) as u16, rn as u16,
        rt as u16);
    lemma_row_reg_offset((0x5400 + rm * 0x40 + rn * 8 + rt) as u16, pc);
    lemma_fields((0x5600 + rm * 0x40 + rn * 8 + rt) as u16, 10, (24 + rm) as u16, rn as u16,
        rt as u16);
    lemma_row_reg_offset((0x5600 + rm * 0x40 + rn * 8 + rt) as u16, pc);
    lemma_fields((0x5800 + rm * 0x40 + rn * 8 + rt) as u16, 11, rm as u16, rn as u16, rt as u16);
    lemma_row_reg_offset((0x5800 + rm * 0x40 + rn * 8 + rt) as u16, pc);
    lemma_fields((0x5A00 + rm * 0x40 + rn * 8 + rt) as u16, 11, (8 + rm) as u16, rn as u16,
        rt as u16);
    lemma_row_reg_offset((0x5A00 + rm * 0x40 + rn * 8 + rt) as u16, pc);
    lemma_fields((0x5C00 + rm * 0x40 + rn * 8 + rt) as u16, 11, (16 + rm) as u16, rn as u16,
        rt as u16);
    lemma_row_reg_offset((0x5C00 + rm * 0x40 + rn * 8 + rt) as u16, pc);
}

/// Loads and stores of low registers with an immediate offset in units of the width.
#[verifier::spinoff_prover]
pub proof fn law_immediate_offset_encoding(rt: u8, rn: u8, n: u8, pc: u32)
    requires
        rt < 8,
        rn < 8,
        n < 32,
    ensures
        ({
            let fields = n * 0x40 + rn * 8 + rt;
            let words = LoadStoreOffset::Immediate((4 * n) as u32);
            let halves = LoadStoreOffset::Immediate((2 * n) as u32);
            let bytes = LoadStoreOffset::Immediate(n as u32);
            &&& decoded16((0x6000 + fields) as u16, pc) == (Instruction::Str {
                rt,
                rn,
                offset: words,
                width: AccessWidth::Word,
            })
            &&& decoded16((0x6800 + fields) as u16, pc) == (Instruction::Ldr {
                rt,
                rn,
                offset: words,
                width: AccessWidth::Word,
            })
            &&& decoded16((0x7000 + fields) as u16, pc) == (Instruction::Str {
                rt,
                rn,
                offset: bytes,
                width: AccessWidth::Byte,
            })
            &&& decoded16((0x7800 + fields) as u16, pc) == (Instruction::Ldr {
                rt,
                rn,
                offset: bytes,
                width: AccessWidth::Byte,
            })
            &&& decoded16((0x8000 + fields) as u16, pc) == (Instruction::Str {
                rt,
                rn,
                offset: halves,
                width: AccessWidth::HalfWord,
            })
            &&& decoded16((0x8800 + fields) as u16, pc) == (Instruction::Ldr {
                rt,
                rn,
                offset: halves,
                width: AccessWidth::HalfWord,
            })
        }),
{
    lemma_fields((0x6000 + n * 0x40 + rn * 8 + rt) as u16, 12, n as u16, rn as u16, rt as u16);
    lemma_row_imm_offset((0x6000 + n * 0x40 + rn * 8 + rt) as u16, pc);
    lemma_fields((0x6800 + n * 0x40 + rn * 8 + rt) as u16, 13, n as u16, rn as u16, rt as u16);
    lemma_row_imm_offset((0x6800 + n * 0x40 + rn * 8 + rt) as u16, pc);
    lemma_fields((0x7000 + n * 0x40 + rn * 8 + rt) as u16, 14, n as u16, rn as u16, rt as u16);
    lemma_row_imm_offset((0x7000 + n * 0x40 + rn * 8 + rt) as u16, pc);
    lemma_fields((0x7800 + n * 0x40 + rn * 8 + rt) as u16, 15, n as u16, rn as u16, rt as u16);
    lemma_row_imm_offset((0x7800 + n * 0x40 + rn * 8 + rt) as u16, pc);
    lemma_fields((0x8000 + n * 0x40 + rn * 8 + rt) as u16, 16, n as u16, rn as u16, rt as u16);
    lemma_row_imm_offset((0x8000 + n * 0x40 + rn * 8 + rt) as u16, pc);
    lemma_fields((0x8800 + n * 0x40 + rn * 8 + rt) as u16, 17, n as u16, rn as u16, rt as u16);
    lemma_row_imm_offset((0x8800 + n * 0x40 + rn * 8 + rt) as u16, pc);
}

/// Addresses relative to PC and SP, in words.
#[verifier::spinoff_prover]
pub proof fn law_relative_encoding(rt: u8, n: u8, pc: u32)
    requires
        rt < 8,
    ensures
        decoded16((0x4800 + rt * 0x100 + n) as u16, pc) == (Instruction::LdrLiteral {
            rt,
            imm: (4 * n) as u32,
        }),
        decoded16((0x9000 + rt * 0x100 + n) as u16, pc) == (Instruction::Str {
            rt,
            rn: 13,
            offset: LoadStoreOffset::Immediate((4 * n) as u32),
            width: AccessWidth::Word,
        }),
        decoded16((0x9800 + rt * 0x100 + n) as u16, pc) == (Instruction::Ldr {
            rt,
            rn: 13,
            offset: LoadStoreOffset::Immediate((4 * n) as u32),
            width: AccessWidth::Word,
        }),
        decoded16((0xA000 + rt * 0x100 + n) as u16, pc) == (Instruction::Add {
            rd: rt,
            rn: 15,
            rm: None,
            imm: Some((4 * n) as u32),
            flags: false,
        }),
        decoded16((0xA800 + rt * 0x100 + n) as u16, pc) == (Instruction::Add {
            rd: rt,
            rn: 13,
            rm: None,
            imm: Some((4 * n) as u32),
            flags: false,
        }),
        n < 0x80 ==> decoded16((0xB000 + n) as u16, pc) == (Instruction::Add {
            rd: 13,
            rn: 13,
            rm: None,
            imm: Some((4 * n) as u32),
            flags: false,
        }),
        n < 0x80 ==> decoded16((0xB080 + n) as u16, pc) == (Instruction::Sub {
            rd: 13,
            rn: 13,
            rm: None,
            imm: Some((4 * n) as u32),
            flags: false,
        }),
{
    lemma_byte((0x4800 + rt * 0x100 + n) as u16, 9, rt as u16, n as u16);
    lemma_row_literal((0x4800 + rt * 0x100 + n) as u16, pc);
    lemma_byte((0x9000 + rt * 0x100 + n) as u16, 18, rt as u16, n as u16);
    lemma_row_sp_relative((0x9000 + rt * 0x100 + n) as u16, pc);
    lemma_byte((0x9800 + rt * 0x100 + n) as u16, 19, rt as u16, n as u16);
    lemma_row_sp_relative((0x9800 + rt * 0x100 + n) as u16, pc);
    lemma_byte((0xA000 + rt * 0x100 + n) as u16, 20, rt as u16, n as u16);
    lemma_row_add_pc_sp((0xA000 + rt * 0x100 + n) as u16, pc);
    lemma_byte((0xA800 + rt * 0x100 + n) as u16, 21, rt as u16, n as u16);
    lemma_row_add_pc_sp((0xA800 + rt * 0x100 + n) as u16, pc);
    if n < 0x80 {
        lemma_byte((0xB000 + n) as u16, 22, 0, n as u16);
        lemma_row_misc((0xB000 + n) as u16, pc);
        lemma_byte((0xB080 + n) as u16, 22, 0, (128 + n) as u16);
        lemma_row_misc((0xB080 + n) as u16, pc);
    }
}

/// Register lists: PUSH, POP, STM and LDM.
#[verifier::spinoff_prover]
pub proof fn law_list_encoding(rn: u8, regs: u8, pc: u32)
    requires
        rn < 8,
    ensures
        decoded16((0xB400 + regs) as u16, pc) == (Instruction::Push {
            regs: regs as u16,
            lr: false,
        }),
        decoded16((0xB500 + regs) as u16, pc) == (Instruction::Push { regs: regs as u16,
            lr: true }),
        decoded16((0xBC00 + regs) as u16, pc) == (Instruction::Pop { regs: regs as u16,
            pc: false }),
        decoded16((0xBD00 + regs) as u16, pc) == (Instruction::Pop { regs: regs as u16, pc: true }),
        decoded16((0xC000 + rn * 0x100 + regs) as u16, pc) == (Instruction::Stm {
            rn,
            regs: regs as u16,
            writeback: true,
            descending: false,
        }),
        decoded16((0xC800 + rn * 0x100 + regs) as u16, pc) == (Instruction::Ldm {
            rn,
            regs: regs as u16,
            writeback: true,
            descending: false,
        }),
{
    lemma_byte((0xB400 + regs) as u16, 22, 4, regs as u16);
    lemma_row_misc((0xB400 + regs) as u16, pc);
    lemma_byte((0xB500 + regs) as u16, 22, 5, regs as u16);
    lemma_row_misc((0xB500 + regs) as u16, pc);
    lemma_byte((0xBC00 + regs) as u16, 23, 4, regs as u16);
    lemma_row_misc_top((0xBC00 + regs) as u16, pc);
    lemma_byte((0xBD00 + regs) as u16, 23, 5, regs as u16);
    lemma_row_misc_top((0xBD00 + regs) as u16, pc);
    lemma_byte((0xC000 + rn * 0x100 + regs) as u16, 24, rn as u16, regs as u16);
    lemma_row_stm((0xC000 + rn * 0x100 + regs) as u16, pc);
    lemma_byte((0xC800 + rn * 0x100 + regs) as u16, 25, rn as u16, regs as u16);
    lemma_row_ldm((0xC800 + rn * 0x100 + regs) as u16, pc);
}

/// Extensions and byte reversals of a low register.
#[verifier::spinoff_prover]
pub proof fn law_extend_encoding(rd: u8, rm: u8, pc: u32)
    requires
        rd < 8,
        rm < 8,
    ensures
        decoded16((0xB200 + rm * 8 + rd) as u16, pc) == (Instruction::Extend {
            rd,
            rm,
            kind: ExtendKind::Sxth,
        }),
        decoded16((0xB240 + rm * 8 + rd) as u16, pc) == (Instruction::Extend {
            rd,
            rm,
            kind: ExtendKind::Sxtb,
        }),
        decoded16((0xB280 + rm * 8 + rd) as u16, pc) == (Instruction::Extend {
            rd,
            rm,
            kind: ExtendKind::Uxth,
        }),
        decoded16((0xB2C0 + rm * 8 + rd) as u16, pc) == (Instruction::Extend {
            rd,
            rm,
            kind: ExtendKind::Uxtb,
        }),
        decoded16((0xBA00 + rm * 8 + rd) as u16, pc) == (Instruction::Rev {
            rd,
            rm,
            kind: RevKind::Rev,
        }),
        decoded16((0xBA40 + rm * 8 + rd) as u16, pc) == (Instruction::Rev {
            rd,
            rm,
            kind: RevKind::Rev16,
        }),
        decoded16((0xBAC0 + rm * 8 + rd) as u16, pc) == (Instruction::Rev {
            rd,
            rm,
            kind: RevKind::RevSh,
        }),
{
    lemma_fields((0xB200 + rm * 8 + rd) as u16, 22, 8, rm as u16, rd as u16);
    lemma_row_misc((0xB200 + rm * 8 + rd) as u16, pc);
    lemma_fields((0xB240 + rm * 8 + rd) as u16, 22, 9, rm as u16, rd as u16);
    lemma_row_misc((0xB240 + rm * 8 + rd) as u16, pc);
    lemma_fields((0xB280 + rm * 8 + rd) as u16, 22, 10, rm as u16, rd as u16);
    lemma_row_misc((0xB280 + rm * 8 + rd) as u16, pc);
    lemma_fields((0xB2C0 + rm * 8 + rd) as u16, 22, 11, rm as u16, rd as u16);
    lemma_row_misc((0xB2C0 + rm * 8 + rd) as u16, pc);
    lemma_fields((0xBA00 + rm * 8 + rd) as u16, 23, 8, rm as u16, rd as u16);
    lemma_row_misc_top((0xBA00 + rm * 8 + rd) as u16, pc);
    lemma_fields((0xBA40 + rm * 8 + rd) as u16, 23, 9, rm as u16, rd as u16);
    lemma_row_misc_top((0xBA40 + rm * 8 + rd) as u16, pc);
    lemma_fields((0xBAC0 + rm * 8 + rd) as u16, 23, 11, rm as u16, rd as u16);
    lemma_row_misc_top((0xBAC0 + rm * 8 + rd) as u16, pc);
}

/// SVC, BKPT, the hints, and CPS.
#[verifier::spinoff_prover]
pub proof fn law_system_encoding(byte: u8, hint: u8, pc: u32)
    requires
        hint < 16,
    ensures
        decoded16((0xDF00 + byte) as u16, pc) == (Instruction::Svc { imm8: byte }),
        decoded16((0xBE00 + byte) as u16, pc) == (Instruction::Breakpoint { imm8: byte }),
        decoded16((0xBF00 + hint * 16) as u16, pc) == Instruction::Nop,
        decoded16(0xB662, pc) == (Instruction::Cps { disable: false, i: true, f: false }),
        decoded16(0xB672, pc) == (Instruction::Cps { disable: true, i: true, f: false }),
        decoded16(0xB661, pc) == (Instruction::Cps { disable: false, i: false, f: true }),
        decoded16(0xB671, pc) == (Instruction::Cps { disable: true, i: false, f: true }),
{
    lemma_byte((0xDF00 + byte) as u16, 27, 7, byte as u16);
    lemma_row_cond((0xDF00 + byte) as u16, pc);
    lemma_byte((0xBE00 + byte) as u16, 23, 6, byte as u16);
    lemma_row_misc_top((0xBE00 + byte) as u16, pc);
    lemma_byte((0xBF00 + hint * 16) as u16, 23, 7, (16 * hint) as u16);
    lemma_row_misc_top((0xBF00 + hint * 16) as u16, pc);
    lemma_byte(0xB662, 22, 6, 98);
    lemma_row_misc(0xB662, pc);
    lemma_byte(0xB672, 22, 6, 114);
    lemma_row_misc(0xB672, pc);
    lemma_byte(0xB661, 22, 6, 97);
    lemma_row_misc(0xB661, pc);
    lemma_byte(0xB671, 22, 6, 113);
    lemma_row_misc(0xB671, pc);
}

/// The place of a condition in the order in which encodings number them.
pub open spec fn cond_order() -> Seq<Cond> {
    seq![
        Cond::Eq,
        Cond::Ne,
        Cond::Cs,
        Cond::Cc,
        Cond::Mi,
        Cond::Pl,
        Cond::Vs,
        Cond::Vc,
        Cond::Hi,
        Cond::Ls,
        Cond::Ge,
        Cond::Lt,
        Cond::Gt,
        Cond::Le,
        Cond::Al,
    ]
}

/// Conditional branches and IT: the condition by its place from EQ, NE, CS, CC, MI, PL,
/// VS, VC, HI, LS, GE, LT, GT, LE to AL. A branch reaches from 256 bytes before to 254
/// bytes after the address four bytes on.
#[verifier::spinoff_prover]
pub proof fn law_condition_encoding(c: u8, off: int, mask: u8, pc: u32)
    requires
        c < 15,
        -128 <= off < 128,
        0 < mask < 16,
    ensures
        decoded16((0xD000 + c * 0x100 + off % 0x100) as u16, pc) == (Instruction::Branch {
            cond: Some(cond_order()[c as int]),
            target: ((pc + 4 + 2 * off) % 0x1_0000_0000) as u32,
        }),
        c < 14 ==> decoded16((0xBF00 + c * 16 + mask) as u16, pc) == (Instruction::It {
            cond: cond_order()[c as int],
            mask,
        }),
{
    let h = (26 + c / 8) as u16;
    lemma_byte((0xD000 + c * 0x100 + off % 0x100) as u16, h, (c % 8) as u16, (off % 0x100) as u16);
    lemma_row_cond((0xD000 + c * 0x100 + off % 0x100) as u16, pc);
    lemma_byte((0xBF00 + c * 16 + mask) as u16, 23, 7, (c * 16 + mask) as u16);
    lemma_row_misc_top((0xBF00 + c * 16 + mask) as u16, pc);
}

/// Unconditional branches, and CBZ and CBNZ, which only go forward.
#[verifier::spinoff_prover]
pub proof fn law_branch_encoding(rn: u8, off: int, n: u8, pc: u32)
    requires
        rn < 8,
        -1024 <= off < 1024,
        n < 32,
    ensures
        decoded16((0xE000 + off % 0x800) as u16, pc) == (Instruction::Branch {
            cond: None,
            target: ((pc + 4 + 2 * off) % 0x1_0000_0000) as u32,
        }),
        decoded16((0xB100 + n * 8 + rn) as u16, pc) == (Instruction::CompareBranch {
            rn,
            target: ((pc + 4 + 2 * n) % 0x1_0000_0000) as u32,
            zero: true,
        }),
        decoded16((0xB900 + n * 8 + rn) as u16, pc) == (Instruction::CompareBranch {
            rn,
            target: ((pc + 4 + 2 * n) % 0x1_0000_0000) as u32,
            zero: false,
        }),
{
    lemma_row_branch((0xE000 + off % 0x800) as u16, pc);
    lemma_fields((0xB100 + n * 8 + rn) as u16, 22, (4 + n / 8) as u16, (n % 8) as u16, rn as u16);
    lemma_row_misc((0xB100 + n * 8 + rn) as u16, pc);
    lemma_fields((0xB900 + n * 8 + rn) as u16, 23, (4 + n / 8) as u16, (n % 8) as u16, rn as u16);
    lemma_row_misc_top((0xB900 + n * 8 + rn) as u16, pc);
}

/// The head of a 32-bit encoding: what its first three digits and the last digit of its
/// first halfword give.
proof fn lemma_head(bits: u32, k: u32, r: u32, t: u32)
    by (bit_vector)
    requires
        bits == k * 0x10_0000 + r * 0x1_0000 + t,
        k < 0x1000,
        r < 16,
        t < 0x1_0000,
    ensures
        bits / 0x1_0000 == k * 16 + r,
        bits % 0x1_0000 == t,
        bits / 0x1_0000 / 0x800 == k / 0x80,
        bits / 0x1_0000 / 0x200 == k / 0x20,
        bits / 0x1_0000 / 0x200 % 2 == k / 0x20 % 2,
        bits / 0x1_0000 / 0x100 == k / 0x10,
        bits / 0x1_0000 / 0x100 % 4 == k / 0x10 % 4,
        bits / 0x1_0000 / 0x80 == k / 8,
        bits / 0x1_0000 / 0x40 == k / 4,
        bits / 0x1_0000 / 0x40 % 2 == k / 4 % 2,
        bits / 0x1_0000 / 0x20 == k / 2,
        bits / 0x1_0000 / 0x20 % 2 == k / 2 % 2,
        bits / 0x1_0000 / 0x10 == k,
        bits / 0x1_0000 / 0x10 % 8 == k % 8,
        bits / 0x1_0000 / 0x10 % 2 == k % 2,
        bits / 0x1_0000 / 8 == k * 2 + r / 8,
        bits / 0x10_0000 == k,
        bits / 0x10_0000 % 16 == k % 16,
        bits / 0x10_0000 % 4 == k % 4,
        bits / 0x10_0000 % 2 == k % 2,
        bits / 0x20_0000 % 16 == k / 2 % 16,
        bits / 0x20_0000 % 4 == k / 2 % 4,
        bits / 0x20_0000 % 2 == k / 2 % 2,
        bits / 0x40_0000 % 2 == k / 4 % 2,
        bits / 0x80_0000 % 2 == k / 8 % 2,
        bits / 0x100_0000 % 2 == k / 16 % 2,
        bits / 0x400_0000 % 2 == k / 0x40 % 2,
        bits / 0x1_0000 % 16 == r,
        bits / 0x1_0000 % 0x400 == k % 0x40 * 16 + r,
{
}

/// The tail of a 32-bit encoding: what the four digits of its second halfword give.
proof fn lemma_tail(bits: u32, h: u32, a: u32, b: u32, c: u32, d: u32)
    by (bit_vector)
    requires
        bits == h * 0x1_0000 + a * 0x1000 + b * 0x100 + c * 0x10 + d,
        h < 0x1_0000,
        a < 16,
        b < 16,
        c < 16,
        d < 16,
    ensures
        bits / 0x8000 % 2 == a / 8,
        bits / 0x4000 % 2 == a / 4 % 2,
        bits / 0x2000 % 2 == a / 2 % 2,
        bits / 0x1000 % 16 == a,
        bits / 0x1000 % 8 == a % 8,
        bits / 0x800 % 2 == b / 8,
        bits / 0x400 % 2 == b / 4 % 2,
        bits / 0x200 % 8 == b / 2,
        bits / 0x200 % 2 == b / 2 % 2,
        bits / 0x100 % 16 == b,
        bits / 0x100 % 2 == b % 2,
        bits / 0x80 % 2 == c / 8,
        bits / 0x40 % 4 == c / 4,
        bits / 0x40 % 2 == c / 4 % 2,
        bits / 0x20 % 4 == c / 2 % 4,
        bits / 0x20 % 2 == c / 2 % 2,
        bits / 0x10 % 16 == c,
        bits / 0x10 % 4 == c % 4,
        bits / 0x10 % 2 == c % 2,
        bits / 1 % 16 == d,
        bits % 16 == d,
        bits % 32 == c % 2 * 16 + d,
        bits % 0x100 == c * 16 + d,
        bits % 0x800 == b % 8 * 0x100 + c * 16 + d,
        bits % 0x1000 == b * 0x100 + c * 16 + d,
        bits % 0x1_0000 == a * 0x1000 + b * 0x100 + c * 16 + d,
        bits % 0x1_0000 / 0x8000 == a / 8,
        bits % 0x1_0000 / 0x1000 == a,
        bits % 0x1_0000 / 0x800 == a * 2 + b / 8,
        bits % 0x1_0000 / 0x200 % 8 == b / 2,
        bits % 0x1_0000 / 0x100 == a * 16 + b,
        bits % 0x1_0000 / 0x100 % 16 == b,
        bits % 0x1_0000 / 0x40 % 4 == c / 4,
        bits % 0x1_0000 / 0x20 % 8 == c / 2,
        bits % 0x1_0000 / 0x10 % 16 == c,
        bits % 0x1_0000 / 0x10 % 8 == c % 8,
        bits % 0x1_0000 % 0x10 == d,
{
}

#[verifier::spinoff_prover]
#[verifier::rlimit(60)]
proof fn lemma_word_mov_imm(bits: u32, pc: u32, k: u32, r: u32, a: u32, b: u32, c: u32, d: u32)
    requires
        bits == k * 0x10_0000 + r * 0x1_0000 + a * 0x1000 + b * 0x100 + c * 0x10 + d,
        k < 0x1000,
        r < 16,
        a < 16,
        b < 16,
        c < 16,
        d < 16,
        k == 0xF24 || k == 0xF2C || k == 0xF64 || k == 0xF6C,
    ensures
        decoded32(bits, pc) == mov_imm32(bits),
        bits / 0x1_0000 % 16 == r,
        bits / 0x400_0000 % 2 == k / 0x40 % 2,
        bits / 0x1000 % 8 == a % 8,
        bits / 0x100 % 16 == b,
        bits % 0x100 == c * 16 + d,
        bits / 0x80_0000 % 2 == k / 8 % 2,
{
    reveal(decoded32);
    lemma_head(bits, k, r, (a * 0x1000 + b * 0x100 + c * 0x10 + d) as u32);
    lemma_tail(bits, (k * 16 + r) as u32, a, b, c, d);
}

#[verifier::spinoff_prover]
#[verifier::rlimit(60)]
proof fn lemma_word_bl(bits: u32, pc: u32, k: u32, r: u32, a: u32, b: u32, c: u32, d: u32)
    requires
        bits == k * 0x10_0000 + r * 0x1_0000 + a * 0x1000 + b * 0x100 + c * 0x10 + d,
        k < 0x1000,
        r < 16,
        a < 16,
        b < 16,
        c < 16,
        d < 16,
        k / 0x80 == 30,
        a == 15,
        b >= 8,
        !(k / 0x10 % 4 == 2 && k % 8 == 4),
    ensures
        decoded32(bits, pc) == (Instruction::BranchLink { target: wrap32(pc + 4
            + bl_offset(bits)) }),
        bits / 0x400_0000 % 2 == k / 0x40 % 2,
        bits / 0x4000 % 2 == 1,
        bits / 0x2000 % 2 == 1,
        bits / 0x1_0000 % 0x400 == k % 0x40 * 16 + r,
        bits % 0x800 == b % 8 * 0x100 + c * 16 + d,
{
    reveal(decoded32);
    lemma_head(bits, k, r, (a * 0x1000 + b * 0x100 + c * 0x10 + d) as u32);
    lemma_tail(bits, (k * 16 + r) as u32, a, b, c, d);
}

#[verifier::spinoff_prover]
#[verifier::rlimit(60)]
proof fn lemma_word_mrs(bits: u32, pc: u32, k: u32, r: u32, a: u32, b: u32, c: u32, d: u32)
    requires
        bits == k * 0x10_0000 + r * 0x1_0000 + a * 0x1000 + b * 0x100 + c * 0x10 + d,
        k < 0x1000,
        r < 16,
        a < 16,
        b < 16,
        c < 16,
        d < 16,
        k == 0xF3E,
        r == 15,
        a == 8,
    ensures
        decoded32(bits, pc) == mrs32(bits),
        bits / 0x100 % 16 == b,
        bits % 0x100 == c * 16 + d,
{
    reveal(decoded32);
    lemma_head(bits, k, r, (a * 0x1000 + b * 0x100 + c * 0x10 + d) as u32);
    lemma_tail(bits, (k * 16 + r) as u32, a, b, c, d);
}

#[verifier::spinoff_prover]
#[verifier::rlimit(60)]
proof fn lemma_word_msr(bits: u32, pc: u32, k: u32, r: u32, a: u32, b: u32, c: u32, d: u32)
    requires
        bits == k * 0x10_0000 + r * 0x1_0000 + a * 0x1000 + b * 0x100 + c * 0x10 + d,
        k < 0x1000,
        r < 16,
        a < 16,
        b < 16,
        c < 16,
        d < 16,
        k == 0xF38,
        a == 8,
    ensures
        decoded32(bits, pc) == msr32(bits),
        bits / 0x1_0000 % 16 == r,
        bits % 0x100 == c * 16 + d,
        bits / 0x400 % 2 == b / 4 % 2,
{
    reveal(decoded32);
    lemma_head(bits, k, r, (a * 0x1000 + b * 0x100 + c * 0x10 + d) as u32);
    lemma_tail(bits, (k * 16 + r) as u32, a, b, c, d);
}

#[verifier::spinoff_prover]
#[verifier::rlimit(60)]
proof fn lemma_word_sat(bits: u32, pc: u32, k: u32, r: u32, a: u32, b: u32, c: u32, d: u32)
    requires
        bits == k * 0x10_0000 + r * 0x1_0000 + a * 0x1000 + b * 0x100 + c * 0x10 + d,
        k < 0x1000,
        r < 16,
        a < 16,
        b < 16,
        c < 16,
        d < 16,
        k == 0xF30 || k == 0xF32 || k == 0xF38 || k == 0xF3A,
        a < 8,
    ensures
        decoded32(bits, pc) == sat32(bits),
        bits / 0x1_0000 % 16 == r,
        bits / 0x100 % 16 == b,
        bits % 32 == c % 2 * 16 + d,
        bits / 0x80_0000 % 2 == k / 8 % 2,
        bits / 0x20_0000 % 2 == k / 2 % 2,
        bits / 0x1000 % 8 == a % 8,
        bits / 0x40 % 4 == c / 4,
{
    reveal(decoded32);
    lemma_head(bits, k, r, (a * 0x1000 + b * 0x100 + c * 0x10 + d) as u32);
    lemma_tail(bits, (k * 16 + r) as u32, a, b, c, d);
}

#[verifier::spinoff_prover]
#[verifier::rlimit(60)]
proof fn lemma_word_bitfield(bits: u32, pc: u32, k: u32, r: u32, a: u32, b: u32, c: u32, d: u32)
    requires
        bits == k * 0x10_0000 + r * 0x1_0000 + a * 0x1000 + b * 0x100 + c * 0x10 + d,
        k < 0x1000,
        r < 16,
        a < 16,
        b < 16,
        c < 16,
        d < 16,
        k == 0xF3C || k == 0xF34 || k == 0xF36,
        a < 8,
    ensures
        decoded32(bits, pc) == bitfield32(bits),
        bits / 0x10_0000 == k,
        bits / 0x1_0000 % 16 == r,
        bits / 0x100 % 16 == b,
        bits % 32 == c % 2 * 16 + d,
        bits / 0x1000 % 8 == a % 8,
        bits / 0x40 % 4 == c / 4,
{
    reveal(decoded32);
    lemma_head(bits, k, r, (a * 0x1000 + b * 0x100 + c * 0x10 + d) as u32);
    lemma_tail(bits, (k * 16 + r) as u32, a, b, c, d);
}

#[verifier::spinoff_prover]
#[verifier::rlimit(60)]
proof fn lemma_word_qaddsub(bits: u32, pc: u32, k: u32, r: u32, a: u32, b: u32, c: u32, d: u32)
    requires
        bits == k * 0x10_0000 + r * 0x1_0000 + a * 0x1000 + b * 0x100 + c * 0x10 + d,
        k < 0x1000,
        r < 16,
        a < 16,
        b < 16,
        c < 16,
        d < 16,
        k == 0xFA8,
        r < 8,
        a == 15,
        c / 4 == 2,
    ensures
        decoded32(bits, pc) == qaddsub32(bits),
        bits / 16 % 4 == c % 4,
        bits / 0x1_0000 % 16 == r,
        bits / 0x100 % 16 == b,
        bits / 1 % 16 == d,
{
    reveal(decoded32);
    lemma_head(bits, k, r, (a * 0x1000 + b * 0x100 + c * 0x10 + d) as u32);
    lemma_tail(bits, (k * 16 + r) as u32, a, b, c, d);
}

#[verifier::spinoff_prover]
#[verifier::rlimit(60)]
proof fn lemma_word_simd16(bits: u32, pc: u32, k: u32, r: u32, a: u32, b: u32, c: u32, d: u32)
    requires
        bits == k * 0x10_0000 + r * 0x1_0000 + a * 0x1000 + b * 0x100 + c * 0x10 + d,
        k < 0x1000,
        r < 16,
        a < 16,
        b < 16,
        c < 16,
        d < 16,
        k == 0xFA9 || k == 0xFAA || k == 0xFAD || k == 0xFAE,
        r < 8,
        a == 15,
        c == 0 || c == 4,
    ensures
        decoded32(bits, pc) == simd16_32(bits),
        bits / 0x10_0000 % 16 == k % 16,
        bits / 0x1_0000 % 16 == r,
        bits / 0x100 % 16 == b,
        bits / 1 % 16 == d,
        bits / 0x40 % 2 == c / 4 % 2,
{
    reveal(decoded32);
    lemma_head(bits, k, r, (a * 0x1000 + b * 0x100 + c * 0x10 + d) as u32);
    lemma_tail(bits, (k * 16 + r) as u32, a, b, c, d);
}

#[verifier::spinoff_prover]
#[verifier::rlimit(60)]
proof fn lemma_word_simd8(bits: u32, pc: u32, k: u32, r: u32, a: u32, b: u32, c: u32, d: u32)
    requires
        bits == k * 0x10_0000 + r * 0x1_0000 + a * 0x1000 + b * 0x100 + c * 0x10 + d,
        k < 0x1000,
        r < 16,
        a < 16,
        b < 16,
        c < 16,
        d < 16,
        k == 0xFA8 || k == 0xFAC,
        r < 8,
        a == 15,
        c / 4 != 2,
    ensures
        decoded32(bits, pc) == simd8_32(bits),
        bits / 0x40_0000 % 2 == k / 4 % 2,
        bits / 0x1_0000 % 16 == r,
        bits / 0x100 % 16 == b,
        bits / 1 % 16 == d,
        bits / 0x40 % 2 == c / 4 % 2,
        bits / 0x20 % 2 == c / 2 % 2,
{
    reveal(decoded32);
    lemma_head(bits, k, r, (a * 0x1000 + b * 0x100 + c * 0x10 + d) as u32);
    lemma_tail(bits, (k * 16 + r) as u32, a, b, c, d);
}

#[verifier::spinoff_prover]
#[verifier::rlimit(60)]
proof fn lemma_word_dual(bits: u32, pc: u32, k: u32, r: u32, a: u32, b: u32, c: u32, d: u32)
    requires
        bits == k * 0x10_0000 + r * 0x1_0000 + a * 0x1000 + b * 0x100 + c * 0x10 + d,
        k < 0x1000,
        r < 16,
        a < 16,
        b < 16,
        c < 16,
        d < 16,
        k == 0xFB2 || k == 0xFB4,
        r < 8,
        c < 2,
    ensures
        decoded32(bits, pc) == dual_half32(bits),
        bits / 0x40_0000 % 2 == k / 4 % 2,
        bits / 0x1_0000 % 16 == r,
        bits / 0x1000 % 16 == a,
        bits / 0x100 % 16 == b,
        bits / 1 % 16 == d,
        bits / 0x10 % 2 == c % 2,
{
    reveal(decoded32);
    lemma_head(bits, k, r, (a * 0x1000 + b * 0x100 + c * 0x10 + d) as u32);
    lemma_tail(bits, (k * 16 + r) as u32, a, b, c, d);
}

#[verifier::spinoff_prover]
#[verifier::rlimit(60)]
proof fn lemma_word_dual_long(bits: u32, pc: u32, k: u32, r: u32, a: u32, b: u32, c: u32, d: u32)
    requires
        bits == k * 0x10_0000 + r * 0x1_0000 + a * 0x1000 + b * 0x100 + c * 0x10 + d,
        k < 0x1000,
        r < 16,
        a < 16,
        b < 16,
        c < 16,
        d < 16,
        k == 0xFBC || k == 0xFBD,
        r < 8,
        c / 4 == 3,
    ensures
        decoded32(bits, pc) == dual_half_long32(bits),
        bits / 0x10_0000 % 2 == k % 2,
        bits / 0x1_0000 % 16 == r,
        bits / 0x1000 % 16 == a,
        bits / 0x100 % 16 == b,
        bits / 1 % 16 == d,
        bits / 0x10 % 2 == c % 2,
{
    reveal(decoded32);
    lemma_head(bits, k, r, (a * 0x1000 + b * 0x100 + c * 0x10 + d) as u32);
    lemma_tail(bits, (k * 16 + r) as u32, a, b, c, d);
}

#[verifier::spinoff_prover]
#[verifier::rlimit(60)]
proof fn lemma_word_mla(bits: u32, pc: u32, k: u32, r: u32, a: u32, b: u32, c: u32, d: u32)
    requires
        bits == k * 0x10_0000 + r * 0x1_0000 + a * 0x1000 + b * 0x100 + c * 0x10 + d,
        k < 0x1000,
        r < 16,
        a < 16,
        b < 16,
        c < 16,
        d < 16,
        k == 0xFB0,
        c < 2,
    ensures
        decoded32(bits, pc) == mla32(bits),
        bits / 0x1_0000 % 16 == r,
        bits / 0x1000 % 16 == a,
        bits / 0x100 % 16 == b,
        bits / 1 % 16 == d,
        bits / 0x10 % 2 == c % 2,
{
    reveal(decoded32);
    lemma_head(bits, k, r, (a * 0x1000 + b * 0x100 + c * 0x10 + d) as u32);
    lemma_tail(bits, (k * 16 + r) as u32, a, b, c, d);
}

#[verifier::spinoff_prover]
#[verifier::rlimit(60)]
proof fn lemma_word_mull(bits: u32, pc: u32, k: u32, r: u32, a: u32, b: u32, c: u32, d: u32)
    requires
        bits == k * 0x10_0000 + r * 0x1_0000 + a * 0x1000 + b * 0x100 + c * 0x10 + d,
        k < 0x1000,
        r < 16,
        a < 16,
        b < 16,
        c < 16,
        d < 16,
        k == 0xFBA || k == 0xFB8 || k == 0xFBC,
        c == 0,
    ensures
        decoded32(bits, pc) == mull32(bits),
        bits / 0x10_0000 == k,
        bits / 0x1_0000 % 16 == r,
        bits / 0x1000 % 16 == a,
        bits / 0x100 % 16 == b,
        bits / 1 % 16 == d,
{
    reveal(decoded32);
    lemma_head(bits, k, r, (a * 0x1000 + b * 0x100 + c * 0x10 + d) as u32);
    lemma_tail(bits, (k * 16 + r) as u32, a, b, c, d);
}

#[verifier::spinoff_prover]
#[verifier::rlimit(60)]
proof fn lemma_word_pkh(bits: u32, pc: u32, k: u32, r: u32, a: u32, b: u32, c: u32, d: u32)
    requires
        bits == k * 0x10_0000 + r * 0x1_0000 + a * 0x1000 + b * 0x100 + c * 0x10 + d,
        k < 0x1000,
        r < 16,
        a < 16,
        b < 16,
        c < 16,
        d < 16,
        k == 0xEAC,
    ensures
        decoded32(bits, pc) == pkh32(bits),
        bits / 0x1_0000 % 16 == r,
        bits / 0x1000 % 8 == a % 8,
        bits / 0x100 % 16 == b,
        bits / 0x40 % 4 == c / 4,
        bits / 0x20 % 2 == c / 2 % 2,
        bits / 1 % 16 == d,
{
    reveal(decoded32);
    lemma_head(bits, k, r, (a * 0x1000 + b * 0x100 + c * 0x10 + d) as u32);
    lemma_tail(bits, (k * 16 + r) as u32, a, b, c, d);
}

#[verifier::spinoff_prover]
#[verifier::rlimit(60)]
proof fn lemma_word_clz(bits: u32, pc: u32, k: u32, r: u32, a: u32, b: u32, c: u32, d: u32)
    requires
        bits == k * 0x10_0000 + r * 0x1_0000 + a * 0x1000 + b * 0x100 + c * 0x10 + d,
        k < 0x1000,
        r < 16,
        a < 16,
        b < 16,
        c < 16,
        d < 16,
        k == 0xFAB,
        a == 15,
        c == 8,
    ensures
        decoded32(bits, pc) == (Instruction::Clz { rd: b as u8, rm: d as u8 }),
{
    reveal(decoded32);
    lemma_head(bits, k, r, (a * 0x1000 + b * 0x100 + c * 0x10 + d) as u32);
    lemma_tail(bits, (k * 16 + r) as u32, a, b, c, d);
}

#[verifier::spinoff_prover]
#[verifier::rlimit(60)]
proof fn lemma_word_rbit(bits: u32, pc: u32, k: u32, r: u32, a: u32, b: u32, c: u32, d: u32)
    requires
        bits == k * 0x10_0000 + r * 0x1_0000 + a * 0x1000 + b * 0x100 + c * 0x10 + d,
        k < 0x1000,
        r < 16,
        a < 16,
        b < 16,
        c < 16,
        d < 16,
        k == 0xFA9,
        a == 15,
        c == 10,
    ensures
        decoded32(bits, pc) == (Instruction::Rbit { rd: b as u8, rm: d as u8 }),
{
    reveal(decoded32);
    lemma_head(bits, k, r, (a * 0x1000 + b * 0x100 + c * 0x10 + d) as u32);
    lemma_tail(bits, (k * 16 + r) as u32, a, b, c, d);
}

#[verifier::spinoff_prover]
#[verifier::rlimit(60)]
proof fn lemma_word_shift_reg(bits: u32, pc: u32, k: u32, r: u32, a: u32, b: u32, c: u32, d: u32)
    requires
        bits == k * 0x10_0000 + r * 0x1_0000 + a * 0x1000 + b * 0x100 + c * 0x10 + d,
        k < 0x1000,
        r < 16,
        a < 16,
        b < 16,
        c < 16,
        d < 16,
        k / 8 == 0x1F4,
        a == 15,
        c == 0,
    ensures
        decoded32(bits, pc) == shift_reg32(bits),
        bits / 0x20_0000 % 4 == k / 2 % 4,
        bits / 0x10_0000 % 2 == k % 2,
        bits / 0x1_0000 % 16 == r,
        bits / 0x100 % 16 == b,
        bits / 1 % 16 == d,
{
    reveal(decoded32);
    lemma_head(bits, k, r, (a * 0x1000 + b * 0x100 + c * 0x10 + d) as u32);
    lemma_tail(bits, (k * 16 + r) as u32, a, b, c, d);
}

#[verifier::spinoff_prover]
#[verifier::rlimit(60)]
proof fn lemma_word_rest(bits: u32, pc: u32, k: u32, r: u32, a: u32, b: u32, c: u32, d: u32)
    requires
        bits == k * 0x10_0000 + r * 0x1_0000 + a * 0x1000 + b * 0x100 + c * 0x10 + d,
        k < 0x1000,
        r < 16,
        a < 16,
        b < 16,
        c < 16,
        d < 16,
        0xF80 <= k <= 0xF9F || 0xE80 <= k <= 0xEAB || 0xEB0 <= k <= 0xEFF || (0xF00 <= k <= 0xF1F
            || 0xF40 <= k <= 0xF5F) && a < 8,
    ensures
        decoded32(bits, pc) == decoded32_rest(bits),
{
    reveal(decoded32);
    lemma_head(bits, k, r, (a * 0x1000 + b * 0x100 + c * 0x10 + d) as u32);
    lemma_tail(bits, (k * 16 + r) as u32, a, b, c, d);
}

#[verifier::spinoff_prover]
#[verifier::rlimit(60)]
proof fn lemma_word_access(bits: u32, pc: u32, k: u32, r: u32, a: u32, b: u32, c: u32, d: u32)
    requires
        bits == k * 0x10_0000 + r * 0x1_0000 + a * 0x1000 + b * 0x100 + c * 0x10 + d,
        k < 0x1000,
        r < 16,
        a < 16,
        b < 16,
        c < 16,
        d < 16,
        0xF80 <= k <= 0xF9F,
    ensures
        decoded32(bits, pc) == (match load_store32(bits) {
            Some(instr) => instr,
            None => Instruction::Unimplemented { bits },
        }),
        bits / 0x10_0000 == k,
        bits / 0x1_0000 % 16 == r,
        bits / 0x1000 % 16 == a,
        bits / 0x800 % 2 == b / 8,
        bits / 0x400 % 2 == b / 4 % 2,
        bits / 0x200 % 2 == b / 2 % 2,
        bits / 0x100 % 2 == b % 2,
        bits / 16 % 4 == c % 4,
        bits / 1 % 16 == d,
        bits % 0x100 == c * 16 + d,
        bits % 0x1000 == b * 0x100 + c * 16 + d,
{
    lemma_word_rest(bits, pc, k, r, a, b, c, d);
    lemma_head(bits, k, r, (a * 0x1000 + b * 0x100 + c * 0x10 + d) as u32);
    lemma_tail(bits, (k * 16 + r) as u32, a, b, c, d);
}

#[verifier::spinoff_prover]
#[verifier::rlimit(60)]
proof fn lemma_word_double(bits: u32, pc: u32, k: u32, r: u32, a: u32, b: u32, c: u32, d: u32)
    requires
        bits == k * 0x10_0000 + r * 0x1_0000 + a * 0x1000 + b * 0x100 + c * 0x10 + d,
        k < 0x1000,
        r < 16,
        a < 16,
        b < 16,
        c < 16,
        d < 16,
        k == 0xE9D || k == 0xE9C,
    ensures
        decoded32(bits, pc) == double32(bits),
        bits / 0x10_0000 == k,
        bits / 0x1_0000 % 16 == r,
        bits / 0x1000 % 16 == a,
        bits / 0x100 % 16 == b,
        bits % 0x100 == c * 16 + d,
{
    lemma_word_rest(bits, pc, k, r, a, b, c, d);
    lemma_head(bits, k, r, (a * 0x1000 + b * 0x100 + c * 0x10 + d) as u32);
    lemma_tail(bits, (k * 16 + r) as u32, a, b, c, d);
}

#[verifier::spinoff_prover]
#[verifier::rlimit(60)]
proof fn lemma_word_multiple(bits: u32, pc: u32, k: u32, r: u32, a: u32, b: u32, c: u32, d: u32)
    requires
        bits == k * 0x10_0000 + r * 0x1_0000 + a * 0x1000 + b * 0x100 + c * 0x10 + d,
        k < 0x1000,
        r < 16,
        a < 16,
        b < 16,
        c < 16,
        d < 16,
        0xE80 <= k <= 0xE9B,
        k / 4 % 2 == 0,
    ensures
        decoded32(bits, pc) == multiple32(bits),
        bits / 0x100_0000 % 2 == k / 16 % 2,
        bits / 0x80_0000 % 2 == k / 8 % 2,
        bits / 0x20_0000 % 2 == k / 2 % 2,
        bits / 0x10_0000 % 2 == k % 2,
        bits / 0x1_0000 % 16 == r,
        bits % 0x1_0000 == a * 0x1000 + b * 0x100 + c * 16 + d,
{
    lemma_word_rest(bits, pc, k, r, a, b, c, d);
    lemma_head(bits, k, r, (a * 0x1000 + b * 0x100 + c * 0x10 + d) as u32);
    lemma_tail(bits, (k * 16 + r) as u32, a, b, c, d);
}

#[verifier::spinoff_prover]
#[verifier::rlimit(60)]
proof fn lemma_word_exclusive(bits: u32, pc: u32, k: u32, r: u32, a: u32, b: u32, c: u32, d: u32)
    requires
        bits == k * 0x10_0000 + r * 0x1_0000 + a * 0x1000 + b * 0x100 + c * 0x10 + d,
        k < 0x1000,
        r < 16,
        a < 16,
        b < 16,
        c < 16,
        d < 16,
        k == 0xE84 || k == 0xE85 || k == 0xE8C || k == 0xE8D,
    ensures
        decoded32(bits, pc) == exclusive32(bits),
        bits / 0x10_0000 == k,
        bits / 0x1_0000 % 16 == r,
        bits / 0x1000 % 16 == a,
        bits / 0x100 % 16 == b,
        bits / 1 % 16 == d,
        bits % 0x100 == c * 16 + d,
        bits % 0x1000 == b * 0x100 + c * 16 + d,
{
    lemma_word_rest(bits, pc, k, r, a, b, c, d);
    lemma_head(bits, k, r, (a * 0x1000 + b * 0x100 + c * 0x10 + d) as u32);
    lemma_tail(bits, (k * 16 + r) as u32, a, b, c, d);
}

#[verifier::spinoff_prover]
#[verifier::rlimit(60)]
proof fn lemma_word_data_reg(bits: u32, pc: u32, k: u32, r: u32, a: u32, b: u32, c: u32, d: u32)
    requires
        bits == k * 0x10_0000 + r * 0x1_0000 + a * 0x1000 + b * 0x100 + c * 0x10 + d,
        k < 0x1000,
        r < 16,
        a < 16,
        b < 16,
        c < 16,
        d < 16,
        0xEA0 <= k <= 0xEAB || 0xEB0 <= k <= 0xEBF,
    ensures
        decoded32(bits, pc) == data_proc_reg32(bits),
        bits / 0x20_0000 % 16 == k / 2 % 16,
        bits / 0x10_0000 % 2 == k % 2,
        bits / 0x1_0000 % 16 == r,
        bits / 0x8000 % 2 == a / 8,
        bits / 0x1000 % 8 == a % 8,
        bits / 0x100 % 16 == b,
        bits / 0x40 % 4 == c / 4,
        bits / 16 % 4 == c % 4,
        bits / 1 % 16 == d,
{
    lemma_word_rest(bits, pc, k, r, a, b, c, d);
    lemma_head(bits, k, r, (a * 0x1000 + b * 0x100 + c * 0x10 + d) as u32);
    lemma_tail(bits, (k * 16 + r) as u32, a, b, c, d);
}

#[verifier::spinoff_prover]
#[verifier::rlimit(60)]
proof fn lemma_word_data_imm(bits: u32, pc: u32, k: u32, r: u32, a: u32, b: u32, c: u32, d: u32)
    requires
        bits == k * 0x10_0000 + r * 0x1_0000 + a * 0x1000 + b * 0x100 + c * 0x10 + d,
        k < 0x1000,
        r < 16,
        a < 16,
        b < 16,
        c < 16,
        d < 16,
        0xF00 <= k <= 0xF1F || 0xF40 <= k <= 0xF5F,
        a < 8,
    ensures
        decoded32(bits, pc) == data_proc_imm32(bits),
        bits / 0x400_0000 % 2 == k / 0x40 % 2,
        bits / 0x20_0000 % 16 == k / 2 % 16,
        bits / 0x10_0000 % 2 == k % 2,
        bits / 0x1_0000 % 16 == r,
        bits / 0x1000 % 8 == a % 8,
        bits / 0x100 % 16 == b,
        bits % 0x100 == c * 16 + d,
{
    lemma_word_rest(bits, pc, k, r, a, b, c, d);
    lemma_head(bits, k, r, (a * 0x1000 + b * 0x100 + c * 0x10 + d) as u32);
    lemma_tail(bits, (k * 16 + r) as u32, a, b, c, d);
}

#[verifier::spinoff_prover]
#[verifier::rlimit(60)]
proof fn lemma_word_float(bits: u32, pc: u32, k: u32, r: u32, a: u32, b: u32, c: u32, d: u32)
    requires
        bits == k * 0x10_0000 + r * 0x1_0000 + a * 0x1000 + b * 0x100 + c * 0x10 + d,
        k < 0x1000,
        r < 16,
        a < 16,
        b < 16,
        c < 16,
        d < 16,
        0xEE0 <= k <= 0xEEF,
    ensures
        decoded32(bits, pc) == (match fpu32(bits) {
            Some(instr) => instr,
            None => Instruction::Unimplemented { bits },
        }),
{
    lemma_word_rest(bits, pc, k, r, a, b, c, d);
    lemma_head(bits, k, r, (a * 0x1000 + b * 0x100 + c * 0x10 + d) as u32);
    lemma_tail(bits, (k * 16 + r) as u32, a, b, c, d);
}

#[verifier::spinoff_prover]
#[verifier::rlimit(60)]
proof fn lemma_word_vldm(bits: u32, pc: u32, k: u32, r: u32, a: u32, b: u32, c: u32, d: u32)
    requires
        bits == k * 0x10_0000 + r * 0x1_0000 + a * 0x1000 + b * 0x100 + c * 0x10 + d,
        k < 0x1000,
        r < 16,
        a < 16,
        b < 16,
        c < 16,
        d < 16,
        0xEC8 <= k <= 0xECF || (0xED0 <= k <= 0xEDF && k / 2 % 2 == 1),
        b / 2 == 5,
    ensures
        decoded32(bits, pc) == vldm32(bits),
        bits / 0x100_0000 % 2 == k / 16 % 2,
        bits / 0x80_0000 % 2 == k / 8 % 2,
        bits / 0x40_0000 % 2 == k / 4 % 2,
        bits / 0x20_0000 % 2 == k / 2 % 2,
        bits / 0x10_0000 % 2 == k % 2,
        bits / 0x1_0000 % 16 == r,
        bits / 0x1000 % 16 == a,
        bits / 0x100 % 2 == b % 2,
        bits % 0x100 == c * 16 + d,
{
    lemma_word_rest(bits, pc, k, r, a, b, c, d);
    lemma_head(bits, k, r, (a * 0x1000 + b * 0x100 + c * 0x10 + d) as u32);
    lemma_tail(bits, (k * 16 + r) as u32, a, b, c, d);
}

#[verifier::spinoff_prover]
#[verifier::rlimit(60)]
proof fn lemma_word_vldr(bits: u32, pc: u32, k: u32, r: u32, a: u32, b: u32, c: u32, d: u32)
    requires
        bits == k * 0x10_0000 + r * 0x1_0000 + a * 0x1000 + b * 0x100 + c * 0x10 + d,
        k < 0x1000,
        r < 16,
        a < 16,
        b < 16,
        c < 16,
        d < 16,
        0xED0 <= k <= 0xEDF,
        k / 2 % 2 == 0,
        b / 2 == 5,
    ensures
        decoded32(bits, pc) == vldr32(bits),
        bits / 0x100_0000 % 2 == k / 16 % 2,
        bits / 0x80_0000 % 2 == k / 8 % 2,
        bits / 0x40_0000 % 2 == k / 4 % 2,
        bits / 0x20_0000 % 2 == k / 2 % 2,
        bits / 0x10_0000 % 2 == k % 2,
        bits / 0x1_0000 % 16 == r,
        bits / 0x1000 % 16 == a,
        bits / 0x100 % 2 == b % 2,
        bits % 0x100 == c * 16 + d,
{
    lemma_word_rest(bits, pc, k, r, a, b, c, d);
    lemma_head(bits, k, r, (a * 0x1000 + b * 0x100 + c * 0x10 + d) as u32);
    lemma_tail(bits, (k * 16 + r) as u32, a, b, c, d);
}

/// A byte with its top bit set, rotated right by eight places or more, is moved up.
proof fn lemma_rotated(v: u32, n: u32)
    requires
        v < 0x80,
        8 <= n < 32,
    ensures
        rotated((0x80 + v) as u32, n) == (0x80 + v) * pow2((32 - n) as nat),
        (0x80 + v) * pow2((32 - n) as nat) < 0x1_0000_0000,
{
    let x = (0x80 + v) as u32;
    let m = (32 - n) as u32;
    assert(x >> n == 0 && (0u32 | (x << m)) == x << m && x << m == x * (1u32 << m)
        && x * (1u32 << m)
        < 0x1_0000_0000) by (bit_vector)
        requires
            x < 0x100,
            8 <= n < 32,
            m == 32 - n,
    ;
    vstd::arithmetic::power2::lemma2_to64();
    vstd::arithmetic::power2::lemma_pow2_strictly_increases(m as nat, 32);
    vstd::bits::lemma_u32_shl_is_mul(1, m);
}

proof fn lemma_expanded(v1: u8, v0: u8, n1: u8, n0: u8)
    requires
        v1 < 8,
        v0 < 16,
        n1 < 8,
        n0 < 2,
    ensures
        n1 >= 4 ==> expanded_imm((n1 * 0x100 + (n0 * 8 + v1) * 16 + v0) as u32) == (0x80 + v1 * 0x10
            + v0)
            * pow2((32 - 2 * n1 - n0) as nat),
        expanded_imm((0x800 + n1 * 0x100 + (n0 * 8 + v1) * 16 + v0) as u32) == (0x80 + v1 * 0x10
            + v0)
            * pow2((16 - 2 * n1 - n0) as nat),
{
    let x = (n1 * 0x100 + (n0 * 8 + v1) * 16 + v0) as u32;
    let y = (x + 0x800) as u32;
    let v = (v1 * 0x10 + v0) as u32;
    let n = (2 * n1 + n0) as u32;
    assert(x / 0x80 == n && x % 0x80 == v);
    assert(x / 0x100 == n1 && x % 0x100 % 0x80 == v);
    assert(y / 0x80 == n + 16 && y / 0x100 == n1 + 8 && y % 0x100 % 0x80 == v);
    if n1 >= 4 {
        lemma_rotated(v, n);
    }
    lemma_rotated(v, (n + 16) as u32);
}

proof fn lemma_float_fields(
    bits: u32,
    k: u32,
    d0: u32,
    r: u32,
    a: u32,
    b: u32,
    n0: u32,
    s: u32,
    m0: u32,
    e: u32,
    d: u32,
)
    by (bit_vector)
    requires
        bits == k * 0x10_0000 + d0 * 0x40_0000 + r * 0x1_0000 + a * 0x1000 + b * 0x100 + n0 * 0x80
            + s
            * 0x40 + m0 * 0x20 + e * 0x10 + d,
        0xEE0 <= k <= 0xEEF,
        k / 4 % 2 == 0,
        d0 < 2,
        r < 16,
        a < 16,
        b < 16,
        n0 < 2,
        s < 2,
        m0 < 2,
        e < 2,
        d < 16,
    ensures
        bits / 0x80_0000 % 2 == k / 8 % 2,
        bits / 0x40_0000 % 2 == d0,
        bits / 0x20_0000 % 2 == k / 2 % 2,
        bits / 0x10_0000 % 4 == k % 4,
        bits / 0x10_0000 % 2 == k % 2,
        bits / 0x1_0000 % 16 == r,
        bits / 0x1000 % 16 == a,
        bits / 0x200 % 8 == b / 2,
        bits / 0x100 % 2 == b % 2,
        bits / 0x80 % 2 == n0,
        bits / 0x40 % 2 == s,
        bits / 0x20 % 4 == s % 2 * 2 + m0,
        bits / 0x20 % 2 == m0,
        bits / 16 % 16 == n0 * 8 + s * 4 + m0 * 2 + e,
        bits / 0x10 % 2 == e,
        bits / 1 % 16 == d,
        bits % 16 == d,
{
}

#[verifier::spinoff_prover]
#[verifier::rlimit(60)]
proof fn lemma_word_fpu(
    bits: u32,
    pc: u32,
    k: u32,
    d0: u32,
    r: u32,
    a: u32,
    b: u32,
    n0: u32,
    s: u32,
    m0: u32,
    e: u32,
    d: u32,
)
    requires
        bits == k * 0x10_0000 + d0 * 0x40_0000 + r * 0x1_0000 + a * 0x1000 + b * 0x100 + n0 * 0x80
            + s
            * 0x40 + m0 * 0x20 + e * 0x10 + d,
        0xEE0 <= k <= 0xEEF,
        k / 4 % 2 == 0,
        d0 < 2,
        r < 16,
        a < 16,
        b < 16,
        n0 < 2,
        s < 2,
        m0 < 2,
        e < 2,
        d < 16,
    ensures
        decoded32(bits, pc) == (match fpu32(bits) {
            Some(instr) => instr,
            None => Instruction::Unimplemented { bits },
        }),
        bits / 0x80_0000 % 2 == k / 8 % 2,
        bits / 0x40_0000 % 2 == d0,
        bits / 0x20_0000 % 2 == k / 2 % 2,
        bits / 0x10_0000 % 4 == k % 4,
        bits / 0x10_0000 % 2 == k % 2,
        bits / 0x1_0000 % 16 == r,
        bits / 0x1000 % 16 == a,
        bits / 0x200 % 8 == b / 2,
        bits / 0x100 % 2 == b % 2,
        bits / 0x80 % 2 == n0,
        bits / 0x40 % 2 == s,
        bits / 0x20 % 4 == s % 2 * 2 + m0,
        bits / 0x20 % 2 == m0,
        bits / 16 % 16 == n0 * 8 + s * 4 + m0 * 2 + e,
        bits / 0x10 % 2 == e,
        bits / 1 % 16 == d,
        bits % 16 == d,
{
    let q = (k + d0 * 4) as u32;
    let c = (n0 * 8 + s * 4 + m0 * 2 + e) as u32;
    lemma_word_float(bits, pc, q, r, a, b, c, d);
    lemma_float_fields(bits, k, d0, r, a, b, n0, s, m0, e, d);
}

/// MOVW and MOVT by the parts of their constant.
#[verifier::spinoff_prover]
#[verifier::rlimit(60)]
pub proof fn law_wide_move_parts(rd: u8, v3: u8, v2: u8, v1: u8, v0: u8, pc: u32)
    requires
        rd < 16,
        v3 < 16,
        v2 < 8,
        v1 < 16,
        v0 < 16,
    ensures
        decoded32((0xF240_0000 + v3 * 0x1_0000 + v2 * 0x1000 + rd * 0x100 + v1 * 0x10 + v0) as u32,
            pc) == (Instruction::MovImm32 {
            rd,
            imm16: (v3 * 0x1000 + v2 * 0x100 + v1 * 0x10 + v0) as u16,
            top: false,
        }),
        decoded32((0xF640_0000 + v3 * 0x1_0000 + v2 * 0x1000 + rd * 0x100 + v1 * 0x10 + v0) as u32,
            pc) == (Instruction::MovImm32 {
            rd,
            imm16: (v3 * 0x1000 + 0x800 + v2 * 0x100 + v1 * 0x10 + v0) as u16,
            top: false,
        }),
        decoded32((0xF2C0_0000 + v3 * 0x1_0000 + v2 * 0x1000 + rd * 0x100 + v1 * 0x10 + v0) as u32,
            pc) == (Instruction::MovImm32 {
            rd,
            imm16: (v3 * 0x1000 + v2 * 0x100 + v1 * 0x10 + v0) as u16,
            top: true,
        }),
        decoded32((0xF6C0_0000 + v3 * 0x1_0000 + v2 * 0x1000 + rd * 0x100 + v1 * 0x10 + v0) as u32,
            pc) == (Instruction::MovImm32 {
            rd,
            imm16: (v3 * 0x1000 + 0x800 + v2 * 0x100 + v1 * 0x10 + v0) as u16,
            top: true,
        }),
{
    lemma_word_mov_imm((0xF240_0000 + v3 * 0x1_0000 + v2 * 0x1000 + rd * 0x100 + v1 * 0x10
        + v0) as u32, pc, 0xF24, v3 as u32, v2 as u32, rd as u32, v1 as u32, v0 as u32);
    lemma_word_mov_imm((0xF640_0000 + v3 * 0x1_0000 + v2 * 0x1000 + rd * 0x100 + v1 * 0x10
        + v0) as u32, pc, 0xF64, v3 as u32, v2 as u32, rd as u32, v1 as u32, v0 as u32);
    lemma_word_mov_imm((0xF2C0_0000 + v3 * 0x1_0000 + v2 * 0x1000 + rd * 0x100 + v1 * 0x10
        + v0) as u32, pc, 0xF2C, v3 as u32, v2 as u32, rd as u32, v1 as u32, v0 as u32);
    lemma_word_mov_imm((0xF6C0_0000 + v3 * 0x1_0000 + v2 * 0x1000 + rd * 0x100 + v1 * 0x10
        + v0) as u32, pc, 0xF6C, v3 as u32, v2 as u32, rd as u32, v1 as u32, v0 as u32);
}

/// MRS of each special register.
#[verifier::spinoff_prover]
#[verifier::rlimit(60)]
pub proof fn law_special_read_encoding(rd: u8, pc: u32)
    requires
        rd < 16,
    ensures
        decoded32((0xF3EF_8000 + rd * 0x100) as u32, pc) == (Instruction::MsrMrs {
            rt: rd,
            reg: SpecialReg::Apsr,
            read: true,
        }),
        decoded32((0xF3EF_8001 + rd * 0x100) as u32, pc) == (Instruction::MsrMrs {
            rt: rd,
            reg: SpecialReg::Iapsr,
            read: true,
        }),
        decoded32((0xF3EF_8002 + rd * 0x100) as u32, pc) == (Instruction::MsrMrs {
            rt: rd,
            reg: SpecialReg::Eapsr,
            read: true,
        }),
        decoded32((0xF3EF_8005 + rd * 0x100) as u32, pc) == (Instruction::MsrMrs {
            rt: rd,
            reg: SpecialReg::Ipsr,
            read: true,
        }),
        decoded32((0xF3EF_8006 + rd * 0x100) as u32, pc) == (Instruction::MsrMrs {
            rt: rd,
            reg: SpecialReg::Epsr,
            read: true,
        }),
        decoded32((0xF3EF_8008 + rd * 0x100) as u32, pc) == (Instruction::MsrMrs {
            rt: rd,
            reg: SpecialReg::Msp,
            read: true,
        }),
        decoded32((0xF3EF_8009 + rd * 0x100) as u32, pc) == (Instruction::MsrMrs {
            rt: rd,
            reg: SpecialReg::Psp,
            read: true,
        }),
        decoded32((0xF3EF_8010 + rd * 0x100) as u32, pc) == (Instruction::MsrMrs {
            rt: rd,
            reg: SpecialReg::Primask,
            read: true,
        }),
        decoded32((0xF3EF_8011 + rd * 0x100) as u32, pc) == (Instruction::MsrMrs {
            rt: rd,
            reg: SpecialReg::Basepri,
            read: true,
        }),
        decoded32((0xF3EF_8013 + rd * 0x100) as u32, pc) == (Instruction::MsrMrs {
            rt: rd,
            reg: SpecialReg::Faultmask,
            read: true,
        }),
        decoded32((0xF3EF_8014 + rd * 0x100) as u32, pc) == (Instruction::MsrMrs {
            rt: rd,
            reg: SpecialReg::Control,
            read: true,
        }),
{
    lemma_word_mrs((0xF3EF_8000 + rd * 0x100) as u32, pc, 0xF3E, 15, 8, rd as u32, 0, 0);
    lemma_word_mrs((0xF3EF_8001 + rd * 0x100) as u32, pc, 0xF3E, 15, 8, rd as u32, 0, 1);
    lemma_word_mrs((0xF3EF_8002 + rd * 0x100) as u32, pc, 0xF3E, 15, 8, rd as u32, 0, 2);
    lemma_word_mrs((0xF3EF_8005 + rd * 0x100) as u32, pc, 0xF3E, 15, 8, rd as u32, 0, 5);
    lemma_word_mrs((0xF3EF_8006 + rd * 0x100) as u32, pc, 0xF3E, 15, 8, rd as u32, 0, 6);
    lemma_word_mrs((0xF3EF_8008 + rd * 0x100) as u32, pc, 0xF3E, 15, 8, rd as u32, 0, 8);
    lemma_word_mrs((0xF3EF_8009 + rd * 0x100) as u32, pc, 0xF3E, 15, 8, rd as u32, 0, 9);
    lemma_word_mrs((0xF3EF_8010 + rd * 0x100) as u32, pc, 0xF3E, 15, 8, rd as u32, 1, 0);
    lemma_word_mrs((0xF3EF_8011 + rd * 0x100) as u32, pc, 0xF3E, 15, 8, rd as u32, 1, 1);
    lemma_word_mrs((0xF3EF_8013 + rd * 0x100) as u32, pc, 0xF3E, 15, 8, rd as u32, 1, 3);
    lemma_word_mrs((0xF3EF_8014 + rd * 0x100) as u32, pc, 0xF3E, 15, 8, rd as u32, 1, 4);
}

/// MSR of each special register.
#[verifier::spinoff_prover]
#[verifier::rlimit(60)]
pub proof fn law_special_write_encoding(rn: u8, pc: u32)
    requires
        rn < 16,
    ensures
        decoded32((0xF380_8800 + rn * 0x1_0000) as u32, pc) == (Instruction::MsrMrs {
            rt: rn,
            reg: SpecialReg::Apsr,
            read: false,
        }),
        decoded32((0xF380_8C00 + rn * 0x1_0000) as u32, pc) == (Instruction::MsrMrs {
            rt: rn,
            reg: SpecialReg::ApsrGe,
            read: false,
        }),
        decoded32((0xF380_8808 + rn * 0x1_0000) as u32, pc) == (Instruction::MsrMrs {
            rt: rn,
            reg: SpecialReg::Msp,
            read: false,
        }),
        decoded32((0xF380_8809 + rn * 0x1_0000) as u32, pc) == (Instruction::MsrMrs {
            rt: rn,
            reg: SpecialReg::Psp,
            read: false,
        }),
        decoded32((0xF380_8810 + rn * 0x1_0000) as u32, pc) == (Instruction::MsrMrs {
            rt: rn,
            reg: SpecialReg::Primask,
            read: false,
        }),
        decoded32((0xF380_8811 + rn * 0x1_0000) as u32, pc) == (Instruction::MsrMrs {
            rt: rn,
            reg: SpecialReg::Basepri,
            read: false,
        }),
        decoded32((0xF380_8812 + rn * 0x1_0000) as u32, pc) == (Instruction::MsrMrs {
            rt: rn,
            reg: SpecialReg::BasepriMax,
            read: false,
        }),
        decoded32((0xF380_8813 + rn * 0x1_0000) as u32, pc) == (Instruction::MsrMrs {
            rt: rn,
            reg: SpecialReg::Faultmask,
            read: false,
        }),
        decoded32((0xF380_8814 + rn * 0x1_0000) as u32, pc) == (Instruction::MsrMrs {
            rt: rn,
            reg: SpecialReg::Control,
            read: false,
        }),
{
    lemma_word_msr((0xF380_8800 + rn * 0x1_0000) as u32, pc, 0xF38, rn as u32, 8, 8, 0, 0);
    lemma_word_msr((0xF380_8C00 + rn * 0x1_0000) as u32, pc, 0xF38, rn as u32, 8, 12, 0, 0);
    lemma_word_msr((0xF380_8808 + rn * 0x1_0000) as u32, pc, 0xF38, rn as u32, 8, 8, 0, 8);
    lemma_word_msr((0xF380_8809 + rn * 0x1_0000) as u32, pc, 0xF38, rn as u32, 8, 8, 0, 9);
    lemma_word_msr((0xF380_8810 + rn * 0x1_0000) as u32, pc, 0xF38, rn as u32, 8, 8, 1, 0);
    lemma_word_msr((0xF380_8811 + rn * 0x1_0000) as u32, pc, 0xF38, rn as u32, 8, 8, 1, 1);
    lemma_word_msr((0xF380_8812 + rn * 0x1_0000) as u32, pc, 0xF38, rn as u32, 8, 8, 1, 2);
    lemma_word_msr((0xF380_8813 + rn * 0x1_0000) as u32, pc, 0xF38, rn as u32, 8, 8, 1, 3);
    lemma_word_msr((0xF380_8814 + rn * 0x1_0000) as u32, pc, 0xF38, rn as u32, 8, 8, 1, 4);
}

/// SSAT and USAT to `16 * n1 + n0` bits, SSAT to one more, with a shift of the operand by
/// `4 * s1 + s0` places.
#[verifier::spinoff_prover]
#[verifier::rlimit(60)]
pub proof fn law_saturate_encoding(rd: u8, rn: u8, n1: u8, n0: u8, s1: u8, s0: u8, pc: u32)
    requires
        rd < 16,
        rn < 16,
        n1 < 2,
        n0 < 16,
        s1 < 8,
        s0 < 4,
    ensures
        decoded32((0xF300_0000 + rn * 0x1_0000 + s1 * 0x1000 + rd * 0x100 + s0 * 0x40 + n1 * 0x10
            + n0) as u32, pc) == (Instruction::Sat {
            rd,
            rn,
            sat_imm: (16 * n1 + n0 + 1) as u8,
            signed: true,
            shift_kind: DspShiftKind::Lsl,
            shift_imm: (4 * s1 + s0) as u8,
        }),
        decoded32((0xF320_0000 + rn * 0x1_0000 + s1 * 0x1000 + rd * 0x100 + s0 * 0x40 + n1 * 0x10
            + n0) as u32, pc) == (Instruction::Sat {
            rd,
            rn,
            sat_imm: (16 * n1 + n0 + 1) as u8,
            signed: true,
            shift_kind: DspShiftKind::Asr,
            shift_imm: (4 * s1 + s0) as u8,
        }),
        decoded32((0xF380_0000 + rn * 0x1_0000 + s1 * 0x1000 + rd * 0x100 + s0 * 0x40 + n1 * 0x10
            + n0) as u32, pc) == (Instruction::Sat {
            rd,
            rn,
            sat_imm: (16 * n1 + n0) as u8,
            signed: false,
            shift_kind: DspShiftKind::Lsl,
            shift_imm: (4 * s1 + s0) as u8,
        }),
        decoded32((0xF3A0_0000 + rn * 0x1_0000 + s1 * 0x1000 + rd * 0x100 + s0 * 0x40 + n1 * 0x10
            + n0) as u32, pc) == (Instruction::Sat {
            rd,
            rn,
            sat_imm: (16 * n1 + n0) as u8,
            signed: false,
            shift_kind: DspShiftKind::Asr,
            shift_imm: (4 * s1 + s0) as u8,
        }),
{
    lemma_word_sat((0xF300_0000 + rn * 0x1_0000 + s1 * 0x1000 + rd * 0x100 + s0 * 0x40 + n1 * 0x10
        + n0) as u32, pc, 0xF30, rn as u32, s1 as u32, rd as u32, (s0 * 4 + n1) as u32, n0 as u32);
    lemma_word_sat((0xF320_0000 + rn * 0x1_0000 + s1 * 0x1000 + rd * 0x100 + s0 * 0x40 + n1 * 0x10
        + n0) as u32, pc, 0xF32, rn as u32, s1 as u32, rd as u32, (s0 * 4 + n1) as u32, n0 as u32);
    lemma_word_sat((0xF380_0000 + rn * 0x1_0000 + s1 * 0x1000 + rd * 0x100 + s0 * 0x40 + n1 * 0x10
        + n0) as u32, pc, 0xF38, rn as u32, s1 as u32, rd as u32, (s0 * 4 + n1) as u32, n0 as u32);
    lemma_word_sat((0xF3A0_0000 + rn * 0x1_0000 + s1 * 0x1000 + rd * 0x100 + s0 * 0x40 + n1 * 0x10
        + n0) as u32, pc, 0xF3A, rn as u32, s1 as u32, rd as u32, (s0 * 4 + n1) as u32, n0 as u32);
}

/// Bit fields from bit `4 * s1 + s0` on: the extractions are written with the width less
/// one, the insertions with the number of the last bit.
#[verifier::spinoff_prover]
#[verifier::rlimit(60)]
pub proof fn law_bit_field_encoding(rd: u8, rn: u8, s1: u8, s0: u8, n1: u8, n0: u8, pc: u32)
    requires
        rd < 16,
        rn < 16,
        s1 < 8,
        s0 < 4,
        n1 < 2,
        n0 < 16,
    ensures
        decoded32((0xF3C0_0000 + rn * 0x1_0000 + s1 * 0x1000 + rd * 0x100 + s0 * 0x40 + n1 * 0x10
            + n0) as u32, pc) == (Instruction::BitField {
            rd,
            rn,
            lsb: (4 * s1 + s0) as u8,
            width: (16 * n1 + n0 + 1) as u8,
            kind: BitFieldKind::Ubfx,
        }),
        decoded32((0xF340_0000 + rn * 0x1_0000 + s1 * 0x1000 + rd * 0x100 + s0 * 0x40 + n1 * 0x10
            + n0) as u32, pc) == (Instruction::BitField {
            rd,
            rn,
            lsb: (4 * s1 + s0) as u8,
            width: (16 * n1 + n0 + 1) as u8,
            kind: BitFieldKind::Sbfx,
        }),
{
    lemma_word_bitfield((0xF3C0_0000 + rn * 0x1_0000 + s1 * 0x1000 + rd * 0x100 + s0 * 0x40
        + n1 * 0x10 + n0) as u32, pc, 0xF3C, rn as u32, s1 as u32, rd as u32, (s0 * 4 + n1) as u32,
        n0 as u32);
    lemma_word_bitfield((0xF340_0000 + rn * 0x1_0000 + s1 * 0x1000 + rd * 0x100 + s0 * 0x40
        + n1 * 0x10 + n0) as u32, pc, 0xF34, rn as u32, s1 as u32, rd as u32, (s0 * 4 + n1) as u32,
        n0 as u32);
}

/// BFI, and without a source BFC, from bit `4 * s1 + s0` to bit `16 * n1 + n0`.
#[verifier::spinoff_prover]
#[verifier::rlimit(60)]
pub proof fn law_bit_insert_encoding(rd: u8, rn: u8, s1: u8, s0: u8, n1: u8, n0: u8, pc: u32)
    requires
        rd < 16,
        rn < 15,
        s1 < 8,
        s0 < 4,
        n1 < 2,
        n0 < 16,
        4 * s1 + s0 <= 16 * n1 + n0,
    ensures
        decoded32((0xF360_0000 + rn * 0x1_0000 + s1 * 0x1000 + rd * 0x100 + s0 * 0x40 + n1 * 0x10
            + n0) as u32, pc) == (Instruction::BitField {
            rd,
            rn,
            lsb: (4 * s1 + s0) as u8,
            width: (16 * n1 + n0 - (4 * s1 + s0) + 1) as u8,
            kind: BitFieldKind::Bfi,
        }),
        decoded32((0xF36F_0000 + s1 * 0x1000 + rd * 0x100 + s0 * 0x40 + n1 * 0x10 + n0) as u32, pc)
            == (Instruction::BitField {
            rd,
            rn: 15,
            lsb: (4 * s1 + s0) as u8,
            width: (16 * n1 + n0 - (4 * s1 + s0) + 1) as u8,
            kind: BitFieldKind::Bfc,
        }),
{
    lemma_word_bitfield((0xF360_0000 + rn * 0x1_0000 + s1 * 0x1000 + rd * 0x100 + s0 * 0x40
        + n1 * 0x10 + n0) as u32, pc, 0xF36, rn as u32, s1 as u32, rd as u32, (s0 * 4 + n1) as u32,
        n0 as u32);
    lemma_word_bitfield((0xF36F_0000 + s1 * 0x1000 + rd * 0x100 + s0 * 0x40 + n1 * 0x10
        + n0) as u32, pc, 0xF36, 15, s1 as u32, rd as u32, (s0 * 4 + n1) as u32, n0 as u32);
}

/// QADD, QDADD, QSUB and QDSUB.
#[verifier::spinoff_prover]
#[verifier::rlimit(60)]
pub proof fn law_saturating_sum_encoding(rd: u8, rn: u8, rm: u8, pc: u32)
    requires
        rd < 16,
        rn < 8,
        rm < 16,
    ensures
        decoded32((0xFA80_F080 + rn * 0x1_0000 + rd * 0x100 + rm) as u32, pc)
            == (Instruction::QAddSub { rd, rn, rm, kind: QAddKind::Qadd }),
        decoded32((0xFA80_F090 + rn * 0x1_0000 + rd * 0x100 + rm) as u32, pc)
            == (Instruction::QAddSub { rd, rn, rm, kind: QAddKind::Qdadd }),
        decoded32((0xFA80_F0A0 + rn * 0x1_0000 + rd * 0x100 + rm) as u32, pc)
            == (Instruction::QAddSub { rd, rn, rm, kind: QAddKind::Qsub }),
        decoded32((0xFA80_F0B0 + rn * 0x1_0000 + rd * 0x100 + rm) as u32, pc)
            == (Instruction::QAddSub { rd, rn, rm, kind: QAddKind::Qdsub }),
{
    lemma_word_qaddsub((0xFA80_F080 + rn * 0x1_0000 + rd * 0x100 + rm) as u32, pc, 0xFA8,
        rn as u32, 15, rd as u32, 8, rm as u32);
    lemma_word_qaddsub((0xFA80_F090 + rn * 0x1_0000 + rd * 0x100 + rm) as u32, pc, 0xFA8,
        rn as u32, 15, rd as u32, 9, rm as u32);
    lemma_word_qaddsub((0xFA80_F0A0 + rn * 0x1_0000 + rd * 0x100 + rm) as u32, pc, 0xFA8,
        rn as u32, 15, rd as u32, 10, rm as u32);
    lemma_word_qaddsub((0xFA80_F0B0 + rn * 0x1_0000 + rd * 0x100 + rm) as u32, pc, 0xFA8,
        rn as u32, 15, rd as u32, 11, rm as u32);
}

/// SADD16, SASX, SSAX, SSUB16 and their unsigned forms.
#[verifier::spinoff_prover]
#[verifier::rlimit(60)]
pub proof fn law_halfword_lanes_encoding(rd: u8, rn: u8, rm: u8, pc: u32)
    requires
        rd < 16,
        rn < 8,
        rm < 16,
    ensures
        decoded32((0xFA90_F000 + rn * 0x1_0000 + rd * 0x100 + rm) as u32, pc)
            == (Instruction::Simd16 {
            rd,
            rn,
            rm,
            kind: Simd16Kind::Add16,
            unsigned: false,
        }),
        decoded32((0xFA90_F040 + rn * 0x1_0000 + rd * 0x100 + rm) as u32, pc)
            == (Instruction::Simd16 {
            rd,
            rn,
            rm,
            kind: Simd16Kind::Add16,
            unsigned: true,
        }),
        decoded32((0xFAA0_F000 + rn * 0x1_0000 + rd * 0x100 + rm) as u32, pc)
            == (Instruction::Simd16 {
            rd,
            rn,
            rm,
            kind: Simd16Kind::Asx,
            unsigned: false,
        }),
        decoded32((0xFAA0_F040 + rn * 0x1_0000 + rd * 0x100 + rm) as u32, pc)
            == (Instruction::Simd16 {
            rd,
            rn,
            rm,
            kind: Simd16Kind::Asx,
            unsigned: true,
        }),
        decoded32((0xFAE0_F000 + rn * 0x1_0000 + rd * 0x100 + rm) as u32, pc)
            == (Instruction::Simd16 {
            rd,
            rn,
            rm,
            kind: Simd16Kind::Sax,
            unsigned: false,
        }),
        decoded32((0xFAE0_F040 + rn * 0x1_0000 + rd * 0x100 + rm) as u32, pc)
            == (Instruction::Simd16 {
            rd,
            rn,
            rm,
            kind: Simd16Kind::Sax,
            unsigned: true,
        }),
        decoded32((0xFAD0_F000 + rn * 0x1_0000 + rd * 0x100 + rm) as u32, pc)
            == (Instruction::Simd16 {
            rd,
            rn,
            rm,
            kind: Simd16Kind::Sub16,
            unsigned: false,
        }),
        decoded32((0xFAD0_F040 + rn * 0x1_0000 + rd * 0x100 + rm) as u32, pc)
            == (Instruction::Simd16 {
            rd,
            rn,
            rm,
            kind: Simd16Kind::Sub16,
            unsigned: true,
        }),
{
    lemma_word_simd16((0xFA90_F000 + rn * 0x1_0000 + rd * 0x100 + rm) as u32, pc, 0xFA9, rn as u32,
        15, rd as u32, 0, rm as u32);
    lemma_word_simd16((0xFA90_F040 + rn * 0x1_0000 + rd * 0x100 + rm) as u32, pc, 0xFA9, rn as u32,
        15, rd as u32, 4, rm as u32);
    lemma_word_simd16((0xFAA0_F000 + rn * 0x1_0000 + rd * 0x100 + rm) as u32, pc, 0xFAA, rn as u32,
        15, rd as u32, 0, rm as u32);
    lemma_word_simd16((0xFAA0_F040 + rn * 0x1_0000 + rd * 0x100 + rm) as u32, pc, 0xFAA, rn as u32,
        15, rd as u32, 4, rm as u32);
    lemma_word_simd16((0xFAE0_F000 + rn * 0x1_0000 + rd * 0x100 + rm) as u32, pc, 0xFAE, rn as u32,
        15, rd as u32, 0, rm as u32);
    lemma_word_simd16((0xFAE0_F040 + rn * 0x1_0000 + rd * 0x100 + rm) as u32, pc, 0xFAE, rn as u32,
        15, rd as u32, 4, rm as u32);
    lemma_word_simd16((0xFAD0_F000 + rn * 0x1_0000 + rd * 0x100 + rm) as u32, pc, 0xFAD, rn as u32,
        15, rd as u32, 0, rm as u32);
    lemma_word_simd16((0xFAD0_F040 + rn * 0x1_0000 + rd * 0x100 + rm) as u32, pc, 0xFAD, rn as u32,
        15, rd as u32, 4, rm as u32);
}

/// SADD8, SHADD8, SSUB8, SHSUB8 and their unsigned forms.
#[verifier::spinoff_prover]
#[verifier::rlimit(60)]
pub proof fn law_byte_lanes_encoding(rd: u8, rn: u8, rm: u8, pc: u32)
    requires
        rd < 16,
        rn < 8,
        rm < 16,
    ensures
        decoded32((0xFA80_F000 + rn * 0x1_0000 + rd * 0x100 + rm) as u32, pc)
            == (Instruction::Simd8 {
            rd,
            rn,
            rm,
            unsigned: false,
            halving: false,
            sub: false,
        }),
        decoded32((0xFA80_F020 + rn * 0x1_0000 + rd * 0x100 + rm) as u32, pc)
            == (Instruction::Simd8 {
            rd,
            rn,
            rm,
            unsigned: false,
            halving: true,
            sub: false,
        }),
        decoded32((0xFA80_F040 + rn * 0x1_0000 + rd * 0x100 + rm) as u32, pc)
            == (Instruction::Simd8 {
            rd,
            rn,
            rm,
            unsigned: true,
            halving: false,
            sub: false,
        }),
        decoded32((0xFA80_F060 + rn * 0x1_0000 + rd * 0x100 + rm) as u32, pc)
            == (Instruction::Simd8 {
            rd,
            rn,
            rm,
            unsigned: true,
            halving: true,
            sub: false,
        }),
        decoded32((0xFAC0_F000 + rn * 0x1_0000 + rd * 0x100 + rm) as u32, pc)
            == (Instruction::Simd8 {
            rd,
            rn,
            rm,
            unsigned: false,
            halving: false,
            sub: true,
        }),
        decoded32((0xFAC0_F020 + rn * 0x1_0000 + rd * 0x100 + rm) as u32, pc)
            == (Instruction::Simd8 {
            rd,
            rn,
            rm,
            unsigned: false,
            halving: true,
            sub: true,
        }),
        decoded32((0xFAC0_F040 + rn * 0x1_0000 + rd * 0x100 + rm) as u32, pc)
            == (Instruction::Simd8 {
            rd,
            rn,
            rm,
            unsigned: true,
            halving: false,
            sub: true,
        }),
        decoded32((0xFAC0_F060 + rn * 0x1_0000 + rd * 0x100 + rm) as u32, pc)
            == (Instruction::Simd8 {
            rd,
            rn,
            rm,
            unsigned: true,
            halving: true,
            sub: true,
        }),
{
    lemma_word_simd8((0xFA80_F000 + rn * 0x1_0000 + rd * 0x100 + rm) as u32, pc, 0xFA8, rn as u32,
        15, rd as u32, 0, rm as u32);
    lemma_word_simd8((0xFA80_F020 + rn * 0x1_0000 + rd * 0x100 + rm) as u32, pc, 0xFA8, rn as u32,
        15, rd as u32, 2, rm as u32);
    lemma_word_simd8((0xFA80_F040 + rn * 0x1_0000 + rd * 0x100 + rm) as u32, pc, 0xFA8, rn as u32,
        15, rd as u32, 4, rm as u32);
    lemma_word_simd8((0xFA80_F060 + rn * 0x1_0000 + rd * 0x100 + rm) as u32, pc, 0xFA8, rn as u32,
        15, rd as u32, 6, rm as u32);
    lemma_word_simd8((0xFAC0_F000 + rn * 0x1_0000 + rd * 0x100 + rm) as u32, pc, 0xFAC, rn as u32,
        15, rd as u32, 0, rm as u32);
    lemma_word_simd8((0xFAC0_F020 + rn * 0x1_0000 + rd * 0x100 + rm) as u32, pc, 0xFAC, rn as u32,
        15, rd as u32, 2, rm as u32);
    lemma_word_simd8((0xFAC0_F040 + rn * 0x1_0000 + rd * 0x100 + rm) as u32, pc, 0xFAC, rn as u32,
        15, rd as u32, 4, rm as u32);
    lemma_word_simd8((0xFAC0_F060 + rn * 0x1_0000 + rd * 0x100 + rm) as u32, pc, 0xFAC, rn as u32,
        15, rd as u32, 6, rm as u32);
}

/// SMUAD, SMUSD, SMLAD, SMLSD, SMLALD, SMLSLD, and their forms that swap the halves.
#[verifier::spinoff_prover]
#[verifier::rlimit(60)]
pub proof fn law_dual_multiply_encoding(rd: u8, rn: u8, rm: u8, ra: u8, pc: u32)
    requires
        rd < 16,
        rn < 8,
        rm < 16,
        ra < 16,
    ensures
        decoded32((0xFB20_F000 + rn * 0x1_0000 + rd * 0x100 + rm) as u32, pc)
            == (Instruction::DualHalfMul { rd, rn, rm, swap: false, sub: false }),
        decoded32((0xFB20_F010 + rn * 0x1_0000 + rd * 0x100 + rm) as u32, pc)
            == (Instruction::DualHalfMul { rd, rn, rm, swap: true, sub: false }),
        decoded32((0xFB40_F000 + rn * 0x1_0000 + rd * 0x100 + rm) as u32, pc)
            == (Instruction::DualHalfMul { rd, rn, rm, swap: false, sub: true }),
        decoded32((0xFB40_F010 + rn * 0x1_0000 + rd * 0x100 + rm) as u32, pc)
            == (Instruction::DualHalfMul { rd, rn, rm, swap: true, sub: true }),
        ra != 15 ==> decoded32((0xFB20_0000 + rn * 0x1_0000 + ra * 0x1000 + rd * 0x100
            + rm) as u32, pc) == (Instruction::DualHalfMulAcc {
            rd,
            rn,
            rm,
            ra,
            swap: false,
            sub: false,
        }),
        ra != 15 ==> decoded32((0xFB20_0010 + rn * 0x1_0000 + ra * 0x1000 + rd * 0x100
            + rm) as u32, pc) == (Instruction::DualHalfMulAcc {
            rd,
            rn,
            rm,
            ra,
            swap: true,
            sub: false,
        }),
        ra != 15 ==> decoded32((0xFB40_0000 + rn * 0x1_0000 + ra * 0x1000 + rd * 0x100
            + rm) as u32, pc) == (Instruction::DualHalfMulAcc {
            rd,
            rn,
            rm,
            ra,
            swap: false,
            sub: true,
        }),
        ra != 15 ==> decoded32((0xFB40_0010 + rn * 0x1_0000 + ra * 0x1000 + rd * 0x100
            + rm) as u32, pc) == (Instruction::DualHalfMulAcc {
            rd,
            rn,
            rm,
            ra,
            swap: true,
            sub: true,
        }),
        decoded32((0xFBC0_00C0 + rn * 0x1_0000 + ra * 0x1000 + rd * 0x100 + rm) as u32, pc)
            == (Instruction::DualHalfMulLong {
            rdlo: ra,
            rdhi: rd,
            rn,
            rm,
            swap: false,
            sub: false,
        }),
        decoded32((0xFBC0_00D0 + rn * 0x1_0000 + ra * 0x1000 + rd * 0x100 + rm) as u32, pc)
            == (Instruction::DualHalfMulLong {
            rdlo: ra,
            rdhi: rd,
            rn,
            rm,
            swap: true,
            sub: false,
        }),
        decoded32((0xFBD0_00C0 + rn * 0x1_0000 + ra * 0x1000 + rd * 0x100 + rm) as u32, pc)
            == (Instruction::DualHalfMulLong {
            rdlo: ra,
            rdhi: rd,
            rn,
            rm,
            swap: false,
            sub: true,
        }),
        decoded32((0xFBD0_00D0 + rn * 0x1_0000 + ra * 0x1000 + rd * 0x100 + rm) as u32, pc)
            == (Instruction::DualHalfMulLong {
            rdlo: ra,
            rdhi: rd,
            rn,
            rm,
            swap: true,
            sub: true,
        }),
{
    lemma_word_dual((0xFB20_F000 + rn * 0x1_0000 + rd * 0x100 + rm) as u32, pc, 0xFB2, rn as u32,
        15, rd as u32, 0, rm as u32);
    lemma_word_dual((0xFB20_F010 + rn * 0x1_0000 + rd * 0x100 + rm) as u32, pc, 0xFB2, rn as u32,
        15, rd as u32, 1, rm as u32);
    lemma_word_dual((0xFB40_F000 + rn * 0x1_0000 + rd * 0x100 + rm) as u32, pc, 0xFB4, rn as u32,
        15, rd as u32, 0, rm as u32);
    lemma_word_dual((0xFB40_F010 + rn * 0x1_0000 + rd * 0x100 + rm) as u32, pc, 0xFB4, rn as u32,
        15, rd as u32, 1, rm as u32);
    if ra != 15 {
        lemma_word_dual((0xFB20_0000 + rn * 0x1_0000 + ra * 0x1000 + rd * 0x100 + rm) as u32, pc,
            0xFB2, rn as u32, ra as u32, rd as u32, 0, rm as u32);
    }
    if ra != 15 {
        lemma_word_dual((0xFB20_0010 + rn * 0x1_0000 + ra * 0x1000 + rd * 0x100 + rm) as u32, pc,
            0xFB2, rn as u32, ra as u32, rd as u32, 1, rm as u32);
    }
    if ra != 15 {
        lemma_word_dual((0xFB40_0000 + rn * 0x1_0000 + ra * 0x1000 + rd * 0x100 + rm) as u32, pc,
            0xFB4, rn as u32, ra as u32, rd as u32, 0, rm as u32);
    }
    if ra != 15 {
        lemma_word_dual((0xFB40_0010 + rn * 0x1_0000 + ra * 0x1000 + rd * 0x100 + rm) as u32, pc,
            0xFB4, rn as u32, ra as u32, rd as u32, 1, rm as u32);
    }
    lemma_word_dual_long((0xFBC0_00C0 + rn * 0x1_0000 + ra * 0x1000 + rd * 0x100 + rm) as u32, pc,
        0xFBC, rn as u32, ra as u32, rd as u32, 12, rm as u32);
    lemma_word_dual_long((0xFBC0_00D0 + rn * 0x1_0000 + ra * 0x1000 + rd * 0x100 + rm) as u32, pc,
        0xFBC, rn as u32, ra as u32, rd as u32, 13, rm as u32);
    lemma_word_dual_long((0xFBD0_00C0 + rn * 0x1_0000 + ra * 0x1000 + rd * 0x100 + rm) as u32, pc,
        0xFBD, rn as u32, ra as u32, rd as u32, 12, rm as u32);
    lemma_word_dual_long((0xFBD0_00D0 + rn * 0x1_0000 + ra * 0x1000 + rd * 0x100 + rm) as u32, pc,
        0xFBD, rn as u32, ra as u32, rd as u32, 13, rm as u32);
}

/// MLA, MLS, UMULL, SMULL and SMLAL.
#[verifier::spinoff_prover]
#[verifier::rlimit(60)]
pub proof fn law_multiply_encoding(rd: u8, rn: u8, rm: u8, ra: u8, pc: u32)
    requires
        rd < 16,
        rn < 16,
        rm < 16,
        ra < 16,
    ensures
        decoded32((0xFB00_0000 + rn * 0x1_0000 + ra * 0x1000 + rd * 0x100 + rm) as u32, pc)
            == (Instruction::Mla { rd, rn, rm, ra, sub: false }),
        decoded32((0xFB00_0010 + rn * 0x1_0000 + ra * 0x1000 + rd * 0x100 + rm) as u32, pc)
            == (Instruction::Mla { rd, rn, rm, ra, sub: true }),
        decoded32((0xFBA0_0000 + rn * 0x1_0000 + ra * 0x1000 + rd * 0x100 + rm) as u32, pc)
            == (Instruction::MullLong {
            rdlo: ra,
            rdhi: rd,
            rn,
            rm,
            signed: false,
            accumulate: false,
        }),
        decoded32((0xFB80_0000 + rn * 0x1_0000 + ra * 0x1000 + rd * 0x100 + rm) as u32, pc)
            == (Instruction::MullLong {
            rdlo: ra,
            rdhi: rd,
            rn,
            rm,
            signed: true,
            accumulate: false,
        }),
        decoded32((0xFBC0_0000 + rn * 0x1_0000 + ra * 0x1000 + rd * 0x100 + rm) as u32, pc)
            == (Instruction::MullLong {
            rdlo: ra,
            rdhi: rd,
            rn,
            rm,
            signed: true,
            accumulate: true,
        }),
{
    lemma_word_mla((0xFB00_0000 + rn * 0x1_0000 + ra * 0x1000 + rd * 0x100 + rm) as u32, pc, 0xFB0,
        rn as u32, ra as u32, rd as u32, 0, rm as u32);
    lemma_word_mla((0xFB00_0010 + rn * 0x1_0000 + ra * 0x1000 + rd * 0x100 + rm) as u32, pc, 0xFB0,
        rn as u32, ra as u32, rd as u32, 1, rm as u32);
    lemma_word_mull((0xFBA0_0000 + rn * 0x1_0000 + ra * 0x1000 + rd * 0x100 + rm) as u32, pc,
        0xFBA, rn as u32, ra as u32, rd as u32, 0, rm as u32);
    lemma_word_mull((0xFB80_0000 + rn * 0x1_0000 + ra * 0x1000 + rd * 0x100 + rm) as u32, pc,
        0xFB8, rn as u32, ra as u32, rd as u32, 0, rm as u32);
    lemma_word_mull((0xFBC0_0000 + rn * 0x1_0000 + ra * 0x1000 + rd * 0x100 + rm) as u32, pc,
        0xFBC, rn as u32, ra as u32, rd as u32, 0, rm as u32);
}

/// PKHBT and PKHTB, with a shift by five bits in two parts.
#[verifier::spinoff_prover]
#[verifier::rlimit(60)]
pub proof fn law_pack_encoding(rd: u8, rn: u8, rm: u8, s: u8, pc: u32)
    requires
        rd < 16,
        rn < 16,
        rm < 16,
        s < 32,
    ensures
        decoded32((0xEAC0_0000 + rn * 0x1_0000 + s / 4 * 0x1000 + rd * 0x100 + s % 4 * 0x40
            + rm) as u32, pc) == (Instruction::Pkh { rd, rn, rm, tb: false, shift_imm: s }),
        decoded32((0xEAC0_0020 + rn * 0x1_0000 + s / 4 * 0x1000 + rd * 0x100 + s % 4 * 0x40
            + rm) as u32, pc) == (Instruction::Pkh { rd, rn, rm, tb: true, shift_imm: s }),
{
    lemma_word_pkh((0xEAC0_0000 + rn * 0x1_0000 + s / 4 * 0x1000 + rd * 0x100 + s % 4 * 0x40
        + rm) as u32, pc, 0xEAC, rn as u32, (s / 4) as u32, rd as u32, (s % 4 * 4) as u32,
        rm as u32);
    lemma_word_pkh((0xEAC0_0020 + rn * 0x1_0000 + s / 4 * 0x1000 + rd * 0x100 + s % 4 * 0x40
        + rm) as u32, pc, 0xEAC, rn as u32, (s / 4) as u32, rd as u32, (2 + s % 4 * 4) as u32,
        rm as u32);
}

/// CLZ and RBIT, which name their operand twice.
#[verifier::spinoff_prover]
#[verifier::rlimit(60)]
pub proof fn law_count_encoding(rd: u8, rm: u8, pc: u32)
    requires
        rd < 16,
        rm < 16,
    ensures
        decoded32((0xFAB0_F080 + rm * 0x1_0000 + rd * 0x100 + rm) as u32, pc)
            == (Instruction::Clz { rd, rm }),
        decoded32((0xFA90_F0A0 + rm * 0x1_0000 + rd * 0x100 + rm) as u32, pc)
            == (Instruction::Rbit { rd, rm }),
{
    lemma_word_clz((0xFAB0_F080 + rm * 0x1_0000 + rd * 0x100 + rm) as u32, pc, 0xFAB, rm as u32,
        15, rd as u32, 8, rm as u32);
    lemma_word_rbit((0xFA90_F0A0 + rm * 0x1_0000 + rd * 0x100 + rm) as u32, pc, 0xFA9, rm as u32,
        15, rd as u32, 10, rm as u32);
}

/// Shifts by a register, with and without flags.
#[verifier::spinoff_prover]
#[verifier::rlimit(60)]
pub proof fn law_wide_shift_encoding(rd: u8, rn: u8, rm: u8, pc: u32)
    requires
        rd < 16,
        rn < 16,
        rm < 16,
    ensures
        decoded32((0xFA00_F000 + rn * 0x1_0000 + rd * 0x100 + rm) as u32, pc)
            == (Instruction::Shift {
            rd,
            rm: rn,
            kind: ShiftKind::Lsl,
            amount: ShiftAmount::Register(rm),
            flags: false,
        }),
        decoded32((0xFA10_F000 + rn * 0x1_0000 + rd * 0x100 + rm) as u32, pc)
            == (Instruction::Shift {
            rd,
            rm: rn,
            kind: ShiftKind::Lsl,
            amount: ShiftAmount::Register(rm),
            flags: true,
        }),
        decoded32((0xFA20_F000 + rn * 0x1_0000 + rd * 0x100 + rm) as u32, pc)
            == (Instruction::Shift {
            rd,
            rm: rn,
            kind: ShiftKind::Lsr,
            amount: ShiftAmount::Register(rm),
            flags: false,
        }),
        decoded32((0xFA30_F000 + rn * 0x1_0000 + rd * 0x100 + rm) as u32, pc)
            == (Instruction::Shift {
            rd,
            rm: rn,
            kind: ShiftKind::Lsr,
            amount: ShiftAmount::Register(rm),
            flags: true,
        }),
        decoded32((0xFA40_F000 + rn * 0x1_0000 + rd * 0x100 + rm) as u32, pc)
            == (Instruction::Shift {
            rd,
            rm: rn,
            kind: ShiftKind::Asr,
            amount: ShiftAmount::Register(rm),
            flags: false,
        }),
        decoded32((0xFA50_F000 + rn * 0x1_0000 + rd * 0x100 + rm) as u32, pc)
            == (Instruction::Shift {
            rd,
            rm: rn,
            kind: ShiftKind::Asr,
            amount: ShiftAmount::Register(rm),
            flags: true,
        }),
        decoded32((0xFA60_F000 + rn * 0x1_0000 + rd * 0x100 + rm) as u32, pc)
            == (Instruction::Shift {
            rd,
            rm: rn,
            kind: ShiftKind::Ror,
            amount: ShiftAmount::Register(rm),
            flags: false,
        }),
        decoded32((0xFA70_F000 + rn * 0x1_0000 + rd * 0x100 + rm) as u32, pc)
            == (Instruction::Shift {
            rd,
            rm: rn,
            kind: ShiftKind::Ror,
            amount: ShiftAmount::Register(rm),
            flags: true,
        }),
{
    lemma_word_shift_reg((0xFA00_F000 + rn * 0x1_0000 + rd * 0x100 + rm) as u32, pc, 0xFA0,
        rn as u32, 15, rd as u32, 0, rm as u32);
    lemma_word_shift_reg((0xFA10_F000 + rn * 0x1_0000 + rd * 0x100 + rm) as u32, pc, 0xFA1,
        rn as u32, 15, rd as u32, 0, rm as u32);
    lemma_word_shift_reg((0xFA20_F000 + rn * 0x1_0000 + rd * 0x100 + rm) as u32, pc, 0xFA2,
        rn as u32, 15, rd as u32, 0, rm as u32);
    lemma_word_shift_reg((0xFA30_F000 + rn * 0x1_0000 + rd * 0x100 + rm) as u32, pc, 0xFA3,
        rn as u32, 15, rd as u32, 0, rm as u32);
    lemma_word_shift_reg((0xFA40_F000 + rn * 0x1_0000 + rd * 0x100 + rm) as u32, pc, 0xFA4,
        rn as u32, 15, rd as u32, 0, rm as u32);
    lemma_word_shift_reg((0xFA50_F000 + rn * 0x1_0000 + rd * 0x100 + rm) as u32, pc, 0xFA5,
        rn as u32, 15, rd as u32, 0, rm as u32);
    lemma_word_shift_reg((0xFA60_F000 + rn * 0x1_0000 + rd * 0x100 + rm) as u32, pc, 0xFA6,
        rn as u32, 15, rd as u32, 0, rm as u32);
    lemma_word_shift_reg((0xFA70_F000 + rn * 0x1_0000 + rd * 0x100 + rm) as u32, pc, 0xFA7,
        rn as u32, 15, rd as u32, 0, rm as u32);
}

/// Loads and stores with an offset of three digits; from PC a word is loaded as a
/// literal.
#[verifier::spinoff_prover]
#[verifier::rlimit(60)]
pub proof fn law_long_offset_encoding(rt: u8, rn: u8, o2: u8, o1: u8, o0: u8, pc: u32)
    requires
        rt < 16,
        rn < 16,
        o2 < 16,
        o1 < 16,
        o0 < 16,
    ensures
        decoded32((0xF880_0000 + rn * 0x1_0000 + rt * 0x1000 + o2 * 0x100 + o1 * 0x10 + o0) as u32,
            pc) == (Instruction::Str {
            rt,
            rn,
            offset: LoadStoreOffset::Immediate((o2 * 0x100 + o1 * 0x10 + o0) as u32),
            width: AccessWidth::Byte,
        }),
        decoded32((0xF890_0000 + rn * 0x1_0000 + rt * 0x1000 + o2 * 0x100 + o1 * 0x10 + o0) as u32,
            pc) == (Instruction::Ldr {
            rt,
            rn,
            offset: LoadStoreOffset::Immediate((o2 * 0x100 + o1 * 0x10 + o0) as u32),
            width: AccessWidth::Byte,
        }),
        decoded32((0xF8A0_0000 + rn * 0x1_0000 + rt * 0x1000 + o2 * 0x100 + o1 * 0x10 + o0) as u32,
            pc) == (Instruction::Str {
            rt,
            rn,
            offset: LoadStoreOffset::Immediate((o2 * 0x100 + o1 * 0x10 + o0) as u32),
            width: AccessWidth::HalfWord,
        }),
        decoded32((0xF8B0_0000 + rn * 0x1_0000 + rt * 0x1000 + o2 * 0x100 + o1 * 0x10 + o0) as u32,
            pc) == (Instruction::Ldr {
            rt,
            rn,
            offset: LoadStoreOffset::Immediate((o2 * 0x100 + o1 * 0x10 + o0) as u32),
            width: AccessWidth::HalfWord,
        }),
        decoded32((0xF8C0_0000 + rn * 0x1_0000 + rt * 0x1000 + o2 * 0x100 + o1 * 0x10 + o0) as u32,
            pc) == (Instruction::Str {
            rt,
            rn,
            offset: LoadStoreOffset::Immediate((o2 * 0x100 + o1 * 0x10 + o0) as u32),
            width: AccessWidth::Word,
        }),
        rn != 15 ==> decoded32((0xF8D0_0000 + rn * 0x1_0000 + rt * 0x1000 + o2 * 0x100 + o1 * 0x10
            + o0) as u32, pc) == (Instruction::Ldr {
            rt,
            rn,
            offset: LoadStoreOffset::Immediate((o2 * 0x100 + o1 * 0x10 + o0) as u32),
            width: AccessWidth::Word,
        }),
        decoded32((0xF990_0000 + rn * 0x1_0000 + rt * 0x1000 + o2 * 0x100 + o1 * 0x10 + o0) as u32,
            pc) == (Instruction::LdrSignExtend {
            rt,
            rn,
            offset: LoadStoreOffset::Immediate((o2 * 0x100 + o1 * 0x10 + o0) as u32),
            width: AccessWidth::Byte,
        }),
        decoded32((0xF9B0_0000 + rn * 0x1_0000 + rt * 0x1000 + o2 * 0x100 + o1 * 0x10 + o0) as u32,
            pc) == (Instruction::LdrSignExtend {
            rt,
            rn,
            offset: LoadStoreOffset::Immediate((o2 * 0x100 + o1 * 0x10 + o0) as u32),
            width: AccessWidth::HalfWord,
        }),
        decoded32((0xF8DF_0000 + rt * 0x1000 + o2 * 0x100 + o1 * 0x10 + o0) as u32, pc)
            == (Instruction::LdrLiteral {
            rt,
            imm: (o2 * 0x100 + o1 * 0x10 + o0) as u32,
        }),
{
    lemma_word_access((0xF880_0000 + rn * 0x1_0000 + rt * 0x1000 + o2 * 0x100 + o1 * 0x10
        + o0) as u32, pc, 0xF88, rn as u32, rt as u32, o2 as u32, o1 as u32, o0 as u32);
    lemma_word_access((0xF890_0000 + rn * 0x1_0000 + rt * 0x1000 + o2 * 0x100 + o1 * 0x10
        + o0) as u32, pc, 0xF89, rn as u32, rt as u32, o2 as u32, o1 as u32, o0 as u32);
    lemma_word_access((0xF8A0_0000 + rn * 0x1_0000 + rt * 0x1000 + o2 * 0x100 + o1 * 0x10
        + o0) as u32, pc, 0xF8A, rn as u32, rt as u32, o2 as u32, o1 as u32, o0 as u32);
    lemma_word_access((0xF8B0_0000 + rn * 0x1_0000 + rt * 0x1000 + o2 * 0x100 + o1 * 0x10
        + o0) as u32, pc, 0xF8B, rn as u32, rt as u32, o2 as u32, o1 as u32, o0 as u32);
    lemma_word_access((0xF8C0_0000 + rn * 0x1_0000 + rt * 0x1000 + o2 * 0x100 + o1 * 0x10
        + o0) as u32, pc, 0xF8C, rn as u32, rt as u32, o2 as u32, o1 as u32, o0 as u32);
    if rn != 15 {
        lemma_word_access((0xF8D0_0000 + rn * 0x1_0000 + rt * 0x1000 + o2 * 0x100 + o1 * 0x10
            + o0) as u32, pc, 0xF8D, rn as u32, rt as u32, o2 as u32, o1 as u32, o0 as u32);
    }
    lemma_word_access((0xF990_0000 + rn * 0x1_0000 + rt * 0x1000 + o2 * 0x100 + o1 * 0x10
        + o0) as u32, pc, 0xF99, rn as u32, rt as u32, o2 as u32, o1 as u32, o0 as u32);
    lemma_word_access((0xF9B0_0000 + rn * 0x1_0000 + rt * 0x1000 + o2 * 0x100 + o1 * 0x10
        + o0) as u32, pc, 0xF9B, rn as u32, rt as u32, o2 as u32, o1 as u32, o0 as u32);
    lemma_word_access((0xF8DF_0000 + rt * 0x1000 + o2 * 0x100 + o1 * 0x10 + o0) as u32, pc, 0xF8D,
        15, rt as u32, o2 as u32, o1 as u32, o0 as u32);
}

/// Loads and stores at an address up to 255 bytes below the base.
#[verifier::spinoff_prover]
#[verifier::rlimit(60)]
pub proof fn law_negative_offset_encoding(rt: u8, rn: u8, off: u8, pc: u32)
    requires
        rt < 16,
        rn < 16,
    ensures
        decoded32((0xF800_0C00 + rn * 0x1_0000 + rt * 0x1000 + off) as u32, pc)
            == (Instruction::Str {
            rt,
            rn,
            offset: LoadStoreOffset::Immediate((-off % 0x1_0000_0000) as u32),
            width: AccessWidth::Byte,
        }),
        decoded32((0xF810_0C00 + rn * 0x1_0000 + rt * 0x1000 + off) as u32, pc)
            == (Instruction::Ldr {
            rt,
            rn,
            offset: LoadStoreOffset::Immediate((-off % 0x1_0000_0000) as u32),
            width: AccessWidth::Byte,
        }),
        decoded32((0xF820_0C00 + rn * 0x1_0000 + rt * 0x1000 + off) as u32, pc)
            == (Instruction::Str {
            rt,
            rn,
            offset: LoadStoreOffset::Immediate((-off % 0x1_0000_0000) as u32),
            width: AccessWidth::HalfWord,
        }),
        decoded32((0xF830_0C00 + rn * 0x1_0000 + rt * 0x1000 + off) as u32, pc)
            == (Instruction::Ldr {
            rt,
            rn,
            offset: LoadStoreOffset::Immediate((-off % 0x1_0000_0000) as u32),
            width: AccessWidth::HalfWord,
        }),
        decoded32((0xF840_0C00 + rn * 0x1_0000 + rt * 0x1000 + off) as u32, pc)
            == (Instruction::Str {
            rt,
            rn,
            offset: LoadStoreOffset::Immediate((-off % 0x1_0000_0000) as u32),
            width: AccessWidth::Word,
        }),
        decoded32((0xF850_0C00 + rn * 0x1_0000 + rt * 0x1000 + off) as u32, pc)
            == (Instruction::Ldr {
            rt,
            rn,
            offset: LoadStoreOffset::Immediate((-off % 0x1_0000_0000) as u32),
            width: AccessWidth::Word,
        }),
        decoded32((0xF910_0C00 + rn * 0x1_0000 + rt * 0x1000 + off) as u32, pc)
            == (Instruction::LdrSignExtend {
            rt,
            rn,
            offset: LoadStoreOffset::Immediate((-off % 0x1_0000_0000) as u32),
            width: AccessWidth::Byte,
        }),
        decoded32((0xF930_0C00 + rn * 0x1_0000 + rt * 0x1000 + off) as u32, pc)
            == (Instruction::LdrSignExtend {
            rt,
            rn,
            offset: LoadStoreOffset::Immediate((-off % 0x1_0000_0000) as u32),
            width: AccessWidth::HalfWord,
        }),
{
    lemma_word_access((0xF800_0C00 + rn * 0x1_0000 + rt * 0x1000 + off) as u32, pc, 0xF80,
        rn as u32, rt as u32, 12, (off / 16) as u32, (off % 16) as u32);
    lemma_word_access((0xF810_0C00 + rn * 0x1_0000 + rt * 0x1000 + off) as u32, pc, 0xF81,
        rn as u32, rt as u32, 12, (off / 16) as u32, (off % 16) as u32);
    lemma_word_access((0xF820_0C00 + rn * 0x1_0000 + rt * 0x1000 + off) as u32, pc, 0xF82,
        rn as u32, rt as u32, 12, (off / 16) as u32, (off % 16) as u32);
    lemma_word_access((0xF830_0C00 + rn * 0x1_0000 + rt * 0x1000 + off) as u32, pc, 0xF83,
        rn as u32, rt as u32, 12, (off / 16) as u32, (off % 16) as u32);
    lemma_word_access((0xF840_0C00 + rn * 0x1_0000 + rt * 0x1000 + off) as u32, pc, 0xF84,
        rn as u32, rt as u32, 12, (off / 16) as u32, (off % 16) as u32);
    lemma_word_access((0xF850_0C00 + rn * 0x1_0000 + rt * 0x1000 + off) as u32, pc, 0xF85,
        rn as u32, rt as u32, 12, (off / 16) as u32, (off % 16) as u32);
    lemma_word_access((0xF910_0C00 + rn * 0x1_0000 + rt * 0x1000 + off) as u32, pc, 0xF91,
        rn as u32, rt as u32, 12, (off / 16) as u32, (off % 16) as u32);
    lemma_word_access((0xF930_0C00 + rn * 0x1_0000 + rt * 0x1000 + off) as u32, pc, 0xF93,
        rn as u32, rt as u32, 12, (off / 16) as u32, (off % 16) as u32);
}

/// Loads and stores that move the base first, up or down.
#[verifier::spinoff_prover]
#[verifier::rlimit(60)]
pub proof fn law_pre_index_encoding(rt: u8, rn: u8, off: u8, pc: u32)
    requires
        rt < 16,
        rn < 16,
    ensures
        decoded32((0xF800_0D00 + rn * 0x1_0000 + rt * 0x1000 + off) as u32, pc)
            == (Instruction::LdrStrWb {
            rt,
            rn,
            imm: (-off % 0x1_0000_0000) as u32,
            width: AccessWidth::Byte,
            load: false,
            sign_extend: false,
            pre: true,
        }),
        decoded32((0xF800_0F00 + rn * 0x1_0000 + rt * 0x1000 + off) as u32, pc)
            == (Instruction::LdrStrWb {
            rt,
            rn,
            imm: off as u32,
            width: AccessWidth::Byte,
            load: false,
            sign_extend: false,
            pre: true,
        }),
        decoded32((0xF810_0D00 + rn * 0x1_0000 + rt * 0x1000 + off) as u32, pc)
            == (Instruction::LdrStrWb {
            rt,
            rn,
            imm: (-off % 0x1_0000_0000) as u32,
            width: AccessWidth::Byte,
            load: true,
            sign_extend: false,
            pre: true,
        }),
        decoded32((0xF810_0F00 + rn * 0x1_0000 + rt * 0x1000 + off) as u32, pc)
            == (Instruction::LdrStrWb {
            rt,
            rn,
            imm: off as u32,
            width: AccessWidth::Byte,
            load: true,
            sign_extend: false,
            pre: true,
        }),
        decoded32((0xF820_0D00 + rn * 0x1_0000 + rt * 0x1000 + off) as u32, pc)
            == (Instruction::LdrStrWb {
            rt,
            rn,
            imm: (-off % 0x1_0000_0000) as u32,
            width: AccessWidth::HalfWord,
            load: false,
            sign_extend: false,
            pre: true,
        }),
        decoded32((0xF820_0F00 + rn * 0x1_0000 + rt * 0x1000 + off) as u32, pc)
            == (Instruction::LdrStrWb {
            rt,
            rn,
            imm: off as u32,
            width: AccessWidth::HalfWord,
            load: false,
            sign_extend: false,
            pre: true,
        }),
        decoded32((0xF830_0D00 + rn * 0x1_0000 + rt * 0x1000 + off) as u32, pc)
            == (Instruction::LdrStrWb {
            rt,
            rn,
            imm: (-off % 0x1_0000_0000) as u32,
            width: AccessWidth::HalfWord,
            load: true,
            sign_extend: false,
            pre: true,
        }),
        decoded32((0xF830_0F00 + rn * 0x1_0000 + rt * 0x1000 + off) as u32, pc)
            == (Instruction::LdrStrWb {
            rt,
            rn,
            imm: off as u32,
            width: AccessWidth::HalfWord,
            load: true,
            sign_extend: false,
            pre: true,
        }),
        decoded32((0xF840_0D00 + rn * 0x1_0000 + rt * 0x1000 + off) as u32, pc)
            == (Instruction::LdrStrWb {
            rt,
            rn,
            imm: (-off % 0x1_0000_0000) as u32,
            width: AccessWidth::Word,
            load: false,
            sign_extend: false,
            pre: true,
        }),
        decoded32((0xF840_0F00 + rn * 0x1_0000 + rt * 0x1000 + off) as u32, pc)
            == (Instruction::LdrStrWb {
            rt,
            rn,
            imm: off as u32,
            width: AccessWidth::Word,
            load: false,
            sign_extend: false,
            pre: true,
        }),
        decoded32((0xF850_0D00 + rn * 0x1_0000 + rt * 0x1000 + off) as u32, pc)
            == (Instruction::LdrStrWb {
            rt,
            rn,
            imm: (-off % 0x1_0000_0000) as u32,
            width: AccessWidth::Word,
            load: true,
            sign_extend: false,
            pre: true,
        }),
        decoded32((0xF850_0F00 + rn * 0x1_0000 + rt * 0x1000 + off) as u32, pc)
            == (Instruction::LdrStrWb {
            rt,
            rn,
            imm: off as u32,
            width: AccessWidth::Word,
            load: true,
            sign_extend: false,
            pre: true,
        }),
        decoded32((0xF910_0D00 + rn * 0x1_0000 + rt * 0x1000 + off) as u32, pc)
            == (Instruction::LdrStrWb {
            rt,
            rn,
            imm: (-off % 0x1_0000_0000) as u32,
            width: AccessWidth::Byte,
            load: true,
            sign_extend: true,
            pre: true,
        }),
        decoded32((0xF910_0F00 + rn * 0x1_0000 + rt * 0x1000 + off) as u32, pc)
            == (Instruction::LdrStrWb {
            rt,
            rn,
            imm: off as u32,
            width: AccessWidth::Byte,
            load: true,
            sign_extend: true,
            pre: true,
        }),
        decoded32((0xF930_0D00 + rn * 0x1_0000 + rt * 0x1000 + off) as u32, pc)
            == (Instruction::LdrStrWb {
            rt,
            rn,
            imm: (-off % 0x1_0000_0000) as u32,
            width: AccessWidth::HalfWord,
            load: true,
            sign_extend: true,
            pre: true,
        }),
        decoded32((0xF930_0F00 + rn * 0x1_0000 + rt * 0x1000 + off) as u32, pc)
            == (Instruction::LdrStrWb {
            rt,
            rn,
            imm: off as u32,
            width: AccessWidth::HalfWord,
            load: true,
            sign_extend: true,
            pre: true,
        }),
{
    lemma_word_access((0xF800_0D00 + rn * 0x1_0000 + rt * 0x1000 + off) as u32, pc, 0xF80,
        rn as u32, rt as u32, 13, (off / 16) as u32, (off % 16) as u32);
    lemma_word_access((0xF800_0F00 + rn * 0x1_0000 + rt * 0x1000 + off) as u32, pc, 0xF80,
        rn as u32, rt as u32, 15, (off / 16) as u32, (off % 16) as u32);
    lemma_word_access((0xF810_0D00 + rn * 0x1_0000 + rt * 0x1000 + off) as u32, pc, 0xF81,
        rn as u32, rt as u32, 13, (off / 16) as u32, (off % 16) as u32);
    lemma_word_access((0xF810_0F00 + rn * 0x1_0000 + rt * 0x1000 + off) as u32, pc, 0xF81,
        rn as u32, rt as u32, 15, (off / 16) as u32, (off % 16) as u32);
    lemma_word_access((0xF820_0D00 + rn * 0x1_0000 + rt * 0x1000 + off) as u32, pc, 0xF82,
        rn as u32, rt as u32, 13, (off / 16) as u32, (off % 16) as u32);
    lemma_word_access((0xF820_0F00 + rn * 0x1_0000 + rt * 0x1000 + off) as u32, pc, 0xF82,
        rn as u32, rt as u32, 15, (off / 16) as u32, (off % 16) as u32);
    lemma_word_access((0xF830_0D00 + rn * 0x1_0000 + rt * 0x1000 + off) as u32, pc, 0xF83,
        rn as u32, rt as u32, 13, (off / 16) as u32, (off % 16) as u32);
    lemma_word_access((0xF830_0F00 + rn * 0x1_0000 + rt * 0x1000 + off) as u32, pc, 0xF83,
        rn as u32, rt as u32, 15, (off / 16) as u32, (off % 16) as u32);
    lemma_word_access((0xF840_0D00 + rn * 0x1_0000 + rt * 0x1000 + off) as u32, pc, 0xF84,
        rn as u32, rt as u32, 13, (off / 16) as u32, (off % 16) as u32);
    lemma_word_access((0xF840_0F00 + rn * 0x1_0000 + rt * 0x1000 + off) as u32, pc, 0xF84,
        rn as u32, rt as u32, 15, (off / 16) as u32, (off % 16) as u32);
    lemma_word_access((0xF850_0D00 + rn * 0x1_0000 + rt * 0x1000 + off) as u32, pc, 0xF85,
        rn as u32, rt as u32, 13, (off / 16) as u32, (off % 16) as u32);
    lemma_word_access((0xF850_0F00 + rn * 0x1_0000 + rt * 0x1000 + off) as u32, pc, 0xF85,
        rn as u32, rt as u32, 15, (off / 16) as u32, (off % 16) as u32);
    lemma_word_access((0xF910_0D00 + rn * 0x1_0000 + rt * 0x1000 + off) as u32, pc, 0xF91,
        rn as u32, rt as u32, 13, (off / 16) as u32, (off % 16) as u32);
    lemma_word_access((0xF910_0F00 + rn * 0x1_0000 + rt * 0x1000 + off) as u32, pc, 0xF91,
        rn as u32, rt as u32, 15, (off / 16) as u32, (off % 16) as u32);
    lemma_word_access((0xF930_0D00 + rn * 0x1_0000 + rt * 0x1000 + off) as u32, pc, 0xF93,
        rn as u32, rt as u32, 13, (off / 16) as u32, (off % 16) as u32);
    lemma_word_access((0xF930_0F00 + rn * 0x1_0000 + rt * 0x1000 + off) as u32, pc, 0xF93,
        rn as u32, rt as u32, 15, (off / 16) as u32, (off % 16) as u32);
}

/// Loads and stores that move the base afterwards, up or down.
#[verifier::spinoff_prover]
#[verifier::rlimit(60)]
pub proof fn law_post_index_encoding(rt: u8, rn: u8, off: u8, pc: u32)
    requires
        rt < 16,
        rn < 16,
    ensures
        decoded32((0xF800_0900 + rn * 0x1_0000 + rt * 0x1000 + off) as u32, pc)
            == (Instruction::LdrStrWb {
            rt,
            rn,
            imm: (-off % 0x1_0000_0000) as u32,
            width: AccessWidth::Byte,
            load: false,
            sign_extend: false,
            pre: false,
        }),
        decoded32((0xF800_0B00 + rn * 0x1_0000 + rt * 0x1000 + off) as u32, pc)
            == (Instruction::LdrStrWb {
            rt,
            rn,
            imm: off as u32,
            width: AccessWidth::Byte,
            load: false,
            sign_extend: false,
            pre: false,
        }),
        decoded32((0xF810_0900 + rn * 0x1_0000 + rt * 0x1000 + off) as u32, pc)
            == (Instruction::LdrStrWb {
            rt,
            rn,
            imm: (-off % 0x1_0000_0000) as u32,
            width: AccessWidth::Byte,
            load: true,
            sign_extend: false,
            pre: false,
        }),
        decoded32((0xF810_0B00 + rn * 0x1_0000 + rt * 0x1000 + off) as u32, pc)
            == (Instruction::LdrStrWb {
            rt,
            rn,
            imm: off as u32,
            width: AccessWidth::Byte,
            load: true,
            sign_extend: false,
            pre: false,
        }),
        decoded32((0xF820_0900 + rn * 0x1_0000 + rt * 0x1000 + off) as u32, pc)
            == (Instruction::LdrStrWb {
            rt,
            rn,
            imm: (-off % 0x1_0000_0000) as u32,
            width: AccessWidth::HalfWord,
            load: false,
            sign_extend: false,
            pre: false,
        }),
        decoded32((0xF820_0B00 + rn * 0x1_0000 + rt * 0x1000 + off) as u32, pc)
            == (Instruction::LdrStrWb {
            rt,
            rn,
            imm: off as u32,
            width: AccessWidth::HalfWord,
            load: false,
            sign_extend: false,
            pre: false,
        }),
        decoded32((0xF830_0900 + rn * 0x1_0000 + rt * 0x1000 + off) as u32, pc)
            == (Instruction::LdrStrWb {
            rt,
            rn,
            imm: (-off % 0x1_0000_0000) as u32,
            width: AccessWidth::HalfWord,
            load: true,
            sign_extend: false,
            pre: false,
        }),
        decoded32((0xF830_0B00 + rn * 0x1_0000 + rt * 0x1000 + off) as u32, pc)
            == (Instruction::LdrStrWb {
            rt,
            rn,
            imm: off as u32,
            width: AccessWidth::HalfWord,
            load: true,
            sign_extend: false,
            pre: false,
        }),
        decoded32((0xF840_0900 + rn * 0x1_0000 + rt * 0x1000 + off) as u32, pc)
            == (Instruction::LdrStrWb {
            rt,
            rn,
            imm: (-off % 0x1_0000_0000) as u32,
            width: AccessWidth::Word,
            load: false,
            sign_extend: false,
            pre: false,
        }),
        decoded32((0xF840_0B00 + rn * 0x1_0000 + rt * 0x1000 + off) as u32, pc)
            == (Instruction::LdrStrWb {
            rt,
            rn,
            imm: off as u32,
            width: AccessWidth::Word,
            load: false,
            sign_extend: false,
            pre: false,
        }),
        decoded32((0xF850_0900 + rn * 0x1_0000 + rt * 0x1000 + off) as u32, pc)
            == (Instruction::LdrStrWb {
            rt,
            rn,
            imm: (-off % 0x1_0000_0000) as u32,
            width: AccessWidth::Word,
            load: true,
            sign_extend: false,
            pre: false,
        }),
        decoded32((0xF850_0B00 + rn * 0x1_0000 + rt * 0x1000 + off) as u32, pc)
            == (Instruction::LdrStrWb {
            rt,
            rn,
            imm: off as u32,
            width: AccessWidth::Word,
            load: true,
            sign_extend: false,
            pre: false,
        }),
        decoded32((0xF910_0900 + rn * 0x1_0000 + rt * 0x1000 + off) as u32, pc)
            == (Instruction::LdrStrWb {
            rt,
            rn,
            imm: (-off % 0x1_0000_0000) as u32,
            width: AccessWidth::Byte,
            load: true,
            sign_extend: true,
            pre: false,
        }),
        decoded32((0xF910_0B00 + rn * 0x1_0000 + rt * 0x1000 + off) as u32, pc)
            == (Instruction::LdrStrWb {
            rt,
            rn,
            imm: off as u32,
            width: AccessWidth::Byte,
            load: true,
            sign_extend: true,
            pre: false,
        }),
        decoded32((0xF930_0900 + rn * 0x1_0000 + rt * 0x1000 + off) as u32, pc)
            == (Instruction::LdrStrWb {
            rt,
            rn,
            imm: (-off % 0x1_0000_0000) as u32,
            width: AccessWidth::HalfWord,
            load: true,
            sign_extend: true,
            pre: false,
        }),
        decoded32((0xF930_0B00 + rn * 0x1_0000 + rt * 0x1000 + off) as u32, pc)
            == (Instruction::LdrStrWb {
            rt,
            rn,
            imm: off as u32,
            width: AccessWidth::HalfWord,
            load: true,
            sign_extend: true,
            pre: false,
        }),
{
    lemma_word_access((0xF800_0900 + rn * 0x1_0000 + rt * 0x1000 + off) as u32, pc, 0xF80,
        rn as u32, rt as u32, 9, (off / 16) as u32, (off % 16) as u32);
    lemma_word_access((0xF800_0B00 + rn * 0x1_0000 + rt * 0x1000 + off) as u32, pc, 0xF80,
        rn as u32, rt as u32, 11, (off / 16) as u32, (off % 16) as u32);
    lemma_word_access((0xF810_0900 + rn * 0x1_0000 + rt * 0x1000 + off) as u32, pc, 0xF81,
        rn as u32, rt as u32, 9, (off / 16) as u32, (off % 16) as u32);
    lemma_word_access((0xF810_0B00 + rn * 0x1_0000 + rt * 0x1000 + off) as u32, pc, 0xF81,
        rn as u32, rt as u32, 11, (off / 16) as u32, (off % 16) as u32);
    lemma_word_access((0xF820_0900 + rn * 0x1_0000 + rt * 0x1000 + off) as u32, pc, 0xF82,
        rn as u32, rt as u32, 9, (off / 16) as u32, (off % 16) as u32);
    lemma_word_access((0xF820_0B00 + rn * 0x1_0000 + rt * 0x1000 + off) as u32, pc, 0xF82,
        rn as u32, rt as u32, 11, (off / 16) as u32, (off % 16) as u32);
    lemma_word_access((0xF830_0900 + rn * 0x1_0000 + rt * 0x1000 + off) as u32, pc, 0xF83,
        rn as u32, rt as u32, 9, (off / 16) as u32, (off % 16) as u32);
    lemma_word_access((0xF830_0B00 + rn * 0x1_0000 + rt * 0x1000 + off) as u32, pc, 0xF83,
        rn as u32, rt as u32, 11, (off / 16) as u32, (off % 16) as u32);
    lemma_word_access((0xF840_0900 + rn * 0x1_0000 + rt * 0x1000 + off) as u32, pc, 0xF84,
        rn as u32, rt as u32, 9, (off / 16) as u32, (off % 16) as u32);
    lemma_word_access((0xF840_0B00 + rn * 0x1_0000 + rt * 0x1000 + off) as u32, pc, 0xF84,
        rn as u32, rt as u32, 11, (off / 16) as u32, (off % 16) as u32);
    lemma_word_access((0xF850_0900 + rn * 0x1_0000 + rt * 0x1000 + off) as u32, pc, 0xF85,
        rn as u32, rt as u32, 9, (off / 16) as u32, (off % 16) as u32);
    lemma_word_access((0xF850_0B00 + rn * 0x1_0000 + rt * 0x1000 + off) as u32, pc, 0xF85,
        rn as u32, rt as u32, 11, (off / 16) as u32, (off % 16) as u32);
    lemma_word_access((0xF910_0900 + rn * 0x1_0000 + rt * 0x1000 + off) as u32, pc, 0xF91,
        rn as u32, rt as u32, 9, (off / 16) as u32, (off % 16) as u32);
    lemma_word_access((0xF910_0B00 + rn * 0x1_0000 + rt * 0x1000 + off) as u32, pc, 0xF91,
        rn as u32, rt as u32, 11, (off / 16) as u32, (off % 16) as u32);
    lemma_word_access((0xF930_0900 + rn * 0x1_0000 + rt * 0x1000 + off) as u32, pc, 0xF93,
        rn as u32, rt as u32, 9, (off / 16) as u32, (off % 16) as u32);
    lemma_word_access((0xF930_0B00 + rn * 0x1_0000 + rt * 0x1000 + off) as u32, pc, 0xF93,
        rn as u32, rt as u32, 11, (off / 16) as u32, (off % 16) as u32);
}

/// Loads and stores of words with a register offset, shifted left by up to three places.
#[verifier::spinoff_prover]
#[verifier::rlimit(60)]
pub proof fn law_wide_register_offset_encoding(rt: u8, rn: u8, rm: u8, lsl: u8, pc: u32)
    requires
        rt < 16,
        rn < 16,
        rm < 16,
        0 < lsl < 4,
    ensures
        decoded32((0xF840_0000 + rn * 0x1_0000 + rt * 0x1000 + rm) as u32, pc)
            == (Instruction::Str {
            rt,
            rn,
            offset: LoadStoreOffset::Register(rm),
            width: AccessWidth::Word,
        }),
        decoded32((0xF850_0000 + rn * 0x1_0000 + rt * 0x1000 + rm) as u32, pc)
            == (Instruction::Ldr {
            rt,
            rn,
            offset: LoadStoreOffset::Register(rm),
            width: AccessWidth::Word,
        }),
        decoded32((0xF840_0000 + rn * 0x1_0000 + rt * 0x1000 + lsl * 0x10 + rm) as u32, pc)
            == (Instruction::Str {
            rt,
            rn,
            offset: LoadStoreOffset::RegisterShifted { rm, lsl },
            width: AccessWidth::Word,
        }),
        decoded32((0xF850_0000 + rn * 0x1_0000 + rt * 0x1000 + lsl * 0x10 + rm) as u32, pc)
            == (Instruction::Ldr {
            rt,
            rn,
            offset: LoadStoreOffset::RegisterShifted { rm, lsl },
            width: AccessWidth::Word,
        }),
{
    lemma_word_access((0xF840_0000 + rn * 0x1_0000 + rt * 0x1000 + rm) as u32, pc, 0xF84,
        rn as u32, rt as u32, 0, 0, rm as u32);
    lemma_word_access((0xF850_0000 + rn * 0x1_0000 + rt * 0x1000 + rm) as u32, pc, 0xF85,
        rn as u32, rt as u32, 0, 0, rm as u32);
    lemma_word_access((0xF840_0000 + rn * 0x1_0000 + rt * 0x1000 + lsl * 0x10 + rm) as u32, pc,
        0xF84, rn as u32, rt as u32, 0, lsl as u32, rm as u32);
    lemma_word_access((0xF850_0000 + rn * 0x1_0000 + rt * 0x1000 + lsl * 0x10 + rm) as u32, pc,
        0xF85, rn as u32, rt as u32, 0, lsl as u32, rm as u32);
}

/// LDRD and STRD, with an offset in words.
#[verifier::spinoff_prover]
#[verifier::rlimit(60)]
pub proof fn law_double_word_encoding(rt: u8, rt2: u8, rn: u8, n: u8, pc: u32)
    requires
        rt < 16,
        rt2 < 16,
        rn < 16,
    ensures
        decoded32((0xE9D0_0000 + rn * 0x1_0000 + rt * 0x1000 + rt2 * 0x100 + n) as u32, pc)
            == (Instruction::LdrD { rt, rt2, rn, imm: (4 * n) as u32 }),
        decoded32((0xE9C0_0000 + rn * 0x1_0000 + rt * 0x1000 + rt2 * 0x100 + n) as u32, pc)
            == (Instruction::StrD { rt, rt2, rn, imm: (4 * n) as u32 }),
{
    lemma_word_double((0xE9D0_0000 + rn * 0x1_0000 + rt * 0x1000 + rt2 * 0x100 + n) as u32, pc,
        0xE9D, rn as u32, rt as u32, rt2 as u32, (n / 16) as u32, (n % 16) as u32);
    lemma_word_double((0xE9C0_0000 + rn * 0x1_0000 + rt * 0x1000 + rt2 * 0x100 + n) as u32, pc,
        0xE9C, rn as u32, rt as u32, rt2 as u32, (n / 16) as u32, (n % 16) as u32);
}

/// LDM and STM of a list of four digits, upwards from the base or downwards below it,
/// with and without writeback.
#[verifier::spinoff_prover]
#[verifier::rlimit(60)]
pub proof fn law_wide_list_encoding(rn: u8, g3: u8, g2: u8, g1: u8, g0: u8, pc: u32)
    requires
        rn < 16,
        g3 < 16,
        g2 < 16,
        g1 < 16,
        g0 < 16,
    ensures
        decoded32((0xE880_0000 + rn * 0x1_0000 + g3 * 0x1000 + g2 * 0x100 + g1 * 0x10 + g0) as u32,
            pc) == (Instruction::Stm {
            rn,
            regs: (g3 * 0x1000 + g2 * 0x100 + g1 * 0x10 + g0) as u16,
            writeback: false,
            descending: false,
        }),
        decoded32((0xE8A0_0000 + rn * 0x1_0000 + g3 * 0x1000 + g2 * 0x100 + g1 * 0x10 + g0) as u32,
            pc) == (Instruction::Stm {
            rn,
            regs: (g3 * 0x1000 + g2 * 0x100 + g1 * 0x10 + g0) as u16,
            writeback: true,
            descending: false,
        }),
        decoded32((0xE900_0000 + rn * 0x1_0000 + g3 * 0x1000 + g2 * 0x100 + g1 * 0x10 + g0) as u32,
            pc) == (Instruction::Stm {
            rn,
            regs: (g3 * 0x1000 + g2 * 0x100 + g1 * 0x10 + g0) as u16,
            writeback: false,
            descending: true,
        }),
        decoded32((0xE920_0000 + rn * 0x1_0000 + g3 * 0x1000 + g2 * 0x100 + g1 * 0x10 + g0) as u32,
            pc) == (Instruction::Stm {
            rn,
            regs: (g3 * 0x1000 + g2 * 0x100 + g1 * 0x10 + g0) as u16,
            writeback: true,
            descending: true,
        }),
        decoded32((0xE890_0000 + rn * 0x1_0000 + g3 * 0x1000 + g2 * 0x100 + g1 * 0x10 + g0) as u32,
            pc) == (Instruction::Ldm {
            rn,
            regs: (g3 * 0x1000 + g2 * 0x100 + g1 * 0x10 + g0) as u16,
            writeback: false,
            descending: false,
        }),
        decoded32((0xE8B0_0000 + rn * 0x1_0000 + g3 * 0x1000 + g2 * 0x100 + g1 * 0x10 + g0) as u32,
            pc) == (Instruction::Ldm {
            rn,
            regs: (g3 * 0x1000 + g2 * 0x100 + g1 * 0x10 + g0) as u16,
            writeback: true,
            descending: false,
        }),
        decoded32((0xE910_0000 + rn * 0x1_0000 + g3 * 0x1000 + g2 * 0x100 + g1 * 0x10 + g0) as u32,
            pc) == (Instruction::Ldm {
            rn,
            regs: (g3 * 0x1000 + g2 * 0x100 + g1 * 0x10 + g0) as u16,
            writeback: false,
            descending: true,
        }),
        decoded32((0xE930_0000 + rn * 0x1_0000 + g3 * 0x1000 + g2 * 0x100 + g1 * 0x10 + g0) as u32,
            pc) == (Instruction::Ldm {
            rn,
            regs: (g3 * 0x1000 + g2 * 0x100 + g1 * 0x10 + g0) as u16,
            writeback: true,
            descending: true,
        }),
{
    lemma_word_multiple((0xE880_0000 + rn * 0x1_0000 + g3 * 0x1000 + g2 * 0x100 + g1 * 0x10
        + g0) as u32, pc, 0xE88, rn as u32, g3 as u32, g2 as u32, g1 as u32, g0 as u32);
    lemma_word_multiple((0xE8A0_0000 + rn * 0x1_0000 + g3 * 0x1000 + g2 * 0x100 + g1 * 0x10
        + g0) as u32, pc, 0xE8A, rn as u32, g3 as u32, g2 as u32, g1 as u32, g0 as u32);
    lemma_word_multiple((0xE900_0000 + rn * 0x1_0000 + g3 * 0x1000 + g2 * 0x100 + g1 * 0x10
        + g0) as u32, pc, 0xE90, rn as u32, g3 as u32, g2 as u32, g1 as u32, g0 as u32);
    lemma_word_multiple((0xE920_0000 + rn * 0x1_0000 + g3 * 0x1000 + g2 * 0x100 + g1 * 0x10
        + g0) as u32, pc, 0xE92, rn as u32, g3 as u32, g2 as u32, g1 as u32, g0 as u32);
    lemma_word_multiple((0xE890_0000 + rn * 0x1_0000 + g3 * 0x1000 + g2 * 0x100 + g1 * 0x10
        + g0) as u32, pc, 0xE89, rn as u32, g3 as u32, g2 as u32, g1 as u32, g0 as u32);
    lemma_word_multiple((0xE8B0_0000 + rn * 0x1_0000 + g3 * 0x1000 + g2 * 0x100 + g1 * 0x10
        + g0) as u32, pc, 0xE8B, rn as u32, g3 as u32, g2 as u32, g1 as u32, g0 as u32);
    lemma_word_multiple((0xE910_0000 + rn * 0x1_0000 + g3 * 0x1000 + g2 * 0x100 + g1 * 0x10
        + g0) as u32, pc, 0xE91, rn as u32, g3 as u32, g2 as u32, g1 as u32, g0 as u32);
    lemma_word_multiple((0xE930_0000 + rn * 0x1_0000 + g3 * 0x1000 + g2 * 0x100 + g1 * 0x10
        + g0) as u32, pc, 0xE93, rn as u32, g3 as u32, g2 as u32, g1 as u32, g0 as u32);
}

/// Exclusive loads and stores; words have an offset in words.
#[verifier::spinoff_prover]
#[verifier::rlimit(60)]
pub proof fn law_exclusive_encoding(rd: u8, rt: u8, rn: u8, n: u8, pc: u32)
    requires
        rd < 16,
        rt < 16,
        rn < 16,
    ensures
        decoded32((0xE850_0F00 + rn * 0x1_0000 + rt * 0x1000 + n) as u32, pc)
            == (Instruction::Ldrex {
            rt,
            rn,
            imm: (4 * n) as u32,
            width: AccessWidth::Word,
        }),
        decoded32((0xE840_0000 + rn * 0x1_0000 + rt * 0x1000 + rd * 0x100 + n) as u32, pc)
            == (Instruction::Strex {
            rd,
            rt,
            rn,
            imm: (4 * n) as u32,
            width: AccessWidth::Word,
        }),
        decoded32((0xE8D0_0F4F + rn * 0x1_0000 + rt * 0x1000) as u32, pc) == (Instruction::Ldrex {
            rt,
            rn,
            imm: 0,
            width: AccessWidth::Byte,
        }),
        decoded32((0xE8D0_0F5F + rn * 0x1_0000 + rt * 0x1000) as u32, pc) == (Instruction::Ldrex {
            rt,
            rn,
            imm: 0,
            width: AccessWidth::HalfWord,
        }),
        decoded32((0xE8C0_0F40 + rn * 0x1_0000 + rt * 0x1000 + rd) as u32, pc)
            == (Instruction::Strex {
            rd,
            rt,
            rn,
            imm: 0,
            width: AccessWidth::Byte,
        }),
        decoded32((0xE8C0_0F50 + rn * 0x1_0000 + rt * 0x1000 + rd) as u32, pc)
            == (Instruction::Strex {
            rd,
            rt,
            rn,
            imm: 0,
            width: AccessWidth::HalfWord,
        }),
{
    lemma_word_exclusive((0xE850_0F00 + rn * 0x1_0000 + rt * 0x1000 + n) as u32, pc, 0xE85,
        rn as u32, rt as u32, 15, (n / 16) as u32, (n % 16) as u32);
    lemma_word_exclusive((0xE840_0000 + rn * 0x1_0000 + rt * 0x1000 + rd * 0x100 + n) as u32, pc,
        0xE84, rn as u32, rt as u32, rd as u32, (n / 16) as u32, (n % 16) as u32);
    lemma_word_exclusive((0xE8D0_0F4F + rn * 0x1_0000 + rt * 0x1000) as u32, pc, 0xE8D, rn as u32,
        rt as u32, 15, 4, 15);
    lemma_word_exclusive((0xE8D0_0F5F + rn * 0x1_0000 + rt * 0x1000) as u32, pc, 0xE8D, rn as u32,
        rt as u32, 15, 5, 15);
    lemma_word_exclusive((0xE8C0_0F40 + rn * 0x1_0000 + rt * 0x1000 + rd) as u32, pc, 0xE8C,
        rn as u32, rt as u32, 15, 4, rd as u32);
    lemma_word_exclusive((0xE8C0_0F50 + rn * 0x1_0000 + rt * 0x1000 + rd) as u32, pc, 0xE8C,
        rn as u32, rt as u32, 15, 5, rd as u32);
}

/// Data processing of registers, with and without flags: ADD and SUB shift their second
/// operand left by up to 31 places.
#[verifier::spinoff_prover]
#[verifier::rlimit(60)]
pub proof fn law_wide_data_encoding(rd: u8, rn: u8, rm: u8, s: u8, pc: u32)
    requires
        rd < 15,
        rn < 16,
        rm < 16,
        s < 32,
    ensures
        decoded32((0xEB00_0000 + rn * 0x1_0000 + s / 4 * 0x1000 + rd * 0x100 + s % 4 * 0x40
            + rm) as u32, pc) == (Instruction::AddShifted { rd, rn, rm, lsl: s, flags: false }),
        decoded32((0xEB10_0000 + rn * 0x1_0000 + s / 4 * 0x1000 + rd * 0x100 + s % 4 * 0x40
            + rm) as u32, pc) == (Instruction::AddShifted { rd, rn, rm, lsl: s, flags: true }),
        decoded32((0xEBA0_0000 + rn * 0x1_0000 + s / 4 * 0x1000 + rd * 0x100 + s % 4 * 0x40
            + rm) as u32, pc) == (Instruction::SubShifted { rd, rn, rm, lsl: s, flags: false }),
        decoded32((0xEBB0_0000 + rn * 0x1_0000 + s / 4 * 0x1000 + rd * 0x100 + s % 4 * 0x40
            + rm) as u32, pc) == (Instruction::SubShifted { rd, rn, rm, lsl: s, flags: true }),
        decoded32((0xEB40_0000 + rn * 0x1_0000 + rd * 0x100 + rm) as u32, pc)
            == (Instruction::Adc { rd, rn, rm, flags: false }),
        decoded32((0xEB50_0000 + rn * 0x1_0000 + rd * 0x100 + rm) as u32, pc)
            == (Instruction::Adc { rd, rn, rm, flags: true }),
        decoded32((0xEB60_0000 + rn * 0x1_0000 + rd * 0x100 + rm) as u32, pc)
            == (Instruction::Sbc { rd, rn, rm, flags: false }),
        decoded32((0xEB70_0000 + rn * 0x1_0000 + rd * 0x100 + rm) as u32, pc)
            == (Instruction::Sbc { rd, rn, rm, flags: true }),
        decoded32((0xEBC0_0000 + rn * 0x1_0000 + rd * 0x100 + rm) as u32, pc)
            == (Instruction::Rsb { rd, rn, rm: Some(rm), imm: None, flags: false }),
        decoded32((0xEBD0_0000 + rn * 0x1_0000 + rd * 0x100 + rm) as u32, pc)
            == (Instruction::Rsb { rd, rn, rm: Some(rm), imm: None, flags: true }),
        decoded32((0xEA6F_0000 + rd * 0x100 + rm) as u32, pc) == (Instruction::Mvn { rd, rm,
            imm: None, flags: false }),
        decoded32((0xEA7F_0000 + rd * 0x100 + rm) as u32, pc) == (Instruction::Mvn { rd, rm,
            imm: None, flags: true }),
{
    lemma_word_data_reg((0xEB00_0000 + rn * 0x1_0000 + s / 4 * 0x1000 + rd * 0x100 + s % 4 * 0x40
        + rm) as u32, pc, 0xEB0, rn as u32, (s / 4) as u32, rd as u32, (s % 4 * 4) as u32,
        rm as u32);
    lemma_word_data_reg((0xEB10_0000 + rn * 0x1_0000 + s / 4 * 0x1000 + rd * 0x100 + s % 4 * 0x40
        + rm) as u32, pc, 0xEB1, rn as u32, (s / 4) as u32, rd as u32, (s % 4 * 4) as u32,
        rm as u32);
    lemma_word_data_reg((0xEBA0_0000 + rn * 0x1_0000 + s / 4 * 0x1000 + rd * 0x100 + s % 4 * 0x40
        + rm) as u32, pc, 0xEBA, rn as u32, (s / 4) as u32, rd as u32, (s % 4 * 4) as u32,
        rm as u32);
    lemma_word_data_reg((0xEBB0_0000 + rn * 0x1_0000 + s / 4 * 0x1000 + rd * 0x100 + s % 4 * 0x40
        + rm) as u32, pc, 0xEBB, rn as u32, (s / 4) as u32, rd as u32, (s % 4 * 4) as u32,
        rm as u32);
    lemma_word_data_reg((0xEB40_0000 + rn * 0x1_0000 + rd * 0x100 + rm) as u32, pc, 0xEB4,
        rn as u32, 0, rd as u32, 0, rm as u32);
    lemma_word_data_reg((0xEB50_0000 + rn * 0x1_0000 + rd * 0x100 + rm) as u32, pc, 0xEB5,
        rn as u32, 0, rd as u32, 0, rm as u32);
    lemma_word_data_reg((0xEB60_0000 + rn * 0x1_0000 + rd * 0x100 + rm) as u32, pc, 0xEB6,
        rn as u32, 0, rd as u32, 0, rm as u32);
    lemma_word_data_reg((0xEB70_0000 + rn * 0x1_0000 + rd * 0x100 + rm) as u32, pc, 0xEB7,
        rn as u32, 0, rd as u32, 0, rm as u32);
    lemma_word_data_reg((0xEBC0_0000 + rn * 0x1_0000 + rd * 0x100 + rm) as u32, pc, 0xEBC,
        rn as u32, 0, rd as u32, 0, rm as u32);
    lemma_word_data_reg((0xEBD0_0000 + rn * 0x1_0000 + rd * 0x100 + rm) as u32, pc, 0xEBD,
        rn as u32, 0, rd as u32, 0, rm as u32);
    lemma_word_data_reg((0xEA6F_0000 + rd * 0x100 + rm) as u32, pc, 0xEA6, 15, 0, rd as u32, 0,
        rm as u32);
    lemma_word_data_reg((0xEA7F_0000 + rd * 0x100 + rm) as u32, pc, 0xEA7, 15, 0, rd as u32, 0,
        rm as u32);
}

/// Data processing with a byte as constant, with and without flags; without a destination
/// TST, TEQ, CMN and CMP; without a first operand MOV.
#[verifier::spinoff_prover]
#[verifier::rlimit(60)]
pub proof fn law_byte_constant_encoding(rd: u8, rn: u8, v: u8, pc: u32)
    requires
        rd < 15,
        rn < 15,
    ensures
        decoded32((0xF000_0000 + rn * 0x1_0000 + rd * 0x100 + v) as u32, pc) == (Instruction::And {
            rd,
            rn,
            rm: None,
            imm: Some(v as u32),
            flags: false,
        }),
        decoded32((0xF010_0000 + rn * 0x1_0000 + rd * 0x100 + v) as u32, pc) == (Instruction::And {
            rd,
            rn,
            rm: None,
            imm: Some(v as u32),
            flags: true,
        }),
        decoded32((0xF020_0000 + rn * 0x1_0000 + rd * 0x100 + v) as u32, pc) == (Instruction::Bic {
            rd,
            rn,
            rm: None,
            imm: Some(v as u32),
            flags: false,
        }),
        decoded32((0xF030_0000 + rn * 0x1_0000 + rd * 0x100 + v) as u32, pc) == (Instruction::Bic {
            rd,
            rn,
            rm: None,
            imm: Some(v as u32),
            flags: true,
        }),
        decoded32((0xF040_0000 + rn * 0x1_0000 + rd * 0x100 + v) as u32, pc) == (Instruction::Orr {
            rd,
            rn,
            rm: None,
            imm: Some(v as u32),
            flags: false,
        }),
        decoded32((0xF050_0000 + rn * 0x1_0000 + rd * 0x100 + v) as u32, pc) == (Instruction::Orr {
            rd,
            rn,
            rm: None,
            imm: Some(v as u32),
            flags: true,
        }),
        decoded32((0xF080_0000 + rn * 0x1_0000 + rd * 0x100 + v) as u32, pc) == (Instruction::Eor {
            rd,
            rn,
            rm: None,
            imm: Some(v as u32),
            flags: false,
        }),
        decoded32((0xF090_0000 + rn * 0x1_0000 + rd * 0x100 + v) as u32, pc) == (Instruction::Eor {
            rd,
            rn,
            rm: None,
            imm: Some(v as u32),
            flags: true,
        }),
        decoded32((0xF100_0000 + rn * 0x1_0000 + rd * 0x100 + v) as u32, pc) == (Instruction::Add {
            rd,
            rn,
            rm: None,
            imm: Some(v as u32),
            flags: false,
        }),
        decoded32((0xF110_0000 + rn * 0x1_0000 + rd * 0x100 + v) as u32, pc) == (Instruction::Add {
            rd,
            rn,
            rm: None,
            imm: Some(v as u32),
            flags: true,
        }),
        decoded32((0xF1A0_0000 + rn * 0x1_0000 + rd * 0x100 + v) as u32, pc) == (Instruction::Sub {
            rd,
            rn,
            rm: None,
            imm: Some(v as u32),
            flags: false,
        }),
        decoded32((0xF1B0_0000 + rn * 0x1_0000 + rd * 0x100 + v) as u32, pc) == (Instruction::Sub {
            rd,
            rn,
            rm: None,
            imm: Some(v as u32),
            flags: true,
        }),
        decoded32((0xF1C0_0000 + rn * 0x1_0000 + rd * 0x100 + v) as u32, pc) == (Instruction::Rsb {
            rd,
            rn,
            rm: None,
            imm: Some(v as u32),
            flags: false,
        }),
        decoded32((0xF1D0_0000 + rn * 0x1_0000 + rd * 0x100 + v) as u32, pc) == (Instruction::Rsb {
            rd,
            rn,
            rm: None,
            imm: Some(v as u32),
            flags: true,
        }),
        decoded32((0xF010_0F00 + rn * 0x1_0000 + v) as u32, pc) == (Instruction::Tst { rn,
            rm: None, imm: Some(v as u32) }),
        decoded32((0xF090_0F00 + rn * 0x1_0000 + v) as u32, pc) == (Instruction::Teq { rn,
            rm: None, imm: Some(v as u32) }),
        decoded32((0xF110_0F00 + rn * 0x1_0000 + v) as u32, pc) == (Instruction::Cmn { rn,
            rm: None, imm: Some(v as u32) }),
        decoded32((0xF1B0_0F00 + rn * 0x1_0000 + v) as u32, pc) == (Instruction::Cmp { rn,
            rm: None, imm: Some(v as u32) }),
        decoded32((0xF04F_0000 + rd * 0x100 + v) as u32, pc) == (Instruction::Mov { rd, rm: 0,
            imm: Some(v as u32), flags: false }),
        decoded32((0xF05F_0000 + rd * 0x100 + v) as u32, pc) == (Instruction::Mov { rd, rm: 0,
            imm: Some(v as u32), flags: true }),
{
    lemma_word_data_imm((0xF000_0000 + rn * 0x1_0000 + rd * 0x100 + v) as u32, pc, 0xF00,
        rn as u32, 0, rd as u32, (v / 16) as u32, (v % 16) as u32);
    lemma_word_data_imm((0xF010_0000 + rn * 0x1_0000 + rd * 0x100 + v) as u32, pc, 0xF01,
        rn as u32, 0, rd as u32, (v / 16) as u32, (v % 16) as u32);
    lemma_word_data_imm((0xF020_0000 + rn * 0x1_0000 + rd * 0x100 + v) as u32, pc, 0xF02,
        rn as u32, 0, rd as u32, (v / 16) as u32, (v % 16) as u32);
    lemma_word_data_imm((0xF030_0000 + rn * 0x1_0000 + rd * 0x100 + v) as u32, pc, 0xF03,
        rn as u32, 0, rd as u32, (v / 16) as u32, (v % 16) as u32);
    lemma_word_data_imm((0xF040_0000 + rn * 0x1_0000 + rd * 0x100 + v) as u32, pc, 0xF04,
        rn as u32, 0, rd as u32, (v / 16) as u32, (v % 16) as u32);
    lemma_word_data_imm((0xF050_0000 + rn * 0x1_0000 + rd * 0x100 + v) as u32, pc, 0xF05,
        rn as u32, 0, rd as u32, (v / 16) as u32, (v % 16) as u32);
    lemma_word_data_imm((0xF080_0000 + rn * 0x1_0000 + rd * 0x100 + v) as u32, pc, 0xF08,
        rn as u32, 0, rd as u32, (v / 16) as u32, (v % 16) as u32);
    lemma_word_data_imm((0xF090_0000 + rn * 0x1_0000 + rd * 0x100 + v) as u32, pc, 0xF09,
        rn as u32, 0, rd as u32, (v / 16) as u32, (v % 16) as u32);
    lemma_word_data_imm((0xF100_0000 + rn * 0x1_0000 + rd * 0x100 + v) as u32, pc, 0xF10,
        rn as u32, 0, rd as u32, (v / 16) as u32, (v % 16) as u32);
    lemma_word_data_imm((0xF110_0000 + rn * 0x1_0000 + rd * 0x100 + v) as u32, pc, 0xF11,
        rn as u32, 0, rd as u32, (v / 16) as u32, (v % 16) as u32);
    lemma_word_data_imm((0xF1A0_0000 + rn * 0x1_0000 + rd * 0x100 + v) as u32, pc, 0xF1A,
        rn as u32, 0, rd as u32, (v / 16) as u32, (v % 16) as u32);
    lemma_word_data_imm((0xF1B0_0000 + rn * 0x1_0000 + rd * 0x100 + v) as u32, pc, 0xF1B,
        rn as u32, 0, rd as u32, (v / 16) as u32, (v % 16) as u32);
    lemma_word_data_imm((0xF1C0_0000 + rn * 0x1_0000 + rd * 0x100 + v) as u32, pc, 0xF1C,
        rn as u32, 0, rd as u32, (v / 16) as u32, (v % 16) as u32);
    lemma_word_data_imm((0xF1D0_0000 + rn * 0x1_0000 + rd * 0x100 + v) as u32, pc, 0xF1D,
        rn as u32, 0, rd as u32, (v / 16) as u32, (v % 16) as u32);
    lemma_word_data_imm((0xF010_0F00 + rn * 0x1_0000 + v) as u32, pc, 0xF01, rn as u32, 0, 15,
        (v / 16) as u32, (v % 16) as u32);
    lemma_word_data_imm((0xF090_0F00 + rn * 0x1_0000 + v) as u32, pc, 0xF09, rn as u32, 0, 15,
        (v / 16) as u32, (v % 16) as u32);
    lemma_word_data_imm((0xF110_0F00 + rn * 0x1_0000 + v) as u32, pc, 0xF11, rn as u32, 0, 15,
        (v / 16) as u32, (v % 16) as u32);
    lemma_word_data_imm((0xF1B0_0F00 + rn * 0x1_0000 + v) as u32, pc, 0xF1B, rn as u32, 0, 15,
        (v / 16) as u32, (v % 16) as u32);
    lemma_word_data_imm((0xF04F_0000 + rd * 0x100 + v) as u32, pc, 0xF04, 15, 0, rd as u32,
        (v / 16) as u32, (v % 16) as u32);
    lemma_word_data_imm((0xF05F_0000 + rd * 0x100 + v) as u32, pc, 0xF05, 15, 0, rd as u32,
        (v / 16) as u32, (v % 16) as u32);
}

/// Constants that repeat a byte: in the low halves, in the high halves, or in all bytes of
/// the two halfwords.
#[verifier::spinoff_prover]
#[verifier::rlimit(60)]
pub proof fn law_repeated_constant_encoding(rd: u8, v: u8, pc: u32)
    requires
        rd < 16,
    ensures
        decoded32((0xF04F_1000 + rd * 0x100 + v) as u32, pc) == (Instruction::Mov { rd, rm: 0,
            imm: Some((v * 0x0001_0001) as u32), flags: false }),
        decoded32((0xF04F_2000 + rd * 0x100 + v) as u32, pc) == (Instruction::Mov { rd, rm: 0,
            imm: Some((v * 0x0100_0100) as u32), flags: false }),
        decoded32((0xF04F_3000 + rd * 0x100 + v) as u32, pc) == (Instruction::Mov { rd, rm: 0,
            imm: Some((v * 0x0101_0101) as u32), flags: false }),
{
    lemma_word_data_imm((0xF04F_1000 + rd * 0x100 + v) as u32, pc, 0xF04, 15, 1, rd as u32,
        (v / 16) as u32, (v % 16) as u32);
    lemma_word_data_imm((0xF04F_2000 + rd * 0x100 + v) as u32, pc, 0xF04, 15, 2, rd as u32,
        (v / 16) as u32, (v % 16) as u32);
    lemma_word_data_imm((0xF04F_3000 + rd * 0x100 + v) as u32, pc, 0xF04, 15, 3, rd as u32,
        (v / 16) as u32, (v % 16) as u32);
}

/// A constant of eight bits with the top one set, moved up to a place from bit 1 to bit 24
/// by a rotation to the right by `2 * n1 + n0` places.
#[verifier::spinoff_prover]
#[verifier::rlimit(60)]
pub proof fn law_rotated_constant_encoding(rd: u8, v1: u8, v0: u8, n1: u8, n0: u8, pc: u32)
    requires
        rd < 16,
        v1 < 8,
        v0 < 16,
        n1 < 8,
        n0 < 2,
    ensures
        n1 >= 4 ==> decoded32((0xF04F_0000 + n1 * 0x1000 + rd * 0x100 + n0 * 0x80 + v1 * 0x10
            + v0) as u32, pc) == (Instruction::Mov {
            rd,
            rm: 0,
            imm: Some(
                ((0x80 + v1 * 0x10 + v0) * pow2((32 - 2 * n1 - n0) as nat)) as u32,
            ),
            flags: false,
        }),
{
    lemma_expanded(v1, v0, n1, n0);
    if n1 >= 4 {
        lemma_word_data_imm((0xF04F_0000 + n1 * 0x1000 + rd * 0x100 + n0 * 0x80 + v1 * 0x10
            + v0) as u32, pc, 0xF04, 15, n1 as u32, rd as u32, (n0 * 8 + v1) as u32, v0 as u32);
    }
}

/// A constant of eight bits with the top one set, moved up to a place from bit 1 to bit 24
/// by a rotation to the right, which is written as `2 * n1 + n0` with a bit of its own for
/// 16 more.
#[verifier::spinoff_prover]
#[verifier::rlimit(60)]
pub proof fn law_far_rotated_constant_encoding(rd: u8, v1: u8, v0: u8, n1: u8, n0: u8, pc: u32)
    requires
        rd < 16,
        v1 < 8,
        v0 < 16,
        n1 < 8,
        n0 < 2,
    ensures
        decoded32((0xF44F_0000 + n1 * 0x1000 + rd * 0x100 + n0 * 0x80 + v1 * 0x10 + v0) as u32, pc)
            == (Instruction::Mov {
            rd,
            rm: 0,
            imm: Some(
                ((0x80 + v1 * 0x10 + v0) * pow2((16 - 2 * n1 - n0) as nat)) as u32,
            ),
            flags: false,
        }),
{
    lemma_expanded(v1, v0, n1, n0);
    lemma_word_data_imm((0xF44F_0000 + n1 * 0x1000 + rd * 0x100 + n0 * 0x80 + v1 * 0x10
        + v0) as u32, pc, 0xF44, 15, n1 as u32, rd as u32, (n0 * 8 + v1) as u32, v0 as u32);
}

/// BL: the distance has ten bits from bit 14 on, the sign in bits 12 and 13, and eleven bits
/// from bit 1 on. Some of these encodings are taken by MOVW and MOVT.
#[verifier::spinoff_prover]
#[verifier::rlimit(60)]
pub proof fn law_call_encoding(t1: u8, t0: u8, u2: u8, u1: u8, u0: u8, pc: u32)
    requires
        t1 < 64,
        t0 < 16,
        u2 < 8,
        u1 < 16,
        u0 < 16,
        !(t1 / 16 == 2 && t1 % 8 == 4),
    ensures
        decoded32((0xF000_F800 + t1 * 0x10_0000 + t0 * 0x1_0000 + u2 * 0x100 + u1 * 0x10
            + u0) as u32, pc) == (Instruction::BranchLink {
            target: ((pc + 4 + (t1 * 16 + t0) * 0x4000 + (u2 * 0x100 + u1 * 0x10 + u0) * 2)
                % 0x1_0000_0000) as u32,
        }),
        decoded32((0xF400_F800 + t1 * 0x10_0000 + t0 * 0x1_0000 + u2 * 0x100 + u1 * 0x10
            + u0) as u32, pc) == (Instruction::BranchLink {
            target: ((pc + 4 + (t1 * 16 + t0) * 0x4000 + (u2 * 0x100 + u1 * 0x10
                + u0) * 2 - 0xFF_D000)
                % 0x1_0000_0000) as u32,
        }),
{
    lemma_word_bl((0xF000_F800 + t1 * 0x10_0000 + t0 * 0x1_0000 + u2 * 0x100 + u1 * 0x10
        + u0) as u32, pc, (0xF00 + t1) as u32, t0 as u32, 15, (8 + u2) as u32, u1 as u32,
        u0 as u32);
    lemma_word_bl((0xF400_F800 + t1 * 0x10_0000 + t0 * 0x1_0000 + u2 * 0x100 + u1 * 0x10
        + u0) as u32, pc, (0xF40 + t1) as u32, t0 as u32, 15, (8 + u2) as u32, u1 as u32,
        u0 as u32);
}

/// DSB, DMB, ISB and the wide hints.
#[verifier::spinoff_prover]
#[verifier::rlimit(60)]
pub proof fn law_barrier_encoding(hint: u8, pc: u32)
    ensures
        decoded32(0xF3BF_8F4F, pc) == (Instruction::Barrier { kind: BarrierKind::Dsb }),
        decoded32(0xF3BF_8F5F, pc) == (Instruction::Barrier { kind: BarrierKind::Dmb }),
        decoded32(0xF3BF_8F6F, pc) == (Instruction::Barrier { kind: BarrierKind::Isb }),
        decoded32((0xF3AF_8000 + hint) as u32, pc) == Instruction::Nop,
{
    reveal(decoded32);
    lemma_head(0xF3BF_8F4F, 0xF3B, 15, 0x8F4F);
    lemma_tail(0xF3BF_8F4F, 0xF3BF, 8, 15, 4, 15);
    lemma_head(0xF3BF_8F5F, 0xF3B, 15, 0x8F5F);
    lemma_tail(0xF3BF_8F5F, 0xF3BF, 8, 15, 5, 15);
    lemma_head(0xF3BF_8F6F, 0xF3B, 15, 0x8F6F);
    lemma_tail(0xF3BF_8F6F, 0xF3BF, 8, 15, 6, 15);
    lemma_head((0xF3AF_8000 + hint) as u32, 0xF3A, 15, (0x8000 + hint) as u32);
    lemma_tail((0xF3AF_8000 + hint) as u32, 0xF3AF, 8, 0, (hint / 16) as u32, (hint % 16) as u32);
}

/// Single precision accumulation on S0 to S31: the lowest bit of each register stands apart.
#[verifier::spinoff_prover]
#[verifier::rlimit(60)]
pub proof fn law_single_accumulate_encoding(d: u8, d0: u8, n: u8, n0: u8, m: u8, m0: u8, pc: u32)
    requires
        d < 16,
        d0 < 2,
        n < 16,
        n0 < 2,
        m < 16,
        m0 < 2,
    ensures
        decoded32((0xEE00_0A00 + d0 * 0x40_0000 + n * 0x1_0000 + d * 0x1000 + n0 * 0x80 + m0 * 0x20
            + m) as u32, pc) == (Instruction::FpArith3 {
            op: FpArithOp::Vmla,
            vd: (2 * d + d0) as u8,
            vn: (2 * n + n0) as u8,
            vm: (2 * m + m0) as u8,
            double: false,
        }),
        decoded32((0xEE00_0A40 + d0 * 0x40_0000 + n * 0x1_0000 + d * 0x1000 + n0 * 0x80 + m0 * 0x20
            + m) as u32, pc) == (Instruction::FpArith3 {
            op: FpArithOp::Vmls,
            vd: (2 * d + d0) as u8,
            vn: (2 * n + n0) as u8,
            vm: (2 * m + m0) as u8,
            double: false,
        }),
        decoded32((0xEE10_0A00 + d0 * 0x40_0000 + n * 0x1_0000 + d * 0x1000 + n0 * 0x80 + m0 * 0x20
            + m) as u32, pc) == (Instruction::FpArith3 {
            op: FpArithOp::Vnmls,
            vd: (2 * d + d0) as u8,
            vn: (2 * n + n0) as u8,
            vm: (2 * m + m0) as u8,
            double: false,
        }),
        decoded32((0xEE10_0A40 + d0 * 0x40_0000 + n * 0x1_0000 + d * 0x1000 + n0 * 0x80 + m0 * 0x20
            + m) as u32, pc) == (Instruction::FpArith3 {
            op: FpArithOp::Vnmla,
            vd: (2 * d + d0) as u8,
            vn: (2 * n + n0) as u8,
            vm: (2 * m + m0) as u8,
            double: false,
        }),
{
    lemma_word_fpu((0xEE00_0A00 + d0 * 0x40_0000 + n * 0x1_0000 + d * 0x1000 + n0 * 0x80 + m0 * 0x20
        + m) as u32, pc, 0xEE0, d0 as u32, n as u32, d as u32, 10, n0 as u32, 0, m0 as u32, 0,
        m as u32);
    lemma_word_fpu((0xEE00_0A40 + d0 * 0x40_0000 + n * 0x1_0000 + d * 0x1000 + n0 * 0x80 + m0 * 0x20
        + m) as u32, pc, 0xEE0, d0 as u32, n as u32, d as u32, 10, n0 as u32, 1, m0 as u32, 0,
        m as u32);
    lemma_word_fpu((0xEE10_0A00 + d0 * 0x40_0000 + n * 0x1_0000 + d * 0x1000 + n0 * 0x80 + m0 * 0x20
        + m) as u32, pc, 0xEE1, d0 as u32, n as u32, d as u32, 10, n0 as u32, 0, m0 as u32, 0,
        m as u32);
    lemma_word_fpu((0xEE10_0A40 + d0 * 0x40_0000 + n * 0x1_0000 + d * 0x1000 + n0 * 0x80 + m0 * 0x20
        + m) as u32, pc, 0xEE1, d0 as u32, n as u32, d as u32, 10, n0 as u32, 1, m0 as u32, 0,
        m as u32);
}

/// Single precision arithmetic on S0 to S31: the lowest bit of each register stands apart.
#[verifier::spinoff_prover]
#[verifier::rlimit(60)]
pub proof fn law_single_arithmetic_encoding(d: u8, d0: u8, n: u8, n0: u8, m: u8, m0: u8, pc: u32)
    requires
        d < 16,
        d0 < 2,
        n < 16,
        n0 < 2,
        m < 16,
        m0 < 2,
    ensures
        decoded32((0xEE20_0A00 + d0 * 0x40_0000 + n * 0x1_0000 + d * 0x1000 + n0 * 0x80 + m0 * 0x20
            + m) as u32, pc) == (Instruction::FpArith3 {
            op: FpArithOp::Vmul,
            vd: (2 * d + d0) as u8,
            vn: (2 * n + n0) as u8,
            vm: (2 * m + m0) as u8,
            double: false,
        }),
        decoded32((0xEE20_0A40 + d0 * 0x40_0000 + n * 0x1_0000 + d * 0x1000 + n0 * 0x80 + m0 * 0x20
            + m) as u32, pc) == (Instruction::FpArith3 {
            op: FpArithOp::Vnmul,
            vd: (2 * d + d0) as u8,
            vn: (2 * n + n0) as u8,
            vm: (2 * m + m0) as u8,
            double: false,
        }),
        decoded32((0xEE30_0A00 + d0 * 0x40_0000 + n * 0x1_0000 + d * 0x1000 + n0 * 0x80 + m0 * 0x20
            + m) as u32, pc) == (Instruction::FpArith3 {
            op: FpArithOp::Vadd,
            vd: (2 * d + d0) as u8,
            vn: (2 * n + n0) as u8,
            vm: (2 * m + m0) as u8,
            double: false,
        }),
        decoded32((0xEE30_0A40 + d0 * 0x40_0000 + n * 0x1_0000 + d * 0x1000 + n0 * 0x80 + m0 * 0x20
            + m) as u32, pc) == (Instruction::FpArith3 {
            op: FpArithOp::Vsub,
            vd: (2 * d + d0) as u8,
            vn: (2 * n + n0) as u8,
            vm: (2 * m + m0) as u8,
            double: false,
        }),
        decoded32((0xEE80_0A00 + d0 * 0x40_0000 + n * 0x1_0000 + d * 0x1000 + n0 * 0x80 + m0 * 0x20
            + m) as u32, pc) == (Instruction::FpArith3 {
            op: FpArithOp::Vdiv,
            vd: (2 * d + d0) as u8,
            vn: (2 * n + n0) as u8,
            vm: (2 * m + m0) as u8,
            double: false,
        }),
{
    lemma_word_fpu((0xEE20_0A00 + d0 * 0x40_0000 + n * 0x1_0000 + d * 0x1000 + n0 * 0x80 + m0 * 0x20
        + m) as u32, pc, 0xEE2, d0 as u32, n as u32, d as u32, 10, n0 as u32, 0, m0 as u32, 0,
        m as u32);
    lemma_word_fpu((0xEE20_0A40 + d0 * 0x40_0000 + n * 0x1_0000 + d * 0x1000 + n0 * 0x80 + m0 * 0x20
        + m) as u32, pc, 0xEE2, d0 as u32, n as u32, d as u32, 10, n0 as u32, 1, m0 as u32, 0,
        m as u32);
    lemma_word_fpu((0xEE30_0A00 + d0 * 0x40_0000 + n * 0x1_0000 + d * 0x1000 + n0 * 0x80 + m0 * 0x20
        + m) as u32, pc, 0xEE3, d0 as u32, n as u32, d as u32, 10, n0 as u32, 0, m0 as u32, 0,
        m as u32);
    lemma_word_fpu((0xEE30_0A40 + d0 * 0x40_0000 + n * 0x1_0000 + d * 0x1000 + n0 * 0x80 + m0 * 0x20
        + m) as u32, pc, 0xEE3, d0 as u32, n as u32, d as u32, 10, n0 as u32, 1, m0 as u32, 0,
        m as u32);
    lemma_word_fpu((0xEE80_0A00 + d0 * 0x40_0000 + n * 0x1_0000 + d * 0x1000 + n0 * 0x80 + m0 * 0x20
        + m) as u32, pc, 0xEE8, d0 as u32, n as u32, d as u32, 10, n0 as u32, 0, m0 as u32, 0,
        m as u32);
}

/// Double precision arithmetic on D0 to D15.
#[verifier::spinoff_prover]
#[verifier::rlimit(60)]
pub proof fn law_double_arithmetic_encoding(vd: u8, vn: u8, vm: u8, pc: u32)
    requires
        vd < 16,
        vn < 16,
        vm < 16,
    ensures
        decoded32((0xEE00_0B00 + vn * 0x1_0000 + vd * 0x1000 + vm) as u32, pc)
            == (Instruction::FpArith3 {
            op: FpArithOp::Vmla,
            vd,
            vn,
            vm,
            double: true,
        }),
        decoded32((0xEE00_0B40 + vn * 0x1_0000 + vd * 0x1000 + vm) as u32, pc)
            == (Instruction::FpArith3 {
            op: FpArithOp::Vmls,
            vd,
            vn,
            vm,
            double: true,
        }),
        decoded32((0xEE10_0B00 + vn * 0x1_0000 + vd * 0x1000 + vm) as u32, pc)
            == (Instruction::FpArith3 {
            op: FpArithOp::Vnmls,
            vd,
            vn,
            vm,
            double: true,
        }),
        decoded32((0xEE10_0B40 + vn * 0x1_0000 + vd * 0x1000 + vm) as u32, pc)
            == (Instruction::FpArith3 {
            op: FpArithOp::Vnmla,
            vd,
            vn,
            vm,
            double: true,
        }),
        decoded32((0xEE20_0B00 + vn * 0x1_0000 + vd * 0x1000 + vm) as u32, pc)
            == (Instruction::FpArith3 {
            op: FpArithOp::Vmul,
            vd,
            vn,
            vm,
            double: true,
        }),
        decoded32((0xEE20_0B40 + vn * 0x1_0000 + vd * 0x1000 + vm) as u32, pc)
            == (Instruction::FpArith3 {
            op: FpArithOp::Vnmul,
            vd,
            vn,
            vm,
            double: true,
        }),
        decoded32((0xEE30_0B00 + vn * 0x1_0000 + vd * 0x1000 + vm) as u32, pc)
            == (Instruction::FpArith3 {
            op: FpArithOp::Vadd,
            vd,
            vn,
            vm,
            double: true,
        }),
        decoded32((0xEE30_0B40 + vn * 0x1_0000 + vd * 0x1000 + vm) as u32, pc)
            == (Instruction::FpArith3 {
            op: FpArithOp::Vsub,
            vd,
            vn,
            vm,
            double: true,
        }),
        decoded32((0xEE80_0B00 + vn * 0x1_0000 + vd * 0x1000 + vm) as u32, pc)
            == (Instruction::FpArith3 {
            op: FpArithOp::Vdiv,
            vd,
            vn,
            vm,
            double: true,
        }),
{
    lemma_word_fpu((0xEE00_0B00 + vn * 0x1_0000 + vd * 0x1000 + vm) as u32, pc, 0xEE0, 0,
        vn as u32, vd as u32, 11, 0, 0, 0, 0, vm as u32);
    lemma_word_fpu((0xEE00_0B40 + vn * 0x1_0000 + vd * 0x1000 + vm) as u32, pc, 0xEE0, 0,
        vn as u32, vd as u32, 11, 0, 1, 0, 0, vm as u32);
    lemma_word_fpu((0xEE10_0B00 + vn * 0x1_0000 + vd * 0x1000 + vm) as u32, pc, 0xEE1, 0,
        vn as u32, vd as u32, 11, 0, 0, 0, 0, vm as u32);
    lemma_word_fpu((0xEE10_0B40 + vn * 0x1_0000 + vd * 0x1000 + vm) as u32, pc, 0xEE1, 0,
        vn as u32, vd as u32, 11, 0, 1, 0, 0, vm as u32);
    lemma_word_fpu((0xEE20_0B00 + vn * 0x1_0000 + vd * 0x1000 + vm) as u32, pc, 0xEE2, 0,
        vn as u32, vd as u32, 11, 0, 0, 0, 0, vm as u32);
    lemma_word_fpu((0xEE20_0B40 + vn * 0x1_0000 + vd * 0x1000 + vm) as u32, pc, 0xEE2, 0,
        vn as u32, vd as u32, 11, 0, 1, 0, 0, vm as u32);
    lemma_word_fpu((0xEE30_0B00 + vn * 0x1_0000 + vd * 0x1000 + vm) as u32, pc, 0xEE3, 0,
        vn as u32, vd as u32, 11, 0, 0, 0, 0, vm as u32);
    lemma_word_fpu((0xEE30_0B40 + vn * 0x1_0000 + vd * 0x1000 + vm) as u32, pc, 0xEE3, 0,
        vn as u32, vd as u32, 11, 0, 1, 0, 0, vm as u32);
    lemma_word_fpu((0xEE80_0B00 + vn * 0x1_0000 + vd * 0x1000 + vm) as u32, pc, 0xEE8, 0,
        vn as u32, vd as u32, 11, 0, 0, 0, 0, vm as u32);
}

/// Single precision VMOV, VABS, VNEG and VSQRT.
#[verifier::spinoff_prover]
#[verifier::rlimit(60)]
pub proof fn law_single_unary_encoding(d: u8, d0: u8, m: u8, m0: u8, pc: u32)
    requires
        d < 16,
        d0 < 2,
        m < 16,
        m0 < 2,
    ensures
        decoded32((0xEEB0_0A40 + d0 * 0x40_0000 + d * 0x1000 + m0 * 0x20 + m) as u32, pc)
            == (Instruction::FpVmovReg { sd: (2 * d + d0) as u8, sm: (2 * m + m0) as u8,
            double: false }),
        decoded32((0xEEB0_0AC0 + d0 * 0x40_0000 + d * 0x1000 + m0 * 0x20 + m) as u32, pc)
            == (Instruction::FpUnary { op: FpUnaryOp::Vabs, vd: (2 * d + d0) as u8, vm: (2 * m
            + m0) as u8, double: false }),
        decoded32((0xEEB1_0A40 + d0 * 0x40_0000 + d * 0x1000 + m0 * 0x20 + m) as u32, pc)
            == (Instruction::FpUnary { op: FpUnaryOp::Vneg, vd: (2 * d + d0) as u8, vm: (2 * m
            + m0) as u8, double: false }),
        decoded32((0xEEB1_0AC0 + d0 * 0x40_0000 + d * 0x1000 + m0 * 0x20 + m) as u32, pc)
            == (Instruction::FpUnary { op: FpUnaryOp::Vsqrt, vd: (2 * d + d0) as u8, vm: (2 * m
            + m0) as u8, double: false }),
{
    lemma_word_fpu((0xEEB0_0A40 + d0 * 0x40_0000 + d * 0x1000 + m0 * 0x20 + m) as u32, pc, 0xEEB,
        d0 as u32, 0, d as u32, 10, 0, 1, m0 as u32, 0, m as u32);
    lemma_word_fpu((0xEEB0_0AC0 + d0 * 0x40_0000 + d * 0x1000 + m0 * 0x20 + m) as u32, pc, 0xEEB,
        d0 as u32, 0, d as u32, 10, 1, 1, m0 as u32, 0, m as u32);
    lemma_word_fpu((0xEEB1_0A40 + d0 * 0x40_0000 + d * 0x1000 + m0 * 0x20 + m) as u32, pc, 0xEEB,
        d0 as u32, 1, d as u32, 10, 0, 1, m0 as u32, 0, m as u32);
    lemma_word_fpu((0xEEB1_0AC0 + d0 * 0x40_0000 + d * 0x1000 + m0 * 0x20 + m) as u32, pc, 0xEEB,
        d0 as u32, 1, d as u32, 10, 1, 1, m0 as u32, 0, m as u32);
}

/// Single precision comparisons, with a register and with zero.
#[verifier::spinoff_prover]
#[verifier::rlimit(60)]
pub proof fn law_single_compare_encoding(d: u8, d0: u8, m: u8, m0: u8, pc: u32)
    requires
        d < 16,
        d0 < 2,
        m < 16,
        m0 < 2,
    ensures
        decoded32((0xEEB4_0A40 + d0 * 0x40_0000 + d * 0x1000 + m0 * 0x20 + m) as u32, pc)
            == (Instruction::FpCmp { vd: (2 * d + d0) as u8, vm: (2 * m + m0) as u8, double: false,
            e: false, zero: false }),
        decoded32((0xEEB4_0AC0 + d0 * 0x40_0000 + d * 0x1000 + m0 * 0x20 + m) as u32, pc)
            == (Instruction::FpCmp { vd: (2 * d + d0) as u8, vm: (2 * m + m0) as u8, double: false,
            e: true, zero: false }),
        decoded32((0xEEB5_0A40 + d0 * 0x40_0000 + d * 0x1000 + m0 * 0x20 + m) as u32, pc)
            == (Instruction::FpCmp { vd: (2 * d + d0) as u8, vm: (2 * m + m0) as u8, double: false,
            e: false, zero: true }),
        decoded32((0xEEB5_0AC0 + d0 * 0x40_0000 + d * 0x1000 + m0 * 0x20 + m) as u32, pc)
            == (Instruction::FpCmp { vd: (2 * d + d0) as u8, vm: (2 * m + m0) as u8, double: false,
            e: true, zero: true }),
{
    lemma_word_fpu((0xEEB4_0A40 + d0 * 0x40_0000 + d * 0x1000 + m0 * 0x20 + m) as u32, pc, 0xEEB,
        d0 as u32, 4, d as u32, 10, 0, 1, m0 as u32, 0, m as u32);
    lemma_word_fpu((0xEEB4_0AC0 + d0 * 0x40_0000 + d * 0x1000 + m0 * 0x20 + m) as u32, pc, 0xEEB,
        d0 as u32, 4, d as u32, 10, 1, 1, m0 as u32, 0, m as u32);
    lemma_word_fpu((0xEEB5_0A40 + d0 * 0x40_0000 + d * 0x1000 + m0 * 0x20 + m) as u32, pc, 0xEEB,
        d0 as u32, 5, d as u32, 10, 0, 1, m0 as u32, 0, m as u32);
    lemma_word_fpu((0xEEB5_0AC0 + d0 * 0x40_0000 + d * 0x1000 + m0 * 0x20 + m) as u32, pc, 0xEEB,
        d0 as u32, 5, d as u32, 10, 1, 1, m0 as u32, 0, m as u32);
}

/// Double precision VMOV, VABS, VNEG, VSQRT and comparisons.
#[verifier::spinoff_prover]
#[verifier::rlimit(60)]
pub proof fn law_double_unary_encoding(vd: u8, vm: u8, pc: u32)
    requires
        vd < 16,
        vm < 16,
    ensures
        decoded32((0xEEB0_0B40 + vd * 0x1000 + vm) as u32, pc) == (Instruction::FpVmovReg { sd: vd,
            sm: vm, double: true }),
        decoded32((0xEEB0_0BC0 + vd * 0x1000 + vm) as u32, pc)
            == (Instruction::FpUnary { op: FpUnaryOp::Vabs, vd, vm, double: true }),
        decoded32((0xEEB1_0B40 + vd * 0x1000 + vm) as u32, pc)
            == (Instruction::FpUnary { op: FpUnaryOp::Vneg, vd, vm, double: true }),
        decoded32((0xEEB1_0BC0 + vd * 0x1000 + vm) as u32, pc)
            == (Instruction::FpUnary { op: FpUnaryOp::Vsqrt, vd, vm, double: true }),
        decoded32((0xEEB4_0B40 + vd * 0x1000 + vm) as u32, pc) == (Instruction::FpCmp { vd, vm,
            double: true, e: false, zero: false }),
        decoded32((0xEEB4_0BC0 + vd * 0x1000 + vm) as u32, pc) == (Instruction::FpCmp { vd, vm,
            double: true, e: true, zero: false }),
        decoded32((0xEEB5_0B40 + vd * 0x1000 + vm) as u32, pc) == (Instruction::FpCmp { vd, vm,
            double: true, e: false, zero: true }),
        decoded32((0xEEB5_0BC0 + vd * 0x1000 + vm) as u32, pc) == (Instruction::FpCmp { vd, vm,
            double: true, e: true, zero: true }),
{
    lemma_word_fpu((0xEEB0_0B40 + vd * 0x1000 + vm) as u32, pc, 0xEEB, 0, 0, vd as u32, 11, 0, 1,
        0, 0, vm as u32);
    lemma_word_fpu((0xEEB0_0BC0 + vd * 0x1000 + vm) as u32, pc, 0xEEB, 0, 0, vd as u32, 11, 1, 1,
        0, 0, vm as u32);
    lemma_word_fpu((0xEEB1_0B40 + vd * 0x1000 + vm) as u32, pc, 0xEEB, 0, 1, vd as u32, 11, 0, 1,
        0, 0, vm as u32);
    lemma_word_fpu((0xEEB1_0BC0 + vd * 0x1000 + vm) as u32, pc, 0xEEB, 0, 1, vd as u32, 11, 1, 1,
        0, 0, vm as u32);
    lemma_word_fpu((0xEEB4_0B40 + vd * 0x1000 + vm) as u32, pc, 0xEEB, 0, 4, vd as u32, 11, 0, 1,
        0, 0, vm as u32);
    lemma_word_fpu((0xEEB4_0BC0 + vd * 0x1000 + vm) as u32, pc, 0xEEB, 0, 4, vd as u32, 11, 1, 1,
        0, 0, vm as u32);
    lemma_word_fpu((0xEEB5_0B40 + vd * 0x1000 + vm) as u32, pc, 0xEEB, 0, 5, vd as u32, 11, 0, 1,
        0, 0, vm as u32);
    lemma_word_fpu((0xEEB5_0BC0 + vd * 0x1000 + vm) as u32, pc, 0xEEB, 0, 5, vd as u32, 11, 1, 1,
        0, 0, vm as u32);
}

/// Conversions between single precision and integers.
#[verifier::spinoff_prover]
#[verifier::rlimit(60)]
pub proof fn law_single_conversion_encoding(d: u8, d0: u8, m: u8, m0: u8, pc: u32)
    requires
        d < 16,
        d0 < 2,
        m < 16,
        m0 < 2,
    ensures
        decoded32((0xEEB8_0A40 + d0 * 0x40_0000 + d * 0x1000 + m0 * 0x20 + m) as u32, pc)
            == (Instruction::FpCvt { op: FpCvtOp::U32ToF32, vd: (2 * d + d0) as u8, vm: (2 * m
            + m0) as u8 }),
        decoded32((0xEEB8_0AC0 + d0 * 0x40_0000 + d * 0x1000 + m0 * 0x20 + m) as u32, pc)
            == (Instruction::FpCvt { op: FpCvtOp::S32ToF32, vd: (2 * d + d0) as u8, vm: (2 * m
            + m0) as u8 }),
        decoded32((0xEEBC_0A40 + d0 * 0x40_0000 + d * 0x1000 + m0 * 0x20 + m) as u32, pc)
            == (Instruction::FpCvt { op: FpCvtOp::F32ToU32R, vd: (2 * d + d0) as u8, vm: (2 * m
            + m0) as u8 }),
        decoded32((0xEEBC_0AC0 + d0 * 0x40_0000 + d * 0x1000 + m0 * 0x20 + m) as u32, pc)
            == (Instruction::FpCvt { op: FpCvtOp::F32ToU32, vd: (2 * d + d0) as u8, vm: (2 * m
            + m0) as u8 }),
        decoded32((0xEEBD_0A40 + d0 * 0x40_0000 + d * 0x1000 + m0 * 0x20 + m) as u32, pc)
            == (Instruction::FpCvt { op: FpCvtOp::F32ToS32R, vd: (2 * d + d0) as u8, vm: (2 * m
            + m0) as u8 }),
        decoded32((0xEEBD_0AC0 + d0 * 0x40_0000 + d * 0x1000 + m0 * 0x20 + m) as u32, pc)
            == (Instruction::FpCvt { op: FpCvtOp::F32ToS32, vd: (2 * d + d0) as u8, vm: (2 * m
            + m0) as u8 }),
{
    lemma_word_fpu((0xEEB8_0A40 + d0 * 0x40_0000 + d * 0x1000 + m0 * 0x20 + m) as u32, pc, 0xEEB,
        d0 as u32, 8, d as u32, 10, 0, 1, m0 as u32, 0, m as u32);
    lemma_word_fpu((0xEEB8_0AC0 + d0 * 0x40_0000 + d * 0x1000 + m0 * 0x20 + m) as u32, pc, 0xEEB,
        d0 as u32, 8, d as u32, 10, 1, 1, m0 as u32, 0, m as u32);
    lemma_word_fpu((0xEEBC_0A40 + d0 * 0x40_0000 + d * 0x1000 + m0 * 0x20 + m) as u32, pc, 0xEEB,
        d0 as u32, 12, d as u32, 10, 0, 1, m0 as u32, 0, m as u32);
    lemma_word_fpu((0xEEBC_0AC0 + d0 * 0x40_0000 + d * 0x1000 + m0 * 0x20 + m) as u32, pc, 0xEEB,
        d0 as u32, 12, d as u32, 10, 1, 1, m0 as u32, 0, m as u32);
    lemma_word_fpu((0xEEBD_0A40 + d0 * 0x40_0000 + d * 0x1000 + m0 * 0x20 + m) as u32, pc, 0xEEB,
        d0 as u32, 13, d as u32, 10, 0, 1, m0 as u32, 0, m as u32);
    lemma_word_fpu((0xEEBD_0AC0 + d0 * 0x40_0000 + d * 0x1000 + m0 * 0x20 + m) as u32, pc, 0xEEB,
        d0 as u32, 13, d as u32, 10, 1, 1, m0 as u32, 0, m as u32);
}

/// Conversions of double precision: to and from integers and single precision.
#[verifier::spinoff_prover]
#[verifier::rlimit(60)]
pub proof fn law_double_conversion_encoding(d: u8, d0: u8, m: u8, m0: u8, pc: u32)
    requires
        d < 16,
        d0 < 2,
        m < 16,
        m0 < 2,
    ensures
        decoded32((0xEEB8_0B40 + d * 0x1000 + m0 * 0x20 + m) as u32, pc)
            == (Instruction::FpCvt { op: FpCvtOp::U32ToF64, vd: d, vm: (2 * m + m0) as u8 }),
        decoded32((0xEEB8_0BC0 + d * 0x1000 + m0 * 0x20 + m) as u32, pc)
            == (Instruction::FpCvt { op: FpCvtOp::S32ToF64, vd: d, vm: (2 * m + m0) as u8 }),
        decoded32((0xEEBC_0B40 + d0 * 0x40_0000 + d * 0x1000 + m) as u32, pc)
            == (Instruction::FpCvt { op: FpCvtOp::F64ToU32R, vd: (2 * d + d0) as u8, vm: m }),
        decoded32((0xEEBC_0BC0 + d0 * 0x40_0000 + d * 0x1000 + m) as u32, pc)
            == (Instruction::FpCvt { op: FpCvtOp::F64ToU32, vd: (2 * d + d0) as u8, vm: m }),
        decoded32((0xEEBD_0B40 + d0 * 0x40_0000 + d * 0x1000 + m) as u32, pc)
            == (Instruction::FpCvt { op: FpCvtOp::F64ToS32R, vd: (2 * d + d0) as u8, vm: m }),
        decoded32((0xEEBD_0BC0 + d0 * 0x40_0000 + d * 0x1000 + m) as u32, pc)
            == (Instruction::FpCvt { op: FpCvtOp::F64ToS32, vd: (2 * d + d0) as u8, vm: m }),
        decoded32((0xEEB7_0BC0 + d0 * 0x40_0000 + d * 0x1000 + m) as u32, pc)
            == (Instruction::FpCvt { op: FpCvtOp::F32ToF64, vd: (2 * d + d0) as u8, vm: m }),
        decoded32((0xEEB7_0AC0 + d * 0x1000 + m0 * 0x20 + m) as u32, pc)
            == (Instruction::FpCvt { op: FpCvtOp::F64ToF32, vd: d, vm: (2 * m + m0) as u8 }),
{
    lemma_word_fpu((0xEEB8_0B40 + d * 0x1000 + m0 * 0x20 + m) as u32, pc, 0xEEB, 0, 8, d as u32,
        11, 0, 1, m0 as u32, 0, m as u32);
    lemma_word_fpu((0xEEB8_0BC0 + d * 0x1000 + m0 * 0x20 + m) as u32, pc, 0xEEB, 0, 8, d as u32,
        11, 1, 1, m0 as u32, 0, m as u32);
    lemma_word_fpu((0xEEBC_0B40 + d0 * 0x40_0000 + d * 0x1000 + m) as u32, pc, 0xEEB, d0 as u32,
        12, d as u32, 11, 0, 1, 0, 0, m as u32);
    lemma_word_fpu((0xEEBC_0BC0 + d0 * 0x40_0000 + d * 0x1000 + m) as u32, pc, 0xEEB, d0 as u32,
        12, d as u32, 11, 1, 1, 0, 0, m as u32);
    lemma_word_fpu((0xEEBD_0B40 + d0 * 0x40_0000 + d * 0x1000 + m) as u32, pc, 0xEEB, d0 as u32,
        13, d as u32, 11, 0, 1, 0, 0, m as u32);
    lemma_word_fpu((0xEEBD_0BC0 + d0 * 0x40_0000 + d * 0x1000 + m) as u32, pc, 0xEEB, d0 as u32,
        13, d as u32, 11, 1, 1, 0, 0, m as u32);
    lemma_word_fpu((0xEEB7_0BC0 + d0 * 0x40_0000 + d * 0x1000 + m) as u32, pc, 0xEEB, d0 as u32, 7,
        d as u32, 11, 1, 1, 0, 0, m as u32);
    lemma_word_fpu((0xEEB7_0AC0 + d * 0x1000 + m0 * 0x20 + m) as u32, pc, 0xEEB, 0, 7, d as u32,
        10, 1, 1, m0 as u32, 0, m as u32);
}

/// Conversions between single precision and fixed point of 16 or 32 bits, with an even
/// number of fraction bits: what is left of the width is written, halved.
#[verifier::spinoff_prover]
#[verifier::rlimit(60)]
pub proof fn law_fixed_conversion_encoding(d: u8, d0: u8, n: u8, pc: u32)
    requires
        d < 16,
        d0 < 2,
        n < 16,
    ensures
        n < 8 ==> decoded32((0xEEBA_0A40 + d0 * 0x40_0000 + d * 0x1000 + n) as u32, pc)
            == (Instruction::FpCvtFixed {
            vd: (2 * d + d0) as u8,
            fbits: (16 - 2 * n) as u8,
            width: 16,
            signed: true,
            to_float: true,
        }),
        decoded32((0xEEBA_0AC0 + d0 * 0x40_0000 + d * 0x1000 + n) as u32, pc)
            == (Instruction::FpCvtFixed {
            vd: (2 * d + d0) as u8,
            fbits: (32 - 2 * n) as u8,
            width: 32,
            signed: true,
            to_float: true,
        }),
        n < 8 ==> decoded32((0xEEBB_0A40 + d0 * 0x40_0000 + d * 0x1000 + n) as u32, pc)
            == (Instruction::FpCvtFixed {
            vd: (2 * d + d0) as u8,
            fbits: (16 - 2 * n) as u8,
            width: 16,
            signed: false,
            to_float: true,
        }),
        decoded32((0xEEBB_0AC0 + d0 * 0x40_0000 + d * 0x1000 + n) as u32, pc)
            == (Instruction::FpCvtFixed {
            vd: (2 * d + d0) as u8,
            fbits: (32 - 2 * n) as u8,
            width: 32,
            signed: false,
            to_float: true,
        }),
        n < 8 ==> decoded32((0xEEBE_0A40 + d0 * 0x40_0000 + d * 0x1000 + n) as u32, pc)
            == (Instruction::FpCvtFixed {
            vd: (2 * d + d0) as u8,
            fbits: (16 - 2 * n) as u8,
            width: 16,
            signed: true,
            to_float: false,
        }),
        decoded32((0xEEBE_0AC0 + d0 * 0x40_0000 + d * 0x1000 + n) as u32, pc)
            == (Instruction::FpCvtFixed {
            vd: (2 * d + d0) as u8,
            fbits: (32 - 2 * n) as u8,
            width: 32,
            signed: true,
            to_float: false,
        }),
        n < 8 ==> decoded32((0xEEBF_0A40 + d0 * 0x40_0000 + d * 0x1000 + n) as u32, pc)
            == (Instruction::FpCvtFixed {
            vd: (2 * d + d0) as u8,
            fbits: (16 - 2 * n) as u8,
            width: 16,
            signed: false,
            to_float: false,
        }),
        decoded32((0xEEBF_0AC0 + d0 * 0x40_0000 + d * 0x1000 + n) as u32, pc)
            == (Instruction::FpCvtFixed {
            vd: (2 * d + d0) as u8,
            fbits: (32 - 2 * n) as u8,
            width: 32,
            signed: false,
            to_float: false,
        }),
{
    if n < 8 {
        lemma_word_fpu((0xEEBA_0A40 + d0 * 0x40_0000 + d * 0x1000 + n) as u32, pc, 0xEEB,
            d0 as u32, 10, d as u32, 10, 0, 1, 0, 0, n as u32);
    }
    lemma_word_fpu((0xEEBA_0AC0 + d0 * 0x40_0000 + d * 0x1000 + n) as u32, pc, 0xEEB, d0 as u32,
        10, d as u32, 10, 1, 1, 0, 0, n as u32);
    if n < 8 {
        lemma_word_fpu((0xEEBB_0A40 + d0 * 0x40_0000 + d * 0x1000 + n) as u32, pc, 0xEEB,
            d0 as u32, 11, d as u32, 10, 0, 1, 0, 0, n as u32);
    }
    lemma_word_fpu((0xEEBB_0AC0 + d0 * 0x40_0000 + d * 0x1000 + n) as u32, pc, 0xEEB, d0 as u32,
        11, d as u32, 10, 1, 1, 0, 0, n as u32);
    if n < 8 {
        lemma_word_fpu((0xEEBE_0A40 + d0 * 0x40_0000 + d * 0x1000 + n) as u32, pc, 0xEEB,
            d0 as u32, 14, d as u32, 10, 0, 1, 0, 0, n as u32);
    }
    lemma_word_fpu((0xEEBE_0AC0 + d0 * 0x40_0000 + d * 0x1000 + n) as u32, pc, 0xEEB, d0 as u32,
        14, d as u32, 10, 1, 1, 0, 0, n as u32);
    if n < 8 {
        lemma_word_fpu((0xEEBF_0A40 + d0 * 0x40_0000 + d * 0x1000 + n) as u32, pc, 0xEEB,
            d0 as u32, 15, d as u32, 10, 0, 1, 0, 0, n as u32);
    }
    lemma_word_fpu((0xEEBF_0AC0 + d0 * 0x40_0000 + d * 0x1000 + n) as u32, pc, 0xEEB, d0 as u32,
        15, d as u32, 10, 1, 1, 0, 0, n as u32);
}

/// VMOV between a core register and a single precision register.
#[verifier::spinoff_prover]
#[verifier::rlimit(60)]
pub proof fn law_core_move_encoding(rt: u8, n: u8, n0: u8, pc: u32)
    requires
        rt < 16,
        n < 16,
        n0 < 2,
    ensures
        decoded32((0xEE00_0A10 + n * 0x1_0000 + rt * 0x1000 + n0 * 0x80) as u32, pc)
            == (Instruction::FpVmovCore { rt, sn: (2 * n + n0) as u8, to_core: false }),
        decoded32((0xEE10_0A10 + n * 0x1_0000 + rt * 0x1000 + n0 * 0x80) as u32, pc)
            == (Instruction::FpVmovCore { rt, sn: (2 * n + n0) as u8, to_core: true }),
{
    lemma_word_fpu((0xEE00_0A10 + n * 0x1_0000 + rt * 0x1000 + n0 * 0x80) as u32, pc, 0xEE0, 0,
        n as u32, rt as u32, 10, n0 as u32, 0, 0, 1, 0);
    lemma_word_fpu((0xEE10_0A10 + n * 0x1_0000 + rt * 0x1000 + n0 * 0x80) as u32, pc, 0xEE1, 0,
        n as u32, rt as u32, 10, n0 as u32, 0, 0, 1, 0);
}

/// Single precision VLDR and VSTR, with an offset in words above or below the base.
#[verifier::spinoff_prover]
#[verifier::rlimit(60)]
pub proof fn law_single_transfer_encoding(d: u8, d0: u8, rn: u8, n1: u8, n0: u8, pc: u32)
    requires
        d < 16,
        d0 < 2,
        rn < 16,
        n1 < 16,
        n0 < 16,
    ensures
        decoded32((0xED00_0A00 + d0 * 0x40_0000 + rn * 0x1_0000 + d * 0x1000 + n1 * 0x10
            + n0) as u32, pc) == (Instruction::FpLoadStore {
            rt: (2 * d + d0) as u8,
            rn,
            offset: (-4 * (n1 * 0x10 + n0) % 0x1_0000_0000) as u32,
            load: false,
            double: false,
        }),
        decoded32((0xED10_0A00 + d0 * 0x40_0000 + rn * 0x1_0000 + d * 0x1000 + n1 * 0x10
            + n0) as u32, pc) == (Instruction::FpLoadStore {
            rt: (2 * d + d0) as u8,
            rn,
            offset: (-4 * (n1 * 0x10 + n0) % 0x1_0000_0000) as u32,
            load: true,
            double: false,
        }),
        decoded32((0xED80_0A00 + d0 * 0x40_0000 + rn * 0x1_0000 + d * 0x1000 + n1 * 0x10
            + n0) as u32, pc) == (Instruction::FpLoadStore {
            rt: (2 * d + d0) as u8,
            rn,
            offset: (4 * (n1 * 0x10 + n0)) as u32,
            load: false,
            double: false,
        }),
        decoded32((0xED90_0A00 + d0 * 0x40_0000 + rn * 0x1_0000 + d * 0x1000 + n1 * 0x10
            + n0) as u32, pc) == (Instruction::FpLoadStore {
            rt: (2 * d + d0) as u8,
            rn,
            offset: (4 * (n1 * 0x10 + n0)) as u32,
            load: true,
            double: false,
        }),
{
    lemma_word_vldr((0xED00_0A00 + d0 * 0x40_0000 + rn * 0x1_0000 + d * 0x1000 + n1 * 0x10
        + n0) as u32, pc, (0xED0 + d0 * 4) as u32, rn as u32, d as u32, 10, n1 as u32, n0 as u32);
    lemma_word_vldr((0xED10_0A00 + d0 * 0x40_0000 + rn * 0x1_0000 + d * 0x1000 + n1 * 0x10
        + n0) as u32, pc, (0xED1 + d0 * 4) as u32, rn as u32, d as u32, 10, n1 as u32, n0 as u32);
    lemma_word_vldr((0xED80_0A00 + d0 * 0x40_0000 + rn * 0x1_0000 + d * 0x1000 + n1 * 0x10
        + n0) as u32, pc, (0xED8 + d0 * 4) as u32, rn as u32, d as u32, 10, n1 as u32, n0 as u32);
    lemma_word_vldr((0xED90_0A00 + d0 * 0x40_0000 + rn * 0x1_0000 + d * 0x1000 + n1 * 0x10
        + n0) as u32, pc, (0xED9 + d0 * 4) as u32, rn as u32, d as u32, 10, n1 as u32, n0 as u32);
}

/// Double precision VLDR and VSTR, with an offset in words above or below the base.
#[verifier::spinoff_prover]
#[verifier::rlimit(60)]
pub proof fn law_double_transfer_encoding(d: u8, rn: u8, n1: u8, n0: u8, pc: u32)
    requires
        d < 16,
        rn < 16,
        n1 < 16,
        n0 < 16,
    ensures
        decoded32((0xED00_0B00 + rn * 0x1_0000 + d * 0x1000 + n1 * 0x10 + n0) as u32, pc)
            == (Instruction::FpLoadStore {
            rt: d,
            rn,
            offset: (-4 * (n1 * 0x10 + n0) % 0x1_0000_0000) as u32,
            load: false,
            double: true,
        }),
        decoded32((0xED10_0B00 + rn * 0x1_0000 + d * 0x1000 + n1 * 0x10 + n0) as u32, pc)
            == (Instruction::FpLoadStore {
            rt: d,
            rn,
            offset: (-4 * (n1 * 0x10 + n0) % 0x1_0000_0000) as u32,
            load: true,
            double: true,
        }),
        decoded32((0xED80_0B00 + rn * 0x1_0000 + d * 0x1000 + n1 * 0x10 + n0) as u32, pc)
            == (Instruction::FpLoadStore {
            rt: d,
            rn,
            offset: (4 * (n1 * 0x10 + n0)) as u32,
            load: false,
            double: true,
        }),
        decoded32((0xED90_0B00 + rn * 0x1_0000 + d * 0x1000 + n1 * 0x10 + n0) as u32, pc)
            == (Instruction::FpLoadStore {
            rt: d,
            rn,
            offset: (4 * (n1 * 0x10 + n0)) as u32,
            load: true,
            double: true,
        }),
{
    lemma_word_vldr((0xED00_0B00 + rn * 0x1_0000 + d * 0x1000 + n1 * 0x10 + n0) as u32, pc, 0xED0,
        rn as u32, d as u32, 11, n1 as u32, n0 as u32);
    lemma_word_vldr((0xED10_0B00 + rn * 0x1_0000 + d * 0x1000 + n1 * 0x10 + n0) as u32, pc, 0xED1,
        rn as u32, d as u32, 11, n1 as u32, n0 as u32);
    lemma_word_vldr((0xED80_0B00 + rn * 0x1_0000 + d * 0x1000 + n1 * 0x10 + n0) as u32, pc, 0xED8,
        rn as u32, d as u32, 11, n1 as u32, n0 as u32);
    lemma_word_vldr((0xED90_0B00 + rn * 0x1_0000 + d * 0x1000 + n1 * 0x10 + n0) as u32, pc, 0xED9,
        rn as u32, d as u32, 11, n1 as u32, n0 as u32);
}

/// VLDM and VSTM, upwards from the base or downwards below it; a double precision register
/// counts twice.
#[verifier::spinoff_prover]
#[verifier::rlimit(60)]
pub proof fn law_float_list_encoding(d: u8, d0: u8, rn: u8, n1: u8, n0: u8, pc: u32)
    requires
        d < 16,
        d0 < 2,
        rn < 16,
        n1 < 16,
        n0 < 16,
    ensures
        decoded32((0xEC80_0A00 + d0 * 0x40_0000 + rn * 0x1_0000 + d * 0x1000 + n1 * 0x10
            + n0) as u32, pc) == (Instruction::FpLoadStoreMulti {
            vd: (2 * d + d0) as u8,
            rn,
            count: (n1 * 0x10 + n0) as u32,
            load: false,
            double: false,
            decrement: false,
            writeback: false,
        }),
        decoded32((0xEC90_0A00 + d0 * 0x40_0000 + rn * 0x1_0000 + d * 0x1000 + n1 * 0x10
            + n0) as u32, pc) == (Instruction::FpLoadStoreMulti {
            vd: (2 * d + d0) as u8,
            rn,
            count: (n1 * 0x10 + n0) as u32,
            load: true,
            double: false,
            decrement: false,
            writeback: false,
        }),
        decoded32((0xECA0_0A00 + d0 * 0x40_0000 + rn * 0x1_0000 + d * 0x1000 + n1 * 0x10
            + n0) as u32, pc) == (Instruction::FpLoadStoreMulti {
            vd: (2 * d + d0) as u8,
            rn,
            count: (n1 * 0x10 + n0) as u32,
            load: false,
            double: false,
            decrement: false,
            writeback: true,
        }),
        decoded32((0xECB0_0A00 + d0 * 0x40_0000 + rn * 0x1_0000 + d * 0x1000 + n1 * 0x10
            + n0) as u32, pc) == (Instruction::FpLoadStoreMulti {
            vd: (2 * d + d0) as u8,
            rn,
            count: (n1 * 0x10 + n0) as u32,
            load: true,
            double: false,
            decrement: false,
            writeback: true,
        }),
        decoded32((0xED20_0A00 + d0 * 0x40_0000 + rn * 0x1_0000 + d * 0x1000 + n1 * 0x10
            + n0) as u32, pc) == (Instruction::FpLoadStoreMulti {
            vd: (2 * d + d0) as u8,
            rn,
            count: (n1 * 0x10 + n0) as u32,
            load: false,
            double: false,
            decrement: true,
            writeback: true,
        }),
        decoded32((0xED30_0A00 + d0 * 0x40_0000 + rn * 0x1_0000 + d * 0x1000 + n1 * 0x10
            + n0) as u32, pc) == (Instruction::FpLoadStoreMulti {
            vd: (2 * d + d0) as u8,
            rn,
            count: (n1 * 0x10 + n0) as u32,
            load: true,
            double: false,
            decrement: true,
            writeback: true,
        }),
        n0 < 8 ==> decoded32((0xEC80_0B00 + rn * 0x1_0000 + d * 0x1000 + n1 * 0x10
            + n0 * 2) as u32, pc) == (Instruction::FpLoadStoreMulti {
            vd: d,
            rn,
            count: (n1 * 8 + n0) as u32,
            load: false,
            double: true,
            decrement: false,
            writeback: false,
        }),
        n0 < 8 ==> decoded32((0xEC90_0B00 + rn * 0x1_0000 + d * 0x1000 + n1 * 0x10
            + n0 * 2) as u32, pc) == (Instruction::FpLoadStoreMulti {
            vd: d,
            rn,
            count: (n1 * 8 + n0) as u32,
            load: true,
            double: true,
            decrement: false,
            writeback: false,
        }),
        n0 < 8 ==> decoded32((0xECA0_0B00 + rn * 0x1_0000 + d * 0x1000 + n1 * 0x10
            + n0 * 2) as u32, pc) == (Instruction::FpLoadStoreMulti {
            vd: d,
            rn,
            count: (n1 * 8 + n0) as u32,
            load: false,
            double: true,
            decrement: false,
            writeback: true,
        }),
        n0 < 8 ==> decoded32((0xECB0_0B00 + rn * 0x1_0000 + d * 0x1000 + n1 * 0x10
            + n0 * 2) as u32, pc) == (Instruction::FpLoadStoreMulti {
            vd: d,
            rn,
            count: (n1 * 8 + n0) as u32,
            load: true,
            double: true,
            decrement: false,
            writeback: true,
        }),
        n0 < 8 ==> decoded32((0xED20_0B00 + rn * 0x1_0000 + d * 0x1000 + n1 * 0x10
            + n0 * 2) as u32, pc) == (Instruction::FpLoadStoreMulti {
            vd: d,
            rn,
            count: (n1 * 8 + n0) as u32,
            load: false,
            double: true,
            decrement: true,
            writeback: true,
        }),
        n0 < 8 ==> decoded32((0xED30_0B00 + rn * 0x1_0000 + d * 0x1000 + n1 * 0x10
            + n0 * 2) as u32, pc) == (Instruction::FpLoadStoreMulti {
            vd: d,
            rn,
            count: (n1 * 8 + n0) as u32,
            load: true,
            double: true,
            decrement: true,
            writeback: true,
        }),
{
    lemma_word_vldm((0xEC80_0A00 + d0 * 0x40_0000 + rn * 0x1_0000 + d * 0x1000 + n1 * 0x10
        + n0) as u32, pc, (0xEC8 + d0 * 4) as u32, rn as u32, d as u32, 10, n1 as u32, n0 as u32);
    lemma_word_vldm((0xEC90_0A00 + d0 * 0x40_0000 + rn * 0x1_0000 + d * 0x1000 + n1 * 0x10
        + n0) as u32, pc, (0xEC9 + d0 * 4) as u32, rn as u32, d as u32, 10, n1 as u32, n0 as u32);
    lemma_word_vldm((0xECA0_0A00 + d0 * 0x40_0000 + rn * 0x1_0000 + d * 0x1000 + n1 * 0x10
        + n0) as u32, pc, (0xECA + d0 * 4) as u32, rn as u32, d as u32, 10, n1 as u32, n0 as u32);
    lemma_word_vldm((0xECB0_0A00 + d0 * 0x40_0000 + rn * 0x1_0000 + d * 0x1000 + n1 * 0x10
        + n0) as u32, pc, (0xECB + d0 * 4) as u32, rn as u32, d as u32, 10, n1 as u32, n0 as u32);
    lemma_word_vldm((0xED20_0A00 + d0 * 0x40_0000 + rn * 0x1_0000 + d * 0x1000 + n1 * 0x10
        + n0) as u32, pc, (0xED2 + d0 * 4) as u32, rn as u32, d as u32, 10, n1 as u32, n0 as u32);
    lemma_word_vldm((0xED30_0A00 + d0 * 0x40_0000 + rn * 0x1_0000 + d * 0x1000 + n1 * 0x10
        + n0) as u32, pc, (0xED3 + d0 * 4) as u32, rn as u32, d as u32, 10, n1 as u32, n0 as u32);
    if n0 < 8 {
        lemma_word_vldm((0xEC80_0B00 + rn * 0x1_0000 + d * 0x1000 + n1 * 0x10 + n0 * 2) as u32, pc,
            0xEC8, rn as u32, d as u32, 11, n1 as u32, (n0 * 2) as u32);
    }
    if n0 < 8 {
        lemma_word_vldm((0xEC90_0B00 + rn * 0x1_0000 + d * 0x1000 + n1 * 0x10 + n0 * 2) as u32, pc,
            0xEC9, rn as u32, d as u32, 11, n1 as u32, (n0 * 2) as u32);
    }
    if n0 < 8 {
        lemma_word_vldm((0xECA0_0B00 + rn * 0x1_0000 + d * 0x1000 + n1 * 0x10 + n0 * 2) as u32, pc,
            0xECA, rn as u32, d as u32, 11, n1 as u32, (n0 * 2) as u32);
    }
    if n0 < 8 {
        lemma_word_vldm((0xECB0_0B00 + rn * 0x1_0000 + d * 0x1000 + n1 * 0x10 + n0 * 2) as u32, pc,
            0xECB, rn as u32, d as u32, 11, n1 as u32, (n0 * 2) as u32);
    }
    if n0 < 8 {
        lemma_word_vldm((0xED20_0B00 + rn * 0x1_0000 + d * 0x1000 + n1 * 0x10 + n0 * 2) as u32, pc,
            0xED2, rn as u32, d as u32, 11, n1 as u32, (n0 * 2) as u32);
    }
    if n0 < 8 {
        lemma_word_vldm((0xED30_0B00 + rn * 0x1_0000 + d * 0x1000 + n1 * 0x10 + n0 * 2) as u32, pc,
            0xED3, rn as u32, d as u32, 11, n1 as u32, (n0 * 2) as u32);
    }
}

/// VMOV of a constant of eight bits. The encodings whose first digit has bits 1 and 3 set
/// are taken by conversions.
#[verifier::spinoff_prover]
#[verifier::rlimit(60)]
pub proof fn law_float_immediate_encoding(d: u8, d0: u8, v1: u8, v0: u8, pc: u32)
    requires
        d < 16,
        d0 < 2,
        v1 < 16,
        v0 < 16,
        !(v1 / 8 == 1 && v1 / 2 % 2 == 1),
    ensures
        decoded32((0xEEB0_0A00 + d0 * 0x40_0000 + v1 * 0x1_0000 + d * 0x1000 + v0) as u32, pc)
            == (Instruction::FpVmovImm {
            sd: (2 * d + d0) as u8,
            imm: vfp_imm((v1 * 0x10 + v0) as u8, false),
            double: false,
        }),
        decoded32((0xEEB0_0B00 + v1 * 0x1_0000 + d * 0x1000 + v0) as u32, pc)
            == (Instruction::FpVmovImm {
            sd: d,
            imm: vfp_imm((v1 * 0x10 + v0) as u8, true),
            double: true,
        }),
{
    lemma_word_fpu((0xEEB0_0A00 + d0 * 0x40_0000 + v1 * 0x1_0000 + d * 0x1000 + v0) as u32, pc,
        0xEEB, d0 as u32, v1 as u32, d as u32, 10, 0, 0, 0, 0, v0 as u32);
    lemma_word_fpu((0xEEB0_0B00 + v1 * 0x1_0000 + d * 0x1000 + v0) as u32, pc, 0xEEB, 0, v1 as u32,
        d as u32, 11, 0, 0, 0, 0, v0 as u32);
}

proof fn lemma_digits(v: u16)
    by (bit_vector)
    ensures
        v % 0x100 == v / 0x10 % 16 * 0x10 + v % 16,
        v == v / 0x1000 * 0x1000 + v / 0x800 % 2 * 0x800 + v / 0x100 % 8 * 0x100 + v % 0x100,
{
}

/// MOVW and MOVT of a constant: its top digit stands in the first halfword, the next bit
/// apart, and the rest in the second halfword.
#[verifier::spinoff_prover]
#[verifier::rlimit(60)]
pub proof fn law_wide_move_encoding(rd: u8, v: u16, pc: u32)
    requires
        rd < 16,
    ensures
        ({
            let fields = v / 0x800 % 2 * 0x400_0000 + v / 0x1000 * 0x1_0000 + v / 0x100 % 8 * 0x1000
                + rd * 0x100 + v % 0x100;
            &&& decoded32((0xF240_0000 + fields) as u32, pc) == (Instruction::MovImm32 {
                rd,
                imm16: v,
                top: false,
            })
            &&& decoded32((0xF2C0_0000 + fields) as u32, pc) == (Instruction::MovImm32 {
                rd,
                imm16: v,
                top: true,
            })
        }),
{
    let (v3, v2) = ((v / 0x1000) as u8, (v / 0x100 % 8) as u8);
    let (v1, v0) = ((v / 0x10 % 16) as u8, (v % 16) as u8);
    law_wide_move_parts(rd, v3, v2, v1, v0, pc);
    lemma_digits(v);
}

} // verus!
