//! What multiplications, divisions, bit operations and packed arithmetic compute, as
//! numbers: each is executed outside an IT block, and its result is compared with its
//! operands.
use crate::cpu::CpuState;
use crate::engine::alu;
use crate::engine::decode::{
    BitFieldKind, DspShiftKind, ExtendKind, Instruction, QAddKind, RevKind, Simd16Kind, SpecialReg,
};
use crate::engine::dsp;
use crate::engine::exec::{data_step, effect, media_step, ExecOutcome, Executor};
use crate::engine::integer_laws::{done, lemma_shl, reading, same_rest, writes_only};
use crate::engine::media;
use crate::memory::MemoryModel;
use vstd::arithmetic::power2::pow2;
use vstd::prelude::*;

verus! {

/// Such an instruction outside an IT block has the effect of its group.
proof fn lemma_media(e: Executor, cpu: CpuState, mem: MemoryModel, instr: Instruction)
    requires
        e.it_remaining == 0,
        media_step(cpu, instr) is Some,
    ensures
        done(e, cpu, mem, instr).outcome == ExecOutcome::Continue,
        done(e, cpu, mem, instr).mem == mem,
        done(e, cpu, mem, instr).cpu == media_step(cpu, instr)->Some_0,
{
    reveal(Executor::executed);
    reveal(Executor::passed);
    reveal(effect);
    reveal(data_step);
    reveal(media_step);
}

proof fn lemma_data(e: Executor, cpu: CpuState, mem: MemoryModel, instr: Instruction)
    requires
        e.it_remaining == 0,
        data_step(cpu, false, instr) is Some,
    ensures
        done(e, cpu, mem, instr).outcome == ExecOutcome::Continue,
        done(e, cpu, mem, instr).mem == mem,
        done(e, cpu, mem, instr).cpu == data_step(cpu, false, instr)->Some_0,
{
    reveal(Executor::executed);
    reveal(Executor::passed);
    reveal(effect);
    reveal(data_step);
}

/// MUL, MLA and MLS agree with the product, the sum and the difference modulo 2^32.
pub proof fn law_multiply(
    e: Executor,
    cpu: CpuState,
    mem: MemoryModel,
    rd: u8,
    rn: u8,
    rm: u8,
    ra: u8,
)
    requires
        e.it_remaining == 0,
        rd < 16,
        rn < 16,
        rm < 16,
        ra < 16,
    ensures
        ({
            let p = cpu.regs[rn as int] * cpu.regs[rm as int];
            let acc = cpu.regs[ra as int];
            let mul = done(e, cpu, mem, Instruction::Mul { rd, rn, rm, flags: false });
            let mla = done(e, cpu, mem, Instruction::Mla { rd, rn, rm, ra, sub: false });
            let mls = done(e, cpu, mem, Instruction::Mla { rd, rn, rm, ra, sub: true });
            &&& (mul.cpu.regs[rd as int] - p) % 0x1_0000_0000 == 0
            &&& (mla.cpu.regs[rd as int] - (acc + p)) % 0x1_0000_0000 == 0
            &&& (mls.cpu.regs[rd as int] - (acc - p)) % 0x1_0000_0000 == 0
            &&& writes_only(mul, cpu, mem, rd) && mul.cpu.xpsr == cpu.xpsr
            &&& writes_only(mla, cpu, mem, rd) && mla.cpu.xpsr == cpu.xpsr
            &&& writes_only(mls, cpu, mem, rd) && mls.cpu.xpsr == cpu.xpsr
        }),
{
    reveal(data_step);
    reveal(media_step);
    lemma_data(e, cpu, mem, Instruction::Mul { rd, rn, rm, flags: false });
    lemma_media(e, cpu, mem, Instruction::Mla { rd, rn, rm, ra, sub: false });
    lemma_media(e, cpu, mem, Instruction::Mla { rd, rn, rm, ra, sub: true });
}

/// UMULL, SMULL, UMLAL and SMLAL: the two words together agree with the product of the
/// factors, signed or not, and with what the pair held before, modulo 2^64.
pub proof fn law_long_multiply(
    e: Executor,
    cpu: CpuState,
    mem: MemoryModel,
    rdlo: u8,
    rdhi: u8,
    rn: u8,
    rm: u8,
    signed: bool,
    accumulate: bool,
)
    requires
        e.it_remaining == 0,
        rdlo < 16,
        rdhi < 16,
        rdlo != rdhi,
        rn < 16,
        rm < 16,
    ensures
        ({
            let (a, b) = (cpu.regs[rn as int], cpu.regs[rm as int]);
            let p = if signed { reading(a) * reading(b) } else { a * b };
            let before = if accumulate {
                cpu.regs[rdlo as int] + 0x1_0000_0000 * cpu.regs[rdhi as int]
            } else {
                0
            };
            let r = done(
                e,
                cpu,
                mem,
                Instruction::MullLong { rdlo, rdhi, rn, rm, signed, accumulate },
            );
            let after = r.cpu.regs[rdlo as int] + 0x1_0000_0000 * r.cpu.regs[rdhi as int];
            &&& (after - (before + p)) % 0x1_0000_0000_0000_0000 == 0
            &&& r.outcome == ExecOutcome::Continue
            &&& r.mem == mem
            &&& r.cpu.xpsr == cpu.xpsr
            &&& same_rest(r.cpu, cpu)
            &&& forall|i: int|
                0 <= i < 16 && i != rdlo && i != rdhi ==> #[trigger] r.cpu.regs[i] == cpu.regs[i]
        }),
{
    reveal(data_step);
    lemma_data(e, cpu, mem, Instruction::MullLong { rdlo, rdhi, rn, rm, signed, accumulate });
}

/// UDIV gives the largest quotient that fits into the dividend, and 0 for a divisor of 0.
pub proof fn law_unsigned_division(
    e: Executor,
    cpu: CpuState,
    mem: MemoryModel,
    rd: u8,
    rn: u8,
    rm: u8,
)
    requires
        e.it_remaining == 0,
        rd < 16,
        rn < 16,
        rm < 16,
    ensures
        ({
            let (a, b) = (cpu.regs[rn as int], cpu.regs[rm as int]);
            let r = done(e, cpu, mem, Instruction::Udiv { rd, rn, rm });
            let q = r.cpu.regs[rd as int];
            &&& b == 0 ==> q == 0
            &&& b != 0 ==> q * b <= a < (q + 1) * b
            &&& writes_only(r, cpu, mem, rd)
            &&& r.cpu.xpsr == cpu.xpsr
        }),
{
    reveal(data_step);
    lemma_data(e, cpu, mem, Instruction::Udiv { rd, rn, rm });
    let (a, b) = (cpu.regs[rn as int] as int, cpu.regs[rm as int] as int);
    if b != 0 {
        let q = a / b;
        assert(q * b <= a < (q + 1) * b) by (nonlinear_arith)
            requires
                q == a / b,
                b > 0,
        ;
    }
}

/// SDIV leaves a remainder that is smaller than the divisor and has the sign of the
/// dividend. A divisor of 0 gives 0, and -2^31 divided by -1 is -2^31.
#[verifier::spinoff_prover]
pub proof fn law_signed_division(
    e: Executor,
    cpu: CpuState,
    mem: MemoryModel,
    rd: u8,
    rn: u8,
    rm: u8,
)
    requires
        e.it_remaining == 0,
        rd < 16,
        rn < 16,
        rm < 16,
    ensures
        ({
            let (a, b) = (reading(cpu.regs[rn as int]), reading(cpu.regs[rm as int]));
            let r = done(e, cpu, mem, Instruction::Sdiv { rd, rn, rm });
            let q = reading(r.cpu.regs[rd as int]);
            let rest = a - q * b;
            &&& b == 0 ==> q == 0
            &&& b == -1 && a == -0x8000_0000 ==> q == a
            &&& b != 0 && !(b == -1 && a == -0x8000_0000) ==> {
                &&& -alu::abs(b) < rest < alu::abs(b)
                &&& a >= 0 ==> rest >= 0
                &&& a <= 0 ==> rest <= 0
            }
            &&& writes_only(r, cpu, mem, rd)
            &&& r.cpu.xpsr == cpu.xpsr
        }),
{
    reveal(data_step);
    lemma_data(e, cpu, mem, Instruction::Sdiv { rd, rn, rm });
    let (a, b) = (reading(cpu.regs[rn as int]), reading(cpu.regs[rm as int]));
    if b != 0 {
        let (x, y) = (alu::abs(a) as int, alu::abs(b) as int);
        let k = x / y;
        assert(0 <= x - k * y < y && 0 <= k <= x && (y >= 2 && x > 0 ==> k < x)) by (nonlinear_arith)
            requires
                k == x / y,
                y > 0,
                x >= 0,
        ;
        assert(k * y == (-k) * (-y) && (-k) * y == -(k * y) && k * (-y) == -(k * y))
            by (nonlinear_arith);
        if b == -1 && a == -0x8000_0000 {
            assert(k == 0x8000_0000) by (nonlinear_arith)
                requires
                    k == x / y,
                    x == 0x8000_0000,
                    y == 1,
            ;
        } else {
            assert(k <= 0x7FFF_FFFF || (a < 0) != (b < 0)) by (nonlinear_arith)
                requires
                    k == x / y,
                    y > 0,
                    0 <= x <= 0x8000_0000,
                    y == 1 && b < 0 ==> a != -0x8000_0000,
                    x == (if a < 0 { -a } else { a }),
                    y == (if b < 0 { -b } else { b }),
                    a <= 0x7FFF_FFFF,
                    y >= 2 && x > 0 ==> k < x,
                    k <= x,
            ;
        }
    }
}

proof fn lemma_leading(x: u32)
    ensures
        x == 0 ==> alu::clz(x) == 32,
        x > 0 ==> 0 <= alu::clz(x) <= 31,
        x > 0 ==> pow2((31 - alu::clz(x)) as nat) <= x < pow2((32 - alu::clz(x)) as nat),
    decreases x,
{
    vstd::arithmetic::power2::lemma2_to64();
    if x > 0 {
        lemma_leading(x / 2);
        let n = alu::clz(x);
        assert(n == alu::clz(x / 2) - 1);
        if x / 2 > 0 {
            if n < 0 {
                assert(x / 2 >= pow2(31));
            }
            vstd::arithmetic::power2::lemma_pow2_unfold((31 - n) as nat);
            vstd::arithmetic::power2::lemma_pow2_unfold((32 - n) as nat);
        } else {
            assert(n == 31);
        }
    }
}

/// CLZ counts the zeros above the highest set bit: a word with `n` of them is at least
/// 2^(31 - n) and less than 2^(32 - n). Zero has 32.
pub proof fn law_leading_zeros(e: Executor, cpu: CpuState, mem: MemoryModel, rd: u8, rm: u8)
    requires
        e.it_remaining == 0,
        rd < 16,
        rm < 16,
    ensures
        ({
            let x = cpu.regs[rm as int];
            let r = done(e, cpu, mem, Instruction::Clz { rd, rm });
            let n = r.cpu.regs[rd as int];
            &&& x == 0 ==> n == 32
            &&& x > 0 ==> n <= 31 && pow2((31 - n) as nat) <= x < pow2((32 - n) as nat)
            &&& writes_only(r, cpu, mem, rd)
            &&& r.cpu.xpsr == cpu.xpsr
        }),
{
    reveal(media_step);
    lemma_media(e, cpu, mem, Instruction::Clz { rd, rm });
    lemma_leading(cpu.regs[rm as int]);
}

proof fn lemma_reversed(x: int, n: nat, i: nat)
    requires
        x >= 0,
    ensures
        0 <= alu::reversed(x, n) < pow2(n),
        i < n ==> alu::reversed(x, n) / pow2((n - 1 - i) as nat) as int % 2 == x / pow2(i) as int % 2,
    decreases n,
{
    vstd::arithmetic::power2::lemma2_to64();
    if n > 0 {
        let m = (n - 1) as nat;
        lemma_reversed(x / 2, m, if i == 0 { 0 } else { (i - 1) as nat });
        vstd::arithmetic::power2::lemma_pow2_unfold(n);
        let p = pow2(m) as int;
        let b = x % 2;
        let rest = alu::reversed(x / 2, m);
        assert(0 <= b * p + rest < 2 * p) by (nonlinear_arith)
            requires
                0 <= b <= 1,
                0 <= rest < p,
        ;
        if i == 0 {
            assert((b * p + rest) / p == b) by {
                vstd::arithmetic::div_mod::lemma_fundamental_div_mod_converse(
                    b * p + rest,
                    p,
                    b,
                    rest,
                );
            }
        } else if i < n {
            let q = pow2((n - 1 - i) as nat) as int;
            let h = pow2((i - 1) as nat) as int;
            vstd::arithmetic::power2::lemma_pow2_unfold(i);
            vstd::arithmetic::power2::lemma_pow2_pos((n - 1 - i) as nat);
            vstd::arithmetic::power2::lemma_pow2_pos((i - 1) as nat);
            vstd::arithmetic::power2::lemma_pow2_adds((n - 1 - i) as nat, i);
            assert(p == q * pow2(i));
            assert(b * p == q * (b * (2 * h))) by (nonlinear_arith)
                requires
                    p == q * (2 * h),
            ;
            vstd::arithmetic::div_mod::lemma_hoist_over_denominator(rest, b * (2 * h), q as nat);
            assert((b * p + rest) / q == rest / q + b * (2 * h));
            assert(b * (2 * h) == 2 * (b * h)) by (nonlinear_arith);
            assert((rest / q + 2 * (b * h)) % 2 == rest / q % 2);
            vstd::arithmetic::div_mod::lemma_div_denominator(x, 2, h);
        }
    }
}

/// RBIT: bit `i` of the operand is bit `31 - i` of the result.
pub proof fn law_reversed_bits(
    e: Executor,
    cpu: CpuState,
    mem: MemoryModel,
    rd: u8,
    rm: u8,
    i: nat,
)
    requires
        e.it_remaining == 0,
        rd < 16,
        rm < 16,
        i < 32,
    ensures
        ({
            let r = done(e, cpu, mem, Instruction::Rbit { rd, rm });
            &&& r.cpu.regs[rd as int] as int / pow2((31 - i) as nat) as int % 2
                == cpu.regs[rm as int] as int / pow2(i) as int % 2
            &&& writes_only(r, cpu, mem, rd)
            &&& r.cpu.xpsr == cpu.xpsr
        }),
{
    reveal(media_step);
    vstd::arithmetic::power2::lemma2_to64();
    lemma_media(e, cpu, mem, Instruction::Rbit { rd, rm });
    lemma_reversed(cpu.regs[rm as int] as int, 32, i);
}

/// The word with four bytes, the lowest first.
pub open spec fn of_bytes(b0: u8, b1: u8, b2: u8, b3: u8) -> u32 {
    (b0 + 0x100 * b1 + 0x1_0000 * b2 + 0x100_0000 * b3) as u32
}

proof fn lemma_word_bytes(b0: u8, b1: u8, b2: u8, b3: u8)
    ensures
        of_bytes(b0, b1, b2, b3) == b0 + 0x100 * b1 + 0x1_0000 * b2 + 0x100_0000 * b3,
        of_bytes(b0, b1, b2, b3) % 0x100 == b0,
        of_bytes(b0, b1, b2, b3) / 0x100 % 0x100 == b1,
        of_bytes(b0, b1, b2, b3) / 0x1_0000 % 0x100 == b2,
        of_bytes(b0, b1, b2, b3) / 0x100_0000 == b3,
{
    let v = b0 + 0x100 * b1 + 0x1_0000 * b2 + 0x100_0000 * b3;
    assert(v / 0x100 == b1 + 0x100 * b2 + 0x1_0000 * b3);
    assert(v / 0x1_0000 == b2 + 0x100 * b3);
}

/// REV turns the four bytes of a word around, REV16 those of each half, and REVSH those of
/// the low half, which it then reads as a signed number.
pub proof fn law_reversed_bytes(
    e: Executor,
    cpu: CpuState,
    mem: MemoryModel,
    rd: u8,
    rm: u8,
    b0: u8,
    b1: u8,
    b2: u8,
    b3: u8,
)
    requires
        e.it_remaining == 0,
        rd < 16,
        rm < 16,
        cpu.regs[rm as int] == of_bytes(b0, b1, b2, b3),
    ensures
        ({
            let rev = done(e, cpu, mem, Instruction::Rev { rd, rm, kind: RevKind::Rev });
            let rev16 = done(e, cpu, mem, Instruction::Rev { rd, rm, kind: RevKind::Rev16 });
            let revsh = done(e, cpu, mem, Instruction::Rev { rd, rm, kind: RevKind::RevSh });
            let top: u8 = if b0 < 0x80 { 0 } else { 0xFF };
            &&& rev.cpu.regs[rd as int] == of_bytes(b3, b2, b1, b0)
            &&& rev16.cpu.regs[rd as int] == of_bytes(b1, b0, b3, b2)
            &&& revsh.cpu.regs[rd as int] == of_bytes(b1, b0, top, top)
            &&& writes_only(rev, cpu, mem, rd) && rev.cpu.xpsr == cpu.xpsr
            &&& writes_only(rev16, cpu, mem, rd) && rev16.cpu.xpsr == cpu.xpsr
            &&& writes_only(revsh, cpu, mem, rd) && revsh.cpu.xpsr == cpu.xpsr
        }),
{
    reveal(media_step);
    lemma_media(e, cpu, mem, Instruction::Rev { rd, rm, kind: RevKind::Rev });
    lemma_media(e, cpu, mem, Instruction::Rev { rd, rm, kind: RevKind::Rev16 });
    lemma_media(e, cpu, mem, Instruction::Rev { rd, rm, kind: RevKind::RevSh });
    lemma_word_bytes(b0, b1, b2, b3);
    lemma_word_bytes(b3, b2, b1, b0);
    lemma_word_bytes(b1, b0, b3, b2);
    let top: u8 = if b0 < 0x80 { 0 } else { 0xFF };
    lemma_word_bytes(b1, b0, top, top);
    let h = b0 * 0x100 + b1;
    assert(h % 0x1_0000 == h);
}

/// UXTB and UXTH keep the low byte or half of a word; SXTB and SXTH fill the rest with its
/// highest bit.
pub proof fn law_extensions(
    e: Executor,
    cpu: CpuState,
    mem: MemoryModel,
    rd: u8,
    rm: u8,
    b0: u8,
    b1: u8,
    b2: u8,
    b3: u8,
)
    requires
        e.it_remaining == 0,
        rd < 16,
        rm < 16,
        cpu.regs[rm as int] == of_bytes(b0, b1, b2, b3),
    ensures
        ({
            let uxtb = done(e, cpu, mem, Instruction::Extend { rd, rm, kind: ExtendKind::Uxtb });
            let uxth = done(e, cpu, mem, Instruction::Extend { rd, rm, kind: ExtendKind::Uxth });
            let sxtb = done(e, cpu, mem, Instruction::Extend { rd, rm, kind: ExtendKind::Sxtb });
            let sxth = done(e, cpu, mem, Instruction::Extend { rd, rm, kind: ExtendKind::Sxth });
            let t0: u8 = if b0 < 0x80 { 0 } else { 0xFF };
            let t1: u8 = if b1 < 0x80 { 0 } else { 0xFF };
            &&& uxtb.cpu.regs[rd as int] == b0
            &&& uxth.cpu.regs[rd as int] == of_bytes(b0, b1, 0, 0)
            &&& sxtb.cpu.regs[rd as int] == of_bytes(b0, t0, t0, t0)
            &&& sxth.cpu.regs[rd as int] == of_bytes(b0, b1, t1, t1)
            &&& writes_only(uxtb, cpu, mem, rd) && uxtb.cpu.xpsr == cpu.xpsr
            &&& writes_only(uxth, cpu, mem, rd) && uxth.cpu.xpsr == cpu.xpsr
            &&& writes_only(sxtb, cpu, mem, rd) && sxtb.cpu.xpsr == cpu.xpsr
            &&& writes_only(sxth, cpu, mem, rd) && sxth.cpu.xpsr == cpu.xpsr
        }),
{
    reveal(media_step);
    lemma_media(e, cpu, mem, Instruction::Extend { rd, rm, kind: ExtendKind::Uxtb });
    lemma_media(e, cpu, mem, Instruction::Extend { rd, rm, kind: ExtendKind::Uxth });
    lemma_media(e, cpu, mem, Instruction::Extend { rd, rm, kind: ExtendKind::Sxtb });
    lemma_media(e, cpu, mem, Instruction::Extend { rd, rm, kind: ExtendKind::Sxth });
}

/// Bit `i` of a word.
pub open spec fn has_bit(x: u32, i: u8) -> bool {
    (x >> i) & 1 == 1
}

proof fn lemma_field_bits(d: u32, s: u32, lsb: u8, width: u8, i: u8)
    by (bit_vector)
    requires
        lsb < 32,
        1 <= width,
        lsb + width <= 32,
        i < 32,
    ensures
        has_bit(alu::bit_field(d, s, lsb, width, BitFieldKind::Ubfx), i) == (i < width && has_bit(
            s >> lsb,
            i,
        )),
        has_bit(alu::bit_field(d, s, lsb, width, BitFieldKind::Sbfx), i) == has_bit(
            s >> lsb,
            if i < width { i } else { (width - 1) as u8 },
        ),
        has_bit(alu::bit_field(d, s, lsb, width, BitFieldKind::Bfi), i) == if lsb <= i && i < lsb
            + width {
            has_bit(s, (i - lsb) as u8)
        } else {
            has_bit(d, i)
        },
        has_bit(alu::bit_field(d, s, lsb, width, BitFieldKind::Bfc), i) == (has_bit(d, i) && !(lsb
            <= i && i < lsb + width)),
        i < 32 - lsb ==> has_bit(s >> lsb, i) == has_bit(s, (i + lsb) as u8),
{
}

/// The bits of a field: UBFX and SBFX bring it down to bit 0, above it zeros or copies of
/// its highest bit; BFI puts the low bits of Rn into Rd, and BFC zeros, and both leave the
/// other bits of Rd.
pub proof fn law_bit_fields(
    e: Executor,
    cpu: CpuState,
    mem: MemoryModel,
    rd: u8,
    rn: u8,
    lsb: u8,
    width: u8,
    kind: BitFieldKind,
    i: u8,
)
    requires
        e.it_remaining == 0,
        rd < 16,
        rn < 16,
        lsb < 32,
        1 <= width,
        lsb + width <= 32,
        i < 32,
    ensures
        ({
            let r = done(e, cpu, mem, Instruction::BitField { rd, rn, lsb, width, kind });
            let (d, s) = (cpu.regs[rd as int], cpu.regs[rn as int]);
            let inside = lsb <= i && i < lsb + width;
            &&& has_bit(r.cpu.regs[rd as int], i) == match kind {
                BitFieldKind::Ubfx => i < width && has_bit(s, (lsb + i) as u8),
                BitFieldKind::Sbfx => has_bit(
                    s,
                    if i < width { (lsb + i) as u8 } else { (lsb + width - 1) as u8 },
                ),
                BitFieldKind::Bfi => if inside { has_bit(s, (i - lsb) as u8) } else { has_bit(d, i) },
                BitFieldKind::Bfc => !inside && has_bit(d, i),
            }
            &&& writes_only(r, cpu, mem, rd)
            &&& r.cpu.xpsr == cpu.xpsr
        }),
{
    reveal(media_step);
    lemma_media(e, cpu, mem, Instruction::BitField { rd, rn, lsb, width, kind });
    let (d, s) = (cpu.regs[rd as int], cpu.regs[rn as int]);
    lemma_field_bits(d, s, lsb, width, i);
    lemma_field_bits(d, s, lsb, width, (width - 1) as u8);
}

/// The status bits after Q, the GE bits or other bits of the status word were written.
proof fn lemma_status(x: u32, v: u32, m: u32, g: u32)
    by (bit_vector)
    ensures
        ({
            let y = (x & !m) | (v & m);
            &&& y & m == v & m
            &&& y & !m == x & !m
        }),
        (x | 0x0800_0000) & 0x0800_0000 != 0,
        (x | 0x0800_0000) & 0xF7FF_FFFF == x & 0xF7FF_FFFF,
        g < 16 ==> ({
            let y = (x & !0x000F_0000u32) | ((g << 16u32) & 0x000F_0000u32);
            &&& y & 0xFFF0_FFFF == x & 0xFFF0_FFFF
            &&& (y & 0x0001_0000 != 0) == (g % 2 == 1)
            &&& (y & 0x0002_0000 != 0) == (g / 2 % 2 == 1)
            &&& (y & 0x0004_0000 != 0) == (g / 4 % 2 == 1)
            &&& (y & 0x0008_0000 != 0) == (g / 8 == 1)
        }),
        g < 4 ==> ({
            let y = (x & !0x0003_0000u32) | ((g << 16u32) & 0x0003_0000u32);
            &&& y & 0xFFFC_FFFF == x & 0xFFFC_FFFF
            &&& (y & 0x0001_0000 != 0) == (g % 2 == 1)
            &&& (y & 0x0002_0000 != 0) == (g / 2 % 2 == 1)
        }),
{
}

/// A result that had to fit into the range from `lo` to `hi`: the number itself, or the
/// end of the range that it lies beyond. Q is set where the number did not fit, and stays
/// as it was where it did.
pub open spec fn fitted(y: int, x: int, lo: int, hi: int) -> bool {
    &&& lo <= y <= hi
    &&& lo <= x <= hi ==> y == x
    &&& x < lo ==> y == lo
    &&& x > hi ==> y == hi
}

/// The saturation flag of a core.
pub open spec fn q_flag(cpu: CpuState) -> bool {
    cpu.xpsr & 0x0800_0000 != 0
}

/// Nothing but Q and one register differs.
pub open spec fn saturates(a: CpuState, b: CpuState, rd: u8) -> bool {
    &&& a.xpsr & 0xF7FF_FFFF == b.xpsr & 0xF7FF_FFFF
    &&& a == (CpuState { xpsr: a.xpsr, ..b.with_reg(rd, a.regs[rd as int]) })
}

/// SSAT to `n` bits and USAT to `n` bits of Rn shifted left by `k` places, or right with
/// the sign bit.
#[verifier::spinoff_prover]
pub proof fn law_saturation(
    e: Executor,
    cpu: CpuState,
    mem: MemoryModel,
    rd: u8,
    rn: u8,
    n: u8,
    k: u8,
    shift_kind: DspShiftKind,
)
    requires
        e.it_remaining == 0,
        rd < 16,
        rn < 16,
        1 <= n <= 32,
        k < 32,
        shift_kind == DspShiftKind::Asr ==> k > 0,
    ensures
        ({
            let v = cpu.regs[rn as int];
            let shifted = ((v * pow2(k as nat)) % 0x1_0000_0000) as u32;
            let x = match shift_kind {
                DspShiftKind::Lsl => reading(shifted),
                DspShiftKind::Asr => reading(v) / pow2(k as nat) as int,
            };
            let s = done(
                e,
                cpu,
                mem,
                Instruction::Sat { rd, rn, sat_imm: n, signed: true, shift_kind, shift_imm: k },
            );
            let u = done(
                e,
                cpu,
                mem,
                Instruction::Sat {
                    rd,
                    rn,
                    sat_imm: (n - 1) as u8,
                    signed: false,
                    shift_kind,
                    shift_imm: k,
                },
            );
            let half = pow2((n - 1) as nat) as int;
            let y = reading(s.cpu.regs[rd as int]);
            let z = u.cpu.regs[rd as int] as int;
            &&& fitted(y, x, -half, half - 1)
            &&& fitted(z, x, 0, 2 * half - 1)
            &&& q_flag(s.cpu) == (q_flag(cpu) || y != x)
            &&& q_flag(u.cpu) == (q_flag(cpu) || z != x)
            &&& saturates(s.cpu, cpu, rd) && s.mem == mem && s.outcome == ExecOutcome::Continue
            &&& saturates(u.cpu, cpu, rd) && u.mem == mem && u.outcome == ExecOutcome::Continue
        }),
{
    reveal(media_step);
    let v = cpu.regs[rn as int];
    let signed = Instruction::Sat { rd, rn, sat_imm: n, signed: true, shift_kind, shift_imm: k };
    let m = (n - 1) as u8;
    let unsigned = Instruction::Sat { rd, rn, sat_imm: m, signed: false, shift_kind, shift_imm: k };
    lemma_media(e, cpu, mem, signed);
    lemma_media(e, cpu, mem, unsigned);
    lemma_status(cpu.xpsr, 0, 0, 0);
    vstd::arithmetic::power2::lemma2_to64();
    vstd::arithmetic::power2::lemma_pow2_unfold(n as nat);
    vstd::arithmetic::power2::lemma_pow2_pos((n - 1) as nat);
    if n < 32 {
        vstd::arithmetic::power2::lemma_pow2_strictly_increases(n as nat, 32);
    }
    let x = match shift_kind {
        DspShiftKind::Lsl => reading(((v * pow2(k as nat)) % 0x1_0000_0000) as u32),
        DspShiftKind::Asr => reading(v) / pow2(k as nat) as int,
    };
    lemma_operand(v, shift_kind, k);
    assert(x == crate::bits::signed32(media::sat_operand(v, shift_kind, k)));
    let y = dsp::ssat_value(x, n as int);
    assert(-0x8000_0000 <= y <= 0x7FFF_FFFF);
    let z = dsp::usat_value(x, m as int);
    assert(0 <= z <= 0xFFFF_FFFF);
}

/// The operand of a saturation as a number.
proof fn lemma_operand(v: u32, kind: DspShiftKind, k: u8)
    requires
        k < 32,
        kind == DspShiftKind::Asr ==> k > 0,
    ensures
        kind == DspShiftKind::Lsl ==> media::sat_operand(v, kind, k) == (v * pow2(k as nat))
            % 0x1_0000_0000,
        kind == DspShiftKind::Asr ==> reading(media::sat_operand(v, kind, k)) == reading(v) / pow2(
            k as nat,
        ) as int,
{
    lemma_shl(v, k);
    if kind == DspShiftKind::Asr {
        let p = pow2(k as nat) as int;
        vstd::arithmetic::power2::lemma_pow2_pos(k as nat);
        let x = reading(v);
        assert(-0x8000_0000 <= x / p <= 0x7FFF_FFFF) by (nonlinear_arith)
            requires
                p >= 1,
                -0x8000_0000 <= x <= 0x7FFF_FFFF,
        ;
    }
}

/// QADD, QSUB, QDADD and QDSUB of Rm and Rn: the sum or difference fitted into 32 bits;
/// in the doubling forms Rn is doubled, and fitted, first.
pub proof fn law_saturating_sums(
    e: Executor,
    cpu: CpuState,
    mem: MemoryModel,
    rd: u8,
    rn: u8,
    rm: u8,
    kind: QAddKind,
    twice: int,
)
    requires
        e.it_remaining == 0,
        rd < 16,
        rn < 16,
        rm < 16,
        fitted(twice, 2 * reading(cpu.regs[rn as int]), -0x8000_0000, 0x7FFF_FFFF),
    ensures
        ({
            let (a, b) = (reading(cpu.regs[rm as int]), reading(cpu.regs[rn as int]));
            let r = done(e, cpu, mem, Instruction::QAddSub { rd, rn, rm, kind });
            let y = reading(r.cpu.regs[rd as int]);
            let x = match kind {
                QAddKind::Qadd => a + b,
                QAddKind::Qsub => a - b,
                QAddKind::Qdadd => a + twice,
                QAddKind::Qdsub => a - twice,
            };
            let doubled = kind == QAddKind::Qdadd || kind == QAddKind::Qdsub;
            &&& fitted(y, x, -0x8000_0000, 0x7FFF_FFFF)
            &&& q_flag(r.cpu) == (q_flag(cpu) || y != x || doubled && twice != 2 * b)
            &&& saturates(r.cpu, cpu, rd)
            &&& r.mem == mem
            &&& r.outcome == ExecOutcome::Continue
        }),
{
    reveal(media_step);
    lemma_media(e, cpu, mem, Instruction::QAddSub { rd, rn, rm, kind });
    lemma_status(cpu.xpsr, 0, 0, 0);
}

/// The word with two halves.
pub open spec fn of_halves(lo: u16, hi: u16) -> u32 {
    (lo + 0x1_0000 * hi) as u32
}

/// The number that a half stands for in two's complement.
pub open spec fn half_reading(x: u16) -> int {
    if x >= 0x8000 {
        x - 0x1_0000
    } else {
        x as int
    }
}

proof fn lemma_wrapped(x: int)
    ensures
        (x % 0x1_0000_0000 - x) % 0x1_0000_0000 == 0,
        (x % 0x1_0000_0000_0000_0000 - x) % 0x1_0000_0000_0000_0000 == 0,
{
}

/// SMUAD, SMUSD, SMLAD and SMLSD: the products of the low and of the high halves, those of
/// Rm exchanged where `swap`, are added or subtracted, and added to what is accumulated.
#[verifier::spinoff_prover]
pub proof fn law_dual_products(
    e: Executor,
    cpu: CpuState,
    mem: MemoryModel,
    rd: u8,
    rn: u8,
    rm: u8,
    ra: u8,
    swap: bool,
    sub: bool,
    al: u16,
    ah: u16,
    bl: u16,
    bh: u16,
)
    requires
        e.it_remaining == 0,
        rd < 16,
        rn < 16,
        rm < 16,
        ra < 16,
        cpu.regs[rn as int] == of_halves(al, ah),
        cpu.regs[rm as int] == if swap { of_halves(bh, bl) } else { of_halves(bl, bh) },
    ensures
        ({
            let low = half_reading(al) * half_reading(bl);
            let high = half_reading(ah) * half_reading(bh);
            let p = if sub { low - high } else { low + high };
            let plain = done(e, cpu, mem, Instruction::DualHalfMul { rd, rn, rm, swap, sub });
            let acc = done(e, cpu, mem, Instruction::DualHalfMulAcc { rd, rn, rm, ra, swap, sub });
            &&& (plain.cpu.regs[rd as int] - p) % 0x1_0000_0000 == 0
            &&& (acc.cpu.regs[rd as int] - (cpu.regs[ra as int] + p)) % 0x1_0000_0000 == 0
            &&& writes_only(plain, cpu, mem, rd) && plain.cpu.xpsr == cpu.xpsr
            &&& writes_only(acc, cpu, mem, rd) && acc.cpu.xpsr == cpu.xpsr
        }),
{
    let (a, b) = (cpu.regs[rn as int], cpu.regs[rm as int]);
    let p = media::dual_product(a, b, swap, sub);
    lemma_dual_effects(e, cpu, mem, rd, rn, rm, ra, swap, sub, p);
    lemma_dual_product(a, b, swap, sub, al, ah, bl, bh);
}

/// SMLALD and SMLSLD: the same, added to a pair of registers modulo 2^64.
#[verifier::spinoff_prover]
pub proof fn law_long_dual_products(
    e: Executor,
    cpu: CpuState,
    mem: MemoryModel,
    rdlo: u8,
    rdhi: u8,
    rn: u8,
    rm: u8,
    swap: bool,
    sub: bool,
    al: u16,
    ah: u16,
    bl: u16,
    bh: u16,
)
    requires
        e.it_remaining == 0,
        rdlo < 16,
        rdhi < 16,
        rdlo != rdhi,
        rn < 16,
        rm < 16,
        cpu.regs[rn as int] == of_halves(al, ah),
        cpu.regs[rm as int] == if swap { of_halves(bh, bl) } else { of_halves(bl, bh) },
    ensures
        ({
            let low = half_reading(al) * half_reading(bl);
            let high = half_reading(ah) * half_reading(bh);
            let p = if sub { low - high } else { low + high };
            let r = done(
                e,
                cpu,
                mem,
                Instruction::DualHalfMulLong { rdlo, rdhi, rn, rm, swap, sub },
            );
            let before = cpu.regs[rdlo as int] + 0x1_0000_0000 * cpu.regs[rdhi as int];
            let after = r.cpu.regs[rdlo as int] + 0x1_0000_0000 * r.cpu.regs[rdhi as int];
            &&& (after - (before + p)) % 0x1_0000_0000_0000_0000 == 0
            &&& r.outcome == ExecOutcome::Continue
            &&& r.mem == mem
            &&& r.cpu.xpsr == cpu.xpsr
            &&& same_rest(r.cpu, cpu)
            &&& forall|i: int|
                0 <= i < 16 && i != rdlo && i != rdhi ==> #[trigger] r.cpu.regs[i] == cpu.regs[i]
        }),
{
    let (a, b) = (cpu.regs[rn as int], cpu.regs[rm as int]);
    let p = media::dual_product(a, b, swap, sub);
    lemma_long_dual_effect(e, cpu, mem, rdlo, rdhi, rn, rm, swap, sub, p);
    lemma_dual_product(a, b, swap, sub, al, ah, bl, bh);
}

proof fn lemma_dual_effects(
    e: Executor,
    cpu: CpuState,
    mem: MemoryModel,
    rd: u8,
    rn: u8,
    rm: u8,
    ra: u8,
    swap: bool,
    sub: bool,
    p: int,
)
    requires
        e.it_remaining == 0,
        rd < 16,
        rn < 16,
        rm < 16,
        ra < 16,
        p == media::dual_product(cpu.regs[rn as int], cpu.regs[rm as int], swap, sub),
    ensures
        ({
            let plain = done(e, cpu, mem, Instruction::DualHalfMul { rd, rn, rm, swap, sub });
            let acc = done(e, cpu, mem, Instruction::DualHalfMulAcc { rd, rn, rm, ra, swap, sub });
            &&& (plain.cpu.regs[rd as int] - p) % 0x1_0000_0000 == 0
            &&& (acc.cpu.regs[rd as int] - (cpu.regs[ra as int] + p)) % 0x1_0000_0000 == 0
            &&& writes_only(plain, cpu, mem, rd) && plain.cpu.xpsr == cpu.xpsr
            &&& writes_only(acc, cpu, mem, rd) && acc.cpu.xpsr == cpu.xpsr
        }),
{
    reveal(media_step);
    lemma_media(e, cpu, mem, Instruction::DualHalfMul { rd, rn, rm, swap, sub });
    lemma_media(e, cpu, mem, Instruction::DualHalfMulAcc { rd, rn, rm, ra, swap, sub });
    lemma_wrapped(p);
    lemma_wrapped(cpu.regs[ra as int] + p);
}

proof fn lemma_long_dual_effect(
    e: Executor,
    cpu: CpuState,
    mem: MemoryModel,
    rdlo: u8,
    rdhi: u8,
    rn: u8,
    rm: u8,
    swap: bool,
    sub: bool,
    p: int,
)
    requires
        e.it_remaining == 0,
        rdlo < 16,
        rdhi < 16,
        rdlo != rdhi,
        rn < 16,
        rm < 16,
        p == media::dual_product(cpu.regs[rn as int], cpu.regs[rm as int], swap, sub),
    ensures
        ({
            let r = done(
                e,
                cpu,
                mem,
                Instruction::DualHalfMulLong { rdlo, rdhi, rn, rm, swap, sub },
            );
            let before = cpu.regs[rdlo as int] + 0x1_0000_0000 * cpu.regs[rdhi as int];
            let after = r.cpu.regs[rdlo as int] + 0x1_0000_0000 * r.cpu.regs[rdhi as int];
            &&& (after - (before + p)) % 0x1_0000_0000_0000_0000 == 0
            &&& r.outcome == ExecOutcome::Continue
            &&& r.mem == mem
            &&& r.cpu.xpsr == cpu.xpsr
            &&& same_rest(r.cpu, cpu)
            &&& forall|i: int|
                0 <= i < 16 && i != rdlo && i != rdhi ==> #[trigger] r.cpu.regs[i] == cpu.regs[i]
        }),
{
    reveal(media_step);
    lemma_media(e, cpu, mem, Instruction::DualHalfMulLong { rdlo, rdhi, rn, rm, swap, sub });
    let before = cpu.regs[rdlo as int] + 0x1_0000_0000 * cpu.regs[rdhi as int];
    lemma_wrapped(before + p);
}

proof fn lemma_dual_product(
    a: u32,
    b: u32,
    swap: bool,
    sub: bool,
    al: u16,
    ah: u16,
    bl: u16,
    bh: u16,
)
    requires
        a == of_halves(al, ah),
        b == if swap { of_halves(bh, bl) } else { of_halves(bl, bh) },
    ensures
        ({
            let low = half_reading(al) * half_reading(bl);
            let high = half_reading(ah) * half_reading(bh);
            media::dual_product(a, b, swap, sub) == if sub { low - high } else { low + high }
        }),
{
    lemma_halves(a, al, ah);
    lemma_halves(b, if swap { bh } else { bl }, if swap { bl } else { bh });
}

proof fn lemma_halves(a: u32, lo: u16, hi: u16)
    requires
        a == of_halves(lo, hi),
    ensures
        a as int % 0x1_0000 == lo,
        a as int / 0x1_0000 == hi,
        crate::bits::signed16(dsp::lo16(a)) == half_reading(lo),
        crate::bits::signed16(dsp::hi16(a)) == half_reading(hi),
{
}

/// PKHBT takes the low half of Rn and the high half of Rm shifted left; PKHTB the high
/// half of Rn and the low half of Rm shifted right with the sign bit.
pub proof fn law_packed_halves(
    e: Executor,
    cpu: CpuState,
    mem: MemoryModel,
    rd: u8,
    rn: u8,
    rm: u8,
    k: u8,
)
    requires
        e.it_remaining == 0,
        rd < 16,
        rn < 16,
        rm < 16,
        k < 32,
    ensures
        ({
            let (a, b) = (cpu.regs[rn as int], cpu.regs[rm as int]);
            let bt = done(e, cpu, mem, Instruction::Pkh { rd, rn, rm, tb: false, shift_imm: k });
            let tb = done(e, cpu, mem, Instruction::Pkh { rd, rn, rm, tb: true, shift_imm: k });
            let (x, y) = (bt.cpu.regs[rd as int], tb.cpu.regs[rd as int]);
            &&& x % 0x1_0000 == a % 0x1_0000
            &&& x / 0x1_0000 == (b * pow2(k as nat)) % 0x1_0000_0000 / 0x1_0000
            &&& y / 0x1_0000 == a / 0x1_0000
            &&& k > 0 ==> y % 0x1_0000 == reading(b) / pow2(k as nat) as int % 0x1_0000
            &&& writes_only(bt, cpu, mem, rd) && bt.cpu.xpsr == cpu.xpsr
            &&& writes_only(tb, cpu, mem, rd) && tb.cpu.xpsr == cpu.xpsr
        }),
{
    reveal(media_step);
    lemma_media(e, cpu, mem, Instruction::Pkh { rd, rn, rm, tb: false, shift_imm: k });
    lemma_media(e, cpu, mem, Instruction::Pkh { rd, rn, rm, tb: true, shift_imm: k });
    let b = cpu.regs[rm as int];
    lemma_operand(b, DspShiftKind::Lsl, k);
    if k > 0 {
        lemma_operand(b, DspShiftKind::Asr, k);
        let w = media::sat_operand(b, DspShiftKind::Asr, k);
        assert(w as int % 0x1_0000 == reading(w) % 0x1_0000);
    }
}

/// Whether the bit of the status word that `mask` names is set.
pub open spec fn status_bit(cpu: CpuState, mask: u32) -> bool {
    cpu.xpsr & mask != 0
}

/// Halfword lanes: ADD16 and SUB16 add and subtract the halves, ASX and SAX cross those of
/// Rm. A GE bit tells of its lane that it carried (or did not borrow), or for signed lanes
/// that its result is not negative.
#[verifier::spinoff_prover]
pub proof fn law_halfword_lanes(
    e: Executor,
    cpu: CpuState,
    mem: MemoryModel,
    rd: u8,
    rn: u8,
    rm: u8,
    kind: Simd16Kind,
    unsigned: bool,
    al: u16,
    ah: u16,
    bl: u16,
    bh: u16,
)
    requires
        e.it_remaining == 0,
        rd < 16,
        rn < 16,
        rm < 16,
        cpu.regs[rn as int] == of_halves(al, ah),
        cpu.regs[rm as int] == of_halves(bl, bh),
    ensures
        ({
            let r = done(e, cpu, mem, Instruction::Simd16 { rd, rn, rm, kind, unsigned });
            let (low, high) = match kind {
                Simd16Kind::Add16 => (al + bl, ah + bh),
                Simd16Kind::Asx => (al + bh, ah - bl),
                Simd16Kind::Sax => (al - bh, ah + bl),
                Simd16Kind::Sub16 => (al - bl, ah - bh),
            };
            let low_adds = kind == Simd16Kind::Add16 || kind == Simd16Kind::Asx;
            let high_adds = kind == Simd16Kind::Add16 || kind == Simd16Kind::Sax;
            let x = r.cpu.regs[rd as int] as int % 0x1_0000;
            let y = r.cpu.regs[rd as int] as int / 0x1_0000;
            &&& (x - low) % 0x1_0000 == 0
            &&& (y - high) % 0x1_0000 == 0
            &&& status_bit(r.cpu, 0x0001_0000) == if !unsigned {
                x < 0x8000
            } else if low_adds {
                low >= 0x1_0000
            } else {
                low >= 0
            }
            &&& status_bit(r.cpu, 0x0002_0000) == if !unsigned {
                y < 0x8000
            } else if high_adds {
                high >= 0x1_0000
            } else {
                high >= 0
            }
            &&& r.cpu.xpsr & 0xFFFC_FFFF == cpu.xpsr & 0xFFFC_FFFF
            &&& r.cpu == (CpuState {
                xpsr: r.cpu.xpsr,
                ..cpu.with_reg(rd, r.cpu.regs[rd as int])
            })
            &&& r.mem == mem && r.outcome == ExecOutcome::Continue
        }),
{
    reveal(media_step);
    lemma_media(e, cpu, mem, Instruction::Simd16 { rd, rn, rm, kind, unsigned });
    let (a, b) = (cpu.regs[rn as int], cpu.regs[rm as int]);
    lemma_halves(a, al, ah);
    lemma_halves(b, bl, bh);
    let (v, g) = dsp::simd16_value(a, b, kind, unsigned);
    let (lo, hi) = dsp::lanes16(a, b, kind);
    lemma_halves(v, (lo % 0x1_0000) as u16, (hi % 0x1_0000) as u16);
    lemma_status(cpu.xpsr, 0, 0, g as u32);
}

/// The number that a byte stands for, with or without a sign.
pub open spec fn byte_reading(x: u8, unsigned: bool) -> int {
    if unsigned || x < 0x80 {
        x as int
    } else {
        x - 0x100
    }
}

/// One byte lane: `c` is the sum or difference of `a` and `b`, or its half, modulo 2^8,
/// and `ge` tells that it carried, did not borrow, or is not negative.
pub open spec fn lane(
    c: int,
    ge: bool,
    a: u8,
    b: u8,
    unsigned: bool,
    halving: bool,
    sub: bool,
) -> bool {
    let (x, y) = (byte_reading(a, unsigned), byte_reading(b, unsigned));
    let s = if sub { x - y } else { x + y };
    &&& if halving {
        (2 * c - s) % 0x200 == 0 || (2 * c + 1 - s) % 0x200 == 0
    } else {
        (c - s) % 0x100 == 0
    }
    &&& ge == (!halving && if unsigned && !sub { s >= 0x100 } else { s >= 0 })
}

/// A number and its half, modulo a power of two.
proof fn lemma_half(s: int)
    ensures
        (s % 0x100 - s) % 0x100 == 0,
        (2 * (s / 2 % 0x100) - s) % 0x200 == 0 || (2 * (s / 2 % 0x100) + 1 - s) % 0x200 == 0,
{
    let h = s / 2;
    let k = h / 0x100;
    let c = h % 0x100;
    assert(h == 0x100 * k + c);
    if s % 2 == 0 {
        assert(2 * c - s == 0x200 * (-k));
    } else {
        assert(2 * c + 1 - s == 0x200 * (-k));
    }
}

proof fn lemma_lane(x: int, y: int, a: u8, b: u8, unsigned: bool, halving: bool, sub: bool)
    requires
        x == a,
        y == b,
    ensures
        0 <= dsp::lane8(x, y, unsigned, halving, sub) < 0x100,
        lane(
            dsp::lane8(x, y, unsigned, halving, sub),
            dsp::ge8(x, y, unsigned, halving, sub),
            a,
            b,
            unsigned,
            halving,
            sub,
        ),
{
    let (p, q) = (byte_reading(a, unsigned), byte_reading(b, unsigned));
    let s = if sub { p - q } else { p + q };
    assert(dsp::exact8(x, y, unsigned, sub) == s);
    lemma_half(s);
}

/// Byte lanes: each byte of the result and its GE bit come from the same byte of Rn and Rm.
#[verifier::spinoff_prover]
pub proof fn law_byte_lanes(
    e: Executor,
    cpu: CpuState,
    mem: MemoryModel,
    rd: u8,
    rn: u8,
    rm: u8,
    unsigned: bool,
    halving: bool,
    sub: bool,
    a: (u8, u8, u8, u8),
    b: (u8, u8, u8, u8),
)
    requires
        e.it_remaining == 0,
        rd < 16,
        rn < 16,
        rm < 16,
        cpu.regs[rn as int] == of_bytes(a.0, a.1, a.2, a.3),
        cpu.regs[rm as int] == of_bytes(b.0, b.1, b.2, b.3),
    ensures
        ({
            let r = done(e, cpu, mem, Instruction::Simd8 { rd, rn, rm, unsigned, halving, sub });
            let v = r.cpu.regs[rd as int] as int;
            let ge0 = status_bit(r.cpu, 0x0001_0000);
            let ge1 = status_bit(r.cpu, 0x0002_0000);
            let ge2 = status_bit(r.cpu, 0x0004_0000);
            let ge3 = status_bit(r.cpu, 0x0008_0000);
            &&& lane(v % 0x100, ge0, a.0, b.0, unsigned, halving, sub)
            &&& lane(v / 0x100 % 0x100, ge1, a.1, b.1, unsigned, halving, sub)
            &&& lane(v / 0x1_0000 % 0x100, ge2, a.2, b.2, unsigned, halving, sub)
            &&& lane(v / 0x100_0000, ge3, a.3, b.3, unsigned, halving, sub)
            &&& r.cpu.xpsr & 0xFFF0_FFFF == cpu.xpsr & 0xFFF0_FFFF
            &&& r.cpu == (CpuState {
                xpsr: r.cpu.xpsr,
                ..cpu.with_reg(rd, r.cpu.regs[rd as int])
            })
            &&& r.mem == mem && r.outcome == ExecOutcome::Continue
        }),
{
    reveal(media_step);
    lemma_media(e, cpu, mem, Instruction::Simd8 { rd, rn, rm, unsigned, halving, sub });
    let (x, y) = (cpu.regs[rn as int], cpu.regs[rm as int]);
    lemma_word_bytes(a.0, a.1, a.2, a.3);
    lemma_word_bytes(b.0, b.1, b.2, b.3);
    lemma_lane(dsp::byte_of(x, 0), dsp::byte_of(y, 0), a.0, b.0, unsigned, halving, sub);
    lemma_lane(dsp::byte_of(x, 1), dsp::byte_of(y, 1), a.1, b.1, unsigned, halving, sub);
    lemma_lane(dsp::byte_of(x, 2), dsp::byte_of(y, 2), a.2, b.2, unsigned, halving, sub);
    lemma_lane(dsp::byte_of(x, 3), dsp::byte_of(y, 3), a.3, b.3, unsigned, halving, sub);
    let at = |n: int| dsp::lane8(dsp::byte_of(x, n), dsp::byte_of(y, n), unsigned, halving, sub);
    let on = |n: int| dsp::ge8(dsp::byte_of(x, n), dsp::byte_of(y, n), unsigned, halving, sub);
    let (v, g) = dsp::simd8_value(x, y, unsigned, halving, sub);
    lemma_word_bytes(at(0) as u8, at(1) as u8, at(2) as u8, at(3) as u8);
    assert(v == of_bytes(at(0) as u8, at(1) as u8, at(2) as u8, at(3) as u8));
    assert(g == dsp::flag_bits(on(0), on(1), on(2), on(3)));
    lemma_status(cpu.xpsr, 0, 0, g as u32);
}

/// MRS reads the flags, the exception number or the execution state alone, each in its
/// place, or a whole register, and changes nothing but Rt.
pub proof fn law_special_reads(e: Executor, cpu: CpuState, mem: MemoryModel, rt: u8, reg: SpecialReg)
    requires
        e.it_remaining == 0,
        rt < 16,
    ensures
        ({
            let r = done(e, cpu, mem, Instruction::MsrMrs { rt, reg, read: true });
            let v = r.cpu.regs[rt as int];
            &&& match reg {
                SpecialReg::Apsr => v == cpu.xpsr & 0xF800_0000,
                SpecialReg::ApsrGe => v == cpu.xpsr & 0xF8FF_0000,
                SpecialReg::Iapsr => v == cpu.xpsr & 0xF800_01FF,
                SpecialReg::Eapsr => v == cpu.xpsr & 0xF9FF_0000,
                SpecialReg::Ipsr => v == cpu.xpsr & 0x0000_01FF,
                SpecialReg::Epsr => v == cpu.xpsr & 0x01FF_0000,
                SpecialReg::Msp => v == cpu.msp,
                SpecialReg::Psp => v == cpu.psp,
                SpecialReg::Primask => v == cpu.primask,
                SpecialReg::Faultmask => v == cpu.faultmask,
                SpecialReg::Basepri => v == cpu.basepri,
                SpecialReg::BasepriMax => v == cpu.basepri,
                SpecialReg::Control => v == cpu.control,
            }
            &&& writes_only(r, cpu, mem, rt)
            &&& r.cpu.xpsr == cpu.xpsr
        }),
{
    reveal(media_step);
    lemma_media(e, cpu, mem, Instruction::MsrMrs { rt, reg, read: true });
}

/// MSR writes the flags alone of the status registers, one bit of PRIMASK and FAULTMASK,
/// and leaves the exception number and every other register as they were. BASEPRI_MAX is
/// a write of BASEPRI that never raises it. With CONTROL the selected stack pointer
/// becomes SP.
pub proof fn law_special_writes(e: Executor, cpu: CpuState, mem: MemoryModel, rt: u8, reg: SpecialReg)
    requires
        e.it_remaining == 0,
        rt < 16,
    ensures
        ({
            let r = done(e, cpu, mem, Instruction::MsrMrs { rt, reg, read: false });
            let v = cpu.regs[rt as int];
            &&& r.outcome == ExecOutcome::Continue
            &&& r.mem == mem
            &&& match reg {
                SpecialReg::Apsr | SpecialReg::Iapsr | SpecialReg::Eapsr => {
                    &&& r.cpu.xpsr & 0xF800_0000 == v & 0xF800_0000
                    &&& r.cpu.xpsr & !0xF800_0000u32 == cpu.xpsr & !0xF800_0000u32
                    &&& r.cpu == (CpuState { xpsr: r.cpu.xpsr, ..cpu })
                },
                SpecialReg::ApsrGe => {
                    &&& r.cpu.xpsr & 0xF8FF_0000 == v & 0xF8FF_0000
                    &&& r.cpu.xpsr & !0xF8FF_0000u32 == cpu.xpsr & !0xF8FF_0000u32
                    &&& r.cpu == (CpuState { xpsr: r.cpu.xpsr, ..cpu })
                },
                SpecialReg::Ipsr | SpecialReg::Epsr => r.cpu == cpu,
                SpecialReg::Msp => r.cpu == (CpuState { msp: v, ..cpu }),
                SpecialReg::Psp => r.cpu == (CpuState { psp: v, ..cpu }),
                SpecialReg::Primask => {
                    &&& r.cpu.primask == v % 2
                    &&& r.cpu == (CpuState { primask: r.cpu.primask, ..cpu })
                },
                SpecialReg::Faultmask => {
                    &&& r.cpu.faultmask == v % 2
                    &&& r.cpu == (CpuState { faultmask: r.cpu.faultmask, ..cpu })
                },
                SpecialReg::Basepri => {
                    &&& r.cpu.basepri == v % 0x100
                    &&& r.cpu == (CpuState { basepri: r.cpu.basepri, ..cpu })
                },
                SpecialReg::BasepriMax => {
                    &&& r.cpu.basepri <= cpu.basepri
                    &&& r.cpu.basepri <= v % 0x100
                    &&& r.cpu.basepri == cpu.basepri || r.cpu.basepri == v % 0x100
                    &&& r.cpu == (CpuState { basepri: r.cpu.basepri, ..cpu })
                },
                SpecialReg::Control => {
                    &&& r.cpu.control == v % 4
                    &&& r.cpu.regs[13] == if v % 2 == 1 { cpu.psp } else { cpu.msp }
                    &&& r.cpu == (CpuState {
                        control: r.cpu.control,
                        ..cpu.with_reg(13, r.cpu.regs[13])
                    })
                },
            }
        }),
{
    reveal(media_step);
    lemma_media(e, cpu, mem, Instruction::MsrMrs { rt, reg, read: false });
    let v = cpu.regs[rt as int];
    lemma_status(cpu.xpsr, v, 0xF800_0000, 0);
    lemma_status(cpu.xpsr, v, 0xF8FF_0000, 0);
}

/// CPSID sets the masks that it names to 1 and CPSIE clears them; the others stay.
pub proof fn law_masks_switched(
    e: Executor,
    cpu: CpuState,
    mem: MemoryModel,
    disable: bool,
    i: bool,
    f: bool,
)
    requires
        e.it_remaining == 0,
    ensures
        ({
            let r = done(e, cpu, mem, Instruction::Cps { disable, i, f });
            &&& r.outcome == ExecOutcome::Continue
            &&& r.mem == mem
            &&& i && disable ==> r.cpu.primask == 1
            &&& i && !disable ==> r.cpu.primask == 0
            &&& !i ==> r.cpu.primask == cpu.primask
            &&& f && disable ==> r.cpu.faultmask == 1
            &&& f && !disable ==> r.cpu.faultmask == 0
            &&& !f ==> r.cpu.faultmask == cpu.faultmask
            &&& r.cpu == (CpuState {
                primask: r.cpu.primask,
                faultmask: r.cpu.faultmask,
                ..cpu
            })
        }),
{
    reveal(media_step);
    lemma_media(e, cpu, mem, Instruction::Cps { disable, i, f });
}

} // verus!
