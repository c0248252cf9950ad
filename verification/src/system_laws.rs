//! What software sees of the system control block: what each register reads after a write.
use crate::system::{law_pend_unpend, SystemBlock};
use vstd::prelude::*;

verus! {

/// The lanes of accesses.
proof fn lemma_lanes(addr: u32, x: u32, v: u32, j: u32, k: u32)
    by (bit_vector)
    requires
        j < 4,
        k < 4,
    ensures
        addr & !3u32 == addr - addr % 4,
        addr & 3u32 == addr % 4,
        (x & !(0xFFFF_FFFFu32 << 0u32)) | ((v << 0u32) & (0xFFFF_FFFFu32 << 0u32)) == v,
        (x >> 0u32) & 0xFFFF_FFFFu32 == x,
        ({
            let (s, t) = ((j * 8) as u32, (k * 8) as u32);
            let y = (x & !(0xFFu32 << s)) | ((v << s) & (0xFFu32 << s));
            (y >> t) & 0xFFu32 == if j == k {
                v & 0xFFu32
            } else {
                (x >> t) & 0xFFu32
            }
        }),
        v & 0xFFu32 == v % 0x100,
        ({
            let kept = if v & 0x1_0000 != 0 {
                0u32
            } else {
                x & 0x1_0000
            };
            let y = (v & 7) | kept;
            &&& y % 8 == v % 8
            &&& (y & 0x1_0000 != 0) == (x & 0x1_0000 != 0 && v & 0x1_0000 == 0)
            &&& y & !0x1_0007u32 == 0
        }),
        (x & !0x1_0000u32) & 0x1_0000 == 0,
        (x & !0x1_0000u32) % 8 == x % 8,
        (x | 0x1_0000) & 0x1_0000 != 0,
        (x | 0x1_0000) % 8 == x % 8,
        v & 0x1F == v % 0x20,
{
}

/// The address of a word of the system block.
pub open spec fn word(off: u32) -> u32 {
    (0xE000_E000u32 + off) as u32
}

/// A word written to the reload value, to a priority register or to CPACR is read back
/// from there. SCR keeps its low five bits, CCR has STKALIGN set besides, VTOR and the
/// current value read 0, and CPUID, CALIB and AIRCR stay as they are.
pub proof fn law_register_read_back(s: SystemBlock, off: u32, v: u32)
    requires
        off % 4 == 0,
        off < 0x1000,
    ensures
        ({
            let r = s.after_write(word(off), 4, v).read_value(word(off), 4);
            &&& off == 0x014 || off == 0xD18 || off == 0xD1C || off == 0xD20 || off == 0xD88 ==> r
                == v
            &&& off == 0xD10 ==> r == v % 0x20
            &&& off == 0xD14 ==> r == v | 0x200
            &&& off == 0xD08 || off == 0x018 ==> r == 0
            &&& off == 0x01C || off == 0xD00 || off == 0xD0C ==> r == s.read_value(word(off), 4)
            &&& off == 0xD00 ==> r == 0x410F_C241
            &&& off == 0x010 ==> r % 8 == v % 8 && r & !0x1_0007u32 == 0
        }),
{
    lemma_lanes(word(off), s.word_at(off), v, 0, 0);
    let after = s.after_write(word(off), 4, v);
    lemma_lanes(word(off), after.word_at(off), v, 0, 0);
    lemma_lanes(word(off), s.syst_ctrl, v, 0, 0);
}

/// A word written to one of these registers changes what no other of them reads.
pub proof fn law_registers_apart(s: SystemBlock, off: u32, other: u32, v: u32)
    requires
        off % 4 == 0,
        other % 4 == 0,
        off < 0x1000,
        other < 0x1000,
        off != other,
        off != 0xD04 && other != 0xD04,
        !(off == 0x018 && other == 0x010),
        s.wf(),
    ensures
        s.after_write(word(off), 4, v).read_value(word(other), 4) == s.read_value(word(other), 4),
        s.after_write(word(off), 4, v).pended == s.pended,
{
    lemma_lanes(word(off), s.word_at(off), v, 0, 0);
    lemma_lanes(word(other), s.word_at(other), v, 0, 0);
}

/// A byte written into a priority register is the priority of its own exception: byte `j`
/// of the register reads it, and the other three read what they did.
pub proof fn law_priority_byte(s: SystemBlock, off: u32, j: u32, k: u32, v: u32)
    requires
        off == 0xD18 || off == 0xD1C || off == 0xD20,
        j < 4,
        k < 4,
    ensures
        s.after_write((word(off) + j) as u32, 1, v).read_value((word(off) + k) as u32, 1) == if j
            == k {
            (v % 0x100) as u32
        } else {
            s.read_value((word(off) + k) as u32, 1)
        },
{
    lemma_lanes((word(off) + j) as u32, s.word_at(off), v, j, k);
    lemma_lanes((word(off) + k) as u32, s.word_at(off), v, j, k);
}

/// A word written to ICSR makes PendSV pending by bit 28 and not pending by bit 27, and
/// SysTick by bits 26 and 25; clearing wins, and no other exception is touched.
pub proof fn law_pending_control(s: SystemBlock, v: u32, n: u8)
    requires
        1 <= n < 16,
    ensures
        ({
            let r = s.after_write(word(0xD04), 4, v);
            r.is_pended(n) == if n == 14 {
                (s.is_pended(14) || v & 0x1000_0000 != 0) && v & 0x0800_0000 == 0
            } else if n == 15 {
                (s.is_pended(15) || v & 0x0400_0000 != 0) && v & 0x0200_0000 == 0
            } else {
                s.is_pended(n)
            }
        }),
{
    lemma_lanes(word(0xD04), s.icsr, v, 0, 0);
    let s1 = if v & 0x1000_0000 != 0 {
        s.pend(14)
    } else {
        s
    };
    let s2 = if v & 0x0800_0000 != 0 {
        s1.unpend(14)
    } else {
        s1
    };
    let s3 = if v & 0x0400_0000 != 0 {
        s2.pend(15)
    } else {
        s2
    };
    law_pend_unpend(s, 14, n);
    law_pend_unpend(s1, 14, n);
    law_pend_unpend(s2, 15, n);
    law_pend_unpend(s3, 15, n);
}

/// A clock cycle takes one from the running counter, or reloads it from 0. Only the step
/// from 1 to 0 sets COUNTFLAG, and with TICKINT it makes exception 15 pending; a stopped
/// counter stays.
pub proof fn law_cycle(s: SystemBlock, n: u8)
    requires
        1 <= n < 16,
        s.syst_load != 0,
    ensures
        ({
            let r = s.cycle();
            let on = s.syst_ctrl & 1 != 0;
            let ends = on && s.syst_val == 1;
            &&& !on ==> r == s
            &&& on && s.syst_val > 0 ==> r.syst_val == s.syst_val - 1
            &&& on && s.syst_val == 0 ==> r.syst_val == s.syst_load
            &&& r.syst_load == s.syst_load
            &&& ends ==> r.syst_ctrl & 0x1_0000 != 0 && r.syst_ctrl % 8 == s.syst_ctrl % 8
            &&& !ends ==> r.syst_ctrl == s.syst_ctrl
            &&& r.is_pended(n) == (s.is_pended(n) || ends && n == 15 && s.syst_ctrl & 2 != 0)
        }),
{
    lemma_lanes(0, s.syst_ctrl, 0, 0, 0);
    law_pend_unpend(s, 15, n);
}

} // verus!
