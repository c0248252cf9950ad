//! What a firmware file has to hold, byte by byte, and where its bytes stand in memory.
use crate::cpu::CpuState;
use crate::loader::{
    firmware_loaded, header_of, header_offset, program_header, record_of, segment_placed,
    segments_placed, Elf32Header, LoadedSegment,
};
use crate::memory::MemoryModel;
use vstd::prelude::*;

verus! {

/// The number in the two bytes from `off` on, the low one first.
pub open spec fn half_at(data: Seq<u8>, off: int) -> int {
    data[off] + 0x100 * data[off + 1]
}

/// The number in the four bytes from `off` on, the low one first.
pub open spec fn word_at(data: Seq<u8>, off: int) -> int {
    data[off] + 0x100 * data[off + 1] + 0x1_0000 * data[off + 2] + 0x100_0000 * data[off + 3]
}

/// A file header is accepted exactly where it is that of a little-endian 32-bit ELF
/// executable for ARM whose program headers lie inside the file.
pub proof fn law_accepted_header(data: Seq<u8>)
    ensures
        header_of(data) is Ok <==> {
            &&& data.len() >= 52
            &&& data[0] == 0x7F && data[1] == 0x45 && data[2] == 0x4C && data[3] == 0x46
            &&& data[4] == 1 && data[5] == 1
            &&& half_at(data, 16) == 2
            &&& half_at(data, 18) == 40
            &&& half_at(data, 42) >= 32
            &&& word_at(data, 28) + half_at(data, 44) * half_at(data, 42) <= data.len()
        },
{
    if data.len() >= 52 {
        let magic = seq![0x7Fu8, 0x45, 0x4C, 0x46];
        if data[0] == 0x7F && data[1] == 0x45 && data[2] == 0x4C && data[3] == 0x46 {
            assert(data.take(4) =~= magic);
        } else if data.take(4) == magic {
            assert(data.take(4)[0] == data[0] && data.take(4)[1] == data[1] && data.take(4)[2]
                == data[2] && data.take(4)[3] == data[3]);
        }
    }
}

proof fn lemma_records(
    data: Seq<u8>,
    mem: MemoryModel,
    h: Elf32Header,
    i: int,
    done: Seq<LoadedSegment>,
    j: int,
)
    requires
        0 <= i <= h.e_phnum,
        done.len() == i,
        0 <= j < h.e_phnum,
    ensures
        segments_placed(data, mem, h, i, done).0 matches Ok(s) ==> {
            &&& s.len() == h.e_phnum
            &&& j < i ==> s[j] == done[j]
            &&& j >= i ==> {
                let ph = program_header(data, header_offset(h, j));
                s[j] == record_of(ph) && ph.p_type == 1
            }
        },
    decreases h.e_phnum - i,
{
    if i < h.e_phnum {
        let ph = program_header(data, header_offset(h, i));
        let (failure, m) = segment_placed(data, mem, i as nat, ph);
        if failure is None {
            let more = done.push(record_of(ph));
            lemma_records(data, m, h, i + 1, more, j);
            assert(ph.p_type == 1) by {
                reveal(segment_placed);
            }
            if j <= i {
                assert(j < i ==> more[j] == done[j]);
                assert(more[i] == record_of(ph));
            }
        }
    }
}

/// Every record of a loaded file comes from its own program header, which is loadable:
/// the address, the two sizes and the flags from their places in it.
pub proof fn law_segment_records(data: Seq<u8>, mem: MemoryModel, cpu: CpuState, j: int)
    requires
        0 <= j < half_at(data, 44),
    ensures
        firmware_loaded(data, mem, cpu).0 matches Ok((sp, pc, segments)) ==> {
            let at = word_at(data, 28) + j * half_at(data, 42);
            &&& segments.len() == half_at(data, 44)
            &&& word_at(data, at) == 1
            &&& segments[j].vaddr == word_at(data, at + 8)
            &&& segments[j].filesz == word_at(data, at + 16)
            &&& segments[j].memsz == word_at(data, at + 20)
            &&& segments[j].flags == word_at(data, at + 24)
        },
{
    if let Ok(h) = header_of(data) {
        reveal(program_header);
        reveal(header_offset);
        lemma_records(data, mem, h, 0, Seq::empty(), j);
    }
}

/// Words and halfwords of RAM and flash are made of the bytes at their addresses, the low
/// byte first.
pub proof fn law_byte_order(m: MemoryModel, addr: u32)
    requires
        addr <= 0xFFFF_FFFC,
        m.place_of(addr) is Some,
        forall|i: int|
            0 <= i < 4 ==> m.device_for(#[trigger] ((addr + i) as u32)) is None && m.region_of(
                (addr + i) as u32,
            ) == m.region_of(addr),
    ensures
        m.value_at(addr, 2) == m.value_at(addr, 1) + 0x100 * m.value_at((addr + 1) as u32, 1),
        m.value_at(addr, 4) == m.value_at(addr, 1) + 0x100 * m.value_at((addr + 1) as u32, 1)
            + 0x1_0000 * m.value_at((addr + 2) as u32, 1) + 0x100_0000 * m.value_at(
            (addr + 3) as u32,
            1,
        ),
{
    assert((addr + 0) as u32 == addr);
    assert(m.device_for((addr + 0) as u32) is None);
    assert(m.device_for((addr + 1) as u32) is None);
    assert(m.device_for((addr + 2) as u32) is None);
    assert(m.device_for((addr + 3) as u32) is None);
}

} // verus!
