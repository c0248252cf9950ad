//! ELF loader: places a linked Cortex-M firmware in memory and sets up the core.
//!
//! Only little-endian ELF32 executables for ARM are accepted. The segments are
//! placed at their addresses, the part of a segment that the file does not hold is
//! filled with zeros, and the vector table at address 0 gives SP and PC.
use crate::bits::wrap32;
use crate::cpu::CpuState;
use crate::memory::{lemma_region_backed, splice, Memory, MemoryFault, MemoryModel, MemoryRegion};
use vstd::prelude::*;

verus! {

/// Machine number of ARM.
pub const EM_ARM: u16 = 40;

/// Type of a linked executable.
pub const ET_EXEC: u16 = 2;

/// Type of a segment to place.
pub const PT_LOAD: u32 = 1;

/// Size of the file header.
pub const ELF32_EHDR_SIZE: usize = 52;

/// Size of a program header.
pub const ELF32_PHDR_SIZE: usize = 32;

/// The Thumb bit of the status word.
pub const XPSR_T: u32 = 0x0100_0000;

/// Why a firmware was not loaded.
#[derive(Debug)]
pub enum LoaderError {
    /// The file is shorter than a header.
    TooSmall(usize),
    /// The file does not start with the magic number.
    BadMagic([u8; 4]),
    /// The class is not 32-bit.
    NotElf32(u8),
    /// The byte order is not little endian.
    NotLittleEndian(u8),
    /// The machine is not ARM.
    NotArm(u16),
    /// The file is not a linked executable.
    NotExec(u16),
    /// The program header table leaves the file: offset, entry size, number of
    /// entries, file size.
    PhTableOutOfBounds(u32, u16, u16, usize),
    /// The data of a segment leaves the file: index, offset, size.
    SegmentDataOutOfBounds(usize, u32, u32),
    /// A segment of another type: index, type.
    UnsupportedSegment(usize, u32),
    /// A segment could not be placed.
    MemoryWrite { addr: u32, desc: String },
    /// The vector table could not be read.
    VectorTable { addr: u32, desc: String },
    /// The reset vector has no Thumb bit.
    NotThumb(u32),
}

/// An error with its text as characters.
pub enum LoadFailure {
    TooSmall(nat),
    BadMagic(Seq<u8>),
    NotElf32(u8),
    NotLittleEndian(u8),
    NotArm(u16),
    NotExec(u16),
    PhTableOutOfBounds(u32, u16, u16, nat),
    SegmentDataOutOfBounds(nat, u32, u32),
    UnsupportedSegment(nat, u32),
    MemoryWrite { addr: u32, desc: Seq<char> },
    VectorTable { addr: u32, desc: Seq<char> },
    NotThumb(u32),
}

impl View for LoaderError {
    type V = LoadFailure;

    open spec fn view(&self) -> LoadFailure {
        match self {
            LoaderError::TooSmall(n) => LoadFailure::TooSmall(*n as nat),
            LoaderError::BadMagic(m) => LoadFailure::BadMagic(m@),
            LoaderError::NotElf32(c) => LoadFailure::NotElf32(*c),
            LoaderError::NotLittleEndian(d) => LoadFailure::NotLittleEndian(*d),
            LoaderError::NotArm(m) => LoadFailure::NotArm(*m),
            LoaderError::NotExec(t) => LoadFailure::NotExec(*t),
            LoaderError::PhTableOutOfBounds(a, b, c, n) => LoadFailure::PhTableOutOfBounds(
                *a,
                *b,
                *c,
                *n as nat,
            ),
            LoaderError::SegmentDataOutOfBounds(i, a, b) => LoadFailure::SegmentDataOutOfBounds(
                *i as nat,
                *a,
                *b,
            ),
            LoaderError::UnsupportedSegment(i, t) => LoadFailure::UnsupportedSegment(
                *i as nat,
                *t,
            ),
            LoaderError::MemoryWrite { addr, desc } => LoadFailure::MemoryWrite {
                addr: *addr,
                desc: desc@,
            },
            LoaderError::VectorTable { addr, desc } => LoadFailure::VectorTable {
                addr: *addr,
                desc: desc@,
            },
            LoaderError::NotThumb(v) => LoadFailure::NotThumb(*v),
        }
    }
}

/// The little-endian halfword at an offset.
pub open spec fn le16(data: Seq<u8>, off: int) -> u16 {
    (data[off] + 0x100 * data[off + 1]) as u16
}

/// The little-endian word at an offset.
pub open spec fn le32(data: Seq<u8>, off: int) -> u32 {
    (data[off] + 0x100 * data[off + 1] + 0x1_0000 * data[off + 2] + 0x100_0000 * data[off + 3]) as u32
}

fn read_le16(data: &[u8], off: usize) -> (r: u16)
    requires
        off + 2 <= data@.len(),
    ensures
        r == le16(data@, off as int),
{
    data[off] as u16 + 0x100 * (data[off + 1] as u16)
}

fn read_le32(data: &[u8], off: usize) -> (r: u32)
    requires
        off + 4 <= data@.len(),
    ensures
        r == le32(data@, off as int),
{
    data[off] as u32 + 0x100 * (data[off + 1] as u32) + 0x1_0000 * (data[off + 2] as u32)
        + 0x100_0000 * (data[off + 3] as u32)
}

/// Where the program headers are.
pub struct Elf32Header {
    pub e_phoff: u32,
    pub e_phentsize: u16,
    pub e_phnum: u16,
}

/// The file header, or the first thing that is wrong with it.
pub open spec fn header_of(data: Seq<u8>) -> Result<Elf32Header, LoadFailure> {
    let table = Elf32Header {
        e_phoff: le32(data, 28),
        e_phentsize: le16(data, 42),
        e_phnum: le16(data, 44),
    };
    if data.len() < ELF32_EHDR_SIZE {
        Err(LoadFailure::TooSmall(data.len()))
    } else if data.take(4) != seq![0x7Fu8, 0x45, 0x4C, 0x46] {
        Err(LoadFailure::BadMagic(data.take(4)))
    } else if data[4] != 1 {
        Err(LoadFailure::NotElf32(data[4]))
    } else if data[5] != 1 {
        Err(LoadFailure::NotLittleEndian(data[5]))
    } else if le16(data, 18) != EM_ARM {
        Err(LoadFailure::NotArm(le16(data, 18)))
    } else if le16(data, 16) != ET_EXEC {
        Err(LoadFailure::NotExec(le16(data, 16)))
    } else if table.e_phentsize < ELF32_PHDR_SIZE || table.e_phoff + table.e_phnum
        * table.e_phentsize > data.len() {
        Err(
            LoadFailure::PhTableOutOfBounds(
                table.e_phoff,
                table.e_phentsize,
                table.e_phnum,
                data.len(),
            ),
        )
    } else {
        Ok(table)
    }
}

impl Elf32Header {
    /// Reads the file header.
    fn parse(data: &[u8]) -> (r: Result<Self, LoaderError>)
        ensures
            match header_of(data@) {
                Ok(h) => r == Ok::<Elf32Header, LoaderError>(h),
                Err(e) => r matches Err(x) && x@ == e,
            },
    {
        if data.len() < ELF32_EHDR_SIZE {
            return Err(LoaderError::TooSmall(data.len()));
        }
        let magic: [u8; 4] = [data[0], data[1], data[2], data[3]];
        assert(magic@ =~= data@.take(4));
        if magic[0] != 0x7F || magic[1] != 0x45 || magic[2] != 0x4C || magic[3] != 0x46 {
            proof {
                let elf = seq![0x7Fu8, 0x45, 0x4C, 0x46];
                if magic@ == elf {
                    assert(magic@[0] == elf[0] && magic@[1] == elf[1] && magic@[2] == elf[2]
                        && magic@[3] == elf[3]);
                }
            }
            return Err(LoaderError::BadMagic(magic));
        }
        assert(magic@ =~= seq![0x7Fu8, 0x45, 0x4C, 0x46]);
        if data[4] != 1 {
            return Err(LoaderError::NotElf32(data[4]));
        }
        if data[5] != 1 {
            return Err(LoaderError::NotLittleEndian(data[5]));
        }
        let e_type: u16 = read_le16(data, 16);
        let e_machine: u16 = read_le16(data, 18);
        let e_phoff: u32 = read_le32(data, 28);
        let e_phentsize: u16 = read_le16(data, 42);
        let e_phnum: u16 = read_le16(data, 44);
        if e_machine != EM_ARM {
            return Err(LoaderError::NotArm(e_machine));
        }
        if e_type != ET_EXEC {
            return Err(LoaderError::NotExec(e_type));
        }
        proof {
            assert(e_phnum * e_phentsize <= 0xFFFF * 0xFFFF) by (nonlinear_arith)
                requires
                    e_phnum <= 0xFFFF,
                    e_phentsize <= 0xFFFF,
            ;
        }
        let end: u64 = e_phoff as u64 + e_phnum as u64 * e_phentsize as u64;
        if (e_phentsize as usize) < ELF32_PHDR_SIZE || end > data.len() as u64 {
            return Err(
                LoaderError::PhTableOutOfBounds(e_phoff, e_phentsize, e_phnum, data.len()),
            );
        }
        Ok(Elf32Header { e_phoff, e_phentsize, e_phnum })
    }
}

/// A program header.
pub struct ProgramHeader {
    pub p_type: u32,
    pub p_offset: u32,
    pub p_vaddr: u32,
    pub p_filesz: u32,
    pub p_memsz: u32,
    pub p_flags: u32,
}

/// The program header at an offset.
#[verifier::opaque]
pub open spec fn program_header(data: Seq<u8>, base: int) -> ProgramHeader {
    ProgramHeader {
        p_type: le32(data, base),
        p_offset: le32(data, base + 4),
        p_vaddr: le32(data, base + 8),
        p_filesz: le32(data, base + 16),
        p_memsz: le32(data, base + 20),
        p_flags: le32(data, base + 24),
    }
}

impl ProgramHeader {
    fn read(data: &[u8], base: usize) -> (r: Self)
        requires
            base + ELF32_PHDR_SIZE <= data@.len(),
        ensures
            r == program_header(data@, base as int),
    {
        proof {
            reveal(program_header);
            assert(data.len() <= usize::MAX);
        }
        ProgramHeader {
            p_type: read_le32(data, base),
            p_offset: read_le32(data, base + 4),
            p_vaddr: read_le32(data, base + 8),
            p_filesz: read_le32(data, base + 16),
            p_memsz: read_le32(data, base + 20),
            p_flags: read_le32(data, base + 24),
        }
    }
}

/// A segment that was placed.
#[derive(Debug, Clone, Copy, PartialEq, Eq, Structural)]
pub struct LoadedSegment {
    /// Address.
    pub vaddr: u32,
    /// Bytes in the file.
    pub filesz: u32,
    /// Bytes in memory; those beyond `filesz` are 0.
    pub memsz: u32,
    /// Permissions: 1 execute, 2 write, 4 read.
    pub flags: u32,
}

/// What was loaded.
#[derive(Debug, Clone, PartialEq, Eq)]
pub struct LoadSummary {
    /// PC after reset, without the Thumb bit.
    pub entry_pc: u32,
    /// SP after reset.
    pub initial_sp: u32,
    /// The segments in the order of their headers.
    pub segments: Vec<LoadedSegment>,
}

/// Filling `n` bytes with zeros, 256 at a time: the address and the fault of the
/// first part that could not be placed, and the memory.
pub open spec fn zero_filled(mem: MemoryModel, addr: u32, n: nat) -> (
    Option<(u32, MemoryFault)>,
    MemoryModel,
)
    decreases n,
{
    if n == 0 {
        (None, mem)
    } else {
        let part = if n < 256 {
            n
        } else {
            256
        };
        match mem.load_fault(addr, part) {
            Some(f) => (Some((addr, f)), mem),
            None => zero_filled(
                mem.loaded(addr, Seq::new(part, |i: int| 0u8)),
                wrap32(addr + part),
                (n - part) as nat,
            ),
        }
    }
}

/// The failure to place bytes.
pub open spec fn write_failure(addr: u32, f: MemoryFault) -> LoadFailure {
    LoadFailure::MemoryWrite { addr, desc: f.text() }
}

/// Placing segment `i`: the failure if there is one, and the memory.
#[verifier::opaque]
pub open spec fn segment_placed(data: Seq<u8>, mem: MemoryModel, i: nat, ph: ProgramHeader) -> (
    Option<LoadFailure>,
    MemoryModel,
) {
    let bytes = data.subrange(ph.p_offset as int, ph.p_offset + ph.p_filesz);
    if ph.p_type != PT_LOAD {
        (Some(LoadFailure::UnsupportedSegment(i, ph.p_type)), mem)
    } else if ph.p_offset + ph.p_filesz > data.len() {
        (Some(LoadFailure::SegmentDataOutOfBounds(i, ph.p_offset, ph.p_filesz)), mem)
    } else if ph.p_vaddr + ph.p_memsz > 0xFFFF_FFFF {
        (
            Some(LoadFailure::MemoryWrite { addr: ph.p_vaddr, desc: "段地址溢出 u32"@ }),
            mem,
        )
    } else {
        match mem.load_fault(ph.p_vaddr, ph.p_filesz as nat) {
            Some(f) => (Some(write_failure(ph.p_vaddr, f)), mem),
            None => {
                let placed = mem.loaded(ph.p_vaddr, bytes);
                if ph.p_memsz > ph.p_filesz {
                    match zero_filled(
                        placed,
                        wrap32(ph.p_vaddr + ph.p_filesz),
                        (ph.p_memsz - ph.p_filesz) as nat,
                    ) {
                        (Some((addr, f)), m) => (Some(write_failure(addr, f)), m),
                        (None, m) => (None, m),
                    }
                } else {
                    (None, placed)
                }
            },
        }
    }
}

/// The record of a placed segment.
pub open spec fn record_of(ph: ProgramHeader) -> LoadedSegment {
    LoadedSegment {
        vaddr: ph.p_vaddr,
        filesz: ph.p_filesz,
        memsz: ph.p_memsz,
        flags: ph.p_flags,
    }
}

/// The offset of program header `i`.
#[verifier::opaque]
pub open spec fn header_offset(h: Elf32Header, i: int) -> int {
    h.e_phoff + i * h.e_phentsize
}

/// Placing the segments from `i` on: the records added to `done`, or the first
/// failure; and the memory.
pub open spec fn segments_placed(
    data: Seq<u8>,
    mem: MemoryModel,
    h: Elf32Header,
    i: int,
    done: Seq<LoadedSegment>,
) -> (Result<Seq<LoadedSegment>, LoadFailure>, MemoryModel)
    decreases h.e_phnum - i,
{
    if i >= h.e_phnum {
        (Ok(done), mem)
    } else {
        let ph = program_header(data, header_offset(h, i));
        match segment_placed(data, mem, i as nat, ph) {
            (Some(e), m) => (Err(e), m),
            (None, m) => segments_placed(data, m, h, i + 1, done.push(record_of(ph))),
        }
    }
}

/// The first two words of the vector table, or the failure to read them; and the
/// memory.
pub open spec fn vectors_read(mem: MemoryModel) -> (Result<(u32, u32), LoadFailure>, MemoryModel) {
    match mem.reading(0, 4) {
        (Err(f), m) => (Err(LoadFailure::VectorTable { addr: 0, desc: f.text() }), m),
        (Ok(sp), m) => match m.reading(4, 4) {
            (Err(f), m2) => (Err(LoadFailure::VectorTable { addr: 4, desc: f.text() }), m2),
            (Ok(reset), m2) => if reset % 2 == 0 {
                (Err(LoadFailure::NotThumb(reset)), m2)
            } else {
                (Ok((sp, reset)), m2)
            },
        },
    }
}

/// The core after a load: SP and PC from the vector table, in Thumb state.
pub open spec fn loaded_cpu(cpu: CpuState, sp: u32, pc: u32) -> CpuState {
    CpuState { msp: sp, xpsr: cpu.xpsr | XPSR_T, ..cpu }.with_reg(13, sp).with_reg(15, pc)
}

/// A load: SP, PC and segments, or the failure; the memory and the core.
pub open spec fn firmware_loaded(data: Seq<u8>, mem: MemoryModel, cpu: CpuState) -> (
    Result<(u32, u32, Seq<LoadedSegment>), LoadFailure>,
    MemoryModel,
    CpuState,
) {
    match header_of(data) {
        Err(e) => (Err(e), mem, cpu),
        Ok(h) => match segments_placed(data, mem, h, 0, Seq::empty()) {
            (Err(e), m) => (Err(e), m, cpu),
            (Ok(segments), m) => match vectors_read(m) {
                (Err(e), m2) => (Err(e), m2, cpu),
                (Ok((sp, reset)), m2) => (
                    Ok((sp, (reset - 1) as u32, segments)),
                    m2,
                    loaded_cpu(cpu, sp, (reset - 1) as u32),
                ),
            },
        },
    }
}

fn fill_zeros(mem: &mut Memory, start: u32, n: u32) -> (r: Option<(u32, MemoryFault)>)
    requires
        old(mem).wf(),
    ensures
        final(mem).wf(),
        zero_filled(old(mem)@, start, n as nat) == (r, final(mem)@),
{
    let zeros: [u8; 256] = [0; 256];
    let mut addr: u32 = start;
    let mut left: u32 = n;
    while left > 0
        invariant
            mem.wf(),
            zeros@.len() == 256,
            forall|i: int| 0 <= i < 256 ==> zeros[i] == 0,
            zero_filled(mem@, addr, left as nat) == zero_filled(old(mem)@, start, n as nat),
        decreases left,
    {
        let part: u32 = if left < 256 {
            left
        } else {
            256
        };
        let bytes: &[u8] = vstd::slice::slice_subrange(&zeros, 0, part as usize);
        assert(bytes@ =~= Seq::new(part as nat, |i: int| 0u8));
        match mem.load_bytes(addr, bytes) {
            Ok(()) => {},
            Err(f) => {
                return Some((addr, f));
            },
        }
        addr = addr.wrapping_add(part);
        left = left - part;
    }
    None
}

fn write_error(addr: u32, f: MemoryFault) -> (r: LoaderError)
    ensures
        r@ == write_failure(addr, f),
{
    LoaderError::MemoryWrite { addr, desc: f.describe() }
}

fn place_segment(data: &[u8], mem: &mut Memory, i: usize, ph: &ProgramHeader) -> (r: Result<
    (),
    LoaderError,
>)
    requires
        old(mem).wf(),
    ensures
        final(mem).wf(),
        ({
            let (failure, m) = segment_placed(data@, old(mem)@, i as nat, *ph);
            &&& final(mem)@ == m
            &&& match failure {
                Some(e) => r matches Err(x) && x@ == e,
                None => r is Ok,
            }
        }),
{
    proof {
        reveal(segment_placed);
    }
    if ph.p_type != PT_LOAD {
        return Err(LoaderError::UnsupportedSegment(i, ph.p_type));
    }
    if ph.p_offset as u64 + ph.p_filesz as u64 > data.len() as u64 {
        return Err(LoaderError::SegmentDataOutOfBounds(i, ph.p_offset, ph.p_filesz));
    }
    if ph.p_vaddr as u64 + ph.p_memsz as u64 > 0xFFFF_FFFF {
        return Err(
            LoaderError::MemoryWrite { addr: ph.p_vaddr, desc: "段地址溢出 u32".to_string() },
        );
    }
    let start: usize = ph.p_offset as usize;
    let bytes: &[u8] = vstd::slice::slice_subrange(data, start, start + ph.p_filesz as usize);
    match mem.load_bytes(ph.p_vaddr, bytes) {
        Ok(()) => {},
        Err(f) => {
            return Err(write_error(ph.p_vaddr, f));
        },
    }
    if ph.p_memsz > ph.p_filesz {
        if let Some((addr, f)) = fill_zeros(
            mem,
            ph.p_vaddr.wrapping_add(ph.p_filesz),
            ph.p_memsz - ph.p_filesz,
        ) {
            return Err(write_error(addr, f));
        }
    }
    Ok(())
}

fn place_segments(data: &[u8], mem: &mut Memory, h: &Elf32Header) -> (r: Result<
    Vec<LoadedSegment>,
    LoaderError,
>)
    requires
        old(mem).wf(),
        h.e_phentsize >= ELF32_PHDR_SIZE,
        h.e_phoff + h.e_phnum * h.e_phentsize <= data@.len(),
    ensures
        final(mem).wf(),
        ({
            let (result, m) = segments_placed(data@, old(mem)@, *h, 0, Seq::empty());
            &&& final(mem)@ == m
            &&& match result {
                Ok(s) => r matches Ok(v) && v@ == s,
                Err(e) => r matches Err(x) && x@ == e,
            }
        }),
{
    proof {
        reveal(header_offset);
    }
    let mut segments: Vec<LoadedSegment> = Vec::new();
    let mut i: u16 = 0;
    let mut base: u64 = h.e_phoff as u64;
    while i < h.e_phnum
        invariant
            i <= h.e_phnum,
            mem.wf(),
            base == header_offset(*h, i as int),
            h.e_phentsize >= ELF32_PHDR_SIZE,
            h.e_phoff + h.e_phnum * h.e_phentsize <= data@.len(),
            segments_placed(data@, old(mem)@, *h, 0, Seq::empty()) == segments_placed(
                data@,
                mem@,
                *h,
                i as int,
                segments@,
            ),
        decreases h.e_phnum - i,
    {
        proof {
            reveal(header_offset);
            assert(data.len() <= usize::MAX);
            let n = h.e_phnum as int;
            let e = h.e_phentsize as int;
            assert(i * e + e <= n * e) by (nonlinear_arith)
                requires
                    i + 1 <= n,
                    e >= 0,
            ;
            assert((i + 1) * e == i * e + e) by (nonlinear_arith);
        }
        let ph = ProgramHeader::read(data, base as usize);
        let ghost before = mem@;
        match place_segment(data, mem, i as usize, &ph) {
            Ok(()) => {},
            Err(e) => {
                assert(segments_placed(data@, before, *h, i as int, segments@) == (
                    Err::<Seq<LoadedSegment>, LoadFailure>(e@),
                    mem@,
                ));
                return Err(e);
            },
        }
        segments.push(
            LoadedSegment {
                vaddr: ph.p_vaddr,
                filesz: ph.p_filesz,
                memsz: ph.p_memsz,
                flags: ph.p_flags,
            },
        );
        base = base + h.e_phentsize as u64;
        i = i + 1;
    }
    Ok(segments)
}

fn read_vectors(mem: &mut Memory) -> (r: Result<(u32, u32), LoaderError>)
    requires
        old(mem).wf(),
    ensures
        final(mem).wf(),
        ({
            let (result, m) = vectors_read(old(mem)@);
            &&& final(mem)@ == m
            &&& match result {
                Ok(p) => r == Ok::<(u32, u32), LoaderError>(p),
                Err(e) => r matches Err(x) && x@ == e,
            }
        }),
{
    let sp: u32 = match mem.read_u32(0) {
        Ok(v) => v,
        Err(f) => {
            return Err(LoaderError::VectorTable { addr: 0, desc: f.describe() });
        },
    };
    let reset: u32 = match mem.read_u32(4) {
        Ok(v) => v,
        Err(f) => {
            return Err(LoaderError::VectorTable { addr: 4, desc: f.describe() });
        },
    };
    if reset % 2 == 0 {
        return Err(LoaderError::NotThumb(reset));
    }
    Ok((sp, reset))
}

/// ELF loader.
pub struct Loader;

impl Loader {
    /// Loads a firmware from the bytes of its file.
    pub fn load_elf_bytes(data: &[u8], mem: &mut Memory, cpu: &mut CpuState) -> (r: Result<
        LoadSummary,
        LoaderError,
    >)
        requires
            old(mem).wf(),
        ensures
            final(mem).wf(),
            ({
                let (result, m, c) = firmware_loaded(data@, old(mem)@, *old(cpu));
                &&& final(mem)@ == m
                &&& *final(cpu) == c
                &&& match result {
                    Ok((sp, pc, segments)) => r matches Ok(s) && s.initial_sp == sp && s.entry_pc
                        == pc && s.segments@ == segments,
                    Err(e) => r matches Err(x) && x@ == e,
                }
            }),
    {
        let hdr = match Elf32Header::parse(data) {
            Ok(h) => h,
            Err(e) => {
                return Err(e);
            },
        };
        let segments: Vec<LoadedSegment> = match place_segments(data, mem, &hdr) {
            Ok(s) => s,
            Err(e) => {
                return Err(e);
            },
        };
        let (initial_sp, reset): (u32, u32) = match read_vectors(mem) {
            Ok(p) => p,
            Err(e) => {
                return Err(e);
            },
        };
        let entry_pc: u32 = reset - 1;
        cpu.msp = initial_sp;
        cpu.xpsr = cpu.xpsr | XPSR_T;
        cpu.set(13, initial_sp);
        cpu.set(15, entry_pc);
        Ok(LoadSummary { entry_pc, initial_sp, segments })
    }
}

/// A file that is rejected for its header leaves memory and core as they were, and
/// any other failure leaves the core as it was.
pub proof fn law_failed_load(data: Seq<u8>, mem: MemoryModel, cpu: CpuState)
    ensures
        header_of(data) is Err ==> firmware_loaded(data, mem, cpu).1 == mem,
        firmware_loaded(data, mem, cpu).0 is Err ==> firmware_loaded(data, mem, cpu).2 == cpu,
{
}

/// After a load SP and PC come from the vector table, PC is even, the core is in
/// Thumb state, and no other register has changed.
pub proof fn law_loaded_core(data: Seq<u8>, mem: MemoryModel, cpu: CpuState)
    ensures
        firmware_loaded(data, mem, cpu) matches (Ok((sp, pc, segments)), m, c) ==> {
            &&& c.msp == sp
            &&& c.regs[13] == sp
            &&& c.regs[15] == pc
            &&& pc % 2 == 0
            &&& c.xpsr & XPSR_T != 0
            &&& forall|i: int| 0 <= i < 13 ==> c.regs[i] == cpu.regs[i]
            &&& c.psp == cpu.psp
            &&& c.control == cpu.control
            &&& segments.len() == le16(data, 44)
        },
{
    let x = cpu.xpsr;
    assert((x | 0x0100_0000u32) & 0x0100_0000u32 != 0) by (bit_vector);
    if let Ok(h) = header_of(data) {
        lemma_segments_len(data, mem, h, 0, Seq::empty());
    }
}

/// Every program header gives one record.
proof fn lemma_segments_len(
    data: Seq<u8>,
    mem: MemoryModel,
    h: Elf32Header,
    i: int,
    done: Seq<LoadedSegment>,
)
    requires
        0 <= i <= h.e_phnum,
        done.len() == i,
    ensures
        segments_placed(data, mem, h, i, done).0 matches Ok(s) ==> s.len() == h.e_phnum,
    decreases h.e_phnum - i,
{
    if i < h.e_phnum {
        let ph = program_header(data, header_offset(h, i));
        let (failure, m) = segment_placed(data, mem, i as nat, ph);
        if failure is None {
            lemma_segments_len(data, m, h, i + 1, done.push(record_of(ph)));
        }
    }
}

/// All addresses from `addr` on, `n` of them, belong to one region.
pub open spec fn one_region(mem: MemoryModel, addr: u32, n: nat) -> bool {
    &&& addr + n <= 0xFFFF_FFFF
    &&& forall|k: int|
        0 <= k < n ==> mem.region_of(#[trigger] wrap32(addr + k)) == mem.region_of(addr)
}

/// Zero filling sets the bytes and nothing else.
proof fn lemma_zero_filled(mem: MemoryModel, addr: u32, n: nat, r: MemoryRegion, bytes: Seq<u8>)
    requires
        mem.wf(),
        n > 0 ==> mem.region_of(addr) == Some(r),
        n > 0 ==> one_region(mem, addr, n),
        mem.storage(r.region_type) == Some(bytes),
        r.start <= addr,
        zero_filled(mem, addr, n).0 is None,
    ensures
        ({
            let after = zero_filled(mem, addr, n).1;
            &&& after.regions == mem.regions
            &&& after.storage(r.region_type) matches Some(s) && s == splice(
                bytes,
                addr - r.start,
                Seq::new(n, |i: int| 0u8),
            )
        }),
    decreases n,
{
    if n == 0 {
        assert(bytes =~= splice(bytes, addr - r.start, Seq::new(0, |i: int| 0u8)));
    } else {
        let part: nat = if n < 256 {
            n
        } else {
            256
        };
        let zeros = Seq::new(part, |i: int| 0u8);
        let one = mem.loaded(addr, zeros);
        let at = wrap32(addr + part);
        let left = (n - part) as nat;
        lemma_region_backed(mem, addr);
        let s1 = splice(bytes, addr - r.start, zeros);
        assert(one.regions == mem.regions);
        assert(one.storage(r.region_type) == Some(s1));
        assert(one.wf()) by {
            reveal(MemoryModel::wf);
            assert forall|i: int| 0 <= i < one.regions.len() implies match one.storage(
                (#[trigger] one.regions[i]).region_type,
            ) {
                Some(b) => one.regions[i].end - one.regions[i].start <= b.len(),
                None => true,
            } by {
                assert(mem.regions[i] == one.regions[i]);
            }
        }
        assert forall|a: u32| one.region_of(a) == #[trigger] mem.region_of(a) by {}
        if left > 0 {
            assert(wrap32(addr + part as int) == at);
            assert(one.region_of(at) == mem.region_of(at));
            assert forall|k: int| 0 <= k < left implies one.region_of(#[trigger] wrap32(at + k))
                == one.region_of(at) by {
                assert(wrap32(at + k) == wrap32(addr + (part + k)));
                assert(one.region_of(wrap32(at + k)) == mem.region_of(wrap32(at + k)));
            }
        }
        lemma_zero_filled(one, at, left, r, s1);
        assert(splice(s1, at - r.start, Seq::new(left, |i: int| 0u8)) =~= splice(
            bytes,
            addr - r.start,
            Seq::new(n, |i: int| 0u8),
        ));
    }
}

/// A placed segment is in memory: the bytes of the file first, and zeros after them.
pub proof fn law_segment_in_memory(
    data: Seq<u8>,
    mem: MemoryModel,
    i: nat,
    ph: ProgramHeader,
    k: int,
)
    requires
        mem.wf(),
        segment_placed(data, mem, i, ph).0 is None,
        one_region(
            mem,
            ph.p_vaddr,
            if ph.p_filesz < ph.p_memsz {
                ph.p_memsz as nat
            } else {
                ph.p_filesz as nat
            },
        ),
        0 <= k < ph.p_filesz || 0 <= k < ph.p_memsz,
    ensures
        segment_placed(data, mem, i, ph).1.value_at(wrap32(ph.p_vaddr + k), 1) == if k
            < ph.p_filesz {
            data[ph.p_offset + k] as u32
        } else {
            0
        },
{
    reveal(segment_placed);
    let bytes = data.subrange(ph.p_offset as int, ph.p_offset + ph.p_filesz);
    let placed = mem.loaded(ph.p_vaddr, bytes);
    let after = segment_placed(data, mem, i, ph).1;
    let at = wrap32(ph.p_vaddr + k);
    lemma_region_backed(mem, ph.p_vaddr);
    lemma_region_backed(mem, at);
    assert(mem.region_of(at) == mem.region_of(ph.p_vaddr));
    assert(wrap32(ph.p_vaddr + 0) == ph.p_vaddr);
    let tail_at = wrap32(ph.p_vaddr + ph.p_filesz);
    let tail = (ph.p_memsz - ph.p_filesz) as nat;
    if ph.p_filesz == 0 {
        assert(placed == mem);
    }
    if ph.p_memsz > ph.p_filesz {
        assert(mem.region_of(tail_at) == mem.region_of(ph.p_vaddr));
        assert(placed.region_of(tail_at) == mem.region_of(tail_at));
        let part: nat = if tail < 256 {
            tail
        } else {
            256
        };
        assert(placed.load_fault(tail_at, part) is None);
    }
    let r = mem.region_of(ph.p_vaddr)->0;
    let s0 = mem.storage(r.region_type)->0;
    let s1 = if ph.p_filesz == 0 {
        s0
    } else {
        splice(s0, ph.p_vaddr - r.start, bytes)
    };
    assert(placed.regions == mem.regions);
    assert(placed.storage(r.region_type) == Some(s1));
    if ph.p_memsz > ph.p_filesz {
        assert(placed.wf()) by {
            reveal(MemoryModel::wf);
            assert forall|j: int| 0 <= j < placed.regions.len() implies match placed.storage(
                (#[trigger] placed.regions[j]).region_type,
            ) {
                Some(b) => placed.regions[j].end - placed.regions[j].start <= b.len(),
                None => true,
            } by {
                assert(mem.regions[j] == placed.regions[j]);
            }
        }
        assert forall|a: u32| placed.region_of(a) == #[trigger] mem.region_of(a) by {}
        assert forall|j: int| 0 <= j < tail implies placed.region_of(#[trigger] wrap32(tail_at + j))
            == placed.region_of(tail_at) by {
            assert(wrap32(tail_at + j) == wrap32(ph.p_vaddr + (ph.p_filesz + j)));
            assert(placed.region_of(wrap32(tail_at + j)) == mem.region_of(wrap32(tail_at + j)));
        }
        lemma_zero_filled(placed, tail_at, tail, r, s1);
    }
    let s2 = after.storage(r.region_type)->0;
    let pos = at - r.start;
    assert(after.region_of(at) == mem.region_of(at));
    if k < ph.p_filesz {
        assert(s1[pos] == bytes[k]);
        assert(s2[pos] == s1[pos]);
    } else {
        assert(s2[pos] == 0);
    }
}

} // verus!
