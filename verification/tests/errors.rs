//! Every error with an input that gives it.
use dtwin::gdb::{GdbServerConfig, GdbServerState, FPB_BREAKPOINT_MAX};
use dtwin::loader::{Loader, LoaderError};
use dtwin::memory::Memory;
use dtwin::nvic::{ExcReturn, ExceptionNumber};
use dtwin::text::{parse_hex_u32, AddressError};
use dtwin::CpuState;

/// A file with the given program headers, each of type, offset, address, size in the
/// file and size in memory, followed by data.
fn elf(headers: &[[u32; 5]], data: &[u8]) -> Vec<u8> {
    let mut f = vec![0u8; 52];
    f[0..4].copy_from_slice(&[0x7F, b'E', b'L', b'F']);
    f[4] = 1;
    f[5] = 1;
    f[16] = 2;
    f[18] = 40;
    f[28] = 52;
    f[42] = 32;
    f[44] = headers.len() as u8;
    for h in headers {
        let mut p = [0u8; 32];
        p[0..4].copy_from_slice(&h[0].to_le_bytes());
        p[4..8].copy_from_slice(&h[1].to_le_bytes());
        p[8..12].copy_from_slice(&h[2].to_le_bytes());
        p[16..20].copy_from_slice(&h[3].to_le_bytes());
        p[20..24].copy_from_slice(&h[4].to_le_bytes());
        f.extend_from_slice(&p);
    }
    f.extend_from_slice(data);
    f
}

fn load(file: &[u8]) -> LoaderError {
    let mut mem = Memory::test_ram();
    let mut cpu = CpuState::default();
    let e = Loader::load_elf_bytes(file, &mut mem, &mut cpu).unwrap_err();
    assert_eq!(cpu.regs, [0; 16]);
    e
}

/// A vector table with an initial SP and a reset vector.
fn vectors(sp: u32, reset: u32) -> Vec<u8> {
    let mut v = sp.to_le_bytes().to_vec();
    v.extend_from_slice(&reset.to_le_bytes());
    v
}

#[test]
fn a_small_firmware_loads() {
    let file = elf(
        &[[1, 116, 0, 8, 8], [1, 116, 0x2000_0010, 4, 600]],
        &vectors(0x2000_1000, 0x101),
    );
    let mut mem = Memory::test_ram();
    mem.sram[0x10 + 599] = 7;
    mem.sram[0x10 + 600] = 7;
    let mut cpu = CpuState::default();
    let s = Loader::load_elf_bytes(&file, &mut mem, &mut cpu).unwrap();
    assert_eq!((s.initial_sp, s.entry_pc), (0x2000_1000, 0x100));
    assert_eq!(s.segments.len(), 2);
    assert_eq!(mem.read_u32(0x2000_0010), Ok(0x2000_1000));
    assert!(mem.sram[0x14..0x10 + 600].iter().all(|b| *b == 0));
    assert_eq!(mem.sram[0x10 + 600], 7);
    assert_eq!(cpu.regs[13], 0x2000_1000);
    assert_eq!(cpu.regs[15], 0x100);
    assert_eq!(cpu.xpsr, 1 << 24);
    assert_eq!(cpu.psp, 0);
}

#[test]
fn headers_are_rejected_in_order() {
    assert!(matches!(load(&[0x7F; 51]), LoaderError::TooSmall(51)));
    let good = elf(&[], &[]);
    let with = |at: usize, v: u8| {
        let mut f = good.clone();
        f[at] = v;
        f
    };
    assert!(matches!(
        load(&with(1, b'F')),
        LoaderError::BadMagic([0x7F, b'F', b'L', b'F'])
    ));
    assert!(matches!(load(&with(4, 2)), LoaderError::NotElf32(2)));
    assert!(matches!(load(&with(5, 2)), LoaderError::NotLittleEndian(2)));
    assert!(matches!(load(&with(18, 62)), LoaderError::NotArm(62)));
    assert!(matches!(load(&with(16, 3)), LoaderError::NotExec(3)));
    assert!(matches!(
        load(&with(42, 31)),
        LoaderError::PhTableOutOfBounds(52, 31, 0, 52)
    ));
    assert!(matches!(
        load(&with(44, 1)),
        LoaderError::PhTableOutOfBounds(52, 32, 1, 52)
    ));
    let mut all = with(1, b'F');
    all[4] = 9;
    all[18] = 9;
    assert!(matches!(load(&all), LoaderError::BadMagic(_)));
    let mut both = with(18, 3);
    both[16] = 3;
    assert!(matches!(load(&both), LoaderError::NotArm(3)));
}

#[test]
fn segments_are_rejected_one_by_one() {
    assert!(matches!(
        load(&elf(&[[2, 0, 0, 0, 0]], &[])),
        LoaderError::UnsupportedSegment(0, 2)
    ));
    assert!(matches!(
        load(&elf(&[[1, 0, 0x2000_0000, 4, 4], [1, 80, 0, 37, 37]], &[])),
        LoaderError::SegmentDataOutOfBounds(1, 80, 37)
    ));
    match load(&elf(&[[1, 0, 0xFFFF_FFFF, 0, 1]], &[])) {
        LoaderError::MemoryWrite { addr, desc } => {
            assert_eq!((addr, desc.as_str()), (0xFFFF_FFFF, "段地址溢出 u32"));
        }
        e => panic!("{e:?}"),
    }
    match load(&elf(&[[1, 0, 0x3000_0000, 4, 4]], &[])) {
        LoaderError::MemoryWrite { addr, desc } => {
            assert_eq!((addr, desc.as_str()), (0x3000_0000, "BusFault @ 0x30000000"));
        }
        e => panic!("{e:?}"),
    }
    match load(&elf(&[[1, 0, 0x2000_0E00, 0, 0x400]], &[])) {
        LoaderError::MemoryWrite { addr, desc } => {
            assert_eq!((addr, desc.as_str()), (0x2000_1000, "BusFault @ 0x20001000"));
        }
        e => panic!("{e:?}"),
    }
}

#[test]
fn the_reset_vector_has_a_thumb_bit() {
    let file = elf(&[[1, 84, 0, 8, 8]], &vectors(0x2000_1000, 0x100));
    assert!(matches!(load(&file), LoaderError::NotThumb(0x100)));
}

#[test]
fn the_vector_table_has_to_be_there() {
    let mut mem = Memory::test_ram();
    mem.regions.remove(0);
    let mut cpu = CpuState::default();
    match Loader::load_elf_bytes(&elf(&[], &[]), &mut mem, &mut cpu) {
        Err(LoaderError::VectorTable { addr: 0, desc }) => assert_eq!(desc, "BusFault @ 0x0"),
        r => panic!("{r:?}"),
    }
}

#[test]
fn address_errors() {
    assert_eq!(parse_hex_u32("0x40004000"), Ok(0x4000_4000));
    assert_eq!(parse_hex_u32("0XfF"), Ok(255));
    assert_eq!(parse_hex_u32("  42\t"), Ok(42));
    assert_eq!(parse_hex_u32("+7"), Ok(7));
    assert_eq!(parse_hex_u32("0x+7"), Ok(7));
    assert_eq!(parse_hex_u32(""), Err(AddressError::Empty));
    assert_eq!(parse_hex_u32("0x"), Err(AddressError::Empty));
    assert_eq!(parse_hex_u32("+"), Err(AddressError::InvalidDigit));
    assert_eq!(parse_hex_u32("-1"), Err(AddressError::InvalidDigit));
    assert_eq!(parse_hex_u32("12g"), Err(AddressError::InvalidDigit));
    assert_eq!(parse_hex_u32("ff"), Err(AddressError::InvalidDigit));
    assert_eq!(parse_hex_u32("0x1 2"), Err(AddressError::InvalidDigit));
    assert_eq!(parse_hex_u32("4294967295"), Ok(u32::MAX));
    assert_eq!(parse_hex_u32("4294967296"), Err(AddressError::Overflow));
    assert_eq!(parse_hex_u32("0x100000000"), Err(AddressError::Overflow));
}

#[test]
fn return_values_and_exception_numbers() {
    assert_eq!(ExcReturn::from_value(0xFFFF_FFF1), ExcReturn::Handler);
    assert_eq!(ExcReturn::from_value(0xFFFF_FFED), ExcReturn::ThreadProcessFpu);
    assert_eq!(ExcReturn::from_value(0xFFFF_FFF0), ExcReturn::Invalid);
    assert_eq!(ExceptionNumber::SysTick.as_u8(), 15);
    assert_eq!(ExceptionNumber::External(239).as_u8(), 255);
}

#[test]
fn debug_server_defaults() {
    let c = GdbServerConfig::default();
    assert_eq!((c.host.as_str(), c.port, c.history_depth), ("127.0.0.1", 3333, 1_000_000));
    assert_eq!(FPB_BREAKPOINT_MAX, 6);
    assert_ne!(GdbServerState::Stopped, GdbServerState::Running);
}
