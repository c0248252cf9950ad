//! The memory map.
use dtwin::memory::{Memory, MemoryFault, MpuRegion, Watchpoint};
use dtwin::uart::CmsdkUart;

#[test]
fn read_write_sram() {
    let mut m = Memory::test_ram();
    m.write_u32(0x2000_0000, 0xDEAD_BEEF).unwrap();
    assert_eq!(m.read_u32(0x2000_0000).unwrap(), 0xDEAD_BEEF);
    m.write_u16(0x2000_0004, 0x1234).unwrap();
    assert_eq!(m.read_u16(0x2000_0004).unwrap(), 0x1234);
    m.write_u8(0x2000_0008, 0xAB).unwrap();
    assert_eq!(m.read_u8(0x2000_0008).unwrap(), 0xAB);
}

#[test]
fn out_of_range_is_bus_fault() {
    let mut m = Memory::test_ram();
    assert_eq!(m.read_u32(0x3000_0000), Err(MemoryFault::BusFault { address: 0x3000_0000 }));
    assert_eq!(m.write_u8(0xFFFF_0000, 1), Err(MemoryFault::BusFault { address: 0xFFFF_0000 }));
}

#[test]
fn flash_readonly_write_faults() {
    let mut m = Memory::test_ram();

    assert_eq!(m.write_u8(0x0000_0100, 0x11), Err(MemoryFault::ReadOnlyWrite { address: 0x0000_0100 }));

    m.flash[0x200] = 0x7F;
    assert_eq!(m.read_u8(0x0000_0200).unwrap(), 0x7F);
}

#[test]
fn unaligned_detection() {
    let mut m = Memory::test_ram();

    assert_eq!(m.read_u32(0x2000_0002), Err(MemoryFault::UnalignedAccess { address: 0x2000_0002 }));
    assert_eq!(m.write_u32(0x2000_0001, 0), Err(MemoryFault::UnalignedAccess { address: 0x2000_0001 }));

    assert_eq!(m.read_u16(0x2000_0003), Err(MemoryFault::UnalignedAccess { address: 0x2000_0003 }));

    m.unalign_trap = false;
    m.write_u32(0x2000_0002, 0x1122_3344).unwrap();
    assert_eq!(m.read_u32(0x2000_0002).unwrap(), 0x1122_3344);
}

#[test]
fn watchpoint_triggers() {
    let mut m = Memory::test_ram();
    m.watchpoint_add(Watchpoint { address: 0x2000_0010, size: 4, on_write: true, on_read: false });
    m.write_u32(0x2000_0010, 1).unwrap();
    assert_eq!(m.watchpoint_hit, Some(0x2000_0010));
    m.watchpoint_hit = None;
    m.read_u32(0x2000_0010).unwrap();
    assert_eq!(m.watchpoint_hit, None);
}

#[test]
fn mpu_write_protect() {
    let mut m = Memory::test_ram();
    m.mpu_enabled = true;
    m.mpu_add_region(MpuRegion {
        index: 0,
        start: 0x2000_0000,
        size: 0x100,
        read: true,
        write: false,
        execute: true,
        privileged_only: false,
    });
    assert_eq!(m.write_u32(0x2000_0000, 0), Err(MemoryFault::MemManage { address: 0x2000_0000 }));

    m.write_u32(0x2000_0200, 0x55).unwrap();
    assert_eq!(m.read_u32(0x2000_0200).unwrap(), 0x55);
}

#[test]
fn flash_erase_write_behavior() {
    let mut m = Memory::test_ram();
    m.flash[0x300] = 0x5A;

    assert_eq!(m.write_u8(0x0000_0300, 0x00), Err(MemoryFault::ReadOnlyWrite { address: 0x0000_0300 }));

    assert_eq!(m.read_u8(0x0000_0300).unwrap(), 0x5A);

    m.flash_erase_sector(0x0000_0000, 0x1000).unwrap();
    assert_eq!(m.flash[0x300], 0xFF);

    assert_eq!(m.read_u8(0x0000_0300).unwrap(), 0xFF);
}

#[test]
fn load_bytes_writes_directly() {
    let mut m = Memory::test_ram();

    m.load_bytes(0x0000_0100, &[0xDE, 0xAD, 0xBE, 0xEF]).unwrap();
    assert_eq!(m.read_u32(0x0000_0100).unwrap(), 0xEFBE_ADDE);

    m.load_bytes(0x2000_0000, &[1, 2, 3]).unwrap();
    assert_eq!(m.read_u8(0x2000_0000).unwrap(), 1);

    m.load_bytes(0x2000_0004, &[]).unwrap();

    assert_eq!(
        m.load_bytes(0x3000_0000, &[1]),
        Err(MemoryFault::BusFault { address: 0x3000_0000 })
    );
    assert_eq!(
        m.load_bytes(0x0000_0FFE, &[1, 2, 3]),
        Err(MemoryFault::BusFault { address: 0x0000_0FFE })
    );
}

#[test]
fn peripheral_reads_zero() {
    let mut m = Memory::m4f_default();
    assert_eq!(m.read_u32(0x4002_1000).unwrap(), 0);
    m.write_u32(0x4002_1000, 0x1234).unwrap();
    assert_eq!(m.read_u32(0x4002_1000).unwrap(), 0);
}

#[test]
fn peripheral_routes_to_attached_uart() {
    let mut m = Memory::m4f_default();
    m.attach_peripheral(CmsdkUart::new(0x4000_4000));

    m.write_u32(0x4000_4008, 0).unwrap();
    m.write_u32(0x4000_4010, 115200).unwrap();
    m.write_u32(0x4000_4008, 0x3).unwrap();
    m.write_u32(0x4000_4000, b'A' as u32).unwrap();

    assert_eq!(m.read_u32(0x4000_4008).unwrap(), 0x3);
    assert_eq!(m.read_u32(0x4000_4010).unwrap(), 115200);
    assert_eq!(m.read_u32(0x4000_4004).unwrap(), 0);

    let uart = m
        .peripheral_mut_by_name("CMSDK-APB-UART")
        .unwrap()
        .as_uart_mut()
        .unwrap();
    assert_eq!(uart.output(), b"A");
    assert_eq!(uart.tx_count(), 1);

    assert_eq!(m.read_u32(0x4002_1000).unwrap(), 0);
    m.write_u32(0x4002_1000, 0x1234).unwrap();
    assert_eq!(m.read_u32(0x4002_1000).unwrap(), 0);
}
