//! The UART.
use dtwin::uart::CmsdkUart;
use dtwin::peripheral::BusDevice;

#[test]
fn tx_data_captured_in_buffer() {
    let mut uart = CmsdkUart::new(0x4000_4000);
    for (addr, b) in [
        (0x4000_4000, b'H'),
        (0x4000_4000, b'i'),
        (0x4000_4000, b'\r'),
        (0x4000_4000, b'\n'),
    ] {
        uart.write(addr, 4, b as u32);
    }
    assert_eq!(uart.output(), b"Hi\r\n");
    assert_eq!(uart.tx_count(), 4);

    uart.write(0x4000_4000, 4, 0x0000_00AA);
    assert_eq!(uart.output()[4], 0xAA);

    uart.write(0x4000_4000, 2, 0x00BB);
    assert_eq!(uart.output()[5], 0xBB);

    uart.write(0x4000_4000, 1, 0xCC);
    assert_eq!(uart.output()[6], 0xCC);
    assert_eq!(uart.output().len(), 7);
}

#[test]
fn ctrl_bauddiv_readback() {
    let mut uart = CmsdkUart::new(0x4000_4000);

    uart.write(0x4000_4008, 4, 0);
    uart.write(0x4000_4010, 4, 115200);
    uart.write(0x4000_4008, 4, 0x3);
    assert_eq!(uart.ctrl(), 0x3);
    assert_eq!(uart.bauddiv(), 115200);
    assert_eq!(uart.read(0x4000_4008, 4), 0x3);
    assert_eq!(uart.read(0x4000_4010, 4), 115200);

    assert_eq!(uart.read(0x4000_4008, 1), 0x3);
    assert_eq!(uart.read(0x4000_4008, 2), 0x3);
}

#[test]
fn state_reads_zero_tx_ready() {
    let mut uart = CmsdkUart::new(0x4000_4000);

    assert_eq!(uart.read(0x4000_4004, 4), 0);
    assert_eq!(uart.read(0x4000_4004, 1), 0);

    uart.write(0x4000_4004, 4, 0xFFFF_FFFF);
    assert_eq!(uart.read(0x4000_4004, 4), 0);

    assert_eq!(uart.read(0x4000_400C, 4), 0);

    assert_eq!(uart.read(0x4000_4014, 4), 0);
    uart.write(0x4000_4014, 4, 0x1234);
    assert_eq!(uart.read(0x4000_4014, 4), 0);
}

#[test]
fn data_read_returns_zero_no_rx() {
    let mut uart = CmsdkUart::new(0x4000_4000);
    uart.write(0x4000_4000, 4, b'X' as u32);

    assert_eq!(uart.read(0x4000_4000, 4), 0);
}

#[test]
fn take_output_clears() {
    let mut uart = CmsdkUart::new(0x4000_4000);
    uart.write(0x4000_4000, 4, b'A' as u32);
    let v = uart.take_output();
    assert_eq!(v, b"A");
    assert!(uart.output().is_empty());
}
