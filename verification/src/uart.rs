//! CMSDK APB UART.
//!
//! Register layout (32-bit registers):
//!
//! | offset | name      | meaning                                             |
//! |--------|-----------|-----------------------------------------------------|
//! | 0x00   | DATA      | a write sends a character, a read gives 0 (no RX)   |
//! | 0x04   | STATE     | reads 0: never full, never busy                     |
//! | 0x08   | CTRL      | bit 0 = txen, bit 1 = rxen; kept as written         |
//! | 0x0C   | INTSTATUS | reads 0                                             |
//! | 0x10   | BAUDDIV   | baud rate divider; kept as written                  |
//!
//! Sent characters are collected in a buffer. `echo` records that the owner of
//! the model wants them on its terminal as well.
use crate::peripheral::{BusDevice, DeviceModel};
use vstd::prelude::*;

verus! {

/// Name of the UART on the bus.
pub const UART_NAME: &'static str = "CMSDK-APB-UART";

const REG_DATA: u32 = 0x000;

const REG_CTRL: u32 = 0x008;

const REG_BAUDDIV: u32 = 0x010;

const WINDOW: u32 = 0x014;

/// The bits that an access of `width` bytes carries.
pub open spec fn width_mask_spec(width: u32) -> u32 {
    if width == 1 {
        0xFFu32
    } else if width == 2 {
        0xFFFFu32
    } else {
        0xFFFF_FFFFu32
    }
}

/// The bits that an access of `width` bytes carries.
#[verifier::when_used_as_spec(width_mask_spec)]
pub fn width_mask(width: u32) -> (r: u32)
    ensures
        r == width_mask_spec(width),
{
    match width {
        1 => 0xFF,
        2 => 0xFFFF,
        _ => 0xFFFF_FFFF,
    }
}

/// The state of a UART.
#[verifier::ext_equal]
pub struct UartModel {
    pub base: u32,
    pub ctrl: u32,
    pub bauddiv: u32,
    pub tx_count: u64,
    pub out: Seq<u8>,
    pub echo: bool,
}

impl UartModel {
    /// Offset of an address in the register window.
    pub open spec fn offset(self, addr: u32) -> u32 {
        crate::bits::wrap32(addr - self.base)
    }

    /// CTRL and BAUDDIV read back, every other register reads 0.
    pub open spec fn read_value(self, addr: u32, width: u32) -> u32 {
        let v = if self.offset(addr) == 0x08 {
            self.ctrl
        } else if self.offset(addr) == 0x10 {
            self.bauddiv
        } else {
            0
        };
        v & width_mask_spec(width)
    }

    /// DATA sends the low byte, CTRL and BAUDDIV store, every other register ignores.
    pub open spec fn after_write(self, addr: u32, width: u32, val: u32) -> UartModel {
        let v = val & width_mask_spec(width);
        if self.offset(addr) == 0 {
            UartModel {
                tx_count: crate::bits::wrap64(self.tx_count + 1),
                out: self.out.push((v % 256) as u8),
                ..self
            }
        } else if self.offset(addr) == 0x08 {
            UartModel { ctrl: v, ..self }
        } else if self.offset(addr) == 0x10 {
            UartModel { bauddiv: v, ..self }
        } else {
            self
        }
    }
}

/// CMSDK APB UART.
#[derive(Debug)]
pub struct CmsdkUart {
    base: u32,
    ctrl: u32,
    bauddiv: u32,
    tx_count: u64,
    out: Vec<u8>,
    echo: bool,
}

impl View for CmsdkUart {
    type V = UartModel;

    closed spec fn view(&self) -> UartModel {
        UartModel {
            base: self.base,
            ctrl: self.ctrl,
            bauddiv: self.bauddiv,
            tx_count: self.tx_count,
            out: self.out@,
            echo: self.echo,
        }
    }
}

impl CmsdkUart {
    /// A UART at `base` whose characters are only collected.
    pub fn new(base: u32) -> (r: Self)
        ensures
            r@ == (UartModel {
                base,
                ctrl: 0,
                bauddiv: 0,
                tx_count: 0,
                out: Seq::<u8>::empty(),
                echo: false,
            }),
    {
        Self::with_echo(base, false)
    }

    /// A UART at `base`; `echo` asks for the characters on the terminal.
    pub fn with_echo(base: u32, echo: bool) -> (r: Self)
        ensures
            r@ == (UartModel {
                base,
                ctrl: 0,
                bauddiv: 0,
                tx_count: 0,
                out: Seq::<u8>::empty(),
                echo,
            }),
    {
        CmsdkUart { base, ctrl: 0, bauddiv: 0, tx_count: 0, out: Vec::new(), echo }
    }

    /// The characters collected so far.
    pub fn output(&self) -> (r: &[u8])
        ensures
            r@ == self@.out,
    {
        self.out.as_slice()
    }

    /// Hands out the collected characters and empties the buffer.
    pub fn take_output(&mut self) -> (r: Vec<u8>)
        ensures
            r@ == old(self)@.out,
            final(self)@ == (UartModel { out: Seq::<u8>::empty(), ..old(self)@ }),
    {
        let mut taken: Vec<u8> = Vec::new();
        std::mem::swap(&mut taken, &mut self.out);
        taken
    }

    /// Number of characters sent.
    pub fn tx_count(&self) -> (r: u64)
        ensures
            r == self@.tx_count,
    {
        self.tx_count
    }

    /// CTRL.
    pub fn ctrl(&self) -> (r: u32)
        ensures
            r == self@.ctrl,
    {
        self.ctrl
    }

    /// BAUDDIV.
    pub fn bauddiv(&self) -> (r: u32)
        ensures
            r == self@.bauddiv,
    {
        self.bauddiv
    }

    /// Whether the characters are wanted on the terminal as well.
    pub fn echo(&self) -> (r: bool)
        ensures
            r == self@.echo,
    {
        self.echo
    }

    /// Appends a sent character to the buffer.
    fn capture(&mut self, byte: u8)
        ensures
            final(self)@ == (UartModel { out: old(self)@.out.push(byte), ..old(self)@ }),
    {
        self.out.push(byte);
    }
}

impl BusDevice for CmsdkUart {
    open spec fn model(&self) -> DeviceModel {
        DeviceModel::Uart(self@)
    }

    fn name(&self) -> (r: &'static str) {
        UART_NAME
    }

    fn base_address(&self) -> (r: u32) {
        self.base
    }

    fn window_size(&self) -> (r: u32) {
        WINDOW
    }

    fn read(&mut self, addr: u32, width: u32) -> (r: u32) {
        let off: u32 = addr.wrapping_sub(self.base);
        let v: u32 = match off {
            REG_CTRL => self.ctrl,
            REG_BAUDDIV => self.bauddiv,
            _ => 0,
        };
        v & width_mask(width)
    }

    fn write(&mut self, addr: u32, width: u32, val: u32) {
        let off: u32 = addr.wrapping_sub(self.base);
        let v: u32 = val & width_mask(width);
        match off {
            REG_DATA => {
                self.tx_count = self.tx_count.wrapping_add(1);
                self.capture((v % 256) as u8);
            },
            REG_CTRL => {
                self.ctrl = v;
            },
            REG_BAUDDIV => {
                self.bauddiv = v;
            },
            _ => {},
        }
    }
}

/// The characters come out in the order in which they were written to DATA, and
/// nothing but a write to DATA adds one.
pub proof fn law_uart_output_order(u: UartModel, addr: u32, width: u32, val: u32)
    ensures
        addr == u.base ==> u.after_write(addr, width, val).out == u.out.push(
            ((val & width_mask_spec(width)) % 256) as u8,
        ),
        addr != u.base ==> u.after_write(addr, width, val).out == u.out,
        u.after_write(addr, width, val).base == u.base,
{
    if addr != u.base {
        assert(u.offset(addr) != 0);
    }
}

/// CTRL and BAUDDIV read back what was written, and STATE always reads "ready".
pub proof fn law_uart_read_back(u: UartModel, width: u32, val: u32)
    requires
        u.base <= 0xFFFF_FFEF,
    ensures
        u.after_write((u.base + 8) as u32, width, val).read_value((u.base + 8) as u32, 4) == val
            & width_mask_spec(width),
        u.after_write((u.base + 16) as u32, width, val).read_value((u.base + 16) as u32, 4) == val
            & width_mask_spec(width),
        u.read_value((u.base + 4) as u32, width) == 0,
{
    let v = val & width_mask_spec(width);
    assert(v & 0xFFFF_FFFFu32 == v) by (bit_vector);
    let m = width_mask_spec(width);
    assert(0u32 & m == 0) by (bit_vector);
}

} // verus!
