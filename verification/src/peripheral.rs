//! Peripheral interfaces and the devices that hang on the bus.
use crate::system::SystemBlock;
use crate::uart::{CmsdkUart, UartModel};
use vstd::prelude::*;

verus! {

/// How far a peripheral is modelled.
#[derive(Debug, Clone, Copy, PartialEq, Eq, Structural)]
pub enum PeripheralStatus {
    /// Full behaviour.
    Implemented,
    /// Part of the behaviour.
    Partial,
    /// Register storage only.
    Stub,
}

/// A clocked peripheral.
pub trait Peripheral {
    /// Name, such as "USART1".
    fn name(&self) -> &str;

    /// Base address.
    fn base_address(&self) -> u32;

    /// How far the peripheral is modelled.
    fn status(&self) -> PeripheralStatus;

    /// Puts the peripheral into its reset state.
    fn reset(&mut self);

    /// Advances the peripheral by a number of clock cycles.
    fn tick(&mut self, cycles: u64);
}

/// What a bus device is, as far as the bus can tell.
#[verifier::ext_equal]
pub enum DeviceModel {
    Uart(UartModel),
    System(SystemBlock),
    /// A device of another kind.
    Custom(CustomModel),
}

/// The state of a device of any kind.
#[verifier::ext_equal]
pub enum DeviceState {
    Uart(UartModel),
    System(SystemBlock),
    /// Words that only the device itself understands.
    Words(Seq<u64>),
}

/// A device as an automaton: its state, the value and the next state that a read
/// gives, and the next state that a write gives.
#[verifier::ext_equal]
pub struct CustomModel {
    pub name: Seq<char>,
    pub base: u32,
    pub window: u32,
    pub state: DeviceState,
    /// From state, address and width to value and state.
    pub on_read: spec_fn(DeviceState, u32, u32) -> (u32, DeviceState),
    /// From state, address, width and value to state.
    pub on_write: spec_fn(DeviceState, u32, u32, u32) -> DeviceState,
}

impl DeviceModel {
    pub open spec fn name(self) -> Seq<char> {
        match self {
            DeviceModel::Uart(_) => crate::uart::UART_NAME@,
            DeviceModel::System(_) => crate::system::SYSTEM_BLOCK_NAME@,
            DeviceModel::Custom(c) => c.name,
        }
    }

    pub open spec fn base(self) -> u32 {
        match self {
            DeviceModel::Uart(u) => u.base,
            DeviceModel::System(_) => 0xE000_E000u32,
            DeviceModel::Custom(c) => c.base,
        }
    }

    pub open spec fn window(self) -> u32 {
        match self {
            DeviceModel::Uart(_) => 0x14u32,
            DeviceModel::System(_) => 0x1000u32,
            DeviceModel::Custom(c) => c.window,
        }
    }

    /// Whether an address falls into the device's register window.
    pub open spec fn covers(self, addr: u32) -> bool {
        self.base() <= addr < crate::bits::wrap32(self.base() + self.window())
    }

    /// The value that a read gives.
    pub open spec fn read_value(self, addr: u32, width: u32) -> u32 {
        match self {
            DeviceModel::Uart(u) => u.read_value(addr, width),
            DeviceModel::System(s) => s.read_value(addr, width),
            DeviceModel::Custom(c) => (c.on_read)(c.state, addr, width).0,
        }
    }

    /// The device after a read.
    pub open spec fn after_read(self, addr: u32, width: u32) -> DeviceModel {
        match self {
            DeviceModel::Uart(u) => DeviceModel::Uart(u),
            DeviceModel::System(s) => DeviceModel::System(s.after_read(addr, width)),
            DeviceModel::Custom(c) => DeviceModel::Custom(
                CustomModel { state: (c.on_read)(c.state, addr, width).1, ..c },
            ),
        }
    }

    /// The device after a write.
    pub open spec fn after_write(self, addr: u32, width: u32, val: u32) -> DeviceModel {
        match self {
            DeviceModel::Uart(u) => DeviceModel::Uart(u.after_write(addr, width, val)),
            DeviceModel::System(s) => DeviceModel::System(s.after_write(addr, width, val)),
            DeviceModel::Custom(c) => DeviceModel::Custom(
                CustomModel { state: (c.on_write)(c.state, addr, width, val), ..c },
            ),
        }
    }

    /// The device with its kind hidden, as it is behind a trait object.
    pub open spec fn boxed(self) -> DeviceModel {
        match self {
            DeviceModel::Custom(c) => self,
            DeviceModel::Uart(u) => DeviceModel::Custom(
                CustomModel {
                    name: self.name(),
                    base: self.base(),
                    window: self.window(),
                    state: DeviceState::Uart(u),
                    on_read: |s: DeviceState, addr: u32, width: u32| state_read(s, addr, width),
                    on_write: |s: DeviceState, addr: u32, width: u32, val: u32|
                        state_written(s, addr, width, val),
                },
            ),
            DeviceModel::System(b) => DeviceModel::Custom(
                CustomModel {
                    name: self.name(),
                    base: self.base(),
                    window: self.window(),
                    state: DeviceState::System(b),
                    on_read: |s: DeviceState, addr: u32, width: u32| state_read(s, addr, width),
                    on_write: |s: DeviceState, addr: u32, width: u32, val: u32|
                        state_written(s, addr, width, val),
                },
            ),
        }
    }
}

/// What a read does to the state of a device of this library.
pub open spec fn state_read(s: DeviceState, addr: u32, width: u32) -> (u32, DeviceState) {
    match s {
        DeviceState::Uart(u) => (u.read_value(addr, width), s),
        DeviceState::System(b) => (
            b.read_value(addr, width),
            DeviceState::System(b.after_read(addr, width)),
        ),
        DeviceState::Words(_) => (0, s),
    }
}

/// What a write does to the state of a device of this library.
pub open spec fn state_written(s: DeviceState, addr: u32, width: u32, val: u32) -> DeviceState {
    match s {
        DeviceState::Uart(u) => DeviceState::Uart(u.after_write(addr, width, val)),
        DeviceState::System(b) => DeviceState::System(b.after_write(addr, width, val)),
        DeviceState::Words(_) => s,
    }
}

/// Hiding the kind of a device hides nothing that the bus can tell.
pub proof fn law_boxed(m: DeviceModel, addr: u32, width: u32, val: u32)
    ensures
        m.boxed() is Custom,
        m.boxed().name() == m.name(),
        m.boxed().base() == m.base(),
        m.boxed().window() == m.window(),
        m.boxed().read_value(addr, width) == m.read_value(addr, width),
        m.boxed().after_read(addr, width) == m.after_read(addr, width).boxed(),
        m.boxed().after_write(addr, width, val) == m.after_write(addr, width, val).boxed(),
{
}

/// A device that takes over the reads and writes of an address window.
///
/// `Memory` asks its devices in the order in which they were attached; the first
/// one whose window holds the address gets the access. An access that no device
/// takes reads as 0 or is ignored.
pub trait BusDevice {
    /// What the device is on the bus.
    spec fn model(&self) -> DeviceModel;

    /// Device name, such as "CMSDK-APB-UART".
    fn name(&self) -> (r: &'static str)
        ensures
            r@ == self.model().name(),
    ;

    /// Base address.
    fn base_address(&self) -> (r: u32)
        ensures
            r == self.model().base(),
    ;

    /// Number of bytes in the register window.
    fn window_size(&self) -> (r: u32)
        ensures
            r == self.model().window(),
    ;

    /// Reads a register at an absolute address; the result is masked to `width` bytes.
    fn read(&mut self, addr: u32, width: u32) -> (r: u32)
        ensures
            r == old(self).model().read_value(addr, width),
            final(self).model() == old(self).model().after_read(addr, width),
    ;

    /// Writes a register at an absolute address.
    fn write(&mut self, addr: u32, width: u32, val: u32)
        ensures
            final(self).model() == old(self).model().after_write(addr, width, val),
    ;
}

/// What can be attached to the bus: the devices of this library as they are, any
/// other device as a `Device::Custom`.
pub trait Attach: Sized {
    /// What the device is once it is attached.
    spec fn attached(&self) -> DeviceModel;

    /// The device as it is stored on the bus.
    fn into_device(self) -> (r: Device)
        ensures
            r@ == self.attached(),
    ;
}

/// A device on the bus.
pub enum Device {
    Uart(CmsdkUart),
    System(SystemBlock),
    Custom(Box<dyn BusDevice>),
}

impl View for Device {
    type V = DeviceModel;

    open spec fn view(&self) -> DeviceModel {
        match *self {
            Device::Uart(u) => DeviceModel::Uart(u@),
            Device::System(s) => DeviceModel::System(s),
            Device::Custom(d) => d.model().boxed(),
        }
    }
}

impl Device {
    /// The UART, if the device is one.
    pub fn as_uart_mut(&mut self) -> (r: Option<&mut CmsdkUart>)
        ensures
            match r {
                Some(u) => old(self)@ == DeviceModel::Uart(u@) && final(self)@
                    == DeviceModel::Uart(final(u)@),
                None => !(old(self)@ is Uart) && final(self)@ == old(self)@,
            },
    {
        match self {
            Device::Uart(u) => Some(u),
            _ => None,
        }
    }

    /// The system block, if the device is it.
    pub fn as_system_block_mut(&mut self) -> (r: Option<&mut SystemBlock>)
        ensures
            match r {
                Some(s) => old(self)@ == DeviceModel::System(*s) && final(self)@
                    == DeviceModel::System(*final(s)),
                None => !(old(self)@ is System) && final(self)@ == old(self)@,
            },
    {
        match self {
            Device::System(s) => Some(s),
            _ => None,
        }
    }

    /// Device name.
    pub fn name(&self) -> (r: &'static str)
        ensures
            r@ == self@.name(),
    {
        match self {
            Device::Uart(u) => u.name(),
            Device::System(s) => s.name(),
            Device::Custom(d) => d.name(),
        }
    }

    /// Base address.
    pub fn base_address(&self) -> (r: u32)
        ensures
            r == self@.base(),
    {
        match self {
            Device::Uart(u) => u.base_address(),
            Device::System(s) => s.base_address(),
            Device::Custom(d) => d.base_address(),
        }
    }

    /// Number of bytes in the register window.
    pub fn window_size(&self) -> (r: u32)
        ensures
            r == self@.window(),
    {
        match self {
            Device::Uart(u) => u.window_size(),
            Device::System(s) => s.window_size(),
            Device::Custom(d) => d.window_size(),
        }
    }

    /// Reads a register at an absolute address.
    pub fn read(&mut self, addr: u32, width: u32) -> (r: u32)
        ensures
            r == old(self)@.read_value(addr, width),
            final(self)@ == old(self)@.after_read(addr, width),
    {
        match self {
            Device::Uart(u) => u.read(addr, width),
            Device::System(s) => s.read(addr, width),
            Device::Custom(d) => {
                proof {
                    law_boxed(d.model(), addr, width, 0);
                }
                d.read(addr, width)
            },
        }
    }

    /// Writes a register at an absolute address.
    pub fn write(&mut self, addr: u32, width: u32, val: u32)
        ensures
            final(self)@ == old(self)@.after_write(addr, width, val),
    {
        match self {
            Device::Uart(u) => u.write(addr, width, val),
            Device::System(s) => s.write(addr, width, val),
            Device::Custom(d) => {
                proof {
                    law_boxed(d.model(), addr, width, val);
                }
                d.write(addr, width, val);
            },
        }
    }
}

impl Attach for Device {
    open spec fn attached(&self) -> DeviceModel {
        self@
    }

    fn into_device(self) -> (r: Device) {
        self
    }
}

impl Attach for CmsdkUart {
    open spec fn attached(&self) -> DeviceModel {
        self.model()
    }

    fn into_device(self) -> (r: Device) {
        Device::Uart(self)
    }
}

impl Attach for SystemBlock {
    open spec fn attached(&self) -> DeviceModel {
        self.model()
    }

    fn into_device(self) -> (r: Device) {
        Device::System(self)
    }
}

} // verus!
