//! Interrupt controller: exception numbers, pending and active interrupts, nesting.
use vstd::prelude::*;

verus! {

/// Exceptions: 1 to 15 are system exceptions, 16 and up external interrupts.
#[derive(Debug, Clone, Copy, PartialEq, Eq, Structural)]
pub enum ExceptionNumber {
    Reset,
    Nmi,
    HardFault,
    MemManage,
    BusFault,
    UsageFault,
    SvCall,
    DebugMonitor,
    PendSv,
    SysTick,
    /// External interrupt n.
    External(u16),
}

impl ExceptionNumber {
    /// The number of an exception.
    pub open spec fn number(self) -> int {
        match self {
            ExceptionNumber::Reset => 1,
            ExceptionNumber::Nmi => 2,
            ExceptionNumber::HardFault => 3,
            ExceptionNumber::MemManage => 4,
            ExceptionNumber::BusFault => 5,
            ExceptionNumber::UsageFault => 6,
            ExceptionNumber::SvCall => 11,
            ExceptionNumber::DebugMonitor => 12,
            ExceptionNumber::PendSv => 14,
            ExceptionNumber::SysTick => 15,
            ExceptionNumber::External(n) => 16 + n,
        }
    }

    /// The number of an exception.
    pub fn as_u8(self) -> (r: u8)
        requires
            self.number() <= 255,
        ensures
            r == self.number(),
    {
        match self {
            ExceptionNumber::Reset => 1,
            ExceptionNumber::Nmi => 2,
            ExceptionNumber::HardFault => 3,
            ExceptionNumber::MemManage => 4,
            ExceptionNumber::BusFault => 5,
            ExceptionNumber::UsageFault => 6,
            ExceptionNumber::SvCall => 11,
            ExceptionNumber::DebugMonitor => 12,
            ExceptionNumber::PendSv => 14,
            ExceptionNumber::SysTick => 15,
            ExceptionNumber::External(n) => (16 + n) as u8,
        }
    }
}

/// State of an interrupt.
#[derive(Debug, Clone, Copy, PartialEq, Eq, Structural)]
pub enum IrqState {
    Inactive,
    Pending,
    Active,
    PendingAndActive,
}

/// Record of an exception entry.
#[derive(Debug, Clone)]
pub struct IrqEvent {
    /// The interrupt; 0 for system exceptions.
    pub irq: u16,
    pub trigger_time_ns: u64,
    pub response_time_ns: u64,
    pub exec_duration_ns: u64,
    /// Depth of nesting after the entry.
    pub nesting_level: u8,
}

/// Values in LR that return from an exception. `Fpu` restores the extended frame.
#[derive(Debug, Clone, Copy, PartialEq, Eq, Structural)]
pub enum ExcReturn {
    Handler,
    ThreadMain,
    ThreadProcess,
    HandlerFpu,
    ThreadMainFpu,
    ThreadProcessFpu,
    /// Any other value.
    Invalid,
}

impl ExcReturn {
    /// The meaning of a value.
    pub open spec fn of_value(value: u32) -> ExcReturn {
        if value == 0xFFFF_FFF1 {
            ExcReturn::Handler
        } else if value == 0xFFFF_FFF9 {
            ExcReturn::ThreadMain
        } else if value == 0xFFFF_FFFD {
            ExcReturn::ThreadProcess
        } else if value == 0xFFFF_FFE1 {
            ExcReturn::HandlerFpu
        } else if value == 0xFFFF_FFE9 {
            ExcReturn::ThreadMainFpu
        } else if value == 0xFFFF_FFED {
            ExcReturn::ThreadProcessFpu
        } else {
            ExcReturn::Invalid
        }
    }

    /// The meaning of a value.
    pub fn from_value(value: u32) -> (r: Self)
        ensures
            r == ExcReturn::of_value(value),
    {
        match value {
            0xFFFF_FFF1 => ExcReturn::Handler,
            0xFFFF_FFF9 => ExcReturn::ThreadMain,
            0xFFFF_FFFD => ExcReturn::ThreadProcess,
            0xFFFF_FFE1 => ExcReturn::HandlerFpu,
            0xFFFF_FFE9 => ExcReturn::ThreadMainFpu,
            0xFFFF_FFED => ExcReturn::ThreadProcessFpu,
            _ => ExcReturn::Invalid,
        }
    }
}

/// The state of the controller.
#[verifier::ext_equal]
pub struct NvicModel {
    pub pending: [u32; 8],
    pub enabled: [u32; 8],
    pub active: [u32; 8],
    pub priority: [u8; 240],
    pub current: u8,
    pub events: Seq<IrqEvent>,
    pub stack: Seq<u8>,
}

/// The mask of an interrupt in its word.
pub open spec fn irq_mask(irq: int) -> u32 {
    1u32 << ((irq % 32) as u32)
}

/// An interrupt's bit in a set of words.
pub open spec fn irq_set(words: [u32; 8], irq: int) -> bool {
    words[irq / 32] & irq_mask(irq) != 0
}

impl NvicModel {
    /// The record of an entry.
    pub open spec fn event(self, number: u8) -> IrqEvent {
        IrqEvent {
            irq: if number < 16 {
                0
            } else {
                (number - 16) as u16
            },
            trigger_time_ns: 0,
            response_time_ns: 0,
            exec_duration_ns: 0,
            nesting_level: if self.stack.len() < 255 {
                (self.stack.len() + 1) as u8
            } else {
                255
            },
        }
    }

    /// The state after an exception was entered: an external interrupt becomes
    /// active and is no longer pending.
    pub open spec fn entered(self, number: u8) -> NvicModel {
        let nested = NvicModel {
            current: number,
            events: self.events.push(self.event(number)),
            stack: self.stack.push(self.current),
            ..self
        };
        if number < 16 {
            nested
        } else {
            let irq = number - 16;
            NvicModel {
                pending: vstd::array::spec_array_update(
                    self.pending,
                    irq / 32,
                    self.pending[irq / 32] & !irq_mask(irq),
                ),
                active: vstd::array::spec_array_update(
                    self.active,
                    irq / 32,
                    self.active[irq / 32] | irq_mask(irq),
                ),
                ..nested
            }
        }
    }

    /// The state after the current exception was left: the one it interrupted is
    /// current again, or none.
    pub open spec fn exited(self) -> NvicModel {
        let left = NvicModel {
            current: if self.stack.len() > 0 {
                self.stack.last()
            } else {
                0
            },
            stack: if self.stack.len() > 0 {
                self.stack.drop_last()
            } else {
                self.stack
            },
            ..self
        };
        if self.current < 16 {
            left
        } else {
            let irq = self.current - 16;
            NvicModel {
                active: vstd::array::spec_array_update(
                    self.active,
                    irq / 32,
                    self.active[irq / 32] & !irq_mask(irq),
                ),
                ..left
            }
        }
    }
}

/// Interrupt controller.
#[derive(Debug)]
pub struct Nvic {
    pub pending: [u32; 8],
    pub enabled: [u32; 8],
    pub active: [u32; 8],
    /// Priorities; smaller is more urgent.
    pub priority: [u8; 240],
    /// The exception being handled; 0 in thread mode.
    pub current_exception: u8,
    pub events: Vec<IrqEvent>,
    /// The exceptions that were interrupted, the outermost first.
    pub nesting: Vec<u8>,
}

impl View for Nvic {
    type V = NvicModel;

    open spec fn view(&self) -> NvicModel {
        NvicModel {
            pending: self.pending,
            enabled: self.enabled,
            active: self.active,
            priority: self.priority,
            current: self.current_exception,
            events: self.events@,
            stack: self.nesting@,
        }
    }
}

impl Nvic {
    /// Nothing pending, enabled or active.
    pub fn new() -> (r: Self)
        ensures
            forall|i: int| 0 <= i < 8 ==> r.pending[i] == 0 && r.enabled[i] == 0 && r.active[i] == 0,
            forall|i: int| 0 <= i < 240 ==> r.priority[i] == 0,
            r.current_exception == 0,
            r.events@.len() == 0,
            r.nesting@.len() == 0,
    {
        Nvic {
            pending: [0; 8],
            enabled: [0; 8],
            active: [0; 8],
            priority: [0; 240],
            current_exception: 0,
            events: Vec::new(),
            nesting: Vec::new(),
        }
    }

    /// Enters an exception.
    pub fn enter_exception(&mut self, number: u8)
        ensures
            final(self)@ == old(self)@.entered(number),
    {
        let depth: u8 = if self.nesting.len() < 255 {
            self.nesting.len() as u8 + 1
        } else {
            255
        };
        let irq: u16 = if number < 16 {
            0
        } else {
            number as u16 - 16
        };
        self.nesting.push(self.current_exception);
        self.current_exception = number;
        self.events.push(
            IrqEvent {
                irq,
                trigger_time_ns: 0,
                response_time_ns: 0,
                exec_duration_ns: 0,
                nesting_level: depth,
            },
        );
        if number >= 16 {
            let w: usize = (irq / 32) as usize;
            let mask: u32 = 1u32 << ((irq % 32) as u32);
            self.pending[w] = self.pending[w] & !mask;
            self.active[w] = self.active[w] | mask;
            assert(self.pending =~= old(self)@.entered(number).pending);
            assert(self.active =~= old(self)@.entered(number).active);
        }
    }

    /// Leaves the current exception.
    pub fn exit_exception(&mut self)
        ensures
            final(self)@ == old(self)@.exited(),
    {
        let number: u8 = self.current_exception;
        if number >= 16 {
            let irq: u8 = number - 16;
            let w: usize = (irq / 32) as usize;
            let mask: u32 = 1u32 << ((irq % 32) as u32);
            self.active[w] = self.active[w] & !mask;
            assert(self.active =~= old(self)@.exited().active);
        }
        self.current_exception = match self.nesting.pop() {
            Some(previous) => previous,
            None => 0,
        };
    }
}

impl Default for Nvic {
    fn default() -> (r: Self)
        ensures
            forall|i: int| 0 <= i < 8 ==> r.pending[i] == 0 && r.enabled[i] == 0 && r.active[i] == 0,
            forall|i: int| 0 <= i < 240 ==> r.priority[i] == 0,
            r.current_exception == 0,
            r.events@.len() == 0,
            r.nesting@.len() == 0,
    {
        Nvic::new()
    }
}

/// Leaving an exception right after it was entered gives back the exception that
/// was current and the nesting, and leaves the pending, enabled and priority words
/// as the entry left them.
pub proof fn law_enter_exit(m: NvicModel, number: u8)
    ensures
        m.entered(number).exited().current == m.current,
        m.entered(number).exited().stack == m.stack,
        m.entered(number).exited().pending == m.entered(number).pending,
        m.entered(number).exited().enabled == m.enabled,
        m.entered(number).exited().priority == m.priority,
        m.entered(number).current == number,
{
    assert(m.stack.push(m.current).drop_last() =~= m.stack);
}

/// Entering an external interrupt makes it active and no longer pending, and
/// leaves every other interrupt as it was.
pub proof fn law_enter_external(m: NvicModel, irq: int, other: int)
    requires
        0 <= irq < 240,
        0 <= other < 240,
        other != irq,
    ensures
        !irq_set(m.entered((16 + irq) as u8).pending, irq),
        irq_set(m.entered((16 + irq) as u8).active, irq),
        irq_set(m.entered((16 + irq) as u8).pending, other) == irq_set(m.pending, other),
        irq_set(m.entered((16 + irq) as u8).active, other) == irq_set(m.active, other),
{
    let p = m.pending[irq / 32];
    let a = m.active[irq / 32];
    let j = (irq % 32) as u32;
    let k = (other % 32) as u32;
    assert((p & !(1u32 << j)) & (1u32 << j) == 0 && (a | (1u32 << j)) & (1u32 << j) != 0 && (j != k
        ==> ((p & !(1u32 << j)) & (1u32 << k) == p & (1u32 << k)) && ((a | (1u32 << j)) & (1u32
        << k) == a & (1u32 << k)))) by (bit_vector)
        requires
            j < 32,
            k < 32,
    ;
}

} // verus!
