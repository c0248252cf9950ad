//! Register descriptions: access widths, access kinds and transaction records.
use vstd::prelude::*;

verus! {

/// Width of a register access.
#[derive(Debug, Clone, Copy)]
pub enum AccessWidth {
    Bit,
    Byte,
    HalfWord,
    Word,
}

/// How a register may be accessed.
#[derive(Debug, Clone, Copy)]
pub enum AccessType {
    ReadOnly,
    WriteOnly,
    ReadWrite,
    /// Writing 1 clears.
    W1C,
    /// Writing toggles.
    Toggle,
}

/// A register of a peripheral.
#[derive(Debug, Clone)]
pub struct Register {
    pub offset: u32,
    pub width_bits: u8,
    pub reset_value: u32,
    pub access: AccessType,
    pub name: &'static str,
}

/// A recorded register access.
#[derive(Debug, Clone)]
pub struct AccessLogEntry {
    pub timestamp_ns: u64,
    pub address: u32,
    pub value: u32,
    pub width: AccessWidth,
    pub call_stack: Vec<String>,
}

} // verus!
