//! Core engine: decoding and execution of ARMv7E-M instructions.
use vstd::prelude::*;

pub mod alu;
pub mod decode;
pub mod dsp;
pub mod encoding_laws;
pub mod engine;
pub mod exception_laws;
pub mod exec;
pub mod float_laws;
pub mod fpu;
pub mod integer_laws;
pub mod laws;
pub mod media;
pub mod media_laws;
pub mod softfloat;
pub mod special;
pub mod step_laws;
pub mod transfer;
pub mod transfer_laws;
pub mod turns;
pub mod vfp;

pub use engine::{Engine, EngineResult, EngineStats};

verus! {

/// How the core runs.
#[derive(Debug, Clone, Copy, PartialEq, Eq, Structural)]
pub enum ExecMode {
    /// One instruction at a time.
    Step,
    /// At full speed, with the clock cycle as unit of time.
    FullSpeed,
}

/// Why an instruction faulted.
#[derive(Debug, Clone, Copy, PartialEq, Eq, Structural)]
pub enum FaultReason {
    MemManage { address: u32 },
    BusFault { address: u32 },
    UsageFault { address: u32 },
    HardFault { pc: u32 },
    UnalignedAccess { address: u32 },
    IllegalInstruction { pc: u32 },
    /// The encoding is not modelled.
    UnimplementedInstr,
}

} // verus!
