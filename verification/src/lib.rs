//! Driver twin: a behavioural model of ARM Cortex-M microcontrollers.
//!
//! The library holds the core (instruction decoder, executor, floating point and
//! DSP units), the memory map with its bus devices, the exception model, the ELF
//! loader and the chip profiles.
pub mod bits;
pub mod chip;
pub mod cpu;
pub mod engine;
pub mod gdb;
pub mod image_laws;
pub mod loader;
pub mod memory;
pub mod nvic;
pub mod peripheral;
pub mod register;
pub mod system;
pub mod system_laws;
pub mod text;
pub mod uart;

pub use cpu::{CoreType, CpuState};
