//! An interpreter for a 32-bit register machine whose code is laid out in
//! basic blocks, with bounded memory regions, host calls and gas metering.

pub mod abi;
pub mod operation;
pub mod program;
pub mod memory;
pub mod interpreter;
pub mod laws;
