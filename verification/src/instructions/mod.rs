//! The instruction handlers, one module per instruction family.

use vstd::prelude::*;

use crate::errors::EvmError;

pub mod arithmetic;
pub mod bitwise;
pub mod control;
pub mod i256;
pub mod memory;
pub mod opcode;
pub mod stack;
pub mod system;

verus! {

/// What a handler returns: an error, or the number of bytes by which the
/// instruction pointer advances.
pub type InstructionResult = Result<usize, EvmError>;

} // verus!
