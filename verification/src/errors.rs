use vstd::prelude::*;

verus! {

/// The error kinds surfaced by the engine.
///
/// Every failing operation reports exactly one of these; the dispatch loop
/// aborts on the first error and hands it to the caller of `execute`.
#[derive(Clone, Copy, Debug, PartialEq, Eq, Structural)]
pub enum EvmError {
    /// A push on a stack that already holds the maximum number of words.
    StackOverflow,
    /// A pop, peek, dup or swap that reaches deeper than the stack.
    StackUnderflow,
    /// A 256-bit value does not fit in the platform index type where a
    /// checked narrowing is required.
    InvalidOperand,
    /// An index that the operation rejects outright, such as a swap depth of
    /// zero.
    InvalidIndex,
    /// A jump whose destination is not a valid JUMPDEST.
    InvalidJump,
    /// The engine's step budget was exhausted before the program halted.
    StepLimit,
}

impl EvmError {
    /// The human-readable description of the error.
    pub open spec fn message_spec(self) -> Seq<char> {
        match self {
            EvmError::StackOverflow => "stack overflow"@,
            EvmError::StackUnderflow => "stack underflow"@,
            EvmError::InvalidOperand => "invalid operand"@,
            EvmError::InvalidIndex => "invalid index"@,
            EvmError::InvalidJump => "invalid jump"@,
            EvmError::StepLimit => "step limit"@,
        }
    }

    /// Render the error as a human-readable string.
    pub fn message(&self) -> (r: &'static str)
        ensures
            r@ == self.message_spec(),
    {
        match self {
            EvmError::StackOverflow => "stack overflow",
            EvmError::StackUnderflow => "stack underflow",
            EvmError::InvalidOperand => "invalid operand",
            EvmError::InvalidIndex => "invalid index",
            EvmError::InvalidJump => "invalid jump",
            EvmError::StepLimit => "step limit",
        }
    }
}

} // verus!
