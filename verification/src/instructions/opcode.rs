//! The opcode table: from each possible byte value to its instruction.

use vstd::prelude::*;

verus! {

/// One decoded instruction. PUSH, DUP and SWAP carry their index: `Push(n)`
/// pushes an `n`-byte immediate (`n` of 0 for PUSH0), `Dup(n)` and `Swap(n)`
/// follow the mnemonic numbering DUP1..DUP16 and SWAP1..SWAP16. Every byte
/// that names no implemented instruction decodes to `Unknown`.
#[derive(Clone, Copy, Debug, PartialEq, Eq, Structural)]
pub enum Instruction {
    Stop,
    Add,
    Mul,
    Sub,
    Div,
    Lt,
    Gt,
    Slt,
    Sgt,
    Eq,
    IsZero,
    And,
    Or,
    Xor,
    Not,
    Byte,
    Shl,
    Shr,
    Sar,
    CallDataLoad,
    CallDataSize,
    CallDataCopy,
    MLoad,
    MStore,
    MStore8,
    Jump,
    JumpI,
    Pc,
    MSize,
    JumpDest,
    Push(u8),
    Dup(u8),
    Swap(u8),
    Return,
    Invalid,
    Unknown,
}

/// The instruction each opcode byte decodes to. Total: every one of the 256
/// byte values yields an instruction, the unassigned ones the `Unknown`
/// sentinel.
pub open spec fn instruction_of(op: u8) -> Instruction {
    if op == 0x00 {
        Instruction::Stop
    } else if op == 0x01 {
        Instruction::Add
    } else if op == 0x02 {
        Instruction::Mul
    } else if op == 0x03 {
        Instruction::Sub
    } else if op == 0x04 {
        Instruction::Div
    } else if op == 0x10 {
        Instruction::Lt
    } else if op == 0x11 {
        Instruction::Gt
    } else if op == 0x12 {
        Instruction::Slt
    } else if op == 0x13 {
        Instruction::Sgt
    } else if op == 0x14 {
        Instruction::Eq
    } else if op == 0x15 {
        Instruction::IsZero
    } else if op == 0x16 {
        Instruction::And
    } else if op == 0x17 {
        Instruction::Or
    } else if op == 0x18 {
        Instruction::Xor
    } else if op == 0x19 {
        Instruction::Not
    } else if op == 0x1a {
        Instruction::Byte
    } else if op == 0x1b {
        Instruction::Shl
    } else if op == 0x1c {
        Instruction::Shr
    } else if op == 0x1d {
        Instruction::Sar
    } else if op == 0x35 {
        Instruction::CallDataLoad
    } else if op == 0x36 {
        Instruction::CallDataSize
    } else if op == 0x37 {
        Instruction::CallDataCopy
    } else if op == 0x51 {
        Instruction::MLoad
    } else if op == 0x52 {
        Instruction::MStore
    } else if op == 0x53 {
        Instruction::MStore8
    } else if op == 0x56 {
        Instruction::Jump
    } else if op == 0x57 {
        Instruction::JumpI
    } else if op == 0x58 {
        Instruction::Pc
    } else if op == 0x59 {
        Instruction::MSize
    } else if op == 0x5b {
        Instruction::JumpDest
    } else if 0x5f <= op && op <= 0x7f {
        Instruction::Push((op - 0x5f) as u8)
    } else if 0x80 <= op && op <= 0x8f {
        Instruction::Dup((op - 0x7f) as u8)
    } else if 0x90 <= op && op <= 0x9f {
        Instruction::Swap((op - 0x8f) as u8)
    } else if op == 0xf3 {
        Instruction::Return
    } else if op == 0xfe {
        Instruction::Invalid
    } else {
        Instruction::Unknown
    }
}

/// Dispatch totality: every byte value decodes to an instruction whose
/// payload is in range, and to `Unknown` exactly when the byte names no
/// implemented instruction.
pub proof fn lemma_dispatch_total(op: u8)
    ensures
        instruction_of(op) matches Instruction::Push(n) ==> n <= 32,
        instruction_of(op) matches Instruction::Dup(n) ==> 1 <= n <= 16,
        instruction_of(op) matches Instruction::Swap(n) ==> 1 <= n <= 16,
        (instruction_of(op) == Instruction::Unknown) <==> !(op == 0x00 || 0x01 <= op <= 0x04
            || 0x10 <= op <= 0x1d || 0x35 <= op <= 0x37 || 0x51 <= op <= 0x53 || 0x56 <= op
            <= 0x59 || op == 0x5b || 0x5f <= op <= 0x9f || op == 0xf3 || op == 0xfe),
{
}

/// Look up the instruction for an opcode byte.
pub fn instruction(opcode: u8) -> (r: Instruction)
    ensures
        r == instruction_of(opcode),
{
    if opcode == 0x00 {
        Instruction::Stop
    } else if opcode == 0x01 {
        Instruction::Add
    } else if opcode == 0x02 {
        Instruction::Mul
    } else if opcode == 0x03 {
        Instruction::Sub
    } else if opcode == 0x04 {
        Instruction::Div
    } else if opcode == 0x10 {
        Instruction::Lt
    } else if opcode == 0x11 {
        Instruction::Gt
    } else if opcode == 0x12 {
        Instruction::Slt
    } else if opcode == 0x13 {
        Instruction::Sgt
    } else if opcode == 0x14 {
        Instruction::Eq
    } else if opcode == 0x15 {
        Instruction::IsZero
    } else if opcode == 0x16 {
        Instruction::And
    } else if opcode == 0x17 {
        Instruction::Or
    } else if opcode == 0x18 {
        Instruction::Xor
    } else if opcode == 0x19 {
        Instruction::Not
    } else if opcode == 0x1a {
        Instruction::Byte
    } else if opcode == 0x1b {
        Instruction::Shl
    } else if opcode == 0x1c {
        Instruction::Shr
    } else if opcode == 0x1d {
        Instruction::Sar
    } else if opcode == 0x35 {
        Instruction::CallDataLoad
    } else if opcode == 0x36 {
        Instruction::CallDataSize
    } else if opcode == 0x37 {
        Instruction::CallDataCopy
    } else if opcode == 0x51 {
        Instruction::MLoad
    } else if opcode == 0x52 {
        Instruction::MStore
    } else if opcode == 0x53 {
        Instruction::MStore8
    } else if opcode == 0x56 {
        Instruction::Jump
    } else if opcode == 0x57 {
        Instruction::JumpI
    } else if opcode == 0x58 {
        Instruction::Pc
    } else if opcode == 0x59 {
        Instruction::MSize
    } else if opcode == 0x5b {
        Instruction::JumpDest
    } else if 0x5f <= opcode && opcode <= 0x7f {
        Instruction::Push(opcode - 0x5f)
    } else if 0x80 <= opcode && opcode <= 0x8f {
        Instruction::Dup(opcode - 0x7f)
    } else if 0x90 <= opcode && opcode <= 0x9f {
        Instruction::Swap(opcode - 0x8f)
    } else if opcode == 0xf3 {
        Instruction::Return
    } else if opcode == 0xfe {
        Instruction::Invalid
    } else {
        Instruction::Unknown
    }
}

} // verus!
