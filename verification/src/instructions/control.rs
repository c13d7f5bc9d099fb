//! Control-flow instructions: STOP, JUMP, JUMPI, PC, JUMPDEST, RETURN,
//! INVALID, and the sentinel handler for unknown opcodes.

use vstd::prelude::*;
use vstd::slice::slice_to_vec;

use crate::bytecode::jumpdest_spec;
use crate::errors::EvmError;
use crate::interpreter::{bytes_at, grown, same_except_stack, unchanged, Interpreter};
use crate::utils::ToUsize;
use crate::word::Word;

use super::InstructionResult;

verus! {

/// The exact effect of STOP on the interpreter state and its result.
pub open spec fn stop_rel(pre: Interpreter, post: Interpreter, r: InstructionResult) -> bool {
    &&& (r == Ok::<usize, EvmError>(0))
    &&& (post.stack@ == pre.stack@)
    &&& (post.stack.size == pre.stack.size)
    &&& (post.memory == pre.memory)
    &&& (post.contract == pre.contract)
    &&& (post.gas == pre.gas)
    &&& (post.instruction_pointer == pre.instruction_pointer)
    &&& (post.return_data_buffer == pre.return_data_buffer)
    &&& (post.stopped)
}

/// STOP: raise the halt flag.
pub fn stop(interpreter: &mut Interpreter) -> (r: InstructionResult)
    requires
        old(interpreter).wf(),
    ensures
        final(interpreter).wf(),
        stop_rel(*old(interpreter), *final(interpreter), r),
{
    interpreter.stop();
    Ok(0)
}

/// The exact effect of JUMP on the interpreter state and its result.
pub open spec fn jump_rel(pre: Interpreter, post: Interpreter, r: InstructionResult) -> bool {
    &&& (({
        let s = pre.stack@;
        let code = pre.contract.bytecode.bytes@;
        if s.len() < 1 {
            r == Err::<usize, EvmError>(EvmError::StackUnderflow) && unchanged(
                pre,
                post,
            )
        } else if s.last().as_nat() > usize::MAX {
            r == Err::<usize, EvmError>(EvmError::InvalidOperand) && unchanged(
                pre,
                post,
            )
        } else if !(s.last().as_nat() < code.len() && jumpdest_spec(
            code,
            s.last().as_nat() as int,
        )) {
            r == Err::<usize, EvmError>(EvmError::InvalidJump) && unchanged(
                pre,
                post,
            )
        } else {
            &&& r == Ok::<usize, EvmError>(0)
            &&& post.stack@ == s.drop_last()
            &&& post.instruction_pointer == s.last().as_nat()
            &&& post.stack.size == pre.stack.size
            &&& post.memory == pre.memory
            &&& post.contract == pre.contract
            &&& post.gas == pre.gas
            &&& post.return_data_buffer == pre.return_data_buffer
            &&& post.stopped == pre.stopped
        }
    }))
}

/// JUMP: pop a destination; set the instruction pointer to it when it is a
/// valid JUMPDEST, fail with `invalid_jump` otherwise.
pub fn jump(interpreter: &mut Interpreter) -> (r: InstructionResult)
    requires
        old(interpreter).wf(),
    ensures
        final(interpreter).wf(),
        jump_rel(*old(interpreter), *final(interpreter), r),
{
    if interpreter.stack.len() < 1 {
        return Err(EvmError::StackUnderflow);
    }
    let addr_word = match interpreter.stack.peek(0) {
        Some(w) => w,
        None => {
            return Err(EvmError::StackUnderflow);
        },
    };
    let addr = match addr_word.as_usize() {
        Ok(a) => a,
        Err(e) => {
            return Err(e);
        },
    };
    if !interpreter.contract.is_valid_jump(addr) {
        return Err(EvmError::InvalidJump);
    }
    match interpreter.stack.pop() {
        Ok(_) => {},
        Err(e) => {
            return Err(e);
        },
    }
    interpreter.instruction_pointer = addr;
    Ok(0)
}

/// The exact effect of JUMPI on the interpreter state and its result.
pub open spec fn jumpi_rel(pre: Interpreter, post: Interpreter, r: InstructionResult) -> bool {
    &&& (({
        let s = pre.stack@;
        let code = pre.contract.bytecode.bytes@;
        if s.len() < 2 {
            r == Err::<usize, EvmError>(EvmError::StackUnderflow) && unchanged(
                pre,
                post,
            )
        } else if s[s.len() - 2].as_nat() == 0 {
            &&& r == Ok::<usize, EvmError>(1)
            &&& post.stack@ == s.drop_last().drop_last()
            &&& same_except_stack(pre, post)
        } else if s.last().as_nat() > usize::MAX {
            r == Err::<usize, EvmError>(EvmError::InvalidOperand) && unchanged(
                pre,
                post,
            )
        } else if !(s.last().as_nat() < code.len() && jumpdest_spec(
            code,
            s.last().as_nat() as int,
        )) {
            r == Err::<usize, EvmError>(EvmError::InvalidJump) && unchanged(
                pre,
                post,
            )
        } else {
            &&& r == Ok::<usize, EvmError>(0)
            &&& post.stack@ == s.drop_last().drop_last()
            &&& post.instruction_pointer == s.last().as_nat()
            &&& post.stack.size == pre.stack.size
            &&& post.memory == pre.memory
            &&& post.contract == pre.contract
            &&& post.gas == pre.gas
            &&& post.return_data_buffer == pre.return_data_buffer
            &&& post.stopped == pre.stopped
        }
    }))
}

/// JUMPI: pop a destination and a condition; jump when the condition is
/// nonzero, fall through (advance 1) when it is zero.
pub fn jumpi(interpreter: &mut Interpreter) -> (r: InstructionResult)
    requires
        old(interpreter).wf(),
    ensures
        final(interpreter).wf(),
        jumpi_rel(*old(interpreter), *final(interpreter), r),
{
    if interpreter.stack.len() < 2 {
        return Err(EvmError::StackUnderflow);
    }
    let cond = match interpreter.stack.peek(1) {
        Some(w) => w,
        None => {
            return Err(EvmError::StackUnderflow);
        },
    };
    if cond.is_zero() {
        match interpreter.stack.pop() {
            Ok(_) => {},
            Err(e) => {
                return Err(e);
            },
        }
        match interpreter.stack.pop() {
            Ok(_) => {},
            Err(e) => {
                return Err(e);
            },
        }
        return Ok(1);
    }
    let addr_word = match interpreter.stack.peek(0) {
        Some(w) => w,
        None => {
            return Err(EvmError::StackUnderflow);
        },
    };
    let addr = match addr_word.as_usize() {
        Ok(a) => a,
        Err(e) => {
            return Err(e);
        },
    };
    if !interpreter.contract.is_valid_jump(addr) {
        return Err(EvmError::InvalidJump);
    }
    match interpreter.stack.pop() {
        Ok(_) => {},
        Err(e) => {
            return Err(e);
        },
    }
    match interpreter.stack.pop() {
        Ok(_) => {},
        Err(e) => {
            return Err(e);
        },
    }
    interpreter.instruction_pointer = addr;
    Ok(0)
}

/// The exact effect of PC on the interpreter state and its result.
pub open spec fn pc_rel(pre: Interpreter, post: Interpreter, r: InstructionResult) -> bool {
    &&& (same_except_stack(pre, post))
    &&& (pre.stack@.len() == pre.stack.size ==> r == Err::<usize, EvmError>(
        EvmError::StackOverflow,
    ) && post.stack@ == pre.stack@)
    &&& (pre.stack@.len() < pre.stack.size ==> r == Ok::<usize, EvmError>(1) && ({
        let s = pre.stack@;
        &&& post.stack@.len() == s.len() + 1
        &&& post.stack@.drop_last() == s
        &&& post.stack@.last().as_nat() == pre.instruction_pointer
    }))
}

/// PC: push the current instruction pointer.
pub fn pc(interpreter: &mut Interpreter) -> (r: InstructionResult)
    requires
        old(interpreter).wf(),
    ensures
        final(interpreter).wf(),
        pc_rel(*old(interpreter), *final(interpreter), r),
{
    let w = Word::from_u64(interpreter.instruction_pointer as u64);
    match interpreter.stack.push(w) {
        Ok(_) => {},
        Err(e) => {
            return Err(e);
        },
    }
    proof {
        assert(interpreter.stack@.drop_last() =~= old(interpreter).stack@);
    }
    Ok(1)
}

/// The exact effect of JUMPDEST on the interpreter state and its result.
pub open spec fn jumpdest_rel(pre: Interpreter, post: Interpreter, r: InstructionResult) -> bool {
    &&& (r == Ok::<usize, EvmError>(1))
    &&& (unchanged(pre, post))
}

/// JUMPDEST: a no-op marker; advance past it.
pub fn jumpdest(interpreter: &mut Interpreter) -> (r: InstructionResult)
    requires
        old(interpreter).wf(),
    ensures
        final(interpreter).wf(),
        jumpdest_rel(*old(interpreter), *final(interpreter), r),
{
    Ok(1)
}

/// The exact effect of RETURN on the interpreter state and its result.
pub open spec fn ret_rel(pre: Interpreter, post: Interpreter, r: InstructionResult) -> bool {
    &&& (({
        let s = pre.stack@;
        let m = pre.memory@;
        if s.len() < 2 {
            r == Err::<usize, EvmError>(EvmError::StackUnderflow) && unchanged(
                pre,
                post,
            )
        } else if s.last().as_nat() > usize::MAX || s[s.len() - 2].as_nat()
            > usize::MAX || s.last().as_nat() + s[s.len() - 2].as_nat() > usize::MAX {
            r == Err::<usize, EvmError>(EvmError::InvalidOperand) && unchanged(
                pre,
                post,
            )
        } else {
            let offset = s.last().as_nat();
            let count = s[s.len() - 2].as_nat();
            &&& r == Ok::<usize, EvmError>(0)
            &&& post.stack@ == s.drop_last().drop_last()
            &&& post.stopped
            &&& post.stack.size == pre.stack.size
            &&& post.contract == pre.contract
            &&& post.gas == pre.gas
            &&& post.instruction_pointer == pre.instruction_pointer
            &&& (count == 0 ==> post.memory@ == m && post.return_data_buffer == pre.return_data_buffer)
            &&& (count > 0 ==> post.memory@ == grown(m, offset as int + count) && post.return_data_buffer@ == bytes_at(
                m,
                offset as int,
                count as int,
            ))
        }
    }))
}

/// RETURN: pop an offset and a length, copy that memory range into the
/// return buffer, and halt. A zero length halts with an empty buffer
/// without touching memory.
pub fn ret(interpreter: &mut Interpreter) -> (r: InstructionResult)
    requires
        old(interpreter).wf(),
    ensures
        final(interpreter).wf(),
        ret_rel(*old(interpreter), *final(interpreter), r),
{
    if interpreter.stack.len() < 2 {
        return Err(EvmError::StackUnderflow);
    }
    let offset_word = match interpreter.stack.peek(0) {
        Some(w) => w,
        None => {
            return Err(EvmError::StackUnderflow);
        },
    };
    let length_word = match interpreter.stack.peek(1) {
        Some(w) => w,
        None => {
            return Err(EvmError::StackUnderflow);
        },
    };
    let offset = match offset_word.as_usize() {
        Ok(a) => a,
        Err(e) => {
            return Err(e);
        },
    };
    let length = match length_word.as_usize() {
        Ok(a) => a,
        Err(e) => {
            return Err(e);
        },
    };
    if length > usize::MAX - offset {
        return Err(EvmError::InvalidOperand);
    }
    match interpreter.stack.pop() {
        Ok(_) => {},
        Err(e) => {
            return Err(e);
        },
    }
    match interpreter.stack.pop() {
        Ok(_) => {},
        Err(e) => {
            return Err(e);
        },
    }
    if length != 0 {
        let size = offset + length;
        if size > interpreter.memory.len() {
            interpreter.memory.resize(size);
        }
        let bytes = slice_to_vec(interpreter.memory.slice(offset, length));
        proof {
            assert(bytes@ =~= bytes_at(
                old(interpreter).memory@,
                offset as int,
                length as int,
            ));
            assert(interpreter.memory@ =~= grown(
                old(interpreter).memory@,
                offset + length,
            ));
        }
        interpreter.return_data_buffer = bytes;
    }
    interpreter.stop();
    proof {
        assert(interpreter.stack@ =~= old(interpreter).stack@.drop_last().drop_last());
    }
    Ok(0)
}

/// The exact effect of INVALID on the interpreter state and its result.
pub open spec fn invalid_rel(pre: Interpreter, post: Interpreter, r: InstructionResult) -> bool {
    &&& (r == Ok::<usize, EvmError>(0))
    &&& (post.stack@ == pre.stack@)
    &&& (post.stack.size == pre.stack.size)
    &&& (post.memory == pre.memory)
    &&& (post.contract == pre.contract)
    &&& (post.gas == pre.gas)
    &&& (post.instruction_pointer == pre.instruction_pointer)
    &&& (post.return_data_buffer == pre.return_data_buffer)
    &&& (post.stopped)
}

/// INVALID: halt.
pub fn invalid(interpreter: &mut Interpreter) -> (r: InstructionResult)
    requires
        old(interpreter).wf(),
    ensures
        final(interpreter).wf(),
        invalid_rel(*old(interpreter), *final(interpreter), r),
{
    interpreter.stop();
    Ok(0)
}

/// The exact effect of an unknown opcode on the interpreter state and its result.
pub open spec fn unknown_rel(pre: Interpreter, post: Interpreter, r: InstructionResult) -> bool {
    &&& (r == Ok::<usize, EvmError>(0))
    &&& (post.stack@ == pre.stack@)
    &&& (post.stack.size == pre.stack.size)
    &&& (post.memory == pre.memory)
    &&& (post.contract == pre.contract)
    &&& (post.gas == pre.gas)
    &&& (post.instruction_pointer == pre.instruction_pointer)
    &&& (post.return_data_buffer == pre.return_data_buffer)
    &&& (post.stopped)
}

/// The sentinel handler for every opcode outside the implemented set: halt.
pub fn unknown(interpreter: &mut Interpreter) -> (r: InstructionResult)
    requires
        old(interpreter).wf(),
    ensures
        final(interpreter).wf(),
        unknown_rel(*old(interpreter), *final(interpreter), r),
{
    interpreter.stop();
    Ok(0)
}

} // verus!
