//! Stack-manipulation instructions: PUSH0..PUSH32, POP, DUP1..DUP16 and
//! SWAP1..SWAP16.

use vstd::prelude::*;

use crate::errors::EvmError;
use crate::interpreter::{bytes_at, same_except_stack, Interpreter};
use crate::word::{be_val, Word};

use super::InstructionResult;

verus! {

/// The exact effect of PUSH0 on the interpreter state and its result.
pub open spec fn push0_rel(pre: Interpreter, post: Interpreter, r: InstructionResult) -> bool {
    &&& (same_except_stack(pre, post))
    &&& (pre.stack@.len() == pre.stack.size ==> r == Err::<usize, EvmError>(
        EvmError::StackOverflow,
    ) && post.stack@ == pre.stack@)
    &&& (pre.stack@.len() < pre.stack.size ==> r == Ok::<usize, EvmError>(1) && ({
        let s = pre.stack@;
        &&& post.stack@.len() == s.len() + 1
        &&& post.stack@.drop_last() == s
        &&& post.stack@.last().as_nat() == 0
    }))
}

/// PUSH0: push the zero word.
pub fn push0(interpreter: &mut Interpreter) -> (r: InstructionResult)
    requires
        old(interpreter).wf(),
    ensures
        final(interpreter).wf(),
        push0_rel(*old(interpreter), *final(interpreter), r),
{
    match interpreter.stack.push(Word::zero()) {
        Ok(_) => {},
        Err(e) => {
            return Err(e);
        },
    }
    proof {
        assert(interpreter.stack@.drop_last() =~= old(interpreter).stack@);
    }
    Ok(1)
}

/// The exact effect of PUSHn on the interpreter state and its result.
pub open spec fn push_rel(n: u8, pre: Interpreter, post: Interpreter, r: InstructionResult) -> bool {
    &&& (same_except_stack(pre, post))
    &&& (pre.stack@.len() == pre.stack.size ==> r == Err::<usize, EvmError>(
        EvmError::StackOverflow,
    ) && post.stack@ == pre.stack@)
    &&& (pre.stack@.len() < pre.stack.size ==> r == Ok::<usize, EvmError>((n + 1) as usize)
        && ({
        let s = pre.stack@;
        let code = pre.contract.bytecode.bytes@;
        let ip = pre.instruction_pointer;
        &&& post.stack@.len() == s.len() + 1
        &&& post.stack@.drop_last() == s
        &&& post.stack@.last().as_nat() == be_val(bytes_at(code, ip + 1, n as int))
    }))
}

/// PUSHn: read the `n` bytes after the opcode as a big-endian immediate,
/// zero-extended on the right past the end of the code, push it, and
/// advance past opcode and immediate.
pub fn push(interpreter: &mut Interpreter, n: u8) -> (r: InstructionResult)
    requires
        old(interpreter).wf(),
        n <= 32,
    ensures
        final(interpreter).wf(),
        push_rel(n, *old(interpreter), *final(interpreter), r),
{
    let ip = interpreter.instruction_pointer;
    let code_len = interpreter.contract.bytecode.len();
    let take: usize = if ip < code_len {
        let rem = code_len - ip - 1;
        if rem < n as usize {
            rem
        } else {
            n as usize
        }
    } else {
        0
    };
    let mut slice: Vec<u8> = Vec::new();
    let mut k: usize = 0;
    while k < n as usize
        invariant
            k <= n as usize,
            n <= 32,
            slice@.len() == k,
            take <= n as usize,
            ip == old(interpreter).instruction_pointer,
            code_len == old(interpreter).contract.bytecode.bytes@.len(),
            *interpreter == *old(interpreter),
            ip < code_len ==> take == (if code_len - ip - 1 < n as int {
                code_len - ip - 1
            } else {
                n as int
            }),
            ip >= code_len ==> take == 0,
            slice@ == bytes_at(
                old(interpreter).contract.bytecode.bytes@,
                ip + 1,
                k as int,
            ),
        decreases n as usize - k,
    {
        let b: u8 = if k < take {
            interpreter.contract.bytecode.bytes[ip + 1 + k]
        } else {
            0
        };
        slice.push(b);
        proof {
            assert(slice@ =~= bytes_at(
                old(interpreter).contract.bytecode.bytes@,
                ip + 1,
                k + 1,
            ));
        }
        k = k + 1;
    }
    match interpreter.stack.push_slice(slice.as_slice()) {
        Ok(_) => {},
        Err(e) => {
            return Err(e);
        },
    }
    proof {
        assert(interpreter.stack@.drop_last() =~= old(interpreter).stack@);
        crate::word::lemma_be_val_bound(slice@);
        crate::word::lemma_pow2_consts();
        if slice@.len() < 32 {
            vstd::arithmetic::power2::lemma_pow2_strictly_increases(8 * slice@.len(), 256);
        }
        crate::word::lemma_word_of_as_nat(be_val(slice@));
    }
    Ok(n as usize + 1)
}

/// POP: remove the top word.
pub fn pop(interpreter: &mut Interpreter) -> (r: InstructionResult)
    requires
        old(interpreter).wf(),
    ensures
        final(interpreter).wf(),
        same_except_stack(*old(interpreter), *final(interpreter)),
        old(interpreter).stack@.len() == 0 ==> r == Err::<usize, EvmError>(
            EvmError::StackUnderflow,
        ) && final(interpreter).stack@ == old(interpreter).stack@,
        old(interpreter).stack@.len() > 0 ==> r == Ok::<usize, EvmError>(1) && final(interpreter).stack@ == old(interpreter).stack@.drop_last(),
{
    match interpreter.stack.pop() {
        Ok(_) => {},
        Err(e) => {
            return Err(e);
        },
    }
    Ok(1)
}

/// The exact effect of DUPn on the interpreter state and its result.
pub open spec fn dup_rel(n: u8, pre: Interpreter, post: Interpreter, r: InstructionResult) -> bool {
    &&& (same_except_stack(pre, post))
    &&& (({
        let s = pre.stack@;
        if s.len() < n {
            r == Err::<usize, EvmError>(EvmError::StackUnderflow) && post.stack@ == s
        } else if s.len() == pre.stack.size {
            r == Err::<usize, EvmError>(EvmError::StackOverflow) && post.stack@ == s
        } else {
            r == Ok::<usize, EvmError>(1) && post.stack@ == s.push(
                s[s.len() - (n as int)],
            )
        }
    }))
}

/// DUPn: copy the word `n - 1` places from the top onto the top.
pub fn dup(interpreter: &mut Interpreter, n: u8) -> (r: InstructionResult)
    requires
        old(interpreter).wf(),
        1 <= n <= 16,
    ensures
        final(interpreter).wf(),
        dup_rel(n, *old(interpreter), *final(interpreter), r),
{
    match interpreter.stack.dup((n - 1) as usize) {
        Ok(_) => {},
        Err(e) => {
            return Err(e);
        },
    }
    Ok(1)
}

/// The exact effect of SWAPn on the interpreter state and its result.
pub open spec fn swap_rel(n: u8, pre: Interpreter, post: Interpreter, r: InstructionResult) -> bool {
    &&& (same_except_stack(pre, post))
    &&& (({
        let s = pre.stack@;
        if s.len() < n + 1 {
            r == Err::<usize, EvmError>(EvmError::StackUnderflow) && post.stack@ == s
        } else {
            r == Ok::<usize, EvmError>(1) && post.stack@ == s.update(
                s.len() - (n as int) - 1,
                s.last(),
            ).update(s.len() - 1, s[s.len() - (n as int) - 1])
        }
    }))
}

/// SWAPn: exchange the top word with the word `n` places from the top.
pub fn swap(interpreter: &mut Interpreter, n: u8) -> (r: InstructionResult)
    requires
        old(interpreter).wf(),
        1 <= n <= 16,
    ensures
        final(interpreter).wf(),
        swap_rel(n, *old(interpreter), *final(interpreter), r),
{
    match interpreter.stack.swap(n as usize) {
        Ok(_) => {},
        Err(e) => {
            return Err(e);
        },
    }
    Ok(1)
}

} // verus!
