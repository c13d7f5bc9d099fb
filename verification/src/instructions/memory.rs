//! Memory instructions: MLOAD, MSTORE, MSTORE8 and MSIZE.
//!
//! Every access first grows memory, zero-extended, to cover the touched
//! range.

use vstd::prelude::*;

use crate::errors::EvmError;
use crate::interpreter::{bytes_at, grown, same_except_stack_memory, unchanged, Interpreter};
use crate::utils::ToUsize;
use crate::word::{be_val, Word};

use super::InstructionResult;

verus! {

/// The exact effect of MLOAD on the interpreter state and its result.
pub open spec fn mload_rel(pre: Interpreter, post: Interpreter, r: InstructionResult) -> bool {
    &&& (same_except_stack_memory(pre, post))
    &&& (({
        let s = pre.stack@;
        let m = pre.memory@;
        if s.len() < 1 {
            r == Err::<usize, EvmError>(EvmError::StackUnderflow) && unchanged(
                pre,
                post,
            )
        } else if s.last().as_nat() + 32 > usize::MAX {
            r == Err::<usize, EvmError>(EvmError::InvalidOperand) && unchanged(
                pre,
                post,
            )
        } else {
            let addr = s.last().as_nat();
            &&& r == Ok::<usize, EvmError>(1)
            &&& post.memory@ == grown(m, addr as int + 32)
            &&& post.stack@.len() == s.len()
            &&& post.stack@.drop_last() == s.drop_last()
            &&& post.stack@.last().as_nat() == be_val(
                bytes_at(m, addr as int, 32),
            )
        }
    }))
}

/// MLOAD: pop an address, grow memory to cover 32 bytes there, push the
/// word those bytes spell in big-endian order.
pub fn mload(interpreter: &mut Interpreter) -> (r: InstructionResult)
    requires
        old(interpreter).wf(),
    ensures
        final(interpreter).wf(),
        mload_rel(*old(interpreter), *final(interpreter), r),
{
    if interpreter.stack.len() < 1 {
        return Err(EvmError::StackUnderflow);
    }
    let addr_word = match interpreter.stack.peek(0) {
        Some(w) => w,
        None => {
            return Err(EvmError::StackUnderflow);
        },
    };
    let addr = match addr_word.as_usize() {
        Ok(a) => a,
        Err(e) => {
            return Err(e);
        },
    };
    if addr > usize::MAX - 32 {
        return Err(EvmError::InvalidOperand);
    }
    match interpreter.stack.pop() {
        Ok(_) => {},
        Err(e) => {
            return Err(e);
        },
    }
    let size = addr + 32;
    if size > interpreter.memory.len() {
        interpreter.memory.resize(size);
    }
    proof {
        assert(interpreter.memory@ =~= grown(old(interpreter).memory@, addr + 32));
        assert(interpreter.memory@.subrange(addr as int, addr as int + 32) =~= bytes_at(
            old(interpreter).memory@,
            addr as int,
            32,
        ));
    }
    let word = interpreter.memory.get_u256(addr);
    match interpreter.stack.push(word) {
        Ok(_) => {},
        Err(e) => {
            return Err(e);
        },
    }
    proof {
        assert(interpreter.stack@.drop_last() =~= old(interpreter).stack@.drop_last());
    }
    Ok(1)
}

/// The exact effect of MSTORE on the interpreter state and its result.
pub open spec fn mstore_rel(pre: Interpreter, post: Interpreter, r: InstructionResult) -> bool {
    &&& (same_except_stack_memory(pre, post))
    &&& (({
        let s = pre.stack@;
        let m = pre.memory@;
        if s.len() < 2 {
            r == Err::<usize, EvmError>(EvmError::StackUnderflow) && unchanged(
                pre,
                post,
            )
        } else if s.last().as_nat() + 32 > usize::MAX {
            r == Err::<usize, EvmError>(EvmError::InvalidOperand) && unchanged(
                pre,
                post,
            )
        } else {
            let addr = s.last().as_nat();
            let w = s[s.len() - 2];
            &&& r == Ok::<usize, EvmError>(1)
            &&& post.stack@ == s.drop_last().drop_last()
            &&& post.memory@.len() == grown(m, addr as int + 32).len()
            &&& be_val(post.memory@.subrange(addr as int, addr as int + 32))
                == w.as_nat()
            &&& forall|i: int|
                0 <= i < post.memory@.len() && !(addr <= i < addr + 32)
                    ==> post.memory@[i] == grown(m, addr as int + 32)[i]
        }
    }))
}

/// MSTORE: pop an address and a word, grow memory to cover 32 bytes at the
/// address, store the word there big-endian.
pub fn mstore(interpreter: &mut Interpreter) -> (r: InstructionResult)
    requires
        old(interpreter).wf(),
    ensures
        final(interpreter).wf(),
        mstore_rel(*old(interpreter), *final(interpreter), r),
{
    if interpreter.stack.len() < 2 {
        return Err(EvmError::StackUnderflow);
    }
    let addr_word = match interpreter.stack.peek(0) {
        Some(w) => w,
        None => {
            return Err(EvmError::StackUnderflow);
        },
    };
    let addr = match addr_word.as_usize() {
        Ok(a) => a,
        Err(e) => {
            return Err(e);
        },
    };
    if addr > usize::MAX - 32 {
        return Err(EvmError::InvalidOperand);
    }
    match interpreter.stack.pop() {
        Ok(_) => {},
        Err(e) => {
            return Err(e);
        },
    }
    let word = match interpreter.stack.pop() {
        Ok(w) => w,
        Err(e) => {
            return Err(e);
        },
    };
    let size = addr + 32;
    if size > interpreter.memory.len() {
        interpreter.memory.resize(size);
    }
    proof {
        assert(interpreter.memory@ =~= grown(old(interpreter).memory@, addr + 32));
    }
    interpreter.memory.set_u256(addr, &word);
    proof {
        assert(interpreter.stack@ =~= old(interpreter).stack@.drop_last().drop_last());
    }
    Ok(1)
}

/// The exact effect of MSTORE8 on the interpreter state and its result.
pub open spec fn mstore8_rel(pre: Interpreter, post: Interpreter, r: InstructionResult) -> bool {
    &&& (same_except_stack_memory(pre, post))
    &&& (({
        let s = pre.stack@;
        let m = pre.memory@;
        if s.len() < 2 {
            r == Err::<usize, EvmError>(EvmError::StackUnderflow) && unchanged(
                pre,
                post,
            )
        } else if s.last().as_nat() + 1 > usize::MAX {
            r == Err::<usize, EvmError>(EvmError::InvalidOperand) && unchanged(
                pre,
                post,
            )
        } else {
            let addr = s.last().as_nat();
            let w = s[s.len() - 2];
            &&& r == Ok::<usize, EvmError>(1)
            &&& post.stack@ == s.drop_last().drop_last()
            &&& post.memory@ == grown(m, addr as int + 1).update(
                addr as int,
                (w.as_nat() % 256) as u8,
            )
        }
    }))
}

/// MSTORE8: pop an address and a word, grow memory to cover one byte at
/// the address, store the word's least significant byte there.
pub fn mstore8(interpreter: &mut Interpreter) -> (r: InstructionResult)
    requires
        old(interpreter).wf(),
    ensures
        final(interpreter).wf(),
        mstore8_rel(*old(interpreter), *final(interpreter), r),
{
    if interpreter.stack.len() < 2 {
        return Err(EvmError::StackUnderflow);
    }
    let addr_word = match interpreter.stack.peek(0) {
        Some(w) => w,
        None => {
            return Err(EvmError::StackUnderflow);
        },
    };
    let addr = match addr_word.as_usize() {
        Ok(a) => a,
        Err(e) => {
            return Err(e);
        },
    };
    if addr > usize::MAX - 1 {
        return Err(EvmError::InvalidOperand);
    }
    match interpreter.stack.pop() {
        Ok(_) => {},
        Err(e) => {
            return Err(e);
        },
    }
    let word = match interpreter.stack.pop() {
        Ok(w) => w,
        Err(e) => {
            return Err(e);
        },
    };
    let size = addr + 1;
    if size > interpreter.memory.len() {
        interpreter.memory.resize(size);
    }
    proof {
        assert(interpreter.memory@ =~= grown(old(interpreter).memory@, addr + 1));
    }
    let byte = word.low_byte();
    interpreter.memory.set_byte(addr, byte);
    proof {
        assert(interpreter.stack@ =~= old(interpreter).stack@.drop_last().drop_last());
    }
    Ok(1)
}

/// The exact effect of MSIZE on the interpreter state and its result.
pub open spec fn msize_rel(pre: Interpreter, post: Interpreter, r: InstructionResult) -> bool {
    &&& (same_except_stack_memory(pre, post))
    &&& (post.memory == pre.memory)
    &&& (pre.stack@.len() == pre.stack.size ==> r == Err::<usize, EvmError>(
        EvmError::StackOverflow,
    ) && post.stack@ == pre.stack@)
    &&& (pre.stack@.len() < pre.stack.size ==> r == Ok::<usize, EvmError>(1) && ({
        let s = pre.stack@;
        &&& post.stack@.len() == s.len() + 1
        &&& post.stack@.drop_last() == s
        &&& post.stack@.last().as_nat() == pre.memory@.len()
    }))
}

/// MSIZE: push the current memory length in bytes.
pub fn msize(interpreter: &mut Interpreter) -> (r: InstructionResult)
    requires
        old(interpreter).wf(),
    ensures
        final(interpreter).wf(),
        msize_rel(*old(interpreter), *final(interpreter), r),
{
    let size = interpreter.memory.len();
    let w = Word::from_u64(size as u64);
    match interpreter.stack.push(w) {
        Ok(_) => {},
        Err(e) => {
            return Err(e);
        },
    }
    proof {
        assert(interpreter.stack@.drop_last() =~= old(interpreter).stack@);
    }
    Ok(1)
}

} // verus!
