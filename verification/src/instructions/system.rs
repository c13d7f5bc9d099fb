//! Calldata instructions: CALLDATALOAD, CALLDATASIZE and CALLDATACOPY.

use vstd::prelude::*;

use crate::errors::EvmError;
use crate::interpreter::{bytes_at, grown, same_except_stack, same_except_stack_memory,
    unchanged, Interpreter};
use crate::utils::ToUsize;
use crate::word::{be_val, Word};

use super::InstructionResult;

verus! {

/// The saturated platform index of a word value.
pub open spec fn saturated(n: nat) -> nat {
    if n <= usize::MAX {
        n
    } else {
        usize::MAX as nat
    }
}

/// Collect `count` bytes of `data` starting at `index`, zero-padded past
/// the end.
fn read_padded(data: &Vec<u8>, index: usize, count: usize) -> (r: Vec<u8>)
    ensures
        r@ == bytes_at(data@, index as int, count as int),
{
    let mut out: Vec<u8> = Vec::new();
    let len = data.len();
    let mut k: usize = 0;
    while k < count
        invariant
            k <= count,
            len == data@.len(),
            out@ == bytes_at(data@, index as int, k as int),
        decreases count - k,
    {
        let b: u8 = if index < len && k < len - index {
            data[index + k]
        } else {
            0
        };
        out.push(b);
        proof {
            assert(out@ =~= bytes_at(data@, index as int, k + 1));
        }
        k = k + 1;
    }
    out
}

/// The exact effect of CALLDATALOAD on the interpreter state and its result.
pub open spec fn calldataload_rel(pre: Interpreter, post: Interpreter, r: InstructionResult) -> bool {
    &&& (same_except_stack(pre, post))
    &&& (pre.stack@.len() < 1 ==> r == Err::<usize, EvmError>(
        EvmError::StackUnderflow,
    ) && post.stack@ == pre.stack@)
    &&& (pre.stack@.len() >= 1 ==> r == Ok::<usize, EvmError>(1) && ({
        let s = pre.stack@;
        let input = pre.contract.input@;
        &&& post.stack@.len() == s.len()
        &&& post.stack@.drop_last() == s.drop_last()
        &&& post.stack@.last().as_nat() == be_val(
            bytes_at(input, saturated(s.last().as_nat()) as int, 32),
        )
    }))
}

/// CALLDATALOAD: pop an index, push the 32 calldata bytes there as a word,
/// zero-padded past the end of the input.
pub fn calldataload(interpreter: &mut Interpreter) -> (r: InstructionResult)
    requires
        old(interpreter).wf(),
    ensures
        final(interpreter).wf(),
        calldataload_rel(*old(interpreter), *final(interpreter), r),
{
    if interpreter.stack.len() < 1 {
        return Err(EvmError::StackUnderflow);
    }
    let index_word = match interpreter.stack.pop() {
        Ok(w) => w,
        Err(e) => {
            return Err(e);
        },
    };
    let index = index_word.as_usize_saturated();
    let padded = read_padded(&interpreter.contract.input, index, 32);
    let word = Word::from_be_slice(padded.as_slice());
    match interpreter.stack.push(word) {
        Ok(_) => {},
        Err(e) => {
            return Err(e);
        },
    }
    proof {
        assert(interpreter.stack@.drop_last() =~= old(interpreter).stack@.drop_last());
    }
    Ok(1)
}

/// The exact effect of CALLDATASIZE on the interpreter state and its result.
pub open spec fn calldatasize_rel(pre: Interpreter, post: Interpreter, r: InstructionResult) -> bool {
    &&& (same_except_stack(pre, post))
    &&& (pre.stack@.len() == pre.stack.size ==> r == Err::<usize, EvmError>(
        EvmError::StackOverflow,
    ) && post.stack@ == pre.stack@)
    &&& (pre.stack@.len() < pre.stack.size ==> r == Ok::<usize, EvmError>(1) && ({
        let s = pre.stack@;
        &&& post.stack@.len() == s.len() + 1
        &&& post.stack@.drop_last() == s
        &&& post.stack@.last().as_nat() == pre.contract.input@.len()
    }))
}

/// CALLDATASIZE: push the length of the calldata.
pub fn calldatasize(interpreter: &mut Interpreter) -> (r: InstructionResult)
    requires
        old(interpreter).wf(),
    ensures
        final(interpreter).wf(),
        calldatasize_rel(*old(interpreter), *final(interpreter), r),
{
    let len = interpreter.contract.input.len();
    let w = Word::from_u64(len as u64);
    match interpreter.stack.push(w) {
        Ok(_) => {},
        Err(e) => {
            return Err(e);
        },
    }
    proof {
        assert(interpreter.stack@.drop_last() =~= old(interpreter).stack@);
    }
    Ok(1)
}

/// The exact effect of CALLDATACOPY on the interpreter state and its result.
pub open spec fn calldatacopy_rel(pre: Interpreter, post: Interpreter, r: InstructionResult) -> bool {
    &&& (same_except_stack_memory(pre, post))
    &&& (({
        let s = pre.stack@;
        let m = pre.memory@;
        let input = pre.contract.input@;
        if s.len() < 3 {
            r == Err::<usize, EvmError>(EvmError::StackUnderflow) && unchanged(
                pre,
                post,
            )
        } else if s.last().as_nat() > usize::MAX || s[s.len() - 3].as_nat()
            > usize::MAX || s.last().as_nat() + s[s.len() - 3].as_nat() > usize::MAX {
            r == Err::<usize, EvmError>(EvmError::InvalidOperand) && unchanged(
                pre,
                post,
            )
        } else {
            let dest = s.last().as_nat();
            let src = saturated(s[s.len() - 2].as_nat());
            let count = s[s.len() - 3].as_nat();
            &&& r == Ok::<usize, EvmError>(1)
            &&& post.stack@ == s.drop_last().drop_last().drop_last()
            &&& (count == 0 ==> post.memory@ == m)
            &&& (count > 0 ==> post.memory@.len() == grown(
                m,
                dest as int + count,
            ).len() && post.memory@.subrange(
                dest as int,
                dest as int + count,
            ) == bytes_at(input, src as int, count as int) && (forall|i: int|
                0 <= i < post.memory@.len() && !(dest <= i < dest
                    + count) ==> post.memory@[i] == grown(
                    m,
                    dest as int + count,
                )[i]))
        }
    }))
}

/// CALLDATACOPY: pop a memory offset, a calldata offset and a length;
/// grow memory to cover `length` bytes at the memory offset and copy the
/// `length` calldata bytes found at the calldata offset there, zero-padded
/// past the end of the input. A zero length leaves memory untouched.
pub fn calldatacopy(interpreter: &mut Interpreter) -> (r: InstructionResult)
    requires
        old(interpreter).wf(),
    ensures
        final(interpreter).wf(),
        calldatacopy_rel(*old(interpreter), *final(interpreter), r),
{
    if interpreter.stack.len() < 3 {
        return Err(EvmError::StackUnderflow);
    }
    let dest_word = match interpreter.stack.peek(0) {
        Some(w) => w,
        None => {
            return Err(EvmError::StackUnderflow);
        },
    };
    let count_word = match interpreter.stack.peek(2) {
        Some(w) => w,
        None => {
            return Err(EvmError::StackUnderflow);
        },
    };
    let dest = match dest_word.as_usize() {
        Ok(a) => a,
        Err(e) => {
            return Err(e);
        },
    };
    let count = match count_word.as_usize() {
        Ok(a) => a,
        Err(e) => {
            return Err(e);
        },
    };
    if count > usize::MAX - dest {
        return Err(EvmError::InvalidOperand);
    }
    match interpreter.stack.pop() {
        Ok(_) => {},
        Err(e) => {
            return Err(e);
        },
    }
    let src_word = match interpreter.stack.pop() {
        Ok(w) => w,
        Err(e) => {
            return Err(e);
        },
    };
    match interpreter.stack.pop() {
        Ok(_) => {},
        Err(e) => {
            return Err(e);
        },
    }
    proof {
        assert(interpreter.stack@ =~= old(interpreter).stack@.drop_last().drop_last().drop_last());
    }
    if count == 0 {
        return Ok(1);
    }
    let src = src_word.as_usize_saturated();
    let bytes = read_padded(&interpreter.contract.input, src, count);
    let size = dest + count;
    if size > interpreter.memory.len() {
        interpreter.memory.resize(size);
    }
    proof {
        assert(interpreter.memory@ =~= grown(old(interpreter).memory@, dest + count));
    }
    interpreter.memory.set(dest, bytes.as_slice());
    proof {
        assert(interpreter.memory@.subrange(dest as int, dest + count) =~= bytes@);
    }
    Ok(1)
}

} // verus!
