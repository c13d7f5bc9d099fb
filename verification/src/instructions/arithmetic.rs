//! ADD, MUL, SUB and DIV: wrapping 256-bit arithmetic on the top two words.

use vstd::prelude::*;

use crate::errors::EvmError;
use crate::interpreter::{same_except_stack, Interpreter};
use crate::word::p256;

use super::InstructionResult;

verus! {

/// The exact effect of ADD on the interpreter state and its result.
pub open spec fn add_rel(pre: Interpreter, post: Interpreter, r: InstructionResult) -> bool {
    &&& (same_except_stack(pre, post))
    &&& (pre.stack@.len() < 2 ==> r == Err::<usize, EvmError>(
        EvmError::StackUnderflow,
    ) && post.stack@ == pre.stack@)
    &&& (pre.stack@.len() >= 2 ==> r == Ok::<usize, EvmError>(1) && ({
        let s = pre.stack@;
        &&& post.stack@.len() == s.len() - 1
        &&& post.stack@.drop_last() == s.drop_last().drop_last()
        &&& post.stack@.last().as_nat() == (s.last().as_nat() + s[s.len()
            - 2].as_nat()) % p256()
    }))
}

/// ADD: pop two words, push their sum modulo 2^256.
pub fn add(interpreter: &mut Interpreter) -> (r: InstructionResult)
    requires
        old(interpreter).wf(),
    ensures
        final(interpreter).wf(),
        add_rel(*old(interpreter), *final(interpreter), r),
{
    if interpreter.stack.len() < 2 {
        return Err(EvmError::StackUnderflow);
    }
    let a = match interpreter.stack.pop() {
        Ok(w) => w,
        Err(e) => {
            return Err(e);
        },
    };
    let b = match interpreter.stack.pop() {
        Ok(w) => w,
        Err(e) => {
            return Err(e);
        },
    };
    let result = a.wrapping_add(b);
    match interpreter.stack.push(result) {
        Ok(_) => {},
        Err(e) => {
            return Err(e);
        },
    }
    proof {
        assert(interpreter.stack@.drop_last() =~= old(interpreter).stack@.drop_last().drop_last());
    }
    Ok(1)
}

/// The exact effect of MUL on the interpreter state and its result.
pub open spec fn mul_rel(pre: Interpreter, post: Interpreter, r: InstructionResult) -> bool {
    &&& (same_except_stack(pre, post))
    &&& (pre.stack@.len() < 2 ==> r == Err::<usize, EvmError>(
        EvmError::StackUnderflow,
    ) && post.stack@ == pre.stack@)
    &&& (pre.stack@.len() >= 2 ==> r == Ok::<usize, EvmError>(1) && ({
        let s = pre.stack@;
        &&& post.stack@.len() == s.len() - 1
        &&& post.stack@.drop_last() == s.drop_last().drop_last()
        &&& post.stack@.last().as_nat() == (s.last().as_nat() * s[s.len()
            - 2].as_nat()) % p256()
    }))
}

/// MUL: pop two words, push their product modulo 2^256.
pub fn mul(interpreter: &mut Interpreter) -> (r: InstructionResult)
    requires
        old(interpreter).wf(),
    ensures
        final(interpreter).wf(),
        mul_rel(*old(interpreter), *final(interpreter), r),
{
    if interpreter.stack.len() < 2 {
        return Err(EvmError::StackUnderflow);
    }
    let a = match interpreter.stack.pop() {
        Ok(w) => w,
        Err(e) => {
            return Err(e);
        },
    };
    let b = match interpreter.stack.pop() {
        Ok(w) => w,
        Err(e) => {
            return Err(e);
        },
    };
    let result = a.wrapping_mul(b);
    match interpreter.stack.push(result) {
        Ok(_) => {},
        Err(e) => {
            return Err(e);
        },
    }
    proof {
        assert(interpreter.stack@.drop_last() =~= old(interpreter).stack@.drop_last().drop_last());
    }
    Ok(1)
}

/// The exact effect of SUB on the interpreter state and its result.
pub open spec fn sub_rel(pre: Interpreter, post: Interpreter, r: InstructionResult) -> bool {
    &&& (same_except_stack(pre, post))
    &&& (pre.stack@.len() < 2 ==> r == Err::<usize, EvmError>(
        EvmError::StackUnderflow,
    ) && post.stack@ == pre.stack@)
    &&& (pre.stack@.len() >= 2 ==> r == Ok::<usize, EvmError>(1) && ({
        let s = pre.stack@;
        &&& post.stack@.len() == s.len() - 1
        &&& post.stack@.drop_last() == s.drop_last().drop_last()
        &&& post.stack@.last().as_nat() == (s.last().as_nat() - s[s.len()
            - 2].as_nat()) % (p256() as int)
    }))
}

/// SUB: pop two words `a` then `b`, push `a - b` modulo 2^256.
pub fn sub(interpreter: &mut Interpreter) -> (r: InstructionResult)
    requires
        old(interpreter).wf(),
    ensures
        final(interpreter).wf(),
        sub_rel(*old(interpreter), *final(interpreter), r),
{
    if interpreter.stack.len() < 2 {
        return Err(EvmError::StackUnderflow);
    }
    let a = match interpreter.stack.pop() {
        Ok(w) => w,
        Err(e) => {
            return Err(e);
        },
    };
    let b = match interpreter.stack.pop() {
        Ok(w) => w,
        Err(e) => {
            return Err(e);
        },
    };
    let result = a.wrapping_sub(b);
    match interpreter.stack.push(result) {
        Ok(_) => {},
        Err(e) => {
            return Err(e);
        },
    }
    proof {
        assert(interpreter.stack@.drop_last() =~= old(interpreter).stack@.drop_last().drop_last());
    }
    Ok(1)
}

/// The exact effect of DIV on the interpreter state and its result.
pub open spec fn div_rel(pre: Interpreter, post: Interpreter, r: InstructionResult) -> bool {
    &&& (same_except_stack(pre, post))
    &&& (pre.stack@.len() < 2 ==> r == Err::<usize, EvmError>(
        EvmError::StackUnderflow,
    ) && post.stack@ == pre.stack@)
    &&& (pre.stack@.len() >= 2 ==> r == Ok::<usize, EvmError>(1) && ({
        let s = pre.stack@;
        &&& post.stack@.len() == s.len() - 1
        &&& post.stack@.drop_last() == s.drop_last().drop_last()
        &&& post.stack@.last().as_nat() == (if s[s.len() - 2].as_nat()
            == 0 {
            0nat
        } else {
            s.last().as_nat() / s[s.len() - 2].as_nat()
        })
    }))
}

/// DIV: pop two words `a` then `b`, push the unsigned quotient `a / b`, or
/// zero when `b` is zero.
pub fn div(interpreter: &mut Interpreter) -> (r: InstructionResult)
    requires
        old(interpreter).wf(),
    ensures
        final(interpreter).wf(),
        div_rel(*old(interpreter), *final(interpreter), r),
{
    if interpreter.stack.len() < 2 {
        return Err(EvmError::StackUnderflow);
    }
    let a = match interpreter.stack.pop() {
        Ok(w) => w,
        Err(e) => {
            return Err(e);
        },
    };
    let b = match interpreter.stack.pop() {
        Ok(w) => w,
        Err(e) => {
            return Err(e);
        },
    };
    let result = if b.is_zero() {
        crate::word::Word::zero()
    } else {
        a.div_rem(b).0
    };
    match interpreter.stack.push(result) {
        Ok(_) => {},
        Err(e) => {
            return Err(e);
        },
    }
    proof {
        assert(interpreter.stack@.drop_last() =~= old(interpreter).stack@.drop_last().drop_last());
    }
    Ok(1)
}

} // verus!
