//! Comparison and bitwise instructions: LT, GT, SLT, SGT, EQ, ISZERO, AND,
//! OR, XOR, NOT, BYTE, SHL, SHR and SAR.

use vstd::prelude::*;
use vstd::arithmetic::power2::pow2;

use crate::errors::EvmError;
use crate::interpreter::{same_except_stack, Interpreter};
use crate::utils::ToUsize;
use crate::word::{p256, Word};

use super::i256::i256_cmp;
use super::InstructionResult;

verus! {

/// The exact effect of LT on the interpreter state and its result.
pub open spec fn lt_rel(pre: Interpreter, post: Interpreter, r: InstructionResult) -> bool {
    &&& (same_except_stack(pre, post))
    &&& (pre.stack@.len() < 2 ==> r == Err::<usize, EvmError>(
        EvmError::StackUnderflow,
    ) && post.stack@ == pre.stack@)
    &&& (pre.stack@.len() >= 2 ==> r == Ok::<usize, EvmError>(1) && ({
        let s = pre.stack@;
        &&& post.stack@.len() == s.len() - 1
        &&& post.stack@.drop_last() == s.drop_last().drop_last()
        &&& post.stack@.last().as_nat() == (if s.last().as_nat() < s[
            s.len() - 2].as_nat() {
            1nat
        } else {
            0nat
        })
    }))
}

/// LT: pop `a` then `b`, push 1 if `a < b` unsigned, else 0.
pub fn lt(interpreter: &mut Interpreter) -> (r: InstructionResult)
    requires
        old(interpreter).wf(),
    ensures
        final(interpreter).wf(),
        lt_rel(*old(interpreter), *final(interpreter), r),
{
    if interpreter.stack.len() < 2 {
        return Err(EvmError::StackUnderflow);
    }
    let a = match interpreter.stack.pop() {
        Ok(w) => w,
        Err(e) => {
            return Err(e);
        },
    };
    let b = match interpreter.stack.pop() {
        Ok(w) => w,
        Err(e) => {
            return Err(e);
        },
    };
    let result = if a.lt(&b) {
        Word::one()
    } else {
        Word::zero()
    };
    match interpreter.stack.push(result) {
        Ok(_) => {},
        Err(e) => {
            return Err(e);
        },
    }
    proof {
        assert(interpreter.stack@.drop_last() =~= old(interpreter).stack@.drop_last().drop_last());
    }
    Ok(1)
}

/// The exact effect of GT on the interpreter state and its result.
pub open spec fn gt_rel(pre: Interpreter, post: Interpreter, r: InstructionResult) -> bool {
    &&& (same_except_stack(pre, post))
    &&& (pre.stack@.len() < 2 ==> r == Err::<usize, EvmError>(
        EvmError::StackUnderflow,
    ) && post.stack@ == pre.stack@)
    &&& (pre.stack@.len() >= 2 ==> r == Ok::<usize, EvmError>(1) && ({
        let s = pre.stack@;
        &&& post.stack@.len() == s.len() - 1
        &&& post.stack@.drop_last() == s.drop_last().drop_last()
        &&& post.stack@.last().as_nat() == (if s.last().as_nat() > s[
            s.len() - 2].as_nat() {
            1nat
        } else {
            0nat
        })
    }))
}

/// GT: pop `a` then `b`, push 1 if `a > b` unsigned, else 0.
pub fn gt(interpreter: &mut Interpreter) -> (r: InstructionResult)
    requires
        old(interpreter).wf(),
    ensures
        final(interpreter).wf(),
        gt_rel(*old(interpreter), *final(interpreter), r),
{
    if interpreter.stack.len() < 2 {
        return Err(EvmError::StackUnderflow);
    }
    let a = match interpreter.stack.pop() {
        Ok(w) => w,
        Err(e) => {
            return Err(e);
        },
    };
    let b = match interpreter.stack.pop() {
        Ok(w) => w,
        Err(e) => {
            return Err(e);
        },
    };
    let result = if b.lt(&a) {
        Word::one()
    } else {
        Word::zero()
    };
    match interpreter.stack.push(result) {
        Ok(_) => {},
        Err(e) => {
            return Err(e);
        },
    }
    proof {
        assert(interpreter.stack@.drop_last() =~= old(interpreter).stack@.drop_last().drop_last());
    }
    Ok(1)
}

/// The exact effect of SLT on the interpreter state and its result.
pub open spec fn slt_rel(pre: Interpreter, post: Interpreter, r: InstructionResult) -> bool {
    &&& (same_except_stack(pre, post))
    &&& (pre.stack@.len() < 2 ==> r == Err::<usize, EvmError>(
        EvmError::StackUnderflow,
    ) && post.stack@ == pre.stack@)
    &&& (pre.stack@.len() >= 2 ==> r == Ok::<usize, EvmError>(1) && ({
        let s = pre.stack@;
        &&& post.stack@.len() == s.len() - 1
        &&& post.stack@.drop_last() == s.drop_last().drop_last()
        &&& post.stack@.last().as_nat() == (if s.last().as_int() < s[
            s.len() - 2].as_int() {
            1nat
        } else {
            0nat
        })
    }))
}

/// SLT: pop `a` then `b`, push 1 if `a < b` as signed integers, else 0.
pub fn slt(interpreter: &mut Interpreter) -> (r: InstructionResult)
    requires
        old(interpreter).wf(),
    ensures
        final(interpreter).wf(),
        slt_rel(*old(interpreter), *final(interpreter), r),
{
    if interpreter.stack.len() < 2 {
        return Err(EvmError::StackUnderflow);
    }
    let a = match interpreter.stack.pop() {
        Ok(w) => w,
        Err(e) => {
            return Err(e);
        },
    };
    let b = match interpreter.stack.pop() {
        Ok(w) => w,
        Err(e) => {
            return Err(e);
        },
    };
    let is_less = match i256_cmp(&a, &b) {
        core::cmp::Ordering::Less => true,
        _ => false,
    };
    let result = if is_less {
        Word::one()
    } else {
        Word::zero()
    };
    match interpreter.stack.push(result) {
        Ok(_) => {},
        Err(e) => {
            return Err(e);
        },
    }
    proof {
        assert(interpreter.stack@.drop_last() =~= old(interpreter).stack@.drop_last().drop_last());
    }
    Ok(1)
}

/// The exact effect of SGT on the interpreter state and its result.
pub open spec fn sgt_rel(pre: Interpreter, post: Interpreter, r: InstructionResult) -> bool {
    &&& (same_except_stack(pre, post))
    &&& (pre.stack@.len() < 2 ==> r == Err::<usize, EvmError>(
        EvmError::StackUnderflow,
    ) && post.stack@ == pre.stack@)
    &&& (pre.stack@.len() >= 2 ==> r == Ok::<usize, EvmError>(1) && ({
        let s = pre.stack@;
        &&& post.stack@.len() == s.len() - 1
        &&& post.stack@.drop_last() == s.drop_last().drop_last()
        &&& post.stack@.last().as_nat() == (if s.last().as_int() > s[
            s.len() - 2].as_int() {
            1nat
        } else {
            0nat
        })
    }))
}

/// SGT: pop `a` then `b`, push 1 if `a > b` as signed integers, else 0.
pub fn sgt(interpreter: &mut Interpreter) -> (r: InstructionResult)
    requires
        old(interpreter).wf(),
    ensures
        final(interpreter).wf(),
        sgt_rel(*old(interpreter), *final(interpreter), r),
{
    if interpreter.stack.len() < 2 {
        return Err(EvmError::StackUnderflow);
    }
    let a = match interpreter.stack.pop() {
        Ok(w) => w,
        Err(e) => {
            return Err(e);
        },
    };
    let b = match interpreter.stack.pop() {
        Ok(w) => w,
        Err(e) => {
            return Err(e);
        },
    };
    let is_greater = match i256_cmp(&a, &b) {
        core::cmp::Ordering::Greater => true,
        _ => false,
    };
    let result = if is_greater {
        Word::one()
    } else {
        Word::zero()
    };
    match interpreter.stack.push(result) {
        Ok(_) => {},
        Err(e) => {
            return Err(e);
        },
    }
    proof {
        assert(interpreter.stack@.drop_last() =~= old(interpreter).stack@.drop_last().drop_last());
    }
    Ok(1)
}

/// The exact effect of EQ on the interpreter state and its result.
pub open spec fn eq_rel(pre: Interpreter, post: Interpreter, r: InstructionResult) -> bool {
    &&& (same_except_stack(pre, post))
    &&& (pre.stack@.len() < 2 ==> r == Err::<usize, EvmError>(
        EvmError::StackUnderflow,
    ) && post.stack@ == pre.stack@)
    &&& (pre.stack@.len() >= 2 ==> r == Ok::<usize, EvmError>(1) && ({
        let s = pre.stack@;
        &&& post.stack@.len() == s.len() - 1
        &&& post.stack@.drop_last() == s.drop_last().drop_last()
        &&& post.stack@.last().as_nat() == (if s.last().as_nat() == s[
            s.len() - 2].as_nat() {
            1nat
        } else {
            0nat
        })
    }))
}

/// EQ: pop two words, push 1 if they are equal, else 0.
pub fn eq(interpreter: &mut Interpreter) -> (r: InstructionResult)
    requires
        old(interpreter).wf(),
    ensures
        final(interpreter).wf(),
        eq_rel(*old(interpreter), *final(interpreter), r),
{
    if interpreter.stack.len() < 2 {
        return Err(EvmError::StackUnderflow);
    }
    let a = match interpreter.stack.pop() {
        Ok(w) => w,
        Err(e) => {
            return Err(e);
        },
    };
    let b = match interpreter.stack.pop() {
        Ok(w) => w,
        Err(e) => {
            return Err(e);
        },
    };
    let equal = !a.lt(&b) && !b.lt(&a);
    let result = if equal {
        Word::one()
    } else {
        Word::zero()
    };
    match interpreter.stack.push(result) {
        Ok(_) => {},
        Err(e) => {
            return Err(e);
        },
    }
    proof {
        assert(interpreter.stack@.drop_last() =~= old(interpreter).stack@.drop_last().drop_last());
    }
    Ok(1)
}

/// The exact effect of ISZERO on the interpreter state and its result.
pub open spec fn iszero_rel(pre: Interpreter, post: Interpreter, r: InstructionResult) -> bool {
    &&& (same_except_stack(pre, post))
    &&& (pre.stack@.len() < 1 ==> r == Err::<usize, EvmError>(
        EvmError::StackUnderflow,
    ) && post.stack@ == pre.stack@)
    &&& (pre.stack@.len() >= 1 ==> r == Ok::<usize, EvmError>(1) && ({
        let s = pre.stack@;
        &&& post.stack@.len() == s.len()
        &&& post.stack@.drop_last() == s.drop_last()
        &&& post.stack@.last().as_nat() == (if s.last().as_nat() == 0 {
            1nat
        } else {
            0nat
        })
    }))
}

/// ISZERO: pop one word, push 1 if it is zero, else 0.
pub fn iszero(interpreter: &mut Interpreter) -> (r: InstructionResult)
    requires
        old(interpreter).wf(),
    ensures
        final(interpreter).wf(),
        iszero_rel(*old(interpreter), *final(interpreter), r),
{
    if interpreter.stack.len() < 1 {
        return Err(EvmError::StackUnderflow);
    }
    let a = match interpreter.stack.pop() {
        Ok(w) => w,
        Err(e) => {
            return Err(e);
        },
    };
    let result = if a.is_zero() {
        Word::one()
    } else {
        Word::zero()
    };
    match interpreter.stack.push(result) {
        Ok(_) => {},
        Err(e) => {
            return Err(e);
        },
    }
    proof {
        assert(interpreter.stack@.drop_last() =~= old(interpreter).stack@.drop_last());
    }
    Ok(1)
}

/// The exact effect of AND on the interpreter state and its result.
pub open spec fn and_rel(pre: Interpreter, post: Interpreter, r: InstructionResult) -> bool {
    &&& (same_except_stack(pre, post))
    &&& (pre.stack@.len() < 2 ==> r == Err::<usize, EvmError>(
        EvmError::StackUnderflow,
    ) && post.stack@ == pre.stack@)
    &&& (pre.stack@.len() >= 2 ==> r == Ok::<usize, EvmError>(1) && ({
        let s = pre.stack@;
        let a = s.last();
        let b = s[s.len() - 2];
        let t = post.stack@.last();
        &&& post.stack@.len() == s.len() - 1
        &&& post.stack@.drop_last() == s.drop_last().drop_last()
        &&& t.l0 == (a.l0 & b.l0)
        &&& t.l1 == (a.l1 & b.l1)
        &&& t.l2 == (a.l2 & b.l2)
        &&& t.l3 == (a.l3 & b.l3)
    }))
}

/// AND: pop two words, push their bitwise conjunction.
pub fn and(interpreter: &mut Interpreter) -> (r: InstructionResult)
    requires
        old(interpreter).wf(),
    ensures
        final(interpreter).wf(),
        and_rel(*old(interpreter), *final(interpreter), r),
{
    if interpreter.stack.len() < 2 {
        return Err(EvmError::StackUnderflow);
    }
    let a = match interpreter.stack.pop() {
        Ok(w) => w,
        Err(e) => {
            return Err(e);
        },
    };
    let b = match interpreter.stack.pop() {
        Ok(w) => w,
        Err(e) => {
            return Err(e);
        },
    };
    let result = a.and(b);
    match interpreter.stack.push(result) {
        Ok(_) => {},
        Err(e) => {
            return Err(e);
        },
    }
    proof {
        assert(interpreter.stack@.drop_last() =~= old(interpreter).stack@.drop_last().drop_last());
    }
    Ok(1)
}

/// The exact effect of OR on the interpreter state and its result.
pub open spec fn or_rel(pre: Interpreter, post: Interpreter, r: InstructionResult) -> bool {
    &&& (same_except_stack(pre, post))
    &&& (pre.stack@.len() < 2 ==> r == Err::<usize, EvmError>(
        EvmError::StackUnderflow,
    ) && post.stack@ == pre.stack@)
    &&& (pre.stack@.len() >= 2 ==> r == Ok::<usize, EvmError>(1) && ({
        let s = pre.stack@;
        let a = s.last();
        let b = s[s.len() - 2];
        let t = post.stack@.last();
        &&& post.stack@.len() == s.len() - 1
        &&& post.stack@.drop_last() == s.drop_last().drop_last()
        &&& t.l0 == (a.l0 | b.l0)
        &&& t.l1 == (a.l1 | b.l1)
        &&& t.l2 == (a.l2 | b.l2)
        &&& t.l3 == (a.l3 | b.l3)
    }))
}

/// OR: pop two words, push their bitwise disjunction.
pub fn or(interpreter: &mut Interpreter) -> (r: InstructionResult)
    requires
        old(interpreter).wf(),
    ensures
        final(interpreter).wf(),
        or_rel(*old(interpreter), *final(interpreter), r),
{
    if interpreter.stack.len() < 2 {
        return Err(EvmError::StackUnderflow);
    }
    let a = match interpreter.stack.pop() {
        Ok(w) => w,
        Err(e) => {
            return Err(e);
        },
    };
    let b = match interpreter.stack.pop() {
        Ok(w) => w,
        Err(e) => {
            return Err(e);
        },
    };
    let result = a.or(b);
    match interpreter.stack.push(result) {
        Ok(_) => {},
        Err(e) => {
            return Err(e);
        },
    }
    proof {
        assert(interpreter.stack@.drop_last() =~= old(interpreter).stack@.drop_last().drop_last());
    }
    Ok(1)
}

/// The exact effect of XOR on the interpreter state and its result.
pub open spec fn xor_rel(pre: Interpreter, post: Interpreter, r: InstructionResult) -> bool {
    &&& (same_except_stack(pre, post))
    &&& (pre.stack@.len() < 2 ==> r == Err::<usize, EvmError>(
        EvmError::StackUnderflow,
    ) && post.stack@ == pre.stack@)
    &&& (pre.stack@.len() >= 2 ==> r == Ok::<usize, EvmError>(1) && ({
        let s = pre.stack@;
        let a = s.last();
        let b = s[s.len() - 2];
        let t = post.stack@.last();
        &&& post.stack@.len() == s.len() - 1
        &&& post.stack@.drop_last() == s.drop_last().drop_last()
        &&& t.l0 == (a.l0 ^ b.l0)
        &&& t.l1 == (a.l1 ^ b.l1)
        &&& t.l2 == (a.l2 ^ b.l2)
        &&& t.l3 == (a.l3 ^ b.l3)
    }))
}

/// XOR: pop two words, push their bitwise exclusive or.
pub fn xor(interpreter: &mut Interpreter) -> (r: InstructionResult)
    requires
        old(interpreter).wf(),
    ensures
        final(interpreter).wf(),
        xor_rel(*old(interpreter), *final(interpreter), r),
{
    if interpreter.stack.len() < 2 {
        return Err(EvmError::StackUnderflow);
    }
    let a = match interpreter.stack.pop() {
        Ok(w) => w,
        Err(e) => {
            return Err(e);
        },
    };
    let b = match interpreter.stack.pop() {
        Ok(w) => w,
        Err(e) => {
            return Err(e);
        },
    };
    let result = a.xor(b);
    match interpreter.stack.push(result) {
        Ok(_) => {},
        Err(e) => {
            return Err(e);
        },
    }
    proof {
        assert(interpreter.stack@.drop_last() =~= old(interpreter).stack@.drop_last().drop_last());
    }
    Ok(1)
}

/// The exact effect of NOT on the interpreter state and its result.
pub open spec fn not_rel(pre: Interpreter, post: Interpreter, r: InstructionResult) -> bool {
    &&& (same_except_stack(pre, post))
    &&& (pre.stack@.len() < 1 ==> r == Err::<usize, EvmError>(
        EvmError::StackUnderflow,
    ) && post.stack@ == pre.stack@)
    &&& (pre.stack@.len() >= 1 ==> r == Ok::<usize, EvmError>(1) && ({
        let s = pre.stack@;
        &&& post.stack@.len() == s.len()
        &&& post.stack@.drop_last() == s.drop_last()
        &&& post.stack@.last().as_nat() == p256() - 1 - s.last().as_nat()
    }))
}

/// NOT: pop one word, push its bitwise complement `2^256 - 1 - a`.
pub fn not(interpreter: &mut Interpreter) -> (r: InstructionResult)
    requires
        old(interpreter).wf(),
    ensures
        final(interpreter).wf(),
        not_rel(*old(interpreter), *final(interpreter), r),
{
    if interpreter.stack.len() < 1 {
        return Err(EvmError::StackUnderflow);
    }
    let a = match interpreter.stack.pop() {
        Ok(w) => w,
        Err(e) => {
            return Err(e);
        },
    };
    let result = a.not();
    match interpreter.stack.push(result) {
        Ok(_) => {},
        Err(e) => {
            return Err(e);
        },
    }
    proof {
        assert(interpreter.stack@.drop_last() =~= old(interpreter).stack@.drop_last());
    }
    Ok(1)
}

/// The exact effect of BYTE on the interpreter state and its result.
pub open spec fn byte_rel(pre: Interpreter, post: Interpreter, r: InstructionResult) -> bool {
    &&& (same_except_stack(pre, post))
    &&& (pre.stack@.len() < 2 ==> r == Err::<usize, EvmError>(
        EvmError::StackUnderflow,
    ) && post.stack@ == pre.stack@)
    &&& (pre.stack@.len() >= 2 ==> r == Ok::<usize, EvmError>(1) && ({
        let s = pre.stack@;
        let index = s.last().as_nat();
        let w = s[s.len() - 2];
        &&& post.stack@.len() == s.len() - 1
        &&& post.stack@.drop_last() == s.drop_last().drop_last()
        &&& post.stack@.last().as_nat() == (if index < 32 {
            (w.as_nat() / pow2((8 * (31 - index)) as nat)) % 256
        } else {
            0nat
        })
    }))
}

/// BYTE: pop an index and a word, push the byte of the word at big-endian
/// position `index`, or zero when `index >= 32`.
pub fn byte(interpreter: &mut Interpreter) -> (r: InstructionResult)
    requires
        old(interpreter).wf(),
    ensures
        final(interpreter).wf(),
        byte_rel(*old(interpreter), *final(interpreter), r),
{
    if interpreter.stack.len() < 2 {
        return Err(EvmError::StackUnderflow);
    }
    let index_word = match interpreter.stack.pop() {
        Ok(w) => w,
        Err(e) => {
            return Err(e);
        },
    };
    let w = match interpreter.stack.pop() {
        Ok(w) => w,
        Err(e) => {
            return Err(e);
        },
    };
    let index = index_word.as_usize_saturated();
    let result = if index < 32 {
        Word::from_u64(w.byte_be(index) as u64)
    } else {
        Word::zero()
    };
    match interpreter.stack.push(result) {
        Ok(_) => {},
        Err(e) => {
            return Err(e);
        },
    }
    proof {
        assert(interpreter.stack@.drop_last() =~= old(interpreter).stack@.drop_last().drop_last());
    }
    Ok(1)
}

/// The exact effect of SHL on the interpreter state and its result.
pub open spec fn shl_rel(pre: Interpreter, post: Interpreter, r: InstructionResult) -> bool {
    &&& (same_except_stack(pre, post))
    &&& (pre.stack@.len() < 2 ==> r == Err::<usize, EvmError>(
        EvmError::StackUnderflow,
    ) && post.stack@ == pre.stack@)
    &&& (pre.stack@.len() >= 2 ==> r == Ok::<usize, EvmError>(1) && ({
        let s = pre.stack@;
        &&& post.stack@.len() == s.len() - 1
        &&& post.stack@.drop_last() == s.drop_last().drop_last()
        &&& post.stack@.last().as_nat() == (s[s.len() - 2].as_nat()
            * pow2(s.last().as_nat())) % p256()
    }))
}

/// SHL: pop a shift count and a word, push the word shifted left, wrapping
/// modulo 2^256.
pub fn shl(interpreter: &mut Interpreter) -> (r: InstructionResult)
    requires
        old(interpreter).wf(),
    ensures
        final(interpreter).wf(),
        shl_rel(*old(interpreter), *final(interpreter), r),
{
    if interpreter.stack.len() < 2 {
        return Err(EvmError::StackUnderflow);
    }
    let a = match interpreter.stack.pop() {
        Ok(w) => w,
        Err(e) => {
            return Err(e);
        },
    };
    let b = match interpreter.stack.pop() {
        Ok(w) => w,
        Err(e) => {
            return Err(e);
        },
    };
    let result = b.shl(&a);
    match interpreter.stack.push(result) {
        Ok(_) => {},
        Err(e) => {
            return Err(e);
        },
    }
    proof {
        assert(interpreter.stack@.drop_last() =~= old(interpreter).stack@.drop_last().drop_last());
    }
    Ok(1)
}

/// The exact effect of SHR on the interpreter state and its result.
pub open spec fn shr_rel(pre: Interpreter, post: Interpreter, r: InstructionResult) -> bool {
    &&& (same_except_stack(pre, post))
    &&& (pre.stack@.len() < 2 ==> r == Err::<usize, EvmError>(
        EvmError::StackUnderflow,
    ) && post.stack@ == pre.stack@)
    &&& (pre.stack@.len() >= 2 ==> r == Ok::<usize, EvmError>(1) && ({
        let s = pre.stack@;
        &&& post.stack@.len() == s.len() - 1
        &&& post.stack@.drop_last() == s.drop_last().drop_last()
        &&& post.stack@.last().as_nat() == s[s.len() - 2].as_nat() / pow2(
            s.last().as_nat(),
        )
    }))
}

/// SHR: pop a shift count and a word, push the word shifted right
/// logically: unsigned division by 2^shift.
pub fn shr(interpreter: &mut Interpreter) -> (r: InstructionResult)
    requires
        old(interpreter).wf(),
    ensures
        final(interpreter).wf(),
        shr_rel(*old(interpreter), *final(interpreter), r),
{
    if interpreter.stack.len() < 2 {
        return Err(EvmError::StackUnderflow);
    }
    let a = match interpreter.stack.pop() {
        Ok(w) => w,
        Err(e) => {
            return Err(e);
        },
    };
    let b = match interpreter.stack.pop() {
        Ok(w) => w,
        Err(e) => {
            return Err(e);
        },
    };
    let result = b.shr(&a);
    match interpreter.stack.push(result) {
        Ok(_) => {},
        Err(e) => {
            return Err(e);
        },
    }
    proof {
        assert(interpreter.stack@.drop_last() =~= old(interpreter).stack@.drop_last().drop_last());
    }
    Ok(1)
}

/// The exact effect of SAR on the interpreter state and its result.
pub open spec fn sar_rel(pre: Interpreter, post: Interpreter, r: InstructionResult) -> bool {
    &&& (same_except_stack(pre, post))
    &&& (pre.stack@.len() < 2 ==> r == Err::<usize, EvmError>(
        EvmError::StackUnderflow,
    ) && post.stack@ == pre.stack@)
    &&& (pre.stack@.len() >= 2 ==> r == Ok::<usize, EvmError>(1) && ({
        let s = pre.stack@;
        &&& post.stack@.len() == s.len() - 1
        &&& post.stack@.drop_last() == s.drop_last().drop_last()
        &&& post.stack@.last().as_int() == s[s.len() - 2].as_int() / pow2(
            s.last().as_nat(),
        ) as int
    }))
}

/// SAR: pop a shift count and a word, push the word shifted right
/// arithmetically: signed division by 2^shift, rounding toward minus
/// infinity.
pub fn sar(interpreter: &mut Interpreter) -> (r: InstructionResult)
    requires
        old(interpreter).wf(),
    ensures
        final(interpreter).wf(),
        sar_rel(*old(interpreter), *final(interpreter), r),
{
    if interpreter.stack.len() < 2 {
        return Err(EvmError::StackUnderflow);
    }
    let shift = match interpreter.stack.pop() {
        Ok(w) => w,
        Err(e) => {
            return Err(e);
        },
    };
    let word = match interpreter.stack.pop() {
        Ok(w) => w,
        Err(e) => {
            return Err(e);
        },
    };
    let result = word.sar(&shift);
    match interpreter.stack.push(result) {
        Ok(_) => {},
        Err(e) => {
            return Err(e);
        },
    }
    proof {
        assert(interpreter.stack@.drop_last() =~= old(interpreter).stack@.drop_last().drop_last());
    }
    Ok(1)
}

} // verus!
