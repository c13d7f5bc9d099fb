//! The bounded LIFO stack of 256-bit words.
//!
//! Index 0 from the top is the most recently pushed word. Operations that
//! would leave fewer than zero or more than `size` words fail without
//! mutating the stack.

use vstd::prelude::*;

use crate::errors::EvmError;
use crate::word::{be_val, word_of, Word};
use crate::word::lemma_limbs_of_as_nat;

verus! {

/// The maximum stack depth.
pub const STACK_SIZE: usize = 1024;

/// A bounded stack of words. The view is the sequence of words from bottom
/// to top.
pub struct Stack {
    /// The maximum number of words the stack may hold.
    pub size: usize,
    pub stack: Vec<Word>,
}

impl View for Stack {
    type V = Seq<Word>;

    open spec fn view(&self) -> Seq<Word> {
        self.stack@
    }
}

impl Stack {
    /// The depth never exceeds the bound.
    pub open spec fn wf(&self) -> bool {
        self@.len() <= self.size
    }

    /// An empty stack with the given bound.
    pub fn new(size: usize) -> (r: Stack)
        ensures
            r@ =~= Seq::<Word>::empty(),
            r.size == size,
            r.wf(),
    {
        let stack: Vec<Word> = Vec::with_capacity(size);
        Stack { size, stack }
    }

    /// Append a word on top.
    pub fn push(&mut self, elem: Word) -> (r: Result<(), EvmError>)
        ensures
            final(self).size == old(self).size,
            old(self)@.len() == old(self).size ==> r == Err::<(), EvmError>(
                EvmError::StackOverflow,
            ) && final(self)@ == old(self)@,
            old(self)@.len() < old(self).size ==> r == Ok::<(), EvmError>(())
                && final(self)@ == old(self)@.push(elem),
            old(self).wf() ==> final(self).wf(),
    {
        if self.stack.len() >= self.size {
            return Err(EvmError::StackOverflow);
        }
        self.stack.push(elem);
        Ok(())
    }

    /// Big-endian zero-extend at most 32 bytes to a word and push it.
    pub fn push_slice(&mut self, slice: &[u8]) -> (r: Result<(), EvmError>)
        requires
            slice@.len() <= 32,
        ensures
            final(self).size == old(self).size,
            old(self)@.len() == old(self).size ==> r == Err::<(), EvmError>(
                EvmError::StackOverflow,
            ) && final(self)@ == old(self)@,
            old(self)@.len() < old(self).size ==> r == Ok::<(), EvmError>(())
                && final(self)@ == old(self)@.push(word_of(be_val(slice@))),
            old(self).wf() ==> final(self).wf(),
    {
        let elem = Word::from_be_slice(slice);
        proof {
            lemma_limbs_of_as_nat(elem);
        }
        self.push(elem)
    }

    /// Return the word `index` places from the top without removing it.
    pub fn peek(&self, index: usize) -> (r: Option<Word>)
        ensures
            self@.len() < index + 1 ==> r == None::<Word>,
            self@.len() >= index + 1 ==> r == Some(self@[self@.len() - index - 1]),
    {
        if self.stack.len() <= index {
            return None;
        }
        Some(self.stack[self.stack.len() - index - 1])
    }

    /// Remove and return the top word.
    pub fn pop(&mut self) -> (r: Result<Word, EvmError>)
        ensures
            final(self).size == old(self).size,
            old(self)@.len() == 0 ==> r == Err::<Word, EvmError>(EvmError::StackUnderflow)
                && final(self)@ == old(self)@,
            old(self)@.len() > 0 ==> r == Ok::<Word, EvmError>(old(self)@.last())
                && final(self)@ == old(self)@.drop_last(),
            old(self).wf() ==> final(self).wf(),
    {
        if self.stack.len() == 0 {
            return Err(EvmError::StackUnderflow);
        }
        match self.stack.pop() {
            Some(w) => Ok(w),
            None => Err(EvmError::StackUnderflow),
        }
    }

    /// Copy the word `index` places from the top onto the top.
    pub fn dup(&mut self, index: usize) -> (r: Result<(), EvmError>)
        ensures
            final(self).size == old(self).size,
            old(self)@.len() < index + 1 ==> r == Err::<(), EvmError>(
                EvmError::StackUnderflow,
            ) && final(self)@ == old(self)@,
            old(self)@.len() >= index + 1 && old(self)@.len() == old(self).size ==> r
                == Err::<(), EvmError>(EvmError::StackOverflow)
                && final(self)@ == old(self)@,
            old(self)@.len() >= index + 1 && old(self)@.len() < old(self).size ==> r
                == Ok::<(), EvmError>(()) && final(self)@ == old(self)@.push(
                old(self)@[old(self)@.len() - index - 1],
            ),
            old(self).wf() ==> final(self).wf(),
    {
        if self.stack.len() <= index {
            return Err(EvmError::StackUnderflow);
        }
        let elem = self.stack[self.stack.len() - index - 1];
        self.push(elem)
    }

    /// Exchange the top word with the word `index` places from the top.
    pub fn swap(&mut self, index: usize) -> (r: Result<(), EvmError>)
        ensures
            final(self).size == old(self).size,
            index == 0 ==> r == Err::<(), EvmError>(EvmError::InvalidIndex) && final(self)@
                == old(self)@,
            index > 0 && old(self)@.len() < index + 1 ==> r == Err::<(), EvmError>(
                EvmError::StackUnderflow,
            ) && final(self)@ == old(self)@,
            index > 0 && old(self)@.len() >= index + 1 ==> r == Ok::<(), EvmError>(())
                && final(self)@ == old(self)@.update(
                old(self)@.len() - index - 1,
                old(self)@.last(),
            ).update(old(self)@.len() - 1, old(self)@[old(self)@.len() - index - 1]),
            old(self).wf() ==> final(self).wf(),
    {
        if index == 0 {
            return Err(EvmError::InvalidIndex);
        }
        if self.stack.len() <= index {
            return Err(EvmError::StackUnderflow);
        }
        let len = self.stack.len();
        let deep = self.stack[len - index - 1];
        let top = self.stack[len - 1];
        self.stack[len - index - 1] = top;
        self.stack[len - 1] = deep;
        Ok(())
    }

    /// The number of words currently on the stack.
    pub fn len(&self) -> (r: usize)
        ensures
            r == self@.len(),
    {
        self.stack.len()
    }
}

impl Default for Stack {
    /// An empty stack with the standard bound of 1024 words.
    fn default() -> (r: Stack)
        ensures
            r@ =~= Seq::<Word>::empty(),
            r.size == STACK_SIZE,
            r.wf(),
    {
        Stack::new(STACK_SIZE)
    }
}

} // verus!
