use vstd::prelude::*;

use crate::errors::EvmError;
use crate::word::Word;

verus! {

/// Extension for a 256-bit word to cast it to a usize.
pub trait ToUsize {
    /// The mathematical value that the cast narrows.
    spec fn index_val(&self) -> nat;

    /// Checked narrowing: fails with `invalid_operand` when the value does
    /// not fit in the platform index type.
    fn as_usize(&self) -> (r: Result<usize, EvmError>)
        ensures
            self.index_val() <= usize::MAX ==> r == Ok::<usize, EvmError>(
                self.index_val() as usize,
            ),
            self.index_val() > usize::MAX ==> r == Err::<usize, EvmError>(
                EvmError::InvalidOperand,
            ),
    ;

    /// Saturating narrowing: clamps to the maximum platform index.
    fn as_usize_saturated(&self) -> (r: usize)
        ensures
            r == if self.index_val() <= usize::MAX {
                self.index_val()
            } else {
                usize::MAX as nat
            },
    ;
}

impl ToUsize for Word {
    open spec fn index_val(&self) -> nat {
        self.as_nat()
    }

    fn as_usize(&self) -> (r: Result<usize, EvmError>) {
        if self.l1 == 0 && self.l2 == 0 && self.l3 == 0 && self.l0 <= usize::MAX as u64 {
            Ok(self.l0 as usize)
        } else {
            Err(EvmError::InvalidOperand)
        }
    }

    fn as_usize_saturated(&self) -> (r: usize) {
        if self.l1 == 0 && self.l2 == 0 && self.l3 == 0 && self.l0 <= usize::MAX as u64 {
            self.l0 as usize
        } else {
            usize::MAX
        }
    }
}

} // verus!
