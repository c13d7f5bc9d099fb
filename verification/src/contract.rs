//! A contract binds code, a deployed address and the input calldata.

use vstd::prelude::*;

use crate::bytecode::{jumpdest_spec, Bytecode};

verus! {

/// One contract invocation: code, deployed address (reserved; unused by the
/// implemented instruction set) and immutable calldata.
pub struct Contract {
    pub bytecode: Bytecode,
    pub address: [u8; 20],
    pub input: Vec<u8>,
}

impl Contract {
    /// The jumpset matches the code.
    pub open spec fn wf(&self) -> bool {
        self.bytecode.wf()
    }

    /// Bind an address, code bytes and calldata into a contract.
    pub fn new(address: [u8; 20], bytecode: Vec<u8>, input: Vec<u8>) -> (r: Contract)
        requires
            bytecode@.len() <= usize::MAX / 8,
        ensures
            r.bytecode.bytes@ == bytecode@,
            r.address@ == address@,
            r.input@ == input@,
            r.wf(),
    {
        let bytecode = Bytecode::new(bytecode);
        Contract { address, bytecode, input }
    }

    /// Whether `addr` is a valid jump destination of the contract's code.
    pub fn is_valid_jump(&self, addr: usize) -> (r: bool)
        requires
            self.wf(),
        ensures
            r == (addr < self.bytecode.bytes@.len() && jumpdest_spec(
                self.bytecode.bytes@,
                addr as int,
            )),
    {
        self.bytecode.is_jumpdest(addr)
    }
}

impl Default for Contract {
    /// The default contract: default bytecode, zero address, empty calldata.
    fn default() -> (r: Contract)
        ensures
            r.bytecode.bytes@ =~= seq![0u8, 0u8],
            r.input@ =~= Seq::<u8>::empty(),
            r.wf(),
    {
        Contract { bytecode: Bytecode::default(), address: [0; 20], input: Vec::new() }
    }
}

} // verus!
