//! The interpreter state and its fetch-decode-execute loop.

use vstd::prelude::*;

use crate::contract::Contract;
use crate::errors::EvmError;
use crate::instructions::opcode::{instruction, instruction_of, Instruction};
use crate::instructions::{arithmetic, bitwise, control, memory, stack, system};
use crate::memory::Memory;
use crate::stack::{Stack, STACK_SIZE};
use crate::word::Word;

verus! {

/// The mutable machine state of one execution: instruction pointer, halt
/// flag, return buffer, gas counter, and the owned stack, memory and
/// contract.
pub struct Interpreter {
    pub stack: Stack,
    pub memory: Memory,
    pub contract: Contract,
    /// Reserved for future gas accounting; initialised to zero and never
    /// consulted by any implemented instruction.
    pub gas: Word,
    pub instruction_pointer: usize,
    pub return_data_buffer: Vec<u8>,
    pub stopped: bool,
}

/// `n` bytes of `m` starting at offset `addr`, reading zero past the end.
pub open spec fn bytes_at(m: Seq<u8>, addr: int, n: int) -> Seq<u8> {
    Seq::new(n as nat, |k: int| if addr + k < m.len() { m[addr + k] } else { 0u8 })
}

/// `m` grown with zero bytes to at least `size`, unchanged if already there.
pub open spec fn grown(m: Seq<u8>, size: int) -> Seq<u8> {
    if size <= m.len() {
        m
    } else {
        m + Seq::new((size - m.len()) as nat, |k: int| 0u8)
    }
}

/// Everything of the interpreter but the stack contents is unchanged.
pub open spec fn same_except_stack(pre: Interpreter, post: Interpreter) -> bool {
    &&& post.stack.size == pre.stack.size
    &&& post.memory == pre.memory
    &&& post.contract == pre.contract
    &&& post.gas == pre.gas
    &&& post.instruction_pointer == pre.instruction_pointer
    &&& post.return_data_buffer == pre.return_data_buffer
    &&& post.stopped == pre.stopped
}

/// Everything of the interpreter but the stack contents and the memory is
/// unchanged.
pub open spec fn same_except_stack_memory(pre: Interpreter, post: Interpreter) -> bool {
    &&& post.stack.size == pre.stack.size
    &&& post.contract == pre.contract
    &&& post.gas == pre.gas
    &&& post.instruction_pointer == pre.instruction_pointer
    &&& post.return_data_buffer == pre.return_data_buffer
    &&& post.stopped == pre.stopped
}

/// The interpreter is unchanged: failing handlers leave all state as it was.
pub open spec fn unchanged(pre: Interpreter, post: Interpreter) -> bool {
    &&& same_except_stack(pre, post)
    &&& post.stack@ == pre.stack@
}

/// What one decoded instruction does: the per-instruction relation each
/// handler's contract states, selected by the instruction.
pub open spec fn step_rel(
    inst: Instruction,
    pre: Interpreter,
    post: Interpreter,
    r: Result<usize, EvmError>,
) -> bool {
    match inst {
        Instruction::Stop => control::stop_rel(pre, post, r),
        Instruction::Add => arithmetic::add_rel(pre, post, r),
        Instruction::Mul => arithmetic::mul_rel(pre, post, r),
        Instruction::Sub => arithmetic::sub_rel(pre, post, r),
        Instruction::Div => arithmetic::div_rel(pre, post, r),
        Instruction::Lt => bitwise::lt_rel(pre, post, r),
        Instruction::Gt => bitwise::gt_rel(pre, post, r),
        Instruction::Slt => bitwise::slt_rel(pre, post, r),
        Instruction::Sgt => bitwise::sgt_rel(pre, post, r),
        Instruction::Eq => bitwise::eq_rel(pre, post, r),
        Instruction::IsZero => bitwise::iszero_rel(pre, post, r),
        Instruction::And => bitwise::and_rel(pre, post, r),
        Instruction::Or => bitwise::or_rel(pre, post, r),
        Instruction::Xor => bitwise::xor_rel(pre, post, r),
        Instruction::Not => bitwise::not_rel(pre, post, r),
        Instruction::Byte => bitwise::byte_rel(pre, post, r),
        Instruction::Shl => bitwise::shl_rel(pre, post, r),
        Instruction::Shr => bitwise::shr_rel(pre, post, r),
        Instruction::Sar => bitwise::sar_rel(pre, post, r),
        Instruction::CallDataLoad => system::calldataload_rel(pre, post, r),
        Instruction::CallDataSize => system::calldatasize_rel(pre, post, r),
        Instruction::CallDataCopy => system::calldatacopy_rel(pre, post, r),
        Instruction::MLoad => memory::mload_rel(pre, post, r),
        Instruction::MStore => memory::mstore_rel(pre, post, r),
        Instruction::MStore8 => memory::mstore8_rel(pre, post, r),
        Instruction::Jump => control::jump_rel(pre, post, r),
        Instruction::JumpI => control::jumpi_rel(pre, post, r),
        Instruction::Pc => control::pc_rel(pre, post, r),
        Instruction::MSize => memory::msize_rel(pre, post, r),
        Instruction::JumpDest => control::jumpdest_rel(pre, post, r),
        Instruction::Push(n) => if n == 0 {
            stack::push0_rel(pre, post, r)
        } else {
            stack::push_rel(n, pre, post, r)
        },
        Instruction::Dup(n) => stack::dup_rel(n, pre, post, r),
        Instruction::Swap(n) => stack::swap_rel(n, pre, post, r),
        Instruction::Return => control::ret_rel(pre, post, r),
        Instruction::Invalid => control::invalid_rel(pre, post, r),
        Instruction::Unknown => control::unknown_rel(pre, post, r),
    }
}

/// `mid` after the instruction pointer advanced by `d`.
pub open spec fn advanced(mid: Interpreter, d: usize) -> Interpreter {
    Interpreter { instruction_pointer: (mid.instruction_pointer + d) as usize, ..mid }
}

/// One fetch-decode-execute step of the machine: the instruction fetched
/// in `pre` relates `pre` to an intermediate state, and on success the
/// instruction pointer then advances by what the handler returned.
pub open spec fn machine_step(
    pre: Interpreter,
    post: Interpreter,
    r: Result<usize, EvmError>,
) -> bool {
    exists|mid: Interpreter|
        #[trigger] step_rel(instruction_of(pre.fetched()), pre, mid, r) && match r {
            Ok(d) => post == advanced(mid, d),
            Err(_) => post == mid,
        }
}

/// The outcome of a run, with the returned bytes abstracted to their
/// sequence.
pub open spec fn outcome_of(r: Result<Vec<u8>, EvmError>) -> Result<Seq<u8>, EvmError> {
    match r {
        Ok(v) => Ok(v@),
        Err(e) => Err(e),
    }
}

/// The machine run from `pre` with `fuel` steps left reaches `post` with
/// `outcome`: a halted state yields its return buffer, an exhausted budget
/// yields `step_limit`, and otherwise one machine step runs and the first
/// handler error, if any, ends the run.
pub open spec fn runs_to(
    pre: Interpreter,
    post: Interpreter,
    outcome: Result<Seq<u8>, EvmError>,
    fuel: nat,
) -> bool
    decreases fuel,
{
    if pre.stopped {
        post == pre && outcome == Ok::<Seq<u8>, EvmError>(pre.return_data_buffer@)
    } else if fuel == 0 {
        post == pre && outcome == Err::<Seq<u8>, EvmError>(EvmError::StepLimit)
    } else {
        exists|mid: Interpreter, r: Result<usize, EvmError>|
            #[trigger] machine_step(pre, mid, r) && match r {
                Ok(_) => runs_to(mid, post, outcome, (fuel - 1) as nat),
                Err(e) => post == mid && outcome == Err::<Seq<u8>, EvmError>(e),
            }
    }
}

/// `init` is a fresh interpreter over the given code and calldata: empty
/// stack, memory and return buffer, zero gas, instruction pointer at
/// offset zero, not halted, jumpset matching the code.
pub open spec fn fresh_for(init: Interpreter, code: Seq<u8>, input: Seq<u8>) -> bool {
    &&& init.wf()
    &&& init.contract.bytecode.bytes@ == code
    &&& init.contract.input@ == input
    &&& init.stack@ == Seq::<Word>::empty()
    &&& init.memory@ == Seq::<u8>::empty()
    &&& init.gas.as_nat() == 0
    &&& init.instruction_pointer == 0
    &&& init.return_data_buffer@ == Seq::<u8>::empty()
    &&& !init.stopped
}

impl Interpreter {
    /// The stack respects the standard bound and the jumpset matches the
    /// code.
    pub open spec fn wf(&self) -> bool {
        &&& self.stack.wf()
        &&& self.stack.size == STACK_SIZE
        &&& self.contract.wf()
    }

    /// The opcode the next fetch decodes: STOP when the instruction pointer
    /// is outside the code.
    pub open spec fn fetched(&self) -> u8 {
        if self.instruction_pointer >= self.contract.bytecode.bytes@.len() {
            0u8
        } else {
            self.contract.bytecode.bytes@[self.instruction_pointer as int]
        }
    }

    /// A fresh interpreter over a contract: empty stack and memory, zero
    /// gas, instruction pointer at offset zero, not halted.
    pub fn new(contract: Box<Contract>) -> (r: Interpreter)
        requires
            contract.wf(),
        ensures
            r.wf(),
            r.stack@ =~= Seq::<Word>::empty(),
            r.memory@ =~= Seq::<u8>::empty(),
            r.contract == *contract,
            r.gas.as_nat() == 0,
            r.instruction_pointer == 0,
            r.return_data_buffer@ =~= Seq::<u8>::empty(),
            !r.stopped,
    {
        Interpreter {
            stack: Stack::default(),
            memory: Memory::default(),
            contract: *contract,
            gas: Word::zero(),
            instruction_pointer: 0,
            return_data_buffer: Vec::new(),
            stopped: false,
        }
    }

    /// Raise the halt flag; the main loop then terminates.
    pub fn stop(&mut self)
        ensures
            final(self).stack@ == old(self).stack@,
            final(self).stack.size == old(self).stack.size,
            final(self).memory == old(self).memory,
            final(self).contract == old(self).contract,
            final(self).gas == old(self).gas,
            final(self).instruction_pointer == old(self).instruction_pointer,
            final(self).return_data_buffer == old(self).return_data_buffer,
            final(self).stopped,
    {
        self.stopped = true;
    }

    /// Fetch and decode the instruction at the current instruction pointer.
    /// Outside the code range the implicit operation is STOP.
    pub fn next(&self) -> (r: Instruction)
        ensures
            r == instruction_of(self.fetched()),
    {
        let ip = self.instruction_pointer;
        if ip >= self.contract.bytecode.len() {
            return instruction(0);
        }
        let opcode = self.contract.bytecode.bytes[ip];
        instruction(opcode)
    }

    /// Run one decoded instruction: invoke its handler and hand back the
    /// instruction-pointer advance it returns.
    pub fn run_instruction(&mut self, inst: Instruction) -> (r: Result<usize, EvmError>)
        requires
            old(self).wf(),
            inst matches Instruction::Push(n) ==> n <= 32,
            inst matches Instruction::Dup(n) ==> 1 <= n <= 16,
            inst matches Instruction::Swap(n) ==> 1 <= n <= 16,
        ensures
            final(self).wf(),
            final(self).contract == old(self).contract,
            final(self).gas == old(self).gas,
            r matches Ok(d) ==> d <= 33,
            (r matches Ok(d) && d > 0) ==> final(self).instruction_pointer == old(self).instruction_pointer,
            r is Err ==> final(self).stopped == old(self).stopped,
            inst == Instruction::Stop || inst == Instruction::Invalid || inst
                == Instruction::Unknown ==> r == Ok::<usize, EvmError>(0) && final(self).stopped,
            step_rel(inst, *old(self), *final(self), r),
    {
        match inst {
            Instruction::Stop => control::stop(self),
            Instruction::Add => arithmetic::add(self),
            Instruction::Mul => arithmetic::mul(self),
            Instruction::Sub => arithmetic::sub(self),
            Instruction::Div => arithmetic::div(self),
            Instruction::Lt => bitwise::lt(self),
            Instruction::Gt => bitwise::gt(self),
            Instruction::Slt => bitwise::slt(self),
            Instruction::Sgt => bitwise::sgt(self),
            Instruction::Eq => bitwise::eq(self),
            Instruction::IsZero => bitwise::iszero(self),
            Instruction::And => bitwise::and(self),
            Instruction::Or => bitwise::or(self),
            Instruction::Xor => bitwise::xor(self),
            Instruction::Not => bitwise::not(self),
            Instruction::Byte => bitwise::byte(self),
            Instruction::Shl => bitwise::shl(self),
            Instruction::Shr => bitwise::shr(self),
            Instruction::Sar => bitwise::sar(self),
            Instruction::CallDataLoad => system::calldataload(self),
            Instruction::CallDataSize => system::calldatasize(self),
            Instruction::CallDataCopy => system::calldatacopy(self),
            Instruction::MLoad => memory::mload(self),
            Instruction::MStore => memory::mstore(self),
            Instruction::MStore8 => memory::mstore8(self),
            Instruction::Jump => control::jump(self),
            Instruction::JumpI => control::jumpi(self),
            Instruction::Pc => control::pc(self),
            Instruction::MSize => memory::msize(self),
            Instruction::JumpDest => control::jumpdest(self),
            Instruction::Push(n) => {
                if n == 0 {
                    stack::push0(self)
                } else {
                    stack::push(self, n)
                }
            },
            Instruction::Dup(n) => stack::dup(self, n),
            Instruction::Swap(n) => stack::swap(self, n),
            Instruction::Return => control::ret(self),
            Instruction::Invalid => control::invalid(self),
            Instruction::Unknown => control::unknown(self),
        }
    }

    /// Drive the engine to a halt: fetch, decode and execute instructions,
    /// advancing the instruction pointer by what each handler returns, and
    /// yield the return buffer. The loop is bounded by a step budget that
    /// no realistic execution exhausts; running out of it surfaces as
    /// `step_limit`.
    pub fn execute(&mut self) -> (r: Result<Vec<u8>, EvmError>)
        requires
            old(self).wf(),
            old(self).contract.bytecode.bytes@.len() + 33 <= usize::MAX,
        ensures
            final(self).wf(),
            final(self).contract == old(self).contract,
            final(self).gas == old(self).gas,
            r is Ok <==> final(self).stopped,
            r matches Ok(buf) ==> buf@ == final(self).return_data_buffer@,
            runs_to(*old(self), *final(self), outcome_of(r), u64::MAX as nat),
    {
        let mut fuel: u64 = u64::MAX;
        while !self.stopped
            invariant
                self.wf(),
                self.contract == old(self).contract,
                self.gas == old(self).gas,
                self.contract.bytecode.bytes@.len() + 33 <= usize::MAX,
                forall|post: Interpreter, outcome: Result<Seq<u8>, EvmError>|
                    #[trigger] runs_to(*self, post, outcome, fuel as nat) ==> runs_to(
                        *old(self),
                        post,
                        outcome,
                        u64::MAX as nat,
                    ),
            decreases fuel,
        {
            let ghost entry = *self;
            let ghost entry_fuel = fuel as nat;
            if fuel == 0 {
                proof {
                    assert(runs_to(entry, entry, Err::<Seq<u8>, EvmError>(
                        EvmError::StepLimit,
                    ), 0));
                }
                return Err(EvmError::StepLimit);
            }
            fuel = fuel - 1;
            let ghost ip_at_fetch = self.instruction_pointer;
            let inst = self.next();
            let advance = match self.run_instruction(inst) {
                Ok(d) => d,
                Err(e) => {
                    proof {
                        let mid = *self;
                        assert(step_rel(instruction_of(entry.fetched()), entry, mid,
                            Err::<usize, EvmError>(e)));
                        assert(machine_step(entry, mid, Err::<usize, EvmError>(e)));
                        assert(runs_to(entry, mid, Err::<Seq<u8>, EvmError>(e),
                            entry_fuel));
                    }
                    return Err(e);
                },
            };
            let ghost mid = *self;
            proof {
                if advance > 0 {
                    assert(ip_at_fetch < self.contract.bytecode.bytes@.len());
                }
            }
            self.instruction_pointer = self.instruction_pointer + advance;
            proof {
                assert(*self == advanced(mid, advance));
                assert(step_rel(instruction_of(entry.fetched()), entry, mid, Ok::<
                    usize,
                    EvmError,
                >(advance)));
                assert(machine_step(entry, *self, Ok::<usize, EvmError>(advance)));
                assert forall|post: Interpreter, outcome: Result<Seq<u8>, EvmError>|
                    #[trigger] runs_to(*self, post, outcome, fuel as nat) implies runs_to(
                    *old(self),
                    post,
                    outcome,
                    u64::MAX as nat,
                ) by {
                    assert(runs_to(entry, post, outcome, entry_fuel));
                }
            }
        }
        proof {
            assert(runs_to(*self, *self, Ok::<Seq<u8>, EvmError>(
                self.return_data_buffer@,
            ), fuel as nat));
        }
        Ok(self.return_data_buffer.clone())
    }
}

} // verus!
