//! The byte-addressed, zero-extended, dynamically resizable memory.
//!
//! Memory starts empty and grows monotonically during execution; every byte
//! exposed by a resize is zero until it is explicitly written.

use vstd::prelude::*;
use vstd::slice::{slice_subrange, slice_to_vec};

use crate::word::{be_val, Word};

verus! {

/// The initial buffer capacity: a performance hint, not a semantic cap.
pub const FOUR_KB: usize = 4 * 1024;

/// A byte-addressed memory buffer. The view is the byte sequence it holds.
pub struct Memory {
    pub buffer: Vec<u8>,
}

impl View for Memory {
    type V = Seq<u8>;

    open spec fn view(&self) -> Seq<u8> {
        self.buffer@
    }
}

impl Memory {
    /// An empty memory.
    pub fn new() -> (r: Memory)
        ensures
            r@ =~= Seq::<u8>::empty(),
    {
        let buffer: Vec<u8> = Vec::with_capacity(FOUR_KB);
        Memory { buffer }
    }

    /// The current length in bytes.
    pub fn len(&self) -> (r: usize)
        ensures
            r == self@.len(),
    {
        self.buffer.len()
    }

    /// Whether no byte has been exposed yet.
    pub fn is_empty(&self) -> (r: bool)
        ensures
            r <==> self@.len() == 0,
    {
        self.buffer.len() == 0
    }

    /// Resize to exactly `new_len` bytes. Newly exposed bytes are zero; no
    /// existing byte below the new length changes.
    pub fn resize(&mut self, new_len: usize)
        ensures
            final(self)@.len() == new_len,
            new_len <= old(self)@.len() ==> final(self)@ == old(self)@.subrange(
                0,
                new_len as int,
            ),
            new_len > old(self)@.len() ==> final(self)@ == old(self)@ + Seq::new(
                (new_len - old(self)@.len()) as nat,
                |i: int| 0u8,
            ),
    {
        while self.buffer.len() > new_len
            invariant
                self.buffer@.len() <= old(self)@.len(),
                self.buffer@ == old(self)@.subrange(0, self.buffer@.len() as int),
                self.buffer@.len() >= new_len || self.buffer@.len() == old(self)@.len(),
            decreases self.buffer@.len(),
        {
            proof {
                assert(self.buffer@.drop_last() =~= old(self)@.subrange(
                    0,
                    self.buffer@.len() - 1,
                ));
            }
            self.buffer.pop();
        }
        proof {
            if new_len <= old(self)@.len() {
                assert(self.buffer@ =~= old(self)@.subrange(0, new_len as int));
            }
        }
        let ghost grown = self.buffer@;
        while self.buffer.len() < new_len
            invariant
                grown.len() <= self.buffer@.len() <= new_len || self.buffer@.len()
                    == grown.len(),
                self.buffer@ == grown + Seq::new(
                    (self.buffer@.len() - grown.len()) as nat,
                    |i: int| 0u8,
                ),
            decreases new_len - self.buffer@.len(),
        {
            let ghost before = self.buffer@;
            self.buffer.push(0);
            proof {
                assert(self.buffer@ =~= grown + Seq::new(
                    (self.buffer@.len() - grown.len()) as nat,
                    |i: int| 0u8,
                ));
            }
        }
        proof {
            if new_len > old(self)@.len() {
                assert(grown =~= old(self)@);
                assert(final(self)@ =~= old(self)@ + Seq::new(
                    (new_len - old(self)@.len()) as nat,
                    |i: int| 0u8,
                ));
            } else {
                assert(final(self)@ =~= grown);
            }
        }
    }

    /// Borrow `size` bytes starting at `addr`.
    pub fn slice(&self, addr: usize, size: usize) -> (r: &[u8])
        requires
            addr + size <= self@.len(),
        ensures
            r@ == self@.subrange(addr as int, addr + size),
    {
        let n = self.buffer.len();
        slice_subrange(self.buffer.as_slice(), addr, addr + size)
    }

    /// The byte at `addr`.
    pub fn get_byte(&self, addr: usize) -> (r: u8)
        requires
            addr < self@.len(),
        ensures
            r == self@[addr as int],
    {
        self.buffer[addr]
    }

    /// Copy the 32 bytes starting at `addr`.
    pub fn get_word(&self, addr: usize) -> (r: Vec<u8>)
        requires
            addr + 32 <= self@.len(),
        ensures
            r@ == self@.subrange(addr as int, addr + 32),
    {
        slice_to_vec(self.slice(addr, 32))
    }

    /// Read the 32 bytes starting at `addr` as a big-endian word.
    pub fn get_u256(&self, addr: usize) -> (r: Word)
        requires
            addr + 32 <= self@.len(),
        ensures
            r.as_nat() == be_val(self@.subrange(addr as int, addr + 32)),
    {
        Word::from_be_slice(self.slice(addr, 32))
    }

    /// Overwrite the bytes starting at `addr` with `slice`.
    pub fn set(&mut self, addr: usize, slice: &[u8])
        requires
            slice@.len() == 0 || addr + slice@.len() <= old(self)@.len(),
        ensures
            final(self)@.len() == old(self)@.len(),
            forall|i: int|
                0 <= i < old(self)@.len() && !(addr <= i < addr + slice@.len())
                    ==> final(self)@[i] == old(self)@[i],
            forall|i: int|
                addr <= i < addr + slice@.len() ==> final(self)@[i] == slice@[i - addr],
    {
        let count = slice.len();
        if count == 0 {
            return;
        }
        let mut k: usize = 0;
        while k < count
            invariant
                count == slice@.len(),
                k <= count,
                addr + count <= self.buffer@.len(),
                self.buffer@.len() == old(self)@.len(),
                forall|i: int|
                    0 <= i < old(self)@.len() && !(addr <= i < addr + k) ==> self.buffer@[i]
                        == old(self)@[i],
                forall|i: int| addr <= i < addr + k ==> self.buffer@[i] == slice@[i - addr],
            decreases count - k,
        {
            let n = self.buffer.len();
            let b = slice[k];
            self.buffer[addr + k] = b;
            k = k + 1;
        }
    }

    /// Overwrite the byte at `addr`.
    pub fn set_byte(&mut self, addr: usize, byte: u8)
        requires
            addr < old(self)@.len(),
        ensures
            final(self)@ == old(self)@.update(addr as int, byte),
    {
        self.buffer[addr] = byte;
        proof {
            assert(final(self)@ =~= old(self)@.update(addr as int, byte));
        }
    }

    /// Overwrite the 32 bytes starting at `addr`.
    pub fn set_word(&mut self, addr: usize, bytes: &[u8])
        requires
            bytes@.len() == 32,
            addr + 32 <= old(self)@.len(),
        ensures
            final(self)@.len() == old(self)@.len(),
            final(self)@.subrange(addr as int, addr + 32) == bytes@,
            forall|i: int|
                0 <= i < old(self)@.len() && !(addr <= i < addr + 32) ==> final(self)@[i]
                    == old(self)@[i],
    {
        self.set(addr, bytes);
        proof {
            assert(final(self)@.subrange(addr as int, addr + 32) =~= bytes@);
        }
    }

    /// Store a word as 32 big-endian bytes starting at `addr`.
    pub fn set_u256(&mut self, addr: usize, word: &Word)
        requires
            addr + 32 <= old(self)@.len(),
        ensures
            final(self)@.len() == old(self)@.len(),
            be_val(final(self)@.subrange(addr as int, addr + 32)) == word.as_nat(),
            forall|i: int|
                0 <= i < old(self)@.len() && !(addr <= i < addr + 32) ==> final(self)@[i]
                    == old(self)@[i],
    {
        let bytes = word.to_be_bytes();
        self.set(addr, bytes.as_slice());
        proof {
            assert(final(self)@.subrange(addr as int, addr + 32) =~= bytes@);
        }
    }
}

impl Default for Memory {
    /// An empty memory.
    fn default() -> (r: Memory)
        ensures
            r@ =~= Seq::<u8>::empty(),
    {
        Memory::new()
    }
}

/// One mutating memory operation. An access pattern is a sequence of
/// these; `Set` stands for any of the write operations.
pub enum MemWrite {
    Resize(int),
    Write(int, Seq<u8>),
}

/// The bytes a memory holds after starting empty and undergoing the given
/// access pattern. Each case restates the corresponding operation's
/// contract: `Resize` is `Memory::resize`, and `Write` (within bounds, as
/// the write operations require) is `Memory::set` and the byte and word
/// stores built on it.
pub open spec fn mem_after(ops: Seq<MemWrite>) -> Seq<u8>
    decreases ops.len(),
{
    if ops.len() == 0 {
        Seq::empty()
    } else {
        let m = mem_after(ops.drop_last());
        match ops.last() {
            MemWrite::Resize(n) => if n <= 0 {
                Seq::empty()
            } else if n <= m.len() {
                m.subrange(0, n)
            } else {
                m + Seq::new((n - m.len()) as nat, |k: int| 0u8)
            },
            MemWrite::Write(addr, data) => if data.len() > 0 && 0 <= addr && addr
                + data.len() <= m.len() {
                Seq::new(m.len(), |i: int|
                    if addr <= i < addr + data.len() {
                        data[i - addr]
                    } else {
                        m[i]
                    })
            } else {
                m
            },
        }
    }
}

/// Whether some write of the access pattern covers offset `a`.
pub open spec fn writes_touch(ops: Seq<MemWrite>, a: int) -> bool {
    exists|i: int|
        0 <= i < ops.len() && match #[trigger] ops[i] {
            MemWrite::Resize(_) => false,
            MemWrite::Write(addr, data) => addr <= a < addr + data.len(),
        }
}

/// Memory zero-extension: after any access pattern, every offset that no
/// write ever covered still reads zero — growth only ever exposes zero
/// bytes, and writes change nothing outside their range.
pub proof fn lemma_unwritten_byte_is_zero(ops: Seq<MemWrite>, a: int)
    requires
        0 <= a < mem_after(ops).len(),
        !writes_touch(ops, a),
    ensures
        mem_after(ops)[a] == 0,
    decreases ops.len(),
{
    if ops.len() > 0 {
        let prefix = ops.drop_last();
        let m = mem_after(prefix);
        assert(!writes_touch(prefix, a)) by {
            if writes_touch(prefix, a) {
                let i = choose|i: int|
                    0 <= i < prefix.len() && match #[trigger] prefix[i] {
                        MemWrite::Resize(_) => false,
                        MemWrite::Write(addr, data) => addr <= a < addr + data.len(),
                    };
                assert(ops[i] == prefix[i]);
                assert(writes_touch(ops, a));
            }
        }
        match ops.last() {
            MemWrite::Resize(n) => {
                if a < m.len() {
                    lemma_unwritten_byte_is_zero(prefix, a);
                }
            },
            MemWrite::Write(addr, data) => {
                if data.len() > 0 && 0 <= addr && addr + data.len() <= m.len() {
                    assert(!(addr <= a < addr + data.len())) by {
                        if addr <= a < addr + data.len() {
                            assert(match ops[ops.len() - 1] {
                                MemWrite::Resize(_) => false,
                                MemWrite::Write(w, d) => w <= a < w + d.len(),
                            });
                            assert(writes_touch(ops, a));
                        }
                    }
                }
                lemma_unwritten_byte_is_zero(prefix, a);
            },
        }
    }
}

} // verus!
