//! Bytecode and its jump-destination pre-scan.
//!
//! A `Bytecode` owns the raw code bytes together with a bit-set of the same
//! length: bit `i` is set iff offset `i` holds the JUMPDEST opcode and is
//! reachable as an instruction, i.e. it is not inside the immediate payload
//! of a PUSH instruction. The bit-set is held in a `bitvec` bit-vector.

use vstd::prelude::*;

use bitvec::order::Lsb0;
use bitvec::vec::BitVec;

verus! {

/// The jump-destination bit-set, backed by a `bitvec` bit-vector. Verus sees
/// the struct only through `bits_of` and the trusted accessors below.
#[verifier::external_body]
pub struct JumpSet {
    inner: BitVec<usize, Lsb0>,
}

/// The sequence of bits held by a jump-destination bit-set.
pub uninterp spec fn bits_of(bv: JumpSet) -> Seq<bool>;

/// Relies on bitvec's `BitVec::repeat`: a vector of `len` copies of one bit.
#[verifier::external_body]
fn bv_repeat(bit: bool, len: usize) -> (r: JumpSet)
    requires
        len <= usize::MAX / 8,
    ensures
        bits_of(r) == Seq::new(len as nat, |i: int| bit),
{
    JumpSet { inner: BitVec::repeat(bit, len) }
}

/// Relies on bitvec's `BitSlice::set`: writes the bit at `index`.
#[verifier::external_body]
fn bv_set(bv: &mut JumpSet, index: usize, value: bool)
    requires
        index < bits_of(*old(bv)).len(),
    ensures
        bits_of(*final(bv)) == bits_of(*old(bv)).update(index as int, value),
{
    bv.inner.set(index, value);
}

/// Relies on bitvec's `BitSlice::get`: reads the bit at `index`.
#[verifier::external_body]
fn bv_get(bv: &JumpSet, index: usize) -> (r: bool)
    requires
        index < bits_of(*bv).len(),
    ensures
        r == bits_of(*bv)[index as int],
{
    match bv.inner.get(index) {
        Some(bit) => *bit,
        None => false,
    }
}

/// The JUMPDEST opcode.
pub const JUMPDEST_OP: u8 = 0x5b;

/// Whether `op` is one of PUSH1 through PUSH32, the opcodes that carry an
/// immediate payload.
pub open spec fn is_push_with_data(op: u8) -> bool {
    0x60 <= op <= 0x7f
}

/// Where the pre-scan continues after visiting offset `p`: past the PUSH
/// immediate payload, or to the next byte, clamped to the code length.
pub open spec fn scan_step(code: Seq<u8>, p: int) -> int {
    let next = if is_push_with_data(code[p]) {
        p + (code[p] - 0x5f) + 1
    } else {
        p + 1
    };
    if next > code.len() {
        code.len() as int
    } else {
        next
    }
}

/// Whether the pre-scan that starts at offset `p` visits offset `i` as an
/// instruction. Offsets skipped over are inside a PUSH immediate payload.
pub open spec fn visits(code: Seq<u8>, p: int, i: int) -> bool
    decreases code.len() - p,
{
    if p < 0 || p >= code.len() || i < p {
        false
    } else if i == p {
        true
    } else {
        visits(code, scan_step(code, p), i)
    }
}

/// Offset `i` is a valid jump destination of `code`: it holds JUMPDEST and
/// the scan from offset 0 reaches it as an instruction.
pub open spec fn jumpdest_spec(code: Seq<u8>, i: int) -> bool {
    visits(code, 0, i) && code[i] == JUMPDEST_OP
}

/// Visited offsets lie between the scan start and the end of the code.
pub proof fn lemma_visits_range(code: Seq<u8>, p: int, i: int)
    requires
        visits(code, p, i),
    ensures
        p <= i < code.len(),
    decreases code.len() - p,
{
    if p < 0 || p >= code.len() || i < p {
    } else if i == p {
    } else {
        lemma_visits_range(code, scan_step(code, p), i);
    }
}

/// Jumpset soundness: an offset strictly inside the immediate payload of a
/// visited PUSH instruction is never visited itself.
pub proof fn lemma_jumpset_soundness(code: Seq<u8>, p: int, q: int, i: int)
    requires
        visits(code, p, q),
        q < i < scan_step(code, q),
    ensures
        !visits(code, p, i),
    decreases code.len() - p,
{
    if p == q {
        if visits(code, p, i) {
            lemma_visits_range(code, scan_step(code, p), i);
        }
    } else {
        lemma_jumpset_soundness(code, scan_step(code, p), q, i);
        lemma_visits_range(code, scan_step(code, p), q);
    }
}

/// Jumpset completeness, by way of coverage: every offset of the code is
/// either visited by the scan or lies strictly inside the immediate payload
/// of some visited PUSH instruction.
pub proof fn lemma_scan_coverage(code: Seq<u8>, p: int, i: int)
    requires
        0 <= p <= i < code.len(),
    ensures
        visits(code, p, i) || exists|q: int|
            visits(code, p, q) && #[trigger] is_push_with_data(code[q]) && q < i
                < scan_step(code, q),
    decreases code.len() - p,
{
    if p == i {
    } else {
        let next = scan_step(code, p);
        if i < next {
            assert(is_push_with_data(code[p]));
            assert(visits(code, p, p));
        } else {
            lemma_scan_coverage(code, next, i);
            if visits(code, next, i) {
                assert(visits(code, p, i));
            } else {
                let q = choose|q: int|
                    visits(code, next, q) && #[trigger] is_push_with_data(code[q]) && q < i
                        < scan_step(code, q);
                assert(visits(code, p, q));
            }
        }
    }
}

/// Jumpset completeness: an offset that holds JUMPDEST and lies strictly
/// inside no PUSH immediate payload is a valid jump destination.
pub proof fn lemma_jumpset_completeness(code: Seq<u8>, i: int)
    requires
        0 <= i < code.len(),
        code[i] == JUMPDEST_OP,
        forall|q: int|
            0 <= q < code.len() && #[trigger] visits(code, 0, q) && is_push_with_data(
                code[q],
            ) ==> !(q < i < scan_step(code, q)),
    ensures
        jumpdest_spec(code, i),
{
    lemma_scan_coverage(code, 0, i);
    if !visits(code, 0, i) {
        let q = choose|q: int|
            visits(code, 0, q) && #[trigger] is_push_with_data(code[q]) && q < i
                < scan_step(code, q);
        lemma_visits_range(code, 0, q);
    }
}

/// A bytecode blob together with its pre-computed jump-destination set.
pub struct Bytecode {
    pub bytes: Vec<u8>,
    pub jumpset: JumpSet,
}

impl Bytecode {
    /// The jumpset has one bit per code byte, set exactly on the valid jump
    /// destinations.
    pub open spec fn wf(&self) -> bool {
        &&& bits_of(self.jumpset).len() == self.bytes@.len()
        &&& forall|i: int|
            0 <= i < self.bytes@.len() ==> bits_of(self.jumpset)[i] == jumpdest_spec(
                self.bytes@,
                i,
            )
    }

    /// Bind code bytes to their pre-computed jump-destination set.
    pub fn new(bytes: Vec<u8>) -> (r: Bytecode)
        requires
            bytes@.len() <= usize::MAX / 8,
        ensures
            r.bytes@ == bytes@,
            r.wf(),
    {
        let jumpset = create_jumpset(&bytes);
        Bytecode { bytes, jumpset }
    }

    /// The code length in bytes.
    pub fn len(&self) -> (r: usize)
        ensures
            r == self.bytes@.len(),
    {
        self.bytes.len()
    }

    /// Whether offset `addr` is a valid jump destination.
    pub fn is_jumpdest(&self, addr: usize) -> (r: bool)
        requires
            self.wf(),
        ensures
            r == (addr < self.bytes@.len() && jumpdest_spec(self.bytes@, addr as int)),
    {
        addr < self.bytes.len() && bv_get(&self.jumpset, addr)
    }
}

impl Default for Bytecode {
    /// A bytecode of two zero bytes: a single STOP opcode with padding.
    fn default() -> (r: Bytecode)
        ensures
            r.bytes@ =~= seq![0u8, 0u8],
            r.wf(),
    {
        let mut bytes: Vec<u8> = Vec::new();
        bytes.push(0);
        bytes.push(0);
        proof {
            assert(bytes@ =~= seq![0u8, 0u8]);
        }
        Bytecode::new(bytes)
    }
}

/// Pre-scan the code and mark every offset that holds JUMPDEST and is
/// reachable as an instruction, skipping PUSH immediate payloads.
pub fn create_jumpset(bytes: &Vec<u8>) -> (r: JumpSet)
    requires
        bytes@.len() <= usize::MAX / 8,
    ensures
        bits_of(r).len() == bytes@.len(),
        forall|j: int|
            0 <= j < bytes@.len() ==> bits_of(r)[j] == jumpdest_spec(bytes@, j),
{
    let ghost code = bytes@;
    let len = bytes.len();
    let mut jumpset = bv_repeat(false, len);
    let mut i: usize = 0;
    while i < len
        invariant
            len == code.len(),
            code == bytes@,
            i <= len,
            bits_of(jumpset).len() == code.len(),
            forall|j: int|
                0 <= j < code.len() ==> #[trigger] bits_of(jumpset)[j] == (j < i
                    && jumpdest_spec(code, j)),
            forall|j: int|
                i <= j < code.len() ==> (#[trigger] visits(code, 0, j) <==> visits(
                    code,
                    i as int,
                    j,
                )),
        decreases len - i,
    {
        let op = bytes[i];
        let ghost prev = i as int;
        let ghost bits0 = bits_of(jumpset);
        if op == JUMPDEST_OP {
            proof {
                assert(visits(code, prev, prev));
            }
            bv_set(&mut jumpset, i, true);
            i = i + 1;
        } else if 0x60 <= op && op <= 0x7f {
            let advance = (op - 0x5f) as usize + 1;
            if len - i <= advance {
                i = len;
            } else {
                i = i + advance;
            }
        } else {
            i = i + 1;
        }
        proof {
            assert(i as int == scan_step(code, prev));
            assert forall|j: int| i <= j < code.len() implies (visits(code, 0, j) <==> visits(
                code,
                i as int,
                j,
            )) by {
                assert(visits(code, prev, j) == visits(code, i as int, j));
            }
            assert forall|j: int| 0 <= j < code.len() implies bits_of(jumpset)[j] == (j < i
                && jumpdest_spec(code, j)) by {
                assert(bits0[j] == (j < prev && jumpdest_spec(code, j)));
                if prev < j < i {
                    if visits(code, 0, j) {
                        assert(visits(code, prev, j));
                        lemma_visits_range(code, i as int, j);
                    }
                }
                if j == prev {
                    assert(visits(code, 0, j) <==> visits(code, prev, j));
                    if code[j] == JUMPDEST_OP {
                        assert(visits(code, prev, prev));
                        assert(jumpdest_spec(code, j));
                    } else {
                        assert(!jumpdest_spec(code, j));
                    }
                }
            }
        }
    }
    jumpset
}

} // verus!
