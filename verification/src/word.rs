//! The 256-bit unsigned machine word: the universal value type of the engine.
//!
//! A word is four 64-bit limbs in little-endian limb order; its mathematical
//! value is [`Word::as_nat`]. All arithmetic wraps modulo 2^256, and signed
//! operations reinterpret the top bit as a two's-complement sign.

use vstd::prelude::*;
use vstd::arithmetic::div_mod::*;
use vstd::arithmetic::mul::*;
use vstd::arithmetic::power2::*;

verus! {

/// 2^64, the weight of the second limb.
#[verifier::inline]
pub open spec fn p64() -> nat {
    0x1_0000_0000_0000_0000
}

/// 2^128, the weight of the third limb.
#[verifier::inline]
pub open spec fn p128() -> nat {
    0x1_0000_0000_0000_0000_0000_0000_0000_0000int as nat
}

/// 2^192, the weight of the fourth limb.
#[verifier::inline]
pub open spec fn p192() -> nat {
    0x1_0000_0000_0000_0000_0000_0000_0000_0000_0000_0000_0000_0000int as nat
}

/// 2^255, the weight of the sign bit.
#[verifier::inline]
pub open spec fn p255() -> nat {
    0x8000_0000_0000_0000_0000_0000_0000_0000_0000_0000_0000_0000_0000_0000_0000_0000int as nat
}

/// 2^256, the modulus of all wrapping word arithmetic.
#[verifier::inline]
pub open spec fn p256() -> nat {
    0x1_0000_0000_0000_0000_0000_0000_0000_0000_0000_0000_0000_0000_0000_0000_0000_0000int as nat
}

/// A 256-bit unsigned integer held as four 64-bit limbs, least significant
/// limb first.
#[derive(Clone, Copy, Debug, PartialEq, Eq, Structural)]
pub struct Word {
    pub l0: u64,
    pub l1: u64,
    pub l2: u64,
    pub l3: u64,
}

impl Word {
    /// The unsigned value of the word.
    pub open spec fn as_nat(self) -> nat {
        (self.l0 + self.l1 * p64() + self.l2 * p128() + self.l3 * p192()) as nat
    }

    /// The signed (two's-complement) value of the word.
    pub open spec fn as_int(self) -> int {
        if self.as_nat() >= p255() {
            self.as_nat() - p256()
        } else {
            self.as_nat() as int
        }
    }
}

/// The word whose unsigned value is `n`, for `n < 2^256`.
pub open spec fn word_of(n: nat) -> Word {
    Word {
        l0: (n % p64()) as u64,
        l1: ((n / p64()) % p64()) as u64,
        l2: ((n / p128()) % p64()) as u64,
        l3: ((n / p192()) % p64()) as u64,
    }
}

/// `word_of` inverts `as_nat`: limb decomposition is unique.
pub broadcast proof fn lemma_word_of_as_nat(n: nat)
    requires
        n < p256(),
    ensures
        #[trigger] word_of(n).as_nat() == n,
{
    lemma_fundamental_div_mod(n as int, p64() as int);
    lemma_fundamental_div_mod(n as int / p64() as int, p64() as int);
    lemma_div_denominator(n as int, p64() as int, p64() as int);
    lemma_fundamental_div_mod(n as int / p128() as int, p64() as int);
    lemma_div_denominator(n as int, p128() as int, p64() as int);
    lemma_multiply_divide_lt(n as int, p192() as int, p64() as int);
    lemma_mod_bound(n as int, p64() as int);
    lemma_mod_bound(n as int / p64() as int, p64() as int);
    lemma_mod_bound(n as int / p128() as int, p64() as int);
}

/// `as_nat` is injective: equal values are the same word.
pub proof fn lemma_as_nat_injective(a: Word, b: Word)
    requires
        a.as_nat() == b.as_nat(),
    ensures
        a == b,
{
    lemma_limbs_of_as_nat(a);
    lemma_limbs_of_as_nat(b);
}

/// Each limb of a word is a digit of its value in base 2^64.
pub proof fn lemma_limbs_of_as_nat(w: Word)
    ensures
        word_of(w.as_nat()) == w,
{
    let n = w.as_nat() as int;
    let rest1 = w.l1 + w.l2 * p64() + w.l3 * p128();
    assert(n == rest1 * p64() + w.l0);
    lemma_fundamental_div_mod_converse(n, p64() as int, rest1 as int, w.l0 as int);
    let rest2 = w.l2 + w.l3 * p64();
    assert(rest1 == rest2 * p64() + w.l1);
    lemma_fundamental_div_mod_converse(rest1 as int, p64() as int, rest2 as int, w.l1 as int);
    lemma_div_denominator(n, p64() as int, p64() as int);
    assert(rest2 == w.l3 * p64() + w.l2);
    lemma_fundamental_div_mod_converse(rest2 as int, p64() as int, w.l3 as int, w.l2 as int);
    lemma_div_denominator(n, p128() as int, p64() as int);
    assert(n / p192() as int == w.l3) by {
        lemma_div_denominator(n, p128() as int, p64() as int);
        lemma_div_denominator(n, p64() as int, p64() as int);
    }
    lemma_small_mod(w.l3 as nat, p64());
}

/// A product of two-limb halves expands into three weighted partial products.
proof fn lemma_mul_halves(al: int, ah: int, bl: int, bh: int)
    ensures
        (al + ah * p128()) * (bl + bh * p128()) == al * bl + (al * bh + ah * bl) * p128() + (
        ah * bh) * p256(),
{
    assert((al + ah * p128()) * (bl + bh * p128()) == al * bl + (al * bh + ah * bl) * p128()
        + (ah * bh) * p256()) by (nonlinear_arith);
}

/// A product of two two-digit numbers in base 2^64 expands digit by digit.
proof fn lemma_mul_parts(x0: int, x1: int, y0: int, y1: int)
    ensures
        (x0 + x1 * p64()) * (y0 + y1 * p64()) == x0 * y0 + (x0 * y1 + x1 * y0) * p64() + (x1
        * y1) * p128(),
{
    assert((x0 + x1 * p64()) * (y0 + y1 * p64()) == x0 * y0 + (x0 * y1 + x1 * y0) * p64() + (
    x1 * y1) * p128()) by (nonlinear_arith);
}

/// One 64-bit by 64-bit multiplication split into low and high result limbs.
fn mul_limb(a: u64, b: u64) -> (r: (u64, u64))
    ensures
        r.0 + r.1 * p64() == a * b,
{
    proof {
        lemma_mul_upper_bound(a as int, 0xffff_ffff_ffff_ffffint, b as int,
            0xffff_ffff_ffff_ffffint);
    }
    let p: u128 = a as u128 * b as u128;
    let lo = (p % 0x1_0000_0000_0000_0000u128) as u64;
    let hi = (p / 0x1_0000_0000_0000_0000u128) as u64;
    proof {
        lemma_fundamental_div_mod(p as int, p64() as int);
        lemma_mod_bound(p as int, p64() as int);
        lemma_multiply_divide_lt(p as int, p64() as int, p64() as int);
    }
    (lo, hi)
}

/// One 64-bit addition with carry in and carry out.
fn add_limb(a: u64, b: u64, c: u64) -> (r: (u64, u64))
    requires
        c <= 1,
    ensures
        r.0 + r.1 * p64() == a + b + c,
        r.1 <= 1,
{
    let t: u128 = a as u128 + b as u128 + c as u128;
    let lo = (t % 0x1_0000_0000_0000_0000u128) as u64;
    let hi = (t / 0x1_0000_0000_0000_0000u128) as u64;
    proof {
        lemma_fundamental_div_mod(t as int, p64() as int);
        lemma_mod_bound(t as int, p64() as int);
    }
    (lo, hi)
}

/// One 64-bit subtraction with borrow in and borrow out.
///
/// The result satisfies `a + r.1 * 2^64 == r.0 + b + c`, i.e. `r.0` is the
/// difference limb and `r.1` the borrow taken from the next limb.
fn sub_limb(a: u64, b: u64, c: u64) -> (r: (u64, u64))
    requires
        c <= 1,
    ensures
        a + r.1 * p64() == r.0 + b + c,
        r.1 <= 1,
{
    let t: u128 = 0x1_0000_0000_0000_0000u128 + a as u128 - b as u128 - c as u128;
    let lo = (t % 0x1_0000_0000_0000_0000u128) as u64;
    let hi = (t / 0x1_0000_0000_0000_0000u128) as u64;
    proof {
        lemma_fundamental_div_mod(t as int, p64() as int);
        lemma_mod_bound(t as int, p64() as int);
    }
    (lo, 1 - hi)
}

impl Word {
    /// The word of value zero.
    pub fn zero() -> (r: Word)
        ensures
            r.as_nat() == 0,
    {
        Word { l0: 0, l1: 0, l2: 0, l3: 0 }
    }

    /// The word of value one.
    pub fn one() -> (r: Word)
        ensures
            r.as_nat() == 1,
    {
        Word { l0: 1, l1: 0, l2: 0, l3: 0 }
    }

    /// The word of a 64-bit value.
    pub fn from_u64(x: u64) -> (r: Word)
        ensures
            r.as_nat() == x,
    {
        Word { l0: x, l1: 0, l2: 0, l3: 0 }
    }

    /// Whether the word is zero.
    pub fn is_zero(&self) -> (r: bool)
        ensures
            r <==> self.as_nat() == 0,
    {
        self.l0 == 0 && self.l1 == 0 && self.l2 == 0 && self.l3 == 0
    }

    /// Addition wrapping modulo 2^256.
    pub fn wrapping_add(self, other: Word) -> (r: Word)
        ensures
            r.as_nat() == (self.as_nat() + other.as_nat()) % p256(),
    {
        let (s0, c0) = add_limb(self.l0, other.l0, 0);
        let (s1, c1) = add_limb(self.l1, other.l1, c0);
        let (s2, c2) = add_limb(self.l2, other.l2, c1);
        let (s3, c3) = add_limb(self.l3, other.l3, c2);
        let r = Word { l0: s0, l1: s1, l2: s2, l3: s3 };
        proof {
            assert(r.as_nat() + c3 * p256() == self.as_nat() + other.as_nat());
            lemma_mod_multiples_vanish(
                c3 as int,
                r.as_nat() as int,
                p256() as int,
            );
            lemma_small_mod(r.as_nat(), p256());
        }
        r
    }

    /// Subtraction wrapping modulo 2^256.
    pub fn wrapping_sub(self, other: Word) -> (r: Word)
        ensures
            r.as_nat() == (self.as_nat() - other.as_nat()) % (p256() as int),
    {
        let (s0, c0) = sub_limb(self.l0, other.l0, 0);
        let (s1, c1) = sub_limb(self.l1, other.l1, c0);
        let (s2, c2) = sub_limb(self.l2, other.l2, c1);
        let (s3, c3) = sub_limb(self.l3, other.l3, c2);
        let r = Word { l0: s0, l1: s1, l2: s2, l3: s3 };
        proof {
            assert(self.as_nat() + c3 * p256() == r.as_nat() + other.as_nat());
            lemma_mod_multiples_vanish(
                c3 as int,
                self.as_nat() - other.as_nat(),
                p256() as int,
            );
            lemma_small_mod(r.as_nat(), p256());
        }
        r
    }

    /// Multiplication wrapping modulo 2^256.
    ///
    /// Schoolbook limb products, keeping only the four low result limbs.
    #[verifier::rlimit(30)]
    pub fn wrapping_mul(self, other: Word) -> (r: Word)
        ensures
            r.as_nat() == (self.as_nat() * other.as_nat()) % p256(),
    {
        let (lo00, hi00) = mul_limb(self.l0, other.l0);
        let (lo01, hi01) = mul_limb(self.l0, other.l1);
        let (lo02, hi02) = mul_limb(self.l0, other.l2);
        let (lo03, hi03) = mul_limb(self.l0, other.l3);
        let (lo10, hi10) = mul_limb(self.l1, other.l0);
        let (lo11, hi11) = mul_limb(self.l1, other.l1);
        let (lo12, hi12) = mul_limb(self.l1, other.l2);
        let (lo20, hi20) = mul_limb(self.l2, other.l0);
        let (lo21, hi21) = mul_limb(self.l2, other.l1);
        let (lo30, hi30) = mul_limb(self.l3, other.l0);
        let r0 = lo00;
        let s1: u128 = hi00 as u128 + lo01 as u128 + lo10 as u128;
        let r1 = (s1 % 0x1_0000_0000_0000_0000u128) as u64;
        let c2 = s1 / 0x1_0000_0000_0000_0000u128;
        let s2: u128 = c2 + hi01 as u128 + hi10 as u128 + lo02 as u128 + lo11 as u128
            + lo20 as u128;
        let r2 = (s2 % 0x1_0000_0000_0000_0000u128) as u64;
        let c3 = s2 / 0x1_0000_0000_0000_0000u128;
        let s3: u128 = c3 + hi02 as u128 + hi11 as u128 + hi20 as u128 + lo03 as u128
            + lo12 as u128 + lo21 as u128 + lo30 as u128;
        let r3 = (s3 % 0x1_0000_0000_0000_0000u128) as u64;
        let r = Word { l0: r0, l1: r1, l2: r2, l3: r3 };
        proof {
            let a0 = self.l0 as int;
            let a1 = self.l1 as int;
            let a2 = self.l2 as int;
            let a3 = self.l3 as int;
            let b0 = other.l0 as int;
            let b1 = other.l1 as int;
            let b2 = other.l2 as int;
            let b3 = other.l3 as int;
            let ll = a0 * b0 + (a0 * b1 + a1 * b0) * p64() + (a0 * b2 + a1 * b1 + a2 * b0)
                * p128() + (a0 * b3 + a1 * b2 + a2 * b1 + a3 * b0) * p192();
            let ee = a1 * b3 + a2 * b2 + a3 * b1 + (a2 * b3 + a3 * b2) * p64() + (a3 * b3)
                * p128();
            let al = a0 + a1 * p64();
            let ah = a2 + a3 * p64();
            let bl = b0 + b1 * p64();
            let bh = b2 + b3 * p64();
            lemma_mul_halves(al, ah, bl, bh);
            lemma_mul_parts(a0, a1, b0, b1);
            lemma_mul_parts(a0, a1, b2, b3);
            lemma_mul_parts(a2, a3, b0, b1);
            lemma_mul_parts(a2, a3, b2, b3);
            assert(self.as_nat() * other.as_nat() == (al + ah * p128()) * (bl + bh * p128()));
            assert(self.as_nat() * other.as_nat() == ll + ee * p256());
            lemma_fundamental_div_mod(s1 as int, p64() as int);
            lemma_mod_bound(s1 as int, p64() as int);
            lemma_fundamental_div_mod(s2 as int, p64() as int);
            lemma_mod_bound(s2 as int, p64() as int);
            lemma_fundamental_div_mod(s3 as int, p64() as int);
            lemma_mod_bound(s3 as int, p64() as int);
            let c4 = s3 as int / p64() as int;
            assert(r.as_nat() + (hi03 + hi12 + hi21 + hi30 + c4) * p256() == ll);
            lemma_mod_multiples_vanish(
                ee + hi03 + hi12 + hi21 + hi30 + c4,
                r.as_nat() as int,
                p256() as int,
            );
            lemma_small_mod(r.as_nat(), p256());
        }
        r
    }

    /// Unsigned comparison: `self < other`.
    pub fn lt(&self, other: &Word) -> (r: bool)
        ensures
            r <==> self.as_nat() < other.as_nat(),
    {
        if self.l3 != other.l3 {
            self.l3 < other.l3
        } else if self.l2 != other.l2 {
            self.l2 < other.l2
        } else if self.l1 != other.l1 {
            self.l1 < other.l1
        } else {
            self.l0 < other.l0
        }
    }

    /// Whether the most significant bit (the two's-complement sign) is set.
    pub fn top_bit(&self) -> (b: bool)
        ensures
            b <==> self.as_nat() >= p255(),
    {
        self.l3 >= 0x8000_0000_0000_0000
    }

    /// Unsigned division with remainder, by restoring shift-and-subtract.
    ///
    /// Processes the dividend one bit at a time from the most significant end,
    /// doubling quotient and remainder at each step.
    pub fn div_rem(self, other: Word) -> (r: (Word, Word))
        requires
            other.as_nat() != 0,
        ensures
            r.0.as_nat() == self.as_nat() / other.as_nat(),
            r.1.as_nat() == self.as_nat() % other.as_nat(),
    {
        let ghost aa = self.as_nat();
        let ghost bb = other.as_nat();
        let mut acc = self;
        let mut quot = Word::zero();
        let mut rem = Word::zero();
        proof {
            lemma_pow2_consts();
            lemma_mul_basics(aa as int);
            lemma_small_mod(aa, p256());
            lemma_basic_div(aa as int, pow2(256) as int);
            lemma_div_basics(bb as int);
            lemma_small_mod(0, bb);
        }
        let mut k: usize = 0;
        while k < 256
            invariant
                k <= 256,
                aa == self.as_nat(),
                bb == other.as_nat(),
                bb != 0,
                acc.as_nat() == (aa * pow2(k as nat)) % p256(),
                quot.as_nat() == (aa / pow2((256 - k) as nat)) / bb,
                rem.as_nat() == (aa / pow2((256 - k) as nat)) % bb,
            decreases 256 - k,
        {
            let ghost pre = aa / pow2((256 - k) as nat);
            let bit = acc.top_bit();
            let ghost bitv: int = if bit { 1 } else { 0 };
            let acc2 = acc.wrapping_add(acc);
            proof {
                lemma_pow2_consts();
                lemma_div_step(aa, k as nat, acc.as_nat(), bitv, acc2.as_nat());
            }
            let rcarry = rem.top_bit();
            let ghost rcv: int = if rcarry { 1 } else { 0 };
            let mut rem2 = rem.wrapping_add(rem);
            if bit {
                rem2 = rem2.wrapping_add(Word::one());
            }
            let ghost rr2 = 2 * rem.as_nat() + bitv;
            proof {
                lemma_pow2_consts();
                lemma_mod_bound(pre as int, bb as int);
                if rcarry {
                    lemma_fundamental_div_mod_converse(
                        2 * rem.as_nat() as int,
                        p256() as int,
                        1,
                        2 * rem.as_nat() - p256(),
                    );
                } else {
                    lemma_small_mod((2 * rem.as_nat()) as nat, p256());
                }
                if bit {
                    lemma_small_mod((rr2 - rcv * p256()) as nat, p256());
                }
                assert(rem2.as_nat() == rr2 - rcv * p256());
            }
            let take = rcarry || !rem2.lt(&other);
            let ghost prev_quot = quot.as_nat();
            let ghost pre2 = aa / pow2((256 - (k + 1)) as nat);
            proof {
                lemma_fundamental_div_mod(pre as int, bb as int);
                lemma_pow2_pos((256 - (k + 1)) as nat);
                assert(pre2 == 2 * pre + bitv) by {
                    lemma_div_prefix_step(aa, k as nat, bitv, acc.as_nat(), acc2.as_nat());
                }
                assert(pre2 == 2 * (bb * (pre / bb)) + rr2);
                lemma_div_nonincreasing(aa as int, pow2((256 - (k + 1)) as nat) as int);
                lemma_pow2_pos((256 - (k + 1)) as nat);
            }
            quot = quot.wrapping_add(quot);
            if take {
                quot = quot.wrapping_add(Word::one());
                let rnew = rem2.wrapping_sub(other);
                proof {
                    assert(rr2 >= bb);
                    lemma_mul_scale_eq(bb as int, prev_quot as int);
                    assert(pre2 == (2 * prev_quot + 1) * bb + (rr2 - bb));
                    lemma_fundamental_div_mod_converse(
                        pre2 as int,
                        bb as int,
                        2 * prev_quot as int + 1,
                        rr2 - bb,
                    );
                    lemma_small_mod((2 * prev_quot) as nat, p256());
                    lemma_small_mod((2 * prev_quot + 1) as nat, p256());
                    lemma_mod_multiples_vanish(
                        -rcv,
                        rr2 - bb,
                        p256() as int,
                    );
                    lemma_small_mod((rr2 - bb) as nat, p256());
                }
                rem = rnew;
            } else {
                proof {
                    assert(rr2 < bb);
                    lemma_mul_scale_eq(bb as int, prev_quot as int);
                    assert(pre2 == (2 * prev_quot) * bb + rr2);
                    lemma_fundamental_div_mod_converse(
                        pre2 as int,
                        bb as int,
                        2 * prev_quot as int,
                        rr2 as int,
                    );
                    lemma_small_mod((2 * prev_quot) as nat, p256());
                }
                rem = rem2;
            }
            acc = acc2;
            k = k + 1;
        }
        proof {
            lemma_pow2_consts();
            lemma_div_basics(aa as int);
        }
        (quot, rem)
    }
}

impl Word {
    /// Bitwise conjunction, limb by limb.
    pub fn and(self, other: Word) -> (r: Word)
        ensures
            r.l0 == (self.l0 & other.l0),
            r.l1 == (self.l1 & other.l1),
            r.l2 == (self.l2 & other.l2),
            r.l3 == (self.l3 & other.l3),
    {
        Word {
            l0: self.l0 & other.l0,
            l1: self.l1 & other.l1,
            l2: self.l2 & other.l2,
            l3: self.l3 & other.l3,
        }
    }

    /// Bitwise disjunction, limb by limb.
    pub fn or(self, other: Word) -> (r: Word)
        ensures
            r.l0 == (self.l0 | other.l0),
            r.l1 == (self.l1 | other.l1),
            r.l2 == (self.l2 | other.l2),
            r.l3 == (self.l3 | other.l3),
    {
        Word {
            l0: self.l0 | other.l0,
            l1: self.l1 | other.l1,
            l2: self.l2 | other.l2,
            l3: self.l3 | other.l3,
        }
    }

    /// Bitwise exclusive or, limb by limb.
    pub fn xor(self, other: Word) -> (r: Word)
        ensures
            r.l0 == (self.l0 ^ other.l0),
            r.l1 == (self.l1 ^ other.l1),
            r.l2 == (self.l2 ^ other.l2),
            r.l3 == (self.l3 ^ other.l3),
    {
        Word {
            l0: self.l0 ^ other.l0,
            l1: self.l1 ^ other.l1,
            l2: self.l2 ^ other.l2,
            l3: self.l3 ^ other.l3,
        }
    }

    /// Bitwise complement: the complement of `x` is `2^256 - 1 - x`.
    pub fn not(self) -> (r: Word)
        ensures
            r.as_nat() == p256() - 1 - self.as_nat(),
    {
        Word {
            l0: 0xffff_ffff_ffff_ffff - self.l0,
            l1: 0xffff_ffff_ffff_ffff - self.l1,
            l2: 0xffff_ffff_ffff_ffff - self.l2,
            l3: 0xffff_ffff_ffff_ffff - self.l3,
        }
    }

    /// Halving: one logical shift to the right.
    fn shr1(self) -> (r: Word)
        ensures
            r.as_nat() == self.as_nat() / 2,
    {
        let r = Word {
            l0: self.l0 / 2 + (self.l1 % 2) * 0x8000_0000_0000_0000,
            l1: self.l1 / 2 + (self.l2 % 2) * 0x8000_0000_0000_0000,
            l2: self.l2 / 2 + (self.l3 % 2) * 0x8000_0000_0000_0000,
            l3: self.l3 / 2,
        };
        proof {
            lemma_fundamental_div_mod(self.l0 as int, 2);
            lemma_fundamental_div_mod(self.l1 as int, 2);
            lemma_fundamental_div_mod(self.l2 as int, 2);
            lemma_fundamental_div_mod(self.l3 as int, 2);
            assert(self.as_nat() == 2 * r.as_nat() + (self.l0 % 2));
            lemma_fundamental_div_mod_converse(
                self.as_nat() as int,
                2,
                r.as_nat() as int,
                (self.l0 % 2) as int,
            );
        }
        r
    }

    /// The number of leading shift steps that matter: a shift amount of 256
    /// or more clears the word (or fills it with the sign).
    fn shift_amount(shift: &Word) -> (n: usize)
        ensures
            n == if shift.as_nat() < 256 { shift.as_nat() } else { 256nat },
    {
        if shift.l1 != 0 || shift.l2 != 0 || shift.l3 != 0 || shift.l0 >= 256 {
            256
        } else {
            shift.l0 as usize
        }
    }

    /// Logical shift left: multiplication by 2^shift, wrapping modulo 2^256.
    pub fn shl(self, shift: &Word) -> (r: Word)
        ensures
            r.as_nat() == (self.as_nat() * pow2(shift.as_nat())) % p256(),
    {
        let ghost s = shift.as_nat();
        let ghost vv = self.as_nat();
        let n = Word::shift_amount(shift);
        let mut w = self;
        proof {
            lemma_pow2_consts();
            lemma_mul_basics(vv as int);
            lemma_small_mod(vv, p256());
        }
        let mut j: usize = 0;
        while j < n
            invariant
                j <= n,
                n <= 256,
                vv == self.as_nat(),
                w.as_nat() == (vv * pow2(j as nat)) % p256(),
            decreases n - j,
        {
            let w2 = w.wrapping_add(w);
            proof {
                lemma_pow2_consts();
                lemma_mul_mod_noop_right(2, (vv * pow2(j as nat)) as int, p256() as int);
                lemma_pow2_adds(j as nat, 1);
                lemma_mul_is_associative(vv as int, pow2(j as nat) as int, 2);
                lemma_mul_is_commutative(pow2(j as nat) as int, 2);
            }
            w = w2;
            j = j + 1;
        }
        proof {
            if s >= 256 {
                lemma_pow2_consts();
                lemma_pow2_adds(256, (s - 256) as nat);
                lemma_mul_is_associative(vv as int, p256() as int, pow2((s - 256) as nat) as int);
                lemma_mul_is_commutative(p256() as int, pow2((s - 256) as nat) as int);
                lemma_mul_is_associative(vv as int, pow2((s - 256) as nat) as int, p256() as int);
                assert(vv * pow2(s) == (vv * pow2((s - 256) as nat)) * p256());
                lemma_mod_multiples_basic((vv * pow2((s - 256) as nat)) as int, p256() as int);
                lemma_mod_multiples_basic((vv * pow2(256)) as int, p256() as int);
                assert(vv * pow2(256) == (vv * 1) * p256()) by {
                    lemma_mul_basics(vv as int);
                }
            }
        }
        w
    }

    /// Logical shift right: unsigned division by 2^shift.
    pub fn shr(self, shift: &Word) -> (r: Word)
        ensures
            r.as_nat() == self.as_nat() / pow2(shift.as_nat()),
    {
        let ghost s = shift.as_nat();
        let ghost vv = self.as_nat();
        let n = Word::shift_amount(shift);
        let mut w = self;
        proof {
            lemma_pow2_consts();
            lemma_div_basics(vv as int);
        }
        let mut j: usize = 0;
        while j < n
            invariant
                j <= n,
                n <= 256,
                vv == self.as_nat(),
                w.as_nat() == vv / pow2(j as nat),
            decreases n - j,
        {
            let w2 = w.shr1();
            proof {
                lemma_pow2_pos(j as nat);
                lemma_div_denominator(vv as int, pow2(j as nat) as int, 2);
                lemma_pow2_adds(j as nat, 1);
                lemma_pow2_consts();
            }
            w = w2;
            j = j + 1;
        }
        proof {
            if s >= 256 {
                lemma_pow2_consts();
                lemma_basic_div(vv as int, pow2(256) as int);
                if s > 256 {
                    lemma_pow2_strictly_increases(256, s);
                }
                lemma_basic_div(vv as int, pow2(s) as int);
            }
        }
        w
    }

    /// Arithmetic shift right: signed (two's-complement) division by
    /// 2^shift, rounding toward minus infinity.
    pub fn sar(self, shift: &Word) -> (r: Word)
        ensures
            r.as_int() == self.as_int() / pow2(shift.as_nat()) as int,
    {
        let ghost s = shift.as_nat();
        let ghost vv = self.as_nat();
        proof {
            lemma_pow2_pos(s);
        }
        if !self.top_bit() {
            let r = self.shr(shift);
            proof {
                lemma_pow2_consts();
                lemma_div_is_ordered(0, vv as int, pow2(s) as int);
                lemma_div_nonincreasing(vv as int, pow2(s) as int);
            }
            r
        } else {
            let flipped = self.not();
            let shifted = flipped.shr(shift);
            let r = shifted.not();
            proof {
                lemma_pow2_consts();
                let u = p256() - 1 - vv;
                let ud = u / pow2(s) as int;
                lemma_div_nonincreasing(u as int, pow2(s) as int);
                lemma_div_pos_is_pos(u as int, pow2(s) as int);
                lemma_fundamental_div_mod(u as int, pow2(s) as int);
                lemma_mod_bound(u as int, pow2(s) as int);
                assert(r.as_nat() == p256() - 1 - ud);
                assert(r.as_nat() >= p255());
                let rr = pow2(s) - 1 - u % pow2(s) as int;
                assert(vv - p256() == (-1 - ud) * pow2(s) + rr) by {
                    lemma_mul_is_distributive_add_other_way(pow2(s) as int, -1, -(ud as int));
                    lemma_mul_is_commutative(ud as int, pow2(s) as int);
                    lemma_mul_unary_negation(ud as int, pow2(s) as int);
                    lemma_mul_basics(pow2(s) as int);
                }
                lemma_fundamental_div_mod_converse(
                    vv - p256(),
                    pow2(s) as int,
                    -1 - ud,
                    rr,
                );
            }
            r
        }
    }

    /// The least significant byte of the word.
    pub fn low_byte(&self) -> (b: u8)
        ensures
            b == self.as_nat() % 256,
    {
        proof {
            lemma_low_byte(*self);
        }
        (self.l0 % 256) as u8
    }

    /// The byte at big-endian position `index`: position 0 is the most
    /// significant byte, position 31 the least significant.
    pub fn byte_be(&self, index: usize) -> (b: u8)
        requires
            index < 32,
        ensures
            b == (self.as_nat() / pow2((8 * (31 - index)) as nat)) % 256,
    {
        let shifted = self.shr(&Word::from_u64(8 * (31 - index as u64)));
        proof {
            lemma_low_byte(shifted);
        }
        (shifted.l0 % 256) as u8
    }
}

/// The low byte of a word is its value modulo 256.
proof fn lemma_low_byte(w: Word)
    ensures
        w.as_nat() % 256 == w.l0 % 256,
{
    let rest = w.l1 * 0x0100_0000_0000_0000 + w.l2 * 0x1000000000000000000000000000000int
        + w.l3 * 0x10000000000000000000000000000000000000000000000int;
    assert(w.as_nat() == 256 * rest + w.l0);
    lemma_mod_multiples_vanish(rest as int, w.l0 as int, 256);
}

/// The value of a byte sequence read as a big-endian base-256 number.
pub open spec fn be_val(s: Seq<u8>) -> nat
    decreases s.len(),
{
    if s.len() == 0 {
        0
    } else {
        (be_val(s.drop_last()) * 256 + s.last()) as nat
    }
}

/// A big-endian byte string of length `n` holds a value below 2^(8n).
pub proof fn lemma_be_val_bound(s: Seq<u8>)
    ensures
        be_val(s) < pow2(8 * s.len()),
    decreases s.len(),
{
    if s.len() == 0 {
        lemma2_to64();
    } else {
        lemma_be_val_bound(s.drop_last());
        lemma_pow2_adds(8 * (s.len() - 1) as nat, 8);
        lemma2_to64();
    }
}

impl Word {
    /// Multiplication by 256 on a word known to stay below 2^256.
    fn shl8_small(self) -> (r: Word)
        requires
            self.as_nat() * 256 < p256(),
        ensures
            r.as_nat() == self.as_nat() * 256,
    {
        let v0 = self;
        let v1 = v0.wrapping_add(v0);
        let v2 = v1.wrapping_add(v1);
        let v3 = v2.wrapping_add(v2);
        let v4 = v3.wrapping_add(v3);
        let v5 = v4.wrapping_add(v4);
        let v6 = v5.wrapping_add(v5);
        let v7 = v6.wrapping_add(v6);
        let v8 = v7.wrapping_add(v7);
        proof {
            let n = self.as_nat();
            lemma_small_mod(2 * n, p256());
            lemma_small_mod(4 * n, p256());
            lemma_small_mod(8 * n, p256());
            lemma_small_mod(16 * n, p256());
            lemma_small_mod(32 * n, p256());
            lemma_small_mod(64 * n, p256());
            lemma_small_mod(128 * n, p256());
            lemma_small_mod(256 * n, p256());
        }
        v8
    }

    /// Read a big-endian byte string of at most 32 bytes as a word,
    /// zero-extended on the left.
    pub fn from_be_slice(s: &[u8]) -> (r: Word)
        requires
            s@.len() <= 32,
        ensures
            r.as_nat() == be_val(s@),
    {
        let mut acc = Word::zero();
        let len = s.len();
        proof {
            assert(s@.take(0) =~= Seq::<u8>::empty());
        }
        let mut j: usize = 0;
        while j < len
            invariant
                j <= len,
                len == s@.len() <= 32,
                acc.as_nat() == be_val(s@.take(j as int)),
            decreases len - j,
        {
            proof {
                lemma_pow2_consts();
                lemma2_to64();
                lemma_be_val_bound(s@.take(j as int));
                lemma_pow2_adds(8 * j as nat, 8);
                if 8 * (j + 1) < 256 {
                    lemma_pow2_strictly_increases((8 * (j + 1)) as nat, 256);
                }
                lemma_pow2_pos((8 * (j + 1)) as nat);
                assert(acc.as_nat() * 256 < pow2(8 * j as nat) * 256);
                assert(pow2(8 * j as nat) * 256 == pow2((8 * (j + 1)) as nat));
                assert(pow2((8 * (j + 1)) as nat) <= p256());
            }
            let b = s[j];
            let shifted = acc.shl8_small();
            let next = shifted.wrapping_add(Word::from_u64(b as u64));
            proof {
                lemma_small_mod((shifted.as_nat() + b) as nat, p256());
                assert(s@.take(j as int + 1).drop_last() =~= s@.take(j as int));
            }
            acc = next;
            j = j + 1;
        }
        proof {
            assert(s@.take(len as int) =~= s@);
        }
        acc
    }

    /// Append the eight big-endian bytes of one limb to a byte vector.
    fn push_be_limb(out: &mut Vec<u8>, l: u64)
        ensures
            final(out)@.len() == old(out)@.len() + 8,
            be_val(final(out)@) == be_val(old(out)@) * p64() + l,
    {
        let q6 = l / 0x100;
        let q5 = l / 0x1_0000;
        let q4 = l / 0x100_0000;
        let q3 = l / 0x1_0000_0000;
        let q2 = l / 0x100_0000_0000;
        let q1 = l / 0x1_0000_0000_0000;
        let q0 = l / 0x100_0000_0000_0000;
        proof {
            lemma_fundamental_div_mod(l as int, 0x100);
            lemma_fundamental_div_mod(q6 as int, 0x100);
            lemma_fundamental_div_mod(q5 as int, 0x100);
            lemma_fundamental_div_mod(q4 as int, 0x100);
            lemma_fundamental_div_mod(q3 as int, 0x100);
            lemma_fundamental_div_mod(q2 as int, 0x100);
            lemma_fundamental_div_mod(q1 as int, 0x100);
            lemma_div_denominator(l as int, 0x100, 0x100);
            lemma_div_denominator(l as int, 0x1_0000, 0x100);
            lemma_div_denominator(l as int, 0x100_0000, 0x100);
            lemma_div_denominator(l as int, 0x1_0000_0000, 0x100);
            lemma_div_denominator(l as int, 0x100_0000_0000, 0x100);
            lemma_div_denominator(l as int, 0x1_0000_0000_0000, 0x100);
        }
        let ghost base = out@;
        let ghost bv = be_val(base);
        proof {
            lemma_small_mod(q0 as nat, 0x100);
        }
        out.push((q0 % 0x100) as u8);
        proof {
            assert(out@.drop_last() =~= base);
            assert(be_val(out@) == bv * 0x100 + q0);
        }
        let ghost s1 = out@;
        out.push((q1 % 0x100) as u8);
        proof {
            assert(out@.drop_last() =~= s1);
            assert(be_val(out@) == bv * 0x1_0000 + q1);
        }
        let ghost s2 = out@;
        out.push((q2 % 0x100) as u8);
        proof {
            assert(out@.drop_last() =~= s2);
            assert(be_val(out@) == bv * 0x100_0000 + q2);
        }
        let ghost s3 = out@;
        out.push((q3 % 0x100) as u8);
        proof {
            assert(out@.drop_last() =~= s3);
            assert(be_val(out@) == bv * 0x1_0000_0000 + q3);
        }
        let ghost s4 = out@;
        out.push((q4 % 0x100) as u8);
        proof {
            assert(out@.drop_last() =~= s4);
            assert(be_val(out@) == bv * 0x100_0000_0000 + q4);
        }
        let ghost s5 = out@;
        out.push((q5 % 0x100) as u8);
        proof {
            assert(out@.drop_last() =~= s5);
            assert(be_val(out@) == bv * 0x1_0000_0000_0000 + q5);
        }
        let ghost s6 = out@;
        out.push((q6 % 0x100) as u8);
        proof {
            assert(out@.drop_last() =~= s6);
            assert(be_val(out@) == bv * 0x100_0000_0000_0000 + q6);
        }
        let ghost s7 = out@;
        out.push((l % 0x100) as u8);
        proof {
            assert(out@.drop_last() =~= s7);
            assert(be_val(out@) == bv * 0x1_0000_0000_0000_0000 + l);
        }
    }

    /// The 32 big-endian bytes of the word.
    pub fn to_be_bytes(&self) -> (r: Vec<u8>)
        ensures
            r@.len() == 32,
            be_val(r@) == self.as_nat(),
    {
        let mut out: Vec<u8> = Vec::new();
        proof {
            assert(be_val(out@) == 0);
        }
        Word::push_be_limb(&mut out, self.l3);
        Word::push_be_limb(&mut out, self.l2);
        Word::push_be_limb(&mut out, self.l1);
        Word::push_be_limb(&mut out, self.l0);
        out
    }
}

/// The numeric values of the powers of two that weigh the limbs of a word.
pub proof fn lemma_pow2_consts()
    ensures
        pow2(0) == 1,
        pow2(1) == 2,
        pow2(63) == 0x8000_0000_0000_0000,
        pow2(64) == p64(),
        pow2(128) == p128(),
        pow2(192) == p192(),
        pow2(255) == p255(),
        pow2(256) == p256(),
{
    lemma2_to64();
    lemma2_to64_rest();
    lemma_pow2_adds(64, 64);
    lemma_pow2_adds(128, 64);
    lemma_pow2_adds(192, 63);
    lemma_pow2_adds(192, 64);
}

/// Scaling a quotient: `(2q + 1) * b == 2 * (b * q) + b` and likewise without
/// the added one.
proof fn lemma_mul_scale_eq(b: int, q: int)
    ensures
        (2 * q + 1) * b == 2 * (b * q) + b,
        (2 * q) * b == 2 * (b * q),
{
    lemma_mul_is_distributive_add_other_way(b, 2 * q, 1);
    lemma_mul_is_associative(2, q, b);
    lemma_mul_is_commutative(q, b);
    lemma_mul_is_commutative(2 * q, b);
    lemma_mul_is_commutative(2 * q + 1, b);
    lemma_mul_basics(b);
}

/// One doubling step of the dividend register: the value shifted out of the
/// top is the next bit of the dividend prefix.
proof fn lemma_div_step(aa: nat, k: nat, accv: nat, bitv: int, acc2v: nat)
    requires
        k < 256,
        aa < p256(),
        accv == (aa * pow2(k)) % p256(),
        bitv == if accv >= p255() { 1int } else { 0int },
        acc2v == (accv + accv) % p256(),
    ensures
        acc2v == (aa * pow2(k + 1)) % p256(),
        acc2v == 2 * accv - bitv * p256(),
{
    lemma_pow2_consts();
    lemma_pow2_pos(k);
    lemma_pow2_pos((256 - k) as nat);
    lemma_pow2_pos(k + 1);
    let x = aa * pow2(k);
    lemma_pow2_adds(k, (256 - k) as nat);
    lemma_mul_is_commutative(aa as int, pow2(k) as int);
    lemma_div_denominator(x as int, pow2(k) as int, pow2((256 - k) as nat) as int);
    lemma_div_multiples_vanish(aa as int, pow2(k) as int);
    let pre = aa / pow2((256 - k) as nat);
    lemma_fundamental_div_mod(x as int, p256() as int);
    assert(x == pre * p256() + accv) by {
        lemma_div_denominator(x as int, pow2(k) as int, pow2((256 - k) as nat) as int);
    }
    if accv >= p255() {
        lemma_fundamental_div_mod_converse(
            (accv + accv) as int,
            p256() as int,
            1,
            2 * accv - p256(),
        );
    } else {
        lemma_small_mod((accv + accv) as nat, p256());
    }
    lemma_pow2_adds(k, 1);
    lemma_mul_is_associative(aa as int, pow2(k) as int, 2);
    lemma_mul_is_commutative(aa as int, pow2(k + 1) as int);
    assert(aa * pow2(k + 1) == 2 * x) by {
        lemma_mul_is_associative(aa as int, pow2(k) as int, 2);
        lemma_mul_is_commutative(pow2(k) as int, 2);
        assert(pow2(k + 1) == pow2(k) * 2);
        assert(aa * (pow2(k) * 2) == (aa * pow2(k)) * 2);
    }
    assert(2 * x == (2 * pre + bitv) * p256() + acc2v) by {
        lemma_mul_is_distributive_add_other_way(p256() as int, 2 * pre as int, bitv);
        lemma_mul_is_associative(2, pre as int, p256() as int);
        lemma_mul_is_commutative(pre as int, p256() as int);
    }
    lemma_fundamental_div_mod_converse(
        (2 * x) as int,
        p256() as int,
        2 * pre + bitv,
        acc2v as int,
    );
}

/// The dividend prefix grows by one bit per step: the prefix over
/// `2^(255 - k)` is twice the prefix over `2^(256 - k)` plus the bit shifted
/// out of the register.
proof fn lemma_div_prefix_step(aa: nat, k: nat, bitv: int, accv: nat, acc2v: nat)
    requires
        k < 256,
        aa < p256(),
        accv == (aa * pow2(k)) % p256(),
        bitv == if accv >= p255() { 1int } else { 0int },
        acc2v == (accv + accv) % p256(),
    ensures
        aa / pow2((256 - (k + 1)) as nat) == 2 * (aa / pow2((256 - k) as nat)) + bitv,
{
    lemma_pow2_consts();
    lemma_pow2_pos(k);
    lemma_pow2_pos(k + 1);
    lemma_pow2_pos((256 - k) as nat);
    lemma_pow2_pos((256 - (k + 1)) as nat);
    lemma_div_step(aa, k, accv, bitv, acc2v);
    let x = aa * pow2(k);
    let x2 = aa * pow2(k + 1);
    let pre = aa / pow2((256 - k) as nat);
    // x2 / 2^256 is both the next prefix and 2 * pre + bit.
    lemma_pow2_adds(k + 1, (256 - (k + 1)) as nat);
    lemma_mul_is_commutative(aa as int, pow2(k + 1) as int);
    lemma_div_denominator(x2 as int, pow2(k + 1) as int, pow2((256 - (k + 1)) as nat) as int);
    lemma_div_multiples_vanish(aa as int, pow2(k + 1) as int);
    // Reconstruct x2 / 2^256 from the register relation proved in lemma_div_step.
    lemma_pow2_adds(k, (256 - k) as nat);
    lemma_mul_is_commutative(aa as int, pow2(k) as int);
    lemma_div_denominator(x as int, pow2(k) as int, pow2((256 - k) as nat) as int);
    lemma_div_multiples_vanish(aa as int, pow2(k) as int);
    lemma_fundamental_div_mod(x as int, p256() as int);
    lemma_mul_is_commutative(pre as int, p256() as int);
    assert(x == pre * p256() + (aa * pow2(k)) % p256());
    assert(x2 == 2 * x) by {
        lemma_pow2_adds(k, 1);
        lemma_mul_is_associative(aa as int, pow2(k) as int, 2);
        lemma_mul_is_commutative(pow2(k) as int, 2);
    }
    assert(x2 == (2 * pre + bitv) * p256() + acc2v) by {
        lemma_mul_is_distributive_add_other_way(p256() as int, 2 * pre as int, bitv);
        lemma_mul_is_associative(2, pre as int, p256() as int);
        lemma_mul_is_commutative(pre as int, p256() as int);
    }
    lemma_fundamental_div_mod_converse(
        x2 as int,
        p256() as int,
        2 * pre + bitv,
        acc2v as int,
    );
}

} // verus!
