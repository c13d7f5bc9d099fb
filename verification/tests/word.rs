use evm::word::Word;

fn u(value: u64) -> Word {
    Word::from_u64(value)
}

fn max_word() -> Word {
    Word { l0: u64::MAX, l1: u64::MAX, l2: u64::MAX, l3: u64::MAX }
}

#[test]
fn adds_wrapping() {
    assert_eq!(u(5), u(2).wrapping_add(u(3)));
    // (2^256 - 1) + 1 wraps to 0.
    assert_eq!(Word::zero(), max_word().wrapping_add(u(1)));
}

#[test]
fn subs_wrapping() {
    assert_eq!(u(1), u(3).wrapping_sub(u(2)));
    // 0 - 1 wraps to 2^256 - 1.
    assert_eq!(max_word(), Word::zero().wrapping_sub(u(1)));
}

#[test]
fn muls_wrapping() {
    assert_eq!(u(42), u(6).wrapping_mul(u(7)));
    // (-1) * (-1) = 1 modulo 2^256.
    assert_eq!(u(1), max_word().wrapping_mul(max_word()));
    // A carry chain across limbs: (2^64 - 1)^2.
    let r = u(u64::MAX).wrapping_mul(u(u64::MAX));
    assert_eq!(Word { l0: 1, l1: 0xffff_ffff_ffff_fffe, l2: 0, l3: 0 }, r);
}

#[test]
fn divides_with_remainder() {
    let (q, r) = u(7).div_rem(u(2));
    assert_eq!(u(3), q);
    assert_eq!(u(1), r);
    let (q, r) = max_word().div_rem(u(1));
    assert_eq!(max_word(), q);
    assert_eq!(Word::zero(), r);
    // A cross-limb division: 2^64 / 3.
    let two64 = Word { l0: 0, l1: 1, l2: 0, l3: 0 };
    let (q, r) = two64.div_rem(u(3));
    assert_eq!(u(0x5555_5555_5555_5555), q);
    assert_eq!(u(1), r);
}

#[test]
fn shifts_left_and_right() {
    assert_eq!(u(16), u(1).shl(&u(4)));
    assert_eq!(u(1), u(16).shr(&u(4)));
    // Shifting by 256 or more clears the word.
    assert_eq!(Word::zero(), max_word().shl(&u(256)));
    assert_eq!(Word::zero(), max_word().shr(&u(256)));
    // A cross-limb shift.
    assert_eq!(Word { l0: 0, l1: 1, l2: 0, l3: 0 }, u(1).shl(&u(64)));
}

#[test]
fn shifts_arithmetically() {
    // -1 >> 5 stays -1 under an arithmetic shift.
    assert_eq!(max_word(), max_word().sar(&u(5)));
    // A positive word shifts logically.
    assert_eq!(u(2), u(16).sar(&u(3)));
    // -16 >> 3 = -2: 2^256 - 16 becomes 2^256 - 2.
    let minus_16 = Word::zero().wrapping_sub(u(16));
    let minus_2 = Word::zero().wrapping_sub(u(2));
    assert_eq!(minus_2, minus_16.sar(&u(3)));
}

#[test]
fn extracts_bytes() {
    let w = u(0xabcd);
    assert_eq!(0xcd, w.byte_be(31));
    assert_eq!(0xab, w.byte_be(30));
    assert_eq!(0x00, w.byte_be(0));
}

#[test]
fn converts_be_bytes() {
    let w = u(0x0102_0304);
    let bytes = w.to_be_bytes();
    assert_eq!(32, bytes.len());
    assert_eq!(&[1, 2, 3, 4], &bytes[28..32]);
    assert_eq!(w, Word::from_be_slice(bytes.as_slice()));
    assert_eq!(u(66051), Word::from_be_slice(&[0, 1, 2, 3]));
}

#[test]
fn complements_bitwise() {
    assert_eq!(max_word(), Word::zero().not());
    assert_eq!(Word::zero(), max_word().not());
    let a = Word { l0: 0xf0f0, l1: 5, l2: 0, l3: 1 };
    assert_eq!(a, a.not().not());
}
