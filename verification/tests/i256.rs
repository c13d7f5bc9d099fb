use core::cmp::Ordering;

use evm::instructions::i256::{i256_cmp, i256_sign, Sign};
use evm::word::Word;

fn u(value: u64) -> Word {
    Word::from_u64(value)
}

fn max_word() -> Word {
    Word { l0: u64::MAX, l1: u64::MAX, l2: u64::MAX, l3: u64::MAX }
}

fn max_positive() -> Word {
    Word { l0: u64::MAX, l1: u64::MAX, l2: u64::MAX, l3: u64::MAX ^ 0x8000_0000_0000_0000 }
}

#[test]
fn cmps_i256() {
    let zero = Word::zero();
    let max = max_word();
    let max_positive = max_positive();
    let max_minus_one = max.wrapping_sub(u(1));
    assert_eq!(Ordering::Equal, i256_cmp(&zero, &zero));
    assert_eq!(Ordering::Less, i256_cmp(&u(0), &u(1)));
    assert_eq!(Ordering::Greater, i256_cmp(&u(1), &u(0)));
    assert_eq!(Ordering::Equal, i256_cmp(&max, &max));
    assert_eq!(Ordering::Less, i256_cmp(&max, &zero));
    assert_eq!(Ordering::Greater, i256_cmp(&zero, &max));
    assert_eq!(Ordering::Less, i256_cmp(&max_minus_one, &max));
    assert_eq!(Ordering::Greater, i256_cmp(&max, &max_minus_one));
    assert_eq!(Ordering::Greater, i256_cmp(&max, &max_minus_one));
    assert_eq!(Ordering::Less, i256_cmp(&max, &max_positive));
    assert_eq!(Ordering::Greater, i256_cmp(&max_positive, &max));
    assert_eq!(Ordering::Equal, i256_cmp(&max_positive, &max_positive));
}

#[test]
fn signs_words() {
    assert_eq!(Sign::Positive, i256_sign(&Word::zero()));
    assert_eq!(Sign::Positive, i256_sign(&max_positive()));
    assert_eq!(Sign::Negative, i256_sign(&max_word()));
}
