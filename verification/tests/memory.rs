use evm::memory::Memory;
use evm::word::Word;

const WORD_SIZE_BYTES: usize = 32;

#[test]
fn resizes() {
    let mut memory = Memory::default();
    assert_eq!(0, memory.len());

    memory.resize(WORD_SIZE_BYTES);
    assert_eq!(WORD_SIZE_BYTES, memory.len());
    assert_eq!(0, memory.get_byte(WORD_SIZE_BYTES - 1));
}

#[test]
fn sets_byte() {
    let mut memory = Memory::default();
    memory.resize(WORD_SIZE_BYTES);
    memory.set_byte(0, 1);
    assert_eq!(1, memory.get_byte(0));
}

#[test]
fn sets_word() {
    let mut memory = Memory::default();
    memory.resize(WORD_SIZE_BYTES);
    let word = Word::from_u64(1).to_be_bytes();
    memory.set_word(0, word.as_slice());
    assert_eq!(word, memory.get_word(0));
}

#[test]
fn sets_u256() {
    let mut memory = Memory::default();
    memory.resize(WORD_SIZE_BYTES);
    let word = Word::from_u64(1);
    memory.set_u256(0, &word);
    assert_eq!(word, memory.get_u256(0));
}

#[test]
fn zero_extends_on_growth() {
    let mut memory = Memory::default();
    memory.resize(3);
    memory.set_byte(0, 0xaa);
    memory.set_byte(1, 0xbb);
    memory.set_byte(2, 0xcc);
    memory.resize(100);
    assert_eq!(0xaa, memory.get_byte(0));
    assert_eq!(0xbb, memory.get_byte(1));
    assert_eq!(0xcc, memory.get_byte(2));
    for a in 3..100 {
        assert_eq!(0, memory.get_byte(a));
    }
}
