use evm::errors::EvmError;
use evm::stack::{Stack, STACK_SIZE};
use evm::word::Word;

#[test]
fn default_impl() {
    let stack = Stack::default();
    assert_eq!(STACK_SIZE, stack.size);
    assert_eq!(0, stack.len());
}

#[test]
fn pushes_onto_stack() {
    let mut stack = Stack::new(STACK_SIZE);
    stack
        .push(Word::from_u64(10))
        .expect("should push onto the stack");
    assert_eq!(1, stack.len());
}

#[test]
fn pushes_slice_onto_stack() {
    let mut stack = Stack::new(STACK_SIZE);
    stack
        .push_slice(&[0, 1, 2, 3])
        .expect("should push onto the stack");
    assert_eq!(Word::from_u64(66051), stack.peek(0).unwrap());
}

#[test]
fn pops_from_stack() {
    let mut stack = Stack::new(STACK_SIZE);
    let expected = Word::from_u64(1);
    stack.push(expected).expect("should push onto the stack");

    let actual = stack.pop().expect("should pop from the stack");
    assert_eq!(expected, actual);
}

#[test]
fn overflows() {
    let mut stack = Stack::new(STACK_SIZE);

    for _ in 0..STACK_SIZE {
        stack
            .push(Word::from_u64(0))
            .expect("should push onto the stack");
    }
    assert_eq!(STACK_SIZE, stack.len());

    let err = stack.push(Word::from_u64(0)).unwrap_err();
    assert_eq!("stack overflow", err.message());
}

#[test]
fn underflows() {
    let mut stack = Stack::new(STACK_SIZE);
    let err = stack.pop().unwrap_err();
    assert_eq!("stack underflow", err.message());
}

#[test]
fn peeks() {
    let mut stack = Stack::new(STACK_SIZE);
    let expected = Word::from_u64(1);
    stack.push(expected).expect("should push onto the stack");
    let actual = stack.peek(0).expect("should peek the stack");
    assert_eq!(expected, actual);

    stack
        .push(Word::from_u64(2))
        .expect("should push onto the stack");
    let actual = stack.peek(1).expect("should peek the stack");
    assert_eq!(expected, actual);
}

#[test]
fn dups_last() {
    let mut stack = Stack::new(STACK_SIZE);
    let expected = Word::from_u64(1);
    stack.push(expected).expect("should push onto the stack");
    stack
        .dup(0)
        .expect("should dup the last element on the stack");
    assert_eq!(2, stack.len());
    let actual = stack.peek(0).expect("should peek the stack");
    assert_eq!(expected, actual);
}

#[test]
fn dups_second_to_last() {
    let mut stack = Stack::new(STACK_SIZE);
    let expected = Word::from_u64(1);
    stack.push(expected).expect("should push onto the stack");
    stack
        .push(Word::from_u64(2))
        .expect("should push onto the stack");
    stack
        .dup(1)
        .expect("should dup the second to last element on the stack");
    assert_eq!(3, stack.len());
    let actual = stack.peek(0).expect("should peek the stack");
    assert_eq!(expected, actual);
}

#[test]
fn swaps_zero_errors() {
    let mut stack = Stack::new(STACK_SIZE);
    let expected = Word::from_u64(1);
    stack.push(expected).expect("should push onto the stack");
    stack
        .push(Word::from_u64(2))
        .expect("should push onto the stack");
    let e = stack.swap(0);
    assert_eq!(true, matches!(e, Err(_)));
}

#[test]
fn swaps_last() {
    let mut stack = Stack::new(STACK_SIZE);
    stack
        .push(Word::from_u64(1))
        .expect("should push onto the stack");
    stack
        .push(Word::from_u64(2))
        .expect("should push onto the stack");
    stack
        .swap(1)
        .expect("should swap the last two elements on the stack");
    let actual = stack.peek(0).expect("should peek the stack");
    assert_eq!(Word::from_u64(1), actual);
    let actual = stack.peek(1).expect("should peek the stack");
    assert_eq!(Word::from_u64(2), actual);
}

#[test]
fn swaps_second_to_last() {
    let mut stack = Stack::new(STACK_SIZE);
    stack
        .push(Word::from_u64(1))
        .expect("should push onto the stack");
    stack
        .push(Word::from_u64(2))
        .expect("should push onto the stack");
    stack
        .push(Word::from_u64(3))
        .expect("should push onto the stack");
    stack
        .swap(2)
        .expect("should dup the second to last element on the stack");
    let all_equal = stack.peek(2).unwrap() == Word::from_u64(3)
        && stack.peek(1).unwrap() == Word::from_u64(2)
        && stack.peek(0).unwrap() == Word::from_u64(1);
    assert_eq!(true, all_equal);
}

#[test]
fn swap_of_zero_is_invalid_index() {
    let mut stack = Stack::new(STACK_SIZE);
    stack
        .push(Word::from_u64(1))
        .expect("should push onto the stack");
    assert_eq!(Err(EvmError::InvalidIndex), stack.swap(0));
    assert_eq!("invalid index", EvmError::InvalidIndex.message());
}
