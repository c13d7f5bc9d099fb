use evm::cli::hex_decode;
use evm::contract::Contract;
use evm::errors::EvmError;
use evm::interpreter::Interpreter;

fn run_code(code_hex: &str, calldata: &[u8]) -> Result<Vec<u8>, EvmError> {
    let code = hex_decode(code_hex.as_bytes()).unwrap();
    let contract = Box::new(Contract::new([0; 20], code, calldata.to_vec()));
    let mut interpreter = Interpreter::new(contract);
    interpreter.execute()
}

#[test]
fn stops() {
    let mut interpreter = Interpreter::new(Box::new(Contract::default()));
    assert_eq!(false, interpreter.stopped);
    interpreter.stop();
    assert_eq!(true, interpreter.stopped);
}

#[test]
fn returns_mul_result() {
    // PUSH 0x6
    // PUSH 0x7
    // MUL
    // PUSH 0x0
    // MSTORE8
    // PUSH 0x1
    // PUSH 0x0
    // RETURN
    let result = run_code("0x600660070260005360016000f3", &[]).expect(
        "should finish execution",
    );
    assert_eq!(vec![0x2au8], result);
}

#[test]
fn returns_four_squared() {
    // A loop computing 4 + 4 + 4 + 4 = 16 and returning it as one byte.
    let result = run_code("60048060005b8160125760005360016000f35b8201906001900390600556", &[])
        .expect("should finish execution");
    assert_eq!(vec![0x10u8], result);
}

#[test]
fn runs_empty_code() {
    let result = run_code("", &[]).expect("should finish execution");
    assert_eq!(Vec::<u8>::new(), result);
}

#[test]
fn wraps_on_sub() {
    // Stores 0xff, then overwrites with 0 - 0x20 wrapped, and returns the
    // 32-byte word: the big-endian bytes of 2^256 - 32.
    let result = run_code("60ff600052602060000360005260206000f3", &[]).expect(
        "should finish execution",
    );
    assert_eq!(32, result.len());
    for i in 0..31 {
        assert_eq!(0xff, result[i]);
    }
    assert_eq!(0xe0, result[31]);
}

#[test]
fn overflows_the_stack() {
    // PUSH1 0x01 repeated 1025 times.
    let mut code_hex = String::new();
    for _ in 0..1025 {
        code_hex.push_str("6001");
    }
    let err = run_code(&code_hex, &[]).unwrap_err();
    assert_eq!(EvmError::StackOverflow, err);
}

#[test]
fn halts_out_of_range() {
    // PUSH1 0; leaves one element; then STOP implicitly at end of code.
    let result = run_code("6000", &[]).expect("should finish execution");
    assert_eq!(Vec::<u8>::new(), result);
}

#[test]
fn divides_by_zero_to_zero() {
    // PUSH1 0; PUSH1 5; DIV -> 5 / 0 = 0; returned as one byte.
    let result = run_code("600060050460005360016000f3", &[]).expect(
        "should finish execution",
    );
    assert_eq!(vec![0u8], result);
}

#[test]
fn underflows_the_stack() {
    let err = run_code("01", &[]).unwrap_err();
    assert_eq!(EvmError::StackUnderflow, err);
}

#[test]
fn rejects_invalid_jump() {
    // PUSH1 3; JUMP: offset 3 is not a JUMPDEST.
    let err = run_code("60035600", &[]).unwrap_err();
    assert_eq!(EvmError::InvalidJump, err);
}

#[test]
fn rejects_oversized_operand() {
    // PUSH32 of an all-ones word, then MLOAD from it.
    let mut code_hex = String::from("7f");
    for _ in 0..32 {
        code_hex.push_str("ff");
    }
    code_hex.push_str("51");
    let err = run_code(&code_hex, &[]).unwrap_err();
    assert_eq!(EvmError::InvalidOperand, err);
}

#[test]
fn loads_calldata() {
    // PUSH1 0; CALLDATALOAD; PUSH1 0; MSTORE; PUSH1 0x20; PUSH1 0; RETURN.
    let result = run_code("60003560005260206000f3", &[0xde, 0xad, 0xbe, 0xef]).expect(
        "should finish execution",
    );
    assert_eq!(32, result.len());
    assert_eq!(&[0xde, 0xad, 0xbe, 0xef], &result[0..4]);
    for i in 4..32 {
        assert_eq!(0, result[i]);
    }
}

#[test]
fn every_opcode_dispatches() {
    // Dispatch totality: a one-byte program of any opcode value runs to a
    // halt or a clean error; the engine never faults on an undefined byte.
    for op in 0..=255u8 {
        let code = vec![op];
        let contract = Box::new(Contract::new([0; 20], code, Vec::new()));
        let mut interpreter = Interpreter::new(contract);
        let _ = interpreter.execute();
    }
}

#[test]
fn takes_conditional_jump() {
    // PUSH1 1; PUSH1 6; JUMPI; INVALID; JUMPDEST: the condition is
    // nonzero, so execution jumps over INVALID (0xfe) to the JUMPDEST at
    // offset 6 and stops at end of code.
    let result = run_code("6001600657fe5b", &[]).expect("should finish execution");
    assert_eq!(Vec::<u8>::new(), result);
}

#[test]
fn falls_through_conditional_jump() {
    // PUSH1 0; PUSH1 5; JUMPI: zero condition falls through to STOP.
    let result = run_code("6000600557005b", &[]).expect("should finish execution");
    assert_eq!(Vec::<u8>::new(), result);
}

#[test]
fn copies_calldata_exact_length() {
    // PUSH1 1 (length); PUSH1 0 (calldata offset); PUSH1 0 (memory
    // offset); CALLDATACOPY; RETURN 1 byte at 0: memory holds exactly the
    // one copied byte.
    let result = run_code("6001600060003760016000f3", &[0xaa, 0xbb]).expect(
        "should finish execution",
    );
    assert_eq!(vec![0xaau8], result);
}

#[test]
fn calldatacopy_pads_past_input() {
    // Copy 4 bytes from calldata offset 1 of a 2-byte input: one real
    // byte, then zeros; RETURN all 4.
    let result = run_code("6004600160003760046000f3", &[0xaa, 0xbb]).expect(
        "should finish execution",
    );
    assert_eq!(vec![0xbbu8, 0, 0, 0], result);
}
