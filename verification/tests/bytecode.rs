use evm::bytecode::Bytecode;
use evm::cli::hex_decode;
use evm::contract::Contract;

#[test]
fn creates_jumpset() {
    // PUSH 0x6
    // PUSH 0x7
    // MUL
    // JUMPDEST
    // PUSH 0x0
    // MSTORE8
    // PUSH 0x1
    // PUSH 0x0
    // STOP
    // JUMPDEST
    // SELFDESTRUCT
    let bytecode = "0x60066007025b60005360016000005bFF";
    let bytes = hex_decode(bytecode.as_bytes()).unwrap();
    assert_eq!(16, bytes.len());
    let code = Bytecode::new(bytes);
    for i in 0..16 {
        let expected = i == 5 || i == 14;
        assert_eq!(expected, code.is_jumpdest(i));
    }
    assert_eq!(false, code.is_jumpdest(16));
}

#[test]
fn marks_no_jumpdest_inside_push_payload() {
    // PUSH2 0x5b5b: both payload bytes look like JUMPDEST but are data.
    let bytes = hex_decode(b"615b5b5b").unwrap();
    let code = Bytecode::new(bytes);
    assert_eq!(false, code.is_jumpdest(0));
    assert_eq!(false, code.is_jumpdest(1));
    assert_eq!(false, code.is_jumpdest(2));
    assert_eq!(true, code.is_jumpdest(3));
}

#[test]
fn validates_jumps_through_contract() {
    let bytes = hex_decode(b"5b600056").unwrap();
    let contract = Contract::new([0; 20], bytes, Vec::new());
    assert_eq!(true, contract.is_valid_jump(0));
    assert_eq!(false, contract.is_valid_jump(1));
    assert_eq!(false, contract.is_valid_jump(100));
}
