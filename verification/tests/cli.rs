use evm::cli::{assemble, disassemble, hex_decode, hex_encode, Disassemble, Run};

#[test]
fn assembler_reversability() {
    let expected = "PUSH1 0x04
DUP1
PUSH1 0x00
JUMPDEST
DUP2
PUSH1 0x18
JUMPI
PUSH1 0x00
MSTORE8
PUSH1 0x01
PUSH1 0x00
RETURN
JUMPDEST
DUP3
ADD
SWAP1
PUSH1 0x01
SWAP1
SUB
SWAP1
PUSH1 0x05
JUMP";
    let bytecode = assemble(expected.as_bytes()).expect("assemble");
    let output = disassemble(bytecode.as_slice(), false);
    let actual = String::from_utf8(output).unwrap();
    assert_eq!(expected.trim(), actual.trim());
}

#[test]
fn disassembler_reversability() {
    // A loop computing 4 + 4 + 4 + 4 = 16 and returning it as one byte.
    let expected = "60048060005b8160125760005360016000f35b8201906001900390600556";
    let bytes = hex_decode(expected.as_bytes()).expect("disassemble");
    let text = disassemble(bytes.as_slice(), false);
    let reassembled = assemble(text.as_slice()).expect("assemble");
    let actual = String::from_utf8(hex_encode(reassembled.as_slice())).unwrap();
    assert_eq!(expected.trim(), actual.trim());
}

#[test]
fn decodes_hex() {
    assert_eq!(vec![0x60u8, 0x06], hex_decode(b"0x6006").unwrap());
    assert_eq!(vec![0x60u8, 0x06], hex_decode(b"6006").unwrap());
    assert_eq!(vec![0xabu8, 0xcd], hex_decode(b"ABCD").unwrap());
    assert_eq!(Vec::<u8>::new(), hex_decode(b"0x").unwrap());
    assert!(hex_decode(b"123").is_none());
    assert!(hex_decode(b"zz").is_none());
}

#[test]
fn encodes_hex() {
    assert_eq!(b"6006".to_vec(), hex_encode(&[0x60, 0x06]));
    assert_eq!(b"".to_vec(), hex_encode(&[]));
    assert_eq!(b"00ff".to_vec(), hex_encode(&[0x00, 0xff]));
}

#[test]
fn round_trips_hex() {
    let bytes: Vec<u8> = (0..=255u8).collect();
    let encoded = hex_encode(bytes.as_slice());
    assert_eq!(bytes, hex_decode(encoded.as_slice()).unwrap());
}

#[test]
fn disassembles_unknown_opcodes() {
    // 0xff names no implemented instruction.
    let text = disassemble(&[0xff], false);
    assert_eq!("UNKNOWN\n", String::from_utf8(text).unwrap());
}

#[test]
fn disassembles_verbose() {
    let bytes = hex_decode(b"6001600201").unwrap();
    let text = disassemble(bytes.as_slice(), true);
    assert_eq!(
        "0000: PUSH1 0x01\n0002: PUSH1 0x02\n0004: ADD\n",
        String::from_utf8(text).unwrap()
    );
}

#[test]
fn rejects_unknown_mnemonics() {
    assert!(assemble(b"NOSUCHOP").is_none());
    assert!(assemble(b"PUSH1 0xzz").is_none());
}

#[test]
fn runs_through_the_cli_pair() {
    let dis = Disassemble { code: b"0x600660070260005360016000f3".to_vec(), verbose: false };
    let text = dis.run().expect("should disassemble");
    assert_eq!(
        "PUSH1 0x06\nPUSH1 0x07\nMUL\nPUSH1 0x00\nMSTORE8\nPUSH1 0x01\nPUSH1 0x00\nRETURN\n",
        String::from_utf8(text).unwrap()
    );

    let run = Run { code: b"0x600660070260005360016000f3".to_vec(), calldata: b"0x".to_vec() };
    let result = run.run().expect("should finish execution");
    assert_eq!(vec![0x2au8], result);
}
