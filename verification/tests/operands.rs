use smis_assembler::errors::{ImmediateParseError, MnemonicParseError, RegisterParseError};
use smis_assembler::operands::{
    get_immediate, get_register, line_mnemonic, parse_immediate, parse_opcode, parse_register,
};

#[test]
fn register_aliases() {
    assert_eq!(parse_register("RZR"), Ok(0));
    assert_eq!(parse_register("RSP"), Ok(15));
    assert_eq!(parse_register("RBP"), Ok(14));
    assert_eq!(parse_register("RLR"), Ok(13));
}

#[test]
fn register_numbers() {
    assert_eq!(parse_register("R0"), Ok(0));
    assert_eq!(parse_register("R7"), Ok(7));
    assert_eq!(parse_register("R15"), Ok(15));
    assert_eq!(parse_register("R007"), Ok(7));
    assert_eq!(parse_register("R+5"), Ok(5));
}

#[test]
fn register_errors() {
    assert_eq!(parse_register("R16"), Err(RegisterParseError::ErrorNumberOutOfBounds));
    assert_eq!(parse_register("R255"), Err(RegisterParseError::ErrorNumberOutOfBounds));
    assert_eq!(parse_register("R256"), Err(RegisterParseError::ErrorNonNumeric));
    assert_eq!(parse_register("R"), Err(RegisterParseError::ErrorNonNumeric));
    assert_eq!(parse_register("R-1"), Err(RegisterParseError::ErrorNonNumeric));
    assert_eq!(parse_register("R+"), Err(RegisterParseError::ErrorNonNumeric));
    assert_eq!(parse_register("R1x"), Err(RegisterParseError::ErrorNonNumeric));
    assert_eq!(parse_register("X1"), Err(RegisterParseError::ErrorInvalidPrefix));
    assert_eq!(parse_register("r1"), Err(RegisterParseError::ErrorInvalidPrefix));
    assert_eq!(parse_register(""), Err(RegisterParseError::ErrorInvalidPrefix));
}

#[test]
fn register_text_round_trip() {
    for n in 0u8..=15 {
        assert_eq!(parse_register(&format!("R{}", n)), Ok(n));
    }
}

#[test]
fn immediate_values() {
    assert_eq!(parse_immediate("#0"), Ok(0));
    assert_eq!(parse_immediate("#42"), Ok(42));
    assert_eq!(parse_immediate("#65535"), Ok(65535));
    assert_eq!(parse_immediate("#+12"), Ok(12));
}

#[test]
fn immediate_errors() {
    assert_eq!(parse_immediate("#65536"), Err(ImmediateParseError::ErrorNonNumeric));
    assert_eq!(parse_immediate("#"), Err(ImmediateParseError::ErrorNonNumeric));
    assert_eq!(parse_immediate("#x"), Err(ImmediateParseError::ErrorNonNumeric));
    assert_eq!(parse_immediate("#-1"), Err(ImmediateParseError::ErrorNonNumeric));
    assert_eq!(parse_immediate("5"), Err(ImmediateParseError::ErrorInvalidPrefix));
    assert_eq!(parse_immediate(""), Err(ImmediateParseError::ErrorInvalidPrefix));
}

#[test]
fn immediate_text_round_trip() {
    for n in [0u16, 1, 9, 10, 99, 100, 255, 256, 1000, 4095, 32768, 65534, 65535] {
        assert_eq!(parse_immediate(&format!("#{}", n)), Ok(n));
    }
}

#[test]
fn register_operands_by_position() {
    assert_eq!(get_register("ADD R1 R2 R3", 1), Ok(1));
    assert_eq!(get_register("ADD R1 R2 R3", 3), Ok(3));
    assert_eq!(get_register("ADD R1 R2 R3", 4), Err(RegisterParseError::ErrorMissingRegisterOperand));
    assert_eq!(get_register("ADD R1 #2", 2), Err(RegisterParseError::ErrorInvalidPrefix));
}

#[test]
fn immediate_operand_is_last_word() {
    assert_eq!(get_immediate("SET R1 #7"), Ok(7));
    assert_eq!(get_immediate("ADDI R1 R2 #300"), Ok(300));
    assert_eq!(get_immediate("SET R1"), Err(ImmediateParseError::ErrorInvalidPrefix));
}

#[test]
fn opcode_from_lookup() {
    assert_eq!(parse_opcode("ADD R1 R2 R3", Some(3)), Ok(3));
    assert_eq!(parse_opcode("FOO R1", None), Err(MnemonicParseError::ErrorUnknownMnemonic));
    assert_eq!(parse_opcode("   ", Some(1)), Err(MnemonicParseError::ErrorMissingMnemonic));
}

#[test]
fn mnemonic_of_a_line() {
    assert_eq!(line_mnemonic("  ADD R1 "), Some(vec!['A', 'D', 'D']));
    assert_eq!(line_mnemonic("HALT"), Some(vec!['H', 'A', 'L', 'T']));
    assert_eq!(line_mnemonic("   "), None);
}
