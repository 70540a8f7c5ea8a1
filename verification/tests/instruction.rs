use smis_assembler::errors::{ImmediateParseError, LabelParseError, ParseError, RegisterParseError};
use smis_assembler::instruction::{IFormat, JFormat, RFormat, SpecialOpcodes};
use smis_assembler::symbols::SymbolTable;

fn ops() -> SpecialOpcodes {
    SpecialOpcodes { op_compare: 1, op_not: 2, op_copy: 3, op_compare_imm: 4, op_set: 5, op_halt: 6 }
}

fn r(opcode: u8) -> RFormat {
    RFormat { opcode, r_dest: 9, r_op1: 9, r_op2: 9 }
}

fn i(opcode: u8) -> IFormat {
    IFormat { opcode, r_dest: 9, r_op1: 9, i_op2: 9 }
}

#[test]
fn r_format_standard() {
    assert_eq!(
        r(10).assemble("ADD R1 R2 R3", &ops()),
        Ok(RFormat { opcode: 10, r_dest: 1, r_op1: 2, r_op2: 3 })
    );
}

#[test]
fn r_format_compare_has_no_destination() {
    assert_eq!(
        r(1).assemble("CMP R4 R5", &ops()),
        Ok(RFormat { opcode: 1, r_dest: 0, r_op1: 4, r_op2: 5 })
    );
}

#[test]
fn r_format_not_and_copy_have_one_operand() {
    assert_eq!(
        r(2).assemble("NOT R4 R5", &ops()),
        Ok(RFormat { opcode: 2, r_dest: 4, r_op1: 5, r_op2: 0 })
    );
    assert_eq!(
        r(3).assemble("COPY RSP RZR R9", &ops()),
        Ok(RFormat { opcode: 3, r_dest: 15, r_op1: 0, r_op2: 0 })
    );
}

#[test]
fn r_format_errors_in_field_order() {
    assert_eq!(r(10).assemble("ADD R1 R2", &ops()), Err(RegisterParseError::ErrorMissingRegisterOperand));
    assert_eq!(r(10).assemble("ADD X1 R99", &ops()), Err(RegisterParseError::ErrorInvalidPrefix));
    assert_eq!(r(10).assemble("ADD R1 R99 X", &ops()), Err(RegisterParseError::ErrorNumberOutOfBounds));
}

#[test]
fn i_format_standard() {
    assert_eq!(
        i(20).assemble("ADDI R1 R2 #300", &ops()),
        Ok(IFormat { opcode: 20, r_dest: 1, r_op1: 2, i_op2: 300 })
    );
}

#[test]
fn i_format_compare_and_set() {
    assert_eq!(
        i(4).assemble("CMPI R3 #5", &ops()),
        Ok(IFormat { opcode: 4, r_dest: 0, r_op1: 3, i_op2: 5 })
    );
    assert_eq!(
        i(4).assemble("CMPI #5", &ops()),
        Err(ParseError::RegisterParseError(RegisterParseError::ErrorInvalidPrefix))
    );
    assert_eq!(
        i(5).assemble("SET R3 #65535", &ops()),
        Ok(IFormat { opcode: 5, r_dest: 3, r_op1: 0, i_op2: 65535 })
    );
}

#[test]
fn i_format_errors() {
    assert_eq!(
        i(20).assemble("ADDI R1", &ops()),
        Err(ParseError::RegisterParseError(RegisterParseError::ErrorMissingRegisterOperand))
    );
    assert_eq!(
        i(5).assemble("SET R1 7", &ops()),
        Err(ParseError::ImmediateParseError(ImmediateParseError::ErrorInvalidPrefix))
    );
    assert_eq!(
        i(5).assemble("SET R1 #70000", &ops()),
        Err(ParseError::ImmediateParseError(ImmediateParseError::ErrorNonNumeric))
    );
}

#[test]
fn j_format_resolves_label() {
    let mut t = SymbolTable::new();
    t.add_label("loop", 12);
    assert_eq!(
        JFormat { opcode: 30, dest_addr: 0 }.assemble("JMP   loop  ", &t, &ops()),
        Ok(JFormat { opcode: 30, dest_addr: 12 })
    );
    assert_eq!(
        JFormat { opcode: 30, dest_addr: 0 }.assemble("JMP end", &t, &ops()),
        Err(LabelParseError::ErrorLabelNotFound)
    );
}

#[test]
fn j_format_halt_is_unchanged() {
    let t = SymbolTable::new();
    assert_eq!(
        JFormat { opcode: 6, dest_addr: 77 }.assemble("HALT whatever", &t, &ops()),
        Ok(JFormat { opcode: 6, dest_addr: 77 })
    );
}
