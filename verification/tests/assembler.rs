use smis_assembler::assembler::{
    assemble_instructions, count_instruction_lines, read_labels, LineError, LineLookup,
};
use smis_assembler::errors::{
    AssemblerError, LabelParseError, MnemonicParseError, OpcodeParseError, ParseError,
    RegisterParseError,
};
use smis_assembler::instruction::{
    IFormat, InstructionContainer, JFormat, RFormat, SpecialOpcodes,
};
use smis_assembler::symbols::SymbolTable;

fn ops() -> SpecialOpcodes {
    SpecialOpcodes { op_compare: 1, op_not: 2, op_copy: 3, op_compare_imm: 4, op_set: 5, op_halt: 6 }
}

fn lines(src: &[&str]) -> Vec<String> {
    src.iter().map(|s| s.to_string()).collect()
}

/// A small instruction set for the tests: ADD (R), CMP (R), SET (I),
/// JMP (J), HALT (J).
fn lookup(line: &str) -> LineLookup {
    let opcode = match line.split_whitespace().next() {
        Some("ADD") => Some(10),
        Some("CMP") => Some(1),
        Some("SET") => Some(5),
        Some("JMP") => Some(30),
        Some("HALT") => Some(6),
        Some("ODD") => Some(99),
        _ => None,
    };
    let container = match opcode {
        Some(10) => Some(InstructionContainer::RFormat(RFormat { opcode: 10, r_dest: 0, r_op1: 0, r_op2: 0 })),
        Some(1) => Some(InstructionContainer::RFormat(RFormat { opcode: 1, r_dest: 0, r_op1: 0, r_op2: 0 })),
        Some(5) => Some(InstructionContainer::IFormat(IFormat { opcode: 5, r_dest: 0, r_op1: 0, i_op2: 0 })),
        Some(30) => Some(InstructionContainer::JFormat(JFormat { opcode: 30, dest_addr: 0 })),
        Some(6) => Some(InstructionContainer::JFormat(JFormat { opcode: 6, dest_addr: 0 })),
        _ => None,
    };
    LineLookup { opcode, container }
}

fn lookups(ls: &Vec<String>) -> Vec<LineLookup> {
    ls.iter().map(|l| lookup(l)).collect()
}

fn program() -> Vec<String> {
    lines(&[
        "// count down",
        "start:",
        "  SET R1 #3",
        "",
        "loop:",
        "  CMP R1 RZR",
        "  JMP end",
        "  ADD R1 R1 R2",
        "  JMP loop",
        "end:",
        "  HALT",
    ])
}

#[test]
fn label_pass_addresses() {
    let t = read_labels(&program());
    assert_eq!(t.len(), 3);
    assert_eq!(t.find_address("start"), Some(0));
    assert_eq!(t.find_address("loop"), Some(2));
    assert_eq!(t.find_address("end"), Some(10));
    assert_eq!(t.find_address("middle"), None);
}

#[test]
fn label_pass_judges_trimmed_lines() {
    // "x:  " is a label once trimmed, in both passes: it takes no address.
    let t = read_labels(&lines(&["x:  ", "y:", "HALT"]));
    assert_eq!(t.find_address("x"), Some(0));
    assert_eq!(t.find_address("y"), Some(0));
    assert_eq!(count_instruction_lines(&lines(&["x:  ", "y:", "HALT"])), 1);
}

#[test]
fn address_lines_counted() {
    assert_eq!(count_instruction_lines(&program()), 6);
    assert_eq!(count_instruction_lines(&lines(&[])), 0);
}

#[test]
fn assembly_pass_program() {
    let p = program();
    let t = read_labels(&p);
    let out = assemble_instructions(&p, &lookups(&p), &ops(), &t).unwrap();
    assert_eq!(
        out,
        vec![
            InstructionContainer::IFormat(IFormat { opcode: 5, r_dest: 1, r_op1: 0, i_op2: 3 }),
            InstructionContainer::RFormat(RFormat { opcode: 1, r_dest: 0, r_op1: 1, r_op2: 0 }),
            InstructionContainer::JFormat(JFormat { opcode: 30, dest_addr: 10 }),
            InstructionContainer::RFormat(RFormat { opcode: 10, r_dest: 1, r_op1: 1, r_op2: 2 }),
            InstructionContainer::JFormat(JFormat { opcode: 30, dest_addr: 2 }),
            InstructionContainer::JFormat(JFormat { opcode: 6, dest_addr: 0 }),
        ]
    );
}

#[test]
fn assembly_pass_empty_source() {
    let p = lines(&["", "   ", "// nothing"]);
    let t = read_labels(&p);
    assert_eq!(assemble_instructions(&p, &lookups(&p), &ops(), &t), Ok(vec![]));
}

#[test]
fn assembly_pass_unknown_mnemonic() {
    let p = lines(&["HALT", "", "FOO R1"]);
    let t = read_labels(&p);
    assert_eq!(
        assemble_instructions(&p, &lookups(&p), &ops(), &t),
        Err(LineError {
            line: 3,
            error: AssemblerError::ParseError(ParseError::MnemonicParseError(
                MnemonicParseError::ErrorUnknownMnemonic
            )),
        })
    );
}

#[test]
fn assembly_pass_opcode_without_container() {
    let p = lines(&["ODD R1"]);
    let t = read_labels(&p);
    assert_eq!(
        assemble_instructions(&p, &lookups(&p), &ops(), &t),
        Err(LineError {
            line: 1,
            error: AssemblerError::ParseError(ParseError::OpcodeParseError(
                OpcodeParseError::ErrorUnknownOpcode
            )),
        })
    );
}

#[test]
fn assembly_pass_first_error_wins() {
    let p = lines(&["ADD R1 R2 R99", "JMP nowhere"]);
    let t = read_labels(&p);
    assert_eq!(
        assemble_instructions(&p, &lookups(&p), &ops(), &t),
        Err(LineError {
            line: 1,
            error: AssemblerError::ParseError(ParseError::RegisterParseError(
                RegisterParseError::ErrorNumberOutOfBounds
            )),
        })
    );
}

#[test]
fn assembly_pass_missing_label() {
    let p = lines(&["HALT", "JMP nowhere"]);
    let t = read_labels(&p);
    assert_eq!(
        assemble_instructions(&p, &lookups(&p), &ops(), &t),
        Err(LineError {
            line: 2,
            error: AssemblerError::ParseError(ParseError::LabelParseError(
                LabelParseError::ErrorLabelNotFound
            )),
        })
    );
}

#[test]
fn assembly_pass_skips_trimmed_label() {
    // The assembly pass trims first, so "x:  " is a label there.
    let p = lines(&["x:  ", "HALT"]);
    let t = SymbolTable::new();
    assert_eq!(
        assemble_instructions(&p, &lookups(&p), &ops(), &t),
        Ok(vec![InstructionContainer::JFormat(JFormat { opcode: 6, dest_addr: 0 })])
    );
}

#[test]
fn assembly_one_instruction_per_instruction_line() {
    let p = program();
    let t = read_labels(&p);
    let out = assemble_instructions(&p, &lookups(&p), &ops(), &t).unwrap();
    let instruction_lines = p
        .iter()
        .filter(|l| {
            let l = l.trim();
            !(l.is_empty() || l.starts_with("//") || l.ends_with(':'))
        })
        .count();
    assert_eq!(out.len(), instruction_lines);
}

#[test]
fn jump_targets_follow_their_labels() {
    let p = program();
    let t = read_labels(&p);
    let out = assemble_instructions(&p, &lookups(&p), &ops(), &t).unwrap();
    // "loop" is followed by the second instruction, "end" by the sixth.
    assert_eq!(t.find_address("loop"), Some(2 * 1));
    assert_eq!(t.find_address("end"), Some(2 * 5));
    assert_eq!(out[5], InstructionContainer::JFormat(JFormat { opcode: 6, dest_addr: 0 }));
}

#[test]
fn label_with_trailing_space_names_next_instruction() {
    // "a: " declares "a" in the label pass as the assembly pass skips it as
    // a label: both labels point at the instruction that follows them.
    let p = lines(&["a: ", "HALT", "b:"]);
    let t = read_labels(&p);
    assert_eq!(t.find_address("a"), Some(0));
    assert_eq!(t.find_address("b"), Some(2));
    assert_eq!(
        assemble_instructions(&p, &lookups(&p), &ops(), &t),
        Ok(vec![InstructionContainer::JFormat(JFormat { opcode: 6, dest_addr: 0 })])
    );
}

#[test]
fn jump_to_label_with_trailing_space() {
    let p = lines(&["start: ", "SET R1 #1", "JMP start"]);
    let t = read_labels(&p);
    let out = assemble_instructions(&p, &lookups(&p), &ops(), &t).unwrap();
    assert_eq!(out[1], InstructionContainer::JFormat(JFormat { opcode: 30, dest_addr: 0 }));
}
