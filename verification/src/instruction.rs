//! Instruction containers of the three formats and how an instruction line
//! fills their operand fields.
use vstd::prelude::*;
use crate::errors::{ImmediateParseError, LabelParseError, ParseError, RegisterParseError};
use crate::operands::{immediate_at_end, immediate_operand, register_at, register_operand};
use crate::symbols::{lookup, SymbolTable};
use crate::text::{after_first_word, chars_of, trim, trim_chars, without_first_word_chars};

verus! {

/// A register-format instruction: a destination and two operand registers.
#[derive(Debug, Clone, Copy, PartialEq, Eq, Structural)]
pub struct RFormat {
    pub opcode: u8,
    pub r_dest: u8,
    pub r_op1: u8,
    pub r_op2: u8,
}

/// An immediate-format instruction: a destination register, an operand
/// register and a 16-bit immediate operand.
#[derive(Debug, Clone, Copy, PartialEq, Eq, Structural)]
pub struct IFormat {
    pub opcode: u8,
    pub r_dest: u8,
    pub r_op1: u8,
    pub i_op2: u16,
}

/// A jump-format instruction: a destination address.
#[derive(Debug, Clone, Copy, PartialEq, Eq, Structural)]
pub struct JFormat {
    pub opcode: u8,
    pub dest_addr: u16,
}

/// An instruction of one of the three formats.
#[derive(Debug, Clone, Copy, PartialEq, Eq, Structural)]
pub enum InstructionContainer {
    RFormat(RFormat),
    IFormat(IFormat),
    JFormat(JFormat),
}

/// The opcodes whose operands differ from the standard layout of their format.
#[derive(Debug, Clone, Copy, PartialEq, Eq, Structural)]
pub struct SpecialOpcodes {
    /// A register comparison: no destination register.
    pub op_compare: u8,
    /// A bitwise negation: no second operand register.
    pub op_not: u8,
    /// A register copy: no second operand register.
    pub op_copy: u8,
    /// An immediate comparison: no destination register.
    pub op_compare_imm: u8,
    /// An immediate load: no operand register.
    pub op_set: u8,
    /// A halt: no destination label.
    pub op_halt: u8,
}

/// The register-format instruction `c` with the operand registers of the
/// instruction text `s` (words 1, 2 and 3; a comparison has no destination,
/// so its operands are words 1 and 2; a negation or copy has no second
/// operand). An absent register is 0. The first missing or bad register,
/// in field order, is the error.
pub open spec fn assemble_r(c: RFormat, s: Seq<char>, ops: SpecialOpcodes) -> Result<
    RFormat,
    RegisterParseError,
> {
    let no_dest = c.opcode == ops.op_compare;
    let no_op2 = !no_dest && (c.opcode == ops.op_not || c.opcode == ops.op_copy);
    let shift: int = if no_dest {
        1
    } else {
        0
    };
    let dest = if no_dest {
        Ok(0u8)
    } else {
        register_operand(s, 1)
    };
    match dest {
        Err(e) => Err(e),
        Ok(d) => match register_operand(s, 2 - shift) {
            Err(e) => Err(e),
            Ok(o1) => {
                let op2 = if no_op2 {
                    Ok(0u8)
                } else {
                    register_operand(s, 3 - shift)
                };
                match op2 {
                    Err(e) => Err(e),
                    Ok(o2) => Ok(RFormat { opcode: c.opcode, r_dest: d, r_op1: o1, r_op2: o2 }),
                }
            },
        },
    }
}

/// The immediate-format instruction `c` with the operands of the
/// instruction text `s`: the destination register is word 1, the operand
/// register word 2, the immediate the last word. An immediate comparison has
/// no destination, so its operand register is word 1; an immediate load has
/// no operand register. An absent register is 0. The first missing or bad
/// operand, in field order, is the error.
pub open spec fn assemble_i(c: IFormat, s: Seq<char>, ops: SpecialOpcodes) -> Result<
    IFormat,
    ParseError,
> {
    let no_dest = c.opcode == ops.op_compare_imm;
    let no_reg_op = !no_dest && c.opcode == ops.op_set;
    let dest = if no_dest {
        Ok(0u8)
    } else {
        register_operand(s, 1)
    };
    match dest {
        Err(e) => Err(ParseError::RegisterParseError(e)),
        Ok(d) => {
            let op1 = if no_reg_op {
                Ok(0u8)
            } else if no_dest {
                register_operand(s, 1)
            } else {
                register_operand(s, 2)
            };
            match op1 {
                Err(e) => Err(ParseError::RegisterParseError(e)),
                Ok(o1) => match immediate_operand(s) {
                    Err(e) => Err(ParseError::ImmediateParseError(e)),
                    Ok(imm) => Ok(IFormat { opcode: c.opcode, r_dest: d, r_op1: o1, i_op2: imm }),
                },
            }
        },
    }
}

/// The jump-format instruction `c` with the address that the symbol table
/// `table` gives the label of the instruction text `s` (what follows its
/// first word, trimmed). A halt has no label and is left as it is.
pub open spec fn assemble_j(c: JFormat, s: Seq<char>, table: Seq<(Seq<char>, u16)>, ops: SpecialOpcodes) -> Result<
    JFormat,
    LabelParseError,
> {
    if c.opcode == ops.op_halt {
        Ok(c)
    } else {
        match lookup(table, trim(after_first_word(s))) {
            Some(addr) => Ok(JFormat { opcode: c.opcode, dest_addr: addr }),
            None => Err(LabelParseError::ErrorLabelNotFound),
        }
    }
}

/// A standard register instruction (not a comparison, negation or copy)
/// takes its destination, first and second operands from words 1, 2 and 3
/// in that order, unchanged; it succeeds exactly when all three parse, and
/// otherwise fails with the first of them that does not.
pub proof fn lemma_r_standard(c: RFormat, s: Seq<char>, ops: SpecialOpcodes)
    requires
        c.opcode != ops.op_compare,
        c.opcode != ops.op_not,
        c.opcode != ops.op_copy,
    ensures
        assemble_r(c, s, ops) == match (
            register_operand(s, 1),
            register_operand(s, 2),
            register_operand(s, 3),
        ) {
            (Ok(d), Ok(a), Ok(b)) => Ok(RFormat { opcode: c.opcode, r_dest: d, r_op1: a, r_op2: b }),
            (Err(e), _, _) => Err(e),
            (Ok(_), Err(e), _) => Err(e),
            (Ok(_), Ok(_), Err(e)) => Err(e),
        },
{
}

/// A comparison has no destination (left 0) and takes its two operands
/// from words 1 and 2, in that order.
pub proof fn lemma_r_compare(c: RFormat, s: Seq<char>, ops: SpecialOpcodes)
    requires
        c.opcode == ops.op_compare,
    ensures
        assemble_r(c, s, ops) == match (register_operand(s, 1), register_operand(s, 2)) {
            (Ok(a), Ok(b)) => Ok(RFormat { opcode: c.opcode, r_dest: 0, r_op1: a, r_op2: b }),
            (Err(e), _) => Err(e),
            (Ok(_), Err(e)) => Err(e),
        },
{
}

/// A standard immediate instruction (not an immediate comparison or load)
/// takes its destination from word 1, its operand register from word 2 and
/// its immediate, the full 16-bit value, from the last word.
pub proof fn lemma_i_standard(c: IFormat, s: Seq<char>, ops: SpecialOpcodes)
    requires
        c.opcode != ops.op_compare_imm,
        c.opcode != ops.op_set,
    ensures
        assemble_i(c, s, ops) == match (
            register_operand(s, 1),
            register_operand(s, 2),
            immediate_operand(s),
        ) {
            (Ok(d), Ok(a), Ok(i)) => Ok(IFormat { opcode: c.opcode, r_dest: d, r_op1: a, i_op2: i }),
            (Err(e), _, _) => Err(ParseError::RegisterParseError(e)),
            (Ok(_), Err(e), _) => Err(ParseError::RegisterParseError(e)),
            (Ok(_), Ok(_), Err(e)) => Err(ParseError::ImmediateParseError(e)),
        },
{
}

/// Whatever the opcode, an assembled immediate instruction keeps its opcode
/// and carries the full value of the immediate written as the last word.
pub proof fn lemma_i_keeps_immediate(c: IFormat, s: Seq<char>, ops: SpecialOpcodes)
    ensures
        assemble_i(c, s, ops) matches Ok(r) ==> r.opcode == c.opcode && immediate_operand(s)
            == Ok::<u16, ImmediateParseError>(r.i_op2),
{
}

/// A negation or copy (when its opcode is not the comparison's) takes its
/// destination from word 1 and its one operand from word 2, and leaves the
/// second operand 0; a third operand word is not read.
pub proof fn lemma_r_single_operand(c: RFormat, s: Seq<char>, ops: SpecialOpcodes)
    requires
        c.opcode == ops.op_not || c.opcode == ops.op_copy,
        c.opcode != ops.op_compare,
    ensures
        assemble_r(c, s, ops) == match (register_operand(s, 1), register_operand(s, 2)) {
            (Ok(d), Ok(a)) => Ok(RFormat { opcode: c.opcode, r_dest: d, r_op1: a, r_op2: 0 }),
            (Err(e), _) => Err(e),
            (Ok(_), Err(e)) => Err(e),
        },
{
}

/// An immediate load (when its opcode is not the immediate comparison's)
/// takes its destination from word 1 and its immediate from the last word,
/// and leaves the operand register 0.
pub proof fn lemma_i_load(c: IFormat, s: Seq<char>, ops: SpecialOpcodes)
    requires
        c.opcode == ops.op_set,
        c.opcode != ops.op_compare_imm,
    ensures
        assemble_i(c, s, ops) == match (register_operand(s, 1), immediate_operand(s)) {
            (Ok(d), Ok(i)) => Ok(IFormat { opcode: c.opcode, r_dest: d, r_op1: 0, i_op2: i }),
            (Err(e), _) => Err(ParseError::RegisterParseError(e)),
            (Ok(_), Err(e)) => Err(ParseError::ImmediateParseError(e)),
        },
{
}

/// An immediate comparison takes its operand register from word 1 and its
/// immediate from the last word, and leaves the destination 0.
pub proof fn lemma_i_compare(c: IFormat, s: Seq<char>, ops: SpecialOpcodes)
    requires
        c.opcode == ops.op_compare_imm,
    ensures
        assemble_i(c, s, ops) == match (register_operand(s, 1), immediate_operand(s)) {
            (Ok(a), Ok(i)) => Ok(IFormat { opcode: c.opcode, r_dest: 0, r_op1: a, i_op2: i }),
            (Err(e), _) => Err(ParseError::RegisterParseError(e)),
            (Ok(_), Err(e)) => Err(ParseError::ImmediateParseError(e)),
        },
{
}

impl RFormat {
    /// Fills the register fields from the instruction characters `text`.
    pub fn assemble_chars(self, text: &Vec<char>, ops: &SpecialOpcodes) -> (r: Result<
        RFormat,
        RegisterParseError,
    >)
        ensures
            r == assemble_r(self, text@, *ops),
    {
        let mut c = self;
        let no_dest = c.opcode == ops.op_compare;
        let no_op2 = !no_dest && (c.opcode == ops.op_not || c.opcode == ops.op_copy);
        let shift: usize = if no_dest {
            1
        } else {
            0
        };
        c.r_dest = if no_dest {
            0
        } else {
            register_at(text, 1)?
        };
        c.r_op1 = register_at(text, 2 - shift)?;
        c.r_op2 = if no_op2 {
            0
        } else {
            register_at(text, 3 - shift)?
        };
        Ok(c)
    }

    /// Fills the register fields from the instruction text `instruction_text`.
    pub fn assemble(self, instruction_text: &str, ops: &SpecialOpcodes) -> (r: Result<
        RFormat,
        RegisterParseError,
    >)
        ensures
            r == assemble_r(self, instruction_text@, *ops),
    {
        let v = chars_of(instruction_text);
        self.assemble_chars(&v, ops)
    }
}

impl IFormat {
    /// Fills the operand fields from the instruction characters `text`.
    pub fn assemble_chars(self, text: &Vec<char>, ops: &SpecialOpcodes) -> (r: Result<
        IFormat,
        ParseError,
    >)
        ensures
            r == assemble_i(self, text@, *ops),
    {
        let mut c = self;
        let no_dest = c.opcode == ops.op_compare_imm;
        let no_reg_op = !no_dest && c.opcode == ops.op_set;
        if !no_dest {
            match register_at(text, 1) {
                Ok(d) => c.r_dest = d,
                Err(e) => return Err(ParseError::RegisterParseError(e)),
            }
        } else {
            c.r_dest = 0;
        }
        if !no_reg_op {
            let op1_index: usize = if no_dest {
                1
            } else {
                2
            };
            match register_at(text, op1_index) {
                Ok(o) => c.r_op1 = o,
                Err(e) => return Err(ParseError::RegisterParseError(e)),
            }
        } else {
            c.r_op1 = 0;
        }
        match immediate_at_end(text) {
            Ok(imm) => c.i_op2 = imm,
            Err(e) => return Err(ParseError::ImmediateParseError(e)),
        }
        Ok(c)
    }

    /// Fills the operand fields from the instruction text `instruction_text`.
    pub fn assemble(self, instruction_text: &str, ops: &SpecialOpcodes) -> (r: Result<
        IFormat,
        ParseError,
    >)
        ensures
            r == assemble_i(self, instruction_text@, *ops),
    {
        let v = chars_of(instruction_text);
        self.assemble_chars(&v, ops)
    }
}

impl JFormat {
    /// Fills the destination address from the label of `instruction_text`.
    pub fn assemble(self, instruction_text: &str, symbol_table: &SymbolTable, ops: &SpecialOpcodes) -> (r: Result<
        JFormat,
        LabelParseError,
    >)
        ensures
            r == assemble_j(self, instruction_text@, symbol_table@, *ops),
    {
        let v = chars_of(instruction_text);
        self.assemble_chars(&v, symbol_table, ops)
    }

    /// Fills the destination address from the label of the instruction
    /// characters `text`.
    pub fn assemble_chars(self, text: &Vec<char>, symbol_table: &SymbolTable, ops: &SpecialOpcodes) -> (r: Result<
        JFormat,
        LabelParseError,
    >)
        ensures
            r == assemble_j(self, text@, symbol_table@, *ops),
    {
        if self.opcode == ops.op_halt {
            return Ok(self);
        }
        let label = without_first_word_chars(text);
        let name = trim_chars(&label);
        match symbol_table.find_address_chars(&name) {
            Some(addr) => Ok(JFormat { opcode: self.opcode, dest_addr: addr }),
            None => Err(LabelParseError::ErrorLabelNotFound),
        }
    }
}

} // verus!
