//! The two passes of the assembler over the lines of a source file: the
//! label pass that builds the symbol table, and the assembly pass that
//! turns each instruction line into a filled instruction container.
use vstd::prelude::*;
use crate::errors::{AssemblerError, OpcodeParseError, ParseError};
use crate::instruction::{
    assemble_i,
    assemble_j,
    assemble_r,
    InstructionContainer,
    JFormat,
    SpecialOpcodes,
};
use crate::operands::{lemma_register_in_range, opcode_from_chars, opcode_of, register_operand};
use crate::symbols::{lookup, lemma_find_other_after_add, SymbolTable};
use crate::text::{
    after_first_word,
    blank_line,
    chars_of,
    comment_line,
    is_blank_chars,
    is_comment_chars,
    is_label_chars,
    is_white_space,
    label_line,
    label_name,
    lemma_comment_is_slashes,
    lemma_label_is_its_word,
    lemma_second_word,
    lemma_words_trim,
    trim,
    words,
    trim_chars,
};

verus! {

/// The characters of each line.
pub open spec fn text_of(lines: Seq<String>) -> Seq<Seq<char>> {
    lines.map_values(|l: String| l@)
}

/// A line that declares a label: its trimmed text is a label. The label it
/// declares is `label_name(s)`, that text without the final `:`.
pub open spec fn declares_label(s: Seq<char>) -> bool {
    label_line(trim(s))
}

/// A line that the assembly pass turns into an instruction: once trimmed,
/// not blank, not a comment and not a label.
pub open spec fn instruction_line(s: Seq<char>) -> bool {
    let t = trim(s);
    !blank_line(t) && !comment_line(t) && !label_line(t)
}

/// The number of instruction lines in `ls`.
pub open spec fn instruction_count(ls: Seq<Seq<char>>) -> nat
    decreases ls.len(),
{
    if ls.len() == 0 {
        0
    } else {
        instruction_count(ls.drop_last()) + if instruction_line(ls.last()) {
            1nat
        } else {
            0nat
        }
    }
}

/// The labels of `ls` in order, each with its address: two for each
/// instruction line before it (instructions are 32 bits wide, memory
/// words 16), so the address of the instruction that follows it.
pub open spec fn label_entries(ls: Seq<Seq<char>>) -> Seq<(Seq<char>, u16)>
    decreases ls.len(),
{
    if ls.len() == 0 {
        seq![]
    } else {
        let prev = label_entries(ls.drop_last());
        if declares_label(ls.last()) {
            prev.push((label_name(ls.last()), (2 * instruction_count(ls.drop_last())) as u16))
        } else {
            prev
        }
    }
}

/// Instruction lines are counted in order: a longer prefix counts at least
/// as many, and one more for each instruction line it adds.
proof fn lemma_instruction_count_prefix(ls: Seq<Seq<char>>, a: int, b: int)
    requires
        0 <= a <= b <= ls.len(),
    ensures
        instruction_count(ls.take(a)) <= instruction_count(ls.take(b)),
        a < b && instruction_line(ls[a]) ==> instruction_count(ls.take(a)) + 1 <= instruction_count(
            ls.take(b),
        ),
    decreases b - a,
{
    if a < b {
        lemma_instruction_count_prefix(ls, a, b - 1);
        assert(ls.take(b).drop_last() =~= ls.take(b - 1));
        assert(ls.take(b).last() == ls[b - 1]);
    }
}

/// The number of instruction lines of `lines`: the lines that take an
/// address in the label pass.
pub fn count_instruction_lines(lines: &Vec<String>) -> (n: usize)
    ensures
        n == instruction_count(text_of(lines@)),
{
    let ghost ls = text_of(lines@);
    let mut n: usize = 0;
    let mut i: usize = 0;
    while i < lines.len()
        invariant
            i <= lines.len(),
            ls == text_of(lines@),
            n == instruction_count(ls.take(i as int)),
            n <= i,
        decreases lines.len() - i,
    {
        let v = chars_of(lines[i].as_str());
        let t = trim_chars(&v);
        assert(ls.take(i + 1).drop_last() =~= ls.take(i as int));
        assert(ls.take(i + 1).last() == v@);
        if !is_blank_chars(&t) && !is_comment_chars(&t) && !is_label_chars(&t) {
            n = n + 1;
        }
        i = i + 1;
    }
    assert(ls.take(lines.len() as int) =~= ls);
    n
}

/// The label pass: every label of `lines` with its address, two per
/// instruction line before it. Lines are judged trimmed, as in the assembly
/// pass. More than 32767 instruction lines would overflow the 16-bit address.
pub fn read_labels(lines: &Vec<String>) -> (table: SymbolTable)
    requires
        instruction_count(text_of(lines@)) <= 32767,
    ensures
        table@ == label_entries(text_of(lines@)),
{
    let ghost ls = text_of(lines@);
    let mut table = SymbolTable::new();
    let mut current_address: u16 = 0;
    let mut i: usize = 0;
    while i < lines.len()
        invariant
            i <= lines.len(),
            ls == text_of(lines@),
            instruction_count(ls) <= 32767,
            current_address == 2 * instruction_count(ls.take(i as int)),
            table@ == label_entries(ls.take(i as int)),
        decreases lines.len() - i,
    {
        let v = chars_of(lines[i].as_str());
        let t = trim_chars(&v);
        let ghost pre = ls.take(i as int);
        let ghost cur = ls.take(i + 1);
        assert(cur.drop_last() =~= pre);
        assert(cur.last() == v@);
        let label = is_label_chars(&t);
        if label {
            let mut name = trim_chars(&v);
            name.pop();
            assert(name@ =~= label_name(v@));
            table.add_label_chars(name, current_address);
        }
        if !is_blank_chars(&t) && !is_comment_chars(&t) && !label {
            proof {
                lemma_instruction_count_prefix(ls, i + 1, ls.len() as int);
                assert(ls.take(ls.len() as int) =~= ls);
            }
            current_address = current_address + 2;
        }
        i = i + 1;
    }
    assert(ls.take(lines.len() as int) =~= ls);
    table
}

/// What the instruction set gives for the first word of a line: its opcode
/// (`None` for an unknown mnemonic) and, for that opcode, an empty
/// instruction container of its format (`None` where there is none).
#[derive(Debug, Clone, Copy, PartialEq, Eq, Structural)]
pub struct LineLookup {
    pub opcode: Option<u8>,
    pub container: Option<InstructionContainer>,
}

/// The opcode a container carries.
pub open spec fn container_opcode(c: InstructionContainer) -> u8 {
    match c {
        InstructionContainer::RFormat(r) => r.opcode,
        InstructionContainer::IFormat(i) => i.opcode,
        InstructionContainer::JFormat(j) => j.opcode,
    }
}

/// A container comes only with an opcode, and carries that opcode.
pub open spec fn lookup_consistent(lk: LineLookup) -> bool {
    lk.container is Some ==> lk.opcode == Some(container_opcode(lk.container->0))
}

/// An error of the assembly pass and the line (counted from 1) it is on.
#[derive(Debug, Clone, Copy, PartialEq, Eq, Structural)]
pub struct LineError {
    pub line: u16,
    pub error: AssemblerError,
}

/// What the assembly pass makes of one line: nothing for a blank, comment
/// or label line (judged on the trimmed text), else the container `lk`
/// gives, filled from the trimmed text, or the error that stops it.
pub open spec fn line_result(
    line: Seq<char>,
    lk: LineLookup,
    ops: SpecialOpcodes,
    table: Seq<(Seq<char>, u16)>,
) -> Option<Result<InstructionContainer, ParseError>> {
    let t = trim(line);
    if !instruction_line(line) {
        None
    } else {
        Some(
            match opcode_of(t, lk.opcode) {
                Err(e) => Err(ParseError::MnemonicParseError(e)),
                Ok(_) => match lk.container {
                    None => Err(ParseError::OpcodeParseError(OpcodeParseError::ErrorUnknownOpcode)),
                    Some(InstructionContainer::RFormat(c)) => match assemble_r(c, t, ops) {
                        Ok(r) => Ok(InstructionContainer::RFormat(r)),
                        Err(e) => Err(ParseError::RegisterParseError(e)),
                    },
                    Some(InstructionContainer::IFormat(c)) => match assemble_i(c, t, ops) {
                        Ok(r) => Ok(InstructionContainer::IFormat(r)),
                        Err(e) => Err(e),
                    },
                    Some(InstructionContainer::JFormat(c)) => match assemble_j(c, t, table, ops) {
                        Ok(r) => Ok(InstructionContainer::JFormat(r)),
                        Err(e) => Err(ParseError::LabelParseError(e)),
                    },
                },
            },
        )
    }
}

/// The assembly pass over the first `n` lines: the containers of the
/// instruction lines in order, or the first error with its line number.
pub open spec fn assemble_lines(
    ls: Seq<Seq<char>>,
    lks: Seq<LineLookup>,
    ops: SpecialOpcodes,
    table: Seq<(Seq<char>, u16)>,
    n: nat,
) -> Result<Seq<InstructionContainer>, LineError>
    decreases n,
{
    if n == 0 {
        Ok(seq![])
    } else {
        match assemble_lines(ls, lks, ops, table, (n - 1) as nat) {
            Err(e) => Err(e),
            Ok(v) => match line_result(ls[n - 1], lks[n - 1], ops, table) {
                None => Ok(v),
                Some(Ok(c)) => Ok(v.push(c)),
                Some(Err(e)) => Err(LineError { line: n as u16, error: AssemblerError::ParseError(e) }),
            },
        }
    }
}

/// Once the pass has failed, later lines do not change its outcome.
pub proof fn lemma_assemble_error_persists(
    ls: Seq<Seq<char>>,
    lks: Seq<LineLookup>,
    ops: SpecialOpcodes,
    table: Seq<(Seq<char>, u16)>,
    k: nat,
    n: nat,
)
    requires
        k <= n,
        assemble_lines(ls, lks, ops, table, k) is Err,
    ensures
        assemble_lines(ls, lks, ops, table, n) == assemble_lines(ls, lks, ops, table, k),
    decreases n,
{
    if k < n {
        lemma_assemble_error_persists(ls, lks, ops, table, k, (n - 1) as nat);
    }
}

/// The assembly pass over the lines with the given counterparts (by
/// position) in `lookups`. Line numbers are 16 bits wide: `requires` leaves
/// out the inputs that would reach a line past 65535.
pub fn assemble_instructions(
    lines: &Vec<String>,
    lookups: &Vec<LineLookup>,
    ops: &SpecialOpcodes,
    symbol_table: &SymbolTable,
) -> (r: Result<Vec<InstructionContainer>, LineError>)
    requires
        lookups.len() == lines.len(),
        forall|i: int| 0 <= i < lookups.len() ==> lookup_consistent(#[trigger] lookups@[i]),
        lines.len() <= 65535 || assemble_lines(
            text_of(lines@),
            lookups@,
            *ops,
            symbol_table@,
            65535,
        ) is Err,
    ensures
        r matches Ok(v) ==> assemble_lines(
            text_of(lines@),
            lookups@,
            *ops,
            symbol_table@,
            lines.len() as nat,
        ) == Ok::<Seq<InstructionContainer>, LineError>(v@),
        r matches Err(e) ==> assemble_lines(
            text_of(lines@),
            lookups@,
            *ops,
            symbol_table@,
            lines.len() as nat,
        ) == Err::<Seq<InstructionContainer>, LineError>(e),
{
    let ghost ls = text_of(lines@);
    let ghost tab = symbol_table@;
    let mut out: Vec<InstructionContainer> = Vec::new();
    let mut i: usize = 0;
    while i < lines.len()
        invariant
            i <= lines.len(),
            lookups.len() == lines.len(),
            ls == text_of(lines@),
            tab == symbol_table@,
            lines.len() <= 65535 || assemble_lines(ls, lookups@, *ops, tab, 65535) is Err,
            assemble_lines(ls, lookups@, *ops, tab, i as nat) == Ok::<
                Seq<InstructionContainer>,
                LineError,
            >(out@),
        decreases lines.len() - i,
    {
        proof {
            if i >= 65535 {
                lemma_assemble_error_persists(ls, lookups@, *ops, tab, 65535, i as nat);
            }
        }
        let line_number: u16 = (i + 1) as u16;
        let v = chars_of(lines[i].as_str());
        assert(ls[i as int] == v@);
        let t = trim_chars(&v);
        if is_blank_chars(&t) || is_comment_chars(&t) || is_label_chars(&t) {
            i = i + 1;
            continue;
        }
        let lk = lookups[i];
        let step: Result<InstructionContainer, ParseError> = match opcode_from_chars(&t, lk.opcode) {
            Err(e) => Err(ParseError::MnemonicParseError(e)),
            Ok(_) => match lk.container {
                None => Err(ParseError::OpcodeParseError(OpcodeParseError::ErrorUnknownOpcode)),
                Some(InstructionContainer::RFormat(c)) => match c.assemble_chars(&t, ops) {
                    Ok(r) => Ok(InstructionContainer::RFormat(r)),
                    Err(e) => Err(ParseError::RegisterParseError(e)),
                },
                Some(InstructionContainer::IFormat(c)) => match c.assemble_chars(&t, ops) {
                    Ok(r) => Ok(InstructionContainer::IFormat(r)),
                    Err(e) => Err(e),
                },
                Some(InstructionContainer::JFormat(c)) => match c.assemble_chars(&t, symbol_table, ops) {
                    Ok(r) => Ok(InstructionContainer::JFormat(r)),
                    Err(e) => Err(ParseError::LabelParseError(e)),
                },
            },
        };
        match step {
            Ok(c) => {
                out.push(c);
            },
            Err(e) => {
                let err = LineError { line: line_number, error: AssemblerError::ParseError(e) };
                proof {
                    lemma_assemble_error_persists(
                        ls,
                        lookups@,
                        *ops,
                        tab,
                        (i + 1) as nat,
                        lines.len() as nat,
                    );
                }
                return Err(err);
            },
        }
        i = i + 1;
    }
    Ok(out)
}

/// A label resolves to the address of the instruction that follows it: two
/// per instruction line before it, unless a later line declares the same
/// name (the later one wins).
pub proof fn lemma_label_resolves(ls: Seq<Seq<char>>, i: int)
    requires
        0 <= i < ls.len(),
        declares_label(ls[i]),
        forall|j: int|
            i < j < ls.len() && declares_label(#[trigger] ls[j]) ==> label_name(ls[j])
                != label_name(ls[i]),
    ensures
        lookup(label_entries(ls), label_name(ls[i])) == Some(
            (2 * instruction_count(ls.take(i))) as u16,
        ),
    decreases ls.len(),
{
    let p = ls.drop_last();
    if i == ls.len() - 1 {
        assert(ls.take(i) =~= p);
    } else {
        assert forall|j: int|
            i < j < p.len() && declares_label(#[trigger] p[j]) implies label_name(p[j])
            != label_name(p[i]) by {
            assert(p[j] == ls[j]);
        }
        lemma_label_resolves(p, i);
        assert(p.take(i) =~= ls.take(i));
        assert(p[i] == ls[i]);
        if declares_label(ls.last()) {
            assert(label_name(ls[ls.len() - 1]) != label_name(ls[i]));
            lemma_find_other_after_add(
                label_entries(p),
                label_name(ls.last()),
                (2 * instruction_count(p)) as u16,
                label_name(ls[i]),
            );
        }
    }
}

/// A label is entered under its bare word: on a label line (however
/// indented or followed by white space) the single word is the name and a
/// `:`, and looking that name up in the label pass's table gives the
/// address of the instruction that follows the line, two per instruction
/// line before it, unless a later label line carries the same word.
pub proof fn lemma_label_found_by_word(ls: Seq<Seq<char>>, i: int)
    requires
        0 <= i < ls.len(),
        label_line(trim(ls[i])),
        forall|j: int|
            i < j < ls.len() && label_line(trim(#[trigger] ls[j])) ==> words(ls[j]) != words(ls[i]),
    ensures
        words(ls[i]).len() == 1,
        words(ls[i])[0].last() == ':',
        forall|k: int|
            0 <= k < words(ls[i])[0].len() - 1 ==> !#[trigger] is_white_space(words(ls[i])[0][k]),
        lookup(label_entries(ls), words(ls[i])[0].drop_last()) == Some(
            (2 * instruction_count(ls.take(i))) as u16,
        ),
{
    lemma_label_is_its_word(ls[i]);
    assert forall|j: int|
        i < j < ls.len() && declares_label(#[trigger] ls[j]) implies label_name(ls[j]) != label_name(
        ls[i],
    ) by {
        lemma_label_is_its_word(ls[j]);
        if label_name(ls[j]) == label_name(ls[i]) {
            let wj = words(ls[j])[0];
            let wi = words(ls[i])[0];
            assert(wj =~= wj.drop_last().push(':'));
            assert(wi =~= wi.drop_last().push(':'));
            assert(words(ls[j]) =~= seq![wj]);
            assert(words(ls[i]) =~= seq![wi]);
        }
    }
    lemma_label_resolves(ls, i);
    assert forall|k: int|
        0 <= k < words(ls[i])[0].len() - 1 implies !#[trigger] is_white_space(words(ls[i])[0][k]) by {
        assert(words(ls[i])[0][k] == label_name(ls[i])[k]);
    }
}

/// A name that no line declares is not in the symbol table.
pub proof fn lemma_undeclared_label(ls: Seq<Seq<char>>, name: Seq<char>)
    requires
        forall|j: int|
            0 <= j < ls.len() && declares_label(#[trigger] ls[j]) ==> label_name(ls[j]) != name,
    ensures
        lookup(label_entries(ls), name) is None,
    decreases ls.len(),
{
    if ls.len() > 0 {
        let p = ls.drop_last();
        assert forall|j: int| 0 <= j < p.len() && declares_label(#[trigger] p[j]) implies label_name(
            p[j],
        ) != name by {
            assert(p[j] == ls[j]);
        }
        lemma_undeclared_label(p, name);
        if declares_label(ls.last()) {
            assert(label_name(ls[ls.len() - 1]) != name);
            lemma_find_other_after_add(
                label_entries(p),
                label_name(ls.last()),
                (2 * instruction_count(p)) as u16,
                name,
            );
        }
    }
}

/// Whether every register field of `c` names one of the 16 registers.
pub open spec fn registers_in_range(c: InstructionContainer) -> bool {
    match c {
        InstructionContainer::RFormat(r) => r.r_dest <= 15 && r.r_op1 <= 15 && r.r_op2 <= 15,
        InstructionContainer::IFormat(i) => i.r_dest <= 15 && i.r_op1 <= 15,
        InstructionContainer::JFormat(_) => true,
    }
}

/// A successful assembly pass yields exactly one instruction per
/// instruction line, in line order: the instruction made from line `j`
/// stands at the position that counts the instruction lines before it.
/// Every register it fills names one of the 16 registers.
pub proof fn lemma_assembly_shape(
    ls: Seq<Seq<char>>,
    lks: Seq<LineLookup>,
    ops: SpecialOpcodes,
    table: Seq<(Seq<char>, u16)>,
    n: nat,
)
    requires
        n <= ls.len(),
        n <= lks.len(),
        assemble_lines(ls, lks, ops, table, n) is Ok,
    ensures
        assemble_lines(ls, lks, ops, table, n)->Ok_0.len() == instruction_count(ls.take(n as int)),
        forall|j: int|
            0 <= j < n && instruction_line(#[trigger] ls[j]) ==> line_result(
                ls[j],
                lks[j],
                ops,
                table,
            ) == Some(
                Ok::<InstructionContainer, ParseError>(
                    assemble_lines(ls, lks, ops, table, n)->Ok_0[instruction_count(
                        ls.take(j),
                    ) as int],
                ),
            ),
        forall|k: int|
            0 <= k < assemble_lines(ls, lks, ops, table, n)->Ok_0.len() ==> registers_in_range(
                #[trigger] assemble_lines(ls, lks, ops, table, n)->Ok_0[k],
            ),
    decreases n,
{
    if n > 0 {
        let m = (n - 1) as nat;
        lemma_assembly_shape(ls, lks, ops, table, m);
        assert(ls.take(n as int).drop_last() =~= ls.take(m as int));
        assert(ls.take(n as int).last() == ls[m as int]);
        let prev = assemble_lines(ls, lks, ops, table, m)->Ok_0;
        let v = assemble_lines(ls, lks, ops, table, n)->Ok_0;
        let t = trim(ls[m as int]);
        assert forall|j: int|
            0 <= j < n && instruction_line(#[trigger] ls[j]) implies line_result(
            ls[j],
            lks[j],
            ops,
            table,
        ) == Some(Ok::<InstructionContainer, ParseError>(v[instruction_count(ls.take(j)) as int])) by {
            if j < m {
                lemma_instruction_count_prefix(ls, j, m as int);
                assert(v[instruction_count(ls.take(j)) as int] == prev[instruction_count(
                    ls.take(j),
                ) as int]);
            } else {
                assert(ls.take(j) =~= ls.take(m as int));
            }
        }
        match line_result(ls[m as int], lks[m as int], ops, table) {
            Some(Ok(c)) => {
                lemma_operand_in_range(t);
                assert forall|k: int| 0 <= k < v.len() implies registers_in_range(#[trigger] v[k]) by {
                    if k < prev.len() {
                        assert(v[k] == prev[k]);
                    }
                }
            },
            _ => {},
        }
    }
}

/// A failed assembly pass names the first failing line: every line before
/// it assembles, and that line's own result is the error reported.
pub proof fn lemma_first_error(
    ls: Seq<Seq<char>>,
    lks: Seq<LineLookup>,
    ops: SpecialOpcodes,
    table: Seq<(Seq<char>, u16)>,
    n: nat,
)
    requires
        n <= ls.len(),
        n <= lks.len(),
        n <= 65535,
        assemble_lines(ls, lks, ops, table, n) is Err,
    ensures
        ({
            let e = assemble_lines(ls, lks, ops, table, n)->Err_0;
            &&& 1 <= e.line <= n
            &&& assemble_lines(ls, lks, ops, table, (e.line - 1) as nat) is Ok
            &&& e.error matches AssemblerError::ParseError(p) && line_result(
                ls[e.line - 1],
                lks[e.line - 1],
                ops,
                table,
            ) == Some(Err::<InstructionContainer, ParseError>(p))
        }),
    decreases n,
{
    let m = (n - 1) as nat;
    if assemble_lines(ls, lks, ops, table, m) is Err {
        lemma_first_error(ls, lks, ops, table, m);
    }
}

/// Every register operand that parses names one of the 16 registers.
proof fn lemma_operand_in_range(t: Seq<char>)
    ensures
        forall|i: int| #[trigger] register_operand(t, i) is Ok ==> register_operand(t, i)->Ok_0 <= 15,
{
    assert forall|i: int| #[trigger] register_operand(t, i) is Ok implies register_operand(t, i)->Ok_0 <= 15 by {
        if 0 <= i < crate::text::words(t).len() {
            lemma_register_in_range(crate::text::words(t)[i]);
        }
    }
}

/// A label's address is two per instruction the assembly pass makes from
/// the lines before it: the address of the instruction that follows it.
pub proof fn lemma_jump_target(
    ls: Seq<Seq<char>>,
    lks: Seq<LineLookup>,
    ops: SpecialOpcodes,
    table: Seq<(Seq<char>, u16)>,
    i: int,
)
    requires
        0 <= i < ls.len(),
        i <= lks.len(),
        declares_label(ls[i]),
        forall|j: int|
            i < j < ls.len() && declares_label(#[trigger] ls[j]) ==> label_name(ls[j])
                != label_name(ls[i]),
        assemble_lines(ls, lks, ops, table, i as nat) is Ok,
    ensures
        lookup(label_entries(ls), label_name(ls[i])) == Some(
            (2 * assemble_lines(ls, lks, ops, table, i as nat)->Ok_0.len()) as u16,
        ),
{
    lemma_label_resolves(ls, i);
    lemma_assembly_shape(ls, lks, ops, table, i as nat);
}

/// A jump that the assembly pass makes, with the symbol table of the label
/// pass over the same lines, targets the address of its label: two per
/// instruction line before the label, so the position of the first
/// instruction after the label.
pub proof fn lemma_jump_emitted(
    ls: Seq<Seq<char>>,
    lks: Seq<LineLookup>,
    ops: SpecialOpcodes,
    i: int,
    j: int,
    c: JFormat,
)
    requires
        ls.len() <= lks.len(),
        assemble_lines(ls, lks, ops, label_entries(ls), ls.len() as nat) is Ok,
        0 <= j < ls.len(),
        instruction_line(ls[j]),
        lks[j].container == Some(InstructionContainer::JFormat(c)),
        c.opcode != ops.op_halt,
        0 <= i < ls.len(),
        declares_label(ls[i]),
        label_name(ls[i]) == trim(after_first_word(trim(ls[j]))),
        forall|k: int|
            i < k < ls.len() && declares_label(#[trigger] ls[k]) ==> label_name(ls[k])
                != label_name(ls[i]),
    ensures
        assemble_lines(ls, lks, ops, label_entries(ls), ls.len() as nat)->Ok_0[instruction_count(
            ls.take(j),
        ) as int] == InstructionContainer::JFormat(
            JFormat { opcode: c.opcode, dest_addr: (2 * instruction_count(ls.take(i))) as u16 },
        ),
{
    lemma_label_resolves(ls, i);
    lemma_assembly_shape(ls, lks, ops, label_entries(ls), ls.len() as nat);
    assert(instruction_line(ls[j]));
}

/// A jump written as a mnemonic and a label name (two words), assembled
/// with the label pass's table over the same lines, targets the label line
/// whose one word is that name and a `:`: its address is two per
/// instruction line before that label, however either line is indented.
pub proof fn lemma_jump_by_words(
    ls: Seq<Seq<char>>,
    lks: Seq<LineLookup>,
    ops: SpecialOpcodes,
    i: int,
    j: int,
    c: JFormat,
)
    requires
        ls.len() <= lks.len(),
        assemble_lines(ls, lks, ops, label_entries(ls), ls.len() as nat) is Ok,
        0 <= j < ls.len(),
        instruction_line(ls[j]),
        words(ls[j]).len() == 2,
        lks[j].container == Some(InstructionContainer::JFormat(c)),
        c.opcode != ops.op_halt,
        0 <= i < ls.len(),
        label_line(trim(ls[i])),
        words(ls[i])[0] == words(ls[j])[1].push(':'),
        forall|k: int|
            i < k < ls.len() && label_line(trim(#[trigger] ls[k])) ==> words(ls[k]) != words(ls[i]),
    ensures
        assemble_lines(ls, lks, ops, label_entries(ls), ls.len() as nat)->Ok_0[instruction_count(
            ls.take(j),
        ) as int] == InstructionContainer::JFormat(
            JFormat { opcode: c.opcode, dest_addr: (2 * instruction_count(ls.take(i))) as u16 },
        ),
{
    lemma_label_is_its_word(ls[i]);
    assert(words(ls[i])[0].drop_last() =~= words(ls[j])[1]);
    lemma_words_trim(ls[j]);
    lemma_second_word(trim(ls[j]));
    assert forall|k: int|
        i < k < ls.len() && declares_label(#[trigger] ls[k]) implies label_name(ls[k]) != label_name(
        ls[i],
    ) by {
        lemma_label_is_its_word(ls[k]);
        if label_name(ls[k]) == label_name(ls[i]) {
            let wk = words(ls[k])[0];
            let wi = words(ls[i])[0];
            assert(wk =~= wk.drop_last().push(':'));
            assert(wi =~= wi.drop_last().push(':'));
            assert(words(ls[k]) =~= seq![wk]);
            assert(words(ls[i]) =~= seq![wi]);
        }
    }
    lemma_jump_emitted(ls, lks, ops, i, j, c);
}

/// A line whose first characters after its leading white space are `//`
/// is a comment: the assembly pass makes nothing of it, and the label pass
/// gives it no address.
pub proof fn lemma_comment_lines_skipped(
    s: Seq<char>,
    lk: LineLookup,
    ops: SpecialOpcodes,
    table: Seq<(Seq<char>, u16)>,
    k: int,
)
    requires
        0 <= k && k + 2 <= s.len(),
        s[k] == '/' && s[k + 1] == '/',
        forall|i: int| 0 <= i < k ==> #[trigger] is_white_space(s[i]),
    ensures
        !instruction_line(s),
        line_result(s, lk, ops, table) is None,
{
    lemma_comment_is_slashes(s);
    let t = trim(s);
    lemma_comment_is_slashes(t);
    let z: int = 0;
    assert(0 <= z && z + 2 <= t.len() && t[z] == '/' && t[z + 1] == '/' && (forall|i: int|
        0 <= i < z ==> #[trigger] is_white_space(t[i])));
}

} // verus!
