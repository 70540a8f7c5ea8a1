//! Operands of an instruction line: decimal numbers, registers, immediates
//! and the mnemonic.
use vstd::prelude::*;
use crate::errors::{ImmediateParseError, MnemonicParseError, RegisterParseError};
use crate::text::{chars_of, get_word, split_words, trim, trim_line, words};

verus! {

/// An ASCII decimal digit.
pub open spec fn is_digit(c: char) -> bool {
    '0' <= c && c <= '9'
}

/// Every character of `d` is an ASCII decimal digit.
pub open spec fn all_digits(d: Seq<char>) -> bool {
    forall|i: int| 0 <= i < d.len() ==> #[trigger] is_digit(d[i])
}

/// The digits of an unsigned number's text: `s` without a leading `+`.
pub open spec fn unsigned_digits(s: Seq<char>) -> Seq<char> {
    if s.len() > 0 && s[0] == '+' {
        s.drop_first()
    } else {
        s
    }
}

/// The value of the decimal digits `d` (most significant first).
pub open spec fn digits_value(d: Seq<char>) -> int
    decreases d.len(),
{
    if d.len() == 0 {
        0
    } else {
        digits_value(d.drop_last()) * 10 + (d.last() as int - '0' as int)
    }
}

/// What `str::parse` gives for an unsigned integer type whose largest value
/// is `max`: an optional `+`, then one or more ASCII digits whose value is
/// at most `max`; anything else (a sign alone, `-`, white space, overflow)
/// is refused.
pub open spec fn parse_unsigned(s: Seq<char>, max: int) -> Option<int> {
    let d = unsigned_digits(s);
    if d.len() > 0 && all_digits(d) && digits_value(d) <= max {
        Some(digits_value(d))
    } else {
        None
    }
}

/// The register that the operand text `s` names: the aliases `RZR` (0),
/// `RSP` (15), `RBP` (14), `RLR` (13), or `R` followed by a number 0 to 15.
pub open spec fn register_number(s: Seq<char>) -> Result<u8, RegisterParseError> {
    if s == seq!['R', 'Z', 'R'] {
        Ok(0)
    } else if s == seq!['R', 'S', 'P'] {
        Ok(15)
    } else if s == seq!['R', 'B', 'P'] {
        Ok(14)
    } else if s == seq!['R', 'L', 'R'] {
        Ok(13)
    } else if s.len() == 0 || s[0] != 'R' {
        Err(RegisterParseError::ErrorInvalidPrefix)
    } else {
        match parse_unsigned(s.drop_first(), 255) {
            None => Err(RegisterParseError::ErrorNonNumeric),
            Some(n) => if n > 15 {
                Err(RegisterParseError::ErrorNumberOutOfBounds)
            } else {
                Ok(n as u8)
            },
        }
    }
}

/// The value that the operand text `s` gives: `#` followed by a number that
/// fits in 16 bits.
pub open spec fn immediate_value(s: Seq<char>) -> Result<u16, ImmediateParseError> {
    if s.len() == 0 || s[0] != '#' {
        Err(ImmediateParseError::ErrorInvalidPrefix)
    } else {
        match parse_unsigned(s.drop_first(), 65535) {
            None => Err(ImmediateParseError::ErrorNonNumeric),
            Some(n) => Ok(n as u16),
        }
    }
}

/// The register operand at word `index` of the instruction text `s`.
pub open spec fn register_operand(s: Seq<char>, index: int) -> Result<u8, RegisterParseError> {
    if 0 <= index < words(s).len() {
        register_number(words(s)[index])
    } else {
        Err(RegisterParseError::ErrorMissingRegisterOperand)
    }
}

/// The immediate operand of the instruction text `s`: its last word.
pub open spec fn immediate_operand(s: Seq<char>) -> Result<u16, ImmediateParseError> {
    if words(s).len() > 0 {
        immediate_value(words(s).last())
    } else {
        Err(ImmediateParseError::ErrorMissingImmediateOperand)
    }
}

/// The opcode of the instruction text `s`, given `lookup`, the opcode that
/// the instruction set assigns to its first word (`None` where it assigns none).
pub open spec fn opcode_of(s: Seq<char>, lookup: Option<u8>) -> Result<u8, MnemonicParseError> {
    if words(s).len() == 0 {
        Err(MnemonicParseError::ErrorMissingMnemonic)
    } else {
        match lookup {
            Some(op) => Ok(op),
            None => Err(MnemonicParseError::ErrorUnknownMnemonic),
        }
    }
}

/// A prefix of a digit string never has a larger value than the whole.
proof fn lemma_digits_value_prefix(d: Seq<char>, k: int)
    requires
        0 <= k <= d.len(),
        forall|i: int| 0 <= i < d.len() ==> #[trigger] is_digit(d[i]),
    ensures
        0 <= digits_value(d.take(k)) <= digits_value(d),
    decreases d.len(),
{
    if k == d.len() {
        assert(d.take(k) =~= d);
        if d.len() > 0 {
            lemma_digits_value_prefix(d.drop_last(), k - 1);
            assert(d.drop_last().take(k - 1) =~= d.drop_last());
            assert(is_digit(d.last()));
        }
    } else {
        let p = d.drop_last();
        assert forall|i: int| 0 <= i < p.len() implies #[trigger] is_digit(p[i]) by {
            assert(p[i] == d[i]);
        }
        lemma_digits_value_prefix(p, k);
        assert(p.take(k) =~= d.take(k));
        assert(is_digit(d[d.len() - 1]));
    }
}

/// Parses `v[from..]` as an unsigned decimal number no larger than `max`,
/// as `str::parse` does for an unsigned integer type.
fn parse_unsigned_chars(v: &Vec<char>, from: usize, max: u32) -> (r: Option<u32>)
    requires
        from <= v.len(),
        max <= 65535,
    ensures
        r matches Some(n) ==> parse_unsigned(v@.skip(from as int), max as int) == Some(n as int),
        r is None ==> parse_unsigned(v@.skip(from as int), max as int) is None,
{
    let ghost s = v@.skip(from as int);
    let mut start = from;
    if from < v.len() && v[from] == '+' {
        start = from + 1;
    }
    let ghost d = v@.skip(start as int);
    assert(d =~= unsigned_digits(s));
    if start == v.len() {
        return None;
    }
    let mut acc: u32 = 0;
    let mut i = start;
    while i < v.len()
        invariant
            start <= i <= v.len(),
            d == v@.skip(start as int),
            s == v@.skip(from as int),
            d == unsigned_digits(s),
            acc as int == digits_value(d.take(i - start)),
            acc <= max <= 65535,
            forall|j: int| 0 <= j < i - start ==> #[trigger] is_digit(d[j]),
        decreases v.len() - i,
    {
        let c = v[i];
        assert(d[i - start] == c);
        if !('0' <= c && c <= '9') {
            assert(!is_digit(d[i - start]));
            assert(!all_digits(d));
            return None;
        }
        let dv = (c as u32) - ('0' as u32);
        assert(d.take(i - start + 1).drop_last() =~= d.take(i - start));
        let next = acc * 10 + dv;
        if next > max {
            proof {
                assert forall|j: int| 0 <= j < i - start + 1 implies #[trigger] is_digit(d[j]) by {
                }
                if all_digits(d) {
                    lemma_digits_value_prefix(d, i - start + 1);
                }
            }
            return None;
        }
        acc = next;
        i = i + 1;
    }
    assert(d.take(i - start) =~= d);
    Some(acc)
}

/// The register that the characters `v` name.
fn register_from_chars(v: &Vec<char>) -> (r: Result<u8, RegisterParseError>)
    ensures
        r == register_number(v@),
{
    if v.len() == 3 && v[0] == 'R' {
        if v[1] == 'Z' && v[2] == 'R' {
            assert(v@ =~= seq!['R', 'Z', 'R']);
            return Ok(0);
        } else if v[1] == 'S' && v[2] == 'P' {
            assert(v@ =~= seq!['R', 'S', 'P']);
            return Ok(15);
        } else if v[1] == 'B' && v[2] == 'P' {
            assert(v@ =~= seq!['R', 'B', 'P']);
            return Ok(14);
        } else if v[1] == 'L' && v[2] == 'R' {
            assert(v@ =~= seq!['R', 'L', 'R']);
            return Ok(13);
        }
    }
    assert(v@ != seq!['R', 'Z', 'R'] && v@ != seq!['R', 'S', 'P'] && v@ != seq!['R', 'B', 'P']
        && v@ != seq!['R', 'L', 'R']) by {
        if v@.len() == 3 {
            assert(seq!['R', 'Z', 'R'][0] == 'R');
            assert(seq!['R', 'Z', 'R'][1] == 'Z');
            assert(seq!['R', 'Z', 'R'][2] == 'R');
            assert(seq!['R', 'S', 'P'][1] == 'S');
            assert(seq!['R', 'S', 'P'][2] == 'P');
            assert(seq!['R', 'B', 'P'][1] == 'B');
            assert(seq!['R', 'B', 'P'][2] == 'P');
            assert(seq!['R', 'L', 'R'][1] == 'L');
            assert(seq!['R', 'L', 'R'][2] == 'R');
        }
    }
    if v.len() == 0 || v[0] != 'R' {
        return Err(RegisterParseError::ErrorInvalidPrefix);
    }
    assert(v@.skip(1) =~= v@.drop_first());
    match parse_unsigned_chars(v, 1, 255) {
        None => Err(RegisterParseError::ErrorNonNumeric),
        Some(n) => if n > 15 {
            Err(RegisterParseError::ErrorNumberOutOfBounds)
        } else {
            Ok(n as u8)
        },
    }
}

/// The value of the immediate operand written as the characters `v`.
fn immediate_from_chars(v: &Vec<char>) -> (r: Result<u16, ImmediateParseError>)
    ensures
        r == immediate_value(v@),
{
    if v.len() == 0 || v[0] != '#' {
        return Err(ImmediateParseError::ErrorInvalidPrefix);
    }
    assert(v@.skip(1) =~= v@.drop_first());
    match parse_unsigned_chars(v, 1, 65535) {
        None => Err(ImmediateParseError::ErrorNonNumeric),
        Some(n) => Ok(n as u16),
    }
}

/// Parses a register operand such as `R7` or `RSP` into its number (0 to 15).
pub fn parse_register(register: &str) -> (r: Result<u8, RegisterParseError>)
    ensures
        r == register_number(register@),
{
    let v = chars_of(register);
    register_from_chars(&v)
}

/// Parses an immediate operand such as `#42` into its 16-bit value.
pub fn parse_immediate(immediate: &str) -> (r: Result<u16, ImmediateParseError>)
    ensures
        r == immediate_value(immediate@),
{
    let v = chars_of(immediate);
    immediate_from_chars(&v)
}

/// The register operand at word `index` of the instruction characters `v`.
pub fn register_at(v: &Vec<char>, index: usize) -> (r: Result<u8, RegisterParseError>)
    ensures
        r == register_operand(v@, index as int),
{
    let ws = split_words(v);
    if index < ws.len() {
        register_from_chars(&ws[index])
    } else {
        Err(RegisterParseError::ErrorMissingRegisterOperand)
    }
}

/// The immediate operand (the last word) of the instruction characters `v`.
pub fn immediate_at_end(v: &Vec<char>) -> (r: Result<u16, ImmediateParseError>)
    ensures
        r == immediate_operand(v@),
{
    let ws = split_words(v);
    if ws.len() > 0 {
        immediate_from_chars(&ws[ws.len() - 1])
    } else {
        Err(ImmediateParseError::ErrorMissingImmediateOperand)
    }
}

/// The register operand at word `index` of `instruction`.
pub fn get_register(instruction: &str, index: usize) -> (r: Result<u8, RegisterParseError>)
    ensures
        r == register_operand(instruction@, index as int),
{
    let v = chars_of(instruction);
    register_at(&v, index)
}

/// The immediate operand of `instruction`: its last word. An instruction
/// with no word at all has no last word to read.
pub fn get_immediate(instruction: &str) -> (r: Result<u16, ImmediateParseError>)
    requires
        words(instruction@).len() > 0,
    ensures
        r == immediate_operand(instruction@),
{
    let v = chars_of(instruction);
    immediate_at_end(&v)
}

/// The opcode of the instruction characters `v`, where `lookup` is the
/// opcode that the instruction set assigns to their first word.
pub fn opcode_from_chars(v: &Vec<char>, lookup: Option<u8>) -> (r: Result<u8, MnemonicParseError>)
    ensures
        r == opcode_of(v@, lookup),
{
    if split_words(v).len() == 0 {
        Err(MnemonicParseError::ErrorMissingMnemonic)
    } else {
        match lookup {
            Some(op) => Ok(op),
            None => Err(MnemonicParseError::ErrorUnknownMnemonic),
        }
    }
}

/// The mnemonic of `line`: the first word of its trimmed text, if any.
pub fn line_mnemonic(line: &str) -> (m: Option<Vec<char>>)
    ensures
        words(trim(line@)).len() > 0 ==> m is Some && m->0@ == words(trim(line@))[0],
        words(trim(line@)).len() == 0 ==> m is None,
{
    let t = trim_line(line);
    let ws = split_words(&t);
    if ws.len() > 0 {
        Some(ws[0].clone())
    } else {
        None
    }
}

/// The opcode of `instruction`, where `lookup` is the opcode that the
/// instruction set assigns to its first word (`None` where it assigns none).
pub fn parse_opcode(instruction: &str, lookup: Option<u8>) -> (r: Result<u8, MnemonicParseError>)
    ensures
        r == opcode_of(instruction@, lookup),
{
    match get_word(instruction, 0) {
        None => Err(MnemonicParseError::ErrorMissingMnemonic),
        Some(_) => match lookup {
            Some(op) => Ok(op),
            None => Err(MnemonicParseError::ErrorUnknownMnemonic),
        },
    }
}

/// The character of the decimal digit `d` (0 to 9).
pub open spec fn digit_char(d: nat) -> char {
    ('0' as int + d) as char
}

/// The decimal text of `n`, without sign or leading zeros.
pub open spec fn decimal(n: nat) -> Seq<char>
    decreases n,
{
    if n < 10 {
        seq![digit_char(n)]
    } else {
        decimal(n / 10).push(digit_char(n % 10))
    }
}

/// The decimal text of `n` is nonempty, all digits, and worth `n`.
pub proof fn lemma_decimal(n: nat)
    ensures
        decimal(n).len() > 0,
        all_digits(decimal(n)),
        is_digit(decimal(n)[0]),
        digits_value(decimal(n)) == n,
    decreases n,
{
    lemma_digit_char(n % 10);
    if n < 10 {
        let s = decimal(n);
        assert(s.drop_last() =~= Seq::<char>::empty());
        assert(n % 10 == n);
        assert(s.last() == digit_char(n));
        assert(digits_value(s) == digits_value(s.drop_last()) * 10 + (s.last() as int - '0' as int));
    } else {
        lemma_decimal(n / 10);
        let p = decimal(n / 10);
        let s = decimal(n);
        assert(s.drop_last() =~= p);
        assert forall|i: int| 0 <= i < s.len() implies #[trigger] is_digit(s[i]) by {
            if i < p.len() {
                assert(s[i] == p[i]);
            }
        }
        assert(s[0] == p[0]);
        assert(n == (n / 10) * 10 + n % 10);
        assert(s.last() == digit_char(n % 10));
        assert(digits_value(s) == digits_value(p) * 10 + (s.last() as int - '0' as int));
    }
}

/// Every register number from 0 to 15, written `R` and its decimal text,
/// parses back to itself.
pub proof fn lemma_register_roundtrip(n: nat)
    requires
        n <= 15,
    ensures
        register_number(seq!['R'] + decimal(n)) == Ok::<u8, RegisterParseError>(n as u8),
{
    lemma_decimal(n);
    let s = seq!['R'] + decimal(n);
    assert(s.drop_first() =~= decimal(n));
    assert(s[0] == 'R');
    assert(s[1] == decimal(n)[0]);
    assert(s != seq!['R', 'Z', 'R'] && s != seq!['R', 'S', 'P'] && s != seq!['R', 'B', 'P'] && s
        != seq!['R', 'L', 'R']) by {
        assert(seq!['R', 'Z', 'R'][1] == 'Z');
        assert(seq!['R', 'S', 'P'][1] == 'S');
        assert(seq!['R', 'B', 'P'][1] == 'B');
        assert(seq!['R', 'L', 'R'][1] == 'L');
    }
    assert(unsigned_digits(decimal(n)) == decimal(n));
}

/// A register number written `R` and its decimal text is refused when it
/// is past 15: as out of bounds while it fits in a byte, as not numeric
/// beyond.
pub proof fn lemma_register_too_large(n: nat)
    requires
        n > 15,
    ensures
        n <= 255 ==> register_number(seq!['R'] + decimal(n)) == Err::<u8, RegisterParseError>(
            RegisterParseError::ErrorNumberOutOfBounds,
        ),
        n > 255 ==> register_number(seq!['R'] + decimal(n)) == Err::<u8, RegisterParseError>(
            RegisterParseError::ErrorNonNumeric,
        ),
{
    lemma_decimal(n);
    let s = seq!['R'] + decimal(n);
    assert(s.drop_first() =~= decimal(n));
    assert(s[0] == 'R');
    assert(s[1] == decimal(n)[0]);
    assert(s != seq!['R', 'Z', 'R'] && s != seq!['R', 'S', 'P'] && s != seq!['R', 'B', 'P'] && s
        != seq!['R', 'L', 'R']) by {
        assert(seq!['R', 'Z', 'R'][1] == 'Z');
        assert(seq!['R', 'S', 'P'][1] == 'S');
        assert(seq!['R', 'B', 'P'][1] == 'B');
        assert(seq!['R', 'L', 'R'][1] == 'L');
    }
    assert(unsigned_digits(decimal(n)) == decimal(n));
}

/// Every 16-bit value, written `#` and its decimal text, parses back to itself.
pub proof fn lemma_immediate_roundtrip(n: u16)
    ensures
        immediate_value(seq!['#'] + decimal(n as nat)) == Ok::<u16, ImmediateParseError>(n),
{
    lemma_decimal(n as nat);
    let s = seq!['#'] + decimal(n as nat);
    assert(s.drop_first() =~= decimal(n as nat));
    assert(unsigned_digits(decimal(n as nat)) == decimal(n as nat));
}

/// A register that parses is one of 0 to 15.
pub proof fn lemma_register_in_range(s: Seq<char>)
    ensures
        register_number(s) matches Ok(r) ==> r <= 15,
{
    if s.len() > 0 {
        let d = unsigned_digits(s.drop_first());
        if all_digits(d) {
            lemma_digits_value_prefix(d, d.len() as int);
            assert(d.take(d.len() as int) =~= d);
        }
    }
}

/// The character of a decimal digit is a digit worth that much.
proof fn lemma_digit_char(d: nat)
    requires
        d < 10,
    ensures
        is_digit(digit_char(d)),
        digit_char(d) as int - '0' as int == d,
{
}

} // verus!
