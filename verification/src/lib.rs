//! A verified core for a small two-pass assembler: it classifies source
//! lines, collects jump labels into a symbol table, decodes register and
//! immediate operands, fills instruction containers and lays the encoded
//! words out as big-endian bytes.

pub mod text;
pub mod errors;
pub mod operands;
pub mod symbols;
pub mod instruction;
pub mod assembler;
pub mod output;
