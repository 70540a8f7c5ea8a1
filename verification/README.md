# smis_assembler

A verified core for a two-pass assembler of a small 32-bit instruction set.

- `src/text.rs` — whitespace, words of a line, trimming, and which lines are
  blank, comments or labels.
- `src/operands.rs` — decimal numbers, register (`R0`..`R15`, `RZR`, `RSP`,
  `RBP`, `RLR`) and immediate (`#n`) operands, the mnemonic.
- `src/symbols.rs` — the symbol table of labels and addresses.
- `src/instruction.rs` — R, I and J format containers and how a line fills them.
- `src/assembler.rs` — the label pass and the assembly pass over the source lines.
- `src/output.rs` — file-name checks and the big-endian bytes of the machine code.
- `src/errors.rs` — the error types.
- `app/lib.rs` — file I/O, and the calls into the instruction set (opcodes,
  empty containers, encodings), which the library takes as plain values.
