# brookshear

An assembler and emulator for the extended Brookshear machine, written in
Verus: the library's functions carry `requires`/`ensures` contracts over
mathematical models, and Verus proves the code against them.

## Layout

- `src/` — the verified library.
  - `lexer.rs`, `parser.rs`, `ast.rs` — assembly source to tokens to lines,
    with the lexer and the grammar stated as spec functions over bytes.
  - `convert.rs`, `serialize.rs`, `table.rs` — lines to instructions, the
    layout of code and data in memory, named constants and their evaluation,
    the binary image and the text listing.
  - `structured_instruction.rs`, `instruction_text.rs`, `common.rs` — the
    instruction set: decoding, encoding, disassembly and descriptions.
  - `machine.rs`, `float8.rs` — the machine: fetch, execute, step, and undo
    of steps; the 8-bit floating-point format.
  - `errors.rs` — the text of parse and assembly errors, and error reports.
  - `display.rs`, `ansi.rs`, `controls.rs`, `windows.rs` — the emulator's
    bitmap display, coloured terminal text, and the decisions behind its
    controls and windows.
- `tests/` — tests run against the compiled library.
- `app/` — the command-line assembler, and what needs floating point or
  the outside crates' traits (error suggestions ranked by similarity,
  conversions between 8-bit floats and `f32`, reading coloured text).
