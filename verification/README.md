# Stack CPU: verified assembler and emulator

A small stack-based CPU with an assembler for it.

- `src/` is the verified library (Verus):
  - `text.rs`: comment removal and whitespace tokenization of assembler source;
  - `hex.rs`: hexadecimal immediates;
  - `tables.rs`: the label and label-reference tables;
  - `assembler.rs`: the assembler (`assemble`, `assemble_recursive`) and its
    specification `spec_assemble`;
  - `stack.rs`: the stack primitives (`psh`, `pop`, `set`, `get`,
    `binary_op`, `unary_op`);
  - `machine.rs`: the CPU as a state machine (`Machine::execute`, `advance`,
    `provide_input`, `finish`) with its specification `spec_execute`;
  - `display.rs`: the text drawing of the 32x32 display;
  - `laws.rs`: properties spanning several operations.
- `app/` is the command line: `asm <file>` writes `<file>.bin`, `emu <file>`
  runs it, doing the file and terminal work and driving the CPU loop.
- `tests/` exercises the library on concrete programs.

Arithmetic wraps, as in an optimized (release) build of the tools.
