//! A small stack-based CPU: its assembler and its emulator.
pub mod stack;
pub mod machine;
pub mod text;
pub mod hex;
pub mod tables;
pub mod assembler;
pub mod display;
pub mod laws;
pub mod isa_laws;
pub mod text_laws;
