//! A toolchain core for the DCPU-16, a 16-bit word-addressed processor:
//! the instruction model, the bit-exact encoder and decoder, the label
//! expression evaluator, the two-pass fixed-point linker, and the stepping
//! CPU interpreter.

pub mod types;
pub mod codec;
pub mod assembler;
pub mod emulator;
