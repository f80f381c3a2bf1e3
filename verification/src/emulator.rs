//! The emulator core: the CPU state, its stepping semantics, and the
//! device bus it reports hardware access through.

pub mod cpu;
