//! The assembler core: the parsed-item stream model and the fixed-point
//! linker that turns it into a word image.

pub mod linker;
pub mod types;
