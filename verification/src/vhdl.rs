//! VHDL: its tokens, and the design units of a source text.

pub mod symbols;
pub mod token;
pub mod tokenizer;
