//! A toolchain for an 8-bit CPU: an instruction parser, a two-pass
//! assembler, an include expander with line provenance, and a compiler
//! from a small C subset to assembly text.
pub mod text;
pub mod parser;
pub mod opcodes;
pub mod assembler;
pub mod expand;
pub mod provenance;
pub mod ctext;
pub mod cparse;
pub mod ccompiler;
pub mod config;
pub mod hw;
pub mod sprites;
pub mod machine;
pub mod eval;
