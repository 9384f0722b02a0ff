//! A verified two-pass assembler for the Hack machine: a line normalizer,
//! a macro preprocessor with a stack-based call convention, an instruction
//! parser, a two-pass symbol resolver, and a 16-bit instruction encoder.
//!
//! Each stage carries a specification of exactly what it produces, and the
//! pipeline's laws — fixed predefined addresses, first-occurrence variable
//! allocation, label binding to the next real instruction, and the
//! encode/decode round trip — are proved alongside the code.
pub mod assembler;
pub mod encoder;
pub mod normalize;
pub mod parser;
pub mod preprocessor;
pub mod symbols;
pub mod text;
pub mod types;
