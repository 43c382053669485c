//! Parse annotated wat into wasm object files with `linking` and `reloc.CODE`
//! custom sections.
//!
//! The main entry point is [`parse_rwat`], which accepts wat source using the
//! `(@rwat)`, `(@sym)`, and `(@reloc)` annotations and returns encoded wasm
//! bytes suitable for linking with tools such as `wasm-ld`.

pub mod leb;
pub mod error;
pub mod types;
pub mod reloc;
pub mod text;
pub mod code;
mod encoder;
pub mod keys;
pub mod link;
pub mod token;
pub mod scan;
pub mod lex;
pub mod parse;
pub mod wat;
pub mod binary;
pub mod emit;
pub mod symbols;
pub mod cli;
pub use parse::parse_rwat;
