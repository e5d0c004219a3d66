//! Syntax tags and syntax tree views for the [`DECORATE`](https://zdoom.org/wiki/DECORATE)
//! language defined by (G)ZDoom.
//!
//! DECORATE is a data definition language and pseudo-scripting language for
//! creating new game content.

pub mod ast;
mod syn;

pub use ast::Token;
pub use syn::{lemma_trivia_tags, Syn, ROOT_RAW};
