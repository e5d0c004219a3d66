//! Parser and syntax trees for the [`CVARINFO`](https://zdoom.org/wiki/CVARINFO)
//! lump defined by ZDoom-family source ports.
//!
//! Console variables or "CVars" are ZDoom's way of storing user preferences
//! and the de facto solution for persistent storage.

pub mod ast;
pub mod grammar;
mod parse;
mod syn;

use vstd::prelude::*;

pub use ast::Token;
pub use parse::{parse, parse_recov};
pub use syn::{lemma_trivia_tags, Syn, ROOT_RAW};

verus! {

/// A raw parse tree of a CVARINFO file.
pub type RawParseTree = crate::repr::RawParseTree<Syn>;

/// A parse tree of a CVARINFO file, with its cursor.
pub type ParseTree = crate::repr::ParseTree<Syn>;

/// A tree of CVARINFO files.
pub type IncludeTree = crate::repr::IncludeTree<Syn>;

} // verus!
