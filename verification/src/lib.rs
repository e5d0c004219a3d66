//! # `doomfront`
//!
//! Frontends for the domain-specific languages of Doom's source ports.
//!
//! Source text is turned into lossless syntax trees: every byte of the input
//! ends up in exactly one leaf token, whitespace and comments included.
//! [`rowan`] provides the tree representation; the scanners, the grammars and
//! the way trees are put together are this crate's own and are verified.
//!
//! Within this documentation, the term "lump" is used as a catch-all term for
//! a filesystem entry of some kind, whether that be a real file, a WAD archive
//! entry, or some other compressed archive entry.

use vstd::prelude::*;

pub mod builder;
pub mod comb;
pub mod cursor;
pub mod cvarinfo;
pub mod decorate;
pub mod error;
pub mod ext;
pub mod green;
pub mod help;
pub mod mus;
pub mod repr;
pub mod scan;
pub mod text;

pub use error::{ParseError, Reason};
pub use green::ParseOut;
pub use repr::{IncludeTree, ParseTree, RawParseTree};

verus! {

/// A language: a closed range of tags, numbered from zero, with a tag for the
/// root of a tree and one for runs of whitespace.
pub trait LangExt {
    /// The number of the tag given to whitespace tokens.
    const SYN_WHITESPACE: u16;

    /// The number of the tag of the root of a tree. It is the largest that
    /// stands for a tag of the language; no node or token is built with a
    /// larger one.
    const SYN_ROOT: u16;
}

/// A typed view of a node of the cursor tree: a thin wrapper that a node can
/// be cast to if it has the right kind, and that offers what is known of
/// nodes of that kind.
///
/// A grammar may mandate certain elements in certain places, but a parser
/// that recovers from errors will produce broken trees. So what a view
/// offers may ask for more than the cast has tested.
pub trait AstNode: Sized {
    /// Whether a node of the given kind can be cast to this view.
    spec fn castable(kind: u16) -> bool;

    /// The tree that the wrapped node points at.
    spec fn tree(&self) -> green::Tree;

    /// Tests whether a node of the given kind can be cast to this view.
    fn can_cast(kind: rowan::SyntaxKind) -> (yes: bool)
        ensures
            yes == Self::castable(kind.0),
    ;

    /// Wraps the node if it has the right kind.
    fn cast(node: rowan::cursor::SyntaxNode) -> (out: Option<Self>)
        ensures
            out.is_some() == Self::castable(cursor::syntax_node_tree(node).kind()),
            out matches Some(view) ==> view.tree() == cursor::syntax_node_tree(node),
    ;

    /// The node that this view wraps.
    fn syntax(&self) -> (node: &rowan::cursor::SyntaxNode)
        ensures
            cursor::syntax_node_tree(*node) == self.tree(),
    ;
}

/// Trait for language syntaxes that support some kind of comment.
pub trait LangComment {
    /// The number of the tag given to comment tokens.
    const SYN_COMMENT: u16;
}

} // verus!
