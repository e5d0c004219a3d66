//! Helpers that turn what a scanner found into a piece of syntax tree.

use vstd::prelude::*;
use vstd::string::StringSliceAdditionalSpecFns;

use crate::green::{
    green_node, green_token, lemma_forest_text_one, max_text_len, out_forest, out_tree, ParseOut,
    Tree,
};
use crate::text::{is_span, slice};

verus! {

/// The leaf with tag `kind` that covers `text[start..end]`.
pub open spec fn leaf(kind: u16, text: Seq<u8>, start: int, end: int) -> Tree {
    Tree::Token { kind, text: text.subrange(start, end) }
}

/// Builds a token from a syntax tag and the slice `start..end` of the source.
/// This is the one place where source text is copied into a tree.
pub fn map_tok(src: &str, syn: rowan::SyntaxKind, start: usize, end: usize) -> (out: ParseOut)
    requires
        is_span(src.spec_bytes(), start as int, end as int),
    ensures
        out_tree(out) == leaf(syn.0, src.spec_bytes(), start as int, end as int),
{
    rowan::NodeOrToken::Token(green_token(syn, slice(src, start, end)))
}

/// Puts a node or token into a new node with the given tag, as its only
/// child.
pub fn map_node(syn: rowan::SyntaxKind, inner: ParseOut) -> (out: ParseOut)
    requires
        out_tree(inner).text().len() <= max_text_len(),
    ensures
        out_tree(out) == (Tree::Node { kind: syn.0, children: seq![out_tree(inner)] }),
{
    let mut children: Vec<ParseOut> = Vec::new();
    children.push(inner);
    proof {
        assert(out_forest(children@) =~= seq![out_tree(inner)]);
        lemma_forest_text_one(out_tree(inner));
    }
    rowan::NodeOrToken::Node(green_node(syn, children))
}

} // verus!
