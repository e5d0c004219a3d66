//! The immutable syntax tree of [`rowan`] and what the rest of the crate
//! knows of it.
//!
//! A [`rowan::GreenNode`] is opaque here. Contracts speak of the [`Tree`]
//! that a node or token stands for: a kind and either a text or an ordered
//! list of child trees.

use vstd::prelude::*;
use vstd::string::StringSliceAdditionalSpecFns;

verus! {

/// `rowan::SyntaxKind`, the number of a tag. Its one field is public and is
/// read as it is.
#[verifier::external_type_specification]
pub struct ExSyntaxKind(rowan::SyntaxKind);

/// `rowan::GreenToken`, a leaf of the immutable tree. Nothing is known of
/// its inside but what [`token_kind`] and [`token_text`] name.
#[verifier::external_type_specification]
#[verifier::external_body]
pub struct ExGreenToken(rowan::GreenToken);

/// `rowan::GreenNode`, an inner node of the immutable tree. Nothing is known
/// of its inside but what [`node_kind`] and [`node_children`] name.
#[verifier::external_type_specification]
#[verifier::external_body]
pub struct ExGreenNode(rowan::GreenNode);

/// `rowan::NodeOrToken`, either a node or a token. Its two variants are
/// public and are read as they are.
#[verifier::external_type_specification]
#[verifier::reject_recursive_types(N)]
#[verifier::reject_recursive_types(T)]
pub struct ExNodeOrToken<N, T>(rowan::NodeOrToken<N, T>);

/// What every parser hands out: a finished subtree or a single leaf.
pub type ParseOut = rowan::NodeOrToken<rowan::GreenNode, rowan::GreenToken>;

/// A lossless syntax tree as a mathematical value.
///
/// Text is held as the UTF-8 bytes of the source that a token covers.
pub ghost enum Tree {
    /// A leaf: a tag and the text it owns.
    Token { kind: u16, text: Seq<u8> },
    /// An inner node: a tag and its children, in source order.
    Node { kind: u16, children: Seq<Tree> },
}

impl Tree {
    /// The tag of the root of this tree.
    pub open spec fn kind(self) -> u16 {
        match self {
            Tree::Token { kind, .. } => kind,
            Tree::Node { kind, .. } => kind,
        }
    }

    /// The source text that this tree covers: its leaves' texts, in order.
    pub open spec fn text(self) -> Seq<u8>
        decreases self,
    {
        match self {
            Tree::Token { text, .. } => text,
            Tree::Node { children, .. } => forest_text(children),
        }
    }

    /// Whether every leaf of the tree holds some text: no token is empty.
    pub open spec fn leaves_filled(self) -> bool
        decreases self,
    {
        match self {
            Tree::Token { text, .. } => text.len() > 0,
            Tree::Node { children, .. } => forall|i: int|
                0 <= i < children.len() ==> (#[trigger] children[i]).leaves_filled(),
        }
    }

    /// The children of an inner node; a leaf has none.
    pub open spec fn children(self) -> Seq<Tree> {
        match self {
            Tree::Token { .. } => Seq::empty(),
            Tree::Node { children, .. } => children,
        }
    }
}

/// The text that a list of sibling trees covers.
pub open spec fn forest_text(forest: Seq<Tree>) -> Seq<u8>
    decreases forest,
{
    if forest.len() == 0 {
        Seq::empty()
    } else {
        forest_text(forest.drop_last()) + forest.last().text()
    }
}

/// Whether every leaf of every tree of the list holds some text.
pub open spec fn forest_filled(forest: Seq<Tree>) -> bool {
    forall|i: int| 0 <= i < forest.len() ==> (#[trigger] forest[i]).leaves_filled()
}

/// The kind of a token of [`rowan`].
pub uninterp spec fn token_kind(token: rowan::GreenToken) -> u16;

/// The text of a token of [`rowan`], as UTF-8 bytes.
pub uninterp spec fn token_text(token: rowan::GreenToken) -> Seq<u8>;

/// The kind of a node of [`rowan`].
pub uninterp spec fn node_kind(node: rowan::GreenNode) -> u16;

/// The children of a node of [`rowan`], in order.
pub uninterp spec fn node_children(node: rowan::GreenNode) -> Seq<Tree>;

/// The tree that a token stands for.
pub open spec fn token_tree(token: rowan::GreenToken) -> Tree {
    Tree::Token { kind: token_kind(token), text: token_text(token) }
}

/// The tree that a node stands for.
pub open spec fn node_tree(node: rowan::GreenNode) -> Tree {
    Tree::Node { kind: node_kind(node), children: node_children(node) }
}

/// The tree that a parser's output stands for.
pub open spec fn out_tree(out: ParseOut) -> Tree {
    match out {
        rowan::NodeOrToken::Node(node) => node_tree(node),
        rowan::NodeOrToken::Token(token) => token_tree(token),
    }
}

/// The trees that a list of outputs stands for.
pub open spec fn out_forest(outs: Seq<ParseOut>) -> Seq<Tree> {
    Seq::new(outs.len(), |i: int| out_tree(outs[i]))
}

/// The longest text that a node of [`rowan`] can cover: it counts the bytes
/// in 32 bits.
pub open spec fn max_text_len() -> nat {
    0xFFFF_FFFF
}

/// Calls `rowan::GreenToken::new`. The new token has the kind and the text
/// that it was given.
#[verifier::external_body]
pub(crate) fn green_token(kind: rowan::SyntaxKind, text: &str) -> (token: rowan::GreenToken)
    ensures
        token_kind(token) == kind.0,
        token_text(token) == text.spec_bytes(),
{
    rowan::GreenToken::new(kind, text)
}

/// Calls `rowan::GreenNode::new`. The new node has the kind that it was given
/// and the given elements as its children, in their order. The text of all
/// children together has to fit the 32-bit length that the node records.
#[verifier::external_body]
pub(crate) fn green_node(kind: rowan::SyntaxKind, children: Vec<ParseOut>) -> (node:
    rowan::GreenNode)
    requires
        forest_text(out_forest(children@)).len() <= max_text_len(),
    ensures
        node_kind(node) == kind.0,
        node_children(node) == out_forest(children@),
{
    rowan::GreenNode::new(kind, children)
}

/// A tree added at the end adds its text at the end.
pub proof fn lemma_forest_text_push(forest: Seq<Tree>, tree: Tree)
    ensures
        forest_text(forest.push(tree)) == forest_text(forest) + tree.text(),
{
    assert(forest.push(tree).drop_last() == forest);
}

/// Two lists of trees without an empty leaf make one in a row.
pub proof fn lemma_forest_filled_concat(left: Seq<Tree>, right: Seq<Tree>)
    requires
        forest_filled(left),
        forest_filled(right),
    ensures
        forest_filled(left + right),
{
    let all = left + right;
    assert forall|i: int| 0 <= i < all.len() implies (#[trigger] all[i]).leaves_filled() by {
        if i < left.len() {
            assert(all[i] == left[i]);
        } else {
            assert(all[i] == right[i - left.len()]);
        }
    }
}

/// A single tree covers its own text.
pub proof fn lemma_forest_text_one(tree: Tree)
    ensures
        forest_text(seq![tree]) == tree.text(),
{
    assert(seq![tree] =~= Seq::<Tree>::empty().push(tree));
    lemma_forest_text_push(Seq::<Tree>::empty(), tree);
}

/// The text of two lists of trees in a row is the text of the first followed
/// by the text of the second.
pub proof fn lemma_forest_text_concat(left: Seq<Tree>, right: Seq<Tree>)
    ensures
        forest_text(left + right) == forest_text(left) + forest_text(right),
    decreases right.len(),
{
    if right.len() == 0 {
        assert(left + right == left);
    } else {
        assert((left + right).drop_last() == left + right.drop_last());
        lemma_forest_text_concat(left, right.drop_last());
    }
}

} // verus!
