//! The cursor tree of [`rowan`]: a view of a syntax tree in which every node
//! and token knows its parent and its place in the text.
//!
//! A cursor is built from an immutable tree when someone wants to walk it. It
//! is made for one thread: hand the immutable tree over and build the cursor
//! where it is used.
//!
//! Cursors are opaque here. Contracts speak of the [`Tree`] that a cursor
//! points at. The cursor trees that this crate builds are immutable; what is
//! said of a cursor holds as long as its tree is not changed through
//! `rowan`'s interface for mutable trees.

use vstd::prelude::*;
use vstd::string::StringSliceAdditionalSpecFns;

use crate::green::{node_tree, Tree};

verus! {

/// `rowan::cursor::SyntaxNode`, a node of the cursor tree. Nothing is known
/// of its inside but what [`syntax_node_tree`] names.
#[verifier::external_type_specification]
#[verifier::external_body]
pub struct ExSyntaxNode(rowan::cursor::SyntaxNode);

/// `rowan::cursor::SyntaxToken`, a token of the cursor tree. Nothing is
/// known of its inside but what [`syntax_token_tree`] names.
#[verifier::external_type_specification]
#[verifier::external_body]
pub struct ExSyntaxToken(rowan::cursor::SyntaxToken);

/// A child of a node of the cursor tree.
pub type SyntaxElement = rowan::NodeOrToken<rowan::cursor::SyntaxNode, rowan::cursor::SyntaxToken>;

/// The tree that a node of the cursor tree points at.
pub uninterp spec fn syntax_node_tree(node: rowan::cursor::SyntaxNode) -> Tree;

/// The leaf that a token of the cursor tree points at.
pub uninterp spec fn syntax_token_tree(token: rowan::cursor::SyntaxToken) -> Tree;

/// The tree that a child of a node points at.
pub open spec fn element_tree(element: SyntaxElement) -> Tree {
    match element {
        rowan::NodeOrToken::Node(node) => syntax_node_tree(node),
        rowan::NodeOrToken::Token(token) => syntax_token_tree(token),
    }
}

/// The trees that a list of children points at.
pub open spec fn element_forest(elements: Seq<SyntaxElement>) -> Seq<Tree> {
    Seq::new(elements.len(), |i: int| element_tree(elements[i]))
}

/// The last leaf of a tree as the cursor finds it: it goes down from the
/// root, at each node to the last child, and gives up at a node without
/// children.
pub open spec fn last_leaf(tree: Tree) -> Option<Tree>
    decreases tree,
{
    match tree {
        Tree::Token { .. } => Some(tree),
        Tree::Node { children, .. } => if children.len() == 0 {
            None
        } else {
            last_leaf(children.last())
        },
    }
}

/// The first leaf of a tree as the cursor finds it: it goes down from the
/// root, at each node to the first child, and gives up at a node without
/// children.
pub open spec fn first_leaf(tree: Tree) -> Option<Tree>
    decreases tree,
{
    match tree {
        Tree::Token { .. } => Some(tree),
        Tree::Node { children, .. } => if children.len() == 0 {
            None
        } else {
            first_leaf(children.first())
        },
    }
}

/// `clone` of a node of the cursor tree: the copy points at the same tree.
pub assume_specification[ <rowan::cursor::SyntaxNode as Clone>::clone ](
    node: &rowan::cursor::SyntaxNode,
) -> (copy: rowan::cursor::SyntaxNode)
    ensures
        syntax_node_tree(copy) == syntax_node_tree(*node),
;

/// `clone` of a token of the cursor tree: the copy points at the same leaf.
pub assume_specification[ <rowan::cursor::SyntaxToken as Clone>::clone ](
    token: &rowan::cursor::SyntaxToken,
) -> (copy: rowan::cursor::SyntaxToken)
    ensures
        syntax_token_tree(copy) == syntax_token_tree(*token),
;

/// Calls `clone` on a node of the immutable tree. The clone shares the
/// node and so stands for the same tree.
#[verifier::external_body]
pub(crate) fn green_clone(node: &rowan::GreenNode) -> (copy: rowan::GreenNode)
    ensures
        node_tree(copy) == node_tree(*node),
{
    node.clone()
}

/// Calls `rowan::cursor::SyntaxNode::new_root`: the root of a cursor tree
/// over the given tree.
#[verifier::external_body]
pub(crate) fn new_root(green: rowan::GreenNode) -> (root: rowan::cursor::SyntaxNode)
    ensures
        syntax_node_tree(root) == node_tree(green),
{
    rowan::cursor::SyntaxNode::new_root(green)
}

/// Calls `rowan::cursor::SyntaxNode::kind`: the kind of the node pointed at.
#[verifier::external_body]
pub(crate) fn node_kind(node: &rowan::cursor::SyntaxNode) -> (kind: rowan::SyntaxKind)
    ensures
        kind.0 == syntax_node_tree(*node).kind(),
{
    node.kind()
}

/// Calls `rowan::cursor::SyntaxNode::children_with_tokens` and gathers what
/// it yields: a cursor for each child of the node, nodes and tokens alike,
/// in their order. What a node of the cursor tree points at is a node.
#[verifier::external_body]
pub(crate) fn children_with_tokens(node: &rowan::cursor::SyntaxNode) -> (children: Vec<
    SyntaxElement,
>)
    ensures
        syntax_node_tree(*node) == (Tree::Node {
            kind: syntax_node_tree(*node).kind(),
            children: element_forest(children@),
        }),
        forall|i: int|
            0 <= i < children@.len() ==> (#[trigger] children@[i] is Node) == (element_tree(
                children@[i],
            ) is Node),
{
    node.children_with_tokens().collect()
}

/// Calls `rowan::cursor::SyntaxToken::kind`: the kind of the token pointed
/// at.
#[verifier::external_body]
pub(crate) fn token_kind(token: &rowan::cursor::SyntaxToken) -> (kind: rowan::SyntaxKind)
    ensures
        kind.0 == syntax_token_tree(*token).kind(),
{
    token.kind()
}

/// Calls `rowan::cursor::SyntaxToken::text`: the text of the token pointed
/// at.
#[verifier::external_body]
pub(crate) fn token_text(token: &rowan::cursor::SyntaxToken) -> (text: &str)
    ensures
        text.spec_bytes() == syntax_token_tree(*token).text(),
{
    token.text()
}

/// Whether `tree` is what a search among children is after: a node or a
/// token, as `node` says, of one of the given kinds.
pub open spec fn is_pick(tree: Tree, node: bool, kinds: Seq<u16>) -> bool {
    (tree is Node) == node && kinds.contains(tree.kind())
}

/// The place of the first tree from the `from`-th on that [`is_pick`] holds
/// of.
pub open spec fn first_pick(forest: Seq<Tree>, from: int, node: bool, kinds: Seq<u16>) -> Option<
    int,
>
    decreases forest.len() - from,
{
    if from < 0 || from >= forest.len() {
        None
    } else if is_pick(forest[from], node, kinds) {
        Some(from)
    } else {
        first_pick(forest, from + 1, node, kinds)
    }
}

/// The first pick lies inside the forest and is a pick.
pub proof fn lemma_first_pick(forest: Seq<Tree>, from: int, node: bool, kinds: Seq<u16>)
    requires
        0 <= from,
    ensures
        first_pick(forest, from, node, kinds) matches Some(place) ==> from <= place < forest.len()
            && is_pick(forest[place], node, kinds),
    decreases forest.len() - from,
{
    if from < forest.len() && !is_pick(forest[from], node, kinds) {
        lemma_first_pick(forest, from + 1, node, kinds);
    }
}

/// Tests whether `kind` is among `kinds`.
pub fn is_kind_among(kind: u16, kinds: &Vec<u16>) -> (found: bool)
    ensures
        found == kinds@.contains(kind),
{
    let mut at: usize = 0;
    while at < kinds.len()
        invariant
            at <= kinds@.len(),
            forall|i: int| 0 <= i < at ==> kinds@[i] != kind,
        decreases kinds.len() - at,
    {
        if kinds[at] == kind {
            return true;
        }
        at = at + 1;
    }
    false
}

/// The first child of `node` that is a node or a token, as `want_node` says,
/// and has one of the given kinds.
pub fn first_child_of(node: &rowan::cursor::SyntaxNode, want_node: bool, kinds: &Vec<u16>) -> (out:
    Option<SyntaxElement>)
    ensures
        match first_pick(syntax_node_tree(*node).children(), 0, want_node, kinds@) {
            Some(place) => out matches Some(child) && element_tree(child) == syntax_node_tree(
                *node,
            ).children()[place] && (child is Node) == want_node,
            None => out is None,
        },
{
    let ghost forest = syntax_node_tree(*node).children();
    let mut children = children_with_tokens(node);
    let mut at: usize = 0;
    assert(element_forest(children@).len() == children@.len());
    while at < children.len()
        invariant
            forest == syntax_node_tree(*node).children(),
            at <= children@.len() == forest.len(),
            element_forest(children@) == forest,
            forall|i: int|
                0 <= i < children@.len() ==> (#[trigger] children@[i] is Node) == (element_tree(
                    children@[i],
                ) is Node),
            first_pick(forest, 0, want_node, kinds@) == first_pick(
                forest,
                at as int,
                want_node,
                kinds@,
            ),
        decreases children.len() - at,
    {
        assert(element_tree(children@[at as int]) == element_forest(children@)[at as int]);
        let (is_node, kind) = match &children[at] {
            rowan::NodeOrToken::Node(inner) => (true, node_kind(inner)),
            rowan::NodeOrToken::Token(inner) => (false, token_kind(inner)),
        };
        if is_node == want_node && is_kind_among(kind.0, kinds) {
            let ghost picked = children@[at as int];
            let child = children.swap_remove(at);
            assert(child == picked);
            assert(element_tree(picked) == forest[at as int]);
            return Some(child);
        }
        at = at + 1;
    }
    None
}

/// The place of the first tree from the `from`-th on that `wanted` holds of.
pub open spec fn first_where(forest: Seq<Tree>, from: int, wanted: spec_fn(Tree) -> bool) -> Option<
    int,
>
    decreases forest.len() - from,
{
    if from < 0 || from >= forest.len() {
        None
    } else if wanted(forest[from]) {
        Some(from)
    } else {
        first_where(forest, from + 1, wanted)
    }
}

/// The place of the last tree before the `upto`-th that `wanted` holds of.
pub open spec fn last_where(forest: Seq<Tree>, upto: int, wanted: spec_fn(Tree) -> bool) -> Option<
    int,
>
    decreases upto,
{
    if upto <= 0 || upto > forest.len() {
        None
    } else if wanted(forest[upto - 1]) {
        Some(upto - 1)
    } else {
        last_where(forest, upto - 1, wanted)
    }
}

/// What is found first lies inside the forest and is wanted.
pub proof fn lemma_first_where(forest: Seq<Tree>, from: int, wanted: spec_fn(Tree) -> bool)
    requires
        0 <= from,
    ensures
        first_where(forest, from, wanted) matches Some(place) ==> from <= place < forest.len()
            && wanted(forest[place]),
    decreases forest.len() - from,
{
    if from < forest.len() && !wanted(forest[from]) {
        lemma_first_where(forest, from + 1, wanted);
    }
}

/// The first child of a tree that is a node.
pub open spec fn first_node(tree: Tree) -> Option<Tree> {
    match first_where(tree.children(), 0, |child: Tree| child is Node) {
        Some(place) => Some(tree.children()[place]),
        None => None,
    }
}

/// The last child of a tree that is a node.
pub open spec fn last_node(tree: Tree) -> Option<Tree> {
    match last_where(tree.children(), tree.children().len() as int, |child: Tree| child is Node) {
        Some(place) => Some(tree.children()[place]),
        None => None,
    }
}

/// The first child of `node` that is a node.
pub fn first_child(node: &rowan::cursor::SyntaxNode) -> (out: Option<rowan::cursor::SyntaxNode>)
    ensures
        match first_node(syntax_node_tree(*node)) {
            Some(tree) => out matches Some(child) && syntax_node_tree(child) == tree,
            None => out is None,
        },
{
    let ghost forest = syntax_node_tree(*node).children();
    let ghost wanted = |child: Tree| child is Node;
    let children = children_with_tokens(node);
    let mut at: usize = 0;
    assert(element_forest(children@).len() == children@.len());
    while at < children.len()
        invariant
            forest == syntax_node_tree(*node).children(),
            wanted == |child: Tree| child is Node,
            at <= children@.len() == forest.len(),
            element_forest(children@) == forest,
            forall|i: int|
                0 <= i < children@.len() ==> (#[trigger] children@[i] is Node) == (element_tree(
                    children@[i],
                ) is Node),
            first_where(forest, 0, wanted) == first_where(forest, at as int, wanted),
        decreases children.len() - at,
    {
        assert(element_tree(children@[at as int]) == element_forest(children@)[at as int]);
        if let rowan::NodeOrToken::Node(inner) = &children[at] {
            return Some(inner.clone());
        }
        at = at + 1;
    }
    None
}

/// The last child of `node` that is a node.
pub fn last_child(node: &rowan::cursor::SyntaxNode) -> (out: Option<rowan::cursor::SyntaxNode>)
    ensures
        match last_node(syntax_node_tree(*node)) {
            Some(tree) => out matches Some(child) && syntax_node_tree(child) == tree,
            None => out is None,
        },
{
    let ghost forest = syntax_node_tree(*node).children();
    let ghost wanted = |child: Tree| child is Node;
    let children = children_with_tokens(node);
    let mut at: usize = children.len();
    assert(element_forest(children@).len() == children@.len());
    while at > 0
        invariant
            forest == syntax_node_tree(*node).children(),
            wanted == |child: Tree| child is Node,
            at <= children@.len() == forest.len(),
            element_forest(children@) == forest,
            forall|i: int|
                0 <= i < children@.len() ==> (#[trigger] children@[i] is Node) == (element_tree(
                    children@[i],
                ) is Node),
            last_where(forest, forest.len() as int, wanted) == last_where(
                forest,
                at as int,
                wanted,
            ),
        decreases at,
    {
        assert(element_tree(children@[at - 1]) == element_forest(children@)[at - 1]);
        if let rowan::NodeOrToken::Node(inner) = &children[at - 1] {
            return Some(inner.clone());
        }
        at = at - 1;
    }
    None
}

/// The children of a tree that are nodes, in their order.
pub open spec fn node_children(tree: Tree) -> Seq<Tree> {
    tree.children().filter(|child: Tree| child is Node)
}

/// The trees that a list of nodes points at.
pub open spec fn node_forest(nodes: Seq<rowan::cursor::SyntaxNode>) -> Seq<Tree> {
    Seq::new(nodes.len(), |i: int| syntax_node_tree(nodes[i]))
}

/// The children of `node` that are nodes, in their order.
pub fn children(node: &rowan::cursor::SyntaxNode) -> (nodes: Vec<rowan::cursor::SyntaxNode>)
    ensures
        node_forest(nodes@) == node_children(syntax_node_tree(*node)),
{
    let ghost forest = syntax_node_tree(*node).children();
    let ghost wanted = |child: Tree| child is Node;
    let all = children_with_tokens(node);
    let mut nodes: Vec<rowan::cursor::SyntaxNode> = Vec::new();
    let mut at: usize = 0;
    proof {
        assert(element_forest(all@).len() == all@.len());
        assert(forest.take(0) =~= Seq::<Tree>::empty());
        assert(node_forest(nodes@) =~= forest.take(0).filter(wanted));
    }
    while at < all.len()
        invariant
            wanted == |child: Tree| child is Node,
            at <= all@.len() == forest.len(),
            element_forest(all@) == forest,
            forall|i: int|
                0 <= i < all@.len() ==> (#[trigger] all@[i] is Node) == (element_tree(
                    all@[i],
                ) is Node),
            node_forest(nodes@) == forest.take(at as int).filter(wanted),
        decreases all.len() - at,
    {
        let ghost before = node_forest(nodes@);
        proof {
            assert(element_tree(all@[at as int]) == element_forest(all@)[at as int]);
            assert(forest.take(at + 1) =~= forest.take(at as int).push(forest[at as int]));
            forest.take(at as int).lemma_filter_push(forest[at as int], wanted);
        }
        if let rowan::NodeOrToken::Node(inner) = &all[at] {
            nodes.push(inner.clone());
            proof {
                assert(node_forest(nodes@) =~= before.push(forest[at as int]));
            }
        }
        at = at + 1;
    }
    proof {
        assert(forest.take(at as int) =~= forest);
    }
    nodes
}

/// The first token under `node`, as [`first_leaf`] finds it.
pub fn first_token(node: &rowan::cursor::SyntaxNode) -> (token: Option<rowan::cursor::SyntaxToken>)
    ensures
        match first_leaf(syntax_node_tree(*node)) {
            Some(leaf) => token matches Some(found) && syntax_token_tree(found) == leaf,
            None => token is None,
        },
    decreases syntax_node_tree(*node),
{
    let children = children_with_tokens(node);
    if children.len() == 0 {
        assert(element_forest(children@).len() == 0);
        return None;
    }
    proof {
        let tree = syntax_node_tree(*node);
        let child = element_tree(children@[0]);
        assert(element_forest(children@).len() == children@.len());
        assert(child == element_forest(children@)[0]);
        assert(tree.children().first() == child);
        assert(first_leaf(tree) == first_leaf(child));
        assert(children@[0] is Token ==> first_leaf(child) == Some(child));
    }
    match &children[0] {
        rowan::NodeOrToken::Token(inner) => Some(inner.clone()),
        rowan::NodeOrToken::Node(inner) => first_token(inner),
    }
}

/// The last token under `node`, as [`last_leaf`] finds it.
pub fn last_token(node: &rowan::cursor::SyntaxNode) -> (token: Option<rowan::cursor::SyntaxToken>)
    ensures
        match last_leaf(syntax_node_tree(*node)) {
            Some(leaf) => token matches Some(found) && syntax_token_tree(found) == leaf,
            None => token is None,
        },
    decreases syntax_node_tree(*node),
{
    let children = children_with_tokens(node);
    if children.len() == 0 {
        assert(element_forest(children@).len() == 0);
        return None;
    }
    let last = children.len() - 1;
    proof {
        let tree = syntax_node_tree(*node);
        let child = element_tree(children@[last as int]);
        assert(element_forest(children@).len() == children@.len());
        assert(child == element_forest(children@)[last as int]);
        assert(tree.children().last() == child);
        assert(last_leaf(tree) == last_leaf(child));
        assert(children@[last as int] is Token ==> last_leaf(child) == Some(child));
    }
    match &children[last] {
        rowan::NodeOrToken::Token(inner) => Some(inner.clone()),
        rowan::NodeOrToken::Node(inner) => last_token(inner),
    }
}

} // verus!
