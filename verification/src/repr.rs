//! Structures for representing source code at various levels of abstraction.

use core::marker::PhantomData;

use vstd::prelude::*;

use crate::cursor::{children_with_tokens, element_forest, green_clone, new_root, syntax_node_tree};
use crate::error::ParseError;
use crate::green::{node_tree, Tree};
use crate::{AstNode, LangExt};

verus! {

/// The (G)ZDoom MAPINFO, DECORATE, and ZScript file formats all support the
/// use of C-like `#include` directives to build a tree of files from a root.
#[derive(Debug)]
pub struct IncludeTree<L: LangExt> {
    pub files: Vec<ParseTree<L>>,
}

/// Represents a source string. It may not necessarily represent valid code;
/// it contains no semantic information and parsers recover upon encountering
/// errors.
///
/// Beside what [`RawParseTree`] holds, this holds the root of a cursor tree
/// over the syntax tree. Build it on the thread that will walk the tree.
#[derive(Debug)]
pub struct ParseTree<L: LangExt> {
    raw: RawParseTree<L>,
    zipper: rowan::cursor::SyntaxNode,
}

/// Whether a child of the root is a node that can be cast to the view `A`.
pub open spec fn is_ast_root<A: AstNode>(tree: Tree) -> bool {
    tree is Node && A::castable(tree.kind())
}

/// The trees that a list of views wraps.
pub open spec fn view_forest<A: AstNode>(views: Seq<A>) -> Seq<Tree> {
    Seq::new(views.len(), |i: int| views[i].tree())
}

impl<L: LangExt> ParseTree<L> {
    /// The cursor is one over the tree held.
    #[verifier::type_invariant]
    spec fn cursor_matches(self) -> bool {
        syntax_node_tree(self.zipper) == self.raw.tree()
    }

    /// What this was made from.
    pub closed spec fn raw(&self) -> RawParseTree<L> {
        self.raw
    }

    /// The syntax tree held.
    pub open spec fn tree(&self) -> Tree {
        self.raw().tree()
    }

    /// Builds the cursor over the tree of `raw`.
    #[must_use]
    pub fn new(raw: RawParseTree<L>) -> (out: Self)
        ensures
            out.raw() == raw,
    {
        let zipper = new_root(green_clone(raw.raw()));
        Self { raw, zipper }
    }

    /// The "zipper tree" (or "cursor tree") is a more convenient way of
    /// reading the "raw" green tree accessible via [`RawParseTree::raw`], as
    /// it contains parent pointers and identity information.
    #[must_use]
    pub fn zipper(&self) -> (root: &rowan::cursor::SyntaxNode)
        ensures
            syntax_node_tree(*root) == self.tree(),
    {
        proof {
            use_type_invariant(self);
        }
        &self.zipper
    }

    /// Returns the "top-level" abstract syntax tree nodes: a view for each
    /// child of the root that is a node and can be cast to `A`, in order.
    ///
    /// The highest-level syntactic representation available. Abstract syntax
    /// tree nodes are thin wrappers over nodes of the cursor tree that expose
    /// methods allowing language-specific introspection into source details.
    pub fn ast<A: AstNode>(&self) -> (views: Vec<A>)
        ensures
            view_forest(views@) == self.tree().children().filter(
                |tree: Tree| is_ast_root::<A>(tree),
            ),
    {
        let children = children_with_tokens(self.zipper());
        let ghost forest = self.tree().children();
        let ghost wanted = |tree: Tree| is_ast_root::<A>(tree);
        let mut views: Vec<A> = Vec::new();
        let mut at: usize = 0;
        proof {
            assert(element_forest(children@).len() == children@.len());
            assert(forest.take(0) =~= Seq::<Tree>::empty());
            assert(view_forest(views@) =~= forest.take(0).filter(wanted));
        }
        while at < children.len()
            invariant
                at <= children@.len() == forest.len(),
                wanted == |tree: Tree| is_ast_root::<A>(tree),
                element_forest(children@) == forest,
                forall|i: int|
                    0 <= i < children@.len() ==> (#[trigger] children@[i] is Node) == (
                    crate::cursor::element_tree(children@[i]) is Node),
                view_forest(views@) == forest.take(at as int).filter(wanted),
            decreases children.len() - at,
        {
            let ghost before = view_forest(views@);
            proof {
                assert(crate::cursor::element_tree(children@[at as int]) == element_forest(
                    children@,
                )[at as int]);
                assert(forest.take(at + 1) =~= forest.take(at as int).push(forest[at as int]));
                forest.take(at as int).lemma_filter_push(forest[at as int], wanted);
            }
            if let rowan::NodeOrToken::Node(node) = &children[at] {
                if let Some(view) = A::cast(node.clone()) {
                    views.push(view);
                    proof {
                        assert(view_forest(views@) =~= before.push(forest[at as int]));
                    }
                }
            }
            at = at + 1;
        }
        proof {
            assert(forest.take(at as int) =~= forest);
        }
        views
    }
}

impl<L: LangExt> core::ops::Deref for ParseTree<L> {
    type Target = RawParseTree<L>;

    fn deref(&self) -> (raw: &Self::Target)
        ensures
            *raw == self.raw(),
    {
        &self.raw
    }
}

/// Represents a source string: its syntax tree and the errors met while
/// parsing it. It may not necessarily represent valid code; it contains no
/// semantic information.
///
/// The tree is immutable and holds no references back to its parents, so a
/// value of this type can be handed from one thread to another.
#[derive(Debug)]
pub struct RawParseTree<L: LangExt> {
    root: rowan::GreenNode,
    errors: Vec<ParseError>,
    phantom: PhantomData<L>,
}

impl<L: LangExt> RawParseTree<L> {
    /// The syntax tree held.
    pub closed spec fn tree(&self) -> Tree {
        node_tree(self.root)
    }

    /// The errors held, in the order in which they were raised.
    pub closed spec fn error_list(&self) -> Seq<ParseError> {
        self.errors@
    }

    /// The node that [`RawParseTree::raw`] gives.
    pub closed spec fn root(&self) -> rowan::GreenNode {
        self.root
    }

    /// Puts a tree and the errors that go with it together.
    #[must_use]
    pub fn new(root: rowan::GreenNode, errors: Vec<ParseError>) -> (out: Self)
        ensures
            out.root() == root,
            out.tree() == node_tree(root),
            out.error_list() == errors@,
    {
        Self { root, errors, phantom: PhantomData }
    }

    /// The "source of truth" for the parsed code.
    #[must_use]
    pub fn raw(&self) -> (root: &rowan::GreenNode)
        ensures
            *root == self.root(),
            node_tree(*root) == self.tree(),
    {
        &self.root
    }

    /// Were any errors encountered when parsing a token stream?
    #[must_use]
    pub fn any_errors(&self) -> (any: bool)
        ensures
            any == (self.error_list().len() > 0),
    {
        self.errors.len() > 0
    }

    /// Errors encountered while parsing a token stream.
    #[must_use]
    pub fn errors(&self) -> (errors: &[ParseError])
        ensures
            errors@ == self.error_list(),
    {
        self.errors.as_slice()
    }

    /// Gives up the tree and keeps the errors.
    #[must_use]
    pub fn into_errors(self) -> (errors: Vec<ParseError>)
        ensures
            errors@ == self.error_list(),
    {
        self.errors
    }
}

} // verus!
