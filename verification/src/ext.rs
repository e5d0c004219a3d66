//! Helpers for gathering what parsers hand out.
//!
//! A grammar rule runs its parts in order and collects their outputs in a
//! container, which in the end becomes the child list of a new node. The
//! traits here start such a container, add to it and close it. They are pure
//! data transformations; which container a rule uses changes what is
//! allocated and nothing else.

use vstd::prelude::*;

use crate::LangExt;
use crate::green::{
    forest_text, green_node, lemma_forest_text_one, max_text_len, out_forest, out_tree, ParseOut,
    Tree,
};

verus! {

/// The node with tag `kind` over the given children.
pub open spec fn branch(kind: u16, children: Seq<Tree>) -> Tree {
    Tree::Node { kind, children }
}

/// Makes it easy to create a new collection from a single [`ParseOut`].
pub trait Parser1: Sized {
    /// The tree that this output stands for.
    spec fn tree(&self) -> Tree;

    /// Puts the output into a new `Vec`.
    fn start_vec(self) -> (out: Vec<ParseOut>)
        ensures
            out_forest(out@) == seq![self.tree()],
    ;

    /// Wraps the output inside a new node tagged `kind`, which has to be a
    /// kind of the language `L`: a number above that of the root names no
    /// kind, and no node is built of it.
    fn remap<L: LangExt>(self, kind: rowan::SyntaxKind) -> (out: ParseOut)
        requires
            kind.0 <= L::SYN_ROOT,
            self.tree().text().len() <= max_text_len(),
        ensures
            out_tree(out) == branch(kind.0, seq![self.tree()]),
    ;
}

impl Parser1 for ParseOut {
    open spec fn tree(&self) -> Tree {
        out_tree(*self)
    }

    fn start_vec(self) -> (out: Vec<ParseOut>) {
        let mut out: Vec<ParseOut> = Vec::new();
        out.push(self);
        assert(out_forest(out@) =~= seq![out_tree(self)]);
        out
    }

    fn remap<L: LangExt>(self, kind: rowan::SyntaxKind) -> (out: ParseOut) {
        let children = self.start_vec();
        proof {
            lemma_forest_text_one(out_tree(self));
        }
        rowan::NodeOrToken::Node(green_node(kind, children))
    }
}

/// Makes it easy to create a new collection from an `Option` that may hold a
/// [`ParseOut`].
pub trait ParserOpt: Sized {
    /// The trees that this output stands for: one or none.
    spec fn forest(&self) -> Seq<Tree>;

    /// Puts the output, if there is one, into a new `Vec`.
    fn start_vec(self) -> (out: Vec<ParseOut>)
        ensures
            out_forest(out@) == self.forest(),
    ;
}

impl ParserOpt for Option<ParseOut> {
    open spec fn forest(&self) -> Seq<Tree> {
        match *self {
            Some(out) => seq![out_tree(out)],
            None => Seq::empty(),
        }
    }

    fn start_vec(self) -> (out: Vec<ParseOut>) {
        let mut out: Vec<ParseOut> = Vec::new();
        match self {
            Some(item) => {
                out.push(item);
                assert(out_forest(out@) =~= seq![out_tree(item)]);
            },
            None => {
                assert(out_forest(out@) =~= Seq::<Tree>::empty());
            },
        }
        out
    }
}

/// Makes it easy to add to the end of a vec of [`ParseOut`]s, or to convert
/// one into a new node.
pub trait ParserVec: Sized {
    /// The trees collected so far, in order.
    spec fn forest(&self) -> Seq<Tree>;

    /// Pushes `other` to the vec and returns the vec.
    fn chain_push(self, other: ParseOut) -> (out: Self)
        ensures
            out.forest() == self.forest().push(out_tree(other)),
    ;

    /// Pushes the option to the vec if it is `Some`, or else does nothing.
    /// Either way the vec is returned.
    fn chain_push_opt(self, other: Option<ParseOut>) -> (out: Self)
        ensures
            out.forest() == self.forest() + other.forest(),
    ;

    /// Appends the elements of the second vec to the first, and then returns
    /// the first.
    fn chain_append(self, other: Vec<ParseOut>) -> (out: Self)
        ensures
            out.forest() == self.forest() + out_forest(other@),
    ;

    /// Closes the collection: its elements become the children of a new node
    /// tagged `kind`, which has to be a kind of the language `L`: a number
    /// above that of the root names no kind, and no node is built of it.
    fn collect_n<L: LangExt>(self, kind: rowan::SyntaxKind) -> (out: ParseOut)
        requires
            kind.0 <= L::SYN_ROOT,
            forest_text(self.forest()).len() <= max_text_len(),
        ensures
            out_tree(out) == branch(kind.0, self.forest()),
    ;

    /// Like `collect_n` but hands out the bare node. For use when creating
    /// the root of a parse tree.
    fn collect_g<L: LangExt>(self, kind: rowan::SyntaxKind) -> (out: rowan::GreenNode)
        requires
            kind.0 <= L::SYN_ROOT,
            forest_text(self.forest()).len() <= max_text_len(),
        ensures
            crate::green::node_tree(out) == branch(kind.0, self.forest()),
    ;
}

impl ParserVec for Vec<ParseOut> {
    open spec fn forest(&self) -> Seq<Tree> {
        out_forest(self@)
    }

    fn chain_push(self, other: ParseOut) -> (out: Self) {
        let mut out = self;
        out.push(other);
        assert(out_forest(out@) =~= out_forest(self@).push(out_tree(other)));
        out
    }

    fn chain_push_opt(self, other: Option<ParseOut>) -> (out: Self) {
        let mut out = self;
        if let Some(item) = other {
            out.push(item);
        }
        assert(out_forest(out@) =~= out_forest(self@) + other.forest());
        out
    }

    fn chain_append(self, other: Vec<ParseOut>) -> (out: Self) {
        let mut out = self;
        let mut consumed = other;
        out.append(&mut consumed);
        assert(out_forest(out@) =~= out_forest(self@) + out_forest(other@));
        out
    }

    fn collect_n<L: LangExt>(self, kind: rowan::SyntaxKind) -> (out: ParseOut) {
        rowan::NodeOrToken::Node(green_node(kind, self))
    }

    fn collect_g<L: LangExt>(self, kind: rowan::SyntaxKind) -> (out: rowan::GreenNode) {
        green_node(kind, self)
    }
}

} // verus!
