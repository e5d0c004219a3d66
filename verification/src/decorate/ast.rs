//! Abstract syntax tree nodes.
//!
//! These are views of nodes of the cursor tree. Each can be cast to from a
//! node of its kind. A tree may lack what a view hands out, since no parser
//! vouches for its shape; each method says in its `requires` what it relies
//! on.

use vstd::prelude::*;
use vstd::string::StringSliceAdditionalSpecFns;

use super::syn::{ROOT_RAW, Syn};
use crate::cursor::{
    children, children_with_tokens, element_forest, element_tree, first_child, first_leaf,
    first_node, first_token, first_where, last_child, last_node, lemma_first_where, node_children,
    node_forest, node_kind, syntax_node_tree, syntax_token_tree, token_kind, token_text,
};
use crate::green::Tree;
use crate::repr::view_forest;
use crate::scan::Class;
use crate::text::{lemma_ascii_boundaries, lemma_str_bytes, slice};
use crate::AstNode;

verus! {

/// A token of the cursor tree of a DECORATE file.
#[derive(Clone, PartialEq, Eq)]
pub struct Token(rowan::cursor::SyntaxToken);

impl Token {
    /// The leaf that the token points at.
    pub closed spec fn tree(&self) -> Tree {
        syntax_token_tree(self.0)
    }

    /// Wraps a token of the cursor tree.
    pub fn new(token: rowan::cursor::SyntaxToken) -> (out: Self)
        ensures
            out.tree() == syntax_token_tree(token),
    {
        Token(token)
    }

    /// The tag of the token. The number of the token's kind has to be that of
    /// a tag of this language.
    pub fn kind(&self) -> (kind: Syn)
        requires
            self.tree().kind() <= ROOT_RAW,
        ensures
            kind.raw() == self.tree().kind(),
    {
        <Syn as rowan::Language>::kind_from_raw(token_kind(&self.0))
    }

    /// The text of the token.
    pub fn text(&self) -> (text: &str)
        ensures
            text.spec_bytes() == self.tree().text(),
    {
        token_text(&self.0)
    }

    /// The token of the cursor tree that this wraps.
    pub fn syntax(&self) -> (token: &rowan::cursor::SyntaxToken)
        ensures
            syntax_token_tree(*token) == self.tree(),
    {
        &self.0
    }
}

/// Wraps a node tagged [`Syn::Name`].
#[derive(Debug, Clone, PartialEq, Eq)]
pub struct Name(rowan::cursor::SyntaxNode);

impl AstNode for Name {
    open spec fn castable(kind: u16) -> bool {
        kind == Syn::Name.raw()
    }

    closed spec fn tree(&self) -> Tree {
        syntax_node_tree(self.0)
    }

    fn can_cast(kind: rowan::SyntaxKind) -> (yes: bool) {
        kind.0 == Syn::Name.to_raw()
    }

    fn cast(node: rowan::cursor::SyntaxNode) -> (out: Option<Self>) {
        if Self::can_cast(node_kind(&node)) {
            Some(Name(node))
        } else {
            None
        }
    }

    fn syntax(&self) -> (node: &rowan::cursor::SyntaxNode) {
        &self.0
    }
}

impl Name {
    /// The identifier: the first token of the node.
    #[must_use]
    pub fn ident(&self) -> (token: Token)
        requires
            first_leaf(self.tree()).is_some(),
        ensures
            Some(token.tree()) == first_leaf(self.tree()),
    {
        match first_token(&self.0) {
            Some(token) => Token(token),
            None => vstd::pervasive::unreached(),
        }
    }
}

/// Wraps a node tagged [`Syn::EnumDef`].
#[derive(Debug, Clone, PartialEq, Eq)]
pub struct EnumDef(rowan::cursor::SyntaxNode);

impl AstNode for EnumDef {
    open spec fn castable(kind: u16) -> bool {
        kind == Syn::EnumDef.raw()
    }

    closed spec fn tree(&self) -> Tree {
        syntax_node_tree(self.0)
    }

    fn can_cast(kind: rowan::SyntaxKind) -> (yes: bool) {
        kind.0 == Syn::EnumDef.to_raw()
    }

    fn cast(node: rowan::cursor::SyntaxNode) -> (out: Option<Self>) {
        if Self::can_cast(node_kind(&node)) {
            Some(EnumDef(node))
        } else {
            None
        }
    }

    fn syntax(&self) -> (node: &rowan::cursor::SyntaxNode) {
        &self.0
    }
}

impl EnumDef {
    /// The variants of the enumeration: a view for each child node that is
    /// tagged [`Syn::EnumVariant`], in order.
    pub fn variants(&self) -> (variants: Vec<EnumVariant>)
        ensures
            view_forest(variants@) == node_children(self.tree()).filter(
                |child: Tree| EnumVariant::castable(child.kind()),
            ),
    {
        let nodes = children(&self.0);
        let ghost forest = node_children(self.tree());
        let ghost wanted = |child: Tree| EnumVariant::castable(child.kind());
        let mut variants: Vec<EnumVariant> = Vec::new();
        let mut at: usize = 0;
        proof {
            assert(node_forest(nodes@).len() == nodes@.len());
            assert(forest.take(0) =~= Seq::<Tree>::empty());
            assert(view_forest(variants@) =~= forest.take(0).filter(wanted));
        }
        while at < nodes.len()
            invariant
                wanted == |child: Tree| EnumVariant::castable(child.kind()),
                at <= nodes@.len() == forest.len(),
                node_forest(nodes@) == forest,
                view_forest(variants@) == forest.take(at as int).filter(wanted),
            decreases nodes.len() - at,
        {
            let ghost before = view_forest(variants@);
            proof {
                assert(syntax_node_tree(nodes@[at as int]) == node_forest(nodes@)[at as int]);
                assert(forest.take(at + 1) =~= forest.take(at as int).push(forest[at as int]));
                forest.take(at as int).lemma_filter_push(forest[at as int], wanted);
            }
            if let Some(variant) = EnumVariant::cast(nodes[at].clone()) {
                variants.push(variant);
                proof {
                    assert(view_forest(variants@) =~= before.push(forest[at as int]));
                }
            }
            at = at + 1;
        }
        proof {
            assert(forest.take(at as int) =~= forest);
        }
        variants
    }
}

/// Wraps a node tagged [`Syn::EnumVariant`].
#[derive(Debug, Clone, PartialEq, Eq)]
pub struct EnumVariant(rowan::cursor::SyntaxNode);

impl AstNode for EnumVariant {
    open spec fn castable(kind: u16) -> bool {
        kind == Syn::EnumVariant.raw()
    }

    closed spec fn tree(&self) -> Tree {
        syntax_node_tree(self.0)
    }

    fn can_cast(kind: rowan::SyntaxKind) -> (yes: bool) {
        kind.0 == Syn::EnumVariant.to_raw()
    }

    fn cast(node: rowan::cursor::SyntaxNode) -> (out: Option<Self>) {
        if Self::can_cast(node_kind(&node)) {
            Some(EnumVariant(node))
        } else {
            None
        }
    }

    fn syntax(&self) -> (node: &rowan::cursor::SyntaxNode) {
        &self.0
    }
}

impl EnumVariant {
    /// The name of the variant: its first child node, which has to be a
    /// [`Name`].
    #[must_use]
    pub fn name(&self) -> (name: Name)
        requires
            first_node(self.tree()) matches Some(child) && Name::castable(child.kind()),
        ensures
            Some(name.tree()) == first_node(self.tree()),
    {
        match first_child(&self.0) {
            Some(node) => match Name::cast(node) {
                Some(name) => name,
                None => vstd::pervasive::unreached(),
            },
            None => vstd::pervasive::unreached(),
        }
    }

    /// The expression that gives the variant its value: the last child node,
    /// if there is any, which has to be an [`Expression`].
    #[must_use]
    pub fn expr(&self) -> (expr: Option<Expression>)
        requires
            last_node(self.tree()) matches Some(child) ==> Expression::castable(child.kind()),
        ensures
            match last_node(self.tree()) {
                Some(child) => expr matches Some(found) && found.tree() == child,
                None => expr is None,
            },
    {
        match last_child(&self.0) {
            Some(node) => Expression::cast(node),
            None => None,
        }
    }
}

/// An expression of any form.
#[derive(Debug, Clone, PartialEq, Eq)]
pub enum Expression {
    Binary(ExprBinary),
    Call(ExprCall),
    Index(ExprIndex),
    Literal(Literal),
    Name(Name),
    Prefix(ExprPrefix),
    Postfix(ExprPostfix),
    Ternary(ExprTernary),
}

impl AstNode for Expression {
    open spec fn castable(kind: u16) -> bool {
        ||| kind == Syn::ExprBinary.raw()
        ||| kind == Syn::ExprCall.raw()
        ||| kind == Syn::ExprIndex.raw()
        ||| kind == Syn::Name.raw()
        ||| kind == Syn::Literal.raw()
        ||| kind == Syn::ExprPostfix.raw()
        ||| kind == Syn::ExprPrefix.raw()
        ||| kind == Syn::ExprTernary.raw()
    }

    open spec fn tree(&self) -> Tree {
        match self {
            Self::Binary(inner) => inner.tree(),
            Self::Call(inner) => inner.tree(),
            Self::Index(inner) => inner.tree(),
            Self::Literal(inner) => inner.tree(),
            Self::Name(inner) => inner.tree(),
            Self::Prefix(inner) => inner.tree(),
            Self::Postfix(inner) => inner.tree(),
            Self::Ternary(inner) => inner.tree(),
        }
    }

    fn can_cast(kind: rowan::SyntaxKind) -> (yes: bool) {
        ExprBinary::can_cast(kind) || ExprCall::can_cast(kind) || ExprIndex::can_cast(kind)
            || Name::can_cast(kind) || Literal::can_cast(kind) || ExprPostfix::can_cast(kind)
            || ExprPrefix::can_cast(kind) || ExprTernary::can_cast(kind)
    }

    fn cast(node: rowan::cursor::SyntaxNode) -> (out: Option<Self>) {
        let kind = node_kind(&node);
        if ExprBinary::can_cast(kind) {
            match ExprBinary::cast(node) {
                Some(inner) => Some(Self::Binary(inner)),
                None => None,
            }
        } else if ExprCall::can_cast(kind) {
            match ExprCall::cast(node) {
                Some(inner) => Some(Self::Call(inner)),
                None => None,
            }
        } else if ExprIndex::can_cast(kind) {
            match ExprIndex::cast(node) {
                Some(inner) => Some(Self::Index(inner)),
                None => None,
            }
        } else if Literal::can_cast(kind) {
            match Literal::cast(node) {
                Some(inner) => Some(Self::Literal(inner)),
                None => None,
            }
        } else if Name::can_cast(kind) {
            match Name::cast(node) {
                Some(inner) => Some(Self::Name(inner)),
                None => None,
            }
        } else if ExprPostfix::can_cast(kind) {
            match ExprPostfix::cast(node) {
                Some(inner) => Some(Self::Postfix(inner)),
                None => None,
            }
        } else if ExprPrefix::can_cast(kind) {
            match ExprPrefix::cast(node) {
                Some(inner) => Some(Self::Prefix(inner)),
                None => None,
            }
        } else if ExprTernary::can_cast(kind) {
            match ExprTernary::cast(node) {
                Some(inner) => Some(Self::Ternary(inner)),
                None => None,
            }
        } else {
            None
        }
    }

    fn syntax(&self) -> (node: &rowan::cursor::SyntaxNode) {
        match self {
            Self::Binary(inner) => inner.syntax(),
            Self::Call(inner) => inner.syntax(),
            Self::Index(inner) => inner.syntax(),
            Self::Literal(inner) => inner.syntax(),
            Self::Name(inner) => inner.syntax(),
            Self::Prefix(inner) => inner.syntax(),
            Self::Postfix(inner) => inner.syntax(),
            Self::Ternary(inner) => inner.syntax(),
        }
    }
}

impl Expression {
    /// The literal that this expression is, if it is one.
    #[must_use]
    pub fn into_literal(self) -> (literal: Option<Literal>)
        ensures
            match self {
                Self::Literal(inner) => literal == Some(inner),
                _ => literal is None,
            },
    {
        match self {
            Self::Literal(lit) => Some(lit),
            _ => None,
        }
    }
}

/// Wraps a node tagged [`Syn::ExprBinary`].
#[derive(Debug, Clone, PartialEq, Eq)]
pub struct ExprBinary(rowan::cursor::SyntaxNode);

impl AstNode for ExprBinary {
    open spec fn castable(kind: u16) -> bool {
        kind == Syn::ExprBinary.raw()
    }

    closed spec fn tree(&self) -> Tree {
        syntax_node_tree(self.0)
    }

    fn can_cast(kind: rowan::SyntaxKind) -> (yes: bool) {
        kind.0 == Syn::ExprBinary.to_raw()
    }

    fn cast(node: rowan::cursor::SyntaxNode) -> (out: Option<Self>) {
        if Self::can_cast(node_kind(&node)) {
            Some(ExprBinary(node))
        } else {
            None
        }
    }

    fn syntax(&self) -> (node: &rowan::cursor::SyntaxNode) {
        &self.0
    }
}

/// Whether `tree` is a token that is neither whitespace nor a comment.
pub open spec fn is_operator(tree: Tree) -> bool {
    tree is Token && tree.kind() != Syn::Comment.raw() && tree.kind() != Syn::Whitespace.raw()
}

impl ExprBinary {
    /// The operand on the left: the first child node, which has to be an
    /// [`Expression`].
    #[must_use]
    pub fn left(&self) -> (expr: Expression)
        requires
            first_node(self.tree()) matches Some(child) && Expression::castable(child.kind()),
        ensures
            Some(expr.tree()) == first_node(self.tree()),
    {
        match first_child(&self.0) {
            Some(node) => match Expression::cast(node) {
                Some(expr) => expr,
                None => vstd::pervasive::unreached(),
            },
            None => vstd::pervasive::unreached(),
        }
    }

    /// The operator: the first child that is a token and neither whitespace
    /// nor a comment.
    #[must_use]
    pub fn operator(&self) -> (token: Token)
        requires
            first_where(self.tree().children(), 0, |child: Tree| is_operator(child)).is_some(),
        ensures
            token.tree() == self.tree().children()[first_where(
                self.tree().children(),
                0,
                |child: Tree| is_operator(child),
            ).unwrap()],
            is_operator(token.tree()),
    {
        let ghost forest = self.tree().children();
        let ghost wanted = |child: Tree| is_operator(child);
        let all = children_with_tokens(&self.0);
        let comment = Syn::Comment.to_raw();
        let space = Syn::Whitespace.to_raw();
        let mut at: usize = 0;
        proof {
            assert(element_forest(all@).len() == all@.len());
            lemma_first_where(forest, 0, wanted);
        }
        while at < all.len()
            invariant
                forest == self.tree().children(),
                wanted == |child: Tree| is_operator(child),
                comment == Syn::Comment.raw(),
                space == Syn::Whitespace.raw(),
                at <= all@.len() == forest.len(),
                element_forest(all@) == forest,
                forall|i: int|
                    0 <= i < all@.len() ==> (#[trigger] all@[i] is Node) == (element_tree(
                        all@[i],
                    ) is Node),
                first_where(forest, 0, wanted) == first_where(forest, at as int, wanted),
                first_where(forest, 0, wanted).is_some(),
            decreases all.len() - at,
        {
            assert(element_tree(all@[at as int]) == element_forest(all@)[at as int]);
            if let rowan::NodeOrToken::Token(inner) = &all[at] {
                let kind = token_kind(inner).0;
                if kind != comment && kind != space {
                    return Token(inner.clone());
                }
            }
            at = at + 1;
        }
        vstd::pervasive::unreached()
    }

    /// The operand on the right: the last child node, which has to be an
    /// [`Expression`].
    #[must_use]
    pub fn right(&self) -> (expr: Expression)
        requires
            last_node(self.tree()) matches Some(child) && Expression::castable(child.kind()),
        ensures
            Some(expr.tree()) == last_node(self.tree()),
    {
        match last_child(&self.0) {
            Some(node) => match Expression::cast(node) {
                Some(expr) => expr,
                None => vstd::pervasive::unreached(),
            },
            None => vstd::pervasive::unreached(),
        }
    }
}

/// Wraps a node tagged [`Syn::ExprCall`].
#[derive(Debug, Clone, PartialEq, Eq)]
pub struct ExprCall(rowan::cursor::SyntaxNode);

impl AstNode for ExprCall {
    open spec fn castable(kind: u16) -> bool {
        kind == Syn::ExprCall.raw()
    }

    closed spec fn tree(&self) -> Tree {
        syntax_node_tree(self.0)
    }

    fn can_cast(kind: rowan::SyntaxKind) -> (yes: bool) {
        kind.0 == Syn::ExprCall.to_raw()
    }

    fn cast(node: rowan::cursor::SyntaxNode) -> (out: Option<Self>) {
        if Self::can_cast(node_kind(&node)) {
            Some(ExprCall(node))
        } else {
            None
        }
    }

    fn syntax(&self) -> (node: &rowan::cursor::SyntaxNode) {
        &self.0
    }
}

/// Wraps a node tagged [`Syn::ExprIndex`].
#[derive(Debug, Clone, PartialEq, Eq)]
pub struct ExprIndex(rowan::cursor::SyntaxNode);

impl AstNode for ExprIndex {
    open spec fn castable(kind: u16) -> bool {
        kind == Syn::ExprIndex.raw()
    }

    closed spec fn tree(&self) -> Tree {
        syntax_node_tree(self.0)
    }

    fn can_cast(kind: rowan::SyntaxKind) -> (yes: bool) {
        kind.0 == Syn::ExprIndex.to_raw()
    }

    fn cast(node: rowan::cursor::SyntaxNode) -> (out: Option<Self>) {
        if Self::can_cast(node_kind(&node)) {
            Some(ExprIndex(node))
        } else {
            None
        }
    }

    fn syntax(&self) -> (node: &rowan::cursor::SyntaxNode) {
        &self.0
    }
}

/// Wraps a node tagged [`Syn::ExprPostfix`].
#[derive(Debug, Clone, PartialEq, Eq)]
pub struct ExprPostfix(rowan::cursor::SyntaxNode);

impl AstNode for ExprPostfix {
    open spec fn castable(kind: u16) -> bool {
        kind == Syn::ExprPostfix.raw()
    }

    closed spec fn tree(&self) -> Tree {
        syntax_node_tree(self.0)
    }

    fn can_cast(kind: rowan::SyntaxKind) -> (yes: bool) {
        kind.0 == Syn::ExprPostfix.to_raw()
    }

    fn cast(node: rowan::cursor::SyntaxNode) -> (out: Option<Self>) {
        if Self::can_cast(node_kind(&node)) {
            Some(ExprPostfix(node))
        } else {
            None
        }
    }

    fn syntax(&self) -> (node: &rowan::cursor::SyntaxNode) {
        &self.0
    }
}

/// Wraps a node tagged [`Syn::ExprPrefix`].
#[derive(Debug, Clone, PartialEq, Eq)]
pub struct ExprPrefix(rowan::cursor::SyntaxNode);

impl AstNode for ExprPrefix {
    open spec fn castable(kind: u16) -> bool {
        kind == Syn::ExprPrefix.raw()
    }

    closed spec fn tree(&self) -> Tree {
        syntax_node_tree(self.0)
    }

    fn can_cast(kind: rowan::SyntaxKind) -> (yes: bool) {
        kind.0 == Syn::ExprPrefix.to_raw()
    }

    fn cast(node: rowan::cursor::SyntaxNode) -> (out: Option<Self>) {
        if Self::can_cast(node_kind(&node)) {
            Some(ExprPrefix(node))
        } else {
            None
        }
    }

    fn syntax(&self) -> (node: &rowan::cursor::SyntaxNode) {
        &self.0
    }
}

/// Wraps a node tagged [`Syn::ExprTernary`].
#[derive(Debug, Clone, PartialEq, Eq)]
pub struct ExprTernary(rowan::cursor::SyntaxNode);

impl AstNode for ExprTernary {
    open spec fn castable(kind: u16) -> bool {
        kind == Syn::ExprTernary.raw()
    }

    closed spec fn tree(&self) -> Tree {
        syntax_node_tree(self.0)
    }

    fn can_cast(kind: rowan::SyntaxKind) -> (yes: bool) {
        kind.0 == Syn::ExprTernary.to_raw()
    }

    fn cast(node: rowan::cursor::SyntaxNode) -> (out: Option<Self>) {
        if Self::can_cast(node_kind(&node)) {
            Some(ExprTernary(node))
        } else {
            None
        }
    }

    fn syntax(&self) -> (node: &rowan::cursor::SyntaxNode) {
        &self.0
    }
}

/// Wraps a node tagged [`Syn::Literal`].
#[derive(Debug, Clone, PartialEq, Eq)]
pub struct Literal(rowan::cursor::SyntaxNode);

impl AstNode for Literal {
    open spec fn castable(kind: u16) -> bool {
        kind == Syn::Literal.raw()
    }

    closed spec fn tree(&self) -> Tree {
        syntax_node_tree(self.0)
    }

    fn can_cast(kind: rowan::SyntaxKind) -> (yes: bool) {
        kind.0 == Syn::Literal.to_raw()
    }

    fn cast(node: rowan::cursor::SyntaxNode) -> (out: Option<Self>) {
        if Self::can_cast(node_kind(&node)) {
            Some(Literal(node))
        } else {
            None
        }
    }

    fn syntax(&self) -> (node: &rowan::cursor::SyntaxNode) {
        &self.0
    }
}

/// `core::num::ParseIntError`, the error of `u64::from_str_radix`. Nothing is
/// known of its inside.
#[verifier::external_type_specification]
#[verifier::external_body]
pub struct ExParseIntError(core::num::ParseIntError);

/// The value of `b` as a digit in the given radix, if it is one: `0` to `9`,
/// then the letters, in either case, from ten on.
pub open spec fn digit_value(b: u8, radix: u32) -> Option<nat> {
    let value: nat = if 0x30 <= b <= 0x39 {
        (b - 0x30) as nat
    } else if 0x61 <= b <= 0x7A {
        (b - 0x61 + 10) as nat
    } else if 0x41 <= b <= 0x5A {
        (b - 0x41 + 10) as nat
    } else {
        36
    };
    if value < radix {
        Some(value)
    } else {
        None
    }
}

/// The number that the digits spell in the given radix, if they all are
/// digits. No digits spell zero.
pub open spec fn digits_value(digits: Seq<u8>, radix: u32) -> Option<nat>
    decreases digits.len(),
{
    if digits.len() == 0 {
        Some(0)
    } else {
        match (digits_value(digits.drop_last(), radix), digit_value(digits.last(), radix)) {
            (Some(front), Some(last)) => Some((front * radix + last) as nat),
            _ => None,
        }
    }
}

/// The number that a text spells in the given radix: an optional `+`, then
/// one or more digits and nothing else.
pub open spec fn unsigned_value(text: Seq<u8>, radix: u32) -> Option<nat> {
    let digits = if text.len() > 0 && text[0] == 0x2B {
        text.skip(1)
    } else {
        text
    };
    if digits.len() == 0 {
        None
    } else {
        digits_value(digits, radix)
    }
}

/// What parsing owes, given the number that the text spells: the number if
/// it fits 64 bits, and an error otherwise.
pub open spec fn is_parsed(out: Result<u64, core::num::ParseIntError>, value: Option<nat>) -> bool {
    match value {
        Some(number) => if number <= u64::MAX {
            out == Ok::<u64, core::num::ParseIntError>(number as u64)
        } else {
            out is Err
        },
        None => out is Err,
    }
}

/// Calls `u64::from_str_radix`. The text is read as an optional `+` followed
/// by digits of the radix and nothing else; the result is the number they
/// spell if it fits 64 bits, and an error otherwise. The radix has to lie
/// between 2 and 36.
#[verifier::external_body]
fn parse_u64(text: &str, radix: u32) -> (out: Result<u64, core::num::ParseIntError>)
    requires
        2 <= radix <= 36,
    ensures
        is_parsed(out, unsigned_value(text.spec_bytes(), radix)),
{
    u64::from_str_radix(text, radix)
}

/// Where the run of suffix letters of `class` starts that ends at `upto`.
pub open spec fn suffix_start(text: Seq<u8>, upto: int, class: Class) -> int
    decreases upto,
{
    if 0 < upto <= text.len() && class.has(text[upto - 1]) {
        suffix_start(text, upto - 1, class)
    } else {
        upto
    }
}

/// Where the suffix letters `u`, `U`, `l` and `L` at the end of a text
/// start.
pub open spec fn int_suffix_start(text: Seq<u8>) -> int {
    suffix_start(text, text.len() as int, Class::IntSuffix)
}

/// Where the suffix letters `f` and `F` at the end of a text start.
pub open spec fn float_suffix_start(text: Seq<u8>) -> int {
    suffix_start(text, text.len() as int, Class::FloatSuffix)
}

/// Whether an integer literal is written in hexadecimal: it is longer than
/// two bytes and opens with `0x`.
pub open spec fn is_hex_literal(text: Seq<u8>) -> bool {
    text.len() > 2 && text[0] == 0x30 && text[1] == 0x78
}

/// The number that the text of an integer literal spells, if it spells one:
/// in hexadecimal behind `0x`, else in decimal, the suffix letters at the end
/// left out.
pub open spec fn int_literal_value(text: Seq<u8>) -> Option<nat> {
    let end = int_suffix_start(text);
    if is_hex_literal(text) {
        unsigned_value(text.subrange(2, end), 16)
    } else {
        unsigned_value(text.subrange(0, end), 10)
    }
}

/// The first place from `from` on at which `text` holds the byte `b`.
pub open spec fn first_byte(text: Seq<u8>, from: int, b: u8) -> Option<int>
    decreases text.len() - from,
{
    if from < 0 || from >= text.len() {
        None
    } else if text[from] == b {
        Some(from)
    } else {
        first_byte(text, from + 1, b)
    }
}

/// The last place before `upto` at which `text` holds the byte `b`.
pub open spec fn last_byte(text: Seq<u8>, upto: int, b: u8) -> Option<int>
    decreases upto,
{
    if upto <= 0 || upto > text.len() {
        None
    } else if text[upto - 1] == b {
        Some(upto - 1)
    } else {
        last_byte(text, upto - 1, b)
    }
}

/// What stands between the first and the last `quote` of a text, if these
/// are two places.
pub open spec fn quoted(text: Seq<u8>, quote: u8) -> Option<Seq<u8>> {
    match (first_byte(text, 0, quote), last_byte(text, text.len() as int, quote)) {
        (Some(first), Some(last)) => if first < last {
            Some(text.subrange(first + 1, last))
        } else {
            None
        },
        _ => None,
    }
}

/// Finds the first `quote` in `text`.
fn find_first(text: &[u8], quote: u8) -> (place: Option<usize>)
    ensures
        place.is_some() == first_byte(text@, 0, quote).is_some(),
        place matches Some(at) ==> first_byte(text@, 0, quote) == Some(at as int) && at < text@.len()
            && text@[at as int] == quote,
{
    let mut at: usize = 0;
    while at < text.len()
        invariant
            at <= text@.len(),
            first_byte(text@, 0, quote) == first_byte(text@, at as int, quote),
        decreases text.len() - at,
    {
        if text[at] == quote {
            return Some(at);
        }
        at = at + 1;
    }
    None
}

/// Finds the last `quote` in `text`.
fn find_last(text: &[u8], quote: u8) -> (place: Option<usize>)
    ensures
        place.is_some() == last_byte(text@, text@.len() as int, quote).is_some(),
        place matches Some(at) ==> last_byte(text@, text@.len() as int, quote) == Some(at as int)
            && at < text@.len() && text@[at as int] == quote,
{
    let mut at: usize = text.len();
    while at > 0
        invariant
            at <= text@.len(),
            last_byte(text@, text@.len() as int, quote) == last_byte(text@, at as int, quote),
        decreases at,
    {
        if text[at - 1] == quote {
            return Some(at - 1);
        }
        at = at - 1;
    }
    None
}

/// The part of `text` between its first and its last `quote`.
fn strip_quotes<'a>(text: &'a str, quote: u8) -> (inner: Option<&'a str>)
    requires
        quote < 0x80,
    ensures
        match quoted(text.spec_bytes(), quote) {
            Some(bytes) => inner matches Some(part) && part.spec_bytes() == bytes,
            None => inner is None,
        },
{
    let bytes = text.as_bytes();
    match (find_first(bytes, quote), find_last(bytes, quote)) {
        (Some(first), Some(last)) => {
            if first < last {
                proof {
                    lemma_str_bytes(text);
                    lemma_ascii_boundaries(text.spec_bytes(), first as int);
                    lemma_ascii_boundaries(text.spec_bytes(), last as int);
                }
                Some(slice(text, first + 1, last))
            } else {
                None
            }
        },
        _ => None,
    }
}

/// Wrapper around a token with convenience functions. See the documentation
/// of [`Syn::Literal`] to see possible token tags.
#[derive(Clone, PartialEq, Eq)]
pub struct LitToken(rowan::cursor::SyntaxToken);

impl LitToken {
    /// The leaf that the token points at.
    pub closed spec fn tree(&self) -> Tree {
        syntax_token_tree(self.0)
    }

    /// Wraps a token of the cursor tree.
    pub fn new(token: rowan::cursor::SyntaxToken) -> (out: Self)
        ensures
            out.tree() == syntax_token_tree(token),
    {
        LitToken(token)
    }

    /// If this wraps a [`Syn::LitTrue`] or [`Syn::LitFalse`] token, this
    /// returns the corresponding value. Otherwise this returns `None`.
    #[must_use]
    pub fn bool(&self) -> (value: Option<bool>)
        ensures
            value == if self.tree().kind() == Syn::LitTrue.raw() {
                Some(true)
            } else if self.tree().kind() == Syn::LitFalse.raw() {
                Some(false)
            } else {
                None
            },
    {
        let kind = token_kind(&self.0).0;
        if kind == Syn::LitTrue.to_raw() {
            Some(true)
        } else if kind == Syn::LitFalse.to_raw() {
            Some(false)
        } else {
            None
        }
    }

    /// Returns `None` if this is not tagged with [`Syn::LitInt`]. Returns
    /// `Some(Err)` if integer parsing fails, such as if the written value is
    /// too large to fit into a `u64`.
    ///
    /// A literal that opens with `0x` is read in hexadecimal, any other in
    /// decimal. The suffix letters at the end are left out. There has to be
    /// something in front of them.
    #[must_use]
    pub fn integer(&self) -> (value: Option<Result<u64, core::num::ParseIntError>>)
        requires
            self.tree().kind() == Syn::LitInt.raw() ==> int_suffix_start(self.tree().text()) > 0,
        ensures
            match value {
                Some(parsed) => self.tree().kind() == Syn::LitInt.raw() && is_parsed(
                    parsed,
                    int_literal_value(self.tree().text()),
                ),
                None => self.tree().kind() != Syn::LitInt.raw(),
            },
    {
        if token_kind(&self.0).0 != Syn::LitInt.to_raw() {
            return None;
        }
        let text = token_text(&self.0);
        let bytes = text.as_bytes();
        let hex = bytes.len() > 2 && bytes[0] == 0x30 && bytes[1] == 0x78;
        let start: usize = if hex {
            2
        } else {
            0
        };
        let radix: u32 = if hex {
            16
        } else {
            10
        };
        let end = find_suffix_start(text, Class::IntSuffix);
        proof {
            lemma_str_bytes(text);
            if hex {
                lemma_ascii_boundaries(bytes@, 1);
                lemma_suffix_start_bound(bytes@, bytes@.len() as int, 2, Class::IntSuffix);
            }
        }
        Some(parse_u64(slice(text, start, end), radix))
    }

    /// If this wraps a [`Syn::LitFloat`] token, this returns its text without
    /// the suffix letters `f` and `F` at its end: what is left spells the
    /// number. Otherwise this returns `None`. There has to be something in
    /// front of the suffix letters.
    #[must_use]
    pub fn float_text(&self) -> (text: Option<&str>)
        requires
            self.tree().kind() == Syn::LitFloat.raw() ==> float_suffix_start(self.tree().text())
                > 0,
        ensures
            match text {
                Some(part) => self.tree().kind() == Syn::LitFloat.raw() && part.spec_bytes()
                    == self.tree().text().subrange(0, float_suffix_start(self.tree().text())),
                None => self.tree().kind() != Syn::LitFloat.raw(),
            },
    {
        if token_kind(&self.0).0 != Syn::LitFloat.to_raw() {
            return None;
        }
        let text = token_text(&self.0);
        let end = find_suffix_start(text, Class::FloatSuffix);
        proof {
            lemma_str_bytes(text);
        }
        Some(slice(text, 0, end))
    }

    /// If this wraps a [`Syn::LitName`] token, this returns the string's
    /// content with the delimiting single-quotation marks stripped away.
    /// Otherwise this returns `None`.
    #[must_use]
    pub fn name(&self) -> (inner: Option<&str>)
        ensures
            match if self.tree().kind() == Syn::LitName.raw() {
                quoted(self.tree().text(), 0x27)
            } else {
                None
            } {
                Some(bytes) => inner matches Some(part) && part.spec_bytes() == bytes,
                None => inner is None,
            },
    {
        if token_kind(&self.0).0 == Syn::LitName.to_raw() {
            strip_quotes(token_text(&self.0), 0x27)
        } else {
            None
        }
    }

    /// If this wraps a [`Syn::LitString`] token, this returns the string's
    /// content with the delimiting double-quotation marks stripped away.
    /// Otherwise this returns `None`.
    #[must_use]
    pub fn string(&self) -> (inner: Option<&str>)
        ensures
            match if self.tree().kind() == Syn::LitString.raw() {
                quoted(self.tree().text(), 0x22)
            } else {
                None
            } {
                Some(bytes) => inner matches Some(part) && part.spec_bytes() == bytes,
                None => inner is None,
            },
    {
        if token_kind(&self.0).0 == Syn::LitString.to_raw() {
            strip_quotes(token_text(&self.0), 0x22)
        } else {
            None
        }
    }

    /// The token of the cursor tree that this wraps.
    #[must_use]
    pub fn syntax(&self) -> (token: &rowan::cursor::SyntaxToken)
        ensures
            syntax_token_tree(*token) == self.tree(),
    {
        &self.0
    }
}

/// The run of suffix letters does not start before a byte that is none.
proof fn lemma_suffix_start_bound(text: Seq<u8>, upto: int, low: int, class: Class)
    requires
        0 < low <= upto <= text.len(),
        !class.has(text[low - 1]),
    ensures
        low <= suffix_start(text, upto, class),
    decreases upto,
{
    if upto > low && class.has(text[upto - 1]) {
        lemma_suffix_start_bound(text, upto - 1, low, class);
    }
}

/// Every byte from the start of the run of suffix letters on is one.
proof fn lemma_suffix_run(text: Seq<u8>, upto: int, at: int, class: Class)
    requires
        0 <= upto <= text.len(),
        suffix_start(text, upto, class) <= at < upto,
    ensures
        class.has(text[at]),
    decreases upto,
{
    if at < upto - 1 {
        lemma_suffix_run(text, upto - 1, at, class);
    }
}

/// Finds where the suffix letters of `class` at the end of `text` start. A
/// text may be cut there.
fn find_suffix_start(text: &str, class: Class) -> (start: usize)
    ensures
        start == suffix_start(text.spec_bytes(), text.spec_bytes().len() as int, class),
        start <= text.spec_bytes().len(),
        vstd::utf8::is_char_boundary(text.spec_bytes(), start as int),
{
    let bytes = text.as_bytes();
    let mut end: usize = bytes.len();
    while end > 0 && class.contains(bytes[end - 1])
        invariant
            end <= bytes@.len(),
            suffix_start(bytes@, bytes@.len() as int, class) == suffix_start(
                bytes@,
                end as int,
                class,
            ),
        decreases end,
    {
        end = end - 1;
    }
    proof {
        lemma_str_bytes(text);
        if end < bytes@.len() {
            lemma_suffix_run(bytes@, bytes@.len() as int, end as int, class);
            class.lemma_ascii(bytes@[end as int]);
            lemma_ascii_boundaries(bytes@, end as int);
        }
    }
    end
}

} // verus!
