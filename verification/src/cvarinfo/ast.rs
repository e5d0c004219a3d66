//! Abstract syntax tree nodes.
//!
//! These are views of nodes of the cursor tree. The parser of this module
//! builds every node of a kind in one shape, and the views tell where in
//! that shape the parts lie. A tree that was put together otherwise may lack
//! a part; each method that hands out a part says in its `requires` what it
//! relies on.

use vstd::prelude::*;
use vstd::string::StringSliceAdditionalSpecFns;

use super::grammar::{
    default_at, definition_at, document_from, items_from, lemma_item_progress, lemma_items_progress,
    lemma_keyword_progress, lemma_unit_progress, lexeme_tree, literal_at, trivia_at, type_of,
    type_spec_at, unit_at, Outcome,
};
use super::syn::{ROOT_RAW, Syn};
use crate::cursor::{
    element_tree, first_child_of, first_pick, is_pick, last_leaf, last_token, lemma_first_pick,
    node_kind, syntax_node_tree, syntax_token_tree, token_kind, token_text,
};
use crate::ext::branch;
use crate::green::Tree;
use crate::help::leaf;
use crate::scan::{byte_at, ident_end};
use crate::AstNode;

verus! {

/// A token of the cursor tree of a CVARINFO file.
#[derive(Clone, PartialEq, Eq)]
pub struct Token(rowan::cursor::SyntaxToken);

impl Token {
    /// The leaf that the token points at.
    pub closed spec fn tree(&self) -> Tree {
        syntax_token_tree(self.0)
    }

    /// The cursor that this wraps, as [`Token::syntax`] gives it.
    pub closed spec fn cursor(&self) -> rowan::cursor::SyntaxToken {
        self.0
    }

    /// Wraps a token of the cursor tree.
    pub fn new(token: rowan::cursor::SyntaxToken) -> (out: Self)
        ensures
            out.tree() == syntax_token_tree(token),
            out.cursor() == token,
    {
        Token(token)
    }

    /// The tag of the token. The number of the token's kind has to be that of
    /// a tag of this language.
    pub fn kind(&self) -> (kind: Syn)
        requires
            self.tree().kind() <= ROOT_RAW,
        ensures
            kind.raw() == self.tree().kind(),
    {
        <Syn as rowan::Language>::kind_from_raw(token_kind(&self.0))
    }

    /// The text of the token.
    pub fn text(&self) -> (text: &str)
        ensures
            text.spec_bytes() == self.tree().text(),
    {
        token_text(&self.0)
    }

    /// The token of the cursor tree that this wraps.
    pub fn syntax(&self) -> (token: &rowan::cursor::SyntaxToken)
        ensures
            *token == self.cursor(),
            syntax_token_tree(*token) == self.tree(),
    {
        &self.0
    }
}

/// The numbers of the given tags.
fn raw_kinds(tags: Vec<Syn>) -> (kinds: Vec<u16>)
    ensures
        kinds@ == tags@.map_values(|tag: Syn| tag.raw()),
{
    let mut kinds: Vec<u16> = Vec::new();
    let mut at: usize = 0;
    while at < tags.len()
        invariant
            at <= tags@.len(),
            kinds@ == tags@.take(at as int).map_values(|tag: Syn| tag.raw()),
        decreases tags.len() - at,
    {
        kinds.push(tags[at].to_raw());
        proof {
            assert(tags@.take(at + 1) =~= tags@.take(at as int).push(tags@[at as int]));
            assert(kinds@ =~= tags@.take(at + 1).map_values(|tag: Syn| tag.raw()));
        }
        at = at + 1;
    }
    proof {
        assert(tags@.take(at as int) =~= tags@);
    }
    kinds
}

/// The numbers of the tags of the five type keywords.
pub open spec fn type_kinds() -> Seq<u16> {
    seq![
        Syn::TypeInt.raw(),
        Syn::TypeFloat.raw(),
        Syn::TypeBool.raw(),
        Syn::TypeString.raw(),
        Syn::TypeColor.raw(),
    ]
}

/// The numbers of the tags of the three scope keywords.
pub open spec fn scope_kinds() -> Seq<u16> {
    seq![Syn::KwServer.raw(), Syn::KwUser.raw(), Syn::KwNoSave.raw()]
}

/// The numbers of the tags of the three qualifier keywords.
pub open spec fn qualifier_kinds() -> Seq<u16> {
    seq![Syn::KwNoArchive.raw(), Syn::KwCheat.raw(), Syn::KwLatch.raw()]
}

/// The first child of `tree` that is a token of one of the given kinds.
pub open spec fn first_token_of(tree: Tree, kinds: Seq<u16>) -> Option<Tree> {
    match first_pick(tree.children(), 0, false, kinds) {
        Some(place) => Some(tree.children()[place]),
        None => None,
    }
}

/// The first child of `tree` that is a node of the given kind.
pub open spec fn first_node_of(tree: Tree, kind: u16) -> Option<Tree> {
    match first_pick(tree.children(), 0, true, seq![kind]) {
        Some(place) => Some(tree.children()[place]),
        None => None,
    }
}

/// The first token among the children of `node` with one of the given tags.
fn token_child(node: &rowan::cursor::SyntaxNode, tags: Vec<Syn>) -> (out: Option<Token>)
    ensures
        match first_token_of(syntax_node_tree(*node), tags@.map_values(|tag: Syn| tag.raw())) {
            Some(leaf) => out matches Some(token) && token.tree() == leaf,
            None => out is None,
        },
{
    let kinds = raw_kinds(tags);
    match first_child_of(node, false, &kinds) {
        Some(rowan::NodeOrToken::Token(token)) => Some(Token(token)),
        _ => None,
    }
}

/// The first node among the children of `node` with the given tag.
fn node_child(node: &rowan::cursor::SyntaxNode, tag: Syn) -> (out: Option<
    rowan::cursor::SyntaxNode,
>)
    ensures
        match first_node_of(syntax_node_tree(*node), tag.raw()) {
            Some(tree) => out matches Some(child) && syntax_node_tree(child) == tree,
            None => out is None,
        },
{
    let mut kinds: Vec<u16> = Vec::new();
    kinds.push(tag.to_raw());
    assert(kinds@ =~= seq![tag.raw()]);
    match first_child_of(node, true, &kinds) {
        Some(rowan::NodeOrToken::Node(child)) => Some(child),
        _ => None,
    }
}

/// Abstract syntax tree node representing a whole CVar definition.
#[derive(Debug, Clone, PartialEq, Eq)]
pub struct CVar(rowan::cursor::SyntaxNode);

impl CVar {
    /// Everything preceding the storage type specifier.
    #[must_use]
    pub fn flags(&self) -> (flags: Flags)
        requires
            first_node_of(self.tree(), Syn::Flags.raw()).is_some(),
        ensures
            Some(flags.tree()) == first_node_of(self.tree(), Syn::Flags.raw()),
    {
        match node_child(&self.0, Syn::Flags) {
            Some(node) => Flags(node),
            None => vstd::pervasive::unreached(),
        }
    }

    /// The storage type specifier follows the flags and scope specifier, and
    /// precededes the identifier.
    ///
    /// Its kind will be one of the following:
    /// - [`Syn::TypeInt`]
    /// - [`Syn::TypeFloat`]
    /// - [`Syn::TypeBool`]
    /// - [`Syn::TypeColor`]
    /// - [`Syn::TypeString`]
    #[must_use]
    pub fn type_spec(&self) -> (token: Token)
        requires
            first_token_of(self.tree(), type_kinds()).is_some(),
        ensures
            Some(token.tree()) == first_token_of(self.tree(), type_kinds()),
            type_kinds().contains(token.tree().kind()),
            token.tree().kind() <= ROOT_RAW,
    {
        let tags = vec![
            Syn::TypeInt,
            Syn::TypeFloat,
            Syn::TypeBool,
            Syn::TypeString,
            Syn::TypeColor,
        ];
        proof {
            assert(tags@.map_values(|tag: Syn| tag.raw()) =~= type_kinds());
            lemma_first_pick(self.tree().children(), 0, false, type_kinds());
        }
        match token_child(&self.0, tags) {
            Some(token) => token,
            None => vstd::pervasive::unreached(),
        }
    }

    /// The identifier given to this CVar, after the type specifier.
    #[must_use]
    pub fn name(&self) -> (token: Token)
        requires
            first_token_of(self.tree(), seq![Syn::Ident.raw()]).is_some(),
        ensures
            Some(token.tree()) == first_token_of(self.tree(), seq![Syn::Ident.raw()]),
            token.tree().kind() == Syn::Ident.raw(),
    {
        let tags = vec![Syn::Ident];
        proof {
            assert(tags@.map_values(|tag: Syn| tag.raw()) =~= seq![Syn::Ident.raw()]);
            lemma_first_pick(self.tree().children(), 0, false, seq![Syn::Ident.raw()]);
        }
        match token_child(&self.0, tags) {
            Some(token) => token,
            None => vstd::pervasive::unreached(),
        }
    }

    /// The default clause, if the definition has one.
    #[must_use]
    pub fn default(&self) -> (clause: Option<Default>)
        ensures
            match first_node_of(self.tree(), Syn::DefaultDef.raw()) {
                Some(tree) => clause matches Some(found) && found.tree() == tree,
                None => clause is None,
            },
    {
        match node_child(&self.0, Syn::DefaultDef) {
            Some(node) => Some(Default(node)),
            None => None,
        }
    }
}

impl AstNode for CVar {
    open spec fn castable(kind: u16) -> bool {
        kind == Syn::Definition.raw()
    }

    closed spec fn tree(&self) -> Tree {
        syntax_node_tree(self.0)
    }

    fn can_cast(kind: rowan::SyntaxKind) -> (yes: bool) {
        kind.0 == Syn::Definition.to_raw()
    }

    fn cast(node: rowan::cursor::SyntaxNode) -> (out: Option<Self>) {
        if Self::can_cast(node_kind(&node)) {
            Some(CVar(node))
        } else {
            None
        }
    }

    fn syntax(&self) -> (node: &rowan::cursor::SyntaxNode) {
        &self.0
    }
}

/// Abstract syntax tree node representing the scope specifier and
/// qualifiers.
#[derive(Debug, Clone, PartialEq, Eq)]
pub struct Flags(rowan::cursor::SyntaxNode);

/// The trees of `forest` that are tokens of one of the given kinds, in their
/// order.
pub open spec fn tokens_of(forest: Seq<Tree>, kinds: Seq<u16>) -> Seq<Tree> {
    forest.filter(|tree: Tree| crate::cursor::is_pick(tree, false, kinds))
}

/// The leaves that a list of tokens points at.
pub open spec fn token_forest(tokens: Seq<Token>) -> Seq<Tree> {
    Seq::new(tokens.len(), |i: int| tokens[i].tree())
}

impl Flags {
    /// The kind of the returned token will be one of the following:
    /// - [`Syn::KwServer`]
    /// - [`Syn::KwUser`]
    /// - [`Syn::KwNoSave`]
    #[must_use]
    pub fn scope(&self) -> (token: Token)
        requires
            first_token_of(self.tree(), scope_kinds()).is_some(),
        ensures
            Some(token.tree()) == first_token_of(self.tree(), scope_kinds()),
            scope_kinds().contains(token.tree().kind()),
            token.tree().kind() <= ROOT_RAW,
    {
        let tags = vec![Syn::KwServer, Syn::KwUser, Syn::KwNoSave];
        proof {
            assert(tags@.map_values(|tag: Syn| tag.raw()) =~= scope_kinds());
            lemma_first_pick(self.tree().children(), 0, false, scope_kinds());
        }
        match token_child(&self.0, tags) {
            Some(token) => token,
            None => vstd::pervasive::unreached(),
        }
    }

    /// The kinds of the yielded tokens (if any) will each be one of the
    /// following:
    /// - [`Syn::KwNoArchive`]
    /// - [`Syn::KwCheat`]
    /// - [`Syn::KwLatch`]
    pub fn qualifiers(&self) -> (tokens: Vec<Token>)
        ensures
            token_forest(tokens@) == tokens_of(self.tree().children(), qualifier_kinds()),
    {
        let tags = vec![Syn::KwNoArchive, Syn::KwCheat, Syn::KwLatch];
        let kinds = raw_kinds(tags);
        assert(kinds@ =~= qualifier_kinds());
        let children = crate::cursor::children_with_tokens(&self.0);
        let ghost forest = self.tree().children();
        let ghost wanted = |tree: Tree| crate::cursor::is_pick(tree, false, qualifier_kinds());
        let mut tokens: Vec<Token> = Vec::new();
        let mut at: usize = 0;
        proof {
            assert(crate::cursor::element_forest(children@).len() == children@.len());
            assert(forest.take(0) =~= Seq::<Tree>::empty());
            assert(token_forest(tokens@) =~= forest.take(0).filter(wanted));
        }
        while at < children.len()
            invariant
                at <= children@.len() == forest.len(),
                kinds@ == qualifier_kinds(),
                wanted == |tree: Tree| crate::cursor::is_pick(tree, false, qualifier_kinds()),
                crate::cursor::element_forest(children@) == forest,
                forall|i: int|
                    0 <= i < children@.len() ==> (#[trigger] children@[i] is Node) == (
                    element_tree(children@[i]) is Node),
                token_forest(tokens@) == forest.take(at as int).filter(wanted),
            decreases children.len() - at,
        {
            let ghost before = token_forest(tokens@);
            proof {
                assert(element_tree(children@[at as int]) == crate::cursor::element_forest(
                    children@,
                )[at as int]);
                assert(forest.take(at + 1) =~= forest.take(at as int).push(forest[at as int]));
                forest.take(at as int).lemma_filter_push(forest[at as int], wanted);
            }
            if let rowan::NodeOrToken::Token(token) = &children[at] {
                if crate::cursor::is_kind_among(token_kind(token).0, &kinds) {
                    tokens.push(Token(token.clone()));
                    proof {
                        assert(token_forest(tokens@) =~= before.push(forest[at as int]));
                    }
                }
            }
            at = at + 1;
        }
        proof {
            assert(forest.take(at as int) =~= forest);
        }
        tokens
    }
}

impl AstNode for Flags {
    open spec fn castable(kind: u16) -> bool {
        kind == Syn::Flags.raw()
    }

    closed spec fn tree(&self) -> Tree {
        syntax_node_tree(self.0)
    }

    fn can_cast(kind: rowan::SyntaxKind) -> (yes: bool) {
        kind.0 == Syn::Flags.to_raw()
    }

    fn cast(node: rowan::cursor::SyntaxNode) -> (out: Option<Self>) {
        if Self::can_cast(node_kind(&node)) {
            Some(Flags(node))
        } else {
            None
        }
    }

    fn syntax(&self) -> (node: &rowan::cursor::SyntaxNode) {
        &self.0
    }
}

/// Abstract syntax tree node representing a default clause.
#[derive(Debug, Clone, PartialEq, Eq)]
pub struct Default(rowan::cursor::SyntaxNode);

impl Default {
    /// The kind of the returned token will be one of the following:
    /// [`Syn::LitFalse`]
    /// [`Syn::LitTrue`]
    /// [`Syn::LitInt`]
    /// [`Syn::LitFloat`]
    /// [`Syn::LitString`]
    #[must_use]
    pub fn literal(&self) -> (token: Token)
        requires
            last_leaf(self.tree()).is_some(),
        ensures
            Some(token.tree()) == last_leaf(self.tree()),
    {
        match last_token(&self.0) {
            Some(token) => Token(token),
            None => vstd::pervasive::unreached(),
        }
    }
}

impl AstNode for Default {
    open spec fn castable(kind: u16) -> bool {
        kind == Syn::DefaultDef.raw()
    }

    closed spec fn tree(&self) -> Tree {
        syntax_node_tree(self.0)
    }

    fn can_cast(kind: rowan::SyntaxKind) -> (yes: bool) {
        kind.0 == Syn::DefaultDef.to_raw()
    }

    fn cast(node: rowan::cursor::SyntaxNode) -> (out: Option<Self>) {
        if Self::can_cast(node_kind(&node)) {
            Some(Default(node))
        } else {
            None
        }
    }

    fn syntax(&self) -> (node: &rowan::cursor::SyntaxNode) {
        &self.0
    }
}

/// Whether a tree has the parts that the views of this module hand out
/// without asking: a node of flags, a type keyword and a name among its
/// children, and, where it has a default clause, a literal at the end of it.
pub open spec fn is_complete(tree: Tree) -> bool {
    &&& first_node_of(tree, Syn::Flags.raw()).is_some()
    &&& first_token_of(tree, type_kinds()).is_some()
    &&& first_token_of(tree, seq![Syn::Ident.raw()]).is_some()
    &&& first_node_of(tree, Syn::DefaultDef.raw()) matches Some(clause) ==> last_leaf(
        clause,
    ).is_some()
}

/// What does not come before the first pick is found behind it: where no
/// tree from `from` up to `place` is a pick and the one at `place` is, the
/// first pick from `from` on is the one at `place`.
pub proof fn lemma_first_pick_at(
    forest: Seq<Tree>,
    from: int,
    place: int,
    node: bool,
    kinds: Seq<u16>,
)
    requires
        0 <= from <= place < forest.len(),
        forall|i: int| from <= i < place ==> !is_pick(#[trigger] forest[i], node, kinds),
        is_pick(forest[place], node, kinds),
    ensures
        first_pick(forest, from, node, kinds) == Some(place),
    decreases place - from,
{
    if from < place {
        lemma_first_pick_at(forest, from + 1, place, node, kinds);
    }
}

/// A run of whitespace and comments consists of tokens tagged as whitespace
/// or comment.
pub proof fn lemma_trivia_run_kinds(text: Seq<u8>, pos: int)
    requires
        0 <= pos <= text.len(),
    ensures
        forall|i: int|
            0 <= i < items_from(text, pos, false).0.len() ==> {
                let item = #[trigger] items_from(text, pos, false).0[i];
                item is Token && (item.kind() == Syn::Whitespace.raw() || item.kind()
                    == Syn::Comment.raw())
            },
    decreases text.len() - pos,
{
    if let Some(lexeme) = trivia_at(text, pos) {
        lemma_item_progress(text, pos, false);
        lemma_trivia_run_kinds(text, lexeme.end);
        let rest = items_from(text, lexeme.end, false).0;
        let all = items_from(text, pos, false).0;
        assert forall|i: int| 0 <= i < all.len() implies {
            let item = #[trigger] all[i];
            item is Token && (item.kind() == Syn::Whitespace.raw() || item.kind()
                == Syn::Comment.raw())
        } by {
            if i > 0 {
                assert(all[i] == rest[i - 1]);
            }
        }
    }
}

/// Every declaration that the parser accepts is complete.
pub proof fn lemma_definition_complete(text: Seq<u8>, pos: int)
    requires
        0 <= pos <= text.len(),
        definition_at(text, pos) is Parsed,
    ensures
        is_complete(definition_at(text, pos)->tree),
        definition_at(text, pos)->tree is Node,
        definition_at(text, pos)->tree.kind() == Syn::Definition.raw(),
{
    let flags = items_from(text, pos, true);
    lemma_items_progress(text, pos, true);
    let type_spec = type_spec_at(text, flags.1).unwrap();
    lemma_keyword_progress(text, flags.1, |name: Seq<u8>| type_of(name));
    let gap = items_from(text, type_spec.end, false);
    lemma_items_progress(text, type_spec.end, false);
    lemma_trivia_run_kinds(text, type_spec.end);
    let name_end = ident_end(text, gap.1).unwrap();
    let group = branch(Syn::Flags.raw(), flags.0);
    let kind = lexeme_tree(text, flags.1, type_spec);
    let name = leaf(Syn::Ident.raw(), text, gap.1, name_end);
    let front = seq![group, kind] + gap.0 + seq![name];
    let name_at: int = 2 + gap.0.len() as int;
    let tree = definition_at(text, pos)->tree;
    let children = tree.children();
    let tail: Seq<Tree> = children.skip(front.len() as int);
    assert(children =~= front + tail);
    assert(children[0] == group);
    assert(children[1] == kind);
    assert(children[name_at] == name);
    assert forall|i: int| 2 <= i < name_at implies children[i] == gap.0[i - 2] by {}
    // The flags stand first.
    assert(seq![Syn::Flags.raw()][0] == Syn::Flags.raw());
    lemma_first_pick_at(children, 0, 0, true, seq![Syn::Flags.raw()]);
    // The type keyword is the first token, and its kind is one of the five.
    let type_word = text.subrange(flags.1, type_spec.end);
    assert(type_kinds().contains(kind.kind())) by {
        let kinds = type_kinds();
        assert(kinds[0] == Syn::TypeInt.raw() && kinds[1] == Syn::TypeFloat.raw() && kinds[2]
            == Syn::TypeBool.raw() && kinds[3] == Syn::TypeString.raw() && kinds[4]
            == Syn::TypeColor.raw());
        assert(type_of(type_word) == Some(type_spec.kind));
    }
    lemma_first_pick_at(children, 0, 1, false, type_kinds());
    // The name is the first token tagged as an identifier.
    assert(seq![Syn::Ident.raw()][0] == Syn::Ident.raw());
    assert(type_of(type_word) == Some(type_spec.kind));
    assert forall|i: int| 0 <= i < name_at implies !is_pick(
        #[trigger] children[i],
        false,
        seq![Syn::Ident.raw()],
    ) by {
        if i >= 2 {
            assert(children[i] == gap.0[i - 2]);
        }
    }
    lemma_first_pick_at(children, 0, name_at, false, seq![Syn::Ident.raw()]);
    // A default clause ends with its literal.
    match default_at(text, name_end) {
        Outcome::Parsed { tree: clause, end, notes } => {
            if byte_at(text, end, 0x3B) {
                assert(tail =~= seq![clause, leaf(Syn::Semicolon.raw(), text, end, end + 1)]);
                assert(children[front.len() as int] == clause);
                assert(seq![Syn::DefaultDef.raw()][0] == Syn::DefaultDef.raw());
                assert forall|i: int| 0 <= i < front.len() implies !is_pick(
                    #[trigger] children[i],
                    true,
                    seq![Syn::DefaultDef.raw()],
                ) by {
                    if i >= 2 && i < name_at {
                        assert(children[i] == gap.0[i - 2]);
                    }
                }
                lemma_first_pick_at(
                    children,
                    0,
                    front.len() as int,
                    true,
                    seq![Syn::DefaultDef.raw()],
                );
                assert(last_leaf(clause).is_some()) by {
                    reveal_with_fuel(last_leaf, 3);
                    let lead = items_from(text, name_end, false);
                    let space = items_from(text, lead.1 + 1, false);
                    let value = lexeme_tree(text, space.1, literal_at(text, space.1).unwrap());
                    let parts = lead.0 + seq![leaf(Syn::Eq.raw(), text, lead.1, lead.1 + 1)]
                        + space.0 + seq![value];
                    assert(clause.children() == parts);
                    assert(parts.last() == value);
                }
            }
        },
        Outcome::Failed { at, reason } => {
            if byte_at(text, name_end, 0x3B) {
                assert(tail =~= seq![leaf(Syn::Semicolon.raw(), text, name_end, name_end + 1)]);
                assert forall|i: int| 0 <= i < children.len() implies !is_pick(
                    #[trigger] children[i],
                    true,
                    seq![Syn::DefaultDef.raw()],
                ) by {
                    if i >= 2 && i < name_at {
                        assert(children[i] == gap.0[i - 2]);
                    }
                }
                lemma_no_pick(children, 0, true, seq![Syn::DefaultDef.raw()]);
            }
        },
    }
}

/// Where no tree is a pick, none is found.
pub proof fn lemma_no_pick(forest: Seq<Tree>, from: int, node: bool, kinds: Seq<u16>)
    requires
        0 <= from,
        forall|i: int| from <= i < forest.len() ==> !is_pick(#[trigger] forest[i], node, kinds),
    ensures
        first_pick(forest, from, node, kinds).is_none(),
    decreases forest.len() - from,
{
    if from < forest.len() {
        lemma_no_pick(forest, from + 1, node, kinds);
    }
}

/// Every node among the children of the root of a parsed file is a complete
/// declaration: what [`CVar`] hands out of it is there.
pub proof fn lemma_items_complete(text: Seq<u8>, pos: int, tolerant: bool)
    requires
        0 <= pos <= text.len(),
    ensures
        forall|i: int|
            0 <= i < document_from(text, pos, tolerant).items.len() ==> {
                let item = #[trigger] document_from(text, pos, tolerant).items[i];
                item is Node ==> item.kind() == Syn::Definition.raw() && is_complete(item)
            },
    decreases text.len() - pos,
{
    if pos < text.len() {
        reveal(unit_at);
        lemma_unit_progress(text, pos, tolerant);
        let unit = unit_at(text, pos, tolerant);
        match unit.next {
            Some(end) => {
                lemma_items_complete(text, end, tolerant);
                if trivia_at(text, pos).is_none() && definition_at(text, pos) is Parsed {
                    lemma_definition_complete(text, pos);
                }
                let rest = document_from(text, end, tolerant).items;
                let all = document_from(text, pos, tolerant).items;
                assert forall|i: int| 0 <= i < all.len() implies {
                    let item = #[trigger] all[i];
                    item is Node ==> item.kind() == Syn::Definition.raw() && is_complete(item)
                } by {
                    if i >= unit.items.len() {
                        assert(all[i] == rest[i - unit.items.len()]);
                    } else {
                        assert(all[i] == unit.items[i]);
                    }
                }
            },
            None => {},
        }
    }
}

} // verus!
