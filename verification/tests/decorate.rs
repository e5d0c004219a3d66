use doomfront::builder::{build_green_tree, BLex};
use doomfront::decorate::ast::{EnumDef, EnumVariant, ExprBinary, Expression, LitToken, Name};
use doomfront::decorate::{Syn, ROOT_RAW};
use doomfront::AstNode;
use rowan::cursor::{SyntaxNode, SyntaxToken};
use rowan::{Language, SyntaxKind};

fn kind(tag: Syn) -> SyntaxKind {
    SyntaxKind::from(tag)
}

/// A cursor over a tree with one token of the given tag and text under the
/// root.
fn lone_token(tag: Syn, text: &str) -> SyntaxToken {
    let stream = vec![
        BLex::StartNode(kind(Syn::Root)),
        BLex::Token(kind(tag), 0..text.len()),
        BLex::FinishNode,
    ];
    let root = SyntaxNode::new_root(build_green_tree(text, stream));
    root.first_token().unwrap()
}

#[test]
fn trivia_tags() {
    assert!(Syn::Comment.is_trivia());
    assert!(Syn::Whitespace.is_trivia());
    assert!(!Syn::Ident.is_trivia());
    assert!(!Syn::Unknown.is_trivia());
    assert!(!Syn::Root.is_trivia());
    assert!(!Syn::EnumDef.is_trivia());
    let mut trivia = 0;
    for raw in 0..=ROOT_RAW {
        if Syn::kind_from_raw(SyntaxKind(raw)).is_trivia() {
            trivia += 1;
        }
    }
    assert_eq!(trivia, 2);
}

#[test]
fn decorate_tags_and_numbers() {
    assert_eq!(ROOT_RAW, 86);
    assert_eq!(kind(Syn::EnumDef), SyntaxKind(0));
    assert_eq!(kind(Syn::Root), SyntaxKind(86));
    assert_eq!(Syn::Plus.to_raw(), kind(Syn::Plus).0);
    for raw in 0..=ROOT_RAW {
        let tag = Syn::kind_from_raw(SyntaxKind(raw));
        assert_eq!(Syn::kind_to_raw(tag), SyntaxKind(raw));
        assert_eq!(tag.to_raw(), raw);
    }
    assert_eq!(Syn::kind_from_raw(SyntaxKind(11)), Syn::KwAction);
}

#[test]
fn enum_definition_views() {
    // enum { A = 1 + 2, B };
    let source = "enum { A = 1 + 2, B };";
    let stream = vec![
        BLex::StartNode(kind(Syn::EnumDef)),
        BLex::Token(kind(Syn::KwEnum), 0..4),
        BLex::Token(kind(Syn::Whitespace), 4..5),
        BLex::Token(kind(Syn::BraceL), 5..6),
        BLex::Token(kind(Syn::Whitespace), 6..7),
        BLex::StartNode(kind(Syn::EnumVariant)),
        BLex::StartNode(kind(Syn::Name)),
        BLex::Token(kind(Syn::Ident), 7..8),
        BLex::FinishNode,
        BLex::Token(kind(Syn::Whitespace), 8..9),
        BLex::Token(kind(Syn::Eq), 9..10),
        BLex::Token(kind(Syn::Whitespace), 10..11),
        BLex::Checkpoint,
        BLex::StartNode(kind(Syn::Literal)),
        BLex::Token(kind(Syn::LitInt), 11..12),
        BLex::FinishNode,
        BLex::StartNodeAt(kind(Syn::ExprBinary)),
        BLex::Token(kind(Syn::Whitespace), 12..13),
        BLex::Token(kind(Syn::Plus), 13..14),
        BLex::Token(kind(Syn::Whitespace), 14..15),
        BLex::StartNode(kind(Syn::Literal)),
        BLex::Token(kind(Syn::LitInt), 15..16),
        BLex::FinishNode,
        BLex::FinishNode,
        BLex::FinishNode,
        BLex::Token(kind(Syn::Comma), 16..17),
        BLex::Token(kind(Syn::Whitespace), 17..18),
        BLex::StartNode(kind(Syn::EnumVariant)),
        BLex::StartNode(kind(Syn::Name)),
        BLex::Token(kind(Syn::Ident), 18..19),
        BLex::FinishNode,
        BLex::FinishNode,
        BLex::Token(kind(Syn::Whitespace), 19..20),
        BLex::Token(kind(Syn::BraceR), 20..21),
        BLex::Token(kind(Syn::Semicolon), 21..22),
        BLex::FinishNode,
    ];
    let root = SyntaxNode::new_root(build_green_tree(source, stream));
    assert_eq!(root.to_string(), source);

    assert!(EnumVariant::cast(root.clone()).is_none());
    assert!(Expression::cast(root.clone()).is_none());
    let def = EnumDef::cast(root.clone()).unwrap();
    assert_eq!(def.syntax(), &root);
    let variants = def.variants();
    assert_eq!(variants.len(), 2);

    assert_eq!(variants[0].name().ident().text(), "A");
    assert_eq!(variants[0].name().ident().kind(), Syn::Ident);
    let expr = variants[0].expr().unwrap();
    assert_eq!(expr.syntax().to_string(), "1 + 2");
    let binary = match expr.clone() {
        Expression::Binary(binary) => binary,
        other => panic!("expected a binary expression, found {other:?}"),
    };
    assert!(expr.into_literal().is_none());
    assert_eq!(binary.operator().kind(), Syn::Plus);
    assert_eq!(binary.operator().text(), "+");
    let left = binary.left().into_literal().unwrap();
    let right = binary.right().into_literal().unwrap();
    assert_eq!(left.syntax().to_string(), "1");
    assert_eq!(right.syntax().to_string(), "2");
    assert!(ExprBinary::cast(left.syntax().clone()).is_none());

    assert_eq!(variants[1].name().ident().text(), "B");
    // Without a value the last child node is the name itself.
    match variants[1].expr() {
        Some(Expression::Name(name)) => assert_eq!(name.ident().text(), "B"),
        other => panic!("expected the name, found {other:?}"),
    }

    assert!(Expression::can_cast(kind(Syn::ExprTernary)));
    assert!(Expression::can_cast(kind(Syn::Name)));
    assert!(!Expression::can_cast(kind(Syn::EnumDef)));
    assert!(Name::can_cast(kind(Syn::Name)));
    assert!(!Name::can_cast(kind(Syn::Label)));
}

#[test]
fn boolean_literals() {
    assert_eq!(LitToken::new(lone_token(Syn::LitTrue, "true")).bool(), Some(true));
    assert_eq!(LitToken::new(lone_token(Syn::LitFalse, "false")).bool(), Some(false));
    assert_eq!(LitToken::new(lone_token(Syn::LitInt, "1")).bool(), None);
    assert_eq!(LitToken::new(lone_token(Syn::Ident, "true")).bool(), None);
}

#[test]
fn integer_literals_are_evaluated() {
    let cases: [(&str, Option<u64>); 16] = [
        ("0", Some(0)),
        ("42", Some(42)),
        ("42u", Some(42)),
        ("42UL", Some(42)),
        ("42lLuU", Some(42)),
        ("0x1f", Some(31)),
        ("0xFFul", Some(255)),
        ("0xffffffffffffffff", Some(u64::MAX)),
        ("18446744073709551615", Some(u64::MAX)),
        ("18446744073709551616", None),
        ("0x10000000000000000", None),
        // Octal literals are read in decimal.
        ("017", Some(17)),
        // Only a lower-case `x` opens a hexadecimal literal.
        ("0X1F", None),
        ("0x", None),
        ("0xu", None),
        ("+7", Some(7)),
    ];
    for (text, expected) in cases {
        let value = LitToken::new(lone_token(Syn::LitInt, text)).integer().unwrap();
        assert_eq!(value.ok(), expected, "{text}");
    }
    assert!(LitToken::new(lone_token(Syn::LitFloat, "42")).integer().is_none());
    let token = LitToken::new(lone_token(Syn::LitInt, "7"));
    assert_eq!(token.syntax().text(), "7");
}

#[test]
fn quoted_literals_are_stripped() {
    let string = |text: &str| LitToken::new(lone_token(Syn::LitString, text));
    assert_eq!(string("\"hello\"").string(), Some("hello"));
    assert_eq!(string("\"\"").string(), Some(""));
    assert_eq!(string("\"a\"b\"").string(), Some("a\"b"));
    assert_eq!(string("x\"caf\u{e9}\"y").string(), Some("caf\u{e9}"));
    assert_eq!(string("\"").string(), None);
    assert_eq!(string("none").string(), None);
    assert_eq!(string("\"hello\"").name(), None);

    let name = |text: &str| LitToken::new(lone_token(Syn::LitName, text));
    assert_eq!(name("'Zombie'").name(), Some("Zombie"));
    assert_eq!(name("''").name(), Some(""));
    assert_eq!(name("'").name(), None);
    assert_eq!(name("'Zombie'").string(), None);
}

#[test]
fn float_literals_lose_their_suffix() {
    let float = |text: &str| LitToken::new(lone_token(Syn::LitFloat, text));
    assert_eq!(float("0.4").float_text(), Some("0.4"));
    assert_eq!(float("0.4f").float_text(), Some("0.4"));
    assert_eq!(float("1e5F").float_text(), Some("1e5"));
    assert_eq!(float("1.fFf").float_text(), Some("1."));
    assert_eq!(float("f1").float_text(), Some("f1"));
    assert_eq!(float("caf\u{e9}ff").float_text(), Some("caf\u{e9}"));
    assert_eq!(LitToken::new(lone_token(Syn::LitInt, "1f")).float_text(), None);
    assert_eq!(LitToken::new(lone_token(Syn::LitString, "0.4")).float_text(), None);
}
