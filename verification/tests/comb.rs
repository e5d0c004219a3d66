use doomfront::cvarinfo::Syn;
use doomfront::{comb, help, ParseOut};
use rowan::{NodeOrToken, SyntaxKind};

const KIND: SyntaxKind = SyntaxKind(7);

/// What a token parser found: the token's kind, its text, and where it ends.
fn found(out: Option<(ParseOut, usize)>) -> Option<(u16, String, usize)> {
    out.map(|(element, end)| match element {
        NodeOrToken::Token(token) => (token.kind().0, token.text().to_string(), end),
        NodeOrToken::Node(_) => panic!("a token parser handed out a node"),
    })
}

fn token(kind: u16, text: &str, end: usize) -> Option<(u16, String, usize)> {
    Some((kind, text.to_string(), end))
}

#[test]
fn just_matches_exactly() {
    assert_eq!(found(comb::just(";", KIND, "a;b", 1)), token(7, ";", 2));
    assert_eq!(found(comb::just("true", KIND, "truex", 0)), token(7, "true", 4));
    assert_eq!(found(comb::just("true", KIND, "True", 0)), None);
    assert_eq!(found(comb::just("true", KIND, "tru", 0)), None);
    assert_eq!(found(comb::just("é", KIND, "café", 3)), token(7, "é", 5));
    assert_eq!(found(comb::just("", KIND, "ab", 1)), token(7, "", 1));
    assert_eq!(found(comb::just("", KIND, "ab", 2)), token(7, "", 2));
    assert_eq!(found(comb::just("", KIND, "ab", 3)), None);
    assert_eq!(found(comb::just("", KIND, "é", 1)), None);
    assert_eq!(found(comb::just("b", KIND, "ab", 9)), None);
}

#[test]
fn just_nc_takes_whole_identifiers() {
    assert_eq!(comb::just_nc("server", "SERVER int", 0), Some(6));
    assert_eq!(comb::just_nc("server", "Server", 0), Some(6));
    assert_eq!(comb::just_nc("server", "server", 0), Some(6));
    assert_eq!(comb::just_nc("server", "servers", 0), None);
    assert_eq!(comb::just_nc("server", "serve", 0), None);
    assert_eq!(comb::just_nc("server", " server", 0), None);
    assert_eq!(comb::just_nc("server", " server", 1), Some(7));
    assert_eq!(comb::just_nc("a_1", "A_1+", 0), Some(3));
    assert_eq!(comb::just_nc("k", "K", 0), Some(1));
    // Only ASCII letters are folded: the Kelvin sign is no `k`.
    assert_eq!(comb::just_nc("k", "\u{212a}", 0), None);
    assert_eq!(comb::just_nc("1a", "1a", 0), None);
    assert_eq!(found(comb::keyword("int", KIND, "x iNt;", 2)), token(7, "iNt", 5));
    assert_eq!(found(comb::ident("x1_y z", KIND, 0)), token(7, "x1_y", 4));
    assert_eq!(found(comb::ident("_", KIND, 0)), token(7, "_", 1));
    assert_eq!(found(comb::ident("9x", KIND, 0)), None);
}

#[test]
fn whitespace_is_folded_into_one_token() {
    assert_eq!(found(comb::wsp::<Syn>(" \r\n\t x", 0)), token(25, " \r\n\t ", 5));
    assert_eq!(found(comb::wsp::<Syn>("a  b", 1)), token(25, "  ", 3));
    assert_eq!(found(comb::wsp::<Syn>("a  ", 1)), token(25, "  ", 3));
    assert_eq!(found(comb::wsp::<Syn>("a", 0)), None);
    assert_eq!(found(comb::wsp::<Syn>("\u{a0}", 0)), None);
    assert_eq!(found(comb::wsp::<Syn>("\x0b", 0)), None);
    assert_eq!(found(comb::wsp::<Syn>(" ", 1)), None);
    assert_eq!(found(comb::wsp::<doomfront::decorate::Syn>(" ", 0)), token(85, " ", 1));
}

#[test]
fn comments_of_both_forms() {
    assert_eq!(found(comb::cpp_comment::<Syn>("// a\nb", 0)), token(23, "// a\n", 5));
    assert_eq!(found(comb::cpp_comment::<Syn>("// a\r\nb", 0)), token(23, "// a\r\n", 6));
    assert_eq!(found(comb::cpp_comment::<Syn>("// a\rb", 0)), token(23, "// a\r", 5));
    assert_eq!(found(comb::cpp_comment::<Syn>("//\x0cb", 0)), token(23, "//\x0c", 3));
    assert_eq!(found(comb::cpp_comment::<Syn>("//a\u{85}b", 0)), token(23, "//a\u{85}", 5));
    assert_eq!(found(comb::cpp_comment::<Syn>("//a\u{2028}b", 0)), token(23, "//a\u{2028}", 6));
    assert_eq!(found(comb::cpp_comment::<Syn>("//a\u{2029}", 0)), token(23, "//a\u{2029}", 6));
    assert_eq!(found(comb::cpp_comment::<Syn>("//é\u{2027}x", 0)), token(23, "//é\u{2027}x", 8));
    assert_eq!(found(comb::cpp_comment::<Syn>("//", 0)), token(23, "//", 2));
    assert_eq!(found(comb::cpp_comment::<Syn>("/ /", 0)), None);
    assert_eq!(found(comb::cpp_comment::<Syn>("/", 0)), None);

    assert_eq!(found(comb::c_comment::<Syn>("/* a */ b", 0)), token(23, "/* a */", 7));
    assert_eq!(found(comb::c_comment::<Syn>("/**/", 0)), token(23, "/**/", 4));
    assert_eq!(found(comb::c_comment::<Syn>("/*/ */", 0)), token(23, "/*/ */", 6));
    assert_eq!(found(comb::c_comment::<Syn>("/* /* */ */", 0)), token(23, "/* /* */", 8));
    assert_eq!(found(comb::c_comment::<Syn>("/* é\n*/", 0)), token(23, "/* é\n*/", 8));
    assert_eq!(found(comb::c_comment::<Syn>("/* never", 0)), None);
    assert_eq!(found(comb::c_comment::<Syn>("/*/", 0)), None);
    assert_eq!(found(comb::c_comment::<Syn>("// a", 0)), None);

    assert_eq!(found(comb::c_cpp_comment::<Syn>("/* a */", 0)), token(23, "/* a */", 7));
    assert_eq!(found(comb::c_cpp_comment::<Syn>("// a", 0)), token(23, "// a", 4));
    assert_eq!(found(comb::c_cpp_comment::<Syn>("/ a", 0)), None);
    assert_eq!(
        found(comb::c_cpp_comment::<doomfront::decorate::Syn>("//", 0)),
        token(82, "//", 2)
    );
}

#[test]
fn whitespace_or_comment() {
    let source = " /*c*/x";
    let comment = comb::c_cpp_comment::<Syn>(source, 0);
    assert_eq!(found(comb::wsp_ext::<Syn>(comment, source, 0)), token(25, " ", 1));
    let comment = comb::c_cpp_comment::<Syn>(source, 1);
    assert_eq!(found(comb::wsp_ext::<Syn>(comment, source, 1)), token(23, "/*c*/", 6));
    let comment = comb::c_cpp_comment::<Syn>(source, 6);
    assert_eq!(found(comb::wsp_ext::<Syn>(comment, source, 6)), None);
}

#[test]
fn single_digits() {
    for (index, c) in "0123456789abcdefABCDEFgG xX_".char_indices() {
        let source = "0123456789abcdefABCDEFgG xX_";
        let next = Some(index + 1);
        assert_eq!(comb::dec_digit(source, index), if c.is_ascii_digit() { next } else { None });
        assert_eq!(comb::hex_digit(source, index), if c.is_ascii_hexdigit() { next } else { None });
        assert_eq!(comb::oct_digit(source, index), if c.is_digit(8) { next } else { None });
    }
    assert_eq!(comb::dec_digit("1", 1), None);
    assert_eq!(comb::hex_digit("", 0), None);
}

#[test]
fn integer_literals() {
    let cases = [
        ("0", Some(1)),
        ("7", Some(1)),
        ("1234567890", Some(10)),
        ("12ab", Some(2)),
        ("0x1F", Some(4)),
        ("0Xff", Some(4)),
        ("0xfg", Some(3)),
        ("0x", Some(1)),
        ("0xg", Some(1)),
        ("017", Some(3)),
        ("0178", Some(3)),
        ("08", Some(2)),
        ("00", Some(2)),
        ("1u", Some(2)),
        ("1U", Some(2)),
        ("1l", Some(2)),
        ("1L", Some(2)),
        ("1ul", Some(3)),
        ("1lu", Some(3)),
        ("1uu", Some(3)),
        ("1LL", Some(3)),
        ("1ull", Some(3)),
        ("0x1ful", Some(6)),
        ("07Lu", Some(4)),
        ("1z", Some(1)),
        ("", None),
        ("x1", None),
        ("-1", None),
        ("u1", None),
    ];
    for (source, end) in cases {
        let expect = end.map(|e| (7u16, source[..e].to_string(), e));
        assert_eq!(found(comb::c_int(source, KIND, 0)), expect, "{source}");
    }
    assert_eq!(found(comb::c_int("a 42;", KIND, 2)), token(7, "42", 4));
}

#[test]
fn float_literals() {
    let cases = [
        ("0.4", Some(3)),
        ("1e5", Some(3)),
        ("1E5", Some(3)),
        ("1e+5", Some(4)),
        ("1e-55", Some(5)),
        ("1e5f", Some(4)),
        ("1e5F", Some(4)),
        ("1e5ff", Some(4)),
        ("1e", None),
        ("1e+", None),
        ("1ex", None),
        ("1", None),
        ("1f", None),
        (".5", Some(2)),
        (".5e3", Some(4)),
        (".5e", Some(2)),
        (".5f", Some(3)),
        (".", None),
        (".e5", None),
        ("1.", Some(2)),
        ("1.f", Some(3)),
        ("1.e5", Some(4)),
        ("1.e", Some(2)),
        ("1.5", Some(3)),
        ("1.5e-3F", Some(7)),
        ("1.5.5", Some(3)),
        ("12.34e+56fx", Some(10)),
        ("1e5.5", Some(3)),
        ("", None),
        ("e5", None),
        ("-1.0", None),
    ];
    for (source, end) in cases {
        let expect = end.map(|e| (7u16, source[..e].to_string(), e));
        assert_eq!(found(comb::c_float_literal(source, KIND, 0)), expect, "{source}");
    }
    assert_eq!(found(comb::c_float_literal("= 0.4;", KIND, 2)), token(7, "0.4", 5));
}

#[test]
fn tokens_and_nodes_from_helpers() {
    let source = "héllo wörld";
    let word = help::map_tok(source, SyntaxKind(3), 0, 6);
    assert_eq!(found(Some((word.clone(), 6))), token(3, "héllo", 6));
    let empty = help::map_tok(source, SyntaxKind(4), 6, 6);
    assert_eq!(found(Some((empty, 6))), token(4, "", 6));
    let node = help::map_node(SyntaxKind(9), word);
    match node {
        NodeOrToken::Node(node) => {
            assert_eq!(node.kind(), SyntaxKind(9));
            assert_eq!(node.children().count(), 1);
            assert_eq!(node.to_string(), "héllo");
        }
        NodeOrToken::Token(_) => panic!("expected a node"),
    }
}
