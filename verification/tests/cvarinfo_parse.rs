use doomfront::cvarinfo::{parse, parse_recov, Syn};
use doomfront::error::Reason;
use rowan::{GreenNode, NodeOrToken, SyntaxNode};

fn kinds_and_texts(green: &GreenNode) -> Vec<(Syn, String)> {
    let root = SyntaxNode::<Syn>::new_root(green.clone());
    root.children_with_tokens()
        .map(|child| match child {
            NodeOrToken::Node(node) => (node.kind(), node.text().to_string()),
            NodeOrToken::Token(token) => (token.kind(), token.text().to_string()),
        })
        .collect()
}

fn tokens_of(green: &GreenNode) -> Vec<(Syn, String)> {
    let root = SyntaxNode::<Syn>::new_root(green.clone());
    root.descendants_with_tokens()
        .filter_map(|child| child.into_token())
        .map(|token| (token.kind(), token.text().to_string()))
        .collect()
}

fn pair(kind: Syn, text: &str) -> (Syn, String) {
    (kind, text.to_string())
}

#[test]
fn plain_declaration() {
    let source = "server int egghead_roundabout;";
    let parsed = parse(source).unwrap();
    assert!(!parsed.any_errors());
    assert_eq!(parsed.raw().kind(), rowan::SyntaxKind(26));
    assert_eq!(kinds_and_texts(parsed.raw()), vec![pair(Syn::Definition, source)]);
    assert_eq!(
        tokens_of(parsed.raw()),
        vec![
            pair(Syn::KwServer, "server"),
            pair(Syn::Whitespace, " "),
            pair(Syn::TypeInt, "int"),
            pair(Syn::Whitespace, " "),
            pair(Syn::Ident, "egghead_roundabout"),
            pair(Syn::Semicolon, ";"),
        ]
    );
    let root = SyntaxNode::<Syn>::new_root(parsed.raw().clone());
    let definition = root.first_child().unwrap();
    let shape: Vec<Syn> = definition.children_with_tokens().map(|c| c.kind()).collect();
    assert_eq!(
        shape,
        vec![Syn::Flags, Syn::TypeInt, Syn::Whitespace, Syn::Ident, Syn::Semicolon]
    );
}

#[test]
fn declaration_with_float_default() {
    let source = "user float acidSurge = 0.4;";
    let parsed = parse_recov(source).unwrap();
    assert!(!parsed.any_errors());
    assert_eq!(kinds_and_texts(parsed.raw()), vec![pair(Syn::Definition, source)]);
    let root = SyntaxNode::<Syn>::new_root(parsed.raw().clone());
    let definition = root.first_child().unwrap();
    let default = definition.children().find(|n| n.kind() == Syn::DefaultDef).unwrap();
    assert_eq!(default.text().to_string(), " = 0.4");
    let literal = default.last_token().unwrap();
    assert_eq!(literal.kind(), Syn::LitFloat);
    assert_eq!(literal.text(), "0.4");
    let shape: Vec<Syn> = default.children_with_tokens().map(|c| c.kind()).collect();
    assert_eq!(shape, vec![Syn::Whitespace, Syn::Eq, Syn::Whitespace, Syn::LitFloat]);
}

#[test]
fn qualifiers_scope_and_string_default() {
    let source = "cheat noarchive nosave string NAME = \"hi\";";
    let parsed = parse(source).unwrap();
    let root = SyntaxNode::<Syn>::new_root(parsed.raw().clone());
    let definition = root.first_child().unwrap();
    let flags = definition.first_child().unwrap();
    assert_eq!(flags.kind(), Syn::Flags);
    let words: Vec<(Syn, String)> = flags
        .children_with_tokens()
        .filter_map(|c| c.into_token())
        .filter(|t| t.kind() != Syn::Whitespace)
        .map(|t| (t.kind(), t.text().to_string()))
        .collect();
    assert_eq!(
        words,
        vec![
            pair(Syn::KwCheat, "cheat"),
            pair(Syn::KwNoArchive, "noarchive"),
            pair(Syn::KwNoSave, "nosave"),
        ]
    );
    let tokens = tokens_of(parsed.raw());
    assert!(tokens.contains(&pair(Syn::TypeString, "string")));
    assert!(tokens.contains(&pair(Syn::Ident, "NAME")));
    assert!(tokens.contains(&pair(Syn::LitString, "\"hi\"")));
}

#[test]
fn missing_literal_is_recovered_from() {
    let source = "server int x = ;";
    let parsed = parse_recov(source).unwrap();
    assert_eq!(parsed.errors().len(), 1);
    let error = parsed.errors()[0];
    assert_eq!(error.reason, Reason::ExpectedLiteral);
    assert_eq!(error.span(), 15..16);
    assert_eq!(error.message(), "expected a literal");
    assert_eq!(
        kinds_and_texts(parsed.raw()),
        vec![pair(Syn::Unknown, "server int x = "), pair(Syn::Semicolon, ";")]
    );
}

#[test]
fn recovery_stops_in_front_of_the_terminator() {
    let parsed = parse_recov("oops; server int x;").unwrap();
    assert_eq!(parsed.errors().len(), 1);
    assert_eq!(parsed.errors()[0].reason, Reason::ExpectedFlag);
    assert_eq!(parsed.errors()[0].span(), 0..1);
    assert_eq!(
        kinds_and_texts(parsed.raw()),
        vec![
            pair(Syn::Unknown, "oops"),
            pair(Syn::Semicolon, ";"),
            pair(Syn::Whitespace, " "),
            pair(Syn::Definition, "server int x;"),
        ]
    );
}

#[test]
fn recovery_leaves_a_line_break_to_the_whitespace() {
    let parsed = parse_recov("oops\r\n\tserver int x;").unwrap();
    assert_eq!(parsed.errors().len(), 1);
    assert_eq!(
        kinds_and_texts(parsed.raw()),
        vec![
            pair(Syn::Unknown, "oops"),
            pair(Syn::Whitespace, "\r\n\t"),
            pair(Syn::Definition, "server int x;"),
        ]
    );
    // The error may lie at the line break itself.
    let parsed = parse_recov("user int x = 1\nuser int y;").unwrap();
    assert_eq!(parsed.errors().len(), 1);
    assert_eq!(parsed.errors()[0].reason, Reason::ExpectedSemicolon);
    assert_eq!(parsed.errors()[0].span(), 14..15);
    assert_eq!(
        kinds_and_texts(parsed.raw()),
        vec![
            pair(Syn::Unknown, "user int x = 1"),
            pair(Syn::Whitespace, "\n"),
            pair(Syn::Definition, "user int y;"),
        ]
    );
    // A line break inside a declaration is whitespace and no place to stop.
    let parsed = parse_recov("user int x\nuser int y;").unwrap();
    assert_eq!(parsed.errors().len(), 1);
    assert_eq!(parsed.errors()[0].reason, Reason::ExpectedDefaultOrSemicolon);
    assert_eq!(parsed.errors()[0].span(), 11..12);
    assert_eq!(
        kinds_and_texts(parsed.raw()),
        vec![pair(Syn::Unknown, "user int x\nuser int y"), pair(Syn::Semicolon, ";")]
    );
}

#[test]
fn a_stray_terminator_is_an_error_and_a_token() {
    let parsed = parse_recov(";").unwrap();
    assert_eq!(parsed.errors().len(), 1);
    assert_eq!(parsed.errors()[0].reason, Reason::ExpectedFlag);
    assert_eq!(kinds_and_texts(parsed.raw()), vec![pair(Syn::Semicolon, ";")]);

    let parsed = parse_recov("user int x;;\n;").unwrap();
    assert_eq!(parsed.errors().len(), 2);
    assert_eq!(
        kinds_and_texts(parsed.raw()),
        vec![
            pair(Syn::Definition, "user int x;"),
            pair(Syn::Semicolon, ";"),
            pair(Syn::Whitespace, "\n"),
            pair(Syn::Semicolon, ";"),
        ]
    );
}

#[test]
fn no_leaf_is_empty() {
    let sources = ["", ";", ";;", "oops;", "a\n;b", "user int x = ;", "server;x\n\nlatch"];
    for source in sources {
        let parsed = parse_recov(source).unwrap();
        for (_, text) in tokens_of(parsed.raw()) {
            assert!(!text.is_empty(), "{source:?}");
        }
    }
}

#[test]
fn an_error_leaves_its_neighbours_alone() {
    let source = "user bool a;\nserver int x = ;\ncheat user int b = 3;";
    let parsed = parse_recov(source).unwrap();
    assert_eq!(parsed.errors().len(), 1);
    assert_eq!(parsed.errors()[0].span(), 28..29);
    assert_eq!(
        kinds_and_texts(parsed.raw()),
        vec![
            pair(Syn::Definition, "user bool a;"),
            pair(Syn::Whitespace, "\n"),
            pair(Syn::Unknown, "server int x = "),
            pair(Syn::Semicolon, ";"),
            pair(Syn::Whitespace, "\n"),
            pair(Syn::Definition, "cheat user int b = 3;"),
        ]
    );
}

#[test]
fn strict_parse_stops_at_the_first_error() {
    let source = "user bool a;\nserver int x = ;\nbroken\ncheat user int b = 3;";
    let errors = parse(source).unwrap_err();
    assert_eq!(errors.len(), 1);
    assert_eq!(errors[0].reason, Reason::ExpectedLiteral);
    assert_eq!(errors[0].span(), 28..29);
    let tolerant = parse_recov(source).unwrap();
    assert_eq!(tolerant.errors().len(), 2);
    assert_eq!(tolerant.errors()[1].reason, Reason::ExpectedFlag);
    assert_eq!(tolerant.errors()[1].span(), 30..31);
}

#[test]
fn empty_input() {
    let parsed = parse_recov("").unwrap();
    assert!(!parsed.any_errors());
    assert_eq!(parsed.raw().children().count(), 0);
    assert_eq!(parsed.raw().kind(), rowan::SyntaxKind(26));
    let strict = parse("").unwrap();
    assert_eq!(strict.raw().children().count(), 0);
    assert!(strict.into_errors().is_empty());
}

#[test]
fn trivia_around_a_comment() {
    let source = "  \t/* one\n two */\r\n ";
    let parsed = parse(source).unwrap();
    assert_eq!(
        kinds_and_texts(parsed.raw()),
        vec![
            pair(Syn::Whitespace, "  \t"),
            pair(Syn::Comment, "/* one\n two */"),
            pair(Syn::Whitespace, "\r\n "),
        ]
    );
    assert_eq!(parsed.raw().to_string(), source);
}

#[test]
fn line_comment_takes_its_line_break() {
    let source = " // Rue des Acacias\n\t// last line";
    let parsed = parse(source).unwrap();
    assert_eq!(
        kinds_and_texts(parsed.raw()),
        vec![
            pair(Syn::Whitespace, " "),
            pair(Syn::Comment, "// Rue des Acacias\n"),
            pair(Syn::Whitespace, "\t"),
            pair(Syn::Comment, "// last line"),
        ]
    );
}

#[test]
fn keywords_ignore_case() {
    for word in ["SERVER", "Server", "server", "sErVeR"] {
        let source = format!("{word} INT x;");
        let parsed = parse(&source).unwrap();
        let tokens = tokens_of(parsed.raw());
        assert_eq!(tokens[0], pair(Syn::KwServer, word));
        assert_eq!(tokens[2], pair(Syn::TypeInt, "INT"));
    }
    let parsed = parse("user bool b = TRUE;").unwrap();
    assert!(tokens_of(parsed.raw()).contains(&pair(Syn::LitTrue, "TRUE")));
    let parsed = parse("user bool b = False;").unwrap();
    assert!(tokens_of(parsed.raw()).contains(&pair(Syn::LitFalse, "False")));
}

#[test]
fn text_is_kept_whatever_the_input() {
    let sources = [
        "server int x = ;",
        "@@@",
        "server\nint x",
        "user string s = \"unterminated;\nuser int y;",
        "/* never closed",
        "user float f = 1e;",
        "nosave color c = \"ff 00 00\"; // red\n",
        "user string s = \"caf\u{e9}\"; // \u{2028}latch bool q;",
        "\u{feff}server int x;",
        ";;;\n;",
    ];
    for source in sources {
        let parsed = parse_recov(source).unwrap();
        assert_eq!(parsed.raw().to_string(), source);
        let joined: String = tokens_of(parsed.raw()).into_iter().map(|(_, t)| t).collect();
        assert_eq!(joined, source);
        if let Ok(strict) = parse(source) {
            assert_eq!(strict.raw().to_string(), source);
            assert!(!parsed.any_errors());
        } else {
            assert!(parsed.any_errors());
        }
    }
}

#[test]
fn errors_come_in_source_order_one_per_unknown_token() {
    let source = "a b c;\nuser int ok;\nuser int = 3;\nserver;x\n\nlatch float";
    let parsed = parse_recov(source).unwrap();
    let unknown = kinds_and_texts(parsed.raw())
        .into_iter()
        .filter(|(kind, _)| *kind == Syn::Unknown)
        .count();
    assert_eq!(parsed.errors().len(), unknown);
    let starts: Vec<usize> = parsed.errors().iter().map(|e| e.start).collect();
    let mut sorted = starts.clone();
    sorted.sort();
    sorted.dedup();
    assert_eq!(starts, sorted);
    assert_eq!(
        parsed.errors().iter().map(|e| e.reason).collect::<Vec<_>>(),
        vec![
            Reason::ExpectedFlag,
            Reason::ExpectedIdent,
            Reason::ExpectedTypeSpec,
            Reason::ExpectedFlag,
            Reason::ExpectedWhitespace,
        ]
    );
}

#[test]
fn reasons_for_failure() {
    let cases = [
        ("int x;", Reason::ExpectedFlag, 0..1),
        ("user x;", Reason::ExpectedTypeSpec, 5..6),
        ("user int;", Reason::ExpectedWhitespace, 8..9),
        ("user int 9;", Reason::ExpectedIdent, 9..10),
        ("user int x y;", Reason::ExpectedDefaultOrSemicolon, 11..12),
        ("user int x = y;", Reason::ExpectedLiteral, 13..14),
        ("user int x = 1 ;", Reason::ExpectedSemicolon, 14..15),
        ("user int x", Reason::ExpectedDefaultOrSemicolon, 10..10),
        ("user int x = \u{e9};", Reason::ExpectedLiteral, 13..15),
    ];
    for (source, reason, span) in cases {
        let errors = parse(source).unwrap_err();
        assert_eq!(errors.len(), 1, "{source}");
        assert_eq!(errors[0].reason, reason, "{source}");
        assert_eq!(errors[0].span(), span, "{source}");
    }
}

#[test]
fn literals_of_every_kind() {
    let cases = [
        ("0.4", Syn::LitFloat),
        (".5", Syn::LitFloat),
        ("5.", Syn::LitFloat),
        ("1e10", Syn::LitFloat),
        ("1.5e-3f", Syn::LitFloat),
        ("2E+2F", Syn::LitFloat),
        ("0", Syn::LitInt),
        ("42", Syn::LitInt),
        ("0x1F", Syn::LitInt),
        ("0XabcUL", Syn::LitInt),
        ("0755", Syn::LitInt),
        ("09", Syn::LitInt),
        ("7uu", Syn::LitInt),
        ("true", Syn::LitTrue),
        ("false", Syn::LitFalse),
        ("\"\"", Syn::LitString),
        ("\"a b; c\"", Syn::LitString),
        ("\"x\\n0041y\"", Syn::LitString),
    ];
    for (text, kind) in cases {
        let source = format!("user int v={text};");
        let parsed = parse(&source).unwrap();
        let tokens = tokens_of(parsed.raw());
        assert_eq!(tokens[tokens.len() - 2], pair(kind, text), "{source}");
    }
}

#[test]
fn literal_alternatives_are_ordered() {
    // `0x` without digits is no hexadecimal literal, and `0` alone is decimal.
    let errors = parse("user int v = 0x;").unwrap_err();
    assert_eq!(errors[0].reason, Reason::ExpectedSemicolon);
    assert_eq!(errors[0].span(), 14..15);
    // An exponent without digits is left alone.
    let errors = parse("user int v = 1.5e;").unwrap_err();
    assert_eq!(errors[0].reason, Reason::ExpectedSemicolon);
    assert_eq!(errors[0].span(), 16..17);
    // A third suffix letter is one too many.
    let errors = parse("user int v = 1ull;").unwrap_err();
    assert_eq!(errors[0].span(), 16..17);
    // An escape needs its four digits.
    let errors = parse("user string v = \"a\\nb\";").unwrap_err();
    assert_eq!(errors[0].reason, Reason::ExpectedLiteral);
    assert_eq!(errors[0].span(), 16..17);
}

#[test]
fn bad_code_point_is_noted_and_parsing_goes_on() {
    let source = "user string v = \"\\nD800\"; user int w;";
    let parsed = parse_recov(source).unwrap();
    assert_eq!(parsed.errors().len(), 1);
    assert_eq!(parsed.errors()[0].reason, Reason::InvalidCodePoint);
    assert_eq!(parsed.errors()[0].span(), 19..23);
    assert_eq!(parsed.errors()[0].message(), "invalid UTF-8 character");
    let kinds: Vec<Syn> = kinds_and_texts(parsed.raw()).into_iter().map(|(k, _)| k).collect();
    assert_eq!(kinds, vec![Syn::Definition, Syn::Whitespace, Syn::Definition]);
    let errors = parse(source).unwrap_err();
    assert_eq!(errors.len(), 1);
    assert_eq!(errors[0].reason, Reason::InvalidCodePoint);
    let fine = parse("user string v = \"\\nD7FF\\tE000\";").unwrap();
    assert!(!fine.any_errors());
}

#[test]
fn recovery_runs_to_the_end_without_a_terminator() {
    let source = "user int a;\nserver int x";
    let parsed = parse_recov(source).unwrap();
    assert_eq!(parsed.errors().len(), 1);
    assert_eq!(parsed.errors()[0].span(), 24..24);
    assert_eq!(
        kinds_and_texts(parsed.raw()),
        vec![
            pair(Syn::Definition, "user int a;"),
            pair(Syn::Whitespace, "\n"),
            pair(Syn::Unknown, "server int x"),
        ]
    );
}

#[test]
fn recovery_starts_looking_at_the_error() {
    let source = "server\nint x = ;\nuser int y;";
    let parsed = parse_recov(source).unwrap();
    assert_eq!(parsed.errors().len(), 1);
    assert_eq!(
        kinds_and_texts(parsed.raw()),
        vec![
            pair(Syn::Unknown, "server\nint x = "),
            pair(Syn::Semicolon, ";"),
            pair(Syn::Whitespace, "\n"),
            pair(Syn::Definition, "user int y;"),
        ]
    );
}

fn is_send_and_sync<T: Send + Sync>() -> bool {
    true
}

#[test]
fn raw_trees_may_cross_threads() {
    assert!(is_send_and_sync::<doomfront::cvarinfo::RawParseTree>());
    assert!(is_send_and_sync::<doomfront::ParseError>());
}

#[test]
fn strict_and_tolerant_agree_on_valid_files() {
    let sources = [
        "",
        "user int x;",
        "// only a comment\n",
        "server noarchive float f=.5;latch user bool b = true ;".trim_end_matches(" ;"),
        "cheat server color c = \"00 ff 00\"; /* green */",
    ];
    for source in sources {
        let tolerant = parse_recov(source).unwrap();
        match parse(source) {
            Ok(strict) => {
                assert_eq!(strict.raw(), tolerant.raw());
                assert!(!tolerant.any_errors());
            }
            Err(errors) => {
                assert_eq!(errors[0], tolerant.errors()[0]);
            }
        }
    }
}
