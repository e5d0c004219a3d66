use doomfront::cvarinfo::ast::{CVar, Flags};
use doomfront::cvarinfo::{parse, parse_recov, ParseTree, RawParseTree, Syn};
use doomfront::AstNode;
use rowan::Language;

fn assert_no_errors(pt: &RawParseTree) {
    assert!(!pt.any_errors(), "Encountered errors: {}", {
        let mut output = String::default();

        for err in pt.errors() {
            output.push_str(&format!("{err:#?}"));
            output.push('\r');
            output.push('\n');
        }

        output
    });
}

#[test]
fn smoke() {
    const SOURCE: &str = r#"

// Rue des Acacias
server int egghead_roundabout;
user float acidSurge = 0.4;
cheat noarchive nosave string /* comment? */ BONELESS_VENTURES = "Welcome to the Company !";

	"#;

    let pt = parse_recov(SOURCE).unwrap();
    assert_no_errors(&pt);
    let pt = ParseTree::new(pt);

    let defs: Vec<CVar> = pt.ast();

    assert_eq!(defs[0].name().text(), "egghead_roundabout");
    assert_eq!(defs[1].name().text(), "acidSurge");
    assert_eq!(defs[2].name().text(), "BONELESS_VENTURES");

    assert_eq!(defs[0].type_spec().kind(), Syn::TypeInt);
    assert_eq!(defs[1].type_spec().kind(), Syn::TypeFloat);
    assert_eq!(defs[2].type_spec().kind(), Syn::TypeString);

    let default_0 = defs[0].default();
    let default_1 = defs[1].default().unwrap();
    let default_2 = defs[2].default().unwrap();

    assert_eq!(default_0, None);
    assert_eq!(default_1.literal().kind(), Syn::LitFloat);
    assert_eq!(default_1.literal().text(), "0.4");
    assert_eq!(default_2.literal().kind(), Syn::LitString);
    assert_eq!(default_2.literal().text(), "\"Welcome to the Company !\"");
}

#[test]
fn err_handling() {
    const SOURCE: &str = r#"

	server int theumpteenthcircle = ;
	user float ICEANDFIRE3 = 0.4;

	"#;

    let rpt = parse_recov(SOURCE).unwrap();

    assert!(rpt.errors().len() == 1);

    let pt = ParseTree::new(rpt);

    assert!(pt.ast::<CVar>().len() == 1);
}

#[test]
fn flags_scope_and_qualifiers() {
    let source = "cheat noarchive nosave string NAME = \"hi\";\nlatch USER bool b;";
    let pt = ParseTree::new(parse(source).unwrap());
    let defs: Vec<CVar> = pt.ast();
    assert_eq!(defs.len(), 2);

    let flags = defs[0].flags();
    assert_eq!(flags.scope().kind(), Syn::KwNoSave);
    assert_eq!(flags.scope().text(), "nosave");
    let qualifiers: Vec<(Syn, String)> =
        flags.qualifiers().iter().map(|t| (t.kind(), t.text().to_string())).collect();
    assert_eq!(
        qualifiers,
        vec![(Syn::KwCheat, "cheat".to_string()), (Syn::KwNoArchive, "noarchive".to_string())]
    );
    assert_eq!(defs[0].type_spec().kind(), Syn::TypeString);
    assert_eq!(defs[0].name().text(), "NAME");
    assert_eq!(defs[0].default().unwrap().literal().text(), "\"hi\"");

    let flags = defs[1].flags();
    assert_eq!(flags.scope().kind(), Syn::KwUser);
    assert_eq!(flags.scope().text(), "USER");
    let qualifiers: Vec<Syn> = flags.qualifiers().iter().map(|t| t.kind()).collect();
    assert_eq!(qualifiers, vec![Syn::KwLatch]);
    assert_eq!(defs[1].default(), None);
}

#[test]
fn casting_goes_by_kind() {
    let pt = ParseTree::new(parse("user int x = 5; // five\n").unwrap());
    let root = pt.zipper();
    assert_eq!(root.kind(), rowan::SyntaxKind::from(Syn::Root));
    assert!(CVar::cast(root.clone()).is_none());
    let definition = root.first_child().unwrap();
    assert!(Flags::cast(definition.clone()).is_none());
    let cvar = CVar::cast(definition.clone()).unwrap();
    assert_eq!(cvar.syntax(), &definition);
    assert!(CVar::can_cast(rowan::SyntaxKind::from(Syn::Definition)));
    assert!(!CVar::can_cast(rowan::SyntaxKind::from(Syn::Flags)));
    assert!(Flags::can_cast(rowan::SyntaxKind::from(Syn::Flags)));
    assert_eq!(pt.ast::<Flags>().len(), 0);
    assert_eq!(pt.errors().len(), 0);
    assert_eq!(cvar.default().unwrap().literal().kind(), Syn::LitInt);
    assert_eq!(cvar.flags().syntax().text().to_string(), "user ");
}

#[test]
fn tags_and_numbers() {
    assert_eq!(rowan::SyntaxKind::from(Syn::Definition), rowan::SyntaxKind(0));
    assert_eq!(rowan::SyntaxKind::from(Syn::Whitespace), rowan::SyntaxKind(25));
    assert_eq!(Syn::kind_to_raw(Syn::Root), rowan::SyntaxKind(26));
    assert_eq!(doomfront::cvarinfo::ROOT_RAW, 26);
    for raw in 0..=26u16 {
        let kind = Syn::kind_from_raw(rowan::SyntaxKind(raw));
        assert_eq!(Syn::kind_to_raw(kind), rowan::SyntaxKind(raw));
    }
    assert_eq!(Syn::kind_from_raw(rowan::SyntaxKind(21)), Syn::Ident);
    assert!(Syn::Definition < Syn::Root);
}
