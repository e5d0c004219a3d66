use doomfront::cvarinfo::Syn;
use doomfront::ext::{Parser1, ParserOpt, ParserVec};
use doomfront::{help, ParseOut};
use rowan::{NodeOrToken, SyntaxKind};

fn word(kind: u16, text: &str) -> ParseOut {
    help::map_tok(text, SyntaxKind(kind), 0, text.len())
}

fn texts(outs: &[ParseOut]) -> Vec<(u16, String)> {
    outs.iter()
        .map(|out| match out {
            NodeOrToken::Node(node) => (node.kind().0, node.to_string()),
            NodeOrToken::Token(token) => (token.kind().0, token.text().to_string()),
        })
        .collect()
}

fn pairs(items: &[(u16, &str)]) -> Vec<(u16, String)> {
    items.iter().map(|(kind, text)| (*kind, text.to_string())).collect()
}

#[test]
fn starting_a_collection() {
    assert_eq!(texts(&Parser1::start_vec(word(1, "a"))), pairs(&[(1, "a")]));
    assert_eq!(texts(&ParserOpt::start_vec(Some(word(1, "a")))), pairs(&[(1, "a")]));
    assert_eq!(texts(&ParserOpt::start_vec(None::<ParseOut>)), pairs(&[]));
}

#[test]
fn adding_to_a_collection() {
    let vec = Parser1::start_vec(word(1, "a"));
    let vec = vec.chain_push(word(2, "b"));
    assert_eq!(texts(&vec), pairs(&[(1, "a"), (2, "b")]));
    let vec = vec.chain_push_opt(None);
    assert_eq!(texts(&vec), pairs(&[(1, "a"), (2, "b")]));
    let vec = vec.chain_push_opt(Some(word(3, "c")));
    assert_eq!(texts(&vec), pairs(&[(1, "a"), (2, "b"), (3, "c")]));
    let vec = vec.chain_append(vec![word(4, "d"), word(5, "e")]);
    assert_eq!(texts(&vec), pairs(&[(1, "a"), (2, "b"), (3, "c"), (4, "d"), (5, "e")]));
    let vec = vec.chain_append(Vec::new());
    assert_eq!(vec.len(), 5);
    let vec = Vec::new().chain_append(vec);
    assert_eq!(vec.len(), 5);
}

#[test]
fn closing_a_collection() {
    let vec = vec![word(1, "a"), word(2, "bc")];
    match vec.clone().collect_n::<Syn>(SyntaxKind(9)) {
        NodeOrToken::Node(node) => {
            assert_eq!(node.kind(), SyntaxKind(9));
            let children: Vec<ParseOut> = node.children().map(|c| c.to_owned()).collect();
            assert_eq!(texts(&children), pairs(&[(1, "a"), (2, "bc")]));
        }
        NodeOrToken::Token(_) => panic!("expected a node"),
    }
    let root = vec.collect_g::<Syn>(SyntaxKind(10));
    assert_eq!(root.kind(), SyntaxKind(10));
    assert_eq!(root.to_string(), "abc");
    assert_eq!(root.children().count(), 2);

    let empty = Vec::new().collect_g::<Syn>(SyntaxKind(10));
    assert_eq!(empty.children().count(), 0);
}

#[test]
fn wrapping_one_output() {
    match word(1, "a").remap::<Syn>(SyntaxKind(9)) {
        NodeOrToken::Node(node) => {
            assert_eq!(node.kind(), SyntaxKind(9));
            let children: Vec<ParseOut> = node.children().map(|c| c.to_owned()).collect();
            assert_eq!(texts(&children), pairs(&[(1, "a")]));
            match NodeOrToken::Node(node).remap::<Syn>(SyntaxKind(8)) {
                NodeOrToken::Node(outer) => {
                    assert_eq!(outer.kind(), SyntaxKind(8));
                    assert_eq!(outer.children().count(), 1);
                    assert_eq!(outer.to_string(), "a");
                }
                NodeOrToken::Token(_) => panic!("expected a node"),
            }
        }
        NodeOrToken::Token(_) => panic!("expected a node"),
    }
}
