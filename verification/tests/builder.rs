use doomfront::builder::{build_green_tree, try_build_green_tree, BLex};
use rowan::{GreenNode, NodeOrToken, SyntaxKind};

const ROOT: SyntaxKind = SyntaxKind(9);
const BINARY: SyntaxKind = SyntaxKind(1);
const NUMBER: SyntaxKind = SyntaxKind(2);
const OPERATOR: SyntaxKind = SyntaxKind(3);
const SPACE: SyntaxKind = SyntaxKind(4);

/// A tree written out with brackets, kinds as numbers.
fn show(node: &GreenNode) -> String {
    let mut out = format!("{}[", node.kind().0);
    for child in node.children() {
        match child {
            NodeOrToken::Node(inner) => out.push_str(&show(&inner.to_owned())),
            NodeOrToken::Token(token) => {
                out.push_str(&format!("{}:{:?} ", token.kind().0, token.text()))
            }
        }
    }
    out.push(']');
    out
}

#[test]
fn nested_nodes_and_tokens() {
    let source = "1 + 2";
    let stream = vec![
        BLex::StartNode(ROOT),
        BLex::StartNode(BINARY),
        BLex::Token(NUMBER, 0..1),
        BLex::Token(SPACE, 1..2),
        BLex::Token(OPERATOR, 2..3),
        BLex::Token(SPACE, 3..4),
        BLex::Token(NUMBER, 4..5),
        BLex::FinishNode,
        BLex::FinishNode,
    ];
    let root = build_green_tree(source, stream);
    assert_eq!(show(&root), "9[1[2:\"1\" 4:\" \" 3:\"+\" 4:\" \" 2:\"2\" ]]");
    assert_eq!(root.to_string(), source);
}

#[test]
fn checkpoint_wraps_what_came_since() {
    // `1+2*3`: the product is known to be one only once `*` is seen.
    let source = "1+2*3";
    let stream = vec![
        BLex::StartNode(ROOT),
        BLex::Checkpoint,
        BLex::Token(NUMBER, 0..1),
        BLex::Token(OPERATOR, 1..2),
        BLex::Checkpoint,
        BLex::Token(NUMBER, 2..3),
        BLex::StartNodeAt(BINARY),
        BLex::Token(OPERATOR, 3..4),
        BLex::Token(NUMBER, 4..5),
        BLex::FinishNode,
        BLex::StartNodeAt(BINARY),
        BLex::FinishNode,
        BLex::FinishNode,
    ];
    let root = try_build_green_tree(source, stream).unwrap();
    assert_eq!(
        show(&root),
        "9[1[2:\"1\" 3:\"+\" 1[2:\"2\" 3:\"*\" 2:\"3\" ]]]"
    );
    assert_eq!(root.to_string(), source);
}

#[test]
fn checkpoint_leaves_earlier_siblings_alone() {
    let source = "ab";
    let stream = vec![
        BLex::StartNode(ROOT),
        BLex::Token(NUMBER, 0..1),
        BLex::Checkpoint,
        BLex::Token(NUMBER, 1..2),
        BLex::StartNodeAt(BINARY),
        BLex::FinishNode,
        BLex::FinishNode,
    ];
    let root = build_green_tree(source, stream);
    assert_eq!(show(&root), "9[2:\"a\" 1[2:\"b\" ]]");
}

#[test]
fn checkpoint_at_the_very_start_wraps_the_root_candidates() {
    let source = "x";
    let stream = vec![
        BLex::Checkpoint,
        BLex::Token(NUMBER, 0..1),
        BLex::StartNodeAt(ROOT),
        BLex::FinishNode,
    ];
    let root = build_green_tree(source, stream);
    assert_eq!(show(&root), "9[2:\"x\" ]");
}

#[test]
fn empty_node_is_a_tree() {
    let root = build_green_tree("", vec![BLex::StartNode(ROOT), BLex::FinishNode]);
    assert_eq!(show(&root), "9[]");
}

#[test]
fn tokens_may_repeat_or_skip_source() {
    let source = "héllo";
    let stream = vec![
        BLex::StartNode(ROOT),
        BLex::Token(NUMBER, 3..6),
        BLex::Token(NUMBER, 0..3),
        BLex::Token(NUMBER, 3..6),
        BLex::Token(SPACE, 6..6),
        BLex::FinishNode,
    ];
    let root = build_green_tree(source, stream);
    assert_eq!(show(&root), "9[2:\"llo\" 2:\"hé\" 2:\"llo\" 4:\"\" ]");
}

#[test]
fn misuse_is_told_apart() {
    let source = "héllo";
    let bad: Vec<Vec<BLex>> = vec![
        // nothing at all
        vec![],
        // finishing what was never started
        vec![BLex::FinishNode],
        vec![BLex::StartNode(ROOT), BLex::FinishNode, BLex::FinishNode],
        // a node left open
        vec![BLex::StartNode(ROOT)],
        vec![BLex::StartNode(ROOT), BLex::StartNode(BINARY), BLex::FinishNode],
        // a token alone is no tree
        vec![BLex::Token(NUMBER, 0..1)],
        // two roots
        vec![BLex::StartNode(ROOT), BLex::FinishNode, BLex::StartNode(ROOT), BLex::FinishNode],
        // no checkpoint to start at
        vec![BLex::StartNode(ROOT), BLex::StartNodeAt(BINARY), BLex::FinishNode, BLex::FinishNode],
        // a checkpoint used twice
        vec![
            BLex::StartNode(ROOT),
            BLex::Checkpoint,
            BLex::StartNodeAt(BINARY),
            BLex::FinishNode,
            BLex::StartNodeAt(BINARY),
            BLex::FinishNode,
            BLex::FinishNode,
        ],
        // a checkpoint that outlived the node it was taken in
        vec![
            BLex::StartNode(ROOT),
            BLex::StartNode(BINARY),
            BLex::Token(NUMBER, 0..1),
            BLex::Token(NUMBER, 0..1),
            BLex::Checkpoint,
            BLex::FinishNode,
            BLex::StartNodeAt(BINARY),
            BLex::FinishNode,
            BLex::FinishNode,
        ],
        // a checkpoint from outside the current node
        vec![
            BLex::StartNode(ROOT),
            BLex::Checkpoint,
            BLex::Token(NUMBER, 0..1),
            BLex::StartNode(BINARY),
            BLex::StartNodeAt(BINARY),
            BLex::FinishNode,
            BLex::FinishNode,
            BLex::FinishNode,
        ],
        // spans that are no slices of the source
        vec![BLex::StartNode(ROOT), BLex::Token(NUMBER, 0..7), BLex::FinishNode],
        vec![BLex::StartNode(ROOT), BLex::Token(NUMBER, 3..2), BLex::FinishNode],
        vec![BLex::StartNode(ROOT), BLex::Token(NUMBER, 0..2), BLex::FinishNode],
        vec![BLex::StartNode(ROOT), BLex::Token(NUMBER, 2..3), BLex::FinishNode],
    ];
    for (index, stream) in bad.into_iter().enumerate() {
        assert!(try_build_green_tree(source, stream).is_none(), "stream {index}");
    }
}

#[test]
fn a_stream_for_a_parsed_file_gives_the_parsed_tree() {
    let source = "user int x;";
    let parsed = doomfront::cvarinfo::parse(source).unwrap();
    let stream = vec![
        BLex::StartNode(SyntaxKind(26)),
        BLex::StartNode(SyntaxKind(0)),
        BLex::StartNode(SyntaxKind(2)),
        BLex::Token(SyntaxKind(19), 0..4),
        BLex::Token(SyntaxKind(25), 4..5),
        BLex::FinishNode,
        BLex::Token(SyntaxKind(12), 5..8),
        BLex::Token(SyntaxKind(25), 8..9),
        BLex::Token(SyntaxKind(21), 9..10),
        BLex::Token(SyntaxKind(22), 10..11),
        BLex::FinishNode,
        BLex::FinishNode,
    ];
    let built = build_green_tree(source, stream);
    assert_eq!(&built, parsed.raw());
}
