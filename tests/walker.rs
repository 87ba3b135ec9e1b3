use veryl_core::resource_table::ResourceTable;
use veryl_core::syntax_tree::{Event, Node, NodeKind, SyntaxTree};
use veryl_core::token::Token;
use veryl_core::veryl_walker::record_traversal;

fn position(events: &[Event], e: Event) -> usize {
    events.iter().position(|x| *x == e).unwrap()
}

fn leaf_token(rt: &mut ResourceTable, text: &str) -> Token {
    let file = rt.insert_path("t.vl");
    Token { id: rt.new_token_id(), text: rt.insert_str(text), file_path: file, line: 1, column: 1, length: text.len() }
}

/// Root, a chain of `depth` nested blocks, and one sibling block beside the outermost.
fn nested(depth: usize) -> (SyntaxTree, Vec<Token>) {
    let mut rt = ResourceTable::new();
    let mut nodes = vec![Node { kind: NodeKind::Veryl, children: Vec::new() }];
    let mut tokens = Vec::new();
    let mut parent = 0;
    for i in 0..depth {
        let t = leaf_token(&mut rt, &format!("b{}", i));
        tokens.push(t);
        let id = nodes.len();
        nodes.push(Node { kind: NodeKind::NamedBlock(t), children: Vec::new() });
        nodes[parent].children.push(id);
        parent = id;
    }
    let t = leaf_token(&mut rt, "sibling");
    let id = nodes.len();
    nodes.push(Node { kind: NodeKind::NamedBlock(t), children: Vec::new() });
    nodes[0].children.push(id);
    (SyntaxTree { nodes }, tokens)
}

#[test]
fn traversal_nests_at_every_depth() {
    let depth = 5;
    let (tree, _) = nested(depth);
    let events = record_traversal(&tree);
    for parent in 0..=depth {
        for child in parent + 1..=depth {
            let bp = position(&events, Event::Before(parent));
            let bc = position(&events, Event::Before(child));
            let ac = position(&events, Event::After(child));
            let ap = position(&events, Event::After(parent));
            assert!(bp < bc && bc < ac && ac < ap, "{} {}", parent, child);
        }
    }
}

#[test]
fn traversal_is_pre_and_post_order_with_tokens() {
    let (tree, tokens) = nested(2);
    let events = record_traversal(&tree);
    let sibling = match tree.nodes[3].kind {
        NodeKind::NamedBlock(t) => t,
        _ => unreachable!(),
    };
    assert_eq!(
        events,
        vec![
            Event::Before(0),
            Event::Before(1),
            Event::Token(tokens[0]),
            Event::Before(2),
            Event::Token(tokens[1]),
            Event::After(2),
            Event::After(1),
            Event::Before(3),
            Event::Token(sibling),
            Event::After(3),
            Event::After(0),
        ]
    );
}

#[test]
fn instantiation_visits_both_tokens_in_order() {
    let mut rt = ResourceTable::new();
    let u = leaf_token(&mut rt, "u");
    let m = leaf_token(&mut rt, "M");
    let tree = SyntaxTree {
        nodes: vec![
            Node { kind: NodeKind::Veryl, children: vec![1] },
            Node { kind: NodeKind::InstDeclaration(u, m), children: vec![] },
        ],
    };
    assert_eq!(
        record_traversal(&tree),
        vec![Event::Before(0), Event::Before(1), Event::Token(u), Event::Token(m), Event::After(1), Event::After(0)]
    );
}

#[test]
fn empty_tree_has_no_events() {
    let tree = SyntaxTree { nodes: Vec::new() };
    assert!(record_traversal(&tree).is_empty());
}
