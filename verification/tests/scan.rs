use template_input::error::Span;
use template_input::node::{scan, Node, RefKind};

fn span(start: usize, end: usize) -> Span {
    Span { start, end }
}

fn inc(path: &str, at: usize) -> Node {
    Node::Include { path: path.to_string(), span: span(at, at + 1) }
}

fn ext(path: &str, at: usize) -> Node {
    Node::Extends { path: path.to_string(), span: span(at, at + 1) }
}

#[test]
fn scan_of_empty_template_finds_nothing() {
    assert!(scan(&vec![]).is_empty());
}

#[test]
fn scan_ignores_extends_inside_if() {
    let root = vec![Node::If { branches: vec![vec![ext("base.html", 3)]], span: span(0, 9) }];
    assert!(scan(&root).is_empty());
}

#[test]
fn scan_sweeps_root_first_then_bodies_last_in_first_out() {
    let root = vec![
        Node::If {
            branches: vec![vec![inc("a", 1)], vec![inc("b", 2)]],
            span: span(0, 1),
        },
        inc("c", 3),
        Node::Loop {
            body: vec![Node::BlockDef { nodes: vec![inc("d", 4)], span: span(0, 1) }, inc("e", 5)],
            else_nodes: vec![inc("f", 6)],
            span: span(0, 1),
        },
        ext("g", 7),
    ];
    let found: Vec<(RefKind, String)> =
        scan(&root).into_iter().map(|r| (r.kind, r.path)).collect();
    let expected: Vec<(RefKind, String)> = vec![
        (RefKind::Include, "c".to_string()),
        (RefKind::Extends, "g".to_string()),
        (RefKind::Include, "f".to_string()),
        (RefKind::Include, "e".to_string()),
        (RefKind::Include, "d".to_string()),
        (RefKind::Include, "b".to_string()),
        (RefKind::Include, "a".to_string()),
    ];
    assert_eq!(found, expected);
}
