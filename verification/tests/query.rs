use tagquery::expr::{Expr, Symbol};
use tagquery::traverse::ExprDFSIterator;

fn and(a: Box<Expr>, b: Box<Expr>) -> Box<Expr> {
    Box::new(Expr::And(a, b))
}

fn or(a: Box<Expr>, b: Box<Expr>) -> Box<Expr> {
    Box::new(Expr::Or(a, b))
}

fn not(a: Box<Expr>) -> Box<Expr> {
    Box::new(Expr::Not(a))
}

fn tag(name: &str) -> Box<Expr> {
    Box::new(Expr::Term(Symbol::Tag(String::from(name))))
}

fn inpath(path: &str) -> Box<Expr> {
    Box::new(Expr::Term(Symbol::InPath(String::from(path))))
}

#[test]
/// The query:
///
///     a b -e inpath:1 | d e inpath:0
///
fn my_test() {
    let expr = or(
        and(and(tag("a"), tag("b")), and(not(tag("e")), inpath("1"))),
        and(tag("d"), and(tag("e"), inpath("0"))),
    );
    let mut it = ExprDFSIterator::new(&expr);
    while let Some(x) = it.next() {
        println!("{:?}", x);
    }
}

fn collect_debug(expr: &Expr) -> Vec<String> {
    let mut out = Vec::new();
    let mut it = ExprDFSIterator::new(expr);
    while let Some(x) = it.next() {
        out.push(format!("{:?}", x));
    }
    out
}

#[test]
fn traversal_is_preorder() {
    // (a AND b) OR NOT c: node, then left subtree whole, then right one.
    let expr = or(and(tag("a"), tag("b")), not(tag("c")));
    let nodes = collect_debug(&expr);
    assert_eq!(nodes.len(), 6);
    assert_eq!(nodes[0], format!("{:?}", expr));
    assert_eq!(nodes[1], format!("{:?}", and(tag("a"), tag("b"))));
    assert_eq!(nodes[2], format!("{:?}", tag("a")));
    assert_eq!(nodes[3], format!("{:?}", tag("b")));
    assert_eq!(nodes[4], format!("{:?}", not(tag("c"))));
    assert_eq!(nodes[5], format!("{:?}", tag("c")));
}

#[test]
fn validation_finds_path_terms() {
    let with_path = or(and(tag("a"), inpath("res/")), tag("b"));
    assert!(with_path.contains_path_term());
    let with_deep_path = not(not(inpath("res/")));
    assert!(with_deep_path.contains_path_term());
    let without = or(and(tag("a"), not(tag("c"))), tag("b"));
    assert!(!without.contains_path_term());
}

#[test]
fn traversal_is_deterministic() {
    let expr = or(
        and(and(tag("a"), tag("b")), and(not(tag("e")), inpath("1"))),
        and(tag("d"), and(tag("e"), inpath("0"))),
    );
    let first = collect_debug(&expr);
    let second = collect_debug(&expr);
    assert_eq!(first, second);
    assert_eq!(first.len(), 14);
}
