use tagquery::expr::{Expr, Symbol};
use tagquery::parse::{parse, SyntaxError, SyntaxErrorKind};

fn and(a: Box<Expr>, b: Box<Expr>) -> Box<Expr> {
    Box::new(Expr::And(a, b))
}

fn or(a: Box<Expr>, b: Box<Expr>) -> Box<Expr> {
    Box::new(Expr::Or(a, b))
}

fn not(a: Box<Expr>) -> Box<Expr> {
    Box::new(Expr::Not(a))
}

fn tag(name: &str) -> Box<Expr> {
    Box::new(Expr::Term(Symbol::Tag(String::from(name))))
}

fn inpath(path: &str) -> Box<Expr> {
    Box::new(Expr::Term(Symbol::InPath(String::from(path))))
}

#[test]
fn parse_single_tag() {
    // One term is just that term: no degenerate AND node.
    assert_eq!(parse("kick").unwrap(), *tag("kick"));
}

#[test]
fn parse_single_inpath() {
    assert_eq!(parse("inpath:res/audio/").unwrap(), *inpath("res/audio/"));
}

#[test]
fn parse_negated_term() {
    assert_eq!(parse("-kick").unwrap(), *not(tag("kick")));
    assert_eq!(parse("-inpath:res/").unwrap(), *not(inpath("res/")));
}

#[test]
fn parse_implicit_and_folds_left() {
    assert_eq!(parse("a b c").unwrap(), *and(and(tag("a"), tag("b")), tag("c")));
}

#[test]
fn parse_or_folds_left() {
    assert_eq!(parse("a | b | c").unwrap(), *or(or(tag("a"), tag("b")), tag("c")));
}

#[test]
fn parse_documented_query() {
    // a b -e inpath:1 | d e inpath:0, with both folds left.
    let expected = or(
        and(and(and(tag("a"), tag("b")), not(tag("e"))), inpath("1")),
        and(and(tag("d"), tag("e")), inpath("0")),
    );
    assert_eq!(parse("a b -e inpath:1 | d e inpath:0").unwrap(), *expected);
}

#[test]
fn parse_bar_needs_no_spaces() {
    // `|` is always its own token, even glued to its neighbours.
    assert_eq!(parse("a|b").unwrap(), *or(tag("a"), tag("b")));
}

#[test]
fn parse_is_deterministic() {
    let text = "a b -e inpath:1 | d e inpath:0";
    assert_eq!(parse(text).unwrap(), parse(text).unwrap());
}

#[test]
fn parse_rejects_empty_query() {
    assert_eq!(
        parse("").unwrap_err(),
        SyntaxError { pos: 0, kind: SyntaxErrorKind::EmptyQuery }
    );
    assert_eq!(
        parse("   ").unwrap_err(),
        SyntaxError { pos: 0, kind: SyntaxErrorKind::EmptyQuery }
    );
}

#[test]
fn parse_rejects_trailing_bar() {
    assert_eq!(
        parse("a |").unwrap_err(),
        SyntaxError { pos: 2, kind: SyntaxErrorKind::DanglingOr }
    );
}

#[test]
fn parse_rejects_lone_dash() {
    assert_eq!(
        parse("-").unwrap_err(),
        SyntaxError { pos: 0, kind: SyntaxErrorKind::DanglingNeg }
    );
    assert_eq!(
        parse("a -").unwrap_err(),
        SyntaxError { pos: 2, kind: SyntaxErrorKind::DanglingNeg }
    );
}

#[test]
fn parse_rejects_empty_value() {
    assert_eq!(
        parse("inpath:").unwrap_err(),
        SyntaxError { pos: 7, kind: SyntaxErrorKind::EmptyValue }
    );
}

#[test]
fn parse_rejects_unknown_key() {
    assert_eq!(
        parse("foo:bar").unwrap_err(),
        SyntaxError { pos: 0, kind: SyntaxErrorKind::UnknownKey }
    );
    assert_eq!(
        parse("a foo:bar").unwrap_err(),
        SyntaxError { pos: 2, kind: SyntaxErrorKind::UnknownKey }
    );
}

#[test]
fn parse_rejects_leading_bar() {
    assert_eq!(
        parse("| a").unwrap_err(),
        SyntaxError { pos: 0, kind: SyntaxErrorKind::ExpectedTerm }
    );
    assert_eq!(
        parse("a || b").unwrap_err(),
        SyntaxError { pos: 3, kind: SyntaxErrorKind::ExpectedTerm }
    );
}
