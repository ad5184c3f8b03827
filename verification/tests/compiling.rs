use tagquery::compile::compile_query;
use tagquery::escape::{escape_fts5_string, escape_like_pattern};
use tagquery::expr::{Expr, InvalidTerm, QueryConversionError, Row, Symbol};
use tagquery::parse::parse;

fn and(a: Box<Expr>, b: Box<Expr>) -> Box<Expr> {
    Box::new(Expr::And(a, b))
}

fn or(a: Box<Expr>, b: Box<Expr>) -> Box<Expr> {
    Box::new(Expr::Or(a, b))
}

fn not(a: Box<Expr>) -> Box<Expr> {
    Box::new(Expr::Not(a))
}

fn tag(name: &str) -> Box<Expr> {
    Box::new(Expr::Term(Symbol::Tag(String::from(name))))
}

fn inpath(path: &str) -> Box<Expr> {
    Box::new(Expr::Term(Symbol::InPath(String::from(path))))
}

fn row(tags: &[&str], path: &str) -> Row {
    Row {
        tags: tags.iter().map(|t| String::from(*t)).collect(),
        path: String::from(path),
    }
}

#[test]
fn term_construction_rejects_blank_payloads() {
    assert_eq!(Symbol::new_tag(String::from("kick")).unwrap(), Symbol::Tag(String::from("kick")));
    assert_eq!(
        Symbol::new_in_path(String::from("res/")).unwrap(),
        Symbol::InPath(String::from("res/"))
    );
    assert_eq!(Symbol::new_tag(String::from("")).unwrap_err(), InvalidTerm);
    assert_eq!(Symbol::new_tag(String::from("  \t")).unwrap_err(), InvalidTerm);
    assert_eq!(Symbol::new_in_path(String::from(" \n ")).unwrap_err(), InvalidTerm);
}

#[test]
fn escape_fts_doubles_quotes() {
    assert_eq!(escape_fts5_string("kick"), "kick");
    assert_eq!(escape_fts5_string("a\"b"), "a\"\"b");
    assert_eq!(escape_fts5_string("\"\""), "\"\"\"\"");
    assert_eq!(escape_fts5_string(""), "");
}

#[test]
fn escape_like_neutralizes_wildcards() {
    assert_eq!(escape_like_pattern("res/audio/", '\\'), "res/audio/");
    assert_eq!(escape_like_pattern("a%b_c", '\\'), "a\\%b\\_c");
    assert_eq!(escape_like_pattern("a\\b", '\\'), "a\\\\b");
    assert_eq!(escape_like_pattern("", '\\'), "");
}

#[test]
fn fts_string_for_tag_only() {
    let sym = Symbol::Tag(String::from("kick"));
    assert_eq!(sym.to_fts_string().unwrap(), "tags:\"kick\"");
    let quoted = Symbol::Tag(String::from("a\"b"));
    assert_eq!(quoted.to_fts_string().unwrap(), "tags:\"a\"\"b\"");
    let path = Symbol::InPath(String::from("res/"));
    assert!(matches!(
        path.to_fts_string().unwrap_err(),
        QueryConversionError::NoAssociatedFTSString
    ));
}

#[test]
fn where_clause_for_inpath_only() {
    let sym = Symbol::InPath(String::from("res/audio/"));
    assert_eq!(sym.to_where_clause().unwrap(), "path LIKE 'res/audio/' ESCAPE '\\'");
    let wild = Symbol::InPath(String::from("a%b"));
    assert_eq!(wild.to_where_clause().unwrap(), "path LIKE 'a\\%b' ESCAPE '\\'");
    let tag = Symbol::Tag(String::from("kick"));
    assert!(matches!(
        tag.to_where_clause().unwrap_err(),
        QueryConversionError::NoAssociatedWhereClause
    ));
}

#[test]
fn compile_is_total_and_deterministic() {
    let expr = or(and(tag("a"), not(inpath("x%"))), tag("b\"c"));
    let first = expr.compile().to_sql_string();
    let second = expr.compile().to_sql_string();
    assert_eq!(first, second);
}

#[test]
fn compile_renders_membership_and_like_tests() {
    let pred = tag("kick").compile();
    assert_eq!(
        pred.to_sql_string(),
        "id IN (SELECT rowid FROM files_fts WHERE files_fts MATCH 'tags:\"kick\"')"
    );
    let pred = inpath("res/a_b").compile();
    assert_eq!(pred.to_sql_string(), "path LIKE 'res/a\\_b' ESCAPE '\\'");
    let pred = and(tag("a"), not(tag("b"))).compile();
    assert_eq!(
        pred.to_sql_string(),
        "(id IN (SELECT rowid FROM files_fts WHERE files_fts MATCH 'tags:\"a\"')) \
         AND (NOT (id IN (SELECT rowid FROM files_fts WHERE files_fts MATCH 'tags:\"b\"')))"
    );
}

#[test]
fn compiled_predicate_agrees_with_eval() {
    // The semantic-equivalence oracle on concrete values: the compiled
    // predicate, under the synthetic backend, equals the interpreter.
    let exprs = [
        *tag("a"),
        *inpath("res/audio/"),
        *and(tag("a"), tag("b")),
        *or(tag("a"), not(tag("b"))),
        *and(not(inpath("a%b")), tag("a\"quote")),
        *or(and(tag("a"), inpath("x")), and(not(tag("b")), inpath("a%b"))),
    ];
    let rows = [
        row(&[], ""),
        row(&["a"], "x"),
        row(&["a", "b"], "res/audio/"),
        row(&["b"], "a%b"),
        row(&["a\"quote"], "aXb"),
        row(&["a", "a\"quote"], "a%b"),
    ];
    for e in exprs.iter() {
        let p = e.compile();
        for r in rows.iter() {
            assert_eq!(p.eval_on(r), e.eval_on(r));
        }
    }
}

#[test]
fn escaping_is_exact_in_the_backend() {
    // The escaped pattern matches the pattern text literally: no implicit
    // wildcard survives compilation.
    let e = inpath("a%b");
    let p = e.compile();
    assert!(p.eval_on(&row(&[], "a%b")));
    assert!(!p.eval_on(&row(&[], "aXb")));
    assert!(!p.eval_on(&row(&[], "ab")));
    // A quoted tag matches only itself.
    let e = tag("a\"b");
    let p = e.compile();
    assert!(p.eval_on(&row(&["a\"b"], "")));
    assert!(!p.eval_on(&row(&["a"], "")));
}

#[test]
fn double_negation_changes_nothing() {
    let e = and(tag("a"), inpath("x"));
    let nn = not(not(and(tag("a"), inpath("x"))));
    for r in [row(&[], "x"), row(&["a"], "x"), row(&["a"], "y")] {
        assert_eq!(nn.eval_on(&r), e.eval_on(&r));
    }
}

#[test]
fn and_or_commute_and_associate_under_eval() {
    let a = || tag("a");
    let b = || inpath("x");
    let c = || not(tag("b"));
    let rows = [row(&[], "x"), row(&["a"], "x"), row(&["a", "b"], "y"), row(&["b"], "x")];
    for r in rows.iter() {
        assert_eq!(and(a(), b()).eval_on(r), and(b(), a()).eval_on(r));
        assert_eq!(or(a(), b()).eval_on(r), or(b(), a()).eval_on(r));
        assert_eq!(
            and(and(a(), b()), c()).eval_on(r),
            and(a(), and(b(), c())).eval_on(r)
        );
        assert_eq!(
            or(or(a(), b()), c()).eval_on(r),
            or(a(), or(b(), c())).eval_on(r)
        );
    }
}

#[test]
fn documented_query_compiles_equivalently() {
    // The parsed tree and the documented tree shape differ; compiled, they
    // must be logically equivalent on every row.
    let parsed = parse("a b -e inpath:1 | d e inpath:0").unwrap();
    let documented = or(
        and(and(tag("a"), tag("b")), and(not(tag("e")), inpath("1"))),
        and(tag("d"), and(tag("e"), inpath("0"))),
    );
    let p1 = parsed.compile();
    let p2 = documented.compile();
    let all = ["a", "b", "d", "e"];
    for mask in 0..16u32 {
        let tags: Vec<&str> =
            all.iter().enumerate().filter(|(i, _)| mask & (1 << i) != 0).map(|(_, t)| *t).collect();
        for path in ["0", "1", "x"] {
            let r = row(&tags, path);
            assert_eq!(p1.eval_on(&r), p2.eval_on(&r));
            assert_eq!(parsed.eval_on(&r), documented.eval_on(&r));
            assert_eq!(p1.eval_on(&r), parsed.eval_on(&r));
        }
    }
}

#[test]
fn compile_query_parses_then_compiles() {
    let pred = compile_query("kick").unwrap();
    assert_eq!(
        pred.to_sql_string(),
        "id IN (SELECT rowid FROM files_fts WHERE files_fts MATCH 'tags:\"kick\"')"
    );
    assert!(compile_query("foo:bar").is_err());
}
