//! Laws the library guarantees, stated and proved over the reference
//! interpreter and the compiler's specification.

use vstd::prelude::*;
use crate::compile::{compile_spec, like_matches, pred_eval, PredicateV};
use crate::escape::{fts_block, fts_escaped, like_block, like_escaped, like_meta};
use crate::expr::{eval, fts_string_of, ExprV, RowV, SymbolV};

verus! {

/// Escaping a tag name loses nothing: two names with the same escaped
/// form are the same name.
pub proof fn lemma_fts_escaped_injective(a: Seq<char>, b: Seq<char>)
    requires
        fts_escaped(a) == fts_escaped(b),
    ensures
        a == b,
    decreases a.len(),
{
    if a.len() == 0 {
        if b.len() > 0 {
            assert(fts_escaped(b) == fts_block(b[0]) + fts_escaped(b.skip(1)));
            assert(fts_escaped(b).len() > 0);
        }
        assert(a =~= b);
    } else if b.len() == 0 {
        assert(fts_escaped(a) == fts_block(a[0]) + fts_escaped(a.skip(1)));
        assert(fts_escaped(a).len() > 0);
        assert(a =~= b);
    } else {
        let ba = fts_block(a[0]);
        let bb = fts_block(b[0]);
        let ra = fts_escaped(a.skip(1));
        let rb = fts_escaped(b.skip(1));
        assert(fts_escaped(a) == ba + ra);
        assert(fts_escaped(b) == bb + rb);
        if a[0] == '"' {
            assert(fts_escaped(a)[0] == '"');
            if b[0] != '"' {
                assert(fts_escaped(b)[0] == b[0]);
            }
            assert(b[0] == '"');
            assert((ba + ra).skip(2) =~= ra);
            assert((bb + rb).skip(2) =~= rb);
            lemma_fts_escaped_injective(a.skip(1), b.skip(1));
        } else {
            assert(fts_escaped(a)[0] == a[0]);
            if b[0] == '"' {
                assert(fts_escaped(b)[0] == '"');
            }
            assert(b[0] != '"');
            assert(fts_escaped(b)[0] == b[0]);
            assert(a[0] == b[0]);
            assert((ba + ra).skip(1) =~= ra);
            assert((bb + rb).skip(1) =~= rb);
            lemma_fts_escaped_injective(a.skip(1), b.skip(1));
        }
        assert(a.skip(1) == b.skip(1));
        assert(a =~= b) by {
            assert(a.len() == 1 + a.skip(1).len());
            assert(b.len() == 1 + b.skip(1).len());
            assert(forall|i: int| 1 <= i < a.len() ==> a[i] == a.skip(1)[i - 1]);
            assert(forall|i: int| 1 <= i < b.len() ==> b[i] == b.skip(1)[i - 1]);
        }
    }
}

/// The whole full-text fragment is injective too: two names with the same
/// fragment are the same name.
pub proof fn lemma_fts_string_of_injective(a: Seq<char>, b: Seq<char>)
    requires
        fts_string_of(a) == fts_string_of(b),
    ensures
        a == b,
{
    let p = "tags:\""@;
    let q = "\""@;
    let ea = fts_escaped(a);
    let eb = fts_escaped(b);
    assert((p + ea + q).len() == (p + eb + q).len());
    assert(ea.len() == eb.len());
    assert(ea =~= (p + ea + q).subrange(p.len() as int, p.len() + ea.len() as int));
    assert(eb =~= (p + eb + q).subrange(p.len() as int, p.len() + eb.len() as int));
    lemma_fts_escaped_injective(a, b);
}

/// Escaping neutralizes the wildcards: the escaped form of a pattern
/// `LIKE`-matches a path exactly when the path equals the pattern text.
pub proof fn lemma_like_escaped_exact(t: Seq<char>, s: Seq<char>, esc: char)
    ensures
        like_matches(like_escaped(t, esc), s, esc) <==> s == t,
    decreases t.len(),
{
    let p = like_escaped(t, esc);
    if t.len() == 0 {
        assert(p.len() == 0);
        assert(like_matches(p, s, esc) == (s.len() == 0));
        if s.len() == 0 {
            assert(s =~= t);
        }
    } else {
        let bl = like_block(t[0], esc);
        let rest = like_escaped(t.skip(1), esc);
        assert(p == bl + rest);
        lemma_like_escaped_exact(t.skip(1), s.skip(1), esc);
        if like_meta(t[0], esc) {
            assert(p[0] == esc);
            assert(p[1] == t[0]);
            assert(p.len() >= 2);
            assert(p.skip(2) =~= rest);
            assert(like_matches(p, s, esc) == (s.len() > 0 && s[0] == t[0] && like_matches(
                rest,
                s.skip(1),
                esc,
            )));
        } else {
            assert(p[0] == t[0]);
            assert(p[0] != esc && p[0] != '%' && p[0] != '_');
            assert(p.skip(1) =~= rest);
            assert(like_matches(p, s, esc) == (s.len() > 0 && s[0] == p[0] && like_matches(
                rest,
                s.skip(1),
                esc,
            )));
        }
        if s.len() > 0 && s[0] == t[0] && s.skip(1) == t.skip(1) {
            assert(s =~= t) by {
                assert(s.len() == 1 + s.skip(1).len());
                assert(t.len() == 1 + t.skip(1).len());
                assert(forall|i: int| 1 <= i < s.len() ==> s[i] == s.skip(1)[i - 1]);
                assert(forall|i: int| 1 <= i < t.len() ==> t[i] == t.skip(1)[i - 1]);
            }
        }
        if s == t {
            assert(s.skip(1) == t.skip(1));
        }
    }
}

/// The compiler preserves semantics exactly: on every synthetic row, the
/// compiled predicate under the synthetic backend has the value the
/// reference interpreter gives the tree.
pub proof fn lemma_compile_preserves_eval(e: ExprV, row: RowV)
    ensures
        pred_eval(compile_spec(e), row) == eval(e, row),
    decreases e,
{
    match e {
        ExprV::And(a, b) => {
            lemma_compile_preserves_eval(*a, row);
            lemma_compile_preserves_eval(*b, row);
        },
        ExprV::Or(a, b) => {
            lemma_compile_preserves_eval(*a, row);
            lemma_compile_preserves_eval(*b, row);
        },
        ExprV::Not(a) => {
            lemma_compile_preserves_eval(*a, row);
        },
        ExprV::Term(SymbolV::Tag(name)) => {
            let q = fts_string_of(name);
            if row.tags.contains(name) {
                assert(pred_eval(PredicateV::FtsMatch(q), row));
            }
            if pred_eval(PredicateV::FtsMatch(q), row) {
                let t = choose|t: Seq<char>| #[trigger] row.tags.contains(t) && fts_string_of(t)
                    == q;
                lemma_fts_string_of_injective(t, name);
            }
        },
        ExprV::Term(SymbolV::InPath(pattern)) => {
            lemma_like_escaped_exact(pattern, row.path, '\\');
        },
    }
}

/// Double negation changes nothing: `Not(Not(e))` evaluates as `e` on
/// every row.
pub proof fn lemma_not_not(e: ExprV, row: RowV)
    ensures
        eval(ExprV::Not(Box::new(ExprV::Not(Box::new(e)))), row) == eval(e, row),
{
    assert(eval(ExprV::Not(Box::new(e)), row) == !eval(e, row));
}

/// AND is commutative under evaluation: the tree's shape may differ, the
/// value may not.
pub proof fn lemma_and_commutative(a: ExprV, b: ExprV, row: RowV)
    ensures
        eval(ExprV::And(Box::new(a), Box::new(b)), row) == eval(
            ExprV::And(Box::new(b), Box::new(a)),
            row,
        ),
{
}

/// AND is associative under evaluation.
pub proof fn lemma_and_associative(a: ExprV, b: ExprV, c: ExprV, row: RowV)
    ensures
        eval(ExprV::And(Box::new(ExprV::And(Box::new(a), Box::new(b))), Box::new(c)), row) == eval(
            ExprV::And(Box::new(a), Box::new(ExprV::And(Box::new(b), Box::new(c)))),
            row,
        ),
{
    assert(eval(ExprV::And(Box::new(a), Box::new(b)), row) == (eval(a, row) && eval(b, row)));
    assert(eval(ExprV::And(Box::new(b), Box::new(c)), row) == (eval(b, row) && eval(c, row)));
}

/// OR is commutative under evaluation.
pub proof fn lemma_or_commutative(a: ExprV, b: ExprV, row: RowV)
    ensures
        eval(ExprV::Or(Box::new(a), Box::new(b)), row) == eval(
            ExprV::Or(Box::new(b), Box::new(a)),
            row,
        ),
{
}

/// OR is associative under evaluation.
pub proof fn lemma_or_associative(a: ExprV, b: ExprV, c: ExprV, row: RowV)
    ensures
        eval(ExprV::Or(Box::new(ExprV::Or(Box::new(a), Box::new(b))), Box::new(c)), row) == eval(
            ExprV::Or(Box::new(a), Box::new(ExprV::Or(Box::new(b), Box::new(c)))),
            row,
        ),
{
    assert(eval(ExprV::Or(Box::new(a), Box::new(b)), row) == (eval(a, row) || eval(b, row)));
    assert(eval(ExprV::Or(Box::new(b), Box::new(c)), row) == (eval(b, row) || eval(c, row)));
}

} // verus!
