//! The compiler: from an expression tree to one executable predicate.
//!
//! Each leaf compiles, independent of its position in the tree, into a
//! boolean-valued fragment — a tag into a full-text-index membership test,
//! a path pattern into a `LIKE` test on the path field — so AND, OR and
//! NOT translate directly and compilation is total: every tree yields
//! exactly one predicate, with no error path. Escaping happens exactly
//! once, at the leaf. [`pred_eval`] gives the predicate's meaning on a
//! synthetic row; the compiler preserves [`crate::expr::eval`] under it
//! (see [`crate::laws`]).

use vstd::prelude::*;
use vstd::string::StringExecFns;
use crate::escape::like_escaped;
use crate::expr::{Expr, ExprV, Row, RowV, Symbol, SymbolV, fts_string_of};
use crate::parse::{SyntaxError, parse, parse_spec};
use crate::text::str_to_chars;

verus! {

/// A compiled predicate: a boolean expression a storage backend can
/// evaluate, with no remaining reference to term kinds. Leaf payloads are
/// already escaped.
pub enum Predicate {
    /// The row is among the full-text index's matches for this query.
    FtsMatch(String),
    /// The row's path field satisfies this `LIKE` pattern (escape `\`).
    PathLike(String),
    And(Box<Predicate>, Box<Predicate>),
    Or(Box<Predicate>, Box<Predicate>),
    Not(Box<Predicate>),
}

/// The mathematical value of a [`Predicate`].
pub enum PredicateV {
    FtsMatch(Seq<char>),
    PathLike(Seq<char>),
    And(Box<PredicateV>, Box<PredicateV>),
    Or(Box<PredicateV>, Box<PredicateV>),
    Not(Box<PredicateV>),
}

/// The tree of mathematical values that `p` carries.
pub open spec fn pred_view(p: Predicate) -> PredicateV
    decreases p,
{
    match p {
        Predicate::FtsMatch(q) => PredicateV::FtsMatch(q@),
        Predicate::PathLike(ep) => PredicateV::PathLike(ep@),
        Predicate::And(a, b) => PredicateV::And(Box::new(pred_view(*a)), Box::new(pred_view(*b))),
        Predicate::Or(a, b) => PredicateV::Or(Box::new(pred_view(*a)), Box::new(pred_view(*b))),
        Predicate::Not(a) => PredicateV::Not(Box::new(pred_view(*a))),
    }
}

impl View for Predicate {
    type V = PredicateV;

    open spec fn view(&self) -> PredicateV {
        pred_view(*self)
    }
}

/// What compilation yields: the same tree shape, with every tag leaf
/// turned into a full-text membership test for the escaped tag query and
/// every path leaf into the escaped `LIKE` pattern.
pub open spec fn compile_spec(e: ExprV) -> PredicateV
    decreases e,
{
    match e {
        ExprV::And(a, b) => PredicateV::And(
            Box::new(compile_spec(*a)),
            Box::new(compile_spec(*b)),
        ),
        ExprV::Or(a, b) => PredicateV::Or(Box::new(compile_spec(*a)), Box::new(compile_spec(*b))),
        ExprV::Not(a) => PredicateV::Not(Box::new(compile_spec(*a))),
        ExprV::Term(SymbolV::Tag(name)) => PredicateV::FtsMatch(fts_string_of(name)),
        ExprV::Term(SymbolV::InPath(pattern)) => PredicateV::PathLike(like_escaped(pattern, '\\')),
    }
}

/// `LIKE` pattern matching with an explicit escape character: an escaped
/// character matches itself literally, `%` matches any run of characters,
/// `_` matches exactly one, and every other character matches itself.
pub open spec fn like_matches(p: Seq<char>, s: Seq<char>, esc: char) -> bool
    decreases p.len(), s.len(),
{
    if p.len() == 0 {
        s.len() == 0
    } else if p[0] == esc {
        p.len() >= 2 && s.len() > 0 && s[0] == p[1] && like_matches(p.skip(2), s.skip(1), esc)
    } else if p[0] == '%' {
        like_matches(p.skip(1), s, esc) || (s.len() > 0 && like_matches(p, s.skip(1), esc))
    } else if p[0] == '_' {
        s.len() > 0 && like_matches(p.skip(1), s.skip(1), esc)
    } else {
        s.len() > 0 && s[0] == p[0] && like_matches(p.skip(1), s.skip(1), esc)
    }
}

/// The synthetic backend: what a compiled predicate means on a synthetic
/// row. A full-text membership test holds when some tag of the row has
/// exactly this escaped query; a `LIKE` test holds when the path matches
/// the pattern; the combinators are boolean connectives.
pub open spec fn pred_eval(p: PredicateV, row: RowV) -> bool
    decreases p,
{
    match p {
        PredicateV::FtsMatch(q) => exists|t: Seq<char>|
            #[trigger] row.tags.contains(t) && fts_string_of(t) == q,
        PredicateV::PathLike(ep) => like_matches(ep, row.path, '\\'),
        PredicateV::And(a, b) => pred_eval(*a, row) && pred_eval(*b, row),
        PredicateV::Or(a, b) => pred_eval(*a, row) || pred_eval(*b, row),
        PredicateV::Not(a) => !pred_eval(*a, row),
    }
}

impl Expr {
    /// Compiles the tree into one predicate: total and a function of the
    /// tree alone, so equal trees always compile to the same predicate.
    pub fn compile(&self) -> (r: Predicate)
        ensures
            r@ == compile_spec(self@),
        decreases *self,
    {
        match self {
            Expr::And(a, b) => {
                let ca = (&**a).compile();
                let cb = (&**b).compile();
                Predicate::And(Box::new(ca), Box::new(cb))
            },
            Expr::Or(a, b) => {
                let ca = (&**a).compile();
                let cb = (&**b).compile();
                Predicate::Or(Box::new(ca), Box::new(cb))
            },
            Expr::Not(a) => Predicate::Not(Box::new((&**a).compile())),
            Expr::Term(Symbol::Tag(name)) => Predicate::FtsMatch(
                crate::expr::fts_query_for(name.as_str()),
            ),
            Expr::Term(Symbol::InPath(pattern)) => Predicate::PathLike(
                crate::escape::escape_like_pattern(pattern.as_str(), '\\'),
            ),
        }
    }
}

/// Parses and compiles a query in one step: the tree that
/// [`crate::parse::parse_spec`] gives, compiled, or its syntax error.
pub fn compile_query(query: &str) -> (r: Result<Predicate, SyntaxError>)
    ensures
        match parse_spec(query@) {
            Ok(e) => r matches Ok(p) && p@ == compile_spec(e),
            Err(ev) => r matches Err(er) && er@ == ev,
        },
{
    match parse(query) {
        Ok(e) => Ok(e.compile()),
        Err(er) => Err(er),
    }
}

/// Matches a `LIKE` pattern from `p[i..]` against the text `s[j..]`.
fn like_match_from(p: &Vec<char>, i: usize, s: &Vec<char>, j: usize, esc: char) -> (r: bool)
    requires
        i <= p@.len(),
        j <= s@.len(),
    ensures
        r == like_matches(p@.skip(i as int), s@.skip(j as int), esc),
    decreases p@.len() - i, s@.len() - j,
{
    let ghost pp = p@.skip(i as int);
    let ghost ss = s@.skip(j as int);
    proof {
        assert(p@.len() == p.len());
        assert(s@.len() == s.len());
        if i < p@.len() {
            assert(pp[0] == p@[i as int]);
        }
        if j < s@.len() {
            assert(ss[0] == s@[j as int]);
        }
    }
    if i == p.len() {
        j == s.len()
    } else {
        let c = p[i];
        if c == esc {
            if i + 1 < p.len() && j < s.len() {
                proof {
                    assert(pp[1] == p@[i as int + 1]);
                }
                if s[j] == p[i + 1] {
                    proof {
                        assert(pp.skip(2) =~= p@.skip(i as int + 2));
                        assert(ss.skip(1) =~= s@.skip(j as int + 1));
                    }
                    like_match_from(p, i + 2, s, j + 1, esc)
                } else {
                    false
                }
            } else {
                false
            }
        } else if c == '%' {
            proof {
                assert(pp.skip(1) =~= p@.skip(i as int + 1));
            }
            let head = like_match_from(p, i + 1, s, j, esc);
            if head {
                true
            } else if j < s.len() {
                proof {
                    assert(ss.skip(1) =~= s@.skip(j as int + 1));
                }
                like_match_from(p, i, s, j + 1, esc)
            } else {
                false
            }
        } else if c == '_' {
            if j < s.len() {
                proof {
                    assert(pp.skip(1) =~= p@.skip(i as int + 1));
                    assert(ss.skip(1) =~= s@.skip(j as int + 1));
                }
                like_match_from(p, i + 1, s, j + 1, esc)
            } else {
                false
            }
        } else {
            if j < s.len() && s[j] == c {
                proof {
                    assert(pp.skip(1) =~= p@.skip(i as int + 1));
                    assert(ss.skip(1) =~= s@.skip(j as int + 1));
                }
                like_match_from(p, i + 1, s, j + 1, esc)
            } else {
                false
            }
        }
    }
}

/// Whether some tag of the row has exactly the full-text query `q`.
fn fts_membership(q: &String, row: &Row) -> (r: bool)
    ensures
        r == exists|t: Seq<char>| #[trigger] row@.tags.contains(t) && fts_string_of(t) == q@,
{
    let ghost names = row.tags@.map_values(|t: String| t@);
    let mut i: usize = 0;
    while i < row.tags.len()
        invariant
            i <= row.tags@.len(),
            names == row.tags@.map_values(|t: String| t@),
            forall|k: int| 0 <= k < i ==> fts_string_of(#[trigger] names[k]) != q@,
        decreases row.tags@.len() - i,
    {
        let f = crate::expr::fts_query_for(row.tags[i].as_str());
        if f.eq(q) {
            proof {
                assert(names[i as int] == row.tags@[i as int]@);
                assert(names.contains(names[i as int]));
                assert(row@.tags.contains(names[i as int]));
            }
            return true;
        }
        i = i + 1;
    }
    proof {
        assert forall|t: Seq<char>| row@.tags.contains(t) implies fts_string_of(t) != q@ by {
            assert(names.contains(t));
            let k = choose|k: int| 0 <= k < names.len() && names[k] == t;
            assert(fts_string_of(names[k]) != q@);
        }
    }
    false
}

impl Predicate {
    /// The synthetic backend, executably: the value of `self` on `row`.
    pub fn eval_on(&self, row: &Row) -> (r: bool)
        ensures
            r == pred_eval(self@, row@),
        decreases *self,
    {
        match self {
            Predicate::FtsMatch(q) => fts_membership(q, row),
            Predicate::PathLike(ep) => {
                let pc = str_to_chars(ep.as_str());
                let sc = str_to_chars(row.path.as_str());
                proof {
                    assert(pc@.skip(0) =~= pc@);
                    assert(sc@.skip(0) =~= sc@);
                }
                like_match_from(&pc, 0, &sc, 0, '\\')
            },
            Predicate::And(a, b) => {
                let ra = (&**a).eval_on(row);
                let rb = (&**b).eval_on(row);
                ra && rb
            },
            Predicate::Or(a, b) => {
                let ra = (&**a).eval_on(row);
                let rb = (&**b).eval_on(row);
                ra || rb
            },
            Predicate::Not(a) => !(&**a).eval_on(row),
        }
    }
}

/// The backend-consumable text of a compiled predicate: membership tests,
/// `LIKE` tests, and AND/OR/NOT, fully parenthesized.
pub open spec fn render_spec(p: PredicateV) -> Seq<char>
    decreases p,
{
    match p {
        PredicateV::FtsMatch(q) => "id IN (SELECT rowid FROM files_fts WHERE files_fts MATCH '"@
            + q + "')"@,
        PredicateV::PathLike(ep) => "path LIKE '"@ + ep + "' ESCAPE '\\'"@,
        PredicateV::And(a, b) => "("@ + render_spec(*a) + ") AND ("@ + render_spec(*b) + ")"@,
        PredicateV::Or(a, b) => "("@ + render_spec(*a) + ") OR ("@ + render_spec(*b) + ")"@,
        PredicateV::Not(a) => "NOT ("@ + render_spec(*a) + ")"@,
    }
}

impl Predicate {
    /// Renders the predicate as one boolean expression string, embeddable
    /// in the storage engine's `WHERE`-equivalent clause: exactly
    /// [`render_spec`] of the predicate.
    pub fn to_sql_string(&self) -> (r: String)
        ensures
            r@ == render_spec(self@),
        decreases *self,
    {
        match self {
            Predicate::FtsMatch(q) => {
                let mut out = String::new();
                out.append("id IN (SELECT rowid FROM files_fts WHERE files_fts MATCH '");
                out.append(q.as_str());
                out.append("')");
                out
            },
            Predicate::PathLike(ep) => {
                let mut out = String::new();
                out.append("path LIKE '");
                out.append(ep.as_str());
                out.append("' ESCAPE '\\'");
                out
            },
            Predicate::And(a, b) => {
                let ra = (&**a).to_sql_string();
                let rb = (&**b).to_sql_string();
                let mut out = String::new();
                out.append("(");
                out.append(ra.as_str());
                out.append(") AND (");
                out.append(rb.as_str());
                out.append(")");
                out
            },
            Predicate::Or(a, b) => {
                let ra = (&**a).to_sql_string();
                let rb = (&**b).to_sql_string();
                let mut out = String::new();
                out.append("(");
                out.append(ra.as_str());
                out.append(") OR (");
                out.append(rb.as_str());
                out.append(")");
                out
            },
            Predicate::Not(a) => {
                let ra = (&**a).to_sql_string();
                let mut out = String::new();
                out.append("NOT (");
                out.append(ra.as_str());
                out.append(")");
                out
            },
        }
    }
}

} // verus!
