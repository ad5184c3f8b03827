//! The query's expression tree and its reference semantics.
//!
//! An [`Expr`] is an immutable boolean tree of AND/OR/NOT over typed
//! leaves: a tag name or a path pattern. [`eval`] is the reference
//! interpreter over a synthetic row that exposes its tag set and path
//! directly; it states what a query means, independent of any backend.

use vstd::prelude::*;
use vstd::string::{StrSliceExecFns, StringExecFns};
use crate::escape::{fts_escaped, like_escaped};
use crate::text::is_space;

verus! {

/// A term payload that is empty after trimming whitespace.
#[derive(Debug, Eq, PartialEq)]
pub struct InvalidTerm;

/// A valid term payload: non-empty after trimming whitespace, that is,
/// holding at least one non-whitespace character.
pub open spec fn payload_ok(s: Seq<char>) -> bool {
    exists|i: int| 0 <= i < s.len() && !is_space(#[trigger] s[i])
}

/// Whether `s` holds a non-whitespace character.
fn has_non_space(s: &str) -> (r: bool)
    ensures
        r == payload_ok(s@),
{
    let n = s.unicode_len();
    let mut i: usize = 0;
    while i < n
        invariant
            i <= n,
            n == s@.len(),
            forall|j: int| 0 <= j < i ==> is_space(#[trigger] s@[j]),
        decreases n - i,
    {
        let c = s.get_char(i);
        if !(c == ' ' || c == '\t' || c == '\n' || c == '\r') {
            proof {
                assert(!is_space(s@[i as int]));
            }
            return true;
        }
        i = i + 1;
    }
    false
}

/// A typed leaf of the query language.
#[derive(Debug, Eq, PartialEq)]
pub enum Symbol {
    /// A tag. E.g. `kick`
    Tag(String),
    /// A key-value pair. E.g. `inpath:res/audio/`
    InPath(String),
}

/// The mathematical value of a [`Symbol`]: its kind and its payload text.
pub enum SymbolV {
    Tag(Seq<char>),
    InPath(Seq<char>),
}

impl View for Symbol {
    type V = SymbolV;

    open spec fn view(&self) -> SymbolV {
        match self {
            Symbol::Tag(name) => SymbolV::Tag(name@),
            Symbol::InPath(path) => SymbolV::InPath(path@),
        }
    }
}

/// Why a [`Symbol`] has no rendering in one of the two backend
/// sub-languages.
#[derive(Debug, Eq, PartialEq)]
pub enum QueryConversionError {
    NoAssociatedFTSString,
    NoAssociatedWhereClause,
}

/// A boolean expression tree over [`Symbol`] leaves. Each node exclusively
/// owns its children; the tree is immutable once built.
#[derive(Debug, PartialEq, Eq)]
pub enum Expr {
    /// Represents AND between 2 terms: `a & b`
    And(Box<Expr>, Box<Expr>),
    /// Represents OR between 2 terms: `a | b`
    Or(Box<Expr>, Box<Expr>),
    /// Represents a negation of an expression: `~a`
    Not(Box<Expr>),
    /// Represents a single term
    Term(Symbol),
}

/// The mathematical value of an [`Expr`].
pub enum ExprV {
    And(Box<ExprV>, Box<ExprV>),
    Or(Box<ExprV>, Box<ExprV>),
    Not(Box<ExprV>),
    Term(SymbolV),
}

/// The tree of mathematical values that `e` carries.
pub open spec fn expr_view(e: Expr) -> ExprV
    decreases e,
{
    match e {
        Expr::And(a, b) => ExprV::And(Box::new(expr_view(*a)), Box::new(expr_view(*b))),
        Expr::Or(a, b) => ExprV::Or(Box::new(expr_view(*a)), Box::new(expr_view(*b))),
        Expr::Not(a) => ExprV::Not(Box::new(expr_view(*a))),
        Expr::Term(sym) => ExprV::Term(sym@),
    }
}

impl View for Expr {
    type V = ExprV;

    open spec fn view(&self) -> ExprV {
        expr_view(*self)
    }
}

/// A well-formed symbol: its payload is non-empty after trimming.
pub open spec fn sym_wf(s: SymbolV) -> bool {
    match s {
        SymbolV::Tag(name) => payload_ok(name),
        SymbolV::InPath(pattern) => payload_ok(pattern),
    }
}

/// A well-formed tree: every leaf's payload is non-empty after trimming.
/// Checked construction establishes this for leaves, and the parser only
/// builds such trees.
pub open spec fn expr_wf(e: ExprV) -> bool
    decreases e,
{
    match e {
        ExprV::And(a, b) => expr_wf(*a) && expr_wf(*b),
        ExprV::Or(a, b) => expr_wf(*a) && expr_wf(*b),
        ExprV::Not(a) => expr_wf(*a),
        ExprV::Term(s) => sym_wf(s),
    }
}

/// A synthetic row: the tag set and the path, exposed directly, with no
/// escaping and no backend.
pub struct RowV {
    pub tags: Set<Seq<char>>,
    pub path: Seq<char>,
}

/// The reference interpreter: what a query means on a synthetic row. A tag
/// term asks for membership in the row's tag set; a path term asks that
/// the row's path equal the pattern text (no implicit wildcards); the
/// combinators are ordinary boolean connectives.
pub open spec fn eval(e: ExprV, row: RowV) -> bool
    decreases e,
{
    match e {
        ExprV::And(a, b) => eval(*a, row) && eval(*b, row),
        ExprV::Or(a, b) => eval(*a, row) || eval(*b, row),
        ExprV::Not(a) => !eval(*a, row),
        ExprV::Term(SymbolV::Tag(name)) => row.tags.contains(name),
        ExprV::Term(SymbolV::InPath(pattern)) => row.path == pattern,
    }
}

/// An executable synthetic row, for exercising the interpreter and the
/// compiled predicate side by side.
pub struct Row {
    pub tags: Vec<String>,
    pub path: String,
}

impl View for Row {
    type V = RowV;

    open spec fn view(&self) -> RowV {
        RowV { tags: self.tags@.map_values(|t: String| t@).to_set(), path: self.path@ }
    }
}

impl Row {
    /// Whether the row carries the tag `name`.
    pub fn has_tag(&self, name: &String) -> (r: bool)
        ensures
            r == self@.tags.contains(name@),
    {
        let ghost names = self.tags@.map_values(|t: String| t@);
        let mut i: usize = 0;
        while i < self.tags.len()
            invariant
                i <= self.tags@.len(),
                names == self.tags@.map_values(|t: String| t@),
                forall|j: int| 0 <= j < i ==> names[j] != name@,
            decreases self.tags@.len() - i,
        {
            if self.tags[i].eq(name) {
                proof {
                    assert(names[i as int] == name@);
                    assert(names.contains(name@));
                }
                return true;
            }
            i = i + 1;
        }
        proof {
            assert(!names.contains(name@));
        }
        false
    }
}

impl Expr {
    /// The reference interpreter, executably: the value of `self` on `row`.
    pub fn eval_on(&self, row: &Row) -> (r: bool)
        ensures
            r == eval(self@, row@),
        decreases *self,
    {
        match self {
            Expr::And(a, b) => {
                let ra = (&**a).eval_on(row);
                let rb = (&**b).eval_on(row);
                ra && rb
            },
            Expr::Or(a, b) => {
                let ra = (&**a).eval_on(row);
                let rb = (&**b).eval_on(row);
                ra || rb
            },
            Expr::Not(a) => !(&**a).eval_on(row),
            Expr::Term(Symbol::Tag(name)) => row.has_tag(name),
            Expr::Term(Symbol::InPath(pattern)) => pattern.eq(&row.path),
        }
    }
}

/// The full-text query fragment for a tag name: the name, escaped, between
/// double quotes, prefixed by the indexed column.
pub open spec fn fts_string_of(name: Seq<char>) -> Seq<char> {
    "tags:\""@ + fts_escaped(name) + "\""@
}

/// The plain-predicate fragment for a path pattern: a `LIKE` test on the
/// path field, with the pattern escaped under escape character `\`.
pub open spec fn where_clause_of(pattern: Seq<char>) -> Seq<char> {
    "path LIKE '"@ + like_escaped(pattern, '\\') + "' ESCAPE '\\'"@
}

/// Builds the full-text query fragment for a tag name, escaping it once.
pub fn fts_query_for(name: &str) -> (r: String)
    ensures
        r@ == fts_string_of(name@),
{
    let mut out = String::new();
    out.append("tags:\"");
    let escaped = crate::escape::escape_fts5_string(name);
    out.append(escaped.as_str());
    out.append("\"");
    out
}

impl Symbol {
    /// A tag term, checked: the name is stored as given, unescaped, and
    /// must not be empty after trimming whitespace.
    pub fn new_tag(name: String) -> (r: Result<Symbol, InvalidTerm>)
        ensures
            payload_ok(name@) ==> (r matches Ok(s) && s == Symbol::Tag(name)),
            !payload_ok(name@) ==> r == Err::<Symbol, InvalidTerm>(InvalidTerm),
    {
        if has_non_space(name.as_str()) {
            Ok(Symbol::Tag(name))
        } else {
            Err(InvalidTerm)
        }
    }

    /// A path term, checked: the pattern is stored as given, unescaped,
    /// and must not be empty after trimming whitespace.
    pub fn new_in_path(pattern: String) -> (r: Result<Symbol, InvalidTerm>)
        ensures
            payload_ok(pattern@) ==> (r matches Ok(s) && s == Symbol::InPath(pattern)),
            !payload_ok(pattern@) ==> r == Err::<Symbol, InvalidTerm>(InvalidTerm),
    {
        if has_non_space(pattern.as_str()) {
            Ok(Symbol::InPath(pattern))
        } else {
            Err(InvalidTerm)
        }
    }

    /// The fragment of the full-text index's query language that stands
    /// for this symbol: defined for a tag, and for nothing else.
    pub fn to_fts_string(&self) -> (r: Result<String, QueryConversionError>)
        ensures
            match self {
                Symbol::Tag(name) => r matches Ok(s) && s@ == fts_string_of(name@),
                Symbol::InPath(_) => r matches Err(e) && e == QueryConversionError::NoAssociatedFTSString,
            },
    {
        match self {
            Symbol::Tag(name) => Ok(fts_query_for(name.as_str())),
            Symbol::InPath(_) => Err(QueryConversionError::NoAssociatedFTSString),
        }
    }

    /// The fragment of the plain predicate language that stands for this
    /// symbol: defined for a path pattern, and for nothing else.
    pub fn to_where_clause(&self) -> (r: Result<String, QueryConversionError>)
        ensures
            match self {
                Symbol::InPath(path) => r matches Ok(s) && s@ == where_clause_of(path@),
                Symbol::Tag(_) => r matches Err(e) && e == QueryConversionError::NoAssociatedWhereClause,
            },
    {
        match self {
            Symbol::InPath(path) => {
                let mut out = String::new();
                out.append("path LIKE '");
                let escaped = crate::escape::escape_like_pattern(path.as_str(), '\\');
                out.append(escaped.as_str());
                out.append("' ESCAPE '\\'");
                Ok(out)
            },
            Symbol::Tag(_) => Err(QueryConversionError::NoAssociatedWhereClause),
        }
    }
}

} // verus!
