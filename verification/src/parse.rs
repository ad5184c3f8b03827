//! Lexer and parser for the query language.
//!
//! Grammar (tokens are maximal runs of non-whitespace characters, except
//! `|`, which is always a token of its own):
//!
//! ```text
//! query      := or_expr
//! or_expr    := and_expr ( '|' and_expr )*
//! and_expr   := term+                      // implicit AND by juxtaposition
//! term       := '-' atom | atom            // '-' negates the atom
//! atom       := KEY ':' VALUE | TAGNAME
//! ```
//!
//! The only recognized `KEY` is `inpath`; any other `KEY:VALUE` token is
//! rejected. Both folds are left folds, so parsing is a function of the
//! query text alone: [`parse`] returns exactly [`parse_spec`] of its input.

use vstd::prelude::*;
use crate::expr::{expr_wf, payload_ok, sym_wf, Expr, ExprV, Symbol, SymbolV};
use crate::text::{chars_to_string, is_space, str_to_chars, subvec};

verus! {

/// What made the query text ill-formed.
#[derive(Clone, Copy, Debug, PartialEq, Eq)]
pub enum SyntaxErrorKind {
    /// The query holds no token at all.
    EmptyQuery,
    /// A term was expected, but a `|` stood there.
    ExpectedTerm,
    /// A `|` with no or-branch after it.
    DanglingOr,
    /// A `-` with no atom after it.
    DanglingNeg,
    /// A `KEY:VALUE` atom whose key is not `inpath`.
    UnknownKey,
    /// An `inpath:` atom with an empty value.
    EmptyValue,
}

/// A malformed query, with the offending character offset.
#[derive(Debug, PartialEq, Eq)]
pub struct SyntaxError {
    pub pos: usize,
    pub kind: SyntaxErrorKind,
}

/// The mathematical value of a [`SyntaxError`].
pub struct SyntaxErrorV {
    pub pos: int,
    pub kind: SyntaxErrorKind,
}

impl View for SyntaxError {
    type V = SyntaxErrorV;

    open spec fn view(&self) -> SyntaxErrorV {
        SyntaxErrorV { pos: self.pos as int, kind: self.kind }
    }
}

/// One token: its text and the offset of its first character.
pub struct Token {
    pub text: Vec<char>,
    pub pos: usize,
}

/// The mathematical value of a [`Token`].
pub struct TokenV {
    pub text: Seq<char>,
    pub pos: int,
}

impl View for Token {
    type V = TokenV;

    open spec fn view(&self) -> TokenV {
        TokenV { text: self.text@, pos: self.pos as int }
    }
}

/// The views of a sequence of tokens.
pub open spec fn toks_view(ts: Seq<Token>) -> Seq<TokenV> {
    ts.map_values(|t: Token| t@)
}

/// A character that extends an ordinary token.
pub open spec fn is_word_char(c: char) -> bool {
    !is_space(c) && c != '|'
}

/// The end of the maximal run of word characters that starts at `i`.
pub open spec fn run_end(s: Seq<char>, i: int) -> int
    decreases s.len() - i,
{
    if i < 0 || i >= s.len() || !is_word_char(s[i]) {
        i
    } else {
        run_end(s, i + 1)
    }
}

/// The run starting at `i` ends no earlier than `i` and within `s`; if a
/// word character stands at `i`, it ends strictly after `i`.
pub proof fn lemma_run_end_bounds(s: Seq<char>, i: int)
    requires
        0 <= i <= s.len(),
    ensures
        i <= run_end(s, i) <= s.len(),
        i < s.len() && is_word_char(s[i]) ==> run_end(s, i) > i,
    decreases s.len() - i,
{
    if i < s.len() && is_word_char(s[i]) {
        lemma_run_end_bounds(s, i + 1);
    }
}

/// The tokens of `s` from offset `i` on: whitespace is skipped, `|` is a
/// token of its own, and every other token is a maximal run of word
/// characters.
pub open spec fn lex_from(s: Seq<char>, i: int) -> Seq<TokenV>
    decreases s.len() - i,
{
    if i < 0 || i >= s.len() {
        Seq::empty()
    } else if is_space(s[i]) {
        lex_from(s, i + 1)
    } else if s[i] == '|' {
        seq![TokenV { text: seq!['|'], pos: i }] + lex_from(s, i + 1)
    } else {
        proof {
            lemma_run_end_bounds(s, i);
        }
        seq![TokenV { text: s.subrange(i, run_end(s, i)), pos: i }] + lex_from(s, run_end(s, i))
    }
}

/// The tokens of the whole character sequence `s`, with each token's
/// offset and text bounded by `s` itself.
pub fn lex(s: &Vec<char>) -> (r: Vec<Token>)
    ensures
        toks_view(r@) == lex_from(s@, 0),
        forall|k: int|
            0 <= k < r@.len() ==> (#[trigger] r@[k]).pos + r@[k].text@.len() <= s@.len(),
{
    let mut toks: Vec<Token> = Vec::new();
    let mut i: usize = 0;
    while i < s.len()
        invariant
            i <= s@.len(),
            lex_from(s@, 0) == toks_view(toks@) + lex_from(s@, i as int),
            forall|k: int|
                0 <= k < toks@.len() ==> (#[trigger] toks@[k]).pos + toks@[k].text@.len()
                    <= s@.len(),
        decreases s@.len() - i,
    {
        let c = s[i];
        if c == ' ' || c == '\t' || c == '\n' || c == '\r' {
            proof {
                assert(lex_from(s@, i as int) == lex_from(s@, i as int + 1));
            }
            i = i + 1;
        } else if c == '|' {
            let mut text: Vec<char> = Vec::new();
            text.push('|');
            let tok = Token { text, pos: i };
            proof {
                assert(tok@.text =~= seq!['|']);
            }
            toks.push(tok);
            proof {
                assert(toks_view(toks@) =~= toks_view(toks@.drop_last()).push(tok@));
                assert(lex_from(s@, i as int) == seq![TokenV { text: seq!['|'], pos: i as int }]
                    + lex_from(s@, i as int + 1));
                assert(toks_view(toks@) + lex_from(s@, i as int + 1) =~= lex_from(s@, 0));
            }
            i = i + 1;
        } else {
            let start = i;
            let mut text: Vec<char> = Vec::new();
            let mut j = i;
            proof {
                assert(text@ =~= s@.subrange(start as int, j as int));
            }
            while j < s.len() && s[j] != ' ' && s[j] != '\t' && s[j] != '\n' && s[j] != '\r'
                && s[j] != '|'
                invariant
                    start <= j <= s@.len(),
                    text@ == s@.subrange(start as int, j as int),
                    run_end(s@, start as int) == run_end(s@, j as int),
                decreases s@.len() - j,
            {
                let c2 = s[j];
                text.push(c2);
                proof {
                    assert(is_word_char(s@[j as int]));
                    assert(run_end(s@, j as int) == run_end(s@, j as int + 1));
                    assert(text@ =~= s@.subrange(start as int, j as int + 1));
                }
                j = j + 1;
            }
            proof {
                assert(run_end(s@, j as int) == j as int);
                lemma_run_end_bounds(s@, start as int);
            }
            let tok = Token { text, pos: start };
            toks.push(tok);
            proof {
                assert(is_word_char(s@[start as int]));
                assert(lex_from(s@, start as int) == seq![
                    TokenV { text: s@.subrange(start as int, j as int), pos: start as int },
                ] + lex_from(s@, j as int));
                assert(toks_view(toks@) =~= toks_view(toks@.drop_last()).push(tok@));
                assert(toks_view(toks@) + lex_from(s@, j as int) =~= lex_from(s@, 0));
            }
            i = j;
        }
    }
    proof {
        assert(lex_from(s@, s@.len() as int) =~= Seq::<TokenV>::empty());
        assert(toks_view(toks@) =~= lex_from(s@, 0));
    }
    toks
}

/// Whether the token is the or-separator.
pub open spec fn is_bar(t: TokenV) -> bool {
    t.text == seq!['|']
}

fn is_bar_exec(t: &Token) -> (r: bool)
    ensures
        r == is_bar(t@),
{
    let r = t.text.len() == 1 && t.text[0] == '|';
    proof {
        if r {
            assert(t.text@ =~= seq!['|']);
        } else {
            assert(t.text@ != seq!['|']) by {
                if t.text@.len() == 1 {
                    assert(t.text@[0] != '|');
                }
            }
        }
    }
    r
}

/// The offset of the first `:` in `s` at or after `i`, or `s.len()` where
/// there is none.
pub open spec fn find_colon(s: Seq<char>, i: int) -> int
    decreases s.len() - i,
{
    if i < 0 || i >= s.len() {
        s.len() as int
    } else if s[i] == ':' {
        i
    } else {
        find_colon(s, i + 1)
    }
}

/// Whether the text before the colon at offset `k` is the one recognized
/// key, `inpath`.
pub open spec fn is_inpath_key(s: Seq<char>, k: int) -> bool {
    &&& k == 6
    &&& s.len() > 6
    &&& s[0] == 'i'
    &&& s[1] == 'n'
    &&& s[2] == 'p'
    &&& s[3] == 'a'
    &&& s[4] == 't'
    &&& s[5] == 'h'
}

/// The atom a token's text denotes: a `KEY:VALUE` pair must carry the key
/// `inpath` and a non-empty value; any text without a colon is a tag.
/// `pos` is the offset of the text's first character in the query.
pub open spec fn parse_atom(text: Seq<char>, pos: int) -> Result<SymbolV, SyntaxErrorV> {
    let k = find_colon(text, 0);
    if k == text.len() {
        Ok(SymbolV::Tag(text))
    } else if is_inpath_key(text, k) {
        if k + 1 == text.len() {
            Err(SyntaxErrorV { pos: pos + k + 1, kind: SyntaxErrorKind::EmptyValue })
        } else {
            Ok(SymbolV::InPath(text.skip(k + 1)))
        }
    } else {
        Err(SyntaxErrorV { pos: pos, kind: SyntaxErrorKind::UnknownKey })
    }
}

/// The term a token denotes: a leading `-` negates the atom made of the
/// rest of the token's text.
pub open spec fn parse_term(t: TokenV) -> Result<ExprV, SyntaxErrorV> {
    if t.text.len() == 0 {
        Err(SyntaxErrorV { pos: t.pos, kind: SyntaxErrorKind::ExpectedTerm })
    } else if t.text[0] == '-' {
        if t.text.len() == 1 {
            Err(SyntaxErrorV { pos: t.pos, kind: SyntaxErrorKind::DanglingNeg })
        } else {
            match parse_atom(t.text.skip(1), t.pos + 1) {
                Ok(s) => Ok(ExprV::Not(Box::new(ExprV::Term(s)))),
                Err(e) => Err(e),
            }
        }
    } else {
        match parse_atom(t.text, t.pos) {
            Ok(s) => Ok(ExprV::Term(s)),
            Err(e) => Err(e),
        }
    }
}

/// Folds further terms of one and-branch onto `acc`, left to right,
/// stopping at a `|` or at the end; returns the branch and the offset of
/// the first unconsumed token.
pub open spec fn parse_and_rest(toks: Seq<TokenV>, i: int, acc: ExprV) -> Result<
    (ExprV, int),
    SyntaxErrorV,
>
    decreases toks.len() - i,
{
    if i < 0 || i >= toks.len() || is_bar(toks[i]) {
        Ok((acc, i))
    } else {
        match parse_term(toks[i]) {
            Ok(t) => parse_and_rest(toks, i + 1, ExprV::And(Box::new(acc), Box::new(t))),
            Err(e) => Err(e),
        }
    }
}

/// Parses one and-branch that must start at `i`: at least one term,
/// further terms folded under AND, left to right.
pub open spec fn parse_and(toks: Seq<TokenV>, i: int) -> Result<(ExprV, int), SyntaxErrorV> {
    if 0 <= i < toks.len() {
        if is_bar(toks[i]) {
            Err(SyntaxErrorV { pos: toks[i].pos, kind: SyntaxErrorKind::ExpectedTerm })
        } else {
            match parse_term(toks[i]) {
                Ok(t) => parse_and_rest(toks, i + 1, t),
                Err(e) => Err(e),
            }
        }
    } else {
        Err(SyntaxErrorV { pos: 0, kind: SyntaxErrorKind::ExpectedTerm })
    }
}

/// An and-branch consumes at least the tokens it was started on: the
/// returned offset never moves backwards and stays within the tokens.
pub proof fn lemma_parse_and_rest_bounds(toks: Seq<TokenV>, i: int, acc: ExprV)
    requires
        i <= toks.len(),
    ensures
        parse_and_rest(toks, i, acc) matches Ok(p) ==> i <= p.1 <= toks.len(),
    decreases toks.len() - i,
{
    if i < 0 || i >= toks.len() || is_bar(toks[i]) {
    } else {
        match parse_term(toks[i]) {
            Ok(t) => {
                lemma_parse_and_rest_bounds(toks, i + 1, ExprV::And(Box::new(acc), Box::new(t)));
            },
            Err(_) => {},
        }
    }
}

/// A successfully parsed and-branch ends strictly after where it began.
pub proof fn lemma_parse_and_bounds(toks: Seq<TokenV>, i: int)
    ensures
        parse_and(toks, i) matches Ok(p) ==> i < p.1 <= toks.len(),
{
    if 0 <= i < toks.len() && !is_bar(toks[i]) {
        match parse_term(toks[i]) {
            Ok(t) => {
                lemma_parse_and_rest_bounds(toks, i + 1, t);
            },
            Err(_) => {},
        }
    }
}

/// Folds further or-branches onto `acc`, left to right. At `i` stands the
/// separator of the next branch, or nothing: a separator with no branch
/// after it is dangling.
pub open spec fn parse_or_rest(toks: Seq<TokenV>, i: int, acc: ExprV) -> Result<
    ExprV,
    SyntaxErrorV,
>
    decreases toks.len() - i,
    via parse_or_rest_decreases
{
    if i < 0 || i >= toks.len() {
        Ok(acc)
    } else if i + 1 >= toks.len() {
        Err(SyntaxErrorV { pos: toks[i].pos, kind: SyntaxErrorKind::DanglingOr })
    } else {
        match parse_and(toks, i + 1) {
            Ok((e, j)) => parse_or_rest(toks, j, ExprV::Or(Box::new(acc), Box::new(e))),
            Err(e) => Err(e),
        }
    }
}

#[via_fn]
proof fn parse_or_rest_decreases(toks: Seq<TokenV>, i: int, acc: ExprV) {
    if 0 <= i < toks.len() && i + 1 < toks.len() {
        lemma_parse_and_bounds(toks, i + 1);
    }
}

/// The expression a token sequence denotes: one and-branch, then further
/// branches folded under OR, left to right.
pub open spec fn parse_tokens(toks: Seq<TokenV>) -> Result<ExprV, SyntaxErrorV> {
    if toks.len() == 0 {
        Err(SyntaxErrorV { pos: 0, kind: SyntaxErrorKind::EmptyQuery })
    } else {
        match parse_and(toks, 0) {
            Ok((e, j)) => parse_or_rest(toks, j, e),
            Err(e) => Err(e),
        }
    }
}

/// The expression tree, or the syntax error, that a query text denotes.
pub open spec fn parse_spec(s: Seq<char>) -> Result<ExprV, SyntaxErrorV> {
    parse_tokens(lex_from(s, 0))
}

/// A token text as the lexer yields it: non-empty, with no whitespace.
pub open spec fn tok_text_ok(t: TokenV) -> bool {
    t.text.len() > 0 && forall|m: int| 0 <= m < t.text.len() ==> !is_space(#[trigger] t.text[m])
}

/// Every character of the run starting at `i` is a word character.
pub proof fn lemma_run_end_chars(s: Seq<char>, i: int)
    requires
        0 <= i <= s.len(),
    ensures
        forall|j: int| i <= j < run_end(s, i) ==> is_word_char(#[trigger] s[j]),
    decreases s.len() - i,
{
    if i < s.len() && is_word_char(s[i]) {
        lemma_run_end_chars(s, i + 1);
        lemma_run_end_bounds(s, i + 1);
    }
}

/// Every token the lexer yields has non-empty, whitespace-free text.
pub proof fn lemma_lex_tokens_ok(s: Seq<char>, i: int)
    requires
        0 <= i,
    ensures
        forall|k: int|
            0 <= k < lex_from(s, i).len() ==> tok_text_ok(#[trigger] lex_from(s, i)[k]),
    decreases s.len() - i,
{
    if i >= s.len() {
    } else if is_space(s[i]) {
        lemma_lex_tokens_ok(s, i + 1);
    } else if s[i] == '|' {
        lemma_lex_tokens_ok(s, i + 1);
        let head = TokenV { text: seq!['|'], pos: i };
        assert(tok_text_ok(head)) by {
            assert(head.text[0] == '|');
        }
        assert forall|k: int| 0 <= k < lex_from(s, i).len() implies tok_text_ok(
            #[trigger] lex_from(s, i)[k],
        ) by {
            if k > 0 {
                assert(lex_from(s, i)[k] == lex_from(s, i + 1)[k - 1]);
            }
        }
    } else {
        lemma_run_end_bounds(s, i);
        lemma_run_end_chars(s, i);
        let j = run_end(s, i);
        lemma_lex_tokens_ok(s, j);
        let head = TokenV { text: s.subrange(i, j), pos: i };
        assert(tok_text_ok(head)) by {
            assert forall|m: int| 0 <= m < head.text.len() implies !is_space(
                #[trigger] head.text[m],
            ) by {
                assert(head.text[m] == s[i + m]);
                assert(is_word_char(s[i + m]));
            }
        }
        assert forall|k: int| 0 <= k < lex_from(s, i).len() implies tok_text_ok(
            #[trigger] lex_from(s, i)[k],
        ) by {
            if k > 0 {
                assert(lex_from(s, i)[k] == lex_from(s, j)[k - 1]);
            }
        }
    }
}

/// The first colon at or after `i` lies between `i` and the end.
pub proof fn lemma_find_colon_bounds(s: Seq<char>, i: int)
    requires
        0 <= i <= s.len(),
    ensures
        i <= find_colon(s, i) <= s.len(),
    decreases s.len() - i,
{
    if i < s.len() && s[i] != ':' {
        lemma_find_colon_bounds(s, i + 1);
    }
}

/// An atom parsed from non-blank text has a valid payload.
pub proof fn lemma_parse_atom_wf(text: Seq<char>, pos: int)
    requires
        text.len() > 0,
        forall|m: int| 0 <= m < text.len() ==> !is_space(#[trigger] text[m]),
    ensures
        parse_atom(text, pos) matches Ok(sym) ==> sym_wf(sym),
{
    lemma_find_colon_bounds(text, 0);
    let k = find_colon(text, 0);
    if k == text.len() {
        assert(!is_space(text[0]));
        assert(payload_ok(text));
    } else if is_inpath_key(text, k) && k + 1 != text.len() {
        let v = text.skip(k + 1);
        assert(v.len() > 0);
        assert(v[0] == text[k + 1]);
        assert(!is_space(v[0]));
        assert(payload_ok(v));
    }
}

/// A term parsed from a lexer token is a well-formed tree.
pub proof fn lemma_parse_term_wf(t: TokenV)
    requires
        tok_text_ok(t),
    ensures
        parse_term(t) matches Ok(e) ==> expr_wf(e),
{
    if t.text.len() > 0 && t.text[0] == '-' && t.text.len() > 1 {
        let rest = t.text.skip(1);
        assert forall|m: int| 0 <= m < rest.len() implies !is_space(#[trigger] rest[m]) by {
            assert(rest[m] == t.text[m + 1]);
        }
        lemma_parse_atom_wf(rest, t.pos + 1);
        match parse_atom(rest, t.pos + 1) {
            Ok(sym) => {
                assert(expr_wf(ExprV::Term(sym)));
            },
            Err(_) => {},
        }
    } else if t.text.len() > 0 && t.text[0] != '-' {
        lemma_parse_atom_wf(t.text, t.pos);
    }
}

/// Folding further terms onto a well-formed branch keeps it well-formed.
pub proof fn lemma_parse_and_rest_wf(toks: Seq<TokenV>, i: int, acc: ExprV)
    requires
        forall|k: int| 0 <= k < toks.len() ==> tok_text_ok(#[trigger] toks[k]),
        expr_wf(acc),
    ensures
        parse_and_rest(toks, i, acc) matches Ok(p) ==> expr_wf(p.0),
    decreases toks.len() - i,
{
    if i < 0 || i >= toks.len() || is_bar(toks[i]) {
    } else {
        lemma_parse_term_wf(toks[i]);
        match parse_term(toks[i]) {
            Ok(t) => {
                lemma_parse_and_rest_wf(toks, i + 1, ExprV::And(Box::new(acc), Box::new(t)));
            },
            Err(_) => {},
        }
    }
}

/// A parsed and-branch is well-formed.
pub proof fn lemma_parse_and_wf(toks: Seq<TokenV>, i: int)
    requires
        forall|k: int| 0 <= k < toks.len() ==> tok_text_ok(#[trigger] toks[k]),
    ensures
        parse_and(toks, i) matches Ok(p) ==> expr_wf(p.0),
{
    if 0 <= i < toks.len() && !is_bar(toks[i]) {
        lemma_parse_term_wf(toks[i]);
        match parse_term(toks[i]) {
            Ok(t) => {
                lemma_parse_and_rest_wf(toks, i + 1, t);
            },
            Err(_) => {},
        }
    }
}

/// Folding further or-branches onto a well-formed tree keeps it
/// well-formed.
pub proof fn lemma_parse_or_rest_wf(toks: Seq<TokenV>, i: int, acc: ExprV)
    requires
        forall|k: int| 0 <= k < toks.len() ==> tok_text_ok(#[trigger] toks[k]),
        expr_wf(acc),
    ensures
        parse_or_rest(toks, i, acc) matches Ok(e) ==> expr_wf(e),
    decreases toks.len() - i,
{
    if 0 <= i < toks.len() && i + 1 < toks.len() {
        lemma_parse_and_wf(toks, i + 1);
        match parse_and(toks, i + 1) {
            Ok((e, j)) => {
                lemma_parse_and_bounds(toks, i + 1);
                lemma_parse_or_rest_wf(toks, j, ExprV::Or(Box::new(acc), Box::new(e)));
            },
            Err(_) => {},
        }
    }
}

/// Every tree the parser yields is well-formed: no term's payload is
/// empty after trimming, because tokens are maximal non-whitespace runs
/// and an empty `inpath` value is rejected.
pub proof fn lemma_parse_wf(s: Seq<char>)
    ensures
        parse_spec(s) matches Ok(e) ==> expr_wf(e),
{
    let toks = lex_from(s, 0);
    lemma_lex_tokens_ok(s, 0);
    if toks.len() > 0 {
        lemma_parse_and_wf(toks, 0);
        match parse_and(toks, 0) {
            Ok((e, j)) => {
                lemma_parse_or_rest_wf(toks, j, e);
            },
            Err(_) => {},
        }
    }
}

/// Whether the executable result `r` carries exactly the value of the
/// specification result `v`.
pub open spec fn sym_res_matches(
    r: Result<Symbol, SyntaxError>,
    v: Result<SymbolV, SyntaxErrorV>,
) -> bool {
    match (r, v) {
        (Ok(s), Ok(sv)) => s@ == sv,
        (Err(e), Err(ev)) => e@ == ev,
        _ => false,
    }
}

/// Whether the executable result `r` carries exactly the value of the
/// specification result `v`.
pub open spec fn expr_res_matches(
    r: Result<Expr, SyntaxError>,
    v: Result<ExprV, SyntaxErrorV>,
) -> bool {
    match (r, v) {
        (Ok(e), Ok(ev)) => e@ == ev,
        (Err(e), Err(ev)) => e@ == ev,
        _ => false,
    }
}

/// Whether the executable result `r` carries exactly the value of the
/// specification result `v`, offset included.
pub open spec fn and_res_matches(
    r: Result<(Expr, usize), SyntaxError>,
    v: Result<(ExprV, int), SyntaxErrorV>,
) -> bool {
    match (r, v) {
        (Ok(p), Ok(pv)) => p.0@ == pv.0 && p.1 as int == pv.1,
        (Err(e), Err(ev)) => e@ == ev,
        _ => false,
    }
}

/// Every token's offset and length fit the arithmetic the parser does.
pub open spec fn toks_pos_ok(ts: Seq<Token>) -> bool {
    forall|k: int|
        0 <= k < ts.len() ==> (#[trigger] ts[k]).pos + ts[k].text@.len() <= usize::MAX
}

/// The offset of the first `:` in `text` at or after `from`, absolute.
fn find_colon_exec(text: &Vec<char>, from: usize) -> (r: usize)
    requires
        from <= text@.len(),
    ensures
        from <= r <= text@.len(),
        r - from == find_colon(text@.skip(from as int), 0),
{
    let ghost sub = text@.skip(from as int);
    let n = text.len();
    let mut j = from;
    proof {
        assert(find_colon(sub, 0) == find_colon(sub, (j - from) as int));
    }
    while j < n
        invariant
            from <= j <= n,
            n == text@.len(),
            sub == text@.skip(from as int),
            find_colon(sub, 0) == find_colon(sub, j - from),
        decreases n - j,
    {
        if text[j] == ':' {
            proof {
                assert(sub[j - from] == text@[j as int]);
                assert(find_colon(sub, j - from) == j - from);
            }
            return j;
        }
        proof {
            assert(sub[j - from] == text@[j as int]);
            assert(find_colon(sub, j - from) == find_colon(sub, j - from + 1));
        }
        j = j + 1;
    }
    proof {
        assert(find_colon(sub, j - from) == sub.len());
    }
    j
}

/// Parses the atom in `text[from..]`, whose first character stands at
/// query offset `pos`.
fn parse_atom_exec(text: &Vec<char>, from: usize, pos: usize) -> (r: Result<Symbol, SyntaxError>)
    requires
        from <= text@.len(),
        pos + (text@.len() - from) <= usize::MAX,
    ensures
        sym_res_matches(r, parse_atom(text@.skip(from as int), pos as int)),
{
    let ghost sub = text@.skip(from as int);
    let n = text.len();
    let k = find_colon_exec(text, from);
    if k == n {
        let payload = chars_to_string(&subvec(text, from, n));
        proof {
            assert(sub =~= text@.subrange(from as int, n as int));
        }
        Ok(Symbol::Tag(payload))
    } else if k - from == 6 && text[from] == 'i' && text[from + 1] == 'n' && text[from + 2] == 'p'
        && text[from + 3] == 'a' && text[from + 4] == 't' && text[from + 5] == 'h' {
        proof {
            assert(forall|m: int| 0 <= m < sub.len() ==> sub[m] == text@[from + m]);
            assert(is_inpath_key(sub, 6));
        }
        if k + 1 == n {
            Err(SyntaxError { pos: pos + (k - from) + 1, kind: SyntaxErrorKind::EmptyValue })
        } else {
            let payload = chars_to_string(&subvec(text, k + 1, n));
            proof {
                assert(sub.skip(k - from + 1) =~= text@.subrange(k as int + 1, n as int));
            }
            Ok(Symbol::InPath(payload))
        }
    } else {
        proof {
            assert(forall|m: int| 0 <= m < sub.len() ==> sub[m] == text@[from + m]);
            assert(!is_inpath_key(sub, k - from));
        }
        Err(SyntaxError { pos: pos, kind: SyntaxErrorKind::UnknownKey })
    }
}

/// Parses the term one token denotes.
fn parse_term_exec(tok: &Token) -> (r: Result<Expr, SyntaxError>)
    requires
        tok.pos + tok.text@.len() <= usize::MAX,
    ensures
        expr_res_matches(r, parse_term(tok@)),
{
    let n = tok.text.len();
    if n == 0 {
        Err(SyntaxError { pos: tok.pos, kind: SyntaxErrorKind::ExpectedTerm })
    } else if tok.text[0] == '-' {
        if n == 1 {
            Err(SyntaxError { pos: tok.pos, kind: SyntaxErrorKind::DanglingNeg })
        } else {
            match parse_atom_exec(&tok.text, 1, tok.pos + 1) {
                Ok(sym) => {
                    proof {
                        assert(crate::expr::expr_view(Expr::Term(sym)) == ExprV::Term(sym@));
                    }
                    Ok(Expr::Not(Box::new(Expr::Term(sym))))
                },
                Err(e) => Err(e),
            }
        }
    } else {
        proof {
            assert(tok.text@.skip(0) =~= tok.text@);
        }
        match parse_atom_exec(&tok.text, 0, tok.pos) {
            Ok(sym) => Ok(Expr::Term(sym)),
            Err(e) => Err(e),
        }
    }
}

/// Folds further terms of one and-branch onto `acc`, as
/// [`parse_and_rest`] describes.
fn parse_and_rest_exec(toks: &Vec<Token>, i: usize, acc: Expr) -> (r: Result<
    (Expr, usize),
    SyntaxError,
>)
    requires
        i <= toks@.len(),
        toks_pos_ok(toks@),
    ensures
        and_res_matches(r, parse_and_rest(toks_view(toks@), i as int, acc@)),
    decreases toks@.len() - i,
{
    proof {
        assert(toks@.len() == toks.len());
    }
    if i == toks.len() {
        Ok((acc, i))
    } else if is_bar_exec(&toks[i]) {
        proof {
            assert(toks_view(toks@)[i as int] == toks@[i as int]@);
        }
        Ok((acc, i))
    } else {
        proof {
            assert(toks_view(toks@)[i as int] == toks@[i as int]@);
        }
        match parse_term_exec(&toks[i]) {
            Ok(t) => parse_and_rest_exec(toks, i + 1, Expr::And(Box::new(acc), Box::new(t))),
            Err(e) => Err(e),
        }
    }
}

/// Parses one and-branch that must start at `i`, as [`parse_and`]
/// describes.
fn parse_and_exec(toks: &Vec<Token>, i: usize) -> (r: Result<(Expr, usize), SyntaxError>)
    requires
        i < toks@.len(),
        toks_pos_ok(toks@),
    ensures
        and_res_matches(r, parse_and(toks_view(toks@), i as int)),
{
    proof {
        assert(toks@.len() == toks.len());
        assert(toks_view(toks@)[i as int] == toks@[i as int]@);
    }
    if is_bar_exec(&toks[i]) {
        Err(SyntaxError { pos: toks[i].pos, kind: SyntaxErrorKind::ExpectedTerm })
    } else {
        match parse_term_exec(&toks[i]) {
            Ok(t) => parse_and_rest_exec(toks, i + 1, t),
            Err(e) => Err(e),
        }
    }
}

/// Folds further or-branches onto `acc`, as [`parse_or_rest`] describes.
fn parse_or_rest_exec(toks: &Vec<Token>, i: usize, acc: Expr) -> (r: Result<Expr, SyntaxError>)
    requires
        i <= toks@.len(),
        toks_pos_ok(toks@),
    ensures
        expr_res_matches(r, parse_or_rest(toks_view(toks@), i as int, acc@)),
    decreases toks@.len() - i,
{
    proof {
        assert(toks@.len() == toks.len());
    }
    if i == toks.len() {
        Ok(acc)
    } else if i + 1 == toks.len() {
        proof {
            assert(toks_view(toks@)[i as int] == toks@[i as int]@);
        }
        Err(SyntaxError { pos: toks[i].pos, kind: SyntaxErrorKind::DanglingOr })
    } else {
        match parse_and_exec(toks, i + 1) {
            Ok((e, j)) => {
                proof {
                    lemma_parse_and_bounds(toks_view(toks@), i as int + 1);
                }
                parse_or_rest_exec(toks, j, Expr::Or(Box::new(acc), Box::new(e)))
            },
            Err(e) => Err(e),
        }
    }
}

/// Parses query text into an expression tree, or reports the first syntax
/// error. The result is exactly [`parse_spec`] of the text: parsing is a
/// deterministic function of the query alone.
pub fn parse(query: &str) -> (r: Result<Expr, SyntaxError>)
    ensures
        expr_res_matches(r, parse_spec(query@)),
{
    let cs = str_to_chars(query);
    let toks = lex(&cs);
    proof {
        assert(cs@.len() == cs.len());
        assert forall|k: int| 0 <= k < toks@.len() implies (#[trigger] toks@[k]).pos
            + toks@[k].text@.len() <= usize::MAX by {
            assert(toks@[k].pos + toks@[k].text@.len() <= cs@.len());
        }
        assert(toks_pos_ok(toks@));
    }
    if toks.len() == 0 {
        Err(SyntaxError { pos: 0, kind: SyntaxErrorKind::EmptyQuery })
    } else {
        match parse_and_exec(&toks, 0) {
            Ok((e, j)) => {
                proof {
                    lemma_parse_and_bounds(toks_view(toks@), 0);
                }
                parse_or_rest_exec(&toks, j, e)
            },
            Err(e) => Err(e),
        }
    }
}

} // verus!
