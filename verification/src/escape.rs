//! Escaping of term payloads for the two backend sub-languages.
//!
//! A tag name is embedded in a full-text query between double quotes, so
//! every double quote in it is doubled. A path pattern is embedded in a
//! `LIKE` pattern, so every wildcard (`%`, `_`) and every occurrence of the
//! escape character is preceded by the escape character. Escaping happens
//! exactly once, at compile time, immediately before embedding.

use vstd::prelude::*;

verus! {

/// How one character of a tag name appears inside a quoted full-text
/// string: a double quote is doubled, every other character is itself.
pub open spec fn fts_block(c: char) -> Seq<char> {
    if c == '"' {
        seq!['"', '"']
    } else {
        seq![c]
    }
}

/// A tag name escaped for embedding between double quotes in a full-text
/// query.
pub open spec fn fts_escaped(s: Seq<char>) -> Seq<char>
    decreases s.len(),
{
    if s.len() == 0 {
        Seq::empty()
    } else {
        fts_block(s[0]) + fts_escaped(s.skip(1))
    }
}

/// Whether `c` must be escaped inside a `LIKE` pattern whose escape
/// character is `esc`: the two wildcards, and the escape character itself.
pub open spec fn like_meta(c: char, esc: char) -> bool {
    c == '%' || c == '_' || c == esc
}

/// How one character of a path pattern appears inside a `LIKE` pattern.
pub open spec fn like_block(c: char, esc: char) -> Seq<char> {
    if like_meta(c, esc) {
        seq![esc, c]
    } else {
        seq![c]
    }
}

/// A path pattern escaped for embedding in a `LIKE` pattern with escape
/// character `esc`: the result matches the pattern text literally.
pub open spec fn like_escaped(s: Seq<char>, esc: char) -> Seq<char>
    decreases s.len(),
{
    if s.len() == 0 {
        Seq::empty()
    } else {
        like_block(s[0], esc) + like_escaped(s.skip(1), esc)
    }
}

/// Escapes a tag name's characters, as [`fts_escaped`] describes.
pub fn fts_escape_chars(s: &Vec<char>) -> (r: Vec<char>)
    ensures
        r@ == fts_escaped(s@),
{
    let mut r: Vec<char> = Vec::new();
    let mut i: usize = 0;
    proof {
        assert(s@.skip(0) =~= s@);
        assert(r@ + fts_escaped(s@) =~= fts_escaped(s@));
    }
    while i < s.len()
        invariant
            i <= s@.len(),
            fts_escaped(s@) == r@ + fts_escaped(s@.skip(i as int)),
        decreases s@.len() - i,
    {
        let c = s[i];
        if c == '"' {
            r.push('"');
            r.push('"');
        } else {
            r.push(c);
        }
        proof {
            let rest = s@.skip(i as int);
            assert(rest[0] == s@[i as int]);
            assert(rest.skip(1) =~= s@.skip(i as int + 1));
            assert(r@ + fts_escaped(s@.skip(i as int + 1)) =~= fts_escaped(s@));
        }
        i = i + 1;
    }
    proof {
        assert(fts_escaped(s@.skip(s@.len() as int)) =~= Seq::<char>::empty());
        assert(r@ =~= fts_escaped(s@));
    }
    r
}

/// Escapes a path pattern's characters, as [`like_escaped`] describes.
pub fn like_escape_chars(s: &Vec<char>, esc: char) -> (r: Vec<char>)
    ensures
        r@ == like_escaped(s@, esc),
{
    let mut r: Vec<char> = Vec::new();
    let mut i: usize = 0;
    proof {
        assert(s@.skip(0) =~= s@);
        assert(r@ + like_escaped(s@, esc) =~= like_escaped(s@, esc));
    }
    while i < s.len()
        invariant
            i <= s@.len(),
            like_escaped(s@, esc) == r@ + like_escaped(s@.skip(i as int), esc),
        decreases s@.len() - i,
    {
        let c = s[i];
        if c == '%' || c == '_' || c == esc {
            r.push(esc);
            r.push(c);
        } else {
            r.push(c);
        }
        proof {
            let rest = s@.skip(i as int);
            assert(rest[0] == s@[i as int]);
            assert(rest.skip(1) =~= s@.skip(i as int + 1));
            assert(r@ + like_escaped(s@.skip(i as int + 1), esc) =~= like_escaped(s@, esc));
        }
        i = i + 1;
    }
    proof {
        assert(like_escaped(s@.skip(s@.len() as int), esc) =~= Seq::<char>::empty());
        assert(r@ =~= like_escaped(s@, esc));
    }
    r
}

/// Escapes a literal for safe embedding inside a full-text query's own
/// syntax: every double quote is doubled.
pub fn escape_fts5_string(s: &str) -> (r: String)
    ensures
        r@ == fts_escaped(s@),
{
    let cs = crate::text::str_to_chars(s);
    let escaped = fts_escape_chars(&cs);
    crate::text::chars_to_string(&escaped)
}

/// Escapes wildcard characters for a `LIKE` predicate; the caller supplies
/// the escape character named in the surrounding `ESCAPE` clause.
pub fn escape_like_pattern(s: &str, esc: char) -> (r: String)
    ensures
        r@ == like_escaped(s@, esc),
{
    let cs = crate::text::str_to_chars(s);
    let escaped = like_escape_chars(&cs, esc);
    crate::text::chars_to_string(&escaped)
}

} // verus!
