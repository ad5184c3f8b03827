//! A small boolean query language over a tagged file corpus.
//!
//! A query mixes two kinds of terms: tag membership (`kick`) and path
//! filters (`inpath:res/audio/`). The library lexes and parses query text
//! into an expression tree of AND/OR/NOT over typed terms, and compiles
//! that tree into a single predicate that a storage backend can evaluate.
//! Both term kinds compile to ordinary boolean-valued fragments (a
//! full-text-index membership test, and a pattern-match test on the path
//! field), so the tree combinators translate directly and the compiler is
//! total. A reference interpreter over synthetic rows states the intended
//! semantics, and the compiler is proved to preserve it exactly.

pub mod compile;
pub mod escape;
pub mod expr;
pub mod laws;
pub mod parse;
pub mod scan;
pub mod text;
pub mod traverse;
