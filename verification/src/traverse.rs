//! A reusable traversal over the expression tree.
//!
//! The walk is depth-first, preorder: each node comes before its subtrees,
//! and the left subtree comes, whole, before the right one. [`preorder`]
//! fixes that order mathematically; the iterator yields exactly that
//! sequence, so repeated traversal of one tree always produces the same
//! nodes in the same order. Validation passes reuse it; compilation does
//! not need it.

use vstd::prelude::*;
use crate::expr::{Expr, ExprV, Symbol, SymbolV};

verus! {

/// The depth-first, preorder node sequence of a tree: the node itself,
/// then its left subtree, then its right one.
pub open spec fn preorder(e: ExprV) -> Seq<ExprV>
    decreases e,
{
    match e {
        ExprV::And(a, b) => seq![e] + preorder(*a) + preorder(*b),
        ExprV::Or(a, b) => seq![e] + preorder(*a) + preorder(*b),
        ExprV::Not(a) => seq![e] + preorder(*a),
        ExprV::Term(_) => seq![e],
    }
}

/// A preorder sequence is never empty and begins with its root.
pub proof fn lemma_preorder_first(e: ExprV)
    ensures
        preorder(e).len() > 0,
        preorder(e)[0] == e,
{
    match e {
        ExprV::And(a, b) => {
            assert(preorder(e) == seq![e] + preorder(*a) + preorder(*b));
        },
        ExprV::Or(a, b) => {
            assert(preorder(e) == seq![e] + preorder(*a) + preorder(*b));
        },
        ExprV::Not(a) => {
            assert(preorder(e) == seq![e] + preorder(*a));
        },
        ExprV::Term(_) => {
            assert(preorder(e) == seq![e]);
        },
    }
}

/// The nodes a stack of pending subtrees still yields: the top of the
/// stack's whole preorder walk, then the rest's.
pub open spec fn pending(st: Seq<&Expr>) -> Seq<ExprV>
    decreases st.len(),
{
    if st.len() == 0 {
        Seq::empty()
    } else {
        preorder(st.last()@) + pending(st.drop_last())
    }
}

/// Whether a node is a path-term leaf.
pub open spec fn is_path_term(e: ExprV) -> bool {
    e matches ExprV::Term(SymbolV::InPath(_))
}

/// Depth-first (preorder) iterator over an expression tree: yields
/// exactly [`preorder`] of the tree it was made for.
pub struct ExprDFSIterator<'a> {
    remaining_nodes: Vec<&'a Expr>,
}

impl<'a> ExprDFSIterator<'a> {
    /// The node sequence the iterator has still to yield.
    pub closed spec fn remaining(&self) -> Seq<ExprV> {
        pending(self.remaining_nodes@)
    }

    /// An iterator that will yield every node of `expr` exactly once, in
    /// depth-first preorder.
    pub fn new(expr: &'a Expr) -> (it: Self)
        ensures
            it.remaining() == preorder(expr@),
    {
        let mut remaining_nodes: Vec<&'a Expr> = Vec::new();
        remaining_nodes.push(expr);
        let it = ExprDFSIterator { remaining_nodes };
        proof {
            assert(it.remaining_nodes@.len() == 1);
            assert(it.remaining_nodes@.last() == expr);
            assert(it.remaining_nodes@.drop_last() =~= Seq::<&Expr>::empty());
            assert(pending(Seq::<&Expr>::empty()) == Seq::<ExprV>::empty());
            assert(it.remaining() == preorder(expr@) + Seq::<ExprV>::empty());
            assert(preorder(expr@) + Seq::<ExprV>::empty() =~= preorder(expr@));
        }
        it
    }

    /// The next node in preorder, or nothing once every node was yielded.
    pub fn next(&mut self) -> (r: Option<&'a Expr>)
        ensures
            old(self).remaining().len() == 0 ==> r is None && final(self).remaining() == old(
                self,
            ).remaining(),
            old(self).remaining().len() > 0 ==> (r matches Some(e) && e@ == old(self).remaining()[0]
                && final(self).remaining() == old(self).remaining().drop_first()),
    {
        let popped = self.remaining_nodes.pop();
        match popped {
            None => {
                proof {
                    assert(old(self).remaining_nodes@.len() == 0);
                    assert(old(self).remaining().len() == 0);
                }
                None
            },
            Some(e) => {
                let ghost rest = self.remaining_nodes@;
                proof {
                    assert(old(self).remaining_nodes@.drop_last() =~= rest);
                    assert(old(self).remaining() == preorder(e@) + pending(rest));
                    lemma_preorder_first(e@);
                }
                match e {
                    Expr::And(a, b) => {
                        self.remaining_nodes.push(&**b);
                        self.remaining_nodes.push(&**a);
                        proof {
                            let st2 = self.remaining_nodes@;
                            assert(st2.last() == &**a);
                            assert(rest.push(&**b).last() == &**b);
                            assert(st2.drop_last() =~= rest.push(&**b));
                            assert(pending(rest.push(&**b)) == preorder((&**b)@) + pending(
                                rest.push(&**b).drop_last(),
                            ));
                            assert(rest.push(&**b).drop_last() =~= rest);
                            assert(pending(st2) == preorder((&**a)@) + (preorder((&**b)@)
                                + pending(rest)));
                            assert(preorder(e@) == seq![e@] + preorder((&**a)@) + preorder(
                                (&**b)@,
                            ));
                            assert(pending(st2) =~= old(self).remaining().drop_first());
                        }
                    },
                    Expr::Or(a, b) => {
                        self.remaining_nodes.push(&**b);
                        self.remaining_nodes.push(&**a);
                        proof {
                            let st2 = self.remaining_nodes@;
                            assert(st2.last() == &**a);
                            assert(rest.push(&**b).last() == &**b);
                            assert(st2.drop_last() =~= rest.push(&**b));
                            assert(pending(rest.push(&**b)) == preorder((&**b)@) + pending(
                                rest.push(&**b).drop_last(),
                            ));
                            assert(rest.push(&**b).drop_last() =~= rest);
                            assert(pending(st2) == preorder((&**a)@) + (preorder((&**b)@)
                                + pending(rest)));
                            assert(preorder(e@) == seq![e@] + preorder((&**a)@) + preorder(
                                (&**b)@,
                            ));
                            assert(pending(st2) =~= old(self).remaining().drop_first());
                        }
                    },
                    Expr::Not(a) => {
                        self.remaining_nodes.push(&**a);
                        proof {
                            let st2 = self.remaining_nodes@;
                            assert(st2.drop_last() =~= rest);
                            assert(pending(st2) == preorder((&**a)@) + pending(rest));
                            assert(preorder(e@) == seq![e@] + preorder((&**a)@));
                            assert(pending(st2) =~= old(self).remaining().drop_first());
                        }
                    },
                    Expr::Term(_) => {
                        proof {
                            assert(preorder(e@) == seq![e@]);
                            assert(pending(rest) =~= old(self).remaining().drop_first());
                        }
                    },
                }
                Some(e)
            },
        }
    }
}

impl Expr {
    /// A validation pass over the traversal: whether the tree holds any
    /// path term.
    pub fn contains_path_term(&self) -> (r: bool)
        ensures
            r == exists|k: int|
                0 <= k < preorder(self@).len() && is_path_term(#[trigger] preorder(self@)[k]),
    {
        let ghost full = preorder(self@);
        let mut it = ExprDFSIterator::new(self);
        let ghost mut idx: int = 0;
        loop
            invariant
                0 <= idx <= full.len(),
                it.remaining() == full.skip(idx),
                forall|k: int| 0 <= k < idx ==> !is_path_term(#[trigger] full[k]),
                full == preorder(self@),
            decreases full.len() - idx,
        {
            match it.next() {
                None => {
                    proof {
                        assert(full.skip(idx).len() == 0);
                    }
                    return false;
                },
                Some(node) => {
                    proof {
                        assert(full.skip(idx)[0] == full[idx]);
                    }
                    let found = match node {
                        Expr::Term(Symbol::InPath(_)) => true,
                        _ => false,
                    };
                    proof {
                        assert(found == is_path_term(full[idx]));
                    }
                    if found {
                        return true;
                    }
                    proof {
                        assert(full.skip(idx).drop_first() =~= full.skip(idx + 1));
                        idx = idx + 1;
                    }
                },
            }
        }
    }
}

} // verus!
