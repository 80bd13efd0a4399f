//! The delete operation: remove the value at the location a query
//! addresses and return it.

use vstd::prelude::*;

use crate::error::Error;
use crate::model::{delete_v, lemma_delete_err_unchanged, ErrorV, TokenV, TreeV};
use crate::resolver::find_key;
use crate::tokenizer::{tokenize_v, tokenize_with_seperator, toks_v, Token};
use crate::tree::{entries_v, items_v, op_result_v, Scalar, Tree};

verus! {

broadcast use
    vstd::std_specs::vec::group_vec_axioms,
    vstd::seq::group_seq_axioms,
    crate::views::lemma_entries_v,
    crate::views::lemma_items_v;

/// What `delete` does to the tree and returns: tokenize, then apply
/// [`delete_v`].
pub open spec fn delete_full(t: TreeV, q: Seq<char>, sep: char) -> (TreeV, Result<
    Option<TreeV>,
    ErrorV,
>) {
    match tokenize_v(q, sep) {
        Err(e) => (t, Err(e)),
        Ok(toks) => delete_v(t, toks, 0),
    }
}

/// Applies the steps `toks[i..]` to the owned tree `t` and hands the
/// transformed tree back together with the removed value.
fn delete_rec(t: Tree, toks: &Vec<Token>, i: usize) -> (r: (Tree, Result<Option<Tree>, Error>))
    requires
        i < toks@.len(),
    ensures
        ({
            let s = delete_v(t@, toks_v(toks@), i as int);
            r.0@ == s.0 && op_result_v(r.1) == s.1
        }),
    decreases toks@.len() - i,
{
    let ghost tv = t@;
    let ghost stoks = toks_v(toks@);
    proof {
        assert(stoks[i as int] == toks@[i as int]@);
    }
    let last = i == toks.len() - 1;
    let tok = &toks[i];
    match t {
        Tree::Table(mut es) => {
            let ghost es0 = es@;
            proof {
                assert(tv == TreeV::Table(entries_v(es0)));
            }
            match tok {
                Token::Identifier { ident } => {
                    match find_key(&es, ident) {
                        Some(j) => {
                            if last {
                                let pair = es.remove(j);
                                proof {
                                    assert(entries_v(es@) =~= entries_v(es0).remove(j as int));
                                }
                                (Tree::Table(es), Ok(Some(pair.1)))
                            } else {
                                let pair = es.remove(j);
                                let (sub, res) = delete_rec(pair.1, toks, i + 1);
                                let ghost subv = sub@;
                                es.insert(j, (pair.0, sub));
                                proof {
                                    assert(es@ =~= es0.update(
                                        j as int,
                                        (es0[j as int].0, es@[j as int].1),
                                    ));
                                    assert(entries_v(es@) =~= entries_v(es0).update(
                                        j as int,
                                        (entries_v(es0)[j as int].0, subv),
                                    ));
                                }
                                match res {
                                    Err(e) => {
                                        proof {
                                            lemma_delete_err_unchanged(
                                                es0[j as int].1@,
                                                stoks,
                                                i + 1,
                                            );
                                            assert(entries_v(es@) =~= entries_v(es0));
                                        }
                                        (Tree::Table(es), Err(e))
                                    },
                                    Ok(o) => (Tree::Table(es), Ok(o)),
                                }
                            }
                        },
                        None => (
                            Tree::Table(es),
                            Err(Error::IdentifierNotFoundInDocument(ident.clone())),
                        ),
                    }
                },
                Token::Index { idx, text: _ } => (Tree::Table(es), Err(Error::NoIndexInTable(*idx))),
            }
        },
        Tree::Array(mut items) => {
            let ghost items0 = items@;
            proof {
                assert(tv == TreeV::Array(items_v(items0)));
            }
            match tok {
                Token::Index { idx, text } => {
                    if last {
                        if *idx < items.len() {
                            let removed = items.remove(*idx);
                            proof {
                                assert(items_v(items@) =~= items_v(items0).remove(*idx as int));
                            }
                            (Tree::Array(items), Ok(Some(removed)))
                        } else {
                            (
                                Tree::Array(items),
                                Err(Error::IdentifierNotFoundInDocument(text.clone())),
                            )
                        }
                    } else {
                        if *idx < items.len() {
                            let sub_in = items.remove(*idx);
                            let (sub, res) = delete_rec(sub_in, toks, i + 1);
                            let ghost subv = sub@;
                            items.insert(*idx, sub);
                            proof {
                                assert(items@ =~= items0.update(*idx as int, items@[*idx as int]));
                                assert(items_v(items@) =~= items_v(items0).update(
                                    *idx as int,
                                    subv,
                                ));
                            }
                            match res {
                                Err(e) => {
                                    proof {
                                        lemma_delete_err_unchanged(
                                            items0[*idx as int]@,
                                            stoks,
                                            i + 1,
                                        );
                                        assert(items_v(items@) =~= items_v(items0));
                                    }
                                    (Tree::Array(items), Err(e))
                                },
                                Ok(o) => (Tree::Array(items), Ok(o)),
                            }
                        } else {
                            (
                                Tree::Array(items),
                                Err(Error::IdentifierNotFoundInDocument(text.clone())),
                            )
                        }
                    }
                },
                Token::Identifier { ident } => (
                    Tree::Array(items),
                    Err(Error::NoIdentifierInArray(ident.clone())),
                ),
            }
        },
        Tree::Scalar(sc) => match tok {
            Token::Identifier { ident } => (
                Tree::Scalar(sc),
                Err(Error::QueryingValueAsTable(ident.clone())),
            ),
            Token::Index { idx, text: _ } => (
                Tree::Scalar(sc),
                Err(Error::QueryingValueAsArray(*idx)),
            ),
        },
    }
}

impl Tree {
    /// Removes the value at the location the query addresses, using a
    /// custom separator, and returns it.
    ///
    /// Locating the target follows the same rules as `get`; removal is
    /// ordered — remaining table entries keep their insertion order, and
    /// array elements after the removed one shift left by one.
    pub fn delete_with_seperator(&mut self, query: &str, seperator: char) -> (r: Result<
        Option<Tree>,
        Error,
    >)
        ensures
            ({
                let s = delete_full(old(self)@, query@, seperator);
                final(self)@ == s.0 && op_result_v(r) == s.1
            }),
    {
        let toks = match tokenize_with_seperator(query, seperator) {
            Ok(toks) => toks,
            Err(e) => {
                return Err(e);
            },
        };
        let mut owned = Tree::Scalar(Scalar::Boolean(false));
        core::mem::swap(self, &mut owned);
        let (nt, res) = delete_rec(owned, &toks, 0);
        *self = nt;
        res
    }

    /// Removes the value at the location the query addresses, splitting on
    /// `'.'`, and returns it.
    pub fn delete(&mut self, query: &str) -> (r: Result<Option<Tree>, Error>)
        ensures
            ({
                let s = delete_full(old(self)@, query@, '.');
                final(self)@ == s.0 && op_result_v(r) == s.1
            }),
    {
        self.delete_with_seperator(query, '.')
    }
}

} // verus!
