//! The insert operation: place a value at the location a query addresses,
//! failing rather than replacing when the target is already occupied.

use vstd::prelude::*;

use crate::error::Error;
use crate::model::{insert_v, ErrorV, TokenV, TreeV};
use crate::resolver::find_key;
use crate::tokenizer::{tokenize_v, tokenize_with_seperator, toks_v, Token};
use crate::tree::{entries_v, items_v, op_result_v, Scalar, Tree};

verus! {

broadcast use
    vstd::std_specs::vec::group_vec_axioms,
    vstd::seq::group_seq_axioms,
    crate::views::lemma_entries_v,
    crate::views::lemma_items_v;

/// What `insert` does to the tree and returns: tokenize, then apply
/// [`insert_v`].
pub open spec fn insert_full(t: TreeV, q: Seq<char>, sep: char, v: TreeV) -> (TreeV, Result<
    Option<TreeV>,
    ErrorV,
>) {
    match tokenize_v(q, sep) {
        Err(e) => (t, Err(e)),
        Ok(toks) => insert_v(t, toks, 0, v),
    }
}

/// Applies the steps `toks[i..]` to the owned tree `t`, creating missing
/// intermediate tables, and hands the transformed tree back together with
/// the operation's result.
fn insert_rec(t: Tree, toks: &Vec<Token>, i: usize, value: Tree) -> (r: (
    Tree,
    Result<Option<Tree>, Error>,
))
    requires
        i < toks@.len(),
    ensures
        ({
            let s = insert_v(t@, toks_v(toks@), i as int, value@);
            r.0@ == s.0 && op_result_v(r.1) == s.1
        }),
    decreases toks@.len() - i,
{
    let ghost tv = t@;
    let ghost stoks = toks_v(toks@);
    proof {
        assert(stoks[i as int] == toks@[i as int]@);
    }
    let last = i == toks.len() - 1;
    let tok = &toks[i];
    match t {
        Tree::Table(mut es) => {
            let ghost es0 = es@;
            proof {
                assert(tv == TreeV::Table(entries_v(es0)));
            }
            match tok {
                Token::Identifier { ident } => {
                    match find_key(&es, ident) {
                        Some(j) => {
                            if last {
                                (Tree::Table(es), Err(Error::ValueAlreadyExists(ident.clone())))
                            } else {
                                let pair = es.remove(j);
                                let (sub, res) = insert_rec(pair.1, toks, i + 1, value);
                                let ghost subv = sub@;
                                es.insert(j, (pair.0, sub));
                                proof {
                                    assert(es@ =~= es0.update(
                                        j as int,
                                        (es0[j as int].0, es@[j as int].1),
                                    ));
                                    assert(entries_v(es@) =~= entries_v(es0).update(
                                        j as int,
                                        (entries_v(es0)[j as int].0, subv),
                                    ));
                                }
                                (Tree::Table(es), res)
                            }
                        },
                        None => {
                            if last {
                                es.push((ident.clone(), value));
                                proof {
                                    assert(entries_v(es@) =~= entries_v(es0).push(
                                        (ident@, value@),
                                    ));
                                }
                                (Tree::Table(es), Ok(None))
                            } else {
                                let fresh: Vec<(String, Tree)> = Vec::new();
                                proof {
                                    assert(entries_v(fresh@) =~= Seq::<(Seq<char>, TreeV)>::empty());
                                }
                                let (sub, res) = insert_rec(
                                    Tree::Table(fresh),
                                    toks,
                                    i + 1,
                                    value,
                                );
                                let ghost subv = sub@;
                                es.push((ident.clone(), sub));
                                proof {
                                    assert(entries_v(es@) =~= entries_v(es0).push(
                                        (ident@, subv),
                                    ));
                                }
                                (Tree::Table(es), res)
                            }
                        },
                    }
                },
                Token::Index { idx, text: _ } => (Tree::Table(es), Err(Error::NoIndexInTable(*idx))),
            }
        },
        Tree::Array(mut items) => {
            let ghost items0 = items@;
            proof {
                assert(tv == TreeV::Array(items_v(items0)));
            }
            match tok {
                Token::Index { idx, text } => {
                    if last {
                        if *idx < items.len() {
                            (Tree::Array(items), Err(Error::ValueAlreadyExists(text.clone())))
                        } else {
                            items.push(value);
                            proof {
                                assert(items_v(items@) =~= items_v(items0).push(value@));
                            }
                            (Tree::Array(items), Ok(None))
                        }
                    } else {
                        if *idx < items.len() {
                            let sub_in = items.remove(*idx);
                            let (sub, res) = insert_rec(sub_in, toks, i + 1, value);
                            let ghost subv = sub@;
                            items.insert(*idx, sub);
                            proof {
                                assert(items@ =~= items0.update(*idx as int, items@[*idx as int]));
                                assert(items_v(items@) =~= items_v(items0).update(
                                    *idx as int,
                                    subv,
                                ));
                            }
                            (Tree::Array(items), res)
                        } else {
                            (
                                Tree::Array(items),
                                Err(Error::IdentifierNotFoundInDocument(text.clone())),
                            )
                        }
                    }
                },
                Token::Identifier { ident } => (
                    Tree::Array(items),
                    Err(Error::NoIdentifierInArray(ident.clone())),
                ),
            }
        },
        Tree::Scalar(sc) => match tok {
            Token::Identifier { ident } => (
                Tree::Scalar(sc),
                Err(Error::QueryingValueAsTable(ident.clone())),
            ),
            Token::Index { idx, text: _ } => (
                Tree::Scalar(sc),
                Err(Error::QueryingValueAsArray(*idx)),
            ),
        },
    }
}

impl Tree {
    /// Inserts a value at the location the query addresses, using a custom
    /// separator.
    ///
    /// Missing intermediate tables are created along the way — never arrays,
    /// and never past an out-of-range index. Unlike `set`, the operation
    /// refuses to replace: an occupied key or in-range index fails; an
    /// absent key inserts and an out-of-range index appends. Returns
    /// `Ok(None)` on success.
    pub fn insert_with_seperator(&mut self, query: &str, seperator: char, value: Tree) -> (r:
        Result<Option<Tree>, Error>)
        ensures
            ({
                let s = insert_full(old(self)@, query@, seperator, value@);
                final(self)@ == s.0 && op_result_v(r) == s.1
            }),
    {
        let toks = match tokenize_with_seperator(query, seperator) {
            Ok(toks) => toks,
            Err(e) => {
                return Err(e);
            },
        };
        let mut owned = Tree::Scalar(Scalar::Boolean(false));
        core::mem::swap(self, &mut owned);
        let (nt, res) = insert_rec(owned, &toks, 0, value);
        *self = nt;
        res
    }

    /// Inserts a value at the location the query addresses, splitting on
    /// `'.'`.
    pub fn insert(&mut self, query: &str, value: Tree) -> (r: Result<Option<Tree>, Error>)
        ensures
            ({
                let s = insert_full(old(self)@, query@, '.', value@);
                final(self)@ == s.0 && op_result_v(r) == s.1
            }),
    {
        self.insert_with_seperator(query, '.', value)
    }
}

} // verus!
