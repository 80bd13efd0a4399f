//! The set operation: insert-or-replace a value at the location a query
//! addresses.

use vstd::prelude::*;

use crate::error::Error;
use crate::model::{lemma_set_err_unchanged, set_v, ErrorV, TokenV, TreeV};
use crate::resolver::find_key;
use crate::tokenizer::{tokenize_v, tokenize_with_seperator, toks_v, Token};
use crate::tree::{entries_v, items_v, op_result_v, Scalar, Tree};

verus! {

broadcast use
    vstd::std_specs::vec::group_vec_axioms,
    vstd::seq::group_seq_axioms,
    crate::views::lemma_entries_v,
    crate::views::lemma_items_v;

/// What `set` does to the tree and returns: tokenize, then apply [`set_v`].
pub open spec fn set_full(t: TreeV, q: Seq<char>, sep: char, v: TreeV) -> (TreeV, Result<
    Option<TreeV>,
    ErrorV,
>) {
    match tokenize_v(q, sep) {
        Err(e) => (t, Err(e)),
        Ok(toks) => set_v(t, toks, 0, v),
    }
}

/// Applies the steps `toks[i..]` to the owned tree `t` and hands the
/// transformed tree back, together with the operation's result.
fn set_rec(t: Tree, toks: &Vec<Token>, i: usize, value: Tree) -> (r: (
    Tree,
    Result<Option<Tree>, Error>,
))
    requires
        i < toks@.len(),
    ensures
        ({
            let s = set_v(t@, toks_v(toks@), i as int, value@);
            r.0@ == s.0 && op_result_v(r.1) == s.1
        }),
    decreases toks@.len() - i,
{
    let ghost tv = t@;
    let ghost stoks = toks_v(toks@);
    proof {
        assert(stoks[i as int] == toks@[i as int]@);
    }
    let last = i == toks.len() - 1;
    let tok = &toks[i];
    match t {
        Tree::Table(mut es) => {
            let ghost es0 = es@;
            proof {
                assert(tv == TreeV::Table(entries_v(es0)));
            }
            match tok {
                Token::Identifier { ident } => {
                    match find_key(&es, ident) {
                        Some(j) => {
                            if last {
                                let pair = es.remove(j);
                                let old_val = pair.1;
                                es.insert(j, (pair.0, value));
                                proof {
                                    assert(es@ =~= es0.update(
                                        j as int,
                                        (es0[j as int].0, value),
                                    ));
                                    assert(entries_v(es@) =~= entries_v(es0).update(
                                        j as int,
                                        (entries_v(es0)[j as int].0, value@),
                                    ));
                                }
                                (Tree::Table(es), Ok(Some(old_val)))
                            } else {
                                let pair = es.remove(j);
                                let (sub, res) = set_rec(pair.1, toks, i + 1, value);
                                let ghost subv = sub@;
                                es.insert(j, (pair.0, sub));
                                proof {
                                    assert(es@ =~= es0.update(j as int, (es0[j as int].0, es@[j as int].1)));
                                    assert(entries_v(es@) =~= entries_v(es0).update(
                                        j as int,
                                        (entries_v(es0)[j as int].0, subv),
                                    ));
                                }
                                match res {
                                    Err(e) => {
                                        proof {
                                            lemma_set_err_unchanged(
                                                es0[j as int].1@,
                                                stoks,
                                                i + 1,
                                                value@,
                                            );
                                            assert(entries_v(es@) =~= entries_v(es0));
                                        }
                                        (Tree::Table(es), Err(e))
                                    },
                                    Ok(o) => (Tree::Table(es), Ok(o)),
                                }
                            }
                        },
                        None => {
                            if last {
                                es.push((ident.clone(), value));
                                proof {
                                    assert(entries_v(es@) =~= entries_v(es0).push(
                                        (ident@, value@),
                                    ));
                                }
                                (Tree::Table(es), Ok(None))
                            } else {
                                (
                                    Tree::Table(es),
                                    Err(Error::IdentifierNotFoundInDocument(ident.clone())),
                                )
                            }
                        },
                    }
                },
                Token::Index { idx, text: _ } => (Tree::Table(es), Err(Error::NoIndexInTable(*idx))),
            }
        },
        Tree::Array(mut items) => {
            let ghost items0 = items@;
            proof {
                assert(tv == TreeV::Array(items_v(items0)));
            }
            match tok {
                Token::Index { idx, text } => {
                    if last {
                        if *idx < items.len() {
                            let old_val = items.remove(*idx);
                            items.insert(*idx, value);
                            proof {
                                assert(items@ =~= items0.update(*idx as int, value));
                                assert(items_v(items@) =~= items_v(items0).update(
                                    *idx as int,
                                    value@,
                                ));
                            }
                            (Tree::Array(items), Ok(Some(old_val)))
                        } else {
                            items.push(value);
                            proof {
                                assert(items_v(items@) =~= items_v(items0).push(value@));
                            }
                            (Tree::Array(items), Ok(None))
                        }
                    } else {
                        if *idx < items.len() {
                            let sub_in = items.remove(*idx);
                            let (sub, res) = set_rec(sub_in, toks, i + 1, value);
                            let ghost subv = sub@;
                            items.insert(*idx, sub);
                            proof {
                                assert(items@ =~= items0.update(*idx as int, items@[*idx as int]));
                                assert(items_v(items@) =~= items_v(items0).update(
                                    *idx as int,
                                    subv,
                                ));
                            }
                            match res {
                                Err(e) => {
                                    proof {
                                        lemma_set_err_unchanged(
                                            items0[*idx as int]@,
                                            stoks,
                                            i + 1,
                                            value@,
                                        );
                                        assert(items_v(items@) =~= items_v(items0));
                                    }
                                    (Tree::Array(items), Err(e))
                                },
                                Ok(o) => (Tree::Array(items), Ok(o)),
                            }
                        } else {
                            (
                                Tree::Array(items),
                                Err(Error::IdentifierNotFoundInDocument(text.clone())),
                            )
                        }
                    }
                },
                Token::Identifier { ident } => (
                    Tree::Array(items),
                    Err(Error::NoIdentifierInArray(ident.clone())),
                ),
            }
        },
        Tree::Scalar(sc) => match tok {
            Token::Identifier { ident } => (
                Tree::Scalar(sc),
                Err(Error::QueryingValueAsTable(ident.clone())),
            ),
            Token::Index { idx, text: _ } => (
                Tree::Scalar(sc),
                Err(Error::QueryingValueAsArray(*idx)),
            ),
        },
    }
}

/// The set extension: setting a value in a document tree through a query.
pub trait TomlValueSetExt {
    /// The tree the operation acts on, as a mathematical value.
    spec fn tree_view(&self) -> TreeV;

    /// Sets a value at the location the query addresses, using a custom
    /// separator.
    ///
    /// Never creates intermediate structures: every navigation step must
    /// already exist. At the final step an identifier into a table inserts
    /// or replaces, and an index into an array replaces in range and appends
    /// out of range. Returns `Ok(None)` on pure insertion, `Ok(Some(old))`
    /// on replacement, and leaves the tree untouched on failure.
    fn set_with_seperator(&mut self, query: &str, seperator: char, value: Tree) -> (r: Result<
        Option<Tree>,
        Error,
    >)
        ensures
            ({
                let s = set_full(old(self).tree_view(), query@, seperator, value@);
                final(self).tree_view() == s.0 && op_result_v(r) == s.1
            }),
    ;

    /// Sets a value at the location the query addresses, splitting on `'.'`.
    fn set(&mut self, query: &str, value: Tree) -> (r: Result<Option<Tree>, Error>)
        ensures
            ({
                let s = set_full(old(self).tree_view(), query@, '.', value@);
                final(self).tree_view() == s.0 && op_result_v(r) == s.1
            }),
    ;
}

impl TomlValueSetExt for Tree {
    open spec fn tree_view(&self) -> TreeV {
        self@
    }

    fn set_with_seperator(&mut self, query: &str, seperator: char, value: Tree) -> (r: Result<
        Option<Tree>,
        Error,
    >) {
        let toks = match tokenize_with_seperator(query, seperator) {
            Ok(toks) => toks,
            Err(e) => {
                return Err(e);
            },
        };
        let mut owned = Tree::Scalar(Scalar::Boolean(false));
        core::mem::swap(self, &mut owned);
        let (nt, res) = set_rec(owned, &toks, 0, value);
        *self = nt;
        res
    }

    fn set(&mut self, query: &str, value: Tree) -> (r: Result<Option<Tree>, Error>) {
        self.set_with_seperator(query, '.', value)
    }
}

} // verus!
