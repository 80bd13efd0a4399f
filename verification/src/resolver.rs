//! The read-only resolver: walks a token sequence against a tree, strictly
//! left to right, stopping on the first failure. It never creates anything.

use vstd::prelude::*;

use crate::error::Error;
use crate::model::{get_v, key_idx, ErrorV, TokenV, TreeV};
use crate::tokenizer::{toks_v, Token};
use crate::tree::{entries_v, items_v, Tree};

verus! {

broadcast use
    vstd::std_specs::vec::group_vec_axioms,
    vstd::seq::group_seq_axioms,
    crate::views::lemma_entries_v,
    crate::views::lemma_items_v;

/// `key_idx` finds exactly the first entry with the given key.
pub proof fn lemma_key_idx_first(s: Seq<(Seq<char>, TreeV)>, k: Seq<char>, j: int)
    requires
        0 <= j < s.len(),
        s[j].0 == k,
        forall|i: int| 0 <= i < j ==> (#[trigger] s[i]).0 != k,
    ensures
        key_idx(s, k) == j,
    decreases j,
{
    if s[0].0 == k {
        assert(j == 0);
    } else {
        assert(forall|i: int| 0 <= i < j - 1 ==> (#[trigger] s.skip(1)[i]).0 != k) by {
            assert(forall|i: int| 0 <= i < j - 1 ==> #[trigger] s.skip(1)[i] == s[i + 1]);
        }
        lemma_key_idx_first(s.skip(1), k, j - 1);
    }
}

/// `key_idx` reports absence exactly when no entry has the given key.
pub proof fn lemma_key_idx_none(s: Seq<(Seq<char>, TreeV)>, k: Seq<char>)
    requires
        forall|i: int| 0 <= i < s.len() ==> (#[trigger] s[i]).0 != k,
    ensures
        key_idx(s, k) == -1,
    decreases s.len(),
{
    if s.len() > 0 {
        assert(forall|i: int|
            0 <= i < s.len() - 1 ==> (#[trigger] s.skip(1)[i]).0 != k) by {
            assert(forall|i: int|
                0 <= i < s.len() - 1 ==> #[trigger] s.skip(1)[i] == s[i + 1]);
        }
        lemma_key_idx_none(s.skip(1), k);
    }
}

/// What `key_idx` reports is sound: absence means no entry has the key,
/// presence points at the first entry that does.
pub proof fn lemma_key_idx_props(s: Seq<(Seq<char>, TreeV)>, k: Seq<char>)
    ensures
        key_idx(s, k) == -1 ==> forall|i: int| 0 <= i < s.len() ==> (#[trigger] s[i]).0 != k,
        key_idx(s, k) != -1 ==> 0 <= key_idx(s, k) < s.len() && s[key_idx(s, k)].0 == k && (
        forall|i: int| 0 <= i < key_idx(s, k) ==> (#[trigger] s[i]).0 != k),
    decreases s.len(),
{
    if s.len() == 0 {
    } else if s[0].0 == k {
    } else {
        lemma_key_idx_props(s.skip(1), k);
        assert(forall|i: int| 0 <= i < s.len() - 1 ==> #[trigger] s.skip(1)[i] == s[i + 1]);
        let r = key_idx(s.skip(1), k);
        if r == -1 {
            assert forall|i: int| 0 <= i < s.len() implies (#[trigger] s[i]).0 != k by {
                if i > 0 {
                    assert(s.skip(1)[i - 1] == s[i]);
                }
            }
        } else {
            assert(s[r + 1] == s.skip(1)[r]);
            assert forall|i: int| 0 <= i < r + 1 implies (#[trigger] s[i]).0 != k by {
                if i > 0 {
                    assert(s.skip(1)[i - 1] == s[i]);
                }
            }
        }
    }
}

/// `key_idx` depends only on the keys, not on the values beside them.
pub proof fn lemma_key_idx_same_keys(s: Seq<(Seq<char>, TreeV)>, s2: Seq<(Seq<char>, TreeV)>, k: Seq<char>)
    requires
        s.len() == s2.len(),
        forall|i: int| 0 <= i < s.len() ==> (#[trigger] s[i]).0 == (#[trigger] s2[i]).0,
    ensures
        key_idx(s, k) == key_idx(s2, k),
    decreases s.len(),
{
    if s.len() > 0 {
        assert(forall|i: int| 0 <= i < s.len() - 1 ==> #[trigger] s.skip(1)[i] == s[i + 1]);
        assert(forall|i: int| 0 <= i < s2.len() - 1 ==> #[trigger] s2.skip(1)[i] == s2[i + 1]);
        assert(forall|i: int|
            0 <= i < s.skip(1).len() ==> (#[trigger] s.skip(1)[i]).0 == (#[trigger] s2.skip(
                1,
            )[i]).0);
        lemma_key_idx_same_keys(s.skip(1), s2.skip(1), k);
    }
}

/// Index of the first entry of the table whose key is `k`, if any.
pub fn find_key(es: &Vec<(String, Tree)>, k: &String) -> (r: Option<usize>)
    ensures
        match r {
            Some(j) => j < es@.len() && es@[j as int].0@ == k@ && key_idx(entries_v(es@), k@)
                == j as int,
            None => key_idx(entries_v(es@), k@) == -1,
        },
{
    let mut j: usize = 0;
    while j < es.len()
        invariant
            j <= es.len(),
            forall|i: int| 0 <= i < j ==> (#[trigger] es@[i]).0@ != k@,
        decreases es.len() - j,
    {
        let e = &es[j];
        if e.0 == *k {
            proof {
                assert(forall|i: int|
                    0 <= i < j ==> (#[trigger] entries_v(es@)[i]).0 != k@);
                lemma_key_idx_first(entries_v(es@), k@, j as int);
            }
            return Some(j);
        }
        j = j + 1;
    }
    proof {
        assert(forall|i: int|
            0 <= i < es@.len() ==> (#[trigger] entries_v(es@)[i]).0 != k@);
        lemma_key_idx_none(entries_v(es@), k@);
    }
    None
}

/// Navigates every token against the tree and returns the node reached, or
/// the first structural error. Never returns `Ok(None)`.
pub fn resolve<'a>(root: &'a Tree, tokens: &Vec<Token>) -> (r: Result<Option<&'a Tree>, Error>)
    ensures
        match r {
            Ok(Some(node)) => get_v(root@, toks_v(tokens@), 0) == Ok::<TreeV, ErrorV>(node@),
            Ok(None) => false,
            Err(e) => get_v(root@, toks_v(tokens@), 0) == Err::<TreeV, ErrorV>(e@),
        },
{
    let mut cur: &Tree = root;
    let mut i: usize = 0;
    while i < tokens.len()
        invariant
            i <= tokens.len(),
            get_v(root@, toks_v(tokens@), 0) == get_v(cur@, toks_v(tokens@), i as int),
        decreases tokens.len() - i,
    {
        let tok = &tokens[i];
        proof {
            assert(toks_v(tokens@)[i as int] == tokens@[i as int]@);
        }
        match tok {
            Token::Identifier { ident } => match cur {
                Tree::Table(es) => {
                    match find_key(es, ident) {
                        Some(j) => {
                            proof {
                                assert(cur@ == TreeV::Table(entries_v(es@)));
                                assert(entries_v(es@)[j as int].1 == es@[j as int].1@);
                                assert(get_v(cur@, toks_v(tokens@), i as int) == get_v(
                                    es@[j as int].1@,
                                    toks_v(tokens@),
                                    i + 1,
                                ));
                            }
                            cur = &es[j].1;
                        },
                        None => {
                            return Err(Error::IdentifierNotFoundInDocument(ident.clone()));
                        },
                    }
                },
                Tree::Array(_) => {
                    return Err(Error::NoIdentifierInArray(ident.clone()));
                },
                Tree::Scalar(_) => {
                    return Err(Error::QueryingValueAsTable(ident.clone()));
                },
            },
            Token::Index { idx, text } => match cur {
                Tree::Array(items) => {
                    proof {
                        assert(cur@ == TreeV::Array(items_v(items@)));
                        assert(items_v(items@).len() == items@.len());
                    }
                    if *idx < items.len() {
                        proof {
                            assert(items_v(items@)[*idx as int] == items@[*idx as int]@);
                            assert(get_v(cur@, toks_v(tokens@), i as int) == get_v(
                                items@[*idx as int]@,
                                toks_v(tokens@),
                                i + 1,
                            ));
                        }
                        cur = &items[*idx];
                    } else {
                        return Err(Error::IdentifierNotFoundInDocument(text.clone()));
                    }
                },
                Tree::Table(_) => {
                    return Err(Error::NoIndexInTable(*idx));
                },
                Tree::Scalar(_) => {
                    return Err(Error::QueryingValueAsArray(*idx));
                },
            },
        }
        i = i + 1;
    }
    Ok(Some(cur))
}

} // verus!
