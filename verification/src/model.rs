//! The mathematical model of the query language.
//!
//! Every executable type of the library has a view into this module: trees
//! become [`TreeV`], tokens become [`TokenV`] and errors become [`ErrorV`].
//! The spec functions here define what each path operation returns and how it
//! transforms the tree; the contracts of the executable functions and the
//! public laws of the library are all stated over these definitions.

use vstd::prelude::*;

verus! {

/// View of a scalar leaf value.
#[verifier::ext_equal]
pub enum ScalarV {
    Integer(int),
    Text(Seq<char>),
    Boolean(bool),
}

/// View of a document tree: a table is an ordered sequence of key-value
/// entries, an array an ordered sequence of elements, a scalar a leaf.
#[verifier::ext_equal]
pub enum TreeV {
    Table(Seq<(Seq<char>, TreeV)>),
    Array(Seq<TreeV>),
    Scalar(ScalarV),
}

/// View of one parsed navigation step. An index step keeps the text of the
/// original `[digits]` segment for diagnostics.
#[verifier::ext_equal]
pub enum TokenV {
    Identifier { ident: Seq<char> },
    Index { idx: int, text: Seq<char> },
}

/// View of the error taxonomy.
#[verifier::ext_equal]
pub enum ErrorV {
    QueryParsingError(Seq<char>),
    EmptyQueryError,
    EmptyIdentifier,
    ArrayAccessWithoutIndex,
    ArrayAccessWithInvalidIndex,
    IdentifierNotFoundInDocument(Seq<char>),
    NoIndexInTable(int),
    NoIdentifierInArray(Seq<char>),
    QueryingValueAsTable(Seq<char>),
    QueryingValueAsArray(int),
    ValueAlreadyExists(Seq<char>),
}

/// Index of the first entry of `es` whose key is `k`, or `-1` if no entry
/// has that key.
pub open spec fn key_idx(es: Seq<(Seq<char>, TreeV)>, k: Seq<char>) -> int
    decreases es.len(),
{
    if es.len() == 0 {
        -1
    } else if es[0].0 == k {
        0
    } else {
        let r = key_idx(es.skip(1), k);
        if r == -1 {
            -1
        } else {
            r + 1
        }
    }
}

/// Well-formedness of a tree: every table has pairwise distinct keys.
pub open spec fn wf_v(t: TreeV) -> bool
    decreases t,
{
    match t {
        TreeV::Table(es) => {
            &&& forall|p: int, q: int|
                0 <= p < q < es.len() ==> (#[trigger] es[p]).0 != (#[trigger] es[q]).0
            &&& forall|p: int| 0 <= p < es.len() ==> wf_v((#[trigger] es[p]).1)
        },
        TreeV::Array(items) => forall|p: int| 0 <= p < items.len() ==> wf_v(#[trigger] items[p]),
        TreeV::Scalar(_) => true,
    }
}

/// Read-only resolution of the steps `toks[i..]` against `t`.
///
/// Per step: an identifier descends into the entry of a table with that key,
/// an index descends into the element of an array at that position; every
/// other combination is the error given in the per-step transition table.
/// A missing key or an out-of-range index is an absence error carrying the
/// step's text.
pub open spec fn get_v(t: TreeV, toks: Seq<TokenV>, i: int) -> Result<TreeV, ErrorV>
    decreases toks.len() - i,
{
    if i < 0 || i >= toks.len() {
        Ok(t)
    } else {
        match toks[i] {
            TokenV::Identifier { ident } => match t {
                TreeV::Table(es) => {
                    let j = key_idx(es, ident);
                    if j >= 0 {
                        get_v(es[j].1, toks, i + 1)
                    } else {
                        Err(ErrorV::IdentifierNotFoundInDocument(ident))
                    }
                },
                TreeV::Array(_) => Err(ErrorV::NoIdentifierInArray(ident)),
                TreeV::Scalar(_) => Err(ErrorV::QueryingValueAsTable(ident)),
            },
            TokenV::Index { idx, text } => match t {
                TreeV::Array(items) => {
                    if 0 <= idx < items.len() {
                        get_v(items[idx], toks, i + 1)
                    } else {
                        Err(ErrorV::IdentifierNotFoundInDocument(text))
                    }
                },
                TreeV::Table(_) => Err(ErrorV::NoIndexInTable(idx)),
                TreeV::Scalar(_) => Err(ErrorV::QueryingValueAsArray(idx)),
            },
        }
    }
}

/// The set operation on the steps `toks[i..]`: the result is the transformed
/// tree together with the returned value.
///
/// Navigation (all steps before the last) never creates anything and leaves
/// the tree unchanged on failure. At the last step, an identifier into a
/// table inserts or replaces (returning the displaced value), and an index
/// into an array replaces in range and appends out of range — the numeric
/// value of an out-of-range index only means "append".
pub open spec fn set_v(t: TreeV, toks: Seq<TokenV>, i: int, v: TreeV) -> (TreeV, Result<
    Option<TreeV>,
    ErrorV,
>)
    decreases toks.len() - i,
{
    if i < 0 || i >= toks.len() {
        (t, Err(ErrorV::EmptyQueryError))
    } else if i == toks.len() - 1 {
        match toks[i] {
            TokenV::Identifier { ident } => match t {
                TreeV::Table(es) => {
                    let j = key_idx(es, ident);
                    if j >= 0 {
                        (TreeV::Table(es.update(j, (es[j].0, v))), Ok(Some(es[j].1)))
                    } else {
                        (TreeV::Table(es.push((ident, v))), Ok(None))
                    }
                },
                TreeV::Array(_) => (t, Err(ErrorV::NoIdentifierInArray(ident))),
                TreeV::Scalar(_) => (t, Err(ErrorV::QueryingValueAsTable(ident))),
            },
            TokenV::Index { idx, text: _ } => match t {
                TreeV::Array(items) => {
                    if 0 <= idx < items.len() {
                        (TreeV::Array(items.update(idx, v)), Ok(Some(items[idx])))
                    } else {
                        (TreeV::Array(items.push(v)), Ok(None))
                    }
                },
                TreeV::Table(_) => (t, Err(ErrorV::NoIndexInTable(idx))),
                TreeV::Scalar(_) => (t, Err(ErrorV::QueryingValueAsArray(idx))),
            },
        }
    } else {
        match toks[i] {
            TokenV::Identifier { ident } => match t {
                TreeV::Table(es) => {
                    let j = key_idx(es, ident);
                    if j >= 0 {
                        let r = set_v(es[j].1, toks, i + 1, v);
                        if r.1 is Err {
                            (t, r.1)
                        } else {
                            (TreeV::Table(es.update(j, (es[j].0, r.0))), r.1)
                        }
                    } else {
                        (t, Err(ErrorV::IdentifierNotFoundInDocument(ident)))
                    }
                },
                TreeV::Array(_) => (t, Err(ErrorV::NoIdentifierInArray(ident))),
                TreeV::Scalar(_) => (t, Err(ErrorV::QueryingValueAsTable(ident))),
            },
            TokenV::Index { idx, text } => match t {
                TreeV::Array(items) => {
                    if 0 <= idx < items.len() {
                        let r = set_v(items[idx], toks, i + 1, v);
                        if r.1 is Err {
                            (t, r.1)
                        } else {
                            (TreeV::Array(items.update(idx, r.0)), r.1)
                        }
                    } else {
                        (t, Err(ErrorV::IdentifierNotFoundInDocument(text)))
                    }
                },
                TreeV::Table(_) => (t, Err(ErrorV::NoIndexInTable(idx))),
                TreeV::Scalar(_) => (t, Err(ErrorV::QueryingValueAsArray(idx))),
            },
        }
    }
}

/// The insert operation on the steps `toks[i..]`.
///
/// Navigation may create missing intermediate tables (never arrays; an
/// out-of-range index is an error even here). At the last step the operation
/// refuses to replace: an occupied key or in-range index fails, an absent key
/// inserts and an out-of-range index appends.
pub open spec fn insert_v(t: TreeV, toks: Seq<TokenV>, i: int, v: TreeV) -> (TreeV, Result<
    Option<TreeV>,
    ErrorV,
>)
    decreases toks.len() - i,
{
    if i < 0 || i >= toks.len() {
        (t, Err(ErrorV::EmptyQueryError))
    } else if i == toks.len() - 1 {
        match toks[i] {
            TokenV::Identifier { ident } => match t {
                TreeV::Table(es) => {
                    let j = key_idx(es, ident);
                    if j >= 0 {
                        (t, Err(ErrorV::ValueAlreadyExists(ident)))
                    } else {
                        (TreeV::Table(es.push((ident, v))), Ok(None))
                    }
                },
                TreeV::Array(_) => (t, Err(ErrorV::NoIdentifierInArray(ident))),
                TreeV::Scalar(_) => (t, Err(ErrorV::QueryingValueAsTable(ident))),
            },
            TokenV::Index { idx, text } => match t {
                TreeV::Array(items) => {
                    if 0 <= idx < items.len() {
                        (t, Err(ErrorV::ValueAlreadyExists(text)))
                    } else {
                        (TreeV::Array(items.push(v)), Ok(None))
                    }
                },
                TreeV::Table(_) => (t, Err(ErrorV::NoIndexInTable(idx))),
                TreeV::Scalar(_) => (t, Err(ErrorV::QueryingValueAsArray(idx))),
            },
        }
    } else {
        match toks[i] {
            TokenV::Identifier { ident } => match t {
                TreeV::Table(es) => {
                    let j = key_idx(es, ident);
                    if j >= 0 {
                        let r = insert_v(es[j].1, toks, i + 1, v);
                        (TreeV::Table(es.update(j, (es[j].0, r.0))), r.1)
                    } else {
                        let r = insert_v(TreeV::Table(Seq::empty()), toks, i + 1, v);
                        (TreeV::Table(es.push((ident, r.0))), r.1)
                    }
                },
                TreeV::Array(_) => (t, Err(ErrorV::NoIdentifierInArray(ident))),
                TreeV::Scalar(_) => (t, Err(ErrorV::QueryingValueAsTable(ident))),
            },
            TokenV::Index { idx, text } => match t {
                TreeV::Array(items) => {
                    if 0 <= idx < items.len() {
                        let r = insert_v(items[idx], toks, i + 1, v);
                        (TreeV::Array(items.update(idx, r.0)), r.1)
                    } else {
                        (t, Err(ErrorV::IdentifierNotFoundInDocument(text)))
                    }
                },
                TreeV::Table(_) => (t, Err(ErrorV::NoIndexInTable(idx))),
                TreeV::Scalar(_) => (t, Err(ErrorV::QueryingValueAsArray(idx))),
            },
        }
    }
}

/// The delete operation on the steps `toks[i..]`.
///
/// Navigation is exactly as for set. At the last step a present key or an
/// in-range index is removed — ordered removal, the following entries or
/// elements shift left by one — and the removed value is returned; an absent
/// key or out-of-range index is an absence error.
pub open spec fn delete_v(t: TreeV, toks: Seq<TokenV>, i: int) -> (TreeV, Result<
    Option<TreeV>,
    ErrorV,
>)
    decreases toks.len() - i,
{
    if i < 0 || i >= toks.len() {
        (t, Err(ErrorV::EmptyQueryError))
    } else if i == toks.len() - 1 {
        match toks[i] {
            TokenV::Identifier { ident } => match t {
                TreeV::Table(es) => {
                    let j = key_idx(es, ident);
                    if j >= 0 {
                        (TreeV::Table(es.remove(j)), Ok(Some(es[j].1)))
                    } else {
                        (t, Err(ErrorV::IdentifierNotFoundInDocument(ident)))
                    }
                },
                TreeV::Array(_) => (t, Err(ErrorV::NoIdentifierInArray(ident))),
                TreeV::Scalar(_) => (t, Err(ErrorV::QueryingValueAsTable(ident))),
            },
            TokenV::Index { idx, text } => match t {
                TreeV::Array(items) => {
                    if 0 <= idx < items.len() {
                        (TreeV::Array(items.remove(idx)), Ok(Some(items[idx])))
                    } else {
                        (t, Err(ErrorV::IdentifierNotFoundInDocument(text)))
                    }
                },
                TreeV::Table(_) => (t, Err(ErrorV::NoIndexInTable(idx))),
                TreeV::Scalar(_) => (t, Err(ErrorV::QueryingValueAsArray(idx))),
            },
        }
    } else {
        match toks[i] {
            TokenV::Identifier { ident } => match t {
                TreeV::Table(es) => {
                    let j = key_idx(es, ident);
                    if j >= 0 {
                        let r = delete_v(es[j].1, toks, i + 1);
                        if r.1 is Err {
                            (t, r.1)
                        } else {
                            (TreeV::Table(es.update(j, (es[j].0, r.0))), r.1)
                        }
                    } else {
                        (t, Err(ErrorV::IdentifierNotFoundInDocument(ident)))
                    }
                },
                TreeV::Array(_) => (t, Err(ErrorV::NoIdentifierInArray(ident))),
                TreeV::Scalar(_) => (t, Err(ErrorV::QueryingValueAsTable(ident))),
            },
            TokenV::Index { idx, text } => match t {
                TreeV::Array(items) => {
                    if 0 <= idx < items.len() {
                        let r = delete_v(items[idx], toks, i + 1);
                        if r.1 is Err {
                            (t, r.1)
                        } else {
                            (TreeV::Array(items.update(idx, r.0)), r.1)
                        }
                    } else {
                        (t, Err(ErrorV::IdentifierNotFoundInDocument(text)))
                    }
                },
                TreeV::Table(_) => (t, Err(ErrorV::NoIndexInTable(idx))),
                TreeV::Scalar(_) => (t, Err(ErrorV::QueryingValueAsArray(idx))),
            },
        }
    }
}

/// A failed set leaves the tree exactly as it was.
pub proof fn lemma_set_err_unchanged(t: TreeV, toks: Seq<TokenV>, i: int, v: TreeV)
    ensures
        set_v(t, toks, i, v).1 is Err ==> set_v(t, toks, i, v).0 == t,
{
}

/// A failed delete leaves the tree exactly as it was.
pub proof fn lemma_delete_err_unchanged(t: TreeV, toks: Seq<TokenV>, i: int)
    ensures
        delete_v(t, toks, i).1 is Err ==> delete_v(t, toks, i).0 == t,
{
}

} // verus!
