//! The laws of the library: how the path operations relate to one another,
//! stated over the model and proved for every tree, token sequence and
//! value.

use vstd::prelude::*;

use crate::model::{
    delete_v, get_v, insert_v, key_idx, set_v, wf_v, ErrorV, TokenV, TreeV,
};
use crate::resolver::{
    lemma_key_idx_first, lemma_key_idx_none, lemma_key_idx_props, lemma_key_idx_same_keys,
};
use crate::tokenizer::{classify_v, split_v, tokenize_v, toks_from};

verus! {

broadcast use vstd::seq::group_seq_axioms;

/// The text a step was written as: the identifier itself, or the original
/// `[digits]` segment.
pub open spec fn step_text(tok: TokenV) -> Seq<char> {
    match tok {
        TokenV::Identifier { ident } => ident,
        TokenV::Index { idx: _, text } => text,
    }
}

/// Law: insert on an already-occupied path fails with `ValueAlreadyExists`
/// and leaves the tree exactly as it was, while set on the same path
/// succeeds and returns the occupant.
pub proof fn lemma_insert_occupied_set_replaces(
    t: TreeV,
    toks: Seq<TokenV>,
    i: int,
    v: TreeV,
    w: TreeV,
)
    requires
        0 <= i < toks.len(),
        get_v(t, toks, i) == Ok::<TreeV, ErrorV>(w),
    ensures
        insert_v(t, toks, i, v).0 == t,
        insert_v(t, toks, i, v).1 == Err::<Option<TreeV>, ErrorV>(
            ErrorV::ValueAlreadyExists(step_text(toks.last())),
        ),
        set_v(t, toks, i, v).1 == Ok::<Option<TreeV>, ErrorV>(Some(w)),
    decreases toks.len() - i,
{
    match toks[i] {
        TokenV::Identifier { ident } => match t {
            TreeV::Table(es) => {
                let j = key_idx(es, ident);
                lemma_key_idx_props(es, ident);
                assert(0 <= j < es.len());
                if i < toks.len() - 1 {
                    lemma_insert_occupied_set_replaces(es[j].1, toks, i + 1, v, w);
                    assert(es.update(j, (es[j].0, es[j].1)) =~= es);
                    assert(TreeV::Table(es.update(j, (es[j].0, es[j].1))) == t);
                }
            },
            TreeV::Array(_) => {},
            TreeV::Scalar(_) => {},
        },
        TokenV::Index { idx, text: _ } => match t {
            TreeV::Array(items) => {
                if i < toks.len() - 1 {
                    lemma_insert_occupied_set_replaces(items[idx], toks, i + 1, v, w);
                    assert(items.update(idx, items[idx]) =~= items);
                    assert(TreeV::Array(items.update(idx, items[idx])) == t);
                }
            },
            TreeV::Table(_) => {},
            TreeV::Scalar(_) => {},
        },
    }
}

/// Law: get after a successful set returns the just-set value.
///
/// The one exception is an index step that appended: the element went to
/// the end of the array, so reading it back at the written index succeeds
/// exactly when the index was the old length, and is an absence error
/// beyond it.
pub proof fn lemma_set_then_get(t: TreeV, toks: Seq<TokenV>, i: int, v: TreeV)
    requires
        0 <= i < toks.len(),
        set_v(t, toks, i, v).1 is Ok,
    ensures
        ({
            let s = set_v(t, toks, i, v);
            match toks.last() {
                TokenV::Identifier { ident: _ } => get_v(s.0, toks, i) == Ok::<TreeV, ErrorV>(v),
                TokenV::Index { idx: _, text } => {
                    &&& s.1->Ok_0 is Some ==> get_v(s.0, toks, i) == Ok::<TreeV, ErrorV>(v)
                    &&& s.1->Ok_0 is None ==> (get_v(s.0, toks, i) == Ok::<TreeV, ErrorV>(v)
                        || get_v(s.0, toks, i) == Err::<TreeV, ErrorV>(
                        ErrorV::IdentifierNotFoundInDocument(text),
                    ))
                },
            }
        }),
    decreases toks.len() - i,
{
    let s = set_v(t, toks, i, v);
    match toks[i] {
        TokenV::Identifier { ident } => match t {
            TreeV::Table(es) => {
                let j = key_idx(es, ident);
                lemma_key_idx_props(es, ident);
                if i == toks.len() - 1 {
                    if j >= 0 {
                        let es2 = es.update(j, (es[j].0, v));
                        lemma_key_idx_same_keys(es2, es, ident);
                        assert(get_v(s.0, toks, i) == get_v(v, toks, i + 1));
                    } else {
                        let es2 = es.push((ident, v));
                        lemma_key_idx_props(es, ident);
                        assert(forall|p: int|
                            0 <= p < es.len() ==> #[trigger] es2[p] == es[p]);
                        lemma_key_idx_first(es2, ident, es.len() as int);
                        assert(get_v(s.0, toks, i) == get_v(v, toks, i + 1));
                    }
                } else {
                    assert(j >= 0);
                    let r = set_v(es[j].1, toks, i + 1, v);
                    assert(r.1 is Ok);
                    lemma_set_then_get(es[j].1, toks, i + 1, v);
                    let es2 = es.update(j, (es[j].0, r.0));
                    lemma_key_idx_same_keys(es2, es, ident);
                    assert(get_v(s.0, toks, i) == get_v(r.0, toks, i + 1));
                }
            },
            TreeV::Array(_) => {},
            TreeV::Scalar(_) => {},
        },
        TokenV::Index { idx, text: _ } => match t {
            TreeV::Array(items) => {
                if i == toks.len() - 1 {
                    if 0 <= idx < items.len() {
                        assert(get_v(s.0, toks, i) == get_v(items.update(idx, v)[idx], toks, i + 1));
                    } else {
                        let items2 = items.push(v);
                        if idx == items.len() {
                            assert(items2[idx] == v);
                            assert(get_v(s.0, toks, i) == get_v(v, toks, i + 1));
                        }
                    }
                } else {
                    assert(0 <= idx < items.len());
                    let r = set_v(items[idx], toks, i + 1, v);
                    assert(r.1 is Ok);
                    lemma_set_then_get(items[idx], toks, i + 1, v);
                    assert(get_v(s.0, toks, i) == get_v(r.0, toks, i + 1));
                }
            },
            TreeV::Table(_) => {},
            TreeV::Scalar(_) => {},
        },
    }
}

/// Law: for any index at or past the current length, set appends the value
/// to the end of the array and returns `None` — the index's exact value
/// does not matter.
pub proof fn lemma_set_out_of_range_appends(
    t: TreeV,
    toks: Seq<TokenV>,
    i: int,
    v: TreeV,
    items: Seq<TreeV>,
)
    requires
        0 <= i < toks.len(),
        match toks.last() {
            TokenV::Index { idx, text: _ } => idx >= items.len(),
            TokenV::Identifier { ident: _ } => false,
        },
        get_v(t, toks.take(toks.len() - 1), i) == Ok::<TreeV, ErrorV>(TreeV::Array(items)),
    ensures
        set_v(t, toks, i, v).1 == Ok::<Option<TreeV>, ErrorV>(None),
        get_v(set_v(t, toks, i, v).0, toks.take(toks.len() - 1), i) == Ok::<TreeV, ErrorV>(
            TreeV::Array(items.push(v)),
        ),
    decreases toks.len() - i,
{
    let prefix = toks.take(toks.len() - 1);
    let s = set_v(t, toks, i, v);
    if i == toks.len() - 1 {
        assert(get_v(t, prefix, i) == Ok::<TreeV, ErrorV>(t));
    } else {
        assert(prefix[i] == toks[i]);
        match toks[i] {
            TokenV::Identifier { ident } => match t {
                TreeV::Table(es) => {
                    let j = key_idx(es, ident);
                    lemma_key_idx_props(es, ident);
                    assert(0 <= j < es.len());
                    lemma_set_out_of_range_appends(es[j].1, toks, i + 1, v, items);
                    let r = set_v(es[j].1, toks, i + 1, v);
                    let es2 = es.update(j, (es[j].0, r.0));
                    lemma_key_idx_same_keys(es2, es, ident);
                    assert(get_v(s.0, prefix, i) == get_v(r.0, prefix, i + 1));
                },
                TreeV::Array(_) => {},
                TreeV::Scalar(_) => {},
            },
            TokenV::Index { idx, text: _ } => match t {
                TreeV::Array(arr) => {
                    assert(0 <= idx < arr.len());
                    lemma_set_out_of_range_appends(arr[idx], toks, i + 1, v, items);
                    let r = set_v(arr[idx], toks, i + 1, v);
                    assert(get_v(s.0, prefix, i) == get_v(r.0, prefix, i + 1));
                },
                TreeV::Table(_) => {},
                TreeV::Scalar(_) => {},
            },
        }
    }
}

/// Law: after deleting a table key, getting the same query fails with the
/// absence error for that key. Needs well-formed tables: with a duplicate
/// key the later entry would be found instead.
pub proof fn lemma_delete_then_get_key(t: TreeV, toks: Seq<TokenV>, i: int)
    requires
        0 <= i < toks.len(),
        wf_v(t),
        toks.last() is Identifier,
        delete_v(t, toks, i).1 is Ok,
    ensures
        get_v(delete_v(t, toks, i).0, toks, i) == Err::<TreeV, ErrorV>(
            ErrorV::IdentifierNotFoundInDocument(step_text(toks.last())),
        ),
    decreases toks.len() - i,
{
    let s = delete_v(t, toks, i);
    match toks[i] {
        TokenV::Identifier { ident } => match t {
            TreeV::Table(es) => {
                let j = key_idx(es, ident);
                lemma_key_idx_props(es, ident);
                assert(0 <= j < es.len());
                assert(wf_v(es[j].1));
                if i == toks.len() - 1 {
                    let es2 = es.remove(j);
                    assert forall|p: int| 0 <= p < es2.len() implies (#[trigger] es2[p]).0
                        != ident by {
                        if p < j {
                            assert(es2[p] == es[p]);
                        } else {
                            assert(es2[p] == es[p + 1]);
                        }
                    }
                    lemma_key_idx_none(es2, ident);
                } else {
                    let r = delete_v(es[j].1, toks, i + 1);
                    assert(r.1 is Ok);
                    lemma_delete_then_get_key(es[j].1, toks, i + 1);
                    let es2 = es.update(j, (es[j].0, r.0));
                    lemma_key_idx_same_keys(es2, es, ident);
                    assert(get_v(s.0, toks, i) == get_v(r.0, toks, i + 1));
                }
            },
            TreeV::Array(_) => {},
            TreeV::Scalar(_) => {},
        },
        TokenV::Index { idx, text: _ } => match t {
            TreeV::Array(items) => {
                if i < toks.len() - 1 {
                    assert(0 <= idx < items.len());
                    assert(wf_v(items[idx]));
                    let r = delete_v(items[idx], toks, i + 1);
                    assert(r.1 is Ok);
                    lemma_delete_then_get_key(items[idx], toks, i + 1);
                    assert(get_v(s.0, toks, i) == get_v(r.0, toks, i + 1));
                }
            },
            TreeV::Table(_) => {},
            TreeV::Scalar(_) => {},
        },
    }
}

/// Law: after deleting the final element of an array, getting the same
/// query fails with the absence error for that index. Deleting an earlier
/// element instead shifts its successors down, so the index still resolves.
pub proof fn lemma_delete_then_get_last_index(
    t: TreeV,
    toks: Seq<TokenV>,
    i: int,
    items: Seq<TreeV>,
)
    requires
        0 <= i < toks.len(),
        match toks.last() {
            TokenV::Index { idx, text: _ } => idx == items.len() - 1,
            TokenV::Identifier { ident: _ } => false,
        },
        get_v(t, toks.take(toks.len() - 1), i) == Ok::<TreeV, ErrorV>(TreeV::Array(items)),
        delete_v(t, toks, i).1 is Ok,
    ensures
        get_v(delete_v(t, toks, i).0, toks, i) == Err::<TreeV, ErrorV>(
            ErrorV::IdentifierNotFoundInDocument(step_text(toks.last())),
        ),
    decreases toks.len() - i,
{
    let prefix = toks.take(toks.len() - 1);
    let s = delete_v(t, toks, i);
    if i == toks.len() - 1 {
        assert(get_v(t, prefix, i) == Ok::<TreeV, ErrorV>(t));
    } else {
        assert(prefix[i] == toks[i]);
        match toks[i] {
            TokenV::Identifier { ident } => match t {
                TreeV::Table(es) => {
                    let j = key_idx(es, ident);
                    lemma_key_idx_props(es, ident);
                    assert(0 <= j < es.len());
                    let r = delete_v(es[j].1, toks, i + 1);
                    assert(r.1 is Ok);
                    lemma_delete_then_get_last_index(es[j].1, toks, i + 1, items);
                    let es2 = es.update(j, (es[j].0, r.0));
                    lemma_key_idx_same_keys(es2, es, ident);
                    assert(get_v(s.0, toks, i) == get_v(r.0, toks, i + 1));
                },
                TreeV::Array(_) => {},
                TreeV::Scalar(_) => {},
            },
            TokenV::Index { idx, text: _ } => match t {
                TreeV::Array(arr) => {
                    assert(0 <= idx < arr.len());
                    let r = delete_v(arr[idx], toks, i + 1);
                    assert(r.1 is Ok);
                    lemma_delete_then_get_last_index(arr[idx], toks, i + 1, items);
                    assert(get_v(s.0, toks, i) == get_v(r.0, toks, i + 1));
                },
                TreeV::Table(_) => {},
                TreeV::Scalar(_) => {},
            },
        }
    }
}

/// Law: what get returns out of a well-formed tree is well-formed itself.
pub proof fn lemma_get_wf(t: TreeV, toks: Seq<TokenV>, i: int)
    requires
        wf_v(t),
        get_v(t, toks, i) is Ok,
    ensures
        wf_v(get_v(t, toks, i)->Ok_0),
    decreases toks.len() - i,
{
    if i < 0 || i >= toks.len() {
    } else {
        match toks[i] {
            TokenV::Identifier { ident } => match t {
                TreeV::Table(es) => {
                    let j = key_idx(es, ident);
                    lemma_key_idx_props(es, ident);
                    assert(wf_v(es[j].1));
                    lemma_get_wf(es[j].1, toks, i + 1);
                },
                TreeV::Array(_) => {},
                TreeV::Scalar(_) => {},
            },
            TokenV::Index { idx, text: _ } => match t {
                TreeV::Array(items) => {
                    if 0 <= idx < items.len() {
                        assert(wf_v(items[idx]));
                        lemma_get_wf(items[idx], toks, i + 1);
                    }
                },
                TreeV::Table(_) => {},
                TreeV::Scalar(_) => {},
            },
        }
    }
}

/// Re-joining a sequence of raw segments with the separator.
pub open spec fn join_segs(segs: Seq<Seq<char>>, sep: char) -> Seq<char>
    decreases segs.len(),
{
    if segs.len() == 0 {
        Seq::empty()
    } else if segs.len() == 1 {
        segs[0]
    } else {
        segs[0] + seq![sep] + join_segs(segs.skip(1), sep)
    }
}

/// Re-joining a token sequence with the separator, each step as written.
pub open spec fn join_v(toks: Seq<TokenV>, sep: char) -> Seq<char>
    decreases toks.len(),
{
    if toks.len() == 0 {
        Seq::empty()
    } else if toks.len() == 1 {
        step_text(toks[0])
    } else {
        step_text(toks[0]) + seq![sep] + join_v(toks.skip(1), sep)
    }
}

/// Joining the segments of a split gives back the original string.
pub proof fn lemma_join_split(q: Seq<char>, sep: char)
    ensures
        join_segs(split_v(q, sep), sep) == q,
    decreases q.len(),
{
    reveal_with_fuel(split_v, 2);
    reveal_with_fuel(join_segs, 2);
    if q.len() == 0 {
        assert(join_segs(split_v(q, sep), sep) =~= q);
    } else if q[0] == sep {
        lemma_join_split(q.skip(1), sep);
        let r = split_v(q.skip(1), sep);
        let segs = seq![Seq::<char>::empty()] + r;
        assert(segs.len() >= 2);
        assert(segs[0] =~= Seq::<char>::empty());
        assert(segs.skip(1) =~= r);
        assert(join_segs(segs, sep) =~= q);
    } else {
        lemma_join_split(q.skip(1), sep);
        let r = split_v(q.skip(1), sep);
        assert(r.len() >= 1);
        let segs = r.update(0, seq![q[0]] + r[0]);
        if r.len() == 1 {
            assert(join_segs(segs, sep) == segs[0]);
            assert(join_segs(r, sep) == r[0]);
            assert(join_segs(segs, sep) =~= q);
        } else {
            assert(segs.skip(1) =~= r.skip(1));
            assert(join_segs(segs, sep) == segs[0] + seq![sep] + join_segs(r.skip(1), sep));
            assert(join_segs(r, sep) == r[0] + seq![sep] + join_segs(r.skip(1), sep));
            assert(segs[0] + seq![sep] + join_segs(r.skip(1), sep) =~= seq![q[0]] + (r[0]
                + seq![sep] + join_segs(r.skip(1), sep)));
            assert(seq![q[0]] + q.skip(1) =~= q);
            assert(join_segs(segs, sep) =~= q);
        }
    }
}

/// A successful classification keeps the whole segment as the step's text.
pub proof fn lemma_toks_from_texts(segs: Seq<Seq<char>>, i: int)
    requires
        0 <= i <= segs.len(),
        toks_from(segs, i) is Ok,
    ensures
        ({
            let ts = toks_from(segs, i)->Ok_0;
            ts.len() == segs.len() - i && forall|j: int|
                0 <= j < ts.len() ==> step_text(#[trigger] ts[j]) == segs[i + j]
        }),
    decreases segs.len() - i,
{
    if i < segs.len() {
        match classify_v(segs[i]) {
            Ok(t) => {
                lemma_toks_from_texts(segs, i + 1);
                let ts2 = toks_from(segs, i + 1)->Ok_0;
                let ts = toks_from(segs, i)->Ok_0;
                assert(ts == seq![t] + ts2);
                assert(step_text(t) == segs[i]);
                assert forall|j: int| 0 <= j < ts.len() implies step_text(#[trigger] ts[j])
                    == segs[i + j] by {
                    if j == 0 {
                        assert(ts[0] == t);
                    } else {
                        assert(ts[j] == ts2[j - 1]);
                    }
                }
            },
            Err(_) => {
                assert(false);
            },
        }
    }
}

/// Joining tokens is joining their texts.
pub proof fn lemma_join_texts(toks: Seq<TokenV>, segs: Seq<Seq<char>>, sep: char)
    requires
        segs.len() == toks.len(),
        forall|j: int| 0 <= j < toks.len() ==> segs[j] == step_text(#[trigger] toks[j]),
    ensures
        join_v(toks, sep) == join_segs(segs, sep),
    decreases toks.len(),
{
    if toks.len() >= 2 {
        assert(forall|j: int|
            0 <= j < toks.skip(1).len() ==> #[trigger] toks.skip(1)[j] == toks[j + 1]);
        assert(forall|j: int|
            0 <= j < segs.skip(1).len() ==> #[trigger] segs.skip(1)[j] == segs[j + 1]);
        lemma_join_texts(toks.skip(1), segs.skip(1), sep);
    }
}

/// Law: re-joining the tokens of a query with the same separator
/// reproduces the query itself — every step keeps its original text — so
/// tokenizing the re-joined path gives the same tokens, and any query
/// resolves exactly as its re-joined form does.
pub proof fn lemma_tokenize_then_join(q: Seq<char>, sep: char)
    requires
        tokenize_v(q, sep) is Ok,
    ensures
        join_v(tokenize_v(q, sep)->Ok_0, sep) == q,
        tokenize_v(join_v(tokenize_v(q, sep)->Ok_0, sep), sep) == tokenize_v(q, sep),
{
    let toks = tokenize_v(q, sep)->Ok_0;
    let segs = split_v(q, sep);
    lemma_toks_from_texts(segs, 0);
    lemma_join_texts(toks, segs, sep);
    lemma_join_split(q, sep);
}

/// Replacing the value beside an existing key keeps a table well-formed.
proof fn lemma_wf_table_update(t: TreeV, t2: TreeV, es: Seq<(Seq<char>, TreeV)>, j: int, v: TreeV)
    requires
        wf_v(t),
        t == TreeV::Table(es),
        0 <= j < es.len(),
        wf_v(v),
        t2 == TreeV::Table(es.update(j, (es[j].0, v))),
    ensures
        wf_v(t2),
{
    match t {
        TreeV::Table(eb) => match t2 {
            TreeV::Table(e2) => {
                assert(e2 == eb.update(j, (eb[j].0, v)));
                assert forall|p: int, q: int| 0 <= p < q < e2.len() implies (
                #[trigger] e2[p]).0 != (#[trigger] e2[q]).0 by {
                    assert(eb[p].0 != eb[q].0);
                }
                assert forall|p: int| 0 <= p < e2.len() implies wf_v((#[trigger] e2[p]).1) by {
                    if p != j {
                        assert(wf_v(eb[p].1));
                    }
                }
            },
            TreeV::Array(_) => {},
            TreeV::Scalar(_) => {},
        },
        TreeV::Array(_) => {},
        TreeV::Scalar(_) => {},
    }
}

/// Appending an absent key keeps a table well-formed.
proof fn lemma_wf_table_push(t: TreeV, t2: TreeV, es: Seq<(Seq<char>, TreeV)>, k: Seq<char>, v: TreeV)
    requires
        wf_v(t),
        t == TreeV::Table(es),
        wf_v(v),
        key_idx(es, k) == -1,
        t2 == TreeV::Table(es.push((k, v))),
    ensures
        wf_v(t2),
{
    lemma_key_idx_props(es, k);
    match t {
        TreeV::Table(eb) => match t2 {
            TreeV::Table(e2) => {
                assert(e2 == eb.push((k, v)));
                assert forall|p: int, q: int| 0 <= p < q < e2.len() implies (
                #[trigger] e2[p]).0 != (#[trigger] e2[q]).0 by {
                    if q < eb.len() {
                        assert(eb[p].0 != eb[q].0);
                    } else {
                        assert(e2[p] == eb[p]);
                        assert(eb[p].0 != k);
                    }
                }
                assert forall|p: int| 0 <= p < e2.len() implies wf_v((#[trigger] e2[p]).1) by {
                    if p < eb.len() {
                        assert(wf_v(eb[p].1));
                    }
                }
            },
            TreeV::Array(_) => {},
            TreeV::Scalar(_) => {},
        },
        TreeV::Array(_) => {},
        TreeV::Scalar(_) => {},
    }
}

/// Removing an entry keeps a table well-formed.
proof fn lemma_wf_table_remove(t: TreeV, t2: TreeV, es: Seq<(Seq<char>, TreeV)>, j: int)
    requires
        wf_v(t),
        t == TreeV::Table(es),
        0 <= j < es.len(),
        t2 == TreeV::Table(es.remove(j)),
    ensures
        wf_v(t2),
{
    match t {
        TreeV::Table(eb) => match t2 {
            TreeV::Table(e2) => {
                assert(e2 == eb.remove(j));
                assert forall|p: int, q: int| 0 <= p < q < e2.len() implies (
                #[trigger] e2[p]).0 != (#[trigger] e2[q]).0 by {
                    let p0: int = if p < j { p } else { p + 1 };
                    let q0: int = if q < j { q } else { q + 1 };
                    assert(e2[p] == eb[p0]);
                    assert(e2[q] == eb[q0]);
                    assert(eb[p0].0 != eb[q0].0);
                }
                assert forall|p: int| 0 <= p < e2.len() implies wf_v((#[trigger] e2[p]).1) by {
                    let p0: int = if p < j { p } else { p + 1 };
                    assert(e2[p] == eb[p0]);
                    assert(wf_v(eb[p0].1));
                }
            },
            TreeV::Array(_) => {},
            TreeV::Scalar(_) => {},
        },
        TreeV::Array(_) => {},
        TreeV::Scalar(_) => {},
    }
}

/// Updating, appending or removing an element keeps an array well-formed.
proof fn lemma_wf_array_edit(t: TreeV, t2: TreeV, items: Seq<TreeV>, j: int, v: TreeV)
    requires
        wf_v(t),
        t == TreeV::Array(items),
        wf_v(v),
        t2 == TreeV::Array(items.update(j, v)) && 0 <= j < items.len() || t2 == TreeV::Array(
            items.push(v),
        ) || t2 == TreeV::Array(items.remove(j)) && 0 <= j < items.len(),
    ensures
        wf_v(t2),
{
    match t {
        TreeV::Array(ib) => match t2 {
            TreeV::Array(i2) => {
                assert forall|p: int| 0 <= p < i2.len() implies wf_v(#[trigger] i2[p]) by {
                    if i2 == ib.update(j, v) && 0 <= j < ib.len() {
                        if p != j {
                            assert(i2[p] == ib[p]);
                            assert(wf_v(ib[p]));
                        }
                    } else if i2 == ib.push(v) {
                        if p < ib.len() {
                            assert(i2[p] == ib[p]);
                            assert(wf_v(ib[p]));
                        }
                    } else {
                        let p0: int = if p < j { p } else { p + 1 };
                        assert(i2[p] == ib[p0]);
                        assert(wf_v(ib[p0]));
                    }
                }
            },
            TreeV::Table(_) => {},
            TreeV::Scalar(_) => {},
        },
        TreeV::Table(_) => {},
        TreeV::Scalar(_) => {},
    }
}

/// Law: set preserves well-formedness — every table keeps pairwise
/// distinct keys.
pub proof fn lemma_set_preserves_wf(t: TreeV, toks: Seq<TokenV>, i: int, v: TreeV)
    requires
        wf_v(t),
        wf_v(v),
    ensures
        wf_v(set_v(t, toks, i, v).0),
    decreases toks.len() - i,
{
    if i < 0 || i >= toks.len() {
    } else {
        match toks[i] {
            TokenV::Identifier { ident } => match t {
                TreeV::Table(es) => {
                    let j = key_idx(es, ident);
                    lemma_key_idx_props(es, ident);
                    if i == toks.len() - 1 {
                        if j >= 0 {
                            lemma_wf_table_update(t, set_v(t, toks, i, v).0, es, j, v);
                        } else {
                            lemma_wf_table_push(t, set_v(t, toks, i, v).0, es, ident, v);
                        }
                    } else if j >= 0 {
                        assert(wf_v(es[j].1));
                        lemma_set_preserves_wf(es[j].1, toks, i + 1, v);
                        if set_v(es[j].1, toks, i + 1, v).1 is Ok {
                            lemma_wf_table_update(
                                t,
                                set_v(t, toks, i, v).0,
                                es,
                                j,
                                set_v(es[j].1, toks, i + 1, v).0,
                            );
                        }
                    }
                },
                TreeV::Array(_) => {},
                TreeV::Scalar(_) => {},
            },
            TokenV::Index { idx, text: _ } => match t {
                TreeV::Array(items) => {
                    if i == toks.len() - 1 {
                        lemma_wf_array_edit(t, set_v(t, toks, i, v).0, items, idx, v);
                    } else if 0 <= idx < items.len() {
                        assert(wf_v(items[idx]));
                        lemma_set_preserves_wf(items[idx], toks, i + 1, v);
                        if set_v(items[idx], toks, i + 1, v).1 is Ok {
                            lemma_wf_array_edit(
                                t,
                                set_v(t, toks, i, v).0,
                                items,
                                idx,
                                set_v(items[idx], toks, i + 1, v).0,
                            );
                        }
                    }
                },
                TreeV::Table(_) => {},
                TreeV::Scalar(_) => {},
            },
        }
    }
}

/// Law: insert preserves well-formedness — also through the intermediate
/// tables it creates.
pub proof fn lemma_insert_preserves_wf(t: TreeV, toks: Seq<TokenV>, i: int, v: TreeV)
    requires
        wf_v(t),
        wf_v(v),
    ensures
        wf_v(insert_v(t, toks, i, v).0),
    decreases toks.len() - i,
{
    if i < 0 || i >= toks.len() {
    } else {
        match toks[i] {
            TokenV::Identifier { ident } => match t {
                TreeV::Table(es) => {
                    let j = key_idx(es, ident);
                    lemma_key_idx_props(es, ident);
                    if i == toks.len() - 1 {
                        if j < 0 {
                            lemma_wf_table_push(t, insert_v(t, toks, i, v).0, es, ident, v);
                        }
                    } else if j >= 0 {
                        assert(wf_v(es[j].1));
                        lemma_insert_preserves_wf(es[j].1, toks, i + 1, v);
                        lemma_wf_table_update(t, insert_v(t, toks, i, v).0, es, j, insert_v(es[j].1, toks, i + 1, v).0);
                    } else {
                        let fresh = TreeV::Table(Seq::<(Seq<char>, TreeV)>::empty());
                        assert(wf_v(fresh));
                        lemma_insert_preserves_wf(fresh, toks, i + 1, v);
                        lemma_wf_table_push(t, insert_v(t, toks, i, v).0, es, ident, insert_v(fresh, toks, i + 1, v).0);
                    }
                },
                TreeV::Array(_) => {},
                TreeV::Scalar(_) => {},
            },
            TokenV::Index { idx, text: _ } => match t {
                TreeV::Array(items) => {
                    if i == toks.len() - 1 {
                        if !(0 <= idx < items.len()) {
                            lemma_wf_array_edit(t, insert_v(t, toks, i, v).0, items, idx, v);
                        }
                    } else if 0 <= idx < items.len() {
                        assert(wf_v(items[idx]));
                        lemma_insert_preserves_wf(items[idx], toks, i + 1, v);
                        lemma_wf_array_edit(t, insert_v(t, toks, i, v).0, items, idx, insert_v(items[idx], toks, i + 1, v).0);
                    }
                },
                TreeV::Table(_) => {},
                TreeV::Scalar(_) => {},
            },
        }
    }
}

/// Law: delete preserves well-formedness.
pub proof fn lemma_delete_preserves_wf(t: TreeV, toks: Seq<TokenV>, i: int)
    requires
        wf_v(t),
    ensures
        wf_v(delete_v(t, toks, i).0),
    decreases toks.len() - i,
{
    if i < 0 || i >= toks.len() {
    } else {
        match toks[i] {
            TokenV::Identifier { ident } => match t {
                TreeV::Table(es) => {
                    let j = key_idx(es, ident);
                    lemma_key_idx_props(es, ident);
                    if i == toks.len() - 1 {
                        if j >= 0 {
                            lemma_wf_table_remove(t, delete_v(t, toks, i).0, es, j);
                        }
                    } else if j >= 0 {
                        assert(wf_v(es[j].1));
                        lemma_delete_preserves_wf(es[j].1, toks, i + 1);
                        if delete_v(es[j].1, toks, i + 1).1 is Ok {
                            lemma_wf_table_update(
                                t,
                                delete_v(t, toks, i).0,
                                es,
                                j,
                                delete_v(es[j].1, toks, i + 1).0,
                            );
                        }
                    }
                },
                TreeV::Array(_) => {},
                TreeV::Scalar(_) => {},
            },
            TokenV::Index { idx, text: _ } => match t {
                TreeV::Array(items) => {
                    if 0 <= idx < items.len() {
                        assert(wf_v(items[idx]));
                        if i == toks.len() - 1 {
                            lemma_wf_array_edit(t, delete_v(t, toks, i).0, items, idx, items[idx]);
                        } else {
                            lemma_delete_preserves_wf(items[idx], toks, i + 1);
                            if delete_v(items[idx], toks, i + 1).1 is Ok {
                                lemma_wf_array_edit(
                                    t,
                                    delete_v(t, toks, i).0,
                                    items,
                                    idx,
                                    delete_v(items[idx], toks, i + 1).0,
                                );
                            }
                        }
                    }
                },
                TreeV::Table(_) => {},
                TreeV::Scalar(_) => {},
            },
        }
    }
}

} // verus!
