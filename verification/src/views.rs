//! Pointwise characterization of the tree views.
//!
//! [`entries_v`] and [`items_v`] are defined by recursion on the back of the
//! sequence; these lemmas restate them pointwise, which is the form every
//! proof about navigation wants.

use vstd::prelude::*;

use crate::tree::{entries_v, items_v, Tree};

verus! {

/// The table-entry view is pointwise: entry `i` of the view is the view of
/// entry `i`.
pub broadcast proof fn lemma_entries_v(es: Seq<(String, Tree)>)
    ensures
        (#[trigger] entries_v(es)).len() == es.len(),
        forall|i: int| 0 <= i < es.len() ==> entries_v(es)[i] == (es[i].0@, es[i].1@),
    decreases es.len(),
{
    if es.len() > 0 {
        lemma_entries_v(es.drop_last());
        assert(entries_v(es) == entries_v(es.drop_last()).push((es.last().0@, es.last().1@)));
        assert forall|i: int| 0 <= i < es.len() implies entries_v(es)[i] == (
        es[i].0@,
        es[i].1@,
        ) by {
            if i < es.len() - 1 {
                assert(es.drop_last()[i] == es[i]);
                assert(entries_v(es)[i] == entries_v(es.drop_last())[i]);
            }
        }
    }
}

/// The array-element view is pointwise: element `i` of the view is the view
/// of element `i`.
pub broadcast proof fn lemma_items_v(items: Seq<Tree>)
    ensures
        (#[trigger] items_v(items)).len() == items.len(),
        forall|i: int| 0 <= i < items.len() ==> items_v(items)[i] == items[i]@,
    decreases items.len(),
{
    if items.len() > 0 {
        lemma_items_v(items.drop_last());
        assert(items_v(items) == items_v(items.drop_last()).push(items.last()@));
        assert forall|i: int| 0 <= i < items.len() implies items_v(items)[i] == items[i]@ by {
            if i < items.len() - 1 {
                assert(items.drop_last()[i] == items[i]);
                assert(items_v(items)[i] == items_v(items.drop_last())[i]);
            }
        }
    }
}

} // verus!
