//! The document tree: a closed tagged union of tables, arrays and scalars.

use vstd::prelude::*;

use crate::error::Error;
use crate::model::{ErrorV, ScalarV, TreeV};

verus! {

broadcast use vstd::std_specs::vec::group_vec_axioms, vstd::seq::group_seq_axioms;

/// An opaque leaf value. The query language never introspects scalars; it
/// only moves them around.
#[derive(Debug, Clone, PartialEq)]
pub enum Scalar {
    Integer(i64),
    Text(String),
    Boolean(bool),
}

/// A document tree value.
///
/// A table is an ordered-insertion string-keyed mapping, kept as a sequence
/// of key-value entries whose keys are pairwise distinct (see
/// [`Tree::well_formed`]); an array is an ordered sequence of elements.
#[derive(Debug, PartialEq)]
pub enum Tree {
    Table(Vec<(String, Tree)>),
    Array(Vec<Tree>),
    Scalar(Scalar),
}

impl View for Scalar {
    type V = ScalarV;

    open spec fn view(&self) -> ScalarV {
        match self {
            Scalar::Integer(n) => ScalarV::Integer(*n as int),
            Scalar::Text(s) => ScalarV::Text(s@),
            Scalar::Boolean(b) => ScalarV::Boolean(*b),
        }
    }
}

/// View of the entries of a table node.
pub open spec fn entries_v(es: Seq<(String, Tree)>) -> Seq<(Seq<char>, TreeV)>
    decreases es,
{
    if es.len() == 0 {
        Seq::empty()
    } else {
        entries_v(es.drop_last()).push((es.last().0@, es.last().1@))
    }
}

/// View of the elements of an array node.
pub open spec fn items_v(items: Seq<Tree>) -> Seq<TreeV>
    decreases items,
{
    if items.len() == 0 {
        Seq::empty()
    } else {
        items_v(items.drop_last()).push(items.last()@)
    }
}

impl View for Tree {
    type V = TreeV;

    open spec fn view(&self) -> TreeV
        decreases self,
    {
        match self {
            Tree::Table(es) => TreeV::Table(entries_v(es@)),
            Tree::Array(items) => TreeV::Array(items_v(items@)),
            Tree::Scalar(s) => TreeV::Scalar(s@),
        }
    }
}

/// View of what a mutating operation returns.
pub open spec fn op_result_v(r: Result<Option<Tree>, Error>) -> Result<Option<TreeV>, ErrorV> {
    match r {
        Ok(None) => Ok(None),
        Ok(Some(t)) => Ok(Some(t@)),
        Err(e) => Err(e@),
    }
}

impl Tree {
    /// An empty table, the natural root of a fresh document.
    pub fn new_table() -> (r: Tree)
        ensures
            r@ == TreeV::Table(Seq::<(Seq<char>, TreeV)>::empty()),
    {
        let es: Vec<(String, Tree)> = Vec::new();
        Tree::Table(es)
    }

    /// Well-formedness: every table in the tree has pairwise distinct keys.
    pub open spec fn well_formed(&self) -> bool {
        crate::model::wf_v(self@)
    }
}

} // verus!
