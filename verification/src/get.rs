//! The get operation: read one value out of the tree.

use vstd::prelude::*;

use crate::error::Error;
use crate::model::{get_v, ErrorV, TreeV};
use crate::resolver::resolve;
use crate::tokenizer::{tokenize_v, tokenize_with_seperator};
use crate::tree::Tree;

verus! {

/// What `get` returns: tokenize, then resolve every token.
pub open spec fn get_full(t: TreeV, q: Seq<char>, sep: char) -> Result<TreeV, ErrorV> {
    match tokenize_v(q, sep) {
        Err(e) => Err(e),
        Ok(toks) => get_v(t, toks, 0),
    }
}

impl Tree {
    /// Reads the value that the query addresses, splitting the query on the
    /// given separator. Never mutates the tree; a successful result is
    /// always `Ok(Some(..))`.
    pub fn get_with_seperator<'a>(&'a self, query: &str, seperator: char) -> (r: Result<
        Option<&'a Tree>,
        Error,
    >)
        ensures
            match r {
                Ok(Some(node)) => get_full(self@, query@, seperator) == Ok::<TreeV, ErrorV>(node@),
                Ok(None) => false,
                Err(e) => get_full(self@, query@, seperator) == Err::<TreeV, ErrorV>(e@),
            },
    {
        let toks = match tokenize_with_seperator(query, seperator) {
            Ok(toks) => toks,
            Err(e) => {
                return Err(e);
            },
        };
        resolve(self, &toks)
    }

    /// Reads the value that the query addresses, splitting on `'.'`.
    pub fn get<'a>(&'a self, query: &str) -> (r: Result<Option<&'a Tree>, Error>)
        ensures
            match r {
                Ok(Some(node)) => get_full(self@, query@, '.') == Ok::<TreeV, ErrorV>(node@),
                Ok(None) => false,
                Err(e) => get_full(self@, query@, '.') == Err::<TreeV, ErrorV>(e@),
            },
    {
        self.get_with_seperator(query, '.')
    }
}

} // verus!
