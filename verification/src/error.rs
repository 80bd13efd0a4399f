//! The error taxonomy of the query language.

use vstd::prelude::*;

use crate::model::ErrorV;

verus! {

/// Every way a query can fail.
///
/// The first five kinds are raised by the tokenizer before any tree access;
/// the rest are raised when the query's shape expectation disagrees with the
/// document's actual shape. Each carries the offending identifier, index or
/// query string, so a caller can build a precise diagnostic without
/// re-deriving it from the tree.
#[derive(Debug, Clone, PartialEq)]
pub enum Error {
    /// Catch-all for a malformed query, carrying the original query string.
    QueryParsingError(String),
    /// The whole query string is empty.
    EmptyQueryError,
    /// An identifier segment between two separators is empty.
    EmptyIdentifier,
    /// An index segment `[]` has brackets but no digits.
    ArrayAccessWithoutIndex,
    /// An index segment has non-numeric content, or a number too large for an
    /// index.
    ArrayAccessWithInvalidIndex,
    /// A key is missing from a table, or an array index is out of range;
    /// carries the step's text.
    IdentifierNotFoundInDocument(String),
    /// An index step was applied to a table.
    NoIndexInTable(usize),
    /// An identifier step was applied to an array.
    NoIdentifierInArray(String),
    /// An identifier step was applied to a scalar.
    QueryingValueAsTable(String),
    /// An index step was applied to a scalar.
    QueryingValueAsArray(usize),
    /// An insert found the target key or index already occupied.
    ValueAlreadyExists(String),
}

impl View for Error {
    type V = ErrorV;

    open spec fn view(&self) -> ErrorV {
        match self {
            Error::QueryParsingError(q) => ErrorV::QueryParsingError(q@),
            Error::EmptyQueryError => ErrorV::EmptyQueryError,
            Error::EmptyIdentifier => ErrorV::EmptyIdentifier,
            Error::ArrayAccessWithoutIndex => ErrorV::ArrayAccessWithoutIndex,
            Error::ArrayAccessWithInvalidIndex => ErrorV::ArrayAccessWithInvalidIndex,
            Error::IdentifierNotFoundInDocument(s) => ErrorV::IdentifierNotFoundInDocument(s@),
            Error::NoIndexInTable(i) => ErrorV::NoIndexInTable(*i as int),
            Error::NoIdentifierInArray(s) => ErrorV::NoIdentifierInArray(s@),
            Error::QueryingValueAsTable(s) => ErrorV::QueryingValueAsTable(s@),
            Error::QueryingValueAsArray(i) => ErrorV::QueryingValueAsArray(*i as int),
            Error::ValueAlreadyExists(s) => ErrorV::ValueAlreadyExists(s@),
        }
    }
}

} // verus!
