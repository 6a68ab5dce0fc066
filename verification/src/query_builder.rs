//! What a mapped struct offers to those who build queries for it.

use crate::error::ToqlError;
use crate::query::Query;
use vstd::prelude::*;

verus! {

/// Gives the provider of a struct's fields, from which queries are built
/// without spelling names.
pub trait QueryFields {
    type FieldsType;

    /// The fields of the struct at the top of a query.
    fn fields() -> Self::FieldsType;

    /// The fields of the struct below a path.
    fn fields_from_path(path: String) -> Self::FieldsType;
}

/// Gives the query that selects a value by its key.
pub trait KeyPredicate {
    fn key_predicate(&self) -> Result<Query, ToqlError>;
}

} // verus!
