use vstd::prelude::*;

verus! {

/// Every failure the database can report. Each variant carries the key that
/// triggered it, so a caller can decide whether to retry or abort.
#[derive(Debug, Clone, PartialEq, Eq)]
pub enum DbError {
    /// A type id is absent from the reference catalog (no display name or no
    /// manufacturing definition is recorded for it).
    UnknownTypeId(i64),
    /// A blueprint definition declares no product.
    NoProduct(i64),
    /// An operation named an item that is not in the store.
    UnknownItem(String),
    /// An operation named a blueprint that is not in the store.
    UnknownBlueprint(String),
}

/// Mathematical value of a `DbError`.
#[verifier::ext_equal]
pub enum ErrV {
    UnknownTypeId { id: i64 },
    NoProduct { id: i64 },
    UnknownItem { name: Seq<char> },
    UnknownBlueprint { name: Seq<char> },
}

impl View for DbError {
    type V = ErrV;

    open spec fn view(&self) -> ErrV {
        match self {
            DbError::UnknownTypeId(id) => ErrV::UnknownTypeId { id: *id },
            DbError::NoProduct(id) => ErrV::NoProduct { id: *id },
            DbError::UnknownItem(name) => ErrV::UnknownItem { name: name@ },
            DbError::UnknownBlueprint(name) => ErrV::UnknownBlueprint { name: name@ },
        }
    }
}

} // verus!
