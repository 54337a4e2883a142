//! Error taxonomy of the storage core. Backend driver errors are wrapped once
//! at this boundary; no inner backend type leaks above it.
use vstd::prelude::*;

verus! {

/// What went wrong, as callers are meant to see it.
#[derive(Debug)]
pub enum DbErrorKind {
    /// Lookup of a collection name or id that the store does not know.
    CollectionNotFound,
    /// A strict single-record lookup found nothing.
    BsoNotFound,
    /// An operation addressed a batch that does not exist or has expired.
    BatchNotFound,
    /// Projected storage size reached the configured byte ceiling.
    Quota { collection: String },
    /// A precondition supplied by the layer above did not hold.
    Conflict,
    /// A uniqueness violation surfaced by the backend.
    Integrity,
    /// A single payload exceeds the allowed size.
    TooLarge,
    /// A malformed identifier or an internal backend fault.
    Internal,
}

/// An error of the storage core, carrying its kind.
#[derive(Debug)]
pub struct DbError {
    pub kind: DbErrorKind,
}

impl DbError {
    /// The kind of this error.
    pub fn kind(&self) -> (r: &DbErrorKind)
        ensures
            *r == self.kind,
    {
        &self.kind
    }

    /// An error of the given kind.
    pub fn of_kind(kind: DbErrorKind) -> (r: DbError)
        ensures
            r.kind == kind,
    {
        DbError { kind }
    }
}

} // verus!
