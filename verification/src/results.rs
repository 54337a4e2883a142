//! Result records: what the storage operations hand back.
use vstd::prelude::*;

verus! {

/// One record as returned to callers. `payload` is always present (possibly
/// empty); `expiry` is in milliseconds.
pub struct Bso {
    pub id: String,
    pub modified: i64,
    pub payload: String,
    pub sortindex: Option<i32>,
    pub expiry: i64,
}

impl Clone for Bso {
    fn clone(&self) -> (r: Self)
        ensures
            r == *self,
    {
        Bso {
            id: self.id.clone(),
            modified: self.modified,
            payload: self.payload.clone(),
            sortindex: self.sortindex,
            expiry: self.expiry,
        }
    }
}

/// An ordered page of records with the paging state the caller passes back.
pub struct GetBsos {
    pub bsos: Vec<Bso>,
    pub more: bool,
    pub offset: i64,
}

/// A freshly created batch: its opaque id and, when quotas are enabled, the
/// byte total already stored for the collection.
pub struct CreateBatch {
    pub id: String,
    pub size: Option<u64>,
}

impl Clone for CreateBatch {
    fn clone(&self) -> (r: Self)
        ensures
            r == *self,
    {
        CreateBatch { id: self.id.clone(), size: self.size }
    }
}

/// A batch found by lookup.
pub struct GetBatch {
    pub id: String,
}

/// Outcome of a committed batch: the commit timestamp stamped on every
/// merged record.
pub struct PostBsos {
    pub modified: i64,
    pub success: Vec<String>,
    pub failed: Vec<String>,
}

} // verus!
