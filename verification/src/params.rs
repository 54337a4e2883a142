//! Input parameter records: what callers pass to the storage operations.
use vstd::prelude::*;

verus! {

/// Order in which `get_bsos` returns records.
#[derive(Clone, Copy, PartialEq, Eq, Structural, Debug)]
pub enum Sorting {
    /// Implementation-defined stable order (the store's row order).
    Unsorted,
    /// `modified` descending.
    Newest,
    /// `modified` ascending.
    Oldest,
    /// `sortindex` descending with absent sortindex last, then `modified` descending.
    Index,
}

/// Upsert of one record. `ttl` is in seconds; `modified` is the caller's
/// millisecond timestamp for this write.
pub struct PutBso {
    pub user_id: u32,
    pub collection_id: i32,
    pub id: String,
    pub sortindex: Option<i32>,
    pub payload: Option<String>,
    pub ttl: Option<u32>,
    pub modified: i64,
}

/// Lookup of one record.
pub struct GetBso {
    pub user_id: u32,
    pub collection_id: i32,
    pub id: String,
}

/// One record inside a batch create or append; all fields except the id are
/// optional and merge into whatever is already staged or stored.
pub struct PostCollectionBso {
    pub id: String,
    pub sortindex: Option<i32>,
    pub payload: Option<String>,
    pub ttl: Option<u32>,
}

impl Clone for PostCollectionBso {
    fn clone(&self) -> (r: Self)
        ensures
            r == *self,
    {
        PostCollectionBso {
            id: self.id.clone(),
            sortindex: self.sortindex,
            payload: match &self.payload {
                Some(p) => Some(p.clone()),
                None => None,
            },
            ttl: self.ttl,
        }
    }
}

/// Open a new batch, staging the given records under a fresh batch id.
pub struct CreateBatch {
    pub user_id: u32,
    pub collection: String,
    pub bsos: Vec<PostCollectionBso>,
}

/// Ask whether a batch is still usable.
pub struct ValidateBatch {
    pub user_id: u32,
    pub collection: String,
    pub id: String,
}

/// Stage more records under an existing batch.
pub struct AppendToBatch {
    pub user_id: u32,
    pub collection: String,
    pub batch: crate::results::CreateBatch,
    pub bsos: Vec<PostCollectionBso>,
}

/// Look a batch up by id.
pub struct GetBatch {
    pub user_id: u32,
    pub collection: String,
    pub id: String,
}

/// Atomically merge a batch's staged records into live storage.
pub struct CommitBatch {
    pub user_id: u32,
    pub collection: String,
    pub batch: crate::results::CreateBatch,
}

/// Discard a batch and its staged records.
pub struct DeleteBatch {
    pub user_id: u32,
    pub collection: String,
    pub id: String,
}

/// List the modification times of a user's collections.
pub struct GetCollections {
    pub user_id: u32,
}

} // verus!
