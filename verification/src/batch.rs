//! The staged batch upload protocol: create, append, validate, commit or
//! delete. Records accumulate server-side under an opaque batch id and merge
//! atomically into live storage on commit.
use vstd::prelude::*;

use crate::error::{DbError, DbErrorKind};
use crate::keyed::{find_by, has_key, lemma_filter_member_at, lemma_find_at, lemma_find_filter,
    lemma_find_push, lemma_find_update, unique_by};
use crate::params;
use crate::results;
use crate::store::{batch_key, bso_key, staged_key, uc_key, BatchBso, BatchRow, Db, StoredBso,
    UserCollection};
use crate::{BATCH_LIFETIME, PRETOUCH_TS, TS_LIMIT};
use vstd::string::StrSliceExecFns;

verus! {

/// A name for the set of strings `uuid::Uuid::parse_str` accepts.
pub uninterp spec fn uuid_like(s: Seq<char>) -> bool;

/// Relies on uuid::Uuid::parse_str: returns whether the string parses as a
/// UUID (hex digits with optional hyphens and wrapping forms). The outcome
/// depends on the characters alone.
#[verifier::external_body]
fn parse_uuid(s: &str) -> (r: bool)
    ensures
        r == uuid_like(s@),
{
    uuid::Uuid::parse_str(s).is_ok()
}

/// Relies on uuid::Uuid::new_v4 and its simple formatting: a fresh random
/// version-4 UUID rendered as 32 hex characters without hyphens. Nothing
/// more is assumed of the randomness.
#[verifier::external_body]
fn new_batch_id() -> (r: String)
    ensures
        r@.len() == 32,
{
    format!("{}", uuid::Uuid::new_v4().simple())
}

/// Accepts exactly the batch ids that parse as a UUID.
pub fn validate_batch_id(id: &str) -> (r: Result<(), DbError>)
    ensures
        r is Ok <==> uuid_like(id@),
        r matches Err(e) ==> e.kind is Internal,
{
    if parse_uuid(id) {
        Ok(())
    } else {
        Err(DbError::of_kind(DbErrorKind::Internal))
    }
}

/// One staged record after a batch write merges `b` over what stood there:
/// supplied fields replace, omitted fields stay.
pub open spec fn staged_upsert(
    prior: Option<BatchBso>,
    user_id: u32,
    collection_id: i32,
    batch_id: String,
    b: params::PostCollectionBso,
) -> BatchBso {
    match prior {
        None => BatchBso {
            user_id,
            collection_id,
            batch_id,
            id: b.id,
            sortindex: b.sortindex,
            payload: b.payload,
            ttl: b.ttl,
        },
        Some(o) => BatchBso {
            user_id,
            collection_id,
            batch_id: o.batch_id,
            id: o.id,
            sortindex: if b.sortindex is Some {
                b.sortindex
            } else {
                o.sortindex
            },
            payload: if b.payload is Some {
                b.payload
            } else {
                o.payload
            },
            ttl: if b.ttl is Some {
                b.ttl
            } else {
                o.ttl
            },
        },
    }
}

/// The staged record under `bid` after the whole list `bsos` has been
/// written into the batch, later entries winning field by field.
pub open spec fn staged_after(
    pre: Db,
    user_id: u32,
    collection_id: i32,
    batch_id: String,
    bsos: Seq<params::PostCollectionBso>,
    bid: Seq<char>,
) -> Option<BatchBso>
    decreases bsos.len(),
{
    if bsos.len() == 0 {
        pre.staged_at(user_id as int, collection_id as int, batch_id@, bid)
    } else {
        let prior = staged_after(pre, user_id, collection_id, batch_id, bsos.drop_last(), bid);
        let b = bsos.last();
        if b.id@ == bid {
            Some(staged_upsert(prior, user_id, collection_id, batch_id, b))
        } else {
            prior
        }
    }
}

/// Total payload characters of a batch write, what quota enforcement
/// charges.
pub open spec fn payload_bytes_of(bsos: Seq<params::PostCollectionBso>) -> int
    decreases bsos.len(),
{
    if bsos.len() == 0 {
        0
    } else {
        payload_bytes_of(bsos.drop_last()) + (match bsos.last().payload {
            Some(p) => p@.len() as int,
            None => 0int,
        })
    }
}

/// A batch that exists and has not expired against the store's clock.
pub open spec fn batch_live_at(db: Db, u: int, c: int, ba: Seq<char>) -> bool {
    match db.batch_at(u, c, ba) {
        Some(b) => b.expiry > db.clock_ms,
        None => false,
    }
}

/// Batches other than the addressed one.
pub open spec fn batch_not_key(u: int, c: int, ba: Seq<char>) -> spec_fn(BatchRow) -> bool {
    |r: BatchRow| !(r.user_id as int == u && r.collection_id as int == c && r.id@ == ba)
}

/// Staged records outside the addressed batch.
pub open spec fn staged_not_of(u: int, c: int, ba: Seq<char>) -> spec_fn(BatchBso) -> bool {
    |r: BatchBso| !(r.user_id as int == u && r.collection_id as int == c && r.batch_id@ == ba)
}

/// The transition of a batch write: exactly the addressed batch's staged
/// records change, to the fold of the incoming list; nothing else moves.
pub open spec fn append_post(
    pre: Db,
    post: Db,
    user_id: u32,
    collection_id: i32,
    batch_id: String,
    bsos: Seq<params::PostCollectionBso>,
) -> bool {
    &&& forall|bid: Seq<char>|
        #[trigger] post.staged_at(user_id as int, collection_id as int, batch_id@, bid)
            == staged_after(pre, user_id, collection_id, batch_id, bsos, bid)
    &&& forall|u2: int, c2: int, ba2: Seq<char>, b2: Seq<char>|
        !(u2 == user_id as int && c2 == collection_id as int && ba2 == batch_id@)
            ==> #[trigger] post.staged_at(u2, c2, ba2, b2) == pre.staged_at(u2, c2, ba2, b2)
    &&& post.bsos@ == pre.bsos@
    &&& post.user_collections@ == pre.user_collections@
    &&& post.batches@ == pre.batches@
    &&& Db::same_registry(pre, post)
    &&& Db::same_config(pre, post)
}

/// Index of the batch row under (user, collection, id), with its meaning.
fn find_batch(db: &Db, user_id: u32, collection_id: i32, id: &String) -> (r: Option<usize>)
    requires
        unique_by(db.batches@, batch_key()),
    ensures
        match r {
            Some(i) => i < db.batches@.len() && db.batch_at(
                user_id as int,
                collection_id as int,
                id@,
            ) == Some(db.batches@[i as int]),
            None => db.batch_at(user_id as int, collection_id as int, id@) is None,
        },
{
    let n = db.batches.len();
    let mut i: usize = 0;
    while i < n
        invariant
            n == db.batches@.len(),
            i <= n,
            unique_by(db.batches@, batch_key()),
            forall|j: int|
                0 <= j < i ==> #[trigger] batch_key()(db.batches@[j]) != (
                user_id as int,
                collection_id as int,
                id@,
            ),
        decreases n - i,
    {
        let row = &db.batches[i];
        if row.user_id == user_id && row.collection_id == collection_id
            && crate::store::string_eq_str(&row.id, id.as_str()) {
            proof {
                lemma_find_at(db.batches@, batch_key(), i as int);
            }
            return Some(i);
        }
        i += 1;
    }
    proof {
        assert(!has_key(db.batches@, batch_key(), (user_id as int, collection_id as int, id@)));
    }
    None
}

/// Index of the staged record under (user, collection, batch, id).
fn find_staged(db: &Db, user_id: u32, collection_id: i32, batch_id: &String, id: &String) -> (r:
    Option<usize>)
    requires
        unique_by(db.batch_bsos@, staged_key()),
    ensures
        match r {
            Some(i) => i < db.batch_bsos@.len() && db.staged_at(
                user_id as int,
                collection_id as int,
                batch_id@,
                id@,
            ) == Some(db.batch_bsos@[i as int]),
            None => db.staged_at(user_id as int, collection_id as int, batch_id@, id@) is None,
        },
{
    let n = db.batch_bsos.len();
    let mut i: usize = 0;
    while i < n
        invariant
            n == db.batch_bsos@.len(),
            i <= n,
            unique_by(db.batch_bsos@, staged_key()),
            forall|j: int|
                0 <= j < i ==> #[trigger] staged_key()(db.batch_bsos@[j]) != (
                user_id as int,
                collection_id as int,
                batch_id@,
                id@,
            ),
        decreases n - i,
    {
        let row = &db.batch_bsos[i];
        if row.user_id == user_id && row.collection_id == collection_id
            && crate::store::string_eq_str(&row.batch_id, batch_id.as_str())
            && crate::store::string_eq_str(&row.id, id.as_str()) {
            proof {
                lemma_find_at(db.batch_bsos@, staged_key(), i as int);
            }
            return Some(i);
        }
        i += 1;
    }
    proof {
        assert(!has_key(
            db.batch_bsos@,
            staged_key(),
            (user_id as int, collection_id as int, batch_id@, id@),
        ));
    }
    None
}

/// Looks a batch up; `None` for one that is missing or expired.
pub fn get_async(db: &Db, p: params::GetBatch) -> (r: Result<Option<results::GetBatch>, DbError>)
    requires
        db.wf(),
    ensures
        match r {
            Ok(o) => db.col_by_name(p.collection@) matches Some(col) && (match o {
                Some(g) => g.id == p.id && batch_live_at(
                    *db,
                    p.user_id as int,
                    col.id as int,
                    p.id@,
                ),
                None => !batch_live_at(*db, p.user_id as int, col.id as int, p.id@),
            }),
            Err(e) => e.kind is CollectionNotFound && db.col_by_name(p.collection@) is None,
        },
{
    let collection_id = match db.get_collection_id(p.collection.as_str()) {
        Ok(id) => id,
        Err(e) => {
            return Err(e);
        },
    };
    match find_batch(db, p.user_id, collection_id, &p.id) {
        Some(i) => {
            if db.batches[i].expiry > db.clock_ms {
                Ok(Some(results::GetBatch { id: p.id }))
            } else {
                Ok(None)
            }
        },
        None => Ok(None),
    }
}

/// True iff the batch exists and is usable.
pub fn validate_async(db: &Db, p: params::ValidateBatch) -> (r: Result<bool, DbError>)
    requires
        db.wf(),
    ensures
        match r {
            Ok(b) => db.col_by_name(p.collection@) matches Some(col) && b == batch_live_at(
                *db,
                p.user_id as int,
                col.id as int,
                p.id@,
            ),
            Err(e) => e.kind is CollectionNotFound && db.col_by_name(p.collection@) is None,
        },
{
    let exists = match get_async(
        db,
        params::GetBatch { user_id: p.user_id, collection: p.collection, id: p.id },
    ) {
        Ok(o) => o,
        Err(e) => {
            return Err(e);
        },
    };
    Ok(exists.is_some())
}

/// Deletes a batch; its staged records go with it. Deleting an absent batch
/// is not an error.
pub fn delete_async(db: &mut Db, p: params::DeleteBatch) -> (r: Result<(), DbError>)
    requires
        old(db).wf(),
    ensures
        final(db).wf(),
        match r {
            Ok(_) => old(db).col_by_name(p.collection@) matches Some(col) && {
                let u = p.user_id as int;
                let c = col.id as int;
                &&& final(db).batches@ == old(db).batches@.filter(batch_not_key(u, c, p.id@))
                &&& final(db).batch_bsos@ == old(db).batch_bsos@.filter(
                    staged_not_of(u, c, p.id@),
                )
                &&& final(db).batch_at(u, c, p.id@) is None
                &&& forall|u2: int, c2: int, ba2: Seq<char>|
                    !(u2 == u && c2 == c && ba2 == p.id@) ==> #[trigger] final(db).batch_at(
                        u2,
                        c2,
                        ba2,
                    ) == old(db).batch_at(u2, c2, ba2)
                &&& forall|u2: int, c2: int, ba2: Seq<char>, b2: Seq<char>|
                    !(u2 == u && c2 == c && ba2 == p.id@) ==> #[trigger] final(db).staged_at(
                        u2,
                        c2,
                        ba2,
                        b2,
                    ) == old(db).staged_at(u2, c2, ba2, b2)
                &&& final(db).bsos@ == old(db).bsos@
                &&& final(db).user_collections@ == old(db).user_collections@
                &&& Db::same_registry(*old(db), *final(db))
                &&& Db::same_config(*old(db), *final(db))
            },
            Err(e) => e.kind is CollectionNotFound && old(db).col_by_name(p.collection@) is None
                && *final(db) == *old(db),
        },
{
    let collection_id = match db.get_collection_id(p.collection.as_str()) {
        Ok(id) => id,
        Err(e) => {
            return Err(e);
        },
    };
    let ghost u = p.user_id as int;
    let ghost c = collection_id as int;

    let n = db.batches.len();
    let mut kept: Vec<BatchRow> = Vec::new();
    let mut i: usize = 0;
    while i < n
        invariant
            n == db.batches@.len(),
            i <= n,
            u == p.user_id as int,
            c == collection_id as int,
            kept@ == db.batches@.take(i as int).filter(batch_not_key(u, c, p.id@)),
        decreases n - i,
    {
        let row = &db.batches[i];
        if !(row.user_id == p.user_id && row.collection_id == collection_id
            && crate::store::string_eq_str(&row.id, p.id.as_str())) {
            kept.push(row.clone());
        }
        proof {
            reveal(Seq::filter);
            assert(db.batches@.take(i + 1).drop_last() =~= db.batches@.take(i as int));
            assert(db.batches@.take(i + 1).last() == db.batches@[i as int]);
            assert(kept@ == db.batches@.take(i + 1).filter(batch_not_key(u, c, p.id@)));
        }
        i += 1;
    }
    proof {
        assert(db.batches@.take(n as int) =~= db.batches@);
        lemma_find_filter(db.batches@, batch_key(), batch_not_key(u, c, p.id@));
    }

    let n2 = db.batch_bsos.len();
    let mut kept2: Vec<BatchBso> = Vec::new();
    let mut i2: usize = 0;
    while i2 < n2
        invariant
            n2 == db.batch_bsos@.len(),
            i2 <= n2,
            u == p.user_id as int,
            c == collection_id as int,
            kept2@ == db.batch_bsos@.take(i2 as int).filter(staged_not_of(u, c, p.id@)),
        decreases n2 - i2,
    {
        let row = &db.batch_bsos[i2];
        if !(row.user_id == p.user_id && row.collection_id == collection_id
            && crate::store::string_eq_str(&row.batch_id, p.id.as_str())) {
            kept2.push(row.clone());
        }
        proof {
            reveal(Seq::filter);
            assert(db.batch_bsos@.take(i2 + 1).drop_last() =~= db.batch_bsos@.take(i2 as int));
            assert(db.batch_bsos@.take(i2 + 1).last() == db.batch_bsos@[i2 as int]);
            assert(kept2@ == db.batch_bsos@.take(i2 + 1).filter(staged_not_of(u, c, p.id@)));
        }
        i2 += 1;
    }
    proof {
        assert(db.batch_bsos@.take(n2 as int) =~= db.batch_bsos@);
        lemma_find_filter(db.batch_bsos@, staged_key(), staged_not_of(u, c, p.id@));
    }

    let ghost pre = *db;
    db.batches = kept;
    db.batch_bsos = kept2;
    proof {
        match find_by(pre.batches@, batch_key(), (u, c, p.id@)) {
            Some(t) => {
                assert(batch_key()(t) == (u, c, p.id@));
                assert(!(batch_not_key(u, c, p.id@)(t)));
            },
            None => {},
        }
        assert forall|u2: int, c2: int, ba2: Seq<char>| !(u2 == u && c2 == c && ba2
            == p.id@) implies #[trigger] db.batch_at(u2, c2, ba2) == pre.batch_at(u2, c2, ba2) by {
            match find_by(pre.batches@, batch_key(), (u2, c2, ba2)) {
                Some(t) => {
                    assert(batch_key()(t) == (u2, c2, ba2));
                    assert(batch_not_key(u, c, p.id@)(t));
                },
                None => {},
            }
        }
        assert forall|u2: int, c2: int, ba2: Seq<char>, b2: Seq<char>| !(u2 == u && c2 == c && ba2
            == p.id@) implies #[trigger] db.staged_at(u2, c2, ba2, b2) == pre.staged_at(
            u2,
            c2,
            ba2,
            b2,
        ) by {
            match find_by(pre.batch_bsos@, staged_key(), (u2, c2, ba2, b2)) {
                Some(t) => {
                    assert(staged_key()(t) == (u2, c2, ba2, b2));
                    assert(staged_not_of(u, c, p.id@)(t));
                },
                None => {},
            }
        }
        assert forall|i5: int| 0 <= i5 < db.bsos@.len() implies {
            let r5 = #[trigger] db.bsos@[i5];
            &&& 0 <= r5.modified < TS_LIMIT
            &&& match db.uc_at(r5.user_id as int, r5.collection_id as int) {
                Some(uc) => r5.modified <= uc.modified,
                None => false,
            }
        } by {
            assert(pre.bsos@[i5] == db.bsos@[i5]);
            let r5 = db.bsos@[i5];
            assert(db.uc_at(r5.user_id as int, r5.collection_id as int) == pre.uc_at(
                r5.user_id as int,
                r5.collection_id as int,
            ));
        }
    }
    Ok(())
}

/// Ensures a parent summary row exists before any batch row references it:
/// when none does, a pretouch sentinel row is inserted, which every query of
/// modification times ignores.
fn pretouch_collection_async(db: &mut Db, user_id: u32, collection_id: i32) -> (r: Result<
    (),
    DbError,
>)
    requires
        old(db).wf(),
    ensures
        final(db).wf(),
        r is Ok,
        match old(db).uc_at(user_id as int, collection_id as int) {
            Some(_) => *final(db) == *old(db),
            None => {
                &&& final(db).uc_at(user_id as int, collection_id as int) matches Some(n)
                    && n.modified == PRETOUCH_TS && n.count == 0 && n.total_bytes == 0
                    && n.user_id == user_id && n.collection_id == collection_id
                &&& forall|u2: int, c2: int|
                    !(u2 == user_id as int && c2 == collection_id as int) ==> #[trigger] final(db).uc_at(u2, c2) == old(db).uc_at(u2, c2)
                &&& final(db).bsos@ == old(db).bsos@
                &&& Db::same_registry(*old(db), *final(db))
                &&& Db::same_batches(*old(db), *final(db))
                &&& Db::same_config(*old(db), *final(db))
            },
        },
{
    match db.find_uc(user_id, collection_id) {
        Some(_) => Ok(()),
        None => {
            let row = UserCollection {
                user_id,
                collection_id,
                modified: PRETOUCH_TS,
                count: 0,
                total_bytes: 0,
            };
            proof {
                lemma_find_push(db.user_collections@, uc_key(), row);
            }
            db.user_collections.push(row);
            proof {
                crate::store::lemma_bso_cover_uc_grow(
                    *old(db),
                    *db,
                    user_id as int,
                    collection_id as int,
                );
            }
            Ok(())
        },
    }
}

/// Addition clamped to `u64`.
fn sat_add_u64(a: u64, b: u64) -> (r: u64)
    ensures
        r as int == crate::store::clamp_u64(a as int + b as int),
{
    if a > u64::MAX - b {
        u64::MAX
    } else {
        a + b
    }
}

/// Total payload characters of a batch write, clamped to `u64`.
fn sum_payload_bytes(bsos: &Vec<params::PostCollectionBso>) -> (r: u64)
    ensures
        r as int == crate::store::clamp_u64(payload_bytes_of(bsos@)),
{
    let n = bsos.len();
    let mut total: u64 = 0;
    let mut i: usize = 0;
    while i < n
        invariant
            n == bsos@.len(),
            i <= n,
            total as int == crate::store::clamp_u64(payload_bytes_of(bsos@.take(i as int))),
        decreases n - i,
    {
        proof {
            assert(bsos@.take(i + 1).drop_last() =~= bsos@.take(i as int));
            assert(bsos@.take(i + 1).last() == bsos@[i as int]);
        }
        match &bsos[i].payload {
            Some(p) => {
                let l: u64 = p.unicode_len() as u64;
                total = sat_add_u64(total, l);
            },
            None => {},
        }
        i += 1;
    }
    proof {
        assert(bsos@.take(n as int) =~= bsos@);
    }
    total
}

/// A sum of payload lengths is never negative.
proof fn lemma_payload_bytes_nonneg(bsos: Seq<params::PostCollectionBso>)
    ensures
        payload_bytes_of(bsos) >= 0,
    decreases bsos.len(),
{
    if bsos.len() > 0 {
        lemma_payload_bytes_nonneg(bsos.drop_last());
    }
}

/// The quota gate of a batch write: with quotas enabled and a seeded size,
/// the projected byte total must stay below the ceiling.
pub open spec fn over_quota(pre: Db, size: Option<u64>, bsos: Seq<params::PostCollectionBso>) -> bool {
    pre.quota_enabled && match size {
        Some(sz) => sz + payload_bytes_of(bsos) >= pre.quota_bytes,
        None => false,
    }
}

/// `staged_after` depends on the prior store only through the addressed
/// batch's staged records.
proof fn lemma_staged_after_congruent(
    pre1: Db,
    pre2: Db,
    user_id: u32,
    collection_id: i32,
    batch_id: String,
    bsos: Seq<params::PostCollectionBso>,
    bid: Seq<char>,
)
    requires
        pre1.staged_at(user_id as int, collection_id as int, batch_id@, bid) == pre2.staged_at(
            user_id as int,
            collection_id as int,
            batch_id@,
            bid,
        ),
    ensures
        staged_after(pre1, user_id, collection_id, batch_id, bsos, bid) == staged_after(
            pre2,
            user_id,
            collection_id,
            batch_id,
            bsos,
            bid,
        ),
    decreases bsos.len(),
{
    if bsos.len() > 0 {
        lemma_staged_after_congruent(
            pre1,
            pre2,
            user_id,
            collection_id,
            batch_id,
            bsos.drop_last(),
            bid,
        );
    }
}

/// Stages a list of records into a batch: staged rows are upserted field by
/// field, after the whole write has passed the quota gate.
pub fn do_append_async(
    db: &mut Db,
    user_id: u32,
    collection_id: i32,
    batch: results::CreateBatch,
    bsos: Vec<params::PostCollectionBso>,
    collection: &str,
) -> (r: Result<(), DbError>)
    requires
        old(db).wf(),
    ensures
        final(db).wf(),
        match r {
            Ok(_) => {
                &&& append_post(*old(db), *final(db), user_id, collection_id, batch.id, bsos@)
                &&& !over_quota(*old(db), batch.size, bsos@)
            },
            Err(e) => {
                &&& e.kind matches DbErrorKind::Quota { collection: cn } && cn@ == collection@
                &&& over_quota(*old(db), batch.size, bsos@)
                &&& *final(db) == *old(db)
            },
        },
{
    let running = sum_payload_bytes(&bsos);
    if db.quota_enabled {
        match batch.size {
            Some(sz) => {
                let projected = sat_add_u64(sz, running);
                if projected >= db.quota_bytes {
                    return Err(
                        DbError::of_kind(
                            DbErrorKind::Quota { collection: collection.to_owned() },
                        ),
                    );
                }
            },
            None => {},
        }
    }
    let ghost pre = *db;
    let ghost uu = user_id as int;
    let ghost cc = collection_id as int;
    let n = bsos.len();
    let mut i: usize = 0;
    while i < n
        invariant
            n == bsos@.len(),
            i <= n,
            db.wf(),
            uu == user_id as int,
            cc == collection_id as int,
            forall|bid: Seq<char>|
                #[trigger] db.staged_at(uu, cc, batch.id@, bid) == staged_after(
                    pre,
                    user_id,
                    collection_id,
                    batch.id,
                    bsos@.take(i as int),
                    bid,
                ),
            forall|u2: int, c2: int, ba2: Seq<char>, b2: Seq<char>|
                !(u2 == uu && c2 == cc && ba2 == batch.id@) ==> #[trigger] db.staged_at(
                    u2,
                    c2,
                    ba2,
                    b2,
                ) == pre.staged_at(u2, c2, ba2, b2),
            db.bsos@ == pre.bsos@,
            db.user_collections@ == pre.user_collections@,
            db.batches@ == pre.batches@,
            Db::same_registry(pre, *db),
            Db::same_config(pre, *db),
        decreases n - i,
    {
        let b = bsos[i].clone();
        let ghost cur = *db;
        proof {
            assert(bsos@.take(i + 1).drop_last() =~= bsos@.take(i as int));
            assert(bsos@.take(i + 1).last() == bsos@[i as int]);
        }
        match find_staged(db, user_id, collection_id, &batch.id, &b.id) {
            Some(j) => {
                let o = db.batch_bsos.remove(j);
                let merged = BatchBso {
                    user_id,
                    collection_id,
                    batch_id: o.batch_id,
                    id: o.id,
                    sortindex: if b.sortindex.is_some() {
                        b.sortindex
                    } else {
                        o.sortindex
                    },
                    payload: if b.payload.is_some() {
                        b.payload
                    } else {
                        o.payload
                    },
                    ttl: if b.ttl.is_some() {
                        b.ttl
                    } else {
                        o.ttl
                    },
                };
                db.batch_bsos.insert(j, merged);
                proof {
                    assert(db.batch_bsos@ =~= cur.batch_bsos@.update(j as int, merged));
                    lemma_find_update(cur.batch_bsos@, staged_key(), j as int, merged);
                    assert(merged == staged_upsert(
                        cur.staged_at(uu, cc, batch.id@, b.id@),
                        user_id,
                        collection_id,
                        batch.id,
                        bsos@[i as int],
                    ));
                }
            },
            None => {
                let row = BatchBso {
                    user_id,
                    collection_id,
                    batch_id: batch.id.clone(),
                    id: b.id,
                    sortindex: b.sortindex,
                    payload: b.payload,
                    ttl: b.ttl,
                };
                proof {
                    lemma_find_push(db.batch_bsos@, staged_key(), row);
                }
                db.batch_bsos.push(row);
                proof {
                    assert(row == staged_upsert(
                        None::<BatchBso>,
                        user_id,
                        collection_id,
                        batch.id,
                        bsos@[i as int],
                    ));
                }
            },
        }
        proof {
            let ghost bi = bsos@[i as int].id@;
            assert forall|bid: Seq<char>| #[trigger] db.staged_at(uu, cc, batch.id@, bid)
                == staged_after(
                pre,
                user_id,
                collection_id,
                batch.id,
                bsos@.take(i + 1),
                bid,
            ) by {
                if bid == bi {
                    assert(cur.staged_at(uu, cc, batch.id@, bid) == staged_after(
                        pre,
                        user_id,
                        collection_id,
                        batch.id,
                        bsos@.take(i as int),
                        bid,
                    ));
                } else {
                    assert(db.staged_at(uu, cc, batch.id@, bid) == cur.staged_at(
                        uu,
                        cc,
                        batch.id@,
                        bid,
                    ));
                }
            }
            assert forall|u2: int, c2: int, ba2: Seq<char>, b2: Seq<char>| !(u2 == uu && c2 == cc
                && ba2 == batch.id@) implies #[trigger] db.staged_at(u2, c2, ba2, b2)
                == pre.staged_at(u2, c2, ba2, b2) by {
                assert(db.staged_at(u2, c2, ba2, b2) == cur.staged_at(u2, c2, ba2, b2));
            }
            assert forall|i5: int| 0 <= i5 < db.bsos@.len() implies {
                let r5 = #[trigger] db.bsos@[i5];
                &&& 0 <= r5.modified < TS_LIMIT
                &&& match db.uc_at(r5.user_id as int, r5.collection_id as int) {
                    Some(uc) => r5.modified <= uc.modified,
                    None => false,
                }
            } by {
                assert(cur.bsos@[i5] == db.bsos@[i5]);
                let r5 = db.bsos@[i5];
                assert(db.uc_at(r5.user_id as int, r5.collection_id as int) == cur.uc_at(
                    r5.user_id as int,
                    r5.collection_id as int,
                ));
            }
        }
        i += 1;
    }
    proof {
        assert(bsos@.take(n as int) =~= bsos@);
    }
    Ok(())
}

/// The id a batch create resolves (or allocates) for its collection name.
pub open spec fn created_cid(pre: Db, name: Seq<char>) -> i32 {
    match pre.col_by_name(name) {
        Some(c0) => c0.id,
        None => pre.next_collection_id,
    }
}

/// The stored byte total a batch create seeds its size with.
pub open spec fn uc_total_or0(pre: Db, u: int, c: int) -> u64 {
    match pre.uc_at(u, c) {
        Some(o) => o.total_bytes,
        None => 0u64,
    }
}

/// The quota gate of a batch create: current stored bytes plus the initial
/// write must stay below the ceiling.
pub open spec fn create_quota_cond(pre: Db, p: params::CreateBatch) -> bool {
    pre.quota_enabled && uc_total_or0(
        pre,
        p.user_id as int,
        created_cid(pre, p.collection@) as int,
    ) + payload_bytes_of(p.bsos@) >= pre.quota_bytes
}

/// The quota gate of an append: stored bytes, the client's running size,
/// and the incoming write together must stay below the ceiling.
pub open spec fn append_quota_cond(
    pre: Db,
    u: int,
    c: int,
    bsize: Option<u64>,
    bsos: Seq<params::PostCollectionBso>,
) -> bool {
    pre.quota_enabled && uc_total_or0(pre, u, c) + (match bsize {
        Some(s) => s as int,
        None => 0int,
    }) + payload_bytes_of(bsos) >= pre.quota_bytes
}

/// The transition of a successful batch create: the collection resolved or
/// allocated, its summary row pretouched, the batch row inserted with the
/// standard lifetime, and the initial records staged.
pub open spec fn create_post(
    pre: Db,
    post: Db,
    p: params::CreateBatch,
    batch_id: String,
    res: results::CreateBatch,
) -> bool {
    let u = p.user_id as int;
    let cid = created_cid(pre, p.collection@);
    let c = cid as int;
    &&& res.id == batch_id
    &&& res.size == (if pre.quota_enabled {
        Some(uc_total_or0(pre, u, c))
    } else {
        None::<u64>
    })
    &&& post.col_by_name(p.collection@) matches Some(col) && col.id == cid
    &&& (match pre.col_by_name(p.collection@) {
        Some(_) => post.collections@ == pre.collections@ && post.next_collection_id
            == pre.next_collection_id,
        None => post.next_collection_id == pre.next_collection_id + 1 && forall|n2: Seq<char>|
            n2 != p.collection@ ==> #[trigger] post.col_by_name(n2) == pre.col_by_name(n2),
    })
    &&& (match pre.uc_at(u, c) {
        Some(o) => post.uc_at(u, c) == Some(o),
        None => post.uc_at(u, c) matches Some(n) && n.modified == PRETOUCH_TS && n.count == 0
            && n.total_bytes == 0,
    })
    &&& forall|u2: int, c2: int|
        !(u2 == u && c2 == c) ==> #[trigger] post.uc_at(u2, c2) == pre.uc_at(u2, c2)
    &&& post.batch_at(u, c, batch_id@) matches Some(bb) && bb.id == batch_id && bb.expiry
        == pre.clock_ms + BATCH_LIFETIME
    &&& forall|u2: int, c2: int, ba2: Seq<char>|
        !(u2 == u && c2 == c && ba2 == batch_id@) ==> #[trigger] post.batch_at(u2, c2, ba2)
            == pre.batch_at(u2, c2, ba2)
    &&& forall|bid: Seq<char>|
        #[trigger] post.staged_at(u, c, batch_id@, bid) == staged_after(
            pre,
            p.user_id,
            cid,
            batch_id,
            p.bsos@,
            bid,
        )
    &&& forall|u2: int, c2: int, ba2: Seq<char>, b2: Seq<char>|
        !(u2 == u && c2 == c && ba2 == batch_id@) ==> #[trigger] post.staged_at(u2, c2, ba2, b2)
            == pre.staged_at(u2, c2, ba2, b2)
    &&& post.bsos@ == pre.bsos@
    &&& Db::same_config(pre, post)
}

/// Opens a batch under the given id: resolves (or creates) the collection,
/// pretouches its summary row, inserts the batch row, and stages the
/// initial records — or changes nothing and says why.
pub fn create_batch_with_id(db: &mut Db, p: params::CreateBatch, batch_id: String) -> (r: Result<
    results::CreateBatch,
    DbError,
>)
    requires
        old(db).wf(),
    ensures
        final(db).wf(),
        match r {
            Ok(res) => create_post(*old(db), *final(db), p, batch_id, res),
            Err(e) => *final(db) == *old(db) && match e.kind {
                DbErrorKind::Quota { collection: cn } => cn@ == p.collection@
                    && create_quota_cond(*old(db), p),
                DbErrorKind::Internal => old(db).batch_at(
                    p.user_id as int,
                    created_cid(*old(db), p.collection@) as int,
                    batch_id@,
                ) is Some || (old(db).col_by_name(p.collection@) is None && old(
                    db,
                ).next_collection_id == i32::MAX),
                _ => false,
            },
        },
        r is Ok <==> !create_quota_cond(*old(db), p) && old(db).batch_at(
            p.user_id as int,
            created_cid(*old(db), p.collection@) as int,
            batch_id@,
        ) is None && !(old(db).col_by_name(p.collection@) is None && old(db).next_collection_id
            == i32::MAX),
{
    let params::CreateBatch { user_id, collection, bsos } = p;
    let ghost pre = *db;
    let cid: i32 = match db.find_col_by_name(collection.as_str()) {
        Some(ci) => db.collections[ci].id,
        None => {
            if db.next_collection_id == i32::MAX {
                return Err(DbError::of_kind(DbErrorKind::Internal));
            }
            db.next_collection_id
        },
    };
    let size: Option<u64> = db.check_quota(user_id, cid);
    proof {
        lemma_payload_bytes_nonneg(bsos@);
    }
    let running = sum_payload_bytes(&bsos);
    if db.quota_enabled {
        match size {
            Some(sz) => {
                let projected = sat_add_u64(sz, running);
                if projected >= db.quota_bytes {
                    return Err(
                        DbError::of_kind(DbErrorKind::Quota { collection }),
                    );
                }
            },
            None => {},
        }
    }
    match find_batch(db, user_id, cid, &batch_id) {
        Some(_) => {
            return Err(DbError::of_kind(DbErrorKind::Internal));
        },
        None => {},
    }
    let created = db.create_collection(collection.as_str());
    match created {
        Ok(cid2) => {
            proof {
                assert(cid2 == cid);
            }
        },
        Err(e) => {
            proof {
                assert(false);
            }
            return Err(e);
        },
    }
    let ghost s1 = *db;
    let tres = pretouch_collection_async(db, user_id, cid);
    match tres {
        Ok(_) => {},
        Err(e) => {
            proof {
                assert(false);
            }
            return Err(e);
        },
    }
    let ghost s2 = *db;
    let brow = BatchRow {
        user_id,
        collection_id: cid,
        id: batch_id.clone(),
        expiry: db.clock_ms + BATCH_LIFETIME,
    };
    proof {
        assert(db.batches@ == pre.batches@);
        assert(db.batch_at(user_id as int, cid as int, batch_id@) is None);
        assert(!has_key(db.batches@, batch_key(), (user_id as int, cid as int, batch_id@)));
        lemma_find_push(db.batches@, batch_key(), brow);
    }
    db.batches.push(brow);
    proof {
        assert forall|u2: int, c2: int| #[trigger] db.uc_at(u2, c2) == s2.uc_at(u2, c2) by {}
        crate::store::lemma_bso_cover_stable(s2, *db);
    }
    let ghost s3 = *db;
    let res = results::CreateBatch { id: batch_id, size };
    let ares = do_append_async(db, user_id, cid, res.clone(), bsos, collection.as_str());
    match ares {
        Ok(_) => {
            proof {
                let uu = user_id as int;
                let cc = cid as int;
                assert(cid == created_cid(pre, p.collection@));
                assert forall|bid: Seq<char>| #[trigger] db.staged_at(uu, cc, res.id@, bid)
                    == staged_after(pre, user_id, cid, res.id, p.bsos@, bid) by {
                    lemma_staged_after_congruent(s3, pre, user_id, cid, res.id, p.bsos@, bid);
                    assert(db.staged_at(uu, cc, res.id@, bid) == staged_after(
                        s3,
                        user_id,
                        cid,
                        res.id,
                        p.bsos@,
                        bid,
                    ));
                }
                assert forall|u2: int, c2: int, ba2: Seq<char>, b2: Seq<char>| !(u2 == uu && c2
                    == cc && ba2 == res.id@) implies #[trigger] db.staged_at(u2, c2, ba2, b2)
                    == pre.staged_at(u2, c2, ba2, b2) by {
                    assert(db.staged_at(u2, c2, ba2, b2) == s3.staged_at(u2, c2, ba2, b2));
                    assert(s3.staged_at(u2, c2, ba2, b2) == pre.staged_at(u2, c2, ba2, b2));
                }
                assert forall|u2: int, c2: int| #[trigger] db.uc_at(u2, c2) == s2.uc_at(
                    u2,
                    c2,
                ) by {}
                assert forall|u2: int, c2: int| #[trigger] s1.uc_at(u2, c2) == pre.uc_at(
                    u2,
                    c2,
                ) by {}
                assert forall|u2: int, c2: int| !(u2 == uu && c2 == cc) implies #[trigger] db.uc_at(
                    u2,
                    c2,
                ) == pre.uc_at(u2, c2) by {
                    assert(db.uc_at(u2, c2) == s2.uc_at(u2, c2));
                    assert(s2.uc_at(u2, c2) == s1.uc_at(u2, c2));
                }
                assert(db.uc_at(uu, cc) == s2.uc_at(uu, cc));
                assert(db.collections@ == s1.collections@);
                assert(db.col_by_name(p.collection@) == s1.col_by_name(p.collection@));
                assert forall|n2: Seq<char>| n2 != p.collection@ implies #[trigger] db.col_by_name(
                    n2,
                ) == s1.col_by_name(n2) by {}
                assert forall|u2: int, c2: int, ba2: Seq<char>| #[trigger] s2.batch_at(
                    u2,
                    c2,
                    ba2,
                ) == pre.batch_at(u2, c2, ba2) by {}
                assert forall|u2: int, c2: int, ba2: Seq<char>| #[trigger] db.batch_at(
                    u2,
                    c2,
                    ba2,
                ) == s3.batch_at(u2, c2, ba2) by {}
                assert(db.batch_at(uu, cc, res.id@) == s3.batch_at(uu, cc, res.id@));
            }
            Ok(res)
        },
        Err(e) => {
            proof {
                assert(false);
            }
            Err(e)
        },
    }
}

/// Opens a batch under a fresh random id and stages the initial records.
/// Everything proved of the outcome goes through `create_post` on the
/// returned id; the id itself is only known to be 32 characters long.
pub fn create_async(db: &mut Db, p: params::CreateBatch) -> (r: Result<
    results::CreateBatch,
    DbError,
>)
    requires
        old(db).wf(),
    ensures
        final(db).wf(),
        match r {
            Ok(res) => create_post(*old(db), *final(db), p, res.id, res) && res.id@.len() == 32,
            Err(e) => *final(db) == *old(db) && match e.kind {
                DbErrorKind::Quota { collection: cn } => cn@ == p.collection@
                    && create_quota_cond(*old(db), p),
                DbErrorKind::Internal => true,
                _ => false,
            },
        },
{
    let batch_id = new_batch_id();
    create_batch_with_id(db, p, batch_id)
}

/// Stages more records under an existing, unexpired batch, after resolving
/// the collection and re-seeding the quota size.
pub fn append_async(db: &mut Db, p: params::AppendToBatch) -> (r: Result<(), DbError>)
    requires
        old(db).wf(),
    ensures
        final(db).wf(),
        match r {
            Ok(_) => old(db).col_by_name(p.collection@) matches Some(col) && {
                &&& batch_live_at(*old(db), p.user_id as int, col.id as int, p.batch.id@)
                &&& append_post(*old(db), *final(db), p.user_id, col.id, p.batch.id, p.bsos@)
                &&& !append_quota_cond(
                    *old(db),
                    p.user_id as int,
                    col.id as int,
                    p.batch.size,
                    p.bsos@,
                )
            },
            Err(e) => *final(db) == *old(db) && match e.kind {
                DbErrorKind::CollectionNotFound => old(db).col_by_name(p.collection@) is None,
                DbErrorKind::BatchNotFound => old(db).col_by_name(p.collection@) matches Some(col)
                    && !batch_live_at(*old(db), p.user_id as int, col.id as int, p.batch.id@),
                DbErrorKind::Quota { collection: cn } => cn@ == p.collection@ && (old(
                    db,
                ).col_by_name(p.collection@) matches Some(col) && batch_live_at(
                    *old(db),
                    p.user_id as int,
                    col.id as int,
                    p.batch.id@,
                ) && append_quota_cond(
                    *old(db),
                    p.user_id as int,
                    col.id as int,
                    p.batch.size,
                    p.bsos@,
                )),
                _ => false,
            },
        },
{
    let params::AppendToBatch { user_id, collection, batch, bsos } = p;
    let cid = match db.get_collection_id(collection.as_str()) {
        Ok(id) => id,
        Err(e) => {
            return Err(e);
        },
    };
    let current = db.check_quota(user_id, cid);
    let size: Option<u64> = match current {
        Some(cur) => {
            let base = match batch.size {
                Some(s) => s,
                None => 0,
            };
            Some(sat_add_u64(cur, base))
        },
        None => batch.size,
    };
    proof {
        lemma_payload_bytes_nonneg(bsos@);
    }
    let live = match find_batch(db, user_id, cid, &batch.id) {
        Some(i) => db.batches[i].expiry > db.clock_ms,
        None => false,
    };
    if !live {
        return Err(DbError::of_kind(DbErrorKind::BatchNotFound));
    }
    let ares = do_append_async(
        db,
        user_id,
        cid,
        results::CreateBatch { id: batch.id, size },
        bsos,
        collection.as_str(),
    );
    match ares {
        Ok(_) => Ok(()),
        Err(e) => Err(e),
    }
}

/// Staged records of the addressed batch.
pub open spec fn staged_of(u: int, c: int, ba: Seq<char>) -> spec_fn(BatchBso) -> bool {
    |r: BatchBso| r.user_id as int == u && r.collection_id as int == c && r.batch_id@ == ba
}

/// The commit timestamp: the clock, bumped past the stored `modified` so
/// that it is strictly greater (the pretouch sentinel included).
pub open spec fn commit_ts(pre: Db, u: int, c: int) -> int {
    match pre.uc_at(u, c) {
        Some(o) => if pre.clock_ms >= o.modified + 1 {
            pre.clock_ms as int
        } else {
            o.modified + 1
        },
        None => pre.clock_ms as int,
    }
}

/// How a live record looks after a staged record merges into it at commit
/// time `t`: supplied fields overlay, `modified` becomes `t`, a supplied ttl
/// recomputes `expiry` from `t`, and an expired or absent record is written
/// fresh with defaults.
pub open spec fn commit_row_ok(live: Option<StoredBso>, s: BatchBso, t: i64, nr: StoredBso) -> bool {
    &&& nr.user_id == s.user_id
    &&& nr.collection_id == s.collection_id
    &&& nr.id@ == s.id@
    &&& nr.modified == t
    &&& match live {
        None => {
            &&& nr.payload@ == (match s.payload {
                Some(p) => p@,
                None => Seq::<char>::empty(),
            })
            &&& nr.sortindex == s.sortindex
            &&& nr.expiry as int == t + crate::store::ttl_secs(s.ttl) * 1000
        },
        Some(o) => {
            &&& nr.payload@ == (match s.payload {
                Some(p) => p@,
                None => o.payload@,
            })
            &&& nr.sortindex == (match s.sortindex {
                Some(x) => Some(x),
                None => o.sortindex,
            })
            &&& nr.expiry as int == (match s.ttl {
                Some(tt) => t + (tt as int) * 1000,
                None => o.expiry as int,
            })
        },
    }
}

/// The transition of a successful commit: every record staged under the
/// batch merges into live storage stamped `t`, strictly newer than
/// everything the collection held; the batch and its staging rows are gone;
/// the summary row carries `t` and, with quotas on, freshly recomputed
/// counters. Nothing else moves.
pub open spec fn commit_post(
    pre: Db,
    post: Db,
    user_id: u32,
    cid: i32,
    batch_id: String,
    res: results::PostBsos,
) -> bool {
    let u = user_id as int;
    let c = cid as int;
    let t = res.modified;
    &&& t as int == commit_ts(pre, u, c)
    &&& (match pre.uc_at(u, c) {
        Some(o) => t > o.modified,
        None => true,
    })
    &&& forall|i: int|
        0 <= i < pre.bsos@.len() && (#[trigger] pre.bsos@[i]).user_id as int == u
            && pre.bsos@[i].collection_id as int == c ==> pre.bsos@[i].modified < t
    &&& forall|b2: Seq<char>|
        #![trigger post.bso_at(u, c, b2)]
        match pre.staged_at(u, c, batch_id@, b2) {
            Some(s) => post.bso_at(u, c, b2) matches Some(nr) && commit_row_ok(
                pre.get_bso_spec(u, c, b2),
                s,
                t,
                nr,
            ),
            None => post.bso_at(u, c, b2) == pre.bso_at(u, c, b2),
        }
    &&& forall|u2: int, c2: int, b2: Seq<char>|
        !(u2 == u && c2 == c) ==> #[trigger] post.bso_at(u2, c2, b2) == pre.bso_at(u2, c2, b2)
    &&& post.batch_at(u, c, batch_id@) is None
    &&& forall|u2: int, c2: int, ba2: Seq<char>|
        !(u2 == u && c2 == c && ba2 == batch_id@) ==> #[trigger] post.batch_at(u2, c2, ba2)
            == pre.batch_at(u2, c2, ba2)
    &&& forall|b2: Seq<char>| #[trigger] post.staged_at(u, c, batch_id@, b2) is None
    &&& forall|u2: int, c2: int, ba2: Seq<char>, b2: Seq<char>|
        !(u2 == u && c2 == c && ba2 == batch_id@) ==> #[trigger] post.staged_at(u2, c2, ba2, b2)
            == pre.staged_at(u2, c2, ba2, b2)
    &&& post.uc_at(u, c) matches Some(n) && n.modified == t && (if pre.quota_enabled {
        n.count as int == crate::store::live_count_of(post.bsos@, u, c, pre.clock_ms as int)
            && n.total_bytes as int == crate::store::clamp_u64(
            crate::store::live_bytes_of(post.bsos@, u, c, pre.clock_ms as int),
        )
    } else {
        n.count == (match pre.uc_at(u, c) {
            Some(o) => o.count,
            None => 0u64,
        }) && n.total_bytes == (match pre.uc_at(u, c) {
            Some(o) => o.total_bytes,
            None => 0u64,
        })
    })
    &&& forall|u2: int, c2: int|
        !(u2 == u && c2 == c) ==> #[trigger] post.uc_at(u2, c2) == pre.uc_at(u2, c2)
    &&& Db::same_registry(pre, post)
    &&& Db::same_config(pre, post)
    &&& res.success@.len() == 0
    &&& res.failed@.len() == 0
}

/// Atomically merges a batch's staged records into live storage, stamping
/// all of them with one commit timestamp, then discards the batch and, with
/// quotas on, recomputes the collection's counters.
pub fn commit_async(db: &mut Db, p: params::CommitBatch) -> (r: Result<results::PostBsos, DbError>)
    requires
        old(db).wf(),
    ensures
        final(db).wf(),
        match r {
            Ok(res) => old(db).col_by_name(p.collection@) matches Some(col) && (batch_live_at(
                *old(db),
                p.user_id as int,
                col.id as int,
                p.batch.id@,
            ) && commit_post(*old(db), *final(db), p.user_id, col.id, p.batch.id, res)),
            Err(e) => *final(db) == *old(db) && match e.kind {
                DbErrorKind::CollectionNotFound => old(db).col_by_name(p.collection@) is None,
                DbErrorKind::BatchNotFound => old(db).col_by_name(p.collection@) matches Some(col)
                    && !batch_live_at(*old(db), p.user_id as int, col.id as int, p.batch.id@),
                DbErrorKind::Internal => old(db).col_by_name(p.collection@) matches Some(col) && (
                batch_live_at(*old(db), p.user_id as int, col.id as int, p.batch.id@) && (old(
                    db,
                ).uc_at(p.user_id as int, col.id as int) matches Some(o) && o.modified == TS_LIMIT
                    - 1)),
                _ => false,
            },
        },
{
    let params::CommitBatch { user_id, collection, batch } = p;
    let cid = match db.get_collection_id(collection.as_str()) {
        Ok(id) => id,
        Err(e) => {
            return Err(e);
        },
    };
    let live = match find_batch(db, user_id, cid, &batch.id) {
        Some(i) => db.batches[i].expiry > db.clock_ms,
        None => false,
    };
    if !live {
        return Err(DbError::of_kind(DbErrorKind::BatchNotFound));
    }
    let ghost pre = *db;
    let ghost uu = user_id as int;
    let ghost cc = cid as int;
    let ghost bav = batch.id@;
    let t = match db.update_collection(user_id, cid) {
        Ok(t) => t,
        Err(e) => {
            return Err(e);
        },
    };
    let ghost s1 = *db;

    // Collect the staged records of this batch.
    let n = db.batch_bsos.len();
    let mut list: Vec<BatchBso> = Vec::new();
    let mut i: usize = 0;
    while i < n
        invariant
            n == db.batch_bsos@.len(),
            i <= n,
            db.wf(),
            uu == user_id as int,
            cc == cid as int,
            bav == batch.id@,
            list@ == db.batch_bsos@.take(i as int).filter(staged_of(uu, cc, bav)),
        decreases n - i,
    {
        let row = &db.batch_bsos[i];
        if row.user_id == user_id && row.collection_id == cid && crate::store::string_eq_str(
            &row.batch_id,
            batch.id.as_str(),
        ) {
            list.push(row.clone());
        }
        proof {
            reveal(Seq::filter);
            assert(db.batch_bsos@.take(i + 1).drop_last() =~= db.batch_bsos@.take(i as int));
            assert(db.batch_bsos@.take(i + 1).last() == db.batch_bsos@[i as int]);
            assert(list@ == db.batch_bsos@.take(i + 1).filter(staged_of(uu, cc, bav)));
        }
        i += 1;
    }
    proof {
        assert(db.batch_bsos@.take(n as int) =~= db.batch_bsos@);
        lemma_find_filter(s1.batch_bsos@, staged_key(), staged_of(uu, cc, bav));
        assert forall|k1: int, k2: int| 0 <= k1 < k2 < list@.len() implies #[trigger] list@[k1].id@
            != #[trigger] list@[k2].id@ by {
            lemma_filter_member_at(s1.batch_bsos@, staged_key(), staged_of(uu, cc, bav), k1);
            lemma_filter_member_at(s1.batch_bsos@, staged_key(), staged_of(uu, cc, bav), k2);
            assert(staged_key()(list@[k1]) != staged_key()(list@[k2])) by {
                assert(unique_by(
                    s1.batch_bsos@.filter(staged_of(uu, cc, bav)),
                    staged_key(),
                ));
            }
        }
        assert forall|k1: int| 0 <= k1 < list@.len() implies (#[trigger] list@[k1]).user_id
            == user_id && list@[k1].collection_id == cid && list@[k1].batch_id@ == bav by {
            lemma_filter_member_at(s1.batch_bsos@, staged_key(), staged_of(uu, cc, bav), k1);
        }
    }

    // Merge each staged record into live storage at timestamp t.
    let m = list.len();
    let mut k: usize = 0;
    while k < m
        invariant
            m == list@.len(),
            db.wf(),
            k <= m,
            uu == user_id as int,
            cc == cid as int,
            bav == batch.id@,
            0 <= t < TS_LIMIT,
            s1.wf(),
            s1.uc_at(uu, cc) matches Some(nn) && nn.modified == t,
            forall|k1: int, k2: int|
                0 <= k1 < k2 < list@.len() ==> #[trigger] list@[k1].id@ != #[trigger] list@[k2].id@,
            forall|k1: int|
                0 <= k1 < list@.len() ==> (#[trigger] list@[k1]).user_id == user_id
                    && list@[k1].collection_id == cid && list@[k1].batch_id@ == bav,
            forall|k2: int|
                0 <= k2 < k ==> ((#[trigger] db.bso_at(uu, cc, list@[k2].id@)) matches Some(nr)
                    && commit_row_ok(s1.get_bso_spec(uu, cc, list@[k2].id@), list@[k2], t, nr)),
            forall|b2: Seq<char>|
                #![trigger db.bso_at(uu, cc, b2)]
                (forall|k2: int| 0 <= k2 < k ==> (#[trigger] list@[k2].id@) != b2) ==> db.bso_at(
                    uu,
                    cc,
                    b2,
                ) == s1.bso_at(uu, cc, b2),
            forall|u2: int, c2: int, b2: Seq<char>|
                !(u2 == uu && c2 == cc) ==> #[trigger] db.bso_at(u2, c2, b2) == s1.bso_at(
                    u2,
                    c2,
                    b2,
                ),
            db.user_collections@ == s1.user_collections@,
            db.batches@ == s1.batches@,
            db.batch_bsos@ == s1.batch_bsos@,
            db.clock_ms == s1.clock_ms,
            Db::same_registry(s1, *db),
            Db::same_config(s1, *db),
        decreases m - k,
    {
        let s = list[k].clone();
        let ghost cur = *db;
        proof {
            assert(s == list@[k as int]);
            assert forall|k2: int| 0 <= k2 < k implies (#[trigger] list@[k2].id@) != s.id@ by {}
            assert(cur.bso_at(uu, cc, s.id@) == s1.bso_at(uu, cc, s.id@));
        }
        match db.find_bso(user_id, cid, &s.id) {
            Some(j) => {
                let expired = !(db.bsos[j].expiry > db.clock_ms);
                let o = db.bsos.remove(j);
                let nr = if expired {
                    let ttl_s: u32 = match s.ttl {
                        Some(tt) => tt,
                        None => crate::DEFAULT_BSO_TTL,
                    };
                    StoredBso {
                        user_id,
                        collection_id: cid,
                        id: o.id,
                        sortindex: s.sortindex,
                        payload: match s.payload {
                            Some(pp) => pp,
                            None => String::new(),
                        },
                        modified: t,
                        expiry: t + (ttl_s as i64) * 1000,
                    }
                } else {
                    StoredBso {
                        user_id,
                        collection_id: cid,
                        id: o.id,
                        sortindex: if s.sortindex.is_some() {
                            s.sortindex
                        } else {
                            o.sortindex
                        },
                        payload: match s.payload {
                            Some(pp) => pp,
                            None => o.payload,
                        },
                        modified: t,
                        expiry: match s.ttl {
                            Some(tt) => t + (tt as i64) * 1000,
                            None => o.expiry,
                        },
                    }
                };
                db.bsos.insert(j, nr);
                proof {
                    assert(db.bsos@ =~= cur.bsos@.update(j as int, nr));
                    lemma_find_update(cur.bsos@, bso_key(), j as int, nr);
                    assert(commit_row_ok(
                        s1.get_bso_spec(uu, cc, list@[k as int].id@),
                        list@[k as int],
                        t,
                        nr,
                    ));
                }
            },
            None => {
                let ttl_s: u32 = match s.ttl {
                    Some(tt) => tt,
                    None => crate::DEFAULT_BSO_TTL,
                };
                let nr = StoredBso {
                    user_id,
                    collection_id: cid,
                    id: s.id,
                    sortindex: s.sortindex,
                    payload: match s.payload {
                        Some(pp) => pp,
                        None => String::new(),
                    },
                    modified: t,
                    expiry: t + (ttl_s as i64) * 1000,
                };
                proof {
                    lemma_find_push(db.bsos@, bso_key(), nr);
                }
                db.bsos.push(nr);
                proof {
                    assert(commit_row_ok(
                        s1.get_bso_spec(uu, cc, list@[k as int].id@),
                        list@[k as int],
                        t,
                        nr,
                    ));
                }
            },
        }
        proof {
            let bi = list@[k as int].id@;
            assert forall|k2: int| 0 <= k2 < k + 1 implies (#[trigger] db.bso_at(
                uu,
                cc,
                list@[k2].id@,
            )) matches Some(nr) && commit_row_ok(
                s1.get_bso_spec(uu, cc, list@[k2].id@),
                list@[k2],
                t,
                nr,
            ) by {
                if k2 < k {
                    assert(list@[k2].id@ != bi);
                    assert(db.bso_at(uu, cc, list@[k2].id@) == cur.bso_at(uu, cc, list@[k2].id@));
                }
            }
            assert forall|b2: Seq<char>|
                #![trigger db.bso_at(uu, cc, b2)]
                (forall|k2: int| 0 <= k2 < k + 1 ==> (#[trigger] list@[k2].id@) != b2) implies db
                .bso_at(uu, cc, b2) == s1.bso_at(uu, cc, b2) by {
                assert(list@[k as int].id@ != b2);
                assert(db.bso_at(uu, cc, b2) == cur.bso_at(uu, cc, b2));
            }
            assert forall|u2: int, c2: int, b2: Seq<char>| !(u2 == uu && c2
                == cc) implies #[trigger] db.bso_at(u2, c2, b2) == s1.bso_at(u2, c2, b2) by {
                assert(db.bso_at(u2, c2, b2) == cur.bso_at(u2, c2, b2));
            }
            assert forall|i5: int| 0 <= i5 < db.bsos@.len() implies {
                let r5 = #[trigger] db.bsos@[i5];
                &&& 0 <= r5.modified < TS_LIMIT
                &&& match db.uc_at(r5.user_id as int, r5.collection_id as int) {
                    Some(uc) => r5.modified <= uc.modified,
                    None => false,
                }
            } by {
                let r5 = db.bsos@[i5];
                assert(db.uc_at(r5.user_id as int, r5.collection_id as int) == cur.uc_at(
                    r5.user_id as int,
                    r5.collection_id as int,
                ));
            }
        }
        k += 1;
    }

    // Drop the batch and its staged records.
    let ghost s2 = *db;
    let dres = delete_async(
        db,
        params::DeleteBatch { user_id, collection: collection.clone(), id: batch.id.clone() },
    );
    match dres {
        Ok(_) => {},
        Err(e) => {
            proof {
                assert(false);
            }
            return Err(e);
        },
    }
    let ghost s3 = *db;

    // Refresh quota counters.
    if db.quota_enabled {
        let qres = db.update_user_collection_quotas(user_id, cid);
        match qres {
            Ok(_) => {},
            Err(e) => {
                proof {
                    assert(false);
                }
                return Err(e);
            },
        }
    }
    let res = results::PostBsos { modified: t, success: Vec::new(), failed: Vec::new() };
    proof {
        lemma_commit_glue(pre, s1, s2, s3, *db, user_id, cid, batch.id, list@, t);
        assert(commit_post(pre, *db, user_id, cid, batch.id, res));
    }
    Ok(res)
}

/// Assembles the commit transition from its phases: the stamp, the merge
/// loop, the batch deletion, and the quota refresh.
proof fn lemma_commit_glue(
    pre: Db,
    s1: Db,
    s2: Db,
    s3: Db,
    post: Db,
    user_id: u32,
    cid: i32,
    batch_id: String,
    list: Seq<BatchBso>,
    t: i64,
)
    requires
        pre.wf(),
        s1.wf(),
        s2.wf(),
        s3.wf(),
        post.wf(),
        list == s1.batch_bsos@.filter(staged_of(user_id as int, cid as int, batch_id@)),
        s1.batch_bsos@ == pre.batch_bsos@,
        s1.batches@ == pre.batches@,
        s1.bsos@ == pre.bsos@,
        s1.clock_ms == pre.clock_ms,
        Db::same_registry(pre, s1),
        Db::same_config(pre, s1),
        forall|k2: int|
            0 <= k2 < list.len() ==> ((#[trigger] s2.bso_at(
                user_id as int,
                cid as int,
                list[k2].id@,
            )) matches Some(nr) && commit_row_ok(
                s1.get_bso_spec(user_id as int, cid as int, list[k2].id@),
                list[k2],
                t,
                nr,
            )),
        forall|b2: Seq<char>|
            #![trigger s2.bso_at(user_id as int, cid as int, b2)]
            (forall|k2: int| 0 <= k2 < list.len() ==> (#[trigger] list[k2].id@) != b2) ==> s2.bso_at(
                user_id as int,
                cid as int,
                b2,
            ) == s1.bso_at(user_id as int, cid as int, b2),
        forall|u2: int, c2: int, b2: Seq<char>|
            !(u2 == user_id as int && c2 == cid as int) ==> #[trigger] s2.bso_at(u2, c2, b2)
                == s1.bso_at(u2, c2, b2),
        s2.user_collections@ == s1.user_collections@,
        s2.batches@ == s1.batches@,
        s2.batch_bsos@ == s1.batch_bsos@,
        s2.clock_ms == s1.clock_ms,
        Db::same_registry(s1, s2),
        Db::same_config(s1, s2),
        s3.batches@ == s2.batches@.filter(
            batch_not_key(user_id as int, cid as int, batch_id@),
        ),
        s3.batch_bsos@ == s2.batch_bsos@.filter(
            staged_not_of(user_id as int, cid as int, batch_id@),
        ),
        s3.batch_at(user_id as int, cid as int, batch_id@) is None,
        forall|u2: int, c2: int, ba2: Seq<char>|
            !(u2 == user_id as int && c2 == cid as int && ba2 == batch_id@) ==> #[trigger] s3.batch_at(
                u2,
                c2,
                ba2,
            ) == s2.batch_at(u2, c2, ba2),
        forall|u2: int, c2: int, ba2: Seq<char>, b2: Seq<char>|
            !(u2 == user_id as int && c2 == cid as int && ba2 == batch_id@) ==> #[trigger] s3.staged_at(
                u2,
                c2,
                ba2,
                b2,
            ) == s2.staged_at(u2, c2, ba2, b2),
        s3.bsos@ == s2.bsos@,
        s3.user_collections@ == s2.user_collections@,
        Db::same_registry(s2, s3),
        Db::same_config(s2, s3),
        post.bsos@ == s3.bsos@,
        Db::same_batches(s3, post),
        Db::same_registry(s3, post),
        Db::same_config(s3, post),
        forall|u2: int, c2: int|
            !(u2 == user_id as int && c2 == cid as int) ==> #[trigger] post.uc_at(u2, c2)
                == s3.uc_at(u2, c2),
        s1.uc_at(user_id as int, cid as int) matches Some(nn) && nn.modified == t && nn.user_id
            == user_id && nn.collection_id == cid,
        forall|u2: int, c2: int|
            !(u2 == user_id as int && c2 == cid as int) ==> #[trigger] s1.uc_at(u2, c2)
                == pre.uc_at(u2, c2),
        t as int == commit_ts(pre, user_id as int, cid as int),
        (match pre.uc_at(user_id as int, cid as int) {
            Some(o) => t > o.modified && s1.uc_at(user_id as int, cid as int)->Some_0.count
                == o.count && s1.uc_at(user_id as int, cid as int)->Some_0.total_bytes
                == o.total_bytes,
            None => s1.uc_at(user_id as int, cid as int)->Some_0.count == 0 && s1.uc_at(
                user_id as int,
                cid as int,
            )->Some_0.total_bytes == 0,
        }),
        (if pre.quota_enabled {
            post.uc_at(user_id as int, cid as int) matches Some(n) && n.modified == t && n.count
                as int == crate::store::live_count_of(
                s3.bsos@,
                user_id as int,
                cid as int,
                s3.clock_ms as int,
            ) && n.total_bytes as int == crate::store::clamp_u64(
                crate::store::live_bytes_of(
                    s3.bsos@,
                    user_id as int,
                    cid as int,
                    s3.clock_ms as int,
                ),
            )
        } else {
            post.uc_at(user_id as int, cid as int) == s3.uc_at(user_id as int, cid as int)
        }),
    ensures
        forall|res: results::PostBsos|
            res.modified == t && res.success@.len() == 0 && res.failed@.len() == 0
                ==> #[trigger] commit_post(pre, post, user_id, cid, batch_id, res),
{
    let u = user_id as int;
    let c = cid as int;
    let ba = batch_id@;
    lemma_find_filter(s1.batch_bsos@, staged_key(), staged_of(u, c, ba));
    lemma_find_filter(s2.batch_bsos@, staged_key(), staged_not_of(u, c, ba));

    assert forall|i: int|
        0 <= i < pre.bsos@.len() && (#[trigger] pre.bsos@[i]).user_id as int == u
            && pre.bsos@[i].collection_id as int == c implies pre.bsos@[i].modified < t by {
        assert(match pre.uc_at(u, c) {
            Some(uc) => pre.bsos@[i].modified <= uc.modified,
            None => false,
        });
    }

    assert forall|b2: Seq<char>|
        #![trigger post.bso_at(u, c, b2)]
        true implies match pre.staged_at(u, c, ba, b2) {
        Some(s) => post.bso_at(u, c, b2) matches Some(nr) && commit_row_ok(
            pre.get_bso_spec(u, c, b2),
            s,
            t,
            nr,
        ),
        None => post.bso_at(u, c, b2) == pre.bso_at(u, c, b2),
    } by {
        assert(post.bso_at(u, c, b2) == s2.bso_at(u, c, b2));
        assert(s1.bso_at(u, c, b2) == pre.bso_at(u, c, b2));
        assert(s1.get_bso_spec(u, c, b2) == pre.get_bso_spec(u, c, b2));
        assert(s1.staged_at(u, c, ba, b2) == pre.staged_at(u, c, ba, b2));
        match pre.staged_at(u, c, ba, b2) {
            Some(s) => {
                assert(find_by(s1.batch_bsos@, staged_key(), (u, c, ba, b2)) == Some(s));
                assert(staged_key()(s) == (u, c, ba, b2));
                assert(staged_of(u, c, ba)(s));
                assert(find_by(list, staged_key(), (u, c, ba, b2)) == Some(s));
                assert(has_key(list, staged_key(), (u, c, ba, b2)));
                let k = choose|k: int|
                    0 <= k < list.len() && #[trigger] staged_key()(list[k]) == (u, c, ba, b2);
                assert(list[k] == s);
                assert(list[k].id@ == b2);
                assert(s2.bso_at(u, c, list[k].id@) matches Some(nr) && commit_row_ok(
                    s1.get_bso_spec(u, c, list[k].id@),
                    list[k],
                    t,
                    nr,
                ));
            },
            None => {
                assert forall|k2: int| 0 <= k2 < list.len() implies (#[trigger] list[k2].id@)
                    != b2 by {
                    if list[k2].id@ == b2 {
                        lemma_filter_member_at(
                            s1.batch_bsos@,
                            staged_key(),
                            staged_of(u, c, ba),
                            k2,
                        );
                        let j = choose|j: int|
                            0 <= j < s1.batch_bsos@.len() && s1.batch_bsos@.filter(
                                staged_of(u, c, ba),
                            )[k2] == #[trigger] s1.batch_bsos@[j];
                        assert(s1.batch_bsos@[j] == list[k2]);
                        assert(staged_key()(s1.batch_bsos@[j]) == (u, c, ba, b2));
                        assert(has_key(s1.batch_bsos@, staged_key(), (u, c, ba, b2)));
                        assert(false);
                    }
                }
                assert(s2.bso_at(u, c, b2) == s1.bso_at(u, c, b2));
            },
        }
    }

    assert forall|u2: int, c2: int, b2: Seq<char>| !(u2 == u && c2 == c) implies #[trigger] post
        .bso_at(u2, c2, b2) == pre.bso_at(u2, c2, b2) by {
        assert(post.bso_at(u2, c2, b2) == s2.bso_at(u2, c2, b2));
        assert(s1.bso_at(u2, c2, b2) == pre.bso_at(u2, c2, b2));
    }

    assert(post.batch_at(u, c, ba) == s3.batch_at(u, c, ba));
    assert forall|u2: int, c2: int, ba2: Seq<char>| !(u2 == u && c2 == c && ba2
        == ba) implies #[trigger] post.batch_at(u2, c2, ba2) == pre.batch_at(u2, c2, ba2) by {
        assert(post.batch_at(u2, c2, ba2) == s3.batch_at(u2, c2, ba2));
        assert(s2.batch_at(u2, c2, ba2) == pre.batch_at(u2, c2, ba2));
    }

    assert forall|b2: Seq<char>| true implies #[trigger] post.staged_at(u, c, ba, b2) is None by {
        assert(post.staged_at(u, c, ba, b2) == s3.staged_at(u, c, ba, b2));
        match find_by(s2.batch_bsos@, staged_key(), (u, c, ba, b2)) {
            Some(t0) => {
                assert(staged_key()(t0) == (u, c, ba, b2));
                assert(!(staged_not_of(u, c, ba)(t0)));
            },
            None => {},
        }
    }
    assert forall|u2: int, c2: int, ba2: Seq<char>, b2: Seq<char>| !(u2 == u && c2 == c && ba2
        == ba) implies #[trigger] post.staged_at(u2, c2, ba2, b2) == pre.staged_at(
        u2,
        c2,
        ba2,
        b2,
    ) by {
        assert(post.staged_at(u2, c2, ba2, b2) == s3.staged_at(u2, c2, ba2, b2));
        assert(s2.staged_at(u2, c2, ba2, b2) == pre.staged_at(u2, c2, ba2, b2));
    }

    assert(s3.uc_at(u, c) == s1.uc_at(u, c));
    if !pre.quota_enabled {
        assert(post.uc_at(u, c) == s3.uc_at(u, c));
    }
    assert forall|u2: int, c2: int| !(u2 == u && c2 == c) implies #[trigger] post.uc_at(u2, c2)
        == pre.uc_at(u2, c2) by {
        assert(post.uc_at(u2, c2) == s3.uc_at(u2, c2));
        assert(s3.uc_at(u2, c2) == s1.uc_at(u2, c2));
    }
}

} // verus!
