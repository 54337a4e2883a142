//! The library's laws: properties that relate several operations, stated
//! over the same spec functions the operations' contracts use, and proved
//! from them.
use vstd::prelude::*;

use crate::batch::{commit_post, commit_row_ok, staged_after};
use crate::keyed::{find_by, has_key, lemma_find_at};
use crate::params;
use crate::results;
use crate::store::{bso_key, col_name_key, fresh_store, put_post, ttl_secs, Db, StoredBso};

verus! {

/// On a fresh store the thirteen reserved names resolve to ids 1 through
/// 13, and no other name resolves at all.
pub proof fn lemma_reserved_collections(db: Db)
    requires
        db.wf(),
        fresh_store(db),
    ensures
        db.col_by_name("clients"@) matches Some(c) && c.id == 1,
        db.col_by_name("crypto"@) matches Some(c) && c.id == 2,
        db.col_by_name("forms"@) matches Some(c) && c.id == 3,
        db.col_by_name("history"@) matches Some(c) && c.id == 4,
        db.col_by_name("keys"@) matches Some(c) && c.id == 5,
        db.col_by_name("meta"@) matches Some(c) && c.id == 6,
        db.col_by_name("bookmarks"@) matches Some(c) && c.id == 7,
        db.col_by_name("prefs"@) matches Some(c) && c.id == 8,
        db.col_by_name("tabs"@) matches Some(c) && c.id == 9,
        db.col_by_name("passwords"@) matches Some(c) && c.id == 10,
        db.col_by_name("addons"@) matches Some(c) && c.id == 11,
        db.col_by_name("addresses"@) matches Some(c) && c.id == 12,
        db.col_by_name("creditcards"@) matches Some(c) && c.id == 13,
        forall|nm: Seq<char>|
            #[trigger] db.col_by_name(nm) is Some ==> (nm == "clients"@ || nm == "crypto"@ || nm
                == "forms"@ || nm == "history"@ || nm == "keys"@ || nm == "meta"@ || nm
                == "bookmarks"@ || nm == "prefs"@ || nm == "tabs"@ || nm == "passwords"@ || nm
                == "addons"@ || nm == "addresses"@ || nm == "creditcards"@),
{
    let s = db.collections@;
    assert forall|i: int| 0 <= i < 13 implies find_by(s, col_name_key(), s[i].name@) == Some(
        s[i],
    ) by {
        lemma_find_at(s, col_name_key(), i);
    }
    assert(db.col_by_name("clients"@) == Some(s[0]));
    assert(db.col_by_name("crypto"@) == Some(s[1]));
    assert(db.col_by_name("forms"@) == Some(s[2]));
    assert(db.col_by_name("history"@) == Some(s[3]));
    assert(db.col_by_name("keys"@) == Some(s[4]));
    assert(db.col_by_name("meta"@) == Some(s[5]));
    assert(db.col_by_name("bookmarks"@) == Some(s[6]));
    assert(db.col_by_name("prefs"@) == Some(s[7]));
    assert(db.col_by_name("tabs"@) == Some(s[8]));
    assert(db.col_by_name("passwords"@) == Some(s[9]));
    assert(db.col_by_name("addons"@) == Some(s[10]));
    assert(db.col_by_name("addresses"@) == Some(s[11]));
    assert(db.col_by_name("creditcards"@) == Some(s[12]));
    assert forall|nm: Seq<char>| #[trigger] db.col_by_name(nm) is Some implies (nm == "clients"@
        || nm == "crypto"@ || nm == "forms"@ || nm == "history"@ || nm == "keys"@ || nm == "meta"@
        || nm == "bookmarks"@ || nm == "prefs"@ || nm == "tabs"@ || nm == "passwords"@ || nm
        == "addons"@ || nm == "addresses"@ || nm == "creditcards"@) by {
        assert(has_key(s, col_name_key(), nm));
        let i = choose|i: int| 0 <= i < s.len() && #[trigger] col_name_key()(s[i]) == nm;
        assert(s[i].name@ == nm);
    }
}

/// A write that omits the payload leaves `modified` untouched, and changes
/// `expiry` exactly when it supplies a ttl, recomputed from the incoming
/// timestamp.
pub proof fn lemma_ttl_touch_preserves_modified(pre: Db, post: Db, p: params::PutBso, o: StoredBso)
    requires
        put_post(pre, post, p),
        p.payload is None,
        pre.bso_at(p.user_id as int, p.collection_id as int, p.id@) == Some(o),
    ensures
        post.bso_at(p.user_id as int, p.collection_id as int, p.id@) matches Some(n) && {
            &&& n.modified == o.modified
            &&& n.payload@ == o.payload@
            &&& (p.ttl is None ==> n.expiry == o.expiry)
            &&& (p.ttl matches Some(tt) ==> n.expiry as int == p.modified + (tt as int) * 1000)
        },
{
}

/// Put then get: a write that supplies every field is read back exactly,
/// whatever stood there before, as long as it has not expired.
pub proof fn lemma_put_then_get(pre: Db, post: Db, p: params::PutBso)
    requires
        put_post(pre, post, p),
        p.payload is Some,
        p.sortindex is Some,
        p.ttl is Some,
        p.modified + ttl_secs(p.ttl) * 1000 > post.clock_ms,
    ensures
        post.get_bso_spec(p.user_id as int, p.collection_id as int, p.id@) matches Some(row) && {
            &&& row.payload@ == p.payload->0@
            &&& row.sortindex == p.sortindex
            &&& row.modified == p.modified
            &&& row.expiry as int == p.modified + ttl_secs(p.ttl) * 1000
        },
{
}

/// A commit stamps a timestamp strictly greater than the collection's
/// stored modification time and than every record it held.
pub proof fn lemma_commit_is_fresher(
    pre: Db,
    post: Db,
    user_id: u32,
    cid: i32,
    batch_id: String,
    res: results::PostBsos,
)
    requires
        commit_post(pre, post, user_id, cid, batch_id, res),
    ensures
        match pre.uc_at(user_id as int, cid as int) {
            Some(o) => res.modified > o.modified,
            None => true,
        },
        forall|i: int|
            0 <= i < pre.bsos@.len() && (#[trigger] pre.bsos@[i]).user_id as int == user_id as int
                && pre.bsos@[i].collection_id as int == cid as int ==> pre.bsos@[i].modified
                < res.modified,
{
}

/// After a commit the summary row's `modified` bounds every record the
/// collection holds, and is attained by each record the batch merged: the
/// collection's modification time is the maximum over its records.
pub proof fn lemma_commit_tracks_collection_max(
    pre: Db,
    post: Db,
    user_id: u32,
    cid: i32,
    batch_id: String,
    res: results::PostBsos,
)
    requires
        pre.wf(),
        post.wf(),
        commit_post(pre, post, user_id, cid, batch_id, res),
    ensures
        post.uc_at(user_id as int, cid as int) matches Some(n) && n.modified == res.modified,
        forall|i: int|
            0 <= i < post.bsos@.len() && (#[trigger] post.bsos@[i]).user_id as int == user_id as int
                && post.bsos@[i].collection_id as int == cid as int ==> post.bsos@[i].modified
                <= res.modified,
        forall|b0: Seq<char>|
            #[trigger] pre.staged_at(user_id as int, cid as int, batch_id@, b0) is Some ==> (
            post.bso_at(user_id as int, cid as int, b0) matches Some(nr) && nr.modified
                == res.modified),
{
    let u = user_id as int;
    let c = cid as int;
    let t = res.modified;
    assert forall|i: int|
        0 <= i < post.bsos@.len() && (#[trigger] post.bsos@[i]).user_id as int == u
            && post.bsos@[i].collection_id as int == c implies post.bsos@[i].modified <= t by {
        let r = post.bsos@[i];
        lemma_find_at(post.bsos@, bso_key(), i);
        assert(post.bso_at(u, c, r.id@) == Some(r));
        match pre.staged_at(u, c, batch_id@, r.id@) {
            Some(s) => {
                assert(r.modified == t);
            },
            None => {
                assert(post.bso_at(u, c, r.id@) == pre.bso_at(u, c, r.id@));
                assert(has_key(pre.bsos@, bso_key(), (u, c, r.id@)));
                let j = choose|j: int|
                    0 <= j < pre.bsos@.len() && #[trigger] bso_key()(pre.bsos@[j]) == (u, c, r.id@);
                assert(pre.bsos@[j] == r);
                assert(pre.bsos@[j].modified < t);
            },
        }
    }
}

/// A payload-carrying write stamped at least as new as the collection's
/// modification time leaves the summary row equal to the maximum `modified`
/// among the collection's records, attained by the written record.
pub proof fn lemma_put_tracks_collection_max(pre: Db, post: Db, p: params::PutBso)
    requires
        pre.wf(),
        post.wf(),
        put_post(pre, post, p),
        p.payload is Some,
        match pre.uc_at(p.user_id as int, p.collection_id as int) {
            Some(o) => p.modified >= o.modified,
            None => true,
        },
    ensures
        post.uc_at(p.user_id as int, p.collection_id as int) matches Some(n) && n.modified
            == p.modified,
        forall|i: int|
            0 <= i < post.bsos@.len() && (#[trigger] post.bsos@[i]).user_id == p.user_id
                && post.bsos@[i].collection_id == p.collection_id ==> post.bsos@[i].modified
                <= p.modified,
        post.bso_at(p.user_id as int, p.collection_id as int, p.id@) matches Some(nr)
            && nr.modified == p.modified,
{
    let u = p.user_id as int;
    let c = p.collection_id as int;
    assert forall|i: int|
        0 <= i < post.bsos@.len() && (#[trigger] post.bsos@[i]).user_id == p.user_id
            && post.bsos@[i].collection_id == p.collection_id implies post.bsos@[i].modified
        <= p.modified by {
        let r = post.bsos@[i];
        lemma_find_at(post.bsos@, bso_key(), i);
        assert(post.bso_at(u, c, r.id@) == Some(r));
        if r.id@ != p.id@ {
            assert(post.bso_at(u, c, r.id@) == pre.bso_at(u, c, r.id@));
            assert(has_key(pre.bsos@, bso_key(), (u, c, r.id@)));
            let j = choose|j: int|
                0 <= j < pre.bsos@.len() && #[trigger] bso_key()(pre.bsos@[j]) == (u, c, r.id@);
            assert(pre.bsos@[j] == r);
            assert(match pre.uc_at(u, c) {
                Some(uc) => r.modified <= uc.modified,
                None => false,
            });
        }
    }
}

/// Create, append, commit: the records a committed batch merges are exactly
/// the fold of everything staged under it — the lists of the create and of
/// the append, deduplicated by id with later entries winning field by
/// field — and no other record moves.
pub proof fn lemma_create_append_commit(
    s0: Db,
    s1: Db,
    s2: Db,
    s3: Db,
    p1: params::CreateBatch,
    res1: results::CreateBatch,
    bsos2: Seq<params::PostCollectionBso>,
    res: results::PostBsos,
)
    requires
        crate::batch::create_post(s0, s1, p1, res1.id, res1),
        crate::batch::append_post(
            s1,
            s2,
            p1.user_id,
            crate::batch::created_cid(s0, p1.collection@),
            res1.id,
            bsos2,
        ),
        commit_post(
            s2,
            s3,
            p1.user_id,
            crate::batch::created_cid(s0, p1.collection@),
            res1.id,
            res,
        ),
        forall|bid: Seq<char>|
            #[trigger] s0.staged_at(
                p1.user_id as int,
                crate::batch::created_cid(s0, p1.collection@) as int,
                res1.id@,
                bid,
            ) is None,
    ensures
        forall|b2: Seq<char>|
            #![trigger s3.bso_at(p1.user_id as int, crate::batch::created_cid(s0, p1.collection@) as int, b2)]
            match staged_after(
                s0,
                p1.user_id,
                crate::batch::created_cid(s0, p1.collection@),
                res1.id,
                p1.bsos@ + bsos2,
                b2,
            ) {
                Some(s) => s3.bso_at(
                    p1.user_id as int,
                    crate::batch::created_cid(s0, p1.collection@) as int,
                    b2,
                ) matches Some(nr) && commit_row_ok(
                    s2.get_bso_spec(
                        p1.user_id as int,
                        crate::batch::created_cid(s0, p1.collection@) as int,
                        b2,
                    ),
                    s,
                    res.modified,
                    nr,
                ),
                None => s3.bso_at(
                    p1.user_id as int,
                    crate::batch::created_cid(s0, p1.collection@) as int,
                    b2,
                ) == s2.bso_at(
                    p1.user_id as int,
                    crate::batch::created_cid(s0, p1.collection@) as int,
                    b2,
                ),
            },
{
    let uid = p1.user_id;
    let cid = crate::batch::created_cid(s0, p1.collection@);
    let u = uid as int;
    let c = cid as int;
    assert forall|b2: Seq<char>|
        #![trigger s3.bso_at(u, c, b2)]
        true implies match staged_after(s0, uid, cid, res1.id, p1.bsos@ + bsos2, b2) {
        Some(s) => s3.bso_at(u, c, b2) matches Some(nr) && commit_row_ok(
            s2.get_bso_spec(u, c, b2),
            s,
            res.modified,
            nr,
        ),
        None => s3.bso_at(u, c, b2) == s2.bso_at(u, c, b2),
    } by {
        lemma_staged_after_chain(s0, s1, uid, cid, res1.id, p1.bsos@, bsos2, b2);
        assert(s2.staged_at(u, c, res1.id@, b2) == staged_after(
            s1,
            uid,
            cid,
            res1.id,
            bsos2,
            b2,
        ));
        assert(s2.staged_at(u, c, res1.id@, b2) == staged_after(
            s0,
            uid,
            cid,
            res1.id,
            p1.bsos@ + bsos2,
            b2,
        ));
    }
}

/// Folding a second list of staged writes continues the fold of the first.
proof fn lemma_staged_after_chain(
    pre: Db,
    mid: Db,
    user_id: u32,
    collection_id: i32,
    batch_id: String,
    a: Seq<params::PostCollectionBso>,
    b: Seq<params::PostCollectionBso>,
    bid: Seq<char>,
)
    requires
        mid.staged_at(user_id as int, collection_id as int, batch_id@, bid) == staged_after(
            pre,
            user_id,
            collection_id,
            batch_id,
            a,
            bid,
        ),
    ensures
        staged_after(mid, user_id, collection_id, batch_id, b, bid) == staged_after(
            pre,
            user_id,
            collection_id,
            batch_id,
            a + b,
            bid,
        ),
    decreases b.len(),
{
    if b.len() == 0 {
        assert(a + b =~= a);
    } else {
        lemma_staged_after_chain(pre, mid, user_id, collection_id, batch_id, a, b.drop_last(), bid);
        assert((a + b).drop_last() =~= a + b.drop_last());
        assert((a + b).last() == b.last());
    }
}

} // verus!
