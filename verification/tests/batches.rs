//! Batch protocol behaviour: create, append, validate, commit, delete,
//! quota enforcement, and batch-id validation.
use syncstorage::batch::{
    append_async, commit_async, create_async, delete_async, get_async, validate_async,
    validate_batch_id,
};
use syncstorage::error::DbErrorKind;
use syncstorage::params::{
    AppendToBatch, CommitBatch, CreateBatch, DeleteBatch, GetBatch, GetBso, PostCollectionBso,
    ValidateBatch,
};
use syncstorage::results;
use syncstorage::store::Db;

const TS0: i64 = 2_000_000_000_000;

fn post_bso(bid: &str, payload: Option<&str>, sortindex: Option<i32>, ttl: Option<u32>) -> PostCollectionBso {
    PostCollectionBso {
        id: bid.to_owned(),
        payload: payload.map(str::to_owned),
        sortindex,
        ttl,
    }
}

fn gbso(user_id: u32, cid: i32, bid: &str) -> GetBso {
    GetBso { user_id, collection_id: cid, id: bid.to_owned() }
}

fn batch_arg(r: &results::CreateBatch) -> results::CreateBatch {
    results::CreateBatch { id: r.id.clone(), size: r.size }
}

#[test]
fn batch_create_append_commit_atomicity() {
    let mut db = Db::new();
    db.set_timestamp(TS0);

    let uid = 1;
    let a = post_bso("A", Some("payload-a"), Some(1), None);
    let b = post_bso("B", Some("payload-b"), Some(2), None);
    let created = create_async(
        &mut db,
        CreateBatch { user_id: uid, collection: "clients".to_owned(), bsos: vec![a, b] },
    )
    .unwrap();
    assert_eq!(created.id.len(), 32);

    let c = post_bso("C", Some("payload-c"), None, None);
    let a2 = post_bso("A", Some("payload-a2"), None, None);
    append_async(
        &mut db,
        AppendToBatch {
            user_id: uid,
            collection: "clients".to_owned(),
            batch: batch_arg(&created),
            bsos: vec![c, a2],
        },
    )
    .unwrap();

    // nothing is live before the commit
    let cid = db.get_collection_id("clients").unwrap();
    assert!(db.get_bso_sync(&gbso(uid, cid, "A")).unwrap().is_none());

    let committed = commit_async(
        &mut db,
        CommitBatch {
            user_id: uid,
            collection: "clients".to_owned(),
            batch: batch_arg(&created),
        },
    )
    .unwrap();

    let got_a = db.get_bso_sync(&gbso(uid, cid, "A")).unwrap().unwrap();
    let got_b = db.get_bso_sync(&gbso(uid, cid, "B")).unwrap().unwrap();
    let got_c = db.get_bso_sync(&gbso(uid, cid, "C")).unwrap().unwrap();
    assert_eq!(got_a.payload, "payload-a2");
    assert_eq!(got_a.sortindex, Some(1));
    assert_eq!(got_b.payload, "payload-b");
    assert_eq!(got_c.payload, "payload-c");
    assert_eq!(got_a.modified, committed.modified);
    assert_eq!(got_b.modified, committed.modified);
    assert_eq!(got_c.modified, committed.modified);

    // the batch and its staged records are gone
    let still_there = validate_async(
        &mut db,
        ValidateBatch { user_id: uid, collection: "clients".to_owned(), id: created.id.clone() },
    )
    .unwrap();
    assert!(!still_there);
}

#[test]
fn batch_commit_is_fresher_than_prior_writes() {
    let mut db = Db::new();
    db.set_timestamp(TS0);

    let uid = 1;
    db.put_bso_sync(&syncstorage::params::PutBso {
        user_id: uid,
        collection_id: 1,
        id: "old".to_owned(),
        payload: Some("x".to_owned()),
        sortindex: None,
        ttl: None,
        modified: TS0,
    })
    .unwrap();

    let created = create_async(
        &mut db,
        CreateBatch {
            user_id: uid,
            collection: "clients".to_owned(),
            bsos: vec![post_bso("n", Some("y"), None, None)],
        },
    )
    .unwrap();
    let committed = commit_async(
        &mut db,
        CommitBatch {
            user_id: uid,
            collection: "clients".to_owned(),
            batch: batch_arg(&created),
        },
    )
    .unwrap();
    assert!(committed.modified > TS0);
    // the clock did not advance, so the stamp is the stored value bumped by one
    assert_eq!(committed.modified, TS0 + 1);
}

#[test]
fn batch_validate_and_delete() {
    let mut db = Db::new();
    db.set_timestamp(TS0);

    let uid = 1;
    let created = create_async(
        &mut db,
        CreateBatch { user_id: uid, collection: "tabs".to_owned(), bsos: vec![] },
    )
    .unwrap();

    assert!(validate_async(
        &mut db,
        ValidateBatch { user_id: uid, collection: "tabs".to_owned(), id: created.id.clone() },
    )
    .unwrap());

    let got = get_async(
        &mut db,
        GetBatch { user_id: uid, collection: "tabs".to_owned(), id: created.id.clone() },
    )
    .unwrap();
    assert!(got.is_some());

    delete_async(
        &mut db,
        DeleteBatch { user_id: uid, collection: "tabs".to_owned(), id: created.id.clone() },
    )
    .unwrap();

    assert!(!validate_async(
        &mut db,
        ValidateBatch { user_id: uid, collection: "tabs".to_owned(), id: created.id.clone() },
    )
    .unwrap());
}

#[test]
fn batch_expires_with_the_clock() {
    let mut db = Db::new();
    db.set_timestamp(TS0);

    let uid = 1;
    let created = create_async(
        &mut db,
        CreateBatch { user_id: uid, collection: "tabs".to_owned(), bsos: vec![] },
    )
    .unwrap();

    // move past the batch lifetime: the batch reads as absent
    db.set_timestamp(TS0 + syncstorage::BATCH_LIFETIME + 1);
    let err = append_async(
        &mut db,
        AppendToBatch {
            user_id: uid,
            collection: "tabs".to_owned(),
            batch: batch_arg(&created),
            bsos: vec![post_bso("z", Some("p"), None, None)],
        },
    )
    .unwrap_err();
    match err.kind() {
        DbErrorKind::BatchNotFound => {}
        _ => panic!("expected BatchNotFound"),
    }
}

#[test]
fn append_to_missing_batch_fails() {
    let mut db = Db::new();
    db.set_timestamp(TS0);

    let err = append_async(
        &mut db,
        AppendToBatch {
            user_id: 1,
            collection: "clients".to_owned(),
            batch: results::CreateBatch { id: "0123456789abcdef0123456789abcdef".to_owned(), size: None },
            bsos: vec![],
        },
    )
    .unwrap_err();
    match err.kind() {
        DbErrorKind::BatchNotFound => {}
        _ => panic!("expected BatchNotFound"),
    }
}

#[test]
fn batch_quota_enforced_on_append() {
    let mut db = Db::with_quota(1000);
    db.set_timestamp(TS0);

    let uid = 1;
    // 500 bytes of payload commit fine under a 1000-byte ceiling
    let big = "x".repeat(500);
    let created = create_async(
        &mut db,
        CreateBatch {
            user_id: uid,
            collection: "history".to_owned(),
            bsos: vec![post_bso("one", Some(&big), None, None)],
        },
    )
    .unwrap();
    assert_eq!(created.size, Some(0));
    commit_async(
        &mut db,
        CommitBatch {
            user_id: uid,
            collection: "history".to_owned(),
            batch: batch_arg(&created),
        },
    )
    .unwrap();

    // a second batch sees the 500 stored bytes; 600 more would reach 1000
    let created2 = create_async(
        &mut db,
        CreateBatch { user_id: uid, collection: "history".to_owned(), bsos: vec![] },
    )
    .unwrap();
    assert_eq!(created2.size, Some(500));
    let too_big = "y".repeat(600);
    let err = append_async(
        &mut db,
        AppendToBatch {
            user_id: uid,
            collection: "history".to_owned(),
            batch: batch_arg(&created2),
            bsos: vec![post_bso("two", Some(&too_big), None, None)],
        },
    )
    .unwrap_err();
    match err.kind() {
        DbErrorKind::Quota { collection } => assert_eq!(collection, "history"),
        _ => panic!("expected Quota"),
    }

    // the failing append staged nothing: committing the batch adds no record
    let cid = db.get_collection_id("history").unwrap();
    commit_async(
        &mut db,
        CommitBatch {
            user_id: uid,
            collection: "history".to_owned(),
            batch: batch_arg(&created2),
        },
    )
    .unwrap();
    assert!(db.get_bso_sync(&gbso(uid, cid, "two")).unwrap().is_none());
}

#[test]
fn pretouch_is_invisible_in_modification_times() {
    let mut db = Db::new();
    db.set_timestamp(TS0);

    let uid = 1;
    create_async(
        &mut db,
        CreateBatch { user_id: uid, collection: "forms".to_owned(), bsos: vec![] },
    )
    .unwrap();

    // the pretouched collection does not appear in modification listings
    let cols = db
        .get_collections_modified_sync(&syncstorage::params::GetCollections { user_id: uid })
        .unwrap();
    assert!(cols.is_empty());
    assert_eq!(db.get_storage_modified_sync(uid).unwrap(), TS0);
    let err = db.get_collection_modified_sync(uid, 3).unwrap_err();
    match err.kind() {
        DbErrorKind::CollectionNotFound => {}
        _ => panic!("expected CollectionNotFound"),
    }
}

#[test]
fn batch_id_validation() {
    assert!(validate_batch_id("0123456789abcdef0123456789abcdef").is_ok());
    assert!(validate_batch_id("550e8400-e29b-41d4-a716-446655440000").is_ok());
    let err = validate_batch_id("not-a-uuid").unwrap_err();
    match err.kind() {
        DbErrorKind::Internal => {}
        _ => panic!("expected Internal"),
    }
}
