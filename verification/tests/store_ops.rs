//! Record store behaviour: upserts with partial-field rules, reads, TTL
//! handling, and targeted deletion.
use syncstorage::params::{GetBso, PutBso};
use syncstorage::store::Db;

const TS0: i64 = 2_000_000_000_000;

fn pbso_at(
    modified: i64,
    user_id: u32,
    cid: i32,
    bid: &str,
    payload: Option<&str>,
    sortindex: Option<i32>,
    ttl: Option<u32>,
) -> PutBso {
    PutBso {
        user_id,
        collection_id: cid,
        id: bid.to_owned(),
        payload: payload.map(str::to_owned),
        sortindex,
        ttl,
        modified,
    }
}

fn pbso(
    user_id: u32,
    cid: i32,
    bid: &str,
    payload: Option<&str>,
    sortindex: Option<i32>,
    ttl: Option<u32>,
) -> PutBso {
    pbso_at(TS0, user_id, cid, bid, payload, sortindex, ttl)
}

fn gbso(user_id: u32, cid: i32, bid: &str) -> GetBso {
    GetBso { user_id, collection_id: cid, id: bid.to_owned() }
}

#[test]
fn bso_successfully_updates_single_values() {
    let mut db = Db::new();
    db.set_timestamp(TS0);

    let uid = 1;
    let cid = 1;
    let bid = "testBSO";
    let sortindex = 1;
    let ttl = 3600 * 1000;
    let bso1 = pbso(uid, cid, bid, Some("initial value"), Some(sortindex), Some(ttl));
    db.put_bso_sync(&bso1).unwrap();

    let payload = "Updated payload";
    let bso2 = pbso(uid, cid, bid, Some(payload), None, None);
    db.put_bso_sync(&bso2).unwrap();

    let bso = db.get_bso_sync(&gbso(uid, cid, bid)).unwrap().unwrap();
    assert_eq!(bso.modified, bso2.modified);
    assert_eq!(bso.payload, payload);
    assert_eq!(bso.sortindex, Some(sortindex));
    assert_eq!(bso.expiry, bso1.modified + (ttl as i64) * 1000);

    let sortindex = 2;
    let bso2 = pbso(uid, cid, bid, None, Some(sortindex), None);
    db.put_bso_sync(&bso2).unwrap();
    let bso = db.get_bso_sync(&gbso(uid, cid, bid)).unwrap().unwrap();
    assert_eq!(bso.modified, bso2.modified);
    assert_eq!(bso.payload, payload);
    assert_eq!(bso.sortindex, Some(sortindex));
    assert_eq!(bso.expiry, bso1.modified + (ttl as i64) * 1000);
}

#[test]
fn bso_modified_not_changed_on_ttl_touch() {
    let mut db = Db::new();
    db.set_timestamp(TS0);

    let uid = 1;
    let cid = 1;
    let bid = "testBSO";

    let bso1 = pbso_at(TS0 - 100, uid, cid, bid, Some("hello"), Some(1), Some(10));
    db.put_bso_sync(&bso1).unwrap();

    let bso2 = pbso(uid, cid, bid, None, None, Some(15));
    db.put_bso_sync(&bso2).unwrap();
    let bso = db.get_bso_sync(&gbso(uid, cid, bid)).unwrap().unwrap();
    // ttl has changed
    assert_eq!(bso.expiry, bso2.modified + 15 * 1000);
    // modified has not changed
    assert_eq!(bso.modified, bso1.modified);
}

#[test]
fn put_bso_updates() {
    let mut db = Db::new();
    db.set_timestamp(TS0);

    let uid = 1;
    let cid = 1;
    let bid = "1";
    let bso1 = pbso(uid, cid, bid, Some("initial"), None, None);
    db.put_bso_sync(&bso1).unwrap();

    let bso2 = pbso(uid, cid, bid, Some("Updated"), Some(100), None);
    db.put_bso_sync(&bso2).unwrap();

    let bso = db.get_bso_sync(&gbso(uid, cid, bid)).unwrap().unwrap();
    assert_eq!(Some(bso.payload), bso2.payload);
    assert_eq!(bso.sortindex, bso2.sortindex);
    assert_eq!(bso.modified, bso2.modified);
}

#[test]
fn partial_update_keeps_initial_expiry() {
    let mut db = Db::new();
    db.set_timestamp(TS0);

    let first = pbso(1, 1, "x", Some("initial"), Some(1), Some(3600));
    db.put_bso_sync(&first).unwrap();
    let second = pbso_at(TS0 + 5, 1, 1, "x", Some("Updated"), None, None);
    db.put_bso_sync(&second).unwrap();

    let bso = db.get_bso_sync(&gbso(1, 1, "x")).unwrap().unwrap();
    assert_eq!(bso.payload, "Updated");
    assert_eq!(bso.sortindex, Some(1));
    assert_eq!(bso.expiry, first.modified + 3_600_000);
}

#[test]
fn delete_bsos_in_correct_collection() {
    let mut db = Db::new();
    db.set_timestamp(TS0);

    let uid = 1;
    let payload = "data";
    db.put_bso_sync(&pbso(uid, 1, "b1", Some(payload), None, None))
        .unwrap();
    db.put_bso_sync(&pbso(uid, 2, "b1", Some(payload), None, None))
        .unwrap();
    db.delete_bsos_sync(uid, 1, &["b1"]).unwrap();
    let bso = db.get_bso_sync(&gbso(uid, 2, "b1")).unwrap();
    assert!(bso.is_some());
}

#[test]
fn expired_record_reads_as_absent() {
    let mut db = Db::new();
    db.set_timestamp(TS0);

    // a record whose ttl is zero expires at its own write time
    db.put_bso_sync(&pbso(1, 1, "gone", Some("x"), None, Some(0))).unwrap();
    let bso = db.get_bso_sync(&gbso(1, 1, "gone")).unwrap();
    assert!(bso.is_none());

    // a record with some life left is still there
    db.put_bso_sync(&pbso(1, 1, "kept", Some("x"), None, Some(60))).unwrap();
    let bso = db.get_bso_sync(&gbso(1, 1, "kept")).unwrap();
    assert!(bso.is_some());
}

#[test]
fn empty_payload_defaults() {
    let mut db = Db::new();
    db.set_timestamp(TS0);

    db.put_bso_sync(&pbso(1, 1, "empty", None, None, None)).unwrap();
    let bso = db.get_bso_sync(&gbso(1, 1, "empty")).unwrap().unwrap();
    assert_eq!(bso.payload, "");
    assert_eq!(bso.sortindex, None);
    assert_eq!(bso.modified, TS0);
    assert_eq!(
        bso.expiry,
        TS0 + (syncstorage::DEFAULT_BSO_TTL as i64) * 1000
    );
}

#[test]
fn delete_bsos_returns_touched_modified() {
    let mut db = Db::new();
    db.set_timestamp(TS0 + 500);

    db.put_bso_sync(&pbso(1, 1, "a", Some("x"), None, None)).unwrap();
    let m = db.delete_bsos_sync(1, 1, &["a"]).unwrap();
    assert_eq!(m, TS0 + 500);
    assert!(db.get_bso_sync(&gbso(1, 1, "a")).unwrap().is_none());
}
