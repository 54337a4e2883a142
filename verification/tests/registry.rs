//! Collection registry behaviour: reserved ids, creation, modification
//! times of collections and of the whole storage.
use syncstorage::error::DbErrorKind;
use syncstorage::params::GetCollections;
use syncstorage::params::PutBso;
use syncstorage::store::Db;

// distant future (year 2099) timestamp for tests
pub const MAX_TIMESTAMP: u64 = 4070937600000;

// a fixed "now" for tests, far enough out that default-ttl records outlive
// MAX_TIMESTAMP
const TS0: i64 = 2_000_000_000_000;

fn pbso(
    user_id: u32,
    cid: i32,
    bid: &str,
    payload: Option<&str>,
    sortindex: Option<i32>,
    ttl: Option<u32>,
) -> PutBso {
    PutBso {
        user_id,
        collection_id: cid,
        id: bid.to_owned(),
        payload: payload.map(str::to_owned),
        sortindex,
        ttl,
        modified: TS0,
    }
}

#[test]
fn static_collection_id() {
    let mut db = Db::new();
    db.set_timestamp(TS0);

    // ensure the store actually has the predefined common collections
    let cols: Vec<(i32, &str)> = vec![
        (1, "clients"),
        (2, "crypto"),
        (3, "forms"),
        (4, "history"),
        (5, "keys"),
        (6, "meta"),
        (7, "bookmarks"),
        (8, "prefs"),
        (9, "tabs"),
        (10, "passwords"),
        (11, "addons"),
        (12, "addresses"),
        (13, "creditcards"),
    ];
    assert_eq!(db.collections.len(), cols.len());
    for (id, name) in &cols {
        let result = db.get_collection_id(name).unwrap();
        assert_eq!(result, *id);
    }

    let cid = db.create_collection("col1").unwrap();
    assert!(cid >= 100);
}

#[test]
fn get_collection_id() {
    let db = Db::new();
    db.get_collection_id("bookmarks").unwrap();
}

#[test]
fn create_collection() {
    let mut db = Db::new();

    let name = "NewCollection";
    let cid = db.create_collection(name).unwrap();
    assert_ne!(cid, 0);
    let cid2 = db.get_collection_id(name).unwrap();
    assert_eq!(cid2, cid);
}

#[test]
fn touch_collection() {
    let mut db = Db::new();
    db.set_timestamp(TS0);

    let cid = db.create_collection("test").unwrap();
    db.touch_collection(1, cid, TS0).unwrap();
}

#[test]
fn get_storage_modified() {
    let mut db = Db::new();
    db.set_timestamp(TS0);

    let uid = 1;
    db.create_collection("col1").unwrap();
    let col2 = db.create_collection("col2").unwrap();
    db.create_collection("col3").unwrap();

    let modified = TS0 + 100000;
    db.touch_collection(uid, col2, modified).unwrap();

    let m = db.get_storage_modified_sync(uid).unwrap();
    assert_eq!(m, modified);
}

#[test]
fn delete_collection() {
    let mut db = Db::new();
    db.set_timestamp(TS0);

    let uid = 1;
    let cname = "NewConnection";
    let cid = db.create_collection(cname).unwrap();
    for bid in 1..=3 {
        db.put_bso_sync(&pbso(uid, cid, &bid.to_string(), Some("test"), None, None))
            .unwrap();
    }
    let modified = db.delete_collection_sync(uid, cid).unwrap();
    let modified2 = db.get_storage_modified_sync(uid).unwrap();
    assert_eq!(modified2, modified);

    // make sure the records are deleted
    for bid in 1..=3 {
        let result = db
            .get_bso_sync(&syncstorage::params::GetBso {
                user_id: uid,
                collection_id: cid,
                id: bid.to_string(),
            })
            .unwrap();
        assert!(result.is_none());
    }

    let result = db.get_collection_modified_sync(uid, cid);
    match result.unwrap_err().kind() {
        DbErrorKind::CollectionNotFound => assert!(true),
        _ => assert!(false),
    };
}

#[test]
fn get_collections_modified() {
    let mut db = Db::new();
    db.set_timestamp(TS0);

    let uid = 1;
    let name = "test";
    let cid = db.create_collection(name).unwrap();
    let modified = TS0;
    db.touch_collection(uid, cid, modified).unwrap();
    let cols = db
        .get_collections_modified_sync(&GetCollections { user_id: uid })
        .unwrap();
    let found: Option<&(String, i64)> = cols.iter().find(|e| e.0 == name);
    assert!(found.is_some());
    assert_eq!(found.map(|e| e.1), Some(modified));

    let modified = db.get_collection_modified_sync(uid, cid).unwrap();
    assert_eq!(Some(modified), found.map(|e| e.1));
}

#[test]
fn collection_not_found_for_unknown_name() {
    let db = Db::new();
    let err = db.get_collection_id("nosuchcollection").unwrap_err();
    match err.kind() {
        DbErrorKind::CollectionNotFound => {}
        _ => panic!("expected CollectionNotFound"),
    }
}
