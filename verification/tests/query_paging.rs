//! Query engine behaviour: filters, sort orders, limits and offset
//! continuation.
use syncstorage::params::{PutBso, Sorting};
use syncstorage::store::Db;
use syncstorage::DEFAULT_BSO_TTL;

pub const MAX_TIMESTAMP: u64 = 4070937600000;

const TS0: i64 = 2_000_000_000_000;

fn pbso_at(
    modified: i64,
    user_id: u32,
    cid: i32,
    bid: &str,
    payload: Option<&str>,
    sortindex: Option<i32>,
    ttl: Option<u32>,
) -> PutBso {
    PutBso {
        user_id,
        collection_id: cid,
        id: bid.to_owned(),
        payload: payload.map(str::to_owned),
        sortindex,
        ttl,
        modified,
    }
}

#[test]
fn get_bsos_limit_offset() {
    let mut db = Db::new();
    db.set_timestamp(TS0);

    let uid = 1;
    let cid = 1;
    let size = 12;
    for i in 0..size {
        let bso = pbso_at(
            TS0 + i as i64 * 10,
            uid,
            cid,
            &i.to_string(),
            Some(&format!("payload-{}", i)),
            Some(i),
            Some(DEFAULT_BSO_TTL),
        );
        db.put_bso_sync(&bso).unwrap();
    }

    let bsos = db
        .get_bsos_sync(uid, cid, &[], MAX_TIMESTAMP, 0, Sorting::Index, 0, 0)
        .unwrap();
    assert!(bsos.bsos.is_empty());
    assert!(bsos.more);
    assert_eq!(bsos.offset, 0);

    let bsos = db
        .get_bsos_sync(uid, cid, &[], MAX_TIMESTAMP, 0, Sorting::Index, -1, 0)
        .unwrap();
    assert_eq!(bsos.bsos.len(), size as usize);
    assert!(!bsos.more);
    assert_eq!(bsos.offset, 0);

    let newer = 0;
    let limit = 5;
    let offset = 0;

    let bsos = db
        .get_bsos_sync(
            uid,
            cid,
            &[],
            MAX_TIMESTAMP,
            newer,
            Sorting::Newest,
            limit,
            offset,
        )
        .unwrap();
    assert_eq!(bsos.bsos.len(), 5 as usize);
    assert!(bsos.more);
    assert_eq!(bsos.offset, 5);
    assert_eq!(bsos.bsos[0].id, "11");
    assert_eq!(bsos.bsos[4].id, "7");

    let bsos2 = db
        .get_bsos_sync(
            uid,
            cid,
            &[],
            MAX_TIMESTAMP,
            newer,
            Sorting::Index,
            limit,
            bsos.offset,
        )
        .unwrap();
    assert_eq!(bsos2.bsos.len(), 5 as usize);
    assert!(bsos2.more);
    assert_eq!(bsos2.offset, 10);
    assert_eq!(bsos2.bsos[0].id, "6");
    assert_eq!(bsos2.bsos[4].id, "2");

    let bsos3 = db
        .get_bsos_sync(
            uid,
            cid,
            &[],
            MAX_TIMESTAMP,
            newer,
            Sorting::Index,
            limit,
            bsos2.offset,
        )
        .unwrap();
    assert_eq!(bsos3.bsos.len(), 2 as usize);
    assert!(!bsos3.more);
    assert_eq!(bsos3.offset, 0);
    assert_eq!(bsos3.bsos[0].id, "1");
    assert_eq!(bsos3.bsos[1].id, "0");
}

#[test]
fn get_bsos_newer() {
    let mut db = Db::new();
    db.set_timestamp(TS0);

    let uid = 1;
    let cid = 1;
    let modified = TS0;

    for i in (0..=2).rev() {
        let pbso = pbso_at(
            modified - i,
            uid,
            cid,
            &format!("b{}", i),
            Some("a"),
            Some(1),
            Some(DEFAULT_BSO_TTL),
        );
        db.put_bso_sync(&pbso).unwrap();
    }

    let bsos = db
        .get_bsos_sync(
            uid,
            cid,
            &[],
            MAX_TIMESTAMP,
            modified as u64 - 3,
            Sorting::Newest,
            10,
            0,
        )
        .unwrap();
    assert_eq!(bsos.bsos.len(), 3);
    assert_eq!(bsos.bsos[0].id, "b0");
    assert_eq!(bsos.bsos[1].id, "b1");
    assert_eq!(bsos.bsos[2].id, "b2");

    let bsos = db
        .get_bsos_sync(
            uid,
            cid,
            &[],
            MAX_TIMESTAMP,
            modified as u64 - 2,
            Sorting::Newest,
            10,
            0,
        )
        .unwrap();
    assert_eq!(bsos.bsos.len(), 2);
    assert_eq!(bsos.bsos[0].id, "b0");
    assert_eq!(bsos.bsos[1].id, "b1");

    let bsos = db
        .get_bsos_sync(
            uid,
            cid,
            &[],
            MAX_TIMESTAMP,
            modified as u64 - 1,
            Sorting::Newest,
            10,
            0,
        )
        .unwrap();
    assert_eq!(bsos.bsos.len(), 1);
    assert_eq!(bsos.bsos[0].id, "b0");

    let bsos = db
        .get_bsos_sync(
            uid,
            cid,
            &[],
            MAX_TIMESTAMP,
            modified as u64,
            Sorting::Newest,
            10,
            0,
        )
        .unwrap();
    assert_eq!(bsos.bsos.len(), 0);
}

#[test]
fn get_bsos_sort() {
    let mut db = Db::new();
    db.set_timestamp(TS0);

    let uid = 1;
    let cid = 1;
    let modified = TS0;

    for (revi, sortindex) in [1, 0, 2].iter().enumerate().rev() {
        let pbso = pbso_at(
            modified - revi as i64,
            uid,
            cid,
            &format!("b{}", revi),
            Some("a"),
            Some(*sortindex),
            Some(DEFAULT_BSO_TTL),
        );
        db.put_bso_sync(&pbso).unwrap();
    }

    let bsos = db
        .get_bsos_sync(uid, cid, &[], MAX_TIMESTAMP, 0, Sorting::Newest, 10, 0)
        .unwrap();
    assert_eq!(bsos.bsos.len(), 3);
    assert_eq!(bsos.bsos[0].id, "b0");
    assert_eq!(bsos.bsos[1].id, "b1");
    assert_eq!(bsos.bsos[2].id, "b2");

    let bsos = db
        .get_bsos_sync(uid, cid, &[], MAX_TIMESTAMP, 0, Sorting::Oldest, 10, 0)
        .unwrap();
    assert_eq!(bsos.bsos.len(), 3);
    assert_eq!(bsos.bsos[0].id, "b2");
    assert_eq!(bsos.bsos[1].id, "b1");
    assert_eq!(bsos.bsos[2].id, "b0");

    let bsos = db
        .get_bsos_sync(uid, cid, &[], MAX_TIMESTAMP, 0, Sorting::Index, 10, 0)
        .unwrap();
    assert_eq!(bsos.bsos.len(), 3);
    assert_eq!(bsos.bsos[0].id, "b2");
    assert_eq!(bsos.bsos[1].id, "b0");
    assert_eq!(bsos.bsos[2].id, "b1");
}

#[test]
fn get_bsos_by_id_set() {
    let mut db = Db::new();
    db.set_timestamp(TS0);

    for i in 0..4 {
        let bso = pbso_at(
            TS0 + i,
            1,
            1,
            &format!("b{}", i),
            Some("p"),
            None,
            Some(DEFAULT_BSO_TTL),
        );
        db.put_bso_sync(&bso).unwrap();
    }
    let bsos = db
        .get_bsos_sync(1, 1, &["b1", "b3"], MAX_TIMESTAMP, 0, Sorting::Newest, 10, 0)
        .unwrap();
    assert_eq!(bsos.bsos.len(), 2);
    assert_eq!(bsos.bsos[0].id, "b3");
    assert_eq!(bsos.bsos[1].id, "b1");
}

#[test]
fn get_bsos_respects_ttl_floor() {
    let mut db = Db::new();
    db.set_timestamp(TS0);

    // expiry = TS0 + 60000
    db.put_bso_sync(&pbso_at(TS0, 1, 1, "soon", Some("p"), None, Some(60)))
        .unwrap();
    // expiry far beyond MAX_TIMESTAMP
    db.put_bso_sync(&pbso_at(TS0, 1, 1, "later", Some("p"), None, Some(DEFAULT_BSO_TTL)))
        .unwrap();

    let all = db
        .get_bsos_sync(1, 1, &[], 0, 0, Sorting::Newest, -1, 0)
        .unwrap();
    assert_eq!(all.bsos.len(), 2);

    let floored = db
        .get_bsos_sync(1, 1, &[], MAX_TIMESTAMP, 0, Sorting::Newest, -1, 0)
        .unwrap();
    assert_eq!(floored.bsos.len(), 1);
    assert_eq!(floored.bsos[0].id, "later");
}

#[test]
fn get_bsos_probe_with_no_match() {
    let mut db = Db::new();
    db.set_timestamp(TS0);
    let bsos = db
        .get_bsos_sync(1, 1, &[], MAX_TIMESTAMP, 0, Sorting::Newest, 0, 0)
        .unwrap();
    assert!(bsos.bsos.is_empty());
    assert!(!bsos.more);
    assert_eq!(bsos.offset, 0);
}

#[test]
fn get_bsos_unsorted_keeps_store_order() {
    let mut db = Db::new();
    db.set_timestamp(TS0);
    for i in 0..3 {
        let bso = pbso_at(
            TS0 - i,
            1,
            1,
            &format!("u{}", i),
            Some("p"),
            None,
            Some(DEFAULT_BSO_TTL),
        );
        db.put_bso_sync(&bso).unwrap();
    }
    let bsos = db
        .get_bsos_sync(1, 1, &[], MAX_TIMESTAMP, 0, Sorting::Unsorted, -1, 0)
        .unwrap();
    assert_eq!(bsos.bsos.len(), 3);
    assert_eq!(bsos.bsos[0].id, "u0");
    assert_eq!(bsos.bsos[1].id, "u1");
    assert_eq!(bsos.bsos[2].id, "u2");
}
