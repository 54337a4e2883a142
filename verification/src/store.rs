//! The storage engine's state and its record/collection operations.
//!
//! The store holds every persistent table as a sequence of rows with a unique
//! key (see `keyed`); the contracts speak of the partial lookup `find_by`
//! over those sequences.
use vstd::prelude::*;

use crate::error::{DbError, DbErrorKind};
use crate::keyed::{find_by, has_key, lemma_filter_member_at, lemma_find_at, lemma_find_filter,
    lemma_find_push, lemma_find_update, unique_by};
use crate::params;
use crate::results;
use crate::{DEFAULT_BSO_TTL, PRETOUCH_TS, TS_LIMIT};
use vstd::string::StrSliceExecFns;

verus! {

/// Marker for connection-pool configurations whose connections begin a test
/// transaction on acquire and never commit it, so integration runs leave no
/// trace. The I/O layer implements its pool's customization hook for this
/// marker; the store itself only names the policy.
pub struct TestTransactionCustomizer;

/// A collection known to the registry.
pub struct Collection {
    pub id: i32,
    pub name: String,
}

/// One live record.
pub struct StoredBso {
    pub user_id: u32,
    pub collection_id: i32,
    pub id: String,
    pub sortindex: Option<i32>,
    pub payload: String,
    pub modified: i64,
    pub expiry: i64,
}

/// Per-(user, collection) summary row.
pub struct UserCollection {
    pub user_id: u32,
    pub collection_id: i32,
    pub modified: i64,
    pub count: u64,
    pub total_bytes: u64,
}

/// An open batch.
pub struct BatchRow {
    pub user_id: u32,
    pub collection_id: i32,
    pub id: String,
    pub expiry: i64,
}

/// One staged record, child of a batch.
pub struct BatchBso {
    pub user_id: u32,
    pub collection_id: i32,
    pub batch_id: String,
    pub id: String,
    pub sortindex: Option<i32>,
    pub payload: Option<String>,
    pub ttl: Option<u32>,
}

/// Key of a registry row, by name.
pub open spec fn col_name_key() -> spec_fn(Collection) -> Seq<char> {
    |c: Collection| c.name@
}

/// Key of a registry row, by id.
pub open spec fn col_id_key() -> spec_fn(Collection) -> int {
    |c: Collection| c.id as int
}

/// Key of a summary row.
pub open spec fn uc_key() -> spec_fn(UserCollection) -> (int, int) {
    |r: UserCollection| (r.user_id as int, r.collection_id as int)
}

/// Key of a live record.
pub open spec fn bso_key() -> spec_fn(StoredBso) -> (int, int, Seq<char>) {
    |r: StoredBso| (r.user_id as int, r.collection_id as int, r.id@)
}

/// Key of a batch.
pub open spec fn batch_key() -> spec_fn(BatchRow) -> (int, int, Seq<char>) {
    |r: BatchRow| (r.user_id as int, r.collection_id as int, r.id@)
}

/// Key of a staged record.
pub open spec fn staged_key() -> spec_fn(BatchBso) -> (int, int, Seq<char>, Seq<char>) {
    |r: BatchBso| (r.user_id as int, r.collection_id as int, r.batch_id@, r.id@)
}

/// The in-memory storage engine: collection registry, live records,
/// per-collection summaries, open batches with their staged records, the
/// transaction clock, and the quota configuration.
pub struct Db {
    pub collections: Vec<Collection>,
    pub next_collection_id: i32,
    pub user_collections: Vec<UserCollection>,
    pub bsos: Vec<StoredBso>,
    pub batches: Vec<BatchRow>,
    pub batch_bsos: Vec<BatchBso>,
    pub clock_ms: i64,
    pub quota_enabled: bool,
    pub quota_bytes: u64,
}

impl Db {
    /// The registry row named `name`, if any.
    pub open spec fn col_by_name(self, name: Seq<char>) -> Option<Collection> {
        find_by(self.collections@, col_name_key(), name)
    }

    /// The registry row with id `id`, if any.
    pub open spec fn col_by_id(self, id: int) -> Option<Collection> {
        find_by(self.collections@, col_id_key(), id)
    }

    /// The summary row of (user, collection), if any.
    pub open spec fn uc_at(self, u: int, c: int) -> Option<UserCollection> {
        find_by(self.user_collections@, uc_key(), (u, c))
    }

    /// The live record under (user, collection, id), if any.
    pub open spec fn bso_at(self, u: int, c: int, b: Seq<char>) -> Option<StoredBso> {
        find_by(self.bsos@, bso_key(), (u, c, b))
    }

    /// The batch under (user, collection, batch id), if any.
    pub open spec fn batch_at(self, u: int, c: int, b: Seq<char>) -> Option<BatchRow> {
        find_by(self.batches@, batch_key(), (u, c, b))
    }

    /// The staged record under (user, collection, batch id, record id), if any.
    pub open spec fn staged_at(self, u: int, c: int, ba: Seq<char>, b: Seq<char>) -> Option<
        BatchBso,
    > {
        find_by(self.batch_bsos@, staged_key(), (u, c, ba, b))
    }

    /// Registry invariant: unique names and ids, reserved band 1..=13,
    /// user-created band from 100 up to the allocation cursor.
    pub open spec fn wf_cols(self) -> bool {
        &&& unique_by(self.collections@, col_name_key())
        &&& unique_by(self.collections@, col_id_key())
        &&& 100 <= self.next_collection_id <= i32::MAX
        &&& forall|i: int|
            0 <= i < self.collections@.len() ==> {
                let c = #[trigger] self.collections@[i];
                (1 <= c.id <= 13) || (100 <= c.id < self.next_collection_id)
            }
    }

    /// Summary invariant: unique keys; `modified` is the pretouch sentinel or
    /// a real timestamp below `TS_LIMIT`.
    pub open spec fn wf_ucs(self) -> bool {
        &&& unique_by(self.user_collections@, uc_key())
        &&& forall|i: int|
            0 <= i < self.user_collections@.len() ==> {
                let r = #[trigger] self.user_collections@[i];
                r.modified == PRETOUCH_TS || (0 <= r.modified < TS_LIMIT)
            }
    }

    /// Record invariant: unique keys, and every record is covered by its
    /// collection's summary row, whose `modified` bounds the record's.
    pub open spec fn wf_bsos(self) -> bool {
        &&& unique_by(self.bsos@, bso_key())
        &&& forall|i: int|
            0 <= i < self.bsos@.len() ==> {
                let r = #[trigger] self.bsos@[i];
                &&& 0 <= r.modified < TS_LIMIT
                &&& match self.uc_at(r.user_id as int, r.collection_id as int) {
                    Some(uc) => r.modified <= uc.modified,
                    None => false,
                }
            }
    }

    /// Batch tables invariant: unique keys.
    pub open spec fn wf_batches(self) -> bool {
        &&& unique_by(self.batches@, batch_key())
        &&& unique_by(self.batch_bsos@, staged_key())
    }

    /// The whole store is well formed.
    pub open spec fn wf(self) -> bool {
        &&& self.wf_cols()
        &&& self.wf_ucs()
        &&& self.wf_bsos()
        &&& self.wf_batches()
        &&& 0 <= self.clock_ms < TS_LIMIT
    }

    /// Registry and allocation cursor are unchanged.
    pub open spec fn same_registry(pre: Db, post: Db) -> bool {
        post.collections@ == pre.collections@ && post.next_collection_id
            == pre.next_collection_id
    }

    /// Batch tables are unchanged.
    pub open spec fn same_batches(pre: Db, post: Db) -> bool {
        post.batches@ == pre.batches@ && post.batch_bsos@ == pre.batch_bsos@
    }

    /// Clock and quota configuration are unchanged.
    pub open spec fn same_config(pre: Db, post: Db) -> bool {
        post.clock_ms == pre.clock_ms && post.quota_enabled == pre.quota_enabled
            && post.quota_bytes == pre.quota_bytes
    }

    /// A fresh store with quotas disabled: the 13 reserved collections at ids
    /// 1 through 13, nothing else, clock at zero.
    pub fn new() -> (r: Db)
        ensures
            r.wf(),
            fresh_store(r),
            !r.quota_enabled,
    {
        Db::with_config(false, 0)
    }

    /// A fresh store enforcing the given byte ceiling per (user, collection).
    pub fn with_quota(quota_bytes: u64) -> (r: Db)
        ensures
            r.wf(),
            fresh_store(r),
            r.quota_enabled,
            r.quota_bytes == quota_bytes,
    {
        Db::with_config(true, quota_bytes)
    }

    fn with_config(quota_enabled: bool, quota_bytes: u64) -> (r: Db)
        ensures
            r.wf(),
            fresh_store(r),
            r.quota_enabled == quota_enabled,
            r.quota_bytes == quota_bytes,
    {
        let mut collections: Vec<Collection> = Vec::new();
        collections.push(Collection { id: 1, name: "clients".to_owned() });
        collections.push(Collection { id: 2, name: "crypto".to_owned() });
        collections.push(Collection { id: 3, name: "forms".to_owned() });
        collections.push(Collection { id: 4, name: "history".to_owned() });
        collections.push(Collection { id: 5, name: "keys".to_owned() });
        collections.push(Collection { id: 6, name: "meta".to_owned() });
        collections.push(Collection { id: 7, name: "bookmarks".to_owned() });
        collections.push(Collection { id: 8, name: "prefs".to_owned() });
        collections.push(Collection { id: 9, name: "tabs".to_owned() });
        collections.push(Collection { id: 10, name: "passwords".to_owned() });
        collections.push(Collection { id: 11, name: "addons".to_owned() });
        collections.push(Collection { id: 12, name: "addresses".to_owned() });
        collections.push(Collection { id: 13, name: "creditcards".to_owned() });
        proof {
            reveal_strlit("clients");
            reveal_strlit("crypto");
            reveal_strlit("forms");
            reveal_strlit("history");
            reveal_strlit("keys");
            reveal_strlit("meta");
            reveal_strlit("bookmarks");
            reveal_strlit("prefs");
            reveal_strlit("tabs");
            reveal_strlit("passwords");
            reveal_strlit("addons");
            reveal_strlit("addresses");
            reveal_strlit("creditcards");
            assert(("clients"@)[0] == 'c' && ("history"@)[0] == 'h');
            assert(("forms"@)[0] == 'f' && ("prefs"@)[0] == 'p');
            assert(("keys"@)[0] == 'k' && ("meta"@)[0] == 'm' && ("tabs"@)[0] == 't');
            assert(("bookmarks"@)[0] == 'b' && ("passwords"@)[0] == 'p' && ("addresses"@)[0]
                == 'a');
            assert(("crypto"@)[0] == 'c' && ("addons"@)[0] == 'a');
            assert(("crypto"@)[1] == 'r' && ("clients"@)[1] == 'l');
            let s = collections@;
            assert(s.len() == 13);
            assert forall|i: int, j: int| 0 <= i < j < s.len() implies #[trigger] col_name_key()(
                s[i],
            ) != #[trigger] col_name_key()(s[j]) by {
                assert(col_name_key()(s[i]) == s[i].name@);
                assert(col_name_key()(s[j]) == s[j].name@);
                if s[i].name@.len() == s[j].name@.len() {
                    assert(s[i].name@[0] != s[j].name@[0] || s[i].name@[1] != s[j].name@[1]);
                }
            }
            assert forall|i: int, j: int| 0 <= i < j < s.len() implies #[trigger] col_id_key()(
                s[i],
            ) != #[trigger] col_id_key()(s[j]) by {
                assert(s[i].id == i + 1 && s[j].id == j + 1);
            }
        }
        Db {
            collections,
            next_collection_id: 100,
            user_collections: Vec::new(),
            bsos: Vec::new(),
            batches: Vec::new(),
            batch_bsos: Vec::new(),
            clock_ms: 0,
            quota_enabled,
            quota_bytes,
        }
    }

    /// The store's current transaction clock, in milliseconds.
    pub fn timestamp(&self) -> (r: i64)
        ensures
            r == self.clock_ms,
    {
        self.clock_ms
    }

    /// Advances (or rewinds) the transaction clock.
    pub fn set_timestamp(&mut self, now_ms: i64)
        requires
            old(self).wf(),
            0 <= now_ms < TS_LIMIT,
        ensures
            final(self).wf(),
            final(self).clock_ms == now_ms,
            final(self).collections@ == old(self).collections@,
            final(self).next_collection_id == old(self).next_collection_id,
            final(self).user_collections@ == old(self).user_collections@,
            final(self).bsos@ == old(self).bsos@,
            Db::same_batches(*old(self), *final(self)),
            final(self).quota_enabled == old(self).quota_enabled,
            final(self).quota_bytes == old(self).quota_bytes,
    {
        self.clock_ms = now_ms;
        proof {
            assert forall|i: int| 0 <= i < self.bsos@.len() implies {
                let r = #[trigger] self.bsos@[i];
                &&& 0 <= r.modified < TS_LIMIT
                &&& match self.uc_at(r.user_id as int, r.collection_id as int) {
                    Some(uc) => r.modified <= uc.modified,
                    None => false,
                }
            } by {
                assert(self.uc_at(self.bsos@[i].user_id as int, self.bsos@[i].collection_id as int)
                    == old(self).uc_at(
                    self.bsos@[i].user_id as int,
                    self.bsos@[i].collection_id as int,
                ));
            }
        }
    }

    /// Index of the registry row named `name`, with its lookup meaning.
    pub(crate) fn find_col_by_name(&self, name: &str) -> (r: Option<usize>)
        requires
            self.wf_cols(),
        ensures
            match r {
                Some(i) => i < self.collections@.len() && self.col_by_name(name@) == Some(
                    self.collections@[i as int],
                ),
                None => self.col_by_name(name@) is None,
            },
    {
        let n = self.collections.len();
        let mut i: usize = 0;
        while i < n
            invariant
                n == self.collections@.len(),
                i <= n,
                self.wf_cols(),
                forall|j: int| 0 <= j < i ==> #[trigger] self.collections@[j].name@ != name@,
            decreases n - i,
        {
            if string_eq_str(&self.collections[i].name, name) {
                proof {
                    lemma_find_at(self.collections@, col_name_key(), i as int);
                }
                return Some(i);
            }
            i += 1;
        }
        proof {
            assert(!has_key(self.collections@, col_name_key(), name@));
        }
        None
    }

    /// Resolves a collection name to its id.
    pub fn get_collection_id(&self, name: &str) -> (r: Result<i32, DbError>)
        requires
            self.wf(),
        ensures
            match r {
                Ok(id) => self.col_by_name(name@) matches Some(c) && c.id == id,
                Err(e) => self.col_by_name(name@) is None && e.kind is CollectionNotFound,
            },
    {
        match self.find_col_by_name(name) {
            Some(i) => Ok(self.collections[i].id),
            None => Err(DbError::of_kind(DbErrorKind::CollectionNotFound)),
        }
    }

    /// Creates a collection, or returns the existing id if the name is
    /// already bound (upsert by name). A new id is allocated at or above 100.
    pub fn create_collection(&mut self, name: &str) -> (r: Result<i32, DbError>)
        requires
            old(self).wf(),
        ensures
            final(self).wf(),
            match r {
                Ok(id) => {
                    &&& final(self).col_by_name(name@) matches Some(c) && c.id == id && c.name@
                        == name@
                    &&& match old(self).col_by_name(name@) {
                        Some(c0) => id == c0.id && final(self).collections@ == old(
                            self,
                        ).collections@ && final(self).next_collection_id == old(
                            self,
                        ).next_collection_id,
                        None => {
                            &&& id == old(self).next_collection_id && id >= 100
                            &&& final(self).next_collection_id == old(self).next_collection_id
                                + 1
                            &&& forall|n2: Seq<char>|
                                n2 != name@ ==> final(self).col_by_name(n2) == old(
                                    self,
                                ).col_by_name(n2)
                            &&& forall|i2: int|
                                i2 != id ==> final(self).col_by_id(i2) == old(self).col_by_id(i2)
                        },
                    }
                },
                Err(e) => {
                    &&& e.kind is Internal
                    &&& old(self).col_by_name(name@) is None
                    &&& old(self).next_collection_id == i32::MAX
                    &&& final(self).collections@ == old(self).collections@
                },
            },
            final(self).user_collections@ == old(self).user_collections@,
            final(self).bsos@ == old(self).bsos@,
            Db::same_batches(*old(self), *final(self)),
            Db::same_config(*old(self), *final(self)),
    {
        match self.find_col_by_name(name) {
            Some(i) => Ok(self.collections[i].id),
            None => {
                if self.next_collection_id == i32::MAX {
                    return Err(DbError::of_kind(DbErrorKind::Internal));
                }
                let id = self.next_collection_id;
                let row = Collection { id, name: name.to_owned() };
                proof {
                    assert(!has_key(self.collections@, col_name_key(), name@));
                    if has_key(self.collections@, col_id_key(), id as int) {
                        let j = choose|j: int|
                            0 <= j < self.collections@.len() && #[trigger] col_id_key()(
                                self.collections@[j],
                            ) == id as int;
                        assert((1 <= self.collections@[j].id <= 13) || (100
                            <= self.collections@[j].id < self.next_collection_id));
                        assert(false);
                    }
                    lemma_find_push(self.collections@, col_name_key(), row);
                    lemma_find_push(self.collections@, col_id_key(), row);
                }
                self.collections.push(row);
                self.next_collection_id = id + 1;
                proof {
                    lemma_bso_cover_stable(*old(self), *self);
                }
                Ok(id)
            },
        }
    }
}

/// How a collection's summary row changes when a write with timestamp `m`
/// touches it: the row appears if absent, its `modified` becomes the maximum
/// of old and new, its quota counters are untouched, and no other summary
/// row changes.
pub open spec fn uc_touched(pre: Db, post: Db, u: int, c: int, m: int) -> bool {
    &&& post.uc_at(u, c) matches Some(n) && {
        &&& n.user_id as int == u
        &&& n.collection_id as int == c
        &&& match pre.uc_at(u, c) {
            Some(o) => n.modified as int == (if o.modified >= m {
                o.modified as int
            } else {
                m
            }) && n.count == o.count && n.total_bytes == o.total_bytes,
            None => n.modified as int == m && n.count == 0 && n.total_bytes == 0,
        }
    }
    &&& forall|u2: int, c2: int|
        !(u2 == u && c2 == c) ==> #[trigger] post.uc_at(u2, c2) == pre.uc_at(u2, c2)
}

/// Maximum non-sentinel `modified` among a user's summary rows, if any.
pub open spec fn max_modified_of(rows: Seq<UserCollection>, u: int) -> Option<int>
    decreases rows.len(),
{
    if rows.len() == 0 {
        None
    } else {
        let rest = max_modified_of(rows.drop_last(), u);
        let r = rows.last();
        if r.user_id as int == u && r.modified != PRETOUCH_TS {
            match rest {
                Some(v) => Some(
                    if v >= r.modified as int {
                        v
                    } else {
                        r.modified as int
                    },
                ),
                None => Some(r.modified as int),
            }
        } else {
            rest
        }
    }
}

/// The (name, modified) pairs of a user's summary rows, in row order,
/// skipping the pretouch sentinel and rows whose id the registry lacks.
pub open spec fn cols_modified_of(
    rows: Seq<UserCollection>,
    cols: Seq<Collection>,
    u: int,
) -> Seq<(String, i64)>
    decreases rows.len(),
{
    if rows.len() == 0 {
        Seq::empty()
    } else {
        let prefix = cols_modified_of(rows.drop_last(), cols, u);
        let r = rows.last();
        if r.user_id as int == u && r.modified != PRETOUCH_TS && find_by(
            cols,
            col_id_key(),
            r.collection_id as int,
        ) is Some {
            prefix.push(
                (find_by(cols, col_id_key(), r.collection_id as int)->Some_0.name, r.modified),
            )
        } else {
            prefix
        }
    }
}

impl Db {
    /// Index of the summary row of (user, collection), with its meaning.
    pub(crate) fn find_uc(&self, user_id: u32, collection_id: i32) -> (r: Option<usize>)
        requires
            self.wf_ucs(),
        ensures
            match r {
                Some(i) => i < self.user_collections@.len() && self.uc_at(
                    user_id as int,
                    collection_id as int,
                ) == Some(self.user_collections@[i as int]),
                None => self.uc_at(user_id as int, collection_id as int) is None,
            },
    {
        let n = self.user_collections.len();
        let mut i: usize = 0;
        while i < n
            invariant
                n == self.user_collections@.len(),
                i <= n,
                self.wf_ucs(),
                forall|j: int|
                    0 <= j < i ==> #[trigger] uc_key()(self.user_collections@[j]) != (
                    user_id as int,
                    collection_id as int,
                ),
            decreases n - i,
        {
            if self.user_collections[i].user_id == user_id && self.user_collections[i].collection_id
                == collection_id {
                proof {
                    lemma_find_at(self.user_collections@, uc_key(), i as int);
                }
                return Some(i);
            }
            i += 1;
        }
        proof {
            assert(!has_key(self.user_collections@, uc_key(), (user_id as int, collection_id as int)));
        }
        None
    }

    /// Upserts the summary row, raising its `modified` to at least the given
    /// value. Returns the stored `modified`.
    pub fn touch_collection(&mut self, user_id: u32, collection_id: i32, modified: i64) -> (r:
        Result<i64, DbError>)
        requires
            old(self).wf(),
            0 <= modified < TS_LIMIT,
        ensures
            final(self).wf(),
            r is Ok,
            uc_touched(*old(self), *final(self), user_id as int, collection_id as int, modified as int),
            Some(r->Ok_0) == match final(self).uc_at(user_id as int, collection_id as int) {
                Some(n) => Some(n.modified),
                None => None::<i64>,
            },
            final(self).bsos@ == old(self).bsos@,
            final(self).collections@ == old(self).collections@,
            final(self).next_collection_id == old(self).next_collection_id,
            Db::same_batches(*old(self), *final(self)),
            Db::same_config(*old(self), *final(self)),
    {
        let ghost u = user_id as int;
        let ghost c = collection_id as int;
        match self.find_uc(user_id, collection_id) {
            Some(i) => {
                let o = self.user_collections.remove(i);
                let newm = if o.modified >= modified {
                    o.modified
                } else {
                    modified
                };
                let row = UserCollection {
                    user_id,
                    collection_id,
                    modified: newm,
                    count: o.count,
                    total_bytes: o.total_bytes,
                };
                self.user_collections.insert(i, row);
                proof {
                    assert(self.user_collections@ =~= old(self).user_collections@.update(
                        i as int,
                        row,
                    ));
                    lemma_find_update(old(self).user_collections@, uc_key(), i as int, row);
                    lemma_bso_cover_uc_grow(*old(self), *self, u, c);
                }
                Ok(newm)
            },
            None => {
                let row = UserCollection {
                    user_id,
                    collection_id,
                    modified,
                    count: 0,
                    total_bytes: 0,
                };
                proof {
                    lemma_find_push(self.user_collections@, uc_key(), row);
                }
                self.user_collections.push(row);
                proof {
                    lemma_bso_cover_uc_grow(*old(self), *self, u, c);
                }
                Ok(modified)
            },
        }
    }

    /// The collection's modification time; `CollectionNotFound` when the user
    /// has never touched it (or only a pretouch sentinel stands there).
    pub fn get_collection_modified_sync(&self, user_id: u32, collection_id: i32) -> (r: Result<
        i64,
        DbError,
    >)
        requires
            self.wf(),
        ensures
            match r {
                Ok(m) => self.uc_at(user_id as int, collection_id as int) matches Some(uc)
                    && uc.modified == m && m != PRETOUCH_TS,
                Err(e) => e.kind is CollectionNotFound && match self.uc_at(
                    user_id as int,
                    collection_id as int,
                ) {
                    Some(uc) => uc.modified == PRETOUCH_TS,
                    None => true,
                },
            },
    {
        match self.find_uc(user_id, collection_id) {
            Some(i) => {
                let m = self.user_collections[i].modified;
                if m == PRETOUCH_TS {
                    Err(DbError::of_kind(DbErrorKind::CollectionNotFound))
                } else {
                    Ok(m)
                }
            },
            None => Err(DbError::of_kind(DbErrorKind::CollectionNotFound)),
        }
    }

    /// The user's storage modification time: the maximum non-sentinel
    /// `modified` over all summary rows, or the current clock when none.
    pub fn get_storage_modified_sync(&self, user_id: u32) -> (r: Result<i64, DbError>)
        requires
            self.wf(),
        ensures
            r matches Ok(m) && m as int == (match max_modified_of(
                self.user_collections@,
                user_id as int,
            ) {
                Some(v) => v,
                None => self.clock_ms as int,
            }),
    {
        let n = self.user_collections.len();
        let mut i: usize = 0;
        let mut cur: Option<i64> = None;
        while i < n
            invariant
                n == self.user_collections@.len(),
                i <= n,
                self.wf(),
                match (cur, max_modified_of(self.user_collections@.take(i as int), user_id as int)) {
                    (Some(a), Some(b)) => a as int == b,
                    (None, None) => true,
                    _ => false,
                },
            decreases n - i,
        {
            let r = &self.user_collections[i];
            proof {
                assert(self.user_collections@.take(i + 1).drop_last() =~= self.user_collections@
                    .take(i as int));
                assert(self.user_collections@.take(i + 1).last() == self.user_collections@[
                    i as int]);
            }
            if r.user_id == user_id && r.modified != PRETOUCH_TS {
                cur = match cur {
                    Some(v) => if v >= r.modified {
                        Some(v)
                    } else {
                        Some(r.modified)
                    },
                    None => Some(r.modified),
                };
            }
            i += 1;
        }
        proof {
            assert(self.user_collections@.take(n as int) =~= self.user_collections@);
        }
        match cur {
            Some(v) => Ok(v),
            None => Ok(self.clock_ms),
        }
    }

    /// Index of the registry row with the given id, with its meaning.
    fn find_col_by_id(&self, id: i32) -> (r: Option<usize>)
        requires
            self.wf_cols(),
        ensures
            match r {
                Some(i) => i < self.collections@.len() && self.col_by_id(id as int) == Some(
                    self.collections@[i as int],
                ),
                None => self.col_by_id(id as int) is None,
            },
    {
        let n = self.collections.len();
        let mut i: usize = 0;
        while i < n
            invariant
                n == self.collections@.len(),
                i <= n,
                self.wf_cols(),
                forall|j: int| 0 <= j < i ==> #[trigger] self.collections@[j].id != id,
            decreases n - i,
        {
            if self.collections[i].id == id {
                proof {
                    lemma_find_at(self.collections@, col_id_key(), i as int);
                }
                return Some(i);
            }
            i += 1;
        }
        proof {
            assert forall|j: int| 0 <= j < self.collections@.len() implies #[trigger] col_id_key()(
                self.collections@[j],
            ) != id as int by {}
            assert(!has_key(self.collections@, col_id_key(), id as int));
        }
        None
    }

    /// The (collection name, modified) pairs of the user's collections,
    /// excluding pretouch sentinels.
    pub fn get_collections_modified_sync(&self, p: &params::GetCollections) -> (r: Result<
        Vec<(String, i64)>,
        DbError,
    >)
        requires
            self.wf(),
        ensures
            r matches Ok(v) && v@ == cols_modified_of(
                self.user_collections@,
                self.collections@,
                p.user_id as int,
            ),
    {
        let n = self.user_collections.len();
        let mut i: usize = 0;
        let mut out: Vec<(String, i64)> = Vec::new();
        while i < n
            invariant
                n == self.user_collections@.len(),
                i <= n,
                self.wf(),
                out@ == cols_modified_of(
                    self.user_collections@.take(i as int),
                    self.collections@,
                    p.user_id as int,
                ),
            decreases n - i,
        {
            proof {
                assert(self.user_collections@.take(i + 1).drop_last() =~= self.user_collections@
                    .take(i as int));
                assert(self.user_collections@.take(i + 1).last() == self.user_collections@[
                    i as int]);
            }
            let r = &self.user_collections[i];
            if r.user_id == p.user_id && r.modified != PRETOUCH_TS {
                match self.find_col_by_id(r.collection_id) {
                    Some(ci) => {
                        out.push((self.collections[ci].name.clone(), r.modified));
                    },
                    None => {},
                }
            }
            i += 1;
        }
        proof {
            assert(self.user_collections@.take(n as int) =~= self.user_collections@);
        }
        Ok(out)
    }

    /// The stored byte total for (user, collection) when quotas are enabled.
    pub fn check_quota(&self, user_id: u32, collection_id: i32) -> (r: Option<u64>)
        requires
            self.wf(),
        ensures
            r == (if self.quota_enabled {
                Some(
                    match self.uc_at(user_id as int, collection_id as int) {
                        Some(uc) => uc.total_bytes,
                        None => 0u64,
                    },
                )
            } else {
                None::<u64>
            }),
    {
        if !self.quota_enabled {
            return None;
        }
        match self.find_uc(user_id, collection_id) {
            Some(i) => Some(self.user_collections[i].total_bytes),
            None => Some(0),
        }
    }
}

/// When only the (u, c) summary row changes and its `modified` does not
/// decrease, every record stays covered.
pub(crate) proof fn lemma_bso_cover_uc_grow(pre: Db, post: Db, u: int, c: int)
    requires
        pre.wf_bsos(),
        post.bsos@ == pre.bsos@,
        forall|u2: int, c2: int|
            !(u2 == u && c2 == c) ==> #[trigger] post.uc_at(u2, c2) == pre.uc_at(u2, c2),
        match (pre.uc_at(u, c), post.uc_at(u, c)) {
            (Some(o), Some(n)) => n.modified >= o.modified,
            (None, Some(n)) => true,
            (None, None) => true,
            (Some(o), None) => false,
        },
        unique_by(post.bsos@, bso_key()),
    ensures
        post.wf_bsos(),
{
    assert forall|i: int| 0 <= i < post.bsos@.len() implies {
        let r = #[trigger] post.bsos@[i];
        &&& 0 <= r.modified < TS_LIMIT
        &&& match post.uc_at(r.user_id as int, r.collection_id as int) {
            Some(uc) => r.modified <= uc.modified,
            None => false,
        }
    } by {
        let r = post.bsos@[i];
        assert(pre.bsos@[i] == r);
        if !(r.user_id as int == u && r.collection_id as int == c) {
            assert(post.uc_at(r.user_id as int, r.collection_id as int) == pre.uc_at(
                r.user_id as int,
                r.collection_id as int,
            ));
        }
    }
}

impl Clone for StoredBso {
    fn clone(&self) -> (r: Self)
        ensures
            r == *self,
    {
        StoredBso {
            user_id: self.user_id,
            collection_id: self.collection_id,
            id: self.id.clone(),
            sortindex: self.sortindex,
            payload: self.payload.clone(),
            modified: self.modified,
            expiry: self.expiry,
        }
    }
}

impl Clone for UserCollection {
    fn clone(&self) -> (r: Self)
        ensures
            r == *self,
    {
        UserCollection {
            user_id: self.user_id,
            collection_id: self.collection_id,
            modified: self.modified,
            count: self.count,
            total_bytes: self.total_bytes,
        }
    }
}

impl Clone for BatchRow {
    fn clone(&self) -> (r: Self)
        ensures
            r == *self,
    {
        BatchRow {
            user_id: self.user_id,
            collection_id: self.collection_id,
            id: self.id.clone(),
            expiry: self.expiry,
        }
    }
}

impl Clone for BatchBso {
    fn clone(&self) -> (r: Self)
        ensures
            r == *self,
    {
        BatchBso {
            user_id: self.user_id,
            collection_id: self.collection_id,
            batch_id: self.batch_id.clone(),
            id: self.id.clone(),
            sortindex: self.sortindex,
            payload: match &self.payload {
                Some(p) => Some(p.clone()),
                None => None,
            },
            ttl: self.ttl,
        }
    }
}

/// The TTL in seconds that a write applies: the supplied one, or the default.
pub open spec fn ttl_secs(ttl: Option<u32>) -> int {
    match ttl {
        Some(t) => t as int,
        None => DEFAULT_BSO_TTL as int,
    }
}

/// How one record looks after `put_bso` merges `p` into `old_row`.
/// On a fresh record every field is written, with defaults for the absent
/// ones. On an existing record: a supplied payload replaces it and refreshes
/// `modified`; an omitted payload leaves both untouched; a supplied
/// sortindex replaces it; a supplied ttl recomputes `expiry` from the
/// incoming `modified` — and nothing else changes `expiry`.
pub open spec fn put_row_ok(old_row: Option<StoredBso>, p: params::PutBso, new_row: StoredBso) -> bool {
    &&& new_row.user_id == p.user_id
    &&& new_row.collection_id == p.collection_id
    &&& new_row.id@ == p.id@
    &&& match old_row {
        None => {
            &&& new_row.payload@ == (match p.payload {
                Some(pl) => pl@,
                None => Seq::<char>::empty(),
            })
            &&& new_row.sortindex == p.sortindex
            &&& new_row.modified == p.modified
            &&& new_row.expiry as int == p.modified + ttl_secs(p.ttl) * 1000
        },
        Some(o) => {
            &&& new_row.payload@ == (match p.payload {
                Some(pl) => pl@,
                None => o.payload@,
            })
            &&& new_row.sortindex == (match p.sortindex {
                Some(s) => Some(s),
                None => o.sortindex,
            })
            &&& new_row.modified == (if p.payload is Some {
                p.modified
            } else {
                o.modified
            })
            &&& new_row.expiry as int == (if p.ttl is Some {
                p.modified + ttl_secs(p.ttl) * 1000
            } else {
                o.expiry as int
            })
        },
    }
}

/// The full transition of `put_bso`: the addressed record is merged, no
/// other record changes, and the collection is touched with the write's
/// timestamp.
pub open spec fn put_post(pre: Db, post: Db, p: params::PutBso) -> bool {
    let u = p.user_id as int;
    let c = p.collection_id as int;
    let b = p.id@;
    &&& post.bso_at(u, c, b) matches Some(row) && put_row_ok(pre.bso_at(u, c, b), p, row)
    &&& forall|u2: int, c2: int, b2: Seq<char>|
        !(u2 == u && c2 == c && b2 == b) ==> #[trigger] post.bso_at(u2, c2, b2) == pre.bso_at(
            u2,
            c2,
            b2,
        )
    &&& uc_touched(pre, post, u, c, p.modified as int)
    &&& Db::same_registry(pre, post)
    &&& Db::same_batches(pre, post)
    &&& Db::same_config(pre, post)
}

/// A record as handed back to callers.
pub open spec fn row_to_bso(r: StoredBso) -> results::Bso {
    results::Bso {
        id: r.id,
        modified: r.modified,
        payload: r.payload,
        sortindex: r.sortindex,
        expiry: r.expiry,
    }
}

/// Membership of a character sequence in a list of them.
pub open spec fn id_in(ids: Seq<Seq<char>>, x: Seq<char>) -> bool {
    exists|i: int| 0 <= i < ids.len() && ids[i] == x
}

/// The views of a sequence of string slices.
pub open spec fn strs_views(s: Seq<&str>) -> Seq<Seq<char>> {
    s.map_values(|x: &str| x@)
}

/// Rows that survive `delete_bsos(u, c, ids)`.
pub open spec fn keep_unless_deleted(u: int, c: int, ids: Seq<Seq<char>>) -> spec_fn(
    StoredBso,
) -> bool {
    |r: StoredBso| !(r.user_id as int == u && r.collection_id as int == c && id_in(ids, r.id@))
}

/// Records outside the dropped collection.
pub open spec fn bso_not_in(u: int, c: int) -> spec_fn(StoredBso) -> bool {
    |r: StoredBso| !(r.user_id as int == u && r.collection_id as int == c)
}

/// Summary rows outside the dropped collection.
pub open spec fn uc_not_in(u: int, c: int) -> spec_fn(UserCollection) -> bool {
    |r: UserCollection| !(r.user_id as int == u && r.collection_id as int == c)
}

/// Batches outside the dropped collection.
pub open spec fn batch_not_in(u: int, c: int) -> spec_fn(BatchRow) -> bool {
    |r: BatchRow| !(r.user_id as int == u && r.collection_id as int == c)
}

/// Staged records outside the dropped collection.
pub open spec fn staged_not_in(u: int, c: int) -> spec_fn(BatchBso) -> bool {
    |r: BatchBso| !(r.user_id as int == u && r.collection_id as int == c)
}

impl Db {
    /// What a single-record read returns: the stored row, unless it has
    /// expired against the store's clock.
    pub open spec fn get_bso_spec(self, u: int, c: int, b: Seq<char>) -> Option<StoredBso> {
        match self.bso_at(u, c, b) {
            Some(row) => if row.expiry > self.clock_ms {
                Some(row)
            } else {
                None
            },
            None => None,
        }
    }

    /// Index of the record under (user, collection, id), with its meaning.
    pub(crate) fn find_bso(&self, user_id: u32, collection_id: i32, id: &String) -> (r: Option<usize>)
        requires
            unique_by(self.bsos@, bso_key()),
        ensures
            match r {
                Some(i) => i < self.bsos@.len() && self.bso_at(
                    user_id as int,
                    collection_id as int,
                    id@,
                ) == Some(self.bsos@[i as int]),
                None => self.bso_at(user_id as int, collection_id as int, id@) is None,
            },
    {
        let n = self.bsos.len();
        let mut i: usize = 0;
        while i < n
            invariant
                n == self.bsos@.len(),
                i <= n,
                unique_by(self.bsos@, bso_key()),
                forall|j: int|
                    0 <= j < i ==> #[trigger] bso_key()(self.bsos@[j]) != (
                    user_id as int,
                    collection_id as int,
                    id@,
                ),
            decreases n - i,
        {
            let row = &self.bsos[i];
            if row.user_id == user_id && row.collection_id == collection_id && string_eq_str(
                &row.id,
                id.as_str(),
            ) {
                proof {
                    lemma_find_at(self.bsos@, bso_key(), i as int);
                }
                return Some(i);
            }
            i += 1;
        }
        proof {
            assert(!has_key(
                self.bsos@,
                bso_key(),
                (user_id as int, collection_id as int, id@),
            ));
        }
        None
    }

    /// Upserts one record with the partial-update rules of `put_row_ok`, and
    /// touches the collection with the write's timestamp.
    pub fn put_bso_sync(&mut self, p: &params::PutBso) -> (r: Result<(), DbError>)
        requires
            old(self).wf(),
            0 <= p.modified < TS_LIMIT,
        ensures
            final(self).wf(),
            r is Ok,
            put_post(*old(self), *final(self), *p),
    {
        let tres = self.touch_collection(p.user_id, p.collection_id, p.modified);
        let ghost mid = *self;
        let ttl_s: u32 = match p.ttl {
            Some(t) => t,
            None => DEFAULT_BSO_TTL,
        };
        let idx = self.find_bso(p.user_id, p.collection_id, &p.id);
        match idx {
            Some(i) => {
                let o = self.bsos.remove(i);
                let row = StoredBso {
                    user_id: p.user_id,
                    collection_id: p.collection_id,
                    id: p.id.clone(),
                    sortindex: match p.sortindex {
                        Some(s) => Some(s),
                        None => o.sortindex,
                    },
                    payload: match &p.payload {
                        Some(pl) => pl.clone(),
                        None => o.payload,
                    },
                    modified: if p.payload.is_some() {
                        p.modified
                    } else {
                        o.modified
                    },
                    expiry: if p.ttl.is_some() {
                        p.modified + (ttl_s as i64) * 1000
                    } else {
                        o.expiry
                    },
                };
                self.bsos.insert(i, row);
                proof {
                    assert(self.bsos@ =~= mid.bsos@.update(i as int, row));
                    lemma_find_update(mid.bsos@, bso_key(), i as int, row);
                    lemma_put_frames(*old(self), mid, *self, *p);
                    assert forall|i2: int| 0 <= i2 < self.bsos@.len() implies {
                        let r2 = #[trigger] self.bsos@[i2];
                        &&& 0 <= r2.modified < TS_LIMIT
                        &&& match self.uc_at(r2.user_id as int, r2.collection_id as int) {
                            Some(uc) => r2.modified <= uc.modified,
                            None => false,
                        }
                    } by {
                        let r2 = self.bsos@[i2];
                        assert(self.uc_at(r2.user_id as int, r2.collection_id as int)
                            == mid.uc_at(r2.user_id as int, r2.collection_id as int));
                        if i2 != i as int {
                            assert(self.bsos@[i2] == mid.bsos@[i2]);
                        } else {
                            assert(r2 == row);
                            assert(mid.bsos@[i as int].modified <= mid.uc_at(
                                p.user_id as int,
                                p.collection_id as int,
                            )->Some_0.modified);
                        }
                    }
                }
                Ok(())
            },
            None => {
                let row = StoredBso {
                    user_id: p.user_id,
                    collection_id: p.collection_id,
                    id: p.id.clone(),
                    sortindex: p.sortindex,
                    payload: match &p.payload {
                        Some(pl) => pl.clone(),
                        None => String::new(),
                    },
                    modified: p.modified,
                    expiry: p.modified + (ttl_s as i64) * 1000,
                };
                proof {
                    lemma_find_push(self.bsos@, bso_key(), row);
                }
                self.bsos.push(row);
                proof {
                    lemma_put_frames(*old(self), mid, *self, *p);
                    assert forall|i2: int| 0 <= i2 < self.bsos@.len() implies {
                        let r2 = #[trigger] self.bsos@[i2];
                        &&& 0 <= r2.modified < TS_LIMIT
                        &&& match self.uc_at(r2.user_id as int, r2.collection_id as int) {
                            Some(uc) => r2.modified <= uc.modified,
                            None => false,
                        }
                    } by {
                        let r2 = self.bsos@[i2];
                        assert(self.uc_at(r2.user_id as int, r2.collection_id as int)
                            == mid.uc_at(r2.user_id as int, r2.collection_id as int));
                        if i2 < mid.bsos@.len() {
                            assert(self.bsos@[i2] == mid.bsos@[i2]);
                        } else {
                            assert(r2 == row);
                        }
                    }
                }
                Ok(())
            },
        }
    }

    /// Reads one record; absent and expired records read as `None`.
    pub fn get_bso_sync(&self, p: &params::GetBso) -> (r: Result<Option<results::Bso>, DbError>)
        requires
            self.wf(),
        ensures
            r matches Ok(o) && match (o, self.get_bso_spec(
                p.user_id as int,
                p.collection_id as int,
                p.id@,
            )) {
                (Some(b), Some(row)) => b == row_to_bso(row),
                (None, None) => true,
                _ => false,
            },
    {
        match self.find_bso(p.user_id, p.collection_id, &p.id) {
            Some(i) => {
                let row = &self.bsos[i];
                if row.expiry > self.clock_ms {
                    Ok(
                        Some(
                            results::Bso {
                                id: row.id.clone(),
                                modified: row.modified,
                                payload: row.payload.clone(),
                                sortindex: row.sortindex,
                                expiry: row.expiry,
                            },
                        ),
                    )
                } else {
                    Ok(None)
                }
            },
            None => Ok(None),
        }
    }

    /// Membership of a string among the given ids, by characters.
    pub(crate) fn ids_contain(ids: &[&str], x: &String) -> (b: bool)
        ensures
            b == id_in(strs_views(ids@), x@),
    {
        let n = ids.len();
        let mut j: usize = 0;
        while j < n
            invariant
                n == ids@.len(),
                j <= n,
                forall|k: int| 0 <= k < j ==> #[trigger] ids@[k]@ != x@,
            decreases n - j,
        {
            if string_eq_str(x, ids[j]) {
                proof {
                    assert(strs_views(ids@)[j as int] == ids@[j as int]@);
                }
                return true;
            }
            j += 1;
        }
        proof {
            assert forall|k: int| 0 <= k < strs_views(ids@).len() implies #[trigger] strs_views(
                ids@,
            )[k] != x@ by {
                assert(strs_views(ids@)[k] == ids@[k]@);
            }
        }
        false
    }

    /// Deletes the named records from one collection (absent ids are fine),
    /// touches the collection with the current clock, and returns the
    /// collection's new modification time.
    pub fn delete_bsos_sync(&mut self, user_id: u32, collection_id: i32, ids: &[&str]) -> (r:
        Result<i64, DbError>)
        requires
            old(self).wf(),
        ensures
            final(self).wf(),
            r is Ok,
            final(self).bsos@ == old(self).bsos@.filter(
                keep_unless_deleted(user_id as int, collection_id as int, strs_views(ids@)),
            ),
            forall|b: Seq<char>|
                id_in(strs_views(ids@), b) ==> #[trigger] final(self).bso_at(
                    user_id as int,
                    collection_id as int,
                    b,
                ) is None,
            forall|u2: int, c2: int, b2: Seq<char>|
                !(u2 == user_id as int && c2 == collection_id as int) ==> #[trigger] final(self).bso_at(u2, c2, b2) == old(self).bso_at(u2, c2, b2),
            uc_touched(
                *old(self),
                *final(self),
                user_id as int,
                collection_id as int,
                old(self).clock_ms as int,
            ),
            Some(r->Ok_0) == match final(self).uc_at(user_id as int, collection_id as int) {
                Some(n) => Some(n.modified),
                None => None::<i64>,
            },
            Db::same_registry(*old(self), *final(self)),
            Db::same_batches(*old(self), *final(self)),
            Db::same_config(*old(self), *final(self)),
    {
        let ghost u = user_id as int;
        let ghost c = collection_id as int;
        let n = self.bsos.len();
        let mut kept: Vec<StoredBso> = Vec::new();
        let mut i: usize = 0;
        while i < n
            invariant
                n == self.bsos@.len(),
                i <= n,
                unique_by(self.bsos@, bso_key()),
                u == user_id as int,
                c == collection_id as int,
                kept@ == self.bsos@.take(i as int).filter(keep_unless_deleted(u, c, strs_views(ids@))),
            decreases n - i,
        {
            let row = &self.bsos[i];
            let hit = row.user_id == user_id && row.collection_id == collection_id
                && Db::ids_contain(ids, &row.id);
            if !hit {
                kept.push(row.clone());
            }
            proof {
                reveal(Seq::filter);
                assert(self.bsos@.take(i + 1).drop_last() =~= self.bsos@.take(i as int));
                assert(self.bsos@.take(i + 1).last() == self.bsos@[i as int]);
                assert(kept@ == self.bsos@.take(i + 1).filter(keep_unless_deleted(u, c, strs_views(ids@))));
            }
            i += 1;
        }
        proof {
            assert(self.bsos@.take(n as int) =~= self.bsos@);
            lemma_find_filter(self.bsos@, bso_key(), keep_unless_deleted(u, c, strs_views(ids@)));
        }
        let ghost pre = *self;
        self.bsos = kept;
        proof {
            assert forall|i2: int| 0 <= i2 < self.bsos@.len() implies {
                let r2 = #[trigger] self.bsos@[i2];
                &&& 0 <= r2.modified < TS_LIMIT
                &&& match self.uc_at(r2.user_id as int, r2.collection_id as int) {
                    Some(uc) => r2.modified <= uc.modified,
                    None => false,
                }
            } by {
                let r2 = self.bsos@[i2];
                assert(self.bsos@[i2] == pre.bsos@.filter(keep_unless_deleted(u, c, strs_views(ids@)))[i2]);
                lemma_filter_member_at(pre.bsos@, bso_key(), keep_unless_deleted(u, c, strs_views(ids@)), i2);
                let j = choose|j: int|
                    0 <= j < pre.bsos@.len() && pre.bsos@.filter(keep_unless_deleted(u, c, strs_views(ids@)))[i2] == #[trigger] pre.bsos@[j];
                assert(pre.bsos@[j] == r2);
                assert(self.uc_at(r2.user_id as int, r2.collection_id as int) == pre.uc_at(
                    r2.user_id as int,
                    r2.collection_id as int,
                ));
            }
        }
        let ghost mid = *self;
        let now = self.clock_ms;
        let tres = self.touch_collection(user_id, collection_id, now);
        proof {
            assert forall|b: Seq<char>| id_in(strs_views(ids@), b) implies #[trigger] self.bso_at(
                u,
                c,
                b,
            ) is None by {
                assert(self.bso_at(u, c, b) == mid.bso_at(u, c, b));
                match find_by(pre.bsos@, bso_key(), (u, c, b)) {
                    Some(t) => {
                        assert(bso_key()(t) == (u, c, b));
                        assert(!(keep_unless_deleted(u, c, strs_views(ids@))(t)));
                    },
                    None => {},
                }
            }
            assert forall|u2: int, c2: int, b2: Seq<char>| !(u2 == u && c2 == c) implies #[trigger] self.bso_at(
                u2,
                c2,
                b2,
            ) == old(self).bso_at(u2, c2, b2) by {
                assert(self.bso_at(u2, c2, b2) == mid.bso_at(u2, c2, b2));
                match find_by(pre.bsos@, bso_key(), (u2, c2, b2)) {
                    Some(t) => {
                        assert(bso_key()(t) == (u2, c2, b2));
                        assert(keep_unless_deleted(u, c, strs_views(ids@))(t));
                    },
                    None => {},
                }
            }
        }
        match tres {
            Ok(m) => Ok(m),
            Err(e) => Err(e),
        }
    }

    /// Removes a whole collection for the user: its records, its summary
    /// row, and (cascading) its batches and staged records. Returns the
    /// user's storage modification time after the deletion: the maximum over
    /// the remaining collections, or the clock when none remain.
    pub fn delete_collection_sync(&mut self, user_id: u32, collection_id: i32) -> (r: Result<
        i64,
        DbError,
    >)
        requires
            old(self).wf(),
        ensures
            final(self).wf(),
            final(self).bsos@ == old(self).bsos@.filter(
                bso_not_in(user_id as int, collection_id as int),
            ),
            final(self).user_collections@ == old(self).user_collections@.filter(
                uc_not_in(user_id as int, collection_id as int),
            ),
            final(self).batches@ == old(self).batches@.filter(
                batch_not_in(user_id as int, collection_id as int),
            ),
            final(self).batch_bsos@ == old(self).batch_bsos@.filter(
                staged_not_in(user_id as int, collection_id as int),
            ),
            final(self).uc_at(user_id as int, collection_id as int) is None,
            forall|u2: int, c2: int|
                !(u2 == user_id as int && c2 == collection_id as int) ==> #[trigger] final(self).uc_at(u2, c2) == old(self).uc_at(u2, c2),
            forall|u2: int, c2: int, b2: Seq<char>|
                !(u2 == user_id as int && c2 == collection_id as int) ==> #[trigger] final(self).bso_at(u2, c2, b2) == old(self).bso_at(u2, c2, b2),
            r matches Ok(m) && m as int == (match max_modified_of(
                final(self).user_collections@,
                user_id as int,
            ) {
                Some(v) => v,
                None => old(self).clock_ms as int,
            }),
            Db::same_registry(*old(self), *final(self)),
            Db::same_config(*old(self), *final(self)),
    {
        let ghost u = user_id as int;
        let ghost c = collection_id as int;
        self.drop_collection_rows(user_id, collection_id);
        self.get_storage_modified_sync(user_id)
    }

    /// Removes every row keyed to (user, collection) from all four tables.
    fn drop_collection_rows(&mut self, user_id: u32, collection_id: i32)
        requires
            old(self).wf(),
        ensures
            final(self).wf(),
            final(self).bsos@ == old(self).bsos@.filter(
                bso_not_in(user_id as int, collection_id as int),
            ),
            final(self).user_collections@ == old(self).user_collections@.filter(
                uc_not_in(user_id as int, collection_id as int),
            ),
            final(self).batches@ == old(self).batches@.filter(
                batch_not_in(user_id as int, collection_id as int),
            ),
            final(self).batch_bsos@ == old(self).batch_bsos@.filter(
                staged_not_in(user_id as int, collection_id as int),
            ),
            final(self).uc_at(user_id as int, collection_id as int) is None,
            forall|u2: int, c2: int|
                !(u2 == user_id as int && c2 == collection_id as int) ==> #[trigger] final(self).uc_at(u2, c2) == old(self).uc_at(u2, c2),
            forall|u2: int, c2: int, b2: Seq<char>|
                !(u2 == user_id as int && c2 == collection_id as int) ==> #[trigger] final(self).bso_at(u2, c2, b2) == old(self).bso_at(u2, c2, b2),
            Db::same_registry(*old(self), *final(self)),
            Db::same_config(*old(self), *final(self)),
    {
        let ghost u = user_id as int;
        let ghost c = collection_id as int;

        let n1 = self.bsos.len();
        let mut kept1: Vec<StoredBso> = Vec::new();
        let mut i: usize = 0;
        while i < n1
            invariant
                n1 == self.bsos@.len(),
                i <= n1,
                u == user_id as int,
                c == collection_id as int,
                kept1@ == self.bsos@.take(i as int).filter(bso_not_in(u, c)),
            decreases n1 - i,
        {
            let row = &self.bsos[i];
            if !(row.user_id == user_id && row.collection_id == collection_id) {
                kept1.push(row.clone());
            }
            proof {
                reveal(Seq::filter);
                assert(self.bsos@.take(i + 1).drop_last() =~= self.bsos@.take(i as int));
                assert(self.bsos@.take(i + 1).last() == self.bsos@[i as int]);
                assert(kept1@ == self.bsos@.take(i + 1).filter(bso_not_in(u, c)));
            }
            i += 1;
        }
        proof {
            assert(self.bsos@.take(n1 as int) =~= self.bsos@);
            lemma_find_filter(self.bsos@, bso_key(), bso_not_in(u, c));
        }

        let n2 = self.user_collections.len();
        let mut kept2: Vec<UserCollection> = Vec::new();
        let mut i2: usize = 0;
        while i2 < n2
            invariant
                n2 == self.user_collections@.len(),
                i2 <= n2,
                u == user_id as int,
                c == collection_id as int,
                kept2@ == self.user_collections@.take(i2 as int).filter(uc_not_in(u, c)),
            decreases n2 - i2,
        {
            let row = &self.user_collections[i2];
            if !(row.user_id == user_id && row.collection_id == collection_id) {
                kept2.push(row.clone());
            }
            proof {
                reveal(Seq::filter);
                assert(self.user_collections@.take(i2 + 1).drop_last() =~= self.user_collections@
                    .take(i2 as int));
                assert(self.user_collections@.take(i2 + 1).last() == self.user_collections@[
                    i2 as int]);
                assert(kept2@ == self.user_collections@.take(i2 + 1).filter(uc_not_in(u, c)));
            }
            i2 += 1;
        }
        proof {
            assert(self.user_collections@.take(n2 as int) =~= self.user_collections@);
            lemma_find_filter(self.user_collections@, uc_key(), uc_not_in(u, c));
        }

        let n3 = self.batches.len();
        let mut kept3: Vec<BatchRow> = Vec::new();
        let mut i3: usize = 0;
        while i3 < n3
            invariant
                n3 == self.batches@.len(),
                i3 <= n3,
                u == user_id as int,
                c == collection_id as int,
                kept3@ == self.batches@.take(i3 as int).filter(batch_not_in(u, c)),
            decreases n3 - i3,
        {
            let row = &self.batches[i3];
            if !(row.user_id == user_id && row.collection_id == collection_id) {
                kept3.push(row.clone());
            }
            proof {
                reveal(Seq::filter);
                assert(self.batches@.take(i3 + 1).drop_last() =~= self.batches@.take(i3 as int));
                assert(self.batches@.take(i3 + 1).last() == self.batches@[i3 as int]);
                assert(kept3@ == self.batches@.take(i3 + 1).filter(batch_not_in(u, c)));
            }
            i3 += 1;
        }
        proof {
            assert(self.batches@.take(n3 as int) =~= self.batches@);
            lemma_find_filter(self.batches@, batch_key(), batch_not_in(u, c));
        }

        let n4 = self.batch_bsos.len();
        let mut kept4: Vec<BatchBso> = Vec::new();
        let mut i4: usize = 0;
        while i4 < n4
            invariant
                n4 == self.batch_bsos@.len(),
                i4 <= n4,
                u == user_id as int,
                c == collection_id as int,
                kept4@ == self.batch_bsos@.take(i4 as int).filter(staged_not_in(u, c)),
            decreases n4 - i4,
        {
            let row = &self.batch_bsos[i4];
            if !(row.user_id == user_id && row.collection_id == collection_id) {
                kept4.push(row.clone());
            }
            proof {
                reveal(Seq::filter);
                assert(self.batch_bsos@.take(i4 + 1).drop_last() =~= self.batch_bsos@.take(
                    i4 as int,
                ));
                assert(self.batch_bsos@.take(i4 + 1).last() == self.batch_bsos@[i4 as int]);
                assert(kept4@ == self.batch_bsos@.take(i4 + 1).filter(staged_not_in(u, c)));
            }
            i4 += 1;
        }
        proof {
            assert(self.batch_bsos@.take(n4 as int) =~= self.batch_bsos@);
            lemma_find_filter(self.batch_bsos@, staged_key(), staged_not_in(u, c));
        }

        let ghost pre = *self;
        self.bsos = kept1;
        self.user_collections = kept2;
        self.batches = kept3;
        self.batch_bsos = kept4;
        proof {
            match find_by(pre.user_collections@, uc_key(), (u, c)) {
                Some(t) => {
                    assert(uc_key()(t) == (u, c));
                    assert(!(uc_not_in(u, c)(t)));
                },
                None => {},
            }
            assert(self.uc_at(u, c) is None);
            assert forall|u2: int, c2: int| !(u2 == u && c2 == c) implies #[trigger] self.uc_at(
                u2,
                c2,
            ) == pre.uc_at(u2, c2) by {
                match find_by(pre.user_collections@, uc_key(), (u2, c2)) {
                    Some(t) => {
                        assert(uc_key()(t) == (u2, c2));
                        assert(uc_not_in(u, c)(t));
                    },
                    None => {},
                }
            }
            assert forall|u2: int, c2: int, b2: Seq<char>| !(u2 == u && c2 == c) implies #[trigger] self.bso_at(
                u2,
                c2,
                b2,
            ) == pre.bso_at(u2, c2, b2) by {
                match find_by(pre.bsos@, bso_key(), (u2, c2, b2)) {
                    Some(t) => {
                        assert(bso_key()(t) == (u2, c2, b2));
                        assert(bso_not_in(u, c)(t));
                    },
                    None => {},
                }
            }
            assert forall|i5: int| 0 <= i5 < self.user_collections@.len() implies {
                let r5 = #[trigger] self.user_collections@[i5];
                r5.modified == PRETOUCH_TS || (0 <= r5.modified < TS_LIMIT)
            } by {
                assert(self.user_collections@[i5] == pre.user_collections@.filter(uc_not_in(u, c))[
                    i5]);
                lemma_filter_member_at(pre.user_collections@, uc_key(), uc_not_in(u, c), i5);
                let j = choose|j: int|
                    0 <= j < pre.user_collections@.len() && pre.user_collections@.filter(
                        uc_not_in(u, c),
                    )[i5] == #[trigger] pre.user_collections@[j];
                assert(pre.user_collections@[j] == self.user_collections@[i5]);
            }
            assert forall|i5: int| 0 <= i5 < self.bsos@.len() implies {
                let r5 = #[trigger] self.bsos@[i5];
                &&& 0 <= r5.modified < TS_LIMIT
                &&& match self.uc_at(r5.user_id as int, r5.collection_id as int) {
                    Some(uc) => r5.modified <= uc.modified,
                    None => false,
                }
            } by {
                let r5 = self.bsos@[i5];
                assert(self.bsos@[i5] == pre.bsos@.filter(bso_not_in(u, c))[i5]);
                lemma_filter_member_at(pre.bsos@, bso_key(), bso_not_in(u, c), i5);
                let j = choose|j: int|
                    0 <= j < pre.bsos@.len() && pre.bsos@.filter(bso_not_in(u, c))[i5]
                        == #[trigger] pre.bsos@[j];
                assert(pre.bsos@[j] == r5);
                assert(!(r5.user_id as int == u && r5.collection_id as int == c));
                assert(self.uc_at(r5.user_id as int, r5.collection_id as int) == pre.uc_at(
                    r5.user_id as int,
                    r5.collection_id as int,
                ));
            }
        }
    }

    /// Stamps a commit timestamp on the collection: strictly greater than
    /// the stored `modified` (pretouch sentinel included) and at least the
    /// clock. Fails only when the stored timestamp has reached the ceiling.
    pub fn update_collection(&mut self, user_id: u32, collection_id: i32) -> (r: Result<
        i64,
        DbError,
    >)
        requires
            old(self).wf(),
        ensures
            final(self).wf(),
            match r {
                Ok(t) => {
                    &&& t as int == (match old(self).uc_at(user_id as int, collection_id as int) {
                        Some(o) => if old(self).clock_ms >= o.modified + 1 {
                            old(self).clock_ms as int
                        } else {
                            o.modified + 1
                        },
                        None => old(self).clock_ms as int,
                    })
                    &&& 0 <= t < TS_LIMIT
                    &&& t >= old(self).clock_ms
                    &&& (match old(self).uc_at(user_id as int, collection_id as int) {
                        Some(o) => t > o.modified,
                        None => true,
                    })
                    &&& final(self).uc_at(user_id as int, collection_id as int) matches Some(n)
                        && n.modified == t && n.user_id == user_id && n.collection_id
                        == collection_id && (match old(self).uc_at(
                        user_id as int,
                        collection_id as int,
                    ) {
                        Some(o) => n.count == o.count && n.total_bytes == o.total_bytes,
                        None => n.count == 0 && n.total_bytes == 0,
                    })
                    &&& forall|u2: int, c2: int|
                        !(u2 == user_id as int && c2 == collection_id as int) ==> #[trigger] final(self).uc_at(u2, c2) == old(self).uc_at(u2, c2)
                },
                Err(e) => {
                    &&& e.kind is Internal
                    &&& old(self).uc_at(user_id as int, collection_id as int) matches Some(o)
                        && o.modified == TS_LIMIT - 1
                    &&& *final(self) == *old(self)
                },
            },
            final(self).bsos@ == old(self).bsos@,
            Db::same_registry(*old(self), *final(self)),
            Db::same_batches(*old(self), *final(self)),
            Db::same_config(*old(self), *final(self)),
    {
        let ghost u = user_id as int;
        let ghost c = collection_id as int;
        match self.find_uc(user_id, collection_id) {
            Some(i) => {
                let prev = self.user_collections[i].modified;
                let bumped = prev + 1;
                let t = if self.clock_ms >= bumped {
                    self.clock_ms
                } else {
                    bumped
                };
                if t >= TS_LIMIT {
                    return Err(DbError::of_kind(DbErrorKind::Internal));
                }
                let o = self.user_collections.remove(i);
                let row = UserCollection {
                    user_id,
                    collection_id,
                    modified: t,
                    count: o.count,
                    total_bytes: o.total_bytes,
                };
                self.user_collections.insert(i, row);
                proof {
                    assert(self.user_collections@ =~= old(self).user_collections@.update(
                        i as int,
                        row,
                    ));
                    lemma_find_update(old(self).user_collections@, uc_key(), i as int, row);
                    lemma_bso_cover_uc_grow(*old(self), *self, u, c);
                }
                Ok(t)
            },
            None => {
                let t = self.clock_ms;
                let row = UserCollection {
                    user_id,
                    collection_id,
                    modified: t,
                    count: 0,
                    total_bytes: 0,
                };
                proof {
                    lemma_find_push(self.user_collections@, uc_key(), row);
                }
                self.user_collections.push(row);
                proof {
                    lemma_bso_cover_uc_grow(*old(self), *self, u, c);
                }
                Ok(t)
            },
        }
    }
}

/// After a touch followed by a record upsert, the whole `put_bso`
/// transition holds from the pre-state.
proof fn lemma_put_frames(pre: Db, mid: Db, post: Db, p: params::PutBso)
    requires
        uc_touched(pre, mid, p.user_id as int, p.collection_id as int, p.modified as int),
        post.user_collections@ == mid.user_collections@,
    ensures
        uc_touched(pre, post, p.user_id as int, p.collection_id as int, p.modified as int),
{
    let u = p.user_id as int;
    let c = p.collection_id as int;
    assert(post.uc_at(u, c) == mid.uc_at(u, c));
    assert forall|u2: int, c2: int| !(u2 == u && c2 == c) implies #[trigger] post.uc_at(u2, c2)
        == pre.uc_at(u2, c2) by {
        assert(post.uc_at(u2, c2) == mid.uc_at(u2, c2));
    }
}

/// A record that counts toward (user, collection) quotas: theirs and not
/// expired.
pub open spec fn is_live_row(r: StoredBso, u: int, c: int, now: int) -> bool {
    r.user_id as int == u && r.collection_id as int == c && r.expiry as int > now
}

/// Number of live records of (user, collection).
pub open spec fn live_count_of(rows: Seq<StoredBso>, u: int, c: int, now: int) -> int
    decreases rows.len(),
{
    if rows.len() == 0 {
        0
    } else {
        live_count_of(rows.drop_last(), u, c, now) + if is_live_row(rows.last(), u, c, now) {
            1int
        } else {
            0int
        }
    }
}

/// Total payload bytes of the live records of (user, collection).
pub open spec fn live_bytes_of(rows: Seq<StoredBso>, u: int, c: int, now: int) -> int
    decreases rows.len(),
{
    if rows.len() == 0 {
        0
    } else {
        live_bytes_of(rows.drop_last(), u, c, now) + if is_live_row(rows.last(), u, c, now) {
            rows.last().payload@.len() as int
        } else {
            0int
        }
    }
}

/// `v` clamped to what a `u64` holds.
pub open spec fn clamp_u64(v: int) -> int {
    if v > u64::MAX {
        u64::MAX as int
    } else {
        v
    }
}

impl Db {
    /// Recomputes and stores the quota counters of (user, collection): the
    /// count and payload-byte total of its live records. A collection the
    /// user never touched is left alone.
    pub fn update_user_collection_quotas(&mut self, user_id: u32, collection_id: i32) -> (r:
        Result<(), DbError>)
        requires
            old(self).wf(),
        ensures
            final(self).wf(),
            r is Ok,
            match old(self).uc_at(user_id as int, collection_id as int) {
                Some(o) => {
                    &&& final(self).uc_at(user_id as int, collection_id as int) matches Some(n)
                        && n.modified == o.modified && n.user_id == o.user_id && n.collection_id
                        == o.collection_id && n.count as int == live_count_of(
                        old(self).bsos@,
                        user_id as int,
                        collection_id as int,
                        old(self).clock_ms as int,
                    ) && n.total_bytes as int == clamp_u64(
                        live_bytes_of(
                            old(self).bsos@,
                            user_id as int,
                            collection_id as int,
                            old(self).clock_ms as int,
                        ),
                    )
                },
                None => final(self).uc_at(user_id as int, collection_id as int) is None,
            },
            forall|u2: int, c2: int|
                !(u2 == user_id as int && c2 == collection_id as int) ==> #[trigger] final(self).uc_at(u2, c2) == old(self).uc_at(u2, c2),
            final(self).bsos@ == old(self).bsos@,
            Db::same_registry(*old(self), *final(self)),
            Db::same_batches(*old(self), *final(self)),
            Db::same_config(*old(self), *final(self)),
    {
        let ghost u = user_id as int;
        let ghost c = collection_id as int;
        let ghost nowg = self.clock_ms as int;
        let n = self.bsos.len();
        let mut count: u64 = 0;
        let mut total: u64 = 0;
        let mut i: usize = 0;
        while i < n
            invariant
                n == self.bsos@.len(),
                i <= n,
                self.wf(),
                u == user_id as int,
                c == collection_id as int,
                nowg == self.clock_ms as int,
                count as int == live_count_of(self.bsos@.take(i as int), u, c, nowg),
                count <= i,
                total as int == clamp_u64(live_bytes_of(self.bsos@.take(i as int), u, c, nowg)),
            decreases n - i,
        {
            proof {
                assert(self.bsos@.take(i + 1).drop_last() =~= self.bsos@.take(i as int));
                assert(self.bsos@.take(i + 1).last() == self.bsos@[i as int]);
            }
            let row = &self.bsos[i];
            if row.user_id == user_id && row.collection_id == collection_id && row.expiry
                > self.clock_ms {
                count = count + 1;
                let len64: u64 = row.payload.unicode_len() as u64;
                total = if total > u64::MAX - len64 {
                    u64::MAX
                } else {
                    total + len64
                };
            }
            i += 1;
        }
        proof {
            assert(self.bsos@.take(n as int) =~= self.bsos@);
        }
        match self.find_uc(user_id, collection_id) {
            Some(j) => {
                let o = self.user_collections.remove(j);
                let row = UserCollection {
                    user_id,
                    collection_id,
                    modified: o.modified,
                    count,
                    total_bytes: total,
                };
                self.user_collections.insert(j, row);
                proof {
                    assert(self.user_collections@ =~= old(self).user_collections@.update(
                        j as int,
                        row,
                    ));
                    lemma_find_update(old(self).user_collections@, uc_key(), j as int, row);
                    lemma_bso_cover_uc_grow(*old(self), *self, u, c);
                }
                Ok(())
            },
            None => Ok(()),
        }
    }
}

/// A store that no operation has touched yet: the reserved registry and
/// nothing else. This is the statement of the fixed name-to-id binding.
pub open spec fn fresh_store(r: Db) -> bool {
    &&& r.collections@.len() == 13
    &&& forall|i: int| 0 <= i < 13 ==> (#[trigger] r.collections@[i]).id == i + 1
    &&& r.collections@[0].name@ == "clients"@
    &&& r.collections@[1].name@ == "crypto"@
    &&& r.collections@[2].name@ == "forms"@
    &&& r.collections@[3].name@ == "history"@
    &&& r.collections@[4].name@ == "keys"@
    &&& r.collections@[5].name@ == "meta"@
    &&& r.collections@[6].name@ == "bookmarks"@
    &&& r.collections@[7].name@ == "prefs"@
    &&& r.collections@[8].name@ == "tabs"@
    &&& r.collections@[9].name@ == "passwords"@
    &&& r.collections@[10].name@ == "addons"@
    &&& r.collections@[11].name@ == "addresses"@
    &&& r.collections@[12].name@ == "creditcards"@
    &&& r.next_collection_id == 100
    &&& r.user_collections@.len() == 0
    &&& r.bsos@.len() == 0
    &&& r.batches@.len() == 0
    &&& r.batch_bsos@.len() == 0
    &&& r.clock_ms == 0
}

/// Equality of string slices, stated over their character views.
pub fn str_eq(a: &str, b: &str) -> (r: bool)
    ensures
        r == (a@ == b@),
{
    let x: String = a.to_owned();
    let y: String = b.to_owned();
    x == y
}

/// Equality of a string and a slice, stated over their character views.
pub fn string_eq_str(a: &String, b: &str) -> (r: bool)
    ensures
        r == (a@ == b@),
{
    let y: String = b.to_owned();
    *a == y
}

/// Summary lookups that are unchanged keep every record covered.
pub(crate) proof fn lemma_bso_cover_stable(pre: Db, post: Db)
    requires
        pre.wf_bsos(),
        post.bsos@ == pre.bsos@,
        forall|u: int, c: int| #[trigger] post.uc_at(u, c) == pre.uc_at(u, c),
    ensures
        post.wf_bsos(),
{
    assert forall|i: int| 0 <= i < post.bsos@.len() implies {
        let r = #[trigger] post.bsos@[i];
        &&& 0 <= r.modified < TS_LIMIT
        &&& match post.uc_at(r.user_id as int, r.collection_id as int) {
            Some(uc) => r.modified <= uc.modified,
            None => false,
        }
    } by {
        let r = post.bsos@[i];
        assert(pre.bsos@[i] == r);
        assert(post.uc_at(r.user_id as int, r.collection_id as int) == pre.uc_at(
            r.user_id as int,
            r.collection_id as int,
        ));
    }
}

} // verus!
