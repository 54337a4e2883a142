//! The query and paging engine: filtered, ordered listing of records with
//! offset continuation.
use vstd::multiset::Multiset;
use vstd::prelude::*;

use crate::error::DbError;
use crate::params::Sorting;
use crate::results;
use crate::store::{id_in, row_to_bso, strs_views, Db, StoredBso};

verus! {

/// The `get_bsos` filter: right user and collection, not expired against the
/// caller's floor, newer than the watermark, and (when ids are given) among
/// them.
pub open spec fn bso_matches(
    r: StoredBso,
    u: int,
    c: int,
    ids: Seq<Seq<char>>,
    ttl_floor: int,
    newer: int,
) -> bool {
    &&& r.user_id as int == u
    &&& r.collection_id as int == c
    &&& r.expiry as int > ttl_floor
    &&& r.modified as int > newer
    &&& (ids.len() == 0 || id_in(ids, r.id@))
}

/// The filter as a row predicate.
pub open spec fn matches_pred(u: int, c: int, ids: Seq<Seq<char>>, ttl_floor: int, newer: int) -> spec_fn(
    StoredBso,
) -> bool {
    |r: StoredBso| bso_matches(r, u, c, ids, ttl_floor, newer)
}

/// Rows converted to result records.
pub open spec fn to_bsos(s: Seq<StoredBso>) -> Seq<results::Bso> {
    s.map_values(|x: StoredBso| row_to_bso(x))
}

/// The order each sort mode demands: `a` may stand before `b`.
pub open spec fn bso_le(sort: Sorting, a: results::Bso, b: results::Bso) -> bool {
    match sort {
        Sorting::Newest => a.modified >= b.modified,
        Sorting::Oldest => a.modified <= b.modified,
        Sorting::Index => match (a.sortindex, b.sortindex) {
            (Some(x), Some(y)) => x > y || (x == y && a.modified >= b.modified),
            (Some(x), None) => true,
            (None, Some(y)) => false,
            (None, None) => a.modified >= b.modified,
        },
        Sorting::Unsorted => true,
    }
}

/// Pairwise sortedness under a sort mode.
pub open spec fn sorted_by_le(sort: Sorting, s: Seq<results::Bso>) -> bool {
    forall|i: int, j: int| 0 <= i < j < s.len() ==> #[trigger] bso_le(sort, s[i], s[j])
}

/// What `get_bsos` returns: some ordering `full` of exactly the matching
/// records (the store's row order itself when unsorted), of which the result
/// is the page addressed by `limit` and `offset`, with the continuation
/// state the caller passes back.
pub open spec fn get_bsos_post(
    pre: Db,
    u: int,
    c: int,
    ids: Seq<Seq<char>>,
    ttl_floor: int,
    newer: int,
    sort: Sorting,
    limit: int,
    offset: int,
    r: results::GetBsos,
) -> bool {
    let matching = to_bsos(pre.bsos@.filter(matches_pred(u, c, ids, ttl_floor, newer)));
    exists|full: Seq<results::Bso>|
        {
            &&& #[trigger] full.to_multiset() == matching.to_multiset()
            &&& sorted_by_le(sort, full)
            &&& (sort == Sorting::Unsorted ==> full == matching)
            &&& {
                let total = full.len() as int;
                if limit < 0 {
                    r.bsos@ == full && r.more == false && r.offset == 0
                } else if limit == 0 {
                    r.bsos@.len() == 0 && r.more == (total > 0) && r.offset == 0
                } else {
                    let start = if offset <= total {
                        offset
                    } else {
                        total
                    };
                    let end = if start + limit <= total {
                        start + limit
                    } else {
                        total
                    };
                    &&& r.bsos@ == full.subrange(start, end)
                    &&& r.more == (end < total)
                    &&& r.offset == (if end < total {
                        offset + (end - start)
                    } else {
                        0
                    })
                }
            }
        }
}

/// `bso_le` is total for every sort mode.
proof fn lemma_bso_le_total(sort: Sorting, a: results::Bso, b: results::Bso)
    ensures
        bso_le(sort, a, b) || bso_le(sort, b, a),
{
}

/// `bso_le` is transitive for every sort mode.
proof fn lemma_bso_le_trans(sort: Sorting, a: results::Bso, b: results::Bso, c: results::Bso)
    requires
        bso_le(sort, a, b),
        bso_le(sort, b, c),
    ensures
        bso_le(sort, a, c),
{
}

/// Comparison of two records under a sort mode.
fn bso_le_exec(sort: Sorting, a: &results::Bso, b: &results::Bso) -> (r: bool)
    ensures
        r == bso_le(sort, *a, *b),
{
    match sort {
        Sorting::Newest => a.modified >= b.modified,
        Sorting::Oldest => a.modified <= b.modified,
        Sorting::Index => match (a.sortindex, b.sortindex) {
            (Some(x), Some(y)) => x > y || (x == y && a.modified >= b.modified),
            (Some(_), None) => true,
            (None, Some(_)) => false,
            (None, None) => a.modified >= b.modified,
        },
        Sorting::Unsorted => true,
    }
}

/// Insertion sort: the result holds the same records, ordered by the mode.
fn sort_bsos(v: Vec<results::Bso>, sort: Sorting) -> (out: Vec<results::Bso>)
    ensures
        out@.to_multiset() == v@.to_multiset(),
        sorted_by_le(sort, out@),
{
    broadcast use vstd::seq_lib::group_to_multiset_ensures;
    broadcast use vstd::multiset::group_multiset_axioms;

    let mut src = v;
    let mut out: Vec<results::Bso> = Vec::new();
    let ghost all = src@;
    while src.len() > 0
        invariant
            out@.to_multiset().add(src@.to_multiset()) =~= all.to_multiset(),
            sorted_by_le(sort, out@),
        decreases src.len(),
    {
        let ghost src0 = src@;
        let x = src.pop().unwrap();
        proof {
            assert(src0.drop_last() == src@);
            assert(src0 =~= src@.push(x));
        }
        let mut pos: usize = 0;
        let n = out.len();
        while pos < n && bso_le_exec(sort, &out[pos], &x)
            invariant
                n == out@.len(),
                pos <= n,
                forall|j: int| 0 <= j < pos ==> #[trigger] bso_le(sort, out@[j], x),
            decreases n - pos,
        {
            pos += 1;
        }
        let ghost out0 = out@;
        out.insert(pos, x);
        proof {
            vstd::seq_lib::to_multiset_insert(out0, pos as int, x);
            assert(out@.to_multiset() == out0.to_multiset().insert(x));
            vstd::seq_lib::to_multiset_build(src@, x);
            assert(src0.to_multiset() == src@.push(x).to_multiset());
            assert forall|e: results::Bso|
                out@.to_multiset().add(src@.to_multiset()).count(e) == all.to_multiset().count(
                    e,
                ) by {
                assert(out0.to_multiset().add(src0.to_multiset()).count(e) == all.to_multiset()
                    .count(e));
            }
            assert(out@.to_multiset().add(src@.to_multiset()) =~= all.to_multiset());
            assert forall|i: int, j: int| 0 <= i < j < out@.len() implies #[trigger] bso_le(
                sort,
                out@[i],
                out@[j],
            ) by {
                if pos < n {
                    assert(!bso_le(sort, out0[pos as int], x));
                    lemma_bso_le_total(sort, out0[pos as int], x);
                }
                if j < pos {
                    assert(out@[i] == out0[i] && out@[j] == out0[j]);
                } else if j == pos {
                    assert(out@[j] == x);
                    if i < pos {
                        assert(out@[i] == out0[i]);
                    }
                } else {
                    assert(out@[j] == out0[j - 1]);
                    assert(pos <= j - 1 < out0.len());
                    if pos < j - 1 {
                        lemma_bso_le_trans(sort, x, out0[pos as int], out0[j - 1]);
                    }
                    if i < pos {
                        assert(out@[i] == out0[i]);
                        lemma_bso_le_trans(sort, out0[i], x, out0[j - 1]);
                    } else if i == pos {
                        assert(out@[i] == x);
                    } else {
                        assert(out@[i] == out0[i - 1]);
                    }
                }
            }
        }
    }
    proof {
        assert(src@.to_multiset() =~= Multiset::<results::Bso>::empty());
        assert(out@.to_multiset() =~= all.to_multiset());
    }
    out
}

impl Db {
    /// Ordered, filtered listing of one collection's live records with
    /// offset-based continuation. `limit < 0` means no limit; `limit == 0`
    /// probes whether anything matches.
    pub fn get_bsos_sync(
        &self,
        user_id: u32,
        collection_id: i32,
        ids: &[&str],
        ttl_floor: u64,
        newer: u64,
        sort: Sorting,
        limit: i64,
        offset: i64,
    ) -> (r: Result<results::GetBsos, DbError>)
        requires
            self.wf(),
            offset >= 0,
            limit > 0 ==> offset <= i64::MAX - limit,
        ensures
            r matches Ok(res) && get_bsos_post(
                *self,
                user_id as int,
                collection_id as int,
                strs_views(ids@),
                ttl_floor as int,
                newer as int,
                sort,
                limit as int,
                offset as int,
                res,
            ),
            r matches Ok(res) ==> forall|k: int|
                0 <= k < res.bsos@.len() ==> #[trigger] res.bsos@[k].expiry as int > ttl_floor as int,
    {
        broadcast use vstd::seq_lib::group_to_multiset_ensures;

        let ghost u = user_id as int;
        let ghost c = collection_id as int;
        let ghost idsv = strs_views(ids@);

        let n = self.bsos.len();
        let mut matching: Vec<results::Bso> = Vec::new();
        let mut i: usize = 0;
        while i < n
            invariant
                n == self.bsos@.len(),
                i <= n,
                self.wf(),
                u == user_id as int,
                c == collection_id as int,
                idsv == strs_views(ids@),
                matching@ == to_bsos(
                    self.bsos@.take(i as int).filter(
                        matches_pred(u, c, idsv, ttl_floor as int, newer as int),
                    ),
                ),
            decreases n - i,
        {
            let row = &self.bsos[i];
            let hit = row.user_id == user_id && row.collection_id == collection_id && (row.expiry
                as i128) > (ttl_floor as i128) && (row.modified as i128) > (newer as i128) && (
            ids.len() == 0 || Db::ids_contain(ids, &row.id));
            if hit {
                matching.push(
                    results::Bso {
                        id: row.id.clone(),
                        modified: row.modified,
                        payload: row.payload.clone(),
                        sortindex: row.sortindex,
                        expiry: row.expiry,
                    },
                );
            }
            proof {
                reveal(Seq::filter);
                assert(self.bsos@.take(i + 1).drop_last() =~= self.bsos@.take(i as int));
                assert(self.bsos@.take(i + 1).last() == self.bsos@[i as int]);
                let p = matches_pred(u, c, idsv, ttl_floor as int, newer as int);
                assert(p(self.bsos@[i as int]) == hit);
                if hit {
                    assert(self.bsos@.take(i + 1).filter(p) == self.bsos@.take(i as int).filter(
                        p,
                    ).push(self.bsos@[i as int]));
                }
                assert(matching@ =~= to_bsos(self.bsos@.take(i + 1).filter(p)));
            }
            i += 1;
        }
        proof {
            assert(self.bsos@.take(n as int) =~= self.bsos@);
        }

        let is_unsorted = match sort {
            Sorting::Unsorted => true,
            _ => false,
        };
        let ghost matching0 = matching@;
        let sorted = if is_unsorted {
            matching
        } else {
            sort_bsos(matching, sort)
        };
        let ghost full = sorted@;
        proof {
            let p = matches_pred(u, c, idsv, ttl_floor as int, newer as int);
            assert(full.to_multiset() == matching0.to_multiset());
            assert forall|q: int| 0 <= q < self.bsos@.filter(p).len() implies (
            #[trigger] self.bsos@.filter(p)[q]).expiry as int > ttl_floor as int by {
                self.bsos@.lemma_filter_pred(p, q);
            }
            lemma_page_elements_match(full, matching0, self.bsos@, p, ttl_floor as int);
        }

        let total: usize = sorted.len();
        if limit < 0 {
            let res = results::GetBsos { bsos: sorted, more: false, offset: 0 };
            return Ok(res);
        }
        if limit == 0 {
            let res = results::GetBsos { bsos: Vec::new(), more: total > 0, offset: 0 };
            return Ok(res);
        }
        let start: usize = if (offset as u64) <= (total as u64) {
            offset as usize
        } else {
            total
        };
        let end: usize = if (limit as u64) <= ((total - start) as u64) {
            start + (limit as usize)
        } else {
            total
        };
        proof {
            let total_i = full.len() as int;
            let start_s: int = if offset as int <= total_i {
                offset as int
            } else {
                total_i
            };
            let end_s: int = if start_s + limit as int <= total_i {
                start_s + limit as int
            } else {
                total_i
            };
            assert(start as int == start_s);
            assert(end as int == end_s);
        }
        let mut page: Vec<results::Bso> = Vec::new();
        let mut k: usize = start;
        while k < end
            invariant
                start <= k <= end,
                end <= total,
                total == sorted@.len(),
                page@ == sorted@.subrange(start as int, k as int),
            decreases end - k,
        {
            page.push(sorted[k].clone());
            proof {
                assert(page@ =~= sorted@.subrange(start as int, k as int + 1));
            }
            k += 1;
        }
        let more = end < total;
        let out_offset: i64 = if more {
            offset + ((end - start) as i64)
        } else {
            0
        };
        let res = results::GetBsos { bsos: page, more, offset: out_offset };
        Ok(res)
    }
}

/// Every record of a sequence multiset-equal to the matching records keeps
/// the filter's guarantees; in particular none is at or below the TTL floor.
proof fn lemma_page_elements_match(
    full: Seq<results::Bso>,
    matching: Seq<results::Bso>,
    rows: Seq<StoredBso>,
    pred: spec_fn(StoredBso) -> bool,
    ttl_floor: int,
)
    requires
        full.to_multiset() == matching.to_multiset(),
        matching == to_bsos(rows.filter(pred)),
        forall|i: int|
            0 <= i < rows.filter(pred).len() ==> (#[trigger] rows.filter(pred)[i]).expiry as int
                > ttl_floor,
    ensures
        forall|k: int| 0 <= k < full.len() ==> #[trigger] full[k].expiry as int > ttl_floor,
{
    broadcast use vstd::seq_lib::group_to_multiset_ensures;

    assert forall|k: int| 0 <= k < full.len() implies #[trigger] full[k].expiry as int
        > ttl_floor by {
        let e = full[k];
        assert(full.to_multiset().count(e) > 0);
        assert(matching.to_multiset().count(e) > 0);
        assert(matching.contains(e));
        let j = choose|j: int| 0 <= j < matching.len() && matching[j] == e;
        assert(matching[j] == row_to_bso(rows.filter(pred)[j]));
    }
}

} // verus!
