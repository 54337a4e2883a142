//! A small theory of sequences viewed as association tables: every row has a
//! key, keys are unique, and `find_by` is the partial lookup function. All
//! persistent tables of the store are such sequences.
use vstd::prelude::*;

verus! {

/// No two rows of `s` share a key.
pub open spec fn unique_by<T, K>(s: Seq<T>, key: spec_fn(T) -> K) -> bool {
    forall|i: int, j: int|
        0 <= i < j < s.len() ==> #[trigger] key(s[i]) != #[trigger] key(s[j])
}

/// Some row of `s` has key `k`.
pub open spec fn has_key<T, K>(s: Seq<T>, key: spec_fn(T) -> K, k: K) -> bool {
    exists|i: int| 0 <= i < s.len() && #[trigger] key(s[i]) == k
}

/// The row of `s` with key `k`, if any. Under `unique_by` it is determined.
pub open spec fn find_by<T, K>(s: Seq<T>, key: spec_fn(T) -> K, k: K) -> Option<T> {
    if has_key(s, key, k) {
        let i = choose|i: int| 0 <= i < s.len() && #[trigger] key(s[i]) == k;
        Some(s[i])
    } else {
        None
    }
}

/// A row that is present is the one `find_by` returns.
pub proof fn lemma_find_at<T, K>(s: Seq<T>, key: spec_fn(T) -> K, i: int)
    requires
        unique_by(s, key),
        0 <= i < s.len(),
    ensures
        find_by(s, key, key(s[i])) == Some(s[i]),
{
    let k = key(s[i]);
    assert(has_key(s, key, k));
    let j = choose|j: int| 0 <= j < s.len() && #[trigger] key(s[j]) == k;
    if i < j {
        assert(key(s[i]) != key(s[j]));
    } else if j < i {
        assert(key(s[j]) != key(s[i]));
    }
}

/// Splitting a nonempty table at its last row splits the lookup.
pub proof fn lemma_find_last<T, K>(s: Seq<T>, key: spec_fn(T) -> K, k: K)
    requires
        unique_by(s, key),
        s.len() > 0,
    ensures
        unique_by(s.drop_last(), key),
        find_by(s, key, k) == if key(s.last()) == k {
            Some(s.last())
        } else {
            find_by(s.drop_last(), key, k)
        },
{
    let pre = s.drop_last();
    assert forall|i: int, j: int| 0 <= i < j < pre.len() implies #[trigger] key(pre[i])
        != #[trigger] key(pre[j]) by {
        assert(pre[i] == s[i]);
        assert(pre[j] == s[j]);
    }
    if key(s.last()) == k {
        lemma_find_at(s, key, s.len() - 1);
    } else {
        if has_key(pre, key, k) {
            let i = choose|i: int| 0 <= i < pre.len() && #[trigger] key(pre[i]) == k;
            assert(pre[i] == s[i]);
            lemma_find_at(s, key, i);
            lemma_find_at(pre, key, i);
        } else if has_key(s, key, k) {
            let i = choose|i: int| 0 <= i < s.len() && #[trigger] key(s[i]) == k;
            if i < s.len() - 1 {
                assert(pre[i] == s[i]);
                assert(key(pre[i]) == k);
                assert(has_key(pre, key, k));
            } else {
                assert(key(s.last()) == k);
            }
        }
    }
}

/// Replacing a row in place, key unchanged, changes exactly that key's lookup.
pub proof fn lemma_find_update<T, K>(s: Seq<T>, key: spec_fn(T) -> K, i: int, v: T)
    requires
        unique_by(s, key),
        0 <= i < s.len(),
        key(v) == key(s[i]),
    ensures
        unique_by(s.update(i, v), key),
        find_by(s.update(i, v), key, key(v)) == Some(v),
        forall|k: K|
            k != key(v) ==> #[trigger] find_by(s.update(i, v), key, k) == find_by(s, key, k),
{
    let t = s.update(i, v);
    assert forall|a: int, b: int| 0 <= a < b < t.len() implies #[trigger] key(t[a])
        != #[trigger] key(t[b]) by {
        if a != i && b != i {
            assert(t[a] == s[a] && t[b] == s[b]);
        } else if a == i {
            assert(t[a] == v && t[b] == s[b]);
            assert(key(s[i]) != key(s[b]));
        } else {
            assert(t[b] == v && t[a] == s[a]);
            assert(key(s[a]) != key(s[i]));
        }
    }
    lemma_find_at(t, key, i);
    assert forall|k: K| k != key(v) implies #[trigger] find_by(t, key, k) == find_by(
        s,
        key,
        k,
    ) by {
        if has_key(s, key, k) {
            let j = choose|j: int| 0 <= j < s.len() && #[trigger] key(s[j]) == k;
            assert(j != i);
            assert(t[j] == s[j]);
            lemma_find_at(t, key, j);
            lemma_find_at(s, key, j);
        } else {
            if has_key(t, key, k) {
                let j = choose|j: int| 0 <= j < t.len() && #[trigger] key(t[j]) == k;
                assert(j != i);
                assert(t[j] == s[j]);
            }
        }
    }
}

/// Appending a row with a fresh key adds exactly that key's lookup.
pub proof fn lemma_find_push<T, K>(s: Seq<T>, key: spec_fn(T) -> K, v: T)
    requires
        unique_by(s, key),
        !has_key(s, key, key(v)),
    ensures
        unique_by(s.push(v), key),
        find_by(s.push(v), key, key(v)) == Some(v),
        forall|k: K| k != key(v) ==> #[trigger] find_by(s.push(v), key, k) == find_by(s, key, k),
{
    let t = s.push(v);
    assert forall|a: int, b: int| 0 <= a < b < t.len() implies #[trigger] key(t[a])
        != #[trigger] key(t[b]) by {
        if b == s.len() {
            assert(t[a] == s[a] && t[b] == v);
            assert(has_key(s, key, key(v)) <== key(s[a]) == key(v));
        } else {
            assert(t[a] == s[a] && t[b] == s[b]);
        }
    }
    lemma_find_at(t, key, s.len() as int);
    assert(t[s.len() as int] == v);
    assert forall|k: K| k != key(v) implies #[trigger] find_by(t, key, k) == find_by(
        s,
        key,
        k,
    ) by {
        if has_key(s, key, k) {
            let j = choose|j: int| 0 <= j < s.len() && #[trigger] key(s[j]) == k;
            assert(t[j] == s[j]);
            lemma_find_at(t, key, j);
            lemma_find_at(s, key, j);
        } else {
            if has_key(t, key, k) {
                let j = choose|j: int| 0 <= j < t.len() && #[trigger] key(t[j]) == k;
                assert(j != s.len() ==> t[j] == s[j]);
            }
        }
    }
}

/// Filtering a table keeps lookups for kept rows and drops the rest.
pub proof fn lemma_find_filter<T, K>(s: Seq<T>, key: spec_fn(T) -> K, pred: spec_fn(T) -> bool)
    requires
        unique_by(s, key),
    ensures
        unique_by(s.filter(pred), key),
        forall|k: K|
            #[trigger] find_by(s.filter(pred), key, k) == (match find_by(s, key, k) {
                Some(t) => if pred(t) {
                    Some(t)
                } else {
                    None
                },
                None => None::<T>,
            }),
    decreases s.len(),
{
    reveal(Seq::filter);
    if s.len() == 0 {
        assert(s.filter(pred) =~= Seq::<T>::empty());
    } else {
        let pre = s.drop_last();
        let x = s.last();
        lemma_find_last(s, key, key(x));
        lemma_find_filter(pre, key, pred);
        assert(find_by(pre, key, key(x)) is None) by {
            if has_key(pre, key, key(x)) {
                let j = choose|j: int| 0 <= j < pre.len() && #[trigger] key(pre[j]) == key(x);
                assert(pre[j] == s[j]);
                assert(key(s[j]) != key(s[s.len() - 1]));
            }
        }
        assert(find_by(pre.filter(pred), key, key(x)) is None);
        assert(!has_key(pre.filter(pred), key, key(x)));
        if pred(x) {
            assert(s.filter(pred) == pre.filter(pred).push(x));
            lemma_find_push(pre.filter(pred), key, x);
            assert forall|k: K| true implies #[trigger] find_by(s.filter(pred), key, k) == (
            match find_by(s, key, k) {
                Some(t) => if pred(t) {
                    Some(t)
                } else {
                    None
                },
                None => None::<T>,
            }) by {
                lemma_find_last(s, key, k);
            }
        } else {
            assert(s.filter(pred) == pre.filter(pred));
            assert forall|k: K| true implies #[trigger] find_by(s.filter(pred), key, k) == (
            match find_by(s, key, k) {
                Some(t) => if pred(t) {
                    Some(t)
                } else {
                    None
                },
                None => None::<T>,
            }) by {
                lemma_find_last(s, key, k);
            }
        }
    }
}

/// Every row of a filtered table is a row of the table it was filtered from.
pub proof fn lemma_filter_member_at<T, K>(
    s: Seq<T>,
    key: spec_fn(T) -> K,
    pred: spec_fn(T) -> bool,
    i: int,
)
    requires
        unique_by(s, key),
        0 <= i < s.filter(pred).len(),
    ensures
        exists|j: int| 0 <= j < s.len() && s.filter(pred)[i] == #[trigger] s[j],
        pred(s.filter(pred)[i]),
{
    lemma_find_filter(s, key, pred);
    s.lemma_filter_pred(pred, i);
    let r = s.filter(pred)[i];
    lemma_find_at(s.filter(pred), key, i);
    assert(find_by(s.filter(pred), key, key(r)) == Some(r));
    assert(find_by(s, key, key(r)) == Some(r));
    let j = choose|j: int| 0 <= j < s.len() && #[trigger] key(s[j]) == key(r);
    assert(s[j] == r);
}

} // verus!
