//! Primary-keyed tables as sequences of rows.
//!
//! The backend's two write disciplines are modelled here over a `Seq` of
//! rows, each discipline as a fold: `insert_missing` is
//! `INSERT ... ON CONFLICT DO NOTHING`, `upsert_rows` is
//! `INSERT ... ON CONFLICT DO UPDATE`. Rows carry their primary key through
//! a key function, and a well-formed table holds each key at most once. The
//! lemmas characterise membership and row lookup after either fold; the row
//! inserted last under a key is the one an upsert leaves behind.

use vstd::prelude::*;

verus! {

/// First index in `s` whose row has key `k`, or -1 when no row has it.
pub open spec fn find_by<R, K>(s: Seq<R>, key: spec_fn(R) -> K, k: K) -> int
    decreases s.len(),
{
    if s.len() == 0 {
        -1
    } else {
        let p = find_by(s.drop_last(), key, k);
        if p >= 0 {
            p
        } else if key(s.last()) == k {
            s.len() - 1
        } else {
            -1
        }
    }
}

pub open spec fn has_key<R, K>(s: Seq<R>, key: spec_fn(R) -> K, k: K) -> bool {
    find_by(s, key, k) >= 0
}

/// The row holding key `k`; meaningful only when `has_key(s, key, k)`.
pub open spec fn row_at<R, K>(s: Seq<R>, key: spec_fn(R) -> K, k: K) -> R {
    s[find_by(s, key, k)]
}

/// Each primary key occurs at most once.
pub open spec fn unique_keys<R, K>(s: Seq<R>, key: spec_fn(R) -> K) -> bool {
    forall|i: int, j: int| 0 <= i < j < s.len() ==> key(s[i]) != key(s[j])
}

/// Last index in `rows` whose row has key `k`, or -1.
pub open spec fn find_last<R, K>(rows: Seq<R>, key: spec_fn(R) -> K, k: K) -> int
    decreases rows.len(),
{
    if rows.len() == 0 {
        -1
    } else if key(rows.last()) == k {
        rows.len() - 1
    } else {
        find_last(rows.drop_last(), key, k)
    }
}

/// Apply `rows` in order, appending each row whose key the table does not
/// hold yet; a row whose key is present leaves the table as it is.
pub open spec fn insert_missing<R, K>(t: Seq<R>, rows: Seq<R>, key: spec_fn(R) -> K) -> Seq<R>
    decreases rows.len(),
{
    if rows.len() == 0 {
        t
    } else {
        let t1 = insert_missing(t, rows.drop_last(), key);
        if has_key(t1, key, key(rows.last())) {
            t1
        } else {
            t1.push(rows.last())
        }
    }
}

/// Apply `rows` in order, replacing the row holding the same key or
/// appending when the key is new.
pub open spec fn upsert_rows<R, K>(t: Seq<R>, rows: Seq<R>, key: spec_fn(R) -> K) -> Seq<R>
    decreases rows.len(),
{
    if rows.len() == 0 {
        t
    } else {
        let t1 = upsert_rows(t, rows.drop_last(), key);
        let p = find_by(t1, key, key(rows.last()));
        if p >= 0 {
            t1.update(p, rows.last())
        } else {
            t1.push(rows.last())
        }
    }
}

pub proof fn lemma_find_by<R, K>(s: Seq<R>, key: spec_fn(R) -> K, k: K)
    ensures
        -1 <= find_by(s, key, k) < s.len(),
        find_by(s, key, k) >= 0 ==> key(s[find_by(s, key, k)]) == k,
        find_by(s, key, k) == -1 ==> forall|i: int| 0 <= i < s.len() ==> key(s[i]) != k,
    decreases s.len(),
{
    if s.len() > 0 {
        lemma_find_by(s.drop_last(), key, k);
        if find_by(s, key, k) == -1 {
            assert forall|i: int| 0 <= i < s.len() implies key(s[i]) != k by {
                if i < s.len() - 1 {
                    assert(s.drop_last()[i] == s[i]);
                }
            }
        } else if find_by(s.drop_last(), key, k) >= 0 {
            assert(s.drop_last()[find_by(s, key, k)] == s[find_by(s, key, k)]);
        }
    }
}

pub proof fn lemma_find_last<R, K>(rows: Seq<R>, key: spec_fn(R) -> K, k: K)
    ensures
        (find_last(rows, key, k) >= 0) == has_key(rows, key, k),
        find_last(rows, key, k) >= 0 ==> 0 <= find_last(rows, key, k) < rows.len()
            && key(rows[find_last(rows, key, k)]) == k,
    decreases rows.len(),
{
    lemma_find_by(rows, key, k);
    if rows.len() > 0 {
        lemma_find_last(rows.drop_last(), key, k);
        lemma_find_by(rows.drop_last(), key, k);
        if find_last(rows, key, k) >= 0 && key(rows.last()) != k {
            let p = find_last(rows.drop_last(), key, k);
            assert(rows.drop_last()[p] == rows[p]);
        }
    }
}

/// Updating a row in place with one that keeps its key moves no find result.
pub proof fn lemma_find_by_update_same_key<R, K>(
    t: Seq<R>,
    key: spec_fn(R) -> K,
    p: int,
    r: R,
    k: K,
)
    requires
        0 <= p < t.len(),
        key(t[p]) == key(r),
    ensures
        find_by(t.update(p, r), key, k) == find_by(t, key, k),
    decreases t.len(),
{
    let u = t.update(p, r);
    if p == t.len() - 1 {
        assert(u.drop_last() =~= t.drop_last());
        assert(u.last() == r);
    } else {
        assert(u.drop_last() =~= t.drop_last().update(p, r));
        lemma_find_by_update_same_key(t.drop_last(), key, p, r, k);
        assert(u.last() == t.last());
    }
}

pub proof fn lemma_find_by_push<R, K>(t: Seq<R>, key: spec_fn(R) -> K, r: R, k: K)
    ensures
        find_by(t.push(r), key, k) == if find_by(t, key, k) >= 0 {
            find_by(t, key, k)
        } else if key(r) == k {
            t.len() as int
        } else {
            -1
        },
{
    assert(t.push(r).drop_last() =~= t);
    assert(t.push(r).last() == r);
}

/// In a table with unique keys, a row's index is the one `find_by` gives.
pub proof fn lemma_find_by_unique<R, K>(s: Seq<R>, key: spec_fn(R) -> K, k: K, i: int)
    requires
        unique_keys(s, key),
        0 <= i < s.len(),
        key(s[i]) == k,
    ensures
        find_by(s, key, k) == i,
{
    lemma_find_by(s, key, k);
}

/// Folding a single row unrolls to one conditional append.
pub proof fn lemma_insert_missing_singleton<R, K>(t: Seq<R>, r: R, key: spec_fn(R) -> K)
    ensures
        insert_missing(t, seq![r], key) == if has_key(t, key, key(r)) {
            t
        } else {
            t.push(r)
        },
{
    assert(seq![r].drop_last() =~= Seq::<R>::empty());
    assert(insert_missing(t, Seq::<R>::empty(), key) == t);
    assert(seq![r].last() == r);
}

/// Upserting a single row unrolls to one update-or-append.
pub proof fn lemma_upsert_singleton<R, K>(t: Seq<R>, r: R, key: spec_fn(R) -> K)
    ensures
        upsert_rows(t, seq![r], key) == if find_by(t, key, key(r)) >= 0 {
            t.update(find_by(t, key, key(r)), r)
        } else {
            t.push(r)
        },
{
    assert(seq![r].drop_last() =~= Seq::<R>::empty());
    assert(upsert_rows(t, Seq::<R>::empty(), key) == t);
    assert(seq![r].last() == r);
}

pub proof fn lemma_insert_missing_has_key<R, K>(
    t: Seq<R>,
    rows: Seq<R>,
    key: spec_fn(R) -> K,
    k: K,
)
    ensures
        has_key(insert_missing(t, rows, key), key, k) == (has_key(t, key, k) || has_key(
            rows,
            key,
            k,
        )),
    decreases rows.len(),
{
    if rows.len() > 0 {
        lemma_insert_missing_has_key(t, rows.drop_last(), key, k);
        let t1 = insert_missing(t, rows.drop_last(), key);
        if !has_key(t1, key, key(rows.last())) {
            lemma_find_by_push(t1, key, rows.last(), k);
        }
    }
}

pub proof fn lemma_insert_missing_unique<R, K>(t: Seq<R>, rows: Seq<R>, key: spec_fn(R) -> K)
    requires
        unique_keys(t, key),
    ensures
        unique_keys(insert_missing(t, rows, key), key),
    decreases rows.len(),
{
    if rows.len() > 0 {
        lemma_insert_missing_unique(t, rows.drop_last(), key);
        let t1 = insert_missing(t, rows.drop_last(), key);
        let r = rows.last();
        if !has_key(t1, key, key(r)) {
            lemma_find_by(t1, key, key(r));
            let t2 = t1.push(r);
            assert forall|i: int, j: int| 0 <= i < j < t2.len() implies key(t2[i]) != key(
                t2[j],
            ) by {
                if j == t2.len() - 1 {
                    assert(t2[i] == t1[i]);
                    assert(t2[j] == r);
                } else {
                    assert(t2[i] == t1[i] && t2[j] == t1[j]);
                }
            }
        }
    }
}

/// When every key of `rows` is already in the table, the fold is a no-op.
pub proof fn lemma_insert_missing_noop<R, K>(t: Seq<R>, rows: Seq<R>, key: spec_fn(R) -> K)
    requires
        forall|i: int| 0 <= i < rows.len() ==> has_key(t, key, #[trigger] key(rows[i])),
    ensures
        insert_missing(t, rows, key) == t,
    decreases rows.len(),
{
    if rows.len() > 0 {
        assert forall|i: int| 0 <= i < rows.len() - 1 implies has_key(
            t,
            key,
            #[trigger] key(rows.drop_last()[i]),
        ) by {
            assert(rows.drop_last()[i] == rows[i]);
        }
        lemma_insert_missing_noop(t, rows.drop_last(), key);
        assert(key(rows.last()) == key(rows[rows.len() - 1]));
    }
}

/// Inserting the same rows a second time changes nothing: the first pass
/// leaves every key present.
pub proof fn lemma_insert_missing_idempotent<R, K>(t: Seq<R>, rows: Seq<R>, key: spec_fn(R) -> K)
    ensures
        insert_missing(insert_missing(t, rows, key), rows, key) == insert_missing(t, rows, key),
{
    let u = insert_missing(t, rows, key);
    assert forall|i: int| 0 <= i < rows.len() implies has_key(u, key, #[trigger] key(rows[i])) by {
        lemma_find_by(rows, key, key(rows[i]));
        lemma_insert_missing_has_key(t, rows, key, key(rows[i]));
    }
    lemma_insert_missing_noop(u, rows, key);
}

pub proof fn lemma_upsert_has_key<R, K>(t: Seq<R>, rows: Seq<R>, key: spec_fn(R) -> K, k: K)
    ensures
        has_key(upsert_rows(t, rows, key), key, k) == (has_key(t, key, k) || has_key(
            rows,
            key,
            k,
        )),
    decreases rows.len(),
{
    if rows.len() > 0 {
        lemma_upsert_has_key(t, rows.drop_last(), key, k);
        let t1 = upsert_rows(t, rows.drop_last(), key);
        let r = rows.last();
        let p = find_by(t1, key, key(r));
        if p >= 0 {
            lemma_find_by(t1, key, key(r));
            lemma_find_by_update_same_key(t1, key, p, r, k);
        } else {
            lemma_find_by_push(t1, key, r, k);
        }
    }
}

pub proof fn lemma_upsert_unique<R, K>(t: Seq<R>, rows: Seq<R>, key: spec_fn(R) -> K)
    requires
        unique_keys(t, key),
    ensures
        unique_keys(upsert_rows(t, rows, key), key),
    decreases rows.len(),
{
    if rows.len() > 0 {
        lemma_upsert_unique(t, rows.drop_last(), key);
        let t1 = upsert_rows(t, rows.drop_last(), key);
        let r = rows.last();
        let p = find_by(t1, key, key(r));
        if p >= 0 {
            lemma_find_by(t1, key, key(r));
            let t2 = t1.update(p, r);
            assert forall|i: int, j: int| 0 <= i < j < t2.len() implies key(t2[i]) != key(
                t2[j],
            ) by {
                assert(key(t2[i]) == key(t1[i]) && key(t2[j]) == key(t1[j]));
            }
        } else {
            lemma_find_by(t1, key, key(r));
            let t2 = t1.push(r);
            assert forall|i: int, j: int| 0 <= i < j < t2.len() implies key(t2[i]) != key(
                t2[j],
            ) by {
                if j == t2.len() - 1 {
                    assert(t2[i] == t1[i]);
                    assert(t2[j] == r);
                } else {
                    assert(t2[i] == t1[i] && t2[j] == t1[j]);
                }
            }
        }
    }
}

/// After an upsert fold, the row under a key written by `rows` is the last
/// row of `rows` carrying it; a key `rows` does not write keeps its row.
pub proof fn lemma_upsert_row_at<R, K>(t: Seq<R>, rows: Seq<R>, key: spec_fn(R) -> K, k: K)
    ensures
        has_key(rows, key, k) ==> row_at(upsert_rows(t, rows, key), key, k) == rows[find_last(
            rows,
            key,
            k,
        )],
        !has_key(rows, key, k) && has_key(t, key, k) ==> row_at(upsert_rows(t, rows, key), key, k)
            == row_at(t, key, k),
    decreases rows.len(),
{
    lemma_find_by(rows, key, k);
    if rows.len() > 0 {
        lemma_upsert_row_at(t, rows.drop_last(), key, k);
        lemma_find_by(rows.drop_last(), key, k);
        lemma_upsert_has_key(t, rows.drop_last(), key, k);
        let t1 = upsert_rows(t, rows.drop_last(), key);
        let r = rows.last();
        let p = find_by(t1, key, key(r));
        lemma_find_by(t1, key, key(r));
        if key(r) == k {
            // the freshly written row wins
            if p >= 0 {
                let t2 = t1.update(p, r);
                lemma_find_by_update_same_key(t1, key, p, r, k);
                assert(row_at(t2, key, k) == t2[p]);
            } else {
                let t2 = t1.push(r);
                lemma_find_by_push(t1, key, r, k);
            }
        } else {
            // a row under a different key is untouched by this step
            lemma_find_by(t1, key, k);
            if p >= 0 {
                let t2 = t1.update(p, r);
                lemma_find_by_update_same_key(t1, key, p, r, k);
                if has_key(t1, key, k) {
                    assert(key(t1[p]) == key(r));
                    assert(find_by(t1, key, k) != p);
                    assert(t2[find_by(t1, key, k)] == t1[find_by(t1, key, k)]);
                }
            } else {
                let t2 = t1.push(r);
                lemma_find_by_push(t1, key, r, k);
                if has_key(t1, key, k) {
                    assert(t2[find_by(t1, key, k)] == t1[find_by(t1, key, k)]);
                }
            }
            if has_key(rows, key, k) {
                assert(find_last(rows, key, k) == find_last(rows.drop_last(), key, k));
                lemma_find_last(rows.drop_last(), key, k);
                assert(rows.drop_last()[find_last(rows.drop_last(), key, k)] == rows[find_last(
                    rows,
                    key,
                    k,
                )]);
            }
        }
    }
}

} // verus!
