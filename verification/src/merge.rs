//! The merge-sort-dedup engine: combines the loaded archive and the freshly
//! fetched records into one sequence that satisfies the archive invariant —
//! ascending by `created_at`, no two records with the same `id`. Duplicates
//! are dropped defensively, keeping the first occurrence, although the resume
//! cursor makes the two sets disjoint by construction.
use vstd::prelude::*;
use vstd::seq_lib::group_to_multiset_ensures;
use vstd::seq_lib::lemma_multiset_commutative;
use vstd::multiset::group_multiset_axioms;

use crate::status::Status;
use crate::text::{lemma_lex_le_antisym, lemma_lex_le_total, lemma_lex_le_trans, lex_le,
    lex_le_exec};

verus! {

/// `a` is no newer than `b`.
pub open spec fn time_le(a: Status, b: Status) -> bool {
    lex_le(a.created_at@, b.created_at@)
}

/// `a` is strictly older than `b`.
pub open spec fn time_lt(a: Status, b: Status) -> bool {
    !time_le(b, a)
}

/// The order half of the archive invariant: ascending by `created_at`.
pub open spec fn sorted_by_time(s: Seq<Status>) -> bool {
    forall|i: int, j: int| 0 <= i < j < s.len() ==> time_le(s[i], s[j])
}

/// Some record in `s` carries the id `d`.
pub open spec fn has_id(s: Seq<Status>, d: Seq<char>) -> bool {
    exists|i: int| 0 <= i < s.len() && #[trigger] s[i].id@ == d
}

/// Some record in `s` carries the timestamp `d`.
pub open spec fn has_time(s: Seq<Status>, d: Seq<char>) -> bool {
    exists|i: int| 0 <= i < s.len() && #[trigger] s[i].created_at@ == d
}

/// The dedup half of the archive invariant: no two records share an id.
pub open spec fn unique_ids(s: Seq<Status>) -> bool {
    forall|i: int, j: int| 0 <= i < j < s.len() ==> s[i].id@ != s[j].id@
}

/// No two records share a timestamp.
pub open spec fn distinct_times(s: Seq<Status>) -> bool {
    forall|i: int, j: int| 0 <= i < j < s.len() ==> s[i].created_at@ != s[j].created_at@
}

/// Where `insert_by_time` puts a record: before the first strictly newer one,
/// so that ties keep their arrival order.
pub open spec fn insert_pos(x: Status, s: Seq<Status>) -> int
    decreases s.len(),
{
    if s.len() == 0 {
        0
    } else if !time_le(s[0], x) {
        0
    } else {
        1 + insert_pos(x, s.drop_first())
    }
}

/// `x` placed into `s` at `insert_pos`.
pub open spec fn insert_by_time(x: Status, s: Seq<Status>) -> Seq<Status>
    decreases s.len(),
{
    if s.len() == 0 {
        seq![x]
    } else if !time_le(s[0], x) {
        seq![x] + s
    } else {
        seq![s[0]] + insert_by_time(x, s.drop_first())
    }
}

/// Stable insertion sort of `s` by `created_at`, the specification the
/// executable sort is held to.
pub open spec fn sort_by_time(s: Seq<Status>) -> Seq<Status>
    decreases s.len(),
{
    if s.len() == 0 {
        Seq::empty()
    } else {
        insert_by_time(s.last(), sort_by_time(s.drop_last()))
    }
}

/// Records deduplicated by id, keeping the first occurrence of each id.
pub open spec fn dedup_by_id(s: Seq<Status>) -> Seq<Status>
    decreases s.len(),
{
    if s.len() == 0 {
        Seq::empty()
    } else if has_id(s.drop_last(), s.last().id@) {
        dedup_by_id(s.drop_last())
    } else {
        dedup_by_id(s.drop_last()).push(s.last())
    }
}

/// What `merge` returns: the two sets concatenated, deduplicated by id
/// keeping the first occurrence, then stably sorted ascending by
/// `created_at`.
pub open spec fn merge_spec(existing: Seq<Status>, fetched: Seq<Status>) -> Seq<Status> {
    sort_by_time(dedup_by_id(existing + fetched))
}

/// `insert_pos` is in range, everything before it is no newer than `x`, and
/// the record at it (when any) is strictly newer.
pub proof fn lemma_insert_pos(x: Status, s: Seq<Status>)
    ensures
        0 <= insert_pos(x, s) <= s.len(),
        forall|k: int| 0 <= k < insert_pos(x, s) ==> time_le(s[k], x),
        insert_pos(x, s) < s.len() ==> !time_le(s[insert_pos(x, s)], x),
    decreases s.len(),
{
    if s.len() == 0 {
    } else if !time_le(s[0], x) {
    } else {
        lemma_insert_pos(x, s.drop_first());
        assert forall|k: int| 0 <= k < insert_pos(x, s) implies time_le(s[k], x) by {
            if k > 0 {
                assert(time_le(s.drop_first()[k - 1], x));
            }
        }
        assert(insert_pos(x, s) < s.len() ==> s[insert_pos(x, s)] == s.drop_first()[insert_pos(
            x,
            s.drop_first(),
        )]);
    }
}

/// `insert_by_time` is exactly `Seq::insert` at `insert_pos`.
pub proof fn lemma_insert_by_time_form(x: Status, s: Seq<Status>)
    ensures
        insert_by_time(x, s) == s.insert(insert_pos(x, s), x),
    decreases s.len(),
{
    lemma_insert_pos(x, s);
    if s.len() == 0 {
        assert(insert_by_time(x, s) =~= s.insert(0, x));
    } else if !time_le(s[0], x) {
        assert(insert_by_time(x, s) =~= s.insert(0, x));
    } else {
        lemma_insert_by_time_form(x, s.drop_first());
        lemma_insert_pos(x, s.drop_first());
        let t = s.drop_first();
        let p = insert_pos(x, t);
        assert(seq![s[0]] + t.insert(p, x) =~= s.insert(p + 1, x));
    }
}

/// What insertion does to a sorted sequence: still sorted, one more record,
/// the records extended by exactly `x`, the ids by exactly `x`'s.
pub proof fn lemma_insert_by_time(x: Status, s: Seq<Status>)
    requires
        sorted_by_time(s),
    ensures
        sorted_by_time(insert_by_time(x, s)),
        insert_by_time(x, s).to_multiset() =~= s.to_multiset().insert(x),
        insert_by_time(x, s).len() == s.len() + 1,
{
    broadcast use group_to_multiset_ensures;
    broadcast use group_multiset_axioms;

    lemma_insert_pos(x, s);
    lemma_insert_by_time_form(x, s);
    let p = insert_pos(x, s);
    let r = insert_by_time(x, s);
    s.insert_ensures(p, x);
    assert(r.len() == s.len() + 1);
    // order: everything before p is <= x, everything from p on is > x hence >= x
    assert forall|i: int, j: int| 0 <= i < j < r.len() implies time_le(r[i], r[j]) by {
        if j < p {
            assert(time_le(s[i], s[j]));
        } else if i > p {
            assert(time_le(s[i - 1], s[j - 1]));
        } else if i < p && j == p {
            assert(time_le(s[i], x));
        } else if i < p && j > p {
            assert(time_le(s[i], s[j - 1]));
        } else {
            // i == p < j: x against a strictly newer record
            assert(r[i] == x);
            assert(r[j] == s[j - 1]);
            assert(!time_le(s[p], x));
            lemma_lex_le_total(s[p].created_at@, x.created_at@);
            assert(time_le(x, s[p]));
            if p < j - 1 {
                assert(time_le(s[p], s[j - 1]));
                lemma_lex_le_trans(x.created_at@, s[p].created_at@, s[j - 1].created_at@);
            }
        }
    }
    // records: removing x at p gives s back
    assert(r.remove(p) =~= s);
    assert(r.to_multiset().remove(x) =~= s.to_multiset());
    assert(r.to_multiset().contains(x)) by {
        assert(r[p] == x);
        assert(r.contains(x));
    }
    assert(r.to_multiset() =~= s.to_multiset().insert(x));
}

/// Insertion extends the ids by exactly `x`'s, and the timestamps by exactly
/// `x`'s.
pub proof fn lemma_insert_by_time_keys(x: Status, s: Seq<Status>, d: Seq<char>)
    ensures
        has_id(insert_by_time(x, s), d) == (d == x.id@ || has_id(s, d)),
        has_time(insert_by_time(x, s), d) == (d == x.created_at@ || has_time(s, d)),
{
    lemma_insert_pos(x, s);
    lemma_insert_by_time_form(x, s);
    let p = insert_pos(x, s);
    let r = insert_by_time(x, s);
    s.insert_ensures(p, x);
    if has_id(r, d) {
        let i = choose|i: int| 0 <= i < r.len() && #[trigger] r[i].id@ == d;
        if i == p {
            assert(d == x.id@);
        } else if i < p {
            assert(s[i].id@ == d);
        } else {
            assert(s[i - 1].id@ == d);
        }
    }
    if d == x.id@ {
        assert(r[p].id@ == d);
    }
    if has_id(s, d) {
        let i = choose|i: int| 0 <= i < s.len() && #[trigger] s[i].id@ == d;
        if i < p {
            assert(r[i].id@ == d);
        } else {
            assert(r[i + 1].id@ == d);
        }
    }
    if has_time(r, d) {
        let i = choose|i: int| 0 <= i < r.len() && #[trigger] r[i].created_at@ == d;
        if i == p {
            assert(d == x.created_at@);
        } else if i < p {
            assert(s[i].created_at@ == d);
        } else {
            assert(s[i - 1].created_at@ == d);
        }
    }
    if d == x.created_at@ {
        assert(r[p].created_at@ == d);
    }
    if has_time(s, d) {
        let i = choose|i: int| 0 <= i < s.len() && #[trigger] s[i].created_at@ == d;
        if i < p {
            assert(r[i].created_at@ == d);
        } else {
            assert(r[i + 1].created_at@ == d);
        }
    }
}

/// Inserting a record whose id is new keeps the ids unique; likewise for a
/// new timestamp and distinctness of timestamps.
pub proof fn lemma_insert_by_time_keeps_distinct(x: Status, s: Seq<Status>)
    ensures
        unique_ids(s) && !has_id(s, x.id@) ==> unique_ids(insert_by_time(x, s)),
        distinct_times(s) && !has_time(s, x.created_at@) ==> distinct_times(insert_by_time(x, s)),
{
    lemma_insert_pos(x, s);
    lemma_insert_by_time_form(x, s);
    let p = insert_pos(x, s);
    let r = insert_by_time(x, s);
    s.insert_ensures(p, x);
    if unique_ids(s) && !has_id(s, x.id@) {
        assert forall|i: int, j: int| 0 <= i < j < r.len() implies r[i].id@ != r[j].id@ by {
            if i == p && j > p {
                assert(s[j - 1].id@ != x.id@);
            } else if j == p {
                assert(s[i].id@ != x.id@);
            } else if i < p && j > p {
                assert(s[i].id@ != s[j - 1].id@);
            } else if j < p {
                assert(s[i].id@ != s[j].id@);
            } else {
                assert(s[i - 1].id@ != s[j - 1].id@);
            }
        }
    }
    if distinct_times(s) && !has_time(s, x.created_at@) {
        assert forall|i: int, j: int| 0 <= i < j < r.len() implies r[i].created_at@
            != r[j].created_at@ by {
            if i == p && j > p {
                assert(s[j - 1].created_at@ != x.created_at@);
            } else if j == p {
                assert(s[i].created_at@ != x.created_at@);
            } else if i < p && j > p {
                assert(s[i].created_at@ != s[j - 1].created_at@);
            } else if j < p {
                assert(s[i].created_at@ != s[j].created_at@);
            } else {
                assert(s[i - 1].created_at@ != s[j - 1].created_at@);
            }
        }
    }
}

/// A record of the last-dropped element shifts key facts by one; the key
/// sets of `s` are those of `s.drop_last()` plus the last record's.
pub proof fn lemma_keys_drop_last(s: Seq<Status>, d: Seq<char>)
    requires
        s.len() > 0,
    ensures
        has_id(s, d) == (d == s.last().id@ || has_id(s.drop_last(), d)),
        has_time(s, d) == (d == s.last().created_at@ || has_time(s.drop_last(), d)),
{
    let t = s.drop_last();
    let x = s.last();
    if has_id(s, d) {
        let i = choose|i: int| 0 <= i < s.len() && #[trigger] s[i].id@ == d;
        if i < t.len() {
            assert(t[i].id@ == d);
        }
    }
    if d == x.id@ {
        assert(s[s.len() - 1].id@ == d);
    }
    if has_id(t, d) {
        let i = choose|i: int| 0 <= i < t.len() && #[trigger] t[i].id@ == d;
        assert(s[i].id@ == d);
    }
    if has_time(s, d) {
        let i = choose|i: int| 0 <= i < s.len() && #[trigger] s[i].created_at@ == d;
        if i < t.len() {
            assert(t[i].created_at@ == d);
        }
    }
    if d == x.created_at@ {
        assert(s[s.len() - 1].created_at@ == d);
    }
    if has_time(t, d) {
        let i = choose|i: int| 0 <= i < t.len() && #[trigger] t[i].created_at@ == d;
        assert(s[i].created_at@ == d);
    }
}

/// What sorting does: ascending order, the same records (as a multiset, so
/// none lost and none invented).
pub proof fn lemma_sort_by_time(s: Seq<Status>)
    ensures
        sorted_by_time(sort_by_time(s)),
        sort_by_time(s).to_multiset() =~= s.to_multiset(),
        sort_by_time(s).len() == s.len(),
    decreases s.len(),
{
    broadcast use group_to_multiset_ensures;
    broadcast use group_multiset_axioms;

    if s.len() == 0 {
    } else {
        let t = s.drop_last();
        let x = s.last();
        lemma_sort_by_time(t);
        lemma_insert_by_time(x, sort_by_time(t));
        assert(s =~= t.push(x));
    }
}

/// Sorting keeps exactly the ids and the timestamps that went in.
pub proof fn lemma_sort_by_time_keys(s: Seq<Status>, d: Seq<char>)
    ensures
        has_id(sort_by_time(s), d) == has_id(s, d),
        has_time(sort_by_time(s), d) == has_time(s, d),
    decreases s.len(),
{
    if s.len() == 0 {
    } else {
        let t = s.drop_last();
        let x = s.last();
        lemma_sort_by_time_keys(t, d);
        lemma_insert_by_time_keys(x, sort_by_time(t), d);
        lemma_keys_drop_last(s, d);
    }
}

/// Sorting keeps ids unique and timestamps distinct.
pub proof fn lemma_sort_by_time_keeps_distinct(s: Seq<Status>)
    ensures
        unique_ids(s) ==> unique_ids(sort_by_time(s)),
        distinct_times(s) ==> distinct_times(sort_by_time(s)),
    decreases s.len(),
{
    if s.len() == 0 {
    } else {
        let t = s.drop_last();
        let x = s.last();
        lemma_sort_by_time_keeps_distinct(t);
        lemma_sort_by_time_keys(t, x.id@);
        lemma_sort_by_time_keys(t, x.created_at@);
        lemma_insert_by_time_keeps_distinct(x, sort_by_time(t));
        if unique_ids(s) {
            assert(unique_ids(t)) by {
                assert(forall|i: int, j: int|
                    0 <= i < j < t.len() ==> #[trigger] t[i].id@ != #[trigger] t[j].id@);
            }
            assert(!has_id(t, x.id@)) by {
                if has_id(t, x.id@) {
                    let i = choose|i: int| 0 <= i < t.len() && #[trigger] t[i].id@ == x.id@;
                    assert(s[i].id@ == s[s.len() - 1].id@);
                }
            }
        }
        if distinct_times(s) {
            assert(distinct_times(t)) by {
                assert(forall|i: int, j: int|
                    0 <= i < j < t.len() ==> #[trigger] t[i].created_at@ != #[trigger] t[j].created_at@);
            }
            assert(!has_time(t, x.created_at@)) by {
                if has_time(t, x.created_at@) {
                    let i = choose|i: int|
                        0 <= i < t.len() && #[trigger] t[i].created_at@ == x.created_at@;
                    assert(s[i].created_at@ == s[s.len() - 1].created_at@);
                }
            }
        }
    }
}

/// Deduplication keeps exactly the ids that went in.
pub proof fn lemma_dedup_by_id_keys(s: Seq<Status>, d: Seq<char>)
    ensures
        has_id(dedup_by_id(s), d) == has_id(s, d),
    decreases s.len(),
{
    if s.len() == 0 {
    } else {
        let t = s.drop_last();
        let x = s.last();
        lemma_dedup_by_id_keys(t, d);
        lemma_keys_drop_last(s, d);
        if has_id(t, x.id@) {
            // the last record's id is already in the front part
            if d == x.id@ {
                assert(has_id(t, d));
            }
        } else {
            let r = dedup_by_id(t).push(x);
            let dt = dedup_by_id(t);
            if has_id(r, d) {
                let i = choose|i: int| 0 <= i < r.len() && #[trigger] r[i].id@ == d;
                if i < dt.len() {
                    assert(dt[i].id@ == d);
                }
            }
            if d == x.id@ {
                assert(r[r.len() - 1].id@ == d);
            }
            if has_id(dt, d) {
                let i = choose|i: int| 0 <= i < dt.len() && #[trigger] dt[i].id@ == d;
                assert(r[i].id@ == d);
            }
        }
    }
}

/// What deduplication does: unique ids out, never more records than went in.
pub proof fn lemma_dedup_by_id(s: Seq<Status>)
    ensures
        unique_ids(dedup_by_id(s)),
        dedup_by_id(s).len() <= s.len(),
    decreases s.len(),
{
    if s.len() == 0 {
    } else {
        let t = s.drop_last();
        let x = s.last();
        lemma_dedup_by_id(t);
        let dt = dedup_by_id(t);
        if has_id(t, x.id@) {
        } else {
            lemma_dedup_by_id_keys(t, x.id@);
            let r = dt.push(x);
            assert forall|i: int, j: int| 0 <= i < j < r.len() implies r[i].id@ != r[j].id@ by {
                if j < dt.len() {
                    assert(dt[i].id@ != dt[j].id@);
                } else {
                    assert(r[j] == x);
                    if r[i].id@ == x.id@ {
                        assert(dt[i].id@ == x.id@);
                        assert(has_id(dt, x.id@));
                    }
                }
            }
        }
    }
}

/// On records whose ids are already unique, deduplication changes nothing.
pub proof fn lemma_dedup_by_id_of_unique(s: Seq<Status>)
    requires
        unique_ids(s),
    ensures
        dedup_by_id(s) == s,
    decreases s.len(),
{
    if s.len() == 0 {
        assert(dedup_by_id(s) =~= s);
    } else {
        let t = s.drop_last();
        let x = s.last();
        assert(unique_ids(t)) by {
            assert(forall|i: int, j: int|
                0 <= i < j < t.len() ==> #[trigger] t[i].id@ != #[trigger] t[j].id@);
        }
        lemma_dedup_by_id_of_unique(t);
        assert(!has_id(t, x.id@)) by {
            if has_id(t, x.id@) {
                let i = choose|i: int| 0 <= i < t.len() && #[trigger] t[i].id@ == x.id@;
                assert(s[i].id@ == s[s.len() - 1].id@);
            }
        }
        assert(dedup_by_id(s) =~= s);
    }
}

/// On records already in ascending order, sorting changes nothing.
pub proof fn lemma_sort_by_time_of_sorted(s: Seq<Status>)
    requires
        sorted_by_time(s),
    ensures
        sort_by_time(s) == s,
    decreases s.len(),
{
    if s.len() == 0 {
        assert(sort_by_time(s) =~= s);
    } else {
        let t = s.drop_last();
        let x = s.last();
        assert(sorted_by_time(t));
        lemma_sort_by_time_of_sorted(t);
        lemma_insert_pos(x, t);
        assert(insert_pos(x, t) == t.len()) by {
            let p = insert_pos(x, t);
            if p < t.len() {
                assert(time_le(s[p], s[s.len() - 1]));
            }
        }
        lemma_insert_by_time_form(x, t);
        assert(t.insert(t.len() as int, x) =~= s);
    }
}

/// Two ascending sequences with the same records and pairwise distinct
/// timestamps are the same sequence.
pub proof fn lemma_sorted_ms_unique(a: Seq<Status>, b: Seq<Status>)
    requires
        sorted_by_time(a),
        sorted_by_time(b),
        a.to_multiset() == b.to_multiset(),
        distinct_times(a),
    ensures
        a == b,
    decreases a.len(),
{
    broadcast use group_to_multiset_ensures;
    broadcast use group_multiset_axioms;

    if a.len() == 0 {
        assert(b.to_multiset().len() == 0);
        assert(a =~= b);
    } else {
        assert(b.to_multiset().len() == a.len());
        assert(b.len() > 0);
        assert(a.contains(a[0]));
        assert(b.contains(b[0]));
        assert(b.to_multiset().count(a[0]) > 0);
        assert(b.contains(a[0]));
        assert(a.to_multiset().count(b[0]) > 0);
        assert(a.contains(b[0]));
        let i = choose|i: int| 0 <= i < b.len() && b[i] == a[0];
        let k = choose|k: int| 0 <= k < a.len() && a[k] == b[0];
        // the heads are the same record: a head elsewhere in the other
        // sequence would repeat a timestamp
        if i == 0 || k == 0 {
            assert(a[0] == b[0]);
        } else {
            assert(time_le(b[0], b[i]));
            assert(time_le(a[0], a[k]));
            lemma_lex_le_antisym(a[0].created_at@, b[0].created_at@);
            assert(a[0].created_at@ == a[k].created_at@);
            assert(false);
        }
        // the tails match up
        assert(a.drop_first() =~= a.remove(0));
        assert(b.drop_first() =~= b.remove(0));
        assert(a.remove(0).to_multiset() =~= a.to_multiset().remove(a[0]));
        assert(b.remove(0).to_multiset() =~= b.to_multiset().remove(b[0]));
        assert(sorted_by_time(a.drop_first())) by {
            assert(forall|x: int, y: int|
                0 <= x < y < a.drop_first().len() ==> time_le(
                    #[trigger] a.drop_first()[x],
                    #[trigger] a.drop_first()[y],
                ));
        }
        assert(sorted_by_time(b.drop_first())) by {
            assert(forall|x: int, y: int|
                0 <= x < y < b.drop_first().len() ==> time_le(
                    #[trigger] b.drop_first()[x],
                    #[trigger] b.drop_first()[y],
                ));
        }
        assert(distinct_times(a.drop_first())) by {
            assert(forall|x: int, y: int|
                0 <= x < y < a.drop_first().len() ==> #[trigger] a.drop_first()[x].created_at@
                    != #[trigger] a.drop_first()[y].created_at@);
        }
        lemma_sorted_ms_unique(a.drop_first(), b.drop_first());
        assert forall|x: int| 0 <= x < a.len() implies a[x] == b[x] by {
            if x > 0 {
                assert(a.drop_first()[x - 1] == b.drop_first()[x - 1]);
            }
        }
        assert(a =~= b);
    }
}


/// Swapping the halves of a concatenation keeps ids unique and timestamps
/// distinct.
pub proof fn lemma_concat_swap_keys(a: Seq<Status>, b: Seq<Status>)
    ensures
        unique_ids(a + b) ==> unique_ids(b + a),
        distinct_times(a + b) ==> distinct_times(b + a),
{
    let ab = a + b;
    let ba = b + a;
    if unique_ids(ab) {
        assert forall|i: int, j: int| 0 <= i < j < ba.len() implies ba[i].id@ != ba[j].id@ by {
            if j < b.len() {
                assert(ba[i] == ab[a.len() + i]);
                assert(ba[j] == ab[a.len() + j]);
            } else if i >= b.len() {
                assert(ba[i] == ab[i - b.len()]);
                assert(ba[j] == ab[j - b.len()]);
            } else {
                assert(ba[i] == ab[a.len() + i]);
                assert(ba[j] == ab[j - b.len()]);
            }
        }
    }
    if distinct_times(ab) {
        assert forall|i: int, j: int| 0 <= i < j < ba.len() implies ba[i].created_at@
            != ba[j].created_at@ by {
            if j < b.len() {
                assert(ba[i] == ab[a.len() + i]);
                assert(ba[j] == ab[a.len() + j]);
            } else if i >= b.len() {
                assert(ba[i] == ab[i - b.len()]);
                assert(ba[j] == ab[j - b.len()]);
            } else {
                assert(ba[i] == ab[a.len() + i]);
                assert(ba[j] == ab[j - b.len()]);
            }
        }
    }
}

/// Idempotence of a full fetch: the archive built by merging a fetched set
/// into an empty archive, merged again with nothing new, is unchanged; with
/// the fetch deterministic, running it twice yields identical archives.
pub proof fn lemma_full_fetch_idempotent(fetched: Seq<Status>)
    ensures
        merge_spec(merge_spec(Seq::empty(), fetched), Seq::empty()) == merge_spec(
            Seq::empty(),
            fetched,
        ),
{
    let e: Seq<Status> = Seq::empty();
    assert(e + fetched =~= fetched);
    let m = merge_spec(e, fetched);
    lemma_dedup_by_id(fetched);
    lemma_sort_by_time(dedup_by_id(fetched));
    lemma_sort_by_time_keeps_distinct(dedup_by_id(fetched));
    assert(m + e =~= m);
    lemma_dedup_by_id_of_unique(m);
    lemma_sort_by_time_of_sorted(m);
}

/// No loss and no duplication: when the fetched records are strictly newer
/// than everything in the archive and no id repeats anywhere, the merge keeps
/// every record of both sides exactly once.
pub proof fn lemma_merge_no_loss_no_dup(existing: Seq<Status>, fetched: Seq<Status>)
    requires
        unique_ids(existing + fetched),
        forall|i: int, j: int|
            0 <= i < existing.len() && 0 <= j < fetched.len() ==> #[trigger] time_lt(
                existing[i],
                fetched[j],
            ),
    ensures
        merge_spec(existing, fetched).len() == existing.len() + fetched.len(),
        unique_ids(merge_spec(existing, fetched)),
{
    let c = existing + fetched;
    lemma_dedup_by_id_of_unique(c);
    lemma_sort_by_time(c);
    lemma_sort_by_time_keeps_distinct(c);
}

/// Order independence: with no id and no timestamp repeated, merging the two
/// sets in either order gives the same archive.
pub proof fn lemma_merge_order_independent(a: Seq<Status>, b: Seq<Status>)
    requires
        unique_ids(a + b),
        distinct_times(a + b),
    ensures
        merge_spec(a, b) == merge_spec(b, a),
{
    broadcast use group_multiset_axioms;

    lemma_concat_swap_keys(a, b);
    lemma_dedup_by_id_of_unique(a + b);
    lemma_dedup_by_id_of_unique(b + a);
    lemma_sort_by_time(a + b);
    lemma_sort_by_time(b + a);
    lemma_sort_by_time_keeps_distinct(a + b);
    lemma_multiset_commutative(a, b);
    lemma_multiset_commutative(b, a);
    assert(sort_by_time(a + b).to_multiset() =~= (a + b).to_multiset());
    assert(a.to_multiset().add(b.to_multiset()) =~= b.to_multiset().add(a.to_multiset()));
    assert((a + b).to_multiset() =~= (b + a).to_multiset());
    assert(sort_by_time(b + a).to_multiset() =~= (b + a).to_multiset());
    assert(sort_by_time(a + b).to_multiset() =~= sort_by_time(b + a).to_multiset());
    lemma_sorted_ms_unique(sort_by_time(a + b), sort_by_time(b + a));
}

/// Decides whether some record in `v` carries the id `d`.
fn contains_id(v: &Vec<Status>, d: &String) -> (r: bool)
    ensures
        r == has_id(v@, d@),
{
    let mut i: usize = 0;
    while i < v.len()
        invariant
            0 <= i <= v@.len(),
            forall|k: int| 0 <= k < i ==> #[trigger] v@[k].id@ != d@,
        decreases v@.len() - i,
    {
        if v[i].id == *d {
            return true;
        }
        i = i + 1;
    }
    false
}

/// Drops every record whose id was already seen, keeping first occurrences.
pub(crate) fn dedup_exec(records: Vec<Status>) -> (r: Vec<Status>)
    ensures
        r@ == dedup_by_id(records@),
{
    let ghost orig = records@;
    let mut records = records;
    let mut out: Vec<Status> = Vec::new();
    let ghost mut k: int = 0;
    proof {
        assert(records@ =~= orig.skip(0));
        assert(orig.take(0) =~= Seq::<Status>::empty());
    }
    while records.len() > 0
        invariant
            0 <= k <= orig.len(),
            records@ == orig.skip(k),
            out@ == dedup_by_id(orig.take(k)),
        decreases records@.len(),
    {
        let x = records.remove(0);
        proof {
            assert(orig.skip(k)[0] == orig[k]);
            assert(orig.skip(k).remove(0) =~= orig.skip(k + 1));
            lemma_dedup_by_id_keys(orig.take(k), x.id@);
            assert(orig.take(k + 1).drop_last() =~= orig.take(k));
            assert(orig.take(k + 1).last() == orig[k]);
        }
        let dup = contains_id(&out, &x.id);
        if !dup {
            out.push(x);
        }
        proof {
            k = k + 1;
        }
    }
    proof {
        assert(orig.take(k) =~= orig);
    }
    out
}

/// Stable insertion sort ascending by `created_at`.
pub(crate) fn sort_exec(records: Vec<Status>) -> (r: Vec<Status>)
    ensures
        r@ == sort_by_time(records@),
        sorted_by_time(r@),
{
    let ghost orig = records@;
    let mut records = records;
    let mut out: Vec<Status> = Vec::new();
    let ghost mut k: int = 0;
    proof {
        assert(records@ =~= orig.skip(0));
        assert(orig.take(0) =~= Seq::<Status>::empty());
    }
    while records.len() > 0
        invariant
            0 <= k <= orig.len(),
            records@ == orig.skip(k),
            out@ == sort_by_time(orig.take(k)),
            sorted_by_time(out@),
        decreases records@.len(),
    {
        let x = records.remove(0);
        proof {
            assert(orig.skip(k)[0] == orig[k]);
            assert(orig.skip(k).remove(0) =~= orig.skip(k + 1));
        }
        let ghost before = out@;
        let mut p: usize = 0;
        while p < out.len() && lex_le_exec(out[p].created_at.as_str(), x.created_at.as_str())
            invariant
                0 <= p <= out@.len(),
                out@ == before,
                forall|t: int| 0 <= t < p ==> time_le(#[trigger] out@[t], x),
            decreases out@.len() - p,
        {
            p = p + 1;
        }
        proof {
            lemma_insert_pos(x, before);
            let ip = insert_pos(x, before);
            if ip < p {
                assert(time_le(before[ip], x));
                assert(false);
            }
            if ip > p {
                assert(p < before.len());
                assert(time_le(before[p as int], x));
                assert(false);
            }
            lemma_insert_by_time_form(x, before);
            lemma_insert_by_time(x, before);
            assert(orig.take(k + 1).drop_last() =~= orig.take(k));
            assert(orig.take(k + 1).last() == orig[k]);
        }
        out.insert(p, x);
        proof {
            k = k + 1;
        }
    }
    proof {
        assert(orig.take(k) =~= orig);
    }
    out
}

/// Merges the loaded archive and the fetched records: concatenate,
/// deduplicate by id keeping the first occurrence, sort ascending by
/// `created_at`. The result satisfies the archive invariant: ascending order
/// and no repeated id, whatever the inputs were.
pub fn merge(existing: Vec<Status>, fetched: Vec<Status>) -> (r: Vec<Status>)
    ensures
        r@ == merge_spec(existing@, fetched@),
        sorted_by_time(r@),
        unique_ids(r@),
{
    let mut all = existing;
    let mut fetched = fetched;
    all.append(&mut fetched);
    let deduped = dedup_exec(all);
    proof {
        lemma_dedup_by_id(all@);
        lemma_sort_by_time(deduped@);
        lemma_sort_by_time_keeps_distinct(deduped@);
    }
    sort_exec(deduped)
}


/// The records carrying the timestamp `d`.
pub open spec fn at_time(d: Seq<char>) -> spec_fn(Status) -> bool {
    |x: Status| x.created_at@ == d
}

/// A sequence none of whose records satisfies the predicate filters to
/// nothing.
proof fn lemma_filter_empty(s: Seq<Status>, pred: spec_fn(Status) -> bool)
    requires
        forall|i: int| 0 <= i < s.len() ==> !pred(s[i]),
    ensures
        s.filter(pred) == Seq::<Status>::empty(),
    decreases s.len(),
{
    reveal(Seq::filter);
    if s.len() == 0 {
        assert(s.filter(pred) =~= Seq::<Status>::empty());
    } else {
        let t = s.drop_last();
        assert forall|i: int| 0 <= i < t.len() implies !pred(t[i]) by {
            assert(t[i] == s[i]);
        }
        lemma_filter_empty(t, pred);
        assert(!pred(s.last()));
    }
}

/// What insertion does to the records of one timestamp: everything at or
/// past the insertion point is strictly newer than `x`, so none of it
/// carries `x`'s timestamp; `x` joins the end of its own timestamp's
/// subsequence, and every other timestamp's subsequence stands unchanged.
pub proof fn lemma_insert_by_time_filter(x: Status, s: Seq<Status>, d: Seq<char>)
    requires
        sorted_by_time(s),
    ensures
        insert_by_time(x, s).filter(at_time(d)) == if x.created_at@ == d {
            s.filter(at_time(d)).push(x)
        } else {
            s.filter(at_time(d))
        },
{
    reveal(Seq::filter);
    lemma_insert_pos(x, s);
    lemma_insert_by_time_form(x, s);
    let p = insert_pos(x, s);
    let r = insert_by_time(x, s);
    let pred = at_time(d);
    let a = s.subrange(0, p);
    let b = s.subrange(p, s.len() as int);
    assert(r == a.push(x) + b);
    assert(s =~= a + b);
    Seq::<Status>::filter_distributes_over_add(a.push(x), b, pred);
    Seq::<Status>::filter_distributes_over_add(a, b, pred);
    assert(a.push(x).drop_last() =~= a);
    assert(a.push(x).last() == x);
    assert(a.push(x).filter(pred) == if pred(x) {
        a.filter(pred).push(x)
    } else {
        a.filter(pred)
    });
    if x.created_at@ == d {
        assert forall|j: int| 0 <= j < b.len() implies !pred(b[j]) by {
            let sj = s[p + j];
            assert(b[j] == sj);
            if sj.created_at@ == d {
                lemma_lex_le_total(sj.created_at@, x.created_at@);
                assert(time_le(sj, x));
                if j > 0 {
                    assert(time_le(s[p], sj));
                    lemma_lex_le_trans(s[p].created_at@, sj.created_at@, x.created_at@);
                }
                assert(time_le(s[p], x));
                assert(false);
            }
        }
        lemma_filter_empty(b, pred);
        assert(r.filter(pred) =~= s.filter(pred).push(x));
    } else {
        assert(!pred(x));
        assert(r.filter(pred) =~= s.filter(pred));
    }
}

/// Stability of the sort: for every timestamp, the records carrying it come
/// out of `sort_by_time` in the order they went in.
pub proof fn lemma_sort_by_time_stable(s: Seq<Status>, d: Seq<char>)
    ensures
        sort_by_time(s).filter(at_time(d)) == s.filter(at_time(d)),
    decreases s.len(),
{
    reveal(Seq::filter);
    if s.len() == 0 {
    } else {
        let t = s.drop_last();
        let x = s.last();
        let pred = at_time(d);
        lemma_sort_by_time_stable(t, d);
        lemma_sort_by_time(t);
        lemma_insert_by_time_filter(x, sort_by_time(t), d);
        assert(s.drop_last() == t && s.last() == x);
        assert(s.filter(pred) == if pred(x) {
            t.filter(pred).push(x)
        } else {
            t.filter(pred)
        });
    }
}

/// Ties keep their arrival order (stable sort): for every timestamp, the
/// records carrying it stand in the merge output in exactly the order they
/// hold in the deduplicated concatenation of archive and fetch.
pub proof fn lemma_merge_stable(existing: Seq<Status>, fetched: Seq<Status>, d: Seq<char>)
    ensures
        merge_spec(existing, fetched).filter(at_time(d)) == dedup_by_id(existing + fetched).filter(
            at_time(d),
        ),
{
    lemma_sort_by_time_stable(dedup_by_id(existing + fetched), d);
}

} // verus!\n