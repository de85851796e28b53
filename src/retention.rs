use crate::entry::RowView;
use crate::history::{
    after_insert, duplicate_in_window, id_taken, insert_pos, insert_sorted, lemma_insert_pos,
    lemma_insert_sorted_wf, lemma_retain_wf, pinned_only, retain_recent, rows_wf, DEDUP_WINDOW,
};
use crate::storage::pin_acceptable;
use vstd::prelude::*;

verus! {

/// How many rows are not pinned.
pub open spec fn unpinned_count(rows: Seq<RowView>) -> nat
    decreases rows.len(),
{
    if rows.len() == 0 {
        0
    } else {
        (if rows[0].is_pinned { 0nat } else { 1nat }) + unpinned_count(rows.drop_first())
    }
}

/// One store of an entry: nothing happens to a duplicate or a taken id,
/// otherwise the entry is placed and retention applied.
pub open spec fn store_step(rows: Seq<RowView>, r: RowView, capacity: nat) -> Seq<RowView> {
    if duplicate_in_window(rows, r.content_hash, r.content_type, DEDUP_WINDOW as nat) || id_taken(rows, r.id) {
        rows
    } else {
        after_insert(rows, r, capacity)
    }
}

/// Storing the entries `es` one after the other.
pub open spec fn store_all(rows: Seq<RowView>, es: Seq<RowView>, capacity: nat) -> Seq<RowView>
    decreases es.len(),
{
    if es.len() == 0 {
        rows
    } else {
        store_step(store_all(rows, es.drop_last(), capacity), es.last(), capacity)
    }
}

proof fn lemma_count_concat(a: Seq<RowView>, b: Seq<RowView>)
    ensures
        unpinned_count(a + b) == unpinned_count(a) + unpinned_count(b),
    decreases a.len(),
{
    if a.len() == 0 {
        assert(a + b =~= b);
    } else {
        assert((a + b).drop_first() =~= a.drop_first() + b);
        lemma_count_concat(a.drop_first(), b);
    }
}

proof fn lemma_pinned_only_concat(a: Seq<RowView>, b: Seq<RowView>)
    ensures
        pinned_only(a + b) == pinned_only(a) + pinned_only(b),
    decreases a.len(),
{
    if a.len() == 0 {
        assert(a + b =~= b);
        assert(pinned_only(a) + pinned_only(b) =~= pinned_only(b));
    } else {
        assert((a + b).drop_first() =~= a.drop_first() + b);
        lemma_pinned_only_concat(a.drop_first(), b);
        if a[0].is_pinned {
            assert(seq![a[0]] + (pinned_only(a.drop_first()) + pinned_only(b)) =~= (seq![a[0]]
                + pinned_only(a.drop_first())) + pinned_only(b));
        }
    }
}

/// Placing an unpinned row adds one unpinned row and leaves the pinned ones.
proof fn lemma_insert_unpinned(s: Seq<RowView>, e: RowView, p: int)
    requires
        !e.is_pinned,
        0 <= p <= s.len(),
    ensures
        unpinned_count(s.insert(p, e)) == unpinned_count(s) + 1,
        pinned_only(s.insert(p, e)) == pinned_only(s),
{
    let a = s.take(p);
    let b = s.skip(p);
    assert(s =~= a + b);
    assert(s.insert(p, e) =~= a + (seq![e] + b));
    assert((seq![e] + b).drop_first() =~= b);
    lemma_count_concat(a, b);
    lemma_count_concat(a, seq![e] + b);
    lemma_pinned_only_concat(a, b);
    lemma_pinned_only_concat(a, seq![e] + b);
}

/// Retention keeps every pinned row and `min(budget, unpinned)` unpinned ones.
proof fn lemma_retain_counts(x: Seq<RowView>, budget: nat)
    ensures
        pinned_only(retain_recent(x, budget)) == pinned_only(x),
        unpinned_count(retain_recent(x, budget)) == if unpinned_count(x) < budget {
            unpinned_count(x)
        } else {
            budget
        },
        unpinned_count(x) <= budget ==> retain_recent(x, budget) == x,
    decreases x.len(),
{
    if x.len() > 0 {
        let t = x.drop_first();
        let b2: nat = if x[0].is_pinned || budget == 0 { budget } else { (budget - 1) as nat };
        lemma_retain_counts(t, b2);
        let r = retain_recent(t, b2);
        assert((seq![x[0]] + r).drop_first() =~= r);
        if unpinned_count(x) <= budget {
            if x[0].is_pinned || budget > 0 {
                assert(seq![x[0]] + t =~= x);
            }
        }
    }
}

/// Retention with no budget keeps no unpinned row.
proof fn lemma_retain_zero(x: Seq<RowView>)
    ensures
        forall|k: int| 0 <= k < retain_recent(x, 0).len() ==> retain_recent(x, 0)[k].is_pinned,
    decreases x.len(),
{
    if x.len() > 0 {
        lemma_retain_zero(x.drop_first());
        let r = retain_recent(x.drop_first(), 0);
        if x[0].is_pinned {
            assert forall|k: int| 0 <= k < (seq![x[0]] + r).len() implies (seq![x[0]] + r)[k].is_pinned by {
                if k > 0 {
                    assert((seq![x[0]] + r)[k] == r[k - 1]);
                }
            }
        }
    }
}

/// An unpinned row preceded by at least `budget` unpinned rows is dropped.
proof fn lemma_retain_drops_late(x: Seq<RowView>, budget: nat, q: int)
    requires
        rows_wf(x),
        0 <= q < x.len(),
        !x[q].is_pinned,
        unpinned_count(x.take(q)) >= budget,
    ensures
        !retain_recent(x, budget).contains(x[q]),
    decreases x.len(),
{
    lemma_retain_wf(x, budget);
    if budget == 0 {
        lemma_retain_zero(x);
    } else {
        assert(q > 0) by {
            if q == 0 {
                assert(x.take(0) =~= Seq::<RowView>::empty());
            }
        }
        let t = x.drop_first();
        crate::history::lemma_wf_drop_first(x);
        assert(x.take(q) =~= seq![x[0]] + t.take(q - 1));
        assert((seq![x[0]] + t.take(q - 1)).drop_first() =~= t.take(q - 1));
        let b2: nat = if x[0].is_pinned { budget } else { (budget - 1) as nat };
        assert(t[q - 1] == x[q]);
        lemma_retain_drops_late(t, b2, q - 1);
        let r = retain_recent(t, b2);
        assert(x[0].id != x[q].id);
        assert(retain_recent(x, budget) == seq![x[0]] + r);
        if (seq![x[0]] + r).contains(x[q]) {
            let k = choose|k: int| 0 <= k < (seq![x[0]] + r).len() && (seq![x[0]] + r)[k] == x[q];
            assert(k > 0);
            assert(r[k - 1] == x[q]);
        }
    }
}

/// A dropped unpinned row is no more recent than any kept unpinned row.
proof fn lemma_retain_dropped_older(x: Seq<RowView>, budget: nat, y: RowView, f: RowView)
    requires
        rows_wf(x),
        x.contains(y),
        !y.is_pinned,
        !retain_recent(x, budget).contains(y),
        retain_recent(x, budget).contains(f),
        !f.is_pinned,
    ensures
        y.timestamp <= f.timestamp,
    decreases x.len(),
{
    lemma_retain_wf(x, budget);
    let t = x.drop_first();
    crate::history::lemma_wf_drop_first(x);
    if budget == 0 {
        lemma_retain_zero(x);
        let k = choose|k: int| 0 <= k < retain_recent(x, 0).len() && retain_recent(x, 0)[k] == f;
    } else {
        let b2: nat = if x[0].is_pinned { budget } else { (budget - 1) as nat };
        let r = retain_recent(t, b2);
        assert(retain_recent(x, budget) == seq![x[0]] + r);
        assert(y != x[0]) by {
            assert((seq![x[0]] + r)[0] == x[0]);
        }
        let jy = choose|j: int| 0 <= j < x.len() && x[j] == y;
        assert(jy > 0);
        assert(t[jy - 1] == y);
        assert(!r.contains(y)) by {
            if r.contains(y) {
                let k = choose|k: int| 0 <= k < r.len() && r[k] == y;
                assert((seq![x[0]] + r)[k + 1] == y);
            }
        }
        let kf = choose|k: int| 0 <= k < (seq![x[0]] + r).len() && (seq![x[0]] + r)[k] == f;
        if kf == 0 {
            assert(x[0].timestamp >= x[jy].timestamp);
        } else {
            assert(r[kf - 1] == f);
            lemma_retain_dropped_older(t, b2, y, f);
        }
    }
}

/// A duplicate in the window is a row with that digest and type.
proof fn lemma_duplicate_witness(rows: Seq<RowView>, h: Seq<char>, t: crate::entry::ContentType, w: nat)
    requires
        duplicate_in_window(rows, h, t, w),
    ensures
        exists|k: int| 0 <= k < rows.len() && rows[k].content_hash == h && rows[k].content_type == t,
    decreases rows.len(),
{
    let rest = rows.drop_first();
    if !(rows[0].content_type == t && rows[0].content_hash == h) {
        let w2: nat = if rows[0].content_type == t { (w - 1) as nat } else { w };
        lemma_duplicate_witness(rest, h, t, w2);
        let k = choose|k: int| 0 <= k < rest.len() && rest[k].content_hash == h && rest[k].content_type == t;
        assert(rows[k + 1] == rest[k]);
    }
}

/// The state after storing a prefix of the entries.
spec fn prefix_invariant(rows: Seq<RowView>, es: Seq<RowView>, capacity: nat, s: Seq<RowView>, i: int) -> bool {
    &&& rows_wf(s)
    &&& pinned_only(s) == rows
    &&& unpinned_count(s) == if i < capacity { i as nat } else { capacity }
    &&& forall|k: int| 0 <= k < s.len() ==> rows.contains(#[trigger] s[k]) || es.take(i).contains(s[k])
    &&& forall|k: int| 0 <= k < s.len() && !s[k].is_pinned ==> es.take(i).contains(#[trigger] s[k])
    &&& i <= capacity ==> forall|j: int| 0 <= j < i ==> s.contains(#[trigger] es[j])
    &&& forall|j: int, k: int|
        0 <= j < i && !s.contains(#[trigger] es[j]) && 0 <= k < s.len() && !(#[trigger] s[k]).is_pinned
            ==> es[j].timestamp <= s[k].timestamp
}

/// Preconditions of the retention law.
pub open spec fn retention_setup(rows: Seq<RowView>, es: Seq<RowView>) -> bool {
    &&& rows_wf(rows)
    &&& forall|k: int| 0 <= k < rows.len() ==> #[trigger] rows[k].is_pinned
    &&& forall|i: int| 0 <= i < es.len() ==> !(#[trigger] es[i]).is_pinned && es[i].pin_order is None
    &&& forall|i: int, j: int| 0 <= i < es.len() && 0 <= j < es.len() && i != j ==> (#[trigger] es[i]).id != (#[trigger] es[j]).id
        && !(es[i].content_hash == es[j].content_hash && es[i].content_type == es[j].content_type)
    &&& forall|i: int, k: int| 0 <= i < es.len() && 0 <= k < rows.len() ==> (#[trigger] es[i]).id != (#[trigger] rows[k]).id
        && !(es[i].content_hash == rows[k].content_hash && es[i].content_type == rows[k].content_type)
}

/// The shape of `insert_sorted(s, e)` around the insertion position.
proof fn lemma_x_shape(s: Seq<RowView>, e: RowView)
    requires
        rows_wf(s),
        !id_taken(s, e.id),
        pin_acceptable(s, e.is_pinned, e.pin_order),
    ensures
        insert_pos(s, e.timestamp) <= s.len(),
        insert_sorted(s, e).len() == s.len() + 1,
        rows_wf(insert_sorted(s, e)),
        forall|k: int|
            0 <= k < insert_sorted(s, e).len() ==> #[trigger] insert_sorted(s, e)[k] == (if k < insert_pos(
                s,
                e.timestamp,
            ) {
                s[k]
            } else if k == insert_pos(s, e.timestamp) {
                e
            } else {
                s[k - 1]
            }),
        insert_sorted(s, e).contains(e),
        forall|k: int| 0 <= k < s.len() ==> insert_sorted(s, e).contains(#[trigger] s[k]),
        forall|y: RowView| insert_sorted(s, e).contains(y) ==> y == e || s.contains(y),
{
    lemma_insert_pos(s, e.timestamp);
    lemma_insert_sorted_wf(s, e);
    let p = insert_pos(s, e.timestamp) as int;
    let x = insert_sorted(s, e);
    assert(x[p] == e);
    assert forall|k: int| 0 <= k < s.len() implies x.contains(#[trigger] s[k]) by {
        let k2 = if k < p { k } else { k + 1 };
        assert(x[k2] == s[k]);
    }
    assert forall|y: RowView| x.contains(y) implies y == e || s.contains(y) by {
        let m = choose|m: int| 0 <= m < x.len() && x[m] == y;
        if m != p {
            let m2 = if m < p { m } else { m - 1 };
            assert(s[m2] == y);
        }
    }
}

/// The next entry is neither a duplicate nor a taken id.
proof fn lemma_step_fresh(rows: Seq<RowView>, es: Seq<RowView>, i: int, s: Seq<RowView>)
    requires
        retention_setup(rows, es),
        1 <= i <= es.len(),
        forall|k: int| 0 <= k < s.len() ==> rows.contains(#[trigger] s[k]) || es.take(i - 1).contains(s[k]),
    ensures
        !duplicate_in_window(s, es[i - 1].content_hash, es[i - 1].content_type, DEDUP_WINDOW as nat),
        !id_taken(s, es[i - 1].id),
{
    let pre = es.take(i - 1);
    let e = es[i - 1];
    assert forall|k: int| 0 <= k < s.len() implies s[k].id != e.id && !(s[k].content_hash
        == e.content_hash && s[k].content_type == e.content_type) by {
        if rows.contains(s[k]) {
            let m = choose|m: int| 0 <= m < rows.len() && rows[m] == s[k];
            assert(es[i - 1].id != rows[m].id);
        } else {
            assert(pre.contains(s[k]));
            let m = choose|m: int| 0 <= m < pre.len() && pre[m] == s[k];
            assert(es[m] == s[k]);
            assert(es[i - 1].id != es[m].id);
        }
    }
    if duplicate_in_window(s, e.content_hash, e.content_type, DEDUP_WINDOW as nat) {
        lemma_duplicate_witness(s, e.content_hash, e.content_type, DEDUP_WINDOW as nat);
    }
}

/// Rows after the step come from `rows` or the first `i` entries; unpinned ones
/// from the entries.
proof fn lemma_step_members(rows: Seq<RowView>, es: Seq<RowView>, i: int, s: Seq<RowView>, s2: Seq<RowView>)
    requires
        1 <= i <= es.len(),
        forall|k: int| 0 <= k < s.len() ==> rows.contains(#[trigger] s[k]) || es.take(i - 1).contains(s[k]),
        forall|k: int| 0 <= k < s.len() && !s[k].is_pinned ==> es.take(i - 1).contains(#[trigger] s[k]),
        forall|y: RowView| s2.contains(y) ==> y == es[i - 1] || s.contains(y),
    ensures
        forall|k: int| 0 <= k < s2.len() ==> rows.contains(#[trigger] s2[k]) || es.take(i).contains(s2[k]),
        forall|k: int| 0 <= k < s2.len() && !s2[k].is_pinned ==> es.take(i).contains(#[trigger] s2[k]),
{
    let pre = es.take(i - 1);
    let cur = es.take(i);
    assert(cur[i - 1] == es[i - 1]);
    assert forall|y: RowView| pre.contains(y) implies cur.contains(y) by {
        let n = choose|n: int| 0 <= n < pre.len() && pre[n] == y;
        assert(cur[n] == y);
    }
    assert forall|k: int| 0 <= k < s2.len() implies rows.contains(#[trigger] s2[k]) || cur.contains(s2[k]) by {
        assert(s2.contains(s2[k]));
        if s2[k] != es[i - 1] {
            let m = choose|m: int| 0 <= m < s.len() && s[m] == s2[k];
            assert(rows.contains(s[m]) || pre.contains(s[m]));
        }
    }
    assert forall|k: int| 0 <= k < s2.len() && !s2[k].is_pinned implies cur.contains(#[trigger] s2[k]) by {
        assert(s2.contains(s2[k]));
        if s2[k] != es[i - 1] {
            let m = choose|m: int| 0 <= m < s.len() && s[m] == s2[k];
            assert(pre.contains(s[m]));
        }
    }
}

/// Dropped entries stay no more recent than every kept unpinned row.
proof fn lemma_step_dropped(rows: Seq<RowView>, es: Seq<RowView>, capacity: nat, i: int, s: Seq<RowView>)
    requires
        retention_setup(rows, es),
        1 <= i <= es.len(),
        rows_wf(s),
        !id_taken(s, es[i - 1].id),
        unpinned_count(s) == if i - 1 < capacity { (i - 1) as nat } else { capacity },
        i - 1 <= capacity ==> forall|j: int| 0 <= j < i - 1 ==> s.contains(#[trigger] es[j]),
        forall|j: int, k: int|
            0 <= j < i - 1 && !s.contains(#[trigger] es[j]) && 0 <= k < s.len() && !(#[trigger] s[k]).is_pinned
                ==> es[j].timestamp <= s[k].timestamp,
    ensures
        forall|j: int, k: int|
            0 <= j < i && !retain_recent(insert_sorted(s, es[i - 1]), capacity).contains(#[trigger] es[j]) && 0
                <= k < retain_recent(insert_sorted(s, es[i - 1]), capacity).len() && !(#[trigger] retain_recent(
                insert_sorted(s, es[i - 1]),
                capacity,
            )[k]).is_pinned ==> es[j].timestamp <= retain_recent(insert_sorted(s, es[i - 1]), capacity)[k].timestamp,
{
    let e = es[i - 1];
    assert(pin_acceptable(s, e.is_pinned, e.pin_order));
    lemma_x_shape(s, e);
    let x = insert_sorted(s, e);
    let s2 = retain_recent(x, capacity);
    lemma_retain_wf(x, capacity);
    assert forall|j: int, k: int|
        0 <= j < i && !s2.contains(#[trigger] es[j]) && 0 <= k < s2.len() && !(#[trigger] s2[k]).is_pinned
            implies es[j].timestamp <= s2[k].timestamp by {
        assert(x.contains(s2[k]));
        if j == i - 1 || s.contains(es[j]) {
            lemma_retain_dropped_older(x, capacity, es[j], s2[k]);
        } else {
            if s2[k] == e {
                assert(s2.contains(e));
                lemma_new_entry_kept_is_recent(s, e, capacity, es[j]);
            } else {
                let m = choose|m: int| 0 <= m < s.len() && s[m] == s2[k];
            }
        }
    }
}

proof fn lemma_store_prefix(rows: Seq<RowView>, es: Seq<RowView>, capacity: nat, i: int)
    requires
        retention_setup(rows, es),
        0 <= i <= es.len(),
    ensures
        prefix_invariant(rows, es, capacity, store_all(rows, es.take(i), capacity), i),
    decreases i,
{
    if i == 0 {
        assert(es.take(0) =~= Seq::<RowView>::empty());
        lemma_all_pinned(rows);
    } else {
        lemma_store_prefix(rows, es, capacity, i - 1);
        let s = store_all(rows, es.take(i - 1), capacity);
        let e = es[i - 1];
        assert(es.take(i).drop_last() =~= es.take(i - 1));
        assert(es.take(i).last() == e);
        assert(store_all(rows, es.take(i), capacity) == store_step(s, e, capacity));
        lemma_step_fresh(rows, es, i, s);
        assert(store_step(s, e, capacity) == after_insert(s, e, capacity));
        assert(pin_acceptable(s, e.is_pinned, e.pin_order));
        lemma_x_shape(s, e);
        let x = insert_sorted(s, e);
        lemma_insert_unpinned(s, e, insert_pos(s, e.timestamp) as int);
        let s2 = retain_recent(x, capacity);
        lemma_retain_wf(x, capacity);
        lemma_retain_counts(x, capacity);
        assert forall|y: RowView| s2.contains(y) implies y == e || s.contains(y) by {
            let k = choose|k: int| 0 <= k < s2.len() && s2[k] == y;
            assert(x.contains(s2[k]));
        }
        lemma_step_members(rows, es, i, s, s2);
        lemma_step_dropped(rows, es, capacity, i, s);
        if i <= capacity {
            assert(s2 == x);
            assert forall|j: int| 0 <= j < i implies s2.contains(#[trigger] es[j]) by {
                if j < i - 1 {
                    assert(s.contains(es[j]));
                    let m = choose|m: int| 0 <= m < s.len() && s[m] == es[j];
                    assert(x.contains(s[m]));
                }
            }
        }
    }
}

proof fn lemma_all_pinned(rows: Seq<RowView>)
    requires
        forall|k: int| 0 <= k < rows.len() ==> #[trigger] rows[k].is_pinned,
    ensures
        pinned_only(rows) == rows,
        unpinned_count(rows) == 0,
    decreases rows.len(),
{
    if rows.len() > 0 {
        let t = rows.drop_first();
        assert forall|k: int| 0 <= k < t.len() implies #[trigger] t[k].is_pinned by {
            assert(t[k] == rows[k + 1]);
        }
        lemma_all_pinned(t);
        assert(seq![rows[0]] + t =~= rows);
    }
}

/// When an older entry `d` was dropped from a full state, a new entry less
/// recent than `d` cannot survive retention; so a kept new entry is at least as
/// recent as `d`.
proof fn lemma_new_entry_kept_is_recent(s: Seq<RowView>, e: RowView, capacity: nat, d: RowView)
    requires
        rows_wf(s),
        !e.is_pinned,
        !id_taken(s, e.id),
        pin_acceptable(s, e.is_pinned, e.pin_order),
        unpinned_count(s) == capacity,
        forall|k: int| 0 <= k < s.len() && !(#[trigger] s[k]).is_pinned ==> d.timestamp <= s[k].timestamp,
        retain_recent(insert_sorted(s, e), capacity).contains(e),
    ensures
        d.timestamp <= e.timestamp,
{
    if e.timestamp < d.timestamp {
        lemma_insert_pos(s, e.timestamp);
        lemma_insert_sorted_wf(s, e);
        let p = insert_pos(s, e.timestamp) as int;
        let x = insert_sorted(s, e);
        assert(x[p] == e);
        assert(x.take(p) =~= s.take(p));
        assert(s =~= s.take(p) + s.skip(p));
        lemma_count_concat(s.take(p), s.skip(p));
        assert forall|k: int| 0 <= k < s.skip(p).len() implies #[trigger] s.skip(p)[k].is_pinned by {
            assert(s.skip(p)[k] == s[p + k]);
        }
        lemma_all_pinned(s.skip(p));
        lemma_retain_drops_late(x, capacity, p);
    }
}

/// Storing entries that are all new (distinct ids, and no digest-and-type
/// pair seen before) into a history holding only pinned entries: the pinned
/// entries all stay, in order; when more entries are stored than the capacity,
/// exactly `capacity` unpinned rows remain, all of them stored entries; and
/// every entry that was evicted is no more recent than every entry that
/// remains. This holds whatever order the entries were stored in.
pub proof fn lemma_retention_keeps_most_recent(rows: Seq<RowView>, es: Seq<RowView>, capacity: nat)
    requires
        retention_setup(rows, es),
        es.len() > capacity,
    ensures
        pinned_only(store_all(rows, es, capacity)) == rows,
        unpinned_count(store_all(rows, es, capacity)) == capacity,
        forall|k: int|
            0 <= k < store_all(rows, es, capacity).len() && !store_all(rows, es, capacity)[k].is_pinned
                ==> es.contains(#[trigger] store_all(rows, es, capacity)[k]),
        forall|j: int, k: int|
            0 <= j < es.len() && !store_all(rows, es, capacity).contains(#[trigger] es[j]) && 0 <= k
                < store_all(rows, es, capacity).len() && !(#[trigger] store_all(
                rows,
                es,
                capacity,
            )[k]).is_pinned ==> es[j].timestamp <= store_all(rows, es, capacity)[k].timestamp,
{
    lemma_store_prefix(rows, es, capacity, es.len() as int);
    assert(es.take(es.len() as int) =~= es);
}

} // verus!
