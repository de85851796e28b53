use crate::crypto::open_spec;
use crate::entry::{item_of, ContentType, ItemView, RowView, StoredClip};
use crate::text::{contains_seq, lower_of};
use vstd::prelude::*;
use vstd::utf8::{decode_utf8, valid_utf8};

verus! {

/// How many unpinned entries survive retention.
pub const RETENTION_CAPACITY: usize = 100;

/// How many of the most recent entries of a content type are checked for a
/// duplicate before a new one is stored.
pub const DEDUP_WINDOW: usize = 100;

/// How many of the most recent text entries a search scans.
pub const SEARCH_WINDOW: usize = 500;

/// The most matches a search returns.
pub const SEARCH_LIMIT: usize = 50;

/// The values of a sequence of rows.
pub open spec fn views(rows: Seq<StoredClip>) -> Seq<RowView> {
    rows.map_values(|r: StoredClip| r@)
}

/// Rows are ordered most recent first.
pub open spec fn sorted_by_recency(rows: Seq<RowView>) -> bool {
    forall|i: int, j: int| 0 <= i < j < rows.len() ==> rows[i].timestamp >= rows[j].timestamp
}

/// No two rows share an id.
pub open spec fn ids_unique(rows: Seq<RowView>) -> bool {
    forall|i: int, j: int|
        0 <= i < rows.len() && 0 <= j < rows.len() && i != j ==> rows[i].id != rows[j].id
}

/// A row carries a pin order exactly when it is pinned.
pub open spec fn pins_consistent(rows: Seq<RowView>) -> bool {
    forall|i: int| 0 <= i < rows.len() ==> (rows[i].pin_order is Some <==> rows[i].is_pinned)
}

/// No two pinned rows share a pin order.
pub open spec fn pin_orders_distinct(rows: Seq<RowView>) -> bool {
    forall|i: int, j: int|
        0 <= i < rows.len() && 0 <= j < rows.len() && i != j && rows[i].is_pinned
            && rows[j].is_pinned ==> rows[i].pin_order != rows[j].pin_order
}

/// The invariant of the history.
pub open spec fn rows_wf(rows: Seq<RowView>) -> bool {
    &&& sorted_by_recency(rows)
    &&& ids_unique(rows)
    &&& pins_consistent(rows)
    &&& pin_orders_distinct(rows)
}

/// Where a row with timestamp `ts` goes: after every strictly more recent row,
/// ahead of the rows with an equal or older timestamp.
pub open spec fn insert_pos(rows: Seq<RowView>, ts: i64) -> nat
    decreases rows.len(),
{
    if rows.len() == 0 {
        0
    } else if rows[0].timestamp > ts {
        1 + insert_pos(rows.drop_first(), ts)
    } else {
        0
    }
}

/// `rows` with `r` placed at its place in recency order.
pub open spec fn insert_sorted(rows: Seq<RowView>, r: RowView) -> Seq<RowView> {
    rows.insert(insert_pos(rows, r.timestamp) as int, r)
}

/// Retention: every pinned row, and the first `budget` unpinned rows.
pub open spec fn retain_recent(rows: Seq<RowView>, budget: nat) -> Seq<RowView>
    decreases rows.len(),
{
    if rows.len() == 0 {
        Seq::empty()
    } else if rows[0].is_pinned {
        seq![rows[0]] + retain_recent(rows.drop_first(), budget)
    } else if budget > 0 {
        seq![rows[0]] + retain_recent(rows.drop_first(), (budget - 1) as nat)
    } else {
        retain_recent(rows.drop_first(), budget)
    }
}

/// The ids of the rows that retention drops, in order.
pub open spec fn evicted_ids(rows: Seq<RowView>, budget: nat) -> Seq<Seq<char>>
    decreases rows.len(),
{
    if rows.len() == 0 {
        Seq::empty()
    } else if rows[0].is_pinned {
        evicted_ids(rows.drop_first(), budget)
    } else if budget > 0 {
        evicted_ids(rows.drop_first(), (budget - 1) as nat)
    } else {
        seq![rows[0].id] + evicted_ids(rows.drop_first(), budget)
    }
}

/// Among the first `window` rows of type `t`, one has digest `h`.
pub open spec fn duplicate_in_window(rows: Seq<RowView>, h: Seq<char>, t: ContentType, window: nat) -> bool
    decreases rows.len(),
{
    if rows.len() == 0 || window == 0 {
        false
    } else if rows[0].content_type == t {
        rows[0].content_hash == h || duplicate_in_window(rows.drop_first(), h, t, (window - 1) as nat)
    } else {
        duplicate_in_window(rows.drop_first(), h, t, window)
    }
}

/// Some row has id `id`.
pub open spec fn id_taken(rows: Seq<RowView>, id: Seq<char>) -> bool {
    exists|i: int| 0 <= i < rows.len() && rows[i].id == id
}

/// The index of the row with id `id`, when there is one.
pub open spec fn index_of(rows: Seq<RowView>, id: Seq<char>) -> int {
    choose|i: int| 0 <= i < rows.len() && rows[i].id == id
}

/// The state after storing `r`: placed by recency, then retention applied.
pub open spec fn after_insert(rows: Seq<RowView>, r: RowView, capacity: nat) -> Seq<RowView> {
    retain_recent(insert_sorted(rows, r), capacity)
}

/// What a payload opens to: itself without a key, else its authenticated plaintext.
pub open spec fn opened(key: Option<Seq<u8>>, sealed: Seq<u8>) -> Option<Seq<u8>> {
    match key {
        None => Some(sealed),
        Some(k) => open_spec(k, sealed),
    }
}

/// The readable entries of `rows`, in order; rows that do not open are skipped.
pub open spec fn readable(key: Option<Seq<u8>>, rows: Seq<RowView>) -> Seq<ItemView>
    decreases rows.len(),
{
    if rows.len() == 0 {
        Seq::empty()
    } else {
        match opened(key, rows[0].sealed) {
            Some(c) => seq![item_of(rows[0], c)] + readable(key, rows.drop_first()),
            None => readable(key, rows.drop_first()),
        }
    }
}

/// A text payload matches a lower-cased query when it is valid UTF-8 and its
/// lower-cased text contains the query.
pub open spec fn text_matches(content: Seq<u8>, query_lower: Seq<char>) -> bool {
    valid_utf8(content) && contains_seq(lower_of(decode_utf8(content)), query_lower)
}

/// Search: scanning at most `window` text rows, most recent first, the readable
/// ones that match, at most `budget` of them.
pub open spec fn search_scan(
    key: Option<Seq<u8>>,
    rows: Seq<RowView>,
    query_lower: Seq<char>,
    window: nat,
    budget: nat,
) -> Seq<ItemView>
    decreases rows.len(),
{
    if rows.len() == 0 || window == 0 || budget == 0 {
        Seq::empty()
    } else if rows[0].content_type != ContentType::Text {
        search_scan(key, rows.drop_first(), query_lower, window, budget)
    } else {
        match opened(key, rows[0].sealed) {
            Some(c) => if text_matches(c, query_lower) {
                seq![item_of(rows[0], c)] + search_scan(
                    key,
                    rows.drop_first(),
                    query_lower,
                    (window - 1) as nat,
                    (budget - 1) as nat,
                )
            } else {
                search_scan(key, rows.drop_first(), query_lower, (window - 1) as nat, budget)
            },
            None => search_scan(key, rows.drop_first(), query_lower, (window - 1) as nat, budget),
        }
    }
}

/// The larger of two optional pin orders.
pub open spec fn max_opt(a: Option<i32>, b: Option<i32>) -> Option<i32> {
    match (a, b) {
        (None, _) => b,
        (_, None) => a,
        (Some(x), Some(y)) => Some(if x >= y { x } else { y }),
    }
}

/// The pin order a row contributes to the maximum.
pub open spec fn own_pin(r: RowView) -> Option<i32> {
    if r.is_pinned {
        r.pin_order
    } else {
        None
    }
}

/// The largest pin order among pinned rows.
pub open spec fn max_pin(rows: Seq<RowView>) -> Option<i32>
    decreases rows.len(),
{
    if rows.len() == 0 {
        None
    } else {
        max_opt(own_pin(rows[0]), max_pin(rows.drop_first()))
    }
}

/// The order the next pin receives: one past the largest, or 1.
pub open spec fn next_pin_order(rows: Seq<RowView>) -> int {
    match max_pin(rows) {
        None => 1,
        Some(m) => m + 1,
    }
}

/// `rows` with the row `id` given the pin state `pinned` / `order`.
pub open spec fn with_pin(rows: Seq<RowView>, id: Seq<char>, pinned: bool, order: Option<i32>) -> Seq<RowView> {
    Seq::new(
        rows.len(),
        |i: int|
            if rows[i].id == id {
                RowView { is_pinned: pinned, pin_order: order, ..rows[i] }
            } else {
                rows[i]
            },
    )
}

/// Pinning `id` with the next pin order.
pub open spec fn pin_spec(rows: Seq<RowView>, id: Seq<char>) -> Seq<RowView> {
    with_pin(rows, id, true, Some(next_pin_order(rows) as i32))
}

/// Unpinning `id`.
pub open spec fn unpin_spec(rows: Seq<RowView>, id: Seq<char>) -> Seq<RowView> {
    with_pin(rows, id, false, None)
}

/// Moving the row `id` to timestamp `ts`, at its new place by recency.
pub open spec fn retimed(rows: Seq<RowView>, id: Seq<char>, ts: i64) -> Seq<RowView> {
    if id_taken(rows, id) {
        let i = index_of(rows, id);
        insert_sorted(rows.remove(i), RowView { timestamp: ts, ..rows[i] })
    } else {
        rows
    }
}

/// Removing the row `id`.
pub open spec fn without_id(rows: Seq<RowView>, id: Seq<char>) -> Seq<RowView> {
    if id_taken(rows, id) {
        rows.remove(index_of(rows, id))
    } else {
        rows
    }
}

/// The pinned rows, in order.
pub open spec fn pinned_only(rows: Seq<RowView>) -> Seq<RowView>
    decreases rows.len(),
{
    if rows.len() == 0 {
        Seq::empty()
    } else if rows[0].is_pinned {
        seq![rows[0]] + pinned_only(rows.drop_first())
    } else {
        pinned_only(rows.drop_first())
    }
}

/// The sort key of a pinned entry.
pub open spec fn pin_key(it: ItemView) -> int {
    match it.pin_order {
        Some(o) => o as int,
        None => 0,
    }
}

/// Entries in strictly ascending pin order.
pub open spec fn ascending_pin_order(s: Seq<ItemView>) -> bool {
    forall|i: int, j: int| 0 <= i < j < s.len() ==> pin_key(s[i]) < pin_key(s[j])
}

/// `it` is the readable form of a pinned row.
pub open spec fn pinned_readable(key: Option<Seq<u8>>, rows: Seq<RowView>, it: ItemView) -> bool {
    exists|i: int|
        0 <= i < rows.len() && rows[i].is_pinned && #[trigger] opened(key, rows[i].sealed) == Some(it.content)
            && it == item_of(rows[i], it.content)
}

// ---------------------------------------------------------------------------
// Facts about the model.

/// Prepending a row to a well-formed sequence whose elements all come from
/// the row's old tail keeps the invariant.
pub proof fn lemma_wf_cons(x: RowView, rest: Seq<RowView>, t: Seq<RowView>)
    requires
        rows_wf(seq![x] + rest),
        rows_wf(t),
        forall|k: int| 0 <= k < t.len() ==> rest.contains(#[trigger] t[k]),
    ensures
        rows_wf(seq![x] + t),
{
    let s = seq![x] + rest;
    let u = seq![x] + t;
    assert forall|k: int| 0 <= k < t.len() implies {
        &&& t[k].timestamp <= x.timestamp
        &&& t[k].id != x.id
        &&& (x.is_pinned && t[k].is_pinned ==> t[k].pin_order != x.pin_order)
    } by {
        assert(rest.contains(t[k]));
        let j = choose|j: int| 0 <= j < rest.len() && rest[j] == t[k];
        assert(s[j + 1] == t[k]);
        assert(s[0] == x);
    }
    assert forall|i: int, j: int| 0 <= i < j < u.len() implies u[i].timestamp >= u[j].timestamp by {
        if i > 0 {
            assert(u[i] == t[i - 1] && u[j] == t[j - 1]);
        } else {
            assert(u[j] == t[j - 1]);
        }
    }
    assert forall|i: int, j: int|
        0 <= i < u.len() && 0 <= j < u.len() && i != j implies u[i].id != u[j].id by {
        if i > 0 && j > 0 {
            assert(u[i] == t[i - 1] && u[j] == t[j - 1]);
        } else if i == 0 {
            assert(u[j] == t[j - 1]);
        } else {
            assert(u[i] == t[i - 1]);
        }
    }
    assert forall|i: int| 0 <= i < u.len() implies (u[i].pin_order is Some <==> u[i].is_pinned) by {
        if i > 0 {
            assert(u[i] == t[i - 1]);
        } else {
            assert(s[0] == x);
        }
    }
    assert forall|i: int, j: int|
        0 <= i < u.len() && 0 <= j < u.len() && i != j && u[i].is_pinned
            && u[j].is_pinned implies u[i].pin_order != u[j].pin_order by {
        if i > 0 && j > 0 {
            assert(u[i] == t[i - 1] && u[j] == t[j - 1]);
        } else if i == 0 {
            assert(u[j] == t[j - 1]);
        } else {
            assert(u[i] == t[i - 1]);
        }
    }
}

/// The tail of a well-formed sequence is well formed.
pub proof fn lemma_wf_drop_first(rows: Seq<RowView>)
    requires
        rows_wf(rows),
        rows.len() > 0,
    ensures
        rows_wf(rows.drop_first()),
        rows =~= seq![rows[0]] + rows.drop_first(),
{
    let t = rows.drop_first();
    assert forall|i: int, j: int| 0 <= i < j < t.len() implies t[i].timestamp >= t[j].timestamp by {
        assert(t[i] == rows[i + 1] && t[j] == rows[j + 1]);
    }
    assert forall|i: int, j: int|
        0 <= i < t.len() && 0 <= j < t.len() && i != j implies t[i].id != t[j].id by {
        assert(t[i] == rows[i + 1] && t[j] == rows[j + 1]);
    }
    assert forall|i: int| 0 <= i < t.len() implies (t[i].pin_order is Some <==> t[i].is_pinned) by {
        assert(t[i] == rows[i + 1]);
    }
    assert forall|i: int, j: int|
        0 <= i < t.len() && 0 <= j < t.len() && i != j && t[i].is_pinned
            && t[j].is_pinned implies t[i].pin_order != t[j].pin_order by {
        assert(t[i] == rows[i + 1] && t[j] == rows[j + 1]);
    }
}

/// Retention keeps only rows of its input, and keeps the invariant.
pub proof fn lemma_retain_wf(rows: Seq<RowView>, budget: nat)
    requires
        rows_wf(rows),
    ensures
        rows_wf(retain_recent(rows, budget)),
        forall|k: int|
            0 <= k < retain_recent(rows, budget).len() ==> rows.contains(
                #[trigger] retain_recent(rows, budget)[k],
            ),
    decreases rows.len(),
{
    if rows.len() > 0 {
        lemma_wf_drop_first(rows);
        let rest = rows.drop_first();
        let b2: nat = if rows[0].is_pinned || budget == 0 { budget } else { (budget - 1) as nat };
        lemma_retain_wf(rest, b2);
        let t = retain_recent(rest, b2);
        assert forall|k: int| 0 <= k < t.len() implies rows.contains(#[trigger] t[k]) by {
            let j = choose|j: int| 0 <= j < rest.len() && rest[j] == t[k];
            assert(rows[j + 1] == t[k]);
        }
        if rows[0].is_pinned || budget > 0 {
            lemma_wf_cons(rows[0], rest, t);
            let u = seq![rows[0]] + t;
            assert(retain_recent(rows, budget) == u);
            assert forall|k: int| 0 <= k < u.len() implies rows.contains(#[trigger] u[k]) by {
                if k == 0 {
                    assert(rows[0] == u[0]);
                } else {
                    assert(u[k] == t[k - 1]);
                }
            }
        }
    }
}

/// Keeping only pinned rows keeps the invariant.
pub proof fn lemma_pinned_only_wf(rows: Seq<RowView>)
    requires
        rows_wf(rows),
    ensures
        rows_wf(pinned_only(rows)),
        forall|k: int|
            0 <= k < pinned_only(rows).len() ==> rows.contains(#[trigger] pinned_only(rows)[k]),
    decreases rows.len(),
{
    if rows.len() > 0 {
        lemma_wf_drop_first(rows);
        let rest = rows.drop_first();
        lemma_pinned_only_wf(rest);
        let t = pinned_only(rest);
        assert forall|k: int| 0 <= k < t.len() implies rows.contains(#[trigger] t[k]) by {
            let j = choose|j: int| 0 <= j < rest.len() && rest[j] == t[k];
            assert(rows[j + 1] == t[k]);
        }
        if rows[0].is_pinned {
            lemma_wf_cons(rows[0], rest, t);
            let u = seq![rows[0]] + t;
            assert forall|k: int| 0 <= k < u.len() implies rows.contains(#[trigger] u[k]) by {
                if k == 0 {
                    assert(rows[0] == u[0]);
                } else {
                    assert(u[k] == t[k - 1]);
                }
            }
        }
    }
}

/// The insertion position splits the rows into those strictly more recent
/// and the rest.
pub proof fn lemma_insert_pos(rows: Seq<RowView>, ts: i64)
    requires
        sorted_by_recency(rows),
    ensures
        insert_pos(rows, ts) <= rows.len(),
        forall|k: int| 0 <= k < insert_pos(rows, ts) ==> rows[k].timestamp > ts,
        forall|k: int| insert_pos(rows, ts) <= k < rows.len() ==> rows[k].timestamp <= ts,
    decreases rows.len(),
{
    if rows.len() > 0 {
        let rest = rows.drop_first();
        assert(sorted_by_recency(rest)) by {
            assert forall|i: int, j: int| 0 <= i < j < rest.len() implies rest[i].timestamp
                >= rest[j].timestamp by {
                assert(rest[i] == rows[i + 1] && rest[j] == rows[j + 1]);
            }
        }
        lemma_insert_pos(rest, ts);
        if rows[0].timestamp > ts {
            assert forall|k: int| 0 <= k < insert_pos(rows, ts) implies rows[k].timestamp > ts by {
                if k > 0 {
                    assert(rows[k] == rest[k - 1]);
                }
            }
            assert forall|k: int| insert_pos(rows, ts) <= k < rows.len() implies rows[k].timestamp
                <= ts by {
                assert(rows[k] == rest[k - 1]);
            }
        } else {
            assert forall|k: int| insert_pos(rows, ts) <= k < rows.len() implies rows[k].timestamp
                <= ts by {
                assert(rows[0].timestamp >= rows[k].timestamp);
            }
        }
    }
}

/// Placing a row whose id is new, with a consistent pin state and an unused
/// pin order, keeps the invariant.
pub proof fn lemma_insert_sorted_wf(rows: Seq<RowView>, r: RowView)
    requires
        rows_wf(rows),
        !id_taken(rows, r.id),
        r.pin_order is Some <==> r.is_pinned,
        r.is_pinned ==> forall|k: int| 0 <= k < rows.len() && rows[k].is_pinned ==> rows[k].pin_order != r.pin_order,
    ensures
        rows_wf(insert_sorted(rows, r)),
        insert_sorted(rows, r).len() == rows.len() + 1,
{
    lemma_insert_pos(rows, r.timestamp);
    let p = insert_pos(rows, r.timestamp) as int;
    let u = insert_sorted(rows, r);
    assert(u.len() == rows.len() + 1);
    assert forall|k: int| 0 <= k < u.len() implies #[trigger] u[k] == (if k < p { rows[k] } else if k == p { r } else { rows[k - 1] }) by {}
    assert forall|i: int, j: int| 0 <= i < j < u.len() implies u[i].timestamp >= u[j].timestamp by {
        if i < p && j < p {
        } else if i < p && j == p {
        } else if i < p {
            assert(rows[i].timestamp >= rows[j - 1].timestamp);
        } else if i == p {
        } else {
        }
    }
    assert forall|i: int, j: int|
        0 <= i < u.len() && 0 <= j < u.len() && i != j implies u[i].id != u[j].id by {
        if i == p {
            if j < p {
                assert(rows[j].id != r.id);
            } else {
                assert(rows[j - 1].id != r.id);
            }
        } else if j == p {
            if i < p {
                assert(rows[i].id != r.id);
            } else {
                assert(rows[i - 1].id != r.id);
            }
        }
    }
}

/// Bounds of the largest pin order: every pinned order is at most it, and it
/// is the order of some pinned row.
pub proof fn lemma_max_pin(rows: Seq<RowView>)
    ensures
        forall|k: int|
            0 <= k < rows.len() && rows[k].is_pinned && rows[k].pin_order is Some ==> max_pin(rows) is Some
                && rows[k].pin_order->0 <= max_pin(rows)->0,
        max_pin(rows) is Some ==> exists|k: int|
            0 <= k < rows.len() && rows[k].is_pinned && rows[k].pin_order == max_pin(rows),
    decreases rows.len(),
{
    if rows.len() > 0 {
        let rest = rows.drop_first();
        lemma_max_pin(rest);
        assert forall|k: int|
            0 <= k < rows.len() && rows[k].is_pinned && rows[k].pin_order is Some implies max_pin(rows) is Some
                && rows[k].pin_order->0 <= max_pin(rows)->0 by {
            if k > 0 {
                assert(rows[k] == rest[k - 1]);
            }
        }
        if max_pin(rows) is Some {
            if own_pin(rows[0]) is Some && (max_pin(rest) is None || own_pin(rows[0])->0 >= max_pin(rest)->0) {
                assert(rows[0].pin_order == max_pin(rows));
            } else {
                let k = choose|k: int| 0 <= k < rest.len() && rest[k].is_pinned && rest[k].pin_order == max_pin(rest);
                assert(rows[k + 1] == rest[k]);
            }
        }
    }
}

/// Giving the row `id` a pin state that is consistent and whose order no
/// other pinned row holds keeps the invariant.
pub proof fn lemma_with_pin_wf(rows: Seq<RowView>, id: Seq<char>, pinned: bool, order: Option<i32>)
    requires
        rows_wf(rows),
        order is Some <==> pinned,
        pinned ==> forall|k: int|
            0 <= k < rows.len() && rows[k].is_pinned && rows[k].id != id ==> rows[k].pin_order != order,
    ensures
        rows_wf(with_pin(rows, id, pinned, order)),
{
}

/// Removing a row keeps the invariant; the removed id and pin order are then
/// free.
pub proof fn lemma_remove_wf(rows: Seq<RowView>, i: int)
    requires
        rows_wf(rows),
        0 <= i < rows.len(),
    ensures
        rows_wf(rows.remove(i)),
        !id_taken(rows.remove(i), rows[i].id),
        rows[i].is_pinned ==> forall|k: int|
            0 <= k < rows.remove(i).len() && rows.remove(i)[k].is_pinned ==> rows.remove(i)[k].pin_order
                != rows[i].pin_order,
{
    let u = rows.remove(i);
    assert forall|k: int| 0 <= k < u.len() implies #[trigger] u[k] == (if k < i { rows[k] } else { rows[k + 1] }) by {}
    assert forall|a: int, b: int| 0 <= a < b < u.len() implies u[a].timestamp >= u[b].timestamp by {
        let a2 = if a < i { a } else { a + 1 };
        let b2 = if b < i { b } else { b + 1 };
        assert(rows[a2].timestamp >= rows[b2].timestamp);
    }
    assert forall|a: int, b: int| 0 <= a < u.len() && 0 <= b < u.len() && a != b implies u[a].id != u[b].id by {
        let a2 = if a < i { a } else { a + 1 };
        let b2 = if b < i { b } else { b + 1 };
        assert(rows[a2].id != rows[b2].id);
    }
    assert forall|a: int, b: int|
        0 <= a < u.len() && 0 <= b < u.len() && a != b && u[a].is_pinned && u[b].is_pinned implies u[a].pin_order
            != u[b].pin_order by {
        let a2 = if a < i { a } else { a + 1 };
        let b2 = if b < i { b } else { b + 1 };
        assert(rows[a2].pin_order != rows[b2].pin_order);
    }
    assert forall|k: int| 0 <= k < u.len() implies u[k].id != rows[i].id by {
        let k2 = if k < i { k } else { k + 1 };
        assert(rows[k2].id != rows[i].id);
    }
}

/// How many rows have digest `h` and type `t`.
pub open spec fn count_matching(rows: Seq<RowView>, h: Seq<char>, t: ContentType) -> nat
    decreases rows.len(),
{
    if rows.len() == 0 {
        0
    } else {
        (if rows[0].content_hash == h && rows[0].content_type == t { 1nat } else { 0nat })
            + count_matching(rows.drop_first(), h, t)
    }
}

/// No row matches exactly when the count is zero.
pub proof fn lemma_count_zero(rows: Seq<RowView>, h: Seq<char>, t: ContentType)
    ensures
        count_matching(rows, h, t) == 0 <==> forall|k: int|
            0 <= k < rows.len() ==> !(rows[k].content_hash == h && rows[k].content_type == t),
    decreases rows.len(),
{
    if rows.len() > 0 {
        let rest = rows.drop_first();
        lemma_count_zero(rest, h, t);
        if count_matching(rows, h, t) == 0 {
            assert forall|k: int| 0 <= k < rows.len() implies !(rows[k].content_hash == h
                && rows[k].content_type == t) by {
                if k > 0 {
                    assert(rows[k] == rest[k - 1]);
                }
            }
        }
        if forall|k: int| 0 <= k < rows.len() ==> !(rows[k].content_hash == h && rows[k].content_type == t) {
            assert forall|k: int| 0 <= k < rest.len() implies !(rest[k].content_hash == h
                && rest[k].content_type == t) by {
                assert(rest[k] == rows[k + 1]);
            }
        }
    }
}

/// Storing content as the newest entry and then storing the same content
/// with the same type again: the second store finds the first within the
/// de-duplication window, so exactly one row holds that content.
pub proof fn lemma_insert_twice_one_row(rows: Seq<RowView>, first: RowView, second: RowView, capacity: nat)
    requires
        rows_wf(rows),
        capacity >= 1,
        !first.is_pinned,
        first.content_hash == second.content_hash,
        first.content_type == second.content_type,
        count_matching(rows, first.content_hash, first.content_type) == 0,
        forall|k: int| 0 <= k < rows.len() ==> rows[k].timestamp <= first.timestamp,
    ensures
        duplicate_in_window(
            after_insert(rows, first, capacity),
            second.content_hash,
            second.content_type,
            DEDUP_WINDOW as nat,
        ),
        count_matching(after_insert(rows, first, capacity), first.content_hash, first.content_type) == 1,
{
    let h = first.content_hash;
    let t = first.content_type;
    assert(insert_pos(rows, first.timestamp) == 0);
    let placed = insert_sorted(rows, first);
    assert(placed =~= seq![first] + rows);
    assert(placed.drop_first() =~= rows);
    let kept = retain_recent(rows, (capacity - 1) as nat);
    assert(after_insert(rows, first, capacity) == seq![first] + kept);
    assert((seq![first] + kept).drop_first() =~= kept);
    lemma_retain_wf(rows, (capacity - 1) as nat);
    lemma_count_zero(rows, h, t);
    assert forall|k: int| 0 <= k < kept.len() implies !(kept[k].content_hash == h && kept[k].content_type
        == t) by {
        assert(rows.contains(kept[k]));
    }
    lemma_count_zero(kept, h, t);
}

/// The largest pin order is `m` when a pinned row holds `m` and none holds more.
pub proof fn lemma_max_pin_is(rows: Seq<RowView>, m: i32, w: int)
    requires
        0 <= w < rows.len(),
        rows[w].is_pinned,
        rows[w].pin_order == Some(m),
        forall|k: int|
            0 <= k < rows.len() && rows[k].is_pinned && rows[k].pin_order is Some ==> rows[k].pin_order->0 <= m,
    ensures
        max_pin(rows) == Some(m),
{
    lemma_max_pin(rows);
}

/// With nothing pinned there is no largest pin order.
pub proof fn lemma_max_pin_none(rows: Seq<RowView>)
    requires
        forall|k: int| 0 <= k < rows.len() ==> !rows[k].is_pinned,
    ensures
        max_pin(rows) is None,
{
    lemma_max_pin(rows);
}

/// A list in strictly ascending pin order that holds exactly `x`, `y` and `z`,
/// whose keys ascend in that order, is `[x, y, z]`.
pub proof fn lemma_listed_three(s: Seq<ItemView>, x: ItemView, y: ItemView, z: ItemView)
    requires
        ascending_pin_order(s),
        pin_key(x) < pin_key(y) < pin_key(z),
        forall|it: ItemView| s.contains(it) <==> (it == x || it == y || it == z),
    ensures
        s == seq![x, y, z],
{
    assert(s.contains(x));
    assert(s.contains(y));
    assert(s.contains(z));
    assert forall|m: int| 0 <= m < s.len() implies (s[m] == x || s[m] == y || s[m] == z) by {
        assert(s.contains(s[m]));
    }
    let i = choose|i: int| 0 <= i < s.len() && s[i] == x;
    let j = choose|j: int| 0 <= j < s.len() && s[j] == y;
    let k = choose|k: int| 0 <= k < s.len() && s[k] == z;
    if i > 0 {
        assert(s[0] == x || s[0] == y || s[0] == z);
        assert(pin_key(s[0]) < pin_key(s[i]));
    }
    assert(i == 0);
    if j > 1 {
        assert(s[1] == x || s[1] == y || s[1] == z);
        assert(pin_key(s[0]) < pin_key(s[1]) && pin_key(s[1]) < pin_key(s[j]));
    }
    if j < 1 {
        assert(j == 0);
    }
    assert(j == 1);
    if k > 2 {
        assert(s[2] == x || s[2] == y || s[2] == z);
        assert(pin_key(s[1]) < pin_key(s[2]) && pin_key(s[2]) < pin_key(s[k]));
    }
    if k < 2 {
        assert(k == 0 || k == 1);
    }
    assert(k == 2);
    if s.len() > 3 {
        assert(s[3] == x || s[3] == y || s[3] == z);
        assert(pin_key(s[2]) < pin_key(s[3]));
    }
    assert(s =~= seq![x, y, z]);
}

/// Pinning entries `a`, then `b`, then `c`, with nothing pinned before, lists
/// them as `[a, b, c]`; unpinning `b` and pinning it again lists `[a, c, b]`:
/// the new pin takes a fresh order after the others. `listed` and `relisted`
/// stand for any result the pinned listing may give in those two states.
pub proof fn lemma_pin_order(
    key: Option<Seq<u8>>,
    rows: Seq<RowView>,
    a: Seq<char>,
    b: Seq<char>,
    c: Seq<char>,
    listed: Seq<ItemView>,
    relisted: Seq<ItemView>,
)
    requires
        rows_wf(rows),
        forall|k: int| 0 <= k < rows.len() ==> !rows[k].is_pinned,
        id_taken(rows, a),
        id_taken(rows, b),
        id_taken(rows, c),
        a != b,
        b != c,
        a != c,
        opened(key, rows[index_of(rows, a)].sealed) is Some,
        opened(key, rows[index_of(rows, b)].sealed) is Some,
        opened(key, rows[index_of(rows, c)].sealed) is Some,
        ascending_pin_order(listed),
        forall|it: ItemView|
            listed.contains(it) <==> pinned_readable(key, pin_spec(pin_spec(pin_spec(rows, a), b), c), it),
        ascending_pin_order(relisted),
        forall|it: ItemView|
            relisted.contains(it) <==> pinned_readable(
                key,
                pin_spec(unpin_spec(pin_spec(pin_spec(pin_spec(rows, a), b), c), b), b),
                it,
            ),
    ensures
        listed.map_values(|it: ItemView| it.id) == seq![a, b, c],
        relisted.map_values(|it: ItemView| it.id) == seq![a, c, b],
{
    let ia = index_of(rows, a);
    let ib = index_of(rows, b);
    let ic = index_of(rows, c);
    let n = rows.len();
    lemma_max_pin_none(rows);
    let after_a = pin_spec(rows, a);
    assert(after_a == with_pin(rows, a, true, Some(1i32)));
    assert forall|k: int| 0 <= k < n implies #[trigger] after_a[k] == (if k == ia {
        RowView { is_pinned: true, pin_order: Some(1i32), ..rows[k] }
    } else {
        rows[k]
    }) by {}
    lemma_max_pin_is(after_a, 1, ia);
    let after_b = pin_spec(after_a, b);
    assert(after_b == with_pin(after_a, b, true, Some(2i32)));
    assert forall|k: int| 0 <= k < n implies #[trigger] after_b[k] == (if k == ia {
        RowView { is_pinned: true, pin_order: Some(1i32), ..rows[k] }
    } else if k == ib {
        RowView { is_pinned: true, pin_order: Some(2i32), ..rows[k] }
    } else {
        rows[k]
    }) by {
        assert(after_a[k].id == rows[k].id);
    }
    lemma_max_pin_is(after_b, 2, ib);
    let after_c = pin_spec(after_b, c);
    assert(after_c == with_pin(after_b, c, true, Some(3i32)));
    assert forall|k: int| 0 <= k < n implies #[trigger] after_c[k] == (if k == ia {
        RowView { is_pinned: true, pin_order: Some(1i32), ..rows[k] }
    } else if k == ib {
        RowView { is_pinned: true, pin_order: Some(2i32), ..rows[k] }
    } else if k == ic {
        RowView { is_pinned: true, pin_order: Some(3i32), ..rows[k] }
    } else {
        rows[k]
    }) by {
        assert(after_b[k].id == rows[k].id);
    }
    let unpinned_b = unpin_spec(after_c, b);
    assert forall|k: int| 0 <= k < n implies #[trigger] unpinned_b[k] == (if k == ia {
        RowView { is_pinned: true, pin_order: Some(1i32), ..rows[k] }
    } else if k == ib {
        RowView { is_pinned: false, pin_order: None, ..rows[k] }
    } else if k == ic {
        RowView { is_pinned: true, pin_order: Some(3i32), ..rows[k] }
    } else {
        rows[k]
    }) by {
        assert(after_c[k].id == rows[k].id);
    }
    lemma_max_pin_is(unpinned_b, 3, ic);
    let repinned = pin_spec(unpinned_b, b);
    assert(repinned == with_pin(unpinned_b, b, true, Some(4i32)));
    assert forall|k: int| 0 <= k < n implies #[trigger] repinned[k] == (if k == ia {
        RowView { is_pinned: true, pin_order: Some(1i32), ..rows[k] }
    } else if k == ib {
        RowView { is_pinned: true, pin_order: Some(4i32), ..rows[k] }
    } else if k == ic {
        RowView { is_pinned: true, pin_order: Some(3i32), ..rows[k] }
    } else {
        rows[k]
    }) by {
        assert(unpinned_b[k].id == rows[k].id);
    }
    let ca = opened(key, rows[ia].sealed)->0;
    let cb = opened(key, rows[ib].sealed)->0;
    let cc = opened(key, rows[ic].sealed)->0;
    let xa = item_of(after_c[ia], ca);
    let xb = item_of(after_c[ib], cb);
    let xc = item_of(after_c[ic], cc);
    assert forall|it: ItemView| listed.contains(it) <==> (it == xa || it == xb || it == xc) by {
        if pinned_readable(key, after_c, it) {
            let i = choose|i: int|
                0 <= i < after_c.len() && after_c[i].is_pinned && #[trigger] opened(key, after_c[i].sealed) == Some(it.content)
                    && it == item_of(after_c[i], it.content);
            assert(i == ia || i == ib || i == ic);
        }
        if it == xa {
            assert(opened(key, after_c[ia].sealed) == Some(it.content));
        }
        if it == xb {
            assert(opened(key, after_c[ib].sealed) == Some(it.content));
        }
        if it == xc {
            assert(opened(key, after_c[ic].sealed) == Some(it.content));
        }
    }
    lemma_listed_three(listed, xa, xb, xc);
    assert(listed.map_values(|it: ItemView| it.id) =~= seq![a, b, c]);
    let ya = item_of(repinned[ia], ca);
    let yb = item_of(repinned[ib], cb);
    let yc = item_of(repinned[ic], cc);
    assert forall|it: ItemView| relisted.contains(it) <==> (it == ya || it == yc || it == yb) by {
        if pinned_readable(key, repinned, it) {
            let i = choose|i: int|
                0 <= i < repinned.len() && repinned[i].is_pinned && #[trigger] opened(key, repinned[i].sealed) == Some(it.content)
                    && it == item_of(repinned[i], it.content);
            assert(i == ia || i == ib || i == ic);
        }
        if it == ya {
            assert(opened(key, repinned[ia].sealed) == Some(it.content));
        }
        if it == yb {
            assert(opened(key, repinned[ib].sealed) == Some(it.content));
        }
        if it == yc {
            assert(opened(key, repinned[ic].sealed) == Some(it.content));
        }
    }
    lemma_listed_three(relisted, ya, yc, yb);
    assert(relisted.map_values(|it: ItemView| it.id) =~= seq![a, c, b]);
}

} // verus!
