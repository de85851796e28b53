use crate::bytes::copy_range;
use crate::crypto::{Crypto, CryptoError};
use crate::digest::{content_hash, content_hash_of};
use crate::entry::{id_views, item_of, item_views, ClipItem, ContentType, ItemView, RowView, StoredClip};
use crate::history::{
    after_insert, ascending_pin_order, duplicate_in_window, evicted_ids, id_taken, index_of,
    insert_pos, insert_sorted, lemma_insert_pos, lemma_insert_sorted_wf, lemma_max_pin, lemma_remove_wf, lemma_with_pin_wf, lemma_pinned_only_wf,
    lemma_retain_wf, max_opt, max_pin, next_pin_order, opened, pin_key, pin_spec,
    pinned_only, pinned_readable, readable, retain_recent, retimed, rows_wf, search_scan,
    text_matches, unpin_spec, views, with_pin, without_id, DEDUP_WINDOW,
    SEARCH_LIMIT, SEARCH_WINDOW,
};
use crate::retention::store_step;
use crate::text::{contains_chars, decode_utf8_strict, lowercase_chars, str_equal};
use vstd::prelude::*;

verus! {

/// Why a store operation failed.
#[derive(Debug, Clone, Copy, PartialEq, Eq)]
pub enum StoreError {
    /// Another entry already has this id.
    DuplicateId,
    /// The payload could not be sealed; nothing was stored.
    Encryption(CryptoError),
    /// Every pin order up to the largest representable one is in use.
    PinOrderExhausted,
    /// The pin state is inconsistent, or its pin order is held by another entry.
    InvalidRow,
}

/// What `insert` did.
#[derive(Debug)]
pub enum InsertOutcome {
    /// The content is already among the recent entries of its type; nothing changed.
    Duplicate,
    /// A new row was stored; `evicted` lists the ids that retention removed.
    Inserted { row: StoredClip, evicted: Vec<String> },
}

/// The key a box seals under, if any.
pub open spec fn key_of(crypto: Option<Crypto>) -> Option<Seq<u8>> {
    match crypto {
        Some(c) => Some(c.key_spec()),
        None => None,
    }
}

/// A pin state that may join `rows`: consistent, and with an unused order.
pub open spec fn pin_acceptable(rows: Seq<RowView>, pinned: bool, order: Option<i32>) -> bool {
    &&& (order is Some <==> pinned)
    &&& pinned ==> forall|k: int|
        0 <= k < rows.len() && rows[k].is_pinned ==> rows[k].pin_order != order
}

/// The row stored for `it`, with digest `h` and sealed payload `sealed`.
pub open spec fn stored_row(it: ItemView, h: Seq<char>, sealed: Seq<u8>) -> RowView {
    RowView {
        id: it.id,
        sealed: sealed,
        content_hash: h,
        content_type: it.content_type,
        timestamp: it.timestamp,
        is_pinned: it.is_pinned,
        pin_order: it.pin_order,
    }
}

/// The clipboard history: rows ordered most recent first, payloads sealed
/// when a key is present, with de-duplication, retention and pin ordering.
pub struct ClipStorage {
    rows: Vec<StoredClip>,
    crypto: Option<Crypto>,
    capacity: usize,
}

impl View for ClipStorage {
    type V = Seq<RowView>;

    closed spec fn view(&self) -> Seq<RowView> {
        views(self.rows@)
    }
}

impl ClipStorage {
    /// The key payloads are sealed under.
    pub closed spec fn key(&self) -> Option<Seq<u8>> {
        key_of(self.crypto)
    }

    /// How many unpinned rows retention keeps.
    pub closed spec fn capacity_spec(&self) -> nat {
        self.capacity as nat
    }

    /// The store's invariant.
    pub open spec fn wf(&self) -> bool {
        rows_wf(self@)
    }

    /// An empty history that seals with `crypto` (or stores payloads as they
    /// are without it) and keeps `capacity` unpinned entries.
    pub fn new(crypto: Option<Crypto>, capacity: usize) -> (r: ClipStorage)
        ensures
            r.wf(),
            r@ == Seq::<RowView>::empty(),
            r.key() == key_of(crypto),
            r.capacity_spec() == capacity,
    {
        let r = ClipStorage { rows: Vec::new(), crypto, capacity };
        assert(r@ =~= Seq::<RowView>::empty());
        r
    }

    /// Number of stored rows.
    pub fn len(&self) -> (n: usize)
        ensures
            n == self@.len(),
    {
        self.rows.len()
    }

    fn open_payload(&self, sealed: &Vec<u8>) -> (r: Option<Vec<u8>>)
        ensures
            match r {
                Some(p) => opened(self.key(), sealed@) == Some(p@),
                None => opened(self.key(), sealed@) is None,
            },
    {
        match &self.crypto {
            Some(c) => match c.decrypt(sealed.as_slice()) {
                Ok(p) => Some(p),
                Err(_) => None,
            },
            None => {
                let p = copy_range(sealed, 0, sealed.len());
                assert(sealed@.subrange(0, sealed@.len() as int) =~= sealed@);
                Some(p)
            },
        }
    }

    fn find_id(&self, id: &str) -> (r: Option<usize>)
        ensures
            match r {
                Some(i) => i < self@.len() && self@[i as int].id == id@,
                None => !id_taken(self@, id@),
            },
    {
        let mut i: usize = 0;
        while i < self.rows.len()
            invariant
                i <= self@.len(),
                forall|k: int| 0 <= k < i ==> self@[k].id != id@,
            decreases self@.len() - i,
        {
            if str_equal(self.rows[i].id.as_str(), id) {
                return Some(i);
            }
            i = i + 1;
        }
        None
    }

    fn pin_order_free(&self, order: i32) -> (r: bool)
        ensures
            r == forall|k: int|
                0 <= k < self@.len() && self@[k].is_pinned ==> self@[k].pin_order != Some(order),
    {
        let mut i: usize = 0;
        while i < self.rows.len()
            invariant
                i <= self@.len(),
                forall|k: int|
                    0 <= k < i && self@[k].is_pinned ==> self@[k].pin_order != Some(order),
            decreases self@.len() - i,
        {
            if self.rows[i].is_pinned {
                match self.rows[i].pin_order {
                    Some(o) => {
                        if o == order {
                            assert(self@[i as int].pin_order == Some(order));
                            return false;
                        }
                    },
                    None => {},
                }
            }
            i = i + 1;
        }
        true
    }

    fn acceptable(&self, pinned: bool, order: Option<i32>) -> (r: bool)
        ensures
            r == pin_acceptable(self@, pinned, order),
    {
        match order {
            Some(o) => pinned && self.pin_order_free(o),
            None => !pinned,
        }
    }

    fn duplicate_recent(&self, h: &String, t: ContentType) -> (r: bool)
        ensures
            r == duplicate_in_window(self@, h@, t, DEDUP_WINDOW as nat),
    {
        let ghost all = self@;
        let mut i: usize = 0;
        let mut w: usize = DEDUP_WINDOW;
        assert(all.skip(0) =~= all);
        while i < self.rows.len()
            invariant
                all == self@,
                i <= all.len(),
                duplicate_in_window(all, h@, t, DEDUP_WINDOW as nat) == duplicate_in_window(
                    all.skip(i as int),
                    h@,
                    t,
                    w as nat,
                ),
            decreases all.len() - i,
        {
            assert(all.skip(i as int).drop_first() =~= all.skip(i + 1));
            if w == 0 {
                return false;
            }
            if self.rows[i].content_type == t {
                if self.rows[i].content_hash == *h {
                    return true;
                }
                w = w - 1;
            }
            i = i + 1;
        }
        false
    }

    fn position_for(&self, ts: i64) -> (p: usize)
        ensures
            p == insert_pos(self@, ts),
    {
        let ghost all = self@;
        let mut i: usize = 0;
        assert(all.skip(0) =~= all);
        while i < self.rows.len()
            invariant
                all == self@,
                i <= all.len(),
                insert_pos(all, ts) == i + insert_pos(all.skip(i as int), ts),
            decreases all.len() - i,
        {
            assert(all.skip(i as int).drop_first() =~= all.skip(i + 1));
            if self.rows[i].timestamp <= ts {
                return i;
            }
            i = i + 1;
        }
        i
    }

    fn apply_retention(&mut self) -> (evicted: Vec<String>)
        ensures
            final(self)@ == retain_recent(old(self)@, old(self).capacity as nat),
            id_views(evicted@) == evicted_ids(old(self)@, old(self).capacity as nat),
            final(self).crypto == old(self).crypto,
            final(self).capacity == old(self).capacity,
    {
        let mut rest: Vec<StoredClip> = Vec::new();
        core::mem::swap(&mut rest, &mut self.rows);
        let ghost all = views(rest@);
        assert(views(self.rows@) =~= Seq::<RowView>::empty());
        let mut budget: usize = self.capacity;
        let mut evicted: Vec<String> = Vec::new();
        assert(id_views(evicted@) =~= Seq::<Seq<char>>::empty());
        while rest.len() > 0
            invariant
                all == old(self)@,
                retain_recent(all, self.capacity as nat) == views(self.rows@) + retain_recent(
                    views(rest@),
                    budget as nat,
                ),
                evicted_ids(all, self.capacity as nat) == id_views(evicted@) + evicted_ids(
                    views(rest@),
                    budget as nat,
                ),
                self.crypto == old(self).crypto,
                self.capacity == old(self).capacity,
            decreases rest.len(),
        {
            let ghost before = views(rest@);
            let ghost kept = views(self.rows@);
            let ghost gone = id_views(evicted@);
            let r = rest.remove(0);
            assert(before.drop_first() =~= views(rest@));
            assert(before[0] == r@);
            if r.is_pinned {
                self.rows.push(r);
                assert(views(self.rows@) =~= kept + seq![r@]);
                assert(views(self.rows@) + retain_recent(views(rest@), budget as nat) =~= kept + (
                seq![r@] + retain_recent(views(rest@), budget as nat)));
            } else if budget > 0 {
                self.rows.push(r);
                budget = budget - 1;
                assert(views(self.rows@) =~= kept + seq![r@]);
                assert(views(self.rows@) + retain_recent(views(rest@), budget as nat) =~= kept + (
                seq![r@] + retain_recent(views(rest@), budget as nat)));
            } else {
                evicted.push(r.id);
                assert(id_views(evicted@) =~= gone + seq![r@.id]);
                assert(id_views(evicted@) + evicted_ids(views(rest@), budget as nat) =~= gone + (
                seq![r@.id] + evicted_ids(views(rest@), budget as nat)));
            }
        }
        assert(views(self.rows@) + retain_recent(views(rest@), budget as nat) =~= views(self.rows@));
        assert(id_views(evicted@) + evicted_ids(views(rest@), budget as nat) =~= id_views(evicted@));
        evicted
    }

    /// Places `row` at its place by recency.
    fn place(&mut self, row: StoredClip)
        requires
            rows_wf(old(self)@),
            !id_taken(old(self)@, row@.id),
            pin_acceptable(old(self)@, row@.is_pinned, row@.pin_order),
        ensures
            final(self)@ == insert_sorted(old(self)@, row@),
            rows_wf(final(self)@),
            final(self).crypto == old(self).crypto,
            final(self).capacity == old(self).capacity,
    {
        let p = self.position_for(row.timestamp);
        proof {
            lemma_insert_pos(self@, row@.timestamp);
            lemma_insert_sorted_wf(self@, row@);
        }
        let ghost r = row@;
        self.rows.insert(p, row);
        assert(self@ =~= insert_sorted(old(self)@, r));
    }

    /// Stores `item` unless the same content of the same type is among the
    /// most recent entries of that type. A stored row is sealed under the key,
    /// placed by recency, and retention then drops the oldest unpinned rows
    /// beyond capacity. Without a key every non-duplicate with a new id and a
    /// valid pin state is stored.
    pub fn insert(&mut self, item: &ClipItem) -> (r: Result<InsertOutcome, StoreError>)
        requires
            old(self).wf(),
        ensures
            final(self).wf(),
            final(self).key() == old(self).key(),
            final(self).capacity_spec() == old(self).capacity_spec(),
            ({
                let rows = old(self)@;
                let h = content_hash_of(item.content@);
                let dup = duplicate_in_window(rows, h, item.content_type, DEDUP_WINDOW as nat);
                match r {
                    Ok(InsertOutcome::Duplicate) => dup && final(self)@ == rows,
                    Ok(InsertOutcome::Inserted { row, evicted }) => {
                        &&& !dup
                        &&& !id_taken(rows, item.id@)
                        &&& pin_acceptable(rows, item.is_pinned, item.pin_order)
                        &&& row@ == stored_row(item@, h, row@.sealed)
                        &&& opened(old(self).key(), row@.sealed) == Some(item.content@)
                        &&& final(self)@ == after_insert(rows, row@, old(self).capacity_spec())
                        &&& final(self)@ == store_step(rows, row@, old(self).capacity_spec())
                        &&& id_views(evicted@) == evicted_ids(
                            insert_sorted(rows, row@),
                            old(self).capacity_spec(),
                        )
                    },
                    Err(StoreError::DuplicateId) => !dup && id_taken(rows, item.id@) && final(self)@
                        == rows,
                    Err(StoreError::InvalidRow) => !dup && !id_taken(rows, item.id@)
                        && !pin_acceptable(rows, item.is_pinned, item.pin_order) && final(self)@
                        == rows,
                    Err(StoreError::Encryption(_)) => !dup && !id_taken(rows, item.id@)
                        && pin_acceptable(rows, item.is_pinned, item.pin_order) && old(self).key() is Some
                        && final(self)@ == rows,
                    Err(StoreError::PinOrderExhausted) => false,
                }
            }),
            old(self).key() is None && !duplicate_in_window(
                old(self)@,
                content_hash_of(item.content@),
                item.content_type,
                DEDUP_WINDOW as nat,
            ) && !id_taken(old(self)@, item.id@) && pin_acceptable(
                old(self)@,
                item.is_pinned,
                item.pin_order,
            ) ==> r is Ok,
    {
        let h = content_hash(&item.content);
        if self.duplicate_recent(&h, item.content_type) {
            return Ok(InsertOutcome::Duplicate);
        }
        if self.find_id(item.id.as_str()).is_some() {
            return Err(StoreError::DuplicateId);
        }
        if !self.acceptable(item.is_pinned, item.pin_order) {
            return Err(StoreError::InvalidRow);
        }
        let sealed = match &self.crypto {
            Some(c) => match c.encrypt(item.content.as_slice()) {
                Ok(s) => s,
                Err(e) => return Err(StoreError::Encryption(e)),
            },
            None => {
                let s = copy_range(&item.content, 0, item.content.len());
                assert(item.content@.subrange(0, item.content@.len() as int) =~= item.content@);
                s
            },
        };
        let row = StoredClip {
            id: item.id.clone(),
            content: sealed,
            content_hash: h,
            content_type: item.content_type,
            timestamp: item.timestamp,
            is_pinned: item.is_pinned,
            pin_order: item.pin_order,
        };
        let copy = row.duplicate();
        self.place(row);
        let ghost placed = self@;
        proof {
            lemma_retain_wf(placed, self.capacity as nat);
        }
        let evicted = self.apply_retention();
        Ok(InsertOutcome::Inserted { row: copy, evicted })
    }

    /// Adds a row read back from persistent storage, at its place by recency.
    /// Refused when its id is taken or its pin state is inconsistent or clashes.
    pub fn restore(&mut self, row: StoredClip) -> (r: Result<(), StoreError>)
        requires
            old(self).wf(),
        ensures
            final(self).wf(),
            final(self).key() == old(self).key(),
            final(self).capacity_spec() == old(self).capacity_spec(),
            match r {
                Ok(()) => !id_taken(old(self)@, row@.id) && pin_acceptable(
                    old(self)@,
                    row@.is_pinned,
                    row@.pin_order,
                ) && final(self)@ == insert_sorted(old(self)@, row@),
                Err(StoreError::DuplicateId) => id_taken(old(self)@, row@.id) && final(self)@ == old(
                    self,
                )@,
                Err(StoreError::InvalidRow) => !id_taken(old(self)@, row@.id) && !pin_acceptable(
                    old(self)@,
                    row@.is_pinned,
                    row@.pin_order,
                ) && final(self)@ == old(self)@,
                Err(_) => false,
            },
    {
        if self.find_id(row.id.as_str()).is_some() {
            return Err(StoreError::DuplicateId);
        }
        if !self.acceptable(row.is_pinned, row.pin_order) {
            return Err(StoreError::InvalidRow);
        }
        self.place(row);
        Ok(())
    }

    fn item_from_row(row: &StoredClip, content: Vec<u8>) -> (r: ClipItem)
        ensures
            r@ == item_of(row@, content@),
    {
        ClipItem {
            id: row.id.clone(),
            content,
            content_type: row.content_type,
            timestamp: row.timestamp,
            is_pinned: row.is_pinned,
            pin_order: row.pin_order,
        }
    }

    /// The `limit` most recent rows, pinned or not, most recent first; rows
    /// whose payload does not open are left out.
    pub fn get_recent(&self, limit: usize) -> (r: Vec<ClipItem>)
        ensures
            item_views(r@) == readable(self.key(), self@.take(if limit < self@.len() { limit as int } else { self@.len() as int })),
    {
        let n = if limit < self.rows.len() { limit } else { self.rows.len() };
        let ghost t = self@.take(n as int);
        let mut out: Vec<ClipItem> = Vec::new();
        let mut i: usize = 0;
        assert(t.skip(0) =~= t);
        assert(item_views(out@) =~= Seq::<ItemView>::empty());
        while i < n
            invariant
                n <= self@.len(),
                t == self@.take(n as int),
                i <= n,
                readable(self.key(), t) == item_views(out@) + readable(self.key(), t.skip(i as int)),
            decreases n - i,
        {
            let ghost before = item_views(out@);
            assert(t.skip(i as int).drop_first() =~= t.skip(i + 1));
            assert(t.skip(i as int)[0] == self@[i as int]);
            match self.open_payload(&self.rows[i].content) {
                Some(c) => {
                    let it = Self::item_from_row(&self.rows[i], c);
                    out.push(it);
                    assert(item_views(out@) =~= before + seq![it@]);
                    assert(item_views(out@) + readable(self.key(), t.skip(i + 1)) =~= before + (seq![it@]
                        + readable(self.key(), t.skip(i + 1))));
                },
                None => {},
            }
            i = i + 1;
        }
        assert(t.skip(n as int) =~= Seq::<RowView>::empty());
        assert(item_views(out@) + readable(self.key(), t.skip(n as int)) =~= item_views(out@));
        out
    }

    /// Case-insensitive substring search over the text entries: the most
    /// recent `SEARCH_WINDOW` text rows are scanned, newest first, and at most
    /// `SEARCH_LIMIT` readable matches are returned. Rows that do not open, or
    /// are not valid UTF-8, never match.
    pub fn search(&self, query: &str) -> (r: Vec<ClipItem>)
        ensures
            item_views(r@) == search_scan(
                self.key(),
                self@,
                crate::text::lower_of(query@),
                SEARCH_WINDOW as nat,
                SEARCH_LIMIT as nat,
            ),
    {
        let q = lowercase_chars(query);
        let ghost all = self@;
        let mut out: Vec<ClipItem> = Vec::new();
        let mut i: usize = 0;
        let mut window: usize = SEARCH_WINDOW;
        let mut budget: usize = SEARCH_LIMIT;
        assert(all.skip(0) =~= all);
        assert(item_views(out@) =~= Seq::<ItemView>::empty());
        while i < self.rows.len()
            invariant
                all == self@,
                q@ == crate::text::lower_of(query@),
                i <= all.len(),
                search_scan(self.key(), all, q@, SEARCH_WINDOW as nat, SEARCH_LIMIT as nat)
                    == item_views(out@) + search_scan(
                    self.key(),
                    all.skip(i as int),
                    q@,
                    window as nat,
                    budget as nat,
                ),
            decreases all.len() - i,
        {
            let ghost before = item_views(out@);
            let ghost rest = all.skip(i as int);
            assert(rest.drop_first() =~= all.skip(i + 1));
            assert(rest[0] == all[i as int]);
            if window == 0 || budget == 0 {
                assert(item_views(out@) + search_scan(self.key(), rest, q@, window as nat, budget as nat)
                    =~= item_views(out@));
                return out;
            }
            if self.rows[i].content_type == ContentType::Text {
                let mut hit = false;
                let mut found: Option<Vec<u8>> = None;
                match self.open_payload(&self.rows[i].content) {
                    Some(c) => {
                        match decode_utf8_strict(&c) {
                            Some(text) => {
                                let lower = lowercase_chars(text.as_str());
                                hit = contains_chars(&lower, &q);
                            },
                            None => {},
                        }
                        assert(hit == text_matches(c@, q@));
                        found = Some(c);
                    },
                    None => {},
                }
                window = window - 1;
                if hit {
                    match found {
                        Some(c) => {
                            let it = Self::item_from_row(&self.rows[i], c);
                            out.push(it);
                            budget = budget - 1;
                            assert(item_views(out@) =~= before + seq![it@]);
                            assert(item_views(out@) + search_scan(
                                self.key(),
                                all.skip(i + 1),
                                q@,
                                window as nat,
                                budget as nat,
                            ) =~= before + (seq![it@] + search_scan(
                                self.key(),
                                all.skip(i + 1),
                                q@,
                                window as nat,
                                budget as nat,
                            )));
                        },
                        None => {},
                    }
                }
            }
            i = i + 1;
        }
        assert(all.skip(i as int) =~= Seq::<RowView>::empty());
        assert(item_views(out@) + search_scan(self.key(), all.skip(i as int), q@, window as nat, budget as nat)
            =~= item_views(out@));
        out
    }

    fn max_pin_order(&self) -> (m: Option<i32>)
        ensures
            m == max_pin(self@),
    {
        let ghost all = self@;
        let mut acc: Option<i32> = None;
        let mut i: usize = 0;
        assert(all.skip(0) =~= all);
        while i < self.rows.len()
            invariant
                all == self@,
                i <= all.len(),
                max_pin(all) == max_opt(acc, max_pin(all.skip(i as int))),
            decreases all.len() - i,
        {
            assert(all.skip(i as int).drop_first() =~= all.skip(i + 1));
            assert(all.skip(i as int)[0] == all[i as int]);
            let own: Option<i32> = if self.rows[i].is_pinned {
                self.rows[i].pin_order
            } else {
                None
            };
            let ghost rest = max_pin(all.skip(i + 1));
            assert(max_opt(acc, max_opt(own, rest)) == max_opt(max_opt(acc, own), rest));
            acc = match (acc, own) {
                (None, _) => own,
                (_, None) => acc,
                (Some(x), Some(y)) => Some(if x >= y { x } else { y }),
            };
            i = i + 1;
        }
        assert(all.skip(i as int) =~= Seq::<RowView>::empty());
        acc
    }

    /// Pins or unpins the entry `id`. A pin takes the next order, one past the
    /// largest order among pinned entries (1 when none is pinned), so the
    /// pinned list keeps the order in which entries were pinned; an unpin
    /// clears the order. Returns the order the entry now holds. An unknown id
    /// changes nothing.
    pub fn update_pin(&mut self, id: &str, is_pinned: bool) -> (r: Result<Option<i32>, StoreError>)
        requires
            old(self).wf(),
        ensures
            final(self).wf(),
            final(self).key() == old(self).key(),
            final(self).capacity_spec() == old(self).capacity_spec(),
            is_pinned && max_pin(old(self)@) == Some(i32::MAX) ==> r == Err::<Option<i32>, StoreError>(
                StoreError::PinOrderExhausted,
            ) && final(self)@ == old(self)@,
            is_pinned && max_pin(old(self)@) != Some(i32::MAX) ==> r == Ok::<Option<i32>, StoreError>(
                Some(next_pin_order(old(self)@) as i32),
            ) && final(self)@ == pin_spec(old(self)@, id@),
            !is_pinned ==> r == Ok::<Option<i32>, StoreError>(None) && final(self)@ == unpin_spec(
                old(self)@,
                id@,
            ),
    {
        let order: Option<i32> = if is_pinned {
            match self.max_pin_order() {
                Some(x) => {
                    if x == i32::MAX {
                        return Err(StoreError::PinOrderExhausted);
                    }
                    Some(x + 1)
                },
                None => Some(1),
            }
        } else {
            None
        };
        proof {
            lemma_max_pin(self@);
            if is_pinned {
                assert(order == Some(next_pin_order(self@) as i32));
            }
            lemma_with_pin_wf(self@, id@, is_pinned, order);
        }
        match self.find_id(id) {
            None => {
                assert(with_pin(self@, id@, is_pinned, order) =~= self@);
            },
            Some(i) => {
                let ghost before = self@;
                let mut row = self.rows.remove(i);
                row.is_pinned = is_pinned;
                row.pin_order = order;
                self.rows.insert(i, row);
                assert(self@ =~= with_pin(before, id@, is_pinned, order));
            },
        }
        Ok(order)
    }

    /// Moves the entry `id` to `timestamp`, at its new place by recency; its
    /// content, digest and pin state are untouched. Returns whether it exists.
    pub fn update_timestamp(&mut self, id: &str, timestamp: i64) -> (found: bool)
        requires
            old(self).wf(),
        ensures
            final(self).wf(),
            final(self).key() == old(self).key(),
            final(self).capacity_spec() == old(self).capacity_spec(),
            found == id_taken(old(self)@, id@),
            final(self)@ == retimed(old(self)@, id@, timestamp),
    {
        match self.find_id(id) {
            None => false,
            Some(i) => {
                let ghost before = self@;
                proof {
                    lemma_remove_wf(before, i as int);
                    assert(index_of(before, id@) == i);
                }
                let mut row = self.rows.remove(i);
                assert(self@ =~= before.remove(i as int));
                row.timestamp = timestamp;
                self.place(row);
                true
            },
        }
    }

    /// Removes the entry `id`. Returns whether it existed.
    pub fn delete(&mut self, id: &str) -> (found: bool)
        requires
            old(self).wf(),
        ensures
            final(self).wf(),
            final(self).key() == old(self).key(),
            final(self).capacity_spec() == old(self).capacity_spec(),
            found == id_taken(old(self)@, id@),
            final(self)@ == without_id(old(self)@, id@),
    {
        match self.find_id(id) {
            None => false,
            Some(i) => {
                let ghost before = self@;
                proof {
                    lemma_remove_wf(before, i as int);
                    assert(index_of(before, id@) == i);
                }
                let _ = self.rows.remove(i);
                assert(self@ =~= before.remove(i as int));
                true
            },
        }
    }

    /// Removes every entry.
    pub fn clear_all(&mut self)
        ensures
            final(self).wf(),
            final(self).key() == old(self).key(),
            final(self).capacity_spec() == old(self).capacity_spec(),
            final(self)@ == Seq::<RowView>::empty(),
    {
        self.rows.clear();
        assert(self@ =~= Seq::<RowView>::empty());
    }

    /// Removes every unpinned entry; pinned entries and their orders stay.
    pub fn clear_non_pinned(&mut self)
        requires
            old(self).wf(),
        ensures
            final(self).wf(),
            final(self).key() == old(self).key(),
            final(self).capacity_spec() == old(self).capacity_spec(),
            final(self)@ == pinned_only(old(self)@),
    {
        proof {
            lemma_pinned_only_wf(self@);
        }
        let mut rest: Vec<StoredClip> = Vec::new();
        core::mem::swap(&mut rest, &mut self.rows);
        let ghost all = views(rest@);
        assert(views(self.rows@) =~= Seq::<RowView>::empty());
        while rest.len() > 0
            invariant
                all == old(self)@,
                pinned_only(all) == views(self.rows@) + pinned_only(views(rest@)),
                self.crypto == old(self).crypto,
                self.capacity == old(self).capacity,
            decreases rest.len(),
        {
            let ghost before = views(rest@);
            let ghost kept = views(self.rows@);
            let r = rest.remove(0);
            assert(before.drop_first() =~= views(rest@));
            assert(before[0] == r@);
            if r.is_pinned {
                self.rows.push(r);
                assert(views(self.rows@) =~= kept + seq![r@]);
                assert(views(self.rows@) + pinned_only(views(rest@)) =~= kept + (seq![r@] + pinned_only(
                    views(rest@),
                )));
            }
        }
        assert(views(self.rows@) + pinned_only(views(rest@)) =~= views(self.rows@));
    }

    /// The entry `id`, when it exists and its payload opens.
    pub fn get_by_id(&self, id: &str) -> (r: Option<ClipItem>)
        requires
            self.wf(),
        ensures
            match r {
                Some(it) => id_taken(self@, id@) && opened(
                    self.key(),
                    self@[index_of(self@, id@)].sealed,
                ) == Some(it@.content) && it@ == item_of(self@[index_of(self@, id@)], it@.content),
                None => !id_taken(self@, id@) || opened(
                    self.key(),
                    self@[index_of(self@, id@)].sealed,
                ) is None,
            },
    {
        match self.find_id(id) {
            None => None,
            Some(i) => {
                assert(index_of(self@, id@) == i);
                match self.open_payload(&self.rows[i].content) {
                    Some(c) => Some(Self::item_from_row(&self.rows[i], c)),
                    None => None,
                }
            },
        }
    }

    /// Every pinned entry whose payload opens, in ascending pin order.
    pub fn get_pinned(&self) -> (r: Vec<ClipItem>)
        requires
            self.wf(),
        ensures
            ascending_pin_order(item_views(r@)),
            forall|it: ItemView| item_views(r@).contains(it) <==> pinned_readable(self.key(), self@, it),
    {
        let ghost all = self@;
        let mut out: Vec<ClipItem> = Vec::new();
        let mut i: usize = 0;
        assert(item_views(out@) =~= Seq::<ItemView>::empty());
        while i < self.rows.len()
            invariant
                all == self@,
                rows_wf(all),
                i <= all.len(),
                ascending_pin_order(item_views(out@)),
                forall|it: ItemView|
                    item_views(out@).contains(it) <==> exists|j: int|
                        0 <= j < i && all[j].is_pinned && #[trigger] opened(self.key(), all[j].sealed)
                            == Some(it.content) && it == item_of(all[j], it.content),
            decreases all.len() - i,
        {
            if self.rows[i].is_pinned {
                match self.open_payload(&self.rows[i].content) {
                    Some(c) => {
                        let it = Self::item_from_row(&self.rows[i], c);
                        let key = pin_key_of(&it);
                        let ghost cur = item_views(out@);
                        assert forall|q: int| 0 <= q < cur.len() implies pin_key(cur[q]) != key by {
                            assert(cur.contains(cur[q]));
                            let j = choose|j: int|
                                0 <= j < i && all[j].is_pinned && #[trigger] opened(self.key(), all[j].sealed)
                                    == Some(cur[q].content) && cur[q] == item_of(all[j], cur[q].content);
                            assert(all[j].pin_order != all[i as int].pin_order);
                        }
                        let mut p: usize = 0;
                        while p < out.len()
                            invariant
                                cur == item_views(out@),
                                p <= cur.len(),
                                forall|q: int| 0 <= q < p ==> pin_key(cur[q]) < key,
                                forall|q: int| 0 <= q < cur.len() ==> pin_key(cur[q]) != key,
                            ensures
                                p <= cur.len(),
                                forall|q: int| 0 <= q < p ==> pin_key(cur[q]) < key,
                                p == cur.len() || pin_key(cur[p as int]) > key,
                            decreases cur.len() - p,
                        {
                            if pin_key_of(&out[p]) > key {
                                break;
                            }
                            assert(pin_key(cur[p as int]) != key);
                            p = p + 1;
                        }
                        let ghost itv = it@;
                        out.insert(p, it);
                        let ghost nxt = item_views(out@);
                        assert(nxt =~= cur.insert(p as int, itv));
                        assert forall|q: int| 0 <= q < nxt.len() implies #[trigger] nxt[q] == (if q < p {
                            cur[q]
                        } else if q == p {
                            itv
                        } else {
                            cur[q - 1]
                        }) by {}
                        assert forall|a: int, b: int| 0 <= a < b < nxt.len() implies pin_key(nxt[a]) < pin_key(
                            nxt[b],
                        ) by {
                            if b < p {
                            } else if b == p {
                            } else if a < p {
                                assert(pin_key(cur[a]) < key);
                                if b - 1 > p {
                                    assert(pin_key(cur[p as int]) < pin_key(cur[b - 1]));
                                }
                            } else if a == p {
                                if b - 1 > p {
                                    assert(pin_key(cur[p as int]) < pin_key(cur[b - 1]));
                                }
                            } else {
                            }
                        }
                        assert forall|x: ItemView| nxt.contains(x) <==> exists|j: int|
                            0 <= j < i + 1 && all[j].is_pinned && #[trigger] opened(self.key(), all[j].sealed)
                                == Some(x.content) && x == item_of(all[j], x.content) by {
                            if nxt.contains(x) {
                                let q = choose|q: int| 0 <= q < nxt.len() && nxt[q] == x;
                                if q == p {
                                    assert(opened(self.key(), all[i as int].sealed) == Some(x.content));
                                } else {
                                    let q2 = if q < p { q } else { q - 1 };
                                    assert(cur[q2] == x);
                                    assert(cur.contains(x));
                                }
                            }
                            if exists|j: int|
                                0 <= j < i + 1 && all[j].is_pinned && #[trigger] opened(self.key(), all[j].sealed)
                                    == Some(x.content) && x == item_of(all[j], x.content) {
                                let j = choose|j: int|
                                    0 <= j < i + 1 && all[j].is_pinned && #[trigger] opened(
                                        self.key(),
                                        all[j].sealed,
                                    ) == Some(x.content) && x == item_of(all[j], x.content);
                                if j == i {
                                    assert(x == itv);
                                    assert(nxt[p as int] == x);
                                } else {
                                    assert(cur.contains(x));
                                    let q = choose|q: int| 0 <= q < cur.len() && cur[q] == x;
                                    let q2 = if q < p { q } else { q + 1 };
                                    assert(nxt[q2] == x);
                                }
                            }
                        }
                    },
                    None => {},
                }
            }
            i = i + 1;
        }
        out
    }
}

fn pin_key_of(it: &ClipItem) -> (k: i64)
    ensures
        k as int == pin_key(it@),
{
    match it.pin_order {
        Some(o) => o as i64,
        None => 0,
    }
}

} // verus!
