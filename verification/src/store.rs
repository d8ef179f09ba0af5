//! The last-writer-wins store.
//!
//! One row per key, kept in a vector sorted strictly by key. A row whose
//! `deleted` flag is set is a tombstone: it is excluded from listings but
//! still takes part in conflict resolution and in catch-up sync. The
//! store's contents are modelled as a map from key to row.

use vstd::prelude::*;
use crate::errors::MeshError;
use crate::message::{SyncMessage, SyncMessageV, lww_lt, lww_less, lemma_lww_trichotomy, lemma_lww_trans};
use crate::strorder::{str_lt, str_less, str_equal, lemma_str_lt_trichotomy};

verus! {

/// A change record for catch-up sync: `(key, value, timestamp, machine_id, deleted)`.
pub type ChangeRecord = (String, String, i64, String, bool);

/// The last-writer-wins store: one row per key, sorted by key.
pub struct EnvStorage {
    rows: Vec<SyncMessage>,
}

/// The association map induced by a row sequence: later rows shadow
/// earlier ones, though a well-formed store never has two rows per key.
pub open spec fn rows_map(rows: Seq<SyncMessageV>) -> Map<Seq<char>, SyncMessageV>
    decreases rows.len(),
{
    if rows.len() == 0 {
        Map::empty()
    } else {
        rows_map(rows.drop_last()).insert(rows.last().key, rows.last())
    }
}

/// All keys of a row sequence are pairwise distinct.
pub open spec fn keys_distinct(rows: Seq<SyncMessageV>) -> bool {
    forall|i: int, j: int| 0 <= i < j < rows.len() ==> rows[i].key != rows[j].key
}

/// The rows are sorted strictly ascending by key.
pub open spec fn keys_sorted(rows: Seq<SyncMessageV>) -> bool {
    forall|i: int, j: int| 0 <= i < j < rows.len() ==> str_lt(rows[i].key, rows[j].key)
}

/// With distinct keys, the association map is exactly the rows:
/// a key is present iff some row carries it, and it maps to that row.
pub proof fn lemma_rows_map_props(rows: Seq<SyncMessageV>)
    requires
        keys_distinct(rows),
    ensures
        forall|k: Seq<char>| #[trigger] rows_map(rows).contains_key(k) <==> exists|i: int|
            0 <= i < rows.len() && (#[trigger] rows[i]).key == k,
        forall|i: int| 0 <= i < rows.len() ==> rows_map(rows).contains_key((#[trigger] rows[i]).key)
            && rows_map(rows)[rows[i].key] == rows[i],
    decreases rows.len(),
{
    if rows.len() > 0 {
        let dl = rows.drop_last();
        assert(keys_distinct(dl)) by {
            assert(forall|i: int, j: int| 0 <= i < j < dl.len() ==> dl[i] == rows[i] && dl[j] == rows[j]);
        }
        lemma_rows_map_props(dl);
        let last = rows.last();
        assert forall|i: int| 0 <= i < rows.len() implies rows_map(rows).contains_key((#[trigger] rows[i]).key)
            && rows_map(rows)[rows[i].key] == rows[i] by {
            if i < rows.len() - 1 {
                assert(dl[i] == rows[i]);
                assert(rows[i].key != last.key);
            }
        }
        assert forall|k: Seq<char>| #[trigger] rows_map(rows).contains_key(k) implies exists|i: int|
            0 <= i < rows.len() && (#[trigger] rows[i]).key == k by {
            if k == last.key {
                assert(0 <= rows.len() - 1 < rows.len() && rows[rows.len() - 1].key == k);
            } else {
                assert(rows_map(dl).contains_key(k));
                let i = choose|i: int| 0 <= i < dl.len() && (#[trigger] dl[i]).key == k;
                assert(dl[i] == rows[i]);
                assert(rows[i].key == k);
            }
        }
    }
}

/// Some row of `rows` is exactly `x`.
pub open spec fn appears_in(rows: Seq<SyncMessageV>, x: SyncMessageV) -> bool {
    exists|l: int| 0 <= l < rows.len() && rows[l] == x
}

/// If the new rows are the old rows with `r` upserted — `r` stands at
/// index `i`, every other new row is an old row, and every old row whose
/// key is not `r.key` survives — then the new map is the old map with
/// `r` inserted.
proof fn lemma_upsert_map(old_v: Seq<SyncMessageV>, new_v: Seq<SyncMessageV>, r: SyncMessageV, i: int)
    requires
        keys_distinct(old_v),
        keys_distinct(new_v),
        0 <= i < new_v.len(),
        new_v[i] == r,
        forall|j: int| 0 <= j < new_v.len() && j != i ==> appears_in(old_v, #[trigger] new_v[j]),
        forall|l: int| 0 <= l < old_v.len() && (#[trigger] old_v[l]).key != r.key
            ==> appears_in(new_v, old_v[l]),
    ensures
        rows_map(new_v) == rows_map(old_v).insert(r.key, r),
{
    lemma_rows_map_props(old_v);
    lemma_rows_map_props(new_v);
    let m1 = rows_map(new_v);
    let m2 = rows_map(old_v).insert(r.key, r);
    assert forall|k: Seq<char>| m1.contains_key(k) implies m2.contains_key(k) && m1[k] == m2[k] by {
        let j = choose|j: int| 0 <= j < new_v.len() && (#[trigger] new_v[j]).key == k;
        assert(m1[k] == new_v[j]);
        if j == i {
            assert(m2[k] == r);
        } else {
            assert(new_v[j].key != r.key);
            assert(appears_in(old_v, new_v[j]));
            let l = choose|l: int| 0 <= l < old_v.len() && old_v[l] == new_v[j];
            assert(rows_map(old_v)[k] == old_v[l]);
        }
    }
    assert forall|k: Seq<char>| m2.contains_key(k) implies m1.contains_key(k) by {
        if k == r.key {
            assert(new_v[i].key == k);
        } else {
            assert(rows_map(old_v).contains_key(k));
            let l = choose|l: int| 0 <= l < old_v.len() && (#[trigger] old_v[l]).key == k;
            assert(appears_in(new_v, old_v[l]));
            let j = choose|j: int| 0 <= j < new_v.len() && new_v[j] == old_v[l];
            assert(new_v[j].key == k);
        }
    }
    assert(m1 =~= m2);
}

/// The timestamp a local mutation of `key` commits with, given the clock
/// sample `now`: the sampled second, advanced past the key's current
/// timestamp when that second was already used for the key.
pub open spec fn bumped_timestamp(m: Map<Seq<char>, SyncMessageV>, key: Seq<char>, now: int) -> int {
    if m.contains_key(key) && m[key].timestamp >= now {
        m[key].timestamp + 1
    } else {
        now
    }
}

/// Whether a local commit for `key` can succeed: whatever second the
/// clock samples, only a key already stored at the largest possible
/// timestamp leaves the commit nowhere to go.
pub open spec fn can_commit(m: Map<Seq<char>, SyncMessageV>, key: Seq<char>) -> bool {
    !(m.contains_key(key) && m[key].timestamp == i64::MAX as int)
}

/// The conflict rule: an incoming record wins iff the key is absent or
/// the incoming `(timestamp, origin)` pair is strictly greater.
pub open spec fn lww_wins(m: Map<Seq<char>, SyncMessageV>, msg: SyncMessageV) -> bool {
    !m.contains_key(msg.key) || lww_lt(
        m[msg.key].timestamp,
        m[msg.key].machine_id,
        msg.timestamp,
        msg.machine_id,
    )
}

/// What applying one remote record does to the contents.
pub open spec fn spec_apply(m: Map<Seq<char>, SyncMessageV>, msg: SyncMessageV) -> Map<
    Seq<char>,
    SyncMessageV,
> {
    if lww_wins(m, msg) {
        m.insert(msg.key, msg)
    } else {
        m
    }
}

/// The rows that a listing shows: everything that is not a tombstone.
pub open spec fn live_rows(rows: Seq<SyncMessageV>) -> Seq<SyncMessageV> {
    rows.filter(|r: SyncMessageV| !r.deleted)
}

/// The rows that catch-up sync sends: everything stamped after `since`,
/// tombstones included.
pub open spec fn changed_rows(rows: Seq<SyncMessageV>, since: int) -> Seq<SyncMessageV> {
    rows.filter(|r: SyncMessageV| r.timestamp > since)
}

/// A listing entry, at the spec level.
pub open spec fn row_tuple(r: SyncMessageV) -> (Seq<char>, Seq<char>, int, Seq<char>) {
    (r.key, r.value, r.timestamp, r.machine_id)
}

/// The view of an executable listing entry.
pub open spec fn entry_v(e: (String, String, i64, String)) -> (Seq<char>, Seq<char>, int, Seq<char>) {
    (e.0@, e.1@, e.2 as int, e.3@)
}

/// The view of an executable change record.
pub open spec fn record_v(c: ChangeRecord) -> SyncMessageV {
    SyncMessageV {
        key: c.0@,
        value: c.1@,
        timestamp: c.2 as int,
        machine_id: c.3@,
        deleted: c.4,
    }
}

/// The views of a sequence of listing entries.
pub open spec fn entries_v(s: Seq<(String, String, i64, String)>) -> Seq<
    (Seq<char>, Seq<char>, int, Seq<char>),
> {
    s.map_values(|e: (String, String, i64, String)| entry_v(e))
}

/// The listing entries of a sequence of rows.
pub open spec fn tuples_of(rows: Seq<SyncMessageV>) -> Seq<(Seq<char>, Seq<char>, int, Seq<char>)> {
    rows.map_values(|r: SyncMessageV| row_tuple(r))
}

/// The views of a sequence of executable change records.
pub open spec fn records_v(s: Seq<ChangeRecord>) -> Seq<SyncMessageV> {
    s.map_values(|c: ChangeRecord| record_v(c))
}

/// The views of a sequence of wire records.
pub open spec fn msgs_v(s: Seq<SyncMessage>) -> Seq<SyncMessageV> {
    s.map_values(|m: SyncMessage| m@)
}

/// Rows in non-decreasing timestamp order.
pub open spec fn sorted_by_ts(rows: Seq<SyncMessageV>) -> bool {
    forall|i: int, j: int| 0 <= i < j < rows.len() ==> rows[i].timestamp <= rows[j].timestamp
}

/// Filtering keeps the strict key order.
proof fn lemma_filter_keeps_sorted(rows: Seq<SyncMessageV>, pred: spec_fn(SyncMessageV) -> bool)
    requires
        keys_sorted(rows),
    ensures
        keys_sorted(rows.filter(pred)),
    decreases rows.len(),
{
    reveal(Seq::filter);
    broadcast use vstd::seq_lib::group_filter_ensures;

    if rows.len() > 0 {
        let dl = rows.drop_last();
        let last = rows.last();
        assert(keys_sorted(dl));
        lemma_filter_keeps_sorted(dl, pred);
        let f = rows.filter(pred);
        let fdl = dl.filter(pred);
        assert forall|p: int, q: int| 0 <= p < q < f.len() implies str_lt(f[p].key, f[q].key) by {
            if q < fdl.len() {
                assert(f[p] == fdl[p] && f[q] == fdl[q]);
            } else {
                // f ends with `last`; f[p] comes from dl
                assert(f[q] == last);
                assert(f[p] == fdl[p]);
                assert(fdl.contains(fdl[p]));
                dl.lemma_filter_contains_rev(pred, fdl[p]);
                let l = choose|l: int| 0 <= l < dl.len() && dl[l] == fdl[p];
                assert(str_lt(rows[l].key, last.key));
            }
        }
    }
}

/// Strictly sorted keys are pairwise distinct.
pub proof fn lemma_sorted_distinct(rows: Seq<SyncMessageV>)
    requires
        keys_sorted(rows),
    ensures
        keys_distinct(rows),
{
    assert forall|i: int, j: int| 0 <= i < j < rows.len() implies rows[i].key != rows[j].key by {
        lemma_str_lt_trichotomy(rows[i].key, rows[j].key);
    }
}

/// The bridge between the two faces of the store's model: the contents
/// map is exactly the association map of the row sequence, and
/// well-formedness is exactly strict key order of the rows. Callers can
/// chain the mutation contracts (over `contents`) to the listing and
/// change-stream contracts (over `rows_v`) through this.
pub proof fn lemma_store_model(s: &EnvStorage)
    ensures
        s.contents() == rows_map(s.rows_v()),
        s.wf() <==> keys_sorted(s.rows_v()),
{
}

/// Any stored row stamped after `since` rides the change stream; in
/// particular a tombstone committed by `delete` still reaches every
/// peer through `get_changes_since`, although `get` and `list_all`
/// hide it.
pub proof fn lemma_row_reaches_changes(s: &EnvStorage, key: Seq<char>, since: int)
    requires
        s.wf(),
        s.contents().contains_key(key),
        s.contents()[key].timestamp > since,
    ensures
        changed_rows(s.rows_v(), since).contains(s.contents()[key]),
{
    lemma_sorted_distinct(s.rows_v());
    lemma_rows_map_props(s.rows_v());
    let i = choose|i: int|
        0 <= i < s.rows_v().len() && (#[trigger] s.rows_v()[i]).key == key;
    assert(s.contents()[key] == s.rows_v()[i]);
    lemma_tombstone_propagates(s.rows_v(), since, i);
}

impl EnvStorage {
    /// The rows, at the spec level.
    pub closed spec fn rows_v(&self) -> Seq<SyncMessageV> {
        self.rows@.map_values(|r: SyncMessage| r@)
    }

    /// The store's contents: a map from key to its one row.
    pub closed spec fn contents(&self) -> Map<Seq<char>, SyncMessageV> {
        rows_map(self.rows_v())
    }

    /// Well-formedness: rows sorted strictly ascending by key.
    pub closed spec fn wf(&self) -> bool {
        keys_sorted(self.rows_v())
    }

    /// Create an empty store.
    pub fn new() -> (r: EnvStorage)
        ensures
            r.wf(),
            r.contents() == Map::<Seq<char>, SyncMessageV>::empty(),
    {
        let r = EnvStorage { rows: Vec::new() };
        proof {
            assert(r.rows_v() =~= Seq::<SyncMessageV>::empty());
        }
        r
    }

    /// The position where `key` is or would be inserted: everything before
    /// it is strictly below `key`, everything from it on is not.
    fn lower_bound(&self, key: &str) -> (i: usize)
        requires
            self.wf(),
        ensures
            i <= self.rows_v().len(),
            forall|j: int| 0 <= j < i ==> str_lt((#[trigger] self.rows_v()[j]).key, key@),
            forall|j: int| i <= j < self.rows_v().len()
                ==> !str_lt((#[trigger] self.rows_v()[j]).key, key@),
    {
        let n: usize = self.rows.len();
        let mut i: usize = 0;
        while i < n
            invariant
                0 <= i <= n,
                n == self.rows_v().len(),
                self.wf(),
                forall|j: int| 0 <= j < i ==> str_lt((#[trigger] self.rows_v()[j]).key, key@),
            decreases n - i,
        {
            if !str_less(self.rows[i].key.as_str(), key) {
                proof {
                    assert forall|j: int| i <= j < self.rows_v().len()
                        implies !str_lt((#[trigger] self.rows_v()[j]).key, key@) by {
                        if j > i {
                            assert(str_lt(self.rows_v()[i as int].key, self.rows_v()[j].key));
                            if str_lt(self.rows_v()[j].key, key@) {
                                crate::strorder::lemma_str_lt_trans(
                                    self.rows_v()[i as int].key,
                                    self.rows_v()[j].key,
                                    key@,
                                );
                            }
                        }
                    }
                }
                return i;
            }
            i = i + 1;
        }
        i
    }

    /// Whether the row at `lower_bound(key)` carries exactly `key`.
    /// Returns the index of the row for `key`, if there is one.
    fn find(&self, key: &str) -> (r: Option<usize>)
        requires
            self.wf(),
        ensures
            match r {
                Some(i) => i < self.rows_v().len() && self.rows_v()[i as int].key == key@,
                None => forall|j: int| 0 <= j < self.rows_v().len()
                    ==> (#[trigger] self.rows_v()[j]).key != key@,
            },
    {
        let i = self.lower_bound(key);
        if i < self.rows.len() && str_equal(self.rows[i].key.as_str(), key) {
            Some(i)
        } else {
            proof {
                assert forall|j: int| 0 <= j < self.rows_v().len()
                    implies (#[trigger] self.rows_v()[j]).key != key@ by {
                    if j < i {
                        lemma_str_lt_trichotomy(self.rows_v()[j].key, key@);
                    } else if self.rows_v()[j].key == key@ {
                        // then i < len; the row at i is not key, so j > i,
                        // and sortedness puts key above the row at i,
                        // contradicting the lower bound.
                        assert(j > i);
                        assert(str_lt(self.rows_v()[i as int].key, self.rows_v()[j].key));
                    }
                }
            }
            None
        }
    }

    /// Replace or insert the row for `row.key`, keeping the rows sorted.
    fn upsert(&mut self, row: SyncMessage)
        requires
            old(self).wf(),
        ensures
            final(self).wf(),
            final(self).contents() == old(self).contents().insert(row@.key, row@),
    {
        let ghost old_v = self.rows_v();
        let ghost r = row@;
        proof {
            lemma_sorted_distinct(old_v);
        }
        let i = self.lower_bound(row.key.as_str());
        if i < self.rows.len() && str_equal(self.rows[i].key.as_str(), row.key.as_str()) {
            self.rows[i] = row;
            proof {
                let new_v = self.rows_v();
                assert(new_v =~= old_v.update(i as int, r));
                assert(keys_sorted(new_v)) by {
                    assert forall|p: int, q: int| 0 <= p < q < new_v.len()
                        implies str_lt(new_v[p].key, new_v[q].key) by {
                        assert(new_v[p].key == old_v[p].key);
                        assert(new_v[q].key == old_v[q].key);
                    }
                }
                lemma_sorted_distinct(new_v);
                assert forall|j: int| 0 <= j < new_v.len() && j != i
                    implies appears_in(old_v, #[trigger] new_v[j]) by {
                    assert(old_v[j] == new_v[j]);
                }
                assert forall|l: int| 0 <= l < old_v.len() && (#[trigger] old_v[l]).key != r.key
                    implies appears_in(new_v, old_v[l]) by {
                    assert(l != i);
                    assert(new_v[l] == old_v[l]);
                }
                lemma_upsert_map(old_v, new_v, r, i as int);
            }
        } else {
            self.rows.insert(i, row);
            proof {
                let new_v = self.rows_v();
                assert(new_v =~= old_v.insert(i as int, r));
                assert(forall|j: int| 0 <= j < i ==> new_v[j] == old_v[j]);
                assert(forall|j: int| i < j < new_v.len() ==> new_v[j] == old_v[j - 1]);
                // the new row's key is strictly between its neighbours
                assert(keys_sorted(new_v)) by {
                    assert forall|p: int, q: int| 0 <= p < q < new_v.len()
                        implies str_lt(new_v[p].key, new_v[q].key) by {
                        if q == i {
                            assert(str_lt(old_v[p].key, r.key));
                        } else if p == i {
                            // rows from the old position i on are not below
                            // the key, and none of them equals it
                            assert(!str_lt(old_v[q - 1].key, r.key));
                            assert(old_v[q - 1].key != r.key) by {
                                if q - 1 > i && old_v[q - 1].key == r.key {
                                    // sortedness would put the row at i below the key
                                    assert(str_lt(old_v[i as int].key, old_v[q - 1].key));
                                }
                            }
                            lemma_str_lt_trichotomy(old_v[q - 1].key, r.key);
                        }
                    }
                }
                lemma_sorted_distinct(new_v);
                assert forall|j: int| 0 <= j < new_v.len() && j != i
                    implies appears_in(old_v, #[trigger] new_v[j]) by {
                    if j < i {
                        assert(old_v[j] == new_v[j]);
                    } else {
                        assert(old_v[j - 1] == new_v[j]);
                    }
                }
                assert forall|l: int| 0 <= l < old_v.len() && (#[trigger] old_v[l]).key != r.key
                    implies appears_in(new_v, old_v[l]) by {
                    if l < i {
                        assert(new_v[l] == old_v[l]);
                    } else {
                        assert(new_v[l + 1] == old_v[l]);
                    }
                }
                lemma_upsert_map(old_v, new_v, r, i as int);
            }
        }
    }

    /// Upsert `key` to `value` at the clock sample `now`, with `deleted`
    /// as given. Fails only when the key's timestamp cannot advance any
    /// further. Returns the committed record, ready to broadcast.
    fn put_with_time(
        &mut self,
        key: &str,
        value: &str,
        machine_id: &str,
        now: i64,
        deleted: bool,
    ) -> (r: Result<SyncMessage, MeshError>)
        requires
            old(self).wf(),
        ensures
            final(self).wf(),
            r is Ok <==> bumped_timestamp(old(self).contents(), key@, now as int) <= i64::MAX,
            match r {
                Ok(msg) => {
                    &&& msg@.key == key@
                    &&& msg@.value == value@
                    &&& msg@.machine_id == machine_id@
                    &&& msg@.deleted == deleted
                    &&& msg@.timestamp == bumped_timestamp(old(self).contents(), key@, now as int)
                    &&& final(self).contents() == old(self).contents().insert(key@, msg@)
                },
                Err(e) => {
                    &&& e is StoreFailed
                    &&& final(self).contents() == old(self).contents()
                },
            },
    {
        proof {
            lemma_sorted_distinct(self.rows_v());
            lemma_rows_map_props(self.rows_v());
        }
        let ts: i64 = match self.find(key) {
            Some(i) => {
                let prev = self.rows[i].timestamp;
                proof {
                    assert(self.contents()[key@] == self.rows_v()[i as int]);
                }
                if prev >= now {
                    if prev == i64::MAX {
                        proof {
                            reveal_strlit("timestamp overflow");
                        }
                        return Err(MeshError::StoreFailed(String::from_str("timestamp overflow")));
                    }
                    prev + 1
                } else {
                    now
                }
            }
            None => {
                proof {
                    if self.contents().contains_key(key@) {
                        let j = choose|j: int|
                            0 <= j < self.rows_v().len() && (#[trigger] self.rows_v()[j]).key == key@;
                    }
                }
                now
            }
        };
        let msg = SyncMessage {
            key: String::from_str(key),
            value: String::from_str(value),
            timestamp: ts,
            machine_id: String::from_str(machine_id),
            deleted,
        };
        let out = msg.duplicate();
        self.upsert(msg);
        Ok(out)
    }

    /// Upsert `key` to `value` with the given clock sample; the committed
    /// timestamp advances past the key's current one if the sampled second
    /// was already used. The returned record is what peers must see.
    pub fn set_with_time(&mut self, key: &str, value: &str, machine_id: &str, now: i64) -> (r:
        Result<SyncMessage, MeshError>)
        requires
            old(self).wf(),
        ensures
            final(self).wf(),
            r is Ok <==> bumped_timestamp(old(self).contents(), key@, now as int) <= i64::MAX,
            match r {
                Ok(msg) => {
                    &&& msg@.key == key@
                    &&& msg@.value == value@
                    &&& msg@.machine_id == machine_id@
                    &&& !msg@.deleted
                    &&& msg@.timestamp == bumped_timestamp(old(self).contents(), key@, now as int)
                    &&& final(self).contents() == old(self).contents().insert(key@, msg@)
                },
                Err(e) => {
                    &&& e is StoreFailed
                    &&& final(self).contents() == old(self).contents()
                },
            },
    {
        self.put_with_time(key, value, machine_id, now, false)
    }

    /// Upsert a tombstone for `key` with the given clock sample, whether or
    /// not a row exists: deletion is idempotent and broadcastable. The
    /// returned record is what peers must see.
    pub fn delete_with_time(&mut self, key: &str, machine_id: &str, now: i64) -> (r: Result<
        SyncMessage,
        MeshError,
    >)
        requires
            old(self).wf(),
        ensures
            final(self).wf(),
            r is Ok <==> bumped_timestamp(old(self).contents(), key@, now as int) <= i64::MAX,
            match r {
                Ok(msg) => {
                    &&& msg@.key == key@
                    &&& msg@.value == Seq::<char>::empty()
                    &&& msg@.machine_id == machine_id@
                    &&& msg@.deleted
                    &&& msg@.timestamp == bumped_timestamp(old(self).contents(), key@, now as int)
                    &&& final(self).contents() == old(self).contents().insert(key@, msg@)
                },
                Err(e) => {
                    &&& e is StoreFailed
                    &&& final(self).contents() == old(self).contents()
                },
            },
    {
        let r = self.put_with_time(key, "", machine_id, now, true);
        proof {
            reveal_strlit("");
        }
        r
    }

    /// Upsert `key` to `value`, sampling the wall clock for the
    /// timestamp. Succeeds iff the key's timestamp can still advance.
    pub fn set(&mut self, key: &str, value: &str, machine_id: &str) -> (r: Result<
        SyncMessage,
        MeshError,
    >)
        requires
            old(self).wf(),
        ensures
            final(self).wf(),
            r is Ok <==> can_commit(old(self).contents(), key@),
            match r {
                Ok(msg) => {
                    &&& msg@.key == key@
                    &&& msg@.value == value@
                    &&& msg@.machine_id == machine_id@
                    &&& !msg@.deleted
                    &&& final(self).contents() == old(self).contents().insert(key@, msg@)
                    &&& old(self).contents().contains_key(key@)
                        ==> msg@.timestamp > old(self).contents()[key@].timestamp
                },
                Err(e) => {
                    &&& e is StoreFailed
                    &&& final(self).contents() == old(self).contents()
                },
            },
    {
        let now = crate::clock::now_seconds();
        proof {
            // stored timestamps come from i64 rows, so the only commit
            // that cannot fit is one advancing past the largest of them
            if self.contents().contains_key(key@) {
                lemma_sorted_distinct(self.rows_v());
                lemma_rows_map_props(self.rows_v());
                let i = choose|i: int|
                    0 <= i < self.rows_v().len() && (#[trigger] self.rows_v()[i]).key == key@;
                assert(self.contents()[key@] == self.rows_v()[i]);
                assert(self.contents()[key@].timestamp <= i64::MAX as int);
            }
        }
        self.set_with_time(key, value, machine_id, now)
    }

    /// Upsert a tombstone for `key`, sampling the wall clock. Succeeds
    /// iff the key's timestamp can still advance.
    pub fn delete(&mut self, key: &str, machine_id: &str) -> (r: Result<SyncMessage, MeshError>)
        requires
            old(self).wf(),
        ensures
            final(self).wf(),
            r is Ok <==> can_commit(old(self).contents(), key@),
            match r {
                Ok(msg) => {
                    &&& msg@.key == key@
                    &&& msg@.machine_id == machine_id@
                    &&& msg@.deleted
                    &&& final(self).contents() == old(self).contents().insert(key@, msg@)
                    &&& old(self).contents().contains_key(key@)
                        ==> msg@.timestamp > old(self).contents()[key@].timestamp
                },
                Err(e) => {
                    &&& e is StoreFailed
                    &&& final(self).contents() == old(self).contents()
                },
            },
    {
        let now = crate::clock::now_seconds();
        proof {
            // stored timestamps come from i64 rows, so the only commit
            // that cannot fit is one advancing past the largest of them
            if self.contents().contains_key(key@) {
                lemma_sorted_distinct(self.rows_v());
                lemma_rows_map_props(self.rows_v());
                let i = choose|i: int|
                    0 <= i < self.rows_v().len() && (#[trigger] self.rows_v()[i]).key == key@;
                assert(self.contents()[key@] == self.rows_v()[i]);
                assert(self.contents()[key@].timestamp <= i64::MAX as int);
            }
        }
        self.delete_with_time(key, machine_id, now)
    }

    /// List all live rows as `(key, value, timestamp, machine_id)`,
    /// ordered ascending by key. Tombstones are omitted.
    #[verifier::loop_isolation(false)]
    pub fn list_all(&self) -> (r: Vec<(String, String, i64, String)>)
        requires
            self.wf(),
        ensures
            entries_v(r@) == tuples_of(live_rows(self.rows_v())),
            forall|i: int, j: int| 0 <= i < j < r@.len()
                ==> str_lt((#[trigger] r@[i]).0@, (#[trigger] r@[j]).0@),
    {
        broadcast use vstd::seq_lib::group_filter_ensures, vstd::prelude::Seq::group_seq_extra;

        let mut out: Vec<(String, String, i64, String)> = Vec::new();
        let n = self.rows.len();
        let mut i: usize = 0;
        proof {
            assert(self.rows_v().take(0) =~= Seq::<SyncMessageV>::empty());
            reveal(Seq::filter);
            assert(entries_v(out@) =~= tuples_of(live_rows(self.rows_v().take(0))));
        }
        while i < n
            invariant
                0 <= i <= n,
                n == self.rows_v().len(),
                self.wf(),
                entries_v(out@) == tuples_of(live_rows(self.rows_v().take(i as int))),
            decreases n - i,
        {
            let row = &self.rows[i];
            let ghost prev = self.rows_v().take(i as int);
            proof {
                assert(prev.push(self.rows_v()[i as int]) =~= self.rows_v().take(i as int + 1));
            }
            let ghost x = self.rows_v()[i as int];
            if !row.deleted {
                out.push((
                    row.key.clone(),
                    row.value.clone(),
                    row.timestamp,
                    row.machine_id.clone(),
                ));
            }
            proof {
                assert(live_rows(prev.push(x)) == if !x.deleted {
                    live_rows(prev).push(x)
                } else {
                    live_rows(prev)
                });
                assert(live_rows(self.rows_v().take(i as int + 1)) == live_rows(prev.push(x)));
                assert(entries_v(out@) =~= tuples_of(live_rows(self.rows_v().take(i as int + 1))));
            }
            i = i + 1;
        }
        proof {
            assert(self.rows_v().take(n as int) =~= self.rows_v());
            lemma_filter_keeps_sorted(self.rows_v(), |r: SyncMessageV| !r.deleted);
            assert forall|p: int, q: int| 0 <= p < q < out@.len()
                implies str_lt((#[trigger] out@[p]).0@, (#[trigger] out@[q]).0@) by {
                let live = live_rows(self.rows_v());
                assert(entries_v(out@)[p] == tuples_of(live)[p]);
                assert(entries_v(out@)[q] == tuples_of(live)[q]);
            }
        }
        out
    }

    /// All rows stamped strictly after `since`, tombstones included,
    /// ordered ascending by timestamp: the catch-up stream.
    #[verifier::loop_isolation(false)]
    pub fn get_changes_since(&self, since: i64) -> (r: Vec<ChangeRecord>)
        requires
            self.wf(),
        ensures
            records_v(r@).to_multiset() == changed_rows(self.rows_v(), since as int)
                .to_multiset(),
            sorted_by_ts(records_v(r@)),
    {
        broadcast use vstd::seq_lib::group_filter_ensures, vstd::prelude::Seq::group_seq_extra;
        broadcast use vstd::seq_lib::to_multiset_build;
        broadcast use vstd::seq_lib::to_multiset_insert;

        let mut out: Vec<ChangeRecord> = Vec::new();
        let n = self.rows.len();
        let mut i: usize = 0;
        proof {
            assert(self.rows_v().take(0) =~= Seq::<SyncMessageV>::empty());
            reveal(Seq::filter);
            assert(records_v(out@) =~= Seq::<SyncMessageV>::empty());
            assert(changed_rows(self.rows_v().take(0), since as int)
                =~= Seq::<SyncMessageV>::empty());
        }
        while i < n
            invariant
                0 <= i <= n,
                n == self.rows_v().len(),
                self.wf(),
                records_v(out@).to_multiset() == changed_rows(
                    self.rows_v().take(i as int),
                    since as int,
                ).to_multiset(),
                sorted_by_ts(records_v(out@)),
            decreases n - i,
        {
            let row = &self.rows[i];
            let ghost prev = self.rows_v().take(i as int);
            proof {
                assert(prev.push(self.rows_v()[i as int]) =~= self.rows_v().take(i as int + 1));
            }
            let ghost x = self.rows_v()[i as int];
            if row.timestamp > since {
                self.insert_by_ts(&mut out, i);
                proof {
                    assert(changed_rows(prev.push(x), since as int)
                        == changed_rows(prev, since as int).push(x));
                    assert(changed_rows(prev, since as int).push(x).to_multiset()
                        == changed_rows(prev, since as int).to_multiset().insert(x));
                    assert(changed_rows(self.rows_v().take(i as int + 1), since as int)
                        == changed_rows(prev.push(x), since as int));
                }
            } else {
                proof {
                    assert(changed_rows(prev.push(x), since as int)
                        == changed_rows(prev, since as int));
                    assert(changed_rows(self.rows_v().take(i as int + 1), since as int)
                        == changed_rows(prev.push(x), since as int));
                }
            }
            i = i + 1;
        }
        proof {
            assert(self.rows_v().take(n as int) =~= self.rows_v());
        }
        out
    }

    /// Insert row `i` into `out` before the first entry with a strictly
    /// later timestamp, keeping `out` sorted by timestamp.
    #[verifier::loop_isolation(false)]
    fn insert_by_ts(&self, out: &mut Vec<ChangeRecord>, i: usize)
        requires
            self.wf(),
            i < self.rows_v().len(),
            sorted_by_ts(records_v(old(out)@)),
        ensures
            records_v(final(out)@).to_multiset() == records_v(old(out)@)
                .to_multiset().insert(self.rows_v()[i as int]),
            sorted_by_ts(records_v(final(out)@)),
    {
        broadcast use vstd::seq_lib::to_multiset_insert;

        let row = &self.rows[i];
        let ghost r = self.rows_v()[i as int];
        let n = out.len();
        let mut pos: usize = 0;
        while pos < n && out[pos].2 <= row.timestamp
            invariant
                0 <= pos <= n,
                n == out@.len(),
                r == self.rows_v()[i as int],
                i < self.rows_v().len(),
                forall|l: int| 0 <= l < pos
                    ==> (#[trigger] records_v(out@)[l]).timestamp <= r.timestamp,
            decreases n - pos,
        {
            proof {
                assert(records_v(out@)[pos as int] == record_v(out@[pos as int]));
                assert(out@[pos as int].2 <= row.timestamp);
                assert(record_v(out@[pos as int]).timestamp == out@[pos as int].2 as int);
                assert(r.timestamp == row.timestamp as int);
            }
            pos = pos + 1;
        }
        let ghost old_out = out@;
        out.insert(pos, (
            row.key.clone(),
            row.value.clone(),
            row.timestamp,
            row.machine_id.clone(),
            row.deleted,
        ));
        proof {
            let old_m = records_v(old_out);
            let new_m = records_v(out@);
            assert(new_m =~= old_m.insert(pos as int, r));
            assert(new_m.to_multiset() == old_m.to_multiset().insert(r));
            assert forall|p: int, q: int| 0 <= p < q < new_m.len()
                implies new_m[p].timestamp <= new_m[q].timestamp by {
                if p < pos && q == pos {
                } else if p == pos && q > pos {
                    assert(new_m[q] == old_m[q - 1]);
                    assert(old_m[pos as int].timestamp > r.timestamp);
                } else if p < pos && q > pos {
                    assert(new_m[p] == old_m[p] && new_m[q] == old_m[q - 1]);
                } else if p > pos && q > pos {
                    assert(new_m[p] == old_m[p - 1] && new_m[q] == old_m[q - 1]);
                }
            }
        }
    }

    /// The catch-up stream as wire records: every row stamped after
    /// `since`, tombstones included, in timestamp order, ready to send.
    #[verifier::loop_isolation(false)]
    pub fn sync_messages_since(&self, since: i64) -> (r: Vec<SyncMessage>)
        requires
            self.wf(),
        ensures
            msgs_v(r@).to_multiset() == changed_rows(self.rows_v(), since as int).to_multiset(),
            sorted_by_ts(msgs_v(r@)),
    {
        let changes = self.get_changes_since(since);
        let mut out: Vec<SyncMessage> = Vec::new();
        let n = changes.len();
        let mut i: usize = 0;
        proof {
            assert(msgs_v(out@) =~= records_v(changes@).take(0));
        }
        while i < n
            invariant
                0 <= i <= n,
                n == changes@.len(),
                msgs_v(out@) == records_v(changes@).take(i as int),
            decreases n - i,
        {
            let c = &changes[i];
            out.push(SyncMessage {
                key: c.0.clone(),
                value: c.1.clone(),
                timestamp: c.2,
                machine_id: c.3.clone(),
                deleted: c.4,
            });
            proof {
                assert(msgs_v(out@) =~= records_v(changes@).take(i as int + 1));
            }
            i = i + 1;
        }
        proof {
            assert(records_v(changes@).take(n as int) =~= records_v(changes@));
        }
        out
    }

    /// Apply one record received from a peer under the conflict rule:
    /// it replaces the local row iff the key is absent or the incoming
    /// `(timestamp, origin)` pair is strictly greater.
    pub fn apply_remote(&mut self, msg: &SyncMessage)
        requires
            old(self).wf(),
        ensures
            final(self).wf(),
            final(self).contents() == spec_apply(old(self).contents(), msg@),
    {
        proof {
            lemma_sorted_distinct(self.rows_v());
            lemma_rows_map_props(self.rows_v());
        }
        match self.find(msg.key.as_str()) {
            Some(i) => {
                proof {
                    assert(self.contents()[msg@.key] == self.rows_v()[i as int]);
                }
                let row = &self.rows[i];
                if lww_less(
                    row.timestamp,
                    row.machine_id.as_str(),
                    msg.timestamp,
                    msg.machine_id.as_str(),
                ) {
                    self.upsert(msg.duplicate());
                }
            }
            None => {
                proof {
                    if self.contents().contains_key(msg@.key) {
                        let j = choose|j: int|
                            0 <= j < self.rows_v().len()
                                && (#[trigger] self.rows_v()[j]).key == msg@.key;
                    }
                }
                self.upsert(msg.duplicate());
            }
        }
    }

    /// Look a key up. Returns `(value, timestamp, machine_id)` for a live
    /// row; `None` for an absent or tombstoned one.
    pub fn get(&self, key: &str) -> (r: Option<(String, i64, String)>)
        requires
            self.wf(),
        ensures
            match r {
                Some(t) => self.contents().contains_key(key@)
                    && !self.contents()[key@].deleted
                    && t.0@ == self.contents()[key@].value
                    && t.1 as int == self.contents()[key@].timestamp
                    && t.2@ == self.contents()[key@].machine_id,
                None => !self.contents().contains_key(key@)
                    || self.contents()[key@].deleted,
            },
    {
        proof {
            lemma_sorted_distinct(self.rows_v());
            lemma_rows_map_props(self.rows_v());
        }
        match self.find(key) {
            Some(i) => {
                let row = &self.rows[i];
                if row.deleted {
                    None
                } else {
                    Some((row.value.clone(), row.timestamp, row.machine_id.clone()))
                }
            }
            None => None,
        }
    }
}

/// The store's contents after applying a whole sequence of remote
/// records, one by one, under the conflict rule.
pub open spec fn apply_all(m: Map<Seq<char>, SyncMessageV>, msgs: Seq<SyncMessageV>) -> Map<
    Seq<char>,
    SyncMessageV,
>
    decreases msgs.len(),
{
    if msgs.len() == 0 {
        m
    } else {
        spec_apply(apply_all(m, msgs.drop_last()), msgs.last())
    }
}

/// `r` is one of the records ever observed for key `k`: the initial row,
/// or one of the incoming records carrying `k`.
pub open spec fn lww_candidate(
    m: Map<Seq<char>, SyncMessageV>,
    msgs: Seq<SyncMessageV>,
    k: Seq<char>,
    r: SyncMessageV,
) -> bool {
    (m.contains_key(k) && m[k] == r) || (r.key == k && exists|i: int|
        0 <= i < msgs.len() && msgs[i] == r)
}

/// After a peer applies any finite sequence of remote records, the row
/// it holds for a key is one of the records observed for that key, and
/// no observed record compares strictly above it: it is the one with the
/// greatest `(timestamp, origin)` ever observed.
pub proof fn lemma_apply_all_is_greatest(
    m: Map<Seq<char>, SyncMessageV>,
    msgs: Seq<SyncMessageV>,
    k: Seq<char>,
)
    ensures
        apply_all(m, msgs).contains_key(k) <==> (m.contains_key(k) || exists|i: int|
            0 <= i < msgs.len() && (#[trigger] msgs[i]).key == k),
        apply_all(m, msgs).contains_key(k) ==> lww_candidate(m, msgs, k, apply_all(m, msgs)[k]),
        forall|r: SyncMessageV| lww_candidate(m, msgs, k, r) ==> apply_all(m, msgs).contains_key(k)
            && !lww_lt(
            apply_all(m, msgs)[k].timestamp,
            apply_all(m, msgs)[k].machine_id,
            r.timestamp,
            r.machine_id,
        ),
    decreases msgs.len(),
{
    let fin = apply_all(m, msgs);
    if msgs.len() == 0 {
        assert forall|r: SyncMessageV| lww_candidate(m, msgs, k, r) implies fin.contains_key(k)
            && !lww_lt(fin[k].timestamp, fin[k].machine_id, r.timestamp, r.machine_id) by {
            assert(m.contains_key(k) && m[k] == r);
            lemma_lww_trichotomy(m[k].timestamp, m[k].machine_id, r.timestamp, r.machine_id);
        }
    } else {
        let dl = msgs.drop_last();
        let last = msgs.last();
        let prev = apply_all(m, dl);
        lemma_apply_all_is_greatest(m, dl, k);
        // every candidate of the prefix is a candidate of the whole
        assert forall|r: SyncMessageV| lww_candidate(m, dl, k, r)
            implies lww_candidate(m, msgs, k, r) by {
            if !(m.contains_key(k) && m[k] == r) {
                let i = choose|i: int| 0 <= i < dl.len() && dl[i] == r;
                assert(msgs[i] == r);
            }
        }
        // presence
        assert(fin.contains_key(k) <==> (m.contains_key(k) || exists|i: int|
            0 <= i < msgs.len() && (#[trigger] msgs[i]).key == k)) by {
            if last.key == k {
                assert(msgs[msgs.len() - 1].key == k);
            }
            if !fin.contains_key(k) {
                assert forall|i: int| 0 <= i < msgs.len()
                    implies (#[trigger] msgs[i]).key != k by {
                    if i < msgs.len() - 1 {
                        assert(dl[i] == msgs[i]);
                    }
                }
            }
        }
        // the result is a candidate
        if fin.contains_key(k) {
            if last.key == k && lww_wins(prev, last) {
                assert(fin[k] == last);
                assert(msgs[msgs.len() - 1] == last);
            } else {
                assert(fin[k] == prev[k]);
            }
        }
        // no candidate beats the result
        assert forall|r: SyncMessageV| lww_candidate(m, msgs, k, r) implies fin.contains_key(k)
            && !lww_lt(fin[k].timestamp, fin[k].machine_id, r.timestamp, r.machine_id) by {
            let cur = fin[k];
            if last.key == k && lww_wins(prev, last) {
                // the new row is `last`
                if r == last {
                    lemma_lww_trichotomy(
                        cur.timestamp,
                        cur.machine_id,
                        r.timestamp,
                        r.machine_id,
                    );
                } else {
                    // r is a prefix candidate; it does not beat the
                    // previous row, which `last` beats in turn
                    assert(lww_candidate(m, dl, k, r)) by {
                        if !(m.contains_key(k) && m[k] == r) {
                            let i = choose|i: int| 0 <= i < msgs.len() && msgs[i] == r;
                            assert(i < msgs.len() - 1);
                            assert(dl[i] == r);
                        }
                    }
                    if lww_lt(cur.timestamp, cur.machine_id, r.timestamp, r.machine_id) {
                        // r would beat the new row; but r does not beat the
                        // previous row, which the new row beat in turn
                        assert(prev.contains_key(k));
                        let p = prev[k];
                        assert(!lww_lt(p.timestamp, p.machine_id, r.timestamp, r.machine_id));
                        lemma_lww_trichotomy(
                            p.timestamp,
                            p.machine_id,
                            r.timestamp,
                            r.machine_id,
                        );
                        // either r is below p, or their pairs coincide;
                        // both put the new row below p
                        if lww_lt(r.timestamp, r.machine_id, p.timestamp, p.machine_id) {
                            lemma_lww_trans(
                                cur.timestamp,
                                cur.machine_id,
                                r.timestamp,
                                r.machine_id,
                                p.timestamp,
                                p.machine_id,
                            );
                        }
                        assert(lww_lt(cur.timestamp, cur.machine_id, p.timestamp, p.machine_id));
                        assert(lww_lt(p.timestamp, p.machine_id, cur.timestamp, cur.machine_id));
                        lemma_lww_trichotomy(
                            p.timestamp,
                            p.machine_id,
                            cur.timestamp,
                            cur.machine_id,
                        );
                        assert(false);
                    }
                }
            } else {
                // the row is unchanged from the prefix
                assert(lww_candidate(m, dl, k, r) || r == last) by {
                    if !(m.contains_key(k) && m[k] == r) && r != last {
                        let i = choose|i: int| 0 <= i < msgs.len() && msgs[i] == r;
                        assert(i < msgs.len() - 1);
                        assert(dl[i] == r);
                    }
                }
                if r == last && last.key == k {
                    // `last` lost against the previous row
                    assert(prev.contains_key(k));
                    assert(!lww_wins(prev, last));
                    assert(fin[k] == prev[k]);
                } else {
                    assert(lww_candidate(m, dl, k, r));
                }
            }
        }
    }
}

/// Convergence: two peers that start from the same contents and observe
/// the same set of records for a key — in whatever order — end up with
/// the same row for it, provided no two distinct observed records carry
/// the same `(timestamp, origin)` pair.
pub proof fn lemma_apply_all_order_independent(
    m: Map<Seq<char>, SyncMessageV>,
    msgs1: Seq<SyncMessageV>,
    msgs2: Seq<SyncMessageV>,
    k: Seq<char>,
)
    requires
        forall|r: SyncMessageV| #[trigger] lww_candidate(m, msgs1, k, r)
            <==> #[trigger] lww_candidate(m, msgs2, k, r),
        forall|r1: SyncMessageV, r2: SyncMessageV|
            #[trigger] lww_candidate(m, msgs1, k, r1) && #[trigger] lww_candidate(m, msgs1, k, r2)
                && r1.timestamp == r2.timestamp && r1.machine_id == r2.machine_id ==> r1 == r2,
    ensures
        apply_all(m, msgs1).contains_key(k) <==> apply_all(m, msgs2).contains_key(k),
        apply_all(m, msgs1).contains_key(k) ==> apply_all(m, msgs1)[k] == apply_all(m, msgs2)[k],
{
    lemma_apply_all_is_greatest(m, msgs1, k);
    lemma_apply_all_is_greatest(m, msgs2, k);
    let f1 = apply_all(m, msgs1);
    let f2 = apply_all(m, msgs2);
    if f1.contains_key(k) {
        let r1 = f1[k];
        assert(lww_candidate(m, msgs1, k, r1));
        assert(lww_candidate(m, msgs2, k, r1));
        assert(f2.contains_key(k));
    }
    if f2.contains_key(k) {
        let r2 = f2[k];
        assert(lww_candidate(m, msgs1, k, r2));
        assert(f1.contains_key(k));
    }
    if f1.contains_key(k) && f2.contains_key(k) {
        let r1 = f1[k];
        let r2 = f2[k];
        assert(!lww_lt(r1.timestamp, r1.machine_id, r2.timestamp, r2.machine_id));
        assert(!lww_lt(r2.timestamp, r2.machine_id, r1.timestamp, r1.machine_id));
        lemma_lww_trichotomy(r1.timestamp, r1.machine_id, r2.timestamp, r2.machine_id);
        assert(r1 == r2);
    }
}

/// A local commit always advances a key's `(timestamp, origin)` pair:
/// the committed timestamp is strictly above the stored one, so the
/// records a writer emits for one key are strictly increasing under the
/// last-writer-wins order, whatever origins are involved.
pub proof fn lemma_local_commit_increases(
    m: Map<Seq<char>, SyncMessageV>,
    key: Seq<char>,
    now: int,
)
    requires
        m.contains_key(key),
    ensures
        bumped_timestamp(m, key, now) > m[key].timestamp,
        forall|or1: Seq<char>, or2: Seq<char>|
            lww_lt(m[key].timestamp, or1, bumped_timestamp(m, key, now), or2),
{
}

/// Applying a remote record never moves a key's pair backwards: the
/// stored `(timestamp, origin)` pair after `apply_remote` is no smaller
/// than before.
pub proof fn lemma_apply_never_decreases(
    m: Map<Seq<char>, SyncMessageV>,
    msg: SyncMessageV,
    k: Seq<char>,
)
    requires
        m.contains_key(k),
    ensures
        spec_apply(m, msg).contains_key(k),
        !lww_lt(
            spec_apply(m, msg)[k].timestamp,
            spec_apply(m, msg)[k].machine_id,
            m[k].timestamp,
            m[k].machine_id,
        ),
{
    if k == msg.key && lww_wins(m, msg) {
        lemma_lww_trichotomy(m[k].timestamp, m[k].machine_id, msg.timestamp, msg.machine_id);
    } else {
        lemma_lww_trichotomy(
            spec_apply(m, msg)[k].timestamp,
            spec_apply(m, msg)[k].machine_id,
            m[k].timestamp,
            m[k].machine_id,
        );
    }
}

/// Applying any finite sequence of remote records never moves a key's
/// stored `(timestamp, origin)` pair backwards.
pub proof fn lemma_apply_all_never_decreases(
    m: Map<Seq<char>, SyncMessageV>,
    msgs: Seq<SyncMessageV>,
    k: Seq<char>,
)
    requires
        m.contains_key(k),
    ensures
        apply_all(m, msgs).contains_key(k),
        !lww_lt(
            apply_all(m, msgs)[k].timestamp,
            apply_all(m, msgs)[k].machine_id,
            m[k].timestamp,
            m[k].machine_id,
        ),
    decreases msgs.len(),
{
    if msgs.len() == 0 {
        lemma_lww_trichotomy(m[k].timestamp, m[k].machine_id, m[k].timestamp, m[k].machine_id);
    } else {
        let dl = msgs.drop_last();
        let prev = apply_all(m, dl);
        lemma_apply_all_never_decreases(m, dl, k);
        lemma_apply_never_decreases(prev, msgs.last(), k);
        let fin = apply_all(m, msgs);
        if lww_lt(fin[k].timestamp, fin[k].machine_id, m[k].timestamp, m[k].machine_id) {
            lemma_lww_trichotomy(
                prev[k].timestamp,
                prev[k].machine_id,
                m[k].timestamp,
                m[k].machine_id,
            );
            lemma_lww_trichotomy(
                fin[k].timestamp,
                fin[k].machine_id,
                prev[k].timestamp,
                prev[k].machine_id,
            );
            if lww_lt(prev[k].timestamp, prev[k].machine_id, m[k].timestamp, m[k].machine_id) {
            } else if prev[k].timestamp == m[k].timestamp && prev[k].machine_id
                == m[k].machine_id {
            } else {
                lemma_lww_trans(
                    fin[k].timestamp,
                    fin[k].machine_id,
                    m[k].timestamp,
                    m[k].machine_id,
                    prev[k].timestamp,
                    prev[k].machine_id,
                );
            }
        }
    }
}

/// The records a writer emits for one key carry strictly increasing
/// `(timestamp, origin)` pairs: a local commit, any interleaving of
/// remote records, and a second local commit always stamp the second
/// commit strictly above the first, whatever origins are involved.
pub proof fn lemma_writer_pairs_increase(
    m: Map<Seq<char>, SyncMessageV>,
    first: SyncMessageV,
    now1: int,
    msgs: Seq<SyncMessageV>,
    now2: int,
)
    requires
        first.timestamp == bumped_timestamp(m, first.key, now1),
    ensures
        ({
            let between = apply_all(m.insert(first.key, first), msgs);
            forall|or1: Seq<char>, or2: Seq<char>|
                lww_lt(first.timestamp, or1, bumped_timestamp(between, first.key, now2), or2)
        }),
{
    let k = first.key;
    let m1 = m.insert(k, first);
    lemma_apply_all_never_decreases(m1, msgs, k);
    let between = apply_all(m1, msgs);
    lemma_lww_trichotomy(
        between[k].timestamp,
        between[k].machine_id,
        first.timestamp,
        first.machine_id,
    );
    assert(between[k].timestamp >= first.timestamp);
    lemma_local_commit_increases(between, k, now2);
}

/// A freshly written local row survives any remote records with strictly
/// smaller `(timestamp, origin)` pairs: `set(K, V)` followed by `get(K)`
/// returns the local write, whatever earlier-stamped records arrive in
/// between.
pub proof fn lemma_local_write_survives(
    m: Map<Seq<char>, SyncMessageV>,
    k: Seq<char>,
    msgs: Seq<SyncMessageV>,
)
    requires
        m.contains_key(k),
        forall|i: int| 0 <= i < msgs.len() && (#[trigger] msgs[i]).key == k ==> lww_lt(
            msgs[i].timestamp,
            msgs[i].machine_id,
            m[k].timestamp,
            m[k].machine_id,
        ),
    ensures
        apply_all(m, msgs).contains_key(k),
        apply_all(m, msgs)[k] == m[k],
    decreases msgs.len(),
{
    if msgs.len() > 0 {
        let dl = msgs.drop_last();
        let last = msgs.last();
        assert forall|i: int| 0 <= i < dl.len() && (#[trigger] dl[i]).key == k implies lww_lt(
            dl[i].timestamp,
            dl[i].machine_id,
            m[k].timestamp,
            m[k].machine_id,
        ) by {
            assert(msgs[i] == dl[i]);
        }
        lemma_local_write_survives(m, k, dl);
        let prev = apply_all(m, dl);
        if last.key == k {
            assert(msgs[msgs.len() - 1] == last);
            lemma_lww_trichotomy(
                last.timestamp,
                last.machine_id,
                m[k].timestamp,
                m[k].machine_id,
            );
            assert(!lww_wins(prev, last));
        }
    }
}

/// A tombstone hides its key from `get` but keeps the row: after a
/// deletion the key maps to a deleted row, and deleting again leaves a
/// deleted row again — deletion is idempotent in what `get` and `list`
/// show.
pub proof fn lemma_delete_hides(
    m: Map<Seq<char>, SyncMessageV>,
    key: Seq<char>,
    tomb: SyncMessageV,
)
    requires
        tomb.deleted,
    ensures
        m.insert(key, tomb).contains_key(key),
        m.insert(key, tomb)[key].deleted,
{
}

/// A tombstone still travels with catch-up sync: any deleted row stamped
/// after `since` is in the change stream.
pub proof fn lemma_tombstone_propagates(rows: Seq<SyncMessageV>, since: int, i: int)
    requires
        0 <= i < rows.len(),
        rows[i].timestamp > since,
    ensures
        changed_rows(rows, since).contains(rows[i]),
{
    broadcast use vstd::seq_lib::group_filter_ensures;

    rows.lemma_filter_contains(|r: SyncMessageV| r.timestamp > since, i);
}

/// A filter that keeps everything returns the sequence unchanged.
proof fn lemma_filter_all_true(rows: Seq<SyncMessageV>, pred: spec_fn(SyncMessageV) -> bool)
    requires
        forall|i: int| 0 <= i < rows.len() ==> pred(#[trigger] rows[i]),
    ensures
        rows.filter(pred) == rows,
    decreases rows.len(),
{
    reveal(Seq::filter);
    if rows.len() > 0 {
        let dl = rows.drop_last();
        lemma_filter_all_true(dl, pred);
        assert(rows.filter(pred) =~= rows);
    }
}

/// The listing is exactly the live part of the full change stream: when
/// every row is stamped after zero, `list` shows the rows of
/// `changes_since(0)` whose `deleted` flag is clear, and that stream has
/// one record per key, so none of them is superseded.
pub proof fn lemma_list_matches_changes(s: &EnvStorage)
    requires
        s.wf(),
        forall|i: int| 0 <= i < s.rows_v().len() ==> (#[trigger] s.rows_v()[i]).timestamp > 0,
    ensures
        live_rows(s.rows_v()) == changed_rows(s.rows_v(), 0).filter(
            |r: SyncMessageV| !r.deleted,
        ),
        keys_distinct(changed_rows(s.rows_v(), 0)),
{
    lemma_filter_all_true(s.rows_v(), |r: SyncMessageV| r.timestamp > 0);
    assert(changed_rows(s.rows_v(), 0) == s.rows_v());
    lemma_sorted_distinct(s.rows_v());
}


} // verus!
