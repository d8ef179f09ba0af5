//! The on-wire record and the last-writer-wins order.
//!
//! A `SyncMessage` is the entire on-wire alphabet: one update to one key,
//! stamped with the writing machine's clock and id. Conflicts between two
//! records for the same key are decided by the strict lexicographic order
//! on `(timestamp, machine_id)`: the greater pair wins.

use vstd::prelude::*;
use crate::strorder::{str_lt, str_less, lemma_str_lt_trichotomy, lemma_str_lt_trans};

verus! {

/// Spec-level image of a `SyncMessage`.
pub ghost struct SyncMessageV {
    pub key: Seq<char>,
    pub value: Seq<char>,
    pub timestamp: int,
    pub machine_id: Seq<char>,
    pub deleted: bool,
}

/// One replicated update: the entire on-wire alphabet.
#[derive(Debug, Clone)]
pub struct SyncMessage {
    pub key: String,
    pub value: String,
    pub timestamp: i64,
    pub machine_id: String,
    pub deleted: bool,
}

impl View for SyncMessage {
    type V = SyncMessageV;

    open spec fn view(&self) -> SyncMessageV {
        SyncMessageV {
            key: self.key@,
            value: self.value@,
            timestamp: self.timestamp as int,
            machine_id: self.machine_id@,
            deleted: self.deleted,
        }
    }
}

impl SyncMessage {
    /// A field-by-field copy whose view is provably the same.
    pub fn duplicate(&self) -> (r: SyncMessage)
        ensures
            r@ == self@,
    {
        SyncMessage {
            key: self.key.clone(),
            value: self.value.clone(),
            timestamp: self.timestamp,
            machine_id: self.machine_id.clone(),
            deleted: self.deleted,
        }
    }
}

/// A key/value pair as shown to the user interface.
#[derive(Debug, Clone)]
pub struct EnvVar {
    pub key: String,
    pub value: String,
    pub timestamp: i64,
    pub machine_id: String,
}

/// A peer as shown to the user interface.
#[derive(Debug, Clone)]
pub struct Peer {
    pub id: String,
    pub address: String,
    pub last_seen: i64,
}

/// The strict last-writer-wins order on `(timestamp, origin)` pairs:
/// later timestamps win, and on equal timestamps the lexicographically
/// greater origin wins.
pub open spec fn lww_lt(ts_a: int, or_a: Seq<char>, ts_b: int, or_b: Seq<char>) -> bool {
    ts_a < ts_b || (ts_a == ts_b && str_lt(or_a, or_b))
}

/// Executable test of the last-writer-wins order.
pub fn lww_less(ts_a: i64, or_a: &str, ts_b: i64, or_b: &str) -> (r: bool)
    ensures
        r == lww_lt(ts_a as int, or_a@, ts_b as int, or_b@),
{
    ts_a < ts_b || (ts_a == ts_b && str_less(or_a, or_b))
}

/// The last-writer-wins order is a strict total order: of two pairs,
/// either one is below the other or they are equal.
pub proof fn lemma_lww_trichotomy(ts_a: int, or_a: Seq<char>, ts_b: int, or_b: Seq<char>)
    ensures
        lww_lt(ts_a, or_a, ts_b, or_b) || lww_lt(ts_b, or_b, ts_a, or_a)
            || (ts_a == ts_b && or_a == or_b),
        lww_lt(ts_a, or_a, ts_b, or_b) ==> !lww_lt(ts_b, or_b, ts_a, or_a),
{
    lemma_str_lt_trichotomy(or_a, or_b);
}

/// The last-writer-wins order is transitive.
pub proof fn lemma_lww_trans(
    ts_a: int, or_a: Seq<char>,
    ts_b: int, or_b: Seq<char>,
    ts_c: int, or_c: Seq<char>,
)
    requires
        lww_lt(ts_a, or_a, ts_b, or_b),
        lww_lt(ts_b, or_b, ts_c, or_c),
    ensures
        lww_lt(ts_a, or_a, ts_c, or_c),
{
    if ts_a == ts_b && ts_b == ts_c {
        lemma_str_lt_trans(or_a, or_b, or_c);
    }
}

} // verus!
