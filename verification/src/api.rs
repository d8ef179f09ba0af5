//! The user-interface surface: the store and peer views shaped as the
//! front end shows them. The shell around the interface only moves
//! these values; everything they contain is computed here.

use vstd::prelude::*;
use crate::message::{EnvVar, Peer};
use crate::store::{entries_v, live_rows, tuples_of, EnvStorage};

verus! {

/// Look one variable up for display: `None` for an absent or deleted
/// key.
pub fn get_env_var(store: &EnvStorage, key: &str) -> (r: Option<EnvVar>)
    requires
        store.wf(),
    ensures
        match r {
            Some(v) => {
                &&& store.contents().contains_key(key@)
                &&& !store.contents()[key@].deleted
                &&& v.key@ == key@
                &&& v.value@ == store.contents()[key@].value
                &&& v.timestamp as int == store.contents()[key@].timestamp
                &&& v.machine_id@ == store.contents()[key@].machine_id
            },
            None => !store.contents().contains_key(key@) || store.contents()[key@].deleted,
        },
{
    match store.get(key) {
        Some(t) => Some(
            EnvVar {
                key: String::from_str(key),
                value: t.0,
                timestamp: t.1,
                machine_id: t.2,
            },
        ),
        None => None,
    }
}

/// All live variables for display, in key order.
#[verifier::loop_isolation(false)]
pub fn list_env_vars(store: &EnvStorage) -> (r: Vec<EnvVar>)
    requires
        store.wf(),
    ensures
        r@.len() == live_rows(store.rows_v()).len(),
        forall|i: int| 0 <= i < r@.len() ==> {
            let row = live_rows(store.rows_v())[i];
            &&& (#[trigger] r@[i]).key@ == row.key
            &&& r@[i].value@ == row.value
            &&& r@[i].timestamp as int == row.timestamp
            &&& r@[i].machine_id@ == row.machine_id
        },
{
    let entries = store.list_all();
    let mut out: Vec<EnvVar> = Vec::new();
    let n = entries.len();
    let mut i: usize = 0;
    proof {
        assert(entries_v(entries@).len() == entries@.len());
        assert(tuples_of(live_rows(store.rows_v())).len() == live_rows(store.rows_v()).len());
    }
    while i < n
        invariant
            0 <= i <= n,
            n == entries@.len(),
            out@.len() == i,
            entries_v(entries@) == tuples_of(live_rows(store.rows_v())),
            n == live_rows(store.rows_v()).len(),
            forall|j: int| 0 <= j < i ==> {
                let row = live_rows(store.rows_v())[j];
                &&& (#[trigger] out@[j]).key@ == row.key
                &&& out@[j].value@ == row.value
                &&& out@[j].timestamp as int == row.timestamp
                &&& out@[j].machine_id@ == row.machine_id
            },
        decreases n - i,
    {
        proof {
            assert(entries_v(entries@)[i as int] == tuples_of(live_rows(store.rows_v()))[i as int]);
            assert(entries_v(entries@)[i as int] == crate::store::entry_v(entries@[i as int]));
            assert(tuples_of(live_rows(store.rows_v()))[i as int] == crate::store::row_tuple(
                live_rows(store.rows_v())[i as int],
            ));
        }
        let e = &entries[i];
        out.push(EnvVar {
            key: e.0.clone(),
            value: e.1.clone(),
            timestamp: e.2,
            machine_id: e.3.clone(),
        });
        i = i + 1;
    }
    out
}

/// The peer list for display, each entry stamped as seen `now`.
#[verifier::loop_isolation(false)]
pub fn peers_for_display(pairs: &Vec<(String, String)>, now: i64) -> (r: Vec<Peer>)
    ensures
        r@.len() == pairs@.len(),
        forall|i: int| 0 <= i < r@.len() ==> {
            &&& (#[trigger] r@[i]).id@ == pairs@[i].0@
            &&& r@[i].address@ == pairs@[i].1@
            &&& r@[i].last_seen == now
        },
{
    let mut out: Vec<Peer> = Vec::new();
    let n = pairs.len();
    let mut i: usize = 0;
    while i < n
        invariant
            0 <= i <= n,
            n == pairs@.len(),
            out@.len() == i,
            forall|j: int| 0 <= j < i ==> {
                &&& (#[trigger] out@[j]).id@ == pairs@[j].0@
                &&& out@[j].address@ == pairs@[j].1@
                &&& out@[j].last_seen == now
            },
        decreases n - i,
    {
        out.push(Peer { id: pairs[i].0.clone(), address: pairs[i].1.clone(), last_seen: now });
        i = i + 1;
    }
    out
}

} // verus!
