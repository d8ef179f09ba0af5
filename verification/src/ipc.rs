//! The daemon's request dispatch.
//!
//! One request arrives per line on the local channel; `handle_command`
//! is the pure dispatch from a decoded request to the store operation
//! and the response, plus a flag telling the caller to shut down. The
//! channel itself — sockets, framing, JSON — stays with the caller.

use vstd::prelude::*;
use crate::message::SyncMessage;
use crate::store::{can_commit, EnvStorage, live_rows};

verus! {

/// A request from the command-line tool or the user interface.
pub enum IpcCommand {
    Get { key: String },
    SetValue { key: String, value: String },
    Delete { key: String },
    List,
    Peers,
    Sync,
    Shutdown,
}

/// The daemon's answer to one request.
pub enum IpcResponse {
    /// The value for a key, or nothing for an absent or deleted one.
    Value(Option<String>),
    /// The request was carried out.
    Success,
    /// The request failed; the text says why.
    Error(String),
    /// All live keys with their values.
    List(Vec<(String, String)>),
    /// The connected peers, as `(id, address)`.
    Peers(Vec<(String, String)>),
}

/// A pairwise copy of an `(id, address)` list.
fn clone_pairs(v: &Vec<(String, String)>) -> (r: Vec<(String, String)>)
    ensures
        r@ == v@,
{
    let mut r: Vec<(String, String)> = Vec::new();
    let n = v.len();
    let mut i: usize = 0;
    while i < n
        invariant
            0 <= i <= n,
            n == v@.len(),
            r@ =~= v@.take(i as int),
        decreases n - i,
    {
        r.push((v[i].0.clone(), v[i].1.clone()));
        proof {
            assert(r@ =~= v@.take(i as int + 1));
        }
        i = i + 1;
    }
    proof {
        assert(v@.take(n as int) =~= v@);
    }
    r
}

/// Dispatch one request against the store. Returns the response,
/// whether the daemon should shut down afterwards, and — for a
/// mutation that succeeded — the committed record, so that the caller
/// can broadcast exactly what was stored.
///
/// `Get` answers the live value or nothing, exactly as the store has
/// it. Mutations answer `Success` exactly when the store can commit —
/// only a key stuck at the largest timestamp refuses — and `Error`
/// otherwise. `Sync` is acknowledged without further work here; the
/// replay is the caller's step.
#[verifier::loop_isolation(false)]
pub fn handle_command(
    store: &mut EnvStorage,
    machine_id: &str,
    peers: &Vec<(String, String)>,
    cmd: IpcCommand,
) -> (r: (IpcResponse, bool, Option<SyncMessage>))
    requires
        old(store).wf(),
    ensures
        final(store).wf(),
        r.1 <==> cmd is Shutdown,
        match cmd {
            IpcCommand::Get { key } => {
                &&& final(store).contents() == old(store).contents()
                &&& r.2 is None
                &&& (r.0 matches IpcResponse::Value(o) && {
                    &&& o is Some <==> old(store).contents().contains_key(key@) && !old(
                        store,
                    ).contents()[key@].deleted
                    &&& (o matches Some(v) ==> v@ == old(store).contents()[key@].value)
                })
            },
            IpcCommand::SetValue { key, value } => {
                &&& r.0 is Success <==> can_commit(old(store).contents(), key@)
                &&& r.0 is Success || r.0 is Error
                &&& r.2 is Some <==> r.0 is Success
                &&& (r.2 matches Some(m) ==> {
                    &&& final(store).contents() == old(store).contents().insert(key@, m@)
                    &&& m@.key == key@
                    &&& m@.value == value@
                    &&& m@.machine_id == machine_id@
                    &&& !m@.deleted
                    &&& old(store).contents().contains_key(key@) ==> m@.timestamp > old(
                        store,
                    ).contents()[key@].timestamp
                })
                &&& (r.0 is Error ==> final(store).contents() == old(store).contents())
            },
            IpcCommand::Delete { key } => {
                &&& r.0 is Success <==> can_commit(old(store).contents(), key@)
                &&& r.0 is Success || r.0 is Error
                &&& r.2 is Some <==> r.0 is Success
                &&& (r.2 matches Some(m) ==> {
                    &&& final(store).contents() == old(store).contents().insert(key@, m@)
                    &&& m@.key == key@
                    &&& m@.machine_id == machine_id@
                    &&& m@.deleted
                    &&& old(store).contents().contains_key(key@) ==> m@.timestamp > old(
                        store,
                    ).contents()[key@].timestamp
                })
                &&& (r.0 is Error ==> final(store).contents() == old(store).contents())
            },
            IpcCommand::List => final(store).contents() == old(store).contents() && r.2 is None
                && (r.0 matches IpcResponse::List(pairs) && pairs@.len() == live_rows(
                old(store).rows_v(),
            ).len() && forall|i: int| 0 <= i < pairs@.len() ==> (#[trigger] pairs@[i]).0@
                == live_rows(old(store).rows_v())[i].key && pairs@[i].1@ == live_rows(
                old(store).rows_v(),
            )[i].value),
            IpcCommand::Peers => final(store).contents() == old(store).contents() && r.2 is None
                && (r.0 matches IpcResponse::Peers(ps) && ps@ == peers@),
            IpcCommand::Sync => final(store).contents() == old(store).contents()
                && r.0 is Success && r.2 is None,
            IpcCommand::Shutdown => final(store).contents() == old(store).contents()
                && r.0 is Success && r.2 is None,
        },
{
    match cmd {
        IpcCommand::Get { key } => {
            let r = match store.get(key.as_str()) {
                Some(t) => IpcResponse::Value(Some(t.0)),
                None => IpcResponse::Value(None),
            };
            (r, false, None)
        }
        IpcCommand::SetValue { key, value } => {
            match store.set(key.as_str(), value.as_str(), machine_id) {
                Ok(msg) => (IpcResponse::Success, false, Some(msg)),
                Err(e) => (IpcResponse::Error(e.describe()), false, None),
            }
        }
        IpcCommand::Delete { key } => {
            match store.delete(key.as_str(), machine_id) {
                Ok(msg) => (IpcResponse::Success, false, Some(msg)),
                Err(e) => (IpcResponse::Error(e.describe()), false, None),
            }
        }
        IpcCommand::List => {
            let entries = store.list_all();
            let mut pairs: Vec<(String, String)> = Vec::new();
            let n = entries.len();
            let mut i: usize = 0;
            while i < n
                invariant
                    0 <= i <= n,
                    n == entries@.len(),
                    pairs@.len() == i,
                    crate::store::entries_v(entries@) == crate::store::tuples_of(
                        live_rows(store.rows_v()),
                    ),
                    forall|j: int| 0 <= j < i ==> (#[trigger] pairs@[j]).0@ == live_rows(
                        store.rows_v(),
                    )[j].key && pairs@[j].1@ == live_rows(store.rows_v())[j].value,
                decreases n - i,
            {
                proof {
                    assert(crate::store::entries_v(entries@).len() == entries@.len());
                    assert(crate::store::tuples_of(live_rows(store.rows_v())).len()
                        == live_rows(store.rows_v()).len());
                    assert(i < live_rows(store.rows_v()).len());
                    assert(crate::store::entries_v(entries@)[i as int] == crate::store::tuples_of(
                        live_rows(store.rows_v()),
                    )[i as int]);
                    assert(crate::store::entries_v(entries@)[i as int]
                        == crate::store::entry_v(entries@[i as int]));
                    assert(crate::store::tuples_of(live_rows(store.rows_v()))[i as int]
                        == crate::store::row_tuple(live_rows(store.rows_v())[i as int]));
                }
                pairs.push((entries[i].0.clone(), entries[i].1.clone()));
                proof {
                    assert(pairs@[i as int].0@ == live_rows(store.rows_v())[i as int].key);
                    assert(pairs@[i as int].1@ == live_rows(store.rows_v())[i as int].value);
                }
                i = i + 1;
            }
            proof {
                assert(crate::store::entries_v(entries@).len() == entries@.len());
                assert(crate::store::tuples_of(live_rows(store.rows_v())).len() == live_rows(
                    store.rows_v(),
                ).len());
            }
            (IpcResponse::List(pairs), false, None)
        }
        IpcCommand::Peers => (IpcResponse::Peers(clone_pairs(peers)), false, None),
        IpcCommand::Sync => (IpcResponse::Success, false, None),
        IpcCommand::Shutdown => (IpcResponse::Success, true, None),
    }
}

} // verus!
