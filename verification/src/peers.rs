//! The peer registry behind the gossip fabric.
//!
//! The network pump hands every fabric event in as a plain value:
//! a payload arrived, a peer appeared with an address, or a peer
//! expired. The registry keeps one `(id, address)` entry per peer and
//! hands payloads back to be applied to the store.

use vstd::prelude::*;
use crate::strorder::str_equal;

verus! {

/// One fabric event, as plain values.
pub enum PeerEvent {
    /// A broadcast payload arrived.
    MessageReceived { data: Vec<u8> },
    /// A peer announced itself at an address.
    PeerDiscovered { id: String, address: String },
    /// A peer's announcement lapsed.
    PeerExpired { id: String },
    /// Anything else: connection chatter with no effect here.
    Other,
}

/// The first position of `id` in the entries, or -1.
pub open spec fn index_of_id(ps: Seq<(Seq<char>, Seq<char>)>, id: Seq<char>) -> int
    decreases ps.len(),
{
    if ps.len() == 0 {
        -1
    } else if ps[0].0 == id {
        0
    } else {
        let r = index_of_id(ps.drop_first(), id);
        if r < 0 {
            -1
        } else {
            r + 1
        }
    }
}

/// The first position of an id is an entry carrying it, with none
/// before; -1 means no entry carries it.
pub proof fn lemma_index_of_id(ps: Seq<(Seq<char>, Seq<char>)>, id: Seq<char>)
    ensures
        index_of_id(ps, id) >= 0 ==> index_of_id(ps, id) < ps.len() && ps[index_of_id(
            ps,
            id,
        )].0 == id && forall|j: int| 0 <= j < index_of_id(ps, id) ==> (#[trigger] ps[j]).0 != id,
        index_of_id(ps, id) < 0 ==> forall|j: int| 0 <= j < ps.len() ==> (#[trigger] ps[j]).0
            != id,
    decreases ps.len(),
{
    if ps.len() > 0 && ps[0].0 != id {
        lemma_index_of_id(ps.drop_first(), id);
        let fd = index_of_id(ps.drop_first(), id);
        if fd >= 0 {
            assert(ps.drop_first()[fd] == ps[fd + 1]);
            assert forall|j: int| 0 <= j < fd + 1 implies (#[trigger] ps[j]).0 != id by {
                if j > 0 {
                    assert(ps.drop_first()[j - 1] == ps[j]);
                }
            }
        } else {
            assert forall|j: int| 0 <= j < ps.len() implies (#[trigger] ps[j]).0 != id by {
                if j > 0 {
                    assert(ps.drop_first()[j - 1] == ps[j]);
                }
            }
        }
    }
}

/// The connected peers: one `(id, address)` entry per peer id.
pub struct PeerRegistry {
    entries: Vec<(String, String)>,
}

impl PeerRegistry {
    /// The entries, at the spec level.
    pub closed spec fn peers_v(&self) -> Seq<(Seq<char>, Seq<char>)> {
        self.entries@.map_values(|p: (String, String)| (p.0@, p.1@))
    }

    /// Well-formedness: ids are pairwise distinct.
    pub closed spec fn wf(&self) -> bool {
        forall|i: int, j: int| 0 <= i < j < self.peers_v().len() ==> (#[trigger] self.peers_v()[i]).0
            != (#[trigger] self.peers_v()[j]).0
    }

    /// An empty registry.
    pub fn new() -> (r: PeerRegistry)
        ensures
            r.wf(),
            r.peers_v() == Seq::<(Seq<char>, Seq<char>)>::empty(),
    {
        let r = PeerRegistry { entries: Vec::new() };
        proof {
            assert(r.peers_v() =~= Seq::<(Seq<char>, Seq<char>)>::empty());
        }
        r
    }

    /// The position of `id` among the entries, if any.
    #[verifier::loop_isolation(false)]
    fn find(&self, id: &str) -> (r: Option<usize>)
        ensures
            match r {
                Some(i) => i as int == index_of_id(self.peers_v(), id@),
                None => index_of_id(self.peers_v(), id@) < 0,
            },
    {
        proof {
            lemma_index_of_id(self.peers_v(), id@);
        }
        let n = self.entries.len();
        let mut i: usize = 0;
        while i < n && !str_equal(self.entries[i].0.as_str(), id)
            invariant
                0 <= i <= n,
                n == self.peers_v().len(),
                forall|j: int| 0 <= j < i ==> (#[trigger] self.peers_v()[j]).0 != id@,
            decreases n - i,
        {
            i = i + 1;
        }
        let ghost fi = index_of_id(self.peers_v(), id@);
        if i >= n {
            proof {
                if fi >= 0 {
                    assert(self.peers_v()[fi].0 == id@);
                }
            }
            None
        } else {
            proof {
                assert(self.peers_v()[i as int].0 == id@);
                if fi != i {
                    if fi < 0 || fi > i {
                        assert(self.peers_v()[i as int].0 == id@);
                        assert(false);
                    } else {
                        assert(self.peers_v()[fi].0 == id@);
                        assert(false);
                    }
                }
            }
            Some(i)
        }
    }

    /// Apply one fabric event: a payload is handed back untouched, a
    /// discovery upserts the peer's address, an expiry removes the
    /// peer, and anything else changes nothing.
    pub fn apply_event(&mut self, event: PeerEvent) -> (r: Option<Vec<u8>>)
        requires
            old(self).wf(),
        ensures
            final(self).wf(),
            match event {
                PeerEvent::MessageReceived { data } => r == Some(data) && final(self).peers_v()
                    == old(self).peers_v(),
                PeerEvent::PeerDiscovered { id, address } => r is None && {
                    let i = index_of_id(old(self).peers_v(), id@);
                    if i >= 0 {
                        final(self).peers_v() == old(self).peers_v().update(i, (id@, address@))
                    } else {
                        final(self).peers_v() == old(self).peers_v().push((id@, address@))
                    }
                },
                PeerEvent::PeerExpired { id } => r is None && {
                    let i = index_of_id(old(self).peers_v(), id@);
                    if i >= 0 {
                        final(self).peers_v() == old(self).peers_v().remove(i)
                    } else {
                        final(self).peers_v() == old(self).peers_v()
                    }
                },
                PeerEvent::Other => r is None && final(self).peers_v() == old(self).peers_v(),
            },
    {
        match event {
            PeerEvent::MessageReceived { data } => Some(data),
            PeerEvent::PeerDiscovered { id, address } => {
                proof {
                    lemma_index_of_id(self.peers_v(), id@);
                }
                match self.find(id.as_str()) {
                    Some(i) => {
                        self.entries[i] = (id, address);
                        proof {
                            let old_v = old(self).peers_v();
                            assert(self.peers_v() =~= old_v.update(i as int, (id@, address@)));
                            assert forall|p: int, q: int|
                                0 <= p < q < self.peers_v().len() implies (
                            #[trigger] self.peers_v()[p]).0 != (#[trigger] self.peers_v()[q]).0 by {
                                assert(self.peers_v()[p].0 == old_v[p].0);
                                assert(self.peers_v()[q].0 == old_v[q].0);
                            }
                        }
                    }
                    None => {
                        self.entries.push((id, address));
                        proof {
                            let old_v = old(self).peers_v();
                            assert(self.peers_v() =~= old_v.push((id@, address@)));
                            assert forall|p: int, q: int|
                                0 <= p < q < self.peers_v().len() implies (
                            #[trigger] self.peers_v()[p]).0 != (#[trigger] self.peers_v()[q]).0 by {
                                if q == old_v.len() {
                                    assert(self.peers_v()[p].0 == old_v[p].0);
                                    assert(old_v[p].0 != id@);
                                } else {
                                    assert(self.peers_v()[p].0 == old_v[p].0);
                                    assert(self.peers_v()[q].0 == old_v[q].0);
                                }
                            }
                        }
                    }
                }
                None
            }
            PeerEvent::PeerExpired { id } => {
                proof {
                    lemma_index_of_id(self.peers_v(), id@);
                }
                match self.find(id.as_str()) {
                    Some(i) => {
                        self.entries.remove(i);
                        proof {
                            let old_v = old(self).peers_v();
                            assert(self.peers_v() =~= old_v.remove(i as int));
                            assert forall|p: int, q: int|
                                0 <= p < q < self.peers_v().len() implies (
                            #[trigger] self.peers_v()[p]).0 != (#[trigger] self.peers_v()[q]).0 by {
                                let p0: int = if p < i { p } else { p + 1 };
                                let q0: int = if q < i { q } else { q + 1 };
                                assert(self.peers_v()[p].0 == old_v[p0].0);
                                assert(self.peers_v()[q].0 == old_v[q0].0);
                            }
                        }
                    }
                    None => {}
                }
                None
            }
            PeerEvent::Other => None,
        }
    }

    /// The connected peers as `(id, address)` pairs.
    pub fn get_connected_peers(&self) -> (r: Vec<(String, String)>)
        ensures
            r@.len() == self.peers_v().len(),
            forall|i: int| 0 <= i < r@.len() ==> ((#[trigger] r@[i]).0@, r@[i].1@)
                == self.peers_v()[i],
    {
        let mut r: Vec<(String, String)> = Vec::new();
        let n = self.entries.len();
        let mut i: usize = 0;
        while i < n
            invariant
                0 <= i <= n,
                n == self.peers_v().len(),
                n == self.entries@.len(),
                r@.len() == i,
                forall|j: int| 0 <= j < i ==> ((#[trigger] r@[j]).0@, r@[j].1@)
                    == self.peers_v()[j],
            decreases n - i,
        {
            r.push((self.entries[i].0.clone(), self.entries[i].1.clone()));
            proof {
                assert((r@[i as int].0@, r@[i as int].1@) == self.peers_v()[i as int]);
            }
            i = i + 1;
        }
        r
    }
}

} // verus!
