//! LAN leader election.
//!
//! Every node announces itself under an election namespace and collects
//! the ids of the other candidates; the node whose id is lexicographically
//! greatest concludes it should become the LAN server. Ids are unique, so
//! at most one candidate can conclude that in a round where the
//! candidates see each other.

use vstd::prelude::*;
use crate::strorder::{str_lt, str_less, lemma_str_lt_trichotomy};

verus! {

/// Spec-level image of a `ServerInfo`.
pub ghost struct ServerInfoV {
    pub peer_id: Seq<char>,
    pub address: Seq<char>,
    pub port: int,
}

/// An announced LAN server: who, where, and on which port.
#[derive(Debug, Clone)]
pub struct ServerInfo {
    pub peer_id: String,
    pub address: String,
    pub port: u16,
}

impl View for ServerInfo {
    type V = ServerInfoV;

    open spec fn view(&self) -> ServerInfoV {
        ServerInfoV { peer_id: self.peer_id@, address: self.address@, port: self.port as int }
    }
}

/// One node's view of an election round.
pub struct Election {
    pub my_peer_id: String,
    pub election_timeout_secs: u64,
}

/// The election rule: a node wins iff every id it observed is strictly
/// below its own. An empty round is won outright.
pub open spec fn wins_election(my: Seq<char>, candidates: Seq<Seq<char>>) -> bool {
    forall|i: int| 0 <= i < candidates.len() ==> str_lt(#[trigger] candidates[i], my)
}

impl Election {
    /// A fresh election round for this node, with the default
    /// three-second announcement window.
    pub fn new(peer_id: String) -> (r: Election)
        ensures
            r.my_peer_id@ == peer_id@,
            r.election_timeout_secs == 3,
    {
        Election { my_peer_id: peer_id, election_timeout_secs: 3 }
    }

    /// Decide the round from the observed candidate ids: become the
    /// server iff this node's id is above every one of them.
    pub fn should_become_server(&self, candidates: &Vec<String>) -> (r: bool)
        ensures
            r == wins_election(self.my_peer_id@, candidates@.map_values(|c: String| c@)),
    {
        let ghost ids = candidates@.map_values(|c: String| c@);
        let n = candidates.len();
        let mut i: usize = 0;
        while i < n
            invariant
                0 <= i <= n,
                n == ids.len(),
                ids == candidates@.map_values(|c: String| c@),
                forall|j: int| 0 <= j < i ==> str_lt(#[trigger] ids[j], self.my_peer_id@),
            decreases n - i,
        {
            if !str_less(candidates[i].as_str(), self.my_peer_id.as_str()) {
                proof {
                    assert(ids[i as int] == candidates@[i as int]@);
                    assert(!str_lt(ids[i as int], self.my_peer_id@));
                }
                return false;
            }
            i = i + 1;
        }
        true
    }
}

/// Determinism of the election: two candidates that each observe the
/// other can never both win a round, whatever else they saw.
pub proof fn lemma_at_most_one_winner(
    a: Seq<char>,
    seen_by_a: Seq<Seq<char>>,
    b: Seq<char>,
    seen_by_b: Seq<Seq<char>>,
)
    requires
        seen_by_a.contains(b),
        seen_by_b.contains(a),
    ensures
        !(wins_election(a, seen_by_a) && wins_election(b, seen_by_b)),
{
    if wins_election(a, seen_by_a) && wins_election(b, seen_by_b) {
        let i = choose|i: int| 0 <= i < seen_by_a.len() && seen_by_a[i] == b;
        let j = choose|j: int| 0 <= j < seen_by_b.len() && seen_by_b[j] == a;
        assert(str_lt(b, a) && str_lt(a, b));
        lemma_str_lt_trichotomy(a, b);
    }
}

/// Liveness of a two-candidate round: when each sees exactly the other,
/// one of the two wins.
pub proof fn lemma_two_candidates_one_wins(a: Seq<char>, b: Seq<char>)
    requires
        a != b,
    ensures
        wins_election(a, seq![b]) || wins_election(b, seq![a]),
        !(wins_election(a, seq![b]) && wins_election(b, seq![a])),
{
    lemma_str_lt_trichotomy(a, b);
    if str_lt(b, a) {
        assert(seq![b][0] == b);
        assert(wins_election(a, seq![b]));
    } else {
        assert(str_lt(a, b));
        assert(seq![a][0] == a);
        assert(wins_election(b, seq![a]));
    }
    assert(seq![b].contains(b)) by {
        assert(seq![b][0] == b);
    }
    assert(seq![a].contains(a)) by {
        assert(seq![a][0] == a);
    }
    lemma_at_most_one_winner(a, seq![b], b, seq![a]);
}

/// Relies on uuid's `Uuid::new_v4` and its `Display` form: a fresh
/// random identifier in the hyphenated format, which is 36 characters
/// long. Randomness makes the value itself unpredictable, so only the
/// length is stated.
#[verifier::external_body]
pub fn generate_peer_id() -> (r: String)
    ensures
        r@.len() == 36,
{
    uuid::Uuid::new_v4().to_string()
}

} // verus!
