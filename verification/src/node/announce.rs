//! Which peers have been told where the node can be reached.

use vstd::prelude::*;

use crate::node::config;
use crate::node::config::PeerAddr;

verus! {

/// The peers that have been told.
#[derive(Debug)]
pub struct Announcements {
    told: Vec<PeerAddr>,
}

impl View for Announcements {
    type V = Set<PeerAddr>;

    closed spec fn view(&self) -> Set<PeerAddr> {
        self.told@.to_set()
    }
}

/// The peers that have not been told yet, in order.
pub open spec fn untold(peers: Seq<PeerAddr>, told: Set<PeerAddr>) -> Seq<PeerAddr>
    decreases peers.len(),
{
    if peers.len() == 0 {
        Seq::empty()
    } else if told.contains(peers.last()) {
        untold(peers.drop_last(), told)
    } else {
        untold(peers.drop_last(), told).push(peers.last())
    }
}

impl Announcements {
    /// Nobody has been told.
    pub fn new() -> (announcements: Self)
        ensures
            announcements@ == Set::<PeerAddr>::empty(),
    {
        let announcements: Announcements = Announcements { told: Vec::new() };
        assert(announcements@ =~= Set::<PeerAddr>::empty());
        announcements
    }

    /// The peers that have not been told yet, in order.
    pub fn pending(&self, peers: &[PeerAddr]) -> (pending: Vec<PeerAddr>)
        ensures
            pending@ == untold(peers@, self@),
    {
        let mut pending: Vec<PeerAddr> = Vec::new();
        let mut index: usize = 0;
        assert(peers@.take(0) =~= Seq::<PeerAddr>::empty());
        while index < peers.len()
            invariant
                index <= peers@.len(),
                pending@ == untold(peers@.take(index as int), self@),
            decreases peers@.len() - index,
        {
            if !config::holds_addr(self.told.as_slice(), peers[index]) {
                pending.push(peers[index]);
            }
            index += 1;
            assert(peers@.take(index as int).drop_last() =~= peers@.take(index - 1));
        }
        assert(peers@.take(index as int) =~= peers@);
        pending
    }

    /// Notes that a peer has been told.
    pub fn record(&mut self, peer: PeerAddr)
        ensures
            final(self)@ == old(self)@.insert(peer),
    {
        let ghost before: Seq<PeerAddr> = self.told@;
        self.told.push(peer);
        proof {
            let after: Seq<PeerAddr> = self.told@;
            assert(after =~= before.push(peer));
            assert forall|other: PeerAddr|
                after.to_set().contains(other) == before.to_set().insert(peer).contains(other) by {
                if before.contains(other) {
                    let i: int = choose|i: int| 0 <= i < before.len() && before[i] == other;
                    assert(after[i] == other);
                }
                if other == peer {
                    assert(after[before.len() as int] == peer);
                }
                if after.contains(other) {
                    let i: int = choose|i: int| 0 <= i < after.len() && after[i] == other;
                    if i < before.len() {
                        assert(before[i] == other);
                    }
                }
            }
            assert(after.to_set() =~= before.to_set().insert(peer));
        }
    }
}

/// A peer that has been told is not told again, and every other one still is.
pub proof fn lemma_told_once(peers: Seq<PeerAddr>, told: Set<PeerAddr>, peer: PeerAddr)
    ensures
        !untold(peers, told.insert(peer)).contains(peer),
        forall|other: PeerAddr|
            other != peer && #[trigger] untold(peers, told).contains(other) ==> untold(
                peers,
                told.insert(peer),
            ).contains(other),
    decreases peers.len(),
{
    if peers.len() > 0 {
        let rest: Seq<PeerAddr> = peers.drop_last();
        let before: Seq<PeerAddr> = untold(rest, told);
        let after: Seq<PeerAddr> = untold(rest, told.insert(peer));
        lemma_told_once(rest, told, peer);
        lemma_push_contains(before, peers.last());
        lemma_push_contains(after, peers.last());
    }
}

proof fn lemma_push_contains(addrs: Seq<PeerAddr>, last: PeerAddr)
    ensures
        forall|other: PeerAddr| #[trigger]
            addrs.push(last).contains(other) == (addrs.contains(other) || other == last),
{
    assert forall|other: PeerAddr| #[trigger]
        addrs.push(last).contains(other) == (addrs.contains(other) || other == last) by {
        let longer: Seq<PeerAddr> = addrs.push(last);
        if longer.contains(other) {
            let i: int = choose|i: int| 0 <= i < longer.len() && longer[i] == other;
            if i < addrs.len() {
                assert(addrs[i] == other);
            }
        }
        if addrs.contains(other) {
            let i: int = choose|i: int| 0 <= i < addrs.len() && addrs[i] == other;
            assert(longer[i] == other);
        }
        if other == last {
            assert(longer[addrs.len() as int] == other);
        }
    }
}

} // verus!
