//! The exchange: which peers are connected right now.

use vstd::prelude::*;
use crate::agent::{Peer, PeerView};

verus! {

/// What can go wrong at the exchange.
#[derive(Debug, PartialEq, Eq)]
pub enum Error {
    /// The peer is not connected.
    NotConnected(String),
}

/// The views of a sequence of peers.
pub open spec fn peer_views(peers: Seq<Peer>) -> Seq<PeerView> {
    Seq::new(peers.len(), |i: int| peers[i]@)
}

/// `peers` without `peer`.
pub open spec fn peers_without(peers: Seq<PeerView>, peer: PeerView) -> Seq<PeerView>
    decreases peers.len(),
{
    if peers.len() == 0 {
        Seq::empty()
    } else if peers.last() == peer {
        peers_without(peers.drop_last(), peer)
    } else {
        peers_without(peers.drop_last(), peer).push(peers.last())
    }
}

/// The peers that are connected, in the order in which they connected.
#[derive(Debug)]
pub struct Exchange {
    peers: Vec<Peer>,
}

impl View for Exchange {
    type V = Seq<PeerView>;

    closed spec fn view(&self) -> Seq<PeerView> {
        peer_views(self.peers@)
    }
}

impl Exchange {
    /// An exchange to which nobody is connected.
    pub fn new() -> (r: Self)
        ensures
            r@.len() == 0,
    {
        Exchange { peers: Vec::new() }
    }

    /// Whether `peer` is connected.
    pub fn is_connected(&self, peer: &Peer) -> (r: bool)
        ensures
            r == self@.contains(peer@),
    {
        let mut i: usize = 0;
        while i < self.peers.len()
            invariant
                i <= self.peers.len(),
                forall|k: int| 0 <= k < i ==> self@[k] != peer@,
            decreases self.peers.len() - i,
        {
            if self.peers[i].is(peer) {
                proof {
                    assert(self@[i as int] == peer@);
                }
                return true;
            }
            i += 1;
        }
        false
    }

    /// Notes that `peer` is connected, as after a handshake. A peer that
    /// was connected before counts as newly connected.
    pub fn register(&mut self, peer: &Peer)
        ensures
            final(self)@ == peers_without(old(self)@, peer@).push(peer@),
    {
        self.unregister(peer);
        let ghost before = self@;
        self.peers.push(peer.clone());
        proof {
            assert(self@ =~= before.push(peer@));
        }
    }

    /// Notes that `peer` is not connected any more.
    pub fn unregister(&mut self, peer: &Peer)
        ensures
            final(self)@ == peers_without(old(self)@, peer@),
    {
        let mut kept: Vec<Peer> = Vec::new();
        let ghost all = self@;
        let mut i: usize = 0;
        while i < self.peers.len()
            invariant
                i <= self.peers.len(),
                all == peer_views(self.peers@),
                peer_views(kept@) == peers_without(all.take(i as int), peer@),
            decreases self.peers.len() - i,
        {
            proof {
                assert(all.take(i + 1).drop_last() =~= all.take(i as int));
                assert(all.take(i + 1).last() == self.peers[i as int]@);
            }
            if !self.peers[i].is(peer) {
                let ghost before = peer_views(kept@);
                kept.push(self.peers[i].clone());
                proof {
                    assert(peer_views(kept@) =~= before.push(self.peers[i as int]@));
                }
            }
            i += 1;
        }
        proof {
            assert(all.take(self.peers.len() as int) =~= all);
        }
        self.peers = kept;
    }

    /// Whether a message can be sent to `peer`: `NotConnected` where it is
    /// not connected.
    pub fn send(&self, peer: &Peer) -> (r: Result<(), Error>)
        ensures
            r is Ok <==> self@.contains(peer@),
    {
        if self.is_connected(peer) {
            Ok(())
        } else {
            Err(Error::NotConnected(peer.to_string()))
        }
    }
}

/// A peer that was taken away is not there, and a peer that registered is.
pub proof fn law_unregistered_is_gone(peers: Seq<PeerView>, peer: PeerView)
    ensures
        !peers_without(peers, peer).contains(peer),
        peers_without(peers, peer).push(peer).contains(peer),
    decreases peers.len(),
{
    let r = peers_without(peers, peer);
    if peers.len() > 0 {
        let init = peers.drop_last();
        law_unregistered_is_gone(init, peer);
        let ri = peers_without(init, peer);
        if r.contains(peer) {
            let k = choose|k: int| 0 <= k < r.len() && r[k] == peer;
            if k < ri.len() {
                assert(ri[k] == peer);
            }
        }
    }
    assert(r.push(peer)[r.len() as int] == peer);
}

} // verus!
