//! Agents and peers: who takes part in the federation, under which name,
//! in which zone, and in which role.

use vstd::prelude::*;
use crate::job::{Job, JobView};
use crate::text::same_text;

verus! {

/// The role of an agent.
#[derive(Debug, Clone, Copy, PartialEq, Eq, Structural)]
pub enum Type {
    Portal,
    Provider,
    Account,
    Instance,
    Filesystem,
    Bridge,
}

/// A peer as a value: the name of the agent and its zone.
pub struct PeerView {
    pub name: Seq<char>,
    pub zone: Seq<char>,
}

impl PeerView {
    /// The peer as it is written: `name@zone`.
    pub open spec fn text(self) -> Seq<char> {
        self.name + seq!['@'] + self.zone
    }
}

/// The other end of a connection: an agent in a zone.
#[derive(Debug, PartialEq, Eq)]
pub struct Peer {
    name: String,
    zone: String,
}

impl View for Peer {
    type V = PeerView;

    closed spec fn view(&self) -> PeerView {
        PeerView { name: self.name@, zone: self.zone@ }
    }
}

impl Clone for Peer {
    fn clone(&self) -> (r: Self)
        ensures
            r@ == self@,
    {
        Peer { name: self.name.clone(), zone: self.zone.clone() }
    }
}

impl Peer {
    pub fn new(name: &str, zone: &str) -> (r: Self)
        ensures
            r@ == (PeerView { name: name@, zone: zone@ }),
    {
        Peer { name: name.to_owned(), zone: zone.to_owned() }
    }

    pub fn name(&self) -> (r: &str)
        ensures
            r@ == self@.name,
    {
        self.name.as_str()
    }

    pub fn zone(&self) -> (r: &str)
        ensures
            r@ == self@.zone,
    {
        self.zone.as_str()
    }

    /// Whether the two are the same agent in the same zone.
    pub fn is(&self, other: &Peer) -> (r: bool)
        ensures
            r == (self@ == other@),
    {
        same_text(self.name.as_str(), other.name.as_str()) && same_text(
            self.zone.as_str(),
            other.zone.as_str(),
        )
    }

    /// The peer as it is written: `name@zone`.
    pub fn to_string(&self) -> (r: String)
        ensures
            r@ == self@.text(),
    {
        let mut r = self.name.clone();
        r.push('@');
        r.append(self.zone.as_str());
        r
    }
}

/// An envelope as a value.
pub struct EnvelopeView {
    pub sender: PeerView,
    pub recipient: PeerView,
    pub job: JobView,
}

/// A job on its way from one peer to the next.
#[derive(Debug, PartialEq)]
pub struct Envelope {
    sender: Peer,
    recipient: Peer,
    job: Job,
}

impl View for Envelope {
    type V = EnvelopeView;

    closed spec fn view(&self) -> EnvelopeView {
        EnvelopeView { sender: self.sender@, recipient: self.recipient@, job: self.job@ }
    }
}

impl Envelope {
    pub fn new(sender: &Peer, recipient: &Peer, job: &Job) -> (r: Self)
        ensures
            r@ == (EnvelopeView { sender: sender@, recipient: recipient@, job: job@ }),
            r@.job.wf(),
    {
        Envelope { sender: sender.clone(), recipient: recipient.clone(), job: job.clone() }
    }

    pub fn sender(&self) -> (r: Peer)
        ensures
            r@ == self@.sender,
    {
        self.sender.clone()
    }

    pub fn recipient(&self) -> (r: Peer)
        ensures
            r@ == self@.recipient,
    {
        self.recipient.clone()
    }

    pub fn job(&self) -> (r: Job)
        ensures
            r@ == self@.job,
            r@.wf(),
    {
        self.job.clone()
    }
}

/// The first peer of role `role` among `agents`, in the order in which
/// they registered.
pub open spec fn first_of(agents: Seq<(PeerView, Type)>, role: Type) -> Option<PeerView>
    decreases agents.len(),
{
    if agents.len() == 0 {
        None
    } else if agents[0].1 == role {
        Some(agents[0].0)
    } else {
        first_of(agents.drop_first(), role)
    }
}

/// `agents` without the peer `peer`.
pub open spec fn others(agents: Seq<(PeerView, Type)>, peer: PeerView) -> Seq<(PeerView, Type)>
    decreases agents.len(),
{
    if agents.len() == 0 {
        Seq::empty()
    } else if agents.last().0 == peer {
        others(agents.drop_last(), peer)
    } else {
        others(agents.drop_last(), peer).push(agents.last())
    }
}

/// The views of registered agents.
pub open spec fn agent_views(agents: Seq<(Peer, Type)>) -> Seq<(PeerView, Type)> {
    Seq::new(agents.len(), |i: int| (agents[i].0@, agents[i].1))
}

/// Which peer plays which role: filled as peers announce themselves.
#[derive(Debug)]
pub struct Registry {
    agents: Vec<(Peer, Type)>,
}

impl View for Registry {
    type V = Seq<(PeerView, Type)>;

    closed spec fn view(&self) -> Seq<(PeerView, Type)> {
        agent_views(self.agents@)
    }
}

impl Registry {
    /// A registry that knows nobody.
    pub fn new() -> (r: Self)
        ensures
            r@.len() == 0,
    {
        Registry { agents: Vec::new() }
    }

    /// Notes that `peer` plays `role`. What was known of `peer` before is
    /// forgotten; the peer stands behind all others.
    pub fn register(&mut self, peer: &Peer, role: Type)
        ensures
            final(self)@ == others(old(self)@, peer@).push((peer@, role)),
    {
        self.remove(peer);
        let ghost before = self@;
        self.agents.push((peer.clone(), role));
        proof {
            assert(self@ =~= before.push((peer@, role)));
        }
    }

    /// Forgets `peer`.
    pub fn remove(&mut self, peer: &Peer)
        ensures
            final(self)@ == others(old(self)@, peer@),
    {
        let mut kept: Vec<(Peer, Type)> = Vec::new();
        let ghost all = self@;
        let mut i: usize = 0;
        while i < self.agents.len()
            invariant
                i <= self.agents.len(),
                all == agent_views(self.agents@),
                agent_views(kept@) == others(all.take(i as int), peer@),
            decreases self.agents.len() - i,
        {
            proof {
                assert(all.take(i + 1).drop_last() =~= all.take(i as int));
                assert(all.take(i + 1).last() == (self.agents[i as int].0@, self.agents[i as int].1));
            }
            if !self.agents[i].0.is(peer) {
                let ghost before = agent_views(kept@);
                kept.push((self.agents[i].0.clone(), self.agents[i].1));
                proof {
                    assert(agent_views(kept@) =~= before.push(
                        (self.agents[i as int].0@, self.agents[i as int].1),
                    ));
                }
            }
            i += 1;
        }
        proof {
            assert(all.take(self.agents.len() as int) =~= all);
        }
        self.agents = kept;
    }

    /// The first peer known to play `role`.
    pub fn find(&self, role: Type) -> (r: Option<Peer>)
        ensures
            match first_of(self@, role) {
                Some(peer) => r matches Some(p) && p@ == peer,
                None => r is None,
            },
    {
        let mut i: usize = 0;
        proof {
            assert(self@.skip(0) =~= self@);
        }
        while i < self.agents.len()
            invariant
                i <= self.agents.len(),
                first_of(self@, role) == first_of(self@.skip(i as int), role),
            decreases self.agents.len() - i,
        {
            proof {
                assert(self@.skip(i as int)[0] == (self.agents[i as int].0@, self.agents[i as int].1));
                assert(self@.skip(i as int).drop_first() =~= self@.skip(i + 1));
            }
            if self.agents[i].1 == role {
                return Some(self.agents[i].0.clone());
            }
            i += 1;
        }
        None
    }

    /// The first peer known to be the portal.
    pub fn portal(&self) -> (r: Option<Peer>)
        ensures
            match first_of(self@, Type::Portal) {
                Some(peer) => r matches Some(p) && p@ == peer,
                None => r is None,
            },
    {
        self.find(Type::Portal)
    }

    /// The first peer known to keep accounts.
    pub fn account(&self) -> (r: Option<Peer>)
        ensures
            match first_of(self@, Type::Account) {
                Some(peer) => r matches Some(p) && p@ == peer,
                None => r is None,
            },
    {
        self.find(Type::Account)
    }
}

} // verus!
