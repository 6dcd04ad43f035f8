//! The route of a job: the chain of agents it passes through, written as
//! their names joined by dots.

use vstd::prelude::*;
use crate::text::{
    join, join_text, lemma_split_concat, lemma_split_none, lemma_split_pieces, same_text, split,
    split_text, views,
};

verus! {

/// A chain of agent names in which every name is present.
pub open spec fn is_route(agents: Seq<Seq<char>>) -> bool {
    agents.len() >= 1 && forall|i: int| 0 <= i < agents.len() ==> (#[trigger] agents[i]).len() > 0
}

/// A chain as it is kept: at least one name, none holding the dot that
/// separates names.
pub open spec fn is_chain(agents: Seq<Seq<char>>) -> bool {
    agents.len() >= 1 && forall|i: int|
        0 <= i < agents.len() ==> !(#[trigger] agents[i]).contains('.')
}

/// What an agent does with a job that reaches it.
pub enum RouteView {
    /// The agent is the recipient: it runs the job.
    Deliver,
    /// The agent passes the job on to the named agent.
    Forward(Seq<char>),
}

/// The position of the first `agent` in `agents`, or their number if it is
/// not among them.
pub open spec fn position_of(agents: Seq<Seq<char>>, agent: Seq<char>) -> int
    decreases agents.len(),
{
    if agents.len() == 0 {
        0
    } else if agents[0] == agent {
        0
    } else {
        1 + position_of(agents.drop_first(), agent)
    }
}

/// What `agent` does with a job bound for `agents`: the last of the chain
/// runs it; another member passes it to the one behind it; an agent outside
/// the chain passes it to the first.
pub open spec fn route(agents: Seq<Seq<char>>, agent: Seq<char>) -> RouteView
    recommends
        agents.len() >= 1,
{
    let i = position_of(agents, agent);
    if agents.last() == agent {
        RouteView::Deliver
    } else if i + 1 < agents.len() {
        RouteView::Forward(agents[i + 1])
    } else {
        RouteView::Forward(agents[0])
    }
}

/// What an agent does with a job that reaches it.
#[derive(Debug, PartialEq, Eq)]
pub enum Route {
    /// The agent is the recipient: it runs the job.
    Deliver,
    /// The agent passes the job on to the named agent.
    Forward(String),
}

impl View for Route {
    type V = RouteView;

    open spec fn view(&self) -> RouteView {
        match self {
            Route::Deliver => RouteView::Deliver,
            Route::Forward(next) => RouteView::Forward(next@),
        }
    }
}

/// The chain of agents that a job passes through. The first is the next
/// hop, the last the recipient.
#[derive(Debug, PartialEq, Eq)]
pub struct Destination {
    agents: Vec<String>,
}

impl View for Destination {
    type V = Seq<Seq<char>>;

    closed spec fn view(&self) -> Seq<Seq<char>> {
        views(self.agents@)
    }
}

impl Clone for Destination {
    fn clone(&self) -> (r: Self)
        ensures
            r@ == self@,
    {
        proof {
            use_type_invariant(self);
        }
        let mut agents: Vec<String> = Vec::new();
        let mut i: usize = 0;
        while i < self.agents.len()
            invariant
                i <= self.agents.len(),
                views(agents@) == views(self.agents@).take(i as int),
            decreases self.agents.len() - i,
        {
            let ghost before = views(agents@);
            agents.push(self.agents[i].clone());
            proof {
                assert(views(agents@) =~= before.push(self.agents[i as int]@));
                assert(views(self.agents@).take(i + 1) =~= views(self.agents@).take(
                    i as int,
                ).push(self.agents[i as int]@));
            }
            i += 1;
        }
        proof {
            assert(views(self.agents@).take(self.agents.len() as int) =~= views(self.agents@));
        }
        Destination { agents }
    }
}

impl Destination {
    #[verifier::type_invariant]
    spec fn inv(self) -> bool {
        is_chain(self@)
    }

    /// Reads a dotted chain of agent names.
    pub fn new(destination: &str) -> (r: Self)
        ensures
            r@ == split(destination@, '.'),
            is_chain(r@),
    {
        let agents = split_text(destination, '.');
        proof {
            lemma_split_pieces(destination@, '.');
        }
        Destination { agents }
    }

    /// Whether every name of the chain is present.
    pub fn is_valid(&self) -> (r: bool)
        ensures
            r == is_route(self@),
            is_chain(self@),
    {
        proof {
            use_type_invariant(self);
        }
        let mut i: usize = 0;
        while i < self.agents.len()
            invariant
                i <= self.agents.len(),
                is_chain(self@),
                forall|j: int| 0 <= j < i ==> (#[trigger] self@[j]).len() > 0,
            decreases self.agents.len() - i,
        {
            if self.agents[i].as_str().unicode_len() == 0 {
                proof {
                    assert(self@[i as int].len() == 0);
                }
                return false;
            }
            i += 1;
        }
        true
    }

    /// The number of agents in the chain.
    pub fn len(&self) -> (n: usize)
        ensures
            n == self@.len(),
            n >= 1,
    {
        proof {
            use_type_invariant(self);
        }
        self.agents.len()
    }

    /// The name at position `i`.
    pub fn agent(&self, i: usize) -> (r: &str)
        requires
            i < self@.len(),
        ensures
            r@ == self@[i as int],
    {
        self.agents[i].as_str()
    }

    /// The next hop: the first name of the chain.
    pub fn first(&self) -> (r: &str)
        ensures
            r@ == self@.first(),
            is_chain(self@),
    {
        proof {
            use_type_invariant(self);
        }
        self.agents[0].as_str()
    }

    /// The recipient: the last name of the chain.
    pub fn last(&self) -> (r: &str)
        ensures
            r@ == self@.last(),
            is_chain(self@),
    {
        proof {
            use_type_invariant(self);
        }
        self.agents[self.agents.len() - 1].as_str()
    }

    /// What `agent` does with a job bound for this destination.
    pub fn route(&self, agent: &str) -> (r: Route)
        ensures
            r@ == route(self@, agent@),
            is_chain(self@),
    {
        proof {
            use_type_invariant(self);
        }
        let n = self.agents.len();
        if same_text(self.agents[n - 1].as_str(), agent) {
            return Route::Deliver;
        }
        let mut i: usize = 0;
        proof {
            assert(self@.skip(0) =~= self@);
        }
        while i < n && !same_text(self.agents[i].as_str(), agent)
            invariant
                i <= n,
                n == self.agents.len(),
                position_of(self@, agent@) == i + position_of(self@.skip(i as int), agent@),
            decreases n - i,
        {
            proof {
                assert(self@.skip(i as int)[0] == self@[i as int]);
                assert(self@.skip(i as int).drop_first() =~= self@.skip(i + 1));
            }
            i += 1;
        }
        proof {
            assert(i < n ==> self@.skip(i as int)[0] == self@[i as int]);
        }
        if i < n - 1 {
            Route::Forward(self.agents[i + 1].clone())
        } else {
            Route::Forward(self.agents[0].clone())
        }
    }

    /// The names joined by dots.
    pub fn to_string(&self) -> (r: String)
        ensures
            r@ == join(self@, '.'),
            is_chain(self@),
    {
        proof {
            use_type_invariant(self);
            assert(self@.skip(0) =~= self@);
        }
        join_text(&self.agents, 0, '.')
    }
}

/// Splitting what was joined gives the pieces back, where there is at least
/// one piece and none holds the separator.
pub proof fn law_split_join(parts: Seq<Seq<char>>, sep: char)
    requires
        parts.len() >= 1,
        forall|i: int| 0 <= i < parts.len() ==> !(#[trigger] parts[i]).contains(sep),
    ensures
        split(join(parts, sep), sep) == parts,
    decreases parts.len(),
{
    if parts.len() == 1 {
        lemma_split_none(parts[0], sep);
        assert(seq![parts[0]] =~= parts);
    } else {
        let rest = parts.drop_first();
        assert forall|i: int| 0 <= i < rest.len() implies !(#[trigger] rest[i]).contains(sep) by {
            assert(rest[i] == parts[i + 1]);
        }
        law_split_join(rest, sep);
        lemma_split_concat(parts[0], sep, join(rest, sep));
        assert(seq![parts[0]] + rest =~= parts);
    }
}

/// The textual form of a destination reads back as that destination.
pub proof fn law_destination_round_trip(agents: Seq<Seq<char>>)
    requires
        is_chain(agents),
    ensures
        split(join(agents, '.'), '.') == agents,
{
    law_split_join(agents, '.');
}

} // verus!
