//! The client side of a connection: whom to dial, and what to do when the
//! session ends.

use vstd::prelude::*;
use crate::config::{PeerConfig, PeerConfigView, ServiceConfig, ServiceConfigView};

verus! {

/// How long the client rests before it dials again, in seconds.
pub const RETRY_SECONDS: u64 = 5;

/// What can go wrong before a connection is made.
#[derive(Debug, PartialEq, Eq)]
pub enum ClientError {
    /// The service or the peer has no name.
    UnknownPeer(String),
    /// The connection ended with this message.
    Connection(String),
}

/// A connection to make: from the service of this name to the peer of that
/// name.
#[derive(Debug, PartialEq, Eq)]
pub struct Dial {
    pub service: String,
    pub peer: String,
}

impl Clone for Dial {
    fn clone(&self) -> (r: Self)
        ensures
            r.service@ == self.service@,
            r.peer@ == self.peer@,
    {
        Dial { service: self.service.clone(), peer: self.peer.clone() }
    }
}

/// The connection that `run_once` makes, where service and peer are named.
pub open spec fn dial(config: ServiceConfigView, peer: PeerConfigView) -> Option<
    (Seq<char>, Seq<char>),
> {
    if config.name.len() == 0 {
        None
    } else {
        match peer.name() {
            Some(name) => if name.len() == 0 {
                None
            } else {
                Some((config.name, name))
            },
            None => None,
        }
    }
}

/// The connection to make from the service to `peer`. Refused with
/// `UnknownPeer` where the service or the peer has no name.
pub fn run_once(config: &ServiceConfig, peer: &PeerConfig) -> (r: Result<Dial, ClientError>)
    ensures
        match dial(config@, peer@) {
            Some((service, name)) => r matches Ok(d) && d.service@ == service && d.peer@ == name,
            None => r matches Err(ClientError::UnknownPeer(_)),
        },
{
    let service = config.name();
    if service.as_str().unicode_len() == 0 {
        return Err(
            ClientError::UnknownPeer("Cannot connect as service must have a name".to_owned()),
        );
    }
    match peer.name() {
        Some(name) => {
            if name.as_str().unicode_len() == 0 {
                return Err(
                    ClientError::UnknownPeer("Cannot connect as peer must have a name".to_owned()),
                );
            }
            Ok(Dial { service, peer: name })
        },
        None => Err(ClientError::UnknownPeer("Cannot connect as peer must have a name".to_owned())),
    }
}

/// Where the client stands.
#[derive(Debug, Clone, Copy, PartialEq, Eq, Structural)]
pub enum Phase {
    /// About to dial.
    Ready,
    /// In session, or dialling.
    Connected,
    /// Resting before the next attempt.
    Resting,
}

/// What happened to the client.
#[derive(Debug, Clone, Copy, PartialEq, Eq, Structural)]
pub enum Event {
    /// Time to start, or the rest is over.
    Wake,
    /// The session ended, well or badly.
    Ended,
}

/// What the client does next.
#[derive(Debug, PartialEq, Eq)]
pub enum Action {
    /// Make this connection and stay in it until it ends.
    Connect(Dial),
    /// Rest for so many seconds.
    Sleep(u64),
    /// Nothing: the event does not belong to the phase.
    Idle,
}

/// The phase that follows: a client that wakes dials if it can and rests
/// if it cannot; one whose session ends rests; and so on without end.
pub open spec fn next_phase(
    phase: Phase,
    event: Event,
    config: ServiceConfigView,
    peer: PeerConfigView,
) -> Phase {
    match (phase, event) {
        (Phase::Ready, Event::Wake) | (Phase::Resting, Event::Wake) => if dial(config, peer)
            is Some {
            Phase::Connected
        } else {
            Phase::Resting
        },
        (Phase::Connected, Event::Ended) => Phase::Resting,
        _ => phase,
    }
}

/// One step of the client that keeps a connection up: it dials when it
/// wakes, and after any end of a session, and after a refused attempt, it
/// rests for five seconds and dials again.
pub fn run(phase: Phase, event: Event, config: &ServiceConfig, peer: &PeerConfig) -> (r: (
    Phase,
    Action,
))
    ensures
        r.0 == next_phase(phase, event, config@, peer@),
        match (phase, event) {
            (Phase::Ready, Event::Wake) | (Phase::Resting, Event::Wake) => match dial(
                config@,
                peer@,
            ) {
                Some((service, name)) => r.1 matches Action::Connect(d) && d.service@ == service
                    && d.peer@ == name,
                None => r.1 == Action::Sleep(RETRY_SECONDS),
            },
            (Phase::Connected, Event::Ended) => r.1 == Action::Sleep(RETRY_SECONDS),
            _ => r.1 == Action::Idle,
        },
{
    match (phase, event) {
        (Phase::Ready, Event::Wake) | (Phase::Resting, Event::Wake) => match run_once(
            config,
            peer,
        ) {
            Ok(dial) => (Phase::Connected, Action::Connect(dial)),
            Err(_) => (Phase::Resting, Action::Sleep(RETRY_SECONDS)),
        },
        (Phase::Connected, Event::Ended) => (Phase::Resting, Action::Sleep(RETRY_SECONDS)),
        _ => (phase, Action::Idle),
    }
}

/// A client never stops: whatever phase it is in, some event moves it on,
/// and no step leaves it without a next one.
pub proof fn law_client_keeps_trying(
    phase: Phase,
    config: ServiceConfigView,
    peer: PeerConfigView,
)
    ensures
        phase == Phase::Connected ==> next_phase(phase, Event::Ended, config, peer)
            == Phase::Resting,
        phase != Phase::Connected ==> next_phase(phase, Event::Wake, config, peer) != Phase::Ready,
        dial(config, peer) is Some ==> next_phase(Phase::Resting, Event::Wake, config, peer)
            == Phase::Connected,
{
}

} // verus!
