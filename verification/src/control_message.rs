//! Control messages: what a connection says about itself, and what the
//! agent does about it.

use vstd::prelude::*;
use crate::agent::{Peer, PeerView, Type};
use crate::text::{
    after_first, before_first, find_from, lemma_index_of, lemma_split_concat, same_text, substring,
    to_chars,
};

verus! {

/// What a connection reports.
#[derive(Debug, PartialEq, Eq)]
pub enum ControlCommand {
    /// The handshake with the agent succeeded.
    Connected { agent: String, zone: String },
    /// The session with the agent has ended.
    Disconnected { agent: String, zone: String },
    /// Something went wrong that does not end the session.
    Error { error: String },
}

/// What the agent does about a control message, step by step.
#[derive(Debug, PartialEq, Eq)]
pub enum ControlAction {
    /// Tell the peer which role this agent plays.
    Register { peer: Peer, role: Type },
    /// Send the peer the snapshot of the board kept for it.
    SyncBoard { peer: Peer },
    /// Send the peer the jobs that were held back for it.
    SendQueued { peer: Peer },
    /// Drop the live connection to the peer; its board is kept.
    Release { peer: Peer },
    /// Write the error to the log.
    Report { error: String },
}

/// A control action as a value.
pub enum ControlActionView {
    Register { peer: PeerView, role: Type },
    SyncBoard { peer: PeerView },
    SendQueued { peer: PeerView },
    Release { peer: PeerView },
    Report { error: Seq<char> },
}

impl View for ControlAction {
    type V = ControlActionView;

    open spec fn view(&self) -> ControlActionView {
        match self {
            ControlAction::Register { peer, role } => ControlActionView::Register {
                peer: peer@,
                role: *role,
            },
            ControlAction::SyncBoard { peer } => ControlActionView::SyncBoard { peer: peer@ },
            ControlAction::SendQueued { peer } => ControlActionView::SendQueued { peer: peer@ },
            ControlAction::Release { peer } => ControlActionView::Release { peer: peer@ },
            ControlAction::Report { error } => ControlActionView::Report { error: error@ },
        }
    }
}

/// The views of a sequence of actions.
pub open spec fn action_views(actions: Seq<ControlAction>) -> Seq<ControlActionView> {
    Seq::new(actions.len(), |i: int| actions[i]@)
}

/// What an agent of role `role` does about `command`. On a connection: it
/// registers with the peer, then sends the board, then what was held back,
/// in that order. On a disconnection: it drops the connection and keeps
/// the board. On an error: it reports it.
pub open spec fn control_actions(role: Type, command: ControlCommand) -> Seq<ControlActionView> {
    match command {
        ControlCommand::Connected { agent, zone } => {
            let peer = PeerView { name: agent@, zone: zone@ };
            seq![
                ControlActionView::Register { peer, role },
                ControlActionView::SyncBoard { peer },
                ControlActionView::SendQueued { peer },
            ]
        },
        ControlCommand::Disconnected { agent, zone } => seq![
            ControlActionView::Release { peer: PeerView { name: agent@, zone: zone@ } },
        ],
        ControlCommand::Error { error } => seq![ControlActionView::Report { error: error@ }],
    }
}

/// What an agent of role `agent_type` does about `command`.
pub fn process_control_message(agent_type: &Type, command: ControlCommand) -> (r: Vec<
    ControlAction,
>)
    ensures
        action_views(r@) == control_actions(*agent_type, command),
{
    let mut r: Vec<ControlAction> = Vec::new();
    match command {
        ControlCommand::Connected { agent, zone } => {
            let peer = Peer::new(agent.as_str(), zone.as_str());
            r.push(ControlAction::Register { peer: peer.clone(), role: *agent_type });
            r.push(ControlAction::SyncBoard { peer: peer.clone() });
            r.push(ControlAction::SendQueued { peer });
        },
        ControlCommand::Disconnected { agent, zone } => {
            let peer = Peer::new(agent.as_str(), zone.as_str());
            r.push(ControlAction::Release { peer });
        },
        ControlCommand::Error { error } => {
            r.push(ControlAction::Report { error });
        },
    }
    proof {
        assert(action_views(r@) =~= control_actions(*agent_type, command));
    }
    r
}

/// What one agent tells another about itself over their connection.
#[derive(Debug, PartialEq, Eq)]
pub enum PeerCommand {
    /// The sender plays this role.
    Register(Type),
    /// Something went wrong at the sender that does not end the session.
    Error(String),
}

/// What one agent tells another, as a value.
pub enum PeerCommandView {
    Register(Type),
    Error(Seq<char>),
}

impl View for PeerCommand {
    type V = PeerCommandView;

    open spec fn view(&self) -> PeerCommandView {
        match self {
            PeerCommand::Register(role) => PeerCommandView::Register(*role),
            PeerCommand::Error(error) => PeerCommandView::Error(error@),
        }
    }
}

/// The name of a role as it is written.
pub open spec fn role_text(role: Type) -> Seq<char> {
    match role {
        Type::Portal => "portal"@,
        Type::Provider => "provider"@,
        Type::Account => "account"@,
        Type::Instance => "instance"@,
        Type::Filesystem => "filesystem"@,
        Type::Bridge => "bridge"@,
    }
}

/// The role that a name denotes.
pub open spec fn role_of(text: Seq<char>) -> Option<Type> {
    if text == "portal"@ {
        Some(Type::Portal)
    } else if text == "provider"@ {
        Some(Type::Provider)
    } else if text == "account"@ {
        Some(Type::Account)
    } else if text == "instance"@ {
        Some(Type::Instance)
    } else if text == "filesystem"@ {
        Some(Type::Filesystem)
    } else if text == "bridge"@ {
        Some(Type::Bridge)
    } else {
        None
    }
}

/// What an agent tells another, as it is written: the verb, a space, and
/// what the verb is about.
pub open spec fn peer_command_text(command: PeerCommandView) -> Seq<char> {
    match command {
        PeerCommandView::Register(role) => "register"@ + seq![' '] + role_text(role),
        PeerCommandView::Error(error) => "error"@ + seq![' '] + error,
    }
}

/// What a text tells: the verb is what precedes the first space. Nothing
/// where the verb is unknown or the role is.
pub open spec fn parse_peer_command(text: Seq<char>) -> Option<PeerCommandView> {
    let verb = before_first(text, ' ');
    let rest = after_first(text, ' ');
    if verb == "register"@ {
        match role_of(rest) {
            Some(role) => Some(PeerCommandView::Register(role)),
            None => None,
        }
    } else if verb == "error"@ {
        Some(PeerCommandView::Error(rest))
    } else {
        None
    }
}

/// What the names of the roles and the two verbs are, character by
/// character: no two names are the same, and no verb holds a space.
proof fn lemma_names()
    ensures
        "portal"@.len() == 6 && "portal"@[0] == 'p',
        "provider"@.len() == 8 && "provider"@[0] == 'p',
        "account"@.len() == 7,
        "instance"@.len() == 8 && "instance"@[0] == 'i',
        "filesystem"@.len() == 10,
        "bridge"@.len() == 6 && "bridge"@[0] == 'b',
        !"register"@.contains(' '),
        !"error"@.contains(' '),
        "register"@.len() == 8,
        "error"@.len() == 5,
{
    reveal_strlit("portal");
    reveal_strlit("provider");
    reveal_strlit("account");
    reveal_strlit("instance");
    reveal_strlit("filesystem");
    reveal_strlit("bridge");
    reveal_strlit("register");
    reveal_strlit("error");
}

/// What an agent tells another reads back as what it told.
pub proof fn law_peer_command_reads_back(command: PeerCommandView)
    ensures
        parse_peer_command(peer_command_text(command)) == Some(command),
{
    lemma_names();
    match command {
        PeerCommandView::Register(role) => {
            lemma_split_concat("register"@, ' ', role_text(role));
        },
        PeerCommandView::Error(error) => {
            lemma_split_concat("error"@, ' ', error);
        },
    }
}

impl Type {
    /// The name of the role as it is written.
    pub fn to_string(&self) -> (r: String)
        ensures
            r@ == role_text(*self),
    {
        match self {
            Type::Portal => "portal".to_owned(),
            Type::Provider => "provider".to_owned(),
            Type::Account => "account".to_owned(),
            Type::Instance => "instance".to_owned(),
            Type::Filesystem => "filesystem".to_owned(),
            Type::Bridge => "bridge".to_owned(),
        }
    }

    /// The role that a name denotes.
    pub fn parse(text: &str) -> (r: Option<Type>)
        ensures
            r == role_of(text@),
    {
        if same_text(text, "portal") {
            Some(Type::Portal)
        } else if same_text(text, "provider") {
            Some(Type::Provider)
        } else if same_text(text, "account") {
            Some(Type::Account)
        } else if same_text(text, "instance") {
            Some(Type::Instance)
        } else if same_text(text, "filesystem") {
            Some(Type::Filesystem)
        } else if same_text(text, "bridge") {
            Some(Type::Bridge)
        } else {
            None
        }
    }
}

impl PeerCommand {
    /// What the agent tells, as it is written.
    pub fn to_string(&self) -> (r: String)
        ensures
            r@ == peer_command_text(self@),
    {
        match self {
            PeerCommand::Register(role) => {
                let mut r = "register".to_owned();
                r.push(' ');
                r.append(role.to_string().as_str());
                r
            },
            PeerCommand::Error(error) => {
                let mut r = "error".to_owned();
                r.push(' ');
                r.append(error.as_str());
                r
            },
        }
    }

    /// What a text tells; nothing where the verb is unknown or the role
    /// is.
    pub fn parse(text: &str) -> (r: Option<PeerCommand>)
        ensures
            match parse_peer_command(text@) {
                Some(command) => r matches Some(c) && c@ == command,
                None => r is None,
            },
    {
        let v = to_chars(text);
        let i = find_from(&v, 0, ' ');
        proof {
            assert(v@.skip(0) =~= v@);
            lemma_index_of(v@, ' ');
            assert(v@.subrange(0, i as int) =~= before_first(text@, ' '));
        }
        let verb = substring(&v, 0, i);
        let rest = if i < v.len() {
            proof {
                assert(v@.subrange(i + 1, v.len() as int) =~= after_first(text@, ' '));
            }
            substring(&v, i + 1, v.len())
        } else {
            String::new()
        };
        if same_text(verb.as_str(), "register") {
            match Type::parse(rest.as_str()) {
                Some(role) => Some(PeerCommand::Register(role)),
                None => None,
            }
        } else if same_text(verb.as_str(), "error") {
            Some(PeerCommand::Error(rest))
        } else {
            None
        }
    }
}

/// What an agent makes of what a peer tells it: a peer that registers is
/// noted under its role; a peer that reports an error is heard as a
/// connection reporting one.
pub fn receive_peer_command(agents: &mut crate::agent::Registry, peer: &Peer, command: PeerCommand) -> (r:
    Option<ControlCommand>)
    ensures
        match command {
            PeerCommand::Register(role) => r is None && final(agents)@ == crate::agent::others(
                old(agents)@,
                peer@,
            ).push((peer@, role)),
            PeerCommand::Error(error) => r == Some(ControlCommand::Error { error })
                && final(agents)@ == old(agents)@,
        },
{
    match command {
        PeerCommand::Register(role) => {
            agents.register(peer, role);
            None
        },
        PeerCommand::Error(error) => Some(ControlCommand::Error { error }),
    }
}

} // verus!
