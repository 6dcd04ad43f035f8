//! What a service starts when it runs: a listener where clients are
//! expected, and a connection to each server.

use vstd::prelude::*;
use crate::config::{
    server_views, PeerConfig, PeerConfigView, ServerConfigView, ServiceConfig, ServiceConfigView,
};
use crate::net::IpAddress;

verus! {

/// One thing to start.
#[derive(PartialEq, Eq)]
pub enum Task {
    /// Accept the connections of clients at this address and port.
    Listen { ip: IpAddress, port: u16 },
    /// Connect to this peer, and again whenever the connection ends.
    Connect { peer: PeerConfig },
}

/// A task as a value.
pub enum TaskView {
    Listen { ip: IpAddress, port: u16 },
    Connect { peer: PeerConfigView },
}

impl View for Task {
    type V = TaskView;

    open spec fn view(&self) -> TaskView {
        match self {
            Task::Listen { ip, port } => TaskView::Listen { ip: *ip, port: *port },
            Task::Connect { peer } => TaskView::Connect { peer: peer@ },
        }
    }
}

/// The views of a sequence of tasks.
pub open spec fn task_views(tasks: Seq<Task>) -> Seq<TaskView> {
    Seq::new(tasks.len(), |i: int| tasks[i]@)
}

/// A connection to each of the servers, in their order.
pub open spec fn connections(servers: Seq<ServerConfigView>) -> Seq<TaskView> {
    Seq::new(
        servers.len(),
        |i: int| TaskView::Connect { peer: PeerConfigView::Server(servers[i]) },
    )
}

/// What the service starts: the listener, if it has clients, and then a
/// connection to each server.
pub open spec fn tasks(config: ServiceConfigView) -> Seq<TaskView> {
    if config.clients.len() > 0 {
        seq![TaskView::Listen { ip: config.ip, port: config.port }] + connections(config.servers)
    } else {
        connections(config.servers)
    }
}

/// What the service starts when it runs. A service without clients and
/// servers starts nothing.
pub fn run(config: &ServiceConfig) -> (r: Vec<Task>)
    ensures
        task_views(r@) == tasks(config@),
{
    let mut r: Vec<Task> = Vec::new();
    let clients = config.clients();
    if clients.len() > 0 {
        r.push(Task::Listen { ip: config.ip(), port: config.port() });
    }
    let ghost head = task_views(r@);
    let servers = config.servers();
    let mut i: usize = 0;
    while i < servers.len()
        invariant
            i <= servers.len(),
            server_views(servers@) == config@.servers,
            task_views(r@) == head + connections(config@.servers).take(i as int),
        decreases servers.len() - i,
    {
        let ghost before = task_views(r@);
        let peer = servers[i].to_peer();
        r.push(Task::Connect { peer });
        proof {
            assert(server_views(servers@)[i as int] == servers[i as int]@);
            assert(task_views(r@) =~= before.push(
                TaskView::Connect { peer: PeerConfigView::Server(servers[i as int]@) },
            ));
            assert(connections(config@.servers).take(i + 1) =~= connections(config@.servers).take(
                i as int,
            ).push(connections(config@.servers)[i as int]));
        }
        i += 1;
    }
    proof {
        assert(connections(config@.servers).take(servers.len() as int) =~= connections(
            config@.servers,
        ));
        assert(config@.clients.len() == clients.len());
    }
    r
}

} // verus!
