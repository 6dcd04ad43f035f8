use openportal::agent::{Envelope, Peer, Registry, Type};
use openportal::board::{Board, Waiter};
use openportal::bridge;
use openportal::client::{self, Action, ClientError, Dial, Event, Phase};
use openportal::config::{PeerConfig, ServerConfig, ServiceConfig};
use openportal::connection::{
    accept, expect_greeting, greet, greet_with, hello, read_hello, session_key, welcome,
    ConnectionError,
};
use openportal::control_message::{
    process_control_message, receive_peer_command, ControlAction, ControlCommand, PeerCommand,
};
use openportal::crypto::{EncryptedData, Key};
use openportal::message::WireError;
use openportal::custom;
use openportal::error::Error;
use openportal::eventloop::{self, Task};
use openportal::exchange::Exchange;
use openportal::invite::Invite;
use openportal::job::{Job, Status};
use openportal::net::IpAddress;
use openportal::slurm::{self, Begun, Started};

fn service(name: &str) -> ServiceConfig {
    ServiceConfig::new(name, "http://localhost", "127.0.0.1", &8042).unwrap()
}

#[test]
fn peers_are_told_apart_by_name_and_zone() {
    let a = Peer::new("slurm", "internal");
    let b = Peer::new("slurm", "external");
    assert!(a.is(&a.clone()));
    assert!(!a.is(&b));
    assert_eq!(a.name(), "slurm");
    assert_eq!(a.zone(), "internal");
    assert_eq!(a.to_string(), "slurm@internal");
}

#[test]
fn registry_finds_the_first_of_a_role() {
    let mut agents = Registry::new();
    assert_eq!(agents.portal(), None);
    assert_eq!(agents.account(), None);
    let portal = Peer::new("portal", "z");
    let freeipa = Peer::new("freeipa", "z");
    let other = Peer::new("ldap", "z");
    agents.register(&freeipa, Type::Account);
    agents.register(&portal, Type::Portal);
    agents.register(&other, Type::Account);
    assert_eq!(agents.portal(), Some(portal.clone()));
    assert_eq!(agents.account(), Some(freeipa.clone()));
    assert_eq!(agents.find(Type::Bridge), None);
    // a peer that registers again stands behind the others
    agents.register(&freeipa, Type::Account);
    assert_eq!(agents.account(), Some(other.clone()));
    agents.remove(&other);
    assert_eq!(agents.account(), Some(freeipa));
    agents.remove(&portal);
    assert_eq!(agents.portal(), None);
}

#[test]
fn connection_brings_register_sync_and_replay_in_that_order() {
    let peer = Peer::new("slurm", "internal");
    let actions = process_control_message(
        &Type::Portal,
        ControlCommand::Connected { agent: "slurm".to_string(), zone: "internal".to_string() },
    );
    assert_eq!(
        actions,
        vec![
            ControlAction::Register { peer: peer.clone(), role: Type::Portal },
            ControlAction::SyncBoard { peer: peer.clone() },
            ControlAction::SendQueued { peer: peer.clone() },
        ]
    );
    let actions = process_control_message(
        &Type::Instance,
        ControlCommand::Disconnected { agent: "slurm".to_string(), zone: "internal".to_string() },
    );
    assert_eq!(actions, vec![ControlAction::Release { peer }]);
    let actions = process_control_message(
        &Type::Instance,
        ControlCommand::Error { error: "broken pipe".to_string() },
    );
    assert_eq!(actions, vec![ControlAction::Report { error: "broken pipe".to_string() }]);
}

#[test]
fn exchange_knows_who_is_connected() {
    let mut exchange = Exchange::new();
    let slurm = Peer::new("slurm", "z");
    let portal = Peer::new("portal", "z");
    assert!(exchange.send(&slurm).is_err());
    exchange.register(&slurm);
    exchange.register(&portal);
    exchange.register(&slurm);
    assert!(exchange.is_connected(&slurm));
    assert_eq!(exchange.send(&slurm), Ok(()));
    exchange.unregister(&slurm);
    assert!(!exchange.is_connected(&slurm));
    assert!(exchange.is_connected(&portal));
    assert!(matches!(
        exchange.send(&slurm),
        Err(openportal::exchange::Error::NotConnected(_))
    ));
    exchange.unregister(&slurm);
    assert!(exchange.is_connected(&portal));
}

#[test]
fn send_to_a_peer_that_is_away_holds_the_job_back() {
    let mut exchange = Exchange::new();
    let mut board = Board::new();
    let slurm = Peer::new("slurm", "z");
    let job = Job::new("slurm add_user alice.proj.portal");
    // away: no error, the job is on the board and on the queue
    let posted = board.put(&job, exchange.is_connected(&slurm)).unwrap();
    assert_eq!(posted.send, None);
    assert_eq!(board.get(job.id()).unwrap(), job);
    // back: first the snapshot, then what was held back
    exchange.register(&slurm);
    let resumed = board.resume();
    assert_eq!(resumed.snapshot, vec![job.clone()]);
    assert_eq!(resumed.queued, vec![job.clone()]);
    let posted = board.put(&job, exchange.is_connected(&slurm)).unwrap();
    assert_eq!(posted.send, Some(job));
}

#[test]
fn service_starts_a_listener_and_its_connections() {
    let mut config = service("portal");
    assert!(eventloop::run(&config).is_empty());
    let inner = Key::generate();
    let outer = Key::generate();
    config.add_server(Invite::new("a", "http://a", &inner, &outer)).unwrap();
    config.add_server(Invite::new("b", "http://b", &inner, &outer)).unwrap();
    let servers = config.servers();
    assert!(
        eventloop::run(&config)
            == vec![
                Task::Connect { peer: PeerConfig::Server(servers[0].clone()) },
                Task::Connect { peer: PeerConfig::Server(servers[1].clone()) },
            ]
    );
    config.add_client("c", "10.0.0.0/24").unwrap();
    let tasks = eventloop::run(&config);
    assert_eq!(tasks.len(), 3);
    assert!(tasks[0] == Task::Listen { ip: IpAddress::V4(0x7f000001), port: 8042 });
    assert!(custom::run(&config) == Ok(tasks));
    let nameless = service("");
    assert!(matches!(custom::run(&nameless), Err(Error::Misconfigured(_))));
}

#[test]
fn client_dials_named_peers_only() {
    let config = service("slurm");
    let server = ServerConfig::new("portal".to_string(), "http://portal".to_string());
    assert_eq!(
        client::run_once(&config, &server.to_peer()),
        Ok(Dial { service: "slurm".to_string(), peer: "portal".to_string() })
    );
    assert!(matches!(
        client::run_once(&config, &PeerConfig::Null),
        Err(ClientError::UnknownPeer(_))
    ));
    assert!(matches!(
        client::run_once(&config, &ServerConfig::create_null().to_peer()),
        Err(ClientError::UnknownPeer(_))
    ));
    assert!(matches!(
        client::run_once(&service(""), &server.to_peer()),
        Err(ClientError::UnknownPeer(_))
    ));
}

#[test]
fn client_rests_five_seconds_and_dials_again() {
    let config = service("slurm");
    let peer = ServerConfig::new("portal".to_string(), "http://portal".to_string()).to_peer();
    let dial = Dial { service: "slurm".to_string(), peer: "portal".to_string() };
    let (phase, action) = client::run(Phase::Ready, Event::Wake, &config, &peer);
    assert_eq!((phase, action), (Phase::Connected, Action::Connect(dial.clone())));
    let (phase, action) = client::run(phase, Event::Ended, &config, &peer);
    assert_eq!((phase, action), (Phase::Resting, Action::Sleep(5)));
    let (phase, action) = client::run(phase, Event::Wake, &config, &peer);
    assert_eq!((phase, action), (Phase::Connected, Action::Connect(dial)));
    // what does not belong to the phase changes nothing
    assert_eq!(client::run(Phase::Connected, Event::Wake, &config, &peer), (Phase::Connected, Action::Idle));
    assert_eq!(client::run(Phase::Resting, Event::Ended, &config, &peer), (Phase::Resting, Action::Idle));
    // a peer that cannot be dialled is tried again after the rest
    assert_eq!(
        client::run(Phase::Ready, Event::Wake, &config, &PeerConfig::Null),
        (Phase::Resting, Action::Sleep(5))
    );
    assert_eq!(client::RETRY_SECONDS, 5);
}

#[test]
fn client_from_the_wrong_address_is_refused() {
    let mut config = service("portal");
    config.add_client("slurm", "10.0.0.0/24").unwrap();
    let inside = IpAddress::parse_v4("10.0.0.17").unwrap();
    let outside = IpAddress::parse_v4("10.0.1.5").unwrap();
    let client = accept(&config, "slurm", inside).unwrap();
    assert_eq!(client.name(), Some("slurm".to_string()));
    assert!(matches!(accept(&config, "slurm", outside), Err(ConnectionError::BadAddress(_))));
    // trying again does not help
    assert!(matches!(accept(&config, "slurm", outside), Err(ConnectionError::BadAddress(_))));
    assert!(matches!(accept(&config, "nobody", inside), Err(ConnectionError::UnknownPeer(_))));
    assert!(matches!(accept(&config, "", inside), Err(ConnectionError::UnknownPeer(_))));
}

#[test]
fn client_with_the_wrong_key_is_refused() {
    let mut primary = service("portal");
    let invite = primary.add_client("slurm", "127.0.0.1").unwrap();
    let client = primary.clients().remove(0);
    // the client greets under the key of its invitation
    let (greeting, nonce) = greet(&invite.outer_key(), "slurm").unwrap();
    assert_eq!(nonce.len(), 32);
    assert_eq!(expect_greeting(&client.outer_key(), &greeting, "slurm"), Ok(nonce));
    // somebody else is not who was expected
    assert!(matches!(
        expect_greeting(&client.outer_key(), &greeting, "freeipa"),
        Err(ConnectionError::BadHandshake(_))
    ));
    // a greeting under another key does not open
    let (forged, _) = greet(&Key::generate(), "slurm").unwrap();
    assert!(matches!(
        expect_greeting(&client.outer_key(), &forged, "slurm"),
        Err(ConnectionError::BadHandshake(_))
    ));
    // the inner key is not the key of the hop
    let (confused, _) = greet(&invite.inner_key(), "slurm").unwrap();
    assert!(matches!(
        expect_greeting(&client.outer_key(), &confused, "slurm"),
        Err(ConnectionError::BadHandshake(_))
    ));
    assert!(matches!(greet(&Key::null(), "slurm"), Err(ConnectionError::BadHandshake(_))));
    // a greeting without a number of the right length is none
    let short = greet_with(&invite.outer_key(), "slurm", &[1, 2, 3]).unwrap();
    assert!(matches!(
        expect_greeting(&client.outer_key(), &short, "slurm"),
        Err(ConnectionError::BadHandshake(_))
    ));
    // two greetings of one agent differ in their numbers
    let (_, other) = greet(&invite.outer_key(), "slurm").unwrap();
    assert_ne!(nonce_of(&invite.outer_key(), &greeting), other);
}

fn nonce_of(key: &Key, greeting: &EncryptedData) -> Vec<u8> {
    expect_greeting(key, greeting, "slurm").unwrap()
}

#[test]
fn failed_handshake_leaves_no_trace() {
    let mut primary = service("portal");
    let invite = primary.add_client("slurm", "10.0.0.0/24").unwrap();
    let inside = IpAddress::parse_v4("10.0.0.17").unwrap();
    let outside = IpAddress::parse_v4("10.0.1.5").unwrap();
    let peer = Peer::new("slurm", "z");
    let mut exchange = Exchange::new();
    let (good, nonce) = greet(&invite.outer_key(), "slurm").unwrap();
    let (forged, _) = greet(&Key::generate(), "slurm").unwrap();
    assert!(matches!(
        welcome(&primary, &mut exchange, "slurm", "z", inside, &forged),
        Err(ConnectionError::BadHandshake(_))
    ));
    assert!(matches!(
        welcome(&primary, &mut exchange, "slurm", "z", outside, &good),
        Err(ConnectionError::BadAddress(_))
    ));
    assert!(matches!(
        welcome(&primary, &mut exchange, "nobody", "z", inside, &good),
        Err(ConnectionError::UnknownPeer(_))
    ));
    assert!(!exchange.is_connected(&peer));
    assert!(exchange.send(&peer).is_err());
    let (client, said) = welcome(&primary, &mut exchange, "slurm", "z", inside, &good).unwrap();
    assert_eq!(said, nonce);
    assert_eq!(client.name(), Some("slurm".to_string()));
    assert!(exchange.is_connected(&peer));
}

#[test]
fn both_ends_derive_the_key_of_the_session() {
    let outer = Key::generate();
    let (_, client) = greet(&outer, "slurm").unwrap();
    let (_, server) = greet(&outer, "portal").unwrap();
    let at_client = session_key(&outer, &client, &server).unwrap();
    let at_server = session_key(&outer, &client, &server).unwrap();
    assert!(at_client == at_server);
    assert_eq!(at_client.data.len(), 32);
    assert!(at_client != outer);
    // other numbers, another key
    assert!(session_key(&outer, &server, &client).unwrap() != at_client);
    assert!(session_key(&Key::generate(), &client, &server).unwrap() != at_client);
    // what one end seals under it the other opens
    let sealed = at_client.seal_bytes(&[1, 2, 3]).unwrap();
    assert_eq!(at_server.open_bytes(&sealed), Ok(vec![1, 2, 3]));
    assert!(outer.open_bytes(&sealed).is_err());
}

#[test]
fn first_message_names_the_client_in_the_clear() {
    let key = Key::generate();
    let greeting = greet_with(&key, "slurm", &[9; 32]).unwrap();
    let bytes = hello("slurm", &greeting).unwrap();
    assert_eq!(&bytes[..10], &[0, 0, 0, 5, b's', b'l', b'u', b'r', b'm', 1]);
    assert_eq!(bytes.len(), 10 + greeting.data.len());
    let (name, read) = read_hello(&bytes).unwrap();
    assert_eq!(name, "slurm");
    assert!(read == greeting);
    assert_eq!(expect_greeting(&key, &read, &name), Ok(vec![9; 32]));
    assert_eq!(read_hello(&bytes[..9]).err(), Some(WireError::Incomplete));
    assert_eq!(read_hello(&[]).err(), Some(WireError::Incomplete));
    assert_eq!(read_hello(&[0, 0, 0, 1, 0xff, 1]).err(), Some(WireError::BadText));
}

#[test]
fn peers_tell_each_other_their_roles() {
    for (role, text) in [
        (Type::Portal, "register portal"),
        (Type::Provider, "register provider"),
        (Type::Account, "register account"),
        (Type::Instance, "register instance"),
        (Type::Filesystem, "register filesystem"),
        (Type::Bridge, "register bridge"),
    ] {
        assert_eq!(PeerCommand::Register(role).to_string(), text);
        assert_eq!(PeerCommand::parse(text), Some(PeerCommand::Register(role)));
    }
    let error = PeerCommand::Error("broken pipe, twice".to_string());
    assert_eq!(error.to_string(), "error broken pipe, twice");
    assert_eq!(PeerCommand::parse("error broken pipe, twice"), Some(error));
    assert_eq!(PeerCommand::parse("error"), Some(PeerCommand::Error(String::new())));
    for bad in ["", "register", "register king", "register  portal", "Register portal", "put x"] {
        assert_eq!(PeerCommand::parse(bad), None, "{:?}", bad);
    }
    // a peer that registers is known by its role from then on
    let mut agents = Registry::new();
    let freeipa = Peer::new("freeipa", "z");
    assert_eq!(
        receive_peer_command(&mut agents, &freeipa, PeerCommand::Register(Type::Account)),
        None
    );
    assert_eq!(agents.account(), Some(freeipa.clone()));
    assert_eq!(
        receive_peer_command(&mut agents, &freeipa, PeerCommand::Error("x".to_string())),
        Some(ControlCommand::Error { error: "x".to_string() })
    );
    assert_eq!(agents.account(), Some(freeipa));
}

#[test]
fn bridge_needs_a_portal() {
    let mut agents = Registry::new();
    let command = "slurm add_user alice.proj.portal";
    assert!(matches!(bridge::run(&agents, command), Err(bridge::Error::NoPortal(_))));
    assert!(matches!(bridge::status(&agents, None, 1), Err(bridge::Error::NoPortal(_))));
    let portal = Peer::new("portal", "z");
    agents.register(&portal, Type::Portal);
    let (to, job) = bridge::run(&agents, command).unwrap();
    assert_eq!(to, portal);
    assert_eq!(job.command(), command);
    assert_eq!(job.state(), Status::Pending);
    assert!(matches!(
        bridge::run(&agents, "slurm add_user alice"),
        Err(bridge::Error::Job(openportal::job::Error::Parse(_)))
    ));
    assert!(matches!(bridge::status(&agents, None, job.id()), Err(bridge::Error::State(_))));
    let mut board = Board::new();
    assert!(matches!(
        bridge::status(&agents, Some(&board), job.id()),
        Err(bridge::Error::Board(openportal::board::Error::NotFound(_)))
    ));
    board.add(&job).unwrap();
    assert_eq!(bridge::status(&agents, Some(&board), job.id()), Ok(job));
}

#[test]
fn handler_settles_what_it_can() {
    let portal = Peer::new("portal", "z");
    let slurm_peer = Peer::new("slurm", "z");
    let job = Job::create(5, 100, "slurm remove_user alice.proj.portal");
    let envelope = Envelope::new(&portal, &slurm_peer, &job);
    assert_eq!(envelope.sender(), portal);
    assert_eq!(envelope.recipient(), slurm_peer);
    assert_eq!(envelope.job(), job);
    match slurm::start(&envelope, None, 200).unwrap() {
        Started::Done(done) => {
            assert_eq!(done.id(), 5);
            assert_eq!(done.state(), Status::Complete);
            assert_eq!(done.version(), 2);
            assert_eq!(done.updated(), 200);
            assert_eq!(done.result(), Ok(Some("User removed".to_string())));
        }
        other => panic!("{:?}", other),
    }
    let job = Job::create(6, 100, "slurm update_homedir alice.proj.portal /home/alice");
    let envelope = Envelope::new(&portal, &slurm_peer, &job);
    let mut board = Board::new();
    match slurm::runner(&envelope, None, &mut board, true).unwrap() {
        Begun::Finished(done) => {
            assert_eq!(done.state(), Status::Complete);
            assert_eq!(done.result(), Ok(Some("Hello, World! - we have run!".to_string())));
        }
        other => panic!("{:?}", other),
    }
    assert_eq!(board.len(), 0);
}

#[test]
fn handler_asks_the_account_agent_to_add_a_user() {
    let portal = Peer::new("portal", "z");
    let slurm_peer = Peer::new("slurm", "z");
    let account = Peer::new("freeipa", "z");
    let job = Job::create(5, 100, "slurm add_user alice.proj.portal");
    let envelope = Envelope::new(&portal, &slurm_peer, &job);
    let mut board = Board::new();
    // no account agent: refused, nothing on the board
    assert!(matches!(
        slurm::runner(&envelope, None, &mut board, true),
        Err(slurm::Error::NoAccount(_))
    ));
    assert_eq!(board.len(), 0);
    assert_eq!(
        slurm::start(&envelope, Some(&account), 200),
        Ok(Started::Ask("slurm.freeipa add_user alice.proj.portal".to_string()))
    );
    let (request, mut running, waiter) =
        match slurm::runner(&envelope, Some(&account), &mut board, true) {
            Ok(Begun::Forwarded { request, send: true, job, waiter }) => (request, job, waiter),
            other => panic!("{:?}", other),
        };
    assert_eq!(request.command(), "slurm.freeipa add_user alice.proj.portal");
    assert_eq!(request.version(), 1);
    assert_eq!(board.get(request.id()).unwrap(), request);
    assert_eq!(running.id(), 5);
    assert_eq!(running.state(), Status::Running);
    assert_eq!(running.version(), 2);
    assert_eq!(waiter, Waiter::Pending(0));
    // the account agent answers
    let mut answer = request.clone();
    answer.completed("alice is in").unwrap();
    assert_eq!(board.add(&answer), Ok(vec![0]));
    assert_eq!(slurm::conclude(&mut running, &answer, &mut board, 300), Ok(()));
    assert_eq!(running.state(), Status::Complete);
    assert_eq!(running.version(), 3);
    assert_eq!(running.result(), Ok(Some("alice is in".to_string())));
    assert_eq!(board.get(5).unwrap(), running);
    // a job that has ended is not settled again
    assert!(matches!(
        slurm::conclude(&mut running, &answer, &mut board, 400),
        Err(slurm::Error::Job(_))
    ));
    assert_eq!(running.version(), 3);
}

#[test]
fn handler_passes_an_error_on() {
    let mut board = Board::new();
    let mut job = Job::create(5, 100, "slurm add_user alice.proj.portal");
    let mut request = Job::create(6, 100, "slurm.freeipa add_user alice.proj.portal");
    assert_eq!(
        slurm::forward(&mut job, &request, &mut board, true, 150),
        Ok(Waiter::Pending(0))
    );
    assert_eq!(job.state(), Status::Running);
    request.errored_at("no such project", 200).unwrap();
    assert_eq!(slurm::conclude(&mut job, &request, &mut board, 300), Ok(()));
    assert_eq!(job.state(), Status::Error);
    assert_eq!(job.version(), 3);
    assert_eq!(
        job.result_text(),
        Some("Error adding user to account: no such project".to_string())
    );
    // an answer that has not ended settles nothing
    let mut job = Job::create(7, 100, "slurm add_user alice.proj.portal");
    let pending = Job::create(8, 100, "slurm.freeipa add_user alice.proj.portal");
    assert!(matches!(
        slurm::conclude(&mut job, &pending, &mut board, 300),
        Err(slurm::Error::Job(openportal::job::Error::InvalidState(_)))
    ));
    assert_eq!(job, Job::create(7, 100, "slurm add_user alice.proj.portal"));
    assert!(!board.contains(7));
    // an answer that is no text ends the job in error
    let mut odd = Job::create(9, 100, "slurm.freeipa add_user alice.proj.portal");
    odd.completed_json_at("[1,2]", 200).unwrap();
    assert_eq!(slurm::conclude(&mut job, &odd, &mut board, 300), Ok(()));
    assert_eq!(job.state(), Status::Error);
    assert_eq!(
        job.result_text(),
        Some("Error adding user to account: the answer is no text".to_string())
    );
    assert_eq!(board.get(7).unwrap(), job);
}

#[test]
fn handler_step_is_exact_for_a_given_identifier_and_time() {
    let portal = Peer::new("portal", "z");
    let slurm_peer = Peer::new("slurm", "z");
    let account = Peer::new("freeipa", "z");
    let job = Job::create(5, 100, "slurm add_user alice.proj.portal");
    let envelope = Envelope::new(&portal, &slurm_peer, &job);
    let mut board = Board::new();
    let begun = slurm::runner_at(&envelope, Some(&account), &mut board, true, 77, 150);
    let mut running = job.clone();
    running.running_at(150).unwrap();
    let request = Job::create(77, 150, "slurm.freeipa add_user alice.proj.portal");
    assert_eq!(
        begun,
        Ok(Begun::Forwarded {
            request: request.clone(),
            send: true,
            job: running,
            waiter: Waiter::Pending(0),
        })
    );
    assert_eq!(board.get(77).unwrap(), request);
    assert!(board.drain_queued().is_empty());
    // the same request once more changes nothing on the board, and waits again
    let again = slurm::runner_at(&envelope, Some(&account), &mut board, true, 77, 150);
    assert!(matches!(again, Ok(Begun::Forwarded { waiter: Waiter::Pending(1), .. })));
    // an agent without a name makes no route
    let nameless = Peer::new("", "z");
    let mut other = Board::new();
    assert!(matches!(
        slurm::runner_at(&envelope, Some(&nameless), &mut other, true, 78, 150),
        Err(slurm::Error::Job(openportal::job::Error::Parse(_)))
    ));
    assert_eq!(other.len(), 0);
    // a job that has ended is not forwarded, but the request is on the board
    let mut ended = job.clone();
    ended.errored_at("gone", 120).unwrap();
    let envelope = Envelope::new(&portal, &slurm_peer, &ended);
    assert!(matches!(
        slurm::runner_at(&envelope, Some(&account), &mut other, true, 79, 150),
        Err(slurm::Error::Job(openportal::job::Error::InvalidState(_)))
    ));
    assert!(other.contains(79));
    // a job that the handler settles itself comes back as that job
    let job = Job::create(6, 100, "slurm remove_user alice.proj.portal");
    let envelope = Envelope::new(&portal, &slurm_peer, &job);
    let mut done = job.clone();
    done.completed_at("User removed", 150).unwrap();
    assert_eq!(
        slurm::runner_at(&envelope, None, &mut other, false, 80, 150),
        Ok(Begun::Finished(done))
    );
    assert!(!other.contains(80));
}

#[test]
fn request_for_an_agent_that_is_away_is_held_back() {
    let portal = Peer::new("portal", "z");
    let slurm_peer = Peer::new("slurm", "z");
    let account = Peer::new("freeipa", "z");
    let job = Job::create(5, 100, "slurm add_user alice.proj.portal");
    let envelope = Envelope::new(&portal, &slurm_peer, &job);
    let mut board = Board::new();
    let begun = slurm::runner_at(&envelope, Some(&account), &mut board, false, 77, 150);
    let request = Job::create(77, 150, "slurm.freeipa add_user alice.proj.portal");
    assert!(matches!(
        begun,
        Ok(Begun::Forwarded { send: false, waiter: Waiter::Pending(0), .. })
    ));
    assert_eq!(board.get(77).unwrap(), request);
    let resumed = board.resume();
    assert_eq!(resumed.queued, vec![request.clone()]);
    assert_eq!(resumed.snapshot, vec![request]);
}
