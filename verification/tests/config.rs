use openportal::config::{
    create_websocket_url, ClientConfig, Defaults, PeerConfig, ServerConfig, ServiceConfig,
};
use openportal::crypto::Key;
use openportal::error::Error;
use openportal::invite::Invite;
use openportal::net::{IpAddress, IpOrRange};

fn v4(a: u8, b: u8, c: u8, d: u8) -> IpAddress {
    IpAddress::V4(u32::from_be_bytes([a, b, c, d]))
}

#[test]
fn test_ip_or_range() {
    let mut ip = IpOrRange::new("127.0.0.1").unwrap_or_else(|e| {
        unreachable!("Could not create IP address: {:?}", e);
    });

    assert_eq!(format!("{}", ip.to_string()), "127.0.0.1");

    assert!(ip.matches(&v4(127, 0, 0, 1)));
    assert!(!ip.matches(&v4(127, 0, 0, 2)));
    assert!(!ip.matches(&v4(129, 0, 0, 1)));

    assert!(IpOrRange::new("127.*.*.*").is_err());

    ip = IpOrRange::new("127.0.0.0/24").unwrap_or_else(|e| {
        unreachable!("Could not create IP range: {:?}", e);
    });

    assert_eq!(format!("{}", ip.to_string()), "127.0.0.0/24");

    assert!(ip.matches(&v4(127, 0, 0, 1)));
    assert!(ip.matches(&v4(127, 0, 0, 2)));
    assert!(!ip.matches(&v4(129, 0, 0, 1)));
}

#[test]
fn test_client_config() {
    let ip = IpOrRange::new("127.0.0.1").unwrap_or_else(|e| {
        unreachable!("Could not create IP address: {:?}", e);
    });

    let client = ClientConfig::new("test", &ip);

    assert_eq!(client.name(), Some("test".to_string()));
    assert_eq!(client.ip(), Some(ip));

    let peer = PeerConfig::from_client(&client);

    assert!(peer.is_client());
    assert!(!peer.is_server());
    assert!(!peer.is_null());
}

#[test]
fn test_invitations() {
    let mut primary = ServiceConfig::new("primary", "http://localhost", "127.0.0.1", &5544)
        .unwrap_or_else(|e| {
            unreachable!("Cannot create service config: {:?}", e);
        });

    let mut secondary = ServiceConfig::new("secondary", "http://localhost", "127.0.0.1", &5545)
        .unwrap_or_else(|e| {
            unreachable!("Cannot create service config: {:?}", e);
        });

    // introduce the secondary to the primary
    let invite = primary
        .add_client(&secondary.name(), "127.0.0.1")
        .unwrap_or_else(|e| {
            unreachable!("Cannot add secondary to primary: {:?}", e);
        });

    // give the invitation to the secondary
    secondary.add_server(invite).unwrap_or_else(|e| {
        unreachable!("Cannot add primary to secondary: {:?}", e);
    });

    assert_eq!(primary.clients().len(), 1);
    assert_eq!(secondary.servers().len(), 1);

    assert_eq!(primary.clients()[0].name(), Some("secondary".to_string()));
    assert_eq!(secondary.servers()[0].name(), "primary".to_string());
}

#[test]
fn invitation_carries_the_keys_of_the_client_entry() {
    let mut primary = ServiceConfig::new("primary", "https://portal.example:8443/ws", "10.0.0.1", &8443).unwrap();
    let mut secondary = ServiceConfig::new("secondary", "http://localhost", "127.0.0.1", &5545).unwrap();
    let invite = primary.add_client("secondary", "10.0.0.0/24").unwrap();
    let client = primary.clients().remove(0);
    assert_eq!(invite.name(), "primary");
    assert_eq!(invite.url(), "wss://portal.example:8443/ws");
    assert!(invite.inner_key() == client.inner_key());
    assert!(invite.outer_key() == client.outer_key());
    assert!(client.inner_key() != client.outer_key());
    assert_eq!(client.inner_key().data.len(), 32);
    let kept = invite.clone();
    secondary.add_server(invite).unwrap();
    let server = secondary.servers().remove(0);
    assert_eq!(server.name(), "primary");
    assert_eq!(server.url(), "wss://portal.example:8443/ws");
    assert!(server.inner_key() == client.inner_key());
    assert!(server.outer_key() == client.outer_key());
    assert!(server.to_peer() == PeerConfig::Server(server.clone()));
    assert!(ServerConfig::from_invite(&kept).unwrap() == server);
    // what one end seals the other opens
    let sealed = client.outer_key().encrypt("hello").unwrap();
    assert_eq!(server.outer_key().decrypt(&sealed), Ok("hello".to_string()));
}

#[test]
fn websocket_url_is_made_of_the_parts() {
    assert_eq!(create_websocket_url("http://localhost").unwrap(), "ws://localhost:8080/");
    assert_eq!(create_websocket_url("https://example.com/a/b?c=d").unwrap(), "wss://example.com:8080/a/b");
    assert_eq!(create_websocket_url("ws://example.com:9000").unwrap(), "ws://example.com:9000/");
    assert_eq!(create_websocket_url("wss://example.com:65535/x").unwrap(), "wss://example.com:65535/x");
    assert_eq!(create_websocket_url("ftp://example.com:2121/x").unwrap(), "wss://example.com:2121/x");
    // a port that is the scheme's own is not said, and so becomes 8080
    assert_eq!(create_websocket_url("https://example.com:443/x").unwrap(), "wss://example.com:8080/x");
    assert_eq!(create_websocket_url("unix:/run/foo.socket").unwrap(), "wss://localhost:8080/run/foo.socket");
    assert!(matches!(create_websocket_url("localhost"), Err(Error::Parse(_))));
    assert!(matches!(create_websocket_url(""), Err(Error::Parse(_))));
}

#[test]
fn service_config_refuses_bad_input() {
    assert!(matches!(ServiceConfig::new("s", "not a url", "127.0.0.1", &1), Err(Error::Parse(_))));
    assert!(matches!(ServiceConfig::new("s", "http://localhost", "localhost", &1), Err(Error::Parse(_))));
    assert!(matches!(ServiceConfig::new("s", "http://localhost", "127.0.0.256", &1), Err(Error::Parse(_))));
    let config = ServiceConfig::new("s", "http://localhost", "192.168.1.20", &8042).unwrap();
    assert_eq!(config.name(), "s");
    assert_eq!(config.url(), "ws://localhost:8080/");
    assert_eq!(config.ip(), v4(192, 168, 1, 20));
    assert_eq!(config.port(), 8042);
    assert!(config.clients().is_empty());
    assert!(config.servers().is_empty());
    let v6 = ServiceConfig::new_at("s", "http://localhost", IpAddress::V6(1), 1).unwrap();
    assert_eq!(v6.ip(), IpAddress::V6(1));
    let v6 = ServiceConfig::new("s", "http://localhost", "::1", &1).unwrap();
    assert_eq!(v6.ip(), IpAddress::V6(1));
}

#[test]
fn clients_are_added_once_and_removed() {
    let mut config = ServiceConfig::new("s", "http://localhost", "127.0.0.1", &8042).unwrap();
    assert!(matches!(config.add_client("a", "127.*.*.*"), Err(Error::Parse(_))));
    assert!(matches!(config.add_client("", "127.0.0.1"), Err(Error::Peer(_))));
    assert!(config.add_client("a", "127.0.0.1").is_ok());
    assert!(matches!(config.add_client("a", "127.0.0.2"), Err(Error::Peer(_))));
    assert!(config.add_client("b", "10.0.0.0/8").is_ok());
    assert!(config.has_client("a"));
    assert!(config.has_client("b"));
    assert!(!config.has_client("c"));
    assert_eq!(config.clients().len(), 2);
    assert_eq!(config.remove_client("a"), Ok(()));
    assert_eq!(config.remove_client("a"), Ok(()));
    assert_eq!(config.clients().len(), 1);
    assert_eq!(config.clients()[0].name(), Some("b".to_string()));
    assert!(config.add_client("a", "127.0.0.2").is_ok());
}

#[test]
fn servers_are_added_once_and_removed() {
    let mut config = ServiceConfig::new("s", "http://localhost", "127.0.0.1", &8042).unwrap();
    let inner = Key::generate();
    let outer = Key::generate();
    let invite = Invite::new("primary", "http://primary:1234", &inner, &outer);
    assert_eq!(config.add_server(invite.clone()), Ok(()));
    assert!(matches!(config.add_server(invite), Err(Error::Peer(_))));
    let bad = Invite::new("other", "nowhere", &inner, &outer);
    assert!(matches!(config.add_server(bad), Err(Error::Parse(_))));
    assert!(config.has_server("primary"));
    assert_eq!(config.servers().len(), 1);
    assert_eq!(config.servers()[0].url(), "ws://primary:1234/");
    assert_eq!(config.servers()[0].get_websocket_url().unwrap(), "ws://primary:1234/");
    assert_eq!(config.remove_server("other"), Ok(()));
    assert_eq!(config.servers().len(), 1);
    assert_eq!(config.remove_server("primary"), Ok(()));
    assert!(config.servers().is_empty());
}

#[test]
fn null_entries_stand_for_nobody() {
    let server = ServerConfig::create_null();
    assert!(server.is_null());
    assert!(matches!(server.get_websocket_url(), Err(Error::Null(_))));
    assert!(server.to_peer().is_null());
    assert!(server.to_peer().is_server());
    assert_eq!(server.to_peer().name(), Some(String::new()));
    let client = ClientConfig::create_null();
    assert!(client.is_null());
    assert!(!client.matches(v4(127, 0, 0, 1)));
    assert_eq!(client.name(), None);
    assert_eq!(client.ip(), None);
    assert!(client.to_peer().is_null());
    assert_eq!(client.to_peer().name(), None);
    let nobody = PeerConfig::create_null();
    assert!(nobody.is_null());
    assert!(!nobody.is_client());
    assert!(!nobody.is_server());
    assert_eq!(nobody.name(), None);
    assert_eq!(nobody.to_string(), "PeerConfig { None }");
    assert_eq!(client.to_string(), "ClientConfig { name: null, ip: None }");
    assert_eq!(server.to_string(), "ServerConfig { name: , url:  }");
}

#[test]
fn entries_are_shown_without_their_keys() {
    let server = ServerConfig::new("primary".to_string(), "http://primary".to_string());
    assert_eq!(server.to_string(), "ServerConfig { name: primary, url: ws://primary:8080/ }");
    assert!(!server.is_null());
    assert_eq!(server.inner_key().data.len(), 32);
    let nowhere = ServerConfig::new("primary".to_string(), "nowhere".to_string());
    assert_eq!(nowhere.url(), "");
    let client = ClientConfig::new("c", &IpOrRange::new("10.0.0.0/24").unwrap());
    assert_eq!(client.to_string(), "ClientConfig { name: c, ip: 10.0.0.0/24 }");
    assert_eq!(client.to_peer().to_string(), client.to_string());
    let single = ClientConfig::new("c", &IpOrRange::new("10.1.2.3").unwrap());
    assert_eq!(single.to_string(), "ClientConfig { name: c, ip: 10.1.2.3 }");
}

#[test]
fn defaults_fill_what_is_not_given() {
    let defaults = Defaults::parse(None, None, None, None, None, "/etc/openportal/service.toml");
    assert_eq!(defaults.name(), "default_service");
    assert_eq!(defaults.config_file(), "/etc/openportal/service.toml");
    assert_eq!(defaults.url(), "http://localhost:8000");
    assert_eq!(defaults.ip(), "127.0.0.1");
    assert_eq!(defaults.port(), 8042);
    let defaults = Defaults::parse(
        Some("slurm".to_string()),
        Some("slurm-config.toml".to_string()),
        Some("ws://localhost:8046".to_string()),
        Some("0.0.0.0".to_string()),
        Some(8046),
        "unused",
    );
    assert_eq!(defaults.name(), "slurm");
    assert_eq!(defaults.config_file(), "slurm-config.toml");
    assert_eq!(defaults.url(), "ws://localhost:8046");
    assert_eq!(defaults.ip(), "0.0.0.0");
    assert_eq!(defaults.port(), 8046);
}

#[test]
fn service_key_comes_from_its_scheme() {
    let mut config = ServiceConfig::new("s", "http://localhost", "127.0.0.1", &8042).unwrap();
    assert!(matches!(config.key(None), Err(Error::Null(_))));
    assert!(matches!(config.encrypt("x", None), Err(Error::Null(_))));
    assert_eq!(config.key_variable(), None);
    assert_eq!(config.set_simple_encryption(), Ok(()));
    let key = config.key(None).unwrap();
    assert!(key == Key::from_password("s").unwrap());
    let sealed = config.encrypt("payload", None).unwrap();
    assert_eq!(config.decrypt(&sealed, None), Ok("payload".to_string()));
    assert_eq!(key.decrypt(&sealed), Ok("payload".to_string()));
    assert_eq!(config.set_environment_encryption("OPENPORTAL_KEY"), Ok(()));
    assert_eq!(config.key_variable(), Some("OPENPORTAL_KEY".to_string()));
    assert!(matches!(config.key(None), Err(Error::Misconfigured(_))));
    assert!(matches!(config.key(Some("")), Err(Error::Crypto(_))));
    assert!(config.key(Some("pw")).unwrap() == Key::from_password("pw").unwrap());
    assert!(matches!(config.decrypt(&sealed, Some("pw")), Err(Error::Crypto(_))));
}
