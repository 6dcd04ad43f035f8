//! The configuration of a service: who it is, which clients may connect to
//! it, which servers it connects to, and how it derives its own key.

use vstd::prelude::*;
use vstd::utf8::encode_utf8;
use crate::crypto::{can_seal, opened_text, password_key, EncryptedData, Key, KEY_LENGTH};
use crate::json::{json_of_text, text_of_json};
use crate::error::Error;
use crate::invite::{Invite, InviteView};
use crate::net::{
    decimal, decimal_text, parse_address, parse_ip_or_range, IpAddress, IpOrRange, IpOrRangeView,
};
use crate::text::{concat, same_text};

verus! {

/// What the `url` crate reads from a URL: scheme, host, port and path, as
/// `Url::parse` and the methods `scheme`, `host_str`, `port` and `path` give
/// them; nothing where the text is no URL.
pub uninterp spec fn url_parts(text: Seq<char>) -> Option<
    (Seq<char>, Option<Seq<char>>, Option<u16>, Seq<char>),
>;

/// The parts of a URL that a service address is built from.
#[derive(Debug, PartialEq, Eq)]
pub struct UrlParts {
    pub scheme: String,
    pub host: Option<String>,
    pub port: Option<u16>,
    pub path: String,
}

impl UrlParts {
    /// The parts as character sequences.
    pub open spec fn parts(&self) -> (Seq<char>, Option<Seq<char>>, Option<u16>, Seq<char>) {
        (
            self.scheme@,
            match self.host {
                Some(h) => Some(h@),
                None => None,
            },
            self.port,
            self.path@,
        )
    }
}

/// `Url::parse`, and of the URL that it gives the scheme, the host, the
/// port and the path. The result depends on the text alone.
#[verifier::external_body]
fn parse_url(text: &str) -> (r: Option<UrlParts>)
    ensures
        match url_parts(text@) {
            Some(parts) => r matches Some(x) && x.parts() == parts,
            None => r is None,
        },
{
    let url = url::Url::parse(text).ok()?;
    Some(
        UrlParts {
            scheme: url.scheme().to_string(),
            host: url.host_str().map(|h| h.to_string()),
            port: url.port(),
            path: url.path().to_string(),
        },
    )
}

/// The scheme of the websocket address for a URL of scheme `scheme`: plain
/// for `ws` and `http`, secure for everything else.
pub open spec fn websocket_scheme(scheme: Seq<char>) -> Seq<char> {
    if scheme == "ws"@ || scheme == "http"@ {
        "ws"@
    } else {
        "wss"@
    }
}

/// The websocket address made of the parts of a URL: a host that is
/// missing is `localhost`, a port that is missing is 8080.
pub open spec fn websocket_url(parts: (Seq<char>, Option<Seq<char>>, Option<u16>, Seq<char>)) -> Seq<
    char,
> {
    websocket_scheme(parts.0) + "://"@ + (match parts.1 {
        Some(host) => host,
        None => "localhost"@,
    }) + ":"@ + decimal(
        (match parts.2 {
            Some(port) => port,
            None => 8080u16,
        }) as nat,
    ) + parts.3
}

/// The websocket address made of the parts of a URL.
pub fn websocket_url_from(parts: &UrlParts) -> (r: String)
    ensures
        r@ == websocket_url(parts.parts()),
{
    let mut r = if same_text(parts.scheme.as_str(), "ws") || same_text(
        parts.scheme.as_str(),
        "http",
    ) {
        "ws".to_owned()
    } else {
        "wss".to_owned()
    };
    r.append("://");
    match &parts.host {
        Some(host) => r.append(host.as_str()),
        None => r.append("localhost"),
    }
    r.append(":");
    let port: u16 = match parts.port {
        Some(port) => port,
        None => 8080,
    };
    r.append(decimal_text(port as u64).as_str());
    r.append(parts.path.as_str());
    r
}

/// The websocket address of the service at `url`; `Parse` where `url` is
/// no URL.
pub fn create_websocket_url(url: &str) -> (r: Result<String, Error>)
    ensures
        match url_parts(url@) {
            Some(parts) => r matches Ok(s) && s@ == websocket_url(parts),
            None => r matches Err(Error::Parse(_)),
        },
{
    match parse_url(url) {
        Some(parts) => Ok(websocket_url_from(&parts)),
        None => Err(Error::Parse(concat("Could not parse URL: ", url))),
    }
}

/// What a service falls back on where nothing else is said.
#[derive(Debug, PartialEq, Eq)]
pub struct Defaults {
    name: String,
    config_file: String,
    url: String,
    ip: String,
    port: u16,
}

/// Defaults as a value.
pub struct DefaultsView {
    pub name: Seq<char>,
    pub config_file: Seq<char>,
    pub url: Seq<char>,
    pub ip: Seq<char>,
    pub port: u16,
}

impl View for Defaults {
    type V = DefaultsView;

    closed spec fn view(&self) -> DefaultsView {
        DefaultsView {
            name: self.name@,
            config_file: self.config_file@,
            url: self.url@,
            ip: self.ip@,
            port: self.port,
        }
    }
}

impl Clone for Defaults {
    fn clone(&self) -> (r: Self)
        ensures
            r@ == self@,
    {
        Defaults {
            name: self.name.clone(),
            config_file: self.config_file.clone(),
            url: self.url.clone(),
            ip: self.ip.clone(),
            port: self.port,
        }
    }
}

/// `given`, or `fallback` where nothing is given.
pub open spec fn text_or(given: Option<String>, fallback: Seq<char>) -> Seq<char> {
    match given {
        Some(s) => s@,
        None => fallback,
    }
}

/// `given`, or a copy of `fallback` where nothing is given.
fn or_text(given: Option<String>, fallback: &str) -> (r: String)
    ensures
        r@ == text_or(given, fallback@),
{
    match given {
        Some(s) => s,
        None => fallback.to_owned(),
    }
}

impl Defaults {
    /// The defaults made of what is given. What is not given is: the name
    /// `default_service`, the configuration file `fallback_config_file`, the
    /// URL `http://localhost:8000`, the address `127.0.0.1`, the port 8042.
    pub fn parse(
        name: Option<String>,
        config_file: Option<String>,
        url: Option<String>,
        ip: Option<String>,
        port: Option<u16>,
        fallback_config_file: &str,
    ) -> (r: Self)
        ensures
            r@ == (DefaultsView {
                name: text_or(name, "default_service"@),
                config_file: text_or(config_file, fallback_config_file@),
                url: text_or(url, "http://localhost:8000"@),
                ip: text_or(ip, "127.0.0.1"@),
                port: match port {
                    Some(p) => p,
                    None => 8042,
                },
            }),
    {
        Defaults {
            name: or_text(name, "default_service"),
            config_file: or_text(config_file, fallback_config_file),
            url: or_text(url, "http://localhost:8000"),
            ip: or_text(ip, "127.0.0.1"),
            port: match port {
                Some(p) => p,
                None => 8042,
            },
        }
    }

    pub fn name(&self) -> (r: String)
        ensures
            r@ == self@.name,
    {
        self.name.clone()
    }

    pub fn config_file(&self) -> (r: String)
        ensures
            r@ == self@.config_file,
    {
        self.config_file.clone()
    }

    pub fn url(&self) -> (r: String)
        ensures
            r@ == self@.url,
    {
        self.url.clone()
    }

    pub fn ip(&self) -> (r: String)
        ensures
            r@ == self@.ip,
    {
        self.ip.clone()
    }

    pub fn port(&self) -> (r: u16)
        ensures
            r == self@.port,
    {
        self.port
    }
}

/// A server entry as a value.
pub struct ServerConfigView {
    pub name: Seq<char>,
    pub url: Seq<char>,
    pub inner_key: Seq<u8>,
    pub outer_key: Seq<u8>,
}

impl ServerConfigView {
    /// The entry that stands for no server.
    pub open spec fn is_null(self) -> bool {
        self.name.len() == 0
    }

    /// The entry as it is shown: name and address, never the keys.
    pub open spec fn text(self) -> Seq<char> {
        "ServerConfig { name: "@ + self.name + ", url: "@ + self.url + " }"@
    }
}

impl InviteView {
    /// The server entry that accepting this invitation makes, once the
    /// websocket address `url` of the service has been worked out: it
    /// carries the invitation's name and its two keys.
    pub open spec fn server(self, url: Seq<char>) -> ServerConfigView {
        ServerConfigView { name: self.name, url, inner_key: self.inner_key, outer_key: self.outer_key }
    }
}

/// A server that this service connects to.
#[derive(PartialEq, Eq)]
pub struct ServerConfig {
    name: String,
    url: String,
    inner_key: Key,
    outer_key: Key,
}

impl View for ServerConfig {
    type V = ServerConfigView;

    closed spec fn view(&self) -> ServerConfigView {
        ServerConfigView {
            name: self.name@,
            url: self.url@,
            inner_key: self.inner_key.data@,
            outer_key: self.outer_key.data@,
        }
    }
}

impl Clone for ServerConfig {
    fn clone(&self) -> (r: Self)
        ensures
            r@ == self@,
    {
        ServerConfig {
            name: self.name.clone(),
            url: self.url.clone(),
            inner_key: self.inner_key.clone(),
            outer_key: self.outer_key.clone(),
        }
    }
}

impl ServerConfig {
    /// A server entry for `name` at `url`, with two fresh keys. Where `url`
    /// is no URL the entry has no address.
    pub fn new(name: String, url: String) -> (r: Self)
        ensures
            r@.name == name@,
            r@.url == match url_parts(url@) {
                Some(parts) => websocket_url(parts),
                None => Seq::<char>::empty(),
            },
            r@.inner_key.len() == KEY_LENGTH,
            r@.outer_key.len() == KEY_LENGTH,
    {
        let url = match create_websocket_url(url.as_str()) {
            Ok(url) => url,
            Err(_) => String::new(),
        };
        ServerConfig { name, url, inner_key: Key::generate(), outer_key: Key::generate() }
    }

    /// The server entry made of its parts, as they are kept on file.
    pub fn from_parts(name: String, url: String, inner_key: Key, outer_key: Key) -> (r: Self)
        ensures
            r@ == (ServerConfigView {
                name: name@,
                url: url@,
                inner_key: inner_key.data@,
                outer_key: outer_key.data@,
            }),
    {
        ServerConfig { name, url, inner_key, outer_key }
    }

    /// The server entry that accepting `invite` makes: the invitation's
    /// name and keys, and the websocket address of its URL. `Parse` where
    /// that is no URL.
    pub fn from_invite(invite: &Invite) -> (r: Result<Self, Error>)
        ensures
            match url_parts(invite@.url) {
                Some(parts) => r matches Ok(s) && s@ == invite@.server(websocket_url(parts)),
                None => r matches Err(Error::Parse(_)),
            },
    {
        match create_websocket_url(invite.url().as_str()) {
            Ok(url) => Ok(
                ServerConfig {
                    name: invite.name(),
                    url,
                    inner_key: invite.inner_key(),
                    outer_key: invite.outer_key(),
                },
            ),
            Err(e) => Err(e),
        }
    }

    /// The entry that stands for no server: no name, no address, no keys.
    pub fn create_null() -> (r: Self)
        ensures
            r@.name.len() == 0,
            r@.url.len() == 0,
            r@.inner_key.len() == 0,
            r@.outer_key.len() == 0,
    {
        ServerConfig {
            name: String::new(),
            url: String::new(),
            inner_key: Key::null(),
            outer_key: Key::null(),
        }
    }

    pub fn is_null(&self) -> (r: bool)
        ensures
            r == self@.is_null(),
    {
        self.name.as_str().unicode_len() == 0
    }

    /// The entry as a peer.
    pub fn to_peer(&self) -> (r: PeerConfig)
        ensures
            r@ == PeerConfigView::Server(self@),
    {
        PeerConfig::from_server(self)
    }

    /// The websocket address of the server; `Null` where the entry has
    /// none.
    pub fn get_websocket_url(&self) -> (r: Result<String, Error>)
        ensures
            self@.url.len() > 0 ==> (r matches Ok(s) && s@ == self@.url),
            self@.url.len() == 0 ==> r matches Err(Error::Null(_)),
    {
        if self.url.as_str().unicode_len() == 0 {
            return Err(Error::Null("No URL provided.".to_owned()));
        }
        Ok(self.url.clone())
    }

    pub fn name(&self) -> (r: String)
        ensures
            r@ == self@.name,
    {
        self.name.clone()
    }

    pub fn url(&self) -> (r: String)
        ensures
            r@ == self@.url,
    {
        self.url.clone()
    }

    pub fn inner_key(&self) -> (r: Key)
        ensures
            r.data@ == self@.inner_key,
    {
        self.inner_key.clone()
    }

    pub fn outer_key(&self) -> (r: Key)
        ensures
            r.data@ == self@.outer_key,
    {
        self.outer_key.clone()
    }

    /// The entry as it is shown: name and address, never the keys.
    pub fn to_string(&self) -> (r: String)
        ensures
            r@ == self@.text(),
    {
        let mut r = "ServerConfig { name: ".to_owned();
        r.append(self.name.as_str());
        r.append(", url: ");
        r.append(self.url.as_str());
        r.append(" }");
        r
    }
}

/// A client entry as a value.
pub struct ClientConfigView {
    pub name: Option<Seq<char>>,
    pub ip: Option<IpOrRangeView>,
    pub inner_key: Seq<u8>,
    pub outer_key: Seq<u8>,
}

impl ClientConfigView {
    /// The entry that stands for no client.
    pub open spec fn is_null(self) -> bool {
        self.ip is None
    }

    /// Whether the client may connect from `address`.
    pub open spec fn allows(self, address: IpAddress) -> bool {
        match self.ip {
            Some(ip) => ip.allows(address),
            None => false,
        }
    }

    /// The invitation that the service `name` at `url` hands to this
    /// client: it carries the two keys of the entry.
    pub open spec fn invite(self, name: Seq<char>, url: Seq<char>) -> InviteView {
        InviteView { name, url, inner_key: self.inner_key, outer_key: self.outer_key }
    }

    /// The entry as it is shown: name and address, never the keys.
    pub open spec fn text(self) -> Seq<char> {
        "ClientConfig { name: "@ + (match self.name {
            Some(name) => name,
            None => "null"@,
        }) + ", ip: "@ + (match self.ip {
            Some(ip) => ip.text(),
            None => "None"@,
        }) + " }"@
    }
}

/// A client that may connect to this service.
#[derive(PartialEq, Eq)]
pub struct ClientConfig {
    name: Option<String>,
    ip: Option<IpOrRange>,
    inner_key: Key,
    outer_key: Key,
}

impl View for ClientConfig {
    type V = ClientConfigView;

    closed spec fn view(&self) -> ClientConfigView {
        ClientConfigView {
            name: match self.name {
                Some(n) => Some(n@),
                None => None,
            },
            ip: match self.ip {
                Some(ip) => Some(ip@),
                None => None,
            },
            inner_key: self.inner_key.data@,
            outer_key: self.outer_key.data@,
        }
    }
}

impl Clone for ClientConfig {
    fn clone(&self) -> (r: Self)
        ensures
            r@ == self@,
    {
        ClientConfig {
            name: match &self.name {
                Some(n) => Some(n.clone()),
                None => None,
            },
            ip: match &self.ip {
                Some(ip) => Some(ip.clone()),
                None => None,
            },
            inner_key: self.inner_key.clone(),
            outer_key: self.outer_key.clone(),
        }
    }
}

impl ClientConfig {
    /// A client entry for `name`, allowed to connect from `ip`, with two
    /// fresh keys.
    pub fn new(name: &str, ip: &IpOrRange) -> (r: Self)
        ensures
            r@.name == Some(name@),
            r@.ip == Some(ip@),
            r@.inner_key.len() == KEY_LENGTH,
            r@.outer_key.len() == KEY_LENGTH,
    {
        ClientConfig {
            name: Some(name.to_owned()),
            ip: Some(ip.clone()),
            inner_key: Key::generate(),
            outer_key: Key::generate(),
        }
    }

    /// The client entry made of its parts, as they are kept on file.
    pub fn from_parts(
        name: Option<String>,
        ip: Option<IpOrRange>,
        inner_key: Key,
        outer_key: Key,
    ) -> (r: Self)
        ensures
            r@.name == match name {
                Some(n) => Some(n@),
                None => None,
            },
            r@.ip == match ip {
                Some(range) => Some(range@),
                None => None,
            },
            r@.inner_key == inner_key.data@,
            r@.outer_key == outer_key.data@,
    {
        ClientConfig { name, ip, inner_key, outer_key }
    }

    /// The entry that stands for no client: no name, no address, no keys.
    pub fn create_null() -> (r: Self)
        ensures
            r@.name is None,
            r@.ip is None,
            r@.inner_key.len() == 0,
            r@.outer_key.len() == 0,
    {
        ClientConfig { name: None, ip: None, inner_key: Key::null(), outer_key: Key::null() }
    }

    pub fn is_null(&self) -> (r: bool)
        ensures
            r == self@.is_null(),
    {
        self.ip.is_none()
    }

    /// Whether the client may connect from `addr`.
    pub fn matches(&self, addr: IpAddress) -> (r: bool)
        ensures
            r == self@.allows(addr),
    {
        match &self.ip {
            Some(ip) => ip.matches(&addr),
            None => false,
        }
    }

    /// The entry as a peer.
    pub fn to_peer(&self) -> (r: PeerConfig)
        ensures
            r@ == PeerConfigView::Client(self@),
    {
        PeerConfig::from_client(self)
    }

    pub fn name(&self) -> (r: Option<String>)
        ensures
            r is Some <==> self@.name is Some,
            r matches Some(n) ==> Some(n@) == self@.name,
    {
        match &self.name {
            Some(n) => Some(n.clone()),
            None => None,
        }
    }

    pub fn ip(&self) -> (r: Option<IpOrRange>)
        ensures
            r is Some <==> self@.ip is Some,
            r matches Some(ip) ==> Some(ip@) == self@.ip,
    {
        match &self.ip {
            Some(ip) => Some(ip.clone()),
            None => None,
        }
    }

    pub fn inner_key(&self) -> (r: Key)
        ensures
            r.data@ == self@.inner_key,
    {
        self.inner_key.clone()
    }

    pub fn outer_key(&self) -> (r: Key)
        ensures
            r.data@ == self@.outer_key,
    {
        self.outer_key.clone()
    }

    /// The entry as it is shown: name and address, never the keys.
    pub fn to_string(&self) -> (r: String)
        ensures
            r@ == self@.text(),
    {
        let mut r = "ClientConfig { name: ".to_owned();
        match &self.name {
            Some(name) => r.append(name.as_str()),
            None => r.append("null"),
        }
        r.append(", ip: ");
        match &self.ip {
            Some(ip) => r.append(ip.to_string().as_str()),
            None => r.append("None"),
        }
        r.append(" }");
        r
    }
}

/// A peer entry as a value.
pub enum PeerConfigView {
    Server(ServerConfigView),
    Client(ClientConfigView),
    Null,
}

impl PeerConfigView {
    /// The entry stands for no peer.
    pub open spec fn is_null(self) -> bool {
        match self {
            PeerConfigView::Server(server) => server.is_null(),
            PeerConfigView::Client(client) => client.is_null(),
            PeerConfigView::Null => true,
        }
    }

    /// The name of the peer, where it has one.
    pub open spec fn name(self) -> Option<Seq<char>> {
        match self {
            PeerConfigView::Server(server) => Some(server.name),
            PeerConfigView::Client(client) => client.name,
            PeerConfigView::Null => None,
        }
    }

    /// The entry as it is shown.
    pub open spec fn text(self) -> Seq<char> {
        match self {
            PeerConfigView::Server(server) => server.text(),
            PeerConfigView::Client(client) => client.text(),
            PeerConfigView::Null => "PeerConfig { None }"@,
        }
    }
}

/// The other end of a connection: a server this service connects to, or a
/// client that connects to it.
#[derive(PartialEq, Eq)]
pub enum PeerConfig {
    Server(ServerConfig),
    Client(ClientConfig),
    /// No peer.
    Null,
}

impl View for PeerConfig {
    type V = PeerConfigView;

    open spec fn view(&self) -> PeerConfigView {
        match self {
            PeerConfig::Server(server) => PeerConfigView::Server(server@),
            PeerConfig::Client(client) => PeerConfigView::Client(client@),
            PeerConfig::Null => PeerConfigView::Null,
        }
    }
}

impl Clone for PeerConfig {
    fn clone(&self) -> (r: Self)
        ensures
            r@ == self@,
    {
        match self {
            PeerConfig::Server(server) => PeerConfig::Server(server.clone()),
            PeerConfig::Client(client) => PeerConfig::Client(client.clone()),
            PeerConfig::Null => PeerConfig::Null,
        }
    }
}

impl PeerConfig {
    pub fn from_server(server: &ServerConfig) -> (r: Self)
        ensures
            r@ == PeerConfigView::Server(server@),
    {
        PeerConfig::Server(server.clone())
    }

    pub fn from_client(client: &ClientConfig) -> (r: Self)
        ensures
            r@ == PeerConfigView::Client(client@),
    {
        PeerConfig::Client(client.clone())
    }

    pub fn create_null() -> (r: Self)
        ensures
            r@ == PeerConfigView::Null,
    {
        PeerConfig::Null
    }

    /// Whether the entry stands for no peer.
    pub fn is_null(&self) -> (r: bool)
        ensures
            r == self@.is_null(),
    {
        match self {
            PeerConfig::Server(server) => server.is_null(),
            PeerConfig::Client(client) => client.is_null(),
            PeerConfig::Null => true,
        }
    }

    pub fn is_client(&self) -> (r: bool)
        ensures
            r == (self@ is Client),
    {
        match self {
            PeerConfig::Client(_) => true,
            _ => false,
        }
    }

    pub fn is_server(&self) -> (r: bool)
        ensures
            r == (self@ is Server),
    {
        match self {
            PeerConfig::Server(_) => true,
            _ => false,
        }
    }

    /// The name of the peer, where it has one.
    pub fn name(&self) -> (r: Option<String>)
        ensures
            r is Some <==> self@.name() is Some,
            r matches Some(n) ==> Some(n@) == self@.name(),
    {
        match self {
            PeerConfig::Server(server) => Some(server.name()),
            PeerConfig::Client(client) => client.name(),
            PeerConfig::Null => None,
        }
    }

    /// The entry as it is shown.
    pub fn to_string(&self) -> (r: String)
        ensures
            r@ == self@.text(),
    {
        match self {
            PeerConfig::Server(server) => server.to_string(),
            PeerConfig::Client(client) => client.to_string(),
            PeerConfig::Null => "PeerConfig { None }".to_owned(),
        }
    }
}

/// How a service comes by its own key.
#[derive(Debug, PartialEq, Eq)]
pub enum EncryptionScheme {
    /// The key is derived from the value of the environment variable `key`.
    Environment { key: String },
    /// The key is derived from the name of the service: for development.
    Simple {},
}

/// An encryption scheme as a value.
pub enum EncryptionSchemeView {
    Environment { key: Seq<char> },
    Simple,
}

impl View for EncryptionScheme {
    type V = EncryptionSchemeView;

    open spec fn view(&self) -> EncryptionSchemeView {
        match self {
            EncryptionScheme::Environment { key } => EncryptionSchemeView::Environment { key: key@ },
            EncryptionScheme::Simple {  } => EncryptionSchemeView::Simple,
        }
    }
}

impl Clone for EncryptionScheme {
    fn clone(&self) -> (r: Self)
        ensures
            r@ == self@,
    {
        match self {
            EncryptionScheme::Environment { key } => EncryptionScheme::Environment {
                key: key.clone(),
            },
            EncryptionScheme::Simple {  } => EncryptionScheme::Simple {  },
        }
    }
}

/// The keys of a client entry and of the server entry made from the
/// invitation handed to that client are the same two keys.
pub proof fn law_invitation_mirrors(
    client: ClientConfigView,
    service_name: Seq<char>,
    service_url: Seq<char>,
    websocket: Seq<char>,
)
    ensures
        client.invite(service_name, service_url).server(websocket).inner_key == client.inner_key,
        client.invite(service_name, service_url).server(websocket).outer_key == client.outer_key,
        client.invite(service_name, service_url).server(websocket).name == service_name,
{
}

/// The views of a sequence of server entries.
pub open spec fn server_views(servers: Seq<ServerConfig>) -> Seq<ServerConfigView> {
    Seq::new(servers.len(), |i: int| servers[i]@)
}

/// The views of a sequence of client entries.
pub open spec fn client_views(clients: Seq<ClientConfig>) -> Seq<ClientConfigView> {
    Seq::new(clients.len(), |i: int| clients[i]@)
}

/// Whether one of the clients is named `name`.
pub open spec fn has_client(clients: Seq<ClientConfigView>, name: Seq<char>) -> bool {
    exists|i: int| 0 <= i < clients.len() && (#[trigger] clients[i]).name == Some(name)
}

/// Whether one of the servers is named `name`.
pub open spec fn has_server(servers: Seq<ServerConfigView>, name: Seq<char>) -> bool {
    exists|i: int| 0 <= i < servers.len() && (#[trigger] servers[i]).name == name
}

/// The clients that are not named `name`, in their order.
pub open spec fn clients_without(clients: Seq<ClientConfigView>, name: Seq<char>) -> Seq<
    ClientConfigView,
>
    decreases clients.len(),
{
    if clients.len() == 0 {
        Seq::empty()
    } else if clients.last().name == Some(name) {
        clients_without(clients.drop_last(), name)
    } else {
        clients_without(clients.drop_last(), name).push(clients.last())
    }
}

/// The servers that are not named `name`, in their order.
pub open spec fn servers_without(servers: Seq<ServerConfigView>, name: Seq<char>) -> Seq<
    ServerConfigView,
>
    decreases servers.len(),
{
    if servers.len() == 0 {
        Seq::empty()
    } else if servers.last().name == name {
        servers_without(servers.drop_last(), name)
    } else {
        servers_without(servers.drop_last(), name).push(servers.last())
    }
}

/// The configuration of a service as a value.
pub struct ServiceConfigView {
    pub name: Seq<char>,
    pub url: Seq<char>,
    pub ip: IpAddress,
    pub port: u16,
    pub servers: Seq<ServerConfigView>,
    pub clients: Seq<ClientConfigView>,
    pub encryption: Option<EncryptionSchemeView>,
}

/// Where the key of a service comes from.
pub enum KeySource {
    /// No scheme is set.
    Unset,
    /// The scheme names an environment variable, and its value is missing.
    Missing,
    /// The key is derived from this password.
    Password(Seq<char>),
}

impl ServiceConfigView {
    /// Where the key of the service comes from, given the value of the
    /// environment variable that its scheme may name.
    pub open spec fn key_source(self, variable: Option<Seq<char>>) -> KeySource {
        match self.encryption {
            None => KeySource::Unset,
            Some(EncryptionSchemeView::Simple) => KeySource::Password(self.name),
            Some(EncryptionSchemeView::Environment { key }) => match variable {
                Some(value) => KeySource::Password(value),
                None => KeySource::Missing,
            },
        }
    }

    /// The key of the service, where it has one.
    pub open spec fn key(self, variable: Option<Seq<char>>) -> Option<Seq<u8>> {
        match self.key_source(variable) {
            KeySource::Password(password) => password_key(password),
            _ => None,
        }
    }
}

/// The configuration of a service.
#[derive(PartialEq, Eq)]
pub struct ServiceConfig {
    name: String,
    url: String,
    ip: IpAddress,
    port: u16,
    servers: Vec<ServerConfig>,
    clients: Vec<ClientConfig>,
    encryption: Option<EncryptionScheme>,
}

impl View for ServiceConfig {
    type V = ServiceConfigView;

    closed spec fn view(&self) -> ServiceConfigView {
        ServiceConfigView {
            name: self.name@,
            url: self.url@,
            ip: self.ip,
            port: self.port,
            servers: server_views(self.servers@),
            clients: client_views(self.clients@),
            encryption: match self.encryption {
                Some(scheme) => Some(scheme@),
                None => None,
            },
        }
    }
}

/// Copies of the server entries, in order.
fn copy_servers(servers: &Vec<ServerConfig>) -> (r: Vec<ServerConfig>)
    ensures
        server_views(r@) == server_views(servers@),
{
    let mut r: Vec<ServerConfig> = Vec::new();
    let mut i: usize = 0;
    while i < servers.len()
        invariant
            i <= servers.len(),
            server_views(r@) == server_views(servers@).take(i as int),
        decreases servers.len() - i,
    {
        let ghost before = server_views(r@);
        r.push(servers[i].clone());
        proof {
            assert(server_views(r@) =~= before.push(servers[i as int]@));
            assert(server_views(servers@).take(i + 1) =~= server_views(servers@).take(
                i as int,
            ).push(servers[i as int]@));
        }
        i += 1;
    }
    proof {
        assert(server_views(servers@).take(servers.len() as int) =~= server_views(servers@));
    }
    r
}

/// Copies of the client entries, in order.
fn copy_clients(clients: &Vec<ClientConfig>) -> (r: Vec<ClientConfig>)
    ensures
        client_views(r@) == client_views(clients@),
{
    let mut r: Vec<ClientConfig> = Vec::new();
    let mut i: usize = 0;
    while i < clients.len()
        invariant
            i <= clients.len(),
            client_views(r@) == client_views(clients@).take(i as int),
        decreases clients.len() - i,
    {
        let ghost before = client_views(r@);
        r.push(clients[i].clone());
        proof {
            assert(client_views(r@) =~= before.push(clients[i as int]@));
            assert(client_views(clients@).take(i + 1) =~= client_views(clients@).take(
                i as int,
            ).push(clients[i as int]@));
        }
        i += 1;
    }
    proof {
        assert(client_views(clients@).take(clients.len() as int) =~= client_views(clients@));
    }
    r
}

impl Clone for ServiceConfig {
    fn clone(&self) -> (r: Self)
        ensures
            r@ == self@,
    {
        ServiceConfig {
            name: self.name.clone(),
            url: self.url.clone(),
            ip: self.ip,
            port: self.port,
            servers: copy_servers(&self.servers),
            clients: copy_clients(&self.clients),
            encryption: match &self.encryption {
                Some(scheme) => Some(scheme.clone()),
                None => None,
            },
        }
    }
}

/// A websocket address is never empty.
pub proof fn lemma_websocket_url_present(
    parts: (Seq<char>, Option<Seq<char>>, Option<u16>, Seq<char>),
)
    ensures
        websocket_url(parts).len() > 0,
{
    reveal_strlit("://");
}

impl ServiceConfig {
    /// The configuration of the service `name` at `url`, bound to the
    /// address `ip` and to `port`: without clients, servers or a scheme.
    /// `Parse` where `url` is no URL or `ip` no address.
    pub fn new(name: &str, url: &str, ip: &str, port: &u16) -> (r: Result<Self, Error>)
        ensures
            match (url_parts(url@), parse_address(ip@)) {
                (Some(parts), Some(address)) => r matches Ok(c) && c@ == (ServiceConfigView {
                    name: name@,
                    url: websocket_url(parts),
                    ip: address,
                    port: *port,
                    servers: Seq::empty(),
                    clients: Seq::empty(),
                    encryption: None,
                }),
                _ => r matches Err(Error::Parse(_)),
            },
    {
        match IpAddress::parse(ip) {
            Some(address) => ServiceConfig::new_at(name, url, address, *port),
            None => {
                Err(Error::Parse(concat("Could not parse IP address: ", ip)))
            },
        }
    }

    /// The configuration of the service `name` at `url`, bound to the
    /// address `ip` and to `port`: without clients, servers or a scheme.
    /// `Parse` where `url` is no URL.
    pub fn new_at(name: &str, url: &str, ip: IpAddress, port: u16) -> (r: Result<Self, Error>)
        ensures
            match url_parts(url@) {
                Some(parts) => r matches Ok(c) && c@ == (ServiceConfigView {
                    name: name@,
                    url: websocket_url(parts),
                    ip,
                    port,
                    servers: Seq::empty(),
                    clients: Seq::empty(),
                    encryption: None,
                }),
                None => r matches Err(Error::Parse(_)),
            },
    {
        match create_websocket_url(url) {
            Ok(url) => {
                let config = ServiceConfig {
                    name: name.to_owned(),
                    url,
                    ip,
                    port,
                    servers: Vec::new(),
                    clients: Vec::new(),
                    encryption: None,
                };
                proof {
                    assert(config@.servers =~= Seq::<ServerConfigView>::empty());
                    assert(config@.clients =~= Seq::<ClientConfigView>::empty());
                }
                Ok(config)
            },
            Err(e) => Err(e),
        }
    }

    /// The configuration made of its parts, as they are kept on file.
    pub fn from_parts(
        name: String,
        url: String,
        ip: IpAddress,
        port: u16,
        servers: Vec<ServerConfig>,
        clients: Vec<ClientConfig>,
        encryption: Option<EncryptionScheme>,
    ) -> (r: Self)
        ensures
            r@ == (ServiceConfigView {
                name: name@,
                url: url@,
                ip,
                port,
                servers: server_views(servers@),
                clients: client_views(clients@),
                encryption: match encryption {
                    Some(scheme) => Some(scheme@),
                    None => None,
                },
            }),
    {
        ServiceConfig { name, url, ip, port, servers, clients, encryption }
    }

    /// The scheme by which the service comes by its key, if one is set.
    pub fn encryption(&self) -> (r: Option<EncryptionScheme>)
        ensures
            r is Some <==> self@.encryption is Some,
            r matches Some(scheme) ==> Some(scheme@) == self@.encryption,
    {
        match &self.encryption {
            Some(scheme) => Some(scheme.clone()),
            None => None,
        }
    }

    /// The key of the service. `variable` is the value of the environment
    /// variable that the scheme names, where it names one and the variable
    /// is set. `Null` where no scheme is set, `Misconfigured` where the
    /// value is missing, `Crypto` where no key can be derived.
    pub fn key(&self, variable: Option<&str>) -> (r: Result<Key, Error>)
        ensures
            match self@.key_source(
                match variable {
                    Some(v) => Some(v@),
                    None => None,
                },
            ) {
                KeySource::Unset => r matches Err(Error::Null(_)),
                KeySource::Missing => r matches Err(Error::Misconfigured(_)),
                KeySource::Password(password) => match password_key(password) {
                    Some(key) => r matches Ok(k) && k.data@ == key && key.len() == KEY_LENGTH,
                    None => r matches Err(Error::Crypto(_)),
                },
            },
    {
        let derived = match &self.encryption {
            None => {
                return Err(
                    Error::Null(
                        "No encryption in use. Please choose a scheme from the options provided.".to_owned(),
                    ),
                );
            },
            Some(EncryptionScheme::Simple {  }) => Key::from_password(self.name.as_str()),
            Some(EncryptionScheme::Environment { key }) => match variable {
                Some(value) => Key::from_password(value),
                None => {
                    return Err(
                        Error::Misconfigured(concat("Could not get environment variable: ", key.as_str())),
                    );
                },
            },
        };
        match derived {
            Ok(key) => Ok(key),
            Err(e) => Err(Key::into_error(e)),
        }
    }

    /// The variable that the scheme names, where it names one: what the
    /// caller looks up in the environment before it asks for the key.
    pub fn key_variable(&self) -> (r: Option<String>)
        ensures
            match self@.encryption {
                Some(EncryptionSchemeView::Environment { key }) => r matches Some(s) && s@ == key,
                _ => r is None,
            },
    {
        match &self.encryption {
            Some(EncryptionScheme::Environment { key }) => Some(key.clone()),
            _ => None,
        }
    }

    /// From now on the key is derived from the environment variable `key`.
    pub fn set_environment_encryption(&mut self, key: &str) -> (r: Result<(), Error>)
        ensures
            r is Ok,
            final(self)@ == (ServiceConfigView {
                encryption: Some(EncryptionSchemeView::Environment { key: key@ }),
                ..old(self)@
            }),
    {
        self.encryption = Some(EncryptionScheme::Environment { key: key.to_owned() });
        Ok(())
    }

    /// From now on the key is derived from the name of the service.
    pub fn set_simple_encryption(&mut self) -> (r: Result<(), Error>)
        ensures
            r is Ok,
            final(self)@ == (ServiceConfigView {
                encryption: Some(EncryptionSchemeView::Simple),
                ..old(self)@
            }),
    {
        self.encryption = Some(EncryptionScheme::Simple {  });
        Ok(())
    }

    /// Seals a string under the key of the service. What comes out opens
    /// under that key to the JSON text of the string.
    pub fn encrypt(&self, data: &str, variable: Option<&str>) -> (r: Result<EncryptedData, Error>)
        ensures
            match self@.key(
                match variable {
                    Some(v) => Some(v@),
                    None => None,
                },
            ) {
                Some(key) => match r {
                    Ok(sealed) => can_seal(key.len(), encode_utf8(json_of_text(data@)).len())
                        && opened_text(key, sealed.data@, sealed.version) == Some(
                        json_of_text(data@),
                    ),
                    Err(e) => e is Crypto && !can_seal(
                        key.len(),
                        encode_utf8(json_of_text(data@)).len(),
                    ),
                },
                None => r is Err,
            },
    {
        match self.key(variable) {
            Ok(key) => match key.encrypt(data) {
                Ok(sealed) => Ok(sealed),
                Err(e) => Err(Key::into_error(e)),
            },
            Err(e) => Err(e),
        }
    }

    /// Opens sealed data under the key of the service and hands back the
    /// string whose JSON text it holds.
    pub fn decrypt(&self, data: &EncryptedData, variable: Option<&str>) -> (r: Result<String, Error>)
        ensures
            match self@.key(
                match variable {
                    Some(v) => Some(v@),
                    None => None,
                },
            ) {
                Some(key) => match opened_text(key, data.data@, data.version) {
                    Some(json) => match text_of_json(json) {
                        Some(text) => r matches Ok(s) && s@ == text,
                        None => r matches Err(Error::Crypto(_)),
                    },
                    None => r matches Err(Error::Crypto(_)),
                },
                None => r is Err,
            },
    {
        match self.key(variable) {
            Ok(key) => match key.decrypt(data) {
                Ok(text) => Ok(text),
                Err(e) => Err(Key::into_error(e)),
            },
            Err(e) => Err(e),
        }
    }

    pub fn clients(&self) -> (r: Vec<ClientConfig>)
        ensures
            client_views(r@) == self@.clients,
    {
        copy_clients(&self.clients)
    }

    pub fn servers(&self) -> (r: Vec<ServerConfig>)
        ensures
            server_views(r@) == self@.servers,
    {
        copy_servers(&self.servers)
    }

    pub fn ip(&self) -> (r: IpAddress)
        ensures
            r == self@.ip,
    {
        self.ip
    }

    pub fn port(&self) -> (r: u16)
        ensures
            r == self@.port,
    {
        self.port
    }

    pub fn name(&self) -> (r: String)
        ensures
            r@ == self@.name,
    {
        self.name.clone()
    }

    pub fn url(&self) -> (r: String)
        ensures
            r@ == self@.url,
    {
        self.url.clone()
    }

    /// Whether a client named `name` is configured.
    pub fn has_client(&self, name: &str) -> (r: bool)
        ensures
            r == has_client(self@.clients, name@),
    {
        let mut i: usize = 0;
        while i < self.clients.len()
            invariant
                i <= self.clients.len(),
                forall|k: int| 0 <= k < i ==> (#[trigger] self@.clients[k]).name != Some(name@),
            decreases self.clients.len() - i,
        {
            let found = match self.clients[i].name() {
                Some(n) => same_text(n.as_str(), name),
                None => false,
            };
            if found {
                proof {
                    assert(self@.clients[i as int].name == Some(name@));
                }
                return true;
            }
            i += 1;
        }
        false
    }

    /// Whether a server named `name` is configured.
    pub fn has_server(&self, name: &str) -> (r: bool)
        ensures
            r == has_server(self@.servers, name@),
    {
        let mut i: usize = 0;
        while i < self.servers.len()
            invariant
                i <= self.servers.len(),
                forall|k: int| 0 <= k < i ==> (#[trigger] self@.servers[k]).name != name@,
            decreases self.servers.len() - i,
        {
            if same_text(self.servers[i].name().as_str(), name) {
                proof {
                    assert(self@.servers[i as int].name == name@);
                }
                return true;
            }
            i += 1;
        }
        false
    }

    /// Lets the client `name` connect from `ip`, an address or a block of
    /// addresses, and hands back the invitation for it: the name and
    /// address of this service and the two fresh keys of the new entry.
    /// Refused, the configuration left as it is, with `Parse` where `ip` is
    /// neither, with `Peer` where the name is empty or taken.
    pub fn add_client(&mut self, name: &str, ip: &str) -> (r: Result<Invite, Error>)
        ensures
            match parse_ip_or_range(ip@) {
                None => r matches Err(Error::Parse(_)) && final(self)@ == old(self)@,
                Some(range) => if name@.len() == 0 || has_client(old(self)@.clients, name@) {
                    r matches Err(Error::Peer(_)) && final(self)@ == old(self)@
                } else {
                    &&& r matches Ok(invite)
                    &&& final(self)@.clients.len() == old(self)@.clients.len() + 1
                    &&& final(self)@ == (ServiceConfigView {
                        clients: old(self)@.clients.push(final(self)@.clients.last()),
                        ..old(self)@
                    })
                    &&& final(self)@.clients.last().name == Some(name@)
                    &&& final(self)@.clients.last().ip == Some(range)
                    &&& final(self)@.clients.last().inner_key.len() == KEY_LENGTH
                    &&& final(self)@.clients.last().outer_key.len() == KEY_LENGTH
                    &&& invite@ == final(self)@.clients.last().invite(old(self)@.name, old(self)@.url)
                },
            },
    {
        let range = match IpOrRange::new(ip) {
            Ok(range) => range,
            Err(e) => {
                return Err(e);
            },
        };
        if name.unicode_len() == 0 {
            return Err(Error::Peer("No client name provided.".to_owned()));
        }
        if self.has_client(name) {
            return Err(Error::Peer(concat("A client of this name already exists: ", name)));
        }
        let client = ClientConfig::new(name, &range);
        let invite = Invite::new(
            self.name.as_str(),
            self.url.as_str(),
            &client.inner_key,
            &client.outer_key,
        );
        let ghost before = client_views(self.clients@);
        self.clients.push(client);
        proof {
            assert(client_views(self.clients@) =~= before.push(client@));
        }
        Ok(invite)
    }

    /// Takes away the clients named `name`.
    pub fn remove_client(&mut self, name: &str) -> (r: Result<(), Error>)
        ensures
            r is Ok,
            final(self)@ == (ServiceConfigView {
                clients: clients_without(old(self)@.clients, name@),
                ..old(self)@
            }),
    {
        let mut kept: Vec<ClientConfig> = Vec::new();
        let ghost all = client_views(self.clients@);
        let mut i: usize = 0;
        while i < self.clients.len()
            invariant
                i <= self.clients.len(),
                all == client_views(self.clients@),
                client_views(kept@) == clients_without(all.take(i as int), name@),
            decreases self.clients.len() - i,
        {
            proof {
                assert(all.take(i + 1).drop_last() =~= all.take(i as int));
                assert(all.take(i + 1).last() == self.clients[i as int]@);
            }
            let named = match self.clients[i].name() {
                Some(n) => same_text(n.as_str(), name),
                None => false,
            };
            if !named {
                let ghost before = client_views(kept@);
                kept.push(self.clients[i].clone());
                proof {
                    assert(client_views(kept@) =~= before.push(self.clients[i as int]@));
                }
            }
            i += 1;
        }
        proof {
            assert(all.take(self.clients.len() as int) =~= all);
        }
        self.clients = kept;
        Ok(())
    }

    /// Accepts an invitation: the service that sent it becomes a server of
    /// this one, under the invitation's name, with its two keys, at the
    /// websocket address of its URL. Refused, the configuration left as it
    /// is, with `Peer` where a server of that name exists, with `Parse`
    /// where the URL is none.
    pub fn add_server(&mut self, invite: Invite) -> (r: Result<(), Error>)
        ensures
            if has_server(old(self)@.servers, invite@.name) {
                r matches Err(Error::Peer(_)) && final(self)@ == old(self)@
            } else {
                match url_parts(invite@.url) {
                    None => r matches Err(Error::Parse(_)) && final(self)@ == old(self)@,
                    Some(parts) => r is Ok && final(self)@ == (ServiceConfigView {
                        servers: old(self)@.servers.push(invite@.server(websocket_url(parts))),
                        ..old(self)@
                    }),
                }
            },
    {
        if self.has_server(invite.name().as_str()) {
            return Err(
                Error::Peer(concat("A server of this name already exists: ", invite.name().as_str())),
            );
        }
        let server = match ServerConfig::from_invite(&invite) {
            Ok(server) => server,
            Err(e) => {
                return Err(e);
            },
        };
        proof {
            lemma_websocket_url_present(url_parts(invite@.url).unwrap());
        }
        if server.url.as_str().unicode_len() == 0 {
            return Err(Error::Null("No URL provided.".to_owned()));
        }
        let ghost before = server_views(self.servers@);
        self.servers.push(server);
        proof {
            assert(server_views(self.servers@) =~= before.push(server@));
        }
        Ok(())
    }

    /// Takes away the servers named `name`.
    pub fn remove_server(&mut self, name: &str) -> (r: Result<(), Error>)
        ensures
            r is Ok,
            final(self)@ == (ServiceConfigView {
                servers: servers_without(old(self)@.servers, name@),
                ..old(self)@
            }),
    {
        let mut kept: Vec<ServerConfig> = Vec::new();
        let ghost all = server_views(self.servers@);
        let mut i: usize = 0;
        while i < self.servers.len()
            invariant
                i <= self.servers.len(),
                all == server_views(self.servers@),
                server_views(kept@) == servers_without(all.take(i as int), name@),
            decreases self.servers.len() - i,
        {
            proof {
                assert(all.take(i + 1).drop_last() =~= all.take(i as int));
                assert(all.take(i + 1).last() == self.servers[i as int]@);
            }
            if !same_text(self.servers[i].name().as_str(), name) {
                let ghost before = server_views(kept@);
                kept.push(self.servers[i].clone());
                proof {
                    assert(server_views(kept@) =~= before.push(self.servers[i as int]@));
                }
            }
            i += 1;
        }
        proof {
            assert(all.take(self.servers.len() as int) =~= all);
        }
        self.servers = kept;
        Ok(())
    }
}

} // verus!
