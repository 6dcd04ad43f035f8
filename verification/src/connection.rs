//! What a connection must pass before any job is exchanged: the
//! client must be known, must come from where it is allowed to come from,
//! and must hold the key of the hop.

use vstd::prelude::*;
use vstd::utf8::{decode_utf8, encode_utf8, encode_utf8_decode_utf8, encode_utf8_valid_utf8, valid_utf8};
use crate::agent::{Peer, PeerView};
use crate::config::{client_views, ClientConfig, ClientConfigView, ServiceConfig, ServiceConfigView};
use crate::crypto::{can_seal, derived_key, opened_bytes, utf8_text, EncryptedData, Key};
use crate::exchange::{peers_without, Exchange};
use crate::message::{first_frame, frame, framed, law_frame_reads_back, unframe, WireError};
use crate::net::IpAddress;
use crate::text::same_text;

verus! {

/// Why a handshake fails.
#[derive(Debug, PartialEq, Eq)]
pub enum ConnectionError {
    /// No client of that name is configured.
    UnknownPeer(String),
    /// The client connects from an address it is not allowed to use.
    BadAddress(String),
    /// The greeting does not open under the key of the hop, or names
    /// somebody else.
    BadHandshake(String),
}

/// The first of `clients` that is named `name`.
pub open spec fn client_named(clients: Seq<ClientConfigView>, name: Seq<char>) -> Option<
    ClientConfigView,
>
    decreases clients.len(),
{
    if clients.len() == 0 {
        None
    } else if clients[0].name == Some(name) {
        Some(clients[0])
    } else {
        client_named(clients.drop_first(), name)
    }
}

/// Looks up the client that claims to be `name` and connects from
/// `address`. Refused with `UnknownPeer` where no client of that name is
/// configured, with `BadAddress` where the client is not allowed to
/// connect from there.
pub fn accept(config: &ServiceConfig, name: &str, address: IpAddress) -> (r: Result<
    ClientConfig,
    ConnectionError,
>)
    ensures
        match client_named(config@.clients, name@) {
            None => r matches Err(ConnectionError::UnknownPeer(_)),
            Some(client) => if client.allows(address) {
                r matches Ok(c) && c@ == client
            } else {
                r matches Err(ConnectionError::BadAddress(_))
            },
        },
{
    let clients = config.clients();
    let ghost all = config@.clients;
    let mut i: usize = 0;
    proof {
        assert(all.skip(0) =~= all);
    }
    while i < clients.len()
        invariant
            i <= clients.len(),
            all == client_views(clients@),
            all == config@.clients,
            client_named(all, name@) == client_named(all.skip(i as int), name@),
        decreases clients.len() - i,
    {
        proof {
            assert(all.skip(i as int)[0] == clients[i as int]@);
            assert(all.skip(i as int).drop_first() =~= all.skip(i + 1));
        }
        let named = match clients[i].name() {
            Some(n) => same_text(n.as_str(), name),
            None => false,
        };
        if named {
            if clients[i].matches(address) {
                return Ok(clients[i].clone());
            } else {
                return Err(
                    ConnectionError::BadAddress("The client may not connect from this address".to_owned()),
                );
            }
        }
        i += 1;
    }
    Err(ConnectionError::UnknownPeer("No client of this name is configured".to_owned()))
}

/// The length of the number that each end draws afresh for a session.
pub const NONCE_LENGTH: usize = 32;

/// What a greeting says: the name of the agent behind its length, and then
/// the number that it drew for this session.
pub open spec fn greeting_bytes(name: Seq<char>, nonce: Seq<u8>) -> Seq<u8> {
    framed(encode_utf8(name)) + nonce
}

/// The name and the number that the bytes of a greeting say; nothing where
/// the bytes are no greeting.
pub open spec fn read_greeting(bytes: Seq<u8>) -> Option<(Seq<char>, Seq<u8>)> {
    match first_frame(bytes) {
        Some(name) => if valid_utf8(name) {
            Some((decode_utf8(name), bytes.skip(4 + name.len() as int)))
        } else {
            None
        },
        None => None,
    }
}

/// A greeting that is written reads back as what it says.
pub proof fn law_greeting_reads_back(name: Seq<char>, nonce: Seq<u8>)
    requires
        encode_utf8(name).len() <= u32::MAX,
    ensures
        read_greeting(greeting_bytes(name, nonce)) == Some((name, nonce)),
{
    law_frame_reads_back(encode_utf8(name), nonce);
    encode_utf8_valid_utf8(name);
    encode_utf8_decode_utf8(name);
}

/// Whether the agent `name` can greet under `key` with a number of
/// `nonce` bytes: the name is short enough for its length to be written,
/// and the greeting can be sealed under the key.
pub open spec fn can_greet(key: Seq<u8>, name: Seq<char>, nonce: nat) -> bool {
    encode_utf8(name).len() <= u32::MAX && can_seal(
        key.len(),
        4 + encode_utf8(name).len() + nonce,
    )
}

/// What a greeting says, where it opens under `key` and is a greeting.
pub open spec fn greeted(key: Seq<u8>, greeting: EncryptedData) -> Option<(Seq<char>, Seq<u8>)> {
    match opened_bytes(key, greeting.data@, greeting.version) {
        Some(bytes) => read_greeting(bytes),
        None => None,
    }
}

/// The greeting of the agent `name` with the number `nonce`, sealed under
/// the key of the hop. `BadHandshake` where it cannot be sealed under the
/// key.
pub fn greet_with(key: &Key, name: &str, nonce: &[u8]) -> (r: Result<
    EncryptedData,
    ConnectionError,
>)
    ensures
        r is Ok <==> can_greet(key.data@, name@, nonce@.len()),
        r matches Ok(sealed) ==> greeted(key.data@, sealed) == Some((name@, nonce@)),
        r matches Err(e) ==> e is BadHandshake,
{
    let mut bytes = match frame(name.as_bytes()) {
        Ok(bytes) => bytes,
        Err(_) => {
            return Err(ConnectionError::BadHandshake("The name is too long".to_owned()));
        },
    };
    let ghost head = bytes@;
    let mut i: usize = 0;
    while i < nonce.len()
        invariant
            i <= nonce.len(),
            bytes@ == head + nonce@.take(i as int),
        decreases nonce.len() - i,
    {
        bytes.push(nonce[i]);
        proof {
            assert(nonce@.take(i + 1) =~= nonce@.take(i as int).push(nonce@[i as int]));
            assert(bytes@ =~= head + nonce@.take(i + 1));
        }
        i += 1;
    }
    proof {
        assert(nonce@.take(nonce.len() as int) =~= nonce@);
        assert(bytes@ == greeting_bytes(name@, nonce@));
        law_greeting_reads_back(name@, nonce@);
    }
    match key.seal_bytes(bytes.as_slice()) {
        Ok(sealed) => Ok(sealed),
        Err(_) => Err(ConnectionError::BadHandshake("The greeting could not be sealed".to_owned())),
    }
}

/// The greeting of the agent `name` with a number drawn afresh, sealed
/// under the key of the hop, and the number. `BadHandshake` where the
/// greeting cannot be sealed under the key.
pub fn greet(key: &Key, name: &str) -> (r: Result<(EncryptedData, Vec<u8>), ConnectionError>)
    ensures
        r is Ok <==> can_greet(key.data@, name@, NONCE_LENGTH as nat),
        r matches Ok(pair) ==> pair.1@.len() == NONCE_LENGTH && greeted(key.data@, pair.0) == Some(
            (name@, pair.1@),
        ),
        r matches Err(e) ==> e is BadHandshake,
{
    let nonce = Key::generate().data;
    match greet_with(key, name, nonce.as_slice()) {
        Ok(sealed) => Ok((sealed, nonce)),
        Err(e) => Err(e),
    }
}

/// Whether a greeting is that of the agent `expected`, with a number of
/// the right length.
pub open spec fn greets_as(key: Seq<u8>, greeting: EncryptedData, expected: Seq<char>) -> bool {
    greeted(key, greeting) matches Some(said) && said.0 == expected && said.1.len()
        == NONCE_LENGTH
}

/// Opens the greeting of a peer that is expected to be `expected`, and
/// hands back the number that the peer drew. Refused with `BadHandshake`
/// where the greeting does not open under the key of the hop, as when the
/// peer holds another key, where it is no greeting, and where it names
/// somebody else.
pub fn expect_greeting(key: &Key, greeting: &EncryptedData, expected: &str) -> (r: Result<
    Vec<u8>,
    ConnectionError,
>)
    ensures
        r is Ok <==> greets_as(key.data@, *greeting, expected@),
        r matches Ok(nonce) ==> greeted(key.data@, *greeting) == Some((expected@, nonce@)),
        r matches Err(e) ==> e is BadHandshake,
{
    let bytes = match key.open_bytes(greeting) {
        Ok(bytes) => bytes,
        Err(_) => {
            return Err(
                ConnectionError::BadHandshake("The greeting does not open under the key".to_owned()),
            );
        },
    };
    proof {
        assert(bytes@.skip(0) =~= bytes@);
    }
    let (name, at) = match unframe(bytes.as_slice(), 0) {
        Some(found) => found,
        None => {
            return Err(ConnectionError::BadHandshake("The greeting is cut short".to_owned()));
        },
    };
    let name = match utf8_text(name) {
        Some(name) => name,
        None => {
            return Err(ConnectionError::BadHandshake("The greeting names nobody".to_owned()));
        },
    };
    if !same_text(name.as_str(), expected) {
        return Err(ConnectionError::BadHandshake("The peer is not who was expected".to_owned()));
    }
    if bytes.len() - at != NONCE_LENGTH {
        return Err(ConnectionError::BadHandshake("The greeting holds no number".to_owned()));
    }
    let mut nonce: Vec<u8> = Vec::new();
    let mut i: usize = at;
    while i < bytes.len()
        invariant
            at <= i <= bytes.len(),
            nonce@ == bytes@.subrange(at as int, i as int),
        decreases bytes.len() - i,
    {
        nonce.push(bytes[i]);
        proof {
            assert(bytes@.subrange(at as int, i + 1) =~= bytes@.subrange(at as int, i as int).push(
                bytes@[i as int],
            ));
        }
        i += 1;
    }
    proof {
        assert(bytes@.subrange(at as int, bytes.len() as int) =~= bytes@.skip(at as int));
    }
    Ok(nonce)
}

/// The salt under which the key of a session is derived.
pub open spec fn session_salt() -> Seq<u8> {
    encode_utf8("openportal.session"@)
}

/// The key of a session: derived from the key of the hop followed by the
/// number of the client and the number of the server. Both ends derive
/// the same key, for it depends on these three alone.
pub open spec fn session_secret(outer: Seq<u8>, client: Seq<u8>, server: Seq<u8>) -> Option<
    Seq<u8>,
> {
    derived_key(outer + client + server, session_salt())
}

/// The key under which the frames of a session are sealed, from the key
/// of the hop and the numbers that the two ends drew. `BadHandshake` where
/// none can be derived.
pub fn session_key(outer: &Key, client: &[u8], server: &[u8]) -> (r: Result<Key, ConnectionError>)
    ensures
        match session_secret(outer.data@, client@, server@) {
            Some(key) => r matches Ok(k) && k.data@ == key && key.len() == 32,
            None => r matches Err(ConnectionError::BadHandshake(_)),
        },
{
    let mut secret: Vec<u8> = Vec::new();
    append_bytes(&mut secret, outer.data.as_slice());
    append_bytes(&mut secret, client);
    append_bytes(&mut secret, server);
    proof {
        assert(secret@ =~= outer.data@ + client@ + server@);
    }
    match Key::from_secret(secret.as_slice(), "openportal.session".as_bytes()) {
        Ok(key) => Ok(key),
        Err(_) => Err(ConnectionError::BadHandshake("No session key can be derived".to_owned())),
    }
}

/// Writes `bytes` behind `out`.
fn append_bytes(out: &mut Vec<u8>, bytes: &[u8])
    ensures
        final(out)@ == old(out)@ + bytes@,
{
    let ghost before = out@;
    let mut i: usize = 0;
    while i < bytes.len()
        invariant
            i <= bytes.len(),
            out@ == before + bytes@.take(i as int),
        decreases bytes.len() - i,
    {
        out.push(bytes[i]);
        proof {
            assert(bytes@.take(i + 1) =~= bytes@.take(i as int).push(bytes@[i as int]));
            assert(out@ =~= before + bytes@.take(i + 1));
        }
        i += 1;
    }
    proof {
        assert(bytes@.take(bytes.len() as int) =~= bytes@);
    }
}

/// What the first message of a client says: its name in the clear behind
/// its length, so that the server can look up the key, then the version
/// of the sealed greeting, then the sealed greeting.
pub open spec fn hello_bytes(name: Seq<char>, greeting: EncryptedData) -> Seq<u8> {
    framed(encode_utf8(name)) + seq![greeting.version] + greeting.data@
}

/// What the bytes of a first message say: the name, and the version and
/// the bytes of the sealed greeting. `Incomplete` where the bytes are cut
/// short, `BadText` where the name is no text.
pub open spec fn read_hello_bytes(bytes: Seq<u8>) -> Result<(Seq<char>, u8, Seq<u8>), WireError> {
    match first_frame(bytes) {
        Some(name) => if !valid_utf8(name) {
            Err(WireError::BadText)
        } else if bytes.len() <= 4 + name.len() {
            Err(WireError::Incomplete)
        } else {
            Ok(
                (
                    decode_utf8(name),
                    bytes[4 + name.len() as int],
                    bytes.skip(5 + name.len() as int),
                ),
            )
        },
        None => Err(WireError::Incomplete),
    }
}

/// A first message that is written reads back as what it says.
pub proof fn law_hello_reads_back(name: Seq<char>, greeting: EncryptedData)
    requires
        encode_utf8(name).len() <= u32::MAX,
    ensures
        read_hello_bytes(hello_bytes(name, greeting)) == Ok::<
            (Seq<char>, u8, Seq<u8>),
            WireError,
        >((name, greeting.version, greeting.data@)),
{
    let tail = seq![greeting.version] + greeting.data@;
    let bytes = hello_bytes(name, greeting);
    assert(bytes =~= framed(encode_utf8(name)) + tail);
    law_frame_reads_back(encode_utf8(name), tail);
    encode_utf8_valid_utf8(name);
    encode_utf8_decode_utf8(name);
    let n = encode_utf8(name).len() as int;
    assert(bytes.skip(4 + n) == tail);
    assert(bytes[4 + n] == tail[0]);
    assert(bytes.skip(5 + n) =~= bytes.skip(4 + n).skip(1));
    assert(tail.skip(1) =~= greeting.data@);
}

/// The first message of the client `name`. `TooLong` where the name is
/// too long for its length to be written.
pub fn hello(name: &str, greeting: &EncryptedData) -> (r: Result<Vec<u8>, WireError>)
    ensures
        encode_utf8(name@).len() <= u32::MAX ==> (r matches Ok(bytes) && bytes@ == hello_bytes(
            name@,
            *greeting,
        )),
        encode_utf8(name@).len() > u32::MAX ==> r == Err::<Vec<u8>, WireError>(WireError::TooLong),
{
    let mut bytes = match frame(name.as_bytes()) {
        Ok(bytes) => bytes,
        Err(e) => {
            return Err(e);
        },
    };
    bytes.push(greeting.version);
    append_bytes(&mut bytes, greeting.data.as_slice());
    proof {
        assert(bytes@ =~= hello_bytes(name@, *greeting));
    }
    Ok(bytes)
}

/// The name and the sealed greeting that a first message holds.
/// `Incomplete` where the message is cut short, `BadText` where the name
/// is no text.
pub fn read_hello(bytes: &[u8]) -> (r: Result<(String, EncryptedData), WireError>)
    ensures
        match read_hello_bytes(bytes@) {
            Ok(said) => r matches Ok(pair) && pair.0@ == said.0 && pair.1.version == said.1
                && pair.1.data@ == said.2,
            Err(e) => r matches Err(found) && found == e,
        },
{
    proof {
        assert(bytes@.skip(0) =~= bytes@);
    }
    let (name, at) = match unframe(bytes, 0) {
        Some(found) => found,
        None => {
            return Err(WireError::Incomplete);
        },
    };
    let name = match utf8_text(name) {
        Some(name) => name,
        None => {
            return Err(WireError::BadText);
        },
    };
    if at >= bytes.len() {
        return Err(WireError::Incomplete);
    }
    let version = bytes[at];
    let mut data: Vec<u8> = Vec::new();
    let mut i: usize = at + 1;
    while i < bytes.len()
        invariant
            at + 1 <= i <= bytes.len(),
            data@ == bytes@.subrange(at + 1, i as int),
        decreases bytes.len() - i,
    {
        data.push(bytes[i]);
        proof {
            assert(bytes@.subrange(at + 1, i + 1) =~= bytes@.subrange(at + 1, i as int).push(
                bytes@[i as int],
            ));
        }
        i += 1;
    }
    proof {
        assert(bytes@.subrange(at + 1, bytes.len() as int) =~= bytes@.skip(at + 1));
    }
    Ok((name, EncryptedData { data, version }))
}

/// What a server makes of a client that says hello.
pub enum Welcome {
    /// No client of that name is configured.
    Unknown,
    /// The client connects from where it may not.
    Elsewhere,
    /// The greeting does not open under the client's key, or names
    /// somebody else.
    Impostor,
    /// The client is who it says: this is its entry and the number it drew.
    Known(ClientConfigView, Seq<u8>),
}

/// What the server makes of the client `name` that connects from
/// `address` with `greeting`.
pub open spec fn welcome_of(
    config: ServiceConfigView,
    name: Seq<char>,
    address: IpAddress,
    greeting: EncryptedData,
) -> Welcome {
    match client_named(config.clients, name) {
        None => Welcome::Unknown,
        Some(client) => if !client.allows(address) {
            Welcome::Elsewhere
        } else if greets_as(client.outer_key, greeting, name) {
            Welcome::Known(client, greeted(client.outer_key, greeting).unwrap().1)
        } else {
            Welcome::Impostor
        },
    }
}

/// The server's side of the handshake: looks up the client that says it
/// is `name`, holds its address against what the client may use, and
/// opens its greeting under the key of the hop. Only a client that passes
/// all three is noted as connected; a handshake that fails leaves the
/// exchange as it was.
pub fn welcome(
    config: &ServiceConfig,
    exchange: &mut Exchange,
    name: &str,
    zone: &str,
    address: IpAddress,
    greeting: &EncryptedData,
) -> (r: Result<(ClientConfig, Vec<u8>), ConnectionError>)
    ensures
        match welcome_of(config@, name@, address, *greeting) {
            Welcome::Unknown => r matches Err(ConnectionError::UnknownPeer(_)),
            Welcome::Elsewhere => r matches Err(ConnectionError::BadAddress(_)),
            Welcome::Impostor => r matches Err(ConnectionError::BadHandshake(_)),
            Welcome::Known(client, nonce) => r matches Ok(pair) && pair.0@ == client && pair.1@
                == nonce,
        },
        r is Err ==> final(exchange)@ == old(exchange)@,
        r is Ok ==> final(exchange)@ == peers_without(
            old(exchange)@,
            PeerView { name: name@, zone: zone@ },
        ).push(PeerView { name: name@, zone: zone@ }),
{
    let client = match accept(config, name, address) {
        Ok(client) => client,
        Err(e) => {
            return Err(e);
        },
    };
    let nonce = match expect_greeting(&client.outer_key(), greeting, name) {
        Ok(nonce) => nonce,
        Err(e) => {
            return Err(e);
        },
    };
    exchange.register(&Peer::new(name, zone));
    Ok((client, nonce))
}

} // verus!
