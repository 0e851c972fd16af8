//! The rendezvous handshake that tells a running peer from a host that is
//! merely up.
//!
//! Over a fresh TCP connection to port 54321 the initiator writes the line
//! `PING_TAURI_APP\n`; a peer answers `TAURI_APP_HERE\n`. Any other answer,
//! or none, means "not a peer". Both sides read at most a fixed buffer of
//! bytes and look for the marker anywhere in what arrived.
use vstd::prelude::*;

use crate::text::{contains_bytes, mentions, occurs_at};

verus! {

/// The well-known port of the rendezvous listener.
pub const PORT: u16 = 54321;

/// How many bytes either side reads from a connection.
pub const READ_BUFFER_LEN: usize = 100;

/// `PING_TAURI_APP`: what a request must mention.
pub open spec fn ping_marker() -> Seq<u8> {
    seq![80u8, 73u8, 78u8, 71u8, 95u8, 84u8, 65u8, 85u8, 82u8, 73u8, 95u8, 65u8, 80u8, 80u8]
}

/// `TAURI_APP_HERE`: what a reply must mention.
pub open spec fn here_marker() -> Seq<u8> {
    seq![84u8, 65u8, 85u8, 82u8, 73u8, 95u8, 65u8, 80u8, 80u8, 95u8, 72u8, 69u8, 82u8, 69u8]
}

/// The request line `PING_TAURI_APP\n`.
pub open spec fn request_line() -> Seq<u8> {
    ping_marker().push(10u8)
}

/// The reply line `TAURI_APP_HERE\n`.
pub open spec fn reply_line() -> Seq<u8> {
    here_marker().push(10u8)
}

fn ping_marker_bytes() -> (r: Vec<u8>)
    ensures
        r@ == ping_marker(),
{
    let r: Vec<u8> = vec![80, 73, 78, 71, 95, 84, 65, 85, 82, 73, 95, 65, 80, 80];
    assert(r@ =~= ping_marker());
    r
}

fn here_marker_bytes() -> (r: Vec<u8>)
    ensures
        r@ == here_marker(),
{
    let r: Vec<u8> = vec![84, 65, 85, 82, 73, 95, 65, 80, 80, 95, 72, 69, 82, 69];
    assert(r@ =~= here_marker());
    r
}

/// The bytes that the initiator writes: `PING_TAURI_APP\n`.
pub fn request_message() -> (r: Vec<u8>)
    ensures
        r@ == request_line(),
{
    let mut r = ping_marker_bytes();
    r.push(10);
    r
}

/// The bytes that a listener writes back to a request: `TAURI_APP_HERE\n`.
pub fn reply_message() -> (r: Vec<u8>)
    ensures
        r@ == reply_line(),
{
    let mut r = here_marker_bytes();
    r.push(10);
    r
}

/// Whether the bytes that came back from a peer identify it as the application.
pub fn is_peer_reply(received: &[u8]) -> (r: bool)
    ensures
        r == mentions(received@, here_marker()),
{
    let marker = here_marker_bytes();
    contains_bytes(received, marker.as_slice())
}

/// What a listener writes back to the bytes it read from a connection:
/// the reply line when they mention the request marker, nothing otherwise.
pub fn reply_for(received: &[u8]) -> (r: Option<Vec<u8>>)
    ensures
        mentions(received@, ping_marker()) ==> (r matches Some(m) && m@ == reply_line()),
        !mentions(received@, ping_marker()) ==> r is None,
{
    let marker = ping_marker_bytes();
    if contains_bytes(received, marker.as_slice()) {
        Some(reply_message())
    } else {
        None
    }
}

/// Where the initiating side of a handshake stands.
#[derive(Clone, Copy, Debug, PartialEq, Eq, Structural)]
pub enum ClientState {
    /// Opening the connection.
    Connecting,
    /// Connected; the request is to be written.
    Sending,
    /// The request is written; the reply is to be read.
    Receiving,
    /// The handshake is over: whether the other side is a peer.
    Done(bool),
}

/// What the connection did since the last step.
#[derive(Debug)]
pub enum ClientEvent {
    Connected,
    ConnectFailed,
    Sent,
    SendFailed,
    /// The bytes read, at most `READ_BUFFER_LEN` of them.
    Received(Vec<u8>),
    ReceiveFailed,
}

/// The next state of a handshake. Any failure, and any event that does not
/// fit the state, ends it with "not a peer"; an ended handshake stays ended.
pub open spec fn client_next(state: ClientState, event: ClientEvent) -> ClientState {
    match state {
        ClientState::Done(found) => ClientState::Done(found),
        ClientState::Connecting => match event {
            ClientEvent::Connected => ClientState::Sending,
            _ => ClientState::Done(false),
        },
        ClientState::Sending => match event {
            ClientEvent::Sent => ClientState::Receiving,
            _ => ClientState::Done(false),
        },
        ClientState::Receiving => match event {
            ClientEvent::Received(bytes) => ClientState::Done(mentions(bytes@, here_marker())),
            _ => ClientState::Done(false),
        },
    }
}

impl ClientState {
    /// A handshake starts by connecting.
    pub fn start() -> (r: ClientState)
        ensures
            r == ClientState::Connecting,
    {
        ClientState::Connecting
    }

    /// Advances the handshake by what the connection did.
    pub fn step(self, event: &ClientEvent) -> (r: ClientState)
        ensures
            r == client_next(self, *event),
    {
        match self {
            ClientState::Done(found) => ClientState::Done(found),
            ClientState::Connecting => match event {
                ClientEvent::Connected => ClientState::Sending,
                _ => ClientState::Done(false),
            },
            ClientState::Sending => match event {
                ClientEvent::Sent => ClientState::Receiving,
                _ => ClientState::Done(false),
            },
            ClientState::Receiving => match event {
                ClientEvent::Received(bytes) => ClientState::Done(is_peer_reply(bytes.as_slice())),
                _ => ClientState::Done(false),
            },
        }
    }

    /// The answer of an ended handshake, `None` while it runs.
    pub fn outcome(&self) -> (r: Option<bool>)
        ensures
            r == (match *self {
                ClientState::Done(found) => Some(found),
                _ => None,
            }),
    {
        match self {
            ClientState::Done(found) => Some(*found),
            _ => None,
        }
    }
}

/// The rendezvous listener: not yet bound, or bound and answering.
#[derive(Clone, Copy, Debug, PartialEq, Eq, Structural)]
pub enum ListenerState {
    Idle,
    Listening,
}

impl ListenerState {
    /// The state after an attempt to bind the port: a listener that could not
    /// bind stays idle, and one that listens keeps listening.
    pub fn after_bind(self, bound: bool) -> (r: ListenerState)
        ensures
            self == ListenerState::Listening ==> r == ListenerState::Listening,
            self == ListenerState::Idle ==> r == (if bound {
                ListenerState::Listening
            } else {
                ListenerState::Idle
            }),
    {
        match self {
            ListenerState::Listening => ListenerState::Listening,
            ListenerState::Idle => if bound {
                ListenerState::Listening
            } else {
                ListenerState::Idle
            },
        }
    }

    /// Whether connections are to be answered.
    pub fn is_listening(&self) -> (r: bool)
        ensures
            r == (*self == ListenerState::Listening),
    {
        match self {
            ListenerState::Listening => true,
            ListenerState::Idle => false,
        }
    }
}

/// The two sides of the handshake fit together: a request mentions the
/// marker that a listener looks for, and an initiator that connects, writes
/// its request and reads back the listener's reply line concludes that it
/// found a peer. One that cannot connect concludes that it did not.
pub proof fn lemma_handshake_with_listener(reply: Vec<u8>)
    requires
        reply@ == reply_line(),
    ensures
        mentions(request_line(), ping_marker()),
        client_next(
            client_next(
                client_next(ClientState::Connecting, ClientEvent::Connected),
                ClientEvent::Sent,
            ),
            ClientEvent::Received(reply),
        ) == ClientState::Done(true),
        client_next(ClientState::Connecting, ClientEvent::ConnectFailed) == ClientState::Done(
            false,
        ),
{
    assert(request_line().subrange(0, 14) =~= ping_marker());
    assert(occurs_at(request_line(), 0, ping_marker()));
    assert(reply_line().subrange(0, 14) =~= here_marker());
    assert(occurs_at(reply_line(), 0, here_marker()));
}

} // verus!
