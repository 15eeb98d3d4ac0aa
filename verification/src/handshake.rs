//! The handshake that opens a session.
//!
//! The client names the service under which it can be reached. The server
//! draws a secret, sends its hash, and after the client's acknowledgement
//! delivers the secret to the named service by a connection of its own.
//! The client proves that it received the secret by sending it back. So a
//! peer can only claim a service that it really controls.
//!
//! The two sides are state machines: they are told what happened and say
//! what is to be done next. Receiving, sending, waiting and delivering the
//! secret are done by whoever drives them.

use vstd::prelude::*;
use vstd::string::*;
use crate::bytes::{from_hex, hex_bytes, is_hex32, to_hex, unhex32};
use crate::client::ServiceUrl;
use crate::crypto::{random_bytes, sha256, sha256_of};
use crate::protocol::{AttestProtocolError, Message};

verus! {

/// Seconds the server waits for the secret to come back.
pub const SERVER_COOKIE_TIMEOUT_SECS: u64 = 2;

/// Seconds the client waits for the secret to arrive.
pub const CLIENT_COOKIE_TIMEOUT_SECS: u64 = 10;

/// The service that `text` names, read as the JSON of a pair of host and
/// port by `serde_json`; `None` where the text is no such pair.
pub uninterp spec fn service_id_of_json(text: Seq<u8>) -> Option<(Seq<char>, u16)>;

/// The JSON that `serde_json` writes for a pair of host and port.
pub uninterp spec fn json_of_service_id(host: Seq<char>, port: u16) -> Option<Seq<u8>>;

/// Calls `serde_json::from_slice` for a pair of host and port. Trusted:
/// the result is the named service, and an error, with the outside
/// function's own words, exactly where there is none.
#[verifier::external_body]
fn parse_service_id(text: &[u8]) -> (r: Result<(String, u16), String>)
    ensures
        match r {
            Ok((host, port)) => service_id_of_json(text@) == Some((host@, port)),
            Err(_) => service_id_of_json(text@) is None,
        },
{
    serde_json::from_slice::<(String, u16)>(text).map_err(|e| e.to_string())
}

/// Calls `serde_json::to_vec` on a pair of host and port. Trusted: the
/// result is the named JSON, and an error exactly where there is none.
#[verifier::external_body]
fn service_id_json(host: &str, port: u16) -> (r: Result<Vec<u8>, String>)
    ensures
        match r {
            Ok(text) => json_of_service_id(host@, port) == Some(text@),
            Err(_) => json_of_service_id(host@, port) is None,
        },
{
    serde_json::to_vec(&(host, port)).map_err(|e| e.to_string())
}

/// A fresh secret for a handshake. The bytes are random.
pub fn new_cookie() -> (secret: [u8; 32]) {
    random_bytes()
}

/// Which side of a connection this is.
#[derive(Clone, Copy, Debug, PartialEq, Eq, Structural)]
pub enum Role {
    Server,
    Client,
}

/// What an attempt to receive a frame came to.
pub enum Received {
    /// The transport is closed.
    Closed,
    /// The transport failed; the text says how.
    Failed(String),
    Message(Message),
}

/// The text of the frame that was received, if it was a text frame.
pub open spec fn text_of(received: Received) -> Option<Seq<u8>> {
    match received {
        Received::Message(Message::Text(t)) => Some(t@),
        _ => None,
    }
}

/// `e` is the error for something other than a text frame having been
/// received.
pub open spec fn is_receive_error(received: Received, e: AttestProtocolError) -> bool {
    match received {
        Received::Closed => e == AttestProtocolError::SocketClosed,
        Received::Failed(why) => e == AttestProtocolError::SocketError(why),
        Received::Message(m) => !(m is Text) && e is IncorrectMessageOwned,
    }
}

/// The text of what was received; anything but a text frame is an error.
fn expect_text(received: Received, expected: &str) -> (r: Result<Vec<u8>, AttestProtocolError>)
    ensures
        match r {
            Ok(text) => text_of(received) == Some(text@),
            Err(e) => text_of(received) is None && is_receive_error(received, e),
        },
{
    match received {
        Received::Closed => Err(AttestProtocolError::SocketClosed),
        Received::Failed(why) => Err(AttestProtocolError::SocketError(why)),
        Received::Message(m) => m.only_text(expected),
    }
}

// ---------------------------------------------------------------------------
// The server's side
// ---------------------------------------------------------------------------

/// How far the server has come.
#[derive(Clone, Copy, Debug, PartialEq, Eq, Structural)]
pub enum ServerStage {
    /// Waiting for the client to name its service.
    AwaitIdentity,
    /// Waiting to learn whether a session with that service is open.
    AwaitConnectionCheck,
    /// Waiting to learn whether the challenge went out.
    AwaitChallengeSent,
    /// Waiting for the client's acknowledgement.
    AwaitAck,
    /// Waiting to learn whether the secret was delivered to the service.
    AwaitAuthentication,
    /// Waiting for the secret to come back.
    AwaitCookie,
    /// Waiting to learn whether the session was entered in the registry.
    AwaitRegistration,
    /// The session is open.
    Done,
    /// The handshake failed.
    Failed,
}

/// What the server is told.
pub enum ServerEvent {
    /// An attempt to receive a frame ended.
    Received(Received),
    /// Whether a session with the service is open already.
    ConnectionExists(bool),
    /// Whether the frame went out.
    Sent(bool),
    /// Whether the secret was delivered to the service.
    Authenticated(bool),
    /// The time to wait has run out.
    TimedOut,
    /// Whether the registry took this session as a new one.
    Registered(bool),
}

/// What is to be done next for the server.
pub enum ServerCommand {
    /// Receive a frame, however long it takes.
    Receive,
    /// Look up whether a session with the service is open.
    CheckConnection(ServiceUrl),
    /// Send the text.
    SendText(Vec<u8>),
    /// Deliver the secret to the service by a connection of its own.
    Authenticate { secret: [u8; 32], host: String, port: u16 },
    /// Receive a frame within so many seconds.
    ReceiveWithin(u64),
    /// Enter the session in the registry.
    Register(ServiceUrl),
    /// The session with the service is open.
    Established(ServiceUrl),
}

/// The server's side of a handshake.
pub struct ServerHandshake {
    stage: ServerStage,
    secret: [u8; 32],
    service: Option<ServiceUrl>,
}

impl ServerHandshake {
    pub closed spec fn stage(&self) -> ServerStage {
        self.stage
    }

    pub closed spec fn secret(&self) -> [u8; 32] {
        self.secret
    }

    /// The service the client named, once it has.
    pub closed spec fn service(&self) -> Option<ServiceUrl> {
        self.service
    }

    /// From the connection check on, the service is known.
    pub open spec fn wf(&self) -> bool {
        (self.stage() != ServerStage::AwaitIdentity && self.stage() != ServerStage::Failed)
            ==> self.service() is Some
    }

    /// A handshake that waits for the client to name its service. The
    /// first thing to do is to receive a frame.
    pub fn new(secret: [u8; 32]) -> (h: Self)
        ensures
            h.wf(),
            h.stage() == ServerStage::AwaitIdentity,
            h.secret() == secret,
            h.service() is None,
    {
        ServerHandshake { stage: ServerStage::AwaitIdentity, secret, service: None }
    }

    /// How far the handshake has come.
    pub fn current_stage(&self) -> (s: ServerStage)
        ensures
            s == self.stage(),
    {
        self.stage
    }

    fn fail(&mut self, e: AttestProtocolError) -> (r: Result<ServerCommand, AttestProtocolError>)
        ensures
            final(self).stage() == ServerStage::Failed,
            final(self).secret() == old(self).secret(),
            final(self).wf(),
            r == Err::<ServerCommand, AttestProtocolError>(e),
    {
        self.stage = ServerStage::Failed;
        Err(e)
    }
}

/// One step of the server's side of a handshake: takes what happened and
/// says what is to be done next. An error ends the handshake.
pub fn handshake_protocol_server(handshake: &mut ServerHandshake, event: ServerEvent) -> (r: Result<
    ServerCommand,
    AttestProtocolError,
>)
    requires
        old(handshake).wf(),
    ensures
        final(handshake).wf(),
        final(handshake).secret() == old(handshake).secret(),
        r is Err <==> final(handshake).stage() == ServerStage::Failed,
        server_stepped(*old(handshake), event, *final(handshake), r),
{
    match (handshake.stage, event) {
        (ServerStage::AwaitIdentity, ServerEvent::Received(received)) => {
            let text = match expect_text(
                received,
                "Expected Text Message to initiate protocol",
            ) {
                Ok(text) => text,
                Err(e) => {
                    return handshake.fail(e);
                },
            };
            match parse_service_id(text.as_slice()) {
                Ok((host, port)) => {
                    let service = ServiceUrl(host, port);
                    let asked = service.duplicate();
                    handshake.service = Some(service);
                    handshake.stage = ServerStage::AwaitConnectionCheck;
                    Ok(ServerCommand::CheckConnection(asked))
                },
                Err(why) => handshake.fail(AttestProtocolError::JsonError(why)),
            }
        },
        (ServerStage::AwaitConnectionCheck, ServerEvent::ConnectionExists(exists)) => {
            if exists {
                return handshake.fail(AttestProtocolError::AlreadyConnected);
            }
            let challenge = sha256(handshake.secret.as_slice());
            handshake.stage = ServerStage::AwaitChallengeSent;
            Ok(ServerCommand::SendText(to_hex(&challenge)))
        },
        (ServerStage::AwaitChallengeSent, ServerEvent::Sent(ok)) => {
            if !ok {
                return handshake.fail(AttestProtocolError::SocketClosed);
            }
            handshake.stage = ServerStage::AwaitAck;
            Ok(ServerCommand::Receive)
        },
        (ServerStage::AwaitAck, ServerEvent::Received(received)) => {
            let ack = match expect_text(received, "for challenge ack") {
                Ok(text) => text,
                Err(e) => {
                    return handshake.fail(e);
                },
            };
            if ack.len() != 0 {
                return handshake.fail(AttestProtocolError::NonZeroSync);
            }
            let (host, port) = match &handshake.service {
                Some(service) => (service.0.clone(), service.1),
                None => {
                    return handshake.fail(AttestProtocolError::InvalidSetup);
                },
            };
            handshake.stage = ServerStage::AwaitAuthentication;
            Ok(ServerCommand::Authenticate { secret: handshake.secret, host, port })
        },
        (ServerStage::AwaitAuthentication, ServerEvent::Authenticated(ok)) => {
            if !ok {
                return handshake.fail(AttestProtocolError::FailedToAuthenticate);
            }
            handshake.stage = ServerStage::AwaitCookie;
            Ok(ServerCommand::ReceiveWithin(SERVER_COOKIE_TIMEOUT_SECS))
        },
        (ServerStage::AwaitCookie, ServerEvent::TimedOut) => handshake.fail(
            AttestProtocolError::TimedOut,
        ),
        (ServerStage::AwaitCookie, ServerEvent::Received(received)) => {
            let cookie = match expect_text(received, "for challenge_response") {
                Ok(text) => text,
                Err(e) => {
                    return handshake.fail(e);
                },
            };
            let expected = to_hex(&handshake.secret);
            if !same_text(&cookie, &expected) {
                return handshake.fail(AttestProtocolError::CookieMissMatch);
            }
            let service = match &handshake.service {
                Some(service) => service.duplicate(),
                None => {
                    return handshake.fail(AttestProtocolError::InvalidSetup);
                },
            };
            handshake.stage = ServerStage::AwaitRegistration;
            Ok(ServerCommand::Register(service))
        },
        (ServerStage::AwaitRegistration, ServerEvent::Registered(newly)) => {
            if !newly {
                return handshake.fail(AttestProtocolError::AlreadyConnected);
            }
            let service = match &handshake.service {
                Some(service) => service.duplicate(),
                None => {
                    return handshake.fail(AttestProtocolError::InvalidSetup);
                },
            };
            handshake.stage = ServerStage::Done;
            Ok(ServerCommand::Established(service))
        },
        _ => handshake.fail(AttestProtocolError::InvalidSetup),
    }
}

/// Whether two texts are the same.
pub fn same_text(a: &Vec<u8>, b: &Vec<u8>) -> (r: bool)
    ensures
        r == (a@ == b@),
{
    if a.len() != b.len() {
        return false;
    }
    let n = a.len();
    let mut i: usize = 0;
    while i < n
        invariant
            0 <= i <= n,
            n == a@.len(),
            n == b@.len(),
            forall|j: int| 0 <= j < i ==> a@[j] == b@[j],
        decreases n - i,
    {
        if a[i] != b[i] {
            return false;
        }
        i += 1;
    }
    assert(a@ =~= b@);
    true
}

/// What one step of the server comes to.
///
/// The stages follow each other in the order of their declaration. At each
/// stage one kind of event is expected; any other ends the handshake with
/// `InvalidSetup`. A frame that is awaited must be a text frame.
///
/// - The first frame must name a service; the server asks whether a
///   session with it is open.
/// - If one is, the handshake ends with `AlreadyConnected`; else the hex
///   of the hash of the secret is sent.
/// - If sending fails, the handshake ends with `SocketClosed`.
/// - The acknowledgement must be empty, else the handshake ends with
///   `NonZeroSync`; then the secret is to be delivered to the service.
/// - If that fails, the handshake ends with `FailedToAuthenticate`; else
///   the secret is awaited for two seconds.
/// - If the time runs out, the handshake ends with `TimedOut`; if the text
///   is not the hex of the secret, with `CookieMissMatch`.
/// - If the registry does not take the session as a new one, the handshake
///   ends with `AlreadyConnected`.
pub open spec fn server_stepped(
    before: ServerHandshake,
    event: ServerEvent,
    after: ServerHandshake,
    r: Result<ServerCommand, AttestProtocolError>,
) -> bool {
    let same_service = after.service() == before.service();
    match (before.stage(), event) {
        (ServerStage::AwaitIdentity, ServerEvent::Received(received)) => {
            match text_of(received) {
                None => r matches Err(e) && is_receive_error(received, e),
                Some(text) => match service_id_of_json(text) {
                    None => r matches Err(e) && e is JsonError,
                    Some((host, port)) => {
                        &&& after.stage() == ServerStage::AwaitConnectionCheck
                        &&& after.service() matches Some(s) && s.0@ == host && s.1 == port
                        &&& r matches Ok(ServerCommand::CheckConnection(asked)) && asked.0@ == host
                            && asked.1 == port
                    },
                },
            }
        },
        (ServerStage::AwaitConnectionCheck, ServerEvent::ConnectionExists(exists)) => {
            if exists {
                r == Err::<ServerCommand, AttestProtocolError>(
                    AttestProtocolError::AlreadyConnected,
                )
            } else {
                &&& after.stage() == ServerStage::AwaitChallengeSent
                &&& same_service
                &&& r matches Ok(ServerCommand::SendText(text)) && text@ == hex_bytes(
                    sha256_of(before.secret()@),
                )
            }
        },
        (ServerStage::AwaitChallengeSent, ServerEvent::Sent(ok)) => {
            if ok {
                &&& after.stage() == ServerStage::AwaitAck
                &&& same_service
                &&& r matches Ok(ServerCommand::Receive)
            } else {
                r == Err::<ServerCommand, AttestProtocolError>(AttestProtocolError::SocketClosed)
            }
        },
        (ServerStage::AwaitAck, ServerEvent::Received(received)) => {
            match text_of(received) {
                None => r matches Err(e) && is_receive_error(received, e),
                Some(text) => {
                    if text.len() != 0 {
                        r == Err::<ServerCommand, AttestProtocolError>(
                            AttestProtocolError::NonZeroSync,
                        )
                    } else {
                        &&& after.stage() == ServerStage::AwaitAuthentication
                        &&& same_service
                        &&& r matches Ok(ServerCommand::Authenticate { secret, host, port })
                            && secret == before.secret() && Some(ServiceUrl(host, port))
                            == before.service()
                    }
                },
            }
        },
        (ServerStage::AwaitAuthentication, ServerEvent::Authenticated(ok)) => {
            if ok {
                &&& after.stage() == ServerStage::AwaitCookie
                &&& same_service
                &&& r matches Ok(ServerCommand::ReceiveWithin(secs)) && secs
                    == SERVER_COOKIE_TIMEOUT_SECS
            } else {
                r == Err::<ServerCommand, AttestProtocolError>(
                    AttestProtocolError::FailedToAuthenticate,
                )
            }
        },
        (ServerStage::AwaitCookie, ServerEvent::TimedOut) => r == Err::<
            ServerCommand,
            AttestProtocolError,
        >(AttestProtocolError::TimedOut),
        (ServerStage::AwaitCookie, ServerEvent::Received(received)) => {
            match text_of(received) {
                None => r matches Err(e) && is_receive_error(received, e),
                Some(text) => {
                    if text != hex_bytes(before.secret()@) {
                        r == Err::<ServerCommand, AttestProtocolError>(
                            AttestProtocolError::CookieMissMatch,
                        )
                    } else {
                        &&& after.stage() == ServerStage::AwaitRegistration
                        &&& same_service
                        &&& r matches Ok(ServerCommand::Register(s)) && before.service() matches Some(
                            known,
                        ) && s.same(known)
                    }
                },
            }
        },
        (ServerStage::AwaitRegistration, ServerEvent::Registered(newly)) => {
            if newly {
                &&& after.stage() == ServerStage::Done
                &&& same_service
                &&& r matches Ok(ServerCommand::Established(s)) && before.service() matches Some(
                    known,
                ) && s.same(known)
            } else {
                r == Err::<ServerCommand, AttestProtocolError>(
                    AttestProtocolError::AlreadyConnected,
                )
            }
        },
        _ => r == Err::<ServerCommand, AttestProtocolError>(AttestProtocolError::InvalidSetup),
    }
}

// ---------------------------------------------------------------------------
// The client's side
// ---------------------------------------------------------------------------

/// How far the client has come.
#[derive(Clone, Copy, Debug, PartialEq, Eq, Structural)]
pub enum ClientStage {
    /// Waiting to learn whether the identity went out.
    AwaitIdentitySent,
    /// Waiting for the hash of the secret.
    AwaitChallenge,
    /// Waiting to learn whether the acknowledgement went out.
    AwaitAckSent,
    /// Waiting for the secret to arrive by the other way.
    AwaitCookie,
    /// Waiting to learn whether the secret went out.
    AwaitCookieSent,
    /// The session is open.
    Done,
    /// The handshake failed.
    Failed,
}

/// What the client is told.
pub enum ClientEvent {
    /// An attempt to receive a frame ended.
    Received(Received),
    /// Whether the frame went out.
    Sent(bool),
    /// The secret arrived.
    Cookie([u8; 32]),
    /// The time to wait has run out.
    TimedOut,
    /// Nobody can hand over the secret any more.
    CookieChannelDropped,
}

/// What is to be done next for the client.
pub enum ClientCommand {
    /// Send the text.
    SendText(Vec<u8>),
    /// Receive a frame, however long it takes.
    Receive,
    /// Register in the cookie jar that the secret with this hash is
    /// expected, then send the text, which is the acknowledgement.
    Acknowledge { challenge: [u8; 32], text: Vec<u8> },
    /// Wait so many seconds for the secret to arrive.
    AwaitCookie(u64),
    /// The session is open.
    Established,
}

/// The client's side of a handshake.
pub struct ClientHandshake {
    stage: ClientStage,
}

impl ClientHandshake {
    pub closed spec fn stage(&self) -> ClientStage {
        self.stage
    }

    /// Starts a handshake in the name of the service `me` and says what to
    /// send first. Fails where the service has no JSON form.
    pub fn start(me: &ServiceUrl) -> (r: Result<(Self, ClientCommand), AttestProtocolError>)
        ensures
            match r {
                Ok((h, command)) => {
                    &&& h.stage() == ClientStage::AwaitIdentitySent
                    &&& command matches ClientCommand::SendText(text) && json_of_service_id(
                        me.0@,
                        me.1,
                    ) == Some(text@)
                },
                Err(e) => e is JsonError && json_of_service_id(me.0@, me.1) is None,
            },
    {
        match service_id_json(me.0.as_str(), me.1) {
            Ok(text) => Ok(
                (
                    ClientHandshake { stage: ClientStage::AwaitIdentitySent },
                    ClientCommand::SendText(text),
                ),
            ),
            Err(why) => Err(AttestProtocolError::JsonError(why)),
        }
    }

    /// How far the handshake has come.
    pub fn current_stage(&self) -> (s: ClientStage)
        ensures
            s == self.stage(),
    {
        self.stage
    }

    fn fail(&mut self, e: AttestProtocolError) -> (r: Result<ClientCommand, AttestProtocolError>)
        ensures
            final(self).stage() == ClientStage::Failed,
            r == Err::<ClientCommand, AttestProtocolError>(e),
    {
        self.stage = ClientStage::Failed;
        Err(e)
    }
}

/// One step of the client's side of a handshake: takes what happened and
/// says what is to be done next. An error ends the handshake.
pub fn handshake_protocol_client(handshake: &mut ClientHandshake, event: ClientEvent) -> (r: Result<
    ClientCommand,
    AttestProtocolError,
>)
    ensures
        r is Err <==> final(handshake).stage() == ClientStage::Failed,
        client_stepped(old(handshake).stage(), event, final(handshake).stage(), r),
{
    match (handshake.stage, event) {
        (ClientStage::AwaitIdentitySent, ClientEvent::Sent(ok)) => {
            if !ok {
                return handshake.fail(AttestProtocolError::SocketClosed);
            }
            handshake.stage = ClientStage::AwaitChallenge;
            Ok(ClientCommand::Receive)
        },
        (ClientStage::AwaitChallenge, ClientEvent::Received(received)) => {
            let text = match expect_text(received, "for challenge hash type") {
                Ok(text) => text,
                Err(e) => {
                    return handshake.fail(e);
                },
            };
            match from_hex(text.as_slice()) {
                Some(challenge) => {
                    handshake.stage = ClientStage::AwaitAckSent;
                    Ok(ClientCommand::Acknowledge { challenge, text: Vec::new() })
                },
                None => handshake.fail(AttestProtocolError::InvalidChallengeHashString),
            }
        },
        (ClientStage::AwaitAckSent, ClientEvent::Sent(ok)) => {
            if !ok {
                return handshake.fail(AttestProtocolError::TimedOut);
            }
            handshake.stage = ClientStage::AwaitCookie;
            Ok(ClientCommand::AwaitCookie(CLIENT_COOKIE_TIMEOUT_SECS))
        },
        (ClientStage::AwaitCookie, ClientEvent::Cookie(secret)) => {
            handshake.stage = ClientStage::AwaitCookieSent;
            Ok(ClientCommand::SendText(to_hex(&secret)))
        },
        (ClientStage::AwaitCookie, ClientEvent::TimedOut) => handshake.fail(
            AttestProtocolError::TimedOut,
        ),
        (ClientStage::AwaitCookie, ClientEvent::CookieChannelDropped) => handshake.fail(
            AttestProtocolError::TimedOut,
        ),
        (ClientStage::AwaitCookieSent, ClientEvent::Sent(ok)) => {
            if !ok {
                return handshake.fail(AttestProtocolError::SocketClosed);
            }
            handshake.stage = ClientStage::Done;
            Ok(ClientCommand::Established)
        },
        _ => handshake.fail(AttestProtocolError::InvalidSetup),
    }
}

/// What one step of the client comes to.
///
/// - Once its identity went out, the client awaits the challenge.
/// - The challenge must be the hex of a hash, else the handshake ends with
///   `InvalidChallengeHashString`; the client then expects the secret
///   with that hash and acknowledges with the empty text.
/// - Once the acknowledgement went out, the secret is awaited for ten
///   seconds; if the acknowledgement could not be sent, if the time runs
///   out or if nobody can hand the secret over any more, the handshake
///   ends with `TimedOut`.
/// - The secret is sent back as hex. Where identity or secret cannot be
///   sent, the handshake ends with `SocketClosed`.
/// - Any event that is not expected at its stage ends the handshake with
///   `InvalidSetup`.
pub open spec fn client_stepped(
    before: ClientStage,
    event: ClientEvent,
    after: ClientStage,
    r: Result<ClientCommand, AttestProtocolError>,
) -> bool {
    match (before, event) {
        (ClientStage::AwaitIdentitySent, ClientEvent::Sent(ok)) => {
            if ok {
                after == ClientStage::AwaitChallenge && r matches Ok(ClientCommand::Receive)
            } else {
                r == Err::<ClientCommand, AttestProtocolError>(AttestProtocolError::SocketClosed)
            }
        },
        (ClientStage::AwaitChallenge, ClientEvent::Received(received)) => {
            match text_of(received) {
                None => r matches Err(e) && is_receive_error(received, e),
                Some(text) => {
                    if is_hex32(text) {
                        &&& after == ClientStage::AwaitAckSent
                        &&& r matches Ok(ClientCommand::Acknowledge { challenge, text: ack })
                            && challenge@ == unhex32(text) && ack@ == Seq::<u8>::empty()
                    } else {
                        r == Err::<ClientCommand, AttestProtocolError>(
                            AttestProtocolError::InvalidChallengeHashString,
                        )
                    }
                },
            }
        },
        (ClientStage::AwaitAckSent, ClientEvent::Sent(ok)) => {
            if ok {
                &&& after == ClientStage::AwaitCookie
                &&& r matches Ok(ClientCommand::AwaitCookie(secs)) && secs
                    == CLIENT_COOKIE_TIMEOUT_SECS
            } else {
                r == Err::<ClientCommand, AttestProtocolError>(AttestProtocolError::TimedOut)
            }
        },
        (ClientStage::AwaitCookie, ClientEvent::Cookie(secret)) => {
            &&& after == ClientStage::AwaitCookieSent
            &&& r matches Ok(ClientCommand::SendText(text)) && text@ == hex_bytes(secret@)
        },
        (ClientStage::AwaitCookie, ClientEvent::TimedOut) => r == Err::<
            ClientCommand,
            AttestProtocolError,
        >(AttestProtocolError::TimedOut),
        (ClientStage::AwaitCookie, ClientEvent::CookieChannelDropped) => r == Err::<
            ClientCommand,
            AttestProtocolError,
        >(AttestProtocolError::TimedOut),
        (ClientStage::AwaitCookieSent, ClientEvent::Sent(ok)) => {
            if ok {
                after == ClientStage::Done && r matches Ok(ClientCommand::Established)
            } else {
                r == Err::<ClientCommand, AttestProtocolError>(AttestProtocolError::SocketClosed)
            }
        },
        _ => r == Err::<ClientCommand, AttestProtocolError>(AttestProtocolError::InvalidSetup),
    }
}

/// The side of the handshake that a connection takes.
pub enum Handshake {
    Server(ServerHandshake),
    Client(ClientHandshake, ClientCommand),
}

/// Starts the handshake for a connection. A server has no channel for
/// requests of its own yet, a client must have one; any other combination
/// is `InvalidSetup`. The server's secret is drawn at random.
pub fn handshake_protocol(role: Role, has_requests: bool, me: &ServiceUrl) -> (r: Result<
    Handshake,
    AttestProtocolError,
>)
    ensures
        match (role, has_requests) {
            (Role::Server, false) => r matches Ok(Handshake::Server(h)) && h.wf() && h.stage()
                == ServerStage::AwaitIdentity,
            (Role::Client, true) => match r {
                Ok(Handshake::Client(h, command)) => {
                    &&& h.stage() == ClientStage::AwaitIdentitySent
                    &&& command matches ClientCommand::SendText(text) && json_of_service_id(
                        me.0@,
                        me.1,
                    ) == Some(text@)
                },
                Ok(_) => false,
                Err(e) => e is JsonError && json_of_service_id(me.0@, me.1) is None,
            },
            _ => r == Err::<Handshake, AttestProtocolError>(AttestProtocolError::InvalidSetup),
        },
{
    match (role, has_requests) {
        (Role::Server, false) => Ok(Handshake::Server(ServerHandshake::new(new_cookie()))),
        (Role::Client, true) => match ClientHandshake::start(me) {
            Ok((h, command)) => Ok(Handshake::Client(h, command)),
            Err(e) => Err(e),
        },
        _ => Err(AttestProtocolError::InvalidSetup),
    }
}

/// The secret comes back as it was sent: the text a client sends for a
/// secret is accepted by the server that drew that secret, and the text
/// for any other secret is not.
pub proof fn lemma_cookie_decides(secret: [u8; 32], returned: [u8; 32])
    ensures
        hex_bytes(returned@) == hex_bytes(secret@) <==> returned == secret,
{
    if hex_bytes(returned@) == hex_bytes(secret@) {
        crate::bytes::lemma_hex_injective(returned@, secret@);
        assert(returned =~= secret);
    }
}

/// The challenge a server sends is one that a client can read, and what
/// the client reads is the hash of the server's secret.
pub proof fn lemma_challenge_is_read(secret: [u8; 32], digest: [u8; 32])
    requires
        digest@ == sha256_of(secret@),
    ensures
        is_hex32(hex_bytes(sha256_of(secret@))),
        unhex32(hex_bytes(sha256_of(secret@))) == digest@,
{
    crate::bytes::lemma_hex_round_trip(digest@);
}

} // verus!
