//! The messages of the peer protocol.
//!
//! After the handshake both ends speak the same language: a request or a
//! response, each tagged with a sequence number. A response answers the
//! request with the same number and must be of the kind that the request
//! asked for.

use vstd::prelude::*;
use vstd::string::*;
use crate::envelope::Envelope;

verus! {

/// Only this many requests may be outstanding.
pub const MAX_MESSAGE_DEFECIT: i64 = 10;

/// What became of one posted envelope.
#[derive(Clone, Copy, Debug, PartialEq, Eq, Structural)]
pub struct Outcome {
    pub success: bool,
}

/// A list of envelope hashes.
#[derive(Debug, PartialEq, Eq)]
pub struct Tips {
    pub tips: Vec<[u8; 32]>,
}

/// The secret of a handshake and the service that is to receive it.
#[derive(Debug, PartialEq, Eq)]
pub struct AuthenticationCookie {
    pub secret: [u8; 32],
    pub service_claim: (String, u16),
}

/// Asks for the newest envelope of every chain.
#[derive(Clone, Copy, Debug, PartialEq, Eq, Structural)]
pub struct LatestTips {}

/// Asks for the envelopes with the given hashes.
#[derive(Debug, PartialEq, Eq)]
pub struct SpecificTips {
    pub tips: Tips,
}

/// Hands envelopes over.
#[derive(Debug, PartialEq, Eq)]
pub struct Post {
    pub envelopes: Vec<Envelope>,
}

#[derive(Debug, PartialEq, Eq)]
pub enum AttestRequest {
    LatestTips(LatestTips),
    SpecificTips(SpecificTips),
    Post(Post),
}

#[derive(Debug, PartialEq, Eq)]
pub struct LatestTipsResponse(pub Vec<Envelope>);

#[derive(Debug, PartialEq, Eq)]
pub struct SpecificTipsResponse(pub Vec<Envelope>);

#[derive(Debug, PartialEq, Eq)]
pub struct PostResponse(pub Vec<Outcome>);

#[derive(Debug, PartialEq, Eq)]
pub enum AttestResponse {
    LatestTips(LatestTipsResponse),
    SpecificTips(SpecificTipsResponse),
    Post(PostResponse),
}

/// One frame of the protocol.
#[derive(Debug, PartialEq, Eq)]
pub enum AttestSocketProtocol {
    Request(u64, AttestRequest),
    Response(u64, AttestResponse),
}

/// The kind of a response: 0 for latest tips, 1 for specific tips, 2 for
/// the outcomes of a post.
#[derive(Clone, Copy, Debug, PartialEq, Eq, Structural)]
pub struct ResponseCode(pub u64);

/// What ends a session.
#[derive(Debug, PartialEq, Eq)]
pub enum AttestProtocolError {
    JsonError(String),
    ReqwetError(String),
    SocketError(String),
    HostnameUnknown,
    NonZeroSync,
    IncorrectMessageOwned(String),
    CookieMissMatch,
    TimedOut,
    SocketClosed,
    FailedToAuthenticate,
    AlreadyConnected,
    InvalidSetup,
    DatabaseError,
    ResponseTypeIncorrect,
    UnrequestedResponse,
    InvalidChallengeHashString,
}

/// A message as the transport delivers it. Text is carried as its UTF-8
/// bytes.
#[derive(Debug, PartialEq, Eq)]
pub enum Message {
    Text(Vec<u8>),
    Binary(Vec<u8>),
    Ping(Vec<u8>),
    Pong(Vec<u8>),
    Close,
}

impl AttestRequest {
    /// The kind of response that answers this request.
    pub open spec fn code(self) -> ResponseCode {
        match self {
            AttestRequest::LatestTips(_) => ResponseCode(0),
            AttestRequest::SpecificTips(_) => ResponseCode(1),
            AttestRequest::Post(_) => ResponseCode(2),
        }
    }

    /// The kind of response that answers this request.
    pub fn response_code_of(&self) -> (code: ResponseCode)
        ensures
            code == self.code(),
    {
        match self {
            AttestRequest::LatestTips(_) => ResponseCode(0),
            AttestRequest::SpecificTips(_) => ResponseCode(1),
            AttestRequest::Post(_) => ResponseCode(2),
        }
    }

    /// The frame that carries this request under the number `seq`.
    pub fn into_protocol_and_log(self, seq: u64) -> (frame: AttestSocketProtocol)
        ensures
            frame == AttestSocketProtocol::Request(seq, self),
    {
        AttestSocketProtocol::Request(seq, self)
    }
}

impl AttestResponse {
    /// The kind of this response.
    pub open spec fn code(self) -> ResponseCode {
        match self {
            AttestResponse::LatestTips(_) => ResponseCode(0),
            AttestResponse::SpecificTips(_) => ResponseCode(1),
            AttestResponse::Post(_) => ResponseCode(2),
        }
    }

    /// The kind of this response.
    pub fn response_code_of(&self) -> (code: ResponseCode)
        ensures
            code == self.code(),
    {
        match self {
            AttestResponse::LatestTips(_) => ResponseCode(0),
            AttestResponse::SpecificTips(_) => ResponseCode(1),
            AttestResponse::Post(_) => ResponseCode(2),
        }
    }

    /// The frame that carries this response under the number `seq`.
    pub fn into_protocol_and_log(self, seq: u64) -> (frame: AttestSocketProtocol)
        ensures
            frame == AttestSocketProtocol::Response(seq, self),
    {
        AttestSocketProtocol::Response(seq, self)
    }
}

impl From<LatestTips> for AttestRequest {
    fn from(l: LatestTips) -> (r: Self) {
        AttestRequest::LatestTips(l)
    }
}

impl vstd::std_specs::convert::FromSpecImpl<LatestTips> for AttestRequest {
    open spec fn obeys_from_spec() -> bool {
        true
    }

    open spec fn from_spec(l: LatestTips) -> Self {
        AttestRequest::LatestTips(l)
    }
}

impl From<SpecificTips> for AttestRequest {
    fn from(l: SpecificTips) -> (r: Self) {
        AttestRequest::SpecificTips(l)
    }
}

impl vstd::std_specs::convert::FromSpecImpl<SpecificTips> for AttestRequest {
    open spec fn obeys_from_spec() -> bool {
        true
    }

    open spec fn from_spec(l: SpecificTips) -> Self {
        AttestRequest::SpecificTips(l)
    }
}

impl From<Post> for AttestRequest {
    fn from(l: Post) -> (r: Self) {
        AttestRequest::Post(l)
    }
}

impl vstd::std_specs::convert::FromSpecImpl<Post> for AttestRequest {
    open spec fn obeys_from_spec() -> bool {
        true
    }

    open spec fn from_spec(l: Post) -> Self {
        AttestRequest::Post(l)
    }
}

/// The name of a message's kind, as it appears in error texts.
pub open spec fn kind_name(m: Message) -> Seq<char> {
    match m {
        Message::Text(_) => "Text"@,
        Message::Binary(_) => "Binary"@,
        Message::Ping(_) => "Ping"@,
        Message::Pong(_) => "Pong"@,
        Message::Close => "Close"@,
    }
}

impl Message {
    /// The text of a text message. Any other kind of message is an error
    /// whose text names the kind that came and, with `expected`, what the
    /// text was wanted for.
    pub fn only_text(self, expected: &str) -> (r: Result<Vec<u8>, AttestProtocolError>)
        ensures
            match r {
                Ok(text) => self matches Message::Text(t) && text == t,
                Err(e) => {
                    &&& !(self is Text)
                    &&& e matches AttestProtocolError::IncorrectMessageOwned(why) && why@
                        == "Incorrect Message Type "@ + kind_name(self) + ", expected Text "@
                        + expected@
                },
            },
    {
        let kind = match self {
            Message::Text(t) => {
                return Ok(t);
            },
            Message::Binary(_) => "Binary",
            Message::Ping(_) => "Ping",
            Message::Pong(_) => "Pong",
            Message::Close => "Close",
        };
        let why = String::from_str("Incorrect Message Type ").concat(kind).concat(
            ", expected Text ",
        ).concat(expected);
        Err(AttestProtocolError::IncorrectMessageOwned(why))
    }
}

} // verus!
