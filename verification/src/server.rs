//! Serving peers without a session: the HTTP interface, and the older,
//! one-directional socket on which a peer can only ask.
//!
//! Every answer is computed here from the database; reading requests and
//! writing responses is left to the server that is built around it.

use vstd::prelude::*;
use vstd::string::*;
use crate::bytes::{is_sorted_set_of, sort_dedup};
use crate::database::{found_messages, MsgDBHandle};
use crate::envelope::{authentic, envelope_views, Authenticated, Envelope, EnvelopeView};
use crate::protocol::{
    AttestProtocolError,
    AttestSocketProtocol,
    Outcome,
    Tips,
};
use crate::session::{after_inserts, answer, answered, insert_outcomes};

verus! {

/// The status of an answer that went well.
pub const STATUS_OK: u16 = 200;

/// The status of the answer to a post that holds an envelope which is not
/// authentic.
pub const STATUS_UNAUTHORIZED: u16 = 401;

/// Why a post over HTTP was refused.
#[derive(Clone, Copy, Debug, PartialEq, Eq, Structural)]
pub struct Unauthorized;

impl Unauthorized {
    /// The status of the refusal.
    pub fn status(&self) -> (s: u16)
        ensures
            s == STATUS_UNAUTHORIZED,
    {
        STATUS_UNAUTHORIZED
    }

    /// The words of the refusal.
    pub fn reason(&self) -> (text: &'static str)
        ensures
            text@ == "Envelope not valid. Only valid data should be sent."@,
    {
        "Envelope not valid. Only valid data should be sent."
    }
}

/// The name and value of the header that every answer carries, so that
/// pages of any origin may read it.
pub fn cors_header() -> (h: (&'static str, &'static str))
    ensures
        h.0@ == "Access-Control-Allow-Origin"@,
        h.1@ == "*"@,
{
    ("Access-Control-Allow-Origin", "*")
}

/// What a request over HTTP is for.
#[derive(Clone, Copy, Debug, PartialEq, Eq, Structural)]
pub enum Route {
    /// `GET /newest_tips`
    NewestTips,
    /// `POST /tips`
    Tips,
    /// `POST /msg`
    Msg,
    /// `GET /socket`
    Socket,
    /// `POST /authenticate`: the way by which the secret of a handshake
    /// reaches the service that a peer named.
    Authenticate,
}

/// The method of a request over HTTP.
#[derive(Clone, Copy, Debug, PartialEq, Eq, Structural)]
pub enum Method {
    Get,
    Post,
    Other,
}

/// What a request with this method and path is for; `None` where the
/// server has nothing under it.
pub open spec fn route_of(method: Method, path: Seq<char>) -> Option<Route> {
    if method == Method::Get && path == "/newest_tips"@ {
        Some(Route::NewestTips)
    } else if method == Method::Post && path == "/tips"@ {
        Some(Route::Tips)
    } else if method == Method::Post && path == "/msg"@ {
        Some(Route::Msg)
    } else if method == Method::Get && path == "/socket"@ {
        Some(Route::Socket)
    } else if method == Method::Post && path == "/authenticate"@ {
        Some(Route::Authenticate)
    } else {
        None
    }
}

fn path_is(path: &String, lit: &'static str) -> (r: bool)
    ensures
        r == (path@ == lit@),
{
    let other = String::from_str(lit);
    *path == other
}

/// What a request with this method and path is for.
pub fn run(method: Method, path: &String) -> (r: Option<Route>)
    ensures
        r == route_of(method, path@),
{
    match method {
        Method::Get => {
            if path_is(path, "/newest_tips") {
                Some(Route::NewestTips)
            } else if path_is(path, "/socket") {
                proof {
                    reveal_strlit("/socket");
                    reveal_strlit("/tips");
                    reveal_strlit("/msg");
                    reveal_strlit("/authenticate");
                }
                Some(Route::Socket)
            } else {
                None
            }
        },
        Method::Post => {
            if path_is(path, "/tips") {
                Some(Route::Tips)
            } else if path_is(path, "/msg") {
                proof {
                    reveal_strlit("/newest_tips");
                    reveal_strlit("/socket");
                    reveal_strlit("/msg");
                }
                Some(Route::Msg)
            } else if path_is(path, "/authenticate") {
                proof {
                    reveal_strlit("/newest_tips");
                    reveal_strlit("/socket");
                    reveal_strlit("/authenticate");
                }
                Some(Route::Authenticate)
            } else {
                None
            }
        },
        Method::Other => None,
    }
}

/// `GET /newest_tips`: the newest envelope of every chain, in increasing
/// order of key.
pub fn get_newest_tip_handler(db: &MsgDBHandle) -> (r: (u16, Vec<Envelope>))
    requires
        db@.wf(),
    ensures
        r.0 == STATUS_OK,
        r.1@.len() == db@.chains.len(),
        forall|c: int| 0 <= c < r.1@.len() ==> (#[trigger] r.1@[c])@ == db@.chains[c].tip(),
{
    (STATUS_OK, db.get_tips_for_all_users())
}

/// `POST /tips`: the envelopes with the given hashes that are held, each
/// once, in increasing order of hash.
pub fn get_tip_handler(db: &MsgDBHandle, tips: Tips) -> (r: (u16, Vec<Envelope>))
    requires
        db@.wf(),
    ensures
        r.0 == STATUS_OK,
        exists|wanted: Seq<[u8; 32]>| #[trigger]
            is_sorted_set_of(wanted, tips.tips@) && envelope_views(r.1@) == found_messages(
                db@,
                wanted,
            ),
{
    let wanted = sort_dedup(&tips.tips);
    let found = db.messages_by_hash(&wanted);
    (STATUS_OK, found)
}

/// Every envelope of the list is authentic.
pub open spec fn all_authentic(list: Seq<EnvelopeView>) -> bool {
    forall|k: int| 0 <= k < list.len() ==> authentic(#[trigger] list[k])
}

/// `POST /msg`: inserts the envelopes one by one and answers with what
/// became of each. If one of them is not authentic, the whole post is
/// refused and nothing is inserted.
pub fn post_message(db: &mut MsgDBHandle, envelopes: Vec<Envelope>) -> (r: Result<
    (u16, Vec<Outcome>),
    Unauthorized,
>)
    requires
        old(db)@.wf(),
    ensures
        final(db)@.wf(),
        match r {
            Ok((status, outcomes)) => {
                &&& all_authentic(envelope_views(envelopes@))
                &&& status == STATUS_OK
                &&& outcomes@ == insert_outcomes(old(db)@, envelope_views(envelopes@))
                &&& final(db)@ == after_inserts(old(db)@, envelope_views(envelopes@))
            },
            Err(_) => !all_authentic(envelope_views(envelopes@)) && final(db)@ == old(db)@,
        },
{
    let ghost posted = envelope_views(envelopes@);
    let n = envelopes.len();
    let mut authed: Vec<Authenticated> = Vec::new();
    let mut i: usize = 0;
    while i < n
        invariant
            0 <= i <= n,
            n == envelopes@.len(),
            posted == envelope_views(envelopes@),
            db@ == old(db)@,
            db@.wf(),
            authed@.len() == i,
            forall|k: int| 0 <= k < i ==> (#[trigger] authed@[k])@ == posted[k],
            forall|k: int| 0 <= k < i ==> authentic(#[trigger] posted[k]),
        decreases n - i,
    {
        match envelopes[i].clone().self_authenticate() {
            Ok(valid) => {
                authed.push(valid);
            },
            Err(_) => {
                assert(!authentic(posted[i as int])) by {
                    reveal(authentic);
                }
                return Err(Unauthorized);
            },
        }
        i += 1;
    }
    let mut outcomes: Vec<Outcome> = Vec::new();
    let mut j: usize = 0;
    while j < n
        invariant
            0 <= j <= n,
            n == authed@.len(),
            n == posted.len(),
            forall|k: int| 0 <= k < n ==> (#[trigger] authed@[k])@ == posted[k],
            db@.wf(),
            db@ == after_inserts(old(db)@, posted.take(j as int)),
            outcomes@ == insert_outcomes(old(db)@, posted.take(j as int)),
        decreases n - j,
    {
        proof {
            assert(posted.take(j + 1).drop_last() =~= posted.take(j as int));
        }
        let success = db.try_insert_authenticated_envelope(authed[j].clone()).is_ok();
        outcomes.push(Outcome { success });
        j += 1;
    }
    assert(posted.take(n as int) =~= posted);
    Ok((STATUS_OK, outcomes))
}

/// A frame on the one-directional socket.
pub enum SocketFrame {
    /// A text frame; this socket does not speak text.
    Text,
    /// A binary frame, with the protocol message it holds, or without one
    /// where it holds none.
    Binary(Option<AttestSocketProtocol>),
    Ping,
    Pong,
    Close,
    /// The transport failed.
    Failed,
}

/// What to do after a frame on the one-directional socket.
pub enum SocketAction {
    /// Send the answer and go on.
    Reply(AttestSocketProtocol),
    /// Go on.
    Ignore,
    /// Close the socket and stop.
    Close,
}

/// One frame on the one-directional socket. A request is answered from the
/// database; pings and pongs are passed over; anything else closes the
/// socket in good order, a response included, since this side of the
/// socket never asks. A binary frame that holds no protocol message is an
/// error.
pub fn handle_socket_symmetric(db: &mut MsgDBHandle, frame: SocketFrame) -> (r: Result<
    SocketAction,
    AttestProtocolError,
>)
    requires
        old(db)@.wf(),
    ensures
        final(db)@.wf(),
        match frame {
            SocketFrame::Binary(Some(AttestSocketProtocol::Request(seq, request))) => {
                r matches Ok(SocketAction::Reply(frame)) && answered(
                    old(db)@,
                    final(db)@,
                    request,
                    seq,
                    frame,
                )
            },
            SocketFrame::Binary(Some(AttestSocketProtocol::Response(_, _))) => {
                &&& r matches Ok(SocketAction::Close)
                &&& final(db)@ == old(db)@
            },
            SocketFrame::Binary(None) => {
                &&& r matches Err(e) && e is JsonError
                &&& final(db)@ == old(db)@
            },
            SocketFrame::Ping | SocketFrame::Pong => {
                &&& r matches Ok(SocketAction::Ignore)
                &&& final(db)@ == old(db)@
            },
            _ => {
                &&& r matches Ok(SocketAction::Close)
                &&& final(db)@ == old(db)@
            },
        },
{
    match frame {
        SocketFrame::Binary(Some(AttestSocketProtocol::Request(seq, request))) => Ok(
            SocketAction::Reply(answer(request, db, seq)),
        ),
        SocketFrame::Binary(Some(AttestSocketProtocol::Response(_, _))) => Ok(SocketAction::Close),
        SocketFrame::Binary(None) => Err(
            AttestProtocolError::JsonError(
                String::from_str("binary frame holds no protocol message"),
            ),
        ),
        SocketFrame::Ping => Ok(SocketAction::Ignore),
        SocketFrame::Pong => Ok(SocketAction::Ignore),
        _ => Ok(SocketAction::Close),
    }
}

} // verus!
