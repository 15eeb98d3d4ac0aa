//! One authenticated session with a peer.
//!
//! A session answers the peer's requests from the database and routes the
//! peer's responses to whoever asked. It keeps the requests it has sent
//! and not yet seen answered, and stops taking new requests from its own
//! side while too many are outstanding.
//!
//! The session does no I/O. Whoever drives it hands it what happened and
//! carries out what it returns.

use std::collections::BTreeMap;
use vstd::prelude::*;
use crate::bytes::{is_sorted_set_of, sort_dedup};
use crate::database::{
    chain_ok,
    found_messages,
    lemma_chain_of_key_unique,
    links_to,
    ChainView,
    DatabaseView,
    MsgDBHandle,
};
use crate::envelope::{authentic, envelope_hash, envelope_views, Envelope, EnvelopeView};
use crate::handshake::Received;
use crate::protocol::{
    AttestProtocolError,
    AttestRequest,
    AttestResponse,
    AttestSocketProtocol,
    LatestTips,
    LatestTipsResponse,
    Message,
    Outcome,
    Post,
    PostResponse,
    ResponseCode,
    SpecificTips,
    SpecificTipsResponse,
    Tips,
    MAX_MESSAGE_DEFECIT,
};

verus! {

broadcast use vstd::std_specs::btree::group_btree_axioms;

/// Where the answer to a request is to go. The three kinds of request have
/// answers of three types, so the places are of three types too.
pub enum AnySender<L, S, P> {
    LatestTips(L),
    SpecificTips(S),
    Post(P),
}

/// A request of this side, with the place its answer is to go to.
pub enum InternalRequest<L, S, P> {
    LatestTips(LatestTips, L),
    SpecificTips(SpecificTips, S),
    Post(Post, P),
}

/// What is kept for a request until its answer comes.
pub struct ResponseRouter<L, S, P> {
    pub code: ResponseCode,
    pub sender: AnySender<L, S, P>,
}

/// An answer and the place it is to go to.
pub enum Delivery<L, S, P> {
    LatestTips(L, LatestTipsResponse),
    SpecificTips(S, SpecificTipsResponse),
    Post(P, PostResponse),
}

/// What a session makes of something received from the peer.
pub enum PeerFrame {
    /// The text of a protocol frame.
    Text(Vec<u8>),
    /// A ping or a pong: nothing to do.
    Ignore,
    /// The peer closed the connection.
    Gone,
}

/// Sorts what was received from the peer. Text is a protocol frame; pings
/// and pongs are passed over; a close frame or a closed transport ends the
/// session in good order. A transport that failed and a binary frame are
/// errors.
pub fn read_frame(received: Received) -> (r: Result<PeerFrame, AttestProtocolError>)
    ensures
        match received {
            Received::Closed => r matches Ok(PeerFrame::Gone),
            Received::Failed(why) => r == Err::<PeerFrame, AttestProtocolError>(
                AttestProtocolError::SocketError(why),
            ),
            Received::Message(Message::Text(t)) => r matches Ok(PeerFrame::Text(text)) && text
                == t,
            Received::Message(Message::Ping(_)) => r matches Ok(PeerFrame::Ignore),
            Received::Message(Message::Pong(_)) => r matches Ok(PeerFrame::Ignore),
            Received::Message(Message::Close) => r matches Ok(PeerFrame::Gone),
            Received::Message(Message::Binary(_)) => r matches Err(
                AttestProtocolError::IncorrectMessageOwned(_),
            ),
        },
{
    match received {
        Received::Closed => Ok(PeerFrame::Gone),
        Received::Failed(why) => Err(AttestProtocolError::SocketError(why)),
        Received::Message(Message::Ping(_)) => Ok(PeerFrame::Ignore),
        Received::Message(Message::Pong(_)) => Ok(PeerFrame::Ignore),
        Received::Message(Message::Close) => Ok(PeerFrame::Gone),
        Received::Message(m) => match m.only_text("as a json encoded messages") {
            Ok(text) => Ok(PeerFrame::Text(text)),
            Err(e) => Err(e),
        },
    }
}

/// Why a session ended without an error.
#[derive(Clone, Copy, Debug, PartialEq, Eq, Structural)]
pub enum Shutdown {
    /// The peer is gone.
    PeerDisconnected,
    /// Nobody on this side can send requests any more.
    InternalDropped,
}

/// What happened, as seen by a session.
pub enum SessionEvent<L, S, P> {
    /// The peer sent a frame.
    PeerMessage(AttestSocketProtocol),
    /// The transport is closed or failed.
    PeerGone,
    /// This side wants to send a request.
    Internal(InternalRequest<L, S, P>),
    /// This side has no requests any more.
    InternalClosed,
}

/// What the driver of a session is to do next.
pub enum SessionAction<L, S, P> {
    /// Send the frame to the peer.
    Send(AttestSocketProtocol),
    /// Hand the answer to the one who asked.
    Deliver(Delivery<L, S, P>),
    /// Close the transport, where it is still open, and stop.
    Quit(Shutdown),
}

impl<L, S, P> AnySender<L, S, P> {
    /// The kind of response that belongs to this place.
    pub open spec fn code(self) -> ResponseCode {
        match self {
            AnySender::LatestTips(_) => ResponseCode(0),
            AnySender::SpecificTips(_) => ResponseCode(1),
            AnySender::Post(_) => ResponseCode(2),
        }
    }
}

impl<L, S, P> InternalRequest<L, S, P> {
    /// The request to send.
    pub open spec fn request(self) -> AttestRequest {
        match self {
            InternalRequest::LatestTips(r, _) => AttestRequest::LatestTips(r),
            InternalRequest::SpecificTips(r, _) => AttestRequest::SpecificTips(r),
            InternalRequest::Post(r, _) => AttestRequest::Post(r),
        }
    }

    /// The place the answer is to go to.
    pub open spec fn sender(self) -> AnySender<L, S, P> {
        match self {
            InternalRequest::LatestTips(_, s) => AnySender::LatestTips(s),
            InternalRequest::SpecificTips(_, s) => AnySender::SpecificTips(s),
            InternalRequest::Post(_, s) => AnySender::Post(s),
        }
    }

    /// What is kept until the answer comes.
    pub open spec fn router(self) -> ResponseRouter<L, S, P> {
        ResponseRouter { code: self.request().code(), sender: self.sender() }
    }
}

impl Shutdown {
    /// The reason in words.
    pub fn reason(&self) -> (text: &'static str)
        ensures
            text@ == match *self {
                Shutdown::PeerDisconnected => "Peer Disconnected from us"@,
                Shutdown::InternalDropped => "Exiting..."@,
            },
    {
        match self {
            Shutdown::PeerDisconnected => "Peer Disconnected from us",
            Shutdown::InternalDropped => "Exiting...",
        }
    }
}

/// An answer of the kind that `sender` waits for, paired with it; `None`
/// where the answer is of another kind.
pub open spec fn paired<L, S, P>(sender: AnySender<L, S, P>, response: AttestResponse) -> Option<
    Delivery<L, S, P>,
> {
    match (sender, response) {
        (AnySender::LatestTips(s), AttestResponse::LatestTips(m)) => Some(
            Delivery::LatestTips(s, m),
        ),
        (AnySender::SpecificTips(s), AttestResponse::SpecificTips(m)) => Some(
            Delivery::SpecificTips(s, m),
        ),
        (AnySender::Post(s), AttestResponse::Post(m)) => Some(Delivery::Post(s, m)),
        _ => None,
    }
}

// ---------------------------------------------------------------------------
// Answering the peer's requests
// ---------------------------------------------------------------------------

/// How many envelopes, counted from position `from`, are authentic before
/// the first one that is not.
pub open spec fn authentic_run(list: Seq<EnvelopeView>, from: int) -> int
    decreases list.len() - from,
{
    if from < 0 || from >= list.len() || !authentic(list[from]) {
        0
    } else {
        1 + authentic_run(list, from + 1)
    }
}

/// The database after the envelopes of `list` were inserted one by one.
pub open spec fn after_inserts(db: DatabaseView, list: Seq<EnvelopeView>) -> DatabaseView
    decreases list.len(),
{
    if list.len() == 0 {
        db
    } else {
        after_inserts(db, list.drop_last()).after_insert(list.last())
    }
}

/// For each envelope of `list`, whether it was inserted when its turn came.
pub open spec fn insert_outcomes(db: DatabaseView, list: Seq<EnvelopeView>) -> Seq<Outcome>
    decreases list.len(),
{
    if list.len() == 0 {
        Seq::empty()
    } else {
        insert_outcomes(db, list.drop_last()).push(
            Outcome {
                success: after_inserts(db, list.drop_last()).insert_verdict(list.last()) is Ok,
            },
        )
    }
}

/// The envelopes of a post that are taken: those before the first one
/// that is not authentic.
pub open spec fn accepted_of(posted: Seq<EnvelopeView>) -> Seq<EnvelopeView> {
    posted.take(authentic_run(posted, 0))
}

/// The run of authentic envelopes is no longer than the list.
pub proof fn lemma_authentic_run_bounds(list: Seq<EnvelopeView>, from: int)
    requires
        0 <= from <= list.len(),
    ensures
        0 <= authentic_run(list, from) <= list.len() - from,
        forall|k: int| from <= k < from + authentic_run(list, from) ==> authentic(#[trigger] list[k]),
        from + authentic_run(list, from) < list.len() ==> !authentic(
            list[from + authentic_run(list, from)],
        ),
    decreases list.len() - from,
{
    if from < list.len() && authentic(list[from]) {
        lemma_authentic_run_bounds(list, from + 1);
    }
}

/// Inserting keeps a database well formed, however many envelopes it is.
pub proof fn lemma_after_inserts_wf(db: DatabaseView, list: Seq<EnvelopeView>)
    requires
        db.wf(),
        forall|k: int| 0 <= k < list.len() ==> authentic(#[trigger] list[k]),
    ensures
        after_inserts(db, list).wf(),
    decreases list.len(),
{
    if list.len() > 0 {
        let shorter = list.drop_last();
        assert forall|k: int| 0 <= k < shorter.len() implies authentic(#[trigger] shorter[k]) by {}
        lemma_after_inserts_wf(db, shorter);
        crate::database::lemma_after_insert_wf(after_inserts(db, shorter), list.last());
    }
}

/// `list` continues `chain`: its first envelope follows the tip of the
/// chain, and each of the others follows the one before it.
pub open spec fn continues(chain: ChainView, list: Seq<EnvelopeView>) -> bool {
    forall|k: int|
        0 <= k < list.len() ==> links_to(
            if k == 0 {
                chain.tip()
            } else {
                list[k - 1]
            },
            chain.genesis(),
            #[trigger] list[k],
        )
}

/// Chain `c` of `db` with the envelopes of `list` appended.
pub open spec fn with_run(db: DatabaseView, c: int, list: Seq<EnvelopeView>) -> DatabaseView {
    DatabaseView {
        chains: db.chains.update(
            c,
            ChainView { envelopes: db.chains[c].envelopes + list, ..db.chains[c] },
        ),
        ..db
    }
}

/// Envelopes inserted in the order of their heights all join their chain:
/// if authentic envelopes continue a chain, are not held yet, differ in
/// their hashes and list only tips that are held, then each of them is
/// accepted when its turn comes, and afterwards the chain is what it was
/// followed by the envelopes, with everything else as it was.
pub proof fn lemma_inserts_in_order(db: DatabaseView, c: int, list: Seq<EnvelopeView>)
    requires
        db.wf(),
        0 <= c < db.chains.len(),
        continues(db.chains[c], list),
        forall|k: int| 0 <= k < list.len() ==> authentic(#[trigger] list[k]),
        forall|k: int| 0 <= k < list.len() ==> db.tips_present(#[trigger] list[k]),
        forall|k: int| 0 <= k < list.len() ==> !db.contains(envelope_hash(#[trigger] list[k])),
        forall|j: int, k: int|
            0 <= j < k < list.len() ==> envelope_hash(#[trigger] list[j]) != envelope_hash(
                #[trigger] list[k],
            ),
    ensures
        after_inserts(db, list) == with_run(db, c, list),
        insert_outcomes(db, list).len() == list.len(),
        forall|k: int| 0 <= k < list.len() ==> (#[trigger] insert_outcomes(db, list)[k]).success,
    decreases list.len(),
{
    let chain = db.chains[c];
    assert(chain_ok(chain)) by {
        reveal(DatabaseView::chains_ok);
    }
    if list.len() == 0 {
        assert(chain.envelopes + list =~= chain.envelopes);
        assert(db.chains.update(c, chain) =~= db.chains);
    } else {
        let shorter = list.drop_last();
        let last = list.last();
        let n = shorter.len() as int;
        assert forall|k: int| 0 <= k < shorter.len() implies links_to(
            if k == 0 {
                chain.tip()
            } else {
                shorter[k - 1]
            },
            chain.genesis(),
            #[trigger] shorter[k],
        ) by {
            assert(shorter[k] == list[k]);
        }
        assert forall|k: int| 0 <= k < shorter.len() implies authentic(#[trigger] shorter[k])
            && db.tips_present(shorter[k]) && !db.contains(envelope_hash(shorter[k])) by {
            assert(shorter[k] == list[k]);
        }
        assert forall|j: int, k: int| 0 <= j < k < shorter.len() implies envelope_hash(
            #[trigger] shorter[j],
        ) != envelope_hash(#[trigger] shorter[k]) by {
            assert(shorter[j] == list[j] && shorter[k] == list[k]);
        }
        lemma_inserts_in_order(db, c, shorter);
        lemma_after_inserts_wf(db, shorter);
        let mid = after_inserts(db, shorter);
        let grown = mid.chains[c];
        assert(grown.envelopes == chain.envelopes + shorter);
        assert(chain_ok(grown)) by {
            reveal(DatabaseView::chains_ok);
        }
        // the envelope before the last one is the tip now
        let before = if n == 0 {
            chain.tip()
        } else {
            list[n - 1]
        };
        assert(grown.tip() == before) by {
            if n > 0 {
                assert(shorter[n - 1] == list[n - 1]);
            }
        }
        assert(grown.genesis() == chain.genesis()) by {
            assert(grown.envelopes[0] == chain.envelopes[0]);
        }
        assert(links_to(before, chain.genesis(), list[n]));
        // nothing that is held has the hash of the last envelope
        assert(!mid.contains(envelope_hash(last))) by {
            if mid.contains(envelope_hash(last)) {
                let (c2, i2) = choose|c2: int, i2: int| mid.holds(c2, i2, envelope_hash(last));
                if c2 == c && i2 >= chain.envelopes.len() {
                    let k = i2 - chain.envelopes.len();
                    assert(grown.envelopes[i2] == shorter[k]);
                    assert(shorter[k] == list[k]);
                } else {
                    assert(mid.chains[c2].envelopes[i2] == db.chains[c2].envelopes[i2]);
                    assert(db.holds(c2, i2, envelope_hash(last)));
                }
            }
        }
        // the tips it lists are still held
        assert(mid.tips_present(last)) by {
            assert forall|t: int| 0 <= t < last.header.tips.len() implies mid.contains(
                (#[trigger] last.header.tips[t]).hash@,
            ) by {
                let h = last.header.tips[t].hash@;
                assert(db.contains(h));
                let (wc, wi) = choose|wc: int, wi: int| db.holds(wc, wi, h);
                assert(mid.chains[wc].envelopes[wi] == db.chains[wc].envelopes[wi]);
                assert(mid.holds(wc, wi, h));
            }
        }
        // so it joins the chain of its key, which is chain `c`
        assert(mid.chain_has_key(c, last.header.key));
        let found = choose|k: int| mid.chain_has_key(k, last.header.key);
        lemma_chain_of_key_unique(mid, c, found, last.header.key);
        assert(mid.insert_verdict(last) is Ok);
        assert(mid.after_insert(last).chains =~= with_run(db, c, list).chains) by {
            assert(grown.envelopes.push(last) =~= chain.envelopes + list);
        }
        assert forall|k: int| 0 <= k < list.len() implies (#[trigger] insert_outcomes(
            db,
            list,
        )[k]).success by {
            if k < n {
                assert(insert_outcomes(db, list)[k] == insert_outcomes(db, shorter)[k]);
            }
        }
    }
}

/// Answers a request for the newest envelope of every chain.
pub fn fetch_latest_tips(db: &MsgDBHandle, seq: u64) -> (frame: AttestSocketProtocol)
    requires
        db@.wf(),
    ensures
        frame matches AttestSocketProtocol::Response(
            s,
            AttestResponse::LatestTips(LatestTipsResponse(list)),
        ) && s == seq && list@.len() == db@.chains.len() && forall|c: int|
            0 <= c < list@.len() ==> (#[trigger] list@[c])@ == db@.chains[c].tip(),
{
    let tips = db.get_tips_for_all_users();
    AttestResponse::LatestTips(LatestTipsResponse(tips)).into_protocol_and_log(seq)
}

/// Answers a request for the envelopes with the given hashes: those that
/// are held, each once, in increasing order of hash.
pub fn fetch_specific_tips(tips: Tips, db: &MsgDBHandle, seq: u64) -> (frame: AttestSocketProtocol)
    requires
        db@.wf(),
    ensures
        frame matches AttestSocketProtocol::Response(
            s,
            AttestResponse::SpecificTips(SpecificTipsResponse(list)),
        ) && s == seq && exists|wanted: Seq<[u8; 32]>| #[trigger]
            is_sorted_set_of(wanted, tips.tips@) && envelope_views(list@) == found_messages(
                db@,
                wanted,
            ),
{
    let wanted = sort_dedup(&tips.tips);
    let found = db.messages_by_hash(&wanted);
    AttestResponse::SpecificTips(SpecificTipsResponse(found)).into_protocol_and_log(seq)
}

/// Takes the envelopes of a post up to the first one that is not
/// authentic, inserts them one by one and answers with what became of
/// each. An envelope that is refused does not stop the ones after it.
pub fn post_envelope(envelopes: Vec<Envelope>, db: &mut MsgDBHandle, seq: u64) -> (frame:
    AttestSocketProtocol)
    requires
        old(db)@.wf(),
    ensures
        final(db)@.wf(),
        final(db)@ == after_inserts(old(db)@, accepted_of(envelope_views(envelopes@))),
        frame matches AttestSocketProtocol::Response(
            s,
            AttestResponse::Post(PostResponse(outcomes)),
        ) && s == seq && outcomes@ == insert_outcomes(
            old(db)@,
            accepted_of(envelope_views(envelopes@)),
        ),
{
    let ghost posted = envelope_views(envelopes@);
    let n = envelopes.len();
    let mut outcomes: Vec<Outcome> = Vec::new();
    let mut i: usize = 0;
    proof {
        lemma_authentic_run_bounds(posted, 0);
    }
    while i < n
        invariant
            0 <= i <= n,
            n == envelopes@.len(),
            posted == envelope_views(envelopes@),
            db@.wf(),
            authentic_run(posted, 0) == i + authentic_run(posted, i as int),
            db@ == after_inserts(old(db)@, posted.take(i as int)),
            outcomes@ == insert_outcomes(old(db)@, posted.take(i as int)),
        ensures
            0 <= i <= n,
            authentic_run(posted, 0) == i,
            db@.wf(),
            db@ == after_inserts(old(db)@, posted.take(i as int)),
            outcomes@ == insert_outcomes(old(db)@, posted.take(i as int)),
        decreases n - i,
    {
        let envelope = envelopes[i].clone();
        match envelope.self_authenticate() {
            Ok(valid) => {
                proof {
                    assert(posted.take(i + 1).drop_last() =~= posted.take(i as int));
                }
                let success = db.try_insert_authenticated_envelope(valid).is_ok();
                outcomes.push(Outcome { success });
            },
            Err(_) => {
                assert(!authentic(posted[i as int])) by {
                    reveal(authentic);
                }
                break ;
            },
        }
        i += 1;
    }
    AttestResponse::Post(PostResponse(outcomes)).into_protocol_and_log(seq)
}

/// `frame` is the answer to `request` under the number `seq`, and `after`
/// is the database once it was given.
///
/// A request for the newest envelopes is answered with the tip of every
/// chain, in the order of the chains. A request for envelopes by hash is
/// answered with those that are held, each once, in increasing order of
/// hash. A post is answered with what became of each envelope that was
/// taken; it is the only request that changes the database.
pub open spec fn answered(
    before: DatabaseView,
    after: DatabaseView,
    request: AttestRequest,
    seq: u64,
    frame: AttestSocketProtocol,
) -> bool {
    match request {
        AttestRequest::LatestTips(_) => {
            &&& after == before
            &&& frame matches AttestSocketProtocol::Response(
                s,
                AttestResponse::LatestTips(LatestTipsResponse(list)),
            ) && s == seq && list@.len() == before.chains.len() && forall|c: int|
                0 <= c < list@.len() ==> (#[trigger] list@[c])@ == before.chains[c].tip()
        },
        AttestRequest::SpecificTips(asked) => {
            &&& after == before
            &&& frame matches AttestSocketProtocol::Response(
                s,
                AttestResponse::SpecificTips(SpecificTipsResponse(list)),
            ) && s == seq && exists|wanted: Seq<[u8; 32]>| #[trigger]
                is_sorted_set_of(wanted, asked.tips.tips@) && envelope_views(list@)
                    == found_messages(before, wanted)
        },
        AttestRequest::Post(post) => {
            &&& after == after_inserts(before, accepted_of(envelope_views(post.envelopes@)))
            &&& frame matches AttestSocketProtocol::Response(
                s,
                AttestResponse::Post(PostResponse(outcomes)),
            ) && s == seq && outcomes@ == insert_outcomes(
                before,
                accepted_of(envelope_views(post.envelopes@)),
            )
        },
    }
}

/// An answer is of the kind the request asked for and carries its number.
pub proof fn lemma_answer_matches_request(
    before: DatabaseView,
    after: DatabaseView,
    request: AttestRequest,
    seq: u64,
    frame: AttestSocketProtocol,
)
    requires
        answered(before, after, request, seq, frame),
    ensures
        frame matches AttestSocketProtocol::Response(s, response) && s == seq && response.code()
            == request.code(),
        request is LatestTips ==> (frame matches AttestSocketProtocol::Response(_, response)
            && response.code() == ResponseCode(0)),
{
}

/// Answers a request of the peer.
pub fn answer(request: AttestRequest, db: &mut MsgDBHandle, seq: u64) -> (frame:
    AttestSocketProtocol)
    requires
        old(db)@.wf(),
    ensures
        final(db)@.wf(),
        answered(old(db)@, final(db)@, request, seq, frame),
{
    match request {
        AttestRequest::LatestTips(LatestTips {  }) => fetch_latest_tips(db, seq),
        AttestRequest::SpecificTips(SpecificTips { tips }) => fetch_specific_tips(tips, db, seq),
        AttestRequest::Post(Post { envelopes }) => post_envelope(envelopes, db, seq),
    }
}

// ---------------------------------------------------------------------------
// The session
// ---------------------------------------------------------------------------

/// The state of a session: the number of the current turn, the count of
/// requests sent and not yet answered, and for each of them what is kept
/// until its answer comes.
pub struct Session<L, S, P> {
    seq: u64,
    defecit: i64,
    inflight: BTreeMap<u64, ResponseRouter<L, S, P>>,
}

impl<L, S, P> Session<L, S, P> {
    /// The number of the current turn.
    pub closed spec fn seq(&self) -> u64 {
        self.seq
    }

    /// How many requests wait for their answer.
    pub closed spec fn deficit(&self) -> int {
        self.defecit as int
    }

    /// The requests that wait for their answer, by number.
    pub closed spec fn inflight(&self) -> Map<u64, ResponseRouter<L, S, P>> {
        self.inflight@
    }

    /// What holds of every session: the deficit is the number of requests
    /// in flight and never above the limit, no request carries a number
    /// beyond the current turn, and each is kept with the kind of its
    /// answer.
    pub open spec fn wf(&self) -> bool {
        &&& self.inflight().dom().finite()
        &&& self.deficit() == self.inflight().len()
        &&& 0 <= self.deficit() <= MAX_MESSAGE_DEFECIT
        &&& forall|k: u64| self.inflight().contains_key(k) ==> k <= self.seq()
        &&& forall|k: u64|
            self.inflight().contains_key(k) ==> (#[trigger] self.inflight()[k]).code
                == self.inflight()[k].sender.code()
    }

    /// Whether requests of this side are taken now.
    pub open spec fn polls_internal(&self) -> bool {
        self.deficit() < MAX_MESSAGE_DEFECIT
    }

    /// A session that has sent nothing yet.
    pub fn new() -> (session: Self)
        ensures
            session.wf(),
            session.seq() == 0,
            session.deficit() == 0,
            session.inflight() == Map::<u64, ResponseRouter<L, S, P>>::empty(),
    {
        Session { seq: 0, defecit: 0, inflight: BTreeMap::new() }
    }

    /// Whether requests of this side are taken now: only while fewer than
    /// the limit wait for their answer.
    pub fn accepts_internal(&self) -> (r: bool)
        ensures
            r == self.polls_internal(),
    {
        self.defecit < MAX_MESSAGE_DEFECIT
    }

    /// How many requests wait for their answer.
    pub fn outstanding(&self) -> (d: i64)
        ensures
            d == self.deficit(),
    {
        self.defecit
    }

    /// The number of the current turn.
    pub fn current_seq(&self) -> (s: u64)
        ensures
            s == self.seq(),
    {
        self.seq
    }

    /// Begins the next turn.
    fn advance(&mut self)
        requires
            old(self).wf(),
            old(self).seq() < u64::MAX,
        ensures
            final(self).wf(),
            final(self).seq() == old(self).seq() + 1,
            final(self).inflight() == old(self).inflight(),
            final(self).deficit() == old(self).deficit(),
            forall|k: u64| final(self).inflight().contains_key(k) ==> k < final(self).seq(),
    {
        self.seq = self.seq + 1;
    }

    /// Registers a request of this side under the number of the current
    /// turn and returns the frame to send.
    pub fn handle_internal_request(&mut self, request: InternalRequest<L, S, P>) -> (frame:
        AttestSocketProtocol)
        requires
            old(self).wf(),
            old(self).polls_internal(),
            !old(self).inflight().contains_key(old(self).seq()),
        ensures
            final(self).wf(),
            final(self).seq() == old(self).seq(),
            final(self).deficit() == old(self).deficit() + 1,
            final(self).inflight() == old(self).inflight().insert(
                old(self).seq(),
                request.router(),
            ),
            frame == AttestSocketProtocol::Request(old(self).seq(), request.request()),
    {
        let (msg, sender) = match request {
            InternalRequest::LatestTips(r, s) => (
                AttestRequest::LatestTips(r),
                AnySender::LatestTips(s),
            ),
            InternalRequest::SpecificTips(r, s) => (
                AttestRequest::SpecificTips(r),
                AnySender::SpecificTips(s),
            ),
            InternalRequest::Post(r, s) => (AttestRequest::Post(r), AnySender::Post(s)),
        };
        let code = msg.response_code_of();
        self.inflight.insert(self.seq, ResponseRouter { code, sender });
        self.defecit = self.defecit + 1;
        msg.into_protocol_and_log(self.seq)
    }

    /// Routes a response of the peer: it must answer a request in flight
    /// and be of the kind that request asked for.
    pub fn handle_response(&mut self, seq: u64, response: AttestResponse) -> (r: Result<
        Delivery<L, S, P>,
        AttestProtocolError,
    >)
        requires
            old(self).wf(),
        ensures
            final(self).wf(),
            final(self).seq() == old(self).seq(),
            match r {
                Ok(delivery) => {
                    &&& old(self).inflight().contains_key(seq)
                    &&& old(self).inflight()[seq].code == response.code()
                    &&& paired(old(self).inflight()[seq].sender, response) == Some(delivery)
                    &&& final(self).inflight() == old(self).inflight().remove(seq)
                    &&& final(self).deficit() == old(self).deficit() - 1
                },
                Err(AttestProtocolError::UnrequestedResponse) => {
                    &&& !old(self).inflight().contains_key(seq)
                    &&& final(self).inflight() == old(self).inflight()
                    &&& final(self).deficit() == old(self).deficit()
                },
                Err(AttestProtocolError::ResponseTypeIncorrect) => {
                    &&& old(self).inflight().contains_key(seq)
                    &&& old(self).inflight()[seq].code != response.code()
                    &&& final(self).inflight() == old(self).inflight().remove(seq)
                    &&& final(self).deficit() == old(self).deficit() - 1
                },
                Err(_) => false,
            },
    {
        let router = match self.inflight.remove(&seq) {
            Some(router) => router,
            None => {
                return Err(AttestProtocolError::UnrequestedResponse);
            },
        };
        self.defecit = self.defecit - 1;
        if response.response_code_of() != router.code {
            return Err(AttestProtocolError::ResponseTypeIncorrect);
        }
        match (router.sender, response) {
            (AnySender::LatestTips(s), AttestResponse::LatestTips(m)) => Ok(
                Delivery::LatestTips(s, m),
            ),
            (AnySender::SpecificTips(s), AttestResponse::SpecificTips(m)) => Ok(
                Delivery::SpecificTips(s, m),
            ),
            (AnySender::Post(s), AttestResponse::Post(m)) => Ok(Delivery::Post(s, m)),
            _ => Err(AttestProtocolError::ResponseTypeIncorrect),
        }
    }

    /// Handles a frame of the peer: a request is answered from the
    /// database, a response is routed to the one who asked.
    pub fn handle_message_from_peer(
        &mut self,
        db: &mut MsgDBHandle,
        msg: AttestSocketProtocol,
    ) -> (r: Result<SessionAction<L, S, P>, AttestProtocolError>)
        requires
            old(self).wf(),
            old(db)@.wf(),
        ensures
            final(self).wf(),
            final(db)@.wf(),
            final(self).seq() == old(self).seq(),
            match msg {
                AttestSocketProtocol::Request(seq, request) => {
                    &&& r matches Ok(SessionAction::Send(frame)) && answered(
                        old(db)@,
                        final(db)@,
                        request,
                        seq,
                        frame,
                    )
                    &&& final(self).inflight() == old(self).inflight()
                    &&& final(self).deficit() == old(self).deficit()
                },
                AttestSocketProtocol::Response(seq, response) => {
                    &&& final(db)@ == old(db)@
                    &&& routed(*old(self), *final(self), seq, response, r)
                },
            },
    {
        match msg {
            AttestSocketProtocol::Request(seq, request) => Ok(
                SessionAction::Send(answer(request, db, seq)),
            ),
            AttestSocketProtocol::Response(seq, response) => {
                match self.handle_response(seq, response) {
                    Ok(delivery) => Ok(SessionAction::Deliver(delivery)),
                    Err(e) => Err(e),
                }
            },
        }
    }
}

/// One turn of the session: the number of the turn goes up by one, and
/// then what happened is handled. The peer leaving, or this side having
/// no requests any more, ends the session in good order; an error ends
/// it for good.
pub fn run_protocol<L, S, P>(
    session: &mut Session<L, S, P>,
    db: &mut MsgDBHandle,
    event: SessionEvent<L, S, P>,
) -> (r: Result<SessionAction<L, S, P>, AttestProtocolError>)
    requires
        old(session).wf(),
        old(db)@.wf(),
        old(session).seq() < u64::MAX,
        event is Internal ==> old(session).polls_internal(),
    ensures
        final(session).wf(),
        final(db)@.wf(),
        final(session).seq() == old(session).seq() + 1,
        match event {
            SessionEvent::PeerMessage(AttestSocketProtocol::Request(seq, request)) => {
                &&& r matches Ok(SessionAction::Send(frame)) && answered(
                    old(db)@,
                    final(db)@,
                    request,
                    seq,
                    frame,
                )
                &&& final(session).inflight() == old(session).inflight()
                &&& final(session).deficit() == old(session).deficit()
            },
            SessionEvent::PeerMessage(AttestSocketProtocol::Response(seq, response)) => {
                &&& final(db)@ == old(db)@
                &&& routed(*old(session), *final(session), seq, response, r)
            },
            SessionEvent::PeerGone => {
                &&& r matches Ok(SessionAction::Quit(Shutdown::PeerDisconnected))
                &&& final(session).inflight() == old(session).inflight()
                &&& final(db)@ == old(db)@
            },
            SessionEvent::Internal(request) => {
                &&& r matches Ok(SessionAction::Send(AttestSocketProtocol::Request(s, sent)))
                    && s == final(session).seq() && sent == request.request()
                &&& final(session).inflight() == old(session).inflight().insert(
                    final(session).seq(),
                    request.router(),
                )
                &&& final(session).deficit() == old(session).deficit() + 1
                &&& final(db)@ == old(db)@
            },
            SessionEvent::InternalClosed => {
                &&& r matches Ok(SessionAction::Quit(Shutdown::InternalDropped))
                &&& final(session).inflight() == old(session).inflight()
                &&& final(db)@ == old(db)@
            },
        },
{
    session.advance();
    match event {
        SessionEvent::PeerMessage(msg) => session.handle_message_from_peer(db, msg),
        SessionEvent::PeerGone => Ok(SessionAction::Quit(Shutdown::PeerDisconnected)),
        SessionEvent::Internal(request) => Ok(
            SessionAction::Send(session.handle_internal_request(request)),
        ),
        SessionEvent::InternalClosed => Ok(SessionAction::Quit(Shutdown::InternalDropped)),
    }
}

/// What routing the response `response` with the number `seq` comes to.
///
/// A response that answers no request in flight is an error and leaves
/// the session as it was. Otherwise the request is in flight no longer and
/// the deficit goes down by one; the response is delivered if it is of
/// the kind the request asked for, and is an error if not.
pub open spec fn routed<L, S, P>(
    before: Session<L, S, P>,
    after: Session<L, S, P>,
    seq: u64,
    response: AttestResponse,
    r: Result<SessionAction<L, S, P>, AttestProtocolError>,
) -> bool {
    if !before.inflight().contains_key(seq) {
        &&& r == Err::<SessionAction<L, S, P>, AttestProtocolError>(
            AttestProtocolError::UnrequestedResponse,
        )
        &&& after.inflight() == before.inflight()
        &&& after.deficit() == before.deficit()
    } else {
        &&& after.inflight() == before.inflight().remove(seq)
        &&& after.deficit() == before.deficit() - 1
        &&& if before.inflight()[seq].code == response.code() {
            r matches Ok(SessionAction::Deliver(delivery)) && paired(
                before.inflight()[seq].sender,
                response,
            ) == Some(delivery)
        } else {
            r == Err::<SessionAction<L, S, P>, AttestProtocolError>(
                AttestProtocolError::ResponseTypeIncorrect,
            )
        }
    }
}

/// A response must be of the kind its request asked for: once a request
/// was registered under the number `n`, a response with that number is
/// delivered if its kind is the one of the request, and ends the session
/// with `ResponseTypeIncorrect` if it is of another kind.
pub proof fn lemma_response_must_match_request<L, S, P>(
    registered: Session<L, S, P>,
    after: Session<L, S, P>,
    n: u64,
    request: InternalRequest<L, S, P>,
    response: AttestResponse,
    r: Result<SessionAction<L, S, P>, AttestProtocolError>,
)
    requires
        registered.inflight().contains_key(n),
        registered.inflight()[n] == request.router(),
        routed(registered, after, n, response, r),
    ensures
        response.code() == request.request().code() ==> r matches Ok(SessionAction::Deliver(_)),
        response.code() != request.request().code() ==> r == Err::<
            SessionAction<L, S, P>,
            AttestProtocolError,
        >(AttestProtocolError::ResponseTypeIncorrect),
        request is LatestTips ==> (r is Ok <==> response.code() == ResponseCode(0)),
        !after.inflight().contains_key(n),
{
}

/// Backpressure: a session with as many requests in flight as the limit
/// allows takes no request from its own side, and takes them again as
/// soon as one response to a request in flight has been routed.
pub proof fn lemma_backpressure<L, S, P>(
    before: Session<L, S, P>,
    after: Session<L, S, P>,
    seq: u64,
    response: AttestResponse,
    r: Result<SessionAction<L, S, P>, AttestProtocolError>,
)
    requires
        before.wf(),
        before.inflight().len() == MAX_MESSAGE_DEFECIT,
        before.inflight().contains_key(seq),
        routed(before, after, seq, response, r),
    ensures
        !before.polls_internal(),
        after.polls_internal(),
        after.deficit() == MAX_MESSAGE_DEFECIT - 1,
{
}

/// The deficit counts the requests in flight and never passes the limit.
pub proof fn lemma_deficit_bounded<L, S, P>(session: Session<L, S, P>)
    requires
        session.wf(),
    ensures
        session.deficit() == session.inflight().len(),
        session.deficit() <= MAX_MESSAGE_DEFECIT,
        session.polls_internal() <==> session.inflight().len() < MAX_MESSAGE_DEFECIT,
{
}


} // verus!
