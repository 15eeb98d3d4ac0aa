//! Fetching from a peer.
//!
//! For each peer three tasks work together: one asks the peer for its
//! newest envelopes time and again, one processes the envelopes that
//! arrive, and one asks the peer for the envelopes that were found to be
//! missing. This module holds what these tasks decide; sending, receiving
//! and sleeping are left to whoever runs them.

use vstd::prelude::*;
use vstd::string::*;
use crate::bytes::{
    ascii,
    chars_of,
    decimal_digits,
    is_sorted_set_of,
    push_decimal_text,
    sort_dedup,
};
use crate::clock::now_ms;
use crate::crypto::random_bytes;
use crate::database::{missing_hashes, DatabaseView, MsgDBHandle, SqliteFail};
use crate::envelope::{authentic, envelope_views, Envelope, EnvelopeView, TipEntry};
use crate::protocol::{LatestTips, SpecificTips, Tips};

verus! {

/// Milliseconds between two requests for the newest envelopes, before
/// jitter.
pub const TIP_FETCH_DELAY_MS: u64 = 15000;

/// The jitter added to that delay stays below this many milliseconds.
pub const TIP_FETCH_JITTER_MS: u64 = 1000;

/// Seconds between two attempts to attach pending envelopes.
pub const ATTACH_TIPS_PERIOD_SECS: u64 = 30;

/// The name under which a chain learned from a peer is stored.
pub open spec fn peer_nickname(now: u64) -> Seq<char> {
    chars_of(ascii("user-"@) + decimal_digits(now as nat))
}

/// The name under which a chain learned from a peer at `now` is stored:
/// `user-` and the time.
pub fn nickname_for(now: u64) -> (name: String)
    ensures
        name@ == peer_nickname(now),
{
    let mut name = String::from_str("user-");
    push_decimal_text(&mut name, now);
    proof {
        reveal_strlit("user-");
        assert(name@ =~= peer_nickname(now));
    }
    name
}

/// The hashes listed as tips.
pub open spec fn tip_hashes(tips: Seq<TipEntry>) -> Seq<[u8; 32]> {
    Seq::new(tips.len(), |i: int| tips[i].hash)
}

/// The database after one envelope from a peer was processed: an envelope
/// that is not authentic is dropped, an authentic one at height 0 starts a
/// chain, any other is inserted into the chain of its key.
pub open spec fn processed(db: DatabaseView, e: EnvelopeView, nickname: Seq<char>) -> DatabaseView {
    if !authentic(e) {
        db
    } else if e.header.height == 0 {
        db.after_genesis(nickname, e)
    } else {
        db.after_insert(e)
    }
}

/// The hashes that processing one envelope makes this node want: nothing
/// for an envelope that is not authentic; else the tips it lists and the
/// envelope before it, and ahead of these the first envelope of its chain
/// where the envelope could not be placed and unsolicited tips are allowed.
pub open spec fn wanted_after(db: DatabaseView, e: EnvelopeView, allow_unsolicited_tips: bool) -> Seq<
    [u8; 32],
> {
    if !authentic(e) {
        Seq::empty()
    } else {
        let unplaced = e.header.height != 0 && allow_unsolicited_tips && (db.insert_verdict(e)
            == Err::<(), SqliteFail>(SqliteFail::SqliteConstraintCheck) || db.insert_verdict(e)
            == Err::<(), SqliteFail>(SqliteFail::SqliteConstraintNotNull));
        let genesis = match e.header.ancestors {
            Some(a) => if unplaced {
                seq![a.genesis]
            } else {
                Seq::empty()
            },
            None => Seq::empty(),
        };
        let previous = match e.header.ancestors {
            Some(a) => seq![a.prev_msg],
            None => Seq::empty(),
        };
        genesis + tip_hashes(e.header.tips) + previous
    }
}

/// Why processing stops at `e`, if it does: `e` is an authentic first
/// envelope that the database refuses for another reason than that it has
/// the chain already.
pub open spec fn refusal_of(db: DatabaseView, e: EnvelopeView) -> Option<SqliteFail> {
    if authentic(e) && e.header.height == 0 {
        match db.genesis_verdict(e) {
            Err(f) => if f == SqliteFail::SqliteConstraintUnique {
                None
            } else {
                Some(f)
            },
            Ok(()) => None,
        }
    } else {
        None
    }
}

/// The database after the envelopes of `list` were processed in order.
pub open spec fn processed_all(db: DatabaseView, list: Seq<EnvelopeView>, nickname: Seq<char>)
    -> DatabaseView
    decreases list.len(),
{
    if list.len() == 0 {
        db
    } else {
        processed(processed_all(db, list.drop_last(), nickname), list.last(), nickname)
    }
}

/// The hashes that processing the envelopes of `list` in order makes this
/// node want, in the order they came up.
pub open spec fn wanted_all(
    db: DatabaseView,
    list: Seq<EnvelopeView>,
    nickname: Seq<char>,
    allow_unsolicited_tips: bool,
) -> Seq<[u8; 32]>
    decreases list.len(),
{
    if list.len() == 0 {
        Seq::empty()
    } else {
        wanted_all(db, list.drop_last(), nickname, allow_unsolicited_tips) + wanted_after(
            processed_all(db, list.drop_last(), nickname),
            list.last(),
            allow_unsolicited_tips,
        )
    }
}

/// The position of the first envelope of `list` at which processing
/// stops, and why it stops there; `None` where all of `list` is processed.
pub open spec fn first_refusal(db: DatabaseView, list: Seq<EnvelopeView>, nickname: Seq<char>)
    -> Option<(int, SqliteFail)>
    decreases list.len(),
{
    if list.len() == 0 {
        None
    } else {
        match first_refusal(db, list.drop_last(), nickname) {
            Some(found) => Some(found),
            None => match refusal_of(
                processed_all(db, list.drop_last(), nickname),
                list.last(),
            ) {
                Some(f) => Some((list.len() - 1, f)),
                None => None,
            },
        }
    }
}

/// Where processing stops within the first `k` envelopes, it stops there
/// for the whole list.
pub proof fn lemma_refusal_stays(
    db: DatabaseView,
    list: Seq<EnvelopeView>,
    nickname: Seq<char>,
    k: int,
)
    requires
        0 <= k <= list.len(),
        first_refusal(db, list.take(k), nickname) is Some,
    ensures
        first_refusal(db, list, nickname) == first_refusal(db, list.take(k), nickname),
    decreases list.len(),
{
    if k == list.len() {
        assert(list.take(k) =~= list);
    } else {
        assert(list.drop_last().take(k) =~= list.take(k));
        lemma_refusal_stays(db, list.drop_last(), nickname, k);
    }
}

/// Processes one envelope and appends what it makes this node want. Where
/// processing stops at the envelope, nothing changes.
fn handle_one(
    envelope: Envelope,
    conn: &mut MsgDBHandle,
    allow_unsolicited_tips: bool,
    nickname: String,
    all_tips: &mut Vec<[u8; 32]>,
) -> (r: Result<(), SqliteFail>)
    requires
        old(conn)@.wf(),
    ensures
        final(conn)@.wf(),
        match r {
            Ok(()) => {
                &&& refusal_of(old(conn)@, envelope@) is None
                &&& final(conn)@ == processed(old(conn)@, envelope@, nickname@)
                &&& final(all_tips)@ == old(all_tips)@ + wanted_after(
                    old(conn)@,
                    envelope@,
                    allow_unsolicited_tips,
                )
            },
            Err(f) => {
                &&& refusal_of(old(conn)@, envelope@) == Some(f)
                &&& final(conn)@ == old(conn)@
                &&& final(all_tips)@ == old(all_tips)@
            },
        },
{
    let ghost e = envelope@;
    let valid = match envelope.self_authenticate() {
        Ok(valid) => valid,
        Err(_) => {
            assert(!authentic(e)) by {
                reveal(authentic);
            }
            return Ok(());
        },
    };
    let header_tips = valid.inner_ref().header.tips.clone();
    let ancestors = valid.inner_ref().header.ancestors;
    let height = valid.inner_ref().header.height;
    if height == 0 {
        match conn.insert_user_by_genesis_envelope(nickname, valid) {
            Ok(_) => {},
            Err(SqliteFail::SqliteConstraintUnique) => {},
            Err(f) => {
                return Err(f);
            },
        }
    } else {
        match conn.try_insert_authenticated_envelope(valid) {
            Err(SqliteFail::SqliteConstraintCheck) | Err(SqliteFail::SqliteConstraintNotNull) => {
                if allow_unsolicited_tips {
                    match ancestors {
                        Some(a) => {
                            all_tips.push(a.genesis);
                        },
                        None => {},
                    }
                }
            },
            _ => {},
        }
    }
    let ghost mid = all_tips@;
    let n = header_tips.len();
    let mut i: usize = 0;
    while i < n
        invariant
            0 <= i <= n,
            n == header_tips@.len(),
            all_tips@ == mid + tip_hashes(header_tips@).take(i as int),
        decreases n - i,
    {
        all_tips.push(header_tips[i].hash);
        i += 1;
    }
    match ancestors {
        Some(a) => {
            all_tips.push(a.prev_msg);
        },
        None => {},
    }
    Ok(())
}

/// What processing the envelopes of a peer comes to.
///
/// Where processing stops at an envelope, the envelopes before it are
/// processed and the reason is returned. Otherwise all are processed, and
/// the hashes returned are, of all that the envelopes refer to, those not
/// held once they are processed, each hash once, in increasing order.
pub open spec fn handled(
    before: DatabaseView,
    after: DatabaseView,
    r: Result<Vec<[u8; 32]>, SqliteFail>,
    list: Seq<EnvelopeView>,
    nickname: Seq<char>,
    allow_unsolicited_tips: bool,
) -> bool {
    match r {
        Ok(unknown) => {
            &&& first_refusal(before, list, nickname) is None
            &&& after == processed_all(before, list, nickname)
            &&& exists|wanted: Seq<[u8; 32]>| #[trigger]
                is_sorted_set_of(
                    wanted,
                    wanted_all(before, list, nickname, allow_unsolicited_tips),
                ) && unknown@ == missing_hashes(after, wanted)
        },
        Err(f) => {
            &&& first_refusal(before, list, nickname) matches Some((at, why)) && f == why && 0
                <= at < list.len() && after == processed_all(before, list.take(at), nickname)
        },
    }
}

/// Processes the envelopes that a peer sent and returns the hashes to ask
/// the peer for: of all that the envelopes refer to, what is not held
/// once they are processed, each hash once, in increasing order.
///
/// Chains learned on the way are stored under the nickname for `now`.
/// Processing stops at a first envelope that the database refuses, unless
/// it refuses it because it has the chain already.
pub fn handle_envelope(
    resp: Vec<Envelope>,
    conn: &mut MsgDBHandle,
    allow_unsolicited_tips: bool,
    now: u64,
) -> (r: Result<Vec<[u8; 32]>, SqliteFail>)
    requires
        old(conn)@.wf(),
    ensures
        final(conn)@.wf(),
        handled(
            old(conn)@,
            final(conn)@,
            r,
            envelope_views(resp@),
            peer_nickname(now),
            allow_unsolicited_tips,
        ),
{
    let ghost list = envelope_views(resp@);
    let ghost nickname = peer_nickname(now);
    let mut all_tips: Vec<[u8; 32]> = Vec::new();
    let n = resp.len();
    let mut i: usize = 0;
    while i < n
        invariant
            0 <= i <= n,
            n == resp@.len(),
            list == envelope_views(resp@),
            nickname == peer_nickname(now),
            conn@.wf(),
            conn@ == processed_all(old(conn)@, list.take(i as int), nickname),
            first_refusal(old(conn)@, list.take(i as int), nickname) is None,
            all_tips@ == wanted_all(
                old(conn)@,
                list.take(i as int),
                nickname,
                allow_unsolicited_tips,
            ),
        decreases n - i,
    {
        proof {
            assert(list.take(i + 1).drop_last() =~= list.take(i as int));
        }
        match handle_one(
            resp[i].clone(),
            conn,
            allow_unsolicited_tips,
            nickname_for(now),
            &mut all_tips,
        ) {
            Ok(()) => {},
            Err(f) => {
                proof {
                    assert(list.take(i + 1).last() == list[i as int]);
                    assert(first_refusal(old(conn)@, list.take(i + 1), nickname) == Some(
                        (i as int, f),
                    ));
                    lemma_refusal_stays(old(conn)@, list, nickname, i + 1);
                }
                return Err(f);
            },
        }
        proof {
            assert(list.take(i + 1).last() == list[i as int]);
        }
        i += 1;
    }
    assert(list.take(n as int) =~= list);
    let wanted = sort_dedup(&all_tips);
    let unknown = conn.message_not_exists_it(&wanted);
    Ok(unknown)
}

/// Processes the envelopes that a peer sent, with the time read from the
/// clock; whatever the time was, the outcome is the one of
/// [`handle_envelope`] for it. Returns the request to make of the peer, if
/// anything is missing.
pub fn envelope_processor(resp: Vec<Envelope>, conn: &mut MsgDBHandle, allow_unsolicited_tips: bool)
    -> (r: Result<Option<Tips>, SqliteFail>)
    requires
        old(conn)@.wf(),
    ensures
        final(conn)@.wf(),
        exists|now: u64, handed: Result<Vec<[u8; 32]>, SqliteFail>|
            {
                &&& #[trigger] handled(
                    old(conn)@,
                    final(conn)@,
                    handed,
                    envelope_views(resp@),
                    peer_nickname(now),
                    allow_unsolicited_tips,
                )
                &&& match handed {
                    Ok(unknown) => if unknown@.len() == 0 {
                        r == Ok::<Option<Tips>, SqliteFail>(None)
                    } else {
                        r matches Ok(Some(tips)) && tips.tips@ == unknown@
                    },
                    Err(f) => r == Err::<Option<Tips>, SqliteFail>(f),
                }
            },
{
    let now = now_ms();
    let handed = handle_envelope(resp, conn, allow_unsolicited_tips, now);
    let ghost witness = handed;
    let r = match handed {
        Ok(unknown) => if unknown.len() == 0 {
            Ok(None)
        } else {
            Ok(Some(Tips { tips: unknown }))
        },
        Err(f) => Err(f),
    };
    assert(handled(
        old(conn)@,
        conn@,
        witness,
        envelope_views(resp@),
        peer_nickname(now),
        allow_unsolicited_tips,
    ));
    r
}

/// The three tasks that serve one peer.
#[derive(Clone, Copy, Debug, PartialEq, Eq, Structural)]
pub enum FetchTask {
    LatestTipFetcher,
    EnvelopeProcessor,
    MissingEnvelopeFetcher,
}

/// When one of the three tasks ends, for whatever reason, the other two
/// are stopped: these are the two.
pub fn fetch_from_peer(ended: FetchTask) -> (stop: (FetchTask, FetchTask))
    ensures
        stop.0 != ended,
        stop.1 != ended,
        stop.0 != stop.1,
{
    match ended {
        FetchTask::EnvelopeProcessor => (
            FetchTask::LatestTipFetcher,
            FetchTask::MissingEnvelopeFetcher,
        ),
        FetchTask::LatestTipFetcher => (
            FetchTask::EnvelopeProcessor,
            FetchTask::MissingEnvelopeFetcher,
        ),
        FetchTask::MissingEnvelopeFetcher => (
            FetchTask::EnvelopeProcessor,
            FetchTask::LatestTipFetcher,
        ),
    }
}

/// What the task that asks for the newest envelopes does next.
pub enum TipFetcherAction {
    /// Ask the peer for its newest envelopes.
    Request(LatestTips),
    /// Hand the envelopes to the processor, then sleep so many
    /// milliseconds and ask again.
    Forward(Vec<Envelope>, u64),
    /// Stop: the peer did not answer, or nobody processes envelopes.
    Stop,
}

/// The delay before the next request for the newest envelopes: the base
/// delay and a jitter below one second, taken from `entropy`.
pub fn tip_fetch_delay(entropy: u64) -> (ms: u64)
    ensures
        ms == TIP_FETCH_DELAY_MS + entropy % TIP_FETCH_JITTER_MS,
        TIP_FETCH_DELAY_MS <= ms < TIP_FETCH_DELAY_MS + TIP_FETCH_JITTER_MS,
{
    TIP_FETCH_DELAY_MS + entropy % TIP_FETCH_JITTER_MS
}

/// One turn of the task that asks for the newest envelopes, with the
/// jitter drawn at random: whatever was drawn, the turn is the one of
/// [`latest_tip_fetcher`] for it, so the envelopes of an answer are handed
/// on as they are and the delay lies within a second above the base delay.
pub fn next_tip_fetch(last: Option<Result<Vec<Envelope>, ()>>) -> (action: TipFetcherAction)
    ensures
        match last {
            None => action matches TipFetcherAction::Request(_),
            Some(Ok(list)) => action matches TipFetcherAction::Forward(out, ms) && out == list
                && TIP_FETCH_DELAY_MS <= ms < TIP_FETCH_DELAY_MS + TIP_FETCH_JITTER_MS,
            Some(Err(_)) => action is Stop,
        },
{
    let drawn = random_bytes();
    let high: u64 = drawn[0] as u64;
    let low: u64 = drawn[1] as u64;
    latest_tip_fetcher(last, high * 256 + low)
}

/// One turn of the task that asks for the newest envelopes: what came of
/// the last request decides. Without a last request the task asks.
pub fn latest_tip_fetcher(last: Option<Result<Vec<Envelope>, ()>>, entropy: u64) -> (action:
    TipFetcherAction)
    ensures
        match last {
            None => action matches TipFetcherAction::Request(_),
            Some(Ok(list)) => action matches TipFetcherAction::Forward(out, ms) && out == list
                && ms == TIP_FETCH_DELAY_MS + entropy % TIP_FETCH_JITTER_MS,
            Some(Err(_)) => action is Stop,
        },
{
    match last {
        None => TipFetcherAction::Request(LatestTips {  }),
        Some(Ok(list)) => TipFetcherAction::Forward(list, tip_fetch_delay(entropy)),
        Some(Err(_)) => TipFetcherAction::Stop,
    }
}

/// What the task that asks for missing envelopes does next.
pub enum MissingFetcherAction {
    /// Ask the peer for the envelopes with these hashes and hand the
    /// answer to the processor.
    Request(SpecificTips),
    /// Stop: nobody names missing envelopes any more.
    Stop,
}

/// One turn of the task that asks for missing envelopes: a batch of
/// hashes is asked for as it is; the end of the batches ends the task.
pub fn missing_envelope_fetcher(batch: Option<Vec<[u8; 32]>>) -> (action: MissingFetcherAction)
    ensures
        match batch {
            Some(tips) => action matches MissingFetcherAction::Request(r) && r.tips.tips == tips,
            None => action is Stop,
        },
{
    match batch {
        Some(tips) => MissingFetcherAction::Request(SpecificTips { tips: Tips { tips } }),
        None => MissingFetcherAction::Stop,
    }
}

} // verus!
