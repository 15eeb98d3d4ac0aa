//! The message database: every chain known to this node, the envelopes
//! that still wait for an ancestor, the nonces committed to and the signing
//! keys of the chains this node owns.
//!
//! The state is described by [`DatabaseView`]; [`DatabaseView::wf`] states
//! the chain rules that every operation keeps.

use vstd::prelude::*;
use crate::bytes::{compare_bytes, lex_lt, same_bytes, Order};
use crate::clock::now_ms;
use crate::json::{check_canonical, is_canonical_json};
use crate::crypto::{
    nonce_of_signature,
    public_key_of,
    random_secret,
    secret_to_xonly,
    signature_of,
    KeyPair,
};
use crate::envelope::{
    authentic,
    envelope_hash,
    envelope_views,
    genesis_hash_of,
    Ancestors,
    Authenticated,
    CheckPoint,
    Envelope,
    EnvelopeView,
    Header,
    SigningError,
    TipEntry,
    Unsigned,
};

verus! {

/// The constraint that refused an insertion. A refusal is ordinary control
/// flow: it tells the caller what to do with the envelope.
#[derive(Clone, Copy, Debug, PartialEq, Eq, Structural)]
pub enum SqliteFail {
    /// The envelope, or another one at its key and height, is already there.
    SqliteConstraintUnique,
    /// No chain is known for the envelope's key.
    SqliteConstraintNotNull,
    /// What the envelope refers to is not there, or not what it claims.
    SqliteConstraintCheck,
}

/// Why a nonce could not be stored or handed out.
#[derive(Clone, Copy, Debug, PartialEq, Eq, Structural)]
pub enum NonceError {
    /// No such public nonce is stored.
    NotFound,
    /// The nonce was handed out before.
    AlreadyConsumed,
    /// The public nonce is stored already.
    Duplicate,
    /// The bytes are not a valid secret.
    InvalidSecret,
}

/// Why no envelope could be composed.
#[derive(Clone, Copy, Debug, PartialEq, Eq, Structural)]
pub enum WrapError {
    /// The key has no chain to extend and no tip was given.
    NoTip,
    /// The nonce that the tip committed to cannot be used, or the fresh
    /// nonce cannot be stored.
    Nonce(NonceError),
    /// The tip stands at the largest height there is.
    HeightOverflow,
    /// The payload is not canonical JSON.
    InvalidPayload,
}

/// A lookup found nothing.
#[derive(Clone, Copy, Debug, PartialEq, Eq, Structural)]
pub struct NotFound;

/// One chain: the envelopes of one key, the envelope of height `i` at
/// position `i`.
#[derive(Clone, Debug, PartialEq, Eq)]
pub struct UserChain {
    key: [u8; 32],
    nickname: String,
    entries: Vec<Authenticated>,
}

/// A nonce this node has committed to.
#[derive(Clone, Copy, Debug, PartialEq, Eq)]
pub struct NonceRow {
    pub public: [u8; 32],
    pub secret: [u8; 32],
    /// The chain the nonce was made for.
    pub key: [u8; 32],
    /// Whether a signature has been made with it.
    pub consumed: bool,
}

/// A signing key of a chain this node owns.
#[derive(Clone, Copy, Debug, PartialEq, Eq)]
pub struct KeyRow {
    pub public: [u8; 32],
    pub secret: [u8; 32],
}

/// The database. Obtained empty from [`MsgDBHandle::new`]; only the
/// operations below change it.
#[derive(Clone, Debug, PartialEq, Eq)]
pub struct MsgDBHandle {
    chains: Vec<UserChain>,
    pending: Vec<Authenticated>,
    nonces: Vec<NonceRow>,
    keys: Vec<KeyRow>,
}

/// The mathematical content of a chain.
pub struct ChainView {
    pub key: [u8; 32],
    pub nickname: Seq<char>,
    pub envelopes: Seq<EnvelopeView>,
}

/// The mathematical content of the database.
pub struct DatabaseView {
    /// The chains, in increasing order of key.
    pub chains: Seq<ChainView>,
    /// Envelopes that could not be linked yet, oldest first.
    pub pending: Seq<EnvelopeView>,
    pub nonces: Seq<NonceRow>,
    pub keys: Seq<KeyRow>,
}

impl View for UserChain {
    type V = ChainView;

    closed spec fn view(&self) -> ChainView {
        ChainView {
            key: self.key,
            nickname: self.nickname@,
            envelopes: Seq::new(self.entries@.len(), |i: int| self.entries@[i]@),
        }
    }
}

impl View for MsgDBHandle {
    type V = DatabaseView;

    closed spec fn view(&self) -> DatabaseView {
        DatabaseView {
            chains: Seq::new(self.chains@.len(), |c: int| self.chains@[c]@),
            pending: Seq::new(self.pending@.len(), |p: int| self.pending@[p]@),
            nonces: self.nonces@,
            keys: self.keys@,
        }
    }
}

/// `next` is the successor of `prev` in a chain whose first envelope has
/// the hash `genesis`: same key, next height, both ancestor hashes right,
/// and signed with the nonce that `prev` committed to.
pub open spec fn links_to(prev: EnvelopeView, genesis: Seq<u8>, next: EnvelopeView) -> bool {
    &&& next.header.key == prev.header.key
    &&& next.header.height == prev.header.height + 1
    &&& next.header.ancestors matches Some(a) && a.prev_msg@ == envelope_hash(prev) && a.genesis@
        == genesis
    &&& next.header.signature matches Some(sig) && nonce_of_signature(sig@)
        == prev.header.next_nonce@
}

/// The rules of one chain: it is not empty, every envelope is authentic,
/// carries the chain's key and stands at its height, and each links to the
/// one before it.
pub open spec fn chain_ok(c: ChainView) -> bool {
    &&& c.envelopes.len() > 0
    &&& forall|i: int|
        0 <= i < c.envelopes.len() ==> {
            let e = #[trigger] c.envelopes[i];
            &&& e.header.key == c.key
            &&& e.header.height == i
            &&& authentic(e)
        }
    &&& forall|i: int|
        0 < i < c.envelopes.len() ==> links_to(
            c.envelopes[i - 1],
            envelope_hash(c.envelopes[0]),
            #[trigger] c.envelopes[i],
        )
}

impl ChainView {
    /// The newest envelope of the chain.
    pub open spec fn tip(self) -> EnvelopeView {
        self.envelopes.last()
    }

    /// The hash that identifies the chain.
    pub open spec fn genesis(self) -> Seq<u8> {
        envelope_hash(self.envelopes[0])
    }
}

impl DatabaseView {
    /// The envelope at height `i` of chain `c` has the hash `h`.
    pub open spec fn holds(self, c: int, i: int, h: Seq<u8>) -> bool {
        &&& 0 <= c < self.chains.len()
        &&& 0 <= i < self.chains[c].envelopes.len()
        &&& envelope_hash(self.chains[c].envelopes[i]) == h
    }

    /// Some chain holds an envelope with the hash `h`.
    pub open spec fn contains(self, h: Seq<u8>) -> bool {
        exists|c: int, i: int| self.holds(c, i, h)
    }

    /// The envelope with the hash `h`, where there is one.
    pub open spec fn message(self, h: Seq<u8>) -> Option<EnvelopeView> {
        if self.contains(h) {
            let (c, i) = choose|c: int, i: int| self.holds(c, i, h);
            Some(self.chains[c].envelopes[i])
        } else {
            None
        }
    }

    /// Chain `c` belongs to `key`.
    pub open spec fn chain_has_key(self, c: int, key: [u8; 32]) -> bool {
        0 <= c < self.chains.len() && self.chains[c].key == key
    }

    /// A chain is known for `key`.
    pub open spec fn knows(self, key: [u8; 32]) -> bool {
        exists|c: int| self.chain_has_key(c, key)
    }

    /// The chain of `key`, where one is known.
    pub open spec fn chain_of(self, key: [u8; 32]) -> Option<ChainView> {
        if self.knows(key) {
            Some(self.chains[choose|c: int| self.chain_has_key(c, key)])
        } else {
            None
        }
    }

    /// Every envelope that `e` lists as a tip is held.
    pub open spec fn tips_present(self, e: EnvelopeView) -> bool {
        forall|t: int|
            0 <= t < e.header.tips.len() ==> self.contains((#[trigger] e.header.tips[t]).hash@)
    }

    /// A pending envelope is `h`.
    pub open spec fn pending_has(self, h: Seq<u8>) -> bool {
        exists|p: int| 0 <= p < self.pending.len() && envelope_hash(#[trigger] self.pending[p]) == h
    }

    /// The chains are in strictly increasing order of key.
    #[verifier::opaque]
    pub open spec fn chains_sorted(self) -> bool {
        forall|a: int, b: int|
            0 <= a < b < self.chains.len() ==> lex_lt(
                (#[trigger] self.chains[a]).key@,
                (#[trigger] self.chains[b]).key@,
            )
    }

    /// No hash is held twice.
    #[verifier::opaque]
    pub open spec fn hashes_unique(self) -> bool {
        forall|c1: int, i1: int, c2: int, i2: int, h: Seq<u8>|
            #![trigger self.holds(c1, i1, h), self.holds(c2, i2, h)]
            self.holds(c1, i1, h) && self.holds(c2, i2, h) ==> c1 == c2 && i1 == i2
    }

    /// The public nonces are distinct, and each nonce and each signing key
    /// is the public key of the secret stored with it.
    #[verifier::opaque]
    pub open spec fn nonces_ok(self) -> bool {
        &&& forall|a: int, b: int|
            0 <= a < b < self.nonces.len() ==> (#[trigger] self.nonces[a]).public
                != (#[trigger] self.nonces[b]).public
        &&& forall|a: int|
            0 <= a < self.nonces.len() ==> public_key_of((#[trigger] self.nonces[a]).secret@)
                == Some(self.nonces[a].public@)
        &&& forall|k: int|
            0 <= k < self.keys.len() ==> public_key_of((#[trigger] self.keys[k]).secret@) == Some(
                self.keys[k].public@,
            )
    }

    /// The first signing key stored for `public`, counted from `from`.
    pub open spec fn key_from(self, public: [u8; 32], from: int) -> Option<KeyRow>
        decreases self.keys.len() - from,
    {
        if from < 0 || from >= self.keys.len() {
            None
        } else if self.keys[from].public == public {
            Some(self.keys[from])
        } else {
            self.key_from(public, from + 1)
        }
    }

    /// The signing key stored for `public`.
    pub open spec fn signing_key(self, public: [u8; 32]) -> Option<KeyRow> {
        self.key_from(public, 0)
    }

    /// Row `i` holds the public nonce `public`.
    pub open spec fn nonce_at(self, i: int, public: [u8; 32]) -> bool {
        0 <= i < self.nonces.len() && self.nonces[i].public == public
    }

    /// The public nonce `public` is stored.
    pub open spec fn has_nonce(self, public: [u8; 32]) -> bool {
        exists|i: int| self.nonce_at(i, public)
    }

    /// The position of the row of `public`.
    pub open spec fn nonce_index(self, public: [u8; 32]) -> int {
        choose|i: int| self.nonce_at(i, public)
    }

    /// The row of `public`.
    pub open spec fn nonce_row(self, public: [u8; 32]) -> NonceRow {
        self.nonces[self.nonce_index(public)]
    }

    /// `public` is stored and no signature was made with it yet.
    pub open spec fn nonce_usable(self, public: [u8; 32]) -> bool {
        self.has_nonce(public) && !self.nonce_row(public).consumed
    }

    /// The database with the nonce `public` marked as consumed.
    pub open spec fn with_consumed(self, public: [u8; 32]) -> DatabaseView {
        DatabaseView {
            nonces: self.nonces.update(
                self.nonce_index(public),
                NonceRow { consumed: true, ..self.nonce_row(public) },
            ),
            ..self
        }
    }

    /// The database with one more nonce row.
    pub open spec fn with_nonce(self, row: NonceRow) -> DatabaseView {
        DatabaseView { nonces: self.nonces.push(row), ..self }
    }

    /// Row `i` holds the key `public`.
    pub open spec fn key_at(self, i: int, public: [u8; 32]) -> bool {
        0 <= i < self.keys.len() && self.keys[i].public == public
    }

    /// A signing key is stored for `public`.
    pub open spec fn has_key(self, public: [u8; 32]) -> bool {
        exists|i: int| self.key_at(i, public)
    }

    /// The database with the signing key `row`, unless one is stored for
    /// its public key already.
    pub open spec fn with_key(self, row: KeyRow) -> DatabaseView {
        if self.has_key(row.public) {
            self
        } else {
            DatabaseView { keys: self.keys.push(row), ..self }
        }
    }

    /// `e` may be appended to `chain`: it links to the chain's tip and
    /// every envelope it lists as a tip is held.
    pub open spec fn extends_chain(self, chain: ChainView, e: EnvelopeView) -> bool {
        links_to(chain.tip(), chain.genesis(), e) && self.tips_present(e)
    }

    /// What inserting `e` comes to. An envelope that is held already is a
    /// duplicate; one of an unknown key cannot be placed; one at or below
    /// its chain's tip collides with the envelope at that height; one that
    /// follows the tip and whose tips are all held is accepted; anything
    /// else refers to what is not there.
    pub open spec fn insert_verdict(self, e: EnvelopeView) -> Result<(), SqliteFail> {
        if self.contains(envelope_hash(e)) {
            Err(SqliteFail::SqliteConstraintUnique)
        } else {
            match self.chain_of(e.header.key) {
                None => Err(SqliteFail::SqliteConstraintNotNull),
                Some(chain) => {
                    if e.header.height <= chain.tip().header.height {
                        Err(SqliteFail::SqliteConstraintUnique)
                    } else if self.extends_chain(chain, e) {
                        Ok(())
                    } else {
                        Err(SqliteFail::SqliteConstraintCheck)
                    }
                },
            }
        }
    }

    /// The database with `e` appended to chain `c`.
    pub open spec fn appended_at(self, c: int, e: EnvelopeView) -> DatabaseView {
        DatabaseView {
            chains: self.chains.update(
                c,
                ChainView { envelopes: self.chains[c].envelopes.push(e), ..self.chains[c] },
            ),
            ..self
        }
    }

    /// The database with `e` appended to the chain of its key.
    pub open spec fn with_appended(self, e: EnvelopeView) -> DatabaseView {
        self.appended_at(choose|c: int| self.chain_has_key(c, e.header.key), e)
    }

    /// The database with `e` parked, unless it is parked already.
    pub open spec fn with_pending(self, e: EnvelopeView) -> DatabaseView {
        if self.pending_has(envelope_hash(e)) {
            self
        } else {
            DatabaseView { pending: self.pending.push(e), ..self }
        }
    }

    /// The database after an attempt to insert `e`: the envelope joins its
    /// chain where it is accepted, is parked where it refers to what is not
    /// there, and is dropped in the other cases.
    pub open spec fn after_insert(self, e: EnvelopeView) -> DatabaseView {
        match self.insert_verdict(e) {
            Ok(()) => self.with_appended(e),
            Err(SqliteFail::SqliteConstraintCheck) => self.with_pending(e),
            Err(_) => self,
        }
    }

    /// What inserting `e` as the first envelope of a new chain comes to.
    pub open spec fn genesis_verdict(self, e: EnvelopeView) -> Result<(), SqliteFail> {
        if e.header.height != 0 || !self.tips_present(e) {
            Err(SqliteFail::SqliteConstraintCheck)
        } else if self.knows(e.header.key) || self.contains(envelope_hash(e)) {
            Err(SqliteFail::SqliteConstraintUnique)
        } else {
            Ok(())
        }
    }

    /// The database with a new chain at position `pos`.
    pub open spec fn with_chain_at(self, pos: int, nickname: Seq<char>, e: EnvelopeView)
        -> DatabaseView {
        DatabaseView {
            chains: self.chains.insert(
                pos,
                ChainView { key: e.header.key, nickname: nickname, envelopes: seq![e] },
            ),
            ..self
        }
    }

    /// The database after an attempt to start a chain with `e`.
    pub open spec fn after_genesis(self, nickname: Seq<char>, e: EnvelopeView) -> DatabaseView {
        match self.genesis_verdict(e) {
            Ok(()) => self.with_chain_at(position_for(self.chains, e.header.key@, 0), nickname, e),
            Err(_) => self,
        }
    }

    /// `e` can never be inserted any more: it is held, or another envelope
    /// stands at its height.
    pub open spec fn refused_for_good(self, e: EnvelopeView) -> bool {
        self.insert_verdict(e) == Err::<(), SqliteFail>(SqliteFail::SqliteConstraintUnique)
    }

    /// Every pending envelope still waits for something: none could be
    /// inserted now, and none is refused for good.
    pub open spec fn quiescent(self) -> bool {
        forall|p: int|
            0 <= p < self.pending.len() ==> self.insert_verdict(#[trigger] self.pending[p]) is Err
                && !self.refused_for_good(self.pending[p])
    }

    /// How many envelopes are held.
    pub open spec fn held_total(self) -> nat {
        total_length(self.chains)
    }

    /// The database without the pending envelope at position `p`.
    pub open spec fn without_pending(self, p: int) -> DatabaseView {
        DatabaseView { pending: self.pending.remove(p), ..self }
    }

    /// `self` came out of `before` by promoting pending envelopes: every
    /// chain is still there and has only grown at its end, by envelopes
    /// that were pending; nonces and keys are untouched, no envelope was
    /// newly parked, and each envelope that was pending is still pending or
    /// can never be inserted any more, be it that it is held now.
    pub open spec fn grew_from(self, before: DatabaseView) -> bool {
        &&& self.chains.len() == before.chains.len()
        &&& forall|c: int|
            0 <= c < before.chains.len() ==> {
                &&& (#[trigger] self.chains[c]).key == before.chains[c].key
                &&& self.chains[c].nickname == before.chains[c].nickname
                &&& before.chains[c].envelopes.is_prefix_of(self.chains[c].envelopes)
            }
        &&& forall|c: int, i: int|
            0 <= c < before.chains.len() && before.chains[c].envelopes.len() <= i
                < self.chains[c].envelopes.len() ==> before.pending.contains(
                #[trigger] self.chains[c].envelopes[i],
            )
        &&& self.nonces == before.nonces
        &&& self.keys == before.keys
        &&& forall|p: int|
            0 <= p < self.pending.len() ==> before.pending.contains(#[trigger] self.pending[p])
        &&& forall|q: int|
            0 <= q < before.pending.len() ==> self.pending.contains(#[trigger] before.pending[q])
                || self.refused_for_good(before.pending[q])
    }

    /// Every chain keeps the chain rules.
    #[verifier::opaque]
    pub open spec fn chains_ok(self) -> bool {
        forall|c: int| 0 <= c < self.chains.len() ==> chain_ok(#[trigger] self.chains[c])
    }

    /// Every tip that a held envelope lists is held too.
    #[verifier::opaque]
    pub open spec fn tips_held(self) -> bool {
        forall|c: int, i: int|
            0 <= c < self.chains.len() && 0 <= i < self.chains[c].envelopes.len()
                ==> self.tips_present(#[trigger] self.chains[c].envelopes[i])
    }

    /// Pending envelopes are authentic and above height 0.
    #[verifier::opaque]
    pub open spec fn pending_ok(self) -> bool {
        forall|p: int|
            0 <= p < self.pending.len() ==> authentic(#[trigger] self.pending[p])
                && self.pending[p].header.height > 0
    }

    /// What holds of every database: each chain is linear and linked, the
    /// chains are sorted by key, hashes identify envelopes, every tip that a
    /// held envelope lists is held too, pending envelopes are authentic and
    /// above height 0, no public nonce is stored twice, and the secrets
    /// stored belong to their public nonces and keys.
    pub open spec fn wf(self) -> bool {
        &&& self.chains_ok()
        &&& self.chains_sorted()
        &&& self.hashes_unique()
        &&& self.tips_held()
        &&& self.pending_ok()
        &&& self.nonces_ok()
    }
}

/// The envelopes that `hashes` name, in the order of `hashes`; a hash
/// that no held envelope has contributes nothing.
pub open spec fn found_messages(db: DatabaseView, hashes: Seq<[u8; 32]>) -> Seq<EnvelopeView>
    decreases hashes.len(),
{
    if hashes.len() == 0 {
        Seq::empty()
    } else {
        let before = found_messages(db, hashes.drop_last());
        match db.message(hashes.last()@) {
            Some(e) => before.push(e),
            None => before,
        }
    }
}

/// The hashes among `hashes` that no held envelope has, in their order.
pub open spec fn missing_hashes(db: DatabaseView, hashes: Seq<[u8; 32]>) -> Seq<[u8; 32]>
    decreases hashes.len(),
{
    if hashes.len() == 0 {
        Seq::empty()
    } else {
        let before = missing_hashes(db, hashes.drop_last());
        if db.contains(hashes.last()@) {
            before
        } else {
            before.push(hashes.last())
        }
    }
}

/// The number of envelopes in all of `chains`.
pub open spec fn total_length(chains: Seq<ChainView>) -> nat
    decreases chains.len(),
{
    if chains.len() == 0 {
        0
    } else {
        total_length(chains.drop_last()) + chains.last().envelopes.len()
    }
}

/// Appending one envelope to one chain makes the total one larger.
pub proof fn lemma_total_length_after_append(chains: Seq<ChainView>, c: int, longer: ChainView)
    requires
        0 <= c < chains.len(),
        longer.envelopes.len() == chains[c].envelopes.len() + 1,
    ensures
        total_length(chains.update(c, longer)) == total_length(chains) + 1,
    decreases chains.len(),
{
    let after = chains.update(c, longer);
    if c == chains.len() - 1 {
        assert(after.drop_last() =~= chains.drop_last());
    } else {
        assert(after.drop_last() =~= chains.drop_last().update(c, longer));
        lemma_total_length_after_append(chains.drop_last(), c, longer);
    }
}

/// Where a chain of `key` belongs among `chains`: behind the chains,
/// counted from `from`, whose keys are below `key`.
pub open spec fn position_for(chains: Seq<ChainView>, key: Seq<u8>, from: int) -> int
    decreases chains.len() - from,
{
    if from < 0 || from >= chains.len() || !lex_lt(chains[from].key@, key) {
        from
    } else {
        position_for(chains, key, from + 1)
    }
}

/// In a well-formed database at most one chain belongs to a key.
pub proof fn lemma_chain_of_key_unique(db: DatabaseView, a: int, b: int, key: [u8; 32])
    requires
        db.wf(),
        db.chain_has_key(a, key),
        db.chain_has_key(b, key),
    ensures
        a == b,
{
    reveal(DatabaseView::chains_sorted);
    if a < b {
        crate::bytes::lemma_lex_lt_irreflexive(key@);
    } else if b < a {
        crate::bytes::lemma_lex_lt_irreflexive(key@);
    }
}

/// What is held after an envelope joined chain `c`.
proof fn lemma_append_holds(db: DatabaseView, c: int, e: EnvelopeView)
    requires
        0 <= c < db.chains.len(),
    ensures
        forall|c2: int, i2: int, h: Seq<u8>| #[trigger]
            db.appended_at(c, e).holds(c2, i2, h) <==> (db.holds(c2, i2, h) || (c2 == c && i2
                == db.chains[c].envelopes.len() && h == envelope_hash(e))),
{
}

/// Appending keeps what was held and adds the new envelope.
proof fn lemma_append_contains(db: DatabaseView, c: int, e: EnvelopeView)
    requires
        0 <= c < db.chains.len(),
    ensures
        forall|h: Seq<u8>| db.contains(h) ==> #[trigger] db.appended_at(c, e).contains(h),
        db.appended_at(c, e).contains(envelope_hash(e)),
        forall|h: Seq<u8>| #[trigger]
            db.appended_at(c, e).contains(h) ==> db.contains(h) || h == envelope_hash(e),
{
    let new = db.appended_at(c, e);
    lemma_append_holds(db, c, e);
    assert forall|h: Seq<u8>| db.contains(h) implies #[trigger] new.contains(h) by {
        let (wc, wi) = choose|wc: int, wi: int| db.holds(wc, wi, h);
        assert(new.holds(wc, wi, h));
    }
    assert(new.holds(c, db.chains[c].envelopes.len() as int, envelope_hash(e)));
}

/// Appending an envelope that follows the tip of chain `c`, is authentic,
/// is not held yet and lists only held tips keeps the database well formed.
pub proof fn lemma_append_wf(db: DatabaseView, c: int, e: EnvelopeView)
    requires
        db.wf(),
        0 <= c < db.chains.len(),
        authentic(e),
        !db.contains(envelope_hash(e)),
        db.extends_chain(db.chains[c], e),
    ensures
        db.appended_at(c, e).wf(),
{
    let new = db.appended_at(c, e);
    lemma_append_holds(db, c, e);
    lemma_append_contains(db, c, e);
    assert(new.chains_ok()) by {
        reveal(DatabaseView::chains_ok);
    }
    assert(new.chains_sorted()) by {
        reveal(DatabaseView::chains_sorted);
    }
    assert(new.hashes_unique()) by {
        reveal(DatabaseView::hashes_unique);
    }
    assert(new.tips_held()) by {
        reveal(DatabaseView::tips_held);
    }
    assert(new.pending_ok()) by {
        reveal(DatabaseView::pending_ok);
    }
    assert(new.nonces_ok()) by {
        reveal(DatabaseView::nonces_ok);
    }
}


/// Where `position_for` ends up: every chain it passed has a key below
/// `key`, and the chain it stopped at, if any, has not.
pub proof fn lemma_position_for(chains: Seq<ChainView>, key: Seq<u8>, from: int)
    requires
        0 <= from <= chains.len(),
    ensures
        from <= position_for(chains, key, from) <= chains.len(),
        forall|a: int|
            from <= a < position_for(chains, key, from) ==> lex_lt(
                (#[trigger] chains[a]).key@,
                key,
            ),
        position_for(chains, key, from) < chains.len() ==> !lex_lt(
            chains[position_for(chains, key, from)].key@,
            key,
        ),
    decreases chains.len() - from,
{
    if from < chains.len() && lex_lt(chains[from].key@, key) {
        lemma_position_for(chains, key, from + 1);
    }
}

/// What is held after a chain was added at position `pos`.
proof fn lemma_new_chain_holds(db: DatabaseView, pos: int, nickname: Seq<char>, e: EnvelopeView)
    requires
        0 <= pos <= db.chains.len(),
    ensures
        forall|c2: int, i2: int, h: Seq<u8>| #[trigger]
            db.with_chain_at(pos, nickname, e).holds(c2, i2, h) <==> ((c2 < pos && db.holds(
                c2,
                i2,
                h,
            )) || (c2 == pos && i2 == 0 && h == envelope_hash(e)) || (c2 > pos && db.holds(
                c2 - 1,
                i2,
                h,
            ))),
        forall|h: Seq<u8>| db.contains(h) ==> #[trigger] db.with_chain_at(pos, nickname, e).contains(h),
        db.with_chain_at(pos, nickname, e).contains(envelope_hash(e)),
{
    let new = db.with_chain_at(pos, nickname, e);
    assert forall|h: Seq<u8>| db.contains(h) implies #[trigger] new.contains(h) by {
        let (wc, wi) = choose|wc: int, wi: int| db.holds(wc, wi, h);
        if wc < pos {
            assert(new.holds(wc, wi, h));
        } else {
            assert(new.holds(wc + 1, wi, h));
        }
    }
    assert(new.holds(pos, 0, envelope_hash(e)));
}

/// The premises under which a chain starting with `e` may be added at `pos`.
pub open spec fn new_chain_fits(db: DatabaseView, pos: int, e: EnvelopeView) -> bool {
    &&& db.wf()
    &&& 0 <= pos <= db.chains.len()
    &&& authentic(e)
    &&& e.header.height == 0
    &&& db.tips_present(e)
    &&& !db.contains(envelope_hash(e))
    &&& forall|a: int| 0 <= a < pos ==> lex_lt((#[trigger] db.chains[a]).key@, e.header.key@)
    &&& forall|b: int|
        pos <= b < db.chains.len() ==> lex_lt(e.header.key@, (#[trigger] db.chains[b]).key@)
}

proof fn lemma_new_chain_ok(db: DatabaseView, pos: int, nickname: Seq<char>, e: EnvelopeView)
    requires
        new_chain_fits(db, pos, e),
    ensures
        db.with_chain_at(pos, nickname, e).chains_ok(),
{
    reveal(DatabaseView::chains_ok);
}

proof fn lemma_new_chain_sorted(db: DatabaseView, pos: int, nickname: Seq<char>, e: EnvelopeView)
    requires
        new_chain_fits(db, pos, e),
    ensures
        db.with_chain_at(pos, nickname, e).chains_sorted(),
{
    reveal(DatabaseView::chains_sorted);
}

proof fn lemma_new_chain_unique(db: DatabaseView, pos: int, nickname: Seq<char>, e: EnvelopeView)
    requires
        new_chain_fits(db, pos, e),
    ensures
        db.with_chain_at(pos, nickname, e).hashes_unique(),
{
    lemma_new_chain_holds(db, pos, nickname, e);
    reveal(DatabaseView::hashes_unique);
}

proof fn lemma_new_chain_tips(db: DatabaseView, pos: int, nickname: Seq<char>, e: EnvelopeView)
    requires
        new_chain_fits(db, pos, e),
    ensures
        db.with_chain_at(pos, nickname, e).tips_held(),
{
    lemma_new_chain_holds(db, pos, nickname, e);
    reveal(DatabaseView::tips_held);
}

/// Adding a chain that starts with an authentic envelope of height 0,
/// at the place its key belongs, keeps the database well formed.
pub proof fn lemma_new_chain_wf(db: DatabaseView, pos: int, nickname: Seq<char>, e: EnvelopeView)
    requires
        new_chain_fits(db, pos, e),
    ensures
        db.with_chain_at(pos, nickname, e).wf(),
{
    let new = db.with_chain_at(pos, nickname, e);
    lemma_new_chain_ok(db, pos, nickname, e);
    lemma_new_chain_sorted(db, pos, nickname, e);
    lemma_new_chain_unique(db, pos, nickname, e);
    lemma_new_chain_tips(db, pos, nickname, e);
    assert(new.pending_ok()) by {
        reveal(DatabaseView::pending_ok);
    }
    assert(new.nonces_ok()) by {
        reveal(DatabaseView::nonces_ok);
    }
}

/// Parking an authentic envelope above height 0 keeps the database well
/// formed.
pub proof fn lemma_pending_wf(db: DatabaseView, e: EnvelopeView)
    requires
        db.wf(),
        authentic(e),
        e.header.height > 0,
    ensures
        db.with_pending(e).wf(),
{
    let new = db.with_pending(e);
    assert(new.chains_ok()) by {
        reveal(DatabaseView::chains_ok);
    }
    assert(new.chains_sorted()) by {
        reveal(DatabaseView::chains_sorted);
    }
    assert(new.hashes_unique()) by {
        reveal(DatabaseView::hashes_unique);
        assert forall|c1: int, i1: int, c2: int, i2: int, h: Seq<u8>|
            #![trigger new.holds(c1, i1, h), new.holds(c2, i2, h)]
            new.holds(c1, i1, h) && new.holds(c2, i2, h) implies c1 == c2 && i1 == i2 by {
            assert(db.holds(c1, i1, h) && db.holds(c2, i2, h));
        }
    }
    assert(new.tips_held()) by {
        reveal(DatabaseView::tips_held);
        assert forall|c2: int, i2: int|
            0 <= c2 < new.chains.len() && 0 <= i2 < new.chains[c2].envelopes.len()
                implies new.tips_present(#[trigger] new.chains[c2].envelopes[i2]) by {
            let x = new.chains[c2].envelopes[i2];
            assert forall|t: int| 0 <= t < x.header.tips.len() implies new.contains(
                (#[trigger] x.header.tips[t]).hash@,
            ) by {
                let h = x.header.tips[t].hash@;
                let (wc, wi) = choose|wc: int, wi: int| db.holds(wc, wi, h);
                assert(new.holds(wc, wi, h));
            }
        }
    }
    assert(new.pending_ok()) by {
        reveal(DatabaseView::pending_ok);
    }
    assert(new.nonces_ok()) by {
        reveal(DatabaseView::nonces_ok);
    }
}

/// Taking an envelope out of the pending ones keeps the database well
/// formed.
pub proof fn lemma_without_pending_wf(db: DatabaseView, p: int)
    requires
        db.wf(),
        0 <= p < db.pending.len(),
    ensures
        db.without_pending(p).wf(),
        forall|h: Seq<u8>| db.contains(h) <==> #[trigger] db.without_pending(p).contains(h),
{
    let new = db.without_pending(p);
    assert forall|h: Seq<u8>| db.contains(h) <==> #[trigger] new.contains(h) by {
        if db.contains(h) {
            let (wc, wi) = choose|wc: int, wi: int| db.holds(wc, wi, h);
            assert(new.holds(wc, wi, h));
        }
        if new.contains(h) {
            let (wc, wi) = choose|wc: int, wi: int| new.holds(wc, wi, h);
            assert(db.holds(wc, wi, h));
        }
    }
    assert(new.chains_ok()) by {
        reveal(DatabaseView::chains_ok);
    }
    assert(new.chains_sorted()) by {
        reveal(DatabaseView::chains_sorted);
    }
    assert(new.hashes_unique()) by {
        reveal(DatabaseView::hashes_unique);
        assert forall|c1: int, i1: int, c2: int, i2: int, h: Seq<u8>|
            #![trigger new.holds(c1, i1, h), new.holds(c2, i2, h)]
            new.holds(c1, i1, h) && new.holds(c2, i2, h) implies c1 == c2 && i1 == i2 by {
            assert(db.holds(c1, i1, h) && db.holds(c2, i2, h));
        }
    }
    assert(new.tips_held()) by {
        reveal(DatabaseView::tips_held);
    }
    assert(new.pending_ok()) by {
        reveal(DatabaseView::pending_ok);
    }
    assert(new.nonces_ok()) by {
        reveal(DatabaseView::nonces_ok);
    }
}

/// Growth is monotone: what was held stays held.
pub proof fn lemma_grew_keeps_held(before: DatabaseView, after: DatabaseView)
    requires
        after.grew_from(before),
    ensures
        forall|h: Seq<u8>| before.contains(h) ==> #[trigger] after.contains(h),
{
    assert forall|h: Seq<u8>| before.contains(h) implies #[trigger] after.contains(h) by {
        let (wc, wi) = choose|wc: int, wi: int| before.holds(wc, wi, h);
        assert(after.holds(wc, wi, h));
    }
}

/// What can never be inserted stays so while the database grows.
pub proof fn lemma_refusal_is_for_good(before: DatabaseView, after: DatabaseView, e: EnvelopeView)
    requires
        before.wf(),
        after.wf(),
        after.grew_from(before),
        before.refused_for_good(e),
    ensures
        after.refused_for_good(e),
{
    lemma_grew_keeps_held(before, after);
    let h = envelope_hash(e);
    if !before.contains(h) && !after.contains(h) {
        let k = choose|k: int| before.chain_has_key(k, e.header.key);
        assert(after.chain_has_key(k, e.header.key));
        let k2 = choose|k2: int| after.chain_has_key(k2, e.header.key);
        lemma_chain_of_key_unique(after, k, k2, e.header.key);
        assert(chain_ok(before.chains[k]) && chain_ok(after.chains[k])) by {
            reveal(DatabaseView::chains_ok);
        }
    }
}

/// A database grew from itself.
pub proof fn lemma_grew_reflexive(db: DatabaseView)
    ensures
        db.grew_from(db),
{
}

/// Growth composes.
pub proof fn lemma_grew_transitive(a: DatabaseView, b: DatabaseView, c: DatabaseView)
    requires
        b.wf(),
        c.wf(),
        b.grew_from(a),
        c.grew_from(b),
    ensures
        c.grew_from(a),
{
    lemma_grew_keeps_held(b, c);
    assert forall|k: int, i: int|
        0 <= k < a.chains.len() && a.chains[k].envelopes.len() <= i
            < c.chains[k].envelopes.len() implies a.pending.contains(
        #[trigger] c.chains[k].envelopes[i],
    ) by {
        let e = c.chains[k].envelopes[i];
        assert(a.chains[k].envelopes.is_prefix_of(b.chains[k].envelopes));
        assert(b.chains[k].envelopes.is_prefix_of(c.chains[k].envelopes));
        if i < b.chains[k].envelopes.len() {
            assert(b.chains[k].envelopes[i] == e);
        } else {
            assert(b.pending.contains(e));
            let p = choose|p: int| 0 <= p < b.pending.len() && b.pending[p] == e;
            assert(a.pending.contains(b.pending[p]));
        }
    }
    assert forall|q: int| 0 <= q < a.pending.len() implies c.pending.contains(
        #[trigger] a.pending[q],
    ) || c.refused_for_good(a.pending[q]) by {
        if b.pending.contains(a.pending[q]) {
        } else {
            lemma_refusal_is_for_good(b, c, a.pending[q]);
        }
    }
}

/// Promoting the pending envelope at `p` into chain `c` is growth, by one
/// envelope.
proof fn lemma_promote_grows(db: DatabaseView, p: int, c: int)
    requires
        0 <= p < db.pending.len(),
        0 <= c < db.chains.len(),
    ensures
        db.without_pending(p).appended_at(c, db.pending[p]).grew_from(db),
        db.without_pending(p).appended_at(c, db.pending[p]).held_total() == db.held_total() + 1,
{
    let e = db.pending[p];
    let mid = db.without_pending(p);
    let new = mid.appended_at(c, e);
    lemma_append_contains(mid, c, e);
    lemma_total_length_after_append(db.chains, c, new.chains[c]);
    assert forall|k: int, i: int|
        0 <= k < db.chains.len() && db.chains[k].envelopes.len() <= i
            < new.chains[k].envelopes.len() implies db.pending.contains(
        #[trigger] new.chains[k].envelopes[i],
    ) by {
        assert(k == c && new.chains[k].envelopes[i] == db.pending[p]);
    }
    assert forall|q: int| 0 <= q < db.pending.len() implies new.pending.contains(
        #[trigger] db.pending[q],
    ) || new.refused_for_good(db.pending[q]) by {
        if q < p {
            assert(new.pending[q] == db.pending[q]);
        } else if q > p {
            assert(new.pending[q - 1] == db.pending[q]);
        }
    }
}

/// Dropping a pending envelope that can never be inserted is growth, by
/// nothing.
proof fn lemma_drop_grows(db: DatabaseView, p: int)
    requires
        db.wf(),
        0 <= p < db.pending.len(),
        db.refused_for_good(db.pending[p]),
    ensures
        db.without_pending(p).grew_from(db),
        db.without_pending(p).held_total() == db.held_total(),
        forall|e: EnvelopeView| #[trigger]
            db.without_pending(p).insert_verdict(e) == db.insert_verdict(e),
{
    let new = db.without_pending(p);
    lemma_same_verdicts(db, new);
    assert forall|q: int| 0 <= q < db.pending.len() implies new.pending.contains(
        #[trigger] db.pending[q],
    ) || new.refused_for_good(db.pending[q]) by {
        if q < p {
            assert(new.pending[q] == db.pending[q]);
        } else if q > p {
            assert(new.pending[q - 1] == db.pending[q]);
        }
    }
}

/// What inserting an envelope comes to depends on the chains only.
pub proof fn lemma_same_verdicts(a: DatabaseView, b: DatabaseView)
    requires
        a.wf(),
        a.chains == b.chains,
    ensures
        forall|e: EnvelopeView| #[trigger] b.insert_verdict(e) == a.insert_verdict(e),
{
    assert forall|e: EnvelopeView| #[trigger] b.insert_verdict(e) == a.insert_verdict(e) by {
        lemma_same_verdict(a, b, e);
    }
}

proof fn lemma_same_verdict(a: DatabaseView, b: DatabaseView, e: EnvelopeView)
    requires
        a.wf(),
        a.chains == b.chains,
    ensures
        b.insert_verdict(e) == a.insert_verdict(e),
{
    let h = envelope_hash(e);
    assert(a.contains(h) == b.contains(h)) by {
        if a.contains(h) {
            let (wc, wi) = choose|wc: int, wi: int| a.holds(wc, wi, h);
            assert(b.holds(wc, wi, h));
        }
        if b.contains(h) {
            let (wc, wi) = choose|wc: int, wi: int| b.holds(wc, wi, h);
            assert(a.holds(wc, wi, h));
        }
    }
    assert(a.knows(e.header.key) == b.knows(e.header.key)) by {
        if a.knows(e.header.key) {
            let k = choose|k: int| a.chain_has_key(k, e.header.key);
            assert(b.chain_has_key(k, e.header.key));
        }
        if b.knows(e.header.key) {
            let k = choose|k: int| b.chain_has_key(k, e.header.key);
            assert(a.chain_has_key(k, e.header.key));
        }
    }
    assert(a.chain_of(e.header.key) == b.chain_of(e.header.key)) by {
        if a.knows(e.header.key) {
            let ka = choose|k: int| a.chain_has_key(k, e.header.key);
            let kb = choose|k: int| b.chain_has_key(k, e.header.key);
            lemma_chain_of_key_unique(a, ka, kb, e.header.key);
        }
    }
    assert(a.tips_present(e) == b.tips_present(e)) by {
        if a.tips_present(e) {
            assert forall|t: int| 0 <= t < e.header.tips.len() implies b.contains(
                (#[trigger] e.header.tips[t]).hash@,
            ) by {
                let x = e.header.tips[t].hash@;
                let (wc, wi) = choose|wc: int, wi: int| a.holds(wc, wi, x);
                assert(b.holds(wc, wi, x));
            }
        }
        if b.tips_present(e) {
            assert forall|t: int| 0 <= t < e.header.tips.len() implies a.contains(
                (#[trigger] e.header.tips[t]).hash@,
            ) by {
                let x = e.header.tips[t].hash@;
                let (wc, wi) = choose|wc: int, wi: int| b.holds(wc, wi, x);
                assert(a.holds(wc, wi, x));
            }
        }
    }
}


/// The chains that do not belong to `key`, in their order.
pub open spec fn chains_except(chains: Seq<ChainView>, key: [u8; 32]) -> Seq<ChainView>
    decreases chains.len(),
{
    if chains.len() == 0 {
        Seq::empty()
    } else {
        let before = chains_except(chains.drop_last(), key);
        if chains.last().key == key {
            before
        } else {
            before.push(chains.last())
        }
    }
}

/// `t` refers to the newest envelope of `chain`.
pub open spec fn is_tip_entry(t: TipEntry, chain: ChainView) -> bool {
    &&& t.key == chain.key
    &&& t.height == chain.tip().header.height
    &&& t.hash@ == envelope_hash(chain.tip())
}

/// `tips` refers to the newest envelope of each of `chains`, in order.
pub open spec fn lists_tips_of(tips: Seq<TipEntry>, chains: Seq<ChainView>) -> bool {
    &&& tips.len() == chains.len()
    &&& forall|j: int| 0 <= j < tips.len() ==> is_tip_entry(#[trigger] tips[j], chains[j])
}

/// Every chain but the one of `key` is among `chains_except`, and that one
/// is not.
pub proof fn lemma_chains_except(chains: Seq<ChainView>, key: [u8; 32])
    ensures
        forall|c: int|
            0 <= c < chains.len() && (#[trigger] chains[c]).key != key ==> chains_except(
                chains,
                key,
            ).contains(chains[c]),
        forall|j: int|
            0 <= j < chains_except(chains, key).len() ==> (#[trigger] chains_except(
                chains,
                key,
            )[j]).key != key && chains.contains(chains_except(chains, key)[j]),
        chains_except(chains, key).len() <= chains.len(),
    decreases chains.len(),
{
    if chains.len() > 0 {
        let shorter = chains.drop_last();
        lemma_chains_except(shorter, key);
        let before = chains_except(shorter, key);
        let all = chains_except(chains, key);
        assert forall|c: int| 0 <= c < chains.len() && (#[trigger] chains[c]).key
            != key implies all.contains(chains[c]) by {
            if c < chains.len() - 1 {
                let j = choose|j: int| 0 <= j < before.len() && before[j] == shorter[c];
                assert(all[j] == chains[c]);
            } else {
                assert(all[all.len() - 1] == chains[c]);
            }
        }
    }
}

impl DatabaseView {
    /// The envelope that a new envelope of `key` would follow: the one
    /// handed in, or else the newest of the key's chain.
    pub open spec fn tip_to_extend(self, key: [u8; 32], bypass: Option<EnvelopeView>) -> Option<
        EnvelopeView,
    > {
        match bypass {
            Some(e) => Some(e),
            None => match self.chain_of(key) {
                Some(chain) => Some(chain.tip()),
                None => None,
            },
        }
    }

    /// Why no envelope of `key` can be composed with the fresh secret
    /// nonce `fresh`; `None` where one can.
    pub open spec fn wrap_refusal(
        self,
        key: [u8; 32],
        bypass: Option<EnvelopeView>,
        fresh: [u8; 32],
    ) -> Option<WrapError> {
        match self.tip_to_extend(key, bypass) {
            None => Some(WrapError::NoTip),
            Some(tip) => {
                if !self.has_nonce(tip.header.next_nonce) {
                    Some(WrapError::Nonce(NonceError::NotFound))
                } else if self.nonce_row(tip.header.next_nonce).consumed {
                    Some(WrapError::Nonce(NonceError::AlreadyConsumed))
                } else {
                    match public_key_of(fresh@) {
                        None => Some(WrapError::Nonce(NonceError::InvalidSecret)),
                        Some(p) => {
                            if exists|i: int|
                                0 <= i < self.nonces.len() && (#[trigger] self.nonces[i]).public@
                                    == p {
                                Some(WrapError::Nonce(NonceError::Duplicate))
                            } else if tip.header.height == u64::MAX {
                                Some(WrapError::HeightOverflow)
                            } else {
                                None
                            }
                        },
                    }
                }
            },
        }
    }

    /// `e` is the unsigned envelope that follows `tip`: it carries the
    /// payload, the key, the time and the checkpoints given, stands one
    /// above the tip and names it and its chain as ancestors, lists the
    /// newest envelope of every other chain, and commits to the public
    /// nonce of `fresh`.
    pub open spec fn composed(
        self,
        e: EnvelopeView,
        tip: EnvelopeView,
        key: [u8; 32],
        msg: Seq<u8>,
        checkpoints: Seq<CheckPoint>,
        sent_time_ms: u64,
        fresh: [u8; 32],
    ) -> bool {
        &&& e.msg == msg
        &&& e.header.key == key
        &&& e.header.height == tip.header.height + 1
        &&& e.header.sent_time_ms == sent_time_ms
        &&& e.header.checkpoints == checkpoints
        &&& e.header.ancestors matches Some(a) && a.prev_msg@ == envelope_hash(tip) && a.genesis@
            == genesis_hash_of(tip)
        &&& lists_tips_of(e.header.tips, chains_except(self.chains, key))
        &&& public_key_of(fresh@) == Some(e.header.next_nonce@)
    }
}

/// The contents of the checkpoints handed to a new envelope: those given,
/// or none.
pub open spec fn checkpoints_given(list: Option<Vec<CheckPoint>>) -> Seq<CheckPoint> {
    match list {
        Some(v) => v@,
        None => Seq::empty(),
    }
}

/// The contents of the tip handed to a new envelope, if one was.
pub open spec fn bypass_given(tip: Option<Envelope>) -> Option<EnvelopeView> {
    match tip {
        Some(e) => Some(e@),
        None => None,
    }
}

/// What composing an envelope comes to, given the time and the fresh
/// secret nonce that were used.
///
/// A payload that is not canonical JSON is refused as `InvalidPayload`.
/// Else the call fails with the error of [`DatabaseView::wrap_refusal`]
/// exactly where there is one. Otherwise the envelope is composed as
/// [`DatabaseView::composed`] says and signed with the secret of the nonce
/// that the tip committed to. If that gives a signature, the envelope
/// returned carries it and is authentic, the nonce is consumed and the
/// fresh one stored; if it gives none, the signing error is returned.
/// Whenever no envelope is returned, the database is as it was.
pub open spec fn wrapped(
    before: DatabaseView,
    after: DatabaseView,
    r: Result<Result<Envelope, SigningError>, WrapError>,
    msg: Seq<u8>,
    keypair: &KeyPair,
    bitcoin_tipcache: Option<Vec<CheckPoint>>,
    dangerous_bypass_tip: Option<Envelope>,
    sent_time_ms: u64,
    fresh: [u8; 32],
) -> bool {
    let key = keypair.public();
    let bypass = bypass_given(dangerous_bypass_tip);
    match r {
        Err(e) => {
            &&& after == before
            &&& if is_canonical_json(msg) {
                before.wrap_refusal(key, bypass, fresh) == Some(e)
            } else {
                e == WrapError::InvalidPayload
            }
        },
        Ok(inner) => {
            &&& is_canonical_json(msg)
            &&& before.wrap_refusal(key, bypass, fresh) is None
            &&& before.tip_to_extend(key, bypass) matches Some(tip) && {
                let secret = before.nonce_row(tip.header.next_nonce).secret;
                match inner {
                    Ok(envelope) => {
                        let unsigned = crate::envelope::with_signature(envelope@, None);
                        &&& before.composed(
                            unsigned,
                            tip,
                            key,
                            msg,
                            checkpoints_given(bitcoin_tipcache),
                            sent_time_ms,
                            fresh,
                        )
                        &&& envelope@.header.signature matches Some(sig) && signature_of(
                            envelope_hash(unsigned),
                            keypair.secret()@,
                            secret@,
                        ) == Some(sig@)
                        &&& authentic(envelope@)
                        &&& after == before.with_consumed(tip.header.next_nonce).with_nonce(
                            fresh_row(envelope@.header.next_nonce, fresh, key),
                        )
                    },
                    Err(e) => {
                        &&& e == SigningError::InvalidNonce
                        &&& after == before
                        &&& exists|unsigned: EnvelopeView|
                            {
                                &&& before.composed(
                                    unsigned,
                                    tip,
                                    key,
                                    msg,
                                    checkpoints_given(bitcoin_tipcache),
                                    sent_time_ms,
                                    fresh,
                                )
                                &&& unsigned.header.signature is None
                                &&& #[trigger] signature_of(
                                    envelope_hash(unsigned),
                                    keypair.secret()@,
                                    secret@,
                                ) is None
                            }
                    },
                }
            }
        },
    }
}

/// The row of a nonce that no signature was made with yet.
pub open spec fn fresh_row(public: [u8; 32], secret: [u8; 32], key: [u8; 32]) -> NonceRow {
    NonceRow { public: public, secret: secret, key: key, consumed: false }
}

/// A change to the nonces and keys alone, leaving the nonces distinct and
/// consistent, keeps the database well formed.
pub proof fn lemma_same_chains_wf(db: DatabaseView, new: DatabaseView)
    requires
        db.wf(),
        new.chains == db.chains,
        new.pending == db.pending,
        new.nonces_ok(),
    ensures
        new.wf(),
        forall|h: Seq<u8>| db.contains(h) <==> #[trigger] new.contains(h),
{
    assert forall|h: Seq<u8>| db.contains(h) <==> #[trigger] new.contains(h) by {
        if db.contains(h) {
            let (wc, wi) = choose|wc: int, wi: int| db.holds(wc, wi, h);
            assert(new.holds(wc, wi, h));
        }
        if new.contains(h) {
            let (wc, wi) = choose|wc: int, wi: int| new.holds(wc, wi, h);
            assert(db.holds(wc, wi, h));
        }
    }
    assert(new.chains_ok()) by {
        reveal(DatabaseView::chains_ok);
    }
    assert(new.chains_sorted()) by {
        reveal(DatabaseView::chains_sorted);
    }
    assert(new.hashes_unique()) by {
        reveal(DatabaseView::hashes_unique);
        assert forall|c1: int, i1: int, c2: int, i2: int, h: Seq<u8>|
            #![trigger new.holds(c1, i1, h), new.holds(c2, i2, h)]
            new.holds(c1, i1, h) && new.holds(c2, i2, h) implies c1 == c2 && i1 == i2 by {
            assert(db.holds(c1, i1, h) && db.holds(c2, i2, h));
        }
    }
    assert(new.tips_held()) by {
        reveal(DatabaseView::tips_held);
    }
    assert(new.pending_ok()) by {
        reveal(DatabaseView::pending_ok);
    }
}

/// In a well-formed database at most one row holds a public nonce.
pub proof fn lemma_nonce_row_unique(db: DatabaseView, a: int, b: int, public: [u8; 32])
    requires
        db.nonces_ok(),
        db.nonce_at(a, public),
        db.nonce_at(b, public),
    ensures
        a == b,
{
    reveal(DatabaseView::nonces_ok);
}

/// A nonce can be used once: after it was consumed it is still stored,
/// but no longer usable.
pub proof fn lemma_nonce_one_shot(db: DatabaseView, public: [u8; 32])
    requires
        db.wf(),
        db.has_nonce(public),
    ensures
        db.with_consumed(public).wf(),
        db.with_consumed(public).has_nonce(public),
        db.with_consumed(public).nonce_row(public).consumed,
        !db.with_consumed(public).nonce_usable(public),
{
    let new = db.with_consumed(public);
    let i = db.nonce_index(public);
    assert(new.nonces_ok()) by {
        reveal(DatabaseView::nonces_ok);
    }
    let j = new.nonce_index(public);
    lemma_nonce_row_unique(new, i, j, public);
    lemma_same_chains_wf(db, new);
}

/// Leaving one key out keeps the chains in the order of their keys.
pub proof fn lemma_chains_except_sorted(chains: Seq<ChainView>, key: [u8; 32])
    requires
        forall|a: int, b: int|
            0 <= a < b < chains.len() ==> lex_lt(
                (#[trigger] chains[a]).key@,
                (#[trigger] chains[b]).key@,
            ),
    ensures
        forall|a: int, b: int|
            0 <= a < b < chains_except(chains, key).len() ==> lex_lt(
                (#[trigger] chains_except(chains, key)[a]).key@,
                (#[trigger] chains_except(chains, key)[b]).key@,
            ),
    decreases chains.len(),
{
    if chains.len() > 0 {
        let shorter = chains.drop_last();
        let others = chains_except(chains, key);
        let before = chains_except(shorter, key);
        lemma_chains_except_sorted(shorter, key);
        lemma_chains_except(shorter, key);
        assert forall|a: int, b: int| 0 <= a < b < others.len() implies lex_lt(
            (#[trigger] others[a]).key@,
            (#[trigger] others[b]).key@,
        ) by {
            if b < before.len() {
                assert(others[a] == before[a] && others[b] == before[b]);
            } else {
                assert(others[a] == before[a] && others[b] == chains.last());
                assert(shorter.contains(before[a]));
                let w = choose|w: int| 0 <= w < shorter.len() && shorter[w] == before[a];
                assert(chains[w] == before[a]);
                assert(lex_lt(chains[w].key@, chains[chains.len() - 1].key@));
            }
        }
    }
}

/// The tips listed for a new envelope are in the order of their keys.
pub proof fn lemma_listed_tips_sorted(db: DatabaseView, tips: Seq<TipEntry>, key: [u8; 32])
    requires
        db.wf(),
        lists_tips_of(tips, chains_except(db.chains, key)),
    ensures
        crate::envelope::tips_sorted(tips),
{
    reveal(DatabaseView::chains_sorted);
    lemma_chains_except_sorted(db.chains, key);
    let others = chains_except(db.chains, key);
    assert forall|i: int, j: int| 0 <= i < j < tips.len() implies lex_lt(
        tips[i].key@,
        tips[j].key@,
    ) by {
        assert(is_tip_entry(tips[i], others[i]));
        assert(is_tip_entry(tips[j], others[j]));
        assert(lex_lt(others[i].key@, others[j].key@));
    }
}

/// A new envelope lists the tip of every chain but its author's: each
/// chain of another key has an entry that refers to its newest envelope,
/// and no entry carries the author's key.
pub proof fn lemma_tips_exclude_author(db: DatabaseView, tips: Seq<TipEntry>, key: [u8; 32])
    requires
        lists_tips_of(tips, chains_except(db.chains, key)),
    ensures
        forall|c: int|
            0 <= c < db.chains.len() && (#[trigger] db.chains[c]).key != key ==> exists|j: int|
                0 <= j < tips.len() && is_tip_entry(#[trigger] tips[j], db.chains[c]),
        forall|j: int| 0 <= j < tips.len() ==> (#[trigger] tips[j]).key != key,
        forall|j: int|
            0 <= j < tips.len() ==> exists|c: int|
                0 <= c < db.chains.len() && is_tip_entry(#[trigger] tips[j], #[trigger] db.chains[c]),
{
    let others = chains_except(db.chains, key);
    lemma_chains_except(db.chains, key);
    assert forall|c: int| 0 <= c < db.chains.len() && (#[trigger] db.chains[c]).key
        != key implies exists|j: int|
        0 <= j < tips.len() && is_tip_entry(#[trigger] tips[j], db.chains[c]) by {
        let j = choose|j: int| 0 <= j < others.len() && others[j] == db.chains[c];
        assert(is_tip_entry(tips[j], others[j]));
    }
    assert forall|j: int| 0 <= j < tips.len() implies (#[trigger] tips[j]).key != key by {}
}

/// An envelope composed for the tip of its author's chain and signed with
/// the nonce that the tip committed to may be appended to that chain: it
/// links to the tip, and every tip it lists is held. So it is accepted,
/// unless an envelope with its hash is held already.
pub proof fn lemma_wrapped_envelope_fits(
    db: DatabaseView,
    e: EnvelopeView,
    key: [u8; 32],
    msg: Seq<u8>,
    checkpoints: Seq<CheckPoint>,
    sent_time_ms: u64,
    fresh: [u8; 32],
    secret_key: Seq<u8>,
)
    requires
        db.wf(),
        db.knows(key),
        db.has_nonce(db.chain_of(key).unwrap().tip().header.next_nonce),
        db.composed(
            crate::envelope::with_signature(e, None),
            db.chain_of(key).unwrap().tip(),
            key,
            msg,
            checkpoints,
            sent_time_ms,
            fresh,
        ),
        e.header.signature matches Some(sig) && signature_of(
            envelope_hash(crate::envelope::with_signature(e, None)),
            secret_key,
            db.nonce_row(db.chain_of(key).unwrap().tip().header.next_nonce).secret@,
        ) == Some(sig@),
    ensures
        db.extends_chain(db.chain_of(key).unwrap(), e),
        !db.contains(envelope_hash(e)) ==> db.insert_verdict(e) is Ok,
{
    let c = choose|c: int| db.chain_has_key(c, key);
    let chain = db.chains[c];
    let tip = chain.tip();
    let n = chain.envelopes.len() as int;
    assert(chain_ok(chain)) by {
        reveal(DatabaseView::chains_ok);
    }
    assert(genesis_hash_of(tip) == chain.genesis()) by {
        if n == 1 {
            assert(tip.header.ancestors is None) by {
                reveal(authentic);
            }
        }
    }
    let i = db.nonce_index(tip.header.next_nonce);
    let row = db.nonces[i];
    assert(public_key_of(row.secret@) == Some(row.public@)) by {
        reveal(DatabaseView::nonces_ok);
    }
    crate::crypto::lemma_signature_commits_to_nonce(
        envelope_hash(crate::envelope::with_signature(e, None)),
        secret_key,
        row.secret@,
    );
    lemma_tips_exclude_author(db, e.header.tips, key);
    assert forall|t: int| 0 <= t < e.header.tips.len() implies db.contains(
        (#[trigger] e.header.tips[t]).hash@,
    ) by {
        let k = choose|k: int|
            0 <= k < db.chains.len() && is_tip_entry(e.header.tips[t], #[trigger] db.chains[k]);
        assert(chain_ok(db.chains[k])) by {
            reveal(DatabaseView::chains_ok);
        }
        assert(db.holds(k, db.chains[k].envelopes.len() - 1, e.header.tips[t].hash@));
    }
}

/// An attempt to insert an authentic envelope keeps the database well
/// formed, whatever it comes to.
pub proof fn lemma_after_insert_wf(db: DatabaseView, e: EnvelopeView)
    requires
        db.wf(),
        authentic(e),
    ensures
        db.after_insert(e).wf(),
{
    match db.insert_verdict(e) {
        Ok(()) => {
            let c = choose|c: int| db.chain_has_key(c, e.header.key);
            lemma_append_wf(db, c, e);
        },
        Err(SqliteFail::SqliteConstraintCheck) => {
            lemma_pending_wf(db, e);
        },
        Err(_) => {},
    }
}

/// An envelope is inserted once: right after it was accepted, a second
/// attempt is refused as a duplicate and changes nothing.
pub proof fn lemma_duplicate_insert(db: DatabaseView, e: EnvelopeView)
    requires
        db.wf(),
        db.insert_verdict(e) is Ok,
    ensures
        db.after_insert(e).insert_verdict(e) == Err::<(), SqliteFail>(
            SqliteFail::SqliteConstraintUnique,
        ),
        db.after_insert(e).after_insert(e) == db.after_insert(e),
{
    let c = choose|c: int| db.chain_has_key(c, e.header.key);
    lemma_append_contains(db, c, e);
}

/// Chains are linear: an attempt to insert an envelope adds at most that
/// one envelope, at the end of the chain of its key and one above its tip,
/// and leaves every other envelope where it was.
pub proof fn lemma_insert_is_linear(db: DatabaseView, e: EnvelopeView)
    requires
        db.wf(),
    ensures
        db.after_insert(e).chains.len() == db.chains.len(),
        forall|c: int|
            0 <= c < db.chains.len() ==> {
                let before = (#[trigger] db.chains[c]).envelopes;
                let after = db.after_insert(e).chains[c].envelopes;
                ||| after == before
                ||| db.insert_verdict(e) is Ok && db.chains[c].key == e.header.key && after
                    == before.push(e) && e.header.height == before.last().header.height + 1
            },
{
}

/// What could be attached is attached: a pending envelope that could be
/// inserted is pending no longer once pending envelopes were promoted
/// until none could be inserted; it is held then, unless another envelope
/// took its height first.
pub proof fn lemma_attachable_is_attached(
    before: DatabaseView,
    after: DatabaseView,
    e: EnvelopeView,
)
    requires
        before.wf(),
        after.wf(),
        after.grew_from(before),
        after.quiescent(),
        before.pending.contains(e),
        before.insert_verdict(e) is Ok,
    ensures
        !after.pending.contains(e),
        after.refused_for_good(e),
{
    let key = e.header.key;
    if after.pending.contains(e) {
        lemma_grew_keeps_held(before, after);
        let k = choose|k: int| before.chain_has_key(k, key);
        assert(before.chain_has_key(k, key));
        let k2 = choose|k2: int| after.chain_has_key(k2, key);
        lemma_chain_of_key_unique(after, k, k2, key);
        assert(chain_ok(before.chains[k]) && chain_ok(after.chains[k])) by {
            reveal(DatabaseView::chains_ok);
        }
    }
}

/// No pending envelope but `e` itself has the hash of `e` or claims its
/// place, that is its key and height.
pub open spec fn unrivalled(db: DatabaseView, e: EnvelopeView) -> bool {
    forall|q: int|
        0 <= q < db.pending.len() ==> {
            let other = #[trigger] db.pending[q];
            ||| other == e
            ||| envelope_hash(other) != envelope_hash(e) && !(other.header.key == e.header.key
                && other.header.height == e.header.height)
        }
}

/// No pending envelope of the key of `e` stands above `e`.
pub open spec fn topmost(db: DatabaseView, e: EnvelopeView) -> bool {
    forall|q: int|
        0 <= q < db.pending.len() && (#[trigger] db.pending[q]).header.key == e.header.key
            ==> db.pending[q].header.height <= e.header.height
}

/// A pending envelope that could be inserted, and whose place no other
/// pending envelope claims, stands in its chain at its height once pending
/// envelopes were promoted until none could be inserted, and is pending no
/// longer. If no pending envelope of its key stood above it, it is the tip
/// of its chain.
pub proof fn lemma_promoted_into_place(before: DatabaseView, after: DatabaseView, e: EnvelopeView)
    requires
        before.wf(),
        after.wf(),
        after.grew_from(before),
        after.quiescent(),
        before.pending.contains(e),
        before.insert_verdict(e) is Ok,
        unrivalled(before, e),
    ensures
        !after.pending.contains(e),
        after.chain_of(e.header.key) matches Some(chain) && e.header.height
            < chain.envelopes.len() && chain.envelopes[e.header.height as int] == e,
        topmost(before, e) ==> after.chain_of(e.header.key).unwrap().tip() == e,
{
    lemma_attachable_is_attached(before, after, e);
    let key = e.header.key;
    let h = e.header.height as int;
    let k = choose|k: int| before.chain_has_key(k, key);
    assert(before.chain_has_key(k, key));
    assert(after.chain_has_key(k, key));
    let k2 = choose|k2: int| after.chain_has_key(k2, key);
    lemma_chain_of_key_unique(after, k, k2, key);
    assert(chain_ok(before.chains[k]) && chain_ok(after.chains[k])) by {
        reveal(DatabaseView::chains_ok);
    }
    let old_chain = before.chains[k].envelopes;
    let chain = after.chains[k].envelopes;
    assert(old_chain.is_prefix_of(chain));
    assert(old_chain.last().header.height == old_chain.len() - 1);
    assert(h == old_chain.len());
    if after.contains(envelope_hash(e)) {
        let (c2, i2) = choose|c2: int, i2: int| after.holds(c2, i2, envelope_hash(e));
        let x = after.chains[c2].envelopes[i2];
        assert(before.chains[c2].envelopes.is_prefix_of(after.chains[c2].envelopes));
        if i2 < before.chains[c2].envelopes.len() {
            assert(before.chains[c2].envelopes[i2] == x);
            assert(before.holds(c2, i2, envelope_hash(e)));
        }
        assert(before.pending.contains(x));
        let q = choose|q: int| 0 <= q < before.pending.len() && before.pending[q] == x;
        assert(before.pending[q] == e);
        assert(chain_ok(after.chains[c2])) by {
            reveal(DatabaseView::chains_ok);
        }
        assert(after.chain_has_key(c2, key));
        lemma_chain_of_key_unique(after, k, c2, key);
    } else {
        assert(chain.last().header.height == chain.len() - 1);
        let y = chain[h];
        assert(before.pending.contains(y));
        let q = choose|q: int| 0 <= q < before.pending.len() && before.pending[q] == y;
        assert(before.pending[q] == e);
    }
    if topmost(before, e) && chain.len() > h + 1 {
        let z = chain[h + 1];
        assert(before.pending.contains(z));
        let q = choose|q: int| 0 <= q < before.pending.len() && before.pending[q] == z;
        assert(before.pending[q].header.key == key);
    }
}

impl MsgDBHandle {
    /// An empty database.
    pub fn new() -> (db: MsgDBHandle)
        ensures
            db@.wf(),
            db@.chains.len() == 0,
            db@.pending.len() == 0,
            db@.nonces.len() == 0,
            db@.keys.len() == 0,
    {
        let db = MsgDBHandle {
            chains: Vec::new(),
            pending: Vec::new(),
            nonces: Vec::new(),
            keys: Vec::new(),
        };
        proof {
            reveal(DatabaseView::chains_ok);
            reveal(DatabaseView::chains_sorted);
            reveal(DatabaseView::hashes_unique);
            reveal(DatabaseView::tips_held);
            reveal(DatabaseView::pending_ok);
            reveal(DatabaseView::nonces_ok);
        }
        db
    }

    /// Prepares the tables. The tables of this database exist from the
    /// start, so the call changes nothing, however often it is made.
    pub fn setup_tables(&mut self)
        ensures
            final(self)@ == old(self)@,
    {
    }

    /// The position of the chain of `key`.
    fn find_chain(&self, key: &[u8; 32]) -> (r: Option<usize>)
        requires
            self@.wf(),
        ensures
            match r {
                Some(c) => self@.chain_has_key(c as int, *key) && self@.knows(*key)
                    && self@.chain_of(*key) == Some(self@.chains[c as int]),
                None => !self@.knows(*key) && self@.chain_of(*key) is None,
            },
    {
        let n = self.chains.len();
        let mut c: usize = 0;
        while c < n
            invariant
                0 <= c <= n,
                n == self.chains@.len(),
                self@.wf(),
                forall|j: int| 0 <= j < c ==> !self@.chain_has_key(j, *key),
            decreases n - c,
        {
            if same_bytes(&self.chains[c].key, key) {
                proof {
                    assert(self@.chain_has_key(c as int, *key));
                    let w = choose|w: int| self@.chain_has_key(w, *key);
                    lemma_chain_of_key_unique(self@, w, c as int, *key);
                }
                return Some(c);
            }
            c += 1;
        }
        None
    }

    /// The position of the envelope with the hash `h`.
    fn find_message(&self, h: &[u8; 32]) -> (r: Option<(usize, usize)>)
        requires
            self@.wf(),
        ensures
            match r {
                Some((c, i)) => self@.holds(c as int, i as int, h@) && self@.contains(h@)
                    && self@.message(h@) == Some(self@.chains[c as int].envelopes[i as int]),
                None => !self@.contains(h@) && self@.message(h@) is None,
            },
    {
        let n = self.chains.len();
        let mut c: usize = 0;
        while c < n
            invariant
                0 <= c <= n,
                n == self.chains@.len(),
                self@.wf(),
                forall|j: int, i: int| 0 <= j < c ==> !self@.holds(j, i, h@),
            decreases n - c,
        {
            let m = self.chains[c].entries.len();
            let mut i: usize = 0;
            while i < m
                invariant
                    0 <= i <= m,
                    c < n,
                    n == self.chains@.len(),
                    m == self.chains@[c as int].entries@.len(),
                    self@.wf(),
                    forall|j: int, k: int| 0 <= j < c ==> !self@.holds(j, k, h@),
                    forall|k: int| 0 <= k < i ==> !self@.holds(c as int, k, h@),
                decreases m - i,
            {
                let stored = self.chains[c].entries[i].hash();
                if same_bytes(&stored, h) {
                    proof {
                        reveal(DatabaseView::hashes_unique);
                        assert(self@.holds(c as int, i as int, h@));
                        let (wc, wi) = choose|wc: int, wi: int| self@.holds(wc, wi, h@);
                    }
                    return Some((c, i));
                }
                i += 1;
            }
            c += 1;
        }
        None
    }

    /// The newest envelope of every chain, in increasing order of key.
    pub fn get_tips_for_all_users(&self) -> (tips: Vec<Envelope>)
        requires
            self@.wf(),
        ensures
            tips@.len() == self@.chains.len(),
            forall|c: int| 0 <= c < tips@.len() ==> (#[trigger] tips@[c])@ == self@.chains[c].tip(),
            forall|a: int, b: int|
                0 <= a < b < tips@.len() ==> lex_lt(
                    (#[trigger] tips@[a])@.header.key@,
                    (#[trigger] tips@[b])@.header.key@,
                ),
    {
        let n = self.chains.len();
        let mut tips: Vec<Envelope> = Vec::new();
        let mut c: usize = 0;
        while c < n
            invariant
                0 <= c <= n,
                n == self.chains@.len(),
                self@.wf(),
                tips@.len() == c,
                forall|j: int| 0 <= j < c ==> (#[trigger] tips@[j])@ == self@.chains[j].tip(),
            decreases n - c,
        {
            proof {
                reveal(DatabaseView::chains_ok);
            }
            assert(chain_ok(self@.chains[c as int]));
            let m = self.chains[c].entries.len();
            let tip = self.chains[c].entries[m - 1].inner_ref().clone();
            tips.push(tip);
            c += 1;
        }
        proof {
            reveal(DatabaseView::chains_ok);
            reveal(DatabaseView::chains_sorted);
        }
        tips
    }

    /// The newest envelope of the chain of `key`.
    pub fn get_tip_for_user_by_key(&self, key: [u8; 32]) -> (r: Result<Envelope, NotFound>)
        requires
            self@.wf(),
        ensures
            match r {
                Ok(e) => self@.chain_of(key) matches Some(chain) && e@ == chain.tip(),
                Err(_) => self@.chain_of(key) is None,
            },
    {
        match self.find_chain(&key) {
            Some(c) => {
                proof {
                    reveal(DatabaseView::chains_ok);
                }
                let m = self.chains[c].entries.len();
                Ok(self.chains[c].entries[m - 1].inner_ref().clone())
            },
            None => Err(NotFound),
        }
    }

    /// Whether every envelope that `e` lists as a tip is held.
    fn all_tips_present(&self, e: &Envelope) -> (r: bool)
        requires
            self@.wf(),
        ensures
            r == self@.tips_present(e@),
    {
        let n = e.header.tips.len();
        let mut t: usize = 0;
        while t < n
            invariant
                0 <= t <= n,
                n == e@.header.tips.len(),
                self@.wf(),
                forall|j: int| 0 <= j < t ==> self@.contains((#[trigger] e@.header.tips[j]).hash@),
            decreases n - t,
        {
            let tip = e.header.tips[t];
            if self.find_message(&tip.hash).is_none() {
                return false;
            }
            t += 1;
        }
        true
    }

    /// Whether `env` follows the tip of chain `c`.
    fn follows_tip(&self, c: usize, env: &Authenticated) -> (r: bool)
        requires
            self@.wf(),
            c < self@.chains.len(),
        ensures
            r == links_to(self@.chains[c as int].tip(), self@.chains[c as int].genesis(), env@),
    {
        proof {
            reveal(DatabaseView::chains_ok);
        }
        let e = env.inner_ref();
        let m = self.chains[c].entries.len();
        let tip = &self.chains[c].entries[m - 1];
        let first = &self.chains[c].entries[0];
        let tip_env = tip.inner_ref();
        if !same_bytes(&e.header.key, &tip_env.header.key) {
            return false;
        }
        if e.header.height == 0 || e.header.height - 1 != tip_env.header.height {
            return false;
        }
        let a = match e.header.ancestors {
            Some(a) => a,
            None => {
                return false;
            },
        };
        let sig = match e.header.unsigned.signature {
            Some(sig) => sig,
            None => {
                return false;
            },
        };
        let tip_hash = tip.hash();
        let genesis = first.hash();
        let nonce = crate::crypto::signature_nonce(&sig);
        same_bytes(&a.prev_msg, &tip_hash) && same_bytes(&a.genesis, &genesis) && same_bytes(
            &nonce,
            &tip_env.header.next_nonce,
        )
    }

    /// Decides what inserting `env` comes to, and where it would go.
    fn classify(&self, env: &Authenticated) -> (r: Result<usize, SqliteFail>)
        requires
            self@.wf(),
        ensures
            match r {
                Ok(c) => {
                    &&& self@.insert_verdict(env@) is Ok
                    &&& self@.chain_has_key(c as int, env@.header.key)
                    &&& self@.extends_chain(self@.chains[c as int], env@)
                    &&& !self@.contains(envelope_hash(env@))
                    &&& self@.with_appended(env@) == self@.appended_at(c as int, env@)
                },
                Err(f) => self@.insert_verdict(env@) == Err::<(), SqliteFail>(f),
            },
    {
        let h = env.hash();
        if self.find_message(&h).is_some() {
            return Err(SqliteFail::SqliteConstraintUnique);
        }
        let e = env.inner_ref();
        let c = match self.find_chain(&e.header.key) {
            Some(c) => c,
            None => {
                return Err(SqliteFail::SqliteConstraintNotNull);
            },
        };
        proof {
            reveal(DatabaseView::chains_ok);
            let w = choose|w: int| self@.chain_has_key(w, env@.header.key);
            lemma_chain_of_key_unique(self@, w, c as int, env@.header.key);
        }
        let m = self.chains[c].entries.len();
        let tip_env = self.chains[c].entries[m - 1].inner_ref();
        if e.header.height <= tip_env.header.height {
            return Err(SqliteFail::SqliteConstraintUnique);
        }
        if !self.follows_tip(c, env) {
            return Err(SqliteFail::SqliteConstraintCheck);
        }
        if !self.all_tips_present(e) {
            return Err(SqliteFail::SqliteConstraintCheck);
        }
        Ok(c)
    }

    /// Appends `env` to chain `c`.
    fn append(&mut self, c: usize, env: Authenticated)
        requires
            old(self)@.wf(),
            c < old(self)@.chains.len(),
            !old(self)@.contains(envelope_hash(env@)),
            old(self)@.extends_chain(old(self)@.chains[c as int], env@),
        ensures
            final(self)@ == old(self)@.appended_at(c as int, env@),
            final(self)@.wf(),
    {
        let ghost e = env@;
        let h = env.hash();
        self.chains[c].entries.push(env);
        proof {
            let new = old(self)@.appended_at(c as int, e);
            assert(self@.chains[c as int].envelopes =~= new.chains[c as int].envelopes);
            assert(self@.chains =~= new.chains);
            lemma_append_wf(old(self)@, c as int, e);
        }
    }

    /// Whether an envelope with the hash `h` is parked.
    fn is_pending(&self, h: &[u8; 32]) -> (r: bool)
        ensures
            r == self@.pending_has(h@),
    {
        let n = self.pending.len();
        let mut p: usize = 0;
        while p < n
            invariant
                0 <= p <= n,
                n == self.pending@.len(),
                forall|j: int| 0 <= j < p ==> envelope_hash(#[trigger] self@.pending[j]) != h@,
            decreases n - p,
        {
            let stored = self.pending[p].hash();
            if same_bytes(&stored, h) {
                assert(envelope_hash(self@.pending[p as int]) == h@);
                return true;
            }
            p += 1;
        }
        false
    }

    /// Parks `env` unless it is parked already.
    fn park(&mut self, env: Authenticated)
        requires
            old(self)@.wf(),
            env@.header.height > 0,
        ensures
            final(self)@ == old(self)@.with_pending(env@),
            final(self)@.wf(),
    {
        let ghost e = env@;
        let h = env.hash();
        proof {
            lemma_pending_wf(old(self)@, e);
        }
        if !self.is_pending(&h) {
            self.pending.push(env);
            proof {
                let new = old(self)@.with_pending(e);
                assert(self@.pending =~= new.pending);
            }
        }
    }

    /// Inserts an envelope into the chain of its key.
    ///
    /// The envelope is appended where it follows the chain's tip and every
    /// tip it lists is held. Otherwise nothing is appended and the error
    /// tells the caller how to go on: `SqliteConstraintUnique` for an
    /// envelope that is held already or whose height is taken,
    /// `SqliteConstraintNotNull` where no chain is known for the key, and
    /// `SqliteConstraintCheck` where the envelope refers to what is not
    /// there; in that last case the envelope is parked as pending.
    pub fn try_insert_authenticated_envelope(&mut self, env: Authenticated) -> (r: Result<
        (),
        SqliteFail,
    >)
        requires
            old(self)@.wf(),
        ensures
            final(self)@.wf(),
            r == old(self)@.insert_verdict(env@),
            final(self)@ == old(self)@.after_insert(env@),
    {
        match self.classify(&env) {
            Ok(c) => {
                self.append(c, env);
                Ok(())
            },
            Err(SqliteFail::SqliteConstraintCheck) => {
                proof {
                    reveal(DatabaseView::chains_ok);
                }
                self.park(env);
                Err(SqliteFail::SqliteConstraintCheck)
            },
            Err(f) => Err(f),
        }
    }

    /// Starts a new chain with `env`, known under `nickname`, and returns
    /// the chain's key.
    ///
    /// Refused with `SqliteConstraintCheck` where the envelope is not at
    /// height 0 or lists a tip that is not held, and with
    /// `SqliteConstraintUnique` where the key has a chain already or the
    /// envelope is held.
    pub fn insert_user_by_genesis_envelope(&mut self, nickname: String, env: Authenticated) -> (r:
        Result<[u8; 32], SqliteFail>)
        requires
            old(self)@.wf(),
        ensures
            final(self)@.wf(),
            match r {
                Ok(key) => old(self)@.genesis_verdict(env@) is Ok && key == env@.header.key,
                Err(f) => old(self)@.genesis_verdict(env@) == Err::<(), SqliteFail>(f),
            },
            final(self)@ == old(self)@.after_genesis(nickname@, env@),
    {
        let ghost e = env@;
        let h = env.hash();
        let key = env.inner_ref().header.key;
        if env.inner_ref().header.height != 0 || !self.all_tips_present(env.inner_ref()) {
            return Err(SqliteFail::SqliteConstraintCheck);
        }
        if self.find_chain(&key).is_some() || self.find_message(&h).is_some() {
            return Err(SqliteFail::SqliteConstraintUnique);
        }
        let n = self.chains.len();
        let mut pos: usize = 0;
        while pos < n
            invariant
                0 <= pos <= n,
                n == self.chains@.len(),
                position_for(self@.chains, key@, 0) == position_for(self@.chains, key@, pos as int),
            ensures
                pos < n ==> !lex_lt(self@.chains[pos as int].key@, key@),
                pos < n ==> lex_lt(key@, self@.chains[pos as int].key@) || self@.chains[pos as int].key
                    == key,
            decreases n - pos,
        {
            match compare_bytes(&self.chains[pos].key, &key) {
                Order::Less => {},
                _ => {
                    break ;
                },
            }
            pos += 1;
        }
        proof {
            lemma_position_for(self@.chains, key@, 0);
            lemma_position_for(self@.chains, key@, pos as int);
            reveal(DatabaseView::chains_sorted);
            assert forall|b: int| pos <= b < self@.chains.len() implies lex_lt(
                key@,
                (#[trigger] self@.chains[b]).key@,
            ) by {
                assert(!self@.chain_has_key(pos as int, key));
                if b > pos {
                    crate::bytes::lemma_lex_lt_transitive(
                        key@,
                        self@.chains[pos as int].key@,
                        self@.chains[b].key@,
                    );
                }
            }
            lemma_new_chain_wf(self@, pos as int, nickname@, e);
        }
        let mut entries: Vec<Authenticated> = Vec::new();
        entries.push(env);
        self.chains.insert(pos, UserChain { key, nickname, entries });
        proof {
            let new = old(self)@.with_chain_at(pos as int, nickname@, e);
            assert(self@.chains[pos as int].envelopes =~= seq![e]);
            assert(self@.chains =~= new.chains);
        }
        Ok(key)
    }

    /// Takes the pending envelope at position `p` out.
    fn take_pending(&mut self, p: usize) -> (env: Authenticated)
        requires
            old(self)@.wf(),
            p < old(self)@.pending.len(),
        ensures
            env@ == old(self)@.pending[p as int],
            final(self)@ == old(self)@.without_pending(p as int),
            final(self)@.wf(),
    {
        let env = self.pending.remove(p);
        proof {
            let new = old(self)@.without_pending(p as int);
            assert(self@.pending =~= new.pending);
            lemma_without_pending_wf(old(self)@, p as int);
        }
        env
    }

    /// Goes once through the pending envelopes: each one that can be
    /// inserted when its turn comes is promoted, each one that can never be
    /// inserted any more is dropped.
    fn attach_pass(&mut self) -> (count: u64)
        requires
            old(self)@.wf(),
        ensures
            final(self)@.wf(),
            final(self)@.grew_from(old(self)@),
            count == final(self)@.held_total() - old(self)@.held_total(),
            final(self)@.pending.len() + count <= old(self)@.pending.len(),
            final(self)@.pending.len() == old(self)@.pending.len() ==> final(self)@ == old(self)@
                && final(self)@.quiescent(),
            old(self)@.quiescent() ==> final(self)@.pending.len() == old(self)@.pending.len(),
    {
        let mut count: u64 = 0;
        let mut p: usize = 0;
        let total = self.pending.len();
        proof {
            lemma_grew_reflexive(old(self)@);
        }
        while p < self.pending.len()
            invariant
                self@.wf(),
                self@.grew_from(old(self)@),
                0 <= p <= self@.pending.len(),
                self.pending@.len() == self@.pending.len(),
                count == self@.held_total() - old(self)@.held_total(),
                self@.pending.len() + count <= old(self)@.pending.len(),
                self@.pending.len() == old(self)@.pending.len() ==> self@ == old(self)@,
                self@.pending.len() == old(self)@.pending.len() ==> forall|q: int|
                    0 <= q < p ==> self@.insert_verdict(#[trigger] self@.pending[q]) is Err
                        && !self@.refused_for_good(self@.pending[q]),
                old(self)@.quiescent() ==> self@.pending.len() == old(self)@.pending.len(),
                old(self)@.pending.len() <= usize::MAX,
            decreases self@.pending.len() - p,
        {
            let ghost before = self@;
            match self.classify(&self.pending[p]) {
                Ok(c) => {
                    let env = self.take_pending(p);
                    proof {
                        lemma_without_pending_wf(before, p as int);
                        lemma_promote_grows(before, p as int, c as int);
                    }
                    self.append(c, env);
                    proof {
                        lemma_grew_transitive(old(self)@, before, self@);
                    }
                    count = count + 1;
                },
                Err(SqliteFail::SqliteConstraintUnique) => {
                    proof {
                        lemma_drop_grows(before, p as int);
                        lemma_without_pending_wf(before, p as int);
                        lemma_grew_transitive(
                            old(self)@,
                            before,
                            before.without_pending(p as int),
                        );
                    }
                    let _ = self.take_pending(p);
                },
                Err(_) => {
                    p += 1;
                },
            }
        }
        count
    }

    /// Promotes pending envelopes until none of them can be inserted, and
    /// returns how many were promoted. Pending envelopes that can never be
    /// inserted any more, because they are held or their height is taken,
    /// are dropped on the way. On a database in which every pending
    /// envelope still waits for something the call changes nothing and
    /// returns 0.
    pub fn attach_tips(&mut self) -> (count: u64)
        requires
            old(self)@.wf(),
        ensures
            final(self)@.wf(),
            final(self)@.grew_from(old(self)@),
            final(self)@.quiescent(),
            count == final(self)@.held_total() - old(self)@.held_total(),
            final(self)@.pending.len() + count <= old(self)@.pending.len(),
            old(self)@.quiescent() ==> count == 0 && final(self)@ == old(self)@,
    {
        let mut count: u64 = 0;
        let total = self.pending.len();
        proof {
            lemma_grew_reflexive(old(self)@);
        }
        loop
            invariant_except_break
                self@.wf(),
                self@.grew_from(old(self)@),
                count == self@.held_total() - old(self)@.held_total(),
                self@.pending.len() + count <= old(self)@.pending.len(),
                self@.pending.len() == old(self)@.pending.len() ==> self@ == old(self)@,
                old(self)@.quiescent() ==> self@.pending.len() == old(self)@.pending.len(),
                old(self)@.pending.len() <= usize::MAX,
            ensures
                self@.wf(),
                self@.grew_from(old(self)@),
                self@.quiescent(),
                count == self@.held_total() - old(self)@.held_total(),
                self@.pending.len() + count <= old(self)@.pending.len(),
                old(self)@.quiescent() ==> count == 0 && self@ == old(self)@,
            decreases self@.pending.len(),
        {
            let ghost before = self@;
            let waiting = self.pending.len();
            let promoted = self.attach_pass();
            proof {
                lemma_grew_transitive(old(self)@, before, self@);
            }
            count = count + promoted;
            if self.pending.len() == waiting {
                break ;
            }
        }
        count
    }

    /// The envelopes with the given hashes, in the order of the hashes.
    /// A hash that no held envelope has is passed over.
    pub fn messages_by_hash(&self, hashes: &Vec<[u8; 32]>) -> (found: Vec<Envelope>)
        requires
            self@.wf(),
        ensures
            envelope_views(found@) == found_messages(self@, hashes@),
    {
        let n = hashes.len();
        let mut found: Vec<Envelope> = Vec::new();
        let mut i: usize = 0;
        while i < n
            invariant
                0 <= i <= n,
                n == hashes@.len(),
                self@.wf(),
                envelope_views(found@) == found_messages(self@, hashes@.take(i as int)),
            decreases n - i,
        {
            proof {
                assert(hashes@.take(i + 1).drop_last() =~= hashes@.take(i as int));
            }
            match self.find_message(&hashes[i]) {
                Some((c, k)) => {
                    let e = self.chains[c].entries[k].inner_ref().clone();
                    found.push(e);
                },
                None => {},
            }
            i += 1;
        }
        assert(hashes@.take(n as int) =~= hashes@);
        found
    }

    /// The given hashes that no held envelope has, in their order.
    pub fn message_not_exists_it(&self, hashes: &Vec<[u8; 32]>) -> (missing: Vec<[u8; 32]>)
        requires
            self@.wf(),
        ensures
            missing@ == missing_hashes(self@, hashes@),
    {
        let n = hashes.len();
        let mut missing: Vec<[u8; 32]> = Vec::new();
        let mut i: usize = 0;
        while i < n
            invariant
                0 <= i <= n,
                n == hashes@.len(),
                self@.wf(),
                missing@ == missing_hashes(self@, hashes@.take(i as int)),
            decreases n - i,
        {
            proof {
                assert(hashes@.take(i + 1).drop_last() =~= hashes@.take(i as int));
            }
            if self.find_message(&hashes[i]).is_none() {
                missing.push(hashes[i]);
            }
            i += 1;
        }
        assert(hashes@.take(n as int) =~= hashes@);
        missing
    }

    /// The position of the row of the public nonce `public`.
    fn find_nonce(&self, public: &[u8; 32]) -> (r: Option<usize>)
        requires
            self@.wf(),
        ensures
            match r {
                Some(i) => self@.nonce_at(i as int, *public) && self@.has_nonce(*public)
                    && self@.nonce_index(*public) == i,
                None => !self@.has_nonce(*public),
            },
    {
        let n = self.nonces.len();
        let mut i: usize = 0;
        while i < n
            invariant
                0 <= i <= n,
                n == self.nonces@.len(),
                self@.nonces_ok(),
                forall|j: int| 0 <= j < i ==> !self@.nonce_at(j, *public),
            decreases n - i,
        {
            if same_bytes(&self.nonces[i].public, public) {
                proof {
                    lemma_nonce_row_unique(
                        self@,
                        i as int,
                        self@.nonce_index(*public),
                        *public,
                    );
                }
                return Some(i);
            }
            i += 1;
        }
        None
    }

    /// Stores the secret nonce `nonce` for the chain of `key` and returns
    /// the public nonce that commits to it.
    pub fn save_nonce_for_user_by_key(&mut self, nonce: [u8; 32], key: [u8; 32]) -> (r: Result<
        [u8; 32],
        NonceError,
    >)
        requires
            old(self)@.wf(),
        ensures
            final(self)@.wf(),
            match r {
                Ok(public) => {
                    &&& public_key_of(nonce@) == Some(public@)
                    &&& !old(self)@.has_nonce(public)
                    &&& final(self)@ == old(self)@.with_nonce(
                        NonceRow { public: public, secret: nonce, key: key, consumed: false },
                    )
                },
                Err(NonceError::InvalidSecret) => public_key_of(nonce@) is None && final(self)@
                    == old(self)@,
                Err(NonceError::Duplicate) => {
                    &&& public_key_of(nonce@) matches Some(p) && exists|i: int|
                        0 <= i < old(self)@.nonces.len() && (#[trigger] old(self)@.nonces[i]).public@
                            == p
                    &&& final(self)@ == old(self)@
                },
                Err(_) => false,
            },
    {
        let public = match secret_to_xonly(&nonce) {
            Some((public, _)) => public,
            None => {
                return Err(NonceError::InvalidSecret);
            },
        };
        match self.find_nonce(&public) {
            Some(i) => {
                return Err(NonceError::Duplicate);
            },
            None => {},
        }
        let row = NonceRow { public, secret: nonce, key, consumed: false };
        self.nonces.push(row);
        proof {
            let new = old(self)@.with_nonce(row);
            assert(new.nonces_ok()) by {
                reveal(DatabaseView::nonces_ok);
                assert forall|a: int, b: int| 0 <= a < b < new.nonces.len() implies (
                #[trigger] new.nonces[a]).public != (#[trigger] new.nonces[b]).public by {
                    if b == old(self)@.nonces.len() {
                        assert(!old(self)@.nonce_at(a, public));
                    }
                }
            }
            lemma_same_chains_wf(old(self)@, new);
        }
        Ok(public)
    }

    /// Draws a fresh secret nonce for the chain of `key`, stores it and
    /// returns its public nonce. The secret is random; whatever it is, the
    /// row that was added holds it with the public nonce returned.
    pub fn generate_fresh_nonce_for_user_by_key(&mut self, key: [u8; 32]) -> (r: Result<
        [u8; 32],
        NonceError,
    >)
        requires
            old(self)@.wf(),
        ensures
            final(self)@.wf(),
            match r {
                Ok(public) => {
                    &&& !old(self)@.has_nonce(public)
                    &&& exists|secret: [u8; 32]|
                        {
                            &&& public_key_of(secret@) == Some(public@)
                            &&& final(self)@ == old(self)@.with_nonce(
                                #[trigger] fresh_row(public, secret, key),
                            )
                        }
                },
                Err(e) => {
                    &&& e == NonceError::Duplicate
                    &&& final(self)@ == old(self)@
                    &&& exists|secret: [u8; 32], i: int|
                        #![trigger public_key_of(secret@), old(self)@.nonces[i]]
                        0 <= i < old(self)@.nonces.len() && public_key_of(secret@) == Some(
                            old(self)@.nonces[i].public@,
                        )
                },
            },
    {
        let secret = random_secret();
        let r = self.save_nonce_for_user_by_key(secret, key);
        proof {
            match r {
                Ok(public) => {
                    assert(final(self)@ == old(self)@.with_nonce(fresh_row(public, secret, key)));
                },
                Err(_) => {
                },
            }
        }
        r
    }

    /// Hands out the secret of the public nonce `public` and marks the
    /// nonce as consumed, so that it is handed out once only.
    pub fn get_secret_for_public_nonce(&mut self, public: [u8; 32]) -> (r: Result<
        [u8; 32],
        NonceError,
    >)
        requires
            old(self)@.wf(),
        ensures
            final(self)@.wf(),
            match r {
                Ok(secret) => {
                    &&& old(self)@.nonce_usable(public)
                    &&& secret == old(self)@.nonce_row(public).secret
                    &&& public_key_of(secret@) == Some(public@)
                    &&& final(self)@ == old(self)@.with_consumed(public)
                },
                Err(NonceError::NotFound) => !old(self)@.has_nonce(public) && final(self)@ == old(
                    self,
                )@,
                Err(NonceError::AlreadyConsumed) => {
                    &&& old(self)@.has_nonce(public)
                    &&& old(self)@.nonce_row(public).consumed
                    &&& final(self)@ == old(self)@
                },
                Err(_) => false,
            },
    {
        let i = match self.find_nonce(&public) {
            Some(i) => i,
            None => {
                return Err(NonceError::NotFound);
            },
        };
        let row = self.nonces[i];
        if row.consumed {
            return Err(NonceError::AlreadyConsumed);
        }
        self.nonces[i] = NonceRow { consumed: true, ..row };
        proof {
            lemma_nonce_one_shot(old(self)@, public);
            assert(public_key_of(row.secret@) == Some(public@)) by {
                reveal(DatabaseView::nonces_ok);
            }
        }
        Ok(row.secret)
    }

    /// Stores the signing key of a chain this node owns. A key that is
    /// stored already is left as it is.
    pub fn save_keypair(&mut self, keypair: &KeyPair)
        requires
            old(self)@.wf(),
        ensures
            final(self)@.wf(),
            final(self)@ == old(self)@.with_key(
                KeyRow { public: keypair.public(), secret: keypair.secret() },
            ),
    {
        let public = keypair.x_only_public_key();
        let secret = keypair.secret_bytes();
        let n = self.keys.len();
        let mut i: usize = 0;
        while i < n
            invariant
                0 <= i <= n,
                n == self.keys@.len(),
                self@ == old(self)@,
                self@.wf(),
                public == keypair.public(),
                forall|j: int| 0 <= j < i ==> !self@.key_at(j, public),
            decreases n - i,
        {
            if same_bytes(&self.keys[i].public, &public) {
                assert(self@.key_at(i as int, public));
                return ;
            }
            i += 1;
        }
        let row = KeyRow { public, secret };
        self.keys.push(row);
        proof {
            let new = old(self)@.with_key(row);
            assert(new.nonces_ok()) by {
                reveal(DatabaseView::nonces_ok);
            }
            lemma_same_chains_wf(old(self)@, new);
        }
    }

    /// The signing keys of the chains this node owns.
    pub fn get_keymap(&self) -> (keys: Vec<KeyRow>)
        ensures
            keys@ == self@.keys,
    {
        self.keys.clone()
    }

    /// References to the newest envelope of every chain but the one of
    /// `key`, in increasing order of key.
    fn other_tips(&self, key: &[u8; 32]) -> (tips: Vec<TipEntry>)
        requires
            self@.wf(),
        ensures
            lists_tips_of(tips@, chains_except(self@.chains, *key)),
    {
        let n = self.chains.len();
        let mut tips: Vec<TipEntry> = Vec::new();
        let mut c: usize = 0;
        while c < n
            invariant
                0 <= c <= n,
                n == self.chains@.len(),
                self@.wf(),
                lists_tips_of(tips@, chains_except(self@.chains.take(c as int), *key)),
            decreases n - c,
        {
            proof {
                reveal(DatabaseView::chains_ok);
                assert(self@.chains.take(c + 1).drop_last() =~= self@.chains.take(c as int));
                assert(self@.chains.take(c + 1).last() == self@.chains[c as int]);
            }
            if !same_bytes(&self.chains[c].key, key) {
                let m = self.chains[c].entries.len();
                let tip = &self.chains[c].entries[m - 1];
                let entry = TipEntry {
                    key: self.chains[c].key,
                    height: tip.inner_ref().header.height,
                    hash: tip.hash(),
                };
                tips.push(entry);
            }
            c += 1;
        }
        assert(self@.chains.take(n as int) =~= self@.chains);
        tips
    }

    /// Composes and signs the envelope that follows the tip of the chain of
    /// `keypair`, with `sent_time_ms` as its time and `fresh` as the secret
    /// of the nonce it commits to.
    ///
    /// The tip is `dangerous_bypass_tip` where one is given. The envelope
    /// is signed with the secret of the nonce that the tip committed to.
    /// The call is all or nothing: that nonce is marked as consumed and the
    /// fresh one stored only if the envelope was signed; on every error the
    /// database is left as it was.
    pub fn wrap_message_with(
        &mut self,
        msg: Vec<u8>,
        keypair: &KeyPair,
        bitcoin_tipcache: Option<Vec<CheckPoint>>,
        dangerous_bypass_tip: Option<Envelope>,
        sent_time_ms: u64,
        fresh: [u8; 32],
    ) -> (r: Result<Result<Envelope, SigningError>, WrapError>)
        requires
            old(self)@.wf(),
        ensures
            final(self)@.wf(),
            wrapped(
                old(self)@,
                final(self)@,
                r,
                msg@,
                keypair,
                bitcoin_tipcache,
                dangerous_bypass_tip,
                sent_time_ms,
                fresh,
            ),
    {
        if !check_canonical(msg.as_slice()) {
            return Err(WrapError::InvalidPayload);
        }
        let key = keypair.x_only_public_key();
        let tips = self.other_tips(&key);
        let my_tip = match dangerous_bypass_tip {
            Some(e) => e,
            None => match self.get_tip_for_user_by_key(key) {
                Ok(e) => e,
                Err(_) => {
                    return Err(WrapError::NoTip);
                },
            },
        };
        let row = match self.find_nonce(&my_tip.header.next_nonce) {
            Some(i) => self.nonces[i],
            None => {
                return Err(WrapError::Nonce(NonceError::NotFound));
            },
        };
        if row.consumed {
            return Err(WrapError::Nonce(NonceError::AlreadyConsumed));
        }
        let next_nonce = match secret_to_xonly(&fresh) {
            Some((public, _)) => public,
            None => {
                return Err(WrapError::Nonce(NonceError::InvalidSecret));
            },
        };
        match self.find_nonce(&next_nonce) {
            Some(i) => {
                return Err(WrapError::Nonce(NonceError::Duplicate));
            },
            None => {
                assert forall|i: int| 0 <= i < old(self)@.nonces.len() implies (
                #[trigger] old(self)@.nonces[i]).public@ != next_nonce@ by {
                    assert(!old(self)@.nonce_at(i, next_nonce));
                    if old(self)@.nonces[i].public@ == next_nonce@ {
                        assert(old(self)@.nonces[i].public =~= next_nonce);
                    }
                }
            },
        }
        if my_tip.header.height == u64::MAX {
            return Err(WrapError::HeightOverflow);
        }
        let checkpoints = match bitcoin_tipcache {
            Some(list) => list,
            None => Vec::new(),
        };
        let mut envelope = Envelope {
            header: Header {
                key,
                next_nonce,
                ancestors: Some(
                    Ancestors {
                        genesis: my_tip.get_genesis_hash(),
                        prev_msg: my_tip.canonicalized_hash(),
                    },
                ),
                tips,
                height: my_tip.header.height + 1,
                sent_time_ms,
                unsigned: Unsigned { signature: None },
                checkpoints,
            },
            msg,
        };
        let ghost unsigned = envelope@;
        proof {
            lemma_listed_tips_sorted(old(self)@, tips@, key);
        }
        match envelope.sign_with(keypair, row.secret) {
            Ok(()) => {
                assert(crate::envelope::well_formed(envelope@));
            },
            Err(e) => {
                return Ok(Err(e));
            },
        }
        let consumed = self.get_secret_for_public_nonce(my_tip.header.next_nonce);
        let stored = self.save_nonce_for_user_by_key(fresh, key);
        proof {
            crate::envelope::lemma_canonical_ignores_signature(
                unsigned,
                envelope@.header.signature,
            );
            assert(stored.unwrap() =~= next_nonce);
        }
        Ok(Ok(envelope))
    }

    /// Composes and signs the envelope that follows the tip of the chain of
    /// `keypair`, carrying the payload `msg`.
    ///
    /// The time is read from the clock and the secret of the next nonce is
    /// drawn at random, so that it is a valid secret; whatever they are,
    /// what came out is what [`MsgDBHandle::wrap_message_with`] gives for
    /// them.
    pub fn wrap_message_in_envelope_for_user_by_key(
        &mut self,
        msg: Vec<u8>,
        keypair: &KeyPair,
        bitcoin_tipcache: Option<Vec<CheckPoint>>,
        dangerous_bypass_tip: Option<Envelope>,
    ) -> (r: Result<Result<Envelope, SigningError>, WrapError>)
        requires
            old(self)@.wf(),
        ensures
            final(self)@.wf(),
            exists|sent_time_ms: u64, fresh: [u8; 32]|
                public_key_of(fresh@) is Some && #[trigger] wrapped(
                    old(self)@,
                    final(self)@,
                    r,
                    msg@,
                    keypair,
                    bitcoin_tipcache,
                    dangerous_bypass_tip,
                    sent_time_ms,
                    fresh,
                ),
    {
        let sent_time_ms = now_ms();
        let fresh = random_secret();
        let r = self.wrap_message_with(
            msg,
            keypair,
            bitcoin_tipcache,
            dangerous_bypass_tip,
            sent_time_ms,
            fresh,
        );
        r
    }

    /// The signing key stored for `public`, as a key pair.
    pub fn find_keypair(&self, public: &[u8; 32]) -> (r: Option<KeyPair>)
        requires
            self@.wf(),
        ensures
            match r {
                Some(keypair) => self@.signing_key(*public) matches Some(row) && keypair.public()
                    == *public && keypair.secret() == row.secret,
                None => self@.signing_key(*public) is None,
            },
    {
        let n = self.keys.len();
        let mut i: usize = 0;
        while i < n
            invariant
                0 <= i <= n,
                n == self.keys@.len(),
                self@.wf(),
                self@.signing_key(*public) == self@.key_from(*public, i as int),
            decreases n - i,
        {
            if same_bytes(&self.keys[i].public, public) {
                let row = self.keys[i];
                proof {
                    reveal(DatabaseView::nonces_ok);
                }
                match KeyPair::from_secret_key(row.secret) {
                    Some(keypair) => {
                        assert(keypair.public() =~= *public);
                        return Some(keypair);
                    },
                    None => vstd::pervasive::unreached(),
                }
            }
            i += 1;
        }
        None
    }

    /// The nickname of the chain of `key`.
    pub fn locate_user(&self, key: &[u8; 32]) -> (r: Result<String, NotFound>)
        requires
            self@.wf(),
        ensures
            match r {
                Ok(nickname) => self@.chain_of(*key) matches Some(chain) && nickname@
                    == chain.nickname,
                Err(_) => self@.chain_of(*key) is None,
            },
    {
        match self.find_chain(key) {
            Some(c) => Ok(self.chains[c].nickname.clone()),
            None => Err(NotFound),
        }
    }

    /// Whether the public nonce `public` is stored.
    pub fn has_public_nonce(&self, public: &[u8; 32]) -> (r: bool)
        requires
            self@.wf(),
        ensures
            r == self@.has_nonce(*public),
            r == exists|i: int|
                0 <= i < self@.nonces.len() && (#[trigger] self@.nonces[i]).public@ == public@,
    {
        let found = self.find_nonce(public);
        proof {
            if found is Some {
            } else {
                assert forall|i: int| 0 <= i < self@.nonces.len() implies (
                #[trigger] self@.nonces[i]).public@ != public@ by {
                    assert(!self@.nonce_at(i, *public));
                    if self@.nonces[i].public@ == public@ {
                        assert(self@.nonces[i].public =~= *public);
                    }
                }
            }
        }
        found.is_some()
    }

    /// How many envelopes wait for an ancestor.
    pub fn pending_count(&self) -> (n: usize)
        ensures
            n == self@.pending.len(),
    {
        self.pending.len()
    }

    /// How many chains are known.
    pub fn chain_count(&self) -> (n: usize)
        ensures
            n == self@.chains.len(),
    {
        self.chains.len()
    }

    /// The envelopes of the chain of `key`, from height 0 up.
    pub fn get_chain(&self, key: &[u8; 32]) -> (r: Option<Vec<Envelope>>)
        requires
            self@.wf(),
        ensures
            match r {
                Some(list) => self@.chain_of(*key) matches Some(chain) && envelope_views(list@)
                    == chain.envelopes,
                None => self@.chain_of(*key) is None,
            },
    {
        let c = match self.find_chain(key) {
            Some(c) => c,
            None => {
                return None;
            },
        };
        let n = self.chains[c].entries.len();
        let mut list: Vec<Envelope> = Vec::new();
        let mut i: usize = 0;
        while i < n
            invariant
                0 <= i <= n,
                c < self.chains@.len(),
                n == self.chains@[c as int].entries@.len(),
                list@.len() == i,
                forall|k: int|
                    0 <= k < i ==> (#[trigger] list@[k])@ == self@.chains[c as int].envelopes[k],
            decreases n - i,
        {
            list.push(self.chains[c].entries[i].inner_ref().clone());
            i += 1;
        }
        Some(list)
    }

    /// The nonces stored, in the order they were stored.
    pub fn get_nonces(&self) -> (rows: Vec<NonceRow>)
        ensures
            rows@ == self@.nonces,
    {
        self.nonces.clone()
    }

    /// The envelopes that wait for an ancestor, oldest first.
    pub fn get_pending(&self) -> (list: Vec<Envelope>)
        ensures
            envelope_views(list@) == self@.pending,
    {
        let n = self.pending.len();
        let mut list: Vec<Envelope> = Vec::new();
        let mut i: usize = 0;
        while i < n
            invariant
                0 <= i <= n,
                n == self.pending@.len(),
                list@.len() == i,
                forall|k: int| 0 <= k < i ==> (#[trigger] list@[k])@ == self@.pending[k],
            decreases n - i,
        {
            list.push(self.pending[i].inner_ref().clone());
            i += 1;
        }
        list
    }
}

} // verus!
