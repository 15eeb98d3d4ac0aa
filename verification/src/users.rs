//! Creating a chain: the key pair of a new user and the first envelope of
//! its chain.

use vstd::prelude::*;
use crate::clock::now_ms;
use crate::crypto::{public_key_of, random_secret, secret_to_xonly, signature_of, KeyPair};
use crate::envelope::{
    envelope_hash,
    with_signature,
    Envelope,
    EnvelopeView,
    Header,
    HeaderView,
    SigningError,
    Unsigned,
};
use crate::database::{
    fresh_row,
    wrapped,
    DatabaseView,
    KeyRow,
    MsgDBHandle,
    NonceError,
    NotFound,
    SqliteFail,
    WrapError,
};
use crate::envelope::{authentic, AuthenticationError};
use crate::json::{canonical_payload, check_canonical, is_canonical_json, payload_of, text_given};

verus! {

/// Why no user could be created.
#[derive(Clone, Copy, Debug, PartialEq, Eq, Structural)]
pub enum NewUserError {
    /// The initial payload is not JSON that has a canonical form, or that
    /// form is not canonical itself.
    InvalidPayload,
    /// The secret for the next nonce is not a valid secret.
    InvalidNonce,
    /// The first envelope could not be signed.
    Signing(SigningError),
}

/// The first envelope of a chain before it is signed: height 0, no
/// ancestors, no tips, no checkpoints.
pub open spec fn genesis_unsigned(
    key: [u8; 32],
    next_nonce: [u8; 32],
    sent_time_ms: u64,
    msg: Seq<u8>,
) -> EnvelopeView {
    EnvelopeView {
        header: HeaderView {
            key: key,
            next_nonce: next_nonce,
            ancestors: None,
            tips: Seq::empty(),
            height: 0,
            sent_time_ms: sent_time_ms,
            signature: None,
            checkpoints: Seq::empty(),
        },
        msg: msg,
    }
}

/// What creating the first envelope comes to, for a given key pair, the
/// secret `nonce` to sign with, the secret `next` to commit to, a time and
/// a payload. A payload that is not canonical JSON is refused. An envelope
/// that comes out is authentic.
pub open spec fn first_envelope(
    r: Result<Envelope, NewUserError>,
    keypair: &KeyPair,
    nonce: [u8; 32],
    next: [u8; 32],
    sent_time_ms: u64,
    msg: Seq<u8>,
) -> bool {
    if !is_canonical_json(msg) {
        r == Err::<Envelope, NewUserError>(NewUserError::InvalidPayload)
    } else {
        match public_key_of(next@) {
            None => r == Err::<Envelope, NewUserError>(NewUserError::InvalidNonce),
            Some(next_public) => {
                match r {
                    Ok(e) => {
                        let unsigned = with_signature(e@, None);
                        &&& unsigned == genesis_unsigned(
                            keypair.public(),
                            e@.header.next_nonce,
                            sent_time_ms,
                            msg,
                        )
                        &&& e@.header.next_nonce@ == next_public
                        &&& e@.header.signature matches Some(sig) && signature_of(
                            envelope_hash(unsigned),
                            keypair.secret()@,
                            nonce@,
                        ) == Some(sig@)
                        &&& authentic(e@)
                    },
                    Err(NewUserError::Signing(err)) => {
                        &&& err == SigningError::InvalidNonce
                        &&& exists|next_nonce: [u8; 32]|
                            next_nonce@ == next_public && #[trigger] signature_of(
                                envelope_hash(
                                    genesis_unsigned(keypair.public(), next_nonce, sent_time_ms, msg),
                                ),
                                keypair.secret()@,
                                nonce@,
                            ) is None
                    },
                    Err(_) => false,
                }
            },
        }
    }
}

/// Builds and signs the first envelope of the chain of `keypair`.
pub fn new_user_with(
    keypair: &KeyPair,
    nonce: [u8; 32],
    next: [u8; 32],
    sent_time_ms: u64,
    msg: Vec<u8>,
) -> (r: Result<Envelope, NewUserError>)
    ensures
        first_envelope(r, keypair, nonce, next, sent_time_ms, msg@),
{
    if !check_canonical(msg.as_slice()) {
        return Err(NewUserError::InvalidPayload);
    }
    let next_nonce = match secret_to_xonly(&next) {
        Some((public, _)) => public,
        None => {
            return Err(NewUserError::InvalidNonce);
        },
    };
    let mut envelope = Envelope {
        header: Header {
            key: keypair.x_only_public_key(),
            next_nonce,
            ancestors: None,
            tips: Vec::new(),
            height: 0,
            sent_time_ms,
            unsigned: Unsigned { signature: None },
            checkpoints: Vec::new(),
        },
        msg,
    };
    let ghost unsigned = envelope@;
    assert(unsigned == genesis_unsigned(keypair.public(), next_nonce, sent_time_ms, msg@));
    match envelope.sign_with(keypair, nonce) {
        Ok(()) => {
            Ok(envelope)
        },
        Err(e) => Err(NewUserError::Signing(e)),
    }
}

/// No first envelope can be made for a payload although it has a
/// canonical form: for some key pair, nonces and time, with a valid secret
/// to commit to, there is no signature.
pub open spec fn no_first_envelope(msg: Seq<u8>) -> bool {
    exists|keypair: KeyPair, nonce: [u8; 32], next: [u8; 32], sent_time_ms: u64|
        public_key_of(next@) is Some && #[trigger] first_envelope(
            Err(NewUserError::Signing(SigningError::InvalidNonce)),
            &keypair,
            nonce,
            next,
            sent_time_ms,
            msg,
        )
}

/// Creates a user: draws a key pair, the nonce to sign the first envelope
/// with and the nonce that envelope commits to, and returns the key pair,
/// the secret of the committed nonce and the signed envelope. `init` is
/// the payload as JSON text; without one the payload is `null`.
///
/// The keys, the nonces and the time are not fixed by the arguments;
/// whatever they were, the envelope is the first envelope for them, and
/// it is authentic. With a payload that has a canonical form, the one
/// thing that can stand in the way is that no signature exists for what
/// was drawn.
pub fn generate_new_user(init: Option<&[u8]>) -> (r: Result<
    (KeyPair, [u8; 32], Envelope),
    NewUserError,
>)
    ensures
        match r {
            Ok((keypair, next, envelope)) => {
                &&& payload_of(text_given(init)) == Some(envelope@.msg)
                &&& authentic(envelope@)
                &&& exists|nonce: [u8; 32], sent_time_ms: u64| #[trigger]
                    first_envelope(
                        Ok(envelope),
                        &keypair,
                        nonce,
                        next,
                        sent_time_ms,
                        envelope@.msg,
                    )
            },
            Err(NewUserError::InvalidPayload) => match payload_of(text_given(init)) {
                None => true,
                Some(msg) => !is_canonical_json(msg),
            },
            Err(e) => {
                &&& e == NewUserError::Signing(SigningError::InvalidNonce)
                &&& payload_of(text_given(init)) matches Some(msg) && no_first_envelope(msg)
            },
        },
{
    let msg = match canonical_payload(init) {
        Some(msg) => msg,
        None => {
            return Err(NewUserError::InvalidPayload);
        },
    };
    let keypair = KeyPair::generate();
    let nonce = random_secret();
    let next = random_secret();
    let sent_time_ms = now_ms();
    let ghost text = msg@;
    match new_user_with(&keypair, nonce, next, sent_time_ms, msg) {
        Ok(envelope) => {
            let r = Ok((keypair, next, envelope));
            assert(first_envelope(
                Ok(r->Ok_0.2),
                &r->Ok_0.0,
                nonce,
                r->Ok_0.1,
                sent_time_ms,
                r->Ok_0.2@.msg,
            ));
            r
        },
        Err(e) => {
            assert(public_key_of(next@) is Some && first_envelope(
                Err(e),
                &keypair,
                nonce,
                next,
                sent_time_ms,
                text,
            ));
            Err(e)
        },
    }
}

/// Why no user could be set up in the database.
#[derive(Clone, Copy, Debug, PartialEq, Eq, Structural)]
pub enum MakeUserError {
    /// No first envelope could be made.
    NewUser(NewUserError),
    /// The first envelope does not verify.
    NotAuthentic(AuthenticationError),
    /// The database refused the first envelope.
    Insert(SqliteFail),
    /// The database refused the nonce that the first envelope commits to.
    Nonce(NonceError),
}

/// The public nonce of the secret `next`, where it has one.
pub open spec fn public_nonce_of(next: [u8; 32]) -> [u8; 32] {
    choose|public: [u8; 32]| Some(public@) == public_key_of(next@)
}

/// A stored public nonce is the one of the secret `next`.
pub open spec fn nonce_taken(db: DatabaseView, next: [u8; 32]) -> bool {
    exists|i: int|
        0 <= i < db.nonces.len() && Some((#[trigger] db.nonces[i]).public@) == public_key_of(next@)
}

/// Why an authentic first envelope with the committed secret `next` cannot
/// be set up: the secret is no valid secret, its nonce is stored already,
/// or the database refuses the envelope.
pub open spec fn register_refusal(db: DatabaseView, e: EnvelopeView, next: [u8; 32])
    -> MakeUserError {
    if public_key_of(next@) is None {
        MakeUserError::Nonce(NonceError::InvalidSecret)
    } else if nonce_taken(db, next) {
        MakeUserError::Nonce(NonceError::Duplicate)
    } else {
        match db.genesis_verdict(e) {
            Err(f) => MakeUserError::Insert(f),
            Ok(()) => MakeUserError::Insert(SqliteFail::SqliteConstraintCheck),
        }
    }
}

/// What setting up a user comes to.
///
/// If the envelope is authentic, the secret `next` is valid and its nonce
/// not stored yet, and the database accepts the envelope as the start of a
/// chain, then the chain is started under the nickname, the nonce is
/// stored for it, and the key pair is stored. Otherwise nothing changes
/// and the error says what stood in the way.
pub open spec fn registered(
    before: DatabaseView,
    after: DatabaseView,
    r: Result<[u8; 32], MakeUserError>,
    nickname: Seq<char>,
    keypair: &KeyPair,
    next: [u8; 32],
    envelope: EnvelopeView,
) -> bool {
    match r {
        Ok(key) => {
            &&& key == envelope.header.key
            &&& authentic(envelope)
            &&& before.genesis_verdict(envelope) is Ok
            &&& public_key_of(next@) == Some(public_nonce_of(next)@)
            &&& !before.has_nonce(public_nonce_of(next))
            &&& after == before.after_genesis(nickname, envelope).with_nonce(
                fresh_row(public_nonce_of(next), next, key),
            ).with_key(KeyRow { public: keypair.public(), secret: keypair.secret() })
        },
        Err(e) => {
            &&& after == before
            &&& if authentic(envelope) {
                e == register_refusal(before, envelope, next) && !(before.genesis_verdict(envelope)
                    is Ok && public_key_of(next@) is Some && !nonce_taken(before, next))
            } else {
                e is NotAuthentic
            }
        },
    }
}

/// Sets up a user whose first envelope is `envelope`: the envelope starts
/// a chain under `nickname`, the secret `next` of the nonce it commits to
/// is stored, and so is the key pair. Nothing is stored unless all of it
/// can be.
pub fn register_user(
    db: &mut MsgDBHandle,
    nickname: String,
    keypair: &KeyPair,
    next: [u8; 32],
    envelope: Envelope,
) -> (r: Result<[u8; 32], MakeUserError>)
    requires
        old(db)@.wf(),
    ensures
        final(db)@.wf(),
        registered(old(db)@, final(db)@, r, nickname@, keypair, next, envelope@),
{
    let ghost e = envelope@;
    let valid = match envelope.self_authenticate() {
        Ok(valid) => valid,
        Err(err) => {
            assert(!authentic(e)) by {
                reveal(authentic);
            }
            return Err(MakeUserError::NotAuthentic(err));
        },
    };
    // The nonce is checked before anything is written, so that a refusal
    // leaves no chain without its nonce.
    let public = match secret_to_xonly(&next) {
        Some((public, _)) => public,
        None => {
            return Err(MakeUserError::Nonce(NonceError::InvalidSecret));
        },
    };
    if db.has_public_nonce(&public) {
        return Err(MakeUserError::Nonce(NonceError::Duplicate));
    }
    let key = match db.insert_user_by_genesis_envelope(nickname, valid) {
        Ok(key) => key,
        Err(f) => {
            return Err(MakeUserError::Insert(f));
        },
    };
    let stored = db.save_nonce_for_user_by_key(next, key);
    proof {
        assert(stored.unwrap() =~= public);
    }
    db.save_keypair(keypair);
    proof {
        assert(public_nonce_of(next) =~= public);
    }
    Ok(key)
}

/// Creates a user and sets it up in the database under `nickname`; `init`
/// is the payload of its first envelope, as JSON text. Returns the key of
/// the new chain.
///
/// The key pair and the nonces are drawn at random.
pub fn make_new_user(db: &mut MsgDBHandle, nickname: String, init: Option<&[u8]>) -> (r: Result<
    [u8; 32],
    MakeUserError,
>)
    requires
        old(db)@.wf(),
    ensures
        final(db)@.wf(),
        match r {
            Err(MakeUserError::NewUser(e)) => {
                &&& final(db)@ == old(db)@
                &&& match payload_of(text_given(init)) {
                    None => e == NewUserError::InvalidPayload,
                    Some(msg) => if is_canonical_json(msg) {
                        e == NewUserError::Signing(SigningError::InvalidNonce)
                            && no_first_envelope(msg)
                    } else {
                        e == NewUserError::InvalidPayload
                    },
                }
            },
            _ => exists|keypair: KeyPair, next: [u8; 32], envelope: Envelope|
                {
                    &&& payload_of(text_given(init)) == Some(envelope@.msg)
                    &&& exists|nonce: [u8; 32], sent_time_ms: u64| #[trigger]
                        first_envelope(
                            Ok(envelope),
                            &keypair,
                            nonce,
                            next,
                            sent_time_ms,
                            envelope@.msg,
                        )
                    &&& #[trigger] registered(
                        old(db)@,
                        final(db)@,
                        r,
                        nickname@,
                        &keypair,
                        next,
                        envelope@,
                    )
                },
        },
{
    let (keypair, next, envelope) = match generate_new_user(init) {
        Ok(made) => made,
        Err(e) => {
            return Err(MakeUserError::NewUser(e));
        },
    };
    let r = register_user(db, nickname, &keypair, next, envelope);
    r
}

/// `user` is the key stored at position `k` together with the nickname
/// of the chain of that key.
pub open spec fn is_user_at(db: DatabaseView, k: int, user: ([u8; 32], String)) -> bool {
    &&& user.0 == db.keys[k].public
    &&& db.chain_of(db.keys[k].public) matches Some(chain) && user.1@ == chain.nickname
}

/// The chains this node owns, by key and nickname, in the order their
/// signing keys were stored. Fails where a signing key has no chain.
pub fn list_my_users(db: &MsgDBHandle) -> (r: Result<Vec<([u8; 32], String)>, NotFound>)
    requires
        db@.wf(),
    ensures
        match r {
            Ok(users) => {
                &&& users@.len() == db@.keys.len()
                &&& forall|k: int| 0 <= k < users@.len() ==> is_user_at(db@, k, #[trigger] users@[k])
            },
            Err(_) => exists|k: int|
                0 <= k < db@.keys.len() && db@.chain_of((#[trigger] db@.keys[k]).public) is None,
        },
{
    let keys = db.get_keymap();
    let n = keys.len();
    let mut users: Vec<([u8; 32], String)> = Vec::new();
    let mut i: usize = 0;
    while i < n
        invariant
            0 <= i <= n,
            n == keys@.len(),
            keys@ == db@.keys,
            db@.wf(),
            users@.len() == i,
            forall|k: int| 0 <= k < i ==> is_user_at(db@, k, #[trigger] users@[k]),
        decreases n - i,
    {
        let key = keys[i].public;
        match db.locate_user(&key) {
            Ok(nickname) => {
                let ghost so_far = users@;
                let user = (key, nickname);
                assert(is_user_at(db@, i as int, user));
                users.push(user);
                assert forall|k: int| 0 <= k < i + 1 implies is_user_at(
                    db@,
                    k,
                    #[trigger] users@[k],
                ) by {
                    if k < i {
                        assert(users@[k] == so_far[k]);
                    }
                }
            },
            Err(e) => {
                assert(db@.chain_of(db@.keys[i as int].public) is None);
                return Err(e);
            },
        }
        i += 1;
    }
    Ok(users)
}

/// Why a move was not recorded.
#[derive(Clone, Copy, Debug, PartialEq, Eq, Structural)]
pub enum MoveError {
    /// No signing key is stored for the user.
    UnknownKey,
    /// No envelope could be composed.
    Wrap(WrapError),
    /// The envelope could not be signed.
    Signing(SigningError),
    /// The signed envelope does not verify. A signature is verified
    /// before it is stored, so this does not come about.
    NotAuthentic(AuthenticationError),
    /// The database refused the envelope.
    Insert(SqliteFail),
}

/// What recording a move comes to, given the time and the fresh secret
/// nonce that were used.
///
/// Without a signing key for `user` nothing happens. Otherwise an envelope
/// with the payload is composed for the tip of the user's chain and signed
/// as [`wrapped`] says; if that gives an envelope, it is authentic and is
/// inserted as [`DatabaseView::after_insert`] says, and the move is
/// recorded if the insertion was accepted.
pub open spec fn move_made(
    before: DatabaseView,
    after: DatabaseView,
    r: Result<(), MoveError>,
    user: [u8; 32],
    payload: Seq<u8>,
    sent_time_ms: u64,
    fresh: [u8; 32],
) -> bool {
    match before.signing_key(user) {
        None => r == Err::<(), MoveError>(MoveError::UnknownKey) && after == before,
        Some(row) => exists|
            keypair: KeyPair,
            mid: DatabaseView,
            made: Result<Result<Envelope, SigningError>, WrapError>,
        |
            {
                &&& keypair.public() == user
                &&& keypair.secret() == row.secret
                &&& #[trigger] wrapped(
                    before,
                    mid,
                    made,
                    payload,
                    &keypair,
                    None,
                    None,
                    sent_time_ms,
                    fresh,
                )
                &&& match made {
                    Err(e) => r == Err::<(), MoveError>(MoveError::Wrap(e)) && after == mid,
                    Ok(Err(e)) => r == Err::<(), MoveError>(MoveError::Signing(e)) && after == mid,
                    Ok(Ok(envelope)) => {
                        &&& authentic(envelope@)
                        &&& after == mid.after_insert(envelope@)
                        &&& match mid.insert_verdict(envelope@) {
                            Ok(()) => r == Ok::<(), MoveError>(()),
                            Err(f) => r == Err::<(), MoveError>(MoveError::Insert(f)),
                        }
                    },
                }
            },
    }
}

/// Records a move of `user`: the payload is wrapped in the next envelope
/// of the user's chain, signed with the user's stored key, and inserted.
pub fn make_move_with(
    db: &mut MsgDBHandle,
    user: [u8; 32],
    payload: Vec<u8>,
    sent_time_ms: u64,
    fresh: [u8; 32],
) -> (r: Result<(), MoveError>)
    requires
        old(db)@.wf(),
    ensures
        final(db)@.wf(),
        move_made(old(db)@, final(db)@, r, user, payload@, sent_time_ms, fresh),
{
    let keypair = match db.find_keypair(&user) {
        Some(keypair) => keypair,
        None => {
            return Err(MoveError::UnknownKey);
        },
    };
    let made = db.wrap_message_with(payload, &keypair, None, None, sent_time_ms, fresh);
    let envelope = match made {
        Ok(Ok(envelope)) => envelope,
        Ok(Err(e)) => {
            return Err(MoveError::Signing(e));
        },
        Err(e) => {
            return Err(MoveError::Wrap(e));
        },
    };
    let valid = match envelope.self_authenticate() {
        Ok(valid) => valid,
        Err(e) => {
            assert(false) by {
                reveal(authentic);
            }
            return Err(MoveError::NotAuthentic(e));
        },
    };
    match db.try_insert_authenticated_envelope(valid) {
        Ok(()) => Ok(()),
        Err(f) => Err(MoveError::Insert(f)),
    }
}

/// Records a move of `user`, with the time read from the clock and the
/// fresh nonce drawn at random, so that it is a valid secret; whatever
/// they were, the outcome is the one of [`make_move_with`] for them.
pub fn make_move_inner(db: &mut MsgDBHandle, user: [u8; 32], payload: Vec<u8>) -> (r: Result<
    (),
    MoveError,
>)
    requires
        old(db)@.wf(),
    ensures
        final(db)@.wf(),
        exists|sent_time_ms: u64, fresh: [u8; 32]|
            public_key_of(fresh@) is Some && #[trigger] move_made(
                old(db)@,
                final(db)@,
                r,
                user,
                payload@,
                sent_time_ms,
                fresh,
            ),
{
    let sent_time_ms = now_ms();
    let fresh = random_secret();
    let r = make_move_with(db, user, payload, sent_time_ms, fresh);
    r
}

} // verus!
