use attest::crypto::KeyPair;
use attest::database::{MsgDBHandle, NonceError, NotFound, SqliteFail, WrapError};
use attest::envelope::{Ancestors, Envelope, TipEntry};
use attest::users::{
    generate_new_user, make_move_inner, make_move_with, make_new_user, new_user_with,
    register_user, list_my_users, MakeUserError, MoveError,
};

fn secret(b: u8) -> [u8; 32] {
    [b; 32]
}

/// A user with fixed secrets: key `b`, first nonce `b + 100`, committed nonce `b + 50`.
fn first_envelope(b: u8) -> (KeyPair, [u8; 32], Envelope) {
    let keypair = KeyPair::from_secret_key(secret(b)).unwrap();
    let next = secret(b + 50);
    let envelope = new_user_with(&keypair, secret(b + 100), next, 1000, b"null".to_vec()).unwrap();
    (keypair, next, envelope)
}

fn add_user(db: &mut MsgDBHandle, b: u8, nickname: &str) -> KeyPair {
    let (keypair, next, envelope) = first_envelope(b);
    let key = register_user(db, nickname.to_string(), &keypair, next, envelope).unwrap();
    assert_eq!(key, keypair.x_only_public_key());
    keypair
}

/// Composes the next envelope of the chain without inserting it.
fn compose(db: &mut MsgDBHandle, keypair: &KeyPair, payload: &[u8], fresh: u8) -> Envelope {
    db.wrap_message_with(payload.to_vec(), keypair, None, None, 2000, secret(fresh))
        .unwrap()
        .unwrap()
}

fn insert(db: &mut MsgDBHandle, e: &Envelope) -> Result<(), SqliteFail> {
    db.try_insert_authenticated_envelope(e.clone().self_authenticate().unwrap())
}

/// Grows the chain of `keypair` by `n` envelopes and returns them.
fn grow(db: &mut MsgDBHandle, keypair: &KeyPair, n: u8, seed: u8) -> Vec<Envelope> {
    let mut out = vec![];
    for i in 0..n {
        let e = compose(db, keypair, b"{\"x\":1}", seed + i);
        assert_eq!(insert(db, &e), Ok(()));
        out.push(e);
    }
    out
}

#[test]
fn scenario_a_chain_bootstrap() {
    let mut db = MsgDBHandle::new();
    db.setup_tables();
    let (keypair, next, e0) = generate_new_user(None).unwrap();
    assert_eq!(e0.header.height, 0);
    assert_eq!(e0.header.ancestors, None);
    assert!(e0.header.unsigned.signature.is_some());
    let key = db
        .insert_user_by_genesis_envelope("alice".to_string(), e0.clone().self_authenticate().unwrap())
        .unwrap();
    assert_eq!(key, keypair.x_only_public_key());
    assert_eq!(db.get_tip_for_user_by_key(key), Ok(e0.clone()));
    assert_eq!(db.get_tips_for_all_users(), vec![e0]);
    assert_eq!(db.save_nonce_for_user_by_key(next, key).is_ok(), true);
    assert_eq!(db.locate_user(&key), Ok("alice".to_string()));
}

#[test]
fn scenario_b_linear_growth() {
    let mut db = MsgDBHandle::new();
    let keypair = add_user(&mut db, 1, "alice");
    let key = keypair.x_only_public_key();
    let e0 = db.get_tip_for_user_by_key(key).unwrap();
    let e1 = db
        .wrap_message_in_envelope_for_user_by_key(b"{\"x\":1}".to_vec(), &keypair, None, None)
        .unwrap()
        .unwrap();
    assert_eq!(e1.header.height, 1);
    let h0 = e0.canonicalized_hash();
    assert_eq!(e1.header.ancestors, Some(Ancestors { genesis: h0, prev_msg: h0 }));
    assert_eq!(e1.header.tips, vec![]);
    assert_eq!(e1.header.key, key);
    assert_eq!(e1.msg, b"{\"x\":1}".to_vec());
    // the time is read from the clock: some day after the year 2020
    assert!(e1.header.sent_time_ms > 1_577_836_800_000);
    // nothing is inserted by composing
    assert_eq!(db.get_tip_for_user_by_key(key), Ok(e0));
    assert_eq!(insert(&mut db, &e1), Ok(()));
    assert_eq!(db.get_tip_for_user_by_key(key), Ok(e1.clone()));
    // the next one names the first as genesis and this one as predecessor
    let e2 = compose(&mut db, &keypair, b"2", 70);
    assert_eq!(
        e2.header.ancestors,
        Some(Ancestors { genesis: h0, prev_msg: e1.canonicalized_hash() })
    );
    assert_eq!(e2.header.height, 2);
    assert_eq!(e2.header.sent_time_ms, 2000);
}

#[test]
fn scenario_c_cross_chain_tips() {
    let mut db = MsgDBHandle::new();
    let a = add_user(&mut db, 1, "a");
    let b = add_user(&mut db, 2, "b");
    grow(&mut db, &a, 2, 10);
    let eb = grow(&mut db, &b, 2, 20);
    let ea3 = compose(&mut db, &a, b"3", 30);
    assert_eq!(ea3.header.height, 3);
    assert_eq!(
        ea3.header.tips,
        vec![TipEntry {
            key: b.x_only_public_key(),
            height: 2,
            hash: eb[1].canonicalized_hash()
        }]
    );
    assert_eq!(insert(&mut db, &ea3), Ok(()));
    // and the other way round
    let eb3 = compose(&mut db, &b, b"3", 31);
    assert_eq!(
        eb3.header.tips,
        vec![TipEntry { key: a.x_only_public_key(), height: 3, hash: ea3.canonicalized_hash() }]
    );
}

#[test]
fn tips_of_a_new_envelope_cover_every_other_chain_in_key_order() {
    let mut db = MsgDBHandle::new();
    let users: Vec<KeyPair> = (1..=4u8).map(|b| add_user(&mut db, b, "u")).collect();
    let author = &users[2];
    let e = compose(&mut db, author, b"1", 40);
    let mut expected: Vec<[u8; 32]> = users
        .iter()
        .map(|u| u.x_only_public_key())
        .filter(|k| *k != author.x_only_public_key())
        .collect();
    expected.sort();
    let listed: Vec<[u8; 32]> = e.header.tips.iter().map(|t| t.key).collect();
    assert_eq!(listed, expected);
    for t in &e.header.tips {
        let tip = db.get_tip_for_user_by_key(t.key).unwrap();
        assert_eq!(t.height, tip.header.height);
        assert_eq!(t.hash, tip.canonicalized_hash());
    }
    assert!(e.self_authenticate().is_ok());
}

#[test]
fn tips_for_all_users_are_sorted_by_key() {
    let mut db = MsgDBHandle::new();
    let mut keys = vec![];
    for b in [9u8, 3, 7, 1, 5] {
        keys.push(add_user(&mut db, b, "u").x_only_public_key());
    }
    keys.sort();
    let tips = db.get_tips_for_all_users();
    let got: Vec<[u8; 32]> = tips.iter().map(|e| e.header.key).collect();
    assert_eq!(got, keys);
    assert_eq!(db.chain_count(), 5);
}

#[test]
fn chain_linearity() {
    // in order
    let mut source = MsgDBHandle::new();
    let kp = add_user(&mut source, 1, "alice");
    let key = kp.x_only_public_key();
    let chain = grow(&mut source, &kp, 3, 10);
    let e0 = source.get_chain(&key).unwrap()[0].clone();
    assert_eq!(source.get_chain(&key).unwrap().len(), 4);
    for (h, e) in source.get_chain(&key).unwrap().iter().enumerate() {
        assert_eq!(e.header.height, h as u64);
    }

    // out of order: 0, 1, 3, then 2
    let mut db = MsgDBHandle::new();
    db.insert_user_by_genesis_envelope("alice".into(), e0.self_authenticate().unwrap()).unwrap();
    assert_eq!(insert(&mut db, &chain[0]), Ok(()));
    assert_eq!(insert(&mut db, &chain[2]), Err(SqliteFail::SqliteConstraintCheck));
    assert_eq!(db.pending_count(), 1);
    assert_eq!(db.get_tip_for_user_by_key(key).unwrap().header.height, 1);
    assert_eq!(insert(&mut db, &chain[1]), Ok(()));
    // 3 is still pending
    assert_eq!(db.pending_count(), 1);
    assert_eq!(db.get_tip_for_user_by_key(key).unwrap().header.height, 2);
    assert_eq!(db.attach_tips(), 1);
    assert_eq!(db.pending_count(), 0);
    assert_eq!(db.get_tip_for_user_by_key(key), Ok(chain[2].clone()));
    assert_eq!(db.get_chain(&key), source.get_chain(&key));
    // nothing more to do
    let before = db.clone();
    assert_eq!(db.attach_tips(), 0);
    assert_eq!(db, before);
}

#[test]
fn attach_tips_promotes_a_whole_run() {
    let mut source = MsgDBHandle::new();
    let kp = add_user(&mut source, 1, "alice");
    let key = kp.x_only_public_key();
    let chain = grow(&mut source, &kp, 5, 10);
    let e0 = source.get_chain(&key).unwrap()[0].clone();
    let mut db = MsgDBHandle::new();
    db.insert_user_by_genesis_envelope("alice".into(), e0.self_authenticate().unwrap()).unwrap();
    // heights 5, 4, 3, 2 arrive before 1
    for i in [4usize, 3, 2, 1] {
        assert_eq!(insert(&mut db, &chain[i]), Err(SqliteFail::SqliteConstraintCheck));
    }
    assert_eq!(db.pending_count(), 4);
    assert_eq!(db.attach_tips(), 0);
    assert_eq!(insert(&mut db, &chain[0]), Ok(()));
    assert_eq!(db.attach_tips(), 4);
    assert_eq!(db.pending_count(), 0);
    assert_eq!(db.get_chain(&key), source.get_chain(&key));
}

#[test]
fn duplicates_and_forks_are_refused() {
    let mut db = MsgDBHandle::new();
    let kp = add_user(&mut db, 1, "alice");
    let key = kp.x_only_public_key();
    let e1 = compose(&mut db, &kp, b"1", 10);
    assert_eq!(insert(&mut db, &e1), Ok(()));
    let before = db.clone();
    assert_eq!(insert(&mut db, &e1), Err(SqliteFail::SqliteConstraintUnique));
    assert_eq!(db, before);
    // a second envelope at height 1
    let e0 = db.get_chain(&key).unwrap()[0].clone();
    let fork = db
        .wrap_message_with(b"\"other\"".to_vec(), &kp, None, Some(e0.clone()), 2000, secret(11))
        .unwrap_err();
    // the nonce that the first envelope committed to is spent
    assert_eq!(fork, WrapError::Nonce(NonceError::AlreadyConsumed));
    // the first envelope again, as a genesis and as an ordinary envelope
    assert_eq!(
        db.insert_user_by_genesis_envelope("again".into(), e0.clone().self_authenticate().unwrap()),
        Err(SqliteFail::SqliteConstraintUnique)
    );
    assert_eq!(insert(&mut db, &e0), Err(SqliteFail::SqliteConstraintUnique));
    assert_eq!(db, before);
}

#[test]
fn a_fork_signed_elsewhere_is_refused_as_taken() {
    // two databases with the same user sign different envelopes at height 1
    let mut one = MsgDBHandle::new();
    let mut two = MsgDBHandle::new();
    let kp = add_user(&mut one, 1, "alice");
    add_user(&mut two, 1, "alice");
    let a = compose(&mut one, &kp, b"\"a\"", 10);
    let b = compose(&mut two, &kp, b"\"b\"", 10);
    assert_ne!(a.canonicalized_hash(), b.canonicalized_hash());
    assert_eq!(insert(&mut one, &a), Ok(()));
    assert_eq!(insert(&mut one, &b), Err(SqliteFail::SqliteConstraintUnique));
    assert_eq!(one.pending_count(), 0);
    assert_eq!(one.get_tip_for_user_by_key(kp.x_only_public_key()), Ok(a));
}

#[test]
fn unknown_key_is_not_null() {
    let mut source = MsgDBHandle::new();
    let kp = add_user(&mut source, 1, "alice");
    let e1 = compose(&mut source, &kp, b"1", 10);
    let mut db = MsgDBHandle::new();
    let before = db.clone();
    assert_eq!(insert(&mut db, &e1), Err(SqliteFail::SqliteConstraintNotNull));
    assert_eq!(db, before);
    assert_eq!(db.get_tip_for_user_by_key(kp.x_only_public_key()), Err(NotFound));
    // the first envelope handed in as an ordinary one
    let e0 = source.get_chain(&kp.x_only_public_key()).unwrap()[0].clone();
    assert_eq!(insert(&mut db, &e0), Err(SqliteFail::SqliteConstraintNotNull));
}

#[test]
fn genesis_must_be_at_height_zero_and_list_held_tips() {
    let mut source = MsgDBHandle::new();
    let a = add_user(&mut source, 1, "a");
    let b = add_user(&mut source, 2, "b");
    let e1 = compose(&mut source, &a, b"1", 10);
    let mut db = MsgDBHandle::new();
    assert_eq!(
        db.insert_user_by_genesis_envelope("a".into(), e1.clone().self_authenticate().unwrap()),
        Err(SqliteFail::SqliteConstraintCheck)
    );
    assert_eq!(db.chain_count(), 0);
    // an envelope that lists a tip which is not held waits
    let a0 = source.get_chain(&a.x_only_public_key()).unwrap()[0].clone();
    db.insert_user_by_genesis_envelope("a".into(), a0.self_authenticate().unwrap()).unwrap();
    assert_eq!(e1.header.tips.len(), 1);
    assert_eq!(insert(&mut db, &e1), Err(SqliteFail::SqliteConstraintCheck));
    assert_eq!(db.pending_count(), 1);
    // parked once only
    assert_eq!(insert(&mut db, &e1), Err(SqliteFail::SqliteConstraintCheck));
    assert_eq!(db.pending_count(), 1);
    let b0 = source.get_chain(&b.x_only_public_key()).unwrap()[0].clone();
    db.insert_user_by_genesis_envelope("b".into(), b0.self_authenticate().unwrap()).unwrap();
    assert_eq!(db.attach_tips(), 1);
    assert_eq!(db.get_tip_for_user_by_key(a.x_only_public_key()), Ok(e1));
}

#[test]
fn messages_by_hash_follow_the_order_asked_and_skip_the_unknown() {
    let mut db = MsgDBHandle::new();
    let a = add_user(&mut db, 1, "a");
    let chain = grow(&mut db, &a, 3, 10);
    let h: Vec<[u8; 32]> = chain.iter().map(|e| e.canonicalized_hash()).collect();
    let unknown = [0x5a; 32];
    assert_eq!(
        db.messages_by_hash(&vec![h[2], unknown, h[0], h[2]]),
        vec![chain[2].clone(), chain[0].clone(), chain[2].clone()]
    );
    assert_eq!(db.messages_by_hash(&vec![]), vec![]);
    assert_eq!(db.message_not_exists_it(&vec![h[2], unknown, h[0], [1; 32], unknown]), vec![
        unknown,
        [1; 32],
        unknown
    ]);
    assert_eq!(db.message_not_exists_it(&h), Vec::<[u8; 32]>::new());
}

#[test]
fn nonce_is_handed_out_once() {
    let mut db = MsgDBHandle::new();
    let key = [7u8; 32];
    let public = db.save_nonce_for_user_by_key(secret(5), key).unwrap();
    assert_eq!(public, KeyPair::from_secret_key(secret(5)).unwrap().x_only_public_key());
    assert_eq!(db.get_secret_for_public_nonce(public), Ok(secret(5)));
    let before = db.clone();
    assert_eq!(db.get_secret_for_public_nonce(public), Err(NonceError::AlreadyConsumed));
    assert_eq!(db.get_secret_for_public_nonce(public), Err(NonceError::AlreadyConsumed));
    assert_eq!(db, before);
    assert_eq!(db.get_secret_for_public_nonce([1u8; 32]), Err(NonceError::NotFound));
    assert_eq!(db.save_nonce_for_user_by_key(secret(5), key), Err(NonceError::Duplicate));
    assert_eq!(db.save_nonce_for_user_by_key([0u8; 32], key), Err(NonceError::InvalidSecret));
    assert_eq!(db, before);
    let rows = db.get_nonces();
    assert_eq!(rows.len(), 1);
    assert!(rows[0].consumed);
    assert_eq!(rows[0].key, key);
}

#[test]
fn fresh_nonces_differ() {
    let mut db = MsgDBHandle::new();
    let a = db.generate_fresh_nonce_for_user_by_key([1; 32]).unwrap();
    let b = db.generate_fresh_nonce_for_user_by_key([1; 32]).unwrap();
    assert_ne!(a, b);
    let rows = db.get_nonces();
    assert_eq!(rows.len(), 2);
    assert_eq!(rows[0].public, a);
    assert_eq!(
        KeyPair::from_secret_key(rows[0].secret).unwrap().x_only_public_key(),
        a
    );
    assert!(!rows[0].consumed);
    assert!(db.has_public_nonce(&a));
    assert!(!db.has_public_nonce(&[0; 32]));
}

#[test]
fn composing_is_all_or_nothing() {
    let mut db = MsgDBHandle::new();
    let kp = add_user(&mut db, 1, "alice");
    let before = db.clone();
    // zero is no valid secret for the next nonce
    assert_eq!(
        db.wrap_message_with(b"1".to_vec(), &kp, None, None, 1, [0u8; 32]),
        Err(WrapError::Nonce(NonceError::InvalidSecret))
    );
    // the nonce the chain has committed to cannot be committed to again
    assert_eq!(
        db.wrap_message_with(b"1".to_vec(), &kp, None, None, 1, secret(51)),
        Err(WrapError::Nonce(NonceError::Duplicate))
    );
    assert_eq!(db, before);
    // a payload that is not canonical JSON: spaces, keys out of order, no JSON
    for payload in [&b"{ \"x\": 1 }"[..], &b"{\"b\":1,\"a\":2}"[..], &b"nonsense"[..], &b""[..]] {
        assert_eq!(
            db.wrap_message_with(payload.to_vec(), &kp, None, None, 1, secret(60)),
            Err(WrapError::InvalidPayload)
        );
    }
    assert_eq!(db, before);
    // a user without chain
    let stranger = KeyPair::from_secret_key(secret(9)).unwrap();
    assert_eq!(
        db.wrap_message_with(b"1".to_vec(), &stranger, None, None, 1, secret(60)),
        Err(WrapError::NoTip)
    );
    // a tip whose nonce this database does not know
    let (_, _, foreign) = first_envelope(9);
    assert_eq!(
        db.wrap_message_with(b"1".to_vec(), &stranger, None, Some(foreign), 1, secret(60)),
        Err(WrapError::Nonce(NonceError::NotFound))
    );
    // a tip at the largest height
    let mut top = db.get_tip_for_user_by_key(kp.x_only_public_key()).unwrap();
    top.header.height = u64::MAX;
    assert_eq!(
        db.wrap_message_with(b"1".to_vec(), &kp, None, Some(top), 1, secret(60)),
        Err(WrapError::HeightOverflow)
    );
    assert_eq!(db, before);
    // after all that the chain can still grow
    let e1 = compose(&mut db, &kp, b"1", 60);
    assert_eq!(insert(&mut db, &e1), Ok(()));
    let rows = db.get_nonces();
    assert_eq!(rows.len(), 2);
    assert!(rows[0].consumed);
    assert!(!rows[1].consumed);
    assert_eq!(rows[1].public, e1.header.next_nonce);
    assert_eq!(rows[1].secret, secret(60));
}

#[test]
fn a_given_tip_is_followed_instead_of_the_chain() {
    let mut db = MsgDBHandle::new();
    let kp = add_user(&mut db, 1, "alice");
    let key = kp.x_only_public_key();
    let e0 = db.get_tip_for_user_by_key(key).unwrap();
    let e1 = compose(&mut db, &kp, b"1", 60);
    // not inserted: the chain still ends at height 0, but the given tip is followed
    let e2 = db
        .wrap_message_with(b"2".to_vec(), &kp, None, Some(e1.clone()), 5, secret(61))
        .unwrap()
        .unwrap();
    assert_eq!(e2.header.height, 2);
    assert_eq!(
        e2.header.ancestors,
        Some(Ancestors {
            genesis: e0.canonicalized_hash(),
            prev_msg: e1.canonicalized_hash()
        })
    );
    assert_eq!(insert(&mut db, &e1), Ok(()));
    assert_eq!(insert(&mut db, &e2), Ok(()));
}

#[test]
fn users_are_made_listed_and_moved() {
    let mut db = MsgDBHandle::new();
    let alice = make_new_user(&mut db, "alice".to_string(), None).unwrap();
    let bob = make_new_user(&mut db, "bob".to_string(), Some(b"{\"hello\": \"world\"}")).unwrap();
    assert_ne!(alice, bob);
    assert_eq!(
        list_my_users(&db),
        Ok(vec![(alice, "alice".to_string()), (bob, "bob".to_string())])
    );
    assert_eq!(db.get_keymap().len(), 2);
    assert_eq!(db.get_tip_for_user_by_key(bob).unwrap().msg, b"{\"hello\":\"world\"}".to_vec());
    assert_eq!(make_move_inner(&mut db, alice, b"{\"move\":1}".to_vec()), Ok(()));
    assert_eq!(make_move_inner(&mut db, alice, b"{\"move\":2}".to_vec()), Ok(()));
    let tip = db.get_tip_for_user_by_key(alice).unwrap();
    assert_eq!(tip.header.height, 2);
    assert_eq!(tip.msg, b"{\"move\":2}".to_vec());
    assert_eq!(tip.header.tips.len(), 1);
    assert_eq!(tip.header.tips[0].key, bob);
    assert_eq!(make_move_inner(&mut db, [9; 32], b"1".to_vec()), Err(MoveError::UnknownKey));
    assert_eq!(
        make_move_with(&mut db, bob, b"1".to_vec(), 1, [0; 32]),
        Err(MoveError::Wrap(WrapError::Nonce(NonceError::InvalidSecret)))
    );
    assert_eq!(
        make_new_user(&mut db, "x".to_string(), Some(b"nonsense")),
        Err(MakeUserError::NewUser(attest::users::NewUserError::InvalidPayload))
    );
    assert_eq!(db.chain_count(), 2);
}

#[test]
fn registering_a_user_twice_changes_nothing() {
    let mut db = MsgDBHandle::new();
    let (keypair, next, envelope) = first_envelope(1);
    register_user(&mut db, "alice".into(), &keypair, next, envelope.clone()).unwrap();
    let before = db.clone();
    assert_eq!(
        register_user(&mut db, "alice".into(), &keypair, next, envelope.clone()),
        Err(MakeUserError::Nonce(NonceError::Duplicate))
    );
    assert_eq!(
        register_user(&mut db, "alice".into(), &keypair, secret(77), envelope.clone()),
        Err(MakeUserError::Insert(SqliteFail::SqliteConstraintUnique))
    );
    assert_eq!(
        register_user(&mut db, "alice".into(), &keypair, [0; 32], envelope.clone()),
        Err(MakeUserError::Nonce(NonceError::InvalidSecret))
    );
    let mut broken = envelope;
    broken.msg = b"1".to_vec();
    assert!(matches!(
        register_user(&mut db, "alice".into(), &keypair, secret(78), broken),
        Err(MakeUserError::NotAuthentic(_))
    ));
    assert_eq!(db, before);
    assert!(db.find_keypair(&keypair.x_only_public_key()).is_some());
    assert!(db.find_keypair(&[0; 32]).is_none());
}

#[test]
fn attach_tips_drops_what_can_never_be_attached() {
    // two databases with the same user sign different envelopes at heights 1 and 2
    let mut one = MsgDBHandle::new();
    let mut two = MsgDBHandle::new();
    let kp = add_user(&mut one, 1, "alice");
    add_user(&mut two, 1, "alice");
    let ours = grow(&mut one, &kp, 2, 10);
    let theirs = {
        let a = compose(&mut two, &kp, b"\"other\"", 10);
        assert_eq!(insert(&mut two, &a), Ok(()));
        compose(&mut two, &kp, b"\"other\"", 11)
    };
    let mut db = MsgDBHandle::new();
    add_user(&mut db, 1, "alice");
    // the foreign height 2 arrives first and waits for its predecessor
    assert_eq!(insert(&mut db, &theirs), Err(SqliteFail::SqliteConstraintCheck));
    assert_eq!(insert(&mut db, &ours[0]), Ok(()));
    // it does not follow our height 1: it still waits
    assert_eq!(db.attach_tips(), 0);
    assert_eq!(db.pending_count(), 1);
    // once height 2 is taken it can never be attached
    assert_eq!(insert(&mut db, &ours[1]), Ok(()));
    assert_eq!(db.attach_tips(), 0);
    assert_eq!(db.pending_count(), 0);
    assert_eq!(db.get_chain(&kp.x_only_public_key()), one.get_chain(&kp.x_only_public_key()));
}

#[test]
fn what_is_composed_verifies_and_is_accepted() {
    let mut db = MsgDBHandle::new();
    let alice = add_user(&mut db, 1, "alice");
    let bob = add_user(&mut db, 2, "bob");
    for round in 0..3u8 {
        for (who, seed) in [(&alice, 60u8), (&bob, 80u8)] {
            let e = db
                .wrap_message_with(b"{\"x\":1}".to_vec(), who, None, None, 5, secret(seed + round))
                .unwrap()
                .unwrap();
            let valid = e.clone().self_authenticate().expect("what was composed verifies");
            assert_eq!(db.try_insert_authenticated_envelope(valid), Ok(()));
            assert_eq!(db.get_tip_for_user_by_key(who.x_only_public_key()), Ok(e));
        }
    }
    assert_eq!(db.get_chain(&alice.x_only_public_key()).unwrap().len(), 4);
    assert_eq!(db.get_chain(&bob.x_only_public_key()).unwrap().len(), 4);
}

#[test]
fn a_lone_pending_envelope_becomes_the_tip() {
    let mut peer = MsgDBHandle::new();
    let kp = add_user(&mut peer, 1, "alice");
    let key = kp.x_only_public_key();
    grow(&mut peer, &kp, 3, 60);
    let chain = peer.get_chain(&key).unwrap();
    // heights 0, 1 and 2 are held, height 3 waits
    let mut db = MsgDBHandle::new();
    db.insert_user_by_genesis_envelope("alice".to_string(), chain[0].clone().self_authenticate().unwrap())
        .unwrap();
    assert_eq!(insert(&mut db, &chain[1]), Ok(()));
    assert_eq!(insert(&mut db, &chain[3]), Err(SqliteFail::SqliteConstraintCheck));
    assert_eq!(db.attach_tips(), 0);
    assert_eq!(db.get_pending(), vec![chain[3].clone()]);
    assert_eq!(insert(&mut db, &chain[2]), Ok(()));
    assert_eq!(db.get_tip_for_user_by_key(key), Ok(chain[2].clone()));
    // the tick promotes it
    assert_eq!(db.attach_tips(), 1);
    assert_eq!(db.get_tip_for_user_by_key(key), Ok(chain[3].clone()));
    assert_eq!(db.pending_count(), 0);
    assert_eq!(db.get_chain(&key), Some(chain));
}

#[test]
fn a_fresh_nonce_is_stored_in_an_empty_table() {
    let mut db = MsgDBHandle::new();
    let public = db.generate_fresh_nonce_for_user_by_key([3; 32]).expect("nothing to collide with");
    let rows = db.get_nonces();
    assert_eq!(rows.len(), 1);
    assert_eq!(rows[0].public, public);
    assert_eq!(rows[0].key, [3; 32]);
    assert!(!rows[0].consumed);
    assert_eq!(KeyPair::from_secret_key(rows[0].secret).unwrap().x_only_public_key(), public);
}
