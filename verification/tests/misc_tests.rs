use attest::bytes::{
    compare_bytes, from_hex, push_decimal, push_hex, same_bytes, sort_dedup, to_hex, Order,
};
use attest::game::{
    CoinLockup, EntityID, GameBoard, GameMove, Heartbeat, MoveEnvelope, NftPtr, TokenBase,
    TokenPointer, TransferError, Unsanitized,
};
use attest::json::{canonical_payload, check_canonical};
use attest::mining_game::{
    coerce_censorship_proof, coerce_degrade, coerce_host_key, coerce_players_lose,
    coerce_players_win, CensorshipProof, CompilationError, ExtractedMoveEnvelopes, GameEnd,
    GameKernel, GameStarted, HostKey, Payout, QuorumStep,
};

#[test]
fn hex_and_decimal() {
    let mut id = [0u8; 32];
    for (i, b) in id.iter_mut().enumerate() {
        *b = (i * 9) as u8;
    }
    let text = to_hex(&id);
    assert_eq!(
        String::from_utf8(text.clone()).unwrap(),
        "0009121b242d363f48515a636c757e879099a2abb4bdc6cfd8e1eaf3fc050e17"
    );
    assert_eq!(from_hex(&text), Some(id));
    assert_eq!(from_hex(&text[1..]), None);
    assert_eq!(from_hex(b"zz"), None);
    let mut out = b"x".to_vec();
    push_hex(&mut out, &[0x00, 0x0f, 0xa0, 0xff]);
    assert_eq!(out, b"x000fa0ff".to_vec());
    for (n, text) in [
        (0u64, "0"),
        (9, "9"),
        (10, "10"),
        (12345, "12345"),
        (u64::MAX, "18446744073709551615"),
    ] {
        let mut out = vec![];
        push_decimal(&mut out, n);
        assert_eq!(String::from_utf8(out).unwrap(), text);
    }
}

#[test]
fn comparing_and_sorting_identifiers() {
    let mut a = [0u8; 32];
    let mut b = [0u8; 32];
    assert_eq!(compare_bytes(&a, &b), Order::Equal);
    assert!(same_bytes(&a, &b));
    b[31] = 1;
    assert_eq!(compare_bytes(&a, &b), Order::Less);
    assert_eq!(compare_bytes(&b, &a), Order::Greater);
    assert!(!same_bytes(&a, &b));
    a[0] = 1;
    assert_eq!(compare_bytes(&a, &b), Order::Greater);
    let list = vec![[3u8; 32], [1; 32], [2; 32], [3; 32], [1; 32], a, b];
    let mut expected = list.clone();
    expected.sort();
    expected.dedup();
    assert_eq!(sort_dedup(&list), expected);
    assert_eq!(sort_dedup(&vec![]), Vec::<[u8; 32]>::new());
}

#[test]
fn payloads_are_brought_into_canonical_form() {
    assert_eq!(canonical_payload(None), Some(b"null".to_vec()));
    assert_eq!(
        canonical_payload(Some(b" { \"b\" : [ 1 , 2 ] , \"a\" : \"x\" } ")),
        Some(b"{\"a\":\"x\",\"b\":[1,2]}".to_vec())
    );
    assert_eq!(canonical_payload(Some(b"[")), None);
    assert_eq!(canonical_payload(Some(b"0.5")), None);
    assert!(check_canonical(b"{\"a\":\"x\",\"b\":[1,2]}"));
    assert!(!check_canonical(b"{\"b\":1,\"a\":2}"));
    assert!(!check_canonical(b"{ }"));
    assert!(!check_canonical(b"nope"));
}

#[test]
fn ledger_transfers() {
    let (alice, bob) = (EntityID(1), EntityID(2));
    let mut ledger = TokenBase::new();
    assert_eq!(ledger.balance_check(&alice), 0);
    assert_eq!(ledger.mint(&alice, 100), Ok(()));
    ledger.transaction();
    assert_eq!(ledger.transfer(&alice, &bob, 30), Ok(()));
    assert_eq!(ledger.transfer(&alice, &bob, 71), Err(TransferError::InsufficientFunds));
    assert_eq!(ledger.transfer(&alice, &alice, 70), Ok(()));
    ledger.end_transaction();
    assert_eq!((ledger.balance_check(&alice), ledger.balance_check(&bob)), (70, 30));
    assert_eq!(ledger.mint(&bob, u128::MAX), Err(TransferError::Overflow));
    assert_eq!(ledger.mint(&bob, u128::MAX - 30), Ok(()));
    assert_eq!(ledger.transfer(&alice, &bob, 1), Err(TransferError::Overflow));
    assert_eq!((ledger.balance_check(&alice), ledger.balance_check(&bob)), (70, u128::MAX));
}

#[test]
fn coin_lockup_holds_and_releases() {
    let mut game = GameBoard::new(2);
    let owner = game.allocate();
    let coin = TokenPointer(0);
    assert!(game.mint(coin, owner, 1_000));
    CoinLockup::lockup(&mut game, owner, coin, 400, 50);
    let mut lockup = game.callback(0).expect("scheduled");
    assert_eq!(lockup, CoinLockup { id: NftPtr(EntityID(1)), time_when_free: 50, asset: coin });
    assert_eq!(lockup.time(), 50);
    assert_eq!(lockup.purpose(), "CoinLockup Release Trigger");
    assert_eq!(game.balance_check(coin, &owner), 600);
    assert_eq!(game.balance_check(coin, &lockup.id.0), 400);
    assert_eq!(game.balance_check(TokenPointer(1), &lockup.id.0), 0);
    // too early: nothing moves
    game.set_time(49);
    lockup.action(&mut game);
    assert_eq!(game.balance_check(coin, &owner), 600);
    // the time has come
    game.set_time(50);
    assert_eq!(game.now(), 50);
    lockup.action(&mut game);
    assert_eq!(game.balance_check(coin, &owner), 1_000);
    assert_eq!(game.balance_check(coin, &lockup.id.0), 0);
    // a second release moves nothing
    lockup.action(&mut game);
    assert_eq!(game.balance_check(coin, &owner), 1_000);
    assert!(game.callback(1).is_none());
}

#[test]
fn coin_lockup_beyond_the_balance_locks_nothing() {
    let mut game = GameBoard::new(1);
    let owner = game.allocate();
    let coin = TokenPointer(0);
    assert!(game.mint(coin, owner, 10));
    CoinLockup::lockup(&mut game, owner, coin, 11, 5);
    let mut lockup = game.callback(0).expect("scheduled all the same");
    assert_eq!(game.balance_check(coin, &owner), 10);
    assert_eq!(game.balance_check(coin, &lockup.id.0), 0);
    game.set_time(5);
    lockup.action(&mut game);
    assert_eq!(game.balance_check(coin, &owner), 10);
}

#[test]
fn move_envelopes_compare_by_content() {
    let a = MoveEnvelope { d: Unsanitized(GameMove::Heartbeat(Heartbeat())), sequence: 0, time: 123 };
    let b = MoveEnvelope { d: Unsanitized(GameMove::Heartbeat(Heartbeat())), sequence: 1, time: 123 };
    assert_eq!(a, a.clone());
    assert_ne!(a, b);
}

fn game(players: u8) -> GameStarted {
    GameStarted {
        kernel: GameKernel {
            game_host: attest::crypto::KeyPair::from_secret_key([9; 32]).unwrap().x_only_public_key(),
            players: (1..=players).map(|b| ([b; 32], 1000 * b as u64)).collect(),
            timeout: 1_000_000,
        },
    }
}

#[test]
fn quorum_degrades_step_by_step() {
    let g = game(3);
    assert_eq!(g.all_players_signed(), (3, vec![[1; 32], [2; 32], [3; 32]]));
    let step = |parties, wait_blocks, host_signs| QuorumStep { parties, wait_blocks, host_signs };
    assert_eq!(g.degraded_quorum(), vec![
        step(3, 1, true),
        step(3, 6, false),
        step(2, 12, true),
        step(2, 18, false),
        step(1, 24, true),
        step(1, 30, false),
    ]);
    assert_eq!(game(1).degraded_quorum(), vec![step(1, 1, true), step(1, 6, false)]);
}

#[test]
fn cheating_host_and_abandoned_game_pay_the_stakes_back() {
    let g = game(2);
    let refunds = vec![
        Payout { key: [1; 32], amount: 1000 },
        Payout { key: [2; 32], amount: 2000 },
    ];
    assert_eq!(g.degrade(Some(())), Some(refunds.clone()));
    assert_eq!(g.degrade(None), None);
    assert_eq!(g.host_cheat_equivocate(None), Ok(None));
    assert_eq!(g.host_cheat_equivocate(Some(HostKey([9; 32]))), Ok(Some(refunds)));
    let refused = || {
        CompilationError::Custom(
            "The Secret Key Provided does not match the Public Key of the Game Host".to_string(),
        )
    };
    assert_eq!(g.host_cheat_equivocate(Some(HostKey([8; 32]))), Err(refused()));
    assert_eq!(g.host_cheat_equivocate(Some(HostKey([0; 32]))), Err(refused()));
    assert_eq!(g.host_cheat_censor(None), Ok(None));
    assert_eq!(
        g.host_cheat_censor(Some(CensorshipProof {})),
        Err(CompilationError::TerminateWith("Not Yet Supported".to_string()))
    );
}

#[test]
fn game_endings_are_told_apart() {
    let bad = |what: &str| {
        CompilationError::ContinuationCoercion(format!("Failed to coerce GameEnd into {}", what))
    };
    assert_eq!(
        coerce_host_key(Some(GameEnd::HostCheatEquivocate(HostKey([1; 32])))),
        Ok(Some(HostKey([1; 32])))
    );
    assert_eq!(coerce_host_key(Some(GameEnd::Degrade)), Err(bad("HostKey")));
    assert_eq!(coerce_host_key(None), Ok(None));
    assert_eq!(
        coerce_censorship_proof(Some(GameEnd::HostCheatCensor(CensorshipProof {}))),
        Ok(Some(CensorshipProof {}))
    );
    assert_eq!(coerce_censorship_proof(Some(GameEnd::Degrade)), Err(bad("CensorshipProof")));
    assert_eq!(coerce_censorship_proof(None), Ok(None));
    let moves = || ExtractedMoveEnvelopes(vec![]);
    assert_eq!(coerce_players_win(Some(GameEnd::PlayersWin(moves()))), Ok(Some(moves())));
    assert_eq!(coerce_players_win(Some(GameEnd::PlayersLose(moves()))), Err(bad("PlayersWin")));
    assert_eq!(coerce_players_win(None), Ok(None));
    assert_eq!(coerce_players_lose(Some(GameEnd::PlayersLose(moves()))), Ok(Some(moves())));
    assert_eq!(
        coerce_players_lose(Some(GameEnd::PlayersWin(moves()))),
        Err(bad("ExtractedMoveEnvelopes"))
    );
    assert_eq!(coerce_players_lose(None), Ok(None));
    assert_eq!(coerce_degrade(Some(GameEnd::Degrade)), Ok(Some(())));
    assert_eq!(coerce_degrade(Some(GameEnd::PlayersWin(moves()))), Err(bad("Degrade")));
    assert_eq!(coerce_degrade(None), Ok(None));
}
