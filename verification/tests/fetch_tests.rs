use attest::crypto::KeyPair;
use attest::database::{MsgDBHandle, SqliteFail};
use attest::envelope::{Envelope, TipEntry};
use attest::fetch::{
    envelope_processor, fetch_from_peer, handle_envelope, latest_tip_fetcher,
    missing_envelope_fetcher, nickname_for, tip_fetch_delay, FetchTask, MissingFetcherAction,
    TipFetcherAction, ATTACH_TIPS_PERIOD_SECS,
};
use attest::protocol::{
    AttestRequest, AttestResponse, AttestSocketProtocol, LatestTips, LatestTipsResponse, Outcome,
    SpecificTipsResponse, Tips,
};
use attest::server::{
    cors_header, get_newest_tip_handler, get_tip_handler, handle_socket_symmetric, post_message,
    run, Method, Route, SocketAction, SocketFrame, Unauthorized,
};
use attest::session::fetch_specific_tips;
use attest::users::{new_user_with, register_user};

fn user(db: &mut MsgDBHandle, b: u8) -> KeyPair {
    let keypair = KeyPair::from_secret_key([b; 32]).unwrap();
    let envelope =
        new_user_with(&keypair, [b + 100; 32], [b + 50; 32], 1000, b"null".to_vec()).unwrap();
    register_user(db, "user".to_string(), &keypair, [b + 50; 32], envelope).unwrap();
    keypair
}

fn grow(db: &mut MsgDBHandle, keypair: &KeyPair, n: u8, seed: u8) -> Vec<Envelope> {
    let mut out = vec![];
    for i in 0..n {
        let e = db
            .wrap_message_with(b"1".to_vec(), keypair, None, None, 2000, [seed + i; 32])
            .unwrap()
            .unwrap();
        db.try_insert_authenticated_envelope(e.clone().self_authenticate().unwrap()).unwrap();
        out.push(e);
    }
    out
}

#[test]
fn scenario_d_missing_dependency_fetch() {
    // the peer has heights 0..5
    let mut peer = MsgDBHandle::new();
    let kp = user(&mut peer, 1);
    let key = kp.x_only_public_key();
    grow(&mut peer, &kp, 5, 10);
    let chain = peer.get_chain(&key).unwrap();
    // this node has heights 0..3
    let mut db = MsgDBHandle::new();
    let first = handle_envelope(chain[..4].to_vec(), &mut db, true, 7).unwrap();
    assert!(first.is_empty());
    assert_eq!(db.get_chain(&key).unwrap().len(), 4);
    assert_eq!(db.locate_user(&key), Ok("user-7".to_string()));
    // the peer sends its tip
    let e5 = chain[5].clone();
    let h4 = chain[4].canonicalized_hash();
    assert_eq!(
        db.clone().try_insert_authenticated_envelope(e5.clone().self_authenticate().unwrap()),
        Err(SqliteFail::SqliteConstraintCheck)
    );
    let missing = handle_envelope(vec![e5.clone()], &mut db, true, 8).unwrap();
    assert_eq!(missing, vec![h4]);
    assert_eq!(db.pending_count(), 1);
    assert_eq!(db.get_chain(&key).unwrap().len(), 4);
    // the resolver asks for what is missing
    let request = match missing_envelope_fetcher(Some(missing)) {
        MissingFetcherAction::Request(r) => r,
        MissingFetcherAction::Stop => panic!("there is something to ask for"),
    };
    assert_eq!(request.tips.tips, vec![h4]);
    let supplied = match fetch_specific_tips(request.tips, &peer, 1) {
        AttestSocketProtocol::Response(1, AttestResponse::SpecificTips(SpecificTipsResponse(l))) => l,
        other => panic!("unexpected answer {:?}", other),
    };
    assert_eq!(supplied, vec![chain[4].clone()]);
    // the answer is processed, and the tick attaches the tip
    assert_eq!(envelope_processor(supplied, &mut db, true), Ok(None));
    assert_eq!(db.get_chain(&key).unwrap().len(), 5);
    assert_eq!(db.attach_tips(), 1);
    assert_eq!(db.get_chain(&key), Some(chain));
    assert_eq!(db.pending_count(), 0);
    assert_eq!(ATTACH_TIPS_PERIOD_SECS, 30);
}

#[test]
fn unsolicited_tips_make_the_node_ask_for_the_genesis() {
    let mut peer = MsgDBHandle::new();
    let a = user(&mut peer, 1);
    let b = user(&mut peer, 2);
    grow(&mut peer, &b, 1, 20);
    let chain_a = {
        grow(&mut peer, &a, 2, 10);
        peer.get_chain(&a.x_only_public_key()).unwrap()
    };
    let b_tip = peer.get_tip_for_user_by_key(b.x_only_public_key()).unwrap();
    let e2 = chain_a[2].clone();
    let genesis = chain_a[0].canonicalized_hash();
    let prev = chain_a[1].canonicalized_hash();

    let mut expect_all = vec![genesis, prev, b_tip.canonicalized_hash()];
    expect_all.sort();
    let mut expect_some = vec![prev, b_tip.canonicalized_hash()];
    expect_some.sort();

    // the chain is not known at all
    let mut db = MsgDBHandle::new();
    assert_eq!(handle_envelope(vec![e2.clone()], &mut db, true, 1), Ok(expect_all));
    assert_eq!(db.pending_count(), 0);
    let mut db = MsgDBHandle::new();
    assert_eq!(handle_envelope(vec![e2.clone()], &mut db, false, 1), Ok(expect_some.clone()));
    match envelope_processor(vec![e2.clone()], &mut db, false) {
        Ok(Some(Tips { tips })) => assert_eq!(tips, expect_some),
        other => panic!("there is something to ask for, not {:?}", other),
    }
    // what is held is not asked for
    let mut db = MsgDBHandle::new();
    let missing = handle_envelope(vec![chain_a[0].clone(), e2.clone()], &mut db, true, 1);
    assert_eq!(missing, Ok(expect_some));
    assert_eq!(db.pending_count(), 1);
    // an envelope that does not verify is passed over
    let mut forged = e2;
    forged.header.sent_time_ms += 1;
    let before = db.clone();
    assert_eq!(handle_envelope(vec![forged], &mut db, true, 1), Ok(vec![]));
    assert_eq!(db, before);
}

#[test]
fn a_whole_chain_in_one_batch() {
    let mut peer = MsgDBHandle::new();
    let kp = user(&mut peer, 1);
    grow(&mut peer, &kp, 3, 10);
    let chain = peer.get_chain(&kp.x_only_public_key()).unwrap();
    let mut db = MsgDBHandle::new();
    assert_eq!(handle_envelope(chain.clone(), &mut db, true, 99), Ok(vec![]));
    assert_eq!(db.get_chain(&kp.x_only_public_key()), Some(chain.clone()));
    // again: nothing changes, nothing is asked for
    let before = db.clone();
    assert_eq!(handle_envelope(chain, &mut db, true, 100), Ok(vec![]));
    assert_eq!(db, before);
}

#[test]
fn a_refused_first_envelope_stops_the_batch() {
    let mut peer = MsgDBHandle::new();
    let a = user(&mut peer, 1);
    let b = user(&mut peer, 2);
    let first_a = peer.get_chain(&a.x_only_public_key()).unwrap()[0].clone();
    let first_b = peer.get_chain(&b.x_only_public_key()).unwrap()[0].clone();
    // a first envelope that lists a tip which nobody holds
    let kp = KeyPair::from_secret_key([9; 32]).unwrap();
    let mut odd = new_user_with(&kp, [109; 32], [59; 32], 1000, b"null".to_vec()).unwrap();
    odd.header.tips = vec![TipEntry { key: [7; 32], height: 3, hash: [8; 32] }];
    odd.sign_with(&kp, [109; 32]).unwrap();
    assert!(odd.clone().self_authenticate().is_ok());

    let mut db = MsgDBHandle::new();
    let batch = vec![first_a.clone(), odd.clone(), first_b.clone()];
    assert_eq!(handle_envelope(batch, &mut db, true, 5), Err(SqliteFail::SqliteConstraintCheck));
    // what came before it was processed, what came after it was not
    assert_eq!(db.chain_count(), 1);
    assert!(db.get_chain(&a.x_only_public_key()).is_some());
    let before = db.clone();
    assert_eq!(
        envelope_processor(vec![odd], &mut db, true),
        Err(SqliteFail::SqliteConstraintCheck)
    );
    assert_eq!(db, before);
    // a chain that is there already does not stop the batch
    assert_eq!(handle_envelope(vec![first_a, first_b], &mut db, true, 6), Ok(vec![]));
    assert_eq!(db.chain_count(), 2);
}

#[test]
fn nickname_carries_the_time() {
    assert_eq!(nickname_for(0), "user-0");
    assert_eq!(nickname_for(1666666666123), "user-1666666666123");
    assert_eq!(nickname_for(u64::MAX), "user-18446744073709551615");
}

#[test]
fn when_one_task_ends_the_other_two_are_stopped() {
    assert_eq!(
        fetch_from_peer(FetchTask::EnvelopeProcessor),
        (FetchTask::LatestTipFetcher, FetchTask::MissingEnvelopeFetcher)
    );
    assert_eq!(
        fetch_from_peer(FetchTask::LatestTipFetcher),
        (FetchTask::EnvelopeProcessor, FetchTask::MissingEnvelopeFetcher)
    );
    assert_eq!(
        fetch_from_peer(FetchTask::MissingEnvelopeFetcher),
        (FetchTask::EnvelopeProcessor, FetchTask::LatestTipFetcher)
    );
}

#[test]
fn tip_fetcher_turns() {
    assert!(matches!(latest_tip_fetcher(None, 0), TipFetcherAction::Request(_)));
    match latest_tip_fetcher(Some(Ok(vec![])), 12345) {
        TipFetcherAction::Forward(list, ms) => {
            assert!(list.is_empty());
            assert_eq!(ms, 15345);
        }
        _ => panic!(),
    }
    assert!(matches!(latest_tip_fetcher(Some(Err(())), 0), TipFetcherAction::Stop));
    assert_eq!(tip_fetch_delay(0), 15000);
    assert_eq!(tip_fetch_delay(999), 15999);
    assert_eq!(tip_fetch_delay(1000), 15000);
    assert_eq!(tip_fetch_delay(u64::MAX), 15000 + u64::MAX % 1000);
    assert!(matches!(missing_envelope_fetcher(None), MissingFetcherAction::Stop));
    // with the jitter drawn at random
    assert!(matches!(attest::fetch::next_tip_fetch(None), TipFetcherAction::Request(_)));
    assert!(matches!(attest::fetch::next_tip_fetch(Some(Err(()))), TipFetcherAction::Stop));
    let drawn: Vec<u64> = (0..20)
        .map(|_| match attest::fetch::next_tip_fetch(Some(Ok(vec![]))) {
            TipFetcherAction::Forward(list, ms) => {
                assert!(list.is_empty());
                ms
            }
            _ => panic!(),
        })
        .collect();
    assert!(drawn.iter().all(|ms| (15000..16000).contains(ms)));
    assert!(drawn.iter().any(|ms| *ms != drawn[0]), "the jitter varies");
}

#[test]
fn http_routes() {
    assert_eq!(run(Method::Get, &"/newest_tips".to_string()), Some(Route::NewestTips));
    assert_eq!(run(Method::Post, &"/tips".to_string()), Some(Route::Tips));
    assert_eq!(run(Method::Post, &"/msg".to_string()), Some(Route::Msg));
    assert_eq!(run(Method::Get, &"/socket".to_string()), Some(Route::Socket));
    assert_eq!(run(Method::Post, &"/authenticate".to_string()), Some(Route::Authenticate));
    assert_eq!(run(Method::Get, &"/authenticate".to_string()), None);
    assert_eq!(run(Method::Get, &"/msg".to_string()), None);
    assert_eq!(run(Method::Post, &"/newest_tips".to_string()), None);
    assert_eq!(run(Method::Other, &"/tips".to_string()), None);
    assert_eq!(run(Method::Get, &"/".to_string()), None);
    assert_eq!(cors_header(), ("Access-Control-Allow-Origin", "*"));
}

#[test]
fn http_handlers() {
    let mut peer = MsgDBHandle::new();
    let kp = user(&mut peer, 1);
    let chain = {
        grow(&mut peer, &kp, 2, 10);
        peer.get_chain(&kp.x_only_public_key()).unwrap()
    };
    assert_eq!(get_newest_tip_handler(&peer), (200, vec![chain[2].clone()]));
    let (h0, h2) = (chain[0].canonicalized_hash(), chain[2].canonicalized_hash());
    let mut expected = vec![(h0, chain[0].clone()), (h2, chain[2].clone())];
    expected.sort_by_key(|p| p.0);
    let expected: Vec<Envelope> = expected.into_iter().map(|p| p.1).collect();
    assert_eq!(
        get_tip_handler(&peer, Tips { tips: vec![h2, h0, [9; 32], h2] }),
        (200, expected)
    );

    let mut db = MsgDBHandle::new();
    user(&mut db, 1);
    assert_eq!(
        post_message(&mut db, vec![chain[1].clone(), chain[1].clone(), chain[2].clone()]),
        Ok((200, vec![
            Outcome { success: true },
            Outcome { success: false },
            Outcome { success: true }
        ]))
    );
    // one envelope that does not verify refuses the whole post
    let mut db = MsgDBHandle::new();
    user(&mut db, 1);
    let before = db.clone();
    let mut forged = chain[2].clone();
    forged.msg = b"9".to_vec();
    let refused = post_message(&mut db, vec![chain[1].clone(), forged]);
    assert_eq!(refused, Err(Unauthorized));
    assert_eq!(refused.unwrap_err().status(), 401);
    assert_eq!(Unauthorized.reason(), "Envelope not valid. Only valid data should be sent.");
    assert_eq!(db, before);
}

#[test]
fn one_directional_socket() {
    let mut db = MsgDBHandle::new();
    user(&mut db, 1);
    let tips = db.get_tips_for_all_users();
    match handle_socket_symmetric(
        &mut db,
        SocketFrame::Binary(Some(AttestSocketProtocol::Request(
            4,
            AttestRequest::LatestTips(LatestTips {}),
        ))),
    ) {
        Ok(SocketAction::Reply(frame)) => assert_eq!(
            frame,
            AttestSocketProtocol::Response(4, AttestResponse::LatestTips(LatestTipsResponse(tips)))
        ),
        _ => panic!("a request is answered"),
    }
    assert!(matches!(handle_socket_symmetric(&mut db, SocketFrame::Ping), Ok(SocketAction::Ignore)));
    assert!(matches!(handle_socket_symmetric(&mut db, SocketFrame::Pong), Ok(SocketAction::Ignore)));
    assert!(matches!(handle_socket_symmetric(&mut db, SocketFrame::Text), Ok(SocketAction::Close)));
    assert!(matches!(handle_socket_symmetric(&mut db, SocketFrame::Close), Ok(SocketAction::Close)));
    assert!(matches!(handle_socket_symmetric(&mut db, SocketFrame::Failed), Ok(SocketAction::Close)));
    assert!(matches!(
        handle_socket_symmetric(
            &mut db,
            SocketFrame::Binary(Some(AttestSocketProtocol::Response(
                1,
                AttestResponse::LatestTips(LatestTipsResponse(vec![]))
            )))
        ),
        Ok(SocketAction::Close)
    ));
    assert!(matches!(
        handle_socket_symmetric(&mut db, SocketFrame::Binary(None)),
        Err(attest::protocol::AttestProtocolError::JsonError(_))
    ));
}
