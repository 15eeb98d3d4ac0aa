use attest::crypto::KeyPair;
use attest::database::MsgDBHandle;
use attest::envelope::Envelope;
use attest::protocol::{
    AttestProtocolError, AttestRequest, AttestResponse, AttestSocketProtocol, LatestTips,
    LatestTipsResponse, Message, Outcome, Post, PostResponse, ResponseCode, SpecificTips,
    SpecificTipsResponse, Tips, MAX_MESSAGE_DEFECIT,
};
use attest::handshake::Received;
use attest::session::{
    answer, fetch_latest_tips, fetch_specific_tips, post_envelope, read_frame, run_protocol,
    PeerFrame, Delivery, InternalRequest,
    Session, SessionAction, SessionEvent, Shutdown,
};
use attest::users::{new_user_with, register_user};

type TestSession = Session<&'static str, &'static str, &'static str>;

fn user(db: &mut MsgDBHandle, b: u8) -> KeyPair {
    let keypair = KeyPair::from_secret_key([b; 32]).unwrap();
    let envelope =
        new_user_with(&keypair, [b + 100; 32], [b + 50; 32], 1000, b"null".to_vec()).unwrap();
    register_user(db, "user".to_string(), &keypair, [b + 50; 32], envelope).unwrap();
    keypair
}

fn next(db: &mut MsgDBHandle, keypair: &KeyPair, fresh: u8) -> Envelope {
    db.wrap_message_with(b"1".to_vec(), keypair, None, None, 2000, [fresh; 32]).unwrap().unwrap()
}

fn latest(name: &'static str) -> SessionEvent<&'static str, &'static str, &'static str> {
    SessionEvent::Internal(InternalRequest::LatestTips(LatestTips {}, name))
}

#[test]
fn response_codes() {
    assert_eq!(AttestRequest::LatestTips(LatestTips {}).response_code_of(), ResponseCode(0));
    assert_eq!(
        AttestRequest::SpecificTips(SpecificTips { tips: Tips { tips: vec![] } })
            .response_code_of(),
        ResponseCode(1)
    );
    assert_eq!(AttestRequest::Post(Post { envelopes: vec![] }).response_code_of(), ResponseCode(2));
    assert_eq!(
        AttestResponse::LatestTips(LatestTipsResponse(vec![])).response_code_of(),
        ResponseCode(0)
    );
    assert_eq!(
        AttestResponse::SpecificTips(SpecificTipsResponse(vec![])).response_code_of(),
        ResponseCode(1)
    );
    assert_eq!(AttestResponse::Post(PostResponse(vec![])).response_code_of(), ResponseCode(2));
    assert_eq!(
        AttestRequest::from(LatestTips {}).into_protocol_and_log(9),
        AttestSocketProtocol::Request(9, AttestRequest::LatestTips(LatestTips {}))
    );
    assert_eq!(
        AttestRequest::from(Post { envelopes: vec![] }),
        AttestRequest::Post(Post { envelopes: vec![] })
    );
    assert_eq!(
        AttestRequest::from(SpecificTips { tips: Tips { tips: vec![[1; 32]] } }),
        AttestRequest::SpecificTips(SpecificTips { tips: Tips { tips: vec![[1; 32]] } })
    );
    assert_eq!(
        AttestResponse::Post(PostResponse(vec![Outcome { success: true }]))
            .into_protocol_and_log(4),
        AttestSocketProtocol::Response(
            4,
            AttestResponse::Post(PostResponse(vec![Outcome { success: true }]))
        )
    );
}

#[test]
fn only_text_names_what_came_instead() {
    assert_eq!(Message::Text(b"abc".to_vec()).only_text("x"), Ok(b"abc".to_vec()));
    assert_eq!(
        Message::Binary(vec![1]).only_text("as a json encoded messages"),
        Err(AttestProtocolError::IncorrectMessageOwned(
            "Incorrect Message Type Binary, expected Text as a json encoded messages".to_string()
        ))
    );
    assert_eq!(
        Message::Ping(vec![]).only_text("for challenge ack"),
        Err(AttestProtocolError::IncorrectMessageOwned(
            "Incorrect Message Type Ping, expected Text for challenge ack".to_string()
        ))
    );
    assert_eq!(
        Message::Pong(vec![]).only_text(""),
        Err(AttestProtocolError::IncorrectMessageOwned(
            "Incorrect Message Type Pong, expected Text ".to_string()
        ))
    );
    assert_eq!(
        Message::Close.only_text("x"),
        Err(AttestProtocolError::IncorrectMessageOwned(
            "Incorrect Message Type Close, expected Text x".to_string()
        ))
    );
}

#[test]
fn request_and_response_are_matched_by_number_and_kind() {
    let mut db = MsgDBHandle::new();
    let mut session: TestSession = Session::new();
    assert_eq!(session.current_seq(), 0);
    // turn 1: a request of this side goes out under the number of the turn
    let sent = run_protocol(&mut session, &mut db, latest("first")).unwrap();
    let n = session.current_seq();
    assert_eq!(n, 1);
    match sent {
        SessionAction::Send(frame) => assert_eq!(
            frame,
            AttestSocketProtocol::Request(n, AttestRequest::LatestTips(LatestTips {}))
        ),
        _ => panic!("expected a frame to send"),
    }
    assert_eq!(session.outstanding(), 1);
    // the answer with the same number and kind is delivered to the one who asked
    let got = run_protocol(&mut session, 
            &mut db,
            SessionEvent::PeerMessage(AttestSocketProtocol::Response(
                n,
                AttestResponse::LatestTips(LatestTipsResponse(vec![])),
            )),
        )
        .unwrap();
    match got {
        SessionAction::Deliver(Delivery::LatestTips(who, LatestTipsResponse(list))) => {
            assert_eq!(who, "first");
            assert!(list.is_empty());
        }
        _ => panic!("expected a delivery"),
    }
    assert_eq!(session.outstanding(), 0);
    // the same answer again answers nothing
    assert_eq!(
        run_protocol(&mut session, 
                &mut db,
                SessionEvent::PeerMessage(AttestSocketProtocol::Response(
                    n,
                    AttestResponse::LatestTips(LatestTipsResponse(vec![])),
                )),
            )
            .err(),
        Some(AttestProtocolError::UnrequestedResponse)
    );
}

#[test]
fn a_response_of_another_kind_fails_the_session() {
    let mut db = MsgDBHandle::new();
    let mut session: TestSession = Session::new();
    run_protocol(&mut session, &mut db, latest("first")).unwrap();
    let n = session.current_seq();
    let r = run_protocol(&mut session, 
        &mut db,
        SessionEvent::PeerMessage(AttestSocketProtocol::Response(
            n,
            AttestResponse::SpecificTips(SpecificTipsResponse(vec![])),
        )),
    );
    assert_eq!(r.err(), Some(AttestProtocolError::ResponseTypeIncorrect));

    let mut session: TestSession = Session::new();
    run_protocol(&mut session, 
            &mut db,
            SessionEvent::Internal(InternalRequest::Post(Post { envelopes: vec![] }, "poster")),
        )
        .unwrap();
    let n = session.current_seq();
    let r = session.handle_message_from_peer(
        &mut db,
        AttestSocketProtocol::Response(n, AttestResponse::LatestTips(LatestTipsResponse(vec![]))),
    );
    assert_eq!(r.err(), Some(AttestProtocolError::ResponseTypeIncorrect));
    let r = session.handle_response(77, AttestResponse::Post(PostResponse(vec![])));
    assert_eq!(r.err(), Some(AttestProtocolError::UnrequestedResponse));
}

#[test]
fn backpressure() {
    let mut db = MsgDBHandle::new();
    let mut session: TestSession = Session::new();
    let mut numbers = vec![];
    for i in 0..MAX_MESSAGE_DEFECIT {
        assert!(session.accepts_internal(), "request {} is taken", i);
        run_protocol(&mut session, &mut db, latest("x")).unwrap();
        numbers.push(session.current_seq());
    }
    assert_eq!(session.outstanding(), 10);
    assert!(!session.accepts_internal());
    // the peer's own requests are still served
    let served = run_protocol(&mut session, 
            &mut db,
            SessionEvent::PeerMessage(AttestSocketProtocol::Request(
                5,
                AttestRequest::LatestTips(LatestTips {}),
            )),
        )
        .unwrap();
    assert!(matches!(
        served,
        SessionAction::Send(AttestSocketProtocol::Response(5, AttestResponse::LatestTips(_)))
    ));
    assert!(!session.accepts_internal());
    // one answer is enough to take requests again
    run_protocol(&mut session, 
            &mut db,
            SessionEvent::PeerMessage(AttestSocketProtocol::Response(
                numbers[3],
                AttestResponse::LatestTips(LatestTipsResponse(vec![])),
            )),
        )
        .unwrap();
    assert_eq!(session.outstanding(), 9);
    assert!(session.accepts_internal());
    run_protocol(&mut session, &mut db, latest("x")).unwrap();
    assert!(!session.accepts_internal());
}

#[test]
fn a_session_ends_in_good_order() {
    let mut db = MsgDBHandle::new();
    let mut session: TestSession = Session::new();
    match run_protocol(&mut session, &mut db, SessionEvent::PeerGone).unwrap() {
        SessionAction::Quit(why) => {
            assert_eq!(why, Shutdown::PeerDisconnected);
            assert_eq!(why.reason(), "Peer Disconnected from us");
        }
        _ => panic!("expected the session to stop"),
    }
    match run_protocol(&mut session, &mut db, SessionEvent::InternalClosed).unwrap() {
        SessionAction::Quit(why) => {
            assert_eq!(why, Shutdown::InternalDropped);
            assert_eq!(why.reason(), "Exiting...");
        }
        _ => panic!("expected the session to stop"),
    }
    assert_eq!(session.current_seq(), 2);
}

#[test]
fn latest_tips_are_answered_from_the_database() {
    let mut db = MsgDBHandle::new();
    let a = user(&mut db, 1);
    let b = user(&mut db, 2);
    let frame = fetch_latest_tips(&db, 12);
    let mut expected = vec![
        db.get_tip_for_user_by_key(a.x_only_public_key()).unwrap(),
        db.get_tip_for_user_by_key(b.x_only_public_key()).unwrap(),
    ];
    expected.sort_by_key(|e| e.header.key);
    assert_eq!(
        frame,
        AttestSocketProtocol::Response(
            12,
            AttestResponse::LatestTips(LatestTipsResponse(expected))
        )
    );
}

#[test]
fn specific_tips_are_sorted_and_deduplicated_before_the_lookup() {
    let mut db = MsgDBHandle::new();
    let a = user(&mut db, 1);
    let e0 = db.get_tip_for_user_by_key(a.x_only_public_key()).unwrap();
    let e1 = next(&mut db, &a, 10);
    db.try_insert_authenticated_envelope(e1.clone().self_authenticate().unwrap()).unwrap();
    let (h0, h1) = (e0.canonicalized_hash(), e1.canonicalized_hash());
    let frame = fetch_specific_tips(Tips { tips: vec![h1, [0xff; 32], h0, h1, h0] }, &db, 3);
    let mut expected = vec![(h0, e0), (h1, e1)];
    expected.sort_by_key(|p| p.0);
    let expected: Vec<Envelope> = expected.into_iter().map(|p| p.1).collect();
    assert_eq!(
        frame,
        AttestSocketProtocol::Response(
            3,
            AttestResponse::SpecificTips(SpecificTipsResponse(expected))
        )
    );
}

#[test]
fn scenario_e_duplicate_insertion() {
    let mut source = MsgDBHandle::new();
    let a = user(&mut source, 1);
    let e1 = next(&mut source, &a, 10);
    let mut db = MsgDBHandle::new();
    user(&mut db, 1);
    let first = post_envelope(vec![e1.clone()], &mut db, 1);
    assert_eq!(
        first,
        AttestSocketProtocol::Response(
            1,
            AttestResponse::Post(PostResponse(vec![Outcome { success: true }]))
        )
    );
    let before = db.clone();
    let second = post_envelope(vec![e1.clone()], &mut db, 2);
    assert_eq!(
        second,
        AttestSocketProtocol::Response(
            2,
            AttestResponse::Post(PostResponse(vec![Outcome { success: false }]))
        )
    );
    assert_eq!(db, before);
    // both in one post
    let mut db = MsgDBHandle::new();
    user(&mut db, 1);
    let both = answer(AttestRequest::Post(Post { envelopes: vec![e1.clone(), e1] }), &mut db, 3);
    assert_eq!(
        both,
        AttestSocketProtocol::Response(
            3,
            AttestResponse::Post(PostResponse(vec![
                Outcome { success: true },
                Outcome { success: false }
            ]))
        )
    );
}

#[test]
fn a_post_is_taken_up_to_the_first_envelope_that_does_not_verify() {
    let mut source = MsgDBHandle::new();
    let a = user(&mut source, 1);
    let e1 = next(&mut source, &a, 10);
    source.try_insert_authenticated_envelope(e1.clone().self_authenticate().unwrap()).unwrap();
    let e2 = next(&mut source, &a, 11);
    let mut forged = e2.clone();
    forged.msg = b"2".to_vec();
    let mut db = MsgDBHandle::new();
    user(&mut db, 1);
    let frame = post_envelope(vec![e1.clone(), forged, e2.clone()], &mut db, 8);
    assert_eq!(
        frame,
        AttestSocketProtocol::Response(
            8,
            AttestResponse::Post(PostResponse(vec![Outcome { success: true }]))
        )
    );
    assert_eq!(db.get_tip_for_user_by_key(a.x_only_public_key()), Ok(e1));
    // an envelope that is refused does not stop the ones behind it
    let mut db = MsgDBHandle::new();
    user(&mut db, 1);
    let e1 = source.get_chain(&a.x_only_public_key()).unwrap()[1].clone();
    let frame = post_envelope(vec![e2.clone(), e1.clone(), e2], &mut db, 9);
    assert_eq!(
        frame,
        AttestSocketProtocol::Response(
            9,
            AttestResponse::Post(PostResponse(vec![
                Outcome { success: false },
                Outcome { success: true },
                Outcome { success: true }
            ]))
        )
    );
    assert_eq!(db.get_tip_for_user_by_key(a.x_only_public_key()).unwrap().header.height, 2);
    // the copy that was parked has nothing left to attach and is dropped
    assert_eq!(db.pending_count(), 1);
    assert_eq!(db.attach_tips(), 0);
    assert_eq!(db.pending_count(), 0);
}

#[test]
fn pings_and_pongs_are_passed_over() {
    assert!(matches!(
        read_frame(Received::Message(Message::Text(b"{}".to_vec()))),
        Ok(PeerFrame::Text(t)) if t == b"{}".to_vec()
    ));
    assert!(matches!(read_frame(Received::Message(Message::Ping(vec![1]))), Ok(PeerFrame::Ignore)));
    assert!(matches!(read_frame(Received::Message(Message::Pong(vec![]))), Ok(PeerFrame::Ignore)));
    assert!(matches!(read_frame(Received::Message(Message::Close)), Ok(PeerFrame::Gone)));
    assert!(matches!(read_frame(Received::Closed), Ok(PeerFrame::Gone)));
    assert_eq!(
        read_frame(Received::Failed("broken pipe".to_string())).err(),
        Some(AttestProtocolError::SocketError("broken pipe".to_string()))
    );
    assert_eq!(
        read_frame(Received::Message(Message::Binary(vec![]))).err(),
        Some(AttestProtocolError::IncorrectMessageOwned(
            "Incorrect Message Type Binary, expected Text as a json encoded messages".to_string()
        ))
    );
}
