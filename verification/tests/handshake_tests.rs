use attest::client::{AttestationClient, ConnectionPlan, OpenState, ServiceUrl};
use attest::cookies::{GlobalSocketState, COOKIE_JAR_LIMIT};
use attest::handshake::{
    handshake_protocol, handshake_protocol_client, handshake_protocol_server, new_cookie, ClientCommand, ClientEvent, ClientHandshake, ClientStage,
    Handshake, Received, Role, ServerCommand, ServerEvent, ServerHandshake, ServerStage,
};
use attest::protocol::{AttestProtocolError, Message};

fn text(s: &str) -> Received {
    Received::Message(Message::Text(s.as_bytes().to_vec()))
}

fn hex(bytes: &[u8]) -> String {
    bytes.iter().map(|b| format!("{:02x}", b)).collect()
}

/// sha256 of 32 bytes of 0x07
const CHALLENGE_OF_SEVENS: &str = "4bb06f8e4e3a7715d201d573d0aa423762e55dabd61a2c02278fa56cc6d294e0";

/// Drives a server up to the point where it waits for the secret to come back.
fn server_awaiting_cookie(secret: [u8; 32]) -> ServerHandshake {
    let mut server = ServerHandshake::new(secret);
    handshake_protocol_server(&mut server, ServerEvent::Received(text("[\"peer.onion\",46789]"))).unwrap();
    handshake_protocol_server(&mut server, ServerEvent::ConnectionExists(false)).unwrap();
    handshake_protocol_server(&mut server, ServerEvent::Sent(true)).unwrap();
    handshake_protocol_server(&mut server, ServerEvent::Received(text(""))).unwrap();
    handshake_protocol_server(&mut server, ServerEvent::Authenticated(true)).unwrap();
    assert_eq!(server.current_stage(), ServerStage::AwaitCookie);
    server
}

#[test]
fn scenario_f_handshake_success() {
    let me = ServiceUrl("peer.onion".to_string(), 46789);
    // the client's cookie jar and the server's registry
    let mut jar: GlobalSocketState<&'static str> = GlobalSocketState::new();
    let mut registry: AttestationClient<u32> = AttestationClient::new();

    let (mut client, first) = match handshake_protocol(Role::Client, true, &me).unwrap() {
        Handshake::Client(h, c) => (h, c),
        _ => panic!("a client was asked for"),
    };
    let mut server = match handshake_protocol(Role::Server, false, &me).unwrap() {
        Handshake::Server(h) => h,
        _ => panic!("a server was asked for"),
    };

    // 1. the client names its service
    let identity = match first {
        ClientCommand::SendText(t) => t,
        _ => panic!(),
    };
    assert_eq!(identity, b"[\"peer.onion\",46789]".to_vec());
    assert!(matches!(handshake_protocol_client(&mut client, ClientEvent::Sent(true)), Ok(ClientCommand::Receive)));
    let asked = match handshake_protocol_server(&mut server, ServerEvent::Received(Received::Message(Message::Text(identity))))
        .unwrap()
    {
        ServerCommand::CheckConnection(s) => s,
        _ => panic!(),
    };
    assert_eq!(asked, me);
    // 2. the server sends the hash of its secret
    let exists = registry.conn_already_exists(&asked).is_some();
    let challenge = match handshake_protocol_server(&mut server, ServerEvent::ConnectionExists(exists)).unwrap() {
        ServerCommand::SendText(t) => t,
        _ => panic!(),
    };
    assert_eq!(challenge.len(), 64);
    assert!(matches!(handshake_protocol_server(&mut server, ServerEvent::Sent(true)), Ok(ServerCommand::Receive)));
    // 3. the client expects the secret and acknowledges
    let (expected, ack) = match handshake_protocol_client(&mut client, ClientEvent::Received(Received::Message(Message::Text(challenge.clone()))))
        .unwrap()
    {
        ClientCommand::Acknowledge { challenge, text } => (challenge, text),
        _ => panic!(),
    };
    assert!(ack.is_empty());
    assert_eq!(hex(&expected).into_bytes(), challenge);
    jar.expect_a_cookie(expected, "the waiting client", 1000);
    assert!(matches!(handshake_protocol_client(&mut client, ClientEvent::Sent(true)), Ok(ClientCommand::AwaitCookie(10))));
    // 4. the server delivers the secret by the other way
    let (secret, host, port) = match handshake_protocol_server(&mut server, ServerEvent::Received(Received::Message(Message::Text(ack)))).unwrap() {
        ServerCommand::Authenticate { secret, host, port } => (secret, host, port),
        _ => panic!(),
    };
    assert_eq!((host.as_str(), port), ("peer.onion", 46789));
    assert_eq!(jar.add_a_cookie(secret), Some("the waiting client"));
    assert_eq!(jar.len(), 0);
    assert!(matches!(
        handshake_protocol_server(&mut server, ServerEvent::Authenticated(true)),
        Ok(ServerCommand::ReceiveWithin(2))
    ));
    // the client sends the secret back
    let back = match handshake_protocol_client(&mut client, ClientEvent::Cookie(secret)).unwrap() {
        ClientCommand::SendText(t) => t,
        _ => panic!(),
    };
    assert_eq!(back, hex(&secret).into_bytes());
    assert!(matches!(handshake_protocol_client(&mut client, ClientEvent::Sent(true)), Ok(ClientCommand::Established)));
    assert_eq!(client.current_stage(), ClientStage::Done);
    let to_register = match handshake_protocol_server(&mut server, ServerEvent::Received(Received::Message(Message::Text(back))))
        .unwrap()
    {
        ServerCommand::Register(s) => s,
        _ => panic!(),
    };
    let newly =
        matches!(registry.conn_already_exists_or_create(&to_register, 1u32, ()), OpenState::Newly(1, ()));
    match handshake_protocol_server(&mut server, ServerEvent::Registered(newly)).unwrap() {
        ServerCommand::Established(s) => assert_eq!(s, me),
        _ => panic!(),
    }
    assert_eq!(server.current_stage(), ServerStage::Done);
    assert_eq!(registry.conn_already_exists(&me), Some(1));
}

#[test]
fn the_challenge_is_the_hex_of_the_hash_of_the_secret() {
    let mut server = ServerHandshake::new([7u8; 32]);
    handshake_protocol_server(&mut server, ServerEvent::Received(text("[\"127.0.0.1\",1]"))).unwrap();
    match handshake_protocol_server(&mut server, ServerEvent::ConnectionExists(false)).unwrap() {
        ServerCommand::SendText(t) => assert_eq!(String::from_utf8(t).unwrap(), CHALLENGE_OF_SEVENS),
        _ => panic!(),
    }
}

#[test]
fn non_empty_ack_is_non_zero_sync() {
    let mut server = ServerHandshake::new([7u8; 32]);
    handshake_protocol_server(&mut server, ServerEvent::Received(text("[\"127.0.0.1\",1]"))).unwrap();
    handshake_protocol_server(&mut server, ServerEvent::ConnectionExists(false)).unwrap();
    handshake_protocol_server(&mut server, ServerEvent::Sent(true)).unwrap();
    assert_eq!(
        handshake_protocol_server(&mut server, ServerEvent::Received(text("x"))).err(),
        Some(AttestProtocolError::NonZeroSync)
    );
    assert_eq!(server.current_stage(), ServerStage::Failed);
    // a failed handshake stays failed
    assert_eq!(
        handshake_protocol_server(&mut server, ServerEvent::Received(text(""))).err(),
        Some(AttestProtocolError::InvalidSetup)
    );
}

#[test]
fn wrong_cookie_is_a_mismatch() {
    let mut server = server_awaiting_cookie([7u8; 32]);
    assert_eq!(
        handshake_protocol_server(&mut server, ServerEvent::Received(text(&hex(&[8u8; 32])))).err(),
        Some(AttestProtocolError::CookieMissMatch)
    );
    // upper case is not what was sent either
    let mut server = server_awaiting_cookie([0xab; 32]);
    assert_eq!(
        handshake_protocol_server(&mut server, ServerEvent::Received(text(&"AB".repeat(32)))).err(),
        Some(AttestProtocolError::CookieMissMatch)
    );
    let mut server = server_awaiting_cookie([0xab; 32]);
    assert!(matches!(
        handshake_protocol_server(&mut server, ServerEvent::Received(text(&"ab".repeat(32)))),
        Ok(ServerCommand::Register(_))
    ));
}

#[test]
fn no_cookie_in_time_is_a_timeout() {
    let mut server = server_awaiting_cookie([7u8; 32]);
    assert_eq!(handshake_protocol_server(&mut server, ServerEvent::TimedOut).err(), Some(AttestProtocolError::TimedOut));
    assert_eq!(server.current_stage(), ServerStage::Failed);
}

#[test]
fn other_server_failures() {
    // the transport closes, fails, or brings something that is no text
    let mut server = ServerHandshake::new([7u8; 32]);
    assert_eq!(
        handshake_protocol_server(&mut server, ServerEvent::Received(Received::Closed)).err(),
        Some(AttestProtocolError::SocketClosed)
    );
    let mut server = ServerHandshake::new([7u8; 32]);
    assert_eq!(
        handshake_protocol_server(&mut server, ServerEvent::Received(Received::Failed("reset".into()))).err(),
        Some(AttestProtocolError::SocketError("reset".into()))
    );
    let mut server = ServerHandshake::new([7u8; 32]);
    assert_eq!(
        handshake_protocol_server(&mut server, ServerEvent::Received(Received::Message(Message::Binary(vec![])))).err(),
        Some(AttestProtocolError::IncorrectMessageOwned(
            "Incorrect Message Type Binary, expected Text Expected Text Message to initiate protocol"
                .into()
        ))
    );
    // the identity is no pair of host and port
    let mut server = ServerHandshake::new([7u8; 32]);
    assert!(matches!(
        handshake_protocol_server(&mut server, ServerEvent::Received(text("{\"host\":1}"))),
        Err(AttestProtocolError::JsonError(_))
    ));
    // a session with the service is open already
    let mut server = ServerHandshake::new([7u8; 32]);
    handshake_protocol_server(&mut server, ServerEvent::Received(text("[\"h\",1]"))).unwrap();
    assert_eq!(
        handshake_protocol_server(&mut server, ServerEvent::ConnectionExists(true)).err(),
        Some(AttestProtocolError::AlreadyConnected)
    );
    // the challenge cannot be sent
    let mut server = ServerHandshake::new([7u8; 32]);
    handshake_protocol_server(&mut server, ServerEvent::Received(text("[\"h\",1]"))).unwrap();
    handshake_protocol_server(&mut server, ServerEvent::ConnectionExists(false)).unwrap();
    assert_eq!(
        handshake_protocol_server(&mut server, ServerEvent::Sent(false)).err(),
        Some(AttestProtocolError::SocketClosed)
    );
    // the secret cannot be delivered
    let mut server = ServerHandshake::new([7u8; 32]);
    handshake_protocol_server(&mut server, ServerEvent::Received(text("[\"h\",1]"))).unwrap();
    handshake_protocol_server(&mut server, ServerEvent::ConnectionExists(false)).unwrap();
    handshake_protocol_server(&mut server, ServerEvent::Sent(true)).unwrap();
    handshake_protocol_server(&mut server, ServerEvent::Received(text(""))).unwrap();
    assert_eq!(
        handshake_protocol_server(&mut server, ServerEvent::Authenticated(false)).err(),
        Some(AttestProtocolError::FailedToAuthenticate)
    );
    // somebody else registered the service in the meantime
    let mut server = server_awaiting_cookie([7u8; 32]);
    handshake_protocol_server(&mut server, ServerEvent::Received(text(&hex(&[7u8; 32])))).unwrap();
    assert_eq!(
        handshake_protocol_server(&mut server, ServerEvent::Registered(false)).err(),
        Some(AttestProtocolError::AlreadyConnected)
    );
    // an event out of turn
    let mut server = ServerHandshake::new([7u8; 32]);
    assert_eq!(
        handshake_protocol_server(&mut server, ServerEvent::Authenticated(true)).err(),
        Some(AttestProtocolError::InvalidSetup)
    );
}

#[test]
fn client_failure_paths() {
    let me = ServiceUrl("127.0.0.1".to_string(), 46789);
    let start = || ClientHandshake::start(&me).unwrap().0;
    let mut c = start();
    assert_eq!(handshake_protocol_client(&mut c, ClientEvent::Sent(false)).err(), Some(AttestProtocolError::SocketClosed));
    assert_eq!(c.current_stage(), ClientStage::Failed);

    let mut c = start();
    handshake_protocol_client(&mut c, ClientEvent::Sent(true)).unwrap();
    assert_eq!(
        handshake_protocol_client(&mut c, ClientEvent::Received(text("not hex"))).err(),
        Some(AttestProtocolError::InvalidChallengeHashString)
    );
    let mut c = start();
    handshake_protocol_client(&mut c, ClientEvent::Sent(true)).unwrap();
    assert_eq!(
        handshake_protocol_client(&mut c, ClientEvent::Received(text(&"0g".repeat(32)))).err(),
        Some(AttestProtocolError::InvalidChallengeHashString)
    );
    let mut c = start();
    handshake_protocol_client(&mut c, ClientEvent::Sent(true)).unwrap();
    assert_eq!(
        handshake_protocol_client(&mut c, ClientEvent::Received(Received::Closed)).err(),
        Some(AttestProtocolError::SocketClosed)
    );
    // upper case hex is read as well
    let mut c = start();
    handshake_protocol_client(&mut c, ClientEvent::Sent(true)).unwrap();
    match handshake_protocol_client(&mut c, ClientEvent::Received(text(&"AbCd".repeat(16)))).unwrap() {
        ClientCommand::Acknowledge { challenge, text } => {
            assert_eq!(challenge, [0xab, 0xcd].repeat(16)[..]);
            assert_eq!(text, Vec::<u8>::new());
        }
        _ => panic!(),
    }
    // the acknowledgement cannot be sent
    assert_eq!(handshake_protocol_client(&mut c, ClientEvent::Sent(false)).err(), Some(AttestProtocolError::TimedOut));

    let awaiting = || {
        let mut c = start();
        handshake_protocol_client(&mut c, ClientEvent::Sent(true)).unwrap();
        handshake_protocol_client(&mut c, ClientEvent::Received(text(&"00".repeat(32)))).unwrap();
        handshake_protocol_client(&mut c, ClientEvent::Sent(true)).unwrap();
        c
    };
    assert_eq!(
        handshake_protocol_client(&mut awaiting(), ClientEvent::TimedOut).err(),
        Some(AttestProtocolError::TimedOut)
    );
    assert_eq!(
        handshake_protocol_client(&mut awaiting(), ClientEvent::CookieChannelDropped).err(),
        Some(AttestProtocolError::TimedOut)
    );
    let mut c = awaiting();
    handshake_protocol_client(&mut c, ClientEvent::Cookie([1; 32])).unwrap();
    assert_eq!(handshake_protocol_client(&mut c, ClientEvent::Sent(false)).err(), Some(AttestProtocolError::SocketClosed));
    assert_eq!(
        handshake_protocol_client(&mut awaiting(), ClientEvent::Sent(true)).err(),
        Some(AttestProtocolError::InvalidSetup)
    );
}

#[test]
fn role_and_channel_must_fit() {
    let me = ServiceUrl("127.0.0.1".to_string(), 1);
    assert!(matches!(
        handshake_protocol(Role::Server, true, &me),
        Err(AttestProtocolError::InvalidSetup)
    ));
    assert!(matches!(
        handshake_protocol(Role::Client, false, &me),
        Err(AttestProtocolError::InvalidSetup)
    ));
    assert_ne!(new_cookie(), new_cookie());
}

#[test]
fn cookie_jar_resolves_by_hash_and_replaces() {
    let mut jar: GlobalSocketState<u32> = GlobalSocketState::new();
    let challenge_of = |secret: [u8; 32]| {
        let mut s = ServerHandshake::new(secret);
        handshake_protocol_server(&mut s, ServerEvent::Received(text("[\"h\",1]"))).unwrap();
        match handshake_protocol_server(&mut s, ServerEvent::ConnectionExists(false)).unwrap() {
            ServerCommand::SendText(t) => attest::bytes::from_hex(&t).unwrap(),
            _ => panic!(),
        }
    };
    let (a, b) = (challenge_of([1; 32]), challenge_of([2; 32]));
    jar.expect_a_cookie(a, 10, 0);
    jar.expect_a_cookie(b, 20, 0);
    jar.expect_a_cookie(a, 11, 5);
    assert_eq!(jar.len(), 2);
    assert_eq!(jar.add_a_cookie([3; 32]), None);
    assert_eq!(jar.len(), 2);
    assert_eq!(jar.add_a_cookie([1; 32]), Some(11));
    assert_eq!(jar.add_a_cookie([1; 32]), None);
    assert_eq!(jar.add_a_cookie([2; 32]), Some(20));
    assert_eq!(jar.len(), 0);
}

fn challenge(i: u32) -> [u8; 32] {
    let mut c = [0u8; 32];
    c[..4].copy_from_slice(&i.to_be_bytes());
    c
}

#[test]
fn cookie_jar_is_tidied_up_when_crowded() {
    // up to the limit and one more, nothing is thrown out
    let mut jar: GlobalSocketState<u32> = GlobalSocketState::new();
    for i in 0..=(COOKIE_JAR_LIMIT as u32) {
        jar.expect_a_cookie(challenge(i + 1), i, 1000 + i as u64);
    }
    assert_eq!(jar.len(), COOKIE_JAR_LIMIT + 1);
    // crowded: what is older than 20 s goes; here everything but the last three
    let now = 1000 + 98 + 20000;
    jar.expect_a_cookie(challenge(5000), 5000, now);
    assert_eq!(jar.len(), 3);
    // crowded with fresh expectations only: the one with the smallest hash goes
    let mut jar: GlobalSocketState<u32> = GlobalSocketState::new();
    for i in 0..=(COOKIE_JAR_LIMIT as u32) {
        jar.expect_a_cookie(challenge(i + 1), i, 1000);
    }
    jar.expect_a_cookie(challenge(0), 9, 1001);
    assert_eq!(jar.len(), COOKIE_JAR_LIMIT + 1);
    jar.expect_a_cookie(challenge(7), 9, 1001);
    assert_eq!(jar.len(), COOKIE_JAR_LIMIT);
}

#[test]
fn registry_keeps_one_connection_per_service() {
    let a = ServiceUrl("a.onion".to_string(), 1);
    let b = ServiceUrl("a.onion".to_string(), 2);
    let mut registry: AttestationClient<u32> = AttestationClient::new();
    assert_eq!(registry.conn_already_exists(&a), None);
    assert!(matches!(registry.get_conn(&a), ConnectionPlan::Connect));
    assert!(matches!(
        registry.conn_already_exists_or_create(&a, 1, "rx1"),
        OpenState::Newly(1, "rx1")
    ));
    assert!(matches!(
        registry.conn_already_exists_or_create(&a, 2, "rx2"),
        OpenState::Already(1)
    ));
    assert!(matches!(
        registry.conn_already_exists_or_create(&b, 3, "rx3"),
        OpenState::Newly(3, "rx3")
    ));
    assert!(matches!(registry.get_conn(&a), ConnectionPlan::Ready(1)));
    assert_eq!(registry.conn_already_exists(&b), Some(3));
    // a closed connection is replaced
    registry.set_closed(&a, true);
    assert_eq!(registry.conn_already_exists(&a), None);
    assert_eq!(registry.conn_already_exists(&b), Some(3));
    assert!(matches!(
        registry.conn_already_exists_or_create(&a, 4, "rx4"),
        OpenState::Newly(4, "rx4")
    ));
    assert_eq!(registry.conn_already_exists(&a), Some(4));
    registry.set_closed(&ServiceUrl("nobody".into(), 1), true);
    assert_eq!(registry.conn_already_exists(&a), Some(4));
    assert!(a.matches(&a.duplicate()));
    assert!(!a.matches(&b));
}
