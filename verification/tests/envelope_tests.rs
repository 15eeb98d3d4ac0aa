use attest::crypto::KeyPair;
use attest::envelope::{
    Ancestors, AuthenticationError, CheckPoint, Envelope, Header, SigningError, TipEntry, Unsigned,
};
use attest::users::{generate_new_user, new_user_with, NewUserError};

fn sample(height: u64, ancestors: Option<Ancestors>, tips: Vec<TipEntry>) -> Envelope {
    Envelope {
        header: Header {
            key: [0x11; 32],
            next_nonce: [0x22; 32],
            ancestors,
            tips,
            height,
            sent_time_ms: 1234567890123,
            unsigned: Unsigned { signature: None },
            checkpoints: vec![],
        },
        msg: b"{\"x\":1}".to_vec(),
    }
}

#[test]
fn it_works() {
    let result = 2 + 2;
    assert_eq!(result, 4);
}

#[test]
fn canonical_text_of_a_first_envelope() {
    let e = sample(0, None, vec![]);
    let expected = format!(
        "{{\"header\":{{\"ancestors\":null,\"checkpoints\":[],\"height\":0,\"key\":\"{}\",\"next_nonce\":\"{}\",\"sent_time_ms\":1234567890123,\"tips\":[],\"unsigned\":{{}}}},\"msg\":{{\"x\":1}}}}",
        "11".repeat(32),
        "22".repeat(32)
    );
    assert_eq!(String::from_utf8(e.canonicalize()).unwrap(), expected);
}

#[test]
fn canonical_text_with_ancestors_tips_and_checkpoints() {
    let mut e = sample(
        7,
        Some(Ancestors { genesis: [0xaa; 32], prev_msg: [0xbb; 32] }),
        vec![
            TipEntry { key: [0x01; 32], height: 10, hash: [0x0f; 32] },
            TipEntry { key: [0x02; 32], height: 0, hash: [0xf0; 32] },
        ],
    );
    e.header.checkpoints = vec![
        CheckPoint { block: [0xcd; 32], height: 700000 },
        CheckPoint { block: [0xef; 32], height: 18446744073709551615 },
    ];
    let expected = format!(
        "{{\"header\":{{\"ancestors\":{{\"genesis\":\"{}\",\"prev_msg\":\"{}\"}},\"checkpoints\":[[\"{}\",700000],[\"{}\",18446744073709551615]],\"height\":7,\"key\":\"{}\",\"next_nonce\":\"{}\",\"sent_time_ms\":1234567890123,\"tips\":[[\"{}\",10,\"{}\"],[\"{}\",0,\"{}\"]],\"unsigned\":{{}}}},\"msg\":{{\"x\":1}}}}",
        "aa".repeat(32),
        "bb".repeat(32),
        "cd".repeat(32),
        "ef".repeat(32),
        "11".repeat(32),
        "22".repeat(32),
        "01".repeat(32),
        "0f".repeat(32),
        "02".repeat(32),
        "f0".repeat(32),
    );
    assert_eq!(String::from_utf8(e.canonicalize()).unwrap(), expected);
}

#[test]
fn canonical_hash_is_the_sha256_of_the_canonical_text() {
    let e = sample(0, None, vec![]);
    // sha256 of the text checked in `canonical_text_of_a_first_envelope`.
    let expected = "8f90f4dfe926b0aac848f8a2b16d46ed3d523cdd267bd24713e3186d0380b1c6";
    let hash = e.canonicalized_hash();
    let hex: String = hash.iter().map(|b| format!("{:02x}", b)).collect();
    assert_eq!(hex, expected);
    assert_eq!(e.get_genesis_hash(), hash);
}

#[test]
fn hash_does_not_depend_on_the_signature() {
    let mut e = sample(0, None, vec![]);
    let before = e.canonicalized_hash();
    e.header.unsigned.signature = Some([7u8; 64]);
    assert_eq!(e.canonicalized_hash(), before);
    let copy = e.clone();
    assert_eq!(copy.canonicalized_hash(), before);
    assert_eq!(copy, e);
}

#[test]
fn genesis_hash_of_a_later_envelope_is_the_one_it_names() {
    let e = sample(3, Some(Ancestors { genesis: [0xaa; 32], prev_msg: [0xbb; 32] }), vec![]);
    assert_eq!(e.get_genesis_hash(), [0xaa; 32]);
}

#[test]
fn generated_user_verifies() {
    let (keypair, _next, envelope) = generate_new_user(None).unwrap();
    assert_eq!(envelope.header.height, 0);
    assert_eq!(envelope.header.ancestors, None);
    assert!(envelope.header.tips.is_empty());
    assert_eq!(envelope.msg, b"null".to_vec());
    assert_eq!(envelope.header.key, keypair.x_only_public_key());
    let sig = envelope.header.unsigned.signature.expect("signed");
    assert_ne!(sig, [0u8; 64]);
    let authentic = envelope.clone().self_authenticate().expect("verifies");
    assert_eq!(authentic.inner_ref(), &envelope);
    assert_eq!(authentic.hash(), envelope.canonicalized_hash());
}

#[test]
fn generated_user_takes_a_payload_in_canonical_form() {
    let (_, _, envelope) = generate_new_user(Some(b"{ \"b\" : 1, \"a\" : [true, null] }")).unwrap();
    assert_eq!(envelope.msg, b"{\"a\":[true,null],\"b\":1}".to_vec());
    assert!(envelope.self_authenticate().is_ok());
}

#[test]
fn generated_user_refuses_what_is_not_json() {
    assert_eq!(generate_new_user(Some(b"{not json")).err(), Some(NewUserError::InvalidPayload));
    // canonical JSON has no fractions
    assert_eq!(generate_new_user(Some(b"1.5")).err(), Some(NewUserError::InvalidPayload));
}

#[test]
fn signing_with_fixed_secrets_is_deterministic_and_verifies() {
    let keypair = KeyPair::from_secret_key([3u8; 32]).unwrap();
    let a = new_user_with(&keypair, [5u8; 32], [9u8; 32], 42, b"null".to_vec()).unwrap();
    let b = new_user_with(&keypair, [5u8; 32], [9u8; 32], 42, b"null".to_vec()).unwrap();
    assert_eq!(a, b);
    assert!(a.clone().self_authenticate().is_ok());
    // the signature starts with the public nonce of the secret nonce
    let nonce_public = KeyPair::from_secret_key([5u8; 32]).unwrap().x_only_public_key();
    let sig = a.header.unsigned.signature.unwrap();
    assert_eq!(&sig[..32], &nonce_public[..]);
    // the envelope commits to the public nonce of the next secret
    let next_public = KeyPair::from_secret_key([9u8; 32]).unwrap().x_only_public_key();
    assert_eq!(a.header.next_nonce, next_public);
    // another nonce gives another signature
    let c = new_user_with(&keypair, [6u8; 32], [9u8; 32], 42, b"null".to_vec()).unwrap();
    assert_ne!(c.header.unsigned.signature, a.header.unsigned.signature);
    assert!(c.self_authenticate().is_ok());
}

#[test]
fn flipping_any_signed_part_breaks_the_signature() {
    let keypair = KeyPair::from_secret_key([3u8; 32]).unwrap();
    let good = new_user_with(&keypair, [5u8; 32], [9u8; 32], 42, b"{\"x\":1}".to_vec()).unwrap();
    assert!(good.clone().self_authenticate().is_ok());

    let mut e = good.clone();
    e.msg[5] ^= 1;
    assert_eq!(e.self_authenticate().err(), Some(AuthenticationError::BadSignature));

    let mut e = good.clone();
    e.header.sent_time_ms += 1;
    assert_eq!(e.self_authenticate().err(), Some(AuthenticationError::BadSignature));

    let mut e = good.clone();
    e.header.next_nonce[31] ^= 0x80;
    assert_eq!(e.self_authenticate().err(), Some(AuthenticationError::BadSignature));

    let mut e = good.clone();
    e.header.checkpoints.push(CheckPoint { block: [0; 32], height: 1 });
    assert_eq!(e.self_authenticate().err(), Some(AuthenticationError::BadSignature));

    for bit in [0usize, 100, 255, 256, 400, 511] {
        let mut e = good.clone();
        let mut sig = e.header.unsigned.signature.unwrap();
        sig[bit / 8] ^= 1 << (bit % 8);
        e.header.unsigned.signature = Some(sig);
        assert_eq!(e.self_authenticate().err(), Some(AuthenticationError::BadSignature));
    }

    // a key that is not the signer's
    let other = KeyPair::from_secret_key([4u8; 32]).unwrap();
    let mut e = good.clone();
    e.header.key = other.x_only_public_key();
    assert_eq!(e.self_authenticate().err(), Some(AuthenticationError::BadSignature));
}

#[test]
fn malformed_headers_are_told_apart_from_bad_signatures() {
    let keypair = KeyPair::from_secret_key([3u8; 32]).unwrap();
    let good = new_user_with(&keypair, [5u8; 32], [9u8; 32], 42, b"null".to_vec()).unwrap();

    // no signature
    let mut e = good.clone();
    e.header.unsigned.signature = None;
    assert_eq!(e.self_authenticate().err(), Some(AuthenticationError::MalformedHeader));

    // height 0 with ancestors
    let mut e = good.clone();
    e.header.ancestors = Some(Ancestors { genesis: [1; 32], prev_msg: [1; 32] });
    assert_eq!(e.self_authenticate().err(), Some(AuthenticationError::MalformedHeader));

    // height above 0 without ancestors
    let mut e = good.clone();
    e.header.height = 1;
    assert_eq!(e.self_authenticate().err(), Some(AuthenticationError::MalformedHeader));

    // tips out of order, and a key listed twice
    let mut e = good.clone();
    e.header.tips = vec![
        TipEntry { key: [2; 32], height: 0, hash: [0; 32] },
        TipEntry { key: [1; 32], height: 0, hash: [0; 32] },
    ];
    assert_eq!(e.self_authenticate().err(), Some(AuthenticationError::MalformedHeader));
    let mut e = good.clone();
    e.header.tips = vec![
        TipEntry { key: [1; 32], height: 0, hash: [0; 32] },
        TipEntry { key: [1; 32], height: 1, hash: [1; 32] },
    ];
    assert_eq!(e.self_authenticate().err(), Some(AuthenticationError::MalformedHeader));
}

#[test]
fn signing_errors() {
    let keypair = KeyPair::from_secret_key([3u8; 32]).unwrap();
    let other = KeyPair::from_secret_key([4u8; 32]).unwrap();
    let mut e = sample(0, None, vec![]);
    e.header.key = keypair.x_only_public_key();
    let before = e.clone();
    assert_eq!(e.sign_with(&other, [5u8; 32]), Err(SigningError::KeyMismatch));
    assert_eq!(e, before);
    // zero is no valid secret nonce
    assert_eq!(e.sign_with(&keypair, [0u8; 32]), Err(SigningError::InvalidNonce));
    assert_eq!(e, before);
    assert_eq!(e.sign_with(&keypair, [5u8; 32]), Ok(()));
    assert!(e.header.unsigned.signature.is_some());
    assert!(e.self_authenticate().is_ok());
}

#[test]
fn key_pairs_come_from_valid_secrets_only() {
    assert!(KeyPair::from_secret_key([0u8; 32]).is_none());
    assert!(KeyPair::from_secret_key([0xff; 32]).is_none());
    let mut one = [0u8; 32];
    one[31] = 1;
    let kp = KeyPair::from_secret_key(one).unwrap();
    // the x coordinate of the generator
    let g: [u8; 32] = [
        0x79, 0xbe, 0x66, 0x7e, 0xf9, 0xdc, 0xbb, 0xac, 0x55, 0xa0, 0x62, 0x95, 0xce, 0x87, 0x0b,
        0x07, 0x02, 0x9b, 0xfc, 0xdb, 0x2d, 0xce, 0x28, 0xd9, 0x59, 0xf2, 0x81, 0x5b, 0x16, 0xf8,
        0x17, 0x98,
    ];
    assert_eq!(kp.x_only_public_key(), g);
    assert_eq!(kp.secret_bytes(), one);
    let a = KeyPair::generate();
    let b = KeyPair::generate();
    assert_ne!(a.secret_bytes(), b.secret_bytes());
    assert_eq!(
        KeyPair::from_secret_key(a.secret_bytes()).unwrap().x_only_public_key(),
        a.x_only_public_key()
    );
}

#[test]
fn canonical_text_is_canonical_json() {
    let mut e = sample(
        7,
        Some(Ancestors { genesis: [0xaa; 32], prev_msg: [0xbb; 32] }),
        vec![
            TipEntry { key: [0x01; 32], height: 10, hash: [0x0f; 32] },
            TipEntry { key: [0x02; 32], height: 0, hash: [0xf0; 32] },
        ],
    );
    e.header.checkpoints = vec![CheckPoint { block: [0xcd; 32], height: 700000 }];
    assert!(attest::json::check_canonical(&e.canonicalize()));
    assert!(attest::json::check_canonical(&sample(0, None, vec![]).canonicalize()));
}

#[test]
fn an_envelope_rebuilt_from_its_fields_has_the_same_hash() {
    let keypair = KeyPair::from_secret_key([3u8; 32]).unwrap();
    let e = new_user_with(&keypair, [5u8; 32], [9u8; 32], 42, b"{\"x\":1}".to_vec()).unwrap();
    let rebuilt = Envelope {
        header: Header {
            key: e.header.key,
            next_nonce: e.header.next_nonce,
            ancestors: e.header.ancestors,
            tips: e.header.tips.iter().copied().collect(),
            height: e.header.height,
            sent_time_ms: e.header.sent_time_ms,
            unsigned: Unsigned { signature: e.header.unsigned.signature },
            checkpoints: e.header.checkpoints.clone(),
        },
        msg: e.msg.to_vec(),
    };
    assert_eq!(rebuilt.canonicalize(), e.canonicalize());
    assert_eq!(rebuilt.canonicalized_hash(), e.canonicalized_hash());
    assert!(rebuilt.self_authenticate().is_ok());
}

#[test]
fn signatures_verify_for_keys_and_nonces_of_either_parity() {
    use_parities();
}

fn parity_is_odd(secret: [u8; 32]) -> bool {
    let secp = sapio_bitcoin::secp256k1::Secp256k1::signing_only();
    let sk = sapio_bitcoin::secp256k1::SecretKey::from_slice(&secret).unwrap();
    sk.x_only_public_key(&secp).1 == sapio_bitcoin::secp256k1::Parity::Odd
}

fn use_parities() {
    let mut seen = [[false; 2]; 2];
    for k in 1..=8u8 {
        for n in 21..=28u8 {
            let keypair = KeyPair::from_secret_key([k; 32]).unwrap();
            let e = new_user_with(&keypair, [n; 32], [9u8; 32], 42, b"null".to_vec()).unwrap();
            assert!(e.self_authenticate().is_ok(), "key {} nonce {}", k, n);
            seen[parity_is_odd([k; 32]) as usize][parity_is_odd([n; 32]) as usize] = true;
        }
    }
    assert_eq!(seen, [[true; 2]; 2], "keys and nonces of either parity were signed with");
}

#[test]
fn the_library_verifies_what_the_outside_signer_signs() {
    // a signature made by libsecp256k1 itself, with a nonce of its own choosing
    let secp = sapio_bitcoin::secp256k1::Secp256k1::new();
    let keypair = sapio_bitcoin::secp256k1::Keypair::from_seckey_slice(&secp, &[3u8; 32]).unwrap();
    let mut e = sample(0, None, vec![]);
    e.header.key = keypair.x_only_public_key().0.serialize();
    let digest = sapio_bitcoin::secp256k1::Message::from_digest(e.canonicalized_hash());
    let sig = secp.sign_schnorr_no_aux_rand(&digest, &keypair);
    e.header.unsigned.signature = Some(sig.serialize());
    assert!(e.self_authenticate().is_ok());
}

#[test]
fn a_payload_must_be_canonical_json() {
    let kp = KeyPair::from_secret_key([1; 32]).unwrap();
    // a first envelope is not made for it
    for payload in [&b"{ }"[..], &b"[1, 2]"[..], &b"1.5"[..], &b"x"[..]] {
        assert_eq!(
            new_user_with(&kp, [2; 32], [3; 32], 7, payload.to_vec()),
            Err(NewUserError::InvalidPayload)
        );
    }
    // and an envelope that carries one is malformed, signed or not
    let mut e = new_user_with(&kp, [2; 32], [3; 32], 7, b"[1,2]".to_vec()).unwrap();
    assert!(e.clone().self_authenticate().is_ok());
    e.msg = b"[1, 2]".to_vec();
    assert_eq!(e.sign_with(&kp, [2; 32]), Ok(()));
    assert_eq!(e.self_authenticate().err(), Some(AuthenticationError::MalformedHeader));
}

#[test]
fn a_signed_envelope_verifies() {
    for key in 1..=12u8 {
        let kp = KeyPair::from_secret_key([key; 32]).unwrap();
        for nonce in 20..=26u8 {
            let e = new_user_with(&kp, [nonce; 32], [nonce + 40; 32], 7, b"null".to_vec()).unwrap();
            assert!(e.self_authenticate().is_ok());
        }
    }
}
