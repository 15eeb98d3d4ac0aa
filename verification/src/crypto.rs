//! The cryptographic primitives the crate consumes, and the signature scheme
//! built from them.
//!
//! SHA-256 and the secp256k1 group operations are taken from `sapio_bitcoin`
//! and are not verified here: each is reached through one private function
//! whose contract names the outside result. What is verified is how those
//! results are put together into a BIP-340 signature that uses a nonce
//! chosen by the signer in advance.

use vstd::prelude::*;
use crate::bytes::{ascii, push_bytes, push_text};

verus! {

/// The SHA-256 digest of `data`, as computed by `bitcoin_hashes`.
pub uninterp spec fn sha256_of(data: Seq<u8>) -> Seq<u8>;

/// Whether libsecp256k1 accepts `signature` as a BIP-340 signature of the
/// 32-byte `digest` under the x-only public key `key`.
pub uninterp spec fn schnorr_accepts(signature: Seq<u8>, digest: Seq<u8>, key: Seq<u8>) -> bool;

/// The x-only public key of a secret scalar and whether the full point has
/// an odd y coordinate; `None` where the bytes are not a valid secret key.
pub uninterp spec fn xonly_of_secret(secret: Seq<u8>) -> Option<(Seq<u8>, bool)>;

/// The order of the secp256k1 group, in big-endian bytes.
pub open spec fn group_order_bytes() -> Seq<u8> {
    seq![
        0xffu8, 0xffu8, 0xffu8, 0xffu8, 0xffu8, 0xffu8, 0xffu8, 0xffu8,
        0xffu8, 0xffu8, 0xffu8, 0xffu8, 0xffu8, 0xffu8, 0xffu8, 0xfeu8,
        0xbau8, 0xaeu8, 0xdcu8, 0xe6u8, 0xafu8, 0x48u8, 0xa0u8, 0x3bu8,
        0xbfu8, 0xd2u8, 0x5eu8, 0x8cu8, 0xd0u8, 0x36u8, 0x41u8, 0x41u8,
    ]
}

/// The number that big-endian bytes stand for.
pub open spec fn be_value(bytes: Seq<u8>) -> nat
    decreases bytes.len(),
{
    if bytes.len() == 0 {
        0
    } else {
        be_value(bytes.drop_last()) * 256 + bytes.last() as nat
    }
}

/// The last `len` big-endian bytes of a number.
pub open spec fn be_bytes(value: nat, len: nat) -> Seq<u8>
    decreases len,
{
    if len == 0 {
        Seq::empty()
    } else {
        be_bytes(value / 256, (len - 1) as nat).push((value % 256) as u8)
    }
}

/// The order of the secp256k1 group.
pub open spec fn group_order() -> nat {
    be_value(group_order_bytes())
}

/// The bytes are a secret scalar: 32 bytes that stand for a number above
/// zero and below the group order.
pub open spec fn is_scalar(bytes: Seq<u8>) -> bool {
    bytes.len() == 32 && 0 < be_value(bytes) < group_order()
}

/// The negation of a secret scalar modulo the group order.
pub open spec fn scalar_negated(secret: Seq<u8>) -> Option<Seq<u8>> {
    if is_scalar(secret) {
        Some(be_bytes((group_order() - be_value(secret)) as nat, 32))
    } else {
        None
    }
}

/// The product of a secret scalar and a tweak modulo the group order;
/// `None` where one of them is no secret scalar.
pub open spec fn scalar_product(secret: Seq<u8>, tweak: Seq<u8>) -> Option<Seq<u8>> {
    if is_scalar(secret) && is_scalar(tweak) {
        Some(be_bytes((be_value(secret) * be_value(tweak)) % group_order(), 32))
    } else {
        None
    }
}

/// The sum of a secret scalar and a tweak modulo the group order; `None`
/// where the first is no secret scalar, the tweak is not below the group
/// order, or the sum is zero.
pub open spec fn scalar_sum(secret: Seq<u8>, tweak: Seq<u8>) -> Option<Seq<u8>> {
    let sum = (be_value(secret) + be_value(tweak)) % group_order();
    if is_scalar(secret) && tweak.len() == 32 && be_value(tweak) < group_order() && sum != 0 {
        Some(be_bytes(sum, 32))
    } else {
        None
    }
}

/// Calls `sha256::Hash::hash` of `bitcoin_hashes` and returns the digest's
/// 32 bytes. Trusted: the result is the named digest of the input.
#[verifier::external_body]
pub(crate) fn sha256(data: &[u8]) -> (digest: [u8; 32])
    ensures
        digest@ == sha256_of(data@),
{
    sapio_bitcoin::hashes::Hash::into_inner(
        <sapio_bitcoin::hashes::sha256::Hash as sapio_bitcoin::hashes::Hash>::hash(data),
    )
}

/// Calls `Secp256k1::verify_schnorr`. Trusted: the result is the named
/// verdict; bytes that do not parse as a signature or a key are not accepted.
#[verifier::external_body]
pub(crate) fn schnorr_verify(signature: &[u8; 64], digest: &[u8; 32], key: &[u8; 32]) -> (ok:
    bool)
    ensures
        ok == schnorr_accepts(signature@, digest@, key@),
{
    let sig = match sapio_bitcoin::secp256k1::schnorr::Signature::from_slice(signature) {
        Ok(s) => s,
        Err(_) => return false,
    };
    let pk = match sapio_bitcoin::secp256k1::XOnlyPublicKey::from_slice(key) {
        Ok(k) => k,
        Err(_) => return false,
    };
    let msg = sapio_bitcoin::secp256k1::Message::from_digest(*digest);
    sapio_bitcoin::secp256k1::Secp256k1::verification_only().verify_schnorr(&sig, &msg, &pk).is_ok()
}

/// Calls `SecretKey::x_only_public_key`. Trusted: the result is the named
/// key and parity, and `None` exactly where the bytes are no secret key.
#[verifier::external_body]
pub(crate) fn secret_to_xonly(secret: &[u8; 32]) -> (r: Option<([u8; 32], bool)>)
    ensures
        match r {
            Some((key, odd)) => xonly_of_secret(secret@) == Some((key@, odd)),
            None => xonly_of_secret(secret@) is None,
        },
{
    let sk = sapio_bitcoin::secp256k1::SecretKey::from_slice(secret).ok()?;
    let secp = sapio_bitcoin::secp256k1::Secp256k1::signing_only();
    let (key, parity) = sk.x_only_public_key(&secp);
    match parity {
        sapio_bitcoin::secp256k1::Parity::Even => Some((key.serialize(), false)),
        sapio_bitcoin::secp256k1::Parity::Odd => Some((key.serialize(), true)),
    }
}

/// Calls `SecretKey::negate` on the secret that `SecretKey::from_slice`
/// reads. Trusted: for a secret scalar the result is its negation modulo
/// the group order; other bytes give `None`.
#[verifier::external_body]
pub(crate) fn negate_scalar(secret: &[u8; 32]) -> (r: Option<[u8; 32]>)
    ensures
        match r {
            Some(out) => scalar_negated(secret@) == Some(out@),
            None => scalar_negated(secret@) is None,
        },
{
    let sk = sapio_bitcoin::secp256k1::SecretKey::from_slice(secret).ok()?;
    Some(sk.negate().secret_bytes())
}

/// Calls `SecretKey::mul_tweak`, with the secret read by
/// `SecretKey::from_slice` and the tweak by `Scalar::from_be_bytes`.
/// Trusted: the result is the product modulo the group order; `None` where
/// the secret is no secret scalar or the tweak is zero or not below the
/// group order.
#[verifier::external_body]
pub(crate) fn multiply_scalar(secret: &[u8; 32], tweak: &[u8; 32]) -> (r: Option<[u8; 32]>)
    ensures
        match r {
            Some(out) => scalar_product(secret@, tweak@) == Some(out@),
            None => scalar_product(secret@, tweak@) is None,
        },
{
    let sk = sapio_bitcoin::secp256k1::SecretKey::from_slice(secret).ok()?;
    let t = sapio_bitcoin::secp256k1::Scalar::from_be_bytes(*tweak).ok()?;
    sk.mul_tweak(&t).ok().map(|k| k.secret_bytes())
}

/// Calls `SecretKey::add_tweak`, with the secret read by
/// `SecretKey::from_slice` and the tweak by `Scalar::from_be_bytes`.
/// Trusted: the result is the sum modulo the group order; `None` where the
/// secret is no secret scalar, the tweak is not below the group order, or
/// the sum is zero.
#[verifier::external_body]
pub(crate) fn add_scalar(secret: &[u8; 32], tweak: &[u8; 32]) -> (r: Option<[u8; 32]>)
    ensures
        match r {
            Some(out) => scalar_sum(secret@, tweak@) == Some(out@),
            None => scalar_sum(secret@, tweak@) is None,
        },
{
    let sk = sapio_bitcoin::secp256k1::SecretKey::from_slice(secret).ok()?;
    let t = sapio_bitcoin::secp256k1::Scalar::from_be_bytes(*tweak).ok()?;
    sk.add_tweak(&t).ok().map(|k| k.secret_bytes())
}

/// Calls `SecretKey::new` with the thread's random number generator.
/// Trusted: whatever comes back is a valid secret key, since the outside
/// function draws again until libsecp256k1 accepts the bytes.
#[verifier::external_body]
pub(crate) fn random_secret() -> (secret: [u8; 32])
    ensures
        xonly_of_secret(secret@) is Some,
{
    sapio_bitcoin::secp256k1::SecretKey::new(
        &mut sapio_bitcoin::secp256k1::rand::thread_rng(),
    ).secret_bytes()
}

/// Calls `Rng::gen` on the thread's random number generator for 32 bytes.
/// Nothing is promised of the bytes.
#[verifier::external_body]
pub(crate) fn random_bytes() -> (bytes: [u8; 32]) {
    sapio_bitcoin::secp256k1::rand::Rng::gen(&mut sapio_bitcoin::secp256k1::rand::thread_rng())
}

/// The x-only public key that belongs to a secret scalar.
pub open spec fn public_key_of(secret: Seq<u8>) -> Option<Seq<u8>> {
    match xonly_of_secret(secret) {
        Some((key, _)) => Some(key),
        None => None,
    }
}

/// A signing key: a secret scalar together with its x-only public key.
pub struct KeyPair {
    secret: [u8; 32],
    public: [u8; 32],
    odd: bool,
}

impl KeyPair {
    /// The pair is consistent: the public key is the one of the secret.
    #[verifier::type_invariant]
    pub closed spec fn consistent(self) -> bool {
        xonly_of_secret(self.secret@) == Some((self.public@, self.odd))
    }

    pub closed spec fn secret(self) -> [u8; 32] {
        self.secret
    }

    pub closed spec fn public(self) -> [u8; 32] {
        self.public
    }

    /// Builds the pair of a secret key; `None` where the bytes are not a
    /// valid secret scalar.
    pub fn from_secret_key(secret: [u8; 32]) -> (r: Option<KeyPair>)
        ensures
            r is Some <==> xonly_of_secret(secret@) is Some,
            r matches Some(kp) ==> kp.secret() == secret && public_key_of(secret@) == Some(
                kp.public()@,
            ),
    {
        match secret_to_xonly(&secret) {
            Some((public, odd)) => Some(KeyPair { secret, public, odd }),
            None => None,
        }
    }

    /// Draws a fresh key pair from the thread's random number generator.
    /// Whatever was drawn, the public key is the one of the secret.
    pub fn generate() -> (kp: KeyPair)
        ensures
            public_key_of(kp.secret()@) == Some(kp.public()@),
    {
        let secret = random_secret();
        match secret_to_xonly(&secret) {
            Some((public, odd)) => KeyPair { secret, public, odd },
            None => vstd::pervasive::unreached(),
        }
    }

    /// The x-only public key; it is the one that belongs to the secret.
    pub fn x_only_public_key(&self) -> (key: [u8; 32])
        ensures
            key == self.public(),
            public_key_of(self.secret()@) == Some(key@),
    {
        proof {
            use_type_invariant(self);
        }
        self.public
    }

    /// The secret scalar.
    pub fn secret_bytes(&self) -> (secret: [u8; 32])
        ensures
            secret == self.secret(),
    {
        self.secret
    }
}

/// The BIP-340 challenge: the tagged hash of the public nonce, the public
/// key and the message digest.
pub open spec fn challenge_of(nonce: Seq<u8>, key: Seq<u8>, digest: Seq<u8>) -> Seq<u8> {
    let tag = sha256_of(ascii("BIP0340/challenge"@));
    sha256_of(tag + tag + nonce + key + digest)
}

/// A secret scalar normalised so that its public point has an even y.
pub open spec fn even_secret(secret: Seq<u8>, odd: bool) -> Option<Seq<u8>> {
    if odd {
        scalar_negated(secret)
    } else {
        Some(secret)
    }
}

/// The BIP-340 signature of `digest` under `secret` that uses `nonce` as
/// its secret nonce, as it is put together: the public nonce followed by
/// `k + e * d`, where `d` and `k` are the key and the nonce normalised to
/// even points and `e` is the challenge. `None` where key or nonce is no
/// valid secret, where the challenge is not below the group order, or where
/// product or sum is zero.
pub open spec fn composed_signature(digest: Seq<u8>, secret: Seq<u8>, nonce: Seq<u8>) -> Option<
    Seq<u8>,
> {
    match (xonly_of_secret(secret), xonly_of_secret(nonce)) {
        (Some((p, p_odd)), Some((r, r_odd))) => {
            match (even_secret(secret, p_odd), even_secret(nonce, r_odd)) {
                (Some(d), Some(k)) => {
                    match scalar_product(d, challenge_of(r, p, digest)) {
                        Some(ed) => match scalar_sum(k, ed) {
                            Some(s) => Some(r + s),
                            None => None,
                        },
                        None => None,
                    }
                },
                _ => None,
            }
        },
        _ => None,
    }
}

/// The signature of `digest` under `secret` that uses `nonce` as its secret
/// nonce: the one that is put together from them, given out only if it
/// verifies under the public key of `secret`.
pub open spec fn signature_of(digest: Seq<u8>, secret: Seq<u8>, nonce: Seq<u8>) -> Option<
    Seq<u8>,
> {
    match (composed_signature(digest, secret, nonce), public_key_of(secret)) {
        (Some(sig), Some(key)) => if schnorr_accepts(sig, digest, key) {
            Some(sig)
        } else {
            None
        },
        _ => None,
    }
}

fn challenge(nonce: &[u8; 32], key: &[u8; 32], digest: &[u8; 32]) -> (e: [u8; 32])
    ensures
        e@ == challenge_of(nonce@, key@, digest@),
{
    proof {
        reveal_strlit("BIP0340/challenge");
    }
    let mut tag_text: Vec<u8> = Vec::new();
    push_text(&mut tag_text, "BIP0340/challenge");
    let tag = sha256(tag_text.as_slice());
    let mut input: Vec<u8> = Vec::new();
    push_bytes(&mut input, tag.as_slice());
    push_bytes(&mut input, tag.as_slice());
    push_bytes(&mut input, nonce.as_slice());
    push_bytes(&mut input, key.as_slice());
    push_bytes(&mut input, digest.as_slice());
    sha256(input.as_slice())
}

fn normalise(secret: &[u8; 32], odd: bool) -> (r: Option<[u8; 32]>)
    ensures
        match r {
            Some(out) => even_secret(secret@, odd) == Some(out@),
            None => even_secret(secret@, odd) is None,
        },
{
    if odd {
        negate_scalar(secret)
    } else {
        Some(*secret)
    }
}

/// Signs `digest` with `secret`, using `nonce` as the secret nonce. The
/// signature is verified before it is given out, so a signature that comes
/// back is one that `schnorr_verify` accepts.
pub fn sign_with_nonce(digest: &[u8; 32], secret: &[u8; 32], nonce: &[u8; 32]) -> (r: Option<
    [u8; 64],
>)
    ensures
        match r {
            Some(sig) => signature_of(digest@, secret@, nonce@) == Some(sig@),
            None => signature_of(digest@, secret@, nonce@) is None,
        },
{
    let (p, p_odd) = match secret_to_xonly(secret) {
        Some(x) => x,
        None => return None,
    };
    let (r, r_odd) = match secret_to_xonly(nonce) {
        Some(x) => x,
        None => return None,
    };
    let d = match normalise(secret, p_odd) {
        Some(d) => d,
        None => return None,
    };
    let k = match normalise(nonce, r_odd) {
        Some(k) => k,
        None => return None,
    };
    let e = challenge(&r, &p, digest);
    let ed = match multiply_scalar(&d, &e) {
        Some(x) => x,
        None => return None,
    };
    let s = match add_scalar(&k, &ed) {
        Some(x) => x,
        None => return None,
    };
    let mut sig: [u8; 64] = [0u8; 64];
    let mut i: usize = 0;
    while i < 32
        invariant
            0 <= i <= 32,
            forall|j: int| 0 <= j < i ==> sig@[j] == r@[j],
            forall|j: int| 0 <= j < i ==> sig@[32 + j] == s@[j],
        decreases 32 - i,
    {
        sig[i] = r[i];
        sig[32 + i] = s[i];
        i += 1;
    }
    assert(sig@ =~= r@ + s@);
    if schnorr_verify(&sig, digest, &p) {
        Some(sig)
    } else {
        None
    }
}

/// The public nonce that a signature commits to: its first 32 bytes.
pub open spec fn nonce_of_signature(signature: Seq<u8>) -> Seq<u8> {
    signature.subrange(0, 32)
}

/// The public nonce a signature was made with.
pub fn signature_nonce(signature: &[u8; 64]) -> (nonce: [u8; 32])
    ensures
        nonce@ == nonce_of_signature(signature@),
{
    let mut out: [u8; 32] = [0u8; 32];
    let mut i: usize = 0;
    while i < 32
        invariant
            0 <= i <= 32,
            forall|j: int| 0 <= j < i ==> out@[j] == signature@[j],
        decreases 32 - i,
    {
        out[i] = signature[i];
        i += 1;
    }
    out
}

/// A signature made by `sign_with_nonce` verifies under the public key of
/// the secret it was made with.
pub proof fn lemma_signature_verifies(digest: Seq<u8>, secret: Seq<u8>, nonce: Seq<u8>)
    requires
        signature_of(digest, secret, nonce) is Some,
    ensures
        public_key_of(secret) matches Some(key) && schnorr_accepts(
            signature_of(digest, secret, nonce).unwrap(),
            digest,
            key,
        ),
{
}

/// A signature made by `sign_with_nonce` commits to the public key of the
/// nonce it was given.
pub proof fn lemma_signature_commits_to_nonce(digest: Seq<u8>, secret: Seq<u8>, nonce: Seq<u8>)
    requires
        signature_of(digest, secret, nonce) is Some,
        public_key_of(nonce).unwrap().len() == 32,
    ensures
        Some(nonce_of_signature(signature_of(digest, secret, nonce).unwrap())) == public_key_of(
            nonce,
        ),
{
}

} // verus!
