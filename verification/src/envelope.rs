//! Envelopes: the signed messages that make up a chain.
//!
//! An envelope is a header and a payload. Its canonical form is a
//! deterministic JSON text (keys sorted, no insignificant whitespace) from
//! which the signature is left out; the SHA-256 digest of that text
//! identifies the envelope and is what the signature covers.

use vstd::prelude::*;
use crate::bytes::{
    ascii,
    compare_bytes,
    decimal_digits,
    hex_bytes,
    lex_lt,
    push_bytes,
    push_decimal,
    push_hex,
    push_text,
    same_bytes,
    Order,
};
use crate::json::{check_canonical, is_canonical_json};
use crate::crypto::{
    lemma_signature_verifies,
    schnorr_accepts,
    schnorr_verify,
    sha256,
    sha256_of,
    sign_with_nonce,
    signature_of,
    KeyPair,
};

verus! {

/// The links of an envelope to the chain it extends.
#[derive(Clone, Copy, Debug, PartialEq, Eq)]
pub struct Ancestors {
    /// Hash of the chain's first envelope.
    pub genesis: [u8; 32],
    /// Hash of the envelope one height below.
    pub prev_msg: [u8; 32],
}

/// A reference to the newest envelope seen of another chain.
#[derive(Clone, Copy, Debug, PartialEq, Eq)]
pub struct TipEntry {
    pub key: [u8; 32],
    pub height: u64,
    pub hash: [u8; 32],
}

/// A Bitcoin block the author had seen when writing the envelope.
#[derive(Clone, Copy, Debug, PartialEq, Eq)]
pub struct CheckPoint {
    pub block: [u8; 32],
    pub height: u64,
}

/// The part of a header that the signature does not cover.
#[derive(Clone, Copy, Debug, PartialEq, Eq)]
pub struct Unsigned {
    pub signature: Option<[u8; 64]>,
}

/// What an envelope says about itself.
#[derive(Debug, PartialEq, Eq)]
pub struct Header {
    /// The key of the chain the envelope belongs to.
    pub key: [u8; 32],
    /// The public nonce that the next envelope of the chain is signed with.
    pub next_nonce: [u8; 32],
    /// The links to the chain; none at height 0.
    pub ancestors: Option<Ancestors>,
    /// The newest envelope the author knew of every other chain, in
    /// increasing order of key.
    pub tips: Vec<TipEntry>,
    /// The position in the chain, counted from 0.
    pub height: u64,
    pub sent_time_ms: u64,
    pub unsigned: Unsigned,
    pub checkpoints: Vec<CheckPoint>,
}

/// One signed message of a chain.
#[derive(Debug, PartialEq, Eq)]
pub struct Envelope {
    pub header: Header,
    /// The payload, as canonical JSON text.
    pub msg: Vec<u8>,
}

/// The mathematical content of a header.
pub struct HeaderView {
    pub key: [u8; 32],
    pub next_nonce: [u8; 32],
    pub ancestors: Option<Ancestors>,
    pub tips: Seq<TipEntry>,
    pub height: u64,
    pub sent_time_ms: u64,
    pub signature: Option<[u8; 64]>,
    pub checkpoints: Seq<CheckPoint>,
}

/// The mathematical content of an envelope.
pub struct EnvelopeView {
    pub header: HeaderView,
    pub msg: Seq<u8>,
}

impl View for Header {
    type V = HeaderView;

    open spec fn view(&self) -> HeaderView {
        HeaderView {
            key: self.key,
            next_nonce: self.next_nonce,
            ancestors: self.ancestors,
            tips: self.tips@,
            height: self.height,
            sent_time_ms: self.sent_time_ms,
            signature: self.unsigned.signature,
            checkpoints: self.checkpoints@,
        }
    }
}

impl View for Envelope {
    type V = EnvelopeView;

    open spec fn view(&self) -> EnvelopeView {
        EnvelopeView { header: self.header@, msg: self.msg@ }
    }
}

/// The contents of a list of envelopes.
pub open spec fn envelope_views(list: Seq<Envelope>) -> Seq<EnvelopeView> {
    Seq::new(list.len(), |i: int| list[i]@)
}

impl Clone for Header {
    fn clone(&self) -> (r: Self)
        ensures
            r@ == self@,
    {
        Header {
            key: self.key,
            next_nonce: self.next_nonce,
            ancestors: self.ancestors,
            tips: self.tips.clone(),
            height: self.height,
            sent_time_ms: self.sent_time_ms,
            unsigned: self.unsigned,
            checkpoints: self.checkpoints.clone(),
        }
    }
}

impl Clone for Envelope {
    fn clone(&self) -> (r: Self)
        ensures
            r@ == self@,
    {
        Envelope { header: self.header.clone(), msg: self.msg.clone() }
    }
}

/// Why an envelope could not be signed.
#[derive(Clone, Copy, Debug, PartialEq, Eq, Structural)]
pub enum SigningError {
    /// The key pair is not the one named in the header.
    KeyMismatch,
    /// No signature exists for this key, nonce and envelope: the nonce is
    /// not a valid secret, the signature's scalar left the group, or what
    /// was put together does not verify.
    InvalidNonce,
}

/// Why an envelope is not authentic.
#[derive(Clone, Copy, Debug, PartialEq, Eq, Structural)]
pub enum AuthenticationError {
    /// The header breaks a structural rule or carries no signature, or the
    /// payload is not canonical JSON.
    MalformedHeader,
    /// The signature does not verify under the header's key.
    BadSignature,
}

// ---------------------------------------------------------------------------
// Canonical form
// ---------------------------------------------------------------------------

pub open spec fn canonical_ancestors(a: Option<Ancestors>) -> Seq<u8> {
    match a {
        None => ascii("null"@),
        Some(x) => ascii("{\"genesis\":\""@) + hex_bytes(x.genesis@) + ascii(
            "\",\"prev_msg\":\""@,
        ) + hex_bytes(x.prev_msg@) + ascii("\"}"@),
    }
}

pub open spec fn canonical_tip(t: TipEntry) -> Seq<u8> {
    ascii("[\""@) + hex_bytes(t.key@) + ascii("\","@) + decimal_digits(t.height as nat) + ascii(
        ",\""@,
    ) + hex_bytes(t.hash@) + ascii("\"]"@)
}

/// The tips from position `from` on, separated by commas.
pub open spec fn canonical_tips(tips: Seq<TipEntry>, from: int) -> Seq<u8>
    decreases tips.len() - from,
{
    if from < 0 || from >= tips.len() {
        Seq::empty()
    } else if from + 1 == tips.len() {
        canonical_tip(tips[from])
    } else {
        canonical_tip(tips[from]) + ascii(","@) + canonical_tips(tips, from + 1)
    }
}

pub open spec fn canonical_checkpoint(c: CheckPoint) -> Seq<u8> {
    ascii("[\""@) + hex_bytes(c.block@) + ascii("\","@) + decimal_digits(c.height as nat)
        + ascii("]"@)
}

/// The checkpoints from position `from` on, separated by commas.
pub open spec fn canonical_checkpoints(points: Seq<CheckPoint>, from: int) -> Seq<u8>
    decreases points.len() - from,
{
    if from < 0 || from >= points.len() {
        Seq::empty()
    } else if from + 1 == points.len() {
        canonical_checkpoint(points[from])
    } else {
        canonical_checkpoint(points[from]) + ascii(","@) + canonical_checkpoints(
            points,
            from + 1,
        )
    }
}

/// The canonical text of a header: every field but the signature, keys in
/// sorted order.
pub open spec fn canonical_header(h: HeaderView) -> Seq<u8> {
    ascii("{\"ancestors\":"@) + canonical_ancestors(h.ancestors) + ascii(
        ",\"checkpoints\":["@,
    ) + canonical_checkpoints(h.checkpoints, 0) + ascii("],\"height\":"@) + decimal_digits(
        h.height as nat,
    ) + ascii(",\"key\":\""@) + hex_bytes(h.key@) + ascii("\",\"next_nonce\":\""@) + hex_bytes(
        h.next_nonce@,
    ) + ascii("\",\"sent_time_ms\":"@) + decimal_digits(h.sent_time_ms as nat) + ascii(
        ",\"tips\":["@,
    ) + canonical_tips(h.tips, 0) + ascii("],\"unsigned\":{}}"@)
}

/// The canonical text of an envelope.
pub open spec fn canonical_bytes(e: EnvelopeView) -> Seq<u8> {
    ascii("{\"header\":"@) + canonical_header(e.header) + ascii(",\"msg\":"@) + e.msg + ascii(
        "}"@,
    )
}

/// The hash that identifies an envelope.
#[verifier::opaque]
pub open spec fn envelope_hash(e: EnvelopeView) -> Seq<u8> {
    sha256_of(canonical_bytes(e))
}

/// The hash of the first envelope of the chain that `e` belongs to.
pub open spec fn genesis_hash_of(e: EnvelopeView) -> Seq<u8> {
    match e.header.ancestors {
        Some(a) => a.genesis@,
        None => envelope_hash(e),
    }
}

fn push_ancestors(out: &mut Vec<u8>, a: &Option<Ancestors>)
    ensures
        final(out)@ == old(out)@ + canonical_ancestors(*a),
{
    proof {
        reveal_strlit("null");
        reveal_strlit("{\"genesis\":\"");
        reveal_strlit("\",\"prev_msg\":\"");
        reveal_strlit("\"}");
    }
    match a {
        None => {
            push_text(out, "null");
        },
        Some(x) => {
            push_text(out, "{\"genesis\":\"");
            push_hex(out, x.genesis.as_slice());
            push_text(out, "\",\"prev_msg\":\"");
            push_hex(out, x.prev_msg.as_slice());
            push_text(out, "\"}");
        },
    }
}

fn push_tip(out: &mut Vec<u8>, t: &TipEntry)
    ensures
        final(out)@ == old(out)@ + canonical_tip(*t),
{
    proof {
        reveal_strlit("[\"");
        reveal_strlit("\",");
        reveal_strlit(",\"");
        reveal_strlit("\"]");
    }
    push_text(out, "[\"");
    push_hex(out, t.key.as_slice());
    push_text(out, "\",");
    push_decimal(out, t.height);
    push_text(out, ",\"");
    push_hex(out, t.hash.as_slice());
    push_text(out, "\"]");
}

fn push_tips(out: &mut Vec<u8>, tips: &Vec<TipEntry>)
    ensures
        final(out)@ == old(out)@ + canonical_tips(tips@, 0),
{
    proof {
        reveal_strlit(",");
    }
    let n = tips.len();
    let mut i: usize = 0;
    while i < n
        invariant
            0 <= i <= n,
            n == tips@.len(),
            ascii(","@).len() == 1,
            ","@.len() == 1,
            ","@[0] == ',',
            out@ + canonical_tips(tips@, i as int) == old(out)@ + canonical_tips(tips@, 0),
        decreases n - i,
    {
        push_tip(out, &tips[i]);
        if i + 1 < n {
            push_text(out, ",");
        }
        i += 1;
    }
}

fn push_checkpoint(out: &mut Vec<u8>, c: &CheckPoint)
    ensures
        final(out)@ == old(out)@ + canonical_checkpoint(*c),
{
    proof {
        reveal_strlit("[\"");
        reveal_strlit("\",");
        reveal_strlit("]");
    }
    push_text(out, "[\"");
    push_hex(out, c.block.as_slice());
    push_text(out, "\",");
    push_decimal(out, c.height);
    push_text(out, "]");
}

fn push_checkpoints(out: &mut Vec<u8>, points: &Vec<CheckPoint>)
    ensures
        final(out)@ == old(out)@ + canonical_checkpoints(points@, 0),
{
    proof {
        reveal_strlit(",");
    }
    let n = points.len();
    let mut i: usize = 0;
    while i < n
        invariant
            0 <= i <= n,
            n == points@.len(),
            ","@.len() == 1,
            ","@[0] == ',',
            out@ + canonical_checkpoints(points@, i as int) == old(out)@ + canonical_checkpoints(
                points@,
                0,
            ),
        decreases n - i,
    {
        push_checkpoint(out, &points[i]);
        if i + 1 < n {
            push_text(out, ",");
        }
        i += 1;
    }
}

fn push_open_ancestors(out: &mut Vec<u8>)
    ensures
        final(out)@ == old(out)@ + ascii("{\"ancestors\":"@),
{
    proof {
        reveal_strlit("{\"ancestors\":");
    }
    push_text(out, "{\"ancestors\":");
}

fn push_open_checkpoints(out: &mut Vec<u8>)
    ensures
        final(out)@ == old(out)@ + ascii(",\"checkpoints\":["@),
{
    proof {
        reveal_strlit(",\"checkpoints\":[");
    }
    push_text(out, ",\"checkpoints\":[");
}

fn push_open_height(out: &mut Vec<u8>)
    ensures
        final(out)@ == old(out)@ + ascii("],\"height\":"@),
{
    proof {
        reveal_strlit("],\"height\":");
    }
    push_text(out, "],\"height\":");
}

fn push_open_key(out: &mut Vec<u8>)
    ensures
        final(out)@ == old(out)@ + ascii(",\"key\":\""@),
{
    proof {
        reveal_strlit(",\"key\":\"");
    }
    push_text(out, ",\"key\":\"");
}

fn push_open_next_nonce(out: &mut Vec<u8>)
    ensures
        final(out)@ == old(out)@ + ascii("\",\"next_nonce\":\""@),
{
    proof {
        reveal_strlit("\",\"next_nonce\":\"");
    }
    push_text(out, "\",\"next_nonce\":\"");
}

fn push_open_sent_time(out: &mut Vec<u8>)
    ensures
        final(out)@ == old(out)@ + ascii("\",\"sent_time_ms\":"@),
{
    proof {
        reveal_strlit("\",\"sent_time_ms\":");
    }
    push_text(out, "\",\"sent_time_ms\":");
}

fn push_open_tips(out: &mut Vec<u8>)
    ensures
        final(out)@ == old(out)@ + ascii(",\"tips\":["@),
{
    proof {
        reveal_strlit(",\"tips\":[");
    }
    push_text(out, ",\"tips\":[");
}

fn push_close_header(out: &mut Vec<u8>)
    ensures
        final(out)@ == old(out)@ + ascii("],\"unsigned\":{}}"@),
{
    proof {
        reveal_strlit("],\"unsigned\":{}}");
    }
    push_text(out, "],\"unsigned\":{}}");
}

fn push_header(out: &mut Vec<u8>, h: &Header)
    ensures
        final(out)@ == old(out)@ + canonical_header(h@),
{
    push_open_ancestors(out);
    push_ancestors(out, &h.ancestors);
    push_open_checkpoints(out);
    push_checkpoints(out, &h.checkpoints);
    push_open_height(out);
    push_decimal(out, h.height);
    push_open_key(out);
    push_hex(out, h.key.as_slice());
    push_open_next_nonce(out);
    push_hex(out, h.next_nonce.as_slice());
    push_open_sent_time(out);
    push_decimal(out, h.sent_time_ms);
    push_open_tips(out);
    push_tips(out, &h.tips);
    push_close_header(out);
}

// ---------------------------------------------------------------------------
// Well-formedness and authenticity
// ---------------------------------------------------------------------------

/// The tips are in strictly increasing order of key, so no key occurs twice.
pub open spec fn tips_sorted(tips: Seq<TipEntry>) -> bool {
    forall|i: int, j: int| 0 <= i < j < tips.len() ==> lex_lt(tips[i].key@, tips[j].key@)
}

/// The structural rules of a header: exactly the envelopes at height 0
/// have no ancestors, the tips are sorted by key, and a signature is there.
pub open spec fn header_well_formed(h: HeaderView) -> bool {
    &&& (h.height == 0 <==> h.ancestors is None)
    &&& tips_sorted(h.tips)
    &&& h.signature is Some
}

/// The rules of an envelope's form: the header keeps its structural rules
/// and the payload is canonical JSON.
pub open spec fn well_formed(e: EnvelopeView) -> bool {
    &&& header_well_formed(e.header)
    &&& is_canonical_json(e.msg)
}

/// The envelope is well formed and its signature verifies under its key.
#[verifier::opaque]
pub open spec fn authentic(e: EnvelopeView) -> bool {
    &&& well_formed(e)
    &&& schnorr_accepts(e.header.signature.unwrap()@, envelope_hash(e), e.header.key@)
}

/// `e` with its signature replaced.
pub open spec fn with_signature(e: EnvelopeView, signature: Option<[u8; 64]>) -> EnvelopeView {
    EnvelopeView { header: HeaderView { signature: signature, ..e.header }, msg: e.msg }
}

/// The signature is not part of what is hashed: replacing it leaves the
/// canonical text, and so the hash, as they were.
pub proof fn lemma_canonical_ignores_signature(e: EnvelopeView, signature: Option<[u8; 64]>)
    ensures
        canonical_bytes(with_signature(e, signature)) == canonical_bytes(e),
        envelope_hash(with_signature(e, signature)) == envelope_hash(e),
{
    reveal(envelope_hash);
}

/// Whether the tips are strictly sorted by key.
pub fn check_tips_sorted(tips: &Vec<TipEntry>) -> (r: bool)
    ensures
        r == tips_sorted(tips@),
{
    let n = tips.len();
    if n < 2 {
        return true;
    }
    let mut i: usize = 1;
    while i < n
        invariant
            1 <= i <= n,
            n == tips@.len(),
            forall|a: int, b: int| 0 <= a < b < i ==> lex_lt(tips@[a].key@, tips@[b].key@),
        decreases n - i,
    {
        match compare_bytes(&tips[i - 1].key, &tips[i].key) {
            Order::Less => {},
            _ => {
                return false;
            },
        }
        proof {
            assert forall|a: int, b: int| 0 <= a < b < i + 1 implies lex_lt(
                tips@[a].key@,
                tips@[b].key@,
            ) by {
                if b == i && a < i - 1 {
                    crate::bytes::lemma_lex_lt_transitive(
                        tips@[a].key@,
                        tips@[i - 1].key@,
                        tips@[i as int].key@,
                    );
                }
            }
        }
        i += 1;
    }
    true
}

/// An envelope that has passed `self_authenticate`.
#[derive(Debug, PartialEq, Eq)]
pub struct Authenticated {
    inner: Envelope,
    hash: [u8; 32],
}

impl View for Authenticated {
    type V = EnvelopeView;

    closed spec fn view(&self) -> EnvelopeView {
        self.inner@
    }
}

impl Clone for Authenticated {
    fn clone(&self) -> (r: Self)
        ensures
            r@ == self@,
    {
        proof {
            use_type_invariant(self);
        }
        Authenticated { inner: self.inner.clone(), hash: self.hash }
    }
}

impl Authenticated {
    #[verifier::type_invariant]
    closed spec fn checked(self) -> bool {
        &&& authentic(self.inner@)
        &&& self.hash@ == envelope_hash(self.inner@)
    }

    /// The envelope; it is authentic.
    pub fn inner_ref(&self) -> (e: &Envelope)
        ensures
            e@ == self@,
            authentic(self@),
    {
        proof {
            use_type_invariant(self);
        }
        &self.inner
    }

    /// Gives the envelope back.
    pub fn inner(self) -> (e: Envelope)
        ensures
            e@ == self@,
            authentic(self@),
    {
        proof {
            use_type_invariant(&self);
        }
        self.inner
    }

    /// The envelope's hash, computed when it was authenticated.
    pub fn hash(&self) -> (h: [u8; 32])
        ensures
            h@ == envelope_hash(self@),
            authentic(self@),
    {
        proof {
            use_type_invariant(self);
        }
        self.hash
    }
}

impl Envelope {
    /// The canonical text of the envelope: what is hashed and signed.
    pub fn canonicalize(&self) -> (text: Vec<u8>)
        ensures
            text@ == canonical_bytes(self@),
    {
        proof {
            reveal_strlit("{\"header\":");
            reveal_strlit(",\"msg\":");
            reveal_strlit("}");
        }
        let mut out: Vec<u8> = Vec::new();
        push_text(&mut out, "{\"header\":");
        push_header(&mut out, &self.header);
        push_text(&mut out, ",\"msg\":");
        push_bytes(&mut out, self.msg.as_slice());
        push_text(&mut out, "}");
        out
    }

    /// The hash that identifies the envelope.
    pub fn canonicalized_hash(&self) -> (hash: [u8; 32])
        ensures
            hash@ == envelope_hash(self@),
    {
        proof {
            reveal(envelope_hash);
        }
        let text = self.canonicalize();
        sha256(text.as_slice())
    }

    /// The hash of the first envelope of this envelope's chain: the one
    /// named in the ancestors, or the envelope's own hash at height 0.
    pub fn get_genesis_hash(&self) -> (hash: [u8; 32])
        ensures
            hash@ == genesis_hash_of(self@),
    {
        match self.header.ancestors {
            Some(a) => a.genesis,
            None => self.canonicalized_hash(),
        }
    }

    /// Signs the envelope with `keypair`, using `nonce` as the secret nonce,
    /// and stores the signature in the header. On an error the envelope is
    /// left as it was.
    ///
    /// A signature that is stored verifies under the envelope's key, so an
    /// envelope that was signed is authentic if it is well formed.
    pub fn sign_with(&mut self, keypair: &KeyPair, nonce: [u8; 32]) -> (r: Result<
        (),
        SigningError,
    >)
        ensures
            match r {
                Ok(()) => {
                    &&& keypair.public() == old(self)@.header.key
                    &&& final(self)@.header.signature matches Some(sig) && signature_of(
                        envelope_hash(old(self)@),
                        keypair.secret()@,
                        nonce@,
                    ) == Some(sig@)
                    &&& final(self)@ == with_signature(old(self)@, final(self)@.header.signature)
                    &&& schnorr_accepts(
                        final(self)@.header.signature.unwrap()@,
                        envelope_hash(final(self)@),
                        final(self)@.header.key@,
                    )
                    &&& authentic(final(self)@) <==> well_formed(final(self)@)
                },
                Err(SigningError::KeyMismatch) => {
                    &&& keypair.public() != old(self)@.header.key
                    &&& final(self)@ == old(self)@
                },
                Err(SigningError::InvalidNonce) => {
                    &&& keypair.public() == old(self)@.header.key
                    &&& signature_of(envelope_hash(old(self)@), keypair.secret()@, nonce@) is None
                    &&& final(self)@ == old(self)@
                },
            },
    {
        let public = keypair.x_only_public_key();
        if !same_bytes(&public, &self.header.key) {
            return Err(SigningError::KeyMismatch);
        }
        let digest = self.canonicalized_hash();
        let secret = keypair.secret_bytes();
        match sign_with_nonce(&digest, &secret, &nonce) {
            Some(sig) => {
                self.header.unsigned.signature = Some(sig);
                proof {
                    reveal(authentic);
                    lemma_canonical_ignores_signature(old(self)@, Some(sig));
                    lemma_signature_verifies(digest@, secret@, nonce@);
                }
                Ok(())
            },
            None => Err(SigningError::InvalidNonce),
        }
    }

    /// Checks the envelope's form and the signature. An envelope that
    /// passes is handed back wrapped, as evidence that it was checked.
    pub fn self_authenticate(self) -> (r: Result<Authenticated, AuthenticationError>)
        ensures
            match r {
                Ok(a) => a@ == self@ && authentic(self@),
                Err(AuthenticationError::MalformedHeader) => !well_formed(self@),
                Err(AuthenticationError::BadSignature) => {
                    &&& well_formed(self@)
                    &&& !schnorr_accepts(
                        self@.header.signature.unwrap()@,
                        envelope_hash(self@),
                        self@.header.key@,
                    )
                },
            },
    {
        proof {
            reveal(authentic);
        }
        if (self.header.height == 0) != self.header.ancestors.is_none() {
            return Err(AuthenticationError::MalformedHeader);
        }
        if !check_tips_sorted(&self.header.tips) {
            return Err(AuthenticationError::MalformedHeader);
        }
        let sig = match self.header.unsigned.signature {
            Some(sig) => sig,
            None => {
                return Err(AuthenticationError::MalformedHeader);
            },
        };
        if !check_canonical(self.msg.as_slice()) {
            return Err(AuthenticationError::MalformedHeader);
        }
        let hash = self.canonicalized_hash();
        if schnorr_verify(&sig, &hash, &self.header.key) {
            Ok(Authenticated { inner: self, hash })
        } else {
            Err(AuthenticationError::BadSignature)
        }
    }
}

} // verus!
