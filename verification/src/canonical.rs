//! The canonical text of an envelope can be read in one way only: two
//! envelopes with the same canonical text agree in every field that the
//! text covers, that is in every field but the signature.
//!
//! The proof reads the text from the left. Every piece of it is either a
//! fixed text, a hex string of fixed length, a number that ends where the
//! digits end, or a list whose next byte tells whether another element
//! follows. So each piece can be split off in one way only, and what is
//! left must agree again.

use vstd::prelude::*;
use crate::bytes::{ascii, decimal_digits, hex_bytes, lemma_hex_injective};
use crate::envelope::{
    canonical_ancestors,
    canonical_bytes,
    canonical_checkpoint,
    canonical_checkpoints,
    canonical_header,
    canonical_tip,
    canonical_tips,
    with_signature,
    Ancestors,
    CheckPoint,
    EnvelopeView,
    HeaderView,
    TipEntry,
};

verus! {

/// Concatenation is associative.
pub proof fn lemma_assoc(a: Seq<u8>, b: Seq<u8>, c: Seq<u8>)
    ensures
        (a + b) + c == a + (b + c),
{
}

/// What follows the same text is the same.
pub proof fn lemma_same_start(p: Seq<u8>, x: Seq<u8>, y: Seq<u8>)
    requires
        p + x == p + y,
    ensures
        x == y,
{
    assert((p + x).len() == p.len() + x.len());
    assert forall|i: int| 0 <= i < x.len() implies x[i] == y[i] by {
        assert((p + x)[p.len() + i] == x[i]);
    }
}

/// Two texts of the same length at the start of the same text are the
/// same, and so is what follows them.
pub proof fn lemma_same_length_start(p: Seq<u8>, q: Seq<u8>, x: Seq<u8>, y: Seq<u8>)
    requires
        p.len() == q.len(),
        p + x == q + y,
    ensures
        p == q,
        x == y,
{
    assert forall|i: int| 0 <= i < p.len() implies p[i] == q[i] by {
        assert((p + x)[i] == p[i]);
    }
    assert(p =~= q);
    lemma_same_start(p, x, y);
}

/// The byte is a decimal digit.
pub open spec fn is_digit(b: u8) -> bool {
    48 <= b <= 57
}

/// The number that a text of digits stands for.
pub open spec fn decimal_value(digits: Seq<u8>) -> nat
    decreases digits.len(),
{
    if digits.len() == 0 {
        0
    } else {
        decimal_value(digits.drop_last()) * 10 + (digits.last() - 48) as nat
    }
}

/// A number written in decimal is not empty, holds digits only, and
/// stands for the number.
pub proof fn lemma_decimal_digits(n: nat)
    ensures
        decimal_digits(n).len() >= 1,
        forall|i: int| 0 <= i < decimal_digits(n).len() ==> is_digit(#[trigger] decimal_digits(n)[i]),
        decimal_value(decimal_digits(n)) == n,
    decreases n,
{
    let d = decimal_digits(n);
    if n < 10 {
        assert(decimal_value(d.drop_last()) == 0);
    } else {
        lemma_decimal_digits(n / 10);
        let shorter = decimal_digits(n / 10);
        assert(d.drop_last() =~= shorter);
        assert forall|i: int| 0 <= i < d.len() implies is_digit(#[trigger] d[i]) by {}
    }
}

/// A number at the start of a text ends where the digits end: if what
/// follows does not start with a digit, the number and what follows can
/// be read in one way only.
pub proof fn lemma_number_start(n: nat, m: nat, x: Seq<u8>, y: Seq<u8>)
    requires
        decimal_digits(n) + x == decimal_digits(m) + y,
        x.len() > 0,
        y.len() > 0,
        !is_digit(x[0]),
        !is_digit(y[0]),
    ensures
        n == m,
        x == y,
{
    let p = decimal_digits(n);
    let q = decimal_digits(m);
    lemma_decimal_digits(n);
    lemma_decimal_digits(m);
    if p.len() < q.len() {
        assert((p + x)[p.len() as int] == x[0]);
    } else if q.len() < p.len() {
        assert((q + y)[q.len() as int] == y[0]);
    }
    lemma_same_length_start(p, q, x, y);
}

/// A 32-byte value in hex at the start of a text can be read in one way
/// only.
pub proof fn lemma_hex_start(a: [u8; 32], b: [u8; 32], x: Seq<u8>, y: Seq<u8>)
    requires
        hex_bytes(a@) + x == hex_bytes(b@) + y,
    ensures
        a == b,
        x == y,
{
    lemma_same_length_start(hex_bytes(a@), hex_bytes(b@), x, y);
    lemma_hex_injective(a@, b@);
}

// ---------------------------------------------------------------------------
// Tips
// ---------------------------------------------------------------------------

/// The text of a tip, followed by `rest`, piece by piece.
proof fn lemma_tip_pieces(t: TipEntry, rest: Seq<u8>)
    ensures
        canonical_tip(t) + rest == ascii("[\""@) + (hex_bytes(t.key@) + (ascii("\","@) + (
        decimal_digits(t.height as nat) + (ascii(",\""@) + (hex_bytes(t.hash@) + (ascii("\"]"@)
            + rest)))))),
        (canonical_tip(t) + rest)[0] == 91,
{
    reveal_strlit("[\"");
    let p0 = ascii("[\""@);
    let p1 = hex_bytes(t.key@);
    let p2 = ascii("\","@);
    let p3 = decimal_digits(t.height as nat);
    let p4 = ascii(",\""@);
    let p5 = hex_bytes(t.hash@);
    let p6 = ascii("\"]"@);
    lemma_assoc(p0 + p1 + p2 + p3 + p4 + p5, p6, rest);
    lemma_assoc(p0 + p1 + p2 + p3 + p4, p5, p6 + rest);
    lemma_assoc(p0 + p1 + p2 + p3, p4, p5 + (p6 + rest));
    lemma_assoc(p0 + p1 + p2, p3, p4 + (p5 + (p6 + rest)));
    lemma_assoc(p0 + p1, p2, p3 + (p4 + (p5 + (p6 + rest))));
    lemma_assoc(p0, p1, p2 + (p3 + (p4 + (p5 + (p6 + rest)))));
}

/// A tip at the start of a text can be read in one way only.
proof fn lemma_tip_start(a: TipEntry, b: TipEntry, x: Seq<u8>, y: Seq<u8>)
    requires
        canonical_tip(a) + x == canonical_tip(b) + y,
    ensures
        a == b,
        x == y,
{
    lemma_tip_pieces(a, x);
    lemma_tip_pieces(b, y);
    let a6 = ascii("\"]"@) + x;
    let b6 = ascii("\"]"@) + y;
    let a5 = hex_bytes(a.hash@) + a6;
    let b5 = hex_bytes(b.hash@) + b6;
    let a4 = ascii(",\""@) + a5;
    let b4 = ascii(",\""@) + b5;
    let a3 = decimal_digits(a.height as nat) + a4;
    let b3 = decimal_digits(b.height as nat) + b4;
    let a2 = ascii("\","@) + a3;
    let b2 = ascii("\","@) + b3;
    let a1 = hex_bytes(a.key@) + a2;
    let b1 = hex_bytes(b.key@) + b2;
    lemma_same_start(ascii("[\""@), a1, b1);
    lemma_hex_start(a.key, b.key, a2, b2);
    lemma_same_start(ascii("\","@), a3, b3);
    assert(a4.len() > 0 && b4.len() > 0 && a4[0] == 44 && b4[0] == 44) by {
        reveal_strlit(",\"");
    }
    lemma_number_start(a.height as nat, b.height as nat, a4, b4);
    lemma_same_start(ascii(",\""@), a5, b5);
    lemma_hex_start(a.hash, b.hash, a6, b6);
    lemma_same_start(ascii("\"]"@), x, y);
}

/// What follows the tip at position `i`: the closing of the list if it is
/// the last one, else a comma and the tips behind it.
spec fn after_tip(tips: Seq<TipEntry>, i: int, rest: Seq<u8>) -> Seq<u8> {
    if i + 1 == tips.len() {
        rest
    } else {
        ascii(","@) + (canonical_tips(tips, i + 1) + rest)
    }
}

proof fn lemma_tips_unfold(tips: Seq<TipEntry>, i: int, rest: Seq<u8>)
    requires
        0 <= i < tips.len(),
        rest.len() > 0,
        rest[0] == 93,
    ensures
        canonical_tips(tips, i) + rest == canonical_tip(tips[i]) + after_tip(tips, i, rest),
        after_tip(tips, i, rest).len() > 0,
        after_tip(tips, i, rest)[0] == if i + 1 == tips.len() {
            93u8
        } else {
            44u8
        },
{
    reveal_strlit(",");
    if i + 1 != tips.len() {
        let e = canonical_tip(tips[i]);
        let c = ascii(","@);
        let more = canonical_tips(tips, i + 1);
        lemma_assoc(e + c, more, rest);
        lemma_assoc(e, c, more + rest);
    }
}

/// A list of tips in front of the closing of the list can be read in one
/// way only.
pub proof fn lemma_tips_start(
    a: Seq<TipEntry>,
    i: int,
    b: Seq<TipEntry>,
    j: int,
    x: Seq<u8>,
    y: Seq<u8>,
)
    requires
        0 <= i <= a.len(),
        0 <= j <= b.len(),
        canonical_tips(a, i) + x == canonical_tips(b, j) + y,
        x.len() > 0,
        y.len() > 0,
        x[0] == 93,
        y[0] == 93,
    ensures
        a.skip(i) == b.skip(j),
        x == y,
    decreases a.len() - i,
{
    if i == a.len() && j == b.len() {
    } else if i == a.len() {
        lemma_tips_unfold(b, j, y);
        lemma_tip_pieces(b[j], after_tip(b, j, y));
    } else if j == b.len() {
        lemma_tips_unfold(a, i, x);
        lemma_tip_pieces(a[i], after_tip(a, i, x));
    } else {
        lemma_tips_unfold(a, i, x);
        lemma_tips_unfold(b, j, y);
        let ra = after_tip(a, i, x);
        let rb = after_tip(b, j, y);
        lemma_tip_start(a[i], b[j], ra, rb);
        if i + 1 == a.len() {
        } else {
            lemma_same_start(
                ascii(","@),
                canonical_tips(a, i + 1) + x,
                canonical_tips(b, j + 1) + y,
            );
            lemma_tips_start(a, i + 1, b, j + 1, x, y);
            assert(a.skip(i) =~= seq![a[i]] + a.skip(i + 1));
        }
    }
}

// ---------------------------------------------------------------------------
// Checkpoints
// ---------------------------------------------------------------------------

proof fn lemma_checkpoint_pieces(c: CheckPoint, rest: Seq<u8>)
    ensures
        canonical_checkpoint(c) + rest == ascii("[\""@) + (hex_bytes(c.block@) + (ascii("\","@) + (
        decimal_digits(c.height as nat) + (ascii("]"@) + rest)))),
        (canonical_checkpoint(c) + rest)[0] == 91,
{
    reveal_strlit("[\"");
    let p0 = ascii("[\""@);
    let p1 = hex_bytes(c.block@);
    let p2 = ascii("\","@);
    let p3 = decimal_digits(c.height as nat);
    let p4 = ascii("]"@);
    lemma_assoc(p0 + p1 + p2 + p3, p4, rest);
    lemma_assoc(p0 + p1 + p2, p3, p4 + rest);
    lemma_assoc(p0 + p1, p2, p3 + (p4 + rest));
    lemma_assoc(p0, p1, p2 + (p3 + (p4 + rest)));
}

/// A checkpoint at the start of a text can be read in one way only.
proof fn lemma_checkpoint_start(a: CheckPoint, b: CheckPoint, x: Seq<u8>, y: Seq<u8>)
    requires
        canonical_checkpoint(a) + x == canonical_checkpoint(b) + y,
    ensures
        a == b,
        x == y,
{
    lemma_checkpoint_pieces(a, x);
    lemma_checkpoint_pieces(b, y);
    let a4 = ascii("]"@) + x;
    let b4 = ascii("]"@) + y;
    let a3 = decimal_digits(a.height as nat) + a4;
    let b3 = decimal_digits(b.height as nat) + b4;
    let a2 = ascii("\","@) + a3;
    let b2 = ascii("\","@) + b3;
    let a1 = hex_bytes(a.block@) + a2;
    let b1 = hex_bytes(b.block@) + b2;
    lemma_same_start(ascii("[\""@), a1, b1);
    lemma_hex_start(a.block, b.block, a2, b2);
    lemma_same_start(ascii("\","@), a3, b3);
    assert(a4.len() > 0 && b4.len() > 0 && a4[0] == 93 && b4[0] == 93) by {
        reveal_strlit("]");
    }
    lemma_number_start(a.height as nat, b.height as nat, a4, b4);
    lemma_same_start(ascii("]"@), x, y);
}

spec fn after_checkpoint(points: Seq<CheckPoint>, i: int, rest: Seq<u8>) -> Seq<u8> {
    if i + 1 == points.len() {
        rest
    } else {
        ascii(","@) + (canonical_checkpoints(points, i + 1) + rest)
    }
}

proof fn lemma_checkpoints_unfold(points: Seq<CheckPoint>, i: int, rest: Seq<u8>)
    requires
        0 <= i < points.len(),
        rest.len() > 0,
        rest[0] == 93,
    ensures
        canonical_checkpoints(points, i) + rest == canonical_checkpoint(points[i])
            + after_checkpoint(points, i, rest),
        after_checkpoint(points, i, rest).len() > 0,
        after_checkpoint(points, i, rest)[0] == if i + 1 == points.len() {
            93u8
        } else {
            44u8
        },
{
    reveal_strlit(",");
    if i + 1 != points.len() {
        let e = canonical_checkpoint(points[i]);
        let c = ascii(","@);
        let more = canonical_checkpoints(points, i + 1);
        lemma_assoc(e + c, more, rest);
        lemma_assoc(e, c, more + rest);
    }
}

/// A list of checkpoints in front of the closing of the list can be read
/// in one way only.
pub proof fn lemma_checkpoints_start(
    a: Seq<CheckPoint>,
    i: int,
    b: Seq<CheckPoint>,
    j: int,
    x: Seq<u8>,
    y: Seq<u8>,
)
    requires
        0 <= i <= a.len(),
        0 <= j <= b.len(),
        canonical_checkpoints(a, i) + x == canonical_checkpoints(b, j) + y,
        x.len() > 0,
        y.len() > 0,
        x[0] == 93,
        y[0] == 93,
    ensures
        a.skip(i) == b.skip(j),
        x == y,
    decreases a.len() - i,
{
    if i == a.len() && j == b.len() {
    } else if i == a.len() {
        lemma_checkpoints_unfold(b, j, y);
        lemma_checkpoint_pieces(b[j], after_checkpoint(b, j, y));
    } else if j == b.len() {
        lemma_checkpoints_unfold(a, i, x);
        lemma_checkpoint_pieces(a[i], after_checkpoint(a, i, x));
    } else {
        lemma_checkpoints_unfold(a, i, x);
        lemma_checkpoints_unfold(b, j, y);
        let ra = after_checkpoint(a, i, x);
        let rb = after_checkpoint(b, j, y);
        lemma_checkpoint_start(a[i], b[j], ra, rb);
        if i + 1 == a.len() {
        } else {
            lemma_same_start(
                ascii(","@),
                canonical_checkpoints(a, i + 1) + x,
                canonical_checkpoints(b, j + 1) + y,
            );
            lemma_checkpoints_start(a, i + 1, b, j + 1, x, y);
            assert(a.skip(i) =~= seq![a[i]] + a.skip(i + 1));
        }
    }
}

// ---------------------------------------------------------------------------
// Ancestors
// ---------------------------------------------------------------------------

proof fn lemma_ancestors_pieces(a: Ancestors, rest: Seq<u8>)
    ensures
        canonical_ancestors(Some(a)) + rest == ascii("{\"genesis\":\""@) + (hex_bytes(a.genesis@)
            + (ascii("\",\"prev_msg\":\""@) + (hex_bytes(a.prev_msg@) + (ascii("\"}"@) + rest)))),
        (canonical_ancestors(Some(a)) + rest)[0] == 123,
{
    reveal_strlit("{\"genesis\":\"");
    let p0 = ascii("{\"genesis\":\""@);
    let p1 = hex_bytes(a.genesis@);
    let p2 = ascii("\",\"prev_msg\":\""@);
    let p3 = hex_bytes(a.prev_msg@);
    let p4 = ascii("\"}"@);
    lemma_assoc(p0 + p1 + p2 + p3, p4, rest);
    lemma_assoc(p0 + p1 + p2, p3, p4 + rest);
    lemma_assoc(p0 + p1, p2, p3 + (p4 + rest));
    lemma_assoc(p0, p1, p2 + (p3 + (p4 + rest)));
}

/// The ancestors at the start of a text can be read in one way only.
pub proof fn lemma_ancestors_start(a: Option<Ancestors>, b: Option<Ancestors>, x: Seq<u8>, y: Seq<u8>)
    requires
        canonical_ancestors(a) + x == canonical_ancestors(b) + y,
    ensures
        a == b,
        x == y,
{
    match (a, b) {
        (None, None) => {
            lemma_same_start(ascii("null"@), x, y);
        },
        (Some(p), Some(q)) => {
            lemma_ancestors_pieces(p, x);
            lemma_ancestors_pieces(q, y);
            let a4 = ascii("\"}"@) + x;
            let b4 = ascii("\"}"@) + y;
            let a3 = hex_bytes(p.prev_msg@) + a4;
            let b3 = hex_bytes(q.prev_msg@) + b4;
            let a2 = ascii("\",\"prev_msg\":\""@) + a3;
            let b2 = ascii("\",\"prev_msg\":\""@) + b3;
            let a1 = hex_bytes(p.genesis@) + a2;
            let b1 = hex_bytes(q.genesis@) + b2;
            lemma_same_start(ascii("{\"genesis\":\""@), a1, b1);
            lemma_hex_start(p.genesis, q.genesis, a2, b2);
            lemma_same_start(ascii("\",\"prev_msg\":\""@), a3, b3);
            lemma_hex_start(p.prev_msg, q.prev_msg, a4, b4);
            lemma_same_start(ascii("\"}"@), x, y);
        },
        (None, Some(q)) => {
            lemma_ancestors_pieces(q, y);
            assert((canonical_ancestors(a) + x)[0] == 110) by {
                reveal_strlit("null");
            }
        },
        (Some(p), None) => {
            lemma_ancestors_pieces(p, x);
            assert((canonical_ancestors(b) + y)[0] == 110) by {
                reveal_strlit("null");
            }
        },
    }
}

// ---------------------------------------------------------------------------
// The header and the envelope
// ---------------------------------------------------------------------------

/// The text of a header from the tips on, followed by `rest`.
spec fn from_tips(h: HeaderView, rest: Seq<u8>) -> Seq<u8> {
    ascii(",\"tips\":["@) + (canonical_tips(h.tips, 0) + (ascii("],\"unsigned\":{}}"@) + rest))
}

/// The text of a header from the key on, followed by `rest`.
spec fn from_key(h: HeaderView, rest: Seq<u8>) -> Seq<u8> {
    ascii(",\"key\":\""@) + (hex_bytes(h.key@) + (ascii("\",\"next_nonce\":\""@) + (hex_bytes(
        h.next_nonce@,
    ) + (ascii("\",\"sent_time_ms\":"@) + (decimal_digits(h.sent_time_ms as nat) + from_tips(
        h,
        rest,
    ))))))
}

/// The text of a header, followed by `rest`, piece by piece.
spec fn from_start(h: HeaderView, rest: Seq<u8>) -> Seq<u8> {
    ascii("{\"ancestors\":"@) + (canonical_ancestors(h.ancestors) + (ascii(
        ",\"checkpoints\":["@,
    ) + (canonical_checkpoints(h.checkpoints, 0) + (ascii("],\"height\":"@) + (decimal_digits(
        h.height as nat,
    ) + from_key(h, rest))))))
}

proof fn lemma_header_pieces(h: HeaderView, rest: Seq<u8>)
    ensures
        canonical_header(h) + rest == from_start(h, rest),
{
    let p0 = ascii("{\"ancestors\":"@);
    let p1 = canonical_ancestors(h.ancestors);
    let p2 = ascii(",\"checkpoints\":["@);
    let p3 = canonical_checkpoints(h.checkpoints, 0);
    let p4 = ascii("],\"height\":"@);
    let p5 = decimal_digits(h.height as nat);
    let p6 = ascii(",\"key\":\""@);
    let p7 = hex_bytes(h.key@);
    let p8 = ascii("\",\"next_nonce\":\""@);
    let p9 = hex_bytes(h.next_nonce@);
    let p10 = ascii("\",\"sent_time_ms\":"@);
    let p11 = decimal_digits(h.sent_time_ms as nat);
    let p12 = ascii(",\"tips\":["@);
    let p13 = canonical_tips(h.tips, 0);
    let p14 = ascii("],\"unsigned\":{}}"@);
    let r14 = p14 + rest;
    let r13 = p13 + r14;
    let r12 = p12 + r13;
    let r11 = p11 + r12;
    let r10 = p10 + r11;
    let r9 = p9 + r10;
    let r8 = p8 + r9;
    let r7 = p7 + r8;
    let r6 = p6 + r7;
    let r5 = p5 + r6;
    let r4 = p4 + r5;
    let r3 = p3 + r4;
    let r2 = p2 + r3;
    let l1 = p0 + p1;
    let l2 = l1 + p2;
    let l3 = l2 + p3;
    let l4 = l3 + p4;
    let l5 = l4 + p5;
    let l6 = l5 + p6;
    let l7 = l6 + p7;
    let l8 = l7 + p8;
    let l9 = l8 + p9;
    let l10 = l9 + p10;
    let l11 = l10 + p11;
    let l12 = l11 + p12;
    let l13 = l12 + p13;
    lemma_assoc(l13, p14, rest);
    lemma_assoc(l12, p13, r14);
    lemma_assoc(l11, p12, r13);
    lemma_assoc(l10, p11, r12);
    lemma_assoc(l9, p10, r11);
    lemma_assoc(l8, p9, r10);
    lemma_assoc(l7, p8, r9);
    lemma_assoc(l6, p7, r8);
    lemma_assoc(l5, p6, r7);
    lemma_assoc(l4, p5, r6);
    lemma_assoc(l3, p4, r5);
    lemma_assoc(l2, p3, r4);
    lemma_assoc(l1, p2, r3);
    lemma_assoc(p0, p1, r2);
}

/// `a` and `b` agree in everything that the signature covers.
pub open spec fn same_signed_fields(a: HeaderView, b: HeaderView) -> bool {
    &&& a.key == b.key
    &&& a.next_nonce == b.next_nonce
    &&& a.ancestors == b.ancestors
    &&& a.tips == b.tips
    &&& a.height == b.height
    &&& a.sent_time_ms == b.sent_time_ms
    &&& a.checkpoints == b.checkpoints
}

proof fn lemma_from_tips_start(a: HeaderView, b: HeaderView, x: Seq<u8>, y: Seq<u8>)
    requires
        from_tips(a, x) == from_tips(b, y),
    ensures
        a.tips == b.tips,
        x == y,
{
    let close_a = ascii("],\"unsigned\":{}}"@) + x;
    let close_b = ascii("],\"unsigned\":{}}"@) + y;
    lemma_same_start(
        ascii(",\"tips\":["@),
        canonical_tips(a.tips, 0) + close_a,
        canonical_tips(b.tips, 0) + close_b,
    );
    assert(close_a.len() > 0 && close_b.len() > 0 && close_a[0] == 93 && close_b[0] == 93) by {
        reveal_strlit("],\"unsigned\":{}}");
    }
    lemma_tips_start(a.tips, 0, b.tips, 0, close_a, close_b);
    assert(a.tips.skip(0) =~= a.tips);
    lemma_same_start(ascii("],\"unsigned\":{}}"@), x, y);
}

proof fn lemma_from_key_start(a: HeaderView, b: HeaderView, x: Seq<u8>, y: Seq<u8>)
    requires
        from_key(a, x) == from_key(b, y),
    ensures
        a.key == b.key,
        a.next_nonce == b.next_nonce,
        a.sent_time_ms == b.sent_time_ms,
        a.tips == b.tips,
        x == y,
{
    let a5 = decimal_digits(a.sent_time_ms as nat) + from_tips(a, x);
    let b5 = decimal_digits(b.sent_time_ms as nat) + from_tips(b, y);
    let a4 = ascii("\",\"sent_time_ms\":"@) + a5;
    let b4 = ascii("\",\"sent_time_ms\":"@) + b5;
    let a3 = hex_bytes(a.next_nonce@) + a4;
    let b3 = hex_bytes(b.next_nonce@) + b4;
    let a2 = ascii("\",\"next_nonce\":\""@) + a3;
    let b2 = ascii("\",\"next_nonce\":\""@) + b3;
    let a1 = hex_bytes(a.key@) + a2;
    let b1 = hex_bytes(b.key@) + b2;
    lemma_same_start(ascii(",\"key\":\""@), a1, b1);
    lemma_hex_start(a.key, b.key, a2, b2);
    lemma_same_start(ascii("\",\"next_nonce\":\""@), a3, b3);
    lemma_hex_start(a.next_nonce, b.next_nonce, a4, b4);
    lemma_same_start(ascii("\",\"sent_time_ms\":"@), a5, b5);
    assert(from_tips(a, x).len() > 0 && from_tips(b, y).len() > 0 && from_tips(a, x)[0] == 44
        && from_tips(b, y)[0] == 44) by {
        reveal_strlit(",\"tips\":[");
    }
    lemma_number_start(
        a.sent_time_ms as nat,
        b.sent_time_ms as nat,
        from_tips(a, x),
        from_tips(b, y),
    );
    lemma_from_tips_start(a, b, x, y);
}

/// A header at the start of a text can be read in one way only.
pub proof fn lemma_header_start(a: HeaderView, b: HeaderView, x: Seq<u8>, y: Seq<u8>)
    requires
        canonical_header(a) + x == canonical_header(b) + y,
    ensures
        same_signed_fields(a, b),
        x == y,
{
    lemma_header_pieces(a, x);
    lemma_header_pieces(b, y);
    let a5 = decimal_digits(a.height as nat) + from_key(a, x);
    let b5 = decimal_digits(b.height as nat) + from_key(b, y);
    let a4 = ascii("],\"height\":"@) + a5;
    let b4 = ascii("],\"height\":"@) + b5;
    let a3 = canonical_checkpoints(a.checkpoints, 0) + a4;
    let b3 = canonical_checkpoints(b.checkpoints, 0) + b4;
    let a2 = ascii(",\"checkpoints\":["@) + a3;
    let b2 = ascii(",\"checkpoints\":["@) + b3;
    let a1 = canonical_ancestors(a.ancestors) + a2;
    let b1 = canonical_ancestors(b.ancestors) + b2;
    lemma_same_start(ascii("{\"ancestors\":"@), a1, b1);
    lemma_ancestors_start(a.ancestors, b.ancestors, a2, b2);
    lemma_same_start(ascii(",\"checkpoints\":["@), a3, b3);
    assert(a4.len() > 0 && b4.len() > 0 && a4[0] == 93 && b4[0] == 93) by {
        reveal_strlit("],\"height\":");
    }
    lemma_checkpoints_start(a.checkpoints, 0, b.checkpoints, 0, a4, b4);
    assert(a.checkpoints.skip(0) =~= a.checkpoints);
    assert(b.checkpoints.skip(0) =~= b.checkpoints);
    lemma_same_start(ascii("],\"height\":"@), a5, b5);
    assert(from_key(a, x).len() > 0 && from_key(b, y).len() > 0 && from_key(a, x)[0] == 44
        && from_key(b, y)[0] == 44) by {
        reveal_strlit(",\"key\":\"");
    }
    lemma_number_start(a.height as nat, b.height as nat, from_key(a, x), from_key(b, y));
    lemma_from_key_start(a, b, x, y);
}

/// Two envelopes with the same canonical text agree in every field that is
/// signed: they differ in their signatures at most.
pub proof fn lemma_canonical_injective(a: EnvelopeView, b: EnvelopeView)
    requires
        canonical_bytes(a) == canonical_bytes(b),
    ensures
        same_signed_fields(a.header, b.header),
        a.msg == b.msg,
        with_signature(a, None) == with_signature(b, None),
{
    let open = ascii("{\"header\":"@);
    let mid = ascii(",\"msg\":"@);
    let close = ascii("}"@);
    let ra = mid + (a.msg + close);
    let rb = mid + (b.msg + close);
    let ha = canonical_header(a.header);
    let hb = canonical_header(b.header);
    assert(canonical_bytes(a) == open + (ha + ra)) by {
        lemma_assoc(open + ha + mid, a.msg, close);
        lemma_assoc(open + ha, mid, a.msg + close);
        lemma_assoc(open, ha, ra);
    }
    assert(canonical_bytes(b) == open + (hb + rb)) by {
        lemma_assoc(open + hb + mid, b.msg, close);
        lemma_assoc(open + hb, mid, b.msg + close);
        lemma_assoc(open, hb, rb);
    }
    lemma_same_start(open, ha + ra, hb + rb);
    lemma_header_start(a.header, b.header, ra, rb);
    lemma_same_start(mid, a.msg + close, b.msg + close);
    assert(a.msg.len() == b.msg.len()) by {}
    lemma_same_length_start(a.msg, b.msg, close, close);
}

/// The hash is a function of what is signed: envelopes that agree in
/// every signed field have the same canonical text and the same hash,
/// whatever their signatures are.
pub proof fn lemma_hash_of_signed_fields(a: EnvelopeView, b: EnvelopeView)
    requires
        with_signature(a, None) == with_signature(b, None),
    ensures
        canonical_bytes(a) == canonical_bytes(b),
        crate::envelope::envelope_hash(a) == crate::envelope::envelope_hash(b),
{
    crate::envelope::lemma_canonical_ignores_signature(a, None);
    crate::envelope::lemma_canonical_ignores_signature(b, None);
}

} // verus!
