//! Byte-level helpers shared by the rest of the crate: comparison of
//! fixed-size identifiers, and the textual encodings (lower-case hex,
//! decimal) that appear in canonical envelopes and in handshake frames.

use vstd::prelude::*;
use vstd::string::*;

verus! {

/// `a` and `b` agree on every position before `k`, and `a` is smaller at `k`.
pub open spec fn differ_first_at(a: Seq<u8>, b: Seq<u8>, k: int) -> bool {
    &&& 0 <= k < a.len()
    &&& k < b.len()
    &&& a[k] < b[k]
    &&& forall|j: int| 0 <= j < k ==> a[j] == b[j]
}

/// Lexicographic order on byte strings, as used to sort keys and hashes.
pub open spec fn lex_lt(a: Seq<u8>, b: Seq<u8>) -> bool {
    exists|k: int| differ_first_at(a, b, k)
}

/// No byte string is below itself.
pub proof fn lemma_lex_lt_irreflexive(a: Seq<u8>)
    ensures
        !lex_lt(a, a),
{
}

/// The lexicographic order is transitive.
pub proof fn lemma_lex_lt_transitive(a: Seq<u8>, b: Seq<u8>, c: Seq<u8>)
    requires
        lex_lt(a, b),
        lex_lt(b, c),
    ensures
        lex_lt(a, c),
{
    let k1 = choose|k: int| differ_first_at(a, b, k);
    let k2 = choose|k: int| differ_first_at(b, c, k);
    if k1 <= k2 {
        assert(differ_first_at(a, c, k1));
    } else {
        assert(differ_first_at(a, c, k2));
    }
}

/// Two byte strings cannot be below each other.
pub proof fn lemma_lex_lt_asymmetric(a: Seq<u8>, b: Seq<u8>)
    requires
        lex_lt(a, b),
    ensures
        !lex_lt(b, a),
{
    if lex_lt(b, a) {
        lemma_lex_lt_transitive(a, b, a);
        lemma_lex_lt_irreflexive(a);
    }
}

/// The result of comparing two identifiers.
#[derive(Clone, Copy, PartialEq, Eq, Structural, Debug)]
pub enum Order {
    Less,
    Equal,
    Greater,
}

/// Whether two 32-byte identifiers are the same.
pub fn same_bytes(a: &[u8; 32], b: &[u8; 32]) -> (r: bool)
    ensures
        r == (*a == *b),
        r == (a@ == b@),
{
    let mut i: usize = 0;
    while i < 32
        invariant
            0 <= i <= 32,
            forall|j: int| 0 <= j < i ==> a[j] == b[j],
        decreases 32 - i,
    {
        if a[i] != b[i] {
            return false;
        }
        i += 1;
    }
    assert(*a =~= *b);
    true
}

/// Three-way lexicographic comparison of two 32-byte identifiers.
pub fn compare_bytes(a: &[u8; 32], b: &[u8; 32]) -> (r: Order)
    ensures
        r == Order::Less <==> lex_lt(a@, b@),
        r == Order::Equal <==> *a == *b,
        r == Order::Greater <==> lex_lt(b@, a@),
{
    let mut i: usize = 0;
    while i < 32
        invariant
            0 <= i <= 32,
            forall|j: int| 0 <= j < i ==> a[j] == b[j],
        decreases 32 - i,
    {
        if a[i] < b[i] {
            proof {
                assert(differ_first_at(a@, b@, i as int));
                lemma_lex_lt_asymmetric(a@, b@);
            }
            return Order::Less;
        }
        if a[i] > b[i] {
            proof {
                assert(differ_first_at(b@, a@, i as int));
                lemma_lex_lt_asymmetric(b@, a@);
            }
            return Order::Greater;
        }
        i += 1;
    }
    proof {
        assert(*a =~= *b);
        lemma_lex_lt_irreflexive(a@);
    }
    Order::Equal
}

/// The bytes of a piece of ASCII text.
pub open spec fn ascii(text: Seq<char>) -> Seq<u8> {
    Seq::new(text.len(), |i: int| text[i] as u8)
}

/// Appends the bytes of an ASCII string literal.
pub fn push_text(out: &mut Vec<u8>, text: &str)
    requires
        text.is_ascii(),
    ensures
        final(out)@ == old(out)@ + ascii(text@),
{
    broadcast use vstd::string::is_ascii_spec_bytes;

    let bytes = text.as_bytes();
    let n = bytes.len();
    let mut i: usize = 0;
    while i < n
        invariant
            0 <= i <= n,
            n == bytes@.len(),
            bytes@ == ascii(text@),
            out@ == old(out)@ + ascii(text@).take(i as int),
        decreases n - i,
    {
        out.push(bytes[i]);
        i += 1;
    }
}

/// Appends a copy of `data`.
pub fn push_bytes(out: &mut Vec<u8>, data: &[u8])
    ensures
        final(out)@ == old(out)@ + data@,
{
    let n = data.len();
    let mut i: usize = 0;
    while i < n
        invariant
            0 <= i <= n,
            n == data@.len(),
            out@ == old(out)@ + data@.take(i as int),
        decreases n - i,
    {
        out.push(data[i]);
        i += 1;
    }
}

/// The decimal digits of `n`, most significant first, without padding.
pub open spec fn decimal_digits(n: nat) -> Seq<u8>
    decreases n,
{
    if n < 10 {
        seq![(48 + n) as u8]
    } else {
        decimal_digits(n / 10).push((48 + n % 10) as u8)
    }
}

/// Appends `n` in decimal.
pub fn push_decimal(out: &mut Vec<u8>, n: u64)
    ensures
        final(out)@ == old(out)@ + decimal_digits(n as nat),
    decreases n,
{
    if n >= 10 {
        push_decimal(out, n / 10);
    }
    let digit: u8 = 48 + (n % 10) as u8;
    out.push(digit);
}

/// The ASCII code of the lower-case hex digit for a value below 16.
pub open spec fn hex_digit(v: u8) -> u8 {
    if v < 10 {
        (48 + v) as u8
    } else {
        (87 + v) as u8
    }
}

/// Lower-case hex of `data`: two digits per byte, high nibble first.
pub open spec fn hex_bytes(data: Seq<u8>) -> Seq<u8> {
    Seq::new(
        2 * data.len(),
        |i: int|
            if i % 2 == 0 {
                hex_digit(data[i / 2] / 16)
            } else {
                hex_digit(data[i / 2] % 16)
            },
    )
}

fn hex_digit_of(v: u8) -> (d: u8)
    requires
        v < 16,
    ensures
        d == hex_digit(v),
{
    if v < 10 {
        48 + v
    } else {
        87 + v
    }
}

/// Appends the lower-case hex of `data`.
pub fn push_hex(out: &mut Vec<u8>, data: &[u8])
    ensures
        final(out)@ == old(out)@ + hex_bytes(data@),
{
    let n = data.len();
    let mut i: usize = 0;
    while i < n
        invariant
            0 <= i <= n,
            n == data@.len(),
            out@ == old(out)@ + hex_bytes(data@.take(i as int)),
        decreases n - i,
    {
        let b = data[i];
        out.push(hex_digit_of(b / 16));
        out.push(hex_digit_of(b % 16));
        proof {
            let prev = hex_bytes(data@.take(i as int));
            let next = hex_bytes(data@.take(i + 1));
            assert forall|j: int| 0 <= j < next.len() implies next[j] == (prev.push(
                hex_digit(b / 16),
            ).push(hex_digit(b % 16)))[j] by {
                if j < prev.len() {
                    assert(data@.take(i + 1)[j / 2] == data@.take(i as int)[j / 2]);
                } else {
                    assert(j / 2 == i);
                }
            }
            assert(next =~= prev.push(hex_digit(b / 16)).push(hex_digit(b % 16)));
        }
        i += 1;
    }
}

/// The lower-case hex of a 32-byte identifier, as text bytes.
pub fn to_hex(data: &[u8; 32]) -> (text: Vec<u8>)
    ensures
        text@ == hex_bytes(data@),
{
    let mut out: Vec<u8> = Vec::new();
    push_hex(&mut out, data.as_slice());
    out
}

/// The value of a hex digit given by its ASCII code, in either case.
pub open spec fn hex_value(c: u8) -> Option<u8> {
    if 48 <= c <= 57 {
        Some((c - 48) as u8)
    } else if 97 <= c <= 102 {
        Some((c - 87) as u8)
    } else if 65 <= c <= 70 {
        Some((c - 55) as u8)
    } else {
        None
    }
}

/// `text` is exactly 64 hex digits.
pub open spec fn is_hex32(text: Seq<u8>) -> bool {
    &&& text.len() == 64
    &&& forall|i: int| 0 <= i < 64 ==> (#[trigger] hex_value(text[i])) is Some
}

/// The 32 bytes that 64 hex digits stand for.
pub open spec fn unhex32(text: Seq<u8>) -> Seq<u8> {
    Seq::new(
        32,
        |i: int| (16 * hex_value(text[2 * i]).unwrap() + hex_value(text[2 * i + 1]).unwrap()) as u8,
    )
}

fn hex_value_of(c: u8) -> (v: Option<u8>)
    ensures
        v == hex_value(c),
        v matches Some(x) ==> x < 16,
{
    if 48 <= c && c <= 57 {
        Some(c - 48)
    } else if 97 <= c && c <= 102 {
        Some(c - 87)
    } else if 65 <= c && c <= 70 {
        Some(c - 55)
    } else {
        None
    }
}

/// Reads a 32-byte identifier from its hex form; upper and lower case are
/// both accepted, anything else than 64 hex digits is refused.
pub fn from_hex(text: &[u8]) -> (r: Option<[u8; 32]>)
    ensures
        r is Some <==> is_hex32(text@),
        r matches Some(b) ==> b@ == unhex32(text@),
{
    if text.len() != 64 {
        return None;
    }
    let mut out: [u8; 32] = [0u8; 32];
    let mut i: usize = 0;
    while i < 32
        invariant
            0 <= i <= 32,
            text@.len() == 64,
            forall|j: int| 0 <= j < 2 * i ==> (#[trigger] hex_value(text@[j])) is Some,
            forall|j: int| 0 <= j < i ==> out@[j] == unhex32(text@)[j],
        decreases 32 - i,
    {
        let hi = hex_value_of(text[2 * i]);
        let lo = hex_value_of(text[2 * i + 1]);
        match (hi, lo) {
            (Some(h), Some(l)) => {
                out[i] = 16 * h + l;
            },
            _ => {
                assert(!is_hex32(text@)) by {}
                return None;
            },
        }
        i += 1;
    }
    Some(out)
}

/// Reading back the hex of an identifier gives the identifier.
pub proof fn lemma_hex_round_trip(data: Seq<u8>)
    requires
        data.len() == 32,
    ensures
        is_hex32(hex_bytes(data)),
        unhex32(hex_bytes(data)) == data,
{
}

/// Hex is injective: equal text means equal bytes.
pub proof fn lemma_hex_injective(a: Seq<u8>, b: Seq<u8>)
    requires
        hex_bytes(a) == hex_bytes(b),
    ensures
        a == b,
{
    assert(hex_bytes(a).len() == 2 * a.len());
    assert forall|i: int| 0 <= i < a.len() implies a[i] == b[i] by {
        let x = a[i];
        assert(hex_bytes(a)[2 * i] == hex_digit(x / 16));
        assert(hex_bytes(a)[2 * i + 1] == hex_digit(x % 16));
    }
}

/// The identifiers are in strictly increasing order, so none occurs twice.
pub open spec fn strictly_sorted(s: Seq<[u8; 32]>) -> bool {
    forall|i: int, j: int| 0 <= i < j < s.len() ==> lex_lt(s[i]@, s[j]@)
}

/// `out` holds the identifiers of `input`, each once, in increasing order.
pub open spec fn is_sorted_set_of(out: Seq<[u8; 32]>, input: Seq<[u8; 32]>) -> bool {
    &&& strictly_sorted(out)
    &&& forall|h: [u8; 32]| out.contains(h) <==> input.contains(h)
}

/// Sorts identifiers and drops the repeated ones.
pub fn sort_dedup(input: &Vec<[u8; 32]>) -> (out: Vec<[u8; 32]>)
    ensures
        is_sorted_set_of(out@, input@),
{
    let n = input.len();
    let mut out: Vec<[u8; 32]> = Vec::new();
    let mut i: usize = 0;
    while i < n
        invariant
            0 <= i <= n,
            n == input@.len(),
            is_sorted_set_of(out@, input@.take(i as int)),
        decreases n - i,
    {
        let h = input[i];
        let m = out.len();
        let mut p: usize = 0;
        let mut found = false;
        while p < m
            invariant_except_break
                !found,
            invariant
                0 <= p <= m,
                m == out@.len(),
                forall|a: int| 0 <= a < p ==> lex_lt(out@[a]@, h@),
            ensures
                0 <= p <= m,
                forall|a: int| 0 <= a < p ==> lex_lt(out@[a]@, h@),
                found ==> p < m && out@[p as int] == h,
                !found && p < m ==> lex_lt(h@, out@[p as int]@),
            decreases m - p,
        {
            match compare_bytes(&out[p], &h) {
                Order::Less => {},
                Order::Equal => {
                    found = true;
                    break ;
                },
                Order::Greater => {
                    break ;
                },
            }
            p += 1;
        }
        let ghost before = out@;
        let ghost seen = input@.take(i as int);
        let ghost next = input@.take(i + 1);
        proof {
            assert forall|x: [u8; 32]| next.contains(x) <==> seen.contains(x) || x == h by {
                if x == h {
                    assert(next[i as int] == x);
                }
            }
        }
        if !found {
            out.insert(p, h);
            proof {
                let after = out@;
                assert forall|a: int, b: int| 0 <= a < b < after.len() implies lex_lt(
                    after[a]@,
                    after[b]@,
                ) by {
                    if b < p {
                    } else if b == p {
                    } else if a < p {
                    } else if a == p {
                        if b - 1 > p {
                            lemma_lex_lt_transitive(h@, before[p as int]@, before[b - 1]@);
                        }
                    }
                }
                assert forall|x: [u8; 32]| after.contains(x) <==> next.contains(x) by {
                    if before.contains(x) {
                        let k = choose|k: int| 0 <= k < before.len() && before[k] == x;
                        if k < p {
                            assert(after[k] == x);
                        } else {
                            assert(after[k + 1] == x);
                        }
                    }
                    if x == h {
                        assert(after[p as int] == x);
                    }
                }
            }
        }
        i += 1;
    }
    assert(input@.take(n as int) =~= input@);
    out
}

/// There is one way only to list a set of identifiers in increasing order.
pub proof fn lemma_sorted_set_unique(a: Seq<[u8; 32]>, b: Seq<[u8; 32]>)
    requires
        strictly_sorted(a),
        strictly_sorted(b),
        forall|h: [u8; 32]| a.contains(h) <==> b.contains(h),
    ensures
        a == b,
    decreases a.len(),
{
    if a.len() == 0 {
        if b.len() > 0 {
            assert(b.contains(b[0]));
        }
    } else {
        assert(a.contains(a[0]));
        assert(b.contains(b[0]));
        // The smallest element of each list is its first.
        let ia = choose|k: int| 0 <= k < a.len() && a[k] == b[0];
        let ib = choose|k: int| 0 <= k < b.len() && b[k] == a[0];
        if ia > 0 && ib > 0 {
            lemma_lex_lt_asymmetric(a[0]@, b[0]@);
        }
        if ia > 0 && ib == 0 {
            lemma_lex_lt_irreflexive(a[0]@);
        }
        if ib > 0 && ia == 0 {
            lemma_lex_lt_irreflexive(b[0]@);
        }
        let ra = a.drop_first();
        let rb = b.drop_first();
        assert forall|h: [u8; 32]| ra.contains(h) <==> rb.contains(h) by {
            if ra.contains(h) {
                assert(b.contains(h));
                let j = choose|j: int| 0 <= j < b.len() && b[j] == h;
                if j == 0 {
                    lemma_lex_lt_irreflexive(h@);
                }
                assert(rb[j - 1] == h);
            }
            if rb.contains(h) {
                assert(a.contains(h));
                let j = choose|j: int| 0 <= j < a.len() && a[j] == h;
                if j == 0 {
                    lemma_lex_lt_irreflexive(h@);
                }
                assert(ra[j - 1] == h);
            }
        }
        lemma_sorted_set_unique(ra, rb);
        assert(a =~= seq![a[0]] + ra);
    }
}


/// The characters of a piece of ASCII text given by its bytes.
pub open spec fn chars_of(bytes: Seq<u8>) -> Seq<char> {
    Seq::new(bytes.len(), |i: int| bytes[i] as char)
}

/// The text of one decimal digit.
fn digit_text(d: u64) -> (t: &'static str)
    requires
        d < 10,
    ensures
        t@ == chars_of(seq![(48 + d) as u8]),
{
    proof {
        reveal_strlit("0");
        reveal_strlit("1");
        reveal_strlit("2");
        reveal_strlit("3");
        reveal_strlit("4");
        reveal_strlit("5");
        reveal_strlit("6");
        reveal_strlit("7");
        reveal_strlit("8");
        reveal_strlit("9");
    }
    let t = if d == 0 {
        "0"
    } else if d == 1 {
        "1"
    } else if d == 2 {
        "2"
    } else if d == 3 {
        "3"
    } else if d == 4 {
        "4"
    } else if d == 5 {
        "5"
    } else if d == 6 {
        "6"
    } else if d == 7 {
        "7"
    } else if d == 8 {
        "8"
    } else {
        "9"
    };
    assert(t@ =~= chars_of(seq![(48 + d) as u8]));
    t
}

/// Appends `n` in decimal to a string.
pub fn push_decimal_text(out: &mut String, n: u64)
    ensures
        final(out)@ == old(out)@ + chars_of(decimal_digits(n as nat)),
    decreases n,
{
    if n >= 10 {
        push_decimal_text(out, n / 10);
    }
    out.append(digit_text(n % 10));
    proof {
        let last = seq![(48 + n % 10) as u8];
        if n >= 10 {
            assert(chars_of(decimal_digits(n as nat)) =~= chars_of(
                decimal_digits((n / 10) as nat),
            ) + chars_of(last));
        } else {
            assert(decimal_digits(n as nat) =~= last);
        }
    }
}

} // verus!
