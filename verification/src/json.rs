//! Canonical JSON for envelope payloads.
//!
//! A payload travels inside the canonical text of its envelope, so it has
//! to be canonical JSON itself. The canonical form is the one of
//! `ruma_serde`: object keys sorted, integers only, no insignificant
//! whitespace.

use vstd::prelude::*;

verus! {

/// The canonical form that `ruma_serde` gives to a JSON text; `None` where
/// the text is not JSON or holds a number that canonical JSON cannot hold.
pub uninterp spec fn canonical_json_of(text: Seq<u8>) -> Option<Seq<u8>>;

/// Calls `ruma_serde::to_canonical_value` on the parsed text and writes the
/// value out again. Trusted: the result is the named canonical form, and
/// `None` exactly where parsing or the conversion failed.
#[verifier::external_body]
fn to_canonical_json(text: &[u8]) -> (r: Option<Vec<u8>>)
    ensures
        match r {
            Some(out) => canonical_json_of(text@) == Some(out@),
            None => canonical_json_of(text@) is None,
        },
{
    let value: serde_json::Value = serde_json::from_slice(text).ok()?;
    let canonical = ruma_serde::to_canonical_value(value).ok()?;
    serde_json::to_vec(&canonical).ok()
}

/// `text` is JSON in canonical form.
pub open spec fn is_canonical_json(text: Seq<u8>) -> bool {
    canonical_json_of(text) == Some(text)
}

/// The text of the JSON value `null`.
pub open spec fn json_null() -> Seq<u8> {
    seq![110u8, 117u8, 108u8, 108u8]
}

/// The payload for an envelope, from what the caller hands in.
pub open spec fn payload_of(init: Option<Seq<u8>>) -> Option<Seq<u8>> {
    match init {
        Some(text) => canonical_json_of(text),
        None => Some(json_null()),
    }
}

/// The text handed in, if any.
pub open spec fn text_given(init: Option<&[u8]>) -> Option<Seq<u8>> {
    match init {
        Some(t) => Some(t@),
        None => None,
    }
}

/// The payload for an envelope: the canonical form of the JSON text handed
/// in, or `null` where none is; `None` where the text has no canonical form.
pub fn canonical_payload(init: Option<&[u8]>) -> (r: Option<Vec<u8>>)
    ensures
        match r {
            Some(out) => payload_of(text_given(init)) == Some(out@),
            None => payload_of(text_given(init)) is None,
        },
{
    match init {
        Some(text) => to_canonical_json(text),
        None => {
            let mut out: Vec<u8> = Vec::new();
            out.push(110u8);
            out.push(117u8);
            out.push(108u8);
            out.push(108u8);
            Some(out)
        },
    }
}

/// Whether `text` is JSON in canonical form.
pub fn check_canonical(text: &[u8]) -> (r: bool)
    ensures
        r == is_canonical_json(text@),
{
    match to_canonical_json(text) {
        None => false,
        Some(out) => {
            if out.len() != text.len() {
                return false;
            }
            let n = text.len();
            let mut i: usize = 0;
            while i < n
                invariant
                    0 <= i <= n,
                    n == text@.len(),
                    n == out@.len(),
                    canonical_json_of(text@) == Some(out@),
                    forall|j: int| 0 <= j < i ==> out@[j] == text@[j],
                decreases n - i,
            {
                if out[i] != text[i] {
                    return false;
                }
                i += 1;
            }
            assert(out@ =~= text@);
            true
        },
    }
}

} // verus!
