use vstd::prelude::*;
use crate::request::{RequestHeader, headers_view, header_value};

verus! {

/// The value of a hexadecimal digit, either case.
pub open spec fn hex_value(b: u8) -> Option<int> {
    if 48 <= b <= 57 {
        Some(b - 48)
    } else if 97 <= b <= 102 {
        Some(b - 87)
    } else if 65 <= b <= 70 {
        Some(b - 55)
    } else {
        None
    }
}

/// The bytes that the hex text `s` spells, two digits to a byte; `None` for
/// an odd length or a character that is not a hex digit.
pub open spec fn hex_decode(s: Seq<u8>) -> Option<Seq<u8>> {
    if s.len() % 2 == 0 && forall|i: int| 0 <= i < s.len() ==> (#[trigger] hex_value(s[i])) is Some {
        Some(
            Seq::new(
                (s.len() / 2) as nat,
                |i: int| (hex_value(s[2 * i])->0 * 16 + hex_value(s[2 * i + 1])->0) as u8,
            ),
        )
    } else {
        None
    }
}

fn hex_digit(b: u8) -> (r: Option<u8>)
    ensures
        match r {
            Some(v) => hex_value(b) == Some(v as int) && v < 16,
            None => hex_value(b) is None,
        },
{
    if 48 <= b && b <= 57 {
        Some(b - 48)
    } else if 97 <= b && b <= 102 {
        Some(b - 87)
    } else if 65 <= b && b <= 70 {
        Some(b - 55)
    } else {
        None
    }
}

/// Decodes hex text two characters at a time.
pub fn parse_hex_str(string: &[u8]) -> (r: Option<Vec<u8>>)
    ensures
        match r {
            Some(v) => hex_decode(string@) == Some(v@),
            None => hex_decode(string@) is None,
        },
{
    let len = string.len();
    if len % 2 != 0 {
        return None;
    }
    let mut out: Vec<u8> = Vec::with_capacity(len / 2);
    let mut i: usize = 0;
    while i < len / 2
        invariant
            len == string@.len(),
            len % 2 == 0,
            i <= len / 2,
            out@.len() == i,
            forall|j: int| 0 <= j < 2 * i ==> (#[trigger] hex_value(string@[j])) is Some,
            forall|j: int|
                0 <= j < i ==> #[trigger] out@[j] == (hex_value(string@[2 * j])->0 * 16
                    + hex_value(string@[2 * j + 1])->0) as u8,
        decreases len / 2 - i,
    {
        let hi = match hex_digit(string[2 * i]) {
            Some(v) => v,
            None => {
                return None;
            },
        };
        let lo = match hex_digit(string[2 * i + 1]) {
            Some(v) => v,
            None => {
                return None;
            },
        };
        out.push(hi * 16 + lo);
        i = i + 1;
    }
    assert forall|j: int| 0 <= j < len implies (#[trigger] hex_value(string@[j])) is Some by {
        assert(j < 2 * i);
    }
    assert(out@ =~= hex_decode(string@)->0);
    Some(out)
}

/// Whether `signature` is a valid Ed25519 signature of `message` under the
/// public key `key`, as ring decides it.
pub uninterp spec fn ed25519_accepts(key: Seq<u8>, message: Seq<u8>, signature: Seq<u8>) -> bool;

/// Relies on ring::signature::UnparsedPublicKey::verify with
/// ring::signature::ED25519: `Ok` exactly when the signature is valid, and the
/// verdict depends on the three byte strings alone.
#[verifier::external_body]
fn ed25519_verify(key: &[u8], message: &[u8], signature: &[u8]) -> (r: bool)
    ensures
        r == ed25519_accepts(key@, message@, signature@),
{
    ring::signature::UnparsedPublicKey::new(&ring::signature::ED25519, key).verify(
        message,
        signature,
    ).is_ok()
}

/// `X-Signature-Ed25519`
pub open spec fn signature_header_name() -> Seq<u8> {
    seq![88u8, 45u8, 83u8, 105u8, 103u8, 110u8, 97u8, 116u8, 117u8, 114u8, 101u8, 45u8, 69u8, 100u8, 50u8, 53u8, 53u8, 49u8, 57u8]
}

/// `X-Signature-Timestamp`
pub open spec fn timestamp_header_name() -> Seq<u8> {
    seq![88u8, 45u8, 83u8, 105u8, 103u8, 110u8, 97u8, 116u8, 117u8, 114u8, 101u8, 45u8, 84u8, 105u8, 109u8, 101u8, 115u8, 116u8, 97u8, 109u8, 112u8]
}

fn signature_header_bytes() -> (r: Vec<u8>)
    ensures
        r@ == signature_header_name(),
{
    vec![88u8, 45u8, 83u8, 105u8, 103u8, 110u8, 97u8, 116u8, 117u8, 114u8, 101u8, 45u8, 69u8, 100u8, 50u8, 53u8, 53u8, 49u8, 57u8]
}

fn timestamp_header_bytes() -> (r: Vec<u8>)
    ensures
        r@ == timestamp_header_name(),
{
    vec![88u8, 45u8, 83u8, 105u8, 103u8, 110u8, 97u8, 116u8, 117u8, 114u8, 101u8, 45u8, 84u8, 105u8, 109u8, 101u8, 115u8, 116u8, 97u8, 109u8, 112u8]
}

/// The signature check: the first signature field decodes from hex, a
/// timestamp field exists, the hex public key decodes, and the signature is
/// valid for the timestamp's bytes followed by the body.
pub open spec fn interaction_verified(
    hs: Seq<(Seq<u8>, Seq<u8>)>,
    body: Seq<u8>,
    public_key_hex: Seq<u8>,
) -> bool {
    match header_value(hs, signature_header_name()) {
        None => false,
        Some(sig_hex) => match hex_decode(sig_hex) {
            None => false,
            Some(sig) => match header_value(hs, timestamp_header_name()) {
                None => false,
                Some(ts) => match hex_decode(public_key_hex) {
                    None => false,
                    Some(key) => ed25519_accepts(key, ts + body, sig),
                },
            },
        },
    }
}

/// Checks the signature of a webhook delivery before anything reads its body.
pub fn verify_interaction(req: &RequestHeader, body: &[u8], public_key_hex: &[u8]) -> (r: bool)
    ensures
        r == interaction_verified(headers_view(req.headers@), body@, public_key_hex@),
{
    let sig_name = signature_header_bytes();
    let ts_name = timestamp_header_bytes();
    let ghost hv = headers_view(req.headers@);
    let sig = match req.find_header(sig_name.as_slice()) {
        None => {
            return false;
        },
        Some(k) => {
            assert(hv[k as int].1 == req.headers@[k as int].1@);
            match parse_hex_str(req.headers[k].1.as_slice()) {
                None => {
                    return false;
                },
                Some(sig) => sig,
            }
        },
    };
    let ts_index = match req.find_header(ts_name.as_slice()) {
        None => {
            return false;
        },
        Some(k) => k,
    };
    assert(hv[ts_index as int].1 == req.headers@[ts_index as int].1@);
    let key = match parse_hex_str(public_key_hex) {
        None => {
            return false;
        },
        Some(key) => key,
    };
    let mut message: Vec<u8> = Vec::new();
    message.extend_from_slice(req.headers[ts_index].1.as_slice());
    message.extend_from_slice(body);
    assert(message@ =~= req.headers@[ts_index as int].1@ + body@);
    ed25519_verify(key.as_slice(), message.as_slice(), sig.as_slice())
}

/// A signature field that is not well-formed hex (odd length, or a character
/// that is not a hex digit) is refused whatever the key, timestamp and
/// body: the cryptographic check is never the deciding step.
pub proof fn lemma_malformed_signature_rejected(
    hs: Seq<(Seq<u8>, Seq<u8>)>,
    body: Seq<u8>,
    public_key_hex: Seq<u8>,
)
    requires
        header_value(hs, signature_header_name()) is Some,
        hex_decode(header_value(hs, signature_header_name())->0) is None,
    ensures
        !interaction_verified(hs, body, public_key_hex),
{
}

/// An odd-length text never decodes.
pub proof fn lemma_odd_length_hex(s: Seq<u8>)
    requires
        s.len() % 2 == 1,
    ensures
        hex_decode(s) is None,
{
}

/// A text with a character outside the hex digits never decodes.
pub proof fn lemma_non_hex_digit(s: Seq<u8>, i: int)
    requires
        0 <= i < s.len(),
        hex_value(s[i]) is None,
    ensures
        hex_decode(s) is None,
{
}

/// Without a signature field or a timestamp field, a delivery is refused.
pub proof fn lemma_missing_fields_rejected(
    hs: Seq<(Seq<u8>, Seq<u8>)>,
    body: Seq<u8>,
    public_key_hex: Seq<u8>,
)
    requires
        header_value(hs, signature_header_name()) is None
            || header_value(hs, timestamp_header_name()) is None,
    ensures
        !interaction_verified(hs, body, public_key_hex),
{
}

} // verus!
