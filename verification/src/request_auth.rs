//! The receiving side of mesh request authentication: signed requests are
//! checked against the shared secret, and stale timestamps are refused to
//! prevent replay.

use vstd::prelude::*;
use vstd::utf8::encode_utf8;
use crate::auth::{verify_hmac, verify_result};
use crate::codec::{
    hex_decode, hex_decode_spec, hex_digit, hex_lower, hex_value, hmac_sha256_spec, sha256_spec,
    lemma_hex_digit_value, lemma_hex_lower_shape,
};
use crate::numtext::{int_text, lemma_i64_roundtrip, parse_i64, parse_i64_text};
use crate::text::str_eq;
use crate::transport::{body_hash_hex, build_signed_message, signed_message};

verus! {

/// Maximum age in seconds of a signed request.
pub const HMAC_MAX_AGE_SECS: i64 = 300;

/// How a request's authentication is judged.
#[derive(Debug, Clone, Copy, PartialEq, Eq, Structural)]
pub enum AuthOutcome {
    /// No secret is configured, or the signature is valid.
    Accepted,
    /// The timestamp is more than five minutes away from now.
    Expired,
    /// The body hash is not that of the body, or the signature does not
    /// match.
    Rejected,
}

pub open spec fn abs(x: int) -> int {
    if x < 0 {
        -x
    } else {
        x
    }
}

/// The judgement on a signed `POST` to `path` with body `body`, given the
/// signature, timestamp and body-hash headers (empty when absent) at time
/// `now`.
pub open spec fn request_auth_spec(
    secret: Option<Seq<u8>>,
    signature: Seq<char>,
    timestamp: Seq<char>,
    body_hash: Seq<char>,
    body: Seq<u8>,
    path: Seq<char>,
    now: int,
) -> AuthOutcome {
    match secret {
        None => AuthOutcome::Accepted,
        Some(key) => {
            if parse_i64_text(timestamp) is Some && abs(now - parse_i64_text(timestamp)->Some_0)
                > 300 {
                AuthOutcome::Expired
            } else if body_hash != hex_lower(sha256_spec(body)) {
                AuthOutcome::Rejected
            } else {
                let sig = match hex_decode_spec(signature) {
                    Some(b) => b,
                    None => Seq::empty(),
                };
                match verify_result(key, encode_utf8(signed_message(timestamp, "POST"@, path, Some(body_hash))), sig) {
                    Ok(true) => AuthOutcome::Accepted,
                    _ => AuthOutcome::Rejected,
                }
            }
        },
    }
}

/// Checks the HMAC headers of a `POST` to `path` carrying `body`: with a
/// configured secret, a timestamp more than five minutes from `now` is
/// expired, and otherwise the body hash must be the hex SHA-256 of the body
/// and the signature must match `timestamp:POST:path:body_hash`.
pub fn check_signed_request(
    secret: Option<&[u8]>,
    signature: &str,
    timestamp: &str,
    body_hash: &str,
    body: &[u8],
    path: &str,
    now: i64,
) -> (r: AuthOutcome)
    ensures
        r == request_auth_spec(
            match secret {
                Some(s) => Some(s@),
                None => None,
            },
            signature@,
            timestamp@,
            body_hash@,
            body@,
            path@,
            now as int,
        ),
{
    let key = match secret {
        None => return AuthOutcome::Accepted,
        Some(k) => k,
    };
    match parse_i64(timestamp) {
        Some(ts) => {
            match now.checked_sub(ts) {
                Some(diff) => {
                    if diff > HMAC_MAX_AGE_SECS || diff < -HMAC_MAX_AGE_SECS {
                        return AuthOutcome::Expired;
                    }
                },
                None => return AuthOutcome::Expired,
            }
        },
        None => {},
    }
    let expected_hash = body_hash_hex(body);
    if !str_eq(body_hash, expected_hash.as_str()) {
        return AuthOutcome::Rejected;
    }
    let message = build_signed_message(timestamp, "POST", path, Some(body_hash));
    let sig_bytes = match hex_decode(signature) {
        Ok(b) => b,
        Err(_) => Vec::new(),
    };
    match verify_hmac(key, message.as_str().as_bytes(), sig_bytes.as_slice()) {
        Ok(true) => AuthOutcome::Accepted,
        _ => AuthOutcome::Rejected,
    }
}

// ------------------------------------------------------------ laws

/// Hex text of any bytes decodes back to them.
pub proof fn lemma_hex_roundtrip(b: Seq<u8>)
    ensures
        hex_decode_spec(hex_lower(b)) == Some(b),
{
    lemma_hex_lower_shape(b);
    let h = hex_lower(b);
    assert forall|i: int| 0 <= i < h.len() implies #[trigger] hex_value(h[i]) is Some by {
        let j = i / 2;
        assert(0 <= j < b.len());
        lemma_hex_digit_value(b[j] / 16);
        lemma_hex_digit_value(b[j] % 16);
        if i % 2 == 0 {
            assert(i == 2 * j);
        } else {
            assert(i == 2 * j + 1);
        }
    }
    let d = hex_decode_spec(h)->Some_0;
    assert forall|i: int| 0 <= i < b.len() implies d[i] == b[i] by {
        lemma_hex_digit_value(b[i] / 16);
        lemma_hex_digit_value(b[i] % 16);
        assert(h[2 * i] == hex_digit(b[i] / 16));
        assert(h[2 * i + 1] == hex_digit(b[i] % 16));
        assert((b[i] / 16) * 16 + b[i] % 16 == b[i]);
    }
    assert(d =~= b);
}

/// A request signed by a peer with the shared secret, carrying the hash of
/// its body, is accepted by a receiver holding the same secret whose clock
/// is within five minutes of the sender's.
pub proof fn lemma_signed_request_accepted(
    secret: Seq<u8>,
    sent_at: i64,
    now: int,
    path: Seq<char>,
    body: Seq<u8>,
)
    requires
        secret.len() > 0,
        abs(now - sent_at) <= 300,
    ensures
        ({
            let ts = int_text(sent_at as int);
            let body_hash = hex_lower(sha256_spec(body));
            let msg = signed_message(ts, "POST"@, path, Some(body_hash));
            request_auth_spec(
                Some(secret),
                hex_lower(hmac_sha256_spec(secret, encode_utf8(msg))),
                ts,
                body_hash,
                body,
                path,
                now,
            ) == AuthOutcome::Accepted
        }),
{
    let ts = int_text(sent_at as int);
    let body_hash = hex_lower(sha256_spec(body));
    let msg = signed_message(ts, "POST"@, path, Some(body_hash));
    lemma_i64_roundtrip(sent_at);
    lemma_hex_roundtrip(hmac_sha256_spec(secret, encode_utf8(msg)));
    assert(msg.len() > 0);
    assert(encode_utf8(msg).len() > 0);
}

} // verus!
