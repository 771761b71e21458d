//! The periodic sync loop's own request: the heartbeat a node sends each
//! peer after syncing with it, signed like every mesh request.

use vstd::prelude::*;
use crate::auth::hmac_result;
use crate::codec::{hex_lower, sha256_spec};
use crate::numtext::int_text;
use crate::text::{extend_str, string_of};
use crate::transport::{
    auth_headers_spec, body_hash_hex, mesh_auth_headers, mesh_signature, pairs_view, signed_message,
};
use vstd::string::StrSliceExecFns;
use vstd::utf8::encode_utf8;

verus! {

/// The signature of a heartbeat with body `body` sent at `now`: none
/// without a shared secret.
pub open spec fn heartbeat_signature(secret: Seq<char>, now: i64, body: Seq<u8>) -> Option<(Seq<char>, Seq<char>)> {
    if secret.len() == 0 {
        None
    } else {
        let msg = signed_message(
            int_text(now as int),
            "POST"@,
            "/api/heartbeat"@,
            Some(hex_lower(sha256_spec(body))),
        );
        match hmac_result(encode_utf8(secret), encode_utf8(msg)) {
            Ok(t) => Some((int_text(now as int), hex_lower(t))),
            Err(_) => None,
        }
    }
}

/// The headers of a heartbeat: JSON content, the Bearer token, and the
/// signature with the body hash when there is a shared secret.
pub open spec fn heartbeat_headers_spec(token: Seq<char>, secret: Seq<char>, now: i64, body: Seq<u8>) -> Seq<
    (Seq<char>, Seq<char>),
> {
    let sig = heartbeat_signature(secret, now, body);
    seq![("Content-Type"@, "application/json"@)] + auth_headers_spec(
        Some("Bearer "@ + token),
        sig,
        if sig is Some { Some(hex_lower(sha256_spec(body))) } else { None },
    )
}

/// The token a heartbeat carries: the configured one, else `dev-local`.
pub open spec fn heartbeat_token(token: Option<Seq<char>>) -> Seq<char> {
    match token {
        Some(t) => t,
        None => "dev-local"@,
    }
}

/// Headers for a heartbeat to a peer. Without an auth token
/// (`CONVERGIO_AUTH_TOKEN`) the heartbeat falls back to the `dev-local`
/// token rather than being skipped.
pub fn heartbeat_headers(token: Option<&str>, shared_secret: &str, now: i64, body: &[u8]) -> (r: Vec<(String, String)>)
    ensures
        pairs_view(r@) == heartbeat_headers_spec(
            heartbeat_token(match token { Some(t) => Some(t@), None => None }),
            shared_secret@,
            now,
            body@,
        ),
{
    let t = match token {
        Some(t) => t,
        None => "dev-local",
    };
    let mut bearer: Vec<char> = Vec::new();
    extend_str(&mut bearer, "Bearer ");
    extend_str(&mut bearer, t);
    let (signature, body_hash) = if !shared_secret.is_empty() {
        let bh = body_hash_hex(body);
        let secret_bytes = shared_secret.as_bytes_vec();
        let sig = mesh_signature(secret_bytes.as_slice(), now, "POST", "/api/heartbeat", Some(bh.as_str()));
        match sig {
            Some(s) => (Some(s), Some(bh)),
            None => (None, None),
        }
    } else {
        (None, None)
    };
    let auth = mesh_auth_headers(Some(string_of(&bearer)), signature, body_hash);
    let mut out: Vec<(String, String)> = Vec::new();
    out.push(("Content-Type".to_owned(), "application/json".to_owned()));
    let mut auth = auth;
    let ghost head = out@;
    let ghost tail = auth@;
    out.append(&mut auth);
    proof {
        reveal_strlit("POST");
        reveal_strlit("/api/heartbeat");
    }
    assert(pairs_view(out@) =~= pairs_view(head) + pairs_view(tail));
    out
}

} // verus!
