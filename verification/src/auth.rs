//! Mesh peer authentication via HMAC-SHA256 with a pre-shared key, loaded
//! from the `[mesh]` section of `peers.conf`.

use vstd::prelude::*;
use rand::RngCore;
use vstd::utf8::encode_utf8;
use vstd::string::StrSliceExecFns;
use crate::codec::{hmac_sha256, hmac_sha256_spec, hmac_sha256_verify};
use crate::error::{mesh_error_detail, MeshError};
use crate::text::{
    chars_eq_str, chars_of, find_char, find_first, lines_of, lower, lower_chars, split_lines,
    seqs_view, string_of, sub_chars, trim, trim_chars,
};

verus! {

pub const NONCE_LEN: usize = 32;

/// `rand::rng().fill_bytes(buf)`: the bytes are overwritten with random
/// values; only the length is known afterwards.
#[verifier::external_body]
fn fill_random(buf: &mut Vec<u8>)
    ensures
        final(buf)@.len() == old(buf)@.len(),
{
    rand::rng().fill_bytes(buf.as_mut_slice());
}

/// Generate a random 32-byte nonce for challenge-response.
pub fn generate_nonce() -> (n: Vec<u8>)
    ensures
        n@.len() == NONCE_LEN,
{
    let mut nonce: Vec<u8> = vec![0u8; NONCE_LEN];
    fill_random(&mut nonce);
    nonce
}

/// What `compute_hmac` returns: the tag, or the message of the auth error.
pub open spec fn hmac_result(secret: Seq<u8>, data: Seq<u8>) -> Result<Seq<u8>, Seq<char>> {
    if secret.len() == 0 {
        Err("HMAC secret must not be empty"@)
    } else if data.len() == 0 {
        Err("HMAC data must not be empty"@)
    } else {
        Ok(hmac_sha256_spec(secret, data))
    }
}

/// What `verify_hmac` returns: whether the response is the tag, or the
/// message of the auth error.
pub open spec fn verify_result(secret: Seq<u8>, data: Seq<u8>, response: Seq<u8>) -> Result<bool, Seq<char>> {
    if secret.len() == 0 {
        Err("HMAC secret must not be empty"@)
    } else if data.len() == 0 {
        Err("HMAC data must not be empty"@)
    } else {
        Ok(response == hmac_sha256_spec(secret, data))
    }
}

/// Compute HMAC-SHA256(secret, data) for challenge-response or HTTP auth.
/// An empty secret or empty data is refused with an auth error.
pub fn compute_hmac(secret: &[u8], data: &[u8]) -> (r: Result<Vec<u8>, MeshError>)
    ensures
        match hmac_result(secret@, data@) {
            Ok(t) => r is Ok && r->Ok_0@ == t,
            Err(m) => r is Err && r->Err_0 is Auth && mesh_error_detail(r->Err_0) == m,
        },
        r is Ok ==> r->Ok_0@.len() == 32,
{
    if secret.len() == 0 {
        return Err(MeshError::Auth("HMAC secret must not be empty".to_owned()));
    }
    if data.len() == 0 {
        return Err(MeshError::Auth("HMAC data must not be empty".to_owned()));
    }
    match hmac_sha256(secret, data) {
        Ok(t) => Ok(t),
        Err(_) => Err(MeshError::Auth("invalid HMAC key length".to_owned())),
    }
}

/// Verify a peer's HMAC response against the expected tag.
/// An empty secret or empty data is refused with an auth error.
pub fn verify_hmac(secret: &[u8], data: &[u8], response: &[u8]) -> (r: Result<bool, MeshError>)
    ensures
        match verify_result(secret@, data@, response@) {
            Ok(b) => r is Ok && r->Ok_0 == b,
            Err(m) => r is Err && r->Err_0 is Auth && mesh_error_detail(r->Err_0) == m,
        },
{
    if secret.len() == 0 {
        return Err(MeshError::Auth("HMAC secret must not be empty".to_owned()));
    }
    if data.len() == 0 {
        return Err(MeshError::Auth("HMAC data must not be empty".to_owned()));
    }
    match hmac_sha256_verify(secret, data, response) {
        Ok(b) => Ok(b),
        Err(_) => Err(MeshError::Auth("invalid HMAC key length".to_owned())),
    }
}

/// A tag computed for a secret and data verifies for the same secret and data.
pub proof fn lemma_hmac_roundtrip(secret: Seq<u8>, data: Seq<u8>)
    requires
        hmac_result(secret, data) is Ok,
    ensures
        verify_result(secret, data, hmac_result(secret, data)->Ok_0) == Ok::<bool, Seq<char>>(true),
{
}

// ------------------------------------------------------------ shared secret

/// Scan state over the lines of `peers.conf`: inside the `[mesh]` section,
/// and the secret once found.
pub open spec fn secret_scan(lines: Seq<Seq<char>>) -> (bool, Option<Seq<char>>)
    decreases lines.len(),
{
    if lines.len() == 0 {
        (false, None)
    } else {
        let (in_mesh, found) = secret_scan(lines.drop_last());
        let line = trim(lines.last());
        if found is Some {
            (in_mesh, found)
        } else if lower(line) == "[mesh]"@ {
            (true, None)
        } else if line.len() > 0 && line[0] == '[' {
            (false, None)
        } else if in_mesh {
            match find_first(line, '=') {
                Some(eq) => if trim(line.take(eq)) == "shared_secret"@ && trim(line.skip(eq + 1)).len()
                    > 0 {
                    (in_mesh, Some(trim(line.skip(eq + 1))))
                } else {
                    (in_mesh, None)
                },
                None => (in_mesh, None),
            }
        } else {
            (in_mesh, None)
        }
    }
}

/// The shared secret of the `[mesh]` section (section name in any ASCII
/// case): the first non-empty `shared_secret` value there, as UTF-8 bytes.
pub fn shared_secret_from_conf(content: &str) -> (r: Option<Vec<u8>>)
    ensures
        match secret_scan(lines_of(content@)).1 {
            Some(s) => r is Some && r->Some_0@ == encode_utf8(s),
            None => r is None,
        },
{
    let chars = chars_of(content);
    let lines = split_lines(&chars);
    let ghost ls = seqs_view(lines@);
    let mut in_mesh = false;
    let mut i: usize = 0;
    assert(ls.take(0) =~= Seq::<Seq<char>>::empty());
    while i < lines.len()
        invariant
            i <= lines@.len(),
            ls == seqs_view(lines@),
            ls == lines_of(content@),
            secret_scan(ls.take(i as int)) == (in_mesh, None::<Seq<char>>),
        decreases lines.len() - i,
    {
        assert(ls.take(i + 1).drop_last() == ls.take(i as int));
        assert(ls.take(i + 1).last() == ls[i as int]);
        let line = trim_chars(&lines[i]);
        let low = lower_chars(&line);
        if chars_eq_str(&low, "[mesh]") {
            in_mesh = true;
        } else if line.len() > 0 && line[0] == '[' {
            in_mesh = false;
        } else if in_mesh {
            match find_char(&line, '=') {
                Some(eq) => {
                    let key = trim_chars(&sub_chars(&line, 0, eq));
                    let value = trim_chars(&sub_chars(&line, eq + 1, line.len()));
                    assert(line@.take(eq as int) == line@.subrange(0, eq as int));
                    assert(line@.skip(eq + 1) == line@.subrange(eq + 1, line@.len() as int));
                    if chars_eq_str(&key, "shared_secret") && value.len() > 0 {
                        proof {
                            lemma_scan_found_stays(ls, i + 1);
                        }
                        let s = string_of(&value);
                        return Some(s.as_str().as_bytes_vec());
                    }
                },
                None => {},
            }
        }
        i = i + 1;
    }
    assert(ls.take(lines@.len() as int) == ls);
    None
}

/// Once the secret is found, later lines do not change it.
pub(crate) proof fn lemma_scan_found_stays(lines: Seq<Seq<char>>, j: int)
    requires
        0 <= j <= lines.len(),
        secret_scan(lines.take(j)).1 is Some,
    ensures
        secret_scan(lines).1 == secret_scan(lines.take(j)).1,
    decreases lines.len() - j,
{
    if j < lines.len() {
        assert(lines.drop_last().take(j) == lines.take(j));
        lemma_scan_found_stays(lines.drop_last(), j);
    } else {
        assert(lines.take(j) == lines);
    }
}

} // verus!
