use convergio_mesh::auth::{compute_hmac, generate_nonce, shared_secret_from_conf, verify_hmac, NONCE_LEN};
use convergio_mesh::error::MeshError;
use convergio_mesh::request_auth::{check_signed_request, AuthOutcome};
use convergio_mesh::transport::{body_hash_hex, build_signed_message, mesh_signature};

fn test_secret() -> Vec<u8> {
    format!("test-shared-{}-{}", "secret", 123).into_bytes()
}

#[test]
fn hmac_roundtrip() {
    let secret = test_secret();
    let nonce = generate_nonce();
    let hmac = compute_hmac(&secret, &nonce).unwrap();
    assert!(verify_hmac(&secret, &nonce, &hmac).unwrap());
}

#[test]
fn hmac_rejects_wrong_secret() {
    let nonce = generate_nonce();
    let correct = format!("correct-{}", "key").into_bytes();
    let wrong = format!("wrong-{}", "key").into_bytes();
    let hmac = compute_hmac(&correct, &nonce).unwrap();
    assert!(!verify_hmac(&wrong, &nonce, &hmac).unwrap());
}

#[test]
fn hmac_rejects_empty_response() {
    let nonce = generate_nonce();
    let secret = format!("secret-{}", 1).into_bytes();
    assert!(!verify_hmac(&secret, &nonce, &[]).unwrap());
}

#[test]
fn loads_secret_from_conf() {
    let test_key = format!("my-key-{}", 42);
    let conf = format!("[mesh]\nshared_secret = {test_key}\n");
    let secret = shared_secret_from_conf(&conf);
    assert_eq!(secret.as_deref(), Some(test_key.as_bytes()));
}

#[test]
fn returns_none_without_mesh_section() {
    assert!(shared_secret_from_conf("[peer1]\nip=1.2.3.4\n").is_none());
}

#[test]
fn nonce_uniqueness() {
    let n1 = generate_nonce();
    let n2 = generate_nonce();
    assert_ne!(n1, n2);
    assert_eq!(n1.len(), NONCE_LEN);
}

fn shared_secret() -> Vec<u8> {
    format!("e2e-mesh-{}-{}", "shared", 2448).into_bytes()
}

#[test]
fn peer_b_accepts_valid_signature_from_peer_a() {
    let secret = shared_secret();
    let nonce = generate_nonce();
    let payload = [b"sync-round:".as_slice(), nonce.as_slice()].concat();
    let sig = compute_hmac(&secret, &payload).expect("peer A: hmac");
    let ok = verify_hmac(&secret, &payload, &sig).expect("peer B: verify");
    assert!(ok, "peer B must accept a valid signature from peer A");
}

#[test]
fn peer_b_rejects_tampered_payload() {
    let secret = shared_secret();
    let nonce = generate_nonce();
    let payload = [b"sync-round:".as_slice(), nonce.as_slice()].concat();
    let sig = compute_hmac(&secret, &payload).expect("peer A: hmac");
    let mut tampered = payload.clone();
    let last = tampered.len() - 1;
    tampered[last] ^= 0x01;
    let ok = verify_hmac(&secret, &tampered, &sig).expect("peer B: verify");
    assert!(!ok, "peer B must reject a tampered payload");
}

#[test]
fn peer_b_rejects_tampered_signature() {
    let secret = shared_secret();
    let nonce = generate_nonce();
    let payload = [b"heartbeat:".as_slice(), nonce.as_slice()].concat();
    let mut sig = compute_hmac(&secret, &payload).expect("peer A: hmac");
    sig[0] ^= 0xff;
    let ok = verify_hmac(&secret, &payload, &sig).expect("peer B: verify");
    assert!(!ok, "peer B must reject a tampered signature");
}

#[test]
fn peer_b_rejects_signature_from_wrong_secret() {
    let payload = b"delegation:claim:42".to_vec();
    let secret_a = format!("peer-a-{}", "key-A").into_bytes();
    let secret_b = format!("peer-b-{}", "key-B").into_bytes();
    let sig = compute_hmac(&secret_a, &payload).expect("peer A: hmac");
    let ok = verify_hmac(&secret_b, &payload, &sig).expect("peer B: verify");
    assert!(!ok, "peer B must reject signatures produced with a different shared secret");
}

#[test]
fn nonce_is_unique_across_calls() {
    let n1 = generate_nonce();
    let n2 = generate_nonce();
    let n3 = generate_nonce();
    assert_ne!(n1, n2);
    assert_ne!(n2, n3);
    assert_ne!(n1, n3);
    assert_eq!(n1.len(), 32, "nonce must be 32 bytes");
}

// ---------------------------------------------------------------- own tests

#[test]
fn compute_hmac_rejects_empty_secret() {
    match compute_hmac(&[], b"data") {
        Err(MeshError::Auth(_)) => {}
        other => panic!("unexpected: {other:?}"),
    }
}

#[test]
fn compute_hmac_rejects_empty_data() {
    match compute_hmac(b"key", &[]) {
        Err(MeshError::Auth(_)) => {}
        other => panic!("unexpected: {other:?}"),
    }
}

#[test]
fn verify_hmac_rejects_empty_secret() {
    assert!(matches!(verify_hmac(&[], b"data", b"sig"), Err(MeshError::Auth(_))));
}

#[test]
fn hmac_matches_known_vector() {
    // RFC 4231, test case 2.
    let tag = compute_hmac(b"Jefe", b"what do ya want for nothing?").unwrap();
    let hex: String = tag.iter().map(|b| format!("{b:02x}")).collect();
    assert_eq!(hex, "5bdcc146bf60754e6a042426089575c75a003f089d2739839dec58b964ec3843");
}

#[test]
fn secret_in_mesh_section_any_case() {
    let conf = "[peer]\nshared_secret=nope\n[MESH]\nshared_secret=\nshared_secret= yes \n";
    assert_eq!(shared_secret_from_conf(conf).as_deref(), Some(b"yes".as_slice()));
}

#[test]
fn signed_request_from_a_peer_is_accepted() {
    let secret = b"mesh-secret".to_vec();
    let body = br#"{"changes":[]}"#;
    let bh = body_hash_hex(body);
    assert_eq!(bh.len(), 64);
    let (ts, sig) = mesh_signature(&secret, 1_700_000_000, "POST", "/api/sync/import", Some(&bh)).unwrap();
    assert_eq!(ts, "1700000000");
    let outcome = check_signed_request(Some(&secret), &sig, &ts, &bh, body, "/api/sync/import", 1_700_000_100);
    assert_eq!(outcome, AuthOutcome::Accepted);
    let other_path = check_signed_request(Some(&secret), &sig, &ts, &bh, body, "/api/heartbeat", 1_700_000_100);
    assert_eq!(other_path, AuthOutcome::Rejected);
}

#[test]
fn signed_hash_of_another_body_is_rejected() {
    let secret = b"mesh-secret".to_vec();
    let body = br#"{"changes":[]}"#;
    let bh = body_hash_hex(body);
    let (ts, sig) = mesh_signature(&secret, 1_700_000_000, "POST", "/api/sync/import", Some(&bh)).unwrap();
    let tampered = br#"{"changes":[{"x":1}]}"#;
    let outcome = check_signed_request(Some(&secret), &sig, &ts, &bh, tampered, "/api/sync/import", 1_700_000_000);
    assert_eq!(outcome, AuthOutcome::Rejected);
    let no_hash = check_signed_request(Some(&secret), &sig, &ts, "", body, "/api/sync/import", 1_700_000_000);
    assert_eq!(no_hash, AuthOutcome::Rejected);
}

#[test]
fn stale_signed_request_is_expired() {
    let secret = b"mesh-secret".to_vec();
    let body = b"{}";
    let bh = body_hash_hex(body);
    let (ts, sig) = mesh_signature(&secret, 1_700_000_000, "POST", "/api/heartbeat", Some(&bh)).unwrap();
    let outcome = check_signed_request(Some(&secret), &sig, &ts, &bh, body, "/api/heartbeat", 1_700_000_301);
    assert_eq!(outcome, AuthOutcome::Expired);
    let fresh = check_signed_request(Some(&secret), &sig, &ts, &bh, body, "/api/heartbeat", 1_700_000_300);
    assert_eq!(fresh, AuthOutcome::Accepted);
}

#[test]
fn far_out_timestamps_are_expired() {
    let secret = b"mesh-secret".to_vec();
    let far_past = i64::MIN.to_string();
    let far_future = i64::MAX.to_string();
    assert_eq!(
        check_signed_request(Some(&secret), "", &far_past, "", b"", "/api/heartbeat", 1_700_000_000),
        AuthOutcome::Expired
    );
    assert_eq!(
        check_signed_request(Some(&secret), "", &far_future, "", b"", "/api/heartbeat", -5),
        AuthOutcome::Expired
    );
}

#[test]
fn unsigned_request_is_accepted_without_secret() {
    assert_eq!(check_signed_request(None, "", "", "", b"", "/api/heartbeat", 0), AuthOutcome::Accepted);
    let bh = body_hash_hex(b"");
    assert_eq!(
        check_signed_request(Some(b"k".as_slice()), "zz", "12", &bh, b"", "/api/heartbeat", 12),
        AuthOutcome::Rejected
    );
}

#[test]
fn signed_message_layout() {
    assert_eq!(build_signed_message("12", "GET", "/p", None), "12:GET:/p");
    assert_eq!(build_signed_message("12", "POST", "/p", Some("ab")), "12:POST:/p:ab");
}

#[test]
fn empty_secret_gives_no_signature() {
    assert!(mesh_signature(&[], 5, "GET", "/x", None).is_none());
}
