use hmac::{Hmac, Mac};
use sha2::Sha256;
use unidrop::engine::connection::{
    backoff_after, control_ws_url, fastrand_u64, handshake_outcome, jitter_in_range,
    next_backoff_ms, retry_wait_after_handshake_ms, ConnectionActor, HandshakeOutcome,
    INITIAL_BACKOFF_MS, MAX_BACKOFF_MS,
};

fn reference_signature(secret: &str, canonical: &str) -> String {
    let mut mac = Hmac::<Sha256>::new_from_slice(secret.as_bytes()).unwrap();
    mac.update(canonical.as_bytes());
    hex::encode(mac.finalize().into_bytes())
}

#[test]
fn signature_covers_the_canonical_text_with_and_without_salt() {
    let with_salt = ConnectionActor::compute_signature("psk", "acct", "dev", "n1", 1700000000123, "salt");
    assert_eq!(with_salt, reference_signature("psk", "UNIDROP_V1\nacct\ndev\nn1\n1700000000123\nsalt"));
    let without = ConnectionActor::compute_signature("psk", "acct", "dev", "n1", -5, "");
    assert_eq!(without, reference_signature("psk", "UNIDROP_V1\nacct\ndev\nn1\n-5"));
    assert_eq!(without.len(), 64);
    assert_ne!(with_salt, without);
}

#[test]
fn control_url_gets_a_scheme_and_the_control_path() {
    assert_eq!(control_ws_url(" relay.example.com : 8443 // "), "wss://relay.example.com:8443/ws/control");
    assert_eq!(control_ws_url("ws://127.0.0.1:8080/"), "ws://127.0.0.1:8080/ws/control");
    assert_eq!(control_ws_url("wss://x.example"), "wss://x.example/ws/control");
}

#[test]
fn backoff_doubles_up_to_thirty_seconds_and_resets() {
    assert_eq!(next_backoff_ms(INITIAL_BACKOFF_MS), 2000);
    assert_eq!(next_backoff_ms(16000), MAX_BACKOFF_MS);
    assert_eq!(next_backoff_ms(MAX_BACKOFF_MS), MAX_BACKOFF_MS);
    let mut b = INITIAL_BACKOFF_MS;
    let mut seen = Vec::new();
    for _ in 0..7 {
        b = backoff_after(b, true);
        seen.push(b);
    }
    assert_eq!(seen, vec![2000, 4000, 8000, 16000, 30000, 30000, 30000]);
    assert_eq!(backoff_after(b, false), INITIAL_BACKOFF_MS);
}

#[test]
fn handshake_outcomes_and_their_waits() {
    assert_eq!(handshake_outcome(Some(true)), HandshakeOutcome::Authenticated);
    assert_eq!(handshake_outcome(Some(false)), HandshakeOutcome::Rejected);
    assert_eq!(handshake_outcome(None), HandshakeOutcome::Incomplete);
    assert_eq!(retry_wait_after_handshake_ms(HandshakeOutcome::Authenticated), None);
    assert_eq!(retry_wait_after_handshake_ms(HandshakeOutcome::Rejected), Some(30000));
    assert_eq!(retry_wait_after_handshake_ms(HandshakeOutcome::Incomplete), Some(3000));
}

#[test]
fn jitter_stays_in_its_range() {
    assert_eq!(jitter_in_range(123_456_789, 0, 1000), 123_456_789 % 1001);
    assert_eq!(jitter_in_range(5, 10, 10), 10);
    for _ in 0..100 {
        let j = fastrand_u64(0, 1000);
        assert!(j <= 1000);
    }
}
