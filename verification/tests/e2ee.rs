use std::collections::HashSet;
use unidrop::app_state::APP_VERSION;
use unidrop::engine::e2ee::{
    data_nonce, derive_key_for, derive_session_key, metadata_nonce, open, parse_semver,
    peer_supports_e2ee, plaintext_chunk_len, seal, SessionKey, GCM_TAG_LEN,
};
use unidrop::protocol::binary_header::MAX_PAYLOAD_LENGTH;

fn new_session() -> [u8; 16] {
    *uuid::Uuid::new_v4().as_bytes()
}

fn key_for(session: &[u8; 16]) -> SessionKey {
    derive_session_key("test-psk", session, "acct").unwrap()
}

#[test]
fn derive_is_deterministic() {
    let s = new_session();
    let a = derive_session_key("psk", &s, "acct").unwrap();
    let b = derive_session_key("psk", &s, "acct").unwrap();
    let n = data_nonce(0, 0);
    let ca = seal(&a, n, b"hello").unwrap();
    let pt = open(&b, n, &ca).unwrap();
    assert_eq!(pt, b"hello");
}

#[test]
fn every_input_changes_the_key() {
    let s1 = new_session();
    let s2 = new_session();
    let n = data_nonce(0, 0);
    let base = seal(&derive_session_key("psk", &s1, "acct").unwrap(), n, b"x").unwrap();

    for (psk, sess, acct, what) in [
        ("psk2", &s1, "acct", "psk"),
        ("psk", &s2, "acct", "session_id"),
        ("psk", &s1, "acct2", "account_id"),
    ] {
        let other = derive_session_key(psk, sess, acct).unwrap();
        assert!(
            open(&other, n, &base).is_err(),
            "改变 {what} 之后仍能解开对方的密文——该输入没有真正参与派生"
        );
    }
}

#[test]
fn empty_psk_is_rejected() {
    let r = derive_session_key("", &new_session(), "acct");
    assert!(r.is_err());
    assert_eq!(r.err().unwrap(), "PSK 为空，无法派生会话密钥");
}

#[test]
fn ciphertext_is_exactly_tag_len_longer() {
    let k = key_for(&new_session());
    for len in [0usize, 1, 1000, 65536] {
        let pt = vec![7u8; len];
        let ct = seal(&k, data_nonce(0, 0), &pt).unwrap();
        assert_eq!(ct.len(), len + GCM_TAG_LEN, "明文 {len} 字节加密后应为 {} 字节", len + GCM_TAG_LEN);
    }
}

#[test]
fn full_encrypted_chunk_exactly_fills_the_frame() {
    let k = key_for(&new_session());
    let pt = vec![0u8; plaintext_chunk_len(true)];
    let ct = seal(&k, data_nonce(0, 0), &pt).unwrap();
    assert_eq!(ct.len(), MAX_PAYLOAD_LENGTH as usize, "满块密文应恰好填满 4MB 上限");
}

#[test]
fn plaintext_path_keeps_the_original_chunk_size() {
    assert_eq!(plaintext_chunk_len(false), MAX_PAYLOAD_LENGTH as usize);
}

#[test]
fn data_nonces_never_collide_within_a_session() {
    let mut seen = HashSet::new();
    for item in 0u32..8 {
        for chunk in 0u32..256 {
            assert!(seen.insert(data_nonce(item, chunk)), "nonce 在 item={item} chunk={chunk} 处重复");
        }
    }
}

#[test]
fn metadata_nonce_is_disjoint_from_every_data_nonce() {
    let meta = metadata_nonce();
    for item in 0u32..4 {
        for chunk in 0u32..64 {
            assert_ne!(meta, data_nonce(item, chunk), "元数据 nonce 撞上了数据块 nonce");
        }
    }
}

#[test]
fn nonce_layout_is_big_endian() {
    assert_eq!(data_nonce(0x01020304, 0x0a0b0c0d), [1, 2, 3, 4, 10, 11, 12, 13, 0, 0, 0, 0]);
    assert_eq!(metadata_nonce(), [0, 0, 0, 0, 0, 0, 0, 0, 0, 0, 0, 1]);
}

#[test]
fn tampering_is_detected() {
    let k = key_for(&new_session());
    let n = data_nonce(1, 2);
    let mut ct = seal(&k, n, b"sensitive clipboard content").unwrap();
    assert!(open(&k, n, &ct).is_ok());
    ct[3] ^= 0x01;
    assert!(open(&k, n, &ct).is_err(), "密文被改了一位却仍然解开了");
}

#[test]
fn wrong_nonce_fails_to_open() {
    let k = key_for(&new_session());
    let ct = seal(&k, data_nonce(0, 0), b"payload").unwrap();
    assert!(open(&k, data_nonce(0, 1), &ct).is_err());
}

#[test]
fn truncated_ciphertext_is_rejected_cleanly() {
    let k = key_for(&new_session());
    assert!(open(&k, data_nonce(0, 0), &[0u8; GCM_TAG_LEN - 1]).is_err());
    assert!(open(&k, data_nonce(0, 0), &[]).is_err());
    assert_eq!(
        open(&k, data_nonce(0, 0), &[0u8; 3]).err().unwrap(),
        "密文长度 3 小于 tag 长度 16"
    );
    assert_eq!(
        open(&k, data_nonce(0, 0), &[0u8; 16]).err().unwrap(),
        "AEAD 解密失败（tag 校验未通过）"
    );
}

#[test]
fn our_own_version_passes_the_gate() {
    assert!(peer_supports_e2ee(Some(APP_VERSION)), "本 crate 版本 {} 低于 E2EE 门槛", APP_VERSION);
}

#[test]
fn peer_capability_gate() {
    assert!(!peer_supports_e2ee(None), "版本未知必须保守判为不支持");
    assert!(!peer_supports_e2ee(Some("0.2.0")));
    assert!(!peer_supports_e2ee(Some("0.1.1")));
    assert!(!peer_supports_e2ee(Some("乱七八糟")));
    assert!(!peer_supports_e2ee(Some("")));
    assert!(peer_supports_e2ee(Some("0.3.0")));
    assert!(peer_supports_e2ee(Some("0.3.1")));
    assert!(peer_supports_e2ee(Some("1.0.0")));
    assert!(peer_supports_e2ee(Some("0.3.0-beta")));
    assert!(peer_supports_e2ee(Some("0.3.0-beta.1")), "带点的预发布号被误判为不支持");
    assert!(peer_supports_e2ee(Some("0.3.0-rc.1")));
    assert!(peer_supports_e2ee(Some("1.0.0+build.5")));
    assert!(!peer_supports_e2ee(Some("0.2.0-rc.1")));
}

#[test]
fn semver_reading_follows_the_documented_shapes() {
    assert_eq!(parse_semver("0.3"), Some((0, 3, 0)));
    assert_eq!(parse_semver("  1.2.3 \n"), Some((1, 2, 3)));
    assert_eq!(parse_semver("1.2.3.4"), None);
    assert_eq!(parse_semver("1"), None);
    assert_eq!(parse_semver("1..3"), None);
    assert_eq!(parse_semver("4294967296.0.0"), None);
    assert_eq!(parse_semver("4294967295.0.0"), Some((4294967295, 0, 0)));
    assert_eq!(parse_semver("007.01.2"), Some((7, 1, 2)));
}

#[test]
fn both_ends_derive_the_same_key_from_the_session_id_text() {
    let sid = new_session();
    let text = uuid::Uuid::from_bytes(sid).to_string();
    let sender = derive_session_key("psk", &sid, "acct").unwrap();
    let receiver = derive_key_for(&text, "psk", "acct").unwrap();
    let ct = seal(&sender, data_nonce(2, 7), b"chunk").unwrap();
    assert_eq!(open(&receiver, data_nonce(2, 7), &ct).unwrap(), b"chunk");
    assert!(derive_key_for("not-a-uuid", "psk", "acct").is_err());
    assert!(derive_key_for(&text, "", "acct").is_err());
}
