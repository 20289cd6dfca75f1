use std::collections::HashMap;
use sha2::Digest;
use unidrop::engine::e2ee::{
    apply_offer_metadata, data_nonce, derive_session_key, encrypted_metadata_of, open,
    open_offer_metadata, plaintext_chunk_len, sealed_offer_for_wire, SessionKey, E2EE_VERSION,
};
use unidrop::engine::offer::{PathProbe, TransferEngine, TransferSource};
use unidrop::engine::transfer::{build_data_frame, record_tag_failure, redact_query_token};
use unidrop::protocol::binary_header::{
    compute_crc32, BinaryHeader, FLAG_ENCRYPTED, FLAG_LAST_CHUNK, HEADER_SIZE, MAX_PAYLOAD_LENGTH,
};
use unidrop::protocol::envelope::{EncryptedItemMeta, EncryptedMetadata, TransferOfferPayload};

fn new_session() -> [u8; 16] {
    *uuid::Uuid::new_v4().as_bytes()
}

fn test_key(sid: &[u8; 16]) -> SessionKey {
    derive_session_key("psk-for-test", sid, "acct").unwrap()
}

fn sha256_hex(data: &[u8]) -> String {
    hex::encode(sha2::Sha256::digest(data))
}

fn sha256_of(data: &[u8]) -> [u8; 32] {
    sha2::Sha256::digest(data).into()
}

fn metadata_json(offer: &TransferOfferPayload) -> Vec<u8> {
    let meta = encrypted_metadata_of(offer);
    let mut items = Vec::new();
    for m in &meta.items {
        let mut o = serde_json::Map::new();
        o.insert("item_index".to_string(), serde_json::Value::from(m.item_index));
        o.insert("relative_path".to_string(), serde_json::Value::from(m.relative_path.clone()));
        o.insert("sha256".to_string(), serde_json::Value::from(m.sha256.clone()));
        o.insert("is_dir".to_string(), serde_json::Value::from(m.is_dir));
        items.push(serde_json::Value::Object(o));
    }
    let mut root = serde_json::Map::new();
    root.insert("preview_summary".to_string(), serde_json::Value::from(meta.preview_summary.clone()));
    root.insert("items".to_string(), serde_json::Value::Array(items));
    serde_json::to_vec(&serde_json::Value::Object(root)).unwrap()
}

fn metadata_from_json(json: &[u8]) -> EncryptedMetadata {
    let v: serde_json::Value = serde_json::from_slice(json).unwrap();
    let items = v["items"]
        .as_array()
        .unwrap()
        .iter()
        .map(|m| EncryptedItemMeta {
            item_index: m["item_index"].as_u64().unwrap() as u32,
            relative_path: m["relative_path"].as_str().unwrap().to_string(),
            sha256: m["sha256"].as_str().unwrap().to_string(),
            is_dir: m["is_dir"].as_bool().unwrap(),
        })
        .collect();
    EncryptedMetadata { preview_summary: v["preview_summary"].as_str().unwrap().to_string(), items }
}

fn offer_to_json(o: &TransferOfferPayload) -> String {
    let mut items = Vec::new();
    for it in &o.items {
        let mut m = serde_json::Map::new();
        m.insert("item_index".to_string(), serde_json::Value::from(it.item_index));
        m.insert("relative_path".to_string(), serde_json::Value::from(it.relative_path.clone()));
        m.insert("size".to_string(), serde_json::Value::from(it.size));
        m.insert("is_dir".to_string(), serde_json::Value::from(it.is_dir));
        m.insert("sha256".to_string(), serde_json::Value::from(it.sha256.clone()));
        m.insert("total_chunks".to_string(), serde_json::Value::from(it.total_chunks));
        items.push(serde_json::Value::Object(m));
    }
    let mut root = serde_json::Map::new();
    root.insert("session_id".to_string(), serde_json::Value::from(o.session_id.clone()));
    root.insert("data_type".to_string(), serde_json::Value::from(o.data_type.clone()));
    root.insert("total_size".to_string(), serde_json::Value::from(o.total_size));
    root.insert("total_items".to_string(), serde_json::Value::from(o.total_items));
    root.insert("preview_summary".to_string(), serde_json::Value::from(o.preview_summary.clone()));
    root.insert("encrypted".to_string(), serde_json::Value::from(o.encrypted));
    if let Some(v) = o.e2ee_version {
        root.insert("e2ee_version".to_string(), serde_json::Value::from(v));
    }
    if let Some(m) = &o.encrypted_metadata {
        root.insert("encrypted_metadata".to_string(), serde_json::Value::from(m.clone()));
    }
    root.insert("items".to_string(), serde_json::Value::Array(items));
    serde_json::to_string(&serde_json::Value::Object(root)).unwrap()
}

fn seal_offer(offer: &TransferOfferPayload, key: &SessionKey) -> TransferOfferPayload {
    sealed_offer_for_wire(offer, key, &metadata_json(offer)).unwrap()
}

fn open_offer(offer: &mut TransferOfferPayload, key: &SessionKey) -> Result<(), String> {
    let json = open_offer_metadata(offer, key)?;
    apply_offer_metadata(offer, metadata_from_json(&json));
    Ok(())
}

#[test]
fn redacts_token_at_end_of_query_string() {
    let url = "wss://h/ws/data?session_id=abc&role=sender&device_id=d1&token=secret-tok";
    let out = redact_query_token(url);
    assert!(!out.contains("secret-tok"), "令牌泄漏进日志: {out}");
    assert!(out.ends_with("token=<redacted>"));
    assert!(out.contains("session_id=abc"));
    assert!(out.contains("device_id=d1"));
}

#[test]
fn redacts_token_in_middle_and_keeps_trailing_params() {
    let url = "wss://h/ws/data?token=secret-tok&session_id=abc";
    let out = redact_query_token(url);
    assert_eq!(out, "wss://h/ws/data?token=<redacted>&session_id=abc");
}

#[test]
fn url_without_token_is_unchanged() {
    let url = "wss://h/ws/control?device_id=d1";
    assert_eq!(redact_query_token(url), url);
}

#[test]
fn only_the_first_token_is_redacted() {
    assert_eq!(redact_query_token("a?token=x&token=y"), "a?token=<redacted>&token=y");
    assert_eq!(redact_query_token("token="), "token=<redacted>");
}

#[test]
fn test_prepare_offer_aligns_valid_paths_and_skips_dirs() {
    let probes = vec![
        PathProbe::Directory,
        PathProbe::File { name: "file1.txt".to_string(), size: 13, digest: sha256_of(b"Hello World 1") },
        PathProbe::Unreadable,
        PathProbe::File { name: "file2.txt".to_string(), size: 13, digest: sha256_of(b"Hello World 2") },
    ];
    let session_id = new_session();
    let (offer, valid_paths) = TransferEngine::prepare_offer(&session_id, &probes, None).unwrap();

    assert_eq!(offer.items.len(), 2);
    assert_eq!(valid_paths.len(), 2);
    assert_eq!(valid_paths[0], 1);
    assert_eq!(offer.items[0].relative_path, "file1.txt");
    assert_eq!(valid_paths[1], 3);
    assert_eq!(offer.items[1].relative_path, "file2.txt");
    assert_eq!(offer.items[1].item_index, 1);
    assert_eq!(offer.total_size, 26);
    assert_eq!(offer.preview_summary, "file1.txt 等 2 个文件");
    assert_eq!(offer.data_type, "FILES");
    assert_eq!(offer.session_id, uuid::Uuid::from_bytes(session_id).to_string());
    assert_eq!(offer.items[0].sha256, sha256_hex(b"Hello World 1"));
    assert_eq!(offer.items[1].sha256, sha256_hex(b"Hello World 2"));
}

#[test]
fn prepare_offer_refuses_a_selection_without_files() {
    let probes = vec![PathProbe::Directory, PathProbe::Unreadable];
    let err = TransferEngine::prepare_offer(&new_session(), &probes, None).err().unwrap();
    assert_eq!(err, "No valid readable files to send");
}

#[test]
fn empty_files_still_take_one_chunk() {
    let probes = vec![PathProbe::File { name: "empty".to_string(), size: 0, digest: sha256_of(b"") }];
    let (offer, _) = TransferEngine::prepare_offer(&new_session(), &probes, None).unwrap();
    assert_eq!(offer.items[0].total_chunks, 1);
    assert_eq!(offer.preview_summary, "empty");
}

#[test]
fn test_prepare_offer_from_bytes_text_and_chunking() {
    let session_id = new_session();

    let (offer, source) = TransferEngine::prepare_offer_from_bytes(
        &session_id,
        "TEXT",
        "clipboard.txt",
        b"hello clipboard".to_vec(),
        None,
    )
    .unwrap();
    assert_eq!(offer.data_type, "TEXT");
    assert_eq!(offer.total_items, 1);
    assert_eq!(offer.total_size, b"hello clipboard".len() as i64);
    assert_eq!(offer.items[0].total_chunks, 1);
    assert!(offer.preview_summary.contains("文本"));
    assert!(matches!(source, TransferSource::Memory(_)));

    assert_eq!(offer.items[0].sha256, sha256_hex(b"hello clipboard"));

    let big = vec![7u8; (MAX_PAYLOAD_LENGTH as usize) * 2 + 1024];
    let (offer_big, _) =
        TransferEngine::prepare_offer_from_bytes(&session_id, "IMAGE", "clipboard.png", big, None).unwrap();
    assert_eq!(offer_big.items[0].total_chunks, 3);
    assert!(offer_big.preview_summary.contains("图片"));

    assert!(TransferEngine::prepare_offer_from_bytes(&session_id, "TEXT", "clipboard.txt", Vec::new(), None).is_err());
}

#[test]
fn previews_of_in_memory_content() {
    let sid = new_session();
    let long: String = "字".repeat(51);
    let (o, _) = TransferEngine::prepare_offer_from_bytes(&sid, "TEXT", "t", long.into_bytes(), None).unwrap();
    assert_eq!(o.preview_summary, format!("文本: {}…", "字".repeat(50)));
    let (o, _) = TransferEngine::prepare_offer_from_bytes(&sid, "IMAGE", "p", vec![0u8; 1536], None).unwrap();
    assert_eq!(o.preview_summary, "图片 (2 KB)");
    let (o, _) = TransferEngine::prepare_offer_from_bytes(&sid, "IMAGE", "p", vec![0u8; 2560], None).unwrap();
    assert_eq!(o.preview_summary, "图片 (2 KB)", "2.5 KB rounds half to even");
    let (o, _) = TransferEngine::prepare_offer_from_bytes(&sid, "IMAGE", "p", vec![0u8; 3 * 1024 * 1024 / 2], None).unwrap();
    assert_eq!(o.preview_summary, "图片 (1.5 MB)");
    let (o, _) = TransferEngine::prepare_offer_from_bytes(&sid, "OTHER", "name.bin", vec![1u8], None).unwrap();
    assert_eq!(o.preview_summary, "name.bin");
}

#[test]
fn crc32_is_computed_over_ciphertext_not_plaintext() {
    let sid = new_session();
    let key = test_key(&sid);
    let plaintext = b"secret clipboard payload";

    let frame = build_data_frame(sid, 0, 0, 1, plaintext, Some(&key)).unwrap();
    let header = BinaryHeader::decode(&frame[..HEADER_SIZE]).unwrap();
    let wire = &frame[HEADER_SIZE..];

    assert_eq!(header.checksum, compute_crc32(wire), "帧头 CRC32 应等于密文的 CRC32");
    assert_ne!(header.checksum, compute_crc32(plaintext), "帧头 CRC32 等于明文的 CRC32——明文指纹泄露给了中继");
    assert_ne!(wire, plaintext, "线路上出现了明文");
    assert_eq!(header.flags & FLAG_ENCRYPTED, FLAG_ENCRYPTED, "未置加密标志位");
    assert_eq!(header.nonce, data_nonce(0, 0));
}

#[test]
fn plaintext_frame_is_unchanged() {
    let sid = new_session();
    let plaintext = b"plain payload";
    let frame = build_data_frame(sid, 0, 0, 1, plaintext, None).unwrap();
    let header = BinaryHeader::decode(&frame[..HEADER_SIZE]).unwrap();
    assert_eq!(&frame[HEADER_SIZE..], plaintext);
    assert_eq!(header.checksum, compute_crc32(plaintext));
    assert_eq!(header.flags & FLAG_ENCRYPTED, 0);
    assert_eq!(header.flags, FLAG_LAST_CHUNK);
}

#[test]
fn full_encrypted_frame_fits_the_relay_limit() {
    let sid = new_session();
    let key = test_key(&sid);
    let pt = vec![3u8; plaintext_chunk_len(true)];
    let frame = build_data_frame(sid, 0, 0, 1, &pt, Some(&key)).unwrap();
    let payload_len = frame.len() - HEADER_SIZE;
    assert_eq!(payload_len, MAX_PAYLOAD_LENGTH as usize, "满块密文应恰好等于上限（多一字节就会被中继拒收）");
}

#[test]
fn encrypted_multichunk_roundtrip_is_byte_identical() {
    let sid = new_session();
    let key = test_key(&sid);
    let chunk_len = plaintext_chunk_len(true);

    let original: Vec<u8> = (0..(chunk_len * 2 + 777)).map(|i| (i % 251) as u8).collect();
    let total_chunks = ((original.len() + chunk_len - 1) / chunk_len) as u32;
    assert_eq!(total_chunks, 3);

    let mut rebuilt = vec![0u8; original.len()];
    for c in 0..total_chunks {
        let offset = c as usize * chunk_len;
        let end = (offset + chunk_len).min(original.len());
        let frame = build_data_frame(sid, 0, c, total_chunks, &original[offset..end], Some(&key)).unwrap();

        let header = BinaryHeader::decode(&frame[..HEADER_SIZE]).unwrap();
        let wire = &frame[HEADER_SIZE..];
        assert!(header.verify_crc32(wire).is_ok(), "第 {c} 块 CRC32 未通过");

        let nonce = data_nonce(header.item_index, header.chunk_index);
        let plain = open(&key, nonce, wire).unwrap();

        let write_at = header.chunk_index as usize * chunk_len;
        rebuilt[write_at..write_at + plain.len()].copy_from_slice(&plain);
    }

    assert_eq!(rebuilt, original, "重组结果与原文不一致——块长或写盘 offset 不同源");
}

#[test]
fn total_chunks_follows_the_encrypted_flag() {
    let sid = new_session();
    let key = test_key(&sid);
    let size = MAX_PAYLOAD_LENGTH as usize;
    let bytes = vec![9u8; size];

    let (plain_offer, _) =
        TransferEngine::prepare_offer_from_bytes(&sid, "IMAGE", "a.png", bytes.clone(), None).unwrap();
    let (enc_offer, _) =
        TransferEngine::prepare_offer_from_bytes(&sid, "IMAGE", "a.png", bytes, Some(&key)).unwrap();

    assert_eq!(plain_offer.items[0].total_chunks, 1);
    assert_eq!(enc_offer.items[0].total_chunks, 2, "加密块长少 16 字节，这个尺寸必须多切一块");
}

#[test]
fn encrypted_offer_leaks_no_filename_or_hash() {
    let sid = new_session();
    let key = test_key(&sid);
    let (offer, _) = TransferEngine::prepare_offer_from_bytes(
        &sid, "TEXT", "my-secret-notes.txt", b"hello".to_vec(), Some(&key),
    )
    .unwrap();

    let real_hash = sha256_hex(b"hello");

    let wire = seal_offer(&offer, &key);
    let json = offer_to_json(&wire);
    assert!(!json.contains("my-secret-notes.txt"), "文件名明文出现在 OFFER 里");
    assert!(!json.contains(&real_hash), "内容 sha256 明文出现在 OFFER 里——查表即可确认传了哪个文件");
    assert!(!json.contains("文本: hello"), "预览摘要明文出现在 OFFER 里");
    assert!(wire.encrypted);
    assert_eq!(wire.e2ee_version, Some(E2EE_VERSION));

    assert_eq!(wire.total_size, 5);
    assert_eq!(wire.total_items, 1);
    assert_eq!(wire.data_type, "TEXT");
    assert_eq!(wire.items[0].size, 5);

    let mut received = wire.clone();
    open_offer(&mut received, &key).unwrap();
    assert_eq!(received.items[0].relative_path, "my-secret-notes.txt");
    assert_eq!(received.items[0].sha256, real_hash);
    assert!(received.preview_summary.contains("hello"));
}

#[test]
fn sender_keeps_plaintext_metadata_locally() {
    let sid = new_session();
    let key = test_key(&sid);
    let (local, _) = TransferEngine::prepare_offer_from_bytes(
        &sid, "TEXT", "my-notes.txt", b"hello".to_vec(), Some(&key),
    )
    .unwrap();

    assert!(local.encrypted, "本地这份也要标记加密，块长与接收端据此判断");
    assert_eq!(local.items[0].relative_path, "my-notes.txt");
    assert!(!local.items[0].sha256.is_empty());
    assert!(local.preview_summary.contains("hello"));
    assert!(local.encrypted_metadata.is_none(), "本地这份不该带密文元数据");

    let wire = seal_offer(&local, &key);
    assert_eq!(wire.items[0].relative_path, "");
    assert_eq!(wire.items[0].sha256, "");
    assert_eq!(wire.preview_summary, "");
    assert!(wire.encrypted_metadata.is_some());

    assert_eq!(local.items[0].relative_path, "my-notes.txt", "密封污染了本地原件");
}

#[test]
fn offer_metadata_rejects_wrong_key() {
    let sid = new_session();
    let (offer, _) = TransferEngine::prepare_offer_from_bytes(
        &sid, "TEXT", "a.txt", b"x".to_vec(), Some(&test_key(&sid)),
    )
    .unwrap();

    let wire = seal_offer(&offer, &test_key(&sid));
    let wrong = derive_session_key("another-psk", &sid, "acct").unwrap();
    let received = wire.clone();
    assert!(open_offer_metadata(&received, &wrong).is_err());
}

#[test]
fn offer_metadata_errors_name_the_fault() {
    let sid = new_session();
    let key = test_key(&sid);
    let (mut offer, _) =
        TransferEngine::prepare_offer_from_bytes(&sid, "TEXT", "a.txt", b"x".to_vec(), Some(&key)).unwrap();
    assert_eq!(
        open_offer_metadata(&offer, &key).err().unwrap(),
        "OFFER 标记为加密但没有 encrypted_metadata"
    );
    offer.encrypted_metadata = Some("***".to_string());
    assert!(open_offer_metadata(&offer, &key)
        .err()
        .unwrap()
        .starts_with("encrypted_metadata 不是合法 base64: "));
}

#[test]
fn metadata_is_written_back_by_item_index_not_position() {
    let sid = new_session();
    let probes = vec![
        PathProbe::File { name: "a.txt".to_string(), size: 1, digest: [0xaa; 32] },
        PathProbe::File { name: "b.txt".to_string(), size: 2, digest: [0xbb; 32] },
    ];
    let key = test_key(&sid);
    let (offer, _) = TransferEngine::prepare_offer(&sid, &probes, Some(&key)).unwrap();
    let wire = seal_offer(&offer, &key);
    let json = open_offer_metadata(&wire, &key).unwrap();
    let mut meta = metadata_from_json(&json);
    meta.items.reverse();
    let mut received = wire.clone();
    apply_offer_metadata(&mut received, meta);
    assert_eq!(received.items[0].relative_path, "a.txt");
    assert_eq!(received.items[1].relative_path, "b.txt");
    assert_eq!(received.items[1].sha256, "bb".repeat(32));
    assert_eq!(received.preview_summary, "a.txt 等 2 个文件");
}

#[test]
fn concurrent_window_failures_trip_the_session_breaker() {
    let mut per = HashMap::new();
    let mut total = 0u32;

    assert!(!record_tag_failure(&mut per, &mut total, 0, 0));
    assert!(!record_tag_failure(&mut per, &mut total, 0, 1));
    assert!(
        record_tag_failure(&mut per, &mut total, 0, 2),
        "三个不同块各失败一次后必须熔断——只按单块计数会在这里放行并无限重传"
    );
}

#[test]
fn repeated_failure_on_one_chunk_trips_the_breaker() {
    let mut per = HashMap::new();
    let mut total = 0u32;
    assert!(!record_tag_failure(&mut per, &mut total, 5, 5));
    assert!(!record_tag_failure(&mut per, &mut total, 5, 5));
    assert!(record_tag_failure(&mut per, &mut total, 5, 5));
}

#[test]
fn per_chunk_counts_are_kept_apart() {
    let mut per = HashMap::new();
    let mut total = 0u32;
    record_tag_failure(&mut per, &mut total, 1, 2);
    record_tag_failure(&mut per, &mut total, 2, 1);
    assert_eq!(per.len(), 2);
    assert_eq!(total, 2);
}
