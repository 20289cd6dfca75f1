use unidrop::engine::data_plane::{
    completion_notice, data_ws_url, find_planned, plan_chunks, receive_failure_title, session_injection,
    sender_on_reply, ClipboardDelivery, DataRole, FrameVerdict, ReceiverSession, SenderReply,
};
use unidrop::engine::e2ee::{derive_session_key, plaintext_chunk_len, SessionKey};
use unidrop::engine::sliding_window::SlidingWindow;
use unidrop::engine::transfer::build_data_frame;
use unidrop::protocol::binary_header::{BinaryHeader, HEADER_SIZE};
use unidrop::protocol::envelope::TransferItemPayload;

fn item(index: u32, size: i64, total_chunks: u32) -> TransferItemPayload {
    TransferItemPayload {
        item_index: index,
        relative_path: format!("f{index}.bin"),
        size,
        is_dir: false,
        sha256: String::new(),
        total_chunks,
    }
}

fn key(sid: &[u8; 16], psk: &str) -> SessionKey {
    derive_session_key(psk, sid, "acct").unwrap()
}

fn control(ack: bool, sid: [u8; 16], item: u32, chunk: u32) -> Vec<u8> {
    let h = if ack {
        BinaryHeader::new_ack(sid, item, chunk)
    } else {
        BinaryHeader::new_nack(sid, item, chunk)
    };
    let mut buf = vec![0u8; HEADER_SIZE];
    h.encode(&mut buf).unwrap();
    buf
}

#[test]
fn data_url_names_both_ends_and_the_role() {
    assert_eq!(
        data_ws_url(" relay.example.com:8443// ", "s1", DataRole::Sender, "a", "b", "tok"),
        "wss://relay.example.com:8443/ws/data?session_id=s1&role=sender&device_id=a&target_device_id=b&token=tok"
    );
    assert_eq!(
        data_ws_url("ws://127.0.0.1:8080/", "s2", DataRole::Receiver, "b", "a", "t"),
        "ws://127.0.0.1:8080/ws/data?session_id=s2&role=receiver&device_id=b&target_device_id=a&token=t"
    );
}

#[test]
fn plan_cuts_each_item_and_keeps_the_tail() {
    let items = vec![item(0, 10, 3), item(1, 0, 1)];
    let plan = plan_chunks(&items, 4, None);
    let shape: Vec<(u32, u32, u64, usize)> =
        plan.iter().map(|c| (c.item_index, c.chunk_index, c.offset, c.length)).collect();
    assert_eq!(shape, vec![(0, 0, 0, 4), (0, 1, 4, 4), (0, 2, 8, 2), (1, 0, 0, 0)]);
    assert_eq!(find_planned(&plan, 0, 2), Some(2));
    assert_eq!(find_planned(&plan, 1, 0), Some(3));
    assert_eq!(find_planned(&plan, 2, 0), None);
}

#[test]
fn plan_skips_items_without_a_path() {
    let items = vec![item(0, 10, 3), item(1, 5, 2)];
    let plan = plan_chunks(&items, 4, Some(1));
    assert_eq!(plan.len(), 3);
    assert!(plan.iter().all(|c| c.item_pos == 0));
    assert!(plan_chunks(&items, 4, Some(0)).is_empty());
}

#[test]
fn sender_reads_acks_and_nacks() {
    let sid = [7u8; 16];
    let items = vec![item(0, 10, 3)];
    let plan = plan_chunks(&items, 4, None);
    let mut w = SlidingWindow::new(plan.len() as u32, 4);
    w.on_chunk_sent(0, 1_000);
    w.on_chunk_sent(1, 1_000);
    assert_eq!(
        sender_on_reply(&plan, &mut w, &control(true, sid, 0, 0), 2_000),
        SenderReply::Acked { pos: 0, length: 4 }
    );
    assert!(w.is_acked(0));
    assert_eq!(sender_on_reply(&plan, &mut w, &control(false, sid, 0, 1), 3_000), SenderReply::Resend(1));
    assert_eq!(sender_on_reply(&plan, &mut w, &[1, 2, 3], 3_000), SenderReply::Ignored);
    assert_eq!(sender_on_reply(&plan, &mut w, &control(true, sid, 5, 0), 3_000), SenderReply::Ignored);
}

#[test]
fn receiver_stores_what_the_sender_framed() {
    let sid = [3u8; 16];
    let items = vec![item(0, 5, 1)];
    for encrypted in [false, true] {
        let k = if encrypted { Some(key(&sid, "psk")) } else { None };
        let frame = build_data_frame(sid, 0, 0, 1, b"hello", k.as_ref()).unwrap();
        let mut rx = ReceiverSession::new(&items, if encrypted { Some(key(&sid, "psk")) } else { None });
        match rx.on_frame(&frame) {
            FrameVerdict::Store { item_index, chunk_index, offset, payload, ack } => {
                assert_eq!((item_index, chunk_index, offset), (0, 0, 0));
                assert_eq!(payload, b"hello");
                assert_eq!(ack, control(true, sid, 0, 0));
            }
            other => panic!("unexpected verdict {other:?}"),
        }
        assert_eq!(rx.on_stored(0, 0), (true, true));
        assert_eq!(rx.on_stored(0, 0), (false, true));
    }
}

#[test]
fn receiver_offsets_follow_the_chunk_length() {
    let sid = [4u8; 16];
    let items = vec![item(0, 100, 2)];
    let frame = build_data_frame(sid, 0, 1, 2, b"tail", None).unwrap();
    let mut rx = ReceiverSession::new(&items, None);
    match rx.on_frame(&frame) {
        FrameVerdict::Store { offset, .. } => assert_eq!(offset, plaintext_chunk_len(false) as u64),
        other => panic!("unexpected verdict {other:?}"),
    }
    assert_eq!(rx.on_stored(0, 1), (true, false));
}

#[test]
fn damaged_frames_are_nacked_without_counting_as_auth_failures() {
    let sid = [5u8; 16];
    let items = vec![item(0, 5, 1)];
    let mut frame = build_data_frame(sid, 0, 0, 1, b"hello", None).unwrap();
    let last = frame.len() - 1;
    frame[last] ^= 0xFF;
    let mut rx = ReceiverSession::new(&items, None);
    match rx.on_frame(&frame) {
        FrameVerdict::Nack(b) => assert_eq!(b, control(false, sid, 0, 0)),
        other => panic!("unexpected verdict {other:?}"),
    }
    assert_eq!(rx.failure_outcome(), ("接收连接中断或校验失败", true));
}

#[test]
fn mismatched_keys_trip_the_breaker_on_the_third_failure() {
    let sid = [6u8; 16];
    let items = vec![item(0, 5, 1), item(1, 5, 1), item(2, 5, 1)];
    let sender_key = key(&sid, "one");
    let mut rx = ReceiverSession::new(&items, Some(key(&sid, "other")));
    let f0 = build_data_frame(sid, 0, 0, 1, b"hello", Some(&sender_key)).unwrap();
    let f1 = build_data_frame(sid, 1, 0, 1, b"hello", Some(&sender_key)).unwrap();
    let f2 = build_data_frame(sid, 2, 0, 1, b"hello", Some(&sender_key)).unwrap();
    assert!(matches!(rx.on_frame(&f0), FrameVerdict::Nack(_)));
    assert!(matches!(rx.on_frame(&f1), FrameVerdict::Nack(_)));
    assert!(matches!(rx.on_frame(&f2), FrameVerdict::AbortAuth));
    let (reason, generic) = rx.failure_outcome();
    assert!(reason.contains("两端密钥可能不一致"));
    assert!(!generic);
}

#[test]
fn short_bad_and_foreign_frames() {
    let sid = [8u8; 16];
    let items = vec![item(0, 5, 1)];
    let mut rx = ReceiverSession::new(&items, None);
    assert!(matches!(rx.on_frame(&[0u8; 10]), FrameVerdict::Skip));
    assert!(matches!(rx.on_frame(&[0u8; 80]), FrameVerdict::Stop));
    let foreign = build_data_frame(sid, 9, 0, 1, b"x", None).unwrap();
    assert!(matches!(rx.on_frame(&foreign), FrameVerdict::Skip));
}

#[test]
fn completion_notices() {
    let (t, b, d) = completion_notice("TEXT", true, Some("MacBook"), 1, 5, "“hi”", false, true);
    assert_eq!((t.as_str(), b.as_str(), d), ("来自 MacBook 的文本", "已写入系统剪贴板，可直接粘贴", ClipboardDelivery::Text));
    let (t, _, d) = completion_notice("IMAGE", true, None, 1, 5, "图片", false, true);
    assert_eq!((t.as_str(), d), ("UniDrop 图片已同步", ClipboardDelivery::Image));
    let (t, b, d) = completion_notice("FILES", true, Some("PC"), 3, 50 * 1024 * 1024 + 512 * 1024, "a.txt 等 3 个文件", true, true);
    assert_eq!(t, "来自 PC 的文件 (3项, 50.5 MB)");
    assert_eq!(b, "a.txt 等 3 个文件 (已自动装载至剪贴板)");
    assert_eq!(d, ClipboardDelivery::Files);
    let (t, b, d) = completion_notice("TEXT", false, None, 1, 5, "“hi”", true, true);
    assert_eq!(t, "UniDrop 文件接收完成 (1项)");
    assert_eq!(b, "“hi” (已自动装载至剪贴板)");
    assert_eq!(d, ClipboardDelivery::Nothing);
    let (_, b, _) = completion_notice("FILES", true, None, 2, 5, "x", false, true);
    assert_eq!(b, "x (已保存在沙盒，可在面板中点击装载)");
    assert_eq!(receive_failure_title(Some("PC")), "来自 PC 的接收失败");
    assert_eq!(receive_failure_title(None), "UniDrop 接收失败");
}

#[test]
fn cached_sessions_go_back_by_their_data_type() {
    assert_eq!(session_injection(Some("TEXT")), (ClipboardDelivery::Text, "文本已写入系统剪贴板"));
    assert_eq!(session_injection(Some("IMAGE")), (ClipboardDelivery::Image, "图片已写入系统剪贴板"));
    assert_eq!(session_injection(Some("FILES")).0, ClipboardDelivery::Files);
    assert_eq!(session_injection(None), (ClipboardDelivery::Files, "文件已装载至系统剪贴板，可直接粘贴"));
}

#[test]
fn storing_every_planned_chunk_completes_the_transfer() {
    let items = vec![item(0, 10, 3), item(1, 0, 1), item(2, 4, 1)];
    let plan = plan_chunks(&items, 4, None);
    let mut rx = ReceiverSession::new(&items, None);
    let mut done = Vec::new();
    for c in &plan {
        done.push(rx.on_stored(c.item_index, c.chunk_index).1);
    }
    assert_eq!(done, vec![false, false, false, false, true]);
}

use unidrop::digest::{digest_matches_hex, Sha256Stream};

fn sha(data: &[u8]) -> [u8; 32] {
    let mut h = Sha256Stream::new();
    h.update(data);
    h.finish()
}

#[test]
fn streamed_sha256_equals_the_one_shot_digest() {
    let mut h = Sha256Stream::new();
    h.update(b"hello ");
    h.update(b"");
    h.update(b"world");
    assert_eq!(h.finish(), unidrop::digest::sha256(b"hello world"));
    assert_eq!(
        hex::encode(Sha256Stream::new().finish()),
        "e3b0c44298fc1c149afbf4c8996fb92427ae41e4649b934ca495991b7852b855"
    );
}

#[test]
fn digest_comparison_ignores_only_letter_case() {
    let d = sha(b"abc");
    let hex = "ba7816bf8f01cfea414140de5dae2223b00361a396177a9cb410ff61f20015ad";
    assert!(digest_matches_hex(hex, &d));
    assert!(digest_matches_hex(&hex.to_uppercase(), &d));
    assert!(!digest_matches_hex(&hex[..62], &d));
    assert!(!digest_matches_hex(&hex.replace('b', "c"), &d));
    assert!(!digest_matches_hex("", &d));
}

#[test]
fn receive_completes_only_when_all_chunks_arrived_and_every_hash_matches() {
    let mut a = item(0, 3, 1);
    a.sha256 = hex::encode(sha(b"one"));
    let mut b = item(1, 3, 2);
    b.sha256 = hex::encode(sha(b"two")).to_uppercase();
    let items = vec![a, b];
    let good = [sha(b"one"), sha(b"two")];
    let mut rx = ReceiverSession::new(&items, None);
    rx.on_stored(0, 0);
    rx.on_stored(1, 0);
    // A chunk is still missing: not complete, whatever the hashes.
    assert!(!rx.completion_verdict(&items, &good));
    assert_eq!(rx.on_stored(1, 1), (true, true));
    assert!(rx.completion_verdict(&items, &good));
    // Every chunk arrived but one file's content differs from its declared hash.
    assert!(!rx.completion_verdict(&items, &[sha(b"one"), sha(b"tw0")]));
}

#[test]
fn a_frame_for_an_unknown_item_that_does_not_open_counts_as_an_auth_failure() {
    let sid = [7u8; 16];
    let items = vec![item(0, 5, 1)];
    let mut rx = ReceiverSession::new(&items, Some(key(&sid, "mine")));
    // Item 9 is not in the offer, but the frame is judged on authentication first.
    let f = build_data_frame(sid, 9, 0, 1, b"hello", Some(&key(&sid, "theirs"))).unwrap();
    assert!(matches!(rx.on_frame(&f), FrameVerdict::Nack(_)));
    // Sealed with the right key, the same frame is skipped as naming no item of the offer.
    let g = build_data_frame(sid, 9, 0, 1, b"hello", Some(&key(&sid, "mine"))).unwrap();
    assert!(matches!(rx.on_frame(&g), FrameVerdict::Skip));
}
