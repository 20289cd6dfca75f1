use unidrop::engine::devices::{device_offline, device_online};
use unidrop::engine::e2ee::{derive_key_for, open_inbound_offer, sealed_offer_for_wire, InboundOffer};
use unidrop::engine::history::{failed_transfer_card, TaskBrief, REJECTED_BY_PEER};
use unidrop::engine::offer::{answer_for_offer, E2EE_KEY_MISMATCH};
use unidrop::protocol::envelope::{OnlineDevice, TransferItemPayload, TransferOfferPayload};
use unidrop::settings::{migrate_loaded_settings, AppSettings};

fn dev(id: &str) -> OnlineDevice {
    OnlineDevice {
        device_id: id.to_string(),
        hostname: format!("host-{id}"),
        os_type: "linux".to_string(),
        app_version: "0.3.0".to_string(),
        remote_ip: None,
    }
}

#[test]
fn devices_come_and_go_by_id() {
    let mut devs = vec![dev("a")];
    assert!(device_online(&mut devs, dev("b")));
    assert!(!device_online(&mut devs, dev("a")));
    let ids: Vec<&str> = devs.iter().map(|d| d.device_id.as_str()).collect();
    assert_eq!(ids, vec!["a", "b"]);
    devs.push(dev("a"));
    device_offline(&mut devs, "a");
    let ids: Vec<&str> = devs.iter().map(|d| d.device_id.as_str()).collect();
    assert_eq!(ids, vec!["b"]);
    device_offline(&mut devs, "zzz");
    assert_eq!(devs.len(), 1);
    assert_eq!(devs[0].hostname, "host-b");
}

#[test]
fn failed_cards_name_the_transfer_and_the_reason() {
    let brief = TaskBrief {
        direction: "RECEIVE".to_string(),
        data_type: "TEXT".to_string(),
        preview_summary: Some("“hi”".to_string()),
        total_size: 2,
    };
    let c = failed_transfer_card(Some(brief.clone()), Some(REJECTED_BY_PEER));
    assert_eq!(c.summary, "“hi” (对方拒绝了本次传输)");
    assert_eq!((c.direction.as_str(), c.total_size, c.data_type.as_str()), ("RECEIVE", 2, "TEXT"));
    let c = failed_transfer_card(None, Some(REJECTED_BY_PEER));
    assert_eq!(c.summary, "传输 (对方拒绝了本次传输)");
    assert_eq!((c.direction.as_str(), c.total_size, c.data_type.as_str()), ("SEND", 0, "FILES"));
    let mut no_preview = brief;
    no_preview.preview_summary = None;
    assert_eq!(failed_transfer_card(Some(no_preview), None).summary, "传输");
}

#[test]
fn answers_accept_or_refuse_with_the_key_mismatch_reason() {
    let a = answer_for_offer("s1", false);
    assert!(a.accepted && a.reject_reason.is_none() && a.token.is_none() && a.resumed_items.is_empty());
    let r = answer_for_offer("s1", true);
    assert!(!r.accepted);
    assert_eq!(r.reject_reason.as_deref(), Some(E2EE_KEY_MISMATCH));
    assert_eq!(r.session_id, "s1");
}

fn offer(session_id: &str) -> TransferOfferPayload {
    TransferOfferPayload {
        session_id: session_id.to_string(),
        data_type: "FILES".to_string(),
        total_size: 3,
        total_items: 1,
        preview_summary: "a.txt".to_string(),
        encrypted: true,
        e2ee_version: None,
        encrypted_metadata: None,
        items: vec![TransferItemPayload {
            item_index: 0,
            relative_path: "a.txt".to_string(),
            size: 3,
            is_dir: false,
            sha256: "00".to_string(),
            total_chunks: 1,
        }],
    }
}

#[test]
fn inbound_offers_open_only_with_the_same_psk_and_account() {
    let sid = uuid::Uuid::new_v4().to_string();
    let key = derive_key_for(&sid, "psk", "acct").unwrap();
    let wire = sealed_offer_for_wire(&offer(&sid), &key, b"{\"meta\":1}").unwrap();
    match open_inbound_offer(&wire, "psk", "acct") {
        InboundOffer::Sealed(json) => assert_eq!(json, b"{\"meta\":1}"),
        other => panic!("expected the metadata, got {other:?}"),
    }
    assert!(matches!(open_inbound_offer(&wire, "other", "acct"), InboundOffer::Refused));
    assert!(matches!(open_inbound_offer(&wire, "psk", "someone"), InboundOffer::Refused));
    assert!(matches!(open_inbound_offer(&wire, "", "acct"), InboundOffer::Refused));
    let mut plain = offer(&sid);
    plain.encrypted = false;
    assert!(matches!(open_inbound_offer(&plain, "psk", "acct"), InboundOffer::Plain));
    assert!(matches!(open_inbound_offer(&offer("not-a-uuid"), "psk", "acct"), InboundOffer::Refused));
}

#[test]
fn the_legacy_development_address_is_replaced_on_load() {
    let mut s = AppSettings::default_config();
    s.server_url = "ws://127.0.0.1:8080".to_string();
    assert_eq!(migrate_loaded_settings(s).server_url, "wss://drop.yourdomain.com:58921");
    let mut t = AppSettings::default_config();
    t.server_url = "wss://relay.example:1".to_string();
    assert_eq!(migrate_loaded_settings(t).server_url, "wss://relay.example:1");
}
