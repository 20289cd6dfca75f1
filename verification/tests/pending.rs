use unidrop::engine::offer::{PathProbe, TransferEngine, TransferSource};
use unidrop::engine::pending::{AnswerAction, PendingOffers};
use unidrop::protocol::envelope::TransferOfferPayload;

fn offer(byte: u8) -> TransferOfferPayload {
    let probes = vec![PathProbe::File { name: format!("f{byte}.txt"), size: 3, digest: [byte; 32] }];
    TransferEngine::prepare_offer(&[byte; 16], &probes, None).unwrap().0
}

#[test]
fn accepted_answer_with_token_starts_the_sender_once() {
    let mut p = PendingOffers::new();
    let o = offer(1);
    let sid = o.session_id.clone();
    p.offer_sent(o, TransferSource::Memory(b"abc".to_vec()));
    match p.on_answer(&sid, true, Some("tok".to_string())) {
        AnswerAction::StartSender { offer, token, .. } => {
            assert_eq!(offer.session_id, sid);
            assert_eq!(token, "tok");
        }
        _ => panic!("the sender must start"),
    }
    // The offer no longer waits: a repeated answer does nothing.
    assert!(matches!(p.on_answer(&sid, true, Some("tok".to_string())), AnswerAction::Ignored));
}

#[test]
fn token_echo_starts_the_receiver_for_an_accepted_offer() {
    let mut p = PendingOffers::new();
    let o = offer(2);
    let sid = o.session_id.clone();
    p.offer_accepted(o, "peer-a".to_string());
    assert!(matches!(p.on_answer(&sid, true, None), AnswerAction::Ignored));
    match p.on_answer(&sid, true, Some("t2".to_string())) {
        AnswerAction::StartReceiver { sender_device, token, .. } => {
            assert_eq!(sender_device, "peer-a");
            assert_eq!(token, "t2");
        }
        _ => panic!("the receiver must start"),
    }
}

#[test]
fn refusal_and_failure_end_both_waits() {
    let mut p = PendingOffers::new();
    let a = offer(3);
    let sid = a.session_id.clone();
    p.offer_sent(a, TransferSource::Memory(vec![1]));
    p.offer_accepted(offer(3), "peer".to_string());
    assert!(matches!(p.on_answer(&sid, false, None), AnswerAction::Refused));
    assert!(matches!(p.on_answer(&sid, true, Some("t".to_string())), AnswerAction::Ignored));

    let b = offer(4);
    let sid = b.session_id.clone();
    p.offer_accepted(b, "peer".to_string());
    p.on_failure(&sid);
    assert!(matches!(p.on_answer(&sid, true, Some("t".to_string())), AnswerAction::Ignored));
}
