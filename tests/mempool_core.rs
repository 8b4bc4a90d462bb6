use mempool::mempool::{
    payload_bytes, payload_status, same_bytes, ConsensusMessage, CoreReply, MempoolCore,
    MempoolError, Parameters, PayloadStatus, DIGEST_LEN,
};

fn digest(seed: u8) -> Vec<u8> {
    (0..DIGEST_LEN as u8).map(|i| i.wrapping_mul(7).wrapping_add(seed)).collect()
}

fn fresh_core() -> MempoolCore {
    MempoolCore::new(Parameters { queue_capacity: 2, max_payload_size: 500 })
}

#[test]
fn unknown_digest_waits_then_accepts() {
    let mut c = fresh_core();
    let d = digest(1);
    assert_eq!(c.verify(&d), PayloadStatus::Wait(d.clone()));
    assert!(c.receive_payload(&d));
    assert_eq!(c.verify(&d), PayloadStatus::Accept);
}

#[test]
fn receiving_twice_reports_no_change() {
    let mut c = fresh_core();
    let d = digest(2);
    assert!(c.receive_payload(&d));
    assert!(!c.receive_payload(&d));
    assert_eq!(c.verify(&d), PayloadStatus::Accept);
}

#[test]
fn wrong_length_is_rejected() {
    let mut c = fresh_core();
    let d = digest(3);
    c.receive_payload(&d);
    assert_eq!(c.verify(&[]), PayloadStatus::Reject);
    assert_eq!(c.verify(&d[..DIGEST_LEN - 1]), PayloadStatus::Reject);
    let mut long = d.clone();
    long.push(0);
    assert_eq!(c.verify(&long), PayloadStatus::Reject);
    assert!(!c.receive_payload(&long));
    assert_eq!(c.verify(&long), PayloadStatus::Reject);
}

#[test]
fn garbage_collect_twice_is_idempotent() {
    let mut c = fresh_core();
    let d = digest(4);
    c.receive_payload(&d);
    c.garbage_collect(&d);
    assert_eq!(c.verify(&d), PayloadStatus::Wait(d.clone()));
    c.garbage_collect(&d);
    assert_eq!(c.verify(&d), PayloadStatus::Wait(d.clone()));
}

#[test]
fn garbage_collect_unknown_digest_is_no_error() {
    let mut c = fresh_core();
    let d = digest(5);
    c.garbage_collect(&d);
    assert_eq!(c.verify(&d), PayloadStatus::Wait(d.clone()));
    c.garbage_collect(&[1, 2, 3]);
}

#[test]
fn payload_after_collection_is_not_resurfaced() {
    let mut c = fresh_core();
    let d = digest(6);
    c.receive_payload(&d);
    c.garbage_collect(&d);
    assert!(!c.receive_payload(&d));
    assert_eq!(c.verify(&d), PayloadStatus::Wait(d.clone()));
}

#[test]
fn get_hands_out_own_payloads_oldest_first() {
    let mut c = fresh_core();
    assert_eq!(c.get(), None);
    let (a, b) = (digest(7), digest(8));
    assert_eq!(c.add_payload(&a, 10), Ok(()));
    assert_eq!(c.add_payload(&b, 10), Ok(()));
    assert_eq!(c.verify(&a), PayloadStatus::Accept);
    assert_eq!(c.get(), Some(a));
    assert_eq!(c.get(), Some(b));
    assert_eq!(c.get(), None);
}

#[test]
fn add_payload_errors() {
    let mut c = fresh_core();
    assert_eq!(c.add_payload(&[0; 5], 10), Err(MempoolError::MalformedDigest));
    assert_eq!(c.add_payload(&digest(9), 501), Err(MempoolError::PayloadTooBig));
    assert_eq!(c.add_payload(&digest(9), 500), Ok(()));
    assert_eq!(c.add_payload(&digest(10), 1), Ok(()));
    assert_eq!(c.add_payload(&digest(11), 1), Err(MempoolError::QueueFull));
    assert_eq!(c.verify(&digest(11)), PayloadStatus::Wait(digest(11)));
    // A digest already held is accepted even with the queue full.
    assert_eq!(c.add_payload(&digest(9), 1), Ok(()));
}

#[test]
fn garbage_collect_removes_from_queue() {
    let mut c = fresh_core();
    let (a, b) = (digest(12), digest(13));
    c.add_payload(&a, 1).unwrap();
    c.add_payload(&b, 1).unwrap();
    c.garbage_collect(&a);
    assert_eq!(c.get(), Some(b));
    assert_eq!(c.get(), None);
}

#[test]
fn handle_answers_queries() {
    let mut c = fresh_core();
    let d = digest(14);
    assert_eq!(c.handle(ConsensusMessage::Get), CoreReply::Payload(None));
    assert_eq!(c.handle(ConsensusMessage::Verify(d.clone())), CoreReply::Verified(Ok(false)));
    c.add_payload(&d, 1).unwrap();
    assert_eq!(c.handle(ConsensusMessage::Verify(d.clone())), CoreReply::Verified(Ok(true)));
    assert_eq!(c.handle(ConsensusMessage::Get), CoreReply::Payload(Some(d)));
    assert_eq!(
        c.handle(ConsensusMessage::Verify(vec![1])),
        CoreReply::Verified(Err(MempoolError::MalformedDigest))
    );
}

#[test]
fn adapter_mappings() {
    let d = digest(15);
    assert_eq!(payload_status(&d, Ok(true)), PayloadStatus::Accept);
    assert_eq!(payload_status(&d, Ok(false)), PayloadStatus::Wait(d.clone()));
    assert_eq!(payload_status(&d, Err(MempoolError::MalformedDigest)), PayloadStatus::Reject);
    assert_eq!(payload_bytes(None), Vec::<u8>::new());
    assert_eq!(payload_bytes(Some(d.clone())), d);
}

#[test]
fn same_bytes_compares_contents() {
    assert!(same_bytes(&[1, 2, 3], &[1, 2, 3]));
    assert!(!same_bytes(&[1, 2, 3], &[1, 2, 4]));
    assert!(!same_bytes(&[1, 2], &[1, 2, 3]));
    assert!(same_bytes(&[], &[]));
}

#[test]
fn payload_disseminated_to_peer_is_accepted() {
    let mut a = fresh_core();
    let mut b = fresh_core();
    let d = digest(16);
    a.add_payload(&d, 100).unwrap();
    // In-memory transport: the digest a disseminates reaches b.
    let wire: Vec<Vec<u8>> = vec![d.clone()];
    assert_eq!(b.verify(&d), PayloadStatus::Wait(d.clone()));
    for message in &wire {
        b.receive_payload(message);
    }
    assert_eq!(b.verify(&d), PayloadStatus::Accept);
    assert_eq!(a.get(), Some(d.clone()));
    assert_eq!(b.get(), None);
}

#[test]
fn handed_out_digest_has_digest_length() {
    let mut c = fresh_core();
    c.add_payload(&digest(17), 1).unwrap();
    let got = payload_bytes(c.get());
    assert_eq!(got.len(), DIGEST_LEN);
    assert_eq!(payload_bytes(c.get()).len(), 0);
}
