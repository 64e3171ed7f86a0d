use haven_transfer::crypto::{DecryptError, TransferCrypto};
use haven_transfer::htp::{
    acked_bytes, build_packet, hello_packet, packet_count, packet_flags, packet_span,
    progress_due, write_offset, NextPacket, PacketOutcome, PendingNacks, RecvError, SendError,
    SendPlan, SequenceTracker, HELLO_SEQUENCE, MAX_NACK_SIZE,
};
use haven_transfer::packet::{DataPacket, PacketHeader, FLAG_END, FLAG_RETRANSMIT, FLAG_START};

#[test]
fn packets_of_a_file() {
    assert_eq!(packet_count(0), 0);
    assert_eq!(packet_count(1), 1);
    assert_eq!(packet_count(1428), 1);
    assert_eq!(packet_count(1429), 2);
    assert_eq!(packet_count(10_240), 8);
    assert_eq!(packet_count(3 * 1428), 3);
    assert_eq!(packet_count(u64::MAX), u64::MAX / 1428 + 1);
}

#[test]
fn packet_flags_mark_first_last_and_resent() {
    assert_eq!(packet_flags(0, 3, false), FLAG_START);
    assert_eq!(packet_flags(1, 3, false), 0);
    assert_eq!(packet_flags(2, 3, false), FLAG_END);
    assert_eq!(packet_flags(0, 1, false), FLAG_START | FLAG_END);
    assert_eq!(packet_flags(0, 1, true), FLAG_START | FLAG_END | FLAG_RETRANSMIT);
    assert_eq!(packet_flags(1, 3, true), FLAG_RETRANSMIT);
    assert_eq!(packet_flags(u64::MAX, 0, false), 0);
}

#[test]
fn exact_three_packet_file() {
    // three full packets: three writes at aligned offsets
    let size = 3 * 1428u64;
    assert_eq!(packet_count(size), 3);
    assert_eq!(packet_span(0, size), Some((0, 1428)));
    assert_eq!(packet_span(1, size), Some((1428, 1428)));
    assert_eq!(packet_span(2, size), Some((2856, 1428)));
    assert_eq!(packet_span(3, size), None);
    assert_eq!(write_offset(2), Some(2856));
}

#[test]
fn packet_spans() {
    assert_eq!(packet_span(0, 0), None);
    assert_eq!(packet_span(7, 10_240), Some((9996, 244)));
    assert_eq!(packet_span(8, 10_240), None);
    assert_eq!(packet_span(u64::MAX, 10_240), None);
    assert_eq!(write_offset(u64::MAX), None);
    assert_eq!(write_offset(u64::MAX / 1428), Some(u64::MAX / 1428 * 1428));
    assert_eq!(acked_bytes(3, 10_240), 4284);
    assert_eq!(acked_bytes(8, 10_240), 10_240);
    assert_eq!(acked_bytes(u64::MAX, 10_240), 10_240);
    assert!(progress_due(100) && progress_due(0) && !progress_due(99));
}

#[test]
fn packets_are_sealed_behind_their_header() {
    let crypto = TransferCrypto::from_session_key(&[0u8; 32]);
    let bytes = build_packet(&crypto, 1, 42, FLAG_START, b"data").unwrap();
    assert_eq!(
        hex::encode(&bytes),
        "485400000001000000000000002a000100000001000000000000002a097225ef75f55161b9d13312db72fd8439988869"
    );
    let packet = DataPacket::from_bytes(&bytes).unwrap();
    assert_eq!(packet.header, PacketHeader { session_id: 1, sequence: 42, flags: FLAG_START });
    assert_eq!(crypto.decrypt(1, 42, &packet.encrypted_payload).unwrap(), b"data");
}

#[test]
fn hello_is_a_bare_header() {
    let hello = hello_packet(0x01020304);
    assert_eq!(hello, [0x48, 0x54, 1, 2, 3, 4, 0xFF, 0xFF, 0xFF, 0xFF, 0xFF, 0xFF, 0xFF, 0xFF, 0, 0]);
    let h = PacketHeader::parse(&hello).unwrap();
    assert_eq!(h.sequence, HELLO_SEQUENCE);
}

#[test]
fn receiver_screens_datagrams() {
    let crypto = TransferCrypto::from_session_key(&[3u8; 32]);
    let mut tracker = SequenceTracker::new(4);
    let good = build_packet(&crypto, 9, 2, 0, b"payload").unwrap();
    match tracker.screen(&crypto, 9, &good) {
        PacketOutcome::Data { sequence, plaintext } => {
            assert_eq!(sequence, 2);
            assert_eq!(plaintext, b"payload");
        }
        _ => panic!("a new packet of the session opens"),
    }
    assert!(matches!(tracker.screen(&crypto, 8, &good), PacketOutcome::OtherSession));
    assert!(matches!(tracker.screen(&crypto, 9, &good[..16]), PacketOutcome::NotAPacket));
    assert!(matches!(tracker.screen(&crypto, 9, &[1, 2, 3]), PacketOutcome::NotAPacket));
    let mut hello = hello_packet(9).to_vec();
    hello.push(0);
    assert!(matches!(tracker.screen(&crypto, 9, &hello), PacketOutcome::Hello));
    let mut forged = good.clone();
    let last = forged.len() - 1;
    forged[last] ^= 1;
    match tracker.screen(&crypto, 9, &forged) {
        PacketOutcome::Rejected { sequence, error } => {
            assert_eq!(sequence, 2);
            assert_eq!(error, DecryptError::AuthFailed);
        }
        _ => panic!("a forged packet is rejected"),
    }
    // the header says 3, the sealed payload was made for 2
    let mut renumbered = good.clone();
    renumbered[13] = 3;
    match tracker.screen(&crypto, 9, &renumbered) {
        PacketOutcome::Rejected { sequence, error } => {
            assert_eq!(sequence, 3);
            assert_eq!(error, DecryptError::IvMismatch);
        }
        _ => panic!("a renumbered packet is rejected"),
    }
    assert_eq!(tracker.record(2), 1);
    assert!(matches!(tracker.screen(&crypto, 9, &good), PacketOutcome::Duplicate));
}

#[test]
fn tracker_counts_each_packet_once() {
    let mut tracker = SequenceTracker::new(3);
    assert!(!tracker.is_complete());
    assert_eq!(tracker.record(1), 1);
    assert_eq!(tracker.record(1), 1);
    assert!(tracker.has(1) && !tracker.has(0));
    assert_eq!(tracker.record(0), 2);
    assert_eq!(tracker.nack_scan(), vec![2]);
    assert_eq!(tracker.record(2), 3);
    assert!(tracker.is_complete());
    assert!(tracker.nack_scan().is_empty());
    assert!(SequenceTracker::new(0).is_complete());
}

#[test]
fn nack_scan_looks_a_hundred_ahead() {
    let mut tracker = SequenceTracker::new(1000);
    // nothing received: the first hundred
    assert_eq!(tracker.nack_scan(), (0..100).collect::<Vec<u64>>());
    tracker.record(3);
    tracker.record(5);
    let expected: Vec<u64> = (0..105).filter(|s| *s != 3 && *s != 5).collect();
    assert_eq!(tracker.nack_scan(), expected);
    tracker.record(990);
    let scan = tracker.nack_scan();
    assert_eq!(scan.len(), MAX_NACK_SIZE);
    let expected: Vec<u64> = (0..502).filter(|s| *s != 3 && *s != 5).collect();
    assert_eq!(scan, expected);
    let mut short = SequenceTracker::new(10);
    short.record(9);
    assert_eq!(short.nack_scan(), (0..9).collect::<Vec<u64>>());
    let mut far = SequenceTracker::new(u64::MAX);
    far.record(u64::MAX - 1);
    assert_eq!(far.nack_scan().len(), MAX_NACK_SIZE);
}

#[test]
fn pending_nacks_hold_each_number_once() {
    let mut pending = PendingNacks::new();
    assert!(pending.is_empty());
    assert_eq!(pending.take(), None);
    pending.extend(&[4, 7, 4]);
    pending.extend(&[7, 9]);
    assert!(!pending.is_empty());
    let mut taken = Vec::new();
    while let Some(s) = pending.take() {
        taken.push(s);
    }
    taken.sort();
    assert_eq!(taken, vec![4, 7, 9]);
    assert!(pending.is_empty());
}

#[test]
fn transfer_error_messages() {
    assert_eq!(SendError::Io("disk gone".to_string()).message(), "I/O error: disk gone");
    assert_eq!(SendError::Crypto.message(), "encryption error");
    assert_eq!(SendError::Cancelled.message(), "transfer cancelled");
    assert_eq!(SendError::AuthFailed.message(), "UDP relay authentication failed");
    assert_eq!(RecvError::Io("x".to_string()).message(), "I/O error: x");
    assert_eq!(RecvError::Cancelled.message(), "transfer cancelled");
    assert_eq!(RecvError::AuthFailed.message(), "UDP relay authentication failed");
}

#[test]
fn send_plan_sends_repeats_first() {
    let mut plan = SendPlan::new(3000);
    assert_eq!(plan.total(), 3);
    let first = plan.next();
    assert_eq!(
        first,
        NextPacket::Send { sequence: 0, retransmit: false, flags: FLAG_START, offset: 0, len: 1428 }
    );
    plan.sent(false, 1428);
    plan.on_nack(&[0, 9]);
    let mut repeats = Vec::new();
    let mut skipped = 0;
    for _ in 0..2 {
        match plan.next() {
            NextPacket::Send { sequence, retransmit, flags, offset, len } => {
                assert!(retransmit);
                assert_eq!((sequence, offset, len), (0, 0, 1428));
                assert_eq!(flags, FLAG_START | FLAG_RETRANSMIT);
                plan.sent(true, len);
                repeats.push(sequence);
            }
            NextPacket::Skip => skipped += 1,
            NextPacket::Finished => panic!("two packets are still to be sent"),
        }
    }
    assert_eq!((repeats, skipped), (vec![0], 1));
    assert!(plan.nothing_pending());
    assert_eq!(
        plan.next(),
        NextPacket::Send { sequence: 1, retransmit: false, flags: 0, offset: 1428, len: 1428 }
    );
    plan.sent(false, 1428);
    assert_eq!(
        plan.next(),
        NextPacket::Send { sequence: 2, retransmit: false, flags: FLAG_END, offset: 2856, len: 144 }
    );
    plan.sent(false, 144);
    // a request that comes after the last new packet waits for the second phase
    plan.on_nack(&[1]);
    assert_eq!(plan.next(), NextPacket::Finished);
    assert!(!plan.nothing_pending());
    assert_eq!(plan.sequence(), 3);
    assert_eq!(plan.bytes_sent(), 3000 + 1428);
    assert_eq!(plan.retransmits(), 1);
    let mut empty = SendPlan::new(0);
    assert_eq!(empty.next(), NextPacket::Finished);
}
