use haven_transfer::cache::RetransmitCache;
use haven_transfer::control::{plan_retransmit, NackMessage, NackResponse};
use haven_transfer::crypto::{decrypt_chunk, derive_session_key, TransferCrypto};
use haven_transfer::htp::{
    build_packet, packet_count, packet_flags, packet_span, write_offset, PacketOutcome,
    SequenceTracker,
};
use haven_transfer::hashing::sha256_hex;
use haven_transfer::protocol::FRAME_MAX;
use haven_transfer::receiver::{classify_packet, Assembler, PacketVerdict, Writer};
use haven_transfer::sender::{encode_chunk_frame, Encryptor};

const ID: [u8; 16] = [0x5A; 16];

fn deliver(assembler: &mut Assembler, datagram: &[u8]) -> Option<Vec<u8>> {
    match classify_packet(datagram, &ID) {
        PacketVerdict::Accept { header, payload } => {
            assembler.on_frame(&header, &payload).map(|c| c.data)
        }
        _ => None,
    }
}

#[test]
fn small_file_without_loss() {
    let mut master = [0u8; 32];
    master[0] = 0xDE;
    master[31] = 0xAD;
    let key = derive_session_key(&master, "00000001");
    let input: Vec<u8> = (0..10_240usize).map(|i| (i % 251) as u8).collect();

    let mut pass = Encryptor::new(key);
    let chunk = pass.seal_next(&input).unwrap();
    let offer = pass.finish();

    let mut assembler =
        Assembler::new(offer.encrypted_size, 4_194_332, offer.chunk_count).unwrap();
    let mut buf = vec![0u8; FRAME_MAX];
    let mut assembled = None;
    for k in 0..chunk.frame_count {
        let n = encode_chunk_frame(&mut buf, &ID, 0, k, chunk.frame_count, &chunk.data).unwrap();
        if let Some(data) = deliver(&mut assembler, &buf[..n]) {
            assembled = Some(data);
        }
    }
    let sealed = assembled.unwrap();
    assert!(assembler.is_finished());
    assert!(assembler.nack_scan().is_empty());
    assert_eq!(sha256_hex(&sealed), offer.chunk_hashes[0]);

    let mut writer = Writer::new(4_194_332, offer.chunk_count, offer.chunk_hashes.clone());
    let assembled_chunk =
        haven_transfer::receiver::AssembledChunk { chunk_index: 0, data: sealed.clone() };
    assert_eq!(writer.check(&assembled_chunk), Ok(0));
    assert!(writer.record_written(sealed.len()));
    assert_eq!(writer.chunks_written(), 1);
    assert_eq!(decrypt_chunk(&key, &sealed, 0).unwrap(), input);
}

#[test]
fn every_tenth_frame_dropped_once() {
    let key = [0x11u8; 32];
    let input: Vec<u8> = (0..60_000usize).map(|i| (i % 251) as u8).collect();
    let mut pass = Encryptor::new(key);
    let chunk = pass.seal_next(&input).unwrap();
    let offer = pass.finish();
    assert_eq!(chunk.frame_count, 43);

    let mut cache = RetransmitCache::new();
    cache.insert(0, chunk.data.clone());
    let mut assembler =
        Assembler::new(offer.encrypted_size, 4_194_332, offer.chunk_count).unwrap();
    let mut buf = vec![0u8; FRAME_MAX];
    let mut dropped = Vec::new();
    for k in 0..chunk.frame_count {
        let n = encode_chunk_frame(&mut buf, &ID, 0, k, chunk.frame_count, &chunk.data).unwrap();
        if k % 10 == 9 {
            dropped.push(k);
            continue;
        }
        assert!(deliver(&mut assembler, &buf[..n]).is_none());
    }
    assert_eq!(dropped, vec![9, 19, 29, 39]);

    // the scan names exactly the frames that were dropped
    let requests = assembler.nack_scan();
    assert_eq!(requests.len(), 1);
    assert_eq!(requests[0].chunk_index, 0);
    assert_eq!(requests[0].missing_frames, dropped);

    // the sender answers from its cache
    let nack = NackMessage {
        chunk_index: requests[0].chunk_index,
        missing_frames: requests[0].missing_frames.clone(),
    };
    let (frame_count, frames) = match plan_retransmit(&cache, &nack) {
        NackResponse::Resend { frame_count, frames } => (frame_count, frames),
        NackResponse::NotCached => panic!("the chunk is cached"),
    };
    assert_eq!(frame_count, chunk.frame_count);
    assert_eq!(frames, dropped);
    let mut retransmits = 0;
    let mut assembled = None;
    let data = cache.get(0).unwrap().clone();
    for k in frames {
        let n = encode_chunk_frame(&mut buf, &ID, 0, k, frame_count, &data).unwrap();
        retransmits += 1;
        if let Some(bytes) = deliver(&mut assembler, &buf[..n]) {
            assembled = Some(bytes);
        }
    }
    assert_eq!(retransmits, dropped.len());
    let sealed = assembled.unwrap();
    assert_eq!(sealed, chunk.data);
    assert_eq!(decrypt_chunk(&key, &sealed, 0).unwrap(), input);
    assert!(assembler.nack_scan().is_empty());
}

fn point_to_point(file_size: usize, session_id: u32) -> (Vec<u8>, Vec<u64>, u64) {
    let mut master = [0u8; 32];
    master[0] = 0xDE;
    master[31] = 0xAD;
    let salt = [0u8; 32];
    let sender = TransferCrypto::new(&master, &salt);
    let receiver = TransferCrypto::new(&master, &salt);
    let input: Vec<u8> = (0..file_size).map(|i| (i % 251) as u8).collect();
    let total = packet_count(file_size as u64);
    let mut tracker = SequenceTracker::new(total);
    let mut output = vec![0u8; file_size];
    let mut offsets = Vec::new();
    for sequence in 0..total {
        let (offset, len) = packet_span(sequence, file_size as u64).unwrap();
        let flags = packet_flags(sequence, total, false);
        let plaintext = &input[offset as usize..offset as usize + len];
        let datagram = build_packet(&sender, session_id, sequence, flags, plaintext).unwrap();
        assert!(datagram.len() <= 1472);
        match tracker.screen(&receiver, session_id, &datagram) {
            PacketOutcome::Data { sequence: s, plaintext } => {
                let at = write_offset(s).unwrap();
                offsets.push(at);
                output[at as usize..at as usize + plaintext.len()].copy_from_slice(&plaintext);
                tracker.record(s);
            }
            _ => panic!("a fresh packet of the session must open"),
        }
    }
    assert!(tracker.is_complete());
    assert!(tracker.nack_scan().is_empty());
    assert_eq!(output, input);
    (output, offsets, total)
}

#[test]
fn small_file_point_to_point() {
    let (output, offsets, total) = point_to_point(10_240, 0x0000_0001);
    assert_eq!(output.len(), 10_240);
    assert_eq!(total, 8);
    assert_eq!(offsets, vec![0, 1428, 2856, 4284, 5712, 7140, 8568, 9996]);
}

#[test]
fn exact_three_packet_boundary() {
    let (output, offsets, total) = point_to_point(3 * 1428, 7);
    assert_eq!(output.len(), 4284);
    assert_eq!(total, 3);
    // three writes, at aligned offsets
    assert_eq!(offsets, vec![0, 1428, 2856]);
}
