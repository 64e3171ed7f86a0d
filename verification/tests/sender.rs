use haven_transfer::cache::RetransmitCache;
use haven_transfer::control::{
    build_offer, hashes_json, parse_transfer_id_bytes, plan_retransmit, serde_json_mini,
    ChunkAckMessage, NackMessage, NackResponse,
};
use haven_transfer::crypto::{decrypt_chunk, derive_session_key};
use haven_transfer::hashing::sha256_hex;
use haven_transfer::protocol::{decode_frame_header, frame_payload, FRAME_MAX};
use haven_transfer::sender::{
    drain_finished, encode_chunk_frame, loss_is_high, nanos_per_frame, retransmit_plan,
    send_retry_decision, Encryptor, SealError, SendResult, SendRetry,
};

#[test]
fn sealing_pass_declares_the_hashes() {
    let mut pass = Encryptor::new([0u8; 32]);
    let c0 = pass.seal_next(b"aaaa").unwrap();
    let c1 = pass.seal_next(b"bb").unwrap();
    assert_eq!((c0.chunk_index, c1.chunk_index), (0, 1));
    assert_eq!(c0.data.len(), 4 + 28);
    assert_eq!(c0.frame_count, 1);
    assert_eq!(c0.sha256, "ddf0bd0dd1995bb8d1b9fed3e3958ea41858e8c5d7b79f0e69221f749fdc1ff1");
    assert_eq!(c1.sha256, "7338ffddff06745cec374b46378a26f8639d863d6970ef809253f213d98b48b8");
    assert_eq!(c0.sha256, sha256_hex(&c0.data));
    let result = pass.finish();
    assert_eq!(
        result.file_sha256,
        "7872104be968a5f5386ff4919470c9305c5624ac8b58e8efe7819ca33abb4901"
    );
    assert_eq!(result.chunk_hashes, vec![c0.sha256.clone(), c1.sha256.clone()]);
    assert_eq!(result.encrypted_size, 62);
    assert_eq!(result.chunk_count, 2);
}

#[test]
fn small_file_scenario() {
    // 10 240 bytes of i mod 251 under the key of transfer 00000001
    let mut master = [0u8; 32];
    master[0] = 0xDE;
    master[31] = 0xAD;
    let key = derive_session_key(&master, "00000001");
    let input: Vec<u8> = (0..10_240usize).map(|i| (i % 251) as u8).collect();
    let mut pass = Encryptor::new(key);
    let chunk = pass.seal_next(&input).unwrap();
    assert_eq!(chunk.data.len(), 10_268);
    assert_eq!(chunk.frame_count, 8);
    assert_eq!(hex::encode(&chunk.data[..20]), "000000000000000000000000f407005a6f7a6c07");
    assert_eq!(hex::encode(&chunk.data[10_252..]), "cb3399e052613842fa72baca338eaf23");
    assert_eq!(
        chunk.sha256,
        "c52e9361098d4163d6caac037f93c47397645d90d20c1318898a63016c7c72d8"
    );
    assert_eq!(decrypt_chunk(&key, &chunk.data, 0).unwrap(), input);
    let result = pass.finish();
    assert_eq!(result.chunk_count, 1);
    assert_eq!(result.file_sha256, chunk.sha256);
}

#[test]
fn two_passes_agree() {
    let key = [0x42u8; 32];
    let chunks: [&[u8]; 3] = [b"first chunk", b"", b"third"];
    let mut a = Encryptor::new(key);
    let mut b = Encryptor::new(key);
    for c in chunks {
        let x = a.seal_next(c).unwrap();
        let y = b.seal_next(c).unwrap();
        assert_eq!(x.data, y.data);
        assert_eq!(x.sha256, y.sha256);
        assert_eq!(x.chunk_index, y.chunk_index);
    }
    let ra = a.finish();
    let rb = b.finish();
    assert_eq!(ra.file_sha256, rb.file_sha256);
    assert_eq!(ra.chunk_hashes, rb.chunk_hashes);
    assert_eq!(ra.encrypted_size, rb.encrypted_size);
}

#[test]
fn empty_file_is_one_empty_chunk() {
    let mut pass = Encryptor::new([1u8; 32]);
    let chunk = pass.seal_next(&[]).unwrap();
    assert_eq!(chunk.data.len(), 28);
    assert_eq!(chunk.frame_count, 1);
    let result = pass.finish();
    assert_eq!(result.chunk_count, 1);
    assert_eq!(result.encrypted_size, 28);
    assert_eq!(result.file_sha256, result.chunk_hashes[0]);
}

#[test]
fn seal_error_is_a_value() {
    assert_ne!(SealError::TooManyChunks, SealError::ChunkTooLarge);
    assert_ne!(SealError::ChunkTooLarge, SealError::SizeOverflow);
}

#[test]
fn chunk_frames_carry_1400_byte_slices() {
    let id = [0xC3u8; 16];
    let data: Vec<u8> = (0..3000usize).map(|i| (i % 251) as u8).collect();
    let mut buf = vec![0xAAu8; FRAME_MAX + 4];
    let n = encode_chunk_frame(&mut buf, &id, 6, 0, 3, &data).unwrap();
    assert_eq!(n, FRAME_MAX);
    assert_eq!(frame_payload(&buf[..n]), &data[..1400]);
    assert_eq!(&buf[FRAME_MAX..], &[0xAA; 4]);
    let n = encode_chunk_frame(&mut buf, &id, 6, 2, 3, &data).unwrap();
    assert_eq!(n, 24 + 200);
    let h = decode_frame_header(&buf[..n]).unwrap();
    assert_eq!((h.chunk_index, h.frame_index, h.frame_count), (6, 2, 3));
    assert_eq!(h.transfer_id, id);
    assert_eq!(frame_payload(&buf[..n]), &data[2800..]);
    let before = buf.clone();
    assert_eq!(encode_chunk_frame(&mut buf, &id, 6, 3, 3, &data), None);
    assert_eq!(buf, before);
    assert_eq!(encode_chunk_frame(&mut buf, &id, 6, 0, 0, &[]), None);
}

#[test]
fn retransmit_plan_keeps_what_the_chunk_has() {
    assert_eq!(retransmit_plan(3, 3000, &[2, 0, 3, 7, 0, 1]), vec![2, 0, 0, 1]);
    // a frame the count allows but the bytes do not reach
    assert_eq!(retransmit_plan(5, 3000, &[4, 3, 2]), vec![2]);
    assert_eq!(retransmit_plan(3, 3000, &[]), Vec::<u16>::new());
    assert_eq!(retransmit_plan(0, 3000, &[0]), Vec::<u16>::new());
}

#[test]
fn pacing_interval() {
    assert_eq!(nanos_per_frame(0), 0);
    assert_eq!(nanos_per_frame(100_000_000), 14_240);
    assert_eq!(nanos_per_frame(1), 1_424_000_000_000);
    assert_eq!(nanos_per_frame(3), 474_666_666_666);
    assert_eq!(nanos_per_frame(u64::MAX), 0);
}

#[test]
fn send_retry_policy() {
    assert_eq!(send_retry_decision(true, None, 0), SendRetry::Retry);
    assert_eq!(send_retry_decision(true, None, 49), SendRetry::Retry);
    assert_eq!(send_retry_decision(true, None, 50), SendRetry::Fatal);
    assert_eq!(send_retry_decision(false, Some(105), 3), SendRetry::Retry);
    assert_eq!(send_retry_decision(false, Some(10055), 3), SendRetry::Retry);
    assert_eq!(send_retry_decision(false, Some(104), 3), SendRetry::Fatal);
    assert_eq!(send_retry_decision(false, None, 0), SendRetry::Fatal);
    assert_eq!(send_retry_decision(false, Some(105), 50), SendRetry::Fatal);
}

#[test]
fn loss_threshold_is_a_tenth() {
    assert!(!loss_is_high(0, 0));
    assert!(loss_is_high(1, 0));
    assert!(!loss_is_high(10, 100));
    assert!(loss_is_high(11, 100));
    assert!(!loss_is_high(299, 2996));
    assert!(loss_is_high(300, 2996));
    assert!(loss_is_high(usize::MAX, u16::MAX));
    assert!(!loss_is_high(6553, u16::MAX));
    assert!(loss_is_high(6554, u16::MAX));
}

#[test]
fn drain_ends_on_acks_or_deadline() {
    assert!(drain_finished(3, 3, 0));
    assert!(drain_finished(4, 3, 0));
    assert!(!drain_finished(2, 3, 59_999));
    assert!(drain_finished(2, 3, 60_000));
    assert!(drain_finished(0, 0, 0));
}

#[test]
fn cache_evicts_only_acknowledged_heads() {
    let mut cache = RetransmitCache::new();
    for k in 0..8u32 {
        cache.insert(k, vec![k as u8; 3]);
    }
    assert_eq!(cache.len(), 8);
    // nothing acknowledged: the ninth chunk evicts nothing
    cache.insert(8, vec![8; 3]);
    assert_eq!(cache.len(), 9);
    assert!(cache.get(0).is_some());
    // chunks behind the head acknowledged out of order: the head still stalls eviction
    assert!(cache.ack(1));
    assert!(cache.ack(2));
    assert!(!cache.ack(2));
    cache.insert(9, vec![9; 3]);
    assert_eq!(cache.len(), 10);
    assert!(cache.get(1).is_some());
    // the head acknowledged: heads leave while the cache is over its size
    assert!(cache.ack(0));
    cache.insert(10, vec![10; 3]);
    assert_eq!(cache.len(), 8);
    assert!(cache.get(0).is_none());
    assert!(cache.get(1).is_none());
    assert!(cache.get(2).is_none());
    assert_eq!(cache.get(3), Some(&vec![3u8; 3]));
    assert_eq!(cache.get(10), Some(&vec![10u8; 3]));
    assert_eq!(cache.acked_count(), 3);
    assert!(cache.is_acked(0) && !cache.is_acked(3));
}

#[test]
fn cache_at_its_size_keeps_acknowledged_chunks() {
    let mut cache = RetransmitCache::new();
    for k in 0..8u32 {
        cache.ack(k);
        cache.insert(k, vec![1]);
    }
    assert_eq!(cache.len(), 8);
    cache.insert(3, vec![2, 2]);
    assert_eq!(cache.len(), 8);
    assert_eq!(cache.get(3), Some(&vec![2u8, 2]));
    cache.insert(8, vec![3]);
    assert_eq!(cache.len(), 8);
    assert!(cache.get(0).is_none());
    assert!(cache.get(1).is_some());
}

#[test]
fn nack_is_answered_from_the_cache() {
    let mut cache = RetransmitCache::new();
    cache.insert(4, vec![0u8; 3000]);
    let nack = NackMessage { chunk_index: 4, missing_frames: vec![2, 9, 0] };
    match plan_retransmit(&cache, &nack) {
        NackResponse::Resend { frame_count, frames } => {
            assert_eq!(frame_count, 3);
            assert_eq!(frames, vec![2, 0]);
        }
        NackResponse::NotCached => panic!("chunk 4 is cached"),
    }
    // the same request again gets the same answer
    assert!(matches!(plan_retransmit(&cache, &nack), NackResponse::Resend { .. }));
    let gone = NackMessage { chunk_index: 5, missing_frames: vec![0] };
    assert!(matches!(plan_retransmit(&cache, &gone), NackResponse::NotCached));
}

#[test]
fn hashes_as_json() {
    assert_eq!(serde_json_mini(&vec![]), "[]");
    assert_eq!(serde_json_mini(&vec!["ab".to_string()]), "[\"ab\"]");
    assert_eq!(
        serde_json_mini(&vec!["ab".to_string(), "".to_string(), "cd".to_string()]),
        "[\"ab\",\"\",\"cd\"]"
    );
    assert_eq!(
        hashes_json(&"ffee".to_string(), &vec!["01".to_string(), "02".to_string()]),
        "{\"file_sha256\":\"ffee\",\"chunk_hashes\":[\"01\",\"02\"]}"
    );
}

#[test]
fn offer_needs_every_hash() {
    let complete = SendResult {
        file_sha256: "ff".to_string(),
        chunk_hashes: vec!["01".to_string(), "02".to_string()],
        encrypted_size: 99,
        chunk_count: 2,
    };
    let offer = build_offer("t1".to_string(), "a.bin".to_string(), complete, None).unwrap();
    assert_eq!(offer.transfer_id, "t1");
    assert_eq!(offer.filename, "a.bin");
    assert_eq!(offer.size, 99);
    assert_eq!(offer.chunk_count, 2);
    assert_eq!(offer.per_chunk_hashes, vec!["01".to_string(), "02".to_string()]);
    assert_eq!(offer.whole_file_hash, "ff");
    assert_eq!(offer.server_url, None);
    let partial = SendResult {
        file_sha256: "ff".to_string(),
        chunk_hashes: vec!["01".to_string()],
        encrypted_size: 99,
        chunk_count: 2,
    };
    assert!(build_offer("t1".to_string(), "a.bin".to_string(), partial, None).is_none());
}

#[test]
fn transfer_id_bytes() {
    let expected: [u8; 16] = [
        0x01, 0x23, 0x45, 0x67, 0x89, 0xab, 0xcd, 0xef, 0xfe, 0xdc, 0xba, 0x98, 0x76, 0x54, 0x32,
        0x10,
    ];
    assert_eq!(parse_transfer_id_bytes("01234567-89ab-cdef-fedc-ba9876543210"), expected);
    assert_eq!(parse_transfer_id_bytes("0123456789ABCDEFFEDCBA9876543210"), expected);
    assert_eq!(parse_transfer_id_bytes("0123456789abcdeffedcba9876543210ffff"), expected);
    // not hexadecimal: the first half of the SHA-256 of the text as given
    let fallback = hex::decode("2184a32a3bae6ad756d745ec8678ad6a").unwrap();
    assert_eq!(parse_transfer_id_bytes("not-a-uuid").to_vec(), fallback);
    let odd = "0123456789abcdeffedcba987654321g";
    assert_eq!(
        parse_transfer_id_bytes(odd).to_vec(),
        hex::decode(&sha256_hex(odd.as_bytes())[..32]).unwrap()
    );
}

#[test]
fn blaster_counts_each_acknowledgement_once() {
    let mut blaster = haven_transfer::blaster::Blaster::new();
    assert!(blaster.drained(0));
    blaster.on_chunk(0, vec![1u8; 3000]);
    blaster.on_chunk(1, vec![2u8; 100]);
    assert!(!blaster.drained(59_999));
    assert!(blaster.drained(60_000));
    assert!(blaster.on_ack(ChunkAckMessage { chunk_index: 1 }));
    assert!(!blaster.on_ack(ChunkAckMessage { chunk_index: 1 }));
    assert_eq!(blaster.chunks_complete(), 1);
    assert!(!blaster.drained(0));
    assert!(blaster.on_ack(ChunkAckMessage { chunk_index: 0 }));
    assert_eq!(blaster.chunks_complete(), 2);
    assert!(blaster.drained(0));
    assert_eq!(blaster.cached(1), Some(&vec![2u8; 100]));
}

#[test]
fn blaster_answers_requests_from_its_cache() {
    let mut blaster = haven_transfer::blaster::Blaster::new();
    blaster.on_chunk(3, vec![0u8; 1400 * 20]);
    let few = NackMessage { chunk_index: 3, missing_frames: vec![5, 6] };
    match blaster.on_nack(&few) {
        haven_transfer::blaster::NackOutcome::Resend { frame_count, frames, slow_down } => {
            assert_eq!(frame_count, 20);
            assert_eq!(frames, vec![5, 6]);
            assert!(!slow_down);
        }
        haven_transfer::blaster::NackOutcome::Ignored => panic!("chunk 3 is cached"),
    }
    let many = NackMessage { chunk_index: 3, missing_frames: vec![0, 1, 25, 2] };
    match blaster.on_nack(&many) {
        haven_transfer::blaster::NackOutcome::Resend { frames, slow_down, .. } => {
            assert_eq!(frames, vec![0, 1, 2]);
            // four of twenty named missing: more than a tenth
            assert!(slow_down);
        }
        haven_transfer::blaster::NackOutcome::Ignored => panic!("chunk 3 is cached"),
    }
    assert_eq!(blaster.retransmits(), 6);
    let gone = NackMessage { chunk_index: 4, missing_frames: vec![0] };
    assert!(matches!(blaster.on_nack(&gone), haven_transfer::blaster::NackOutcome::Ignored));
    assert_eq!(blaster.retransmits(), 6);
}
