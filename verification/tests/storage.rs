use haven_transfer::config::TransferConfig;
use haven_transfer::congestion::{queuing_delay, update_due, RttWindow};
use haven_transfer::control::{Heartbeat, HeartbeatAction, HEARTBEAT_INTERVAL_SECS};
use haven_transfer::crypto::DecryptError;
use haven_transfer::download::VerifyError;
use haven_transfer::errors::{
    kind_of_decrypt_error, kind_of_send_failure, kind_of_verify_error, kind_of_write_error,
    propagation, state_after, ErrorKind, Propagation,
};
use haven_transfer::receiver::WriteError;
use haven_transfer::sender::SendRetry;
use haven_transfer::layout::{chunk_count, chunk_len, chunk_offset, LayoutError};
use haven_transfer::progress::{
    DownloadProgress, ReceiverProgress, SenderProgress, TransferStats, UploadProgress,
    STATE_BLASTING, STATE_CANCELLED, STATE_COMPLETE, STATE_ENCRYPTING, STATE_ERROR,
    STATE_HASHING, STATE_IDLE, STATE_RECEIVING, STATE_UPLOADING,
};
use haven_transfer::storage::{
    check_chunk_upload, check_delete, expires_at, expiry_due, parse_range_start, plan_transfer,
    serve_range, take_chunk, ChunkRow,
    CreateTransferRequest, Refusal, ServedRange, TransferPhase, UploadVerdict,
    DEFAULT_CHUNK_SIZE,
};

fn request(file_size: u64, chunk_size: Option<u64>, hashes: usize) -> CreateTransferRequest {
    CreateTransferRequest {
        id: "t".to_string(),
        file_size,
        chunk_size,
        file_sha256: "ff".to_string(),
        chunk_hashes: vec!["00".to_string(); hashes],
    }
}

#[test]
fn chunk_counts() {
    assert_eq!(chunk_count(0, 4_194_304), Ok(1));
    assert_eq!(chunk_count(1, 4_194_304), Ok(1));
    assert_eq!(chunk_count(4_194_304, 4_194_304), Ok(1));
    assert_eq!(chunk_count(4_194_305, 4_194_304), Ok(2));
    assert_eq!(chunk_count(10_240, 4_194_304), Ok(1));
    assert_eq!(chunk_count(u64::MAX, u64::MAX), Ok(1));
    assert_eq!(chunk_count(u64::MAX, u64::MAX - 1), Ok(2));
    assert_eq!(chunk_count(5, 0), Err(LayoutError::ZeroChunkSize));
    assert_eq!(chunk_count(u32::MAX as u64, 1), Ok(u32::MAX));
    assert_eq!(chunk_count(u32::MAX as u64 + 1, 1), Err(LayoutError::TooManyChunks));
    assert_eq!(chunk_count(u64::MAX, 4_194_304), Err(LayoutError::TooManyChunks));
}

#[test]
fn chunk_ranges_do_not_overlap() {
    let file_size = 10_000_000u64;
    let chunk_size = 4_194_304u64;
    let n = chunk_count(file_size, chunk_size).unwrap();
    assert_eq!(n, 3);
    let mut end_of_previous = 0u64;
    for i in 0..n {
        let offset = chunk_offset(i, chunk_size).unwrap();
        let len = chunk_len(i, n, file_size, chunk_size);
        assert_eq!(offset, i as u64 * chunk_size);
        assert_eq!(offset, end_of_previous);
        end_of_previous = offset + len;
    }
    assert_eq!(end_of_previous, file_size);
    assert_eq!(chunk_len(2, 3, file_size, chunk_size), 1_611_392);
    assert_eq!(chunk_len(0, 1, 0, chunk_size), 0);
    assert_eq!(chunk_offset(u32::MAX, u64::MAX), None);
}

#[test]
fn transfer_plan_rows() {
    let rows = plan_transfer(&request(10_000, Some(4_000), 3)).unwrap();
    assert_eq!(
        rows,
        vec![
            ChunkRow { chunk_index: 0, byte_offset: 0, byte_length: 4_000 },
            ChunkRow { chunk_index: 1, byte_offset: 4_000, byte_length: 4_000 },
            ChunkRow { chunk_index: 2, byte_offset: 8_000, byte_length: 2_000 },
        ]
    );
    assert_eq!(plan_transfer(&request(10_000, Some(4_000), 2)), Err(Refusal::BadRequest));
    assert_eq!(plan_transfer(&request(10_000, Some(4_000), 4)), Err(Refusal::BadRequest));
    assert_eq!(plan_transfer(&request(10_000, Some(0), 1)), Err(Refusal::BadRequest));
    // an empty file is one empty chunk
    assert_eq!(
        plan_transfer(&request(0, None, 1)),
        Ok(vec![ChunkRow { chunk_index: 0, byte_offset: 0, byte_length: 0 }])
    );
    assert_eq!(plan_transfer(&request(0, None, 0)), Err(Refusal::BadRequest));
    assert_eq!(DEFAULT_CHUNK_SIZE, 4 * 1024 * 1024);
    let rows = plan_transfer(&request(DEFAULT_CHUNK_SIZE + 1, None, 2)).unwrap();
    assert_eq!(rows[1], ChunkRow { chunk_index: 1, byte_offset: DEFAULT_CHUNK_SIZE, byte_length: 1 });
}

#[test]
fn chunk_upload_verdicts() {
    let row = ChunkRow { chunk_index: 1, byte_offset: 4_000, byte_length: 100 };
    let me = "alice".to_string();
    let other = "bob".to_string();
    let refuse = |why| UploadVerdict::Refuse { why };
    assert_eq!(
        check_chunk_upload(&me, &me, TransferPhase::Uploading, false, 100, row),
        UploadVerdict::Write { offset: 4_000 }
    );
    assert_eq!(
        check_chunk_upload(&me, &other, TransferPhase::Uploading, false, 100, row),
        refuse(Refusal::Forbidden)
    );
    assert_eq!(
        check_chunk_upload(&me, &me, TransferPhase::Complete, false, 100, row),
        refuse(Refusal::Conflict)
    );
    assert_eq!(
        check_chunk_upload(&me, &me, TransferPhase::Expired, true, 100, row),
        refuse(Refusal::Conflict)
    );
    // a chunk that is stored already is accepted again, whatever its bytes
    assert_eq!(
        check_chunk_upload(&me, &me, TransferPhase::Uploading, true, 5, row),
        UploadVerdict::AlreadyReceived
    );
    assert_eq!(
        check_chunk_upload(&me, &me, TransferPhase::Uploading, false, 99, row),
        refuse(Refusal::BadRequest)
    );
    assert_eq!(
        check_chunk_upload(&me, &other, TransferPhase::Complete, true, 99, row),
        refuse(Refusal::Forbidden)
    );
}

#[test]
fn stream_is_cut_into_whole_chunks() {
    let mut buf = vec![1u8, 2, 3, 4, 5];
    assert_eq!(take_chunk(&mut buf, 6), None);
    assert_eq!(buf, vec![1, 2, 3, 4, 5]);
    assert_eq!(take_chunk(&mut buf, 2), Some(vec![1, 2]));
    assert_eq!(buf, vec![3, 4, 5]);
    assert_eq!(take_chunk(&mut buf, 3), Some(vec![3, 4, 5]));
    assert!(buf.is_empty());
    assert_eq!(take_chunk(&mut buf, 0), Some(vec![]));
    assert_eq!(take_chunk(&mut buf, 1), None);
}

#[test]
fn download_ranges() {
    let ok = |start, length, partial| {
        Ok(ServedRange { start, length, partial, file_size: 1000 })
    };
    assert_eq!(serve_range(TransferPhase::Complete, 1000, 0, None), ok(0, 1000, false));
    assert_eq!(serve_range(TransferPhase::Complete, 1000, 0, Some(0)), ok(0, 1000, false));
    assert_eq!(serve_range(TransferPhase::Complete, 1000, 0, Some(400)), ok(400, 600, true));
    assert_eq!(serve_range(TransferPhase::Uploading, 1000, 300, None), ok(0, 300, false));
    assert_eq!(serve_range(TransferPhase::Uploading, 1000, 300, Some(299)), ok(299, 1, true));
    assert_eq!(
        serve_range(TransferPhase::Uploading, 1000, 300, Some(300)),
        Err(Refusal::RangeNotSatisfiable)
    );
    assert_eq!(
        serve_range(TransferPhase::Complete, 1000, 0, Some(1000)),
        Err(Refusal::RangeNotSatisfiable)
    );
    assert_eq!(
        serve_range(TransferPhase::Uploading, 1000, 0, None),
        Err(Refusal::RangeNotSatisfiable)
    );
    assert_eq!(serve_range(TransferPhase::Expired, 1000, 1000, None), Err(Refusal::Gone));
    assert_eq!(serve_range(TransferPhase::Confirmed, 1000, 1000, Some(1)), ok(1, 999, true));
}

#[test]
fn range_header() {
    assert_eq!(parse_range_start(b"bytes=0-"), Some(0));
    assert_eq!(parse_range_start(b"bytes=4194332-8388663"), Some(4_194_332));
    assert_eq!(parse_range_start(b"bytes=17"), Some(17));
    assert_eq!(parse_range_start(b"bytes=+17-"), Some(17));
    assert_eq!(parse_range_start(b"bytes=007-9"), Some(7));
    assert_eq!(parse_range_start(b"bytes=18446744073709551615-"), Some(u64::MAX));
    assert_eq!(parse_range_start(b"bytes=18446744073709551616-"), None);
    assert_eq!(parse_range_start(b"bytes=-500"), None);
    assert_eq!(parse_range_start(b"bytes="), None);
    assert_eq!(parse_range_start(b"bytes=+"), None);
    assert_eq!(parse_range_start(b"bytes=+-5"), None);
    assert_eq!(parse_range_start(b"bytes= 5-"), None);
    assert_eq!(parse_range_start(b"bytes=5a-"), None);
    assert_eq!(parse_range_start(b"bytes=5 -"), None);
    assert_eq!(parse_range_start(b"Bytes=5-"), None);
    assert_eq!(parse_range_start(b"bytes"), None);
    assert_eq!(parse_range_start(b""), None);
    assert_eq!(parse_range_start(b"items=5-"), None);
}

#[test]
fn phases_as_words() {
    assert_eq!(TransferPhase::Uploading.as_str(), "uploading");
    assert_eq!(TransferPhase::Complete.as_str(), "complete");
    assert_eq!(TransferPhase::Confirmed.as_str(), "confirmed");
    assert_eq!(TransferPhase::Expired.as_str(), "expired");
}

#[test]
fn progress_records_start_idle() {
    let s = SenderProgress::new();
    assert_eq!((s.bytes_done, s.bytes_total, s.state, s.cancelled), (0, 0, STATE_IDLE, 0));
    assert_eq!((s.chunks_complete, s.chunks_total, s.retransmits), (0, 0, 0));
    assert_eq!(s.rate_bps, 100_000_000);
    assert!(s.last_error.is_none() && s.hashes_json.is_none());
    assert!(!s.is_cancelled());
    let mut r = ReceiverProgress::new();
    assert_eq!((r.state, r.rate_bps, r.retransmits), (STATE_IDLE, 0, 0));
    assert!(!r.is_cancelled());
    r.cancelled = 1;
    assert!(r.is_cancelled());
    let mut u = UploadProgress::new();
    assert!(!u.is_cancelled());
    u.cancelled = 7;
    assert!(u.is_cancelled());
    let d = DownloadProgress::new();
    assert!(!d.is_cancelled());
    assert_eq!(d.snapshot().state, STATE_IDLE);
    assert_eq!(
        [STATE_IDLE, STATE_ENCRYPTING, STATE_HASHING, STATE_BLASTING, STATE_RECEIVING],
        [0, 1, 1, 2, 2]
    );
    assert_eq!([STATE_UPLOADING, STATE_COMPLETE, STATE_ERROR, STATE_CANCELLED], [2, 3, 4, 5]);
}

#[test]
fn upload_failure_keeps_terminal_states() {
    let mut u = UploadProgress::new();
    u.state = STATE_UPLOADING;
    u.fail("boom".to_string());
    assert_eq!(u.state, STATE_ERROR);
    assert_eq!(u.last_error.as_deref(), Some("boom"));
    let mut done = UploadProgress::new();
    done.state = STATE_COMPLETE;
    done.fail("late".to_string());
    assert_eq!(done.state, STATE_COMPLETE);
    let mut cancelled = UploadProgress::new();
    cancelled.state = STATE_CANCELLED;
    cancelled.bytes_done = 5;
    cancelled.fail("late".to_string());
    assert_eq!(cancelled.state, STATE_CANCELLED);
    assert_eq!(cancelled.snapshot().bytes_done, 5);
}

#[test]
fn transfer_stats() {
    let mut stats = TransferStats::new();
    assert_eq!(stats.progress_terms(), (0, 0));
    stats.set_total(1000, 3);
    stats.update(250, 1, 2, 9_000);
    assert_eq!((stats.total_bytes, stats.total_chunks), (1000, 3));
    assert_eq!((stats.bytes_transferred, stats.chunks_transferred), (250, 1));
    assert_eq!((stats.retransmits, stats.current_rate), (2, 9_000));
    assert_eq!(stats.progress_terms(), (250, 1000));
    stats.update(1500, 3, 2, 0);
    assert_eq!(stats.progress_terms(), (1000, 1000));
}

#[test]
fn baseline_is_the_minimum_over_the_window() {
    let mut window = RttWindow::new(10_000);
    assert_eq!(window.min_rtt(), None);
    assert_eq!(window.queuing_delay(Some(5)), None);
    window.on_rtt_sample(10_000, 0);
    window.on_rtt_sample(8_000, 1_000);
    window.on_rtt_sample(50_000, 2_000);
    assert_eq!(window.min_rtt(), Some(8_000));
    assert_eq!(window.len(), 3);
    assert_eq!(window.queuing_delay(Some(12_000)), Some(4_000));
    assert_eq!(window.queuing_delay(Some(7_000)), Some(0));
    assert_eq!(window.queuing_delay(None), None);
    // at 11 s the first sample is older than the window; at 10 s it is not
    window.on_rtt_sample(9_000, 10_000);
    assert_eq!(window.len(), 4);
    window.on_rtt_sample(9_500, 11_001);
    assert_eq!(window.len(), 3);
    assert_eq!(window.min_rtt(), Some(9_000));
    window.on_rtt_sample(20_000, 30_000);
    assert_eq!(window.len(), 1);
    assert_eq!(window.min_rtt(), Some(20_000));
}

#[test]
fn queuing_delay_and_update_interval() {
    assert_eq!(queuing_delay(Some(50_000), Some(10_000)), Some(40_000));
    assert_eq!(queuing_delay(Some(10_000), Some(10_000)), Some(0));
    assert_eq!(queuing_delay(Some(1), Some(2)), Some(0));
    assert_eq!(queuing_delay(None, Some(2)), None);
    assert_eq!(queuing_delay(Some(1), None), None);
    assert!(update_due(50, 0, 50));
    assert!(!update_due(49, 0, 50));
    assert!(update_due(7, 7, 0));
    assert!(!update_due(5, 7, 0));
}

#[test]
fn delay_signal_before_and_after_a_spike() {
    // twenty round trips of 10 ms, then one of 50 ms
    let mut window = RttWindow::new(10_000);
    let mut smoothed: Option<u64> = None;
    let mut smooth = |sample: u64| {
        let next = match smoothed {
            None => sample,
            Some(prev) => (0.875 * prev as f64 + 0.125 * sample as f64) as u64,
        };
        smoothed = Some(next);
        next
    };
    let mut now = 0;
    for _ in 0..20 {
        let s = smooth(10_000);
        window.on_rtt_sample(10_000, now);
        now += 50;
        // no queuing delay: the rate term K * (alpha - rate * delay) is K * alpha > 0
        assert_eq!(window.queuing_delay(Some(s)), Some(0));
    }
    let s = smooth(50_000);
    window.on_rtt_sample(50_000, now);
    assert_eq!(window.min_rtt(), Some(10_000));
    assert_eq!(s, 15_000);
    let delay_us = window.queuing_delay(Some(s)).unwrap();
    assert_eq!(delay_us, 5_000);
    // at 100 MB/s the term is negative: 10 000 - 100 000 000 * 0.005 < 0
    let rate = 100_000_000.0f64;
    assert!(10_000.0 - rate * (delay_us as f64 / 1_000_000.0) < 0.0);
}

#[test]
fn failures_are_recovered_or_surfaced() {
    let recovered = [ErrorKind::TransientNetwork, ErrorKind::Protocol];
    let surfaced = [ErrorKind::Integrity, ErrorKind::Resource, ErrorKind::Auth];
    for kind in recovered {
        assert_eq!(propagation(kind), Propagation::RecoverLocally);
        assert_eq!(state_after(kind, STATE_RECEIVING), (STATE_RECEIVING, false));
    }
    for kind in surfaced {
        assert_eq!(propagation(kind), Propagation::SurfaceAndStop);
        assert_eq!(state_after(kind, STATE_RECEIVING), (STATE_ERROR, true));
    }
    assert_eq!(propagation(ErrorKind::Cancellation), Propagation::StopQuietly);
    assert_eq!(state_after(ErrorKind::Cancellation, STATE_BLASTING), (STATE_CANCELLED, false));
    assert_eq!(propagation(ErrorKind::Timeout), Propagation::Warn);
    assert_eq!(state_after(ErrorKind::Timeout, STATE_BLASTING), (STATE_BLASTING, false));
}

#[test]
fn failures_by_kind() {
    assert_eq!(kind_of_decrypt_error(DecryptError::TooShort), ErrorKind::Protocol);
    assert_eq!(kind_of_decrypt_error(DecryptError::IvMismatch), ErrorKind::Integrity);
    assert_eq!(kind_of_decrypt_error(DecryptError::AuthFailed), ErrorKind::Integrity);
    assert_eq!(kind_of_write_error(WriteError::HashMismatch), ErrorKind::Integrity);
    assert_eq!(kind_of_write_error(WriteError::OffsetOverflow), ErrorKind::Resource);
    assert_eq!(kind_of_verify_error(VerifyError::UnexpectedChunk), ErrorKind::Protocol);
    assert_eq!(kind_of_verify_error(VerifyError::MissingChunks), ErrorKind::Protocol);
    assert_eq!(kind_of_verify_error(VerifyError::ChunkHashMismatch), ErrorKind::Integrity);
    assert_eq!(kind_of_verify_error(VerifyError::FileHashMismatch), ErrorKind::Integrity);
    assert_eq!(
        kind_of_verify_error(VerifyError::Decrypt(DecryptError::AuthFailed)),
        ErrorKind::Integrity
    );
    assert_eq!(kind_of_send_failure(SendRetry::Retry), ErrorKind::TransientNetwork);
    assert_eq!(kind_of_send_failure(SendRetry::Fatal), ErrorKind::Resource);
}

#[test]
fn default_settings() {
    let c = TransferConfig::default();
    assert_eq!(c.chunk_size, 4 * 1024 * 1024);
    assert_eq!(c.send_window, 32);
    assert_eq!(c.ack_interval, 8);
    assert_eq!(c.socket_recv_buf, 32 * 1024 * 1024);
    assert_eq!(c.socket_send_buf, 4 * 1024 * 1024);
    assert_eq!(c.retention_hours, 168);
    assert_eq!(c.max_frame_bytes, 16 * 1024 * 1024);
    assert!(c.is_usable());
    assert!(!TransferConfig { chunk_size: 0, ..c }.is_usable());
    assert!(!TransferConfig { send_window: 0, ..c }.is_usable());
    assert!(!TransferConfig { ack_interval: 0, ..c }.is_usable());
    assert!(!TransferConfig { chunk_size: 16 * 1024 * 1024, ..c }.is_usable());
    assert!(TransferConfig { chunk_size: 16 * 1024 * 1024 - 65, ..c }.is_usable());
    assert!(!TransferConfig { chunk_size: u64::MAX, ..c }.is_usable());
}

#[test]
fn heartbeat_drops_after_two_missed_pongs() {
    let h = Heartbeat::new();
    let (h, a) = h.on_tick(true);
    assert_eq!((h.missed, a), (0, HeartbeatAction::Ping));
    let (h, a) = h.on_tick(false);
    assert_eq!((h.missed, a), (1, HeartbeatAction::Ping));
    let (h1, a) = h.on_tick(true);
    assert_eq!((h1.missed, a), (0, HeartbeatAction::Ping));
    let (h, a) = h.on_tick(false);
    assert_eq!((h.missed, a), (2, HeartbeatAction::Drop));
    let (h, a) = Heartbeat { missed: 255 }.on_tick(false);
    assert_eq!((h.missed, a), (255, HeartbeatAction::Drop));
    assert_eq!(HEARTBEAT_INTERVAL_SECS, 15);
}

#[test]
fn retention_and_expiry() {
    assert_eq!(expires_at(1_000, 168), Some(1_000 + 168 * 3600));
    assert_eq!(expires_at(0, 0), Some(0));
    assert_eq!(expires_at(u64::MAX, 1), None);
    assert_eq!(expires_at(0, u64::MAX), None);
    assert!(expiry_due(TransferPhase::Complete, Some(99), 100));
    assert!(expiry_due(TransferPhase::Uploading, Some(99), 100));
    assert!(!expiry_due(TransferPhase::Complete, Some(100), 100));
    assert!(!expiry_due(TransferPhase::Expired, Some(99), 100));
    assert!(!expiry_due(TransferPhase::Complete, None, 100));
}

#[test]
fn only_the_uploader_deletes() {
    let alice = "alice".to_string();
    let bob = "bob".to_string();
    assert_eq!(check_delete(&alice, &alice), Ok(()));
    assert_eq!(check_delete(&alice, &bob), Err(Refusal::Forbidden));
}
