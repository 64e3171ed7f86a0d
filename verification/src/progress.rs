//! The progress records a host polls while a transfer runs.
//!
//! Each record is a plain value: a snapshot that the embedding program publishes to other
//! threads as it sees fit.

use vstd::prelude::*;
use crate::protocol::INITIAL_RATE_BPS;

verus! {

/// Nothing has started.
pub const STATE_IDLE: u8 = 0;

/// The sender is sealing and hashing chunks.
pub const STATE_ENCRYPTING: u8 = 1;

/// The uploader is hashing the file before it offers it.
pub const STATE_HASHING: u8 = 1;

/// The sender is sending frames.
pub const STATE_BLASTING: u8 = 2;

/// The receiver is taking frames.
pub const STATE_RECEIVING: u8 = 2;

/// The uploader is sending chunks.
pub const STATE_UPLOADING: u8 = 2;

/// The transfer ended well.
pub const STATE_COMPLETE: u8 = 3;

/// The transfer failed.
pub const STATE_ERROR: u8 = 4;

/// The host called the transfer off.
pub const STATE_CANCELLED: u8 = 5;

/// Whether `state` is one a transfer never leaves.
pub open spec fn spec_is_terminal(state: u8) -> bool {
    state == STATE_COMPLETE || state == STATE_ERROR || state == STATE_CANCELLED
}

/// Progress of a blast sender.
pub struct SenderProgress {
    pub bytes_done: u64,
    pub bytes_total: u64,
    pub state: u8,
    pub cancelled: u8,
    pub chunks_complete: u64,
    pub chunks_total: u64,
    pub retransmits: u64,
    pub rate_bps: u64,
    pub last_error: Option<String>,
    /// Set once every chunk is sealed: `{"file_sha256":"...","chunk_hashes":[...]}`.
    pub hashes_json: Option<String>,
}

impl SenderProgress {
    /// The record of a sender that has not started.
    pub fn new() -> (p: Self)
        ensures
            p.bytes_done == 0,
            p.bytes_total == 0,
            p.state == STATE_IDLE,
            p.cancelled == 0,
            p.chunks_complete == 0,
            p.chunks_total == 0,
            p.retransmits == 0,
            p.rate_bps == INITIAL_RATE_BPS,
            p.last_error is None,
            p.hashes_json is None,
    {
        SenderProgress {
            bytes_done: 0,
            bytes_total: 0,
            state: STATE_IDLE,
            cancelled: 0,
            chunks_complete: 0,
            chunks_total: 0,
            retransmits: 0,
            rate_bps: INITIAL_RATE_BPS,
            last_error: None,
            hashes_json: None,
        }
    }

    /// Whether the host has called the transfer off.
    pub fn is_cancelled(&self) -> (r: bool)
        ensures
            r == (self.cancelled != 0),
    {
        self.cancelled != 0
    }
}

/// Progress of a blast receiver.
pub struct ReceiverProgress {
    pub bytes_done: u64,
    pub bytes_total: u64,
    pub state: u8,
    pub cancelled: u8,
    pub chunks_complete: u64,
    pub chunks_total: u64,
    pub retransmits: u64,
    pub rate_bps: u64,
    pub last_error: Option<String>,
}

impl ReceiverProgress {
    /// The record of a receiver that has not started.
    pub fn new() -> (p: Self)
        ensures
            p.bytes_done == 0,
            p.bytes_total == 0,
            p.state == STATE_IDLE,
            p.cancelled == 0,
            p.chunks_complete == 0,
            p.chunks_total == 0,
            p.retransmits == 0,
            p.rate_bps == 0,
            p.last_error is None,
    {
        ReceiverProgress {
            bytes_done: 0,
            bytes_total: 0,
            state: STATE_IDLE,
            cancelled: 0,
            chunks_complete: 0,
            chunks_total: 0,
            retransmits: 0,
            rate_bps: 0,
            last_error: None,
        }
    }

    /// Whether the host has called the transfer off.
    pub fn is_cancelled(&self) -> (r: bool)
        ensures
            r == (self.cancelled != 0),
    {
        self.cancelled != 0
    }
}

/// Progress of a store-and-forward upload.
pub struct UploadProgress {
    pub bytes_done: u64,
    pub bytes_total: u64,
    pub state: u8,
    pub cancelled: u8,
    /// Set once the hashing pass is over: `{"file_sha256":"...","chunk_hashes":[...]}`.
    pub hashes_json: Option<String>,
    pub last_error: Option<String>,
}

impl UploadProgress {
    /// The record of an upload that has not started.
    pub fn new() -> (p: Self)
        ensures
            p.bytes_done == 0,
            p.bytes_total == 0,
            p.state == STATE_IDLE,
            p.cancelled == 0,
            p.hashes_json is None,
            p.last_error is None,
    {
        UploadProgress {
            bytes_done: 0,
            bytes_total: 0,
            state: STATE_IDLE,
            cancelled: 0,
            hashes_json: None,
            last_error: None,
        }
    }

    /// Whether the host has called the transfer off.
    pub fn is_cancelled(&self) -> (r: bool)
        ensures
            r == (self.cancelled != 0),
    {
        self.cancelled != 0
    }
}

/// Progress of a store-and-forward download.
pub struct DownloadProgress {
    pub bytes_done: u64,
    pub bytes_total: u64,
    pub state: u8,
    pub cancelled: u8,
}

impl DownloadProgress {
    /// The record of a download that has not started.
    pub fn new() -> (p: Self)
        ensures
            p.bytes_done == 0,
            p.bytes_total == 0,
            p.state == STATE_IDLE,
            p.cancelled == 0,
    {
        DownloadProgress { bytes_done: 0, bytes_total: 0, state: STATE_IDLE, cancelled: 0 }
    }

    /// Whether the host has called the transfer off.
    pub fn is_cancelled(&self) -> (r: bool)
        ensures
            r == (self.cancelled != 0),
    {
        self.cancelled != 0
    }
}

/// What a host reads when it polls a transfer.
#[derive(Debug, Clone, Copy, PartialEq, Eq)]
pub struct TransferProgressResult {
    pub bytes_done: u64,
    pub bytes_total: u64,
    pub state: u8,
}

/// What an error does to a state: a transfer that is complete or cancelled stays so, any
/// other is failed.
pub open spec fn spec_state_after_error(state: u8) -> u8 {
    if state == STATE_COMPLETE || state == STATE_CANCELLED {
        state
    } else {
        STATE_ERROR
    }
}

impl UploadProgress {
    /// What a host reads of this upload.
    pub fn snapshot(&self) -> (r: TransferProgressResult)
        ensures
            r.bytes_done == self.bytes_done,
            r.bytes_total == self.bytes_total,
            r.state == self.state,
    {
        TransferProgressResult {
            bytes_done: self.bytes_done,
            bytes_total: self.bytes_total,
            state: self.state,
        }
    }

    /// Records that the upload failed with `message`, unless it had ended well or been
    /// called off before.
    pub fn fail(&mut self, message: String)
        ensures
            final(self).last_error == Some(message),
            final(self).state == spec_state_after_error(old(self).state),
            final(self).bytes_done == old(self).bytes_done,
            final(self).bytes_total == old(self).bytes_total,
            final(self).cancelled == old(self).cancelled,
            final(self).hashes_json == old(self).hashes_json,
    {
        self.last_error = Some(message);
        if self.state != STATE_COMPLETE && self.state != STATE_CANCELLED {
            self.state = STATE_ERROR;
        }
    }
}

impl DownloadProgress {
    /// What a host reads of this download.
    pub fn snapshot(&self) -> (r: TransferProgressResult)
        ensures
            r.bytes_done == self.bytes_done,
            r.bytes_total == self.bytes_total,
            r.state == self.state,
    {
        TransferProgressResult {
            bytes_done: self.bytes_done,
            bytes_total: self.bytes_total,
            state: self.state,
        }
    }
}

/// Counters of a point-to-point transfer.
pub struct TransferStats {
    /// Bytes of the file.
    pub total_bytes: u64,
    /// Packets of the file.
    pub total_chunks: u64,
    /// Bytes moved so far.
    pub bytes_transferred: u64,
    /// Packets moved so far.
    pub chunks_transferred: u64,
    /// Packets sent again.
    pub retransmits: u64,
    /// Sending rate, in bytes per second.
    pub current_rate: u64,
}

impl TransferStats {
    /// Counters that are all zero.
    pub fn new() -> (s: Self)
        ensures
            s.total_bytes == 0,
            s.total_chunks == 0,
            s.bytes_transferred == 0,
            s.chunks_transferred == 0,
            s.retransmits == 0,
            s.current_rate == 0,
    {
        TransferStats {
            total_bytes: 0,
            total_chunks: 0,
            bytes_transferred: 0,
            chunks_transferred: 0,
            retransmits: 0,
            current_rate: 0,
        }
    }

    /// Declares the size of the file.
    pub fn set_total(&mut self, bytes: u64, chunks: u64)
        ensures
            final(self).total_bytes == bytes,
            final(self).total_chunks == chunks,
            final(self).bytes_transferred == old(self).bytes_transferred,
            final(self).chunks_transferred == old(self).chunks_transferred,
            final(self).retransmits == old(self).retransmits,
            final(self).current_rate == old(self).current_rate,
    {
        self.total_bytes = bytes;
        self.total_chunks = chunks;
    }

    /// Replaces the moving counters.
    pub fn update(&mut self, bytes: u64, chunks: u64, retransmits: u64, rate: u64)
        ensures
            final(self).bytes_transferred == bytes,
            final(self).chunks_transferred == chunks,
            final(self).retransmits == retransmits,
            final(self).current_rate == rate,
            final(self).total_bytes == old(self).total_bytes,
            final(self).total_chunks == old(self).total_chunks,
    {
        self.bytes_transferred = bytes;
        self.chunks_transferred = chunks;
        self.retransmits = retransmits;
        self.current_rate = rate;
    }

    /// Bytes moved, capped at the file's size, and the file's size: the two terms of the
    /// fraction done.
    pub fn progress_terms(&self) -> (r: (u64, u64))
        ensures
            r.1 == self.total_bytes,
            r.0 == if self.bytes_transferred < self.total_bytes {
                self.bytes_transferred
            } else {
                self.total_bytes
            },
    {
        if self.bytes_transferred < self.total_bytes {
            (self.bytes_transferred, self.total_bytes)
        } else {
            (self.total_bytes, self.total_bytes)
        }
    }
}

} // verus!
