//! The settings a host may change, with their defaults.

use vstd::prelude::*;

verus! {

/// What the transfer core reads from its environment.
#[derive(Debug, Clone, Copy, PartialEq, Eq)]
pub struct TransferConfig {
    /// Plaintext bytes in a chunk.
    pub chunk_size: u64,
    /// Chunks a sender on a reliable stream may have unacknowledged.
    pub send_window: u32,
    /// Chunks after which a receiver on a reliable stream acknowledges.
    pub ack_interval: u32,
    /// Socket receive buffer asked of the operating system.
    pub socket_recv_buf: usize,
    /// Socket send buffer asked of the operating system.
    pub socket_send_buf: usize,
    /// Hours the storage server keeps a transfer.
    pub retention_hours: u64,
    /// Most bytes of one frame on a reliable stream.
    pub max_frame_bytes: usize,
}

impl Default for TransferConfig {
    /// 4 MiB chunks, a window of 32, an acknowledgement every 8 chunks, 32 MiB to receive
    /// into and 4 MiB to send from, a week of retention, frames of at most 16 MiB.
    fn default() -> (c: Self)
        ensures
            c.chunk_size == 4 * 1024 * 1024,
            c.send_window == 32,
            c.ack_interval == 8,
            c.socket_recv_buf == 32 * 1024 * 1024,
            c.socket_send_buf == 4 * 1024 * 1024,
            c.retention_hours == 168,
            c.max_frame_bytes == 16 * 1024 * 1024,
    {
        TransferConfig {
            chunk_size: 4_194_304,
            send_window: 32,
            ack_interval: 8,
            socket_recv_buf: 33_554_432,
            socket_send_buf: 4_194_304,
            retention_hours: 168,
            max_frame_bytes: 16_777_216,
        }
    }
}

impl TransferConfig {
    /// Whether the settings can be used: chunks, windows, intervals and frames are not
    /// empty, and a sealed chunk fits one frame of a reliable stream.
    pub open spec fn spec_usable(&self) -> bool {
        &&& self.chunk_size > 0
        &&& self.send_window > 0
        &&& self.ack_interval > 0
        &&& self.chunk_size + 28 + 37 <= self.max_frame_bytes
    }

    /// Whether the settings can be used.
    pub fn is_usable(&self) -> (ok: bool)
        ensures
            ok == self.spec_usable(),
    {
        self.chunk_size > 0 && self.send_window > 0 && self.ack_interval > 0
            && self.chunk_size <= u64::MAX - 65 && self.chunk_size + 65
            <= self.max_frame_bytes as u64
    }
}

} // verus!
