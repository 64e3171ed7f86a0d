//! The UDP frame of blast mode.
//!
//! ```text
//! [0..16]   transfer id
//! [16..20]  chunk index (u32, big-endian)
//! [20..22]  frame index within the chunk (u16, big-endian)
//! [22..24]  number of frames of the chunk (u16, big-endian)
//! [24..]    a slice of the encrypted chunk, at most 1400 bytes
//! ```

use vstd::prelude::*;
use crate::wire::{
    get_be_u16, get_be_u32, put_be_u16, put_be_u32, put_bytes, spec_be_u16, spec_be_u32,
    spec_from_be_u16, spec_from_be_u32, spec_overwrite, lemma_be_roundtrip,
};

verus! {

broadcast use {vstd::slice::group_slice_axioms, vstd::array::group_array_axioms};

/// Most payload bytes in one frame.
pub const FRAME_PAYLOAD: usize = 1400;

/// Bytes of the frame header.
pub const FRAME_HEADER: usize = 24;

/// Most bytes in one frame, header included.
pub const FRAME_MAX: usize = 1424;

/// Plaintext bytes in a full chunk: 4 MiB.
pub const CHUNK_SIZE: usize = 4_194_304;

/// What sealing adds to a chunk: a 12-byte nonce and a 16-byte tag.
pub const ENCRYPTION_OVERHEAD: usize = 28;

/// Bytes of a full chunk once sealed.
pub const ENCRYPTED_CHUNK_SIZE: usize = 4_194_332;

/// Frames of a full sealed chunk: its size over 1400, rounded up.
pub const MAX_FRAMES_PER_CHUNK: usize = 2996;

/// Sealed chunks the sender keeps for retransmission.
pub const SENDER_CACHE_SIZE: usize = 8;

/// Chunks queued between two stages of a pipeline.
pub const PIPELINE_QUEUE_CHUNKS: usize = 4;

/// Frames the receiver queues between its socket and its assembler.
pub const RING_BUFFER_FRAMES: usize = 16384;

/// Socket buffer asked of the operating system: 32 MiB.
pub const UDP_RECV_BUFFER: usize = 33_554_432;

/// Milliseconds between two scans for missing frames.
pub const NACK_SCAN_INTERVAL_MS: u64 = 50;

/// Sending rate at the start, in bytes per second (800 Mbit/s).
pub const INITIAL_RATE_BPS: u64 = 100_000_000;

/// How the size constants hang together.
pub proof fn lemma_frame_constants()
    ensures
        FRAME_MAX == FRAME_HEADER + FRAME_PAYLOAD,
        ENCRYPTED_CHUNK_SIZE == CHUNK_SIZE + ENCRYPTION_OVERHEAD,
        MAX_FRAMES_PER_CHUNK == spec_frames_for(ENCRYPTED_CHUNK_SIZE as int),
        CHUNK_SIZE == 4 * 1024 * 1024,
        UDP_RECV_BUFFER == 32 * 1024 * 1024,
{
}

/// A decoded frame header.
#[derive(Debug, Clone, Copy)]
pub struct FrameHeader {
    pub transfer_id: [u8; 16],
    pub chunk_index: u32,
    pub frame_index: u16,
    pub frame_count: u16,
}

/// The 24 header bytes of a frame.
pub open spec fn spec_header_bytes(
    transfer_id: Seq<u8>,
    chunk_index: u32,
    frame_index: u16,
    frame_count: u16,
) -> Seq<u8> {
    transfer_id + spec_be_u32(chunk_index) + spec_be_u16(frame_index) + spec_be_u16(frame_count)
}

/// The bytes of a whole frame: header, then payload, nothing else.
pub open spec fn spec_frame_bytes(
    transfer_id: Seq<u8>,
    chunk_index: u32,
    frame_index: u16,
    frame_count: u16,
    payload: Seq<u8>,
) -> Seq<u8> {
    spec_header_bytes(transfer_id, chunk_index, frame_index, frame_count) + payload
}

/// `h` is what the first 24 bytes of `data` say.
pub open spec fn spec_header_of(h: FrameHeader, data: Seq<u8>) -> bool {
    &&& data.len() >= FRAME_HEADER
    &&& h.transfer_id@ == data.subrange(0, 16)
    &&& h.chunk_index == spec_from_be_u32(data.subrange(16, 20))
    &&& h.frame_index == spec_from_be_u16(data.subrange(20, 22))
    &&& h.frame_count == spec_from_be_u16(data.subrange(22, 24))
}

/// What follows the header in `data`.
pub open spec fn spec_frame_payload(data: Seq<u8>) -> Seq<u8>
    recommends
        data.len() >= FRAME_HEADER,
{
    data.subrange(FRAME_HEADER as int, data.len() as int)
}

/// Frames needed for `encrypted_size` bytes: the size over 1400, rounded up.
pub open spec fn spec_frames_for(encrypted_size: int) -> int {
    (encrypted_size + FRAME_PAYLOAD - 1) / (FRAME_PAYLOAD as int)
}

/// Where frame `k` of a chunk of `len` bytes starts.
pub open spec fn spec_frame_start(k: int) -> int {
    k * FRAME_PAYLOAD
}

/// Where frame `k` of a chunk of `len` bytes ends: 1400 bytes on, or at the chunk's end.
pub open spec fn spec_frame_end(k: int, len: int) -> int {
    if (k + 1) * FRAME_PAYLOAD <= len {
        (k + 1) * FRAME_PAYLOAD
    } else {
        len
    }
}

/// The payload of frame `k` of the sealed chunk `chunk`.
pub open spec fn spec_frame_slice(chunk: Seq<u8>, k: int) -> Seq<u8>
    recommends
        0 <= k,
        spec_frame_start(k) <= chunk.len(),
{
    chunk.subrange(spec_frame_start(k), spec_frame_end(k, chunk.len() as int))
}

/// Writes one frame at the start of `buf` and returns its length.
///
/// The bytes of `buf` behind the frame stay as they were.
pub fn encode_frame(
    buf: &mut [u8],
    transfer_id: &[u8; 16],
    chunk_index: u32,
    frame_index: u16,
    frame_count: u16,
    payload: &[u8],
) -> (total: usize)
    requires
        old(buf)@.len() >= FRAME_HEADER + payload@.len(),
        payload@.len() <= FRAME_PAYLOAD,
    ensures
        total == FRAME_HEADER + payload@.len(),
        final(buf)@ == spec_overwrite(
            old(buf)@,
            0,
            spec_frame_bytes(transfer_id@, chunk_index, frame_index, frame_count, payload@),
        ),
{
    let total: usize = FRAME_HEADER + payload.len();
    put_bytes(buf, 0, transfer_id.as_slice());
    put_be_u32(buf, 16, chunk_index);
    put_be_u16(buf, 20, frame_index);
    put_be_u16(buf, 22, frame_count);
    put_bytes(buf, FRAME_HEADER, payload);
    assert(buf@ =~= spec_overwrite(
        old(buf)@,
        0,
        spec_frame_bytes(transfer_id@, chunk_index, frame_index, frame_count, payload@),
    ));
    total
}

/// Reads the header of a frame; `None` exactly when `data` is shorter than a header.
pub fn decode_frame_header(data: &[u8]) -> (r: Option<FrameHeader>)
    ensures
        r is None <==> data@.len() < FRAME_HEADER,
        r matches Some(h) ==> spec_header_of(h, data@),
{
    if data.len() < FRAME_HEADER {
        return None;
    }
    let mut transfer_id: [u8; 16] = [0u8; 16];
    let mut i: usize = 0;
    while i < 16
        invariant
            i <= 16,
            data@.len() >= FRAME_HEADER,
            forall|j: int| 0 <= j < i ==> transfer_id@[j] == data@[j],
        decreases 16 - i,
    {
        transfer_id[i] = data[i];
        i = i + 1;
    }
    assert(transfer_id@ =~= data@.subrange(0, 16));
    let chunk_index: u32 = get_be_u32(data, 16);
    let frame_index: u16 = get_be_u16(data, 20);
    let frame_count: u16 = get_be_u16(data, 22);
    Some(FrameHeader { transfer_id, chunk_index, frame_index, frame_count })
}

/// The payload of a frame: everything behind the header.
pub fn frame_payload(data: &[u8]) -> (r: &[u8])
    requires
        data@.len() >= FRAME_HEADER,
    ensures
        r@ == spec_frame_payload(data@),
{
    vstd::slice::slice_subrange(data, FRAME_HEADER, data.len())
}

/// Frames needed for a sealed chunk of `encrypted_size` bytes, as the 16 bits the header has
/// for it.
pub fn frames_for_chunk(encrypted_size: usize) -> (r: u16)
    requires
        encrypted_size + (FRAME_PAYLOAD - 1) <= usize::MAX,
    ensures
        r == spec_frames_for(encrypted_size as int) % 0x1_0000,
        encrypted_size <= ENCRYPTED_CHUNK_SIZE ==> r == spec_frames_for(encrypted_size as int),
{
    let frames: usize = (encrypted_size + (FRAME_PAYLOAD - 1)) / FRAME_PAYLOAD;
    (frames % 0x1_0000) as u16
}

/// A frame that was encoded decodes to the header and payload it was made from.
pub proof fn lemma_frame_roundtrip(h: FrameHeader, payload: Seq<u8>)
    ensures
        spec_header_of(
            h,
            spec_frame_bytes(h.transfer_id@, h.chunk_index, h.frame_index, h.frame_count, payload),
        ),
        spec_frame_payload(
            spec_frame_bytes(h.transfer_id@, h.chunk_index, h.frame_index, h.frame_count, payload),
        ) == payload,
{
    let f = spec_frame_bytes(h.transfer_id@, h.chunk_index, h.frame_index, h.frame_count, payload);
    lemma_be_roundtrip(h.frame_index, h.chunk_index, 0);
    lemma_be_roundtrip(h.frame_count, 0, 0);
    assert(f.subrange(0, 16) =~= h.transfer_id@);
    assert(f.subrange(16, 20) =~= spec_be_u32(h.chunk_index));
    assert(f.subrange(20, 22) =~= spec_be_u16(h.frame_index));
    assert(f.subrange(22, 24) =~= spec_be_u16(h.frame_count));
    assert(spec_frame_payload(f) =~= payload);
}

/// The bytes of a frame leave no choice of header: two headers read from the same bytes
/// are the same header.
pub proof fn lemma_header_unique(h1: FrameHeader, h2: FrameHeader, data: Seq<u8>)
    requires
        spec_header_of(h1, data),
        spec_header_of(h2, data),
    ensures
        h1 == h2,
{
    assert(h1.transfer_id =~= h2.transfer_id);
}

/// The frames of a chunk tile it: frame `k` starts where frame `k - 1` ends, the first
/// starts at 0 and the last ends at the chunk's end.
pub proof fn lemma_frames_tile(len: int, k: int)
    requires
        0 <= len,
        0 <= k < spec_frames_for(len),
    ensures
        spec_frame_start(k) < len,
        spec_frame_start(k) < spec_frame_end(k, len) <= len,
        spec_frame_end(k, len) - spec_frame_start(k) <= FRAME_PAYLOAD,
        k + 1 < spec_frames_for(len) ==> spec_frame_end(k, len) == spec_frame_start(k + 1),
        k + 1 == spec_frames_for(len) ==> spec_frame_end(k, len) == len,
{
}

} // verus!
