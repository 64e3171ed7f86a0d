//! The sending side of blast mode: sealing and hashing chunks, cutting them into frames,
//! pacing, and answering requests for retransmission.

use vstd::prelude::*;
use crate::crypto::{
    encrypt_chunk, spec_chunk_nonce, spec_sealed_chunk, AEAD_MAX_INPUT, IV_SIZE, TAG_SIZE,
};
use crate::hashing::{hex_encode, sha256, spec_hex, spec_sha256, FileHasher};
use crate::protocol::{
    encode_frame, spec_frame_bytes, spec_frame_slice, spec_frame_start, spec_frames_for,
    FRAME_HEADER, FRAME_MAX, FRAME_PAYLOAD,
};
use crate::wire::spec_overwrite;

verus! {

broadcast use {vstd::slice::group_slice_axioms, vstd::array::group_array_axioms};

/// A sealed chunk on its way to the wire.
pub struct EncryptedChunk {
    pub chunk_index: u32,
    /// Nonce, ciphertext and tag.
    pub data: Vec<u8>,
    /// SHA-256 of `data`, as hexadecimal text.
    pub sha256: String,
    /// Frames the chunk is cut into, as the frame header carries it.
    pub frame_count: u16,
}

/// What a finished sealing pass declares of the file.
pub struct SendResult {
    /// SHA-256 of all sealed chunks in order, as hexadecimal text.
    pub file_sha256: String,
    /// SHA-256 of each sealed chunk, as hexadecimal text.
    pub chunk_hashes: Vec<String>,
    /// Bytes of all sealed chunks together.
    pub encrypted_size: u64,
    pub chunk_count: u32,
}

/// Why a chunk was not sealed.
#[derive(Debug, Clone, Copy, PartialEq, Eq)]
pub enum SealError {
    /// The pass has sealed as many chunks as a 32-bit count can say.
    TooManyChunks,
    /// The chunk is longer than AES-GCM takes.
    ChunkTooLarge,
    /// The sealed file would be longer than a 64-bit size can say.
    SizeOverflow,
}

/// The sealed chunks of a file, one after another.
pub open spec fn spec_sealed_stream(key: Seq<u8>, chunks: Seq<Seq<u8>>) -> Seq<u8>
    decreases chunks.len(),
{
    if chunks.len() == 0 {
        Seq::<u8>::empty()
    } else {
        spec_sealed_stream(key, chunks.drop_last()) + spec_sealed_chunk(
            key,
            spec_chunk_nonce((chunks.len() - 1) as u32),
            chunks.last(),
        )
    }
}

/// The hash declared for each chunk of a file: SHA-256 of the sealed chunk, as hexadecimal
/// text.
pub open spec fn spec_chunk_hashes(key: Seq<u8>, chunks: Seq<Seq<u8>>) -> Seq<Seq<char>> {
    Seq::new(
        chunks.len(),
        |i: int| spec_hex(spec_sha256(spec_sealed_chunk(key, spec_chunk_nonce(i as u32), chunks[i]))),
    )
}

/// The hash declared for the whole file.
pub open spec fn spec_file_hash(key: Seq<u8>, chunks: Seq<Seq<u8>>) -> Seq<char> {
    spec_hex(spec_sha256(spec_sealed_stream(key, chunks)))
}

/// Frames of a chunk as the 16 bits of the frame header carry the number.
pub open spec fn spec_frame_count_field(encrypted_size: int) -> u16 {
    (spec_frames_for(encrypted_size) % 0x1_0000) as u16
}

/// Seals the chunks of a file in order and keeps the hashes that the offer declares.
pub struct Encryptor {
    key: [u8; 32],
    sealed: u64,
    file_hasher: FileHasher,
    chunk_hashes: Vec<String>,
    encrypted_size: u64,
    plaintexts: Ghost<Seq<Seq<u8>>>,
}

impl Encryptor {
    /// The session key.
    pub closed spec fn spec_key(&self) -> Seq<u8> {
        self.key@
    }

    /// The plaintext chunks sealed so far, in order.
    pub closed spec fn spec_chunks(&self) -> Seq<Seq<u8>> {
        self.plaintexts@
    }

    /// Bytes of all chunks sealed so far.
    pub closed spec fn spec_encrypted_size(&self) -> u64 {
        self.encrypted_size
    }

    /// The pass is consistent: hashes and sizes are those of the chunks sealed so far.
    pub closed spec fn wf(&self) -> bool {
        &&& self.sealed == self.plaintexts@.len()
        &&& self.sealed <= u32::MAX
        &&& self.file_hasher@ == spec_sealed_stream(self.key@, self.plaintexts@)
        &&& self.chunk_hashes@.len() == self.plaintexts@.len()
        &&& forall|i: int|
            0 <= i < self.chunk_hashes@.len() ==> (#[trigger] self.chunk_hashes@[i])@
                == spec_chunk_hashes(self.key@, self.plaintexts@)[i]
        &&& self.encrypted_size == spec_sealed_stream(self.key@, self.plaintexts@).len()
    }

    /// A pass that has sealed nothing.
    pub fn new(key: [u8; 32]) -> (e: Self)
        ensures
            e.wf(),
            e.spec_key() == key@,
            e.spec_chunks() == Seq::<Seq<u8>>::empty(),
            e.spec_encrypted_size() == 0,
    {
        Encryptor {
            key,
            sealed: 0,
            file_hasher: FileHasher::new(),
            chunk_hashes: Vec::new(),
            encrypted_size: 0,
            plaintexts: Ghost(Seq::<Seq<u8>>::empty()),
        }
    }

    /// Seals the next chunk of the file.
    ///
    /// The chunk gets the index after the last one sealed, and with it a nonce no other
    /// chunk of the pass has. On an error nothing changes.
    pub fn seal_next(&mut self, plaintext: &[u8]) -> (r: Result<EncryptedChunk, SealError>)
        requires
            old(self).wf(),
        ensures
            final(self).wf(),
            final(self).spec_key() == old(self).spec_key(),
            match r {
                Ok(chunk) => {
                    &&& chunk.chunk_index == old(self).spec_chunks().len()
                    &&& chunk.data@ == spec_sealed_chunk(
                        old(self).spec_key(),
                        spec_chunk_nonce(chunk.chunk_index),
                        plaintext@,
                    )
                    &&& chunk.data@.len() == plaintext@.len() + IV_SIZE + TAG_SIZE
                    &&& chunk.sha256@ == spec_hex(spec_sha256(chunk.data@))
                    &&& chunk.frame_count == spec_frame_count_field(chunk.data@.len() as int)
                    &&& final(self).spec_chunks() == old(self).spec_chunks().push(plaintext@)
                    &&& final(self).spec_encrypted_size() == old(self).spec_encrypted_size()
                        + chunk.data@.len()
                },
                Err(e) => {
                    &&& final(self).spec_chunks() == old(self).spec_chunks()
                    &&& final(self).spec_encrypted_size() == old(self).spec_encrypted_size()
                    &&& e == spec_seal_refusal(
                        old(self).spec_chunks().len() as int,
                        old(self).spec_encrypted_size() as int,
                        plaintext@.len() as int,
                    )->0
                },
            },
            r is Err <==> spec_seal_refusal(
                old(self).spec_chunks().len() as int,
                old(self).spec_encrypted_size() as int,
                plaintext@.len() as int,
            ) is Some,
    {
        if self.sealed >= u32::MAX as u64 {
            return Err(SealError::TooManyChunks);
        }
        if plaintext.len() as u64 > AEAD_MAX_INPUT {
            return Err(SealError::ChunkTooLarge);
        }
        let sealed_len: u64 = plaintext.len() as u64 + (IV_SIZE + TAG_SIZE) as u64;
        if sealed_len > u64::MAX - self.encrypted_size {
            return Err(SealError::SizeOverflow);
        }
        let chunk_index: u32 = self.sealed as u32;
        let data = match encrypt_chunk(&self.key, plaintext, chunk_index) {
            Ok(data) => data,
            Err(_) => {
                return Err(SealError::ChunkTooLarge);
            },
        };
        let digest = sha256(data.as_slice());
        let hash = hex_encode(digest.as_slice());
        self.file_hasher.update(data.as_slice());
        self.chunk_hashes.push(hash.clone());
        self.encrypted_size = self.encrypted_size + sealed_len;
        self.sealed = self.sealed + 1;
        let frames: u64 = (sealed_len + (FRAME_PAYLOAD as u64 - 1)) / (FRAME_PAYLOAD as u64);
        let frame_count: u16 = (frames % 0x1_0000) as u16;
        proof {
            let chunks = old(self).plaintexts@.push(plaintext@);
            self.plaintexts@ = chunks;
            assert(chunks.drop_last() =~= old(self).plaintexts@);
            assert forall|i: int| 0 <= i < self.chunk_hashes@.len() implies (
            #[trigger] self.chunk_hashes@[i])@ == spec_chunk_hashes(self.key@, chunks)[i] by {
                if i < old(self).chunk_hashes@.len() {
                    assert(self.chunk_hashes@[i] == old(self).chunk_hashes@[i]);
                    assert(chunks[i] == old(self).plaintexts@[i]);
                }
            }
        }
        Ok(EncryptedChunk { chunk_index, data, sha256: hash, frame_count })
    }

    /// Ends the pass: the hashes of the file and of each chunk, and the sealed size.
    pub fn finish(self) -> (r: SendResult)
        requires
            self.wf(),
        ensures
            r.file_sha256@ == spec_file_hash(self.spec_key(), self.spec_chunks()),
            r.chunk_hashes@.len() == self.spec_chunks().len(),
            forall|i: int|
                0 <= i < r.chunk_hashes@.len() ==> (#[trigger] r.chunk_hashes@[i])@
                    == spec_chunk_hashes(self.spec_key(), self.spec_chunks())[i],
            r.encrypted_size == spec_sealed_stream(self.spec_key(), self.spec_chunks()).len(),
            r.chunk_count == self.spec_chunks().len(),
    {
        SendResult {
            file_sha256: self.file_hasher.finish_hex(),
            chunk_hashes: self.chunk_hashes,
            encrypted_size: self.encrypted_size,
            chunk_count: self.sealed as u32,
        }
    }
}

/// Why the next chunk cannot be sealed, if it cannot: the pass has sealed 2^32 - 1 chunks
/// already, the chunk is too long for the cipher, or the total no longer fits 64 bits.
pub open spec fn spec_seal_refusal(sealed: int, encrypted_size: int, len: int) -> Option<
    SealError,
> {
    if sealed >= u32::MAX {
        Some(SealError::TooManyChunks)
    } else if len > AEAD_MAX_INPUT {
        Some(SealError::ChunkTooLarge)
    } else if encrypted_size + len + IV_SIZE + TAG_SIZE > u64::MAX {
        Some(SealError::SizeOverflow)
    } else {
        None
    }
}

/// No two chunks of a pass are sealed under the same nonce.
pub proof fn lemma_pass_nonces_differ(i: int, j: int)
    requires
        0 <= i < j < u32::MAX,
    ensures
        spec_chunk_nonce(i as u32) != spec_chunk_nonce(j as u32),
{
    crate::crypto::lemma_chunk_nonce_injective(i as u32, j as u32);
}

/// Two passes over the same plaintext under the same key declare the same hashes, chunk
/// by chunk and for the file: both are functions of key and plaintext alone.
pub proof fn lemma_passes_agree(key: Seq<u8>, first: Seq<Seq<u8>>, second: Seq<Seq<u8>>)
    requires
        first == second,
    ensures
        spec_sealed_stream(key, first) == spec_sealed_stream(key, second),
        spec_chunk_hashes(key, first) == spec_chunk_hashes(key, second),
        spec_file_hash(key, first) == spec_file_hash(key, second),
{
}

/// Writes frame `frame_index` of the sealed chunk `data` at the start of `send_buf`.
///
/// Returns the frame's length, or `None`, with the buffer untouched, where the chunk has
/// no byte for that frame.
pub fn encode_chunk_frame(
    send_buf: &mut [u8],
    transfer_id: &[u8; 16],
    chunk_index: u32,
    frame_index: u16,
    frame_count: u16,
    data: &[u8],
) -> (r: Option<usize>)
    requires
        old(send_buf)@.len() >= FRAME_MAX,
    ensures
        r is None <==> spec_frame_start(frame_index as int) >= data@.len(),
        r is None ==> final(send_buf)@ == old(send_buf)@,
        r matches Some(n) ==> {
            &&& n == FRAME_HEADER + spec_frame_slice(data@, frame_index as int).len()
            &&& n <= FRAME_MAX
            &&& final(send_buf)@ == spec_overwrite(
                old(send_buf)@,
                0,
                spec_frame_bytes(
                    transfer_id@,
                    chunk_index,
                    frame_index,
                    frame_count,
                    spec_frame_slice(data@, frame_index as int),
                ),
            )
        },
{
    let start: usize = (frame_index as usize) * FRAME_PAYLOAD;
    if start >= data.len() {
        return None;
    }
    let end: usize = if data.len() - start > FRAME_PAYLOAD {
        start + FRAME_PAYLOAD
    } else {
        data.len()
    };
    let payload = vstd::slice::slice_subrange(data, start, end);
    Some(encode_frame(send_buf, transfer_id, chunk_index, frame_index, frame_count, payload))
}

/// Whether frame `frame_index` of a chunk of `data_len` bytes, cut into `frame_count`
/// frames, can be sent again: the chunk has that frame and has bytes for it.
pub open spec fn spec_resendable(frame_index: u16, frame_count: u16, data_len: int) -> bool {
    frame_index < frame_count && spec_frame_start(frame_index as int) < data_len
}

/// The frames to send again for one request: those named in it that the chunk has, in the
/// order named.
pub fn retransmit_plan(frame_count: u16, data_len: usize, missing: &[u16]) -> (plan: Vec<u16>)
    ensures
        plan@ == missing@.filter(|k: u16| spec_resendable(k, frame_count, data_len as int)),
{
    let ghost keep = |k: u16| spec_resendable(k, frame_count, data_len as int);
    let mut plan: Vec<u16> = Vec::new();
    let n: usize = missing.len();
    let mut i: usize = 0;
    proof {
        reveal(Seq::filter);
        assert(missing@.subrange(0, 0) =~= Seq::<u16>::empty());
    }
    while i < n
        invariant
            n == missing@.len(),
            i <= n,
            keep == |k: u16| spec_resendable(k, frame_count, data_len as int),
            plan@ == missing@.subrange(0, i as int).filter(keep),
        decreases n - i,
    {
        let k: u16 = missing[i];
        let resend: bool = k < frame_count && (k as usize) * FRAME_PAYLOAD < data_len;
        proof {
            reveal(Seq::filter);
            let next = missing@.subrange(0, i + 1);
            assert(next.drop_last() =~= missing@.subrange(0, i as int));
            assert(next.last() == k);
            assert(resend == keep(k));
        }
        if resend {
            plan.push(k);
        }
        i = i + 1;
    }
    assert(missing@.subrange(0, n as int) =~= missing@);
    plan
}

/// Nanoseconds between two frames at `rate_bps` bytes per second: the time a full frame
/// takes at that rate, or none where no rate is set.
pub open spec fn spec_nanos_per_frame(rate_bps: u64) -> int {
    if rate_bps > 0 {
        (FRAME_MAX * 1_000_000_000) / (rate_bps as int)
    } else {
        0
    }
}

/// Nanoseconds to wait between two frames.
pub fn nanos_per_frame(rate_bps: u64) -> (nanos: u64)
    ensures
        nanos == spec_nanos_per_frame(rate_bps),
{
    if rate_bps > 0 {
        (FRAME_MAX as u64 * 1_000_000_000) / rate_bps
    } else {
        0
    }
}

/// Attempts after which a full send buffer is a failure.
pub const SEND_RETRY_LIMIT: u32 = 50;

/// Milliseconds between two attempts to send into a full buffer.
pub const SEND_RETRY_DELAY_MS: u64 = 1;

/// The operating system's number for "no buffer space" on Linux.
pub const OS_ENOBUFS: i32 = 105;

/// The operating system's number for "no buffer space" on Windows.
pub const OS_WSAENOBUFS: i32 = 10055;

/// What to do after a send failed.
#[derive(Debug, Clone, Copy, PartialEq, Eq, Structural)]
pub enum SendRetry {
    /// Wait a millisecond and send the same frame again.
    Retry,
    /// Give up: the transfer fails.
    Fatal,
}

/// Whether a failed send is worth another attempt: the failure says the buffer is full,
/// and fewer than fifty attempts were made.
pub fn send_retry_decision(would_block: bool, raw_os_error: Option<i32>, retries: u32) -> (d:
    SendRetry)
    ensures
        d == if retries < SEND_RETRY_LIMIT && (would_block || raw_os_error == Some(OS_WSAENOBUFS)
            || raw_os_error == Some(OS_ENOBUFS)) {
            SendRetry::Retry
        } else {
            SendRetry::Fatal
        },
{
    let buffer_full: bool = would_block || match raw_os_error {
        Some(code) => code == OS_WSAENOBUFS || code == OS_ENOBUFS,
        None => false,
    };
    if retries < SEND_RETRY_LIMIT && buffer_full {
        SendRetry::Retry
    } else {
        SendRetry::Fatal
    }
}

/// Whether the frames named missing are more than a tenth of the chunk's frames, which is
/// when the sender slows down.
pub fn loss_is_high(missing_count: usize, frame_count: u16) -> (high: bool)
    ensures
        high == (missing_count * 10 > frame_count),
{
    if missing_count > 6553 {
        true
    } else {
        missing_count * 10 > frame_count as usize
    }
}

/// Seconds the sender goes on answering requests after its last chunk.
pub const DRAIN_SECONDS: u64 = 60;

/// Milliseconds the sender waits for a request before it looks at the clock again.
pub const DRAIN_POLL_MS: u64 = 100;

/// Whether the sender is done answering: every chunk is acknowledged, or the time is up.
pub fn drain_finished(acked: usize, chunk_count: u32, elapsed_ms: u64) -> (done: bool)
    ensures
        done == (acked >= chunk_count || elapsed_ms >= DRAIN_SECONDS * 1000),
{
    acked >= chunk_count as usize || elapsed_ms >= DRAIN_SECONDS * 1000
}

} // verus!
