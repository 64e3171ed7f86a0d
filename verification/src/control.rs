//! The envelopes of the control channel, and what the transfer core makes of them.
//!
//! The core does not move these envelopes; it builds the ones it emits and acts on the
//! ones it is handed.

use vstd::prelude::*;
use vstd::string::{StringExecFns, StringSliceAdditionalSpecFns};
use crate::cache::RetransmitCache;
use crate::hashing::{hex_decode, sha256, spec_is_hex, spec_sha256, spec_unhex};
use crate::protocol::frames_for_chunk;
use crate::sender::{retransmit_plan, spec_frame_count_field, spec_resendable, SendResult};

verus! {

broadcast use {vstd::slice::group_slice_axioms, vstd::array::group_array_axioms};

/// The receiver names frames of a chunk that have not arrived.
#[derive(Debug, Clone)]
pub struct NackMessage {
    pub chunk_index: u32,
    pub missing_frames: Vec<u16>,
}

/// The receiver has a chunk whole and verified.
#[derive(Debug, Clone, Copy, PartialEq, Eq, Structural)]
pub struct ChunkAckMessage {
    pub chunk_index: u32,
}

/// The control messages of a blast transfer with the storage server.
#[derive(Debug, Clone)]
pub enum FastControlMessage {
    /// Client to server: an upload begins.
    FastUploadStart {
        transfer_id: String,
        file_size: u64,
        chunk_count: u32,
        chunk_size: u64,
        chunk_hashes: Vec<String>,
        file_sha256: String,
    },
    /// Client to server: a download begins; the client listens on `udp_port`.
    FastDownloadStart { transfer_id: String, udp_port: u16 },
    /// Server to client: the server listens on `udp_port`.
    FastUploadReady { transfer_id: String, udp_port: u16 },
    /// Frames of a chunk are missing.
    FastNack { transfer_id: String, chunk_idx: u32, missing_frames: Vec<u16> },
    /// A chunk has arrived whole.
    FastChunkAck { transfer_id: String, chunk_idx: u32 },
    /// Server to client: the upload has arrived whole.
    FastUploadDone { transfer_id: String },
    /// Server to client: the server is about to send.
    FastDownloadReady { transfer_id: String },
    /// Server to client: the download has been sent.
    FastDownloadDone { transfer_id: String },
}

/// The announcement of a transfer, with every hash the receiver verifies against.
pub struct Offer {
    pub transfer_id: String,
    pub filename: String,
    /// Bytes of the sealed file.
    pub size: u64,
    pub chunk_count: u32,
    pub per_chunk_hashes: Vec<String>,
    pub whole_file_hash: String,
    pub server_url: Option<String>,
}

/// Builds the offer of a transfer from the outcome of its sealing pass.
///
/// An offer exists only once the pass has declared a hash for every chunk: `None` where
/// the hashes and the chunk count disagree.
pub fn build_offer(
    transfer_id: String,
    filename: String,
    result: SendResult,
    server_url: Option<String>,
) -> (r: Option<Offer>)
    ensures
        r is Some <==> result.chunk_hashes@.len() == result.chunk_count,
        r matches Some(offer) ==> {
            &&& offer.transfer_id == transfer_id
            &&& offer.filename == filename
            &&& offer.size == result.encrypted_size
            &&& offer.chunk_count == result.chunk_count
            &&& offer.per_chunk_hashes == result.chunk_hashes
            &&& offer.whole_file_hash == result.file_sha256
            &&& offer.server_url == server_url
        },
{
    if result.chunk_hashes.len() != result.chunk_count as usize {
        return None;
    }
    Some(
        Offer {
            transfer_id,
            filename,
            size: result.encrypted_size,
            chunk_count: result.chunk_count,
            per_chunk_hashes: result.chunk_hashes,
            whole_file_hash: result.file_sha256,
            server_url,
        },
    )
}

/// The items of a JSON array of strings, without the brackets: each in double quotes,
/// with commas between.
pub open spec fn spec_json_items(items: Seq<Seq<char>>) -> Seq<char>
    decreases items.len(),
{
    if items.len() == 0 {
        Seq::<char>::empty()
    } else if items.len() == 1 {
        seq!['"'] + items[0] + seq!['"']
    } else {
        spec_json_items(items.drop_last()) + seq![','] + seq!['"'] + items.last() + seq!['"']
    }
}

/// A JSON array of strings. The strings are written as they are: they must hold nothing
/// that JSON escapes, as hexadecimal hashes do not.
pub open spec fn spec_json_array(items: Seq<Seq<char>>) -> Seq<char> {
    seq!['['] + spec_json_items(items) + seq![']']
}

/// The record of hashes that is published once a sealing pass is over.
pub open spec fn spec_hashes_json(file_sha256: Seq<char>, chunk_hashes: Seq<Seq<char>>) -> Seq<
    char,
> {
    "{\"file_sha256\":\""@ + file_sha256 + "\",\"chunk_hashes\":"@ + spec_json_array(chunk_hashes)
        + "}"@
}

/// The texts of `hashes`, one by one.
pub open spec fn spec_texts(hashes: Seq<String>) -> Seq<Seq<char>> {
    Seq::new(hashes.len(), |i: int| hashes[i]@)
}

/// Writes hashes as a JSON array of strings.
pub fn serde_json_mini(hashes: &Vec<String>) -> (s: String)
    ensures
        s@ == spec_json_array(spec_texts(hashes@)),
{
    let mut s: String = String::from_str("[");
    let ghost items = spec_texts(hashes@);
    let mut i: usize = 0;
    proof {
        reveal_strlit("[");
        assert(s@ =~= seq!['['] + spec_json_items(items.subrange(0, 0)));
    }
    while i < hashes.len()
        invariant
            i <= hashes@.len(),
            items == spec_texts(hashes@),
            s@ == seq!['['] + spec_json_items(items.subrange(0, i as int)),
        decreases hashes@.len() - i,
    {
        let ghost before = s@;
        if i > 0 {
            s.append(",");
        }
        s.append("\"");
        s.append(hashes[i].as_str());
        s.append("\"");
        proof {
            reveal_strlit(",");
            reveal_strlit("\"");
            let next = items.subrange(0, i + 1);
            assert(next.drop_last() =~= items.subrange(0, i as int));
            assert(next.last() == hashes@[i as int]@);
            if i == 0 {
                assert(spec_json_items(items.subrange(0, 0)) =~= Seq::<char>::empty());
                assert(s@ =~= seq!['['] + spec_json_items(next));
            } else {
                assert(s@ =~= seq!['['] + spec_json_items(next));
            }
        }
        i = i + 1;
    }
    s.append("]");
    proof {
        reveal_strlit("]");
        assert(items.subrange(0, i as int) =~= items);
        assert(s@ =~= spec_json_array(items));
    }
    s
}

/// The record of hashes of a finished sealing pass, as the host reads it.
pub fn hashes_json(file_sha256: &String, chunk_hashes: &Vec<String>) -> (s: String)
    ensures
        s@ == spec_hashes_json(file_sha256@, spec_texts(chunk_hashes@)),
{
    let mut s: String = String::from_str("{\"file_sha256\":\"");
    s.append(file_sha256.as_str());
    s.append("\",\"chunk_hashes\":");
    let array = serde_json_mini(chunk_hashes);
    s.append(array.as_str());
    s.append("}");
    assert(s@ =~= spec_hashes_json(file_sha256@, spec_texts(chunk_hashes@)));
    s
}

/// What the sender does about a request for retransmission.
pub enum NackResponse {
    /// The chunk is no longer cached: nothing can be sent again.
    NotCached,
    /// Send these frames of the chunk again; the chunk has `frame_count` frames.
    Resend { frame_count: u16, frames: Vec<u16> },
}

/// Answers a request for retransmission from the cache.
///
/// A request for a chunk that has left the cache is ignored; a request that comes twice is
/// answered twice, which does no harm.
pub fn plan_retransmit(cache: &RetransmitCache, nack: &NackMessage) -> (r: NackResponse)
    ensures
        match r {
            NackResponse::NotCached => !cache.spec_holds(nack.chunk_index) || cache.spec_data(
                nack.chunk_index,
            ).len() + 1399 > usize::MAX,
            NackResponse::Resend { frame_count, frames } => {
                &&& cache.spec_holds(nack.chunk_index)
                &&& frame_count == spec_frame_count_field(
                    cache.spec_data(nack.chunk_index).len() as int,
                )
                &&& frames@ == nack.missing_frames@.filter(
                    |k: u16|
                        spec_resendable(
                            k,
                            frame_count,
                            cache.spec_data(nack.chunk_index).len() as int,
                        ),
                )
            },
        },
{
    match cache.get(nack.chunk_index) {
        None => NackResponse::NotCached,
        Some(data) => {
            if data.len() > usize::MAX - 1399 {
                return NackResponse::NotCached;
            }
            let frame_count = frames_for_chunk(data.len());
            let frames = retransmit_plan(frame_count, data.len(), nack.missing_frames.as_slice());
            NackResponse::Resend { frame_count, frames }
        },
    }
}

/// The transfer id without its hyphens.
pub open spec fn spec_strip_hyphens(text: Seq<u8>) -> Seq<u8> {
    text.filter(|b: u8| b != 0x2d)
}

/// The 16 bytes that stand for a transfer id on the wire: the first 32 hexadecimal digits
/// of the id without hyphens, if it has them, else the first half of its SHA-256.
pub open spec fn spec_transfer_id_bytes(text: Seq<u8>) -> Seq<u8> {
    let stripped = spec_strip_hyphens(text);
    if stripped.len() >= 32 && spec_is_hex(stripped.subrange(0, 32)) {
        spec_unhex(stripped.subrange(0, 32))
    } else {
        spec_sha256(text).subrange(0, 16)
    }
}

/// The 16 bytes that stand for a transfer id on the wire.
pub fn parse_transfer_id_bytes(transfer_id: &str) -> (id: [u8; 16])
    ensures
        id@ == spec_transfer_id_bytes(transfer_id.spec_bytes()),
{
    let text = transfer_id.as_bytes();
    let ghost keep = |b: u8| b != 0x2d;
    let mut stripped: Vec<u8> = Vec::new();
    let n: usize = text.len();
    let mut i: usize = 0;
    proof {
        reveal(Seq::filter);
        assert(text@.subrange(0, 0) =~= Seq::<u8>::empty());
    }
    while i < n
        invariant
            n == text@.len(),
            i <= n,
            keep == |b: u8| b != 0x2d,
            stripped@ == text@.subrange(0, i as int).filter(keep),
        decreases n - i,
    {
        let b: u8 = text[i];
        proof {
            reveal(Seq::filter);
            let next = text@.subrange(0, i + 1);
            assert(next.drop_last() =~= text@.subrange(0, i as int));
            assert(next.last() == b);
        }
        if b != 0x2d {
            stripped.push(b);
        }
        i = i + 1;
    }
    assert(text@.subrange(0, n as int) =~= text@);
    let mut id: [u8; 16] = [0u8; 16];
    if stripped.len() >= 32 {
        match hex_decode(vstd::slice::slice_subrange(stripped.as_slice(), 0, 32)) {
            Ok(bytes) => {
                let mut j: usize = 0;
                while j < 16
                    invariant
                        j <= 16,
                        bytes@.len() == 16,
                        forall|t: int| 0 <= t < j ==> id@[t] == bytes@[t],
                    decreases 16 - j,
                {
                    id[j] = bytes[j];
                    j = j + 1;
                }
                assert(id@ =~= bytes@);
                return id;
            },
            Err(_) => {},
        }
    }
    let digest = sha256(text);
    let mut j: usize = 0;
    while j < 16
        invariant
            j <= 16,
            digest@.len() == 32,
            forall|t: int| 0 <= t < j ==> id@[t] == digest@[t],
        decreases 16 - j,
    {
        id[j] = digest[j];
        j = j + 1;
    }
    assert(id@ =~= digest@.subrange(0, 16));
    id
}

/// Seconds between two pings on the control channel.
pub const HEARTBEAT_INTERVAL_SECS: u64 = 15;

/// Pings in a row that may go unanswered before the connection is dropped.
pub const HEARTBEAT_MISSES_ALLOWED: u8 = 2;

/// What to do at a heartbeat.
#[derive(Debug, Clone, Copy, PartialEq, Eq, Structural)]
pub enum HeartbeatAction {
    /// Send the next ping.
    Ping,
    /// Two pings in a row went unanswered: drop the connection.
    Drop,
}

/// Counts unanswered pings.
#[derive(Debug, Clone, Copy, PartialEq, Eq, Structural)]
pub struct Heartbeat {
    pub missed: u8,
}

impl Heartbeat {
    /// A heartbeat with no ping unanswered.
    pub fn new() -> (h: Self)
        ensures
            h.missed == 0,
    {
        Heartbeat { missed: 0 }
    }

    /// The heartbeat after a tick, and what to do at it. `pong_seen` says whether a pong
    /// has arrived since the tick before.
    pub fn on_tick(self, pong_seen: bool) -> (r: (Heartbeat, HeartbeatAction))
        ensures
            r.0.missed == if pong_seen {
                0
            } else if self.missed < u8::MAX {
                (self.missed + 1) as u8
            } else {
                u8::MAX
            },
            r.1 == if r.0.missed >= HEARTBEAT_MISSES_ALLOWED {
                HeartbeatAction::Drop
            } else {
                HeartbeatAction::Ping
            },
    {
        let missed: u8 = if pong_seen {
            0
        } else if self.missed < u8::MAX {
            self.missed + 1
        } else {
            u8::MAX
        };
        let action = if missed >= HEARTBEAT_MISSES_ALLOWED {
            HeartbeatAction::Drop
        } else {
            HeartbeatAction::Ping
        };
        (Heartbeat { missed }, action)
    }
}

} // verus!
