//! The framing of the TCP relay, the fallback transport for file data.
//!
//! On the stream every frame is `len_u32_BE ‖ payload`. The payload starts with a type:
//!
//! ```text
//! 0x10 chunk   type ‖ uid[16] ‖ transfer_id[16] ‖ chunk_index[u32 BE] ‖ bytes
//! 0x11 ack     type ‖ uid[16] ‖ transfer_id[16] ‖ chunk_index[u32 BE]
//! 0x12 done    type ‖ uid[16] ‖ transfer_id[16]
//! 0x13 cancel  type ‖ uid[16] ‖ transfer_id[16]
//! ```
//!
//! A client writes the user the frame is for into `uid`; the relay replaces it by the user
//! the frame came from.

use vstd::prelude::*;
use crate::wire::{get_be_u32, put_bytes, spec_be_u32, spec_from_be_u32, spec_overwrite};

verus! {

broadcast use {vstd::slice::group_slice_axioms, vstd::array::group_array_axioms};

/// Most bytes of a frame's payload: 16 MiB.
pub const MAX_FRAME_SIZE: usize = 16_777_216;

/// Type of a frame that carries a sealed chunk.
pub const FRAME_FILE_CHUNK: u8 = 0x10;

/// Type of a frame that acknowledges chunks.
pub const FRAME_FILE_ACK: u8 = 0x11;

/// Type of a frame that ends a file.
pub const FRAME_FILE_DONE: u8 = 0x12;

/// Type of a frame that calls a transfer off.
pub const FRAME_FILE_CANCEL: u8 = 0x13;

/// Bytes of a chunk or ack frame before its data.
pub const CHUNK_FRAME_HEADER: usize = 37;

/// Bytes of a done or cancel frame.
pub const SHORT_FRAME_LEN: usize = 33;

/// Chunks a sender may have unacknowledged.
pub const SEND_WINDOW: u32 = 32;

/// Chunks after which the receiver acknowledges.
pub const ACK_INTERVAL: u32 = 8;

/// The chunk index in the acknowledgement of a whole file.
pub const FINAL_ACK: u32 = 0xFFFF_FFFF;

/// Value of the acknowledgement counter after the peer called the transfer off.
pub const ACK_CANCELLED: i64 = i64::MAX;

/// Whether a length prefix announces a frame the relay takes: not empty, and not above
/// 16 MiB.
pub fn frame_length_ok(len: u32) -> (ok: bool)
    ensures
        ok == (0 < len <= MAX_FRAME_SIZE),
{
    len != 0 && (len as usize) <= MAX_FRAME_SIZE
}

/// Most bytes of a bearer in the handshake that opens a connection.
pub const MAX_JWT_SIZE: usize = 8192;

/// Whether the first three bytes of a connection announce a bearer the relay reads: the
/// marker is zero, and the length is neither zero nor above 8192.
pub fn handshake_ok(marker: u8, bearer_len: u16) -> (ok: bool)
    ensures
        ok == (marker == 0x00 && 0 < bearer_len <= MAX_JWT_SIZE),
{
    marker == 0x00 && bearer_len != 0 && (bearer_len as usize) <= MAX_JWT_SIZE
}

/// The least length of a frame of type `kind`, if the relay knows the type.
pub open spec fn spec_min_len(kind: u8) -> Option<int> {
    if kind == FRAME_FILE_CHUNK || kind == FRAME_FILE_ACK {
        Some(CHUNK_FRAME_HEADER as int)
    } else if kind == FRAME_FILE_DONE || kind == FRAME_FILE_CANCEL {
        Some(SHORT_FRAME_LEN as int)
    } else {
        None
    }
}

/// What the relay does with a frame.
#[derive(Debug, Clone, Copy, PartialEq, Eq)]
pub enum RelayVerdict {
    /// The frame, rewritten, goes to this user.
    Forward { target: [u8; 16] },
    /// The frame is shorter than its type allows: dropped.
    TooShort,
    /// The frame's type is unknown, or the frame is empty: dropped.
    UnknownType,
}

/// Decides where a frame goes and, if it goes anywhere, replaces the user it is for by
/// the user it came from. A frame that is dropped is left as it was.
pub fn relay_rewrite(frame: &mut [u8], sender: &[u8; 16]) -> (v: RelayVerdict)
    ensures
        match v {
            RelayVerdict::Forward { target } => {
                &&& old(frame)@.len() > 0
                &&& spec_min_len(old(frame)@[0]) matches Some(min)
                &&& old(frame)@.len() >= min
                &&& target@ == old(frame)@.subrange(1, 17)
                &&& final(frame)@ == spec_overwrite(old(frame)@, 1, sender@)
            },
            RelayVerdict::TooShort => {
                &&& old(frame)@.len() > 0
                &&& spec_min_len(old(frame)@[0]) matches Some(min)
                &&& old(frame)@.len() < min
                &&& final(frame)@ == old(frame)@
            },
            RelayVerdict::UnknownType => {
                &&& old(frame)@.len() == 0 || spec_min_len(old(frame)@[0]) is None
                &&& final(frame)@ == old(frame)@
            },
        },
{
    if frame.len() == 0 {
        return RelayVerdict::UnknownType;
    }
    let kind: u8 = frame[0];
    let min: usize = if kind == FRAME_FILE_CHUNK || kind == FRAME_FILE_ACK {
        CHUNK_FRAME_HEADER
    } else if kind == FRAME_FILE_DONE || kind == FRAME_FILE_CANCEL {
        SHORT_FRAME_LEN
    } else {
        return RelayVerdict::UnknownType;
    };
    if frame.len() < min {
        return RelayVerdict::TooShort;
    }
    let mut target: [u8; 16] = [0u8; 16];
    let mut i: usize = 0;
    while i < 16
        invariant
            i <= 16,
            frame@ == old(frame)@,
            frame@.len() >= 17,
            forall|j: int| 0 <= j < i ==> target@[j] == frame@[1 + j],
        decreases 16 - i,
    {
        target[i] = frame[1 + i];
        i = i + 1;
    }
    assert(target@ =~= frame@.subrange(1, 17));
    put_bytes(frame, 1, sender.as_slice());
    RelayVerdict::Forward { target }
}

/// A frame as a client reads it.
pub enum IncomingFrame {
    /// A sealed chunk of a transfer.
    Chunk { transfer_id: [u8; 16], chunk_index: u32, payload: Vec<u8> },
    /// The peer has received the chunks up to `ack_index`.
    Ack { transfer_id: [u8; 16], ack_index: u32 },
    /// The peer has sent the whole file.
    Done { transfer_id: [u8; 16] },
    /// The peer has called the transfer off.
    Cancel { transfer_id: [u8; 16] },
    /// Nothing a client acts on: empty, too short, or of an unknown type.
    Ignored,
}

/// Whether `parsed` is what the bytes of `frame` say.
pub open spec fn spec_parsed_as(parsed: IncomingFrame, frame: Seq<u8>) -> bool {
    match parsed {
        IncomingFrame::Chunk { transfer_id, chunk_index, payload } => {
            &&& frame.len() >= CHUNK_FRAME_HEADER
            &&& frame[0] == FRAME_FILE_CHUNK
            &&& transfer_id@ == frame.subrange(17, 33)
            &&& chunk_index == spec_from_be_u32(frame.subrange(33, 37))
            &&& payload@ == frame.subrange(37, frame.len() as int)
        },
        IncomingFrame::Ack { transfer_id, ack_index } => {
            &&& frame.len() >= CHUNK_FRAME_HEADER
            &&& frame[0] == FRAME_FILE_ACK
            &&& transfer_id@ == frame.subrange(17, 33)
            &&& ack_index == spec_from_be_u32(frame.subrange(33, 37))
        },
        IncomingFrame::Done { transfer_id } => {
            &&& frame.len() >= SHORT_FRAME_LEN
            &&& frame[0] == FRAME_FILE_DONE
            &&& transfer_id@ == frame.subrange(17, 33)
        },
        IncomingFrame::Cancel { transfer_id } => {
            &&& frame.len() >= SHORT_FRAME_LEN
            &&& frame[0] == FRAME_FILE_CANCEL
            &&& transfer_id@ == frame.subrange(17, 33)
        },
        IncomingFrame::Ignored => {
            ||| frame.len() == 0
            ||| spec_min_len(frame[0]) is None
            ||| frame.len() < spec_min_len(frame[0])->0
        },
    }
}

fn read_id(frame: &[u8], at: usize) -> (id: [u8; 16])
    requires
        at + 16 <= frame@.len(),
    ensures
        id@ == frame@.subrange(at as int, at + 16),
{
    let mut id: [u8; 16] = [0u8; 16];
    let mut i: usize = 0;
    assert(frame@.len() == frame.len());
    while i < 16
        invariant
            i <= 16,
            frame@.len() <= usize::MAX,
            at + 16 <= frame@.len(),
            forall|j: int| 0 <= j < i ==> id@[j] == frame@[at + j],
        decreases 16 - i,
    {
        id[i] = frame[at + i];
        i = i + 1;
    }
    assert(id@ =~= frame@.subrange(at as int, at + 16));
    id
}

/// Reads a frame that came from the relay.
pub fn parse_relay_frame(frame: &[u8]) -> (parsed: IncomingFrame)
    ensures
        spec_parsed_as(parsed, frame@),
{
    if frame.len() == 0 {
        return IncomingFrame::Ignored;
    }
    let kind: u8 = frame[0];
    if kind == FRAME_FILE_CHUNK {
        if frame.len() < CHUNK_FRAME_HEADER {
            return IncomingFrame::Ignored;
        }
        let transfer_id = read_id(frame, 17);
        let chunk_index = get_be_u32(frame, 33);
        let payload = vstd::slice::slice_to_vec(
            vstd::slice::slice_subrange(frame, CHUNK_FRAME_HEADER, frame.len()),
        );
        IncomingFrame::Chunk { transfer_id, chunk_index, payload }
    } else if kind == FRAME_FILE_ACK {
        if frame.len() < CHUNK_FRAME_HEADER {
            return IncomingFrame::Ignored;
        }
        let transfer_id = read_id(frame, 17);
        let ack_index = get_be_u32(frame, 33);
        IncomingFrame::Ack { transfer_id, ack_index }
    } else if kind == FRAME_FILE_DONE {
        if frame.len() < SHORT_FRAME_LEN {
            return IncomingFrame::Ignored;
        }
        IncomingFrame::Done { transfer_id: read_id(frame, 17) }
    } else if kind == FRAME_FILE_CANCEL {
        if frame.len() < SHORT_FRAME_LEN {
            return IncomingFrame::Ignored;
        }
        IncomingFrame::Cancel { transfer_id: read_id(frame, 17) }
    } else {
        IncomingFrame::Ignored
    }
}

/// The bytes of a chunk or ack frame.
pub open spec fn spec_long_frame(
    kind: u8,
    uid: Seq<u8>,
    transfer_id: Seq<u8>,
    chunk_index: u32,
    payload: Seq<u8>,
) -> Seq<u8> {
    seq![kind] + uid + transfer_id + spec_be_u32(chunk_index) + payload
}

/// The bytes of a done or cancel frame.
pub open spec fn spec_short_frame(kind: u8, uid: Seq<u8>, transfer_id: Seq<u8>) -> Seq<u8> {
    seq![kind] + uid + transfer_id
}

/// The frame that carries one sealed chunk to `target`.
pub fn build_chunk_frame(
    target: &[u8; 16],
    transfer_id: &[u8; 16],
    chunk_index: u32,
    payload: &[u8],
) -> (frame: Vec<u8>)
    ensures
        frame@ == spec_long_frame(
            FRAME_FILE_CHUNK,
            target@,
            transfer_id@,
            chunk_index,
            payload@,
        ),
{
    let mut frame: Vec<u8> = Vec::new();
    frame.push(FRAME_FILE_CHUNK);
    frame.extend_from_slice(target.as_slice());
    frame.extend_from_slice(transfer_id.as_slice());
    push_be_u32(&mut frame, chunk_index);
    frame.extend_from_slice(payload);
    assert(frame@ =~= spec_long_frame(
        FRAME_FILE_CHUNK,
        target@,
        transfer_id@,
        chunk_index,
        payload@,
    ));
    frame
}

/// The frame that tells `target` which chunk has arrived.
pub fn build_ack_frame(target: &[u8; 16], transfer_id: &[u8; 16], ack_index: u32) -> (frame: Vec<
    u8,
>)
    ensures
        frame@ == spec_long_frame(
            FRAME_FILE_ACK,
            target@,
            transfer_id@,
            ack_index,
            Seq::<u8>::empty(),
        ),
{
    let mut frame: Vec<u8> = Vec::new();
    frame.push(FRAME_FILE_ACK);
    frame.extend_from_slice(target.as_slice());
    frame.extend_from_slice(transfer_id.as_slice());
    push_be_u32(&mut frame, ack_index);
    assert(frame@ =~= spec_long_frame(
        FRAME_FILE_ACK,
        target@,
        transfer_id@,
        ack_index,
        Seq::<u8>::empty(),
    ));
    frame
}

/// The frame that tells `target` the file is sent.
pub fn build_done_frame(target: &[u8; 16], transfer_id: &[u8; 16]) -> (frame: Vec<u8>)
    ensures
        frame@ == spec_short_frame(FRAME_FILE_DONE, target@, transfer_id@),
{
    let mut frame: Vec<u8> = Vec::new();
    frame.push(FRAME_FILE_DONE);
    frame.extend_from_slice(target.as_slice());
    frame.extend_from_slice(transfer_id.as_slice());
    assert(frame@ =~= spec_short_frame(FRAME_FILE_DONE, target@, transfer_id@));
    frame
}

/// The frame that tells `target` the transfer is called off.
pub fn build_cancel_frame(target: &[u8; 16], transfer_id: &[u8; 16]) -> (frame: Vec<u8>)
    ensures
        frame@ == spec_short_frame(FRAME_FILE_CANCEL, target@, transfer_id@),
{
    let mut frame: Vec<u8> = Vec::new();
    frame.push(FRAME_FILE_CANCEL);
    frame.extend_from_slice(target.as_slice());
    frame.extend_from_slice(transfer_id.as_slice());
    assert(frame@ =~= spec_short_frame(FRAME_FILE_CANCEL, target@, transfer_id@));
    frame
}

fn push_be_u32(out: &mut Vec<u8>, x: u32)
    ensures
        final(out)@ == old(out)@ + spec_be_u32(x),
{
    out.push((x / 0x100_0000) as u8);
    out.push(((x / 0x1_0000) % 0x100) as u8);
    out.push(((x / 0x100) % 0x100) as u8);
    out.push((x % 0x100) as u8);
    assert(out@ =~= old(out)@ + spec_be_u32(x));
}

/// The four bytes that announce a frame of `len` bytes on the stream.
pub fn length_prefix(len: u32) -> (prefix: [u8; 4])
    ensures
        prefix@ == spec_be_u32(len),
{
    let prefix: [u8; 4] = [
        (len / 0x100_0000) as u8,
        ((len / 0x1_0000) % 0x100) as u8,
        ((len / 0x100) % 0x100) as u8,
        (len % 0x100) as u8,
    ];
    assert(prefix@ =~= spec_be_u32(len));
    prefix
}

/// A chunk frame that passed the relay arrives with its transfer, index and bytes as they
/// were sent; only the user field has changed, from the one it was for to the one it came
/// from.
pub proof fn lemma_chunk_frame_survives_relay(
    target: Seq<u8>,
    sender: Seq<u8>,
    transfer_id: Seq<u8>,
    chunk_index: u32,
    payload: Seq<u8>,
)
    requires
        target.len() == 16,
        sender.len() == 16,
        transfer_id.len() == 16,
    ensures
        ({
            let sent = spec_long_frame(FRAME_FILE_CHUNK, target, transfer_id, chunk_index, payload);
            let relayed = spec_overwrite(sent, 1, sender);
            &&& sent.subrange(1, 17) == target
            &&& relayed == spec_long_frame(
                FRAME_FILE_CHUNK,
                sender,
                transfer_id,
                chunk_index,
                payload,
            )
            &&& relayed.len() >= CHUNK_FRAME_HEADER
            &&& relayed[0] == FRAME_FILE_CHUNK
            &&& relayed.subrange(17, 33) == transfer_id
            &&& spec_from_be_u32(relayed.subrange(33, 37)) == chunk_index
            &&& relayed.subrange(37, relayed.len() as int) == payload
        }),
{
    let sent = spec_long_frame(FRAME_FILE_CHUNK, target, transfer_id, chunk_index, payload);
    let relayed = spec_overwrite(sent, 1, sender);
    crate::wire::lemma_be_roundtrip(0, chunk_index, 0);
    assert(sent.subrange(1, 17) =~= target);
    assert(relayed =~= spec_long_frame(
        FRAME_FILE_CHUNK,
        sender,
        transfer_id,
        chunk_index,
        payload,
    ));
    assert(relayed.subrange(17, 33) =~= transfer_id);
    assert(relayed.subrange(33, 37) =~= spec_be_u32(chunk_index));
    assert(relayed.subrange(37, relayed.len() as int) =~= payload);
}

/// Whether the sender may send its next chunk.
#[derive(Debug, Clone, Copy, PartialEq, Eq, Structural)]
pub enum WindowState {
    /// Fewer than 32 chunks are unacknowledged: send.
    Open,
    /// The window is full: wait for an acknowledgement.
    Wait,
    /// The peer has called the transfer off.
    Cancelled,
}

/// Whether chunk `chunk_index` may be sent when `last_acked` is the last chunk the peer
/// acknowledged, or -1 if it has acknowledged none.
pub fn window_state(chunk_index: u32, last_acked: i64) -> (w: WindowState)
    ensures
        w == if last_acked == ACK_CANCELLED {
            WindowState::Cancelled
        } else if chunk_index - last_acked < SEND_WINDOW {
            WindowState::Open
        } else {
            WindowState::Wait
        },
{
    if last_acked == ACK_CANCELLED {
        WindowState::Cancelled
    } else if last_acked >= chunk_index as i64 {
        WindowState::Open
    } else if last_acked >= 0 {
        if chunk_index as i64 - last_acked < SEND_WINDOW as i64 {
            WindowState::Open
        } else {
            WindowState::Wait
        }
    } else {
        // last_acked is negative: the difference is written without overflow
        let behind: i64 = -(last_acked + 1);
        if (chunk_index as i64) < SEND_WINDOW as i64 - 1 && behind < SEND_WINDOW as i64 - 1
            - chunk_index as i64 {
            WindowState::Open
        } else {
            WindowState::Wait
        }
    }
}

/// Whether the receiver acknowledges after chunk `chunk_index`: after every eighth, but
/// not after the first.
pub fn ack_due(chunk_index: u32) -> (due: bool)
    ensures
        due == (chunk_index > 0 && chunk_index % ACK_INTERVAL == 0),
{
    chunk_index > 0 && chunk_index % ACK_INTERVAL == 0
}

} // verus!
