//! The receiving side of blast mode: which datagrams to take, how their frames become
//! chunks again, what to ask for anew, and when a chunk may be written.

use vstd::prelude::*;
use vstd::set_lib::{lemma_int_range, lemma_len_subset, lemma_subset_equality, set_int_range};
use crate::bitfield::{spec_ascending, ChunkBitfield, BITFIELD_CAPACITY};
use crate::hashing::{sha256_hex, spec_hex, spec_sha256};
use crate::protocol::{
    decode_frame_header, lemma_frames_tile, spec_frame_bytes, spec_frame_end,
    spec_frame_payload, spec_frame_slice, spec_frame_start, spec_frames_for, spec_header_of,
    FrameHeader, FRAME_HEADER, FRAME_PAYLOAD,
};
use crate::layout::{chunk_offset, spec_chunk_offset};
use crate::progress::{
    STATE_CANCELLED, STATE_COMPLETE, STATE_ERROR, STATE_IDLE, STATE_RECEIVING,
};
use crate::wire::{bytes_eq, put_bytes, spec_overwrite};

verus! {

broadcast use {vstd::slice::group_slice_axioms, vstd::array::group_array_axioms};

/// Milliseconds the receiving socket waits for a datagram before the loop looks at the
/// cancel flag again.
pub const READ_TIMEOUT_MS: u64 = 100;

/// Most missing frames named in one request for retransmission.
pub const NACK_MAX_FRAMES: usize = 500;

/// A chunk whose frames have all arrived.
pub struct AssembledChunk {
    pub chunk_index: u32,
    pub data: Vec<u8>,
}

/// A request to send frames of one chunk again.
#[derive(Debug, Clone)]
pub struct NackRequest {
    pub chunk_index: u32,
    pub missing_frames: Vec<u16>,
}

/// Why an assembler cannot be set up for a transfer.
#[derive(Debug, Clone, Copy, PartialEq, Eq)]
pub enum AssemblerError {
    /// The declared file is too short for the declared number of chunks.
    FileTooShort,
    /// A chunk would be larger than memory can address.
    ChunkTooLarge,
}

/// Receipt state of one chunk, as a mathematical value.
pub enum ChunkState {
    /// No frame of the chunk has arrived.
    Waiting,
    /// Some frames have arrived: `received` of `total`, placed in `buf`.
    Partial { total: u16, received: Set<int>, buf: Seq<u8> },
    /// The chunk was handed on, and its memory freed.
    Done,
}

/// `buf` after a frame's payload was copied to `offset`, cut where the buffer ends.
pub open spec fn spec_place(buf: Seq<u8>, offset: int, payload: Seq<u8>) -> Seq<u8>
    recommends
        0 <= offset <= buf.len(),
{
    let room = buf.len() - offset;
    let n = if payload.len() < room {
        payload.len() as int
    } else {
        room
    };
    spec_overwrite(buf, offset, payload.subrange(0, n))
}

/// Whether a frame is taken into a chunk: it is one of the chunk's frames, the receipt
/// record has room for it, it has not arrived before, and it starts inside the buffer.
pub open spec fn spec_accepts(
    total: u16,
    received: Set<int>,
    buf_len: int,
    frame_index: u16,
) -> bool {
    &&& frame_index < total
    &&& frame_index < BITFIELD_CAPACITY
    &&& !received.contains(frame_index as int)
    &&& frame_index * FRAME_PAYLOAD <= buf_len
}

/// What a frame does to a chunk that has a buffer: the next state, and the chunk's bytes
/// if this frame completed it.
pub open spec fn spec_deliver_into(
    total: u16,
    received: Set<int>,
    buf: Seq<u8>,
    frame_index: u16,
    payload: Seq<u8>,
) -> (ChunkState, Option<Seq<u8>>) {
    let take = spec_accepts(total, received, buf.len() as int, frame_index);
    let received2 = if take {
        received.insert(frame_index as int)
    } else {
        received
    };
    let buf2 = if take {
        spec_place(buf, frame_index * FRAME_PAYLOAD, payload)
    } else {
        buf
    };
    if received2.len() == total {
        (ChunkState::Done, Some(buf2))
    } else {
        (ChunkState::Partial { total, received: received2, buf: buf2 }, None)
    }
}

/// What a frame does to a chunk of `expected_len` bytes.
///
/// The first frame fixes the number of frames of the chunk and allocates a zeroed buffer;
/// a frame for a finished chunk changes nothing.
pub open spec fn spec_deliver(
    state: ChunkState,
    expected_len: int,
    frame_index: u16,
    frame_count: u16,
    payload: Seq<u8>,
) -> (ChunkState, Option<Seq<u8>>) {
    match state {
        ChunkState::Done => (ChunkState::Done, None),
        ChunkState::Waiting => spec_deliver_into(
            frame_count,
            Set::<int>::empty(),
            Seq::new(expected_len as nat, |i: int| 0u8),
            frame_index,
            payload,
        ),
        ChunkState::Partial { total, received, buf } => spec_deliver_into(
            total,
            received,
            buf,
            frame_index,
            payload,
        ),
    }
}

/// Number of finished chunks among `chunks`.
pub open spec fn spec_done_count(chunks: Seq<ChunkState>) -> nat
    decreases chunks.len(),
{
    if chunks.len() == 0 {
        0
    } else {
        spec_done_count(chunks.drop_last()) + if chunks.last() is Done {
            1nat
        } else {
            0nat
        }
    }
}

/// Finishing one more chunk raises the count by one; any other change of one chunk leaves
/// it alone.
pub proof fn lemma_done_count_update(chunks: Seq<ChunkState>, i: int, s: ChunkState)
    requires
        0 <= i < chunks.len(),
    ensures
        spec_done_count(chunks.update(i, s)) == spec_done_count(chunks) + (if s is Done {
            1int
        } else {
            0int
        }) - (if chunks[i] is Done {
            1int
        } else {
            0int
        }),
    decreases chunks.len(),
{
    let updated = chunks.update(i, s);
    if i == chunks.len() - 1 {
        assert(updated.drop_last() =~= chunks.drop_last());
    } else {
        assert(updated.drop_last() =~= chunks.drop_last().update(i, s));
        lemma_done_count_update(chunks.drop_last(), i, s);
    }
}

/// The count reaches the number of chunks exactly when every chunk is finished.
pub proof fn lemma_done_count_full(chunks: Seq<ChunkState>)
    ensures
        spec_done_count(chunks) <= chunks.len(),
        spec_done_count(chunks) == chunks.len() <==> forall|i: int|
            0 <= i < chunks.len() ==> chunks[i] is Done,
    decreases chunks.len(),
{
    if chunks.len() > 0 {
        lemma_done_count_full(chunks.drop_last());
        let rest = chunks.drop_last();
        if spec_done_count(chunks) == chunks.len() {
            assert forall|i: int| 0 <= i < chunks.len() implies chunks[i] is Done by {
                if i < chunks.len() - 1 {
                    assert(rest[i] is Done);
                }
            }
        }
        if forall|i: int| 0 <= i < chunks.len() ==> chunks[i] is Done {
            assert forall|i: int| 0 <= i < rest.len() implies rest[i] is Done by {
                assert(chunks[i] is Done);
            }
        }
    }
}

/// The frame indices that occur in `order`.
pub open spec fn spec_delivered(order: Seq<u16>) -> Set<int> {
    Set::new(|k: int| exists|i: int| 0 <= i < order.len() && order[i] == k)
}

/// `buf` holds the bytes of `data` wherever a frame in `received` covers them.
pub open spec fn spec_agrees(buf: Seq<u8>, data: Seq<u8>, received: Set<int>) -> bool {
    &&& buf.len() == data.len()
    &&& forall|j: int|
        0 <= j < data.len() && received.contains(j / (FRAME_PAYLOAD as int)) ==> buf[j]
            == data[j]
}

/// What becomes of a chunk, and what is handed on, when the frames of `data` arrive in the
/// order `order`, each with the payload the sender cut for it.
pub open spec fn spec_deliver_all(
    state: ChunkState,
    data: Seq<u8>,
    frame_count: u16,
    order: Seq<u16>,
) -> (ChunkState, Seq<Seq<u8>>)
    decreases order.len(),
{
    if order.len() == 0 {
        (state, Seq::<Seq<u8>>::empty())
    } else {
        let before = spec_deliver_all(state, data, frame_count, order.drop_last());
        let step = spec_deliver(
            before.0,
            data.len() as int,
            order.last(),
            frame_count,
            spec_frame_slice(data, order.last() as int),
        );
        (
            step.0,
            match step.1 {
                Some(bytes) => before.1.push(bytes),
                None => before.1,
            },
        )
    }
}

/// One frame of `data` arriving at a chunk that so far agrees with `data`: the chunk goes
/// on agreeing, and is handed on as `data` itself when this was the last frame missing.
proof fn lemma_deliver_frame(data: Seq<u8>, received: Set<int>, buf: Seq<u8>, k: u16)
    requires
        0 < data.len(),
        spec_frames_for(data.len() as int) <= BITFIELD_CAPACITY,
        k < spec_frames_for(data.len() as int),
        received.finite(),
        forall|x: int| received.contains(x) ==> 0 <= x < spec_frames_for(data.len() as int),
        spec_agrees(buf, data, received),
    ensures
        ({
            let n = spec_frames_for(data.len() as int) as u16;
            let step = spec_deliver_into(n, received, buf, k, spec_frame_slice(data, k as int));
            let all = received.insert(k as int);
            if all.len() == n {
                received.len() != n ==> step == (ChunkState::Done, Some(data))
            } else {
                &&& step.1 is None
                &&& step.0 matches ChunkState::Partial { total, received: r2, buf: b2 }
                &&& total == n
                &&& r2 == all
                &&& spec_agrees(b2, data, all)
            }
        }),
{
    let len = data.len() as int;
    let n = spec_frames_for(len) as u16;
    let all = received.insert(k as int);
    let slice = spec_frame_slice(data, k as int);
    let start = spec_frame_start(k as int);
    let end = spec_frame_end(k as int, len);
    lemma_frames_tile(len, k as int);
    let step = spec_deliver_into(n, received, buf, k, slice);
    let range = set_int_range(0, n as int);
    lemma_int_range(0, n as int);
    assert(all.subset_of(range));
    lemma_len_subset(all, range);
    if received.contains(k as int) {
        assert(all =~= received);
    } else {
        assert(spec_accepts(n, received, buf.len() as int, k));
        assert(slice.subrange(0, slice.len() as int) =~= slice);
        let b2 = spec_place(buf, start, slice);
        assert(b2 == spec_overwrite(buf, start, slice));
        assert forall|j: int|
            0 <= j < data.len() && all.contains(j / (FRAME_PAYLOAD as int)) implies b2[j]
                == data[j] by {
            if j / (FRAME_PAYLOAD as int) == k {
                assert(start <= j < end);
                assert(b2[j] == slice[j - start]);
            } else {
                assert(received.contains(j / (FRAME_PAYLOAD as int)));
                assert(b2[j] == buf[j]);
            }
        }
        assert(spec_agrees(b2, data, all));
        if all.len() == n {
            lemma_subset_equality(all, range);
            assert(b2 =~= data) by {
                assert forall|j: int| 0 <= j < data.len() implies b2[j] == data[j] by {
                    assert(range.contains(j / (FRAME_PAYLOAD as int)));
                }
            }
        }
    }
}

/// Where a chunk stands after the frames in `order` have arrived, told by the set of
/// frames delivered.
proof fn lemma_deliver_all(data: Seq<u8>, order: Seq<u16>)
    requires
        0 < data.len(),
        spec_frames_for(data.len() as int) <= BITFIELD_CAPACITY,
        forall|i: int| 0 <= i < order.len() ==> order[i] < spec_frames_for(data.len() as int),
    ensures
        ({
            let n = spec_frames_for(data.len() as int) as u16;
            let run = spec_deliver_all(ChunkState::Waiting, data, n, order);
            let seen = spec_delivered(order);
            &&& seen.finite()
            &&& forall|x: int| seen.contains(x) ==> 0 <= x < n
            &&& if order.len() == 0 {
                run == (ChunkState::Waiting, Seq::<Seq<u8>>::empty())
            } else if seen.len() == n {
                run == (ChunkState::Done, seq![data])
            } else {
                &&& run.1 == Seq::<Seq<u8>>::empty()
                &&& run.0 matches ChunkState::Partial { total, received, buf }
                &&& total == n
                &&& received == seen
                &&& spec_agrees(buf, data, seen)
            }
        }),
    decreases order.len(),
{
    let len = data.len() as int;
    let n = spec_frames_for(len) as u16;
    let seen = spec_delivered(order);
    let range = set_int_range(0, n as int);
    lemma_int_range(0, n as int);
    assert(seen.subset_of(range));
    lemma_len_subset(seen, range);
    lemma_frames_tile(len, 0);
    if order.len() > 0 {
        let prefix = order.drop_last();
        let k = order.last();
        let before = spec_deliver_all(ChunkState::Waiting, data, n, prefix);
        let seen0 = spec_delivered(prefix);
        lemma_deliver_all(data, prefix);
        assert(seen =~= seen0.insert(k as int)) by {
            assert forall|x: int| seen.contains(x) == seen0.insert(k as int).contains(x) by {
                if seen.contains(x) {
                    let i = choose|i: int| 0 <= i < order.len() && order[i] == x;
                    if i < prefix.len() {
                        assert(prefix[i] == x);
                    }
                }
                if seen0.contains(x) {
                    let i = choose|i: int| 0 <= i < prefix.len() && prefix[i] == x;
                    assert(order[i] == x);
                }
                if x == k {
                    assert(order[order.len() - 1] == x);
                }
            }
        }
        let slice = spec_frame_slice(data, k as int);
        if prefix.len() == 0 {
            assert(seen0 =~= Set::<int>::empty());
            let zeros = Seq::new(len as nat, |i: int| 0u8);
            assert(spec_agrees(zeros, data, seen0));
            lemma_deliver_frame(data, seen0, zeros, k);
        } else if seen0.len() == n {
            lemma_subset_equality(seen0, range);
            assert(seen =~= seen0);
        } else {
            match before.0 {
                ChunkState::Partial { total, received, buf } => {
                    lemma_deliver_frame(data, received, buf, k);
                },
                _ => {},
            }
        }
    }
}

/// Every frame delivered at least once, in any order and with any repeats, gives the
/// chunk back: it is handed on exactly once, byte for byte as the sender cut it.
pub proof fn lemma_all_frames_assemble(data: Seq<u8>, order: Seq<u16>)
    requires
        0 < data.len(),
        spec_frames_for(data.len() as int) <= BITFIELD_CAPACITY,
        forall|i: int| 0 <= i < order.len() ==> order[i] < spec_frames_for(data.len() as int),
        forall|k: int|
            0 <= k < spec_frames_for(data.len() as int) ==> spec_delivered(order).contains(k),
    ensures
        spec_deliver_all(
            ChunkState::Waiting,
            data,
            spec_frames_for(data.len() as int) as u16,
            order,
        ) == (ChunkState::Done, seq![data]),
{
    let n = spec_frames_for(data.len() as int);
    lemma_deliver_all(data, order);
    lemma_frames_tile(data.len() as int, 0);
    let seen = spec_delivered(order);
    let range = set_int_range(0, n);
    lemma_int_range(0, n);
    assert(seen =~= range);
    assert(seen.contains(0));
    let i = choose|i: int| 0 <= i < order.len() && order[i] == 0;
}

/// A frame that arrives again changes nothing and hands nothing on, whatever it carries
/// the second time.
pub proof fn lemma_duplicate_ignored(
    state: ChunkState,
    expected_len: int,
    frame_index: u16,
    frame_count: u16,
    payload: Seq<u8>,
    again: Seq<u8>,
)
    ensures
        ({
            let first = spec_deliver(state, expected_len, frame_index, frame_count, payload);
            spec_deliver(first.0, expected_len, frame_index, frame_count, again) == (
                first.0,
                None::<Seq<u8>>,
            )
        }),
{
    let first = spec_deliver(state, expected_len, frame_index, frame_count, payload);
    match first.0 {
        ChunkState::Partial { total, received, buf } => {
            assert(received.len() != total);
            match state {
                ChunkState::Partial { total: t0, received: r0, buf: b0 } => {
                    if spec_accepts(t0, r0, b0.len() as int, frame_index) {
                        assert(received.contains(frame_index as int));
                    } else {
                        assert(buf.len() == b0.len());
                    }
                },
                ChunkState::Waiting => {
                    let zeros = Seq::new(expected_len as nat, |i: int| 0u8);
                    if spec_accepts(
                        frame_count,
                        Set::<int>::empty(),
                        zeros.len() as int,
                        frame_index,
                    ) {
                        assert(received.contains(frame_index as int));
                    } else {
                        assert(buf.len() == zeros.len());
                    }
                },
                ChunkState::Done => {},
            }
        },
        _ => {},
    }
}

/// `list` names the lowest missing frames of a chunk, in ascending order, all of them or
/// the first `limit`.
pub open spec fn spec_missing_prefix(
    list: Seq<u16>,
    received: Set<int>,
    total: u16,
    limit: int,
) -> bool {
    &&& spec_ascending(list)
    &&& list.len() <= limit
    &&& forall|i: int|
        0 <= i < list.len() ==> list[i] < total && !received.contains(list[i] as int)
    &&& forall|k: u16|
        k < total && !received.contains(k as int) ==> list.contains(k) || (list.len() == limit
            && list.last() < k)
}

/// A chunk of which some frames, but not all, have arrived.
pub open spec fn spec_wants_nack(state: ChunkState) -> bool {
    state matches ChunkState::Partial { received, .. } && received.len() > 0
}

/// `missing` is the request that is due for chunk `c`.
pub open spec fn spec_nack_due(chunks: Seq<ChunkState>, c: int, missing: Seq<u16>) -> bool {
    &&& 0 <= c < chunks.len()
    &&& spec_wants_nack(chunks[c])
    &&& missing.len() > 0
    &&& chunks[c] matches ChunkState::Partial { total, received, .. } && spec_missing_prefix(
        missing,
        received,
        total,
        NACK_MAX_FRAMES as int,
    )
}

proof fn lemma_missing_prefix(full: Seq<u16>, received: Set<int>, total: u16, cut: Seq<u16>)
    requires
        spec_ascending(full),
        forall|k: u16| k < total ==> (full.contains(k) <==> !received.contains(k as int)),
        forall|i: int| 0 <= i < full.len() ==> full[i] < total,
        cut == if full.len() > NACK_MAX_FRAMES {
            full.subrange(0, NACK_MAX_FRAMES as int)
        } else {
            full
        },
    ensures
        spec_missing_prefix(cut, received, total, NACK_MAX_FRAMES as int),
        full.len() > 0 ==> cut.len() > 0,
{
    assert forall|i: int| 0 <= i < cut.len() implies cut[i] < total && !received.contains(
        cut[i] as int,
    ) by {
        assert(cut[i] == full[i]);
        assert(full.contains(full[i]));
    }
    assert forall|k: u16| k < total && !received.contains(k as int) implies cut.contains(k) || (
    cut.len() == NACK_MAX_FRAMES && cut.last() < k) by {
        assert(full.contains(k));
        let j = choose|j: int| 0 <= j < full.len() && full[j] == k;
        if j < cut.len() {
            assert(cut[j] == k);
        } else {
            assert(cut.last() == full[cut.len() - 1]);
        }
    }
}

enum Slot {
    Waiting,
    Partial { bits: ChunkBitfield, buf: Vec<u8> },
    Done,
}

impl Slot {
    spec fn state(&self) -> ChunkState {
        match self {
            Slot::Waiting => ChunkState::Waiting,
            Slot::Partial { bits, buf } => ChunkState::Partial {
                total: bits.spec_total(),
                received: bits@,
                buf: buf@,
            },
            Slot::Done => ChunkState::Done,
        }
    }

    spec fn wf(&self, expected_len: int) -> bool {
        match self {
            Slot::Partial { bits, buf } => {
                &&& bits.wf()
                &&& bits.spec_received() < bits.spec_total()
                &&& buf@.len() == expected_len
            },
            _ => true,
        }
    }
}

/// Turns the frames of a transfer back into its chunks.
pub struct Assembler {
    chunk_count: u32,
    full_len: usize,
    last_len: usize,
    slots: Vec<Slot>,
    completed_count: u32,
}

/// The assembler as a mathematical value.
pub struct AssemblerView {
    /// Bytes expected of every chunk but the last.
    pub full_len: int,
    /// Bytes expected of the last chunk.
    pub last_len: int,
    /// State of each chunk, by index.
    pub chunks: Seq<ChunkState>,
}

impl AssemblerView {
    /// Bytes expected of chunk `index`.
    pub open spec fn expected_len(&self, index: int) -> int {
        if index + 1 == self.chunks.len() {
            self.last_len
        } else {
            self.full_len
        }
    }
}

impl View for Assembler {
    type V = AssemblerView;

    closed spec fn view(&self) -> AssemblerView {
        AssemblerView {
            full_len: self.full_len as int,
            last_len: self.last_len as int,
            chunks: Seq::new(self.slots@.len(), |i: int| self.slots@[i].state()),
        }
    }
}

impl Assembler {
    /// The assembler is consistent with itself.
    pub closed spec fn wf(&self) -> bool {
        &&& self.slots@.len() == self.chunk_count
        &&& self.completed_count == spec_done_count(self@.chunks)
        &&& forall|i: int|
            0 <= i < self.slots@.len() ==> (#[trigger] self.slots@[i]).wf(
                self@.expected_len(i),
            )
    }

    /// What consistency means to a caller.
    pub proof fn lemma_wf(&self)
        requires
            self.wf(),
        ensures
            self@.chunks.len() <= u32::MAX,
            0 <= self@.full_len <= usize::MAX,
            0 <= self@.last_len <= usize::MAX,
            forall|i: int|
                0 <= i < self@.chunks.len() ==> (#[trigger] self@.chunks[i] matches ChunkState::Partial {
                    total,
                    received,
                    buf,
                } ==> {
                    &&& received.finite()
                    &&& received.len() < total
                    &&& buf.len() == self@.expected_len(i)
                    &&& forall|k: int| received.contains(k) ==> 0 <= k < total
                }),
    {
        assert forall|i: int| 0 <= i < self@.chunks.len() implies (
        #[trigger] self@.chunks[i] matches ChunkState::Partial { total, received, buf } ==> {
            &&& received.finite()
            &&& received.len() < total
            &&& buf.len() == self@.expected_len(i)
            &&& forall|k: int| received.contains(k) ==> 0 <= k < total
        }) by {
            let slot = self.slots@[i];
            assert(slot.wf(self@.expected_len(i)));
            match slot {
                Slot::Partial { bits, buf } => {
                    bits.lemma_wf();
                },
                _ => {},
            }
        }
    }

    /// An assembler for a transfer of `chunk_count` chunks, each of `chunk_size` bytes but
    /// the last, which has what is left of `file_size`.
    ///
    /// All sizes are those of the sealed bytes.
    pub fn new(file_size: u64, chunk_size: u64, chunk_count: u32) -> (r: Result<
        Assembler,
        AssemblerError,
    >)
        ensures
            match r {
                Ok(a) => {
                    &&& a.wf()
                    &&& a@.chunks.len() == chunk_count
                    &&& forall|i: int| 0 <= i < chunk_count ==> a@.chunks[i] is Waiting
                    &&& chunk_count > 0 ==> a@.last_len == file_size - (chunk_count - 1)
                        * chunk_size
                    &&& chunk_count > 1 ==> a@.full_len == chunk_size
                },
                Err(AssemblerError::FileTooShort) => chunk_count > 0 && (chunk_count - 1)
                    * chunk_size > file_size,
                Err(AssemblerError::ChunkTooLarge) => chunk_count > 0 && (chunk_count - 1)
                    * chunk_size <= file_size && ((chunk_count > 1 && chunk_size > usize::MAX)
                    || file_size - (chunk_count - 1) * chunk_size > usize::MAX),
            },
    {
        let mut full_len: usize = 0;
        let mut last_len: usize = 0;
        if chunk_count > 0 {
            let before_last = match ((chunk_count - 1) as u64).checked_mul(chunk_size) {
                Some(b) => b,
                None => {
                    return Err(AssemblerError::FileTooShort);
                },
            };
            if before_last > file_size {
                return Err(AssemblerError::FileTooShort);
            }
            let last: u64 = file_size - before_last;
            if last > usize::MAX as u64 {
                return Err(AssemblerError::ChunkTooLarge);
            }
            last_len = last as usize;
            if chunk_count > 1 {
                if chunk_size > usize::MAX as u64 {
                    return Err(AssemblerError::ChunkTooLarge);
                }
                full_len = chunk_size as usize;
            }
        }
        let mut slots: Vec<Slot> = Vec::new();
        let mut i: u32 = 0;
        while i < chunk_count
            invariant
                i <= chunk_count,
                slots@.len() == i,
                forall|j: int| 0 <= j < i ==> slots@[j] is Waiting,
            decreases chunk_count - i,
        {
            slots.push(Slot::Waiting);
            i = i + 1;
        }
        let a = Assembler { chunk_count, full_len, last_len, slots, completed_count: 0 };
        proof {
            lemma_done_count_full(a@.chunks);
            assert(spec_done_count(a@.chunks) == 0) by {
                lemma_none_done(a@.chunks);
            }
        }
        Ok(a)
    }

    /// Takes one frame and hands back its chunk if the frame completed it.
    ///
    /// A frame for a chunk the transfer does not have changes nothing. A frame that has
    /// arrived before, or lies outside the chunk, is dropped.
    pub fn on_frame(&mut self, header: &FrameHeader, payload: &[u8]) -> (out: Option<
        AssembledChunk,
    >)
        requires
            old(self).wf(),
        ensures
            final(self).wf(),
            final(self)@.full_len == old(self)@.full_len,
            final(self)@.last_len == old(self)@.last_len,
            header.chunk_index >= old(self)@.chunks.len() ==> out is None && final(self)@
                == old(self)@,
            header.chunk_index < old(self)@.chunks.len() ==> {
                let c = header.chunk_index as int;
                let step = spec_deliver(
                    old(self)@.chunks[c],
                    old(self)@.expected_len(c),
                    header.frame_index,
                    header.frame_count,
                    payload@,
                );
                &&& final(self)@.chunks == old(self)@.chunks.update(c, step.0)
                &&& match step.1 {
                    Some(bytes) => out matches Some(chunk) && chunk.chunk_index
                        == header.chunk_index && chunk.data@ == bytes,
                    None => out is None,
                }
            },
    {
        if header.chunk_index >= self.chunk_count {
            return None;
        }
        let cidx: usize = header.chunk_index as usize;
        let ghost before = self@;
        let expected: usize = if header.chunk_index == self.chunk_count - 1 {
            self.last_len
        } else {
            self.full_len
        };
        let mut taken = Slot::Done;
        std::mem::swap(&mut self.slots[cidx], &mut taken);
        assert(taken == old(self).slots@[cidx as int]);
        assert(taken.wf(expected as int));
        let (mut bits, mut buf) = match taken {
            Slot::Done => {
                assert(self.slots@ =~= old(self).slots@);
                assert(self@.chunks =~= before.chunks);
                assert(self@.chunks =~= before.chunks.update(cidx as int, ChunkState::Done));
                return None;
            },
            Slot::Waiting => {
                let bits = ChunkBitfield::new(header.frame_count);
                let buf: Vec<u8> = vec![0u8; expected];
                assert(buf@ =~= Seq::new(expected as nat, |i: int| 0u8));
                (bits, buf)
            },
            Slot::Partial { bits, buf } => (bits, buf),
        };
        let ghost total = bits.spec_total();
        let ghost received = bits@;
        let ghost held = buf@;
        proof {
            bits.lemma_wf();
            assert(spec_deliver(
                before.chunks[cidx as int],
                before.expected_len(cidx as int),
                header.frame_index,
                header.frame_count,
                payload@,
            ) == spec_deliver_into(total, received, held, header.frame_index, payload@));
        }
        let offset: usize = (header.frame_index as usize) * FRAME_PAYLOAD;
        if offset <= buf.len() {
            if bits.set(header.frame_index) {
                let room: usize = buf.len() - offset;
                let n: usize = if payload.len() < room {
                    payload.len()
                } else {
                    room
                };
                put_bytes(buf.as_mut_slice(), offset, vstd::slice::slice_subrange(payload, 0, n));
            }
        }
        proof {
            bits.lemma_wf();
        }
        let ghost step = spec_deliver_into(total, received, held, header.frame_index, payload@);
        if bits.is_complete() {
            proof {
                lemma_done_count_full(before.chunks);
                assert(!(before.chunks[cidx as int] is Done));
            }
            self.completed_count = self.completed_count + 1;
            proof {
                assert(step.0 is Done);
                assert(self@.chunks =~= before.chunks.update(cidx as int, ChunkState::Done));
                lemma_done_count_update(before.chunks, cidx as int, ChunkState::Done);
                lemma_done_count_full(self@.chunks);
                assert forall|i: int| 0 <= i < self.slots@.len() implies (
                #[trigger] self.slots@[i]).wf(self@.expected_len(i)) by {
                    if i != cidx {
                        assert(self.slots@[i] == old(self).slots@[i]);
                        assert(old(self).slots@[i].wf(before.expected_len(i)));
                    }
                }
            }
            Some(AssembledChunk { chunk_index: header.chunk_index, data: buf })
        } else {
            let ghost partial = ChunkState::Partial {
                total: bits.spec_total(),
                received: bits@,
                buf: buf@,
            };
            self.slots[cidx] = Slot::Partial { bits, buf };
            proof {
                assert(step.0 == partial);
                assert(self@.chunks =~= before.chunks.update(cidx as int, partial));
                lemma_done_count_update(before.chunks, cidx as int, partial);
                assert forall|i: int| 0 <= i < self.slots@.len() implies (
                #[trigger] self.slots@[i]).wf(self@.expected_len(i)) by {
                    if i != cidx {
                        assert(self.slots@[i] == old(self).slots@[i]);
                        assert(old(self).slots@[i].wf(before.expected_len(i)));
                    }
                }
            }
            None
        }
    }

    /// The requests for retransmission that are due: one for each chunk of which some but
    /// not all frames have arrived, in ascending order of chunk, each naming the chunk's
    /// lowest missing frames, at most 500 of them.
    pub fn nack_scan(&self) -> (requests: Vec<NackRequest>)
        requires
            self.wf(),
        ensures
            forall|i: int, j: int|
                0 <= i < j < requests@.len() ==> requests@[i].chunk_index
                    < requests@[j].chunk_index,
            forall|i: int|
                0 <= i < requests@.len() ==> spec_nack_due(
                    self@.chunks,
                    (#[trigger] requests@[i]).chunk_index as int,
                    requests@[i].missing_frames@,
                ),
            forall|c: int|
                0 <= c < self@.chunks.len() && spec_wants_nack(self@.chunks[c]) ==> exists|i: int|
                    0 <= i < requests@.len() && (#[trigger] requests@[i]).chunk_index == c,
    {
        let mut requests: Vec<NackRequest> = Vec::new();
        let mut c: u32 = 0;
        while c < self.chunk_count
            invariant
                self.wf(),
                c <= self.chunk_count,
                forall|i: int| 0 <= i < requests@.len() ==> (#[trigger] requests@[i]).chunk_index < c,
                forall|i: int, j: int|
                    0 <= i < j < requests@.len() ==> requests@[i].chunk_index
                        < requests@[j].chunk_index,
                forall|i: int|
                    0 <= i < requests@.len() ==> spec_nack_due(
                        self@.chunks,
                        (#[trigger] requests@[i]).chunk_index as int,
                        requests@[i].missing_frames@,
                    ),
                forall|d: int|
                    0 <= d < c && spec_wants_nack(self@.chunks[d]) ==> exists|i: int|
                        0 <= i < requests@.len() && (#[trigger] requests@[i]).chunk_index == d,
            decreases self.chunk_count - c,
        {
            let ghost prev = requests@;
            match &self.slots[c as usize] {
                Slot::Partial { bits, buf } => {
                    proof {
                        assert(self.slots@[c as int].wf(self@.expected_len(c as int)));
                        bits.lemma_wf();
                    }
                    if bits.received() > 0 {
                        let mut missing = bits.missing_frames();
                        let ghost full = missing@;
                        missing.truncate(NACK_MAX_FRAMES);
                        proof {
                            if full.len() <= NACK_MAX_FRAMES {
                                assert(missing@ =~= full);
                            }
                            lemma_missing_prefix(full, bits@, bits.spec_total(), missing@);
                        }
                        requests.push(NackRequest { chunk_index: c, missing_frames: missing });
                        proof {
                            let last = requests@.len() - 1;
                            assert forall|d: int|
                                0 <= d < c + 1 && spec_wants_nack(
                                    self@.chunks[d],
                                ) implies exists|i: int|
                                0 <= i < requests@.len() && (#[trigger] requests@[i]).chunk_index
                                    == d by {
                                if d < c {
                                    let i = choose|i: int|
                                        0 <= i < prev.len() && (#[trigger] prev[i]).chunk_index
                                            == d;
                                    assert(requests@[i].chunk_index == d);
                                } else {
                                    assert(requests@[last].chunk_index == d);
                                }
                            }
                        }
                    }
                },
                _ => {},
            }
            c = c + 1;
        }
        requests
    }

    /// Number of chunks of the transfer.
    pub fn chunk_count(&self) -> (n: u32)
        requires
            self.wf(),
        ensures
            n == self@.chunks.len(),
    {
        self.chunk_count
    }

    /// Number of chunks handed on so far.
    pub fn completed(&self) -> (n: u32)
        requires
            self.wf(),
        ensures
            n == spec_done_count(self@.chunks),
    {
        self.completed_count
    }

    /// Whether every chunk has been handed on.
    pub fn is_finished(&self) -> (r: bool)
        requires
            self.wf(),
        ensures
            r == (forall|i: int| 0 <= i < self@.chunks.len() ==> self@.chunks[i] is Done),
    {
        proof {
            lemma_done_count_full(self@.chunks);
        }
        self.completed_count >= self.chunk_count
    }
}

/// Where no chunk is finished, the count is zero.
proof fn lemma_none_done(chunks: Seq<ChunkState>)
    requires
        forall|i: int| 0 <= i < chunks.len() ==> !(chunks[i] is Done),
    ensures
        spec_done_count(chunks) == 0,
    decreases chunks.len(),
{
    if chunks.len() > 0 {
        let rest = chunks.drop_last();
        assert forall|i: int| 0 <= i < rest.len() implies !(rest[i] is Done) by {
            assert(!(chunks[i] is Done));
        }
        lemma_none_done(rest);
    }
}

/// What the receiving socket's loop makes of one datagram.
pub enum PacketVerdict {
    /// A frame of this transfer: it goes to the assembler.
    Accept { header: FrameHeader, payload: Vec<u8> },
    /// Shorter than a frame header: dropped.
    TooShort,
    /// A frame of another transfer: counted and dropped.
    WrongTransfer { header: FrameHeader },
}

/// What is owed for the datagram `data` at a receiver of the transfer `transfer_id`.
pub open spec fn spec_verdict_fits(v: PacketVerdict, data: Seq<u8>, transfer_id: Seq<u8>) -> bool {
    match v {
        PacketVerdict::TooShort => data.len() < FRAME_HEADER,
        PacketVerdict::WrongTransfer { header } => {
            &&& spec_header_of(header, data)
            &&& header.transfer_id@ != transfer_id
        },
        PacketVerdict::Accept { header, payload } => {
            &&& spec_header_of(header, data)
            &&& header.transfer_id@ == transfer_id
            &&& payload@ == spec_frame_payload(data)
        },
    }
}

/// A frame as the sender encodes it is accepted by the receiver of its transfer, with the
/// indices and the payload it was encoded from.
pub proof fn lemma_sent_frame_is_accepted(
    v: PacketVerdict,
    transfer_id: Seq<u8>,
    chunk_index: u32,
    frame_index: u16,
    frame_count: u16,
    payload: Seq<u8>,
)
    requires
        transfer_id.len() == 16,
        spec_verdict_fits(
            v,
            spec_frame_bytes(transfer_id, chunk_index, frame_index, frame_count, payload),
            transfer_id,
        ),
    ensures
        v matches PacketVerdict::Accept { header, payload: p } && header.chunk_index
            == chunk_index && header.frame_index == frame_index && header.frame_count
            == frame_count && p@ == payload,
{
    let f = spec_frame_bytes(transfer_id, chunk_index, frame_index, frame_count, payload);
    crate::wire::lemma_be_roundtrip(frame_index, chunk_index, 0);
    crate::wire::lemma_be_roundtrip(frame_count, 0, 0);
    assert(f.subrange(0, 16) =~= transfer_id);
    assert(f.subrange(16, 20) =~= crate::wire::spec_be_u32(chunk_index));
    assert(f.subrange(20, 22) =~= crate::wire::spec_be_u16(frame_index));
    assert(f.subrange(22, 24) =~= crate::wire::spec_be_u16(frame_count));
    assert(spec_frame_payload(f) =~= payload);
}

/// Decides what to do with one datagram.
pub fn classify_packet(data: &[u8], transfer_id: &[u8; 16]) -> (v: PacketVerdict)
    ensures
        spec_verdict_fits(v, data@, transfer_id@),
{
    match decode_frame_header(data) {
        None => PacketVerdict::TooShort,
        Some(header) => {
            if !bytes_eq(header.transfer_id.as_slice(), transfer_id.as_slice()) {
                PacketVerdict::WrongTransfer { header }
            } else {
                let payload = vstd::slice::slice_to_vec(
                    vstd::slice::slice_subrange(data, FRAME_HEADER, data.len()),
                );
                PacketVerdict::Accept { header, payload }
            }
        },
    }
}

/// Frames of another transfer that are reported before the receiver falls silent on them.
pub const MISMATCH_LOG_LIMIT: u64 = 3;

/// Accepted frames between two reports of progress.
pub const PROGRESS_LOG_EVERY: u64 = 10000;

/// What the socket's loop has seen, and whether the last datagram is worth a log line.
pub struct VacuumStats {
    pub frames_received: u64,
    pub frames_rejected: u64,
}

impl VacuumStats {
    /// Counters at zero.
    pub fn new() -> (s: Self)
        ensures
            s.frames_received == 0,
            s.frames_rejected == 0,
    {
        VacuumStats { frames_received: 0, frames_rejected: 0 }
    }

    /// Counts a frame of another transfer; `true` while such frames are still reported, that
    /// is for the first three.
    pub fn note_rejected(&mut self) -> (report: bool)
        requires
            old(self).frames_rejected < u64::MAX,
        ensures
            final(self).frames_rejected == old(self).frames_rejected + 1,
            final(self).frames_received == old(self).frames_received,
            report == (final(self).frames_rejected <= MISMATCH_LOG_LIMIT),
    {
        self.frames_rejected = self.frames_rejected + 1;
        self.frames_rejected <= MISMATCH_LOG_LIMIT
    }

    /// Counts an accepted frame; `true` for the first and for every ten-thousandth, which
    /// are reported.
    pub fn note_accepted(&mut self) -> (report: bool)
        requires
            old(self).frames_received < u64::MAX,
        ensures
            final(self).frames_received == old(self).frames_received + 1,
            final(self).frames_rejected == old(self).frames_rejected,
            report == (final(self).frames_received == 1 || final(self).frames_received
                % PROGRESS_LOG_EVERY == 0),
    {
        self.frames_received = self.frames_received + 1;
        self.frames_received == 1 || self.frames_received % PROGRESS_LOG_EVERY == 0
    }
}

/// Why an assembled chunk is not written.
#[derive(Debug, Clone, Copy, PartialEq, Eq)]
pub enum WriteError {
    /// The chunk's SHA-256 is not the one declared for it, or none was declared.
    HashMismatch,
    /// The chunk would lie beyond what a 64-bit offset can name.
    OffsetOverflow,
}

/// Checks assembled chunks against their declared hashes and says where each is written.
pub struct Writer {
    chunk_size: u64,
    chunk_count: u32,
    chunk_hashes: Vec<String>,
    chunks_written: u32,
    bytes_done: u64,
}

impl Writer {
    /// Bytes of a full chunk.
    pub closed spec fn spec_chunk_size(&self) -> u64 {
        self.chunk_size
    }

    /// Chunks of the transfer.
    pub closed spec fn spec_chunk_count(&self) -> u32 {
        self.chunk_count
    }

    /// The declared hash of each chunk, as hexadecimal text.
    pub closed spec fn spec_hashes(&self) -> Seq<Seq<char>> {
        Seq::new(self.chunk_hashes@.len(), |i: int| self.chunk_hashes@[i]@)
    }

    /// Chunks written so far.
    pub closed spec fn spec_written(&self) -> u32 {
        self.chunks_written
    }

    /// Bytes written so far.
    pub closed spec fn spec_bytes_done(&self) -> u64 {
        self.bytes_done
    }

    /// A writer that has written nothing.
    pub fn new(chunk_size: u64, chunk_count: u32, chunk_hashes: Vec<String>) -> (w: Self)
        ensures
            w.spec_chunk_size() == chunk_size,
            w.spec_chunk_count() == chunk_count,
            w.spec_hashes() == Seq::new(chunk_hashes@.len(), |i: int| chunk_hashes@[i]@),
            w.spec_written() == 0,
            w.spec_bytes_done() == 0,
    {
        Writer { chunk_size, chunk_count, chunk_hashes, chunks_written: 0, bytes_done: 0 }
    }

    /// Chunks written so far.
    pub fn chunks_written(&self) -> (n: u32)
        ensures
            n == self.spec_written(),
    {
        self.chunks_written
    }

    /// Bytes written so far.
    pub fn bytes_done(&self) -> (n: u64)
        ensures
            n == self.spec_bytes_done(),
    {
        self.bytes_done
    }

    /// Whether `chunk` may be written, and at which offset of the file.
    ///
    /// A chunk is written only if its SHA-256 is the one declared for its index; it then
    /// goes to its index times the chunk size.
    pub fn check(&self, chunk: &AssembledChunk) -> (r: Result<u64, WriteError>)
        ensures
            match r {
                Ok(offset) => {
                    &&& chunk.chunk_index < self.spec_hashes().len()
                    &&& self.spec_hashes()[chunk.chunk_index as int] == spec_hex(
                        spec_sha256(chunk.data@),
                    )
                    &&& offset == spec_chunk_offset(
                        chunk.chunk_index as int,
                        self.spec_chunk_size() as int,
                    )
                },
                Err(WriteError::HashMismatch) => chunk.chunk_index >= self.spec_hashes().len()
                    || self.spec_hashes()[chunk.chunk_index as int] != spec_hex(
                    spec_sha256(chunk.data@),
                ),
                Err(WriteError::OffsetOverflow) => {
                    &&& chunk.chunk_index < self.spec_hashes().len()
                    &&& self.spec_hashes()[chunk.chunk_index as int] == spec_hex(
                        spec_sha256(chunk.data@),
                    )
                    &&& spec_chunk_offset(chunk.chunk_index as int, self.spec_chunk_size() as int)
                        > u64::MAX
                },
            },
    {
        let cidx: usize = chunk.chunk_index as usize;
        if cidx >= self.chunk_hashes.len() {
            return Err(WriteError::HashMismatch);
        }
        let actual = sha256_hex(chunk.data.as_slice());
        if actual != self.chunk_hashes[cidx] {
            return Err(WriteError::HashMismatch);
        }
        match chunk_offset(chunk.chunk_index, self.chunk_size) {
            Some(offset) => Ok(offset),
            None => Err(WriteError::OffsetOverflow),
        }
    }

    /// Counts a chunk of `len` bytes as written; `true` once every chunk of the transfer is.
    pub fn record_written(&mut self, len: usize) -> (finished: bool)
        requires
            old(self).spec_written() < u32::MAX,
            old(self).spec_bytes_done() + len <= u64::MAX,
        ensures
            final(self).spec_written() == old(self).spec_written() + 1,
            final(self).spec_bytes_done() == old(self).spec_bytes_done() + len,
            final(self).spec_chunk_size() == old(self).spec_chunk_size(),
            final(self).spec_chunk_count() == old(self).spec_chunk_count(),
            final(self).spec_hashes() == old(self).spec_hashes(),
            finished == (final(self).spec_written() >= final(self).spec_chunk_count()),
    {
        self.chunks_written = self.chunks_written + 1;
        self.bytes_done = self.bytes_done + len as u64;
        self.chunks_written >= self.chunk_count
    }
}

/// Where a receiver stands.
#[derive(Debug, Clone, Copy, PartialEq, Eq, Structural)]
pub enum ReceiverState {
    Idle,
    Receiving,
    Complete,
    Error,
    Cancelled,
}

/// What can move a receiver from one state to another.
#[derive(Debug, Clone, Copy, PartialEq, Eq, Structural)]
pub enum ReceiverSignal {
    /// The host started the transfer, or its first frame arrived.
    Start,
    /// Every chunk is assembled, verified and written.
    AllChunksWritten,
    /// A chunk's hash, or the file's, is not the declared one.
    HashMismatch,
    /// Reading the socket or writing the file failed.
    IoFailure,
    /// The host called the transfer off.
    Cancel,
}

/// The state a signal leads to.
pub open spec fn spec_next_state(state: ReceiverState, signal: ReceiverSignal) -> ReceiverState {
    match (state, signal) {
        (_, ReceiverSignal::Cancel) => ReceiverState::Cancelled,
        (ReceiverState::Idle, ReceiverSignal::Start) => ReceiverState::Receiving,
        (ReceiverState::Receiving, ReceiverSignal::AllChunksWritten) => ReceiverState::Complete,
        (ReceiverState::Receiving, ReceiverSignal::HashMismatch) => ReceiverState::Error,
        (ReceiverState::Receiving, ReceiverSignal::IoFailure) => ReceiverState::Error,
        (s, _) => s,
    }
}

impl ReceiverState {
    /// The number a host reads for this state.
    pub open spec fn spec_code(self) -> u8 {
        match self {
            ReceiverState::Idle => STATE_IDLE,
            ReceiverState::Receiving => STATE_RECEIVING,
            ReceiverState::Complete => STATE_COMPLETE,
            ReceiverState::Error => STATE_ERROR,
            ReceiverState::Cancelled => STATE_CANCELLED,
        }
    }

    /// The number a host reads for this state.
    pub fn code(self) -> (c: u8)
        ensures
            c == self.spec_code(),
    {
        match self {
            ReceiverState::Idle => STATE_IDLE,
            ReceiverState::Receiving => STATE_RECEIVING,
            ReceiverState::Complete => STATE_COMPLETE,
            ReceiverState::Error => STATE_ERROR,
            ReceiverState::Cancelled => STATE_CANCELLED,
        }
    }

    /// The state a host's number stands for, if it stands for one.
    pub fn from_code(code: u8) -> (r: Option<ReceiverState>)
        ensures
            match r {
                Some(s) => s.spec_code() == code,
                None => forall|s: ReceiverState| s.spec_code() != code,
            },
    {
        if code == STATE_IDLE {
            Some(ReceiverState::Idle)
        } else if code == STATE_RECEIVING {
            Some(ReceiverState::Receiving)
        } else if code == STATE_COMPLETE {
            Some(ReceiverState::Complete)
        } else if code == STATE_ERROR {
            Some(ReceiverState::Error)
        } else if code == STATE_CANCELLED {
            Some(ReceiverState::Cancelled)
        } else {
            None
        }
    }

    /// Follows one signal.
    pub fn on_signal(self, signal: ReceiverSignal) -> (next: ReceiverState)
        ensures
            next == spec_next_state(self, signal),
    {
        match signal {
            ReceiverSignal::Cancel => ReceiverState::Cancelled,
            ReceiverSignal::Start => match self {
                ReceiverState::Idle => ReceiverState::Receiving,
                s => s,
            },
            ReceiverSignal::AllChunksWritten => match self {
                ReceiverState::Receiving => ReceiverState::Complete,
                s => s,
            },
            ReceiverSignal::HashMismatch => match self {
                ReceiverState::Receiving => ReceiverState::Error,
                s => s,
            },
            ReceiverSignal::IoFailure => match self {
                ReceiverState::Receiving => ReceiverState::Error,
                s => s,
            },
        }
    }
}

/// Nothing leads out of a finished or failed transfer but the host calling it off, and
/// nothing at all leads out of a transfer that was called off.
pub proof fn lemma_terminal_states(state: ReceiverState, signal: ReceiverSignal)
    ensures
        state == ReceiverState::Cancelled ==> spec_next_state(state, signal)
            == ReceiverState::Cancelled,
        (state == ReceiverState::Complete || state == ReceiverState::Error) && signal
            != ReceiverSignal::Cancel ==> spec_next_state(state, signal) == state,
        spec_next_state(state, signal) == ReceiverState::Complete ==> state
            == ReceiverState::Complete || (state == ReceiverState::Receiving && signal
            == ReceiverSignal::AllChunksWritten),
{
}

} // verus!
