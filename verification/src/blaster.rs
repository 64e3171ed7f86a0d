//! The blaster's bookkeeping: what it has sent and cached, what has been acknowledged, and
//! what it answers to the control channel. The socket is someone else's; this is what
//! the socket's owner consults.

use vstd::prelude::*;
use crate::cache::{spec_after_eviction, spec_stored, RetransmitCache};
use crate::control::{plan_retransmit, ChunkAckMessage, NackMessage, NackResponse};
use crate::sender::{
    drain_finished, loss_is_high, spec_frame_count_field, spec_resendable, DRAIN_SECONDS,
};

verus! {

/// What the blaster does about a request for retransmission.
pub enum NackOutcome {
    /// The chunk is no longer cached: the request is ignored.
    Ignored,
    /// Send `frames` of the chunk again. `slow_down` says that more than a tenth of the
    /// chunk's frames were named missing, which calls for a lower rate.
    Resend { frame_count: u16, frames: Vec<u16>, slow_down: bool },
}

/// The state of the blaster between two sends.
pub struct Blaster {
    cache: RetransmitCache,
    chunks_sent: u32,
    chunks_complete: u64,
    retransmits: u64,
}

impl Blaster {
    /// The retransmit cache.
    pub closed spec fn spec_cache(&self) -> RetransmitCache {
        self.cache
    }

    /// One more than the highest chunk index sent, or zero if none was.
    pub closed spec fn spec_chunks_sent(&self) -> u32 {
        self.chunks_sent
    }

    /// Chunks acknowledged, each counted once.
    pub closed spec fn spec_chunks_complete(&self) -> u64 {
        self.chunks_complete
    }

    /// Frames named in requests that were answered.
    pub closed spec fn spec_retransmits(&self) -> u64 {
        self.retransmits
    }

    /// The state is consistent.
    pub closed spec fn wf(&self) -> bool {
        self.cache.wf()
    }

    /// A blaster that has sent nothing.
    pub fn new() -> (b: Self)
        ensures
            b.wf(),
            b.spec_cache().spec_order() == Seq::<u32>::empty(),
            b.spec_cache().spec_acked() == Set::<u32>::empty(),
            b.spec_chunks_sent() == 0,
            b.spec_chunks_complete() == 0,
            b.spec_retransmits() == 0,
    {
        Blaster { cache: RetransmitCache::new(), chunks_sent: 0, chunks_complete: 0, retransmits: 0 }
    }

    /// The cached bytes of chunk `k`, if they are still there.
    pub fn cached(&self, k: u32) -> (r: Option<&Vec<u8>>)
        ensures
            match r {
                Some(data) => self.spec_cache().spec_holds(k) && data@
                    == self.spec_cache().spec_data(k),
                None => !self.spec_cache().spec_holds(k),
            },
    {
        self.cache.get(k)
    }

    /// Chunks acknowledged, each counted once.
    pub fn chunks_complete(&self) -> (n: u64)
        ensures
            n == self.spec_chunks_complete(),
    {
        self.chunks_complete
    }

    /// Frames named in requests that were answered.
    pub fn retransmits(&self) -> (n: u64)
        ensures
            n == self.spec_retransmits(),
    {
        self.retransmits
    }

    /// Takes a sealed chunk that is about to be sent: it goes into the cache, from which
    /// acknowledged chunks at the front make room.
    pub fn on_chunk(&mut self, chunk_index: u32, data: Vec<u8>)
        requires
            old(self).wf(),
        ensures
            final(self).wf(),
            final(self).spec_cache().spec_acked() == old(self).spec_cache().spec_acked(),
            final(self).spec_chunks_complete() == old(self).spec_chunks_complete(),
            final(self).spec_retransmits() == old(self).spec_retransmits(),
            final(self).spec_chunks_sent() == if chunk_index < u32::MAX && chunk_index + 1 > old(
                self,
            ).spec_chunks_sent() {
                (chunk_index + 1) as u32
            } else {
                old(self).spec_chunks_sent()
            },
            final(self).spec_cache().spec_order() == spec_after_eviction(
                spec_stored(
                    old(self).spec_cache().spec_order(),
                    old(self).spec_cache().spec_holds(chunk_index),
                    chunk_index,
                ),
                old(self).spec_cache().spec_acked(),
            ),
            forall|j: u32|
                final(self).spec_cache().spec_holds(j) ==> final(self).spec_cache().spec_data(j)
                    == if j == chunk_index {
                    data@
                } else {
                    old(self).spec_cache().spec_data(j)
                },
    {
        self.cache.insert(chunk_index, data);
        if chunk_index < u32::MAX && chunk_index + 1 > self.chunks_sent {
            self.chunks_sent = chunk_index + 1;
        }
    }

    /// Answers a request for retransmission.
    ///
    /// The same request may come any number of times; each time it is answered the same
    /// way, and nothing but the count of retransmitted frames changes.
    pub fn on_nack(&mut self, nack: &NackMessage) -> (r: NackOutcome)
        requires
            old(self).wf(),
        ensures
            final(self).wf(),
            final(self).spec_cache() == old(self).spec_cache(),
            final(self).spec_chunks_sent() == old(self).spec_chunks_sent(),
            final(self).spec_chunks_complete() == old(self).spec_chunks_complete(),
            match r {
                NackOutcome::Ignored => {
                    &&& !old(self).spec_cache().spec_holds(nack.chunk_index)
                        || old(self).spec_cache().spec_data(nack.chunk_index).len() + 1399
                        > usize::MAX
                    &&& final(self).spec_retransmits() == old(self).spec_retransmits()
                },
                NackOutcome::Resend { frame_count, frames, slow_down } => {
                    let len = old(self).spec_cache().spec_data(nack.chunk_index).len() as int;
                    &&& old(self).spec_cache().spec_holds(nack.chunk_index)
                    &&& frame_count == spec_frame_count_field(len)
                    &&& frames@ == nack.missing_frames@.filter(
                        |k: u16| spec_resendable(k, frame_count, len),
                    )
                    &&& slow_down == (nack.missing_frames@.len() * 10 > frame_count)
                    &&& final(self).spec_retransmits() == if old(self).spec_retransmits()
                        + nack.missing_frames@.len() > u64::MAX {
                        u64::MAX
                    } else {
                        (old(self).spec_retransmits() + nack.missing_frames@.len()) as u64
                    }
                },
            },
    {
        match plan_retransmit(&self.cache, nack) {
            NackResponse::NotCached => NackOutcome::Ignored,
            NackResponse::Resend { frame_count, frames } => {
                let named: usize = nack.missing_frames.len();
                self.retransmits = self.retransmits.saturating_add(named as u64);
                NackOutcome::Resend {
                    frame_count,
                    frames,
                    slow_down: loss_is_high(named, frame_count),
                }
            },
        }
    }

    /// Takes an acknowledgement; `true` the first time a chunk is acknowledged, which is
    /// when it counts.
    pub fn on_ack(&mut self, ack: ChunkAckMessage) -> (first: bool)
        requires
            old(self).wf(),
        ensures
            final(self).wf(),
            first == !old(self).spec_cache().spec_acked().contains(ack.chunk_index),
            final(self).spec_cache().spec_acked() == old(self).spec_cache().spec_acked().insert(
                ack.chunk_index,
            ),
            final(self).spec_cache().spec_order() == old(self).spec_cache().spec_order(),
            forall|j: u32|
                final(self).spec_cache().spec_holds(j) == old(self).spec_cache().spec_holds(j),
            forall|j: u32|
                final(self).spec_cache().spec_data(j) == old(self).spec_cache().spec_data(j),
            final(self).spec_chunks_sent() == old(self).spec_chunks_sent(),
            final(self).spec_retransmits() == old(self).spec_retransmits(),
            final(self).spec_chunks_complete() == if first && old(self).spec_chunks_complete()
                < u64::MAX {
                (old(self).spec_chunks_complete() + 1) as u64
            } else {
                old(self).spec_chunks_complete()
            },
    {
        let first = self.cache.ack(ack.chunk_index);
        if first && self.chunks_complete < u64::MAX {
            self.chunks_complete = self.chunks_complete + 1;
        }
        first
    }

    /// Whether the blaster may stop answering after its last chunk: as many chunks are
    /// acknowledged as were sent, or sixty seconds have passed.
    pub fn drained(&self, elapsed_ms: u64) -> (done: bool)
        ensures
            done == (self.spec_cache().spec_acked().len() >= self.spec_chunks_sent() || elapsed_ms
                >= DRAIN_SECONDS * 1000),
    {
        drain_finished(self.cache.acked_count(), self.chunks_sent, elapsed_ms)
    }
}

/// An acknowledgement that is delivered twice leaves the blaster as one delivery does.
pub proof fn lemma_ack_idempotent(acked: Set<u32>, k: u32)
    ensures
        acked.insert(k).insert(k) == acked.insert(k),
        acked.insert(k).contains(k),
{
    assert(acked.insert(k).insert(k) =~= acked.insert(k));
}

} // verus!
