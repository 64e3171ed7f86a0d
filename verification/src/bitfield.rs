//! Which frames of one chunk have arrived, one bit per frame.

use vstd::prelude::*;
use vstd::set_lib::{lemma_int_range, lemma_len_subset, set_int_range};
use crate::protocol::MAX_FRAMES_PER_CHUNK;

verus! {

broadcast use vstd::array::group_array_axioms;

/// 64-bit words of the bit vector.
pub const BITFIELD_WORDS: usize = 47;

/// Frames the bit vector has room for.
pub const BITFIELD_CAPACITY: usize = 3008;

/// The words are enough for every frame of a full chunk.
pub proof fn lemma_capacity_covers_chunk()
    ensures
        BITFIELD_WORDS == (MAX_FRAMES_PER_CHUNK + 63) / 64,
        BITFIELD_CAPACITY == BITFIELD_WORDS * 64,
        MAX_FRAMES_PER_CHUNK <= BITFIELD_CAPACITY,
{
}

/// Bit `b` of `w` is set.
pub open spec fn spec_bit(w: u64, b: u64) -> bool {
    (w >> b) & 1 == 1
}

proof fn lemma_test_bit(w: u64, b: u64)
    requires
        b < 64,
    ensures
        (w & (1u64 << b) != 0) == spec_bit(w, b),
{
    assert((w & (1u64 << b) != 0) == ((w >> b) & 1 == 1)) by (bit_vector)
        requires
            b < 64,
    ;
}

proof fn lemma_set_bit(w: u64, b: u64, c: u64)
    requires
        b < 64,
        c < 64,
    ensures
        spec_bit(w | (1u64 << b), c) == (c == b || spec_bit(w, c)),
{
    assert((((w | (1u64 << b)) >> c) & 1 == 1) == (c == b || ((w >> c) & 1 == 1))) by (bit_vector)
        requires
            b < 64,
            c < 64,
    ;
}

proof fn lemma_zero_has_no_bit(c: u64)
    requires
        c < 64,
    ensures
        !spec_bit(0, c),
{
    assert(!((0u64 >> c) & 1 == 1)) by (bit_vector)
        requires
            c < 64,
    ;
}

/// Receipt record of one chunk: the frames seen so far, out of a declared number.
pub struct ChunkBitfield {
    bits: [u64; BITFIELD_WORDS],
    frame_count: u16,
    received_count: u16,
}

impl View for ChunkBitfield {
    type V = Set<int>;

    /// The indices of the frames recorded as received.
    closed spec fn view(&self) -> Set<int> {
        spec_recorded_set(self.bits@)
    }
}

impl Clone for ChunkBitfield {
    fn clone(&self) -> (r: Self)
        ensures
            r == *self,
    {
        proof {
            use_type_invariant(self);
        }
        ChunkBitfield {
            bits: self.bits,
            frame_count: self.frame_count,
            received_count: self.received_count,
        }
    }
}

/// The frames that have their bit set in `words`.
pub closed spec fn spec_recorded_set(words: Seq<u64>) -> Set<int> {
    Set::new(|k: int| spec_recorded(words, k))
}

/// Frame `k` has its bit set in `words`.
pub closed spec fn spec_recorded(words: Seq<u64>, k: int) -> bool {
    0 <= k < BITFIELD_CAPACITY && spec_bit(words[k / 64], (k % 64) as u64)
}

/// The frames below `n` that are not in `received`.
pub open spec fn spec_missing(received: Set<int>, n: int) -> Set<int> {
    Set::new(|k: int| 0 <= k < n && !received.contains(k))
}

/// `s` lists its elements in strictly ascending order.
pub open spec fn spec_ascending(s: Seq<u16>) -> bool {
    forall|i: int, j: int| 0 <= i < j < s.len() ==> s[i] < s[j]
}

impl ChunkBitfield {
    /// Declared number of frames of the chunk.
    pub closed spec fn spec_total(&self) -> u16 {
        self.frame_count
    }

    /// Number of frames recorded.
    pub closed spec fn spec_received(&self) -> u16 {
        self.received_count
    }

    /// The record is consistent: every recorded frame is one the chunk has and the bit vector
    /// has room for, and the counter is the number of recorded frames.
    #[verifier::type_invariant]
    pub closed spec fn wf(&self) -> bool {
        &&& self@.finite()
        &&& self@.len() == self.received_count
        &&& forall|k: int| self@.contains(k) ==> k < self.frame_count
    }

    /// What consistency means to a caller.
    pub proof fn lemma_wf(&self)
        requires
            self.wf(),
        ensures
            self@.finite(),
            self@.len() == self.spec_received(),
            self.spec_received() <= self.spec_total(),
            forall|k: int| self@.contains(k) ==> 0 <= k < self.spec_total() && k < BITFIELD_CAPACITY,
            spec_missing(self@, self.spec_total() as int).finite(),
            spec_missing(self@, self.spec_total() as int).len() == self.spec_total()
                - self.spec_received(),
    {
        let n = self.frame_count as int;
        let all = set_int_range(0, n);
        lemma_int_range(0, n);
        assert(self@.subset_of(all));
        lemma_len_subset(self@, all);
        let miss = spec_missing(self@, n);
        assert(miss =~= all.difference(self@));
        assert(all.intersect(self@) =~= self@);
        vstd::set_lib::lemma_set_difference_len(all, self@);
    }

    /// A record of `frame_count` frames, none of them received.
    pub fn new(frame_count: u16) -> (r: Self)
        ensures
            r.wf(),
            r@ == Set::<int>::empty(),
            r.spec_total() == frame_count,
            r.spec_received() == 0,
    {
        let bits: [u64; BITFIELD_WORDS] = [0u64; BITFIELD_WORDS];
        proof {
            assert forall|k: int| !spec_recorded(bits@, k) by {
                if 0 <= k < BITFIELD_CAPACITY {
                    lemma_zero_has_no_bit((k % 64) as u64);
                }
            }
            assert(spec_recorded_set(bits@) =~= Set::<int>::empty());
        }
        ChunkBitfield { bits, frame_count, received_count: 0 }
    }

    /// Records frame `frame_index`; `true` exactly when this call recorded it.
    ///
    /// An index the chunk does not have, or the bit vector has no room for, is ignored, and
    /// so is a frame recorded before.
    pub fn set(&mut self, frame_index: u16) -> (was_new: bool)
        ensures
            final(self).wf(),
            was_new == (frame_index < old(self).spec_total() && frame_index < BITFIELD_CAPACITY
                && !old(self)@.contains(frame_index as int)),
            final(self)@ == if was_new {
                old(self)@.insert(frame_index as int)
            } else {
                old(self)@
            },
            final(self).spec_total() == old(self).spec_total(),
            final(self).spec_received() == old(self).spec_received() + if was_new {
                1int
            } else {
                0int
            },
    {
        proof {
            use_type_invariant(&*self);
            self.lemma_wf();
        }
        let idx: usize = frame_index as usize;
        let word: usize = idx / 64;
        let bit: u64 = (idx % 64) as u64;
        if word >= BITFIELD_WORDS || frame_index >= self.frame_count {
            return false;
        }
        let mask: u64 = 1u64 << bit;
        proof {
            lemma_test_bit(self.bits[word as int], bit);
        }
        if self.bits[word] & mask != 0 {
            return false;
        }
        let mut bits: [u64; BITFIELD_WORDS] = self.bits;
        bits[word] = bits[word] | mask;
        proof {
            let before = self.bits@;
            assert forall|k: int|
                spec_recorded(bits@, k) == (k == idx || spec_recorded(before, k)) by {
                if 0 <= k < BITFIELD_CAPACITY {
                    if k / 64 == word {
                        lemma_set_bit(before[word as int], bit, (k % 64) as u64);
                    }
                }
            }
            let a = spec_recorded_set(bits@);
            let b = self@.insert(idx as int);
            assert forall|k: int| a.contains(k) == b.contains(k) by {
                assert(a.contains(k) == spec_recorded(bits@, k));
                assert(self@.contains(k) == spec_recorded(before, k));
                assert(b.contains(k) == (k == idx || self@.contains(k)));
            }
            assert(a =~= b);
            let all = set_int_range(0, self.frame_count as int);
            lemma_int_range(0, self.frame_count as int);
            assert(b.subset_of(all));
            lemma_len_subset(b, all);
        }
        *self = ChunkBitfield {
            bits,
            frame_count: self.frame_count,
            received_count: self.received_count + 1,
        };
        true
    }

    /// Whether frame `frame_index` is recorded.
    pub fn get(&self, frame_index: u16) -> (r: bool)
        ensures
            r == self@.contains(frame_index as int),
    {
        let idx: usize = frame_index as usize;
        let word: usize = idx / 64;
        let bit: u64 = (idx % 64) as u64;
        if word >= BITFIELD_WORDS {
            return false;
        }
        proof {
            lemma_test_bit(self.bits[word as int], bit);
        }
        self.bits[word] & (1u64 << bit) != 0
    }

    /// Whether every frame of the chunk is recorded.
    pub fn is_complete(&self) -> (r: bool)
        ensures
            r == (self.spec_received() == self.spec_total()),
            r == (self.spec_total() <= BITFIELD_CAPACITY && forall|k: int|
                0 <= k < self.spec_total() ==> self@.contains(k)),
    {
        proof {
            use_type_invariant(self);
            self.lemma_wf();
            let n = self.frame_count as int;
            let miss = spec_missing(self@, n);
            if self.received_count == self.frame_count {
                assert(miss.len() == 0);
                assert forall|k: int| 0 <= k < n implies self@.contains(k) by {
                    if !self@.contains(k) {
                        assert(miss.contains(k));
                    }
                }
                if n > BITFIELD_CAPACITY {
                    assert(self@.contains(BITFIELD_CAPACITY as int));
                }
            } else {
                if n <= BITFIELD_CAPACITY && (forall|k: int| 0 <= k < n ==> self@.contains(k)) {
                    assert(miss =~= Set::<int>::empty());
                }
            }
        }
        self.received_count >= self.frame_count
    }

    /// Number of frames recorded.
    pub fn received(&self) -> (r: u16)
        ensures
            r == self.spec_received(),
            r == self@.len(),
    {
        proof {
            use_type_invariant(self);
        }
        self.received_count
    }

    /// Declared number of frames of the chunk.
    pub fn total(&self) -> (r: u16)
        ensures
            r == self.spec_total(),
    {
        self.frame_count
    }

    /// The frames not yet recorded, in ascending order.
    pub fn missing_frames(&self) -> (missing: Vec<u16>)
        ensures
            spec_ascending(missing@),
            forall|k: u16|
                k < self.spec_total() ==> (missing@.contains(k) <==> !self@.contains(k as int)),
            forall|i: int| 0 <= i < missing@.len() ==> missing@[i] < self.spec_total(),
            missing@.len() == self.spec_total() - self.spec_received(),
    {
        let mut missing: Vec<u16> = Vec::new();
        let mut i: u16 = 0;
        proof {
            use_type_invariant(self);
            self.lemma_wf();
            assert(spec_missing(self@, 0) =~= Set::<int>::empty());
        }
        while i < self.frame_count
            invariant
                i <= self.frame_count,
                spec_ascending(missing@),
                forall|j: int| 0 <= j < missing@.len() ==> missing@[j] < i,
                forall|k: u16| k < i ==> (missing@.contains(k) <==> !self@.contains(k as int)),
                spec_missing(self@, i as int).finite(),
                missing@.len() == spec_missing(self@, i as int).len(),
            decreases self.frame_count - i,
        {
            let ghost prev = missing@;
            let recorded = self.get(i);
            if !recorded {
                missing.push(i);
            }
            proof {
                let before = spec_missing(self@, i as int);
                let after = spec_missing(self@, i + 1);
                if recorded {
                    assert(after =~= before);
                    assert forall|k: u16| k < i + 1 implies (missing@.contains(k)
                        <==> !self@.contains(k as int)) by {
                        if k == i && missing@.contains(k) {
                            let j = choose|j: int| 0 <= j < missing@.len() && missing@[j] == k;
                            assert(missing@[j] < i);
                        }
                    }
                } else {
                    assert(after =~= before.insert(i as int));
                    assert(missing@[prev.len() as int] == i);
                    assert forall|k: u16| k < i + 1 implies (missing@.contains(k)
                        <==> !self@.contains(k as int)) by {
                        if k < i {
                            if prev.contains(k) {
                                let j = choose|j: int| 0 <= j < prev.len() && prev[j] == k;
                                assert(missing@[j] == k);
                            }
                            if missing@.contains(k) {
                                let j = choose|j: int| 0 <= j < missing@.len() && missing@[j] == k;
                                assert(j < prev.len());
                                assert(prev[j] == k);
                            }
                        }
                    }
                }
            }
            i = i + 1;
        }
        missing
    }

    /// Number of frames not yet recorded.
    pub fn missing_count(&self) -> (r: u16)
        ensures
            r == self.spec_total() - self.spec_received(),
            r == spec_missing(self@, self.spec_total() as int).len(),
    {
        proof {
            use_type_invariant(self);
            self.lemma_wf();
        }
        self.frame_count - self.received_count
    }

    /// Forgets every frame and declares `frame_count` frames anew.
    pub fn reset(&mut self, frame_count: u16)
        ensures
            final(self).wf(),
            final(self)@ == Set::<int>::empty(),
            final(self).spec_total() == frame_count,
            final(self).spec_received() == 0,
    {
        *self = ChunkBitfield::new(frame_count);
    }
}

} // verus!
