//! The sender's retransmit cache: the sealed chunks sent last, kept until the receiver
//! has acknowledged them.

use vstd::prelude::*;
use std::collections::{HashMap, HashSet};
use crate::protocol::SENDER_CACHE_SIZE;

verus! {

broadcast use vstd::std_specs::hash::group_hash_axioms;

/// `from` chunks at the front of `stored` may leave, and no more: each is acknowledged and
/// stands in front of more than the cache keeps, and what comes behind them is not
/// acknowledged, or the cache is no longer over its size.
pub open spec fn spec_evicted(stored: Seq<u32>, acked: Set<u32>, from: int) -> bool {
    &&& 0 <= from <= stored.len()
    &&& forall|i: int|
        0 <= i < from ==> acked.contains(#[trigger] stored[i]) && stored.len() - i
            > SENDER_CACHE_SIZE
    &&& (stored.len() - from <= SENDER_CACHE_SIZE || !acked.contains(stored[from]))
}

/// How many chunks leave the front of `stored`: the front goes while it is acknowledged
/// and the cache holds more than it keeps.
pub open spec fn spec_evictions(stored: Seq<u32>, acked: Set<u32>) -> int
    decreases stored.len(),
{
    if stored.len() > SENDER_CACHE_SIZE && acked.contains(stored[0]) {
        1 + spec_evictions(stored.drop_first(), acked)
    } else {
        0
    }
}

/// What is left of `stored` once the cache has made room.
pub open spec fn spec_after_eviction(stored: Seq<u32>, acked: Set<u32>) -> Seq<u32> {
    stored.subrange(spec_evictions(stored, acked), stored.len() as int)
}

/// The order of the cached chunks once chunk `k` is stored: as before if the cache held
/// it, else with `k` as the newest.
pub open spec fn spec_stored(order: Seq<u32>, held: bool, k: u32) -> Seq<u32> {
    if held {
        order
    } else {
        order.push(k)
    }
}

/// Sealed chunks by index, with the order they came in and the set of acknowledged
/// indices.
pub struct RetransmitCache {
    entries: HashMap<u32, Vec<u8>>,
    order: Vec<u32>,
    acked: HashSet<u32>,
}

impl RetransmitCache {
    /// Whether chunk `k` is in the cache.
    pub closed spec fn spec_holds(&self, k: u32) -> bool {
        self.entries@.contains_key(k)
    }

    /// The sealed bytes of chunk `k`, if the cache holds it.
    pub closed spec fn spec_data(&self, k: u32) -> Seq<u8> {
        self.entries@[k]@
    }

    /// The indices of the cached chunks, oldest first.
    pub closed spec fn spec_order(&self) -> Seq<u32> {
        self.order@
    }

    /// The indices acknowledged so far.
    pub closed spec fn spec_acked(&self) -> Set<u32> {
        self.acked@
    }

    /// The cache is consistent: the order names each cached chunk once, and nothing else.
    pub closed spec fn wf(&self) -> bool {
        &&& self.order@.no_duplicates()
        &&& forall|k: u32| self.entries@.contains_key(k) <==> self.order@.contains(k)
    }

    /// What consistency means to a caller.
    pub proof fn lemma_wf(&self)
        requires
            self.wf(),
        ensures
            self.spec_order().no_duplicates(),
            forall|k: u32| self.spec_holds(k) <==> self.spec_order().contains(k),
    {
    }

    /// An empty cache with nothing acknowledged.
    pub fn new() -> (c: Self)
        ensures
            c.wf(),
            c.spec_order() == Seq::<u32>::empty(),
            c.spec_acked() == Set::<u32>::empty(),
    {
        RetransmitCache { entries: HashMap::new(), order: Vec::new(), acked: HashSet::new() }
    }

    /// Number of chunks in the cache.
    pub fn len(&self) -> (n: usize)
        ensures
            n == self.spec_order().len(),
    {
        self.order.len()
    }

    /// The sealed bytes of chunk `k`, if the cache holds it.
    pub fn get(&self, k: u32) -> (r: Option<&Vec<u8>>)
        ensures
            match r {
                Some(data) => self.spec_holds(k) && data@ == self.spec_data(k),
                None => !self.spec_holds(k),
            },
    {
        self.entries.get(&k)
    }

    /// Records that the receiver has acknowledged chunk `k`; `true` the first time.
    pub fn ack(&mut self, k: u32) -> (first: bool)
        requires
            old(self).wf(),
        ensures
            final(self).wf(),
            final(self).spec_acked() == old(self).spec_acked().insert(k),
            first == !old(self).spec_acked().contains(k),
            final(self).spec_order() == old(self).spec_order(),
            forall|j: u32| final(self).spec_holds(j) == old(self).spec_holds(j),
            forall|j: u32| final(self).spec_data(j) == old(self).spec_data(j),
    {
        self.acked.insert(k)
    }

    /// Whether chunk `k` has been acknowledged.
    pub fn is_acked(&self, k: u32) -> (r: bool)
        ensures
            r == self.spec_acked().contains(k),
    {
        self.acked.contains(&k)
    }

    /// Number of chunks acknowledged.
    pub fn acked_count(&self) -> (n: usize)
        ensures
            n == self.spec_acked().len(),
    {
        self.acked.len()
    }

    /// Puts chunk `k` into the cache, then makes room.
    ///
    /// While the cache holds more than eight chunks, the oldest leaves, but only if it has
    /// been acknowledged: an unacknowledged chunk in front keeps everything behind it. A
    /// chunk that is already cached keeps its place and gets the new bytes.
    pub fn insert(&mut self, k: u32, data: Vec<u8>)
        requires
            old(self).wf(),
        ensures
            final(self).wf(),
            final(self).spec_acked() == old(self).spec_acked(),
            final(self).spec_order() == spec_after_eviction(
                spec_stored(old(self).spec_order(), old(self).spec_holds(k), k),
                old(self).spec_acked(),
            ),
            forall|j: u32|
                final(self).spec_holds(j) ==> final(self).spec_data(j) == if j == k {
                    data@
                } else {
                    old(self).spec_data(j)
                },
            forall|j: u32|
                old(self).spec_holds(j) && !final(self).spec_holds(j) ==> old(
                    self,
                ).spec_acked().contains(j),
    {
        let ghost data_view = data@;
        if self.entries.contains_key(&k) {
            self.entries.insert(k, data);
        } else {
            self.entries.insert(k, data);
            self.order.push(k);
            proof {
                let o = old(self).order@;
                assert(!o.contains(k));
                assert forall|i: int, j: int|
                    0 <= i < self.order@.len() && 0 <= j < self.order@.len() && i
                        != j implies self.order@[i] != self.order@[j] by {
                    if i < o.len() {
                        assert(o.contains(o[i]));
                    }
                    if j < o.len() {
                        assert(o.contains(o[j]));
                    }
                }
                assert forall|x: u32| self.entries@.contains_key(x) <==> self.order@.contains(
                    x,
                ) by {
                    if o.contains(x) {
                        let i = choose|i: int| 0 <= i < o.len() && o[i] == x;
                        assert(self.order@[i] == x);
                    }
                    if x == k {
                        assert(self.order@[o.len() as int] == k);
                    }
                }
            }
        }
        let ghost stored = self.order@;
        let ghost filled = self.entries@;
        let ghost mut evicted: int = 0;
        proof {
            assert(stored.subrange(0, stored.len() as int) =~= stored);
        }
        let mut more: bool = self.order.len() > SENDER_CACHE_SIZE && self.acked.contains(
            &self.order[0],
        );
        while more
            invariant
                self.acked@ == old(self).acked@,
                self.wf(),
                stored == spec_stored(old(self).order@, old(self).entries@.contains_key(k), k),
                filled == old(self).entries@.insert(k, filled[k]),
                filled[k]@ == data_view,
                0 <= evicted <= stored.len(),
                self.order@ == stored.subrange(evicted, stored.len() as int),
                more == (self.order@.len() > SENDER_CACHE_SIZE && self.acked@.contains(
                    self.order@[0],
                )),
                spec_evictions(stored, self.acked@) == evicted + spec_evictions(
                    self.order@,
                    self.acked@,
                ),
                forall|j: u32|
                    #[trigger] self.entries@.contains_key(j) ==> filled.contains_key(j)
                        && self.entries@[j] == filled[j],
                forall|j: u32|
                    #[trigger] filled.contains_key(j) && !self.entries@.contains_key(j)
                        ==> self.acked@.contains(j),
            decreases self.order@.len(),
        {
            let head: u32 = self.order[0];
            let ghost before = self.order@;
            let ghost entries_before = self.entries@;
            self.entries.remove(&head);
            self.order.remove(0);
            proof {
                assert(self.entries@ == entries_before.remove(head));
                assert(self.order@ =~= before.drop_first());
                assert forall|x: u32| self.entries@.contains_key(x) <==> self.order@.contains(
                    x,
                ) by {
                    if before.contains(x) && x != head {
                        let i = choose|i: int| 0 <= i < before.len() && before[i] == x;
                        assert(self.order@[i - 1] == x);
                    }
                    if self.order@.contains(x) {
                        let i = choose|i: int| 0 <= i < self.order@.len() && self.order@[i] == x;
                        assert(before[i + 1] == x);
                        assert(before.contains(x));
                        assert(before[0] == head);
                    }
                }
                assert forall|j: u32| #[trigger]
                    self.entries@.contains_key(j) implies filled.contains_key(j)
                    && self.entries@[j] == filled[j] by {
                    assert(entries_before.contains_key(j));
                }
                assert forall|j: u32| #[trigger]
                    filled.contains_key(j) && !self.entries@.contains_key(j)
                    implies self.acked@.contains(j) by {
                    if j != head {
                        assert(!entries_before.contains_key(j));
                    }
                }
                evicted = evicted + 1;
                assert(self.order@ =~= stored.subrange(evicted, stored.len() as int));
            }
            more = self.order.len() > SENDER_CACHE_SIZE && self.acked.contains(&self.order[0]);
        }
        proof {
            assert(spec_evictions(self.order@, self.acked@) == 0);
            assert forall|j: u32| self.spec_holds(j) implies self.spec_data(j) == if j == k {
                data_view
            } else {
                old(self).spec_data(j)
            } by {
                assert(filled.contains_key(j));
            }
            assert forall|j: u32| old(self).spec_holds(j) && !self.spec_holds(j) implies old(
                self,
            ).spec_acked().contains(j) by {
                assert(filled.contains_key(j));
            }
        }
    }
}

/// A chunk leaves the cache only after it was acknowledged; while an unacknowledged chunk
/// is the oldest, nothing leaves at all; and room is made only while the cache holds more
/// than it keeps.
pub proof fn lemma_eviction_waits_for_ack(stored: Seq<u32>, acked: Set<u32>)
    ensures
        spec_evicted(stored, acked, spec_evictions(stored, acked)),
        stored.len() > 0 && !acked.contains(stored[0]) ==> spec_evictions(stored, acked) == 0,
        stored.len() <= SENDER_CACHE_SIZE ==> spec_evictions(stored, acked) == 0,
    decreases stored.len(),
{
    if stored.len() > SENDER_CACHE_SIZE && acked.contains(stored[0]) {
        let rest = stored.drop_first();
        lemma_eviction_waits_for_ack(rest, acked);
        let n = spec_evictions(rest, acked);
        assert forall|i: int| 0 <= i < n + 1 implies acked.contains(#[trigger] stored[i])
            && stored.len() - i > SENDER_CACHE_SIZE by {
            if i > 0 {
                assert(stored[i] == rest[i - 1]);
                assert(acked.contains(rest[i - 1]));
            }
        }
        if n < rest.len() {
            assert(rest[n] == stored[n + 1]);
        }
    }
}

} // verus!
