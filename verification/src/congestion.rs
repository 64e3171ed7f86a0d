//! The congestion signal of the delay-based controller: the round-trip baseline over a
//! sliding window, and the queuing delay measured against it.
//!
//! The rate update itself is floating-point arithmetic and lives with the program that
//! paces the socket; it reads its signal from here.

use vstd::prelude::*;
use std::collections::VecDeque;

verus! {

/// Milliseconds of history the baseline is taken over, unless configured otherwise.
pub const DEFAULT_MIN_RTT_WINDOW_MS: u64 = 10_000;

/// Milliseconds between two rate updates, unless configured otherwise.
pub const DEFAULT_UPDATE_INTERVAL_MS: u64 = 50;

/// One round-trip measurement.
#[derive(Debug, Clone, Copy, PartialEq, Eq, Structural)]
pub struct RttSample {
    /// The round trip, in microseconds.
    pub rtt_us: u64,
    /// When it was measured, in milliseconds on the controller's clock.
    pub time_ms: u64,
}

/// `m` is the least round trip among `samples`.
pub open spec fn spec_is_min_rtt(m: u64, samples: Seq<RttSample>) -> bool {
    &&& exists|i: int| 0 <= i < samples.len() && samples[i].rtt_us == m
    &&& forall|i: int| 0 <= i < samples.len() ==> m <= samples[i].rtt_us
}

/// How many samples at the front of `samples` were measured before `start`.
pub open spec fn spec_stale_front(samples: Seq<RttSample>, start: u64) -> int
    decreases samples.len(),
{
    if samples.len() == 0 || samples[0].time_ms >= start {
        0
    } else {
        1 + spec_stale_front(samples.drop_first(), start)
    }
}

/// The round-trip samples of the last window, oldest first, and their minimum.
pub struct RttWindow {
    window_ms: u64,
    history: VecDeque<RttSample>,
    min_rtt: Option<u64>,
}

impl RttWindow {
    /// The samples in the window, oldest first.
    pub closed spec fn view(&self) -> Seq<RttSample> {
        self.history@
    }

    /// Milliseconds of history the window keeps.
    pub closed spec fn spec_window_ms(&self) -> u64 {
        self.window_ms
    }

    /// The baseline on record.
    pub closed spec fn spec_min_rtt(&self) -> Option<u64> {
        self.min_rtt
    }

    /// The baseline on record is the minimum over the window's samples.
    pub closed spec fn wf(&self) -> bool {
        match self.min_rtt {
            None => self.history@.len() == 0,
            Some(m) => spec_is_min_rtt(m, self.history@),
        }
    }

    /// What consistency means to a caller.
    pub proof fn lemma_wf(&self)
        requires
            self.wf(),
        ensures
            match self.spec_min_rtt() {
                None => self@.len() == 0,
                Some(m) => spec_is_min_rtt(m, self@),
            },
    {
    }

    /// An empty window of `window_ms` milliseconds.
    pub fn new(window_ms: u64) -> (w: Self)
        ensures
            w.wf(),
            w@ == Seq::<RttSample>::empty(),
            w.spec_window_ms() == window_ms,
            w.spec_min_rtt() is None,
    {
        RttWindow { window_ms, history: VecDeque::new(), min_rtt: None }
    }

    /// Takes a measurement made at `now_ms`: the sample joins the window, the samples at
    /// the front that are older than the window leave it, and the baseline is taken anew.
    pub fn on_rtt_sample(&mut self, rtt_us: u64, now_ms: u64)
        requires
            old(self).wf(),
        ensures
            final(self).wf(),
            final(self).spec_window_ms() == old(self).spec_window_ms(),
            ({
                let start = if now_ms >= old(self).spec_window_ms() {
                    (now_ms - old(self).spec_window_ms()) as u64
                } else {
                    0
                };
                let all = old(self)@.push(RttSample { rtt_us, time_ms: now_ms });
                final(self)@ == all.subrange(spec_stale_front(all, start), all.len() as int)
            }),
            final(self).spec_min_rtt() is Some,
    {
        self.history.push_back(RttSample { rtt_us, time_ms: now_ms });
        let start: u64 = now_ms.saturating_sub(self.window_ms);
        let ghost all = self.history@;
        let ghost dropped: int = 0;
        proof {
            assert(all.subrange(0, all.len() as int) =~= all);
        }
        while self.history.len() > 0 && self.history[0].time_ms < start
            invariant
                self.window_ms == old(self).window_ms,
                0 <= dropped < all.len(),
                all.len() > 0,
                all.last().time_ms >= start,
                self.history@ == all.subrange(dropped, all.len() as int),
                spec_stale_front(all, start) == dropped + spec_stale_front(self.history@, start),
            decreases self.history@.len(),
        {
            let ghost before = self.history@;
            proof {
                if dropped + 1 == all.len() {
                    assert(before[0] == all.last());
                }
            }
            self.history.pop_front();
            proof {
                assert(self.history@ =~= before.drop_first());
                dropped = dropped + 1;
                assert(self.history@ =~= all.subrange(dropped, all.len() as int));
            }
        }
        // the baseline: the least round trip left in the window
        let mut least: u64 = self.history[0].rtt_us;
        let mut i: usize = 1;
        while i < self.history.len()
            invariant
                1 <= i <= self.history@.len(),
                exists|k: int| 0 <= k < i && self.history@[k].rtt_us == least,
                forall|k: int| 0 <= k < i ==> least <= self.history@[k].rtt_us,
            decreases self.history@.len() - i,
        {
            let ghost witness = choose|k: int| 0 <= k < i && self.history@[k].rtt_us == least;
            if self.history[i].rtt_us < least {
                least = self.history[i].rtt_us;
                assert(self.history@[i as int].rtt_us == least);
            } else {
                assert(self.history@[witness].rtt_us == least);
            }
            i = i + 1;
        }
        self.min_rtt = Some(least);
    }

    /// Number of samples in the window.
    pub fn len(&self) -> (n: usize)
        ensures
            n == self@.len(),
    {
        self.history.len()
    }

    /// The least round trip in the window, if the window holds any.
    pub fn min_rtt(&self) -> (r: Option<u64>)
        requires
            self.wf(),
        ensures
            r == self.spec_min_rtt(),
            match r {
                None => self@.len() == 0,
                Some(m) => spec_is_min_rtt(m, self@),
            },
    {
        self.min_rtt
    }

    /// The queuing delay: how far the smoothed round trip lies above the baseline, and
    /// never below zero. Nothing while either is unknown.
    pub fn queuing_delay(&self, smoothed_rtt_us: Option<u64>) -> (r: Option<u64>)
        requires
            self.wf(),
        ensures
            r == spec_queuing_delay(smoothed_rtt_us, self.spec_min_rtt()),
    {
        queuing_delay(smoothed_rtt_us, self.min_rtt)
    }
}

/// The queuing delay for a smoothed round trip and a baseline: their difference, or zero
/// where the baseline is the larger.
pub open spec fn spec_queuing_delay(smoothed: Option<u64>, min: Option<u64>) -> Option<u64> {
    match (smoothed, min) {
        (Some(s), Some(m)) => Some(
            if s >= m {
                (s - m) as u64
            } else {
                0
            },
        ),
        _ => None,
    }
}

/// The queuing delay for a smoothed round trip and a baseline, both in microseconds.
pub fn queuing_delay(smoothed_rtt_us: Option<u64>, min_rtt_us: Option<u64>) -> (r: Option<u64>)
    ensures
        r == spec_queuing_delay(smoothed_rtt_us, min_rtt_us),
{
    match (smoothed_rtt_us, min_rtt_us) {
        (Some(s), Some(m)) => Some(s.saturating_sub(m)),
        _ => None,
    }
}

/// Whether a rate update is due: the interval has passed since the last one.
pub fn update_due(now_ms: u64, last_update_ms: u64, interval_ms: u64) -> (due: bool)
    ensures
        due == (now_ms - last_update_ms >= interval_ms),
{
    now_ms >= last_update_ms && now_ms - last_update_ms >= interval_ms
}

} // verus!
