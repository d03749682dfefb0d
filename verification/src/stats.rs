//! Counters and latency distribution of a run.
//!
//! Counters wrap around at the end of their range.

use vstd::prelude::*;
use crate::histogram;
use crate::histogram::{bucket_of, count_below, count_sum, is_percentile, lemma_sum_grows};
use crate::histogram::{lemma_sum_step, lemma_sum_update, lemma_sum_zero, percentile_of};
use crate::histogram::{smaller, with_count};
use crate::math::{saturated, wrapped};
use crate::time::{millis_between, Instant};

verus! {

/// The counts after one more observation of `latency_ms`.
pub open spec fn observed(counts: Seq<u64>, latency_ms: nat) -> Seq<u64> {
    let b = bucket_of(counts, latency_ms);
    counts.update(b, wrapped(counts[b] + 1))
}

/// A counter after `n` more.
pub fn bump(counter: u64, n: u64) -> (c: u64)
    ensures
        c == wrapped(counter + n),
{
    counter.wrapping_add(n)
}

/// Integer-ms latency histogram for low-overhead updates.
///
/// Buckets are 1ms wide: bucket `i` counts observations with `latency_ms == i`,
/// with the final bucket (`max_ms`) acting as a catch-all for any larger values.
#[derive(Debug)]
pub struct LatencyHistogram {
    max_ms: u64,
    buckets: Vec<u64>,
}

impl View for LatencyHistogram {
    type V = Seq<u64>;

    /// The count of each bucket.
    closed spec fn view(&self) -> Seq<u64> {
        self.buckets@
    }
}

impl LatencyHistogram {
    /// The latency of the last bucket.
    pub closed spec fn max_ms(&self) -> nat {
        self.max_ms as nat
    }

    /// There is one bucket for each latency from 0 to `max_ms`.
    pub open spec fn wf(&self) -> bool {
        &&& self@.len() == self.max_ms() + 1
        &&& self@.len() * 8 <= isize::MAX
    }

    /// An empty histogram with the buckets `0..=max_ms`.
    pub fn new(max_ms: u64) -> (h: Self)
        requires
            (max_ms + 1) * 8 <= isize::MAX,
        ensures
            h.wf(),
            h.max_ms() == max_ms,
            h@ == Seq::new((max_ms + 1) as nat, |i: int| 0u64),
            count_sum(h@) == 0,
    {
        let len: usize = max_ms as usize + 1;
        let buckets: Vec<u64> = vec![0u64; len];
        proof {
            lemma_sum_zero(buckets@);
        }
        let h = LatencyHistogram { max_ms, buckets };
        assert(h@ =~= Seq::new((max_ms + 1) as nat, |i: int| 0u64));
        h
    }

    /// Counts one observation.
    pub fn observe_ms(&mut self, latency_ms: u64)
        requires
            old(self).wf(),
        ensures
            final(self).wf(),
            final(self).max_ms() == old(self).max_ms(),
            final(self)@ == observed(old(self)@, latency_ms as nat),
            count_sum(final(self)@) <= count_sum(old(self)@) + 1,
            count_sum(old(self)@) < u64::MAX ==> count_sum(final(self)@) == count_sum(old(self)@)
                + 1,
    {
        let capped: u64 = if latency_ms < self.max_ms {
            latency_ms
        } else {
            self.max_ms
        };
        let idx: usize = capped as usize;
        let now: u64 = bump(self.buckets[idx], 1);
        proof {
            lemma_sum_update(self.buckets@, idx as int, now);
            lemma_sum_grows(self@, idx as int, self@.len() as int);
            assert(self@.take(self@.len() as int) =~= self@);
        }
        self.buckets[idx] = now;
    }

    /// How many observations were counted.
    pub fn total_count(&self) -> (n: u64)
        requires
            self.wf(),
            count_sum(self@) <= u64::MAX,
        ensures
            n == count_sum(self@),
    {
        self.checked_count().unwrap()
    }

    /// How many observations were counted, where that fits into a `u64`.
    pub fn checked_count(&self) -> (n: Option<u64>)
        requires
            self.wf(),
        ensures
            match n {
                Some(n) => n == count_sum(self@),
                None => count_sum(self@) > u64::MAX,
            },
    {
        let mut total: u64 = 0;
        let mut i: usize = 0;
        assert(self@.take(0) =~= Seq::<u64>::empty());
        assert(self@.take(self@.len() as int) =~= self@);
        while i < self.buckets.len()
            invariant
                i <= self.buckets.len(),
                total == count_below(self@, i as int),
                self@.take(self@.len() as int) == self@,
            decreases self.buckets.len() - i,
        {
            proof {
                lemma_sum_step(self@, i as int);
                lemma_sum_grows(self@, i + 1, self@.len() as int);
            }
            match total.checked_add(self.buckets[i]) {
                Some(t) => {
                    total = t;
                },
                None => {
                    return None;
                },
            }
            i = i + 1;
        }
        Some(total)
    }

    /// Deterministic percentile in integer milliseconds.
    ///
    /// Rank is 1-indexed: ceil(p/100 * total). For p=0, treat as 1 (min).
    pub fn percentile_ms(&self, p: u64) -> (ms: u64)
        requires
            self.wf(),
            count_sum(self@) <= u64::MAX,
        ensures
            is_percentile(self@, p as nat, ms),
    {
        percentile_of(self.buckets.as_slice(), self.total_count(), p)
    }

    /// The 50th, 95th and 99th percentile, of a snapshot with saturating counts.
    pub fn percentiles(&self) -> (ps: (u64, u64, u64))
        requires
            self.wf(),
        ensures
            is_percentile(self@, 50, ps.0),
            is_percentile(self@, 95, ps.1),
            is_percentile(self@, 99, ps.2),
    {
        let mut h = histogram::LatencyHistogram::new(self.max_ms);
        let mut i: usize = 0;
        while i < self.buckets.len()
            invariant
                self.wf(),
                i <= self.buckets.len(),
                h.wf(),
                h@.len() == self@.len(),
                forall|k: int| 0 <= k < i ==> h@[k] == self@[k],
                forall|k: int| i <= k < h@.len() ==> h@[k] == 0,
            decreases self.buckets.len() - i,
        {
            let c: u64 = self.buckets[i];
            if c != 0 {
                h.add_count_ms(i as u64, c);
            }
            i = i + 1;
        }
        assert(h@ =~= self@);
        (h.percentile_ms(50), h.percentile_ms(95), h.percentile_ms(99))
    }
}

impl Default for LatencyHistogram {
    /// 60s catch-all is enough for load-test latencies/timeouts.
    fn default() -> (h: Self)
        ensures
            h.wf(),
            h.max_ms() == 60_000,
            h@ == Seq::new(60_001, |i: int| 0u64),
            count_sum(h@) == 0,
    {
        Self::new(60_000)
    }
}

/// What a collector has counted.
pub struct Counts {
    pub start_time: Instant,
    pub attempted: u64,
    pub sent: u64,
    pub accepted: u64,
    pub rejected: u64,
    pub errors: u64,
    pub timeouts: u64,
    pub latency: Seq<u64>,
}

impl Counts {
    /// The latencies can be counted in 64 bits.
    pub open spec fn can_summarize(self) -> bool {
        count_sum(self.latency) <= u64::MAX
    }
}

/// Low-overhead counters + latency distribution for a run.
#[derive(Debug)]
pub struct StatsCollector {
    start_time: Instant,
    attempted: u64,
    sent: u64,
    accepted: u64,
    rejected: u64,
    errors: u64,
    timeouts: u64,
    latency: LatencyHistogram,
}

impl View for StatsCollector {
    type V = Counts;

    closed spec fn view(&self) -> Counts {
        Counts {
            start_time: self.start_time,
            attempted: self.attempted,
            sent: self.sent,
            accepted: self.accepted,
            rejected: self.rejected,
            errors: self.errors,
            timeouts: self.timeouts,
            latency: self.latency@,
        }
    }
}

impl StatsCollector {
    /// The collector has a bucket for each latency up to 60s.
    pub closed spec fn has_buckets(&self) -> bool {
        self.latency.wf()
    }

    pub open spec fn wf(&self) -> bool {
        &&& self.has_buckets()
        &&& self@.latency.len() == 60_001
    }

    /// A collector that starts now.
    pub fn new(now: Instant) -> (s: Self)
        ensures
            s.wf(),
            s@ == (Counts {
                start_time: now,
                attempted: 0,
                sent: 0,
                accepted: 0,
                rejected: 0,
                errors: 0,
                timeouts: 0,
                latency: Seq::new(60_001, |i: int| 0u64),
            }),
            count_sum(s@.latency) == 0,
    {
        StatsCollector {
            start_time: now,
            attempted: 0,
            sent: 0,
            accepted: 0,
            rejected: 0,
            errors: 0,
            timeouts: 0,
            latency: LatencyHistogram::default(),
        }
    }

    pub fn record_attempted(&mut self, count: u64)
        requires
            old(self).wf(),
        ensures
            final(self).wf(),
            final(self)@ == (Counts {
                attempted: wrapped(old(self)@.attempted + count),
                ..old(self)@
            }),
            old(self)@.attempted + count <= u64::MAX ==> final(self)@.attempted
                == old(self)@.attempted + count,
    {
        self.attempted = bump(self.attempted, count);
    }

    pub fn record_sent(&mut self, count: u64)
        requires
            old(self).wf(),
        ensures
            final(self).wf(),
            final(self)@ == (Counts { sent: wrapped(old(self)@.sent + count), ..old(self)@ }),
            old(self)@.sent + count <= u64::MAX ==> final(self)@.sent
                == old(self)@.sent + count,
    {
        self.sent = bump(self.sent, count);
    }

    /// Counts accepted payments, and their common latency once.
    pub fn record_accepted(&mut self, count: u64, latency_ms: u64)
        requires
            old(self).wf(),
        ensures
            final(self).wf(),
            final(self)@ == (Counts {
                accepted: wrapped(old(self)@.accepted + count),
                latency: observed(old(self)@.latency, latency_ms as nat),
                ..old(self)@
            }),
            count_sum(final(self)@.latency) <= count_sum(old(self)@.latency) + 1,
            old(self)@.accepted + count <= u64::MAX ==> final(self)@.accepted
                == old(self)@.accepted + count,
    {
        self.accepted = bump(self.accepted, count);
        self.latency.observe_ms(latency_ms);
    }

    /// Counts rejected payments, and their common latency once.
    pub fn record_rejected(&mut self, count: u64, latency_ms: u64)
        requires
            old(self).wf(),
        ensures
            final(self).wf(),
            final(self)@ == (Counts {
                rejected: wrapped(old(self)@.rejected + count),
                latency: observed(old(self)@.latency, latency_ms as nat),
                ..old(self)@
            }),
            count_sum(final(self)@.latency) <= count_sum(old(self)@.latency) + 1,
            old(self)@.rejected + count <= u64::MAX ==> final(self)@.rejected
                == old(self)@.rejected + count,
    {
        self.rejected = bump(self.rejected, count);
        self.latency.observe_ms(latency_ms);
    }

    /// Counts payments that timed out, and their common latency once.
    pub fn record_timeout(&mut self, count: u64, latency_ms: u64)
        requires
            old(self).wf(),
        ensures
            final(self).wf(),
            final(self)@ == (Counts {
                timeouts: wrapped(old(self)@.timeouts + count),
                latency: observed(old(self)@.latency, latency_ms as nat),
                ..old(self)@
            }),
            count_sum(final(self)@.latency) <= count_sum(old(self)@.latency) + 1,
            old(self)@.timeouts + count <= u64::MAX ==> final(self)@.timeouts
                == old(self)@.timeouts + count,
    {
        self.timeouts = bump(self.timeouts, count);
        self.latency.observe_ms(latency_ms);
    }

    pub fn record_error(&mut self, count: u64)
        requires
            old(self).wf(),
        ensures
            final(self).wf(),
            final(self)@ == (Counts { errors: wrapped(old(self)@.errors + count), ..old(self)@ }),
            old(self)@.errors + count <= u64::MAX ==> final(self)@.errors
                == old(self)@.errors + count,
    {
        self.errors = bump(self.errors, count);
    }

    /// The whole milliseconds since the start, modulo the size of a `u64`.
    pub fn elapsed_ms(&self, now: Instant) -> (ms: u64)
        ensures
            ms == wrapped(millis_between(self@.start_time, now) as int),
    {
        now.millis_since(self.start_time)
    }

    /// Whether the latencies can be counted in 64 bits.
    pub fn can_summarize(&self) -> (b: bool)
        requires
            self.wf(),
        ensures
            b == self@.can_summarize(),
    {
        self.latency.checked_count().is_some()
    }

    /// Everything that was counted, with the percentiles of the latencies.
    pub fn summary(&self, now: Instant) -> (s: StatsSummary)
        requires
            self.wf(),
            self@.can_summarize(),
        ensures
            s.attempted == self@.attempted,
            s.sent == self@.sent,
            s.accepted == self@.accepted,
            s.rejected == self@.rejected,
            s.errors == self@.errors,
            s.timeouts == self@.timeouts,
            is_percentile(self@.latency, 50, s.latency_p50_ms),
            is_percentile(self@.latency, 95, s.latency_p95_ms),
            is_percentile(self@.latency, 99, s.latency_p99_ms),
            s.duration_ms == wrapped(millis_between(self@.start_time, now) as int),
    {
        StatsSummary {
            attempted: self.attempted,
            sent: self.sent,
            accepted: self.accepted,
            rejected: self.rejected,
            errors: self.errors,
            timeouts: self.timeouts,
            latency_p50_ms: self.latency.percentile_ms(50),
            latency_p95_ms: self.latency.percentile_ms(95),
            latency_p99_ms: self.latency.percentile_ms(99),
            duration_ms: self.elapsed_ms(now),
        }
    }
}

/// The end result of a collector.
#[derive(Debug, Clone, Copy, PartialEq, Eq, Structural)]
pub struct StatsSummary {
    pub attempted: u64,
    pub sent: u64,
    pub accepted: u64,
    pub rejected: u64,
    pub errors: u64,
    pub timeouts: u64,
    pub latency_p50_ms: u64,
    pub latency_p95_ms: u64,
    pub latency_p99_ms: u64,
    pub duration_ms: u64,
}

/// Until a bucket is full, a histogram that wraps around counts as one that saturates.
pub proof fn law_wrapping_agrees_with_saturating(counts: Seq<u64>, latency_ms: nat)
    requires
        counts.len() > 0,
        counts[bucket_of(counts, latency_ms)] < u64::MAX,
    ensures
        observed(counts, latency_ms) == with_count(counts, latency_ms, 1),
{
}

/// The percentiles of a summary never go down: p50 is at most p95, and p95 at most
/// p99.
pub proof fn law_summary_percentiles_ascend(counts: Seq<u64>, p50: u64, p95: u64, p99: u64)
    requires
        is_percentile(counts, 50, p50),
        is_percentile(counts, 95, p95),
        is_percentile(counts, 99, p99),
    ensures
        p50 <= p95 <= p99,
{
    if count_sum(counts) > 0 {
        let total = saturated(count_sum(counts) as int) as nat;
        histogram::law_percentiles_ascend(counts, total, 50, 95, p50 as int, p95 as int);
        histogram::law_percentiles_ascend(counts, total, 95, 99, p95 as int, p99 as int);
    }
}

/// The counts after these latencies were observed, one by one, from empty buckets on.
pub open spec fn observed_all(len: nat, latencies: Seq<nat>) -> Seq<u64>
    decreases latencies.len(),
{
    if latencies.len() == 0 {
        Seq::new(len, |i: int| 0u64)
    } else {
        observed(observed_all(len, latencies.drop_last()), latencies.last())
    }
}

/// A percentile is that of the latencies that were observed: fewer than `p` percent of
/// them are smaller, and at least `p` percent are no larger.
pub proof fn law_percentile_is_that_of_the_latencies(
    len: nat,
    latencies: Seq<nat>,
    p: nat,
    ms: u64,
)
    requires
        0 < len,
        0 < latencies.len() <= u64::MAX,
        0 < p <= 100,
        is_percentile(observed_all(len, latencies), p, ms),
    ensures
        ms < len,
        smaller(latencies, ms as nat) * 100 < latencies.len() * p,
        ms + 1 < len ==> latencies.len() * p <= smaller(latencies, (ms + 1) as nat) * 100,
{
    lemma_counts_are_those_of_a_histogram(len, latencies);
    histogram::law_percentile_is_that_of_the_latencies(len, latencies, p, ms);
}

proof fn lemma_counts_are_those_of_a_histogram(len: nat, latencies: Seq<nat>)
    requires
        0 < len,
        latencies.len() <= u64::MAX,
    ensures
        observed_all(len, latencies) == histogram::counts_of(len, latencies),
    decreases latencies.len(),
{
    if latencies.len() > 0 {
        let before = histogram::counts_of(len, latencies.drop_last());
        lemma_counts_are_those_of_a_histogram(len, latencies.drop_last());
        histogram::law_histogram_tells_latencies_apart(len, latencies.drop_last(), 0);
        let b = bucket_of(before, latencies.last());
        lemma_sum_grows(before, b, before.len() as int);
        assert(before.take(before.len() as int) =~= before);
        law_wrapping_agrees_with_saturating(before, latencies.last());
    }
}

/// An observation counts at its own latency and nowhere else; a full bucket starts over at
/// zero.
pub proof fn law_observation_counts_at_its_latency(counts: Seq<u64>, latency_ms: nat)
    requires
        latency_ms < counts.len(),
    ensures
        ({
            let after = observed(counts, latency_ms);
            let at = latency_ms as int;
            &&& after.len() == counts.len()
            &&& counts[at] < u64::MAX ==> after[at] == counts[at] + 1
            &&& counts[at] == u64::MAX ==> after[at] == 0
            &&& forall|i: int| 0 <= i < counts.len() && i != latency_ms ==> after[i] == counts[i]
        }),
{
}

} // verus!
