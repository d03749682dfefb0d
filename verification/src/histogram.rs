//! Integer-millisecond latency histogram with saturating counts.

use vstd::prelude::*;
use crate::math::{least, saturated};

verus! {

/// The sum of all counts.
pub open spec fn count_sum(counts: Seq<u64>) -> nat
    decreases counts.len(),
{
    if counts.len() == 0 {
        0
    } else {
        count_sum(counts.drop_last()) + counts.last() as nat
    }
}

/// How many observations have a latency below `ms`.
pub open spec fn count_below(counts: Seq<u64>, ms: int) -> nat {
    count_sum(counts.take(ms))
}

/// The 1-indexed rank of the percentile `p` among `total` observations:
/// `ceil(p / 100 * total)`, where `p` is cut to 100 and the rank is at least 1.
pub open spec fn percentile_rank(total: nat, p: nat) -> nat {
    let p = least(p as int, 100);
    let rank = (total * p + 99) / 100;
    if rank < 1 {
        1
    } else {
        rank as nat
    }
}

/// `ms` is the latency of the observation with that rank: fewer than `rank`
/// observations lie below it, and at least `rank` at or below it.
pub open spec fn is_at_rank(counts: Seq<u64>, rank: nat, ms: int) -> bool {
    &&& 0 <= ms < counts.len()
    &&& count_below(counts, ms) < rank
    &&& rank <= count_below(counts, ms + 1)
}

/// The bucket that an observation of `latency_ms` falls into: the last bucket
/// takes everything from its own latency on.
pub open spec fn bucket_of(counts: Seq<u64>, latency_ms: nat) -> int {
    least(latency_ms as int, counts.len() - 1)
}

pub proof fn lemma_sum_step(counts: Seq<u64>, n: int)
    requires
        0 <= n < counts.len(),
    ensures
        count_below(counts, n + 1) == count_below(counts, n) + counts[n],
{
    assert(counts.take(n + 1).drop_last() =~= counts.take(n));
}

pub proof fn lemma_sum_grows(counts: Seq<u64>, m: int, n: int)
    requires
        0 <= m <= n <= counts.len(),
    ensures
        count_below(counts, m) <= count_below(counts, n),
        m < n ==> count_below(counts, m) + counts[m] <= count_below(counts, n),
    decreases n - m,
{
    if m < n {
        lemma_sum_step(counts, n - 1);
        if m < n - 1 {
            lemma_sum_grows(counts, m, n - 1);
        } else {
            lemma_sum_step(counts, m);
        }
    }
}

pub proof fn lemma_sum_update(counts: Seq<u64>, i: int, v: u64)
    requires
        0 <= i < counts.len(),
    ensures
        count_sum(counts.update(i, v)) == count_sum(counts) - counts[i] + v,
    decreases counts.len(),
{
    let after = counts.update(i, v);
    if i == counts.len() - 1 {
        assert(after.drop_last() =~= counts.drop_last());
    } else {
        assert(after.drop_last() =~= counts.drop_last().update(i, v));
        lemma_sum_update(counts.drop_last(), i, v);
    }
}

pub proof fn lemma_sum_zero(counts: Seq<u64>)
    requires
        forall|i: int| 0 <= i < counts.len() ==> counts[i] == 0,
    ensures
        count_sum(counts) == 0,
    decreases counts.len(),
{
    if counts.len() > 0 {
        lemma_sum_zero(counts.drop_last());
    }
}

/// The counts after `count` more observations of `latency_ms`.
pub open spec fn with_count(counts: Seq<u64>, latency_ms: nat, count: nat) -> Seq<u64> {
    let b = bucket_of(counts, latency_ms);
    counts.update(b, saturated(counts[b] + count))
}

/// `ms` is the percentile `p` of the counts: 0 where there is no observation, and
/// else the latency of the observation with the rank of `p`.
pub open spec fn is_percentile(counts: Seq<u64>, p: nat, ms: u64) -> bool {
    if count_sum(counts) == 0 {
        ms == 0
    } else {
        is_at_rank(
            counts,
            percentile_rank(saturated(count_sum(counts) as int) as nat, p),
            ms as int,
        )
    }
}

/// The percentile `p` of the counts, of which `total` is the sum, held at the largest `u64`.
pub fn percentile_of(counts: &[u64], total: u64, p: u64) -> (ms: u64)
    requires
        total == saturated(count_sum(counts@) as int),
    ensures
        is_percentile(counts@, p as nat, ms),
{
    let q: u64 = if p > 100 {
        100
    } else {
        p
    };
    if total == 0 {
        return 0;
    }
    assert(0 <= total * q <= total * 100) by (nonlinear_arith)
        requires
            0 <= q <= 100,
            0 <= total,
    ;
    assert(q == 0 ==> total * q == 0) by (nonlinear_arith);
    let rank: u64 = if q == 0 {
        1
    } else {
        let r: u64 = ((total as u128 * q as u128 + 99) / 100) as u64;
        if r < 1 {
            1
        } else {
            r
        }
    };
    assert(rank == percentile_rank(total as nat, p as nat)) by {
        assert(least(p as int, 100) == q);
    }
    assert(1 <= rank <= total);
    let mut cumulative: u64 = 0;
    let mut i: usize = 0;
    assert(counts@.take(0) =~= Seq::<u64>::empty());
    while i < counts.len()
        invariant
            i <= counts@.len(),
            0 < total == saturated(count_sum(counts@) as int),
            1 <= rank <= total,
            rank == percentile_rank(total as nat, p as nat),
            cumulative == saturated(count_below(counts@, i as int) as int),
            cumulative < rank,
        decreases counts@.len() - i,
    {
        proof {
            lemma_sum_step(counts@, i as int);
        }
        cumulative = cumulative.saturating_add(counts[i]);
        if cumulative >= rank {
            return i as u64;
        }
        i = i + 1;
    }
    assert(counts@.take(counts@.len() as int) =~= counts@);
    i as u64
}

/// Integer-ms latency histogram.
///
/// Buckets are 1ms wide: bucket `i` counts observations with `latency_ms == i`,
/// with the final bucket (`max_ms`) acting as a catch-all for any larger values.
#[derive(Debug, Clone)]
pub struct LatencyHistogram {
    max_ms: u64,
    buckets: Vec<u64>,
    total: u64,
}

impl View for LatencyHistogram {
    type V = Seq<u64>;

    /// The count of each bucket.
    closed spec fn view(&self) -> Seq<u64> {
        self.buckets@
    }
}

impl LatencyHistogram {
    /// The latency of the last bucket.
    pub closed spec fn max_ms(&self) -> nat {
        self.max_ms as nat
    }

    /// How many observations were counted.
    pub closed spec fn total(&self) -> nat {
        self.total as nat
    }

    /// There is one bucket for each latency from 0 to `max_ms`, and the total is
    /// the sum of the buckets, held at the largest `u64`.
    pub open spec fn wf(&self) -> bool {
        &&& self@.len() == self.max_ms() + 1
        &&& self.total() == saturated(count_sum(self@) as int)
    }

    /// An empty histogram with the buckets `0..=max_ms`.
    pub fn new(max_ms: u64) -> (h: Self)
        requires
            (max_ms + 1) * 8 <= isize::MAX,
        ensures
            h.wf(),
            h.max_ms() == max_ms,
            h@ == Seq::new((max_ms + 1) as nat, |i: int| 0u64),
            count_sum(h@) == 0,
    {
        let len: usize = max_ms as usize + 1;
        let buckets: Vec<u64> = vec![0u64; len];
        proof {
            lemma_sum_zero(buckets@);
        }
        let h = LatencyHistogram { max_ms, buckets, total: 0 };
        assert(h@ =~= Seq::new((max_ms + 1) as nat, |i: int| 0u64));
        h
    }

    /// Counts one observation.
    pub fn observe_ms(&mut self, latency_ms: u64)
        requires
            old(self).wf(),
        ensures
            final(self).wf(),
            final(self).max_ms() == old(self).max_ms(),
            final(self)@ == with_count(old(self)@, latency_ms as nat, 1),
            count_sum(final(self)@) <= count_sum(old(self)@) + 1,
            count_sum(old(self)@) < u64::MAX ==> count_sum(final(self)@) == count_sum(old(self)@)
                + 1,
    {
        self.add_count_ms(latency_ms, 1);
    }

    /// Counts `count` observations of the same latency. Counts saturate.
    pub fn add_count_ms(&mut self, latency_ms: u64, count: u64)
        requires
            old(self).wf(),
        ensures
            final(self).wf(),
            final(self).max_ms() == old(self).max_ms(),
            final(self)@ == with_count(old(self)@, latency_ms as nat, count as nat),
            count_sum(final(self)@) <= count_sum(old(self)@) + count,
            count_sum(old(self)@) + count <= u64::MAX ==> count_sum(final(self)@) == count_sum(
                old(self)@,
            ) + count,
    {
        if count == 0 {
            assert(self@ =~= with_count(self@, latency_ms as nat, 0));
            return;
        }
        let capped: u64 = if latency_ms < self.max_ms {
            latency_ms
        } else {
            self.max_ms
        };
        let len: usize = self.buckets.len();
        assert(capped < len);
        let idx: usize = capped as usize;
        let ghost before = self.buckets@;
        let now: u64 = self.buckets[idx].saturating_add(count);
        proof {
            lemma_sum_update(before, idx as int, now);
            lemma_sum_grows(before, idx as int, before.len() as int);
            assert(before.take(before.len() as int) =~= before);
        }
        self.buckets[idx] = now;
        self.total = self.total.saturating_add(count);
    }

    /// How many observations were counted, held at the largest `u64`.
    pub fn total_count(&self) -> (n: u64)
        requires
            self.wf(),
        ensures
            n == saturated(count_sum(self@) as int),
    {
        self.total
    }

    /// Deterministic percentile in integer milliseconds.
    ///
    /// Uses a 1-indexed rank: `ceil(p/100 * total)` (with p=0 treated as 1).
    pub fn percentile_ms(&self, p: u64) -> (ms: u64)
        requires
            self.wf(),
        ensures
            is_percentile(self@, p as nat, ms),
    {
        percentile_of(self.buckets.as_slice(), self.total, p)
    }
}

impl Default for LatencyHistogram {
    /// 60s catch-all is enough for load-test latencies/timeouts.
    fn default() -> (h: Self)
        ensures
            h.wf(),
            h.max_ms() == 60_000,
            h@ == Seq::new(60_001, |i: int| 0u64),
            count_sum(h@) == 0,
    {
        Self::new(60_000)
    }
}

/// The order of observations does not matter.
pub proof fn law_observations_commute(counts: Seq<u64>, a: nat, m: nat, b: nat, n: nat)
    requires
        counts.len() > 0,
    ensures
        with_count(with_count(counts, a, m), b, n) == with_count(with_count(counts, b, n), a, m),
{
    assert(with_count(with_count(counts, a, m), b, n) =~= with_count(
        with_count(counts, b, n),
        a,
        m,
    ));
}

/// Counting a latency twice is counting it once with the sum.
pub proof fn law_counts_add_up(counts: Seq<u64>, a: nat, m: nat, n: nat)
    requires
        counts.len() > 0,
    ensures
        with_count(with_count(counts, a, m), a, n) == with_count(counts, a, m + n),
{
    assert(with_count(with_count(counts, a, m), a, n) =~= with_count(counts, a, m + n));
}

/// The last bucket is a catch-all: every latency from its own on counts there.
pub proof fn law_last_bucket_catches_all(counts: Seq<u64>, a: nat, n: nat)
    requires
        counts.len() > 0,
        a >= counts.len() - 1,
    ensures
        with_count(counts, a, n) == with_count(counts, (counts.len() - 1) as nat, n),
{
}

/// A latency from that of the last bucket on is counted there: it changes no lower count,
/// adds one to the total, and is then the 100th percentile.
pub proof fn law_overlong_latency_is_the_longest(counts: Seq<u64>, latency_ms: nat, ms: int)
    requires
        counts.len() > 0,
        latency_ms >= counts.len() - 1,
        count_sum(counts) < u64::MAX,
    ensures
        ({
            let last = counts.len() - 1;
            let after = with_count(counts, latency_ms, 1);
            &&& after == with_count(counts, last as nat, 1)
            &&& forall|i: int| 0 <= i < last ==> after[i] == counts[i]
            &&& after[last] == counts[last] + 1
            &&& count_sum(after) == count_sum(counts) + 1
            &&& is_at_rank(after, percentile_rank(count_sum(after), 100), ms) <==> ms == last
        }),
{
    let last = counts.len() - 1;
    let after = with_count(counts, latency_ms, 1);
    lemma_sum_grows(counts, last, counts.len() as int);
    assert(counts.take(counts.len() as int) =~= counts);
    law_every_observation_counts(counts, latency_ms, 1);
    assert(after.take(last) =~= counts.take(last));
    assert(after.take(after.len() as int) =~= after);
    lemma_sum_step(after, last);
    let rank = percentile_rank(count_sum(after), 100);
    assert(rank == count_sum(after));
    assert(is_at_rank(after, rank, last));
    if is_at_rank(after, rank, ms) {
        law_percentile_is_unique(after, rank, ms, last);
    }
}

/// A higher percentile is never a smaller latency.
pub proof fn law_percentiles_ascend(
    counts: Seq<u64>,
    total: nat,
    p: nat,
    q: nat,
    ms_p: int,
    ms_q: int,
)
    requires
        p <= q,
        is_at_rank(counts, percentile_rank(total, p), ms_p),
        is_at_rank(counts, percentile_rank(total, q), ms_q),
    ensures
        ms_p <= ms_q,
{
    let a = least(p as int, 100);
    let b = least(q as int, 100);
    assert(total * a <= total * b) by (nonlinear_arith)
        requires
            0 <= a <= b,
            0 <= total,
    ;
    if ms_q < ms_p {
        lemma_sum_grows(counts, ms_q + 1, ms_p);
    }
}

/// A histogram counts every observation once, as long as no bucket is full.
pub proof fn law_every_observation_counts(counts: Seq<u64>, a: nat, n: nat)
    requires
        counts.len() > 0,
        counts[bucket_of(counts, a)] + n <= u64::MAX,
    ensures
        count_sum(with_count(counts, a, n)) == count_sum(counts) + n,
{
    let b = bucket_of(counts, a);
    lemma_sum_update(counts, b, (counts[b] + n) as u64);
}

/// Every percentile of a non-empty histogram exists: some bucket has its rank.
pub proof fn law_percentile_exists(counts: Seq<u64>, p: nat)
    requires
        count_sum(counts) > 0,
    ensures
        exists|ms: int|
            is_at_rank(
                counts,
                percentile_rank(saturated(count_sum(counts) as int) as nat, p),
                ms,
            ),
{
    let total = saturated(count_sum(counts) as int) as int;
    let a = least(p as int, 100);
    assert(0 <= total * a <= total * 100) by (nonlinear_arith)
        requires
            0 <= a <= 100,
            0 <= total,
    ;
    let rank = percentile_rank(total as nat, p);
    assert(counts.take(counts.len() as int) =~= counts);
    assert(counts.take(0) =~= Seq::<u64>::empty());
    lemma_rank_exists(counts, rank, counts.len() as int);
}

/// A percentile is well defined: at most one latency has a given rank.
pub proof fn law_percentile_is_unique(counts: Seq<u64>, rank: nat, a: int, b: int)
    requires
        is_at_rank(counts, rank, a),
        is_at_rank(counts, rank, b),
    ensures
        a == b,
{
    if a < b {
        lemma_sum_grows(counts, a + 1, b);
    }
    if b < a {
        lemma_sum_grows(counts, b + 1, a);
    }
}

proof fn lemma_rank_exists(counts: Seq<u64>, rank: nat, n: int)
    requires
        0 <= n <= counts.len(),
        1 <= rank <= count_below(counts, n),
    ensures
        exists|ms: int| is_at_rank(counts, rank, ms),
    decreases n,
{
    if n == 0 {
        assert(counts.take(0) =~= Seq::<u64>::empty());
    } else if count_below(counts, n - 1) < rank {
        assert(is_at_rank(counts, rank, n - 1));
    } else {
        lemma_rank_exists(counts, rank, n - 1);
    }
}

/// An observation counts at its own latency and nowhere else: the bucket with exactly that
/// number takes it, until it is full, and every other one stays as it was.
pub proof fn law_observation_counts_at_its_latency(counts: Seq<u64>, latency_ms: nat, n: nat)
    requires
        latency_ms < counts.len(),
    ensures
        ({
            let after = with_count(counts, latency_ms, n);
            let at = latency_ms as int;
            &&& after.len() == counts.len()
            &&& counts[at] + n <= u64::MAX ==> after[at] == counts[at] + n
            &&& counts[at] + n > u64::MAX ==> after[at] == u64::MAX
            &&& forall|i: int| 0 <= i < counts.len() && i != latency_ms ==> after[i] == counts[i]
        }),
{
}

/// The rank of a percentile is `p` percent of the total, rounded up: at least one, never
/// more than the total, and that of 100 for every higher `p`.
pub proof fn law_rank_is_rounded_up(total: nat, p: nat)
    requires
        total > 0,
    ensures
        1 <= percentile_rank(total, p) <= total,
        p == 0 ==> percentile_rank(total, p) == 1,
        p >= 100 ==> percentile_rank(total, p) == total,
        0 < p <= 100 ==> (percentile_rank(total, p) - 1) * 100 < total * p <= percentile_rank(
            total,
            p,
        ) * 100,
{
    let q = least(p as int, 100);
    assert(0 <= total * q <= total * 100) by (nonlinear_arith)
        requires
            0 <= q <= 100,
            0 <= total,
    ;
    assert(q > 0 ==> total * q > 0) by (nonlinear_arith)
        requires
            total > 0,
    ;
    assert(q == 0 ==> total * q == 0) by (nonlinear_arith);
}

/// A percentile splits the observations: fewer than `p` percent of them lie below it, and
/// at least `p` percent at or below it. Some observation has exactly that latency. (More
/// observations than a `u64` can tell count as that many.)
pub proof fn law_percentile_splits_the_observations(counts: Seq<u64>, p: nat, ms: u64)
    requires
        is_percentile(counts, p, ms),
        0 < count_sum(counts),
        0 < p <= 100,
    ensures
        ms < counts.len(),
        counts[ms as int] > 0,
        ({
            let total = if count_sum(counts) <= u64::MAX {
                count_sum(counts)
            } else {
                u64::MAX as nat
            };
            count_below(counts, ms as int) * 100 < total * p <= count_below(counts, ms + 1) * 100
        }),
{
    law_rank_is_rounded_up(saturated(count_sum(counts) as int) as nat, p);
    lemma_sum_step(counts, ms as int);
}

/// The least percentile is the smallest latency that was observed, the 100th the largest,
/// and without an observation every percentile is zero.
pub proof fn law_extreme_percentiles(counts: Seq<u64>, p: nat, ms: u64, i: int)
    requires
        count_sum(counts) <= u64::MAX,
        0 <= i < counts.len(),
    ensures
        count_sum(counts) == 0 ==> (is_percentile(counts, p, ms) <==> ms == 0),
        is_percentile(counts, 0, ms) && counts[i] > 0 ==> ms <= i,
        is_percentile(counts, 100, ms) && counts[i] > 0 ==> i <= ms,
        p >= 100 ==> (is_percentile(counts, p, ms) <==> is_percentile(counts, 100, ms)),
{
    assert(counts.take(counts.len() as int) =~= counts);
    lemma_sum_step(counts, i);
    lemma_sum_grows(counts, i + 1, counts.len() as int);
    if counts[i] > 0 && is_percentile(counts, 0, ms) {
        law_rank_is_rounded_up(count_sum(counts), 0);
        if i < ms {
            lemma_sum_grows(counts, i + 1, ms as int);
        }
    }
    if counts[i] > 0 && is_percentile(counts, 100, ms) {
        law_rank_is_rounded_up(count_sum(counts), 100);
        if ms < i {
            lemma_sum_grows(counts, ms + 1, i);
        }
    }
}

/// How many of the latencies are smaller than `ms`.
pub open spec fn smaller(latencies: Seq<nat>, ms: nat) -> nat
    decreases latencies.len(),
{
    if latencies.len() == 0 {
        0
    } else {
        smaller(latencies.drop_last(), ms) + if latencies.last() < ms {
            1nat
        } else {
            0
        }
    }
}

/// The counts after these latencies were observed, one by one, from empty buckets on.
pub open spec fn counts_of(len: nat, latencies: Seq<nat>) -> Seq<u64>
    decreases latencies.len(),
{
    if latencies.len() == 0 {
        Seq::new(len, |i: int| 0u64)
    } else {
        with_count(counts_of(len, latencies.drop_last()), latencies.last(), 1)
    }
}

/// A histogram tells the latencies that were observed apart, millisecond by millisecond:
/// as many count below `ms` as were smaller, and all of them count.
pub proof fn law_histogram_tells_latencies_apart(len: nat, latencies: Seq<nat>, ms: nat)
    requires
        0 < len,
        ms < len,
        latencies.len() <= u64::MAX,
    ensures
        counts_of(len, latencies).len() == len,
        count_below(counts_of(len, latencies), ms as int) == smaller(latencies, ms),
        count_sum(counts_of(len, latencies)) == latencies.len(),
    decreases latencies.len(),
{
    let counts = counts_of(len, latencies);
    if latencies.len() == 0 {
        lemma_sum_zero(counts);
        lemma_sum_zero(counts.take(ms as int));
    } else {
        let before = counts_of(len, latencies.drop_last());
        let l = latencies.last();
        law_histogram_tells_latencies_apart(len, latencies.drop_last(), ms);
        let b = bucket_of(before, l);
        lemma_sum_step(before, b);
        lemma_sum_grows(before, b, before.len() as int);
        assert(before.take(before.len() as int) =~= before);
        law_every_observation_counts(before, l, 1);
        if b < ms {
            assert(counts.take(ms as int) =~= before.take(ms as int).update(
                b,
                (before[b] + 1) as u64,
            ));
            lemma_sum_update(before.take(ms as int), b, (before[b] + 1) as u64);
        } else {
            assert(counts.take(ms as int) =~= before.take(ms as int));
        }
    }
}

/// A percentile is that of the latencies that were observed: fewer than `p` percent of
/// them are smaller, and at least `p` percent are no larger.
pub proof fn law_percentile_is_that_of_the_latencies(
    len: nat,
    latencies: Seq<nat>,
    p: nat,
    ms: u64,
)
    requires
        0 < len,
        0 < latencies.len() <= u64::MAX,
        0 < p <= 100,
        is_percentile(counts_of(len, latencies), p, ms),
    ensures
        ms < len,
        smaller(latencies, ms as nat) * 100 < latencies.len() * p,
        ms + 1 < len ==> latencies.len() * p <= smaller(latencies, (ms + 1) as nat) * 100,
{
    let counts = counts_of(len, latencies);
    law_histogram_tells_latencies_apart(len, latencies, 0);
    law_percentile_splits_the_observations(counts, p, ms);
    law_histogram_tells_latencies_apart(len, latencies, ms as nat);
    if ms + 1 < len {
        law_histogram_tells_latencies_apart(len, latencies, (ms + 1) as nat);
    }
}

/// Equal latencies have that latency as each of their percentiles.
pub proof fn law_equal_latencies_are_every_percentile(
    len: nat,
    latency_ms: nat,
    n: nat,
    p: nat,
    ms: u64,
)
    requires
        latency_ms < len,
        0 < n <= u64::MAX,
        is_percentile(with_count(Seq::new(len, |i: int| 0u64), latency_ms, n), p, ms),
    ensures
        ms == latency_ms,
{
    let empty = Seq::new(len, |i: int| 0u64);
    let counts = with_count(empty, latency_ms, n);
    lemma_sum_zero(empty);
    law_every_observation_counts(empty, latency_ms, n);
    law_rank_is_rounded_up(n, p);
    lemma_sum_step(counts, ms as int);
    if ms < latency_ms {
        lemma_sum_zero(counts.take(ms + 1));
    }
    if ms > latency_ms {
        lemma_sum_step(counts, latency_ms as int);
        lemma_sum_grows(counts, latency_ms as int + 1, ms as int);
    }
}

} // verus!
