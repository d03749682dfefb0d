//! Counters and latency distribution of a worker, with backpressure signals.

use vstd::prelude::*;
use crate::histogram::{bucket_of, count_sum, is_percentile, lemma_sum_grows, lemma_sum_update};
use crate::histogram::{law_equal_latencies_are_every_percentile, lemma_sum_zero, with_count};
use crate::math::wrapped;
use crate::stats::{bump, observed, LatencyHistogram};
use crate::time::{millis_between, Instant};
use crate::worker::submit::{OutcomeKind, SubmitOutcome};

verus! {

/// What a worker has counted.
pub struct WorkerCounts {
    pub start_time: Instant,
    pub attempted: u64,
    pub sent: u64,
    pub accepted: u64,
    pub rejected: u64,
    pub backpressure_429: u64,
    pub backpressure_503: u64,
    pub errors: u64,
    pub timeouts: u64,
    pub latency: Seq<u64>,
}

impl WorkerCounts {
    /// The counts at the start of a run.
    pub open spec fn fresh(now: Instant) -> WorkerCounts {
        WorkerCounts {
            start_time: now,
            attempted: 0,
            sent: 0,
            accepted: 0,
            rejected: 0,
            backpressure_429: 0,
            backpressure_503: 0,
            errors: 0,
            timeouts: 0,
            latency: Seq::new(60_001, |i: int| 0u64),
        }
    }

    /// The counts after a payment was launched.
    pub open spec fn launched(self) -> WorkerCounts {
        WorkerCounts {
            attempted: wrapped(self.attempted + 1),
            sent: wrapped(self.sent + 1),
            ..self
        }
    }

    /// The counts after a payment came to its end, with an outcome or with an error.
    pub open spec fn settled(self, outcome: Option<SubmitOutcome>) -> WorkerCounts {
        match outcome {
            None => WorkerCounts { errors: wrapped(self.errors + 1), ..self },
            Some(o) => {
                let c = WorkerCounts {
                    backpressure_429: wrapped(self.backpressure_429 + o.backpressure_429),
                    backpressure_503: wrapped(self.backpressure_503 + o.backpressure_503),
                    latency: observed(self.latency, o.latency_ms as nat),
                    ..self
                };
                match o.kind {
                    OutcomeKind::Accepted => WorkerCounts {
                        accepted: wrapped(c.accepted + 1),
                        ..c
                    },
                    OutcomeKind::Rejected => WorkerCounts {
                        rejected: wrapped(c.rejected + 1),
                        ..c
                    },
                    OutcomeKind::Timeout => WorkerCounts {
                        timeouts: wrapped(c.timeouts + 1),
                        ..c
                    },
                }
            },
        }
    }

    /// How many payments came to their end.
    pub open spec fn settled_count(self) -> nat {
        (self.accepted + self.rejected + self.timeouts + self.errors) as nat
    }
}

/// Counters + latency distribution of a worker.
#[derive(Debug)]
pub struct WorkerStats {
    start_time: Instant,
    attempted: u64,
    sent: u64,
    accepted: u64,
    rejected: u64,
    backpressure_429: u64,
    backpressure_503: u64,
    errors: u64,
    timeouts: u64,
    latency: LatencyHistogram,
}

impl View for WorkerStats {
    type V = WorkerCounts;

    closed spec fn view(&self) -> WorkerCounts {
        WorkerCounts {
            start_time: self.start_time,
            attempted: self.attempted,
            sent: self.sent,
            accepted: self.accepted,
            rejected: self.rejected,
            backpressure_429: self.backpressure_429,
            backpressure_503: self.backpressure_503,
            errors: self.errors,
            timeouts: self.timeouts,
            latency: self.latency@,
        }
    }
}

impl WorkerStats {
    /// The counters have a bucket for each latency up to 60s.
    pub closed spec fn has_buckets(&self) -> bool {
        self.latency.wf()
    }

    pub open spec fn wf(&self) -> bool {
        &&& self.has_buckets()
        &&& self@.latency.len() == 60_001
    }

    /// Counters that start now.
    pub fn new(now: Instant) -> (s: Self)
        ensures
            s.wf(),
            s@ == WorkerCounts::fresh(now),
            count_sum(s@.latency) == 0,
    {
        WorkerStats {
            start_time: now,
            attempted: 0,
            sent: 0,
            accepted: 0,
            rejected: 0,
            backpressure_429: 0,
            backpressure_503: 0,
            errors: 0,
            timeouts: 0,
            latency: LatencyHistogram::new(60_000),
        }
    }

    pub fn record_attempted(&mut self, count: u64)
        requires
            old(self).wf(),
        ensures
            final(self).wf(),
            final(self)@ == (WorkerCounts {
                attempted: wrapped(old(self)@.attempted + count),
                ..old(self)@
            }),
            old(self)@.attempted + count <= u64::MAX ==> final(self)@.attempted
                == old(self)@.attempted + count,
    {
        self.attempted = bump(self.attempted, count);
    }

    pub fn record_sent(&mut self, count: u64)
        requires
            old(self).wf(),
        ensures
            final(self).wf(),
            final(self)@ == (WorkerCounts { sent: wrapped(old(self)@.sent + count), ..old(self)@ }),
            old(self)@.sent + count <= u64::MAX ==> final(self)@.sent
                == old(self)@.sent + count,
    {
        self.sent = bump(self.sent, count);
    }

    /// Counts accepted payments, and their common latency once.
    pub fn record_accepted(&mut self, count: u64, latency_ms: u64)
        requires
            old(self).wf(),
        ensures
            final(self).wf(),
            final(self)@ == (WorkerCounts {
                accepted: wrapped(old(self)@.accepted + count),
                latency: observed(old(self)@.latency, latency_ms as nat),
                ..old(self)@
            }),
            count_sum(final(self)@.latency) <= count_sum(old(self)@.latency) + 1,
            old(self)@.accepted + count <= u64::MAX ==> final(self)@.accepted
                == old(self)@.accepted + count,
    {
        self.accepted = bump(self.accepted, count);
        self.latency.observe_ms(latency_ms);
    }

    /// Counts rejected payments, and their common latency once.
    pub fn record_rejected(&mut self, count: u64, latency_ms: u64)
        requires
            old(self).wf(),
        ensures
            final(self).wf(),
            final(self)@ == (WorkerCounts {
                rejected: wrapped(old(self)@.rejected + count),
                latency: observed(old(self)@.latency, latency_ms as nat),
                ..old(self)@
            }),
            count_sum(final(self)@.latency) <= count_sum(old(self)@.latency) + 1,
            old(self)@.rejected + count <= u64::MAX ==> final(self)@.rejected
                == old(self)@.rejected + count,
    {
        self.rejected = bump(self.rejected, count);
        self.latency.observe_ms(latency_ms);
    }

    /// Counts backpressure signals.
    pub fn record_backpressure(&mut self, count_429: u64, count_503: u64)
        requires
            old(self).wf(),
        ensures
            final(self).wf(),
            final(self)@ == (WorkerCounts {
                backpressure_429: wrapped(old(self)@.backpressure_429 + count_429),
                backpressure_503: wrapped(old(self)@.backpressure_503 + count_503),
                ..old(self)@
            }),
    {
        if count_429 != 0 {
            self.backpressure_429 = bump(self.backpressure_429, count_429);
        }
        if count_503 != 0 {
            self.backpressure_503 = bump(self.backpressure_503, count_503);
        }
    }

    /// Counts payments that timed out, and their common latency once.
    pub fn record_timeout(&mut self, count: u64, latency_ms: u64)
        requires
            old(self).wf(),
        ensures
            final(self).wf(),
            final(self)@ == (WorkerCounts {
                timeouts: wrapped(old(self)@.timeouts + count),
                latency: observed(old(self)@.latency, latency_ms as nat),
                ..old(self)@
            }),
            count_sum(final(self)@.latency) <= count_sum(old(self)@.latency) + 1,
            old(self)@.timeouts + count <= u64::MAX ==> final(self)@.timeouts
                == old(self)@.timeouts + count,
    {
        self.timeouts = bump(self.timeouts, count);
        self.latency.observe_ms(latency_ms);
    }

    pub fn record_error(&mut self, count: u64)
        requires
            old(self).wf(),
        ensures
            final(self).wf(),
            final(self)@ == (WorkerCounts {
                errors: wrapped(old(self)@.errors + count),
                ..old(self)@
            }),
            old(self)@.errors + count <= u64::MAX ==> final(self)@.errors
                == old(self)@.errors + count,
    {
        self.errors = bump(self.errors, count);
    }

    /// Counts a payment that is launched: attempted and sent.
    pub fn record_launch(&mut self)
        requires
            old(self).wf(),
        ensures
            final(self).wf(),
            final(self)@ == old(self)@.launched(),
    {
        self.record_attempted(1);
        self.record_sent(1);
    }

    /// Counts the end of a payment; one without an outcome is an error.
    pub fn record_outcome(&mut self, outcome: Option<SubmitOutcome>)
        requires
            old(self).wf(),
        ensures
            final(self).wf(),
            final(self)@ == old(self)@.settled(outcome),
            count_sum(final(self)@.latency) <= count_sum(old(self)@.latency) + 1,
    {
        match outcome {
            Some(o) => {
                self.record_backpressure(o.backpressure_429, o.backpressure_503);
                match o.kind {
                    OutcomeKind::Accepted => self.record_accepted(1, o.latency_ms),
                    OutcomeKind::Rejected => self.record_rejected(1, o.latency_ms),
                    OutcomeKind::Timeout => self.record_timeout(1, o.latency_ms),
                }
            },
            None => self.record_error(1),
        }
    }

    /// The whole milliseconds since the start, modulo the size of a `u64`.
    pub fn elapsed_ms(&self, now: Instant) -> (ms: u64)
        ensures
            ms == wrapped(millis_between(self@.start_time, now) as int),
    {
        now.millis_since(self.start_time)
    }

    /// Everything that was counted, with the percentiles of the latencies.
    pub fn summary(&self, now: Instant) -> (s: WorkerSummary)
        requires
            self.wf(),
        ensures
            s.attempted == self@.attempted,
            s.sent == self@.sent,
            s.accepted == self@.accepted,
            s.rejected == self@.rejected,
            s.backpressure_429 == self@.backpressure_429,
            s.backpressure_503 == self@.backpressure_503,
            s.errors == self@.errors,
            s.timeouts == self@.timeouts,
            is_percentile(self@.latency, 50, s.latency_p50_ms),
            is_percentile(self@.latency, 95, s.latency_p95_ms),
            is_percentile(self@.latency, 99, s.latency_p99_ms),
            s.duration_ms == wrapped(millis_between(self@.start_time, now) as int),
    {
        let (p50, p95, p99) = self.latency.percentiles();
        WorkerSummary {
            attempted: self.attempted,
            sent: self.sent,
            accepted: self.accepted,
            rejected: self.rejected,
            backpressure_429: self.backpressure_429,
            backpressure_503: self.backpressure_503,
            errors: self.errors,
            timeouts: self.timeouts,
            latency_p50_ms: p50,
            latency_p95_ms: p95,
            latency_p99_ms: p99,
            duration_ms: self.elapsed_ms(now),
        }
    }
}

/// A snapshot of the counters of a worker.
#[derive(Debug, Clone, Copy, PartialEq, Eq, Structural)]
pub struct WorkerSummary {
    pub attempted: u64,
    pub sent: u64,
    pub accepted: u64,
    pub rejected: u64,
    pub backpressure_429: u64,
    pub backpressure_503: u64,
    pub errors: u64,
    pub timeouts: u64,
    pub latency_p50_ms: u64,
    pub latency_p95_ms: u64,
    pub latency_p99_ms: u64,
    pub duration_ms: u64,
}

/// Every payment is settled exactly once, as accepted, rejected, timed out or failed,
/// and leaves the launched ones alone. (As long as no counter wraps around.)
pub proof fn law_every_payment_is_settled_once(c: WorkerCounts, outcome: Option<SubmitOutcome>)
    requires
        c.accepted < u64::MAX,
        c.rejected < u64::MAX,
        c.timeouts < u64::MAX,
        c.errors < u64::MAX,
    ensures
        c.settled(outcome).settled_count() == c.settled_count() + 1,
        c.settled(outcome).attempted == c.attempted,
        c.settled(outcome).sent == c.sent,
{
}

/// Whatever is attempted is sent: launching and settling payments keeps the two
/// counters equal.
pub proof fn law_attempted_equals_sent(c: WorkerCounts, outcome: Option<SubmitOutcome>)
    requires
        c.attempted == c.sent,
    ensures
        c.launched().attempted == c.launched().sent,
        c.settled(outcome).attempted == c.settled(outcome).sent,
{
}

/// What happens to payments over a run.
pub enum PaymentEvent {
    /// A payment is launched.
    Launched,
    /// A payment comes to its end, with an outcome or with an error.
    Settled(Option<SubmitOutcome>),
}

/// The counts after these events.
pub open spec fn counted(start: WorkerCounts, events: Seq<PaymentEvent>) -> WorkerCounts
    decreases events.len(),
{
    if events.len() == 0 {
        start
    } else {
        let before = counted(start, events.drop_last());
        match events.last() {
            PaymentEvent::Launched => before.launched(),
            PaymentEvent::Settled(outcome) => before.settled(outcome),
        }
    }
}

/// How many of the events are launches.
pub open spec fn launches(events: Seq<PaymentEvent>) -> nat
    decreases events.len(),
{
    if events.len() == 0 {
        0
    } else {
        launches(events.drop_last()) + if events.last() is Launched {
            1nat
        } else {
            0
        }
    }
}

/// How many of the events are ends with an outcome.
pub open spec fn outcomes(events: Seq<PaymentEvent>) -> nat
    decreases events.len(),
{
    if events.len() == 0 {
        0
    } else {
        outcomes(events.drop_last()) + if events.last() is Settled && events.last()->Settled_0
            is Some {
            1nat
        } else {
            0
        }
    }
}

/// The counters account for every payment, in whatever order launches and ends come:
/// as many are attempted and sent as were launched, as many settled as came to an end,
/// and there is one latency for each end with an outcome.
pub proof fn law_counters_account_for_payments(now: Instant, events: Seq<PaymentEvent>)
    requires
        events.len() <= u64::MAX,
    ensures
        ({
            let c = counted(WorkerCounts::fresh(now), events);
            &&& c.attempted == launches(events)
            &&& c.sent == launches(events)
            &&& c.settled_count() == events.len() - launches(events)
            &&& count_sum(c.latency) == outcomes(events)
        }),
{
    lemma_counters_account(now, events);
}

proof fn lemma_counters_account(now: Instant, events: Seq<PaymentEvent>)
    requires
        events.len() <= u64::MAX,
    ensures
        ({
            let c = counted(WorkerCounts::fresh(now), events);
            &&& c.attempted == launches(events) <= events.len()
            &&& c.sent == launches(events)
            &&& c.settled_count() == events.len() - launches(events)
            &&& count_sum(c.latency) == outcomes(events) <= events.len()
            &&& c.latency.len() == 60_001
        }),
    decreases events.len(),
{
    if events.len() == 0 {
        lemma_sum_zero(WorkerCounts::fresh(now).latency);
    } else {
        let before = counted(WorkerCounts::fresh(now), events.drop_last());
        lemma_counters_account(now, events.drop_last());
        match events.last() {
            PaymentEvent::Launched => {},
            PaymentEvent::Settled(outcome) => {
                law_every_payment_is_settled_once(before, outcome);
                lemma_latency_is_counted(before, outcome);
            },
        }
    }
}

proof fn lemma_latency_is_counted(c: WorkerCounts, outcome: Option<SubmitOutcome>)
    requires
        c.latency.len() > 0,
        count_sum(c.latency) < u64::MAX,
    ensures
        c.settled(outcome).latency.len() == c.latency.len(),
        count_sum(c.settled(outcome).latency) == count_sum(c.latency) + if outcome is Some {
            1nat
        } else {
            0
        },
{
    if let Some(o) = outcome {
        let at = bucket_of(c.latency, o.latency_ms as nat);
        lemma_sum_grows(c.latency, at, c.latency.len() as int);
        assert(c.latency.take(c.latency.len() as int) =~= c.latency);
        lemma_sum_update(c.latency, at, wrapped(c.latency[at] + 1));
    }
}

/// The end of a payment is counted by its kind, once, with its latency and its signals; a
/// launch counts as attempted and sent. Nothing else changes. (As long as no counter wraps
/// around.)
pub proof fn law_ends_are_counted_by_kind(c: WorkerCounts, outcome: Option<SubmitOutcome>)
    requires
        c.attempted < u64::MAX,
        c.sent < u64::MAX,
        c.accepted < u64::MAX,
        c.rejected < u64::MAX,
        c.timeouts < u64::MAX,
        c.errors < u64::MAX,
        outcome matches Some(o) ==> {
            &&& c.backpressure_429 + o.backpressure_429 <= u64::MAX
            &&& c.backpressure_503 + o.backpressure_503 <= u64::MAX
        },
    ensures
        c.launched() == (WorkerCounts {
            attempted: (c.attempted + 1) as u64,
            sent: (c.sent + 1) as u64,
            ..c
        }),
        ({
            let after = c.settled(outcome);
            let of_kind = |kind: OutcomeKind|
                if outcome is Some && outcome->0.kind == kind {
                    1int
                } else {
                    0
                };
            &&& after.accepted == c.accepted + of_kind(OutcomeKind::Accepted)
            &&& after.rejected == c.rejected + of_kind(OutcomeKind::Rejected)
            &&& after.timeouts == c.timeouts + of_kind(OutcomeKind::Timeout)
            &&& after.errors == c.errors + if outcome is None {
                1int
            } else {
                0
            }
            &&& outcome is None ==> after.latency == c.latency
            &&& outcome matches Some(o) ==> {
                &&& after.latency == observed(c.latency, o.latency_ms as nat)
                &&& after.backpressure_429 == c.backpressure_429 + o.backpressure_429
                &&& after.backpressure_503 == c.backpressure_503 + o.backpressure_503
            }
            &&& after.start_time == c.start_time
        }),
{
}

/// A run of payments that all end with the same latency has it as each of its percentiles.
pub proof fn law_equal_latencies_are_summed_up(
    now: Instant,
    outcome: SubmitOutcome,
    n: nat,
    p: nat,
    ms: u64,
)
    requires
        0 < n <= u64::MAX,
        outcome.latency_ms <= 60_000,
        is_percentile(
            counted(
                WorkerCounts::fresh(now),
                Seq::new(n, |i: int| PaymentEvent::Settled(Some(outcome))),
            ).latency,
            p,
            ms,
        ),
    ensures
        ms == outcome.latency_ms,
{
    lemma_equal_ends(now, outcome, n);
    law_equal_latencies_are_every_percentile(60_001, outcome.latency_ms as nat, n, p, ms);
}

proof fn lemma_equal_ends(now: Instant, outcome: SubmitOutcome, n: nat)
    requires
        n <= u64::MAX,
        outcome.latency_ms <= 60_000,
    ensures
        counted(
            WorkerCounts::fresh(now),
            Seq::new(n, |i: int| PaymentEvent::Settled(Some(outcome))),
        ).latency == with_count(
            Seq::new(60_001, |i: int| 0u64),
            outcome.latency_ms as nat,
            n,
        ),
    decreases n,
{
    let ends = Seq::new(n, |i: int| PaymentEvent::Settled(Some(outcome)));
    let empty = Seq::new(60_001, |i: int| 0u64);
    let l = outcome.latency_ms as nat;
    if n == 0 {
        assert(with_count(empty, l, 0) =~= empty);
    } else {
        lemma_equal_ends(now, outcome, (n - 1) as nat);
        assert(ends.drop_last() =~= Seq::new(
            (n - 1) as nat,
            |i: int| PaymentEvent::Settled(Some(outcome)),
        ));
        assert(observed(with_count(empty, l, (n - 1) as nat), l) =~= with_count(empty, l, n));
    }
}

} // verus!
