//! Rate limiter using integer-only math with token bucket algorithm.
//!
//! Tokens are counted in millionths, so that a microsecond at a rate of `tps`
//! tokens per second earns `tps` of them.

use vstd::prelude::*;
use crate::math::{least, wrapped};
use crate::time::{micros_between, Instant};

verus! {

/// Millionths in a token, and microseconds in a second.
pub const MICROS_PER_SECOND: u128 = 1_000_000;

/// The state of a limiter.
pub struct Bucket {
    /// Target rate in tokens per second
    pub tps: nat,
    /// Maximum tokens that can accumulate
    pub capacity: nat,
    /// Current tokens, in millionths
    pub tokens: nat,
    /// When tokens were last added
    pub last_refill: Instant,
}

impl Bucket {
    /// A full bucket.
    pub open spec fn full(tps: nat, capacity: nat, now: Instant) -> Bucket {
        Bucket { tps, capacity, tokens: capacity * 1_000_000, last_refill: now }
    }

    /// The bucket never holds more than its capacity.
    pub open spec fn wf(self) -> bool {
        self.tokens <= self.capacity * 1_000_000
    }

    /// The bucket once the tokens earned up to `now` are in it. Time that does not
    /// make a whole microsecond is left to count later.
    pub open spec fn refilled(self, now: Instant) -> Bucket {
        let micros = micros_between(self.last_refill, now);
        if micros == 0 {
            self
        } else {
            Bucket {
                tokens: least(
                    (self.tokens + self.tps * micros) as int,
                    (self.capacity * 1_000_000) as int,
                ) as nat,
                last_refill: now,
                ..self
            }
        }
    }

    /// Whether `count` tokens are there.
    pub open spec fn has(self, count: nat) -> bool {
        self.tokens >= count * 1_000_000
    }

    /// The bucket after a try to take `count` tokens: all of them, or none.
    pub open spec fn taken(self, count: nat) -> Bucket {
        if self.has(count) {
            Bucket { tokens: (self.tokens - count * 1_000_000) as nat, ..self }
        } else {
            self
        }
    }
}

/// The result of a try to take tokens that the caller wants to wait for.
#[derive(Debug, Clone, Copy, PartialEq, Eq, Structural)]
pub enum Acquire {
    /// The tokens are taken.
    Acquired,
    /// Sleep this long, refill, and try again.
    Wait { micros: u64 },
    /// The rate is zero: sleep a second and try again.
    Idle,
}

/// Rate limiter using integer-only math with token bucket algorithm
#[derive(Debug)]
pub struct RateLimiter {
    /// Target rate in tokens per second
    tps: u64,
    /// Maximum tokens that can accumulate
    capacity: u64,
    /// Current token count (scaled by `MICROS_PER_SECOND` for precision)
    tokens: u128,
    /// Last refill timestamp
    last_refill: Instant,
}

impl View for RateLimiter {
    type V = Bucket;

    closed spec fn view(&self) -> Bucket {
        Bucket {
            tps: self.tps as nat,
            capacity: self.capacity as nat,
            tokens: self.tokens as nat,
            last_refill: self.last_refill,
        }
    }
}

impl RateLimiter {
    /// The limiter never holds more tokens than its capacity.
    pub open spec fn wf(&self) -> bool {
        &&& self@.wf()
        &&& self@.tps <= u64::MAX
        &&& self@.capacity <= u64::MAX
    }

    /// What was earned from the last refill up to `now` fits into 128 bits.
    pub open spec fn can_refill(&self, now: Instant) -> bool {
        self@.tps * micros_between(self@.last_refill, now) <= u128::MAX
    }

    /// Whether what was earned from the last refill up to `now` fits into 128 bits.
    pub fn refill_fits(&self, now: Instant) -> (b: bool)
        ensures
            b == self.can_refill(now),
    {
        (self.tps as u128).checked_mul(now.micros_since(self.last_refill)).is_some()
    }

    /// A limiter that can save up the tokens of one second.
    pub fn new(tps: u64, now: Instant) -> (l: Self)
        ensures
            l.wf(),
            l@ == Bucket::full(tps as nat, tps as nat, now),
    {
        Self::with_capacity(tps, tps, now)
    }

    /// A limiter that can save up `capacity` tokens, and starts with all of them.
    pub fn with_capacity(tps: u64, capacity: u64, now: Instant) -> (l: Self)
        ensures
            l.wf(),
            l@ == Bucket::full(tps as nat, capacity as nat, now),
    {
        RateLimiter {
            tps,
            capacity,
            tokens: capacity as u128 * MICROS_PER_SECOND,
            last_refill: now,
        }
    }

    /// Update the target rate (for dynamic ramp adjustments). What was earned so far
    /// was earned at the old rate.
    pub fn set_rate(&mut self, tps: u64, now: Instant)
        requires
            old(self).wf(),
            old(self).can_refill(now),
        ensures
            final(self).wf(),
            final(self)@ == (Bucket { tps: tps as nat, ..old(self)@.refilled(now) }),
    {
        self.refill(now);
        self.tps = tps;
    }

    /// Refill tokens based on elapsed time
    pub fn refill(&mut self, now: Instant)
        requires
            old(self).wf(),
            old(self).can_refill(now),
        ensures
            final(self).wf(),
            final(self)@ == old(self)@.refilled(now),
    {
        let elapsed_micros: u128 = now.micros_since(self.last_refill);
        if elapsed_micros == 0 {
            return;
        }
        // Scaled representation: tps * elapsed_micros (already in micro-scale)
        let tokens_to_add: u128 = self.tps as u128 * elapsed_micros;
        let mut tokens: u128 = self.tokens.saturating_add(tokens_to_add);
        // Cap at capacity
        let max_tokens: u128 = self.capacity as u128 * MICROS_PER_SECOND;
        if tokens > max_tokens {
            tokens = max_tokens;
        }
        self.tokens = tokens;
        self.last_refill = now;
    }

    /// Try to acquire a token, returns true if successful
    pub fn try_acquire(&mut self, now: Instant) -> (ok: bool)
        requires
            old(self).wf(),
            old(self).can_refill(now),
        ensures
            final(self).wf(),
            ok == old(self)@.refilled(now).has(1),
            final(self)@ == old(self)@.refilled(now).taken(1),
    {
        self.try_acquire_batch(1, now)
    }

    /// Try to acquire N tokens at once (for batching)
    pub fn try_acquire_batch(&mut self, count: u64, now: Instant) -> (ok: bool)
        requires
            old(self).wf(),
            old(self).can_refill(now),
        ensures
            final(self).wf(),
            ok == old(self)@.refilled(now).has(count as nat),
            final(self)@ == old(self)@.refilled(now).taken(count as nat),
    {
        self.refill(now);
        let required: u128 = count as u128 * MICROS_PER_SECOND;
        if self.tokens >= required {
            self.tokens = self.tokens - required;
            true
        } else {
            false
        }
    }

    /// One try to acquire `count` tokens, and how long to wait before the next one
    /// where they are not there.
    pub fn poll_acquire_batch(&mut self, count: u64, now: Instant) -> (step: Acquire)
        requires
            old(self).wf(),
            old(self).can_refill(now),
        ensures
            final(self).wf(),
            final(self)@ == old(self)@.refilled(now).taken(count as nat),
            step == wait_for(old(self)@.refilled(now), count as nat),
    {
        if self.try_acquire_batch(count, now) {
            return Acquire::Acquired;
        }
        let required: u128 = count as u128 * MICROS_PER_SECOND;
        let deficit: u128 = required - self.tokens;
        if self.tps == 0 {
            return Acquire::Idle;
        }
        // Time in microseconds = deficit / tps
        let wait_micros: u128 = deficit / (self.tps as u128);
        Acquire::Wait { micros: (wait_micros % 0x1_0000_0000_0000_0000) as u64 }
    }

    /// One try to acquire a token, and how long to wait before the next one where it
    /// is not there.
    pub fn poll_acquire(&mut self, now: Instant) -> (step: Acquire)
        requires
            old(self).wf(),
            old(self).can_refill(now),
        ensures
            final(self).wf(),
            final(self)@ == old(self)@.refilled(now).taken(1),
            step == wait_for(old(self)@.refilled(now), 1),
    {
        self.poll_acquire_batch(1, now)
    }
}

/// How long the bucket takes to earn what is missing for `count` tokens.
pub open spec fn wait_micros(b: Bucket, count: nat) -> nat {
    ((count * 1_000_000 - b.tokens) / b.tps as int) as nat
}

/// What a caller who wants `count` tokens from the bucket is told.
pub open spec fn wait_for(b: Bucket, count: nat) -> Acquire {
    if b.has(count) {
        Acquire::Acquired
    } else if b.tps == 0 {
        Acquire::Idle
    } else {
        Acquire::Wait { micros: wrapped(wait_micros(b, count) as int) }
    }
}

/// Tries to take tokens, one after the other: when, and how many.
pub open spec fn granted(b: Bucket, tries: Seq<(Instant, nat)>) -> nat
    decreases tries.len(),
{
    if tries.len() == 0 {
        0
    } else {
        let (now, count) = tries[0];
        let filled = b.refilled(now);
        (if filled.has(count) {
            count
        } else {
            0
        }) + granted(filled.taken(count), tries.drop_first())
    }
}

/// The times of the tries never go back, and none is before `start` or after `end`.
pub open spec fn in_order(start: Instant, tries: Seq<(Instant, nat)>, end: Instant) -> bool
    decreases tries.len(),
{
    if tries.len() == 0 {
        start.nanos <= end.nanos
    } else {
        start.nanos <= tries[0].0.nanos && in_order(tries[0].0, tries.drop_first(), end)
    }
}

/// The limiter keeps its rate: whatever is tried, no more tokens are granted up to
/// `end` than were there at the start and are earned from the last refill to `end`.
pub proof fn law_rate_is_kept(b: Bucket, tries: Seq<(Instant, nat)>, end: Instant)
    requires
        b.wf(),
        in_order(b.last_refill, tries, end),
    ensures
        granted(b, tries) * 1_000_000 <= b.tokens + b.tps * micros_between(b.last_refill, end),
        granted(b, tries) <= b.capacity + b.tps * micros_between(b.last_refill, end) / 1_000_000,
{
    lemma_granted(b, tries, b.last_refill, end);
}

proof fn lemma_granted(b: Bucket, tries: Seq<(Instant, nat)>, now: Instant, end: Instant)
    requires
        b.wf(),
        b.last_refill.nanos <= now.nanos,
        in_order(now, tries, end),
    ensures
        granted(b, tries) * 1_000_000 <= b.tokens + b.tps * micros_between(b.last_refill, end),
    decreases tries.len(),
{
    lemma_in_order(now, tries, end);
    let all = micros_between(b.last_refill, end);
    assert(0 <= b.tps * all) by (nonlinear_arith)
        requires
            0 <= b.tps,
            0 <= all,
    ;
    if tries.len() > 0 {
        let (t, count) = tries[0];
        let filled = b.refilled(t);
        let after = filled.taken(count);
        lemma_in_order(t, tries.drop_first(), end);
        let first = micros_between(b.last_refill, t);
        lemma_granted(after, tries.drop_first(), t, end);
        let rest = micros_between(after.last_refill, end);
        assert(first == 0 ==> rest == all);
        assert(first + rest <= all);
        assert(b.tps * first + b.tps * rest <= b.tps * all) by (nonlinear_arith)
            requires
                first + rest <= all,
                0 <= b.tps,
        ;
        assert(0 <= b.tps * first) by (nonlinear_arith)
            requires
                0 <= b.tps,
                0 <= first,
        ;
    }
}

proof fn lemma_in_order(start: Instant, tries: Seq<(Instant, nat)>, end: Instant)
    requires
        in_order(start, tries, end),
    ensures
        start.nanos <= end.nanos,
    decreases tries.len(),
{
    if tries.len() > 0 {
        lemma_in_order(tries[0].0, tries.drop_first(), end);
    }
}

/// The wait that a caller is told is long enough, to the microsecond: one
/// microsecond after it the tokens are there, if the bucket can hold them at all.
pub proof fn law_wait_is_long_enough(b: Bucket, count: nat, now: Instant)
    requires
        b.wf(),
        b.tps > 0,
        !b.has(count),
        count <= b.capacity,
        micros_between(b.last_refill, now) > wait_micros(b, count),
    ensures
        b.refilled(now).has(count),
{
    let missing = count * 1_000_000 - b.tokens;
    let wait = wait_micros(b, count);
    let micros = micros_between(b.last_refill, now);
    vstd::arithmetic::div_mod::lemma_fundamental_div_mod(missing, b.tps as int);
    assert(missing < b.tps * (wait + 1)) by (nonlinear_arith)
        requires
            missing == b.tps * wait + missing % (b.tps as int),
            missing % (b.tps as int) < b.tps,
    ;
    assert(b.tps * (wait + 1) <= b.tps * micros) by (nonlinear_arith)
        requires
            wait + 1 <= micros,
            0 <= b.tps,
    ;
}

/// The wait that a caller is told is not too long: before it is over the tokens are
/// not there.
pub proof fn law_wait_is_not_too_long(b: Bucket, count: nat, now: Instant)
    requires
        b.wf(),
        b.tps > 0,
        !b.has(count),
        micros_between(b.last_refill, now) < wait_micros(b, count),
    ensures
        !b.refilled(now).has(count),
{
    let missing = count * 1_000_000 - b.tokens;
    let wait = wait_micros(b, count);
    let micros = micros_between(b.last_refill, now);
    vstd::arithmetic::div_mod::lemma_fundamental_div_mod(missing, b.tps as int);
    assert(b.tps * micros < missing) by (nonlinear_arith)
        requires
            missing == b.tps * wait + missing % (b.tps as int),
            0 <= missing % (b.tps as int),
            micros + 1 <= wait,
            0 < b.tps,
    ;
}

/// More tokens than the bucket can hold are never granted, however long one waits.
pub proof fn law_oversized_batch_is_refused(b: Bucket, count: nat, now: Instant)
    requires
        b.wf(),
        count > b.capacity,
    ensures
        !b.refilled(now).has(count),
{
}

/// Two refills earn no more than one at the later time.
pub proof fn law_refilling_twice_earns_no_more(b: Bucket, t1: Instant, t2: Instant)
    requires
        b.last_refill.nanos <= t1.nanos <= t2.nanos,
    ensures
        b.refilled(t1).refilled(t2).tokens <= b.refilled(t2).tokens,
{
    let m1 = micros_between(b.last_refill, t1);
    let m2 = micros_between(t1, t2);
    let m = micros_between(b.last_refill, t2);
    assert(m1 + m2 <= m);
    assert(b.tps * m1 + b.tps * m2 <= b.tps * m) by (nonlinear_arith)
        requires
            m1 + m2 <= m,
            0 <= b.tps,
    ;
    assert(0 <= b.tps * m2) by (nonlinear_arith)
        requires
            0 <= b.tps,
            0 <= m2,
    ;
    assert(0 <= b.tps * m1) by (nonlinear_arith)
        requires
            0 <= b.tps,
            0 <= m1,
    ;
}

/// Whatever the rate, a refill within half a million years of the last one fits.
pub proof fn law_refill_fits(l: RateLimiter, now: Instant)
    requires
        l.wf(),
        micros_between(l@.last_refill, now) <= u64::MAX,
    ensures
        l.can_refill(now),
{
    let m = micros_between(l@.last_refill, now);
    assert(l@.tps * m <= u64::MAX * u64::MAX) by (nonlinear_arith)
        requires
            0 <= l@.tps <= u64::MAX,
            0 <= m <= u64::MAX,
    ;
}

/// A refill puts in exactly what was earned, `tps` millionths for each whole microsecond,
/// unless the bucket is full before; rate and capacity stay.
pub proof fn law_refill_earns_exactly(b: Bucket, now: Instant)
    requires
        b.wf(),
    ensures
        ({
            let earned = b.tps * micros_between(b.last_refill, now);
            let after = b.refilled(now);
            &&& after.tps == b.tps
            &&& after.capacity == b.capacity
            &&& b.tokens + earned <= b.capacity * 1_000_000 ==> after.tokens == b.tokens + earned
            &&& b.tokens + earned >= b.capacity * 1_000_000 ==> after.tokens == b.capacity
                * 1_000_000
            &&& micros_between(b.last_refill, now) > 0 ==> after.last_refill == now
            &&& micros_between(b.last_refill, now) == 0 ==> after == b
        }),
{
    assert(b.tps * 0 == 0) by (nonlinear_arith);
}

/// Refills at whole microseconds add up: two of them leave the same bucket as one at the
/// later time.
pub proof fn law_refills_add_up(b: Bucket, t1: Instant, t2: Instant)
    requires
        b.wf(),
        b.last_refill.nanos <= t1.nanos <= t2.nanos,
        (t1.nanos - b.last_refill.nanos) % 1_000 == 0,
        (t2.nanos - b.last_refill.nanos) % 1_000 == 0,
    ensures
        b.refilled(t1).refilled(t2) == b.refilled(t2),
{
    let m1 = micros_between(b.last_refill, t1);
    let m2 = micros_between(t1, t2);
    let m = micros_between(b.last_refill, t2);
    assert(m1 + m2 == m);
    assert(b.tps * m1 + b.tps * m2 == b.tps * m) by (nonlinear_arith)
        requires
            m1 + m2 == m,
    ;
    assert(0 <= b.tps * m1) by (nonlinear_arith)
        requires
            0 <= b.tps,
            0 <= m1,
    ;
    assert(0 <= b.tps * m2) by (nonlinear_arith)
        requires
            0 <= b.tps,
            0 <= m2,
    ;
    if m1 == 0 {
        assert(t1.nanos == b.last_refill.nanos);
    }
    if m2 == 0 {
        assert(t1.nanos == t2.nanos);
        assert(t1 == t2);
    }
}

/// A full bucket holds as many tokens as its capacity says: so many can be taken from it,
/// in whatever portions, and not one more.
pub proof fn law_full_bucket_holds_its_capacity(
    tps: nat,
    capacity: nat,
    now: Instant,
    m: nat,
    n: nat,
)
    ensures
        ({
            let b = Bucket::full(tps, capacity, now);
            &&& b.wf()
            &&& b.tps == tps
            &&& b.last_refill == now
            &&& b.has(n) <==> n <= capacity
            &&& m <= capacity ==> (b.taken(m).has(n) <==> m + n <= capacity)
        }),
{
}

/// Tokens are taken whole or not at all: what is taken is gone, and no time passes.
pub proof fn law_tokens_are_taken_whole(b: Bucket, count: nat)
    requires
        b.wf(),
    ensures
        b.has(count) ==> b.taken(count).tokens + count * 1_000_000 == b.tokens,
        !b.has(count) ==> b.taken(count) == b && b.tokens < count * 1_000_000,
        b.taken(count).wf(),
        b.taken(count).tps == b.tps,
        b.taken(count).capacity == b.capacity,
        b.taken(count).last_refill == b.last_refill,
{
}

/// The bucket after tries to take tokens.
pub open spec fn tried(b: Bucket, tries: Seq<(Instant, nat)>) -> Bucket
    decreases tries.len(),
{
    if tries.len() == 0 {
        b
    } else {
        tried(b.refilled(tries[0].0).taken(tries[0].1), tries.drop_first())
    }
}

/// Whether all tries come whole microseconds after `start`.
pub open spec fn on_micros(start: Instant, tries: Seq<(Instant, nat)>) -> bool {
    forall|i: int|
        0 <= i < tries.len() ==> (#[trigger] tries[i]).0.nanos % 1_000 == start.nanos % 1_000
}

/// What is earned is granted: while the bucket does not overflow, every millionth that was
/// there or was earned up to the last try was either granted or is still there, however
/// often the limiter is asked. So a caller who is refused has got all whole tokens.
pub proof fn law_what_is_earned_is_granted(b: Bucket, tries: Seq<(Instant, nat)>, end: Instant)
    requires
        b.wf(),
        in_order(b.last_refill, tries, end),
        on_micros(b.last_refill, tries),
        b.tokens + b.tps * micros_between(b.last_refill, end) <= b.capacity * 1_000_000,
    ensures
        ({
            let last = if tries.len() == 0 {
                b.last_refill
            } else {
                tries.last().0
            };
            granted(b, tries) * 1_000_000 + tried(b, tries).tokens == b.tokens + b.tps
                * micros_between(b.last_refill, last)
        }),
    decreases tries.len(),
{
    lemma_in_order(b.last_refill, tries, end);
    assert(b.tps * 0 == 0) by (nonlinear_arith);
    if tries.len() > 0 {
        let (t, count) = tries[0];
        let rest = tries.drop_first();
        let filled = b.refilled(t);
        let after = filled.taken(count);
        lemma_in_order(t, rest, end);
        let first = micros_between(b.last_refill, t);
        let all = micros_between(b.last_refill, end);
        let later = micros_between(t, end);
        assert(tries[0].0.nanos % 1_000 == b.last_refill.nanos % 1_000);
        assert(first == 0 ==> t == b.last_refill);
        assert(first + later <= all);
        assert(b.tps * first + b.tps * later <= b.tps * all) by (nonlinear_arith)
            requires
                first + later <= all,
                0 <= b.tps,
        ;
        assert(0 <= b.tps * later) by (nonlinear_arith)
            requires
                0 <= b.tps,
                0 <= later,
        ;
        law_refill_earns_exactly(b, t);
        assert(filled.last_refill == t);
        assert forall|i: int| 0 <= i < rest.len() implies (#[trigger] rest[i]).0.nanos % 1_000
            == t.nanos % 1_000 by {
            assert(tries[i + 1].0.nanos % 1_000 == b.last_refill.nanos % 1_000);
        }
        law_what_is_earned_is_granted(after, rest, end);
        if rest.len() > 0 {
            let last = tries.last().0;
            assert(rest.last() == tries.last());
            assert(tries[tries.len() - 1].0.nanos % 1_000 == b.last_refill.nanos % 1_000);
            lemma_last_in_order(t, rest, end);
            let to_last = micros_between(t, last);
            let whole = micros_between(b.last_refill, last);
            assert(first + to_last == whole);
            assert(b.tps * first + b.tps * to_last == b.tps * whole) by (nonlinear_arith)
                requires
                    first + to_last == whole,
            ;
        }
    }
}

proof fn lemma_last_in_order(start: Instant, tries: Seq<(Instant, nat)>, end: Instant)
    requires
        in_order(start, tries, end),
        tries.len() > 0,
    ensures
        start.nanos <= tries.last().0.nanos <= end.nanos,
    decreases tries.len(),
{
    lemma_in_order(start, tries, end);
    if tries.len() > 1 {
        lemma_last_in_order(tries[0].0, tries.drop_first(), end);
    } else {
        lemma_in_order(tries[0].0, tries.drop_first(), end);
    }
}

/// In `micros` at the rate `tps` no more is earned than `missing`, and in one more
/// microsecond more than that.
pub open spec fn waits(tps: nat, micros: int, missing: int) -> bool {
    tps * micros <= missing < tps * (micros + 1)
}

/// What a caller is told: that the tokens are there, exactly where they are; to idle where
/// none will ever be earned; and else a wait that earns what is missing, to the
/// microsecond. A wait that no `u64` can tell is told without its higher bits.
pub proof fn law_caller_is_told_the_wait(b: Bucket, count: nat)
    requires
        b.wf(),
    ensures
        wait_for(b, count) == Acquire::Acquired <==> b.tokens >= count * 1_000_000,
        wait_for(b, count) == Acquire::Idle <==> b.tokens < count * 1_000_000 && b.tps == 0,
        wait_for(b, count) matches Acquire::Wait { micros } ==> {
            let missing = count * 1_000_000 - b.tokens;
            &&& missing > 0
            &&& b.tps > 0
            &&& missing < b.tps * (u64::MAX + 1) ==> b.tps * micros <= missing < b.tps * (micros
                + 1)
            &&& exists|k: nat| #[trigger] waits(b.tps, micros + k * (u64::MAX + 1), missing)
        },
{
    let missing = count * 1_000_000 - b.tokens;
    if missing > 0 && b.tps > 0 {
        let wait = wait_micros(b, count) as int;
        let tps = b.tps as int;
        vstd::arithmetic::div_mod::lemma_fundamental_div_mod(missing, tps);
        assert(tps * wait <= missing < tps * (wait + 1)) by (nonlinear_arith)
            requires
                missing == tps * wait + missing % tps,
                0 <= missing % tps < tps,
        ;
        let k = (wait / (u64::MAX + 1)) as nat;
        assert(wait == wrapped(wait) + k * (u64::MAX + 1));
        assert(waits(b.tps, wrapped(wait) + k * (u64::MAX + 1), missing));
        if missing < tps * (u64::MAX + 1) {
            assert(wait < u64::MAX + 1) by (nonlinear_arith)
                requires
                    tps * wait <= missing,
                    missing < tps * (u64::MAX + 1),
                    tps > 0,
            ;
        }
    }
}

} // verus!
