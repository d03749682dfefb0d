//! When payments are launched: an integer scheduler.
//!
//! A ramp step is cut into windows of one second and a shorter last one. In a
//! full second exactly `tps` payments are launched; in a shorter window
//! `floor(tps * window_ms / 1000)`.

use vstd::prelude::*;
use crate::math::least;

verus! {

/// How many payments are due in a window of `window_ms`, held at the largest `u64`.
pub open spec fn window_total(tps: nat, window_ms: nat) -> nat {
    least((tps * window_ms / 1000) as int, u64::MAX as int) as nat
}

/// How many payments of a window are due once its first `ms` milliseconds have begun.
pub open spec fn due_by(tps: nat, window_ms: nat, ms: nat) -> nat {
    least((tps * ms / 1000) as int, window_total(tps, window_ms) as int) as nat
}

/// What to do next in a window.
#[derive(Debug, Clone, Copy, PartialEq, Eq, Structural)]
pub enum Launch {
    /// Sleep until this many milliseconds after the start of the window.
    SleepUntil { offset_ms: u64 },
    /// Launch one payment.
    Payment,
    /// The window is over.
    Done,
}

/// A window under way.
#[derive(Debug, Clone, Copy, PartialEq, Eq, Structural)]
pub struct LaunchWindow {
    tps: u64,
    window_ms: u64,
    /// The millisecond to wait for next.
    next_ms: u64,
    /// How many payments are due by now.
    due: u64,
    launched: u64,
}

impl LaunchWindow {
    pub closed spec fn tps(&self) -> nat {
        self.tps as nat
    }

    pub closed spec fn window_ms(&self) -> nat {
        self.window_ms as nat
    }

    /// How many milliseconds of the window have begun.
    pub closed spec fn begun_ms(&self) -> nat {
        self.next_ms as nat
    }

    /// How many payments were launched.
    pub closed spec fn launched(&self) -> nat {
        self.launched as nat
    }

    /// What is due was computed for the milliseconds that have begun.
    pub closed spec fn is_current(&self) -> bool {
        self.due == due_by(self.tps as nat, self.window_ms as nat, self.next_ms as nat)
    }

    /// Never more payments were launched than are due.
    pub open spec fn wf(&self) -> bool {
        &&& self.is_current()
        &&& self.begun_ms() <= self.window_ms()
        &&& self.launched() <= self.due()
    }

    /// How many payments are due by now.
    pub open spec fn due(&self) -> nat {
        due_by(self.tps(), self.window_ms(), self.begun_ms())
    }

    /// How many sleeps and launches are still to come.
    pub open spec fn steps_left(&self) -> nat {
        ((self.window_ms() - self.begun_ms()) + (window_total(self.tps(), self.window_ms())
            - self.launched())) as nat
    }

    /// A window of `window_ms` in which payments are due at the rate `tps`.
    pub fn new(tps: u64, window_ms: u64) -> (w: LaunchWindow)
        ensures
            w.wf(),
            w.tps() == tps,
            w.window_ms() == window_ms,
            w.begun_ms() == 0,
            w.launched() == 0,
    {
        proof {
            lemma_due_bounds(tps as nat, window_ms as nat, 0);
        }
        LaunchWindow { tps, window_ms, next_ms: 0, due: 0, launched: 0 }
    }

    /// The next thing to do in the window. What is due is launched before the next
    /// sleep, and the window is over when all of it is launched.
    pub fn next(&mut self) -> (action: Launch)
        requires
            old(self).wf(),
        ensures
            final(self).wf(),
            final(self).tps() == old(self).tps(),
            final(self).window_ms() == old(self).window_ms(),
            old(self).launched() < old(self).due() ==> {
                &&& action == Launch::Payment
                &&& final(self).launched() == old(self).launched() + 1
                &&& final(self).begun_ms() == old(self).begun_ms()
            },
            old(self).launched() == old(self).due() && old(self).begun_ms() < old(
                self,
            ).window_ms() ==> {
                &&& action == Launch::SleepUntil { offset_ms: old(self).begun_ms() as u64 }
                &&& final(self).launched() == old(self).launched()
                &&& final(self).begun_ms() == old(self).begun_ms() + 1
            },
            old(self).launched() == old(self).due() && old(self).begun_ms() == old(
                self,
            ).window_ms() ==> {
                &&& action == Launch::Done
                &&& *final(self) == *old(self)
            },
            action == Launch::Done ==> final(self).launched() == window_total(
                final(self).tps(),
                final(self).window_ms(),
            ),
            action != Launch::Done ==> final(self).steps_left() + 1 == old(self).steps_left(),
    {
        proof {
            lemma_due_bounds(self.tps as nat, self.window_ms as nat, self.next_ms as nat);
        }
        if self.launched < self.due {
            self.launched = self.launched + 1;
            return Launch::Payment;
        }
        if self.next_ms < self.window_ms {
            let ms: u64 = self.next_ms;
            proof {
                lemma_due_bounds(self.tps as nat, self.window_ms as nat, (ms + 1) as nat);
                lemma_due_grows(self.tps as nat, self.window_ms as nat, ms as nat);
                assert(self.tps * (ms + 1) <= u64::MAX * u64::MAX) by (nonlinear_arith)
                    requires
                        0 <= self.tps <= u64::MAX,
                        0 <= ms + 1 <= u64::MAX,
                ;
                assert(self.tps * self.window_ms <= u64::MAX * u64::MAX) by (nonlinear_arith)
                    requires
                        0 <= self.tps <= u64::MAX,
                        0 <= self.window_ms <= u64::MAX,
                ;
            }
            let whole: u128 = self.tps as u128 * self.window_ms as u128 / 1000;
            let target: u64 = if whole > u64::MAX as u128 {
                u64::MAX
            } else {
                whole as u64
            };
            let desired: u128 = self.tps as u128 * (ms + 1) as u128 / 1000;
            self.due = if desired > target as u128 {
                target
            } else {
                desired as u64
            };
            self.next_ms = ms + 1;
            return Launch::SleepUntil { offset_ms: ms };
        }
        Launch::Done
    }
}

pub proof fn lemma_due_bounds(tps: nat, window_ms: nat, ms: nat)
    requires
        ms <= window_ms,
    ensures
        due_by(tps, window_ms, ms) <= window_total(tps, window_ms) <= u64::MAX,
        ms == window_ms ==> due_by(tps, window_ms, ms) == window_total(tps, window_ms),
        ms == 0 ==> due_by(tps, window_ms, ms) == 0,
{
    assert(0 <= tps * ms) by (nonlinear_arith)
        requires
            0 <= tps,
            0 <= ms,
    ;
    assert(0 <= tps * window_ms) by (nonlinear_arith)
        requires
            0 <= tps,
            0 <= window_ms,
    ;
    assert(ms == 0 ==> tps * ms == 0) by (nonlinear_arith);
}

pub proof fn lemma_due_grows(tps: nat, window_ms: nat, ms: nat)
    ensures
        due_by(tps, window_ms, ms) <= due_by(tps, window_ms, ms + 1),
        tps * (ms + 1) == tps * ms + tps,
{
    assert(tps * (ms + 1) == tps * ms + tps) by (nonlinear_arith);
    assert(0 <= tps * ms) by (nonlinear_arith)
        requires
            0 <= tps,
            0 <= ms,
    ;
}

/// A window of a ramp step, as offsets from the start of the step.
#[derive(Debug, Clone, Copy, PartialEq, Eq, Structural)]
pub struct StepWindow {
    pub offset_ms: u64,
    pub length_ms: u64,
}

/// How many windows a step has: one for each full second, and one for the rest.
pub open spec fn window_count(hold_ms: nat) -> nat {
    if hold_ms % 1000 > 0 {
        hold_ms / 1000 + 1
    } else {
        hold_ms / 1000
    }
}

/// The length of window `k` of a step.
pub open spec fn window_length(hold_ms: nat, k: nat) -> nat {
    if k < hold_ms / 1000 {
        1000
    } else {
        hold_ms % 1000
    }
}

/// The window of a step with this index, counted from zero.
pub fn step_window(hold_ms: u64, index: u64) -> (w: Option<StepWindow>)
    ensures
        match w {
            Some(w) => {
                &&& index < window_count(hold_ms as nat)
                &&& w.offset_ms == index * 1000
                &&& w.length_ms == window_length(hold_ms as nat, index as nat)
            },
            None => index >= window_count(hold_ms as nat),
        },
{
    let full_seconds: u64 = hold_ms / 1000;
    let tail_ms: u64 = hold_ms % 1000;
    if index < full_seconds {
        Some(StepWindow { offset_ms: index * 1000, length_ms: 1000 })
    } else if index == full_seconds && tail_ms > 0 {
        Some(StepWindow { offset_ms: index * 1000, length_ms: tail_ms })
    } else {
        None
    }
}

/// How many payments the first `n` windows of a step launch.
pub open spec fn launched_in(tps: nat, hold_ms: nat, n: nat) -> nat
    decreases n,
{
    if n == 0 {
        0
    } else {
        launched_in(tps, hold_ms, (n - 1) as nat) + window_total(
            tps,
            window_length(hold_ms, (n - 1) as nat),
        )
    }
}

/// The windows of a step follow each other without gap and end with the step.
pub proof fn law_windows_tile_the_step(hold_ms: nat, k: nat)
    requires
        k < window_count(hold_ms),
    ensures
        0 < window_length(hold_ms, k) <= 1000,
        k + 1 < window_count(hold_ms) ==> k * 1000 + window_length(hold_ms, k) == (k + 1) * 1000,
        k + 1 == window_count(hold_ms) ==> k * 1000 + window_length(hold_ms, k) == hold_ms,
{
}

/// In a full second exactly `tps` payments are launched.
pub proof fn law_full_second_launches_tps(tps: u64)
    ensures
        window_total(tps as nat, 1000) == tps,
{
}

/// A step launches `tps` payments in each of its full seconds, and
/// `floor(tps * rest / 1000)` in the rest of it.
pub proof fn law_step_launches(tps: u64, hold_ms: u64)
    ensures
        launched_in(tps as nat, hold_ms as nat, window_count(hold_ms as nat)) == tps * (hold_ms
            as nat / 1000) + tps * (hold_ms as nat % 1000) / 1000,
{
    let full = hold_ms as nat / 1000;
    let rest = hold_ms as nat % 1000;
    lemma_full_seconds(tps, hold_ms as nat, full);
    assert(0 <= tps * rest <= tps * 1000) by (nonlinear_arith)
        requires
            0 <= rest <= 1000,
            0 <= tps,
    ;
    if rest == 0 {
        assert(tps * rest == 0) by (nonlinear_arith)
            requires
                rest == 0,
        ;
    }
}

proof fn lemma_full_seconds(tps: u64, hold_ms: nat, n: nat)
    requires
        n <= hold_ms / 1000,
    ensures
        launched_in(tps as nat, hold_ms, n) == tps * n,
    decreases n,
{
    if n > 0 {
        lemma_full_seconds(tps, hold_ms, (n - 1) as nat);
        law_full_second_launches_tps(tps);
        assert(tps * (n - 1) + tps == tps * n) by (nonlinear_arith);
    } else {
        assert(tps * n == 0) by (nonlinear_arith)
            requires
                n == 0,
        ;
    }
}

/// Payments are spread over a window: from one millisecond to the next,
/// `tps / 1000` of them fall due, or one more.
pub proof fn law_launches_are_spread(tps: u64, window_ms: nat, ms: nat)
    requires
        ms < window_ms,
        tps * window_ms / 1000 <= u64::MAX,
    ensures
        ({
            let now = due_by(tps as nat, window_ms, ms + 1) - due_by(tps as nat, window_ms, ms);
            now == tps / 1000 || now == tps / 1000 + 1
        }),
{
    lemma_due_grows(tps as nat, window_ms, ms);
    assert(tps * (ms + 1) <= tps * window_ms) by (nonlinear_arith)
        requires
            ms + 1 <= window_ms,
            0 <= tps,
    ;
    assert(0 <= tps * ms) by (nonlinear_arith)
        requires
            0 <= tps,
            0 <= ms,
    ;
}

/// A window launches its share of the rate, rounded down: as many payments as come due in
/// `window_ms` milliseconds at `tps` per second, and no fewer.
pub proof fn law_window_launches_its_share(tps: u64, window_ms: nat)
    ensures
        tps * window_ms / 1000 <= u64::MAX ==> window_total(tps as nat, window_ms) * 1000 <= tps
            * window_ms < (window_total(tps as nat, window_ms) + 1) * 1000,
        tps * window_ms / 1000 > u64::MAX ==> window_total(tps as nat, window_ms) == u64::MAX,
{
    assert(0 <= tps * window_ms) by (nonlinear_arith)
        requires
            0 <= tps,
            0 <= window_ms,
    ;
}

/// What is due keeps up with the rate, millisecond by millisecond: as many payments as the
/// milliseconds that have begun are worth, rounded down.
pub proof fn law_due_keeps_up_with_the_rate(tps: u64, window_ms: nat, ms: nat)
    requires
        ms <= window_ms,
    ensures
        tps * ms / 1000 <= u64::MAX ==> due_by(tps as nat, window_ms, ms) * 1000 <= tps * ms < (
        due_by(tps as nat, window_ms, ms) + 1) * 1000,
        tps * ms / 1000 > u64::MAX ==> due_by(tps as nat, window_ms, ms) == u64::MAX,
{
    assert(0 <= tps * ms <= tps * window_ms) by (nonlinear_arith)
        requires
            0 <= tps,
            0 <= ms <= window_ms,
    ;
}

/// A step has one window for each second that has begun in it.
pub proof fn law_windows_are_seconds(hold_ms: nat, k: nat)
    ensures
        k < window_count(hold_ms) <==> k * 1000 < hold_ms,
        k * 1000 + 1000 <= hold_ms ==> window_length(hold_ms, k) == 1000,
        k * 1000 <= hold_ms < k * 1000 + 1000 ==> window_length(hold_ms, k) == hold_ms - k * 1000,
{
}

} // verus!
