//! Ramp planning: which rate is due when.

use vstd::prelude::*;
use crate::config::{RampConfig, RampStep};
use crate::math::least;
use crate::time::Instant;

verus! {

/// One step of a ramp with its start and end.
#[derive(Debug, Clone, Copy)]
pub struct RampWindow {
    pub step_idx: usize,
    pub start: Instant,
    pub end: Instant,
    pub tps: u64,
}

/// How long the first `n` steps take together, in milliseconds.
pub open spec fn held_ms(steps: Seq<RampStep>, n: int) -> nat
    decreases n,
{
    if n <= 0 {
        0
    } else {
        held_ms(steps, n - 1) + steps[n - 1].hold_ms as nat
    }
}

/// How long all steps take together, in milliseconds.
pub open spec fn total_ms(steps: Seq<RampStep>) -> nat {
    held_ms(steps, steps.len() as int)
}

/// Step `i` is the one that runs `elapsed_ms` after the start of the ramp.
pub open spec fn is_active(steps: Seq<RampStep>, i: int, elapsed_ms: nat) -> bool {
    &&& 0 <= i < steps.len()
    &&& held_ms(steps, i) <= elapsed_ms < held_ms(steps, i + 1)
}

/// `tps` is the rate of the step that runs `elapsed_ms` after the start of the ramp. The
/// last millisecond that a `u64` can tell is past every ramp.
pub open spec fn is_current_rate(steps: Seq<RampStep>, elapsed_ms: u64, tps: Option<u64>) -> bool {
    match tps {
        Some(t) => elapsed_ms < u64::MAX && exists|i: int|
            #[trigger] is_active(steps, i, elapsed_ms as nat) && t == steps[i].tps,
        None => elapsed_ms == u64::MAX || elapsed_ms >= total_ms(steps),
    }
}

/// The windows are those of the steps of a ramp that starts at `start`.
pub open spec fn is_plan(steps: Seq<RampStep>, start: Instant, windows: Seq<RampWindow>) -> bool {
    &&& windows.len() == steps.len()
    &&& forall|i: int|
        0 <= i < steps.len() ==> {
            &&& (#[trigger] windows[i]).step_idx == i
            &&& windows[i].tps == steps[i].tps
            &&& windows[i].start.nanos == start.nanos + held_ms(steps, i) * 1_000_000
            &&& windows[i].end.nanos == start.nanos + held_ms(steps, i + 1) * 1_000_000
        }
}

pub proof fn lemma_held_grows(steps: Seq<RampStep>, m: int, n: int)
    requires
        0 <= m <= n,
    ensures
        held_ms(steps, m) <= held_ms(steps, n),
    decreases n - m,
{
    if m < n {
        lemma_held_grows(steps, m, n - 1);
    }
}

/// Deterministic ramp planner: steps are applied strictly in order.
#[derive(Debug, Clone)]
pub struct RampPlanner {
    steps: Vec<RampStep>,
}

impl View for RampPlanner {
    type V = Seq<RampStep>;

    /// The steps of the ramp, in order.
    closed spec fn view(&self) -> Seq<RampStep> {
        self.steps@
    }
}

impl RampPlanner {
    pub fn new(config: RampConfig) -> (p: Self)
        ensures
            p@ == config.steps@,
    {
        RampPlanner { steps: config.steps }
    }

    /// The steps, strictly in order.
    pub fn steps(&self) -> (s: &[RampStep])
        ensures
            s@ == self@,
    {
        self.steps.as_slice()
    }

    /// Total duration of all ramp steps in milliseconds, where it fits into a `u64`.
    pub fn checked_total_duration_ms(&self) -> (ms: Option<u64>)
        ensures
            match ms {
                Some(ms) => ms == total_ms(self@),
                None => total_ms(self@) > u64::MAX,
            },
    {
        let mut total: u64 = 0;
        let mut i: usize = 0;
        while i < self.steps.len()
            invariant
                i <= self.steps.len(),
                total == held_ms(self@, i as int),
            decreases self.steps.len() - i,
        {
            match total.checked_add(self.steps[i].hold_ms) {
                Some(t) => {
                    total = t;
                },
                None => {
                    proof {
                        lemma_held_grows(self@, i + 1, self@.len() as int);
                    }
                    return None;
                },
            }
            i = i + 1;
        }
        Some(total)
    }

    /// Total duration of all ramp steps in milliseconds.
    pub fn total_duration_ms(&self) -> (ms: u64)
        requires
            total_ms(self@) <= u64::MAX,
        ensures
            ms == total_ms(self@),
    {
        self.checked_total_duration_ms().unwrap()
    }

    /// Generate the sequence of ramp windows with absolute timestamps
    pub fn plan(&self, start: Instant) -> (windows: Vec<RampWindow>)
        requires
            start.nanos + total_ms(self@) * 1_000_000 <= u128::MAX,
        ensures
            is_plan(self@, start, windows@),
    {
        let mut windows: Vec<RampWindow> = Vec::new();
        let mut current: Instant = start;
        let mut idx: usize = 0;
        while idx < self.steps.len()
            invariant
                idx <= self.steps.len(),
                start.nanos + total_ms(self@) * 1_000_000 <= u128::MAX,
                current.nanos == start.nanos + held_ms(self@, idx as int) * 1_000_000,
                windows@.len() == idx,
                forall|i: int|
                    0 <= i < idx ==> {
                        &&& (#[trigger] windows@[i]).step_idx == i
                        &&& windows@[i].tps == self@[i].tps
                        &&& windows@[i].start.nanos == start.nanos + held_ms(self@, i) * 1_000_000
                        &&& windows@[i].end.nanos == start.nanos + held_ms(self@, i + 1)
                            * 1_000_000
                    },
            decreases self.steps.len() - idx,
        {
            proof {
                lemma_held_grows(self@, idx + 1, self@.len() as int);
            }
            let step: RampStep = self.steps[idx];
            let end: Instant = current.plus_millis(step.hold_ms);
            windows.push(RampWindow { step_idx: idx, start: current, end, tps: step.tps });
            current = end;
            idx = idx + 1;
        }
        windows
    }

    /// Current target TPS at a given elapsed time in ms (pure function). The last
    /// millisecond that a `u64` can tell is past every ramp.
    pub fn current_tps(&self, elapsed_ms: u64) -> (tps: Option<u64>)
        ensures
            is_current_rate(self@, elapsed_ms, tps),
    {
        let mut cumulative_ms: u64 = 0;
        let mut i: usize = 0;
        while i < self.steps.len()
            invariant
                i <= self.steps.len(),
                cumulative_ms == least(held_ms(self@, i as int) as int, u64::MAX as int),
                cumulative_ms <= elapsed_ms,
            decreases self.steps.len() - i,
        {
            let end: u64 = cumulative_ms.saturating_add(self.steps[i].hold_ms);
            if elapsed_ms < end {
                assert(is_active(self@, i as int, elapsed_ms as nat));
                return Some(self.steps[i].tps);
            }
            cumulative_ms = end;
            i = i + 1;
        }
        None
    }
}

/// At most one step is active at a time, so the current rate is unambiguous.
pub proof fn law_one_step_at_a_time(steps: Seq<RampStep>, i: int, j: int, elapsed_ms: nat)
    requires
        is_active(steps, i, elapsed_ms),
        is_active(steps, j, elapsed_ms),
    ensures
        i == j,
{
    if i < j {
        lemma_held_grows(steps, i + 1, j);
    }
    if j < i {
        lemma_held_grows(steps, j + 1, i);
    }
}

/// Steps are applied strictly in order: a later time never has an earlier step.
pub proof fn law_steps_in_order(steps: Seq<RampStep>, i: int, j: int, a: nat, b: nat)
    requires
        a <= b,
        is_active(steps, i, a),
        is_active(steps, j, b),
    ensures
        i <= j,
{
    if j < i {
        lemma_held_grows(steps, j + 1, i);
    }
}

/// Until the total duration is over some step is active, and then none is.
pub proof fn law_ramp_covers_its_duration(steps: Seq<RampStep>, elapsed_ms: nat)
    ensures
        elapsed_ms < total_ms(steps) <==> exists|i: int| is_active(steps, i, elapsed_ms),
{
    if elapsed_ms < total_ms(steps) {
        lemma_some_step(steps, steps.len() as int, elapsed_ms);
    }
    if exists|i: int| is_active(steps, i, elapsed_ms) {
        let i = choose|i: int| is_active(steps, i, elapsed_ms);
        lemma_held_grows(steps, i + 1, steps.len() as int);
    }
}

proof fn lemma_some_step(steps: Seq<RampStep>, n: int, elapsed_ms: nat)
    requires
        0 <= n <= steps.len(),
        elapsed_ms < held_ms(steps, n),
    ensures
        exists|i: int| is_active(steps, i, elapsed_ms),
    decreases n,
{
    if n > 0 {
        if held_ms(steps, n - 1) <= elapsed_ms {
            assert(is_active(steps, n - 1, elapsed_ms));
        } else {
            lemma_some_step(steps, n - 1, elapsed_ms);
        }
    }
}

/// The planned windows and the current rate agree: `elapsed_ms` after the start of
/// the plan lies in the window of exactly the active step.
pub proof fn law_plan_agrees_with_rate(
    steps: Seq<RampStep>,
    start: Instant,
    w: RampWindow,
    i: int,
    elapsed_ms: nat,
)
    requires
        0 <= i < steps.len(),
        w.start.nanos == start.nanos + held_ms(steps, i) * 1_000_000,
        w.end.nanos == start.nanos + held_ms(steps, i + 1) * 1_000_000,
    ensures
        w.start.nanos <= start.nanos + elapsed_ms * 1_000_000 < w.end.nanos <==> is_active(
            steps,
            i,
            elapsed_ms,
        ),
{
}

/// Planned windows follow each other without gap, from the start on.
pub proof fn law_plan_has_no_gaps(
    steps: Seq<RampStep>,
    start: Instant,
    windows: Seq<RampWindow>,
    i: int,
)
    requires
        windows.len() == steps.len(),
        forall|k: int|
            0 <= k < steps.len() ==> {
                &&& (#[trigger] windows[k]).start.nanos == start.nanos + held_ms(steps, k)
                    * 1_000_000
                &&& windows[k].end.nanos == start.nanos + held_ms(steps, k + 1) * 1_000_000
            },
        0 <= i < windows.len(),
    ensures
        i == 0 ==> windows[i].start == start,
        i + 1 < windows.len() ==> windows[i].end == windows[i + 1].start,
        i + 1 == windows.len() ==> windows[i].end.nanos == start.nanos + total_ms(steps)
            * 1_000_000,
        windows[i].end.nanos - windows[i].start.nanos == steps[i].hold_ms * 1_000_000,
{
    assert(held_ms(steps, 0) == 0);
}

/// The first step is active from the start until it was held, and the rest of the ramp
/// follows: what runs then runs as if the ramp began with the second step.
pub proof fn law_ramp_goes_on_after_its_first_step(steps: Seq<RampStep>, i: int, elapsed_ms: nat)
    requires
        steps.len() > 0,
        i >= 0,
    ensures
        is_active(steps, 0, elapsed_ms) <==> elapsed_ms < steps[0].hold_ms,
        is_active(steps, i + 1, steps[0].hold_ms as nat + elapsed_ms) <==> is_active(
            steps.drop_first(),
            i,
            elapsed_ms,
        ),
        total_ms(steps) == steps[0].hold_ms + total_ms(steps.drop_first()),
        total_ms(Seq::<RampStep>::empty()) == 0,
{
    assert(held_ms(steps, 0) == 0);
    assert(held_ms(steps, 1) == steps[0].hold_ms);
    if i < steps.len() - 1 {
        lemma_held_shifts(steps, i);
        lemma_held_shifts(steps, i + 1);
    }
    lemma_held_shifts(steps, steps.len() - 1);
}

proof fn lemma_held_shifts(steps: Seq<RampStep>, n: int)
    requires
        0 <= n <= steps.len() - 1,
    ensures
        held_ms(steps, n + 1) == steps[0].hold_ms + held_ms(steps.drop_first(), n),
    decreases n,
{
    if n > 0 {
        lemma_held_shifts(steps, n - 1);
    } else {
        assert(held_ms(steps, 0) == 0);
    }
}

/// The current rate is that of the one step that is active, and only the last millisecond
/// that a `u64` can tell has none within a ramp.
pub proof fn law_current_rate_is_that_of_the_active_step(
    steps: Seq<RampStep>,
    elapsed_ms: u64,
    tps: Option<u64>,
    i: int,
)
    requires
        is_current_rate(steps, elapsed_ms, tps),
    ensures
        is_active(steps, i, elapsed_ms as nat) && elapsed_ms < u64::MAX ==> tps == Some(
            steps[i].tps,
        ),
        elapsed_ms >= total_ms(steps) ==> tps is None,
        elapsed_ms < total_ms(steps) && elapsed_ms < u64::MAX ==> tps is Some,
{
    law_ramp_covers_its_duration(steps, elapsed_ms as nat);
    if let Some(t) = tps {
        let j = choose|j: int|
            #[trigger] is_active(steps, j, elapsed_ms as nat) && t == steps[j].tps;
        if is_active(steps, i, elapsed_ms as nat) {
            law_one_step_at_a_time(steps, i, j, elapsed_ms as nat);
        }
    } else if is_active(steps, i, elapsed_ms as nat) {
        lemma_held_grows(steps, i + 1, steps.len() as int);
    }
}

/// A plan follows its ramp: the windows come in the order of the steps, each with the rate
/// and the length of its own, the first at the start and each other where the one before
/// it ends.
pub proof fn law_plan_follows_the_ramp(
    steps: Seq<RampStep>,
    start: Instant,
    windows: Seq<RampWindow>,
    i: int,
)
    requires
        is_plan(steps, start, windows),
        0 <= i < steps.len(),
    ensures
        windows.len() == steps.len(),
        windows[i].step_idx == i,
        windows[i].tps == steps[i].tps,
        windows[i].end.nanos == windows[i].start.nanos + steps[i].hold_ms * 1_000_000,
        windows[0].start == start,
        i > 0 ==> windows[i].start == windows[i - 1].end,
{
    law_plan_has_no_gaps(steps, start, windows, i);
    law_plan_has_no_gaps(steps, start, windows, 0);
    if i > 0 {
        law_plan_has_no_gaps(steps, start, windows, i - 1);
    }
}

} // verus!
