//! The course of a run: its ramp steps, their windows, and the payments in them.

use vstd::prelude::*;
use crate::config::{Config, RampStep};
use crate::ramp::{held_ms, lemma_held_grows, total_ms};
use crate::worker::payment::{PaymentCursor, PaymentPlan, PaymentRequest};
use crate::worker::schedule::{due_by, launched_in, law_windows_tile_the_step, lemma_due_bounds};
use crate::worker::schedule::{lemma_due_grows, step_window, window_count, window_length};
use crate::worker::schedule::{law_due_keeps_up_with_the_rate, law_step_launches};
use crate::worker::schedule::{Launch, LaunchWindow};

verus! {

/// What to do next in a run.
#[derive(Debug, Clone, Copy, PartialEq, Eq, Structural)]
pub enum RunAction {
    /// A ramp step starts now.
    StartStep { step_idx: usize, tps: u64, hold_ms: u64 },
    /// Sleep until this many milliseconds after the start of the step.
    SleepUntil { offset_ms: u64 },
    /// Launch one payment.
    Launch,
    /// The run is over.
    Done,
}

/// Where a run stands.
pub struct RunState {
    /// The ramp step.
    pub step: nat,
    /// Whether the step has started.
    pub started: bool,
    /// The window of the step.
    pub window: nat,
    /// How many milliseconds of the window have begun.
    pub begun_ms: nat,
    /// How many payments of the window were launched.
    pub launched: nat,
}

impl RunState {
    /// The start of a ramp step.
    pub open spec fn at_step(step: nat) -> RunState {
        RunState { step, started: false, window: 0, begun_ms: 0, launched: 0 }
    }

    /// The start of a window of the step.
    pub open spec fn at_window(self, window: nat) -> RunState {
        RunState { step: self.step, started: true, window, begun_ms: 0, launched: 0 }
    }

    /// Whether the state is in a window of the step `s`.
    pub open spec fn in_window(self, s: RampStep) -> bool {
        self.started && self.window < window_count(s.hold_ms as nat)
    }

    /// How many payments of the window are due.
    pub open spec fn due(self, s: RampStep) -> nat {
        due_by(s.tps as nat, window_length(s.hold_ms as nat, self.window), self.begun_ms)
    }

    /// Never more payments were launched than are due.
    pub open spec fn wf(self, steps: Seq<RampStep>) -> bool {
        &&& self.step <= steps.len()
        &&& self.step == steps.len() ==> !self.started
        &&& !self.started ==> self == RunState::at_step(self.step)
        &&& self.step < steps.len() && self.in_window(steps[self.step as int]) ==> {
            let s = steps[self.step as int];
            &&& self.begun_ms <= window_length(s.hold_ms as nat, self.window)
            &&& self.launched <= self.due(s)
        }
        &&& self.step < steps.len() && self.started && !self.in_window(steps[self.step as int])
            ==> self == self.at_window(window_count(steps[self.step as int].hold_ms as nat))
    }
}

/// The next action of a run, and where the run stands then.
///
/// Each step starts, goes through its windows in order, and makes way for the next. In
/// a window, what is due is launched before the next sleep.
pub open spec fn run_next(steps: Seq<RampStep>, r: RunState) -> (RunState, RunAction)
    decreases
            steps.len() - r.step,
            if r.started && r.step < steps.len() {
                window_count(steps[r.step as int].hold_ms as nat) - r.window
            } else {
                0
            },
{
    if r.step >= steps.len() {
        (r, RunAction::Done)
    } else {
        let s = steps[r.step as int];
        if !r.started {
            (
                r.at_window(0),
                RunAction::StartStep {
                    step_idx: r.step as usize,
                    tps: s.tps,
                    hold_ms: s.hold_ms,
                },
            )
        } else if !r.in_window(s) {
            run_next(steps, RunState::at_step(r.step + 1))
        } else if r.launched < r.due(s) {
            (RunState { launched: r.launched + 1, ..r }, RunAction::Launch)
        } else if r.begun_ms < window_length(s.hold_ms as nat, r.window) {
            (
                RunState { begun_ms: r.begun_ms + 1, ..r },
                RunAction::SleepUntil { offset_ms: (r.window * 1000 + r.begun_ms) as u64 },
            )
        } else {
            run_next(steps, r.at_window(r.window + 1))
        }
    }
}

/// A run under way.
#[derive(Debug)]
pub struct LoadRun {
    steps: Vec<RampStep>,
    step: usize,
    started: bool,
    window: u64,
    launch: LaunchWindow,
}

impl View for LoadRun {
    type V = RunState;

    closed spec fn view(&self) -> RunState {
        RunState {
            step: self.step as nat,
            started: self.started,
            window: self.window as nat,
            begun_ms: self.launch.begun_ms(),
            launched: self.launch.launched(),
        }
    }
}

/// A window of the step with this index, or an empty one behind the last.
fn open_window(step: RampStep, index: u64) -> (w: LaunchWindow)
    ensures
        w.wf(),
        w.tps() == step.tps,
        w.begun_ms() == 0,
        w.launched() == 0,
        index < window_count(step.hold_ms as nat) ==> w.window_ms() == window_length(
            step.hold_ms as nat,
            index as nat,
        ),
{
    match step_window(step.hold_ms, index) {
        Some(w) => LaunchWindow::new(step.tps, w.length_ms),
        None => LaunchWindow::new(step.tps, 0),
    }
}

impl LoadRun {
    /// The steps of the ramp.
    pub closed spec fn steps(&self) -> Seq<RampStep> {
        self.steps@
    }

    /// The window under way is that of the step.
    pub closed spec fn is_current(&self) -> bool {
        self.step < self.steps@.len() && self@.in_window(self.steps@[self.step as int]) ==> {
            let s = self.steps@[self.step as int];
            &&& self.launch.wf()
            &&& self.launch.tps() == s.tps
            &&& self.launch.window_ms() == window_length(s.hold_ms as nat, self.window as nat)
        }
    }

    pub open spec fn wf(&self) -> bool {
        &&& self.is_current()
        &&& self@.wf(self.steps())
    }

    /// A run over the steps of a ramp, before its first step.
    pub fn new(steps: Vec<RampStep>) -> (r: LoadRun)
        ensures
            r.wf(),
            r.steps() == steps@,
            r@ == RunState::at_step(0),
    {
        LoadRun { steps, step: 0, started: false, window: 0, launch: LaunchWindow::new(0, 0) }
    }

    /// The next thing to do in the run.
    pub fn next(&mut self) -> (action: RunAction)
        requires
            old(self).wf(),
        ensures
            final(self).wf(),
            final(self).steps() == old(self).steps(),
            (final(self)@, action) == run_next(old(self).steps(), old(self)@),
    {
        loop
            invariant
                self.wf(),
                self.steps@ == old(self).steps@,
                run_next(self.steps@, self@) == run_next(old(self).steps@, old(self)@),
            decreases
                    self.steps@.len() - self.step,
                    if self.started && self.step < self.steps@.len() {
                        window_count(self.steps@[self.step as int].hold_ms as nat) - self.window
                    } else {
                        0
                    },
        {
            if self.step >= self.steps.len() {
                return RunAction::Done;
            }
            let s: RampStep = self.steps[self.step];
            if !self.started {
                self.started = true;
                self.window = 0;
                self.launch = open_window(s, 0);
                return RunAction::StartStep {
                    step_idx: self.step,
                    tps: s.tps,
                    hold_ms: s.hold_ms,
                };
            }
            match step_window(s.hold_ms, self.window) {
                None => {
                    self.step = self.step + 1;
                    self.started = false;
                    self.window = 0;
                    self.launch = LaunchWindow::new(0, 0);
                },
                Some(w) => {
                    proof {
                        law_windows_tile_the_step(s.hold_ms as nat, self.window as nat);
                        lemma_due_bounds(
                            s.tps as nat,
                            w.length_ms as nat,
                            self.launch.begun_ms(),
                        );
                    }
                    match self.launch.next() {
                        Launch::Payment => {
                            return RunAction::Launch;
                        },
                        Launch::SleepUntil { offset_ms } => {
                            proof {
                                lemma_due_grows(
                                    s.tps as nat,
                                    w.length_ms as nat,
                                    offset_ms as nat,
                                );
                            }
                            return RunAction::SleepUntil { offset_ms: w.offset_ms + offset_ms };
                        },
                        Launch::Done => {
                            self.window = self.window + 1;
                            self.launch = open_window(s, self.window);
                        },
                    }
                },
            }
        }
    }
}

/// What the payments of a load test are made of, and where the test stands.
#[derive(Debug)]
pub struct LoadTest {
    run: LoadRun,
    plan: PaymentPlan,
    cursor: PaymentCursor,
}

impl LoadTest {
    /// The steps of the ramp.
    pub closed spec fn steps(&self) -> Seq<RampStep> {
        self.run.steps()
    }

    /// Where the run stands.
    pub closed spec fn state(&self) -> RunState {
        self.run@
    }

    /// What the payments have in common.
    pub closed spec fn plan(&self) -> PaymentPlan {
        self.plan
    }

    /// Where the payments stand.
    pub closed spec fn cursor(&self) -> PaymentCursor {
        self.cursor
    }

    /// The window under way is that of the step.
    pub closed spec fn is_current(&self) -> bool {
        self.run.is_current()
    }

    pub open spec fn wf(&self) -> bool {
        &&& self.is_current()
        &&& self.state().wf(self.steps())
    }

    /// A load test before its first ramp step.
    pub fn new(config: Config, recipients: Vec<String>) -> (t: LoadTest)
        ensures
            t.wf(),
            t.steps() == config.ramp.steps@,
            t.state() == RunState::at_step(0),
            t.plan() == PaymentPlan::of(config, recipients),
            t.cursor() == (PaymentCursor { url_idx: 0, to_idx: 0, seq: 0 }),
    {
        let steps = config.ramp.steps;
        LoadTest {
            run: LoadRun::new(steps),
            plan: PaymentPlan {
                rpc_urls: config.target.rpc_urls,
                recipients,
                seed: config.scenario.seed,
                memo_base: config.scenario.memo,
                from: config.payment.from,
                signing_key: config.payment.signing_key,
                amount_atomic: config.payment.amount_atomic,
                fee_atomic: config.payment.fee_atomic,
            },
            cursor: PaymentCursor::new(),
        }
    }

    /// The next thing to do. In each ramp step payments are numbered from zero.
    pub fn next(&mut self) -> (action: RunAction)
        requires
            old(self).wf(),
        ensures
            final(self).wf(),
            final(self).steps() == old(self).steps(),
            final(self).plan() == old(self).plan(),
            (final(self).state(), action) == run_next(old(self).steps(), old(self).state()),
            final(self).cursor() == (if action is StartStep {
                PaymentCursor { seq: 0, ..old(self).cursor() }
            } else {
                old(self).cursor()
            }),
    {
        let action = self.run.next();
        match action {
            RunAction::StartStep { .. } => {
                self.cursor.start_step();
            },
            _ => {},
        }
        action
    }

    /// Whether there is a URL to send to and a recipient to pay.
    pub fn can_pay(&self) -> (b: bool)
        ensures
            b == self.plan().wf(),
    {
        self.plan.rpc_urls.len() > 0 && self.plan.recipients.len() > 0
    }

    /// The payment to launch now.
    pub fn payment(&mut self) -> (r: PaymentRequest)
        requires
            old(self).wf(),
            old(self).plan().wf(),
        ensures
            final(self).wf(),
            final(self).steps() == old(self).steps(),
            final(self).plan() == old(self).plan(),
            final(self).state() == old(self).state(),
            old(self).plan().is_payment(old(self).cursor(), r),
            final(self).cursor() == old(self).cursor().after_payment(),
    {
        self.plan.next_payment(&mut self.cursor)
    }
}

/// How many payments the worker launches over a whole ramp.
pub open spec fn launched_over(steps: Seq<RampStep>) -> nat
    decreases steps.len(),
{
    if steps.len() == 0 {
        0
    } else {
        let s = steps.last();
        launched_over(steps.drop_last()) + launched_in(
            s.tps as nat,
            s.hold_ms as nat,
            window_count(s.hold_ms as nat),
        )
    }
}

/// How many payments were launched before the run came to stand at `r`.
pub open spec fn launched_so_far(steps: Seq<RampStep>, r: RunState) -> nat {
    launched_over(steps.take(r.step as int)) + if r.started {
        let s = steps[r.step as int];
        launched_in(s.tps as nat, s.hold_ms as nat, r.window) + r.launched
    } else {
        0
    }
}

/// How many milliseconds of the ramp had begun before the run came to stand at `r`.
pub open spec fn slept_so_far(steps: Seq<RampStep>, r: RunState) -> nat {
    held_ms(steps, r.step as int) + if r.in_window(steps[r.step as int]) {
        r.window * 1000 + r.begun_ms
    } else if r.started {
        steps[r.step as int].hold_ms as nat
    } else {
        0
    }
}

/// How many steps were started before the run came to stand at `r`.
pub open spec fn started_so_far(r: RunState) -> nat {
    if r.started {
        r.step + 1
    } else {
        r.step
    }
}

/// How many actions are still to come before the run is over: every step that was not
/// started, every millisecond that has not begun, and every payment that was not launched.
pub open spec fn actions_left(steps: Seq<RampStep>, r: RunState) -> nat {
    ((steps.len() - started_so_far(r)) + (total_ms(steps) - slept_so_far(steps, r)) + (
    launched_over(steps) - launched_so_far(steps, r))) as nat
}

/// Where a run that stands at `r` stands `n` actions later.
pub open spec fn after_actions(steps: Seq<RampStep>, r: RunState, n: nat) -> RunState
    decreases n,
{
    if n == 0 {
        r
    } else {
        after_actions(steps, run_next(steps, r).0, (n - 1) as nat)
    }
}

/// A run never does more than its ramp asks for.
pub proof fn law_run_is_bounded(steps: Seq<RampStep>, r: RunState)
    requires
        r.wf(steps),
    ensures
        started_so_far(r) <= steps.len(),
        slept_so_far(steps, r) <= total_ms(steps),
        launched_so_far(steps, r) <= launched_over(steps),
{
    assert(steps.take(steps.len() as int) =~= steps);
    if r.step < steps.len() {
        let s = steps[r.step as int];
        lemma_held_grows(steps, r.step as int + 1, steps.len() as int);
        lemma_launched_grows(steps, r.step as int + 1, steps.len() as int);
        assert(steps.take(r.step as int + 1).drop_last() =~= steps.take(r.step as int));
        if r.in_window(s) {
            law_windows_tile_the_step(s.hold_ms as nat, r.window);
            lemma_due_bounds(
                s.tps as nat,
                window_length(s.hold_ms as nat, r.window),
                r.begun_ms,
            );
            lemma_launched_in_grows(
                s.tps as nat,
                s.hold_ms as nat,
                r.window + 1,
                window_count(s.hold_ms as nat),
            );
        }
    }
}

proof fn lemma_launched_grows(steps: Seq<RampStep>, m: int, n: int)
    requires
        0 <= m <= n <= steps.len(),
    ensures
        launched_over(steps.take(m)) <= launched_over(steps.take(n)),
    decreases n - m,
{
    if m < n {
        lemma_launched_grows(steps, m, n - 1);
        assert(steps.take(n).drop_last() =~= steps.take(n - 1));
    }
}

proof fn lemma_launched_in_grows(tps: nat, hold_ms: nat, m: nat, n: nat)
    requires
        m <= n,
    ensures
        launched_in(tps, hold_ms, m) <= launched_in(tps, hold_ms, n),
    decreases n - m,
{
    if m < n {
        lemma_launched_in_grows(tps, hold_ms, m, (n - 1) as nat);
    }
}

/// A run ends: each action that is not the last brings it one closer to its end, and it is
/// over after exactly as many actions as were left.
pub proof fn law_run_ends(steps: Seq<RampStep>, r: RunState)
    requires
        r.wf(steps),
    ensures
        run_next(steps, r).1 is Done <==> actions_left(steps, r) == 0,
        !(run_next(steps, r).1 is Done) ==> actions_left(steps, run_next(steps, r).0) + 1
            == actions_left(steps, r),
        run_next(steps, after_actions(steps, r, actions_left(steps, r))).1 is Done,
    decreases actions_left(steps, r),
{
    let (next, action) = run_next(steps, r);
    law_run_is_complete(steps, r);
    law_run_is_bounded(steps, r);
    law_run_is_bounded(steps, next);
    if !(action is Done) {
        law_run_ends(steps, next);
    }
}

/// A run starts every step of its ramp once, sleeps once for each of its milliseconds, in
/// order, and launches exactly the payments that are due; then it is over.
pub proof fn law_run_is_complete(steps: Seq<RampStep>, r: RunState)
    requires
        r.wf(steps),
    ensures
        ({
            let (next, action) = run_next(steps, r);
            &&& next.wf(steps)
            &&& started_so_far(next) == started_so_far(r) + if action is StartStep {
                1nat
            } else {
                0
            }
            &&& slept_so_far(steps, next) == slept_so_far(steps, r) + if action is SleepUntil {
                1nat
            } else {
                0
            }
            &&& launched_so_far(steps, next) == launched_so_far(steps, r) + if action is Launch {
                1nat
            } else {
                0
            }
            &&& action matches RunAction::SleepUntil { offset_ms } ==> slept_so_far(steps, r)
                == held_ms(steps, next.step as int) + offset_ms
            &&& action is Done ==> {
                &&& started_so_far(r) == steps.len()
                &&& slept_so_far(steps, r) == total_ms(steps)
                &&& launched_so_far(steps, r) == launched_over(steps)
            }
        }),
    decreases
            steps.len() - r.step,
            if r.started && r.step < steps.len() {
                window_count(steps[r.step as int].hold_ms as nat) - r.window
            } else {
                0
            },
{
    if r.step == steps.len() {
        assert(steps.take(steps.len() as int) =~= steps);
    } else {
        let s = steps[r.step as int];
        if r.started {
            if !r.in_window(s) {
                let next = RunState::at_step(r.step + 1);
                assert(steps.take(r.step as int + 1).drop_last() =~= steps.take(r.step as int));
                assert(launched_so_far(steps, next) == launched_so_far(steps, r));
                law_run_is_complete(steps, next);
            } else {
                law_windows_tile_the_step(s.hold_ms as nat, r.window);
                let length = window_length(s.hold_ms as nat, r.window);
                lemma_due_bounds(s.tps as nat, length, r.begun_ms);
                lemma_due_grows(s.tps as nat, length, r.begun_ms);
                if r.launched == r.due(s) && r.begun_ms == length {
                    law_run_is_complete(steps, r.at_window(r.window + 1));
                }
            }
        }
    }
}

/// A run starts with nothing done.
pub proof fn law_run_starts_from_nothing(steps: Seq<RampStep>)
    ensures
        ({
            let r = RunState::at_step(0);
            &&& r.wf(steps)
            &&& started_so_far(r) == 0
            &&& slept_so_far(steps, r) == 0
            &&& launched_so_far(steps, r) == 0
        }),
{
    assert(steps.take(0) =~= Seq::<RampStep>::empty());
}

/// A run keeps its rate: it is never ahead of `tps` payments per second, and never behind
/// when it sleeps.
pub proof fn law_run_keeps_its_rate(steps: Seq<RampStep>, r: RunState)
    requires
        r.wf(steps),
        r.step < steps.len(),
        r.in_window(steps[r.step as int]),
    ensures
        r.launched * 1000 <= steps[r.step as int].tps * r.begun_ms,
        run_next(steps, r).1 is SleepUntil ==> r.launched == r.due(steps[r.step as int]),
{
}

/// When a run sleeps, it has launched what the milliseconds that have begun in the window
/// are worth at the rate of the step, rounded down.
pub proof fn law_run_sleeps_on_schedule(steps: Seq<RampStep>, r: RunState)
    requires
        r.wf(steps),
        r.step < steps.len(),
        r.in_window(steps[r.step as int]),
        run_next(steps, r).1 is SleepUntil,
    ensures
        r.launched * 1000 <= steps[r.step as int].tps * r.begun_ms < (r.launched + 1) * 1000,
{
    let s = steps[r.step as int];
    law_run_keeps_its_rate(steps, r);
    law_windows_tile_the_step(s.hold_ms as nat, r.window);
    let length = window_length(s.hold_ms as nat, r.window);
    assert(s.tps * r.begun_ms <= s.tps * 1000) by (nonlinear_arith)
        requires
            r.begun_ms <= 1000,
            0 <= s.tps,
    ;
    law_due_keeps_up_with_the_rate(s.tps, length, r.begun_ms);
}

/// A step that starts is the next one of the ramp, and is told with its own rate and
/// length.
pub proof fn law_steps_start_in_order(steps: Seq<RampStep>, r: RunState)
    requires
        r.wf(steps),
        steps.len() <= usize::MAX,
    ensures
        run_next(steps, r).1 matches RunAction::StartStep { step_idx, tps, hold_ms } ==> {
            &&& step_idx == started_so_far(r) < steps.len()
            &&& tps == steps[step_idx as int].tps
            &&& hold_ms == steps[step_idx as int].hold_ms
        },
    decreases
            steps.len() - r.step,
            if r.started && r.step < steps.len() {
                window_count(steps[r.step as int].hold_ms as nat) - r.window
            } else {
                0
            },
{
    if r.step < steps.len() && r.started {
        let s = steps[r.step as int];
        if !r.in_window(s) {
            law_steps_start_in_order(steps, RunState::at_step(r.step + 1));
        } else {
            law_windows_tile_the_step(s.hold_ms as nat, r.window);
            let length = window_length(s.hold_ms as nat, r.window);
            lemma_due_bounds(s.tps as nat, length, r.begun_ms);
            if r.launched == r.due(s) && r.begun_ms == length {
                law_steps_start_in_order(steps, r.at_window(r.window + 1));
            }
        }
    }
}

/// A ramp launches `tps` payments for each full second of each of its steps, and the share
/// of the rest, rounded down.
pub proof fn law_ramp_launches(steps: Seq<RampStep>, s: RampStep)
    ensures
        launched_over(Seq::<RampStep>::empty()) == 0,
        launched_over(steps.push(s)) == launched_over(steps) + s.tps * (s.hold_ms as nat / 1000)
            + s.tps * (s.hold_ms as nat % 1000) / 1000,
{
    assert(steps.push(s).drop_last() =~= steps);
    law_step_launches(s.tps, s.hold_ms);
}

} // verus!
