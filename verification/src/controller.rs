//! The controller: ramp schedule, dry run, and merging of worker results.

use vstd::prelude::*;
use crate::config::RampStep;
use crate::decimal::{decimal, labelled, labelled_of, law_decimal_is_injective, to_decimal};
use crate::ramp::{total_ms, RampPlanner};
use crate::worker::report::{lemma_shows, output_path_of, shows};
use crate::text::{ends_with, has_prefix, has_suffix, push_line, starts_with, texts};

verus! {

/// The hosts that workers are started on.
#[derive(Debug, Clone)]
pub struct ControllerConfig {
    pub worker_hosts: Vec<String>,
}

/// The result of one worker, as far as it is merged.
#[derive(Debug)]
pub struct WorkerResult {
    pub worker_id: String,
    pub timestamp: String,
    pub duration_ms: u64,
    pub attempted: u64,
    pub sent: u64,
    pub accepted: u64,
    pub rejected: u64,
    pub errors: u64,
    pub timeouts: u64,
    pub latency_p50_ms: u64,
    pub latency_p95_ms: u64,
    pub latency_p99_ms: u64,
    pub achieved_tps: u64,
}

/// The results of all workers together.
#[derive(Debug)]
pub struct MergedResult {
    pub timestamp: String,
    pub worker_count: usize,
    pub total_duration_ms: u64,
    pub total_attempted: u64,
    pub total_sent: u64,
    pub total_accepted: u64,
    pub total_rejected: u64,
    pub total_errors: u64,
    pub total_timeouts: u64,
    pub avg_latency_p50_ms: u64,
    pub avg_latency_p95_ms: u64,
    pub avg_latency_p99_ms: u64,
    pub total_achieved_tps: u64,
    pub workers: Vec<WorkerResult>,
}

/// Sums over all workers, and the longest duration.
pub struct Totals {
    pub longest_ms: nat,
    pub attempted: nat,
    pub sent: nat,
    pub accepted: nat,
    pub rejected: nat,
    pub errors: nat,
    pub timeouts: nat,
    pub p50_ms: nat,
    pub p95_ms: nat,
    pub p99_ms: nat,
    pub tps: nat,
}

/// Sums over all workers, and the longest duration.
pub open spec fn totals(ws: Seq<WorkerResult>) -> Totals
    decreases ws.len(),
{
    if ws.len() == 0 {
        Totals {
            longest_ms: 0,
            attempted: 0,
            sent: 0,
            accepted: 0,
            rejected: 0,
            errors: 0,
            timeouts: 0,
            p50_ms: 0,
            p95_ms: 0,
            p99_ms: 0,
            tps: 0,
        }
    } else {
        let t = totals(ws.drop_last());
        let w = ws.last();
        Totals {
            longest_ms: if w.duration_ms > t.longest_ms {
                w.duration_ms as nat
            } else {
                t.longest_ms
            },
            attempted: t.attempted + w.attempted as nat,
            sent: t.sent + w.sent as nat,
            accepted: t.accepted + w.accepted as nat,
            rejected: t.rejected + w.rejected as nat,
            errors: t.errors + w.errors as nat,
            timeouts: t.timeouts + w.timeouts as nat,
            p50_ms: t.p50_ms + w.latency_p50_ms as nat,
            p95_ms: t.p95_ms + w.latency_p95_ms as nat,
            p99_ms: t.p99_ms + w.latency_p99_ms as nat,
            tps: t.tps + w.achieved_tps as nat,
        }
    }
}

impl Totals {
    /// Every sum fits into a `u64`.
    pub open spec fn fit(self) -> bool {
        &&& self.attempted <= u64::MAX
        &&& self.sent <= u64::MAX
        &&& self.accepted <= u64::MAX
        &&& self.rejected <= u64::MAX
        &&& self.errors <= u64::MAX
        &&& self.timeouts <= u64::MAX
        &&& self.p50_ms <= u64::MAX
        &&& self.p95_ms <= u64::MAX
        &&& self.p99_ms <= u64::MAX
        &&& self.tps <= u64::MAX
    }

    /// No sum is larger than in `other`.
    pub open spec fn within(self, other: Totals) -> bool {
        &&& self.longest_ms <= other.longest_ms
        &&& self.attempted <= other.attempted
        &&& self.sent <= other.sent
        &&& self.accepted <= other.accepted
        &&& self.rejected <= other.rejected
        &&& self.errors <= other.errors
        &&& self.timeouts <= other.timeouts
        &&& self.p50_ms <= other.p50_ms
        &&& self.p95_ms <= other.p95_ms
        &&& self.p99_ms <= other.p99_ms
        &&& self.tps <= other.tps
    }
}

/// The average of a sum over `n` workers, rounded down; 0 for none.
pub open spec fn average(sum: nat, n: nat) -> nat {
    if n > 0 {
        sum / n
    } else {
        0
    }
}

proof fn lemma_totals_grow(ws: Seq<WorkerResult>, m: int, n: int)
    requires
        0 <= m <= n <= ws.len(),
    ensures
        totals(ws.take(m)).within(totals(ws.take(n))),
    decreases n - m,
{
    if m < n {
        lemma_totals_grow(ws, m, n - 1);
        assert(ws.take(n).drop_last() =~= ws.take(n - 1));
    }
}

struct Sums {
    longest_ms: u64,
    attempted: u64,
    sent: u64,
    accepted: u64,
    rejected: u64,
    errors: u64,
    timeouts: u64,
    p50_ms: u64,
    p95_ms: u64,
    p99_ms: u64,
    tps: u64,
}

impl Sums {
    closed spec fn totals(&self) -> Totals {
        Totals {
            longest_ms: self.longest_ms as nat,
            attempted: self.attempted as nat,
            sent: self.sent as nat,
            accepted: self.accepted as nat,
            rejected: self.rejected as nat,
            errors: self.errors as nat,
            timeouts: self.timeouts as nat,
            p50_ms: self.p50_ms as nat,
            p95_ms: self.p95_ms as nat,
            p99_ms: self.p99_ms as nat,
            tps: self.tps as nat,
        }
    }

    fn plus(&self, w: &WorkerResult) -> (sum: Option<Sums>)
        ensures
            sum is Some <==> {
                &&& self.attempted + w.attempted <= u64::MAX
                &&& self.sent + w.sent <= u64::MAX
                &&& self.accepted + w.accepted <= u64::MAX
                &&& self.rejected + w.rejected <= u64::MAX
                &&& self.errors + w.errors <= u64::MAX
                &&& self.timeouts + w.timeouts <= u64::MAX
                &&& self.p50_ms + w.latency_p50_ms <= u64::MAX
                &&& self.p95_ms + w.latency_p95_ms <= u64::MAX
                &&& self.p99_ms + w.latency_p99_ms <= u64::MAX
                &&& self.tps + w.achieved_tps <= u64::MAX
            },
            sum matches Some(s) ==> {
                &&& s.longest_ms == (if w.duration_ms > self.longest_ms {
                    w.duration_ms
                } else {
                    self.longest_ms
                })
                &&& s.attempted == self.attempted + w.attempted
                &&& s.sent == self.sent + w.sent
                &&& s.accepted == self.accepted + w.accepted
                &&& s.rejected == self.rejected + w.rejected
                &&& s.errors == self.errors + w.errors
                &&& s.timeouts == self.timeouts + w.timeouts
                &&& s.p50_ms == self.p50_ms + w.latency_p50_ms
                &&& s.p95_ms == self.p95_ms + w.latency_p95_ms
                &&& s.p99_ms == self.p99_ms + w.latency_p99_ms
                &&& s.tps == self.tps + w.achieved_tps
            },
    {
        Some(
            Sums {
                longest_ms: if w.duration_ms > self.longest_ms {
                    w.duration_ms
                } else {
                    self.longest_ms
                },
                attempted: self.attempted.checked_add(w.attempted)?,
                sent: self.sent.checked_add(w.sent)?,
                accepted: self.accepted.checked_add(w.accepted)?,
                rejected: self.rejected.checked_add(w.rejected)?,
                errors: self.errors.checked_add(w.errors)?,
                timeouts: self.timeouts.checked_add(w.timeouts)?,
                p50_ms: self.p50_ms.checked_add(w.latency_p50_ms)?,
                p95_ms: self.p95_ms.checked_add(w.latency_p95_ms)?,
                p99_ms: self.p99_ms.checked_add(w.latency_p99_ms)?,
                tps: self.tps.checked_add(w.achieved_tps)?,
            },
        )
    }
}

fn sum_up(ws: &[WorkerResult]) -> (sums: Option<Sums>)
    ensures
        match sums {
            Some(s) => s.totals() == totals(ws@) && totals(ws@).fit(),
            None => !totals(ws@).fit(),
        },
{
    let mut sums = Sums {
        longest_ms: 0,
        attempted: 0,
        sent: 0,
        accepted: 0,
        rejected: 0,
        errors: 0,
        timeouts: 0,
        p50_ms: 0,
        p95_ms: 0,
        p99_ms: 0,
        tps: 0,
    };
    let mut i: usize = 0;
    assert(ws@.take(0) =~= Seq::empty());
    assert(ws@.take(ws@.len() as int) =~= ws@);
    while i < ws.len()
        invariant
            i <= ws@.len(),
            sums.totals() == totals(ws@.take(i as int)),
            ws@.take(ws@.len() as int) == ws@,
        decreases ws@.len() - i,
    {
        proof {
            assert(ws@.take(i + 1).drop_last() =~= ws@.take(i as int));
            lemma_totals_grow(ws@, i + 1, ws@.len() as int);
        }
        match sums.plus(&ws[i]) {
            Some(s) => {
                sums = s;
            },
            None => {
                return None;
            },
        }
        i = i + 1;
    }
    Some(sums)
}

/// Whether the sums over all workers fit into 64 bits.
pub fn results_fit(workers: &[WorkerResult]) -> (b: bool)
    ensures
        b == totals(workers@).fit(),
{
    sum_up(workers).is_some()
}

/// Merges the results of workers: counts and rates add up, latencies are averaged,
/// and the longest run counts as the duration.
pub fn merge_results(workers: Vec<WorkerResult>, timestamp: String) -> (m: MergedResult)
    requires
        totals(workers@).fit(),
    ensures
        m.timestamp@ == timestamp@,
        m.worker_count == workers@.len(),
        m.total_duration_ms == totals(workers@).longest_ms,
        m.total_attempted == totals(workers@).attempted,
        m.total_sent == totals(workers@).sent,
        m.total_accepted == totals(workers@).accepted,
        m.total_rejected == totals(workers@).rejected,
        m.total_errors == totals(workers@).errors,
        m.total_timeouts == totals(workers@).timeouts,
        m.avg_latency_p50_ms == average(totals(workers@).p50_ms, workers@.len()),
        m.avg_latency_p95_ms == average(totals(workers@).p95_ms, workers@.len()),
        m.avg_latency_p99_ms == average(totals(workers@).p99_ms, workers@.len()),
        m.total_achieved_tps == totals(workers@).tps,
        m.workers@ == workers@,
{
    let worker_count: usize = workers.len();
    let s: Sums = sum_up(workers.as_slice()).unwrap();
    MergedResult {
        timestamp,
        worker_count,
        total_duration_ms: s.longest_ms,
        total_attempted: s.attempted,
        total_sent: s.sent,
        total_accepted: s.accepted,
        total_rejected: s.rejected,
        total_errors: s.errors,
        total_timeouts: s.timeouts,
        avg_latency_p50_ms: mean(s.p50_ms, worker_count),
        avg_latency_p95_ms: mean(s.p95_ms, worker_count),
        avg_latency_p99_ms: mean(s.p99_ms, worker_count),
        total_achieved_tps: s.tps,
        workers,
    }
}

fn mean(sum: u64, n: usize) -> (avg: u64)
    ensures
        avg == average(sum as nat, n as nat),
{
    if n > 0 {
        sum / n as u64
    } else {
        0
    }
}

/// The order in which results are found does not matter.
pub proof fn law_order_of_workers_is_free(a: Seq<WorkerResult>, b: Seq<WorkerResult>)
    requires
        a.to_multiset() == b.to_multiset(),
    ensures
        totals(a) == totals(b),
    decreases a.len(),
{
    a.to_multiset_ensures();
    b.to_multiset_ensures();
    if a.len() > 0 {
        let w = a.last();
        assert(a.to_multiset().count(w) > 0) by {
            assert(a[a.len() - 1] == w);
            assert(a.contains(w));
        }
        assert(b.contains(w));
        let i = b.index_of(w);
        let (front, back) = (b.take(i), b.skip(i + 1));
        let rest = b.remove(i);
        assert(rest =~= front + back);
        assert(a.remove(a.len() - 1) =~= a.drop_last());
        assert(a.drop_last().to_multiset() == rest.to_multiset());
        law_order_of_workers_is_free(a.drop_last(), rest);
        law_merging_adds_up(front, back);
        assert(b =~= front.push(w) + back);
        law_merging_adds_up(front.push(w), back);
        assert(front.push(w).drop_last() =~= front);
    }
}

/// Workers that are merged in two groups, in either order, add up to what they are
/// together.
pub proof fn law_merging_adds_up(a: Seq<WorkerResult>, b: Seq<WorkerResult>)
    ensures
        ({
            let (x, y, both) = (totals(a), totals(b), totals(a + b));
            &&& both.longest_ms == (if x.longest_ms >= y.longest_ms {
                x.longest_ms
            } else {
                y.longest_ms
            })
            &&& both.attempted == x.attempted + y.attempted
            &&& both.sent == x.sent + y.sent
            &&& both.accepted == x.accepted + y.accepted
            &&& both.rejected == x.rejected + y.rejected
            &&& both.errors == x.errors + y.errors
            &&& both.timeouts == x.timeouts + y.timeouts
            &&& both.p50_ms == x.p50_ms + y.p50_ms
            &&& both.p95_ms == x.p95_ms + y.p95_ms
            &&& both.p99_ms == x.p99_ms + y.p99_ms
            &&& both.tps == x.tps + y.tps
        }),
        totals(a + b) == totals(b + a),
{
    lemma_merging_adds_up(a, b);
    lemma_merging_adds_up(b, a);
}

proof fn lemma_merging_adds_up(a: Seq<WorkerResult>, b: Seq<WorkerResult>)
    ensures
        ({
            let (x, y, both) = (totals(a), totals(b), totals(a + b));
            &&& both.longest_ms == (if x.longest_ms >= y.longest_ms {
                x.longest_ms
            } else {
                y.longest_ms
            })
            &&& both.attempted == x.attempted + y.attempted
            &&& both.sent == x.sent + y.sent
            &&& both.accepted == x.accepted + y.accepted
            &&& both.rejected == x.rejected + y.rejected
            &&& both.errors == x.errors + y.errors
            &&& both.timeouts == x.timeouts + y.timeouts
            &&& both.p50_ms == x.p50_ms + y.p50_ms
            &&& both.p95_ms == x.p95_ms + y.p95_ms
            &&& both.p99_ms == x.p99_ms + y.p99_ms
            &&& both.tps == x.tps + y.tps
        }),
    decreases b.len(),
{
    if b.len() == 0 {
        assert(a + b =~= a);
    } else {
        lemma_merging_adds_up(a, b.drop_last());
        assert((a + b).drop_last() =~= a + b.drop_last());
    }
}

/// The sum of one number of each worker.
pub open spec fn sum_by(ws: Seq<WorkerResult>, f: spec_fn(WorkerResult) -> nat) -> nat
    decreases ws.len(),
{
    if ws.len() == 0 {
        0
    } else {
        sum_by(ws.drop_last(), f) + f(ws.last())
    }
}

/// The number `f` of every worker lies between `low` and `high`.
pub open spec fn all_between(
    ws: Seq<WorkerResult>,
    f: spec_fn(WorkerResult) -> nat,
    low: nat,
    high: nat,
) -> bool {
    forall|i: int| 0 <= i < ws.len() ==> low <= #[trigger] f(ws[i]) <= high
}

/// An average latency lies between the smallest and the largest of the workers.
pub proof fn law_average_is_in_range(ws: Seq<WorkerResult>, low: nat, high: nat)
    requires
        ws.len() > 0,
    ensures
        all_between(ws, |w: WorkerResult| w.latency_p50_ms as nat, low, high) ==> low <= average(
            totals(ws).p50_ms,
            ws.len(),
        ) <= high,
        all_between(ws, |w: WorkerResult| w.latency_p95_ms as nat, low, high) ==> low <= average(
            totals(ws).p95_ms,
            ws.len(),
        ) <= high,
        all_between(ws, |w: WorkerResult| w.latency_p99_ms as nat, low, high) ==> low <= average(
            totals(ws).p99_ms,
            ws.len(),
        ) <= high,
{
    let p50 = |w: WorkerResult| w.latency_p50_ms as nat;
    let p95 = |w: WorkerResult| w.latency_p95_ms as nat;
    let p99 = |w: WorkerResult| w.latency_p99_ms as nat;
    lemma_totals_are_sums(ws);
    if all_between(ws, p50, low, high) {
        lemma_average_bounds(ws, p50, low, high);
    }
    if all_between(ws, p95, low, high) {
        lemma_average_bounds(ws, p95, low, high);
    }
    if all_between(ws, p99, low, high) {
        lemma_average_bounds(ws, p99, low, high);
    }
}

proof fn lemma_totals_are_sums(ws: Seq<WorkerResult>)
    ensures
        totals(ws).p50_ms == sum_by(ws, |w: WorkerResult| w.latency_p50_ms as nat),
        totals(ws).p95_ms == sum_by(ws, |w: WorkerResult| w.latency_p95_ms as nat),
        totals(ws).p99_ms == sum_by(ws, |w: WorkerResult| w.latency_p99_ms as nat),
    decreases ws.len(),
{
    if ws.len() > 0 {
        lemma_totals_are_sums(ws.drop_last());
    }
}

proof fn lemma_average_bounds(
    ws: Seq<WorkerResult>,
    f: spec_fn(WorkerResult) -> nat,
    low: nat,
    high: nat,
)
    requires
        ws.len() > 0,
        all_between(ws, f, low, high),
    ensures
        low <= average(sum_by(ws, f), ws.len()) <= high,
{
    lemma_sum_bounds(ws, f, low, high);
    let n = ws.len() as int;
    let sum = sum_by(ws, f) as int;
    vstd::arithmetic::div_mod::lemma_fundamental_div_mod(sum, n);
    let q = sum / n;
    if q < low {
        assert(n * q + n <= n * low) by (nonlinear_arith)
            requires
                q + 1 <= low,
                0 < n,
        ;
    }
    if q > high {
        assert(n * high + n <= n * q) by (nonlinear_arith)
            requires
                high + 1 <= q,
                0 < n,
        ;
    }
}

proof fn lemma_sum_bounds(
    ws: Seq<WorkerResult>,
    f: spec_fn(WorkerResult) -> nat,
    low: nat,
    high: nat,
)
    requires
        all_between(ws, f, low, high),
    ensures
        ws.len() * low <= sum_by(ws, f) <= ws.len() * high,
    decreases ws.len(),
{
    if ws.len() > 0 {
        let before = ws.drop_last();
        assert forall|i: int| 0 <= i < before.len() implies low <= #[trigger] f(
            before[i],
        ) <= high by {
            assert(before[i] == ws[i]);
            assert(low <= f(ws[i]) <= high);
        }
        lemma_sum_bounds(before, f, low, high);
        assert(low <= f(ws[ws.len() - 1]) <= high);
        let n = ws.len() as int;
        assert((n - 1) * low + low == n * low) by (nonlinear_arith);
        assert((n - 1) * high + high == n * high) by (nonlinear_arith);
    } else {
        assert(ws.len() * low == 0) by (nonlinear_arith)
            requires
                ws.len() == 0,
        ;
        assert(ws.len() * high == 0) by (nonlinear_arith)
            requires
                ws.len() == 0,
        ;
    }
}

/// Whether a file in the results directory is the result of a worker.
pub open spec fn is_worker_file(name: Seq<char>) -> bool {
    has_prefix(name, "worker_"@) && has_suffix(name, ".json"@)
}

/// Whether a file in the results directory is the result of a worker: a JSON file
/// whose name starts with `worker_`.
pub fn is_worker_result(file_name: &str) -> (b: bool)
    ensures
        b == is_worker_file(file_name@),
{
    starts_with(file_name, "worker_") && ends_with(file_name, ".json")
}

/// The file that merged results are written to.
pub open spec fn merged_path_of(timestamp: Seq<char>) -> Seq<char> {
    "results/run_"@ + timestamp + "_merged.json"@
}

/// The file that merged results are written to.
pub fn merged_path(timestamp: &str) -> (path: String)
    ensures
        path@ == merged_path_of(timestamp@),
{
    let mut path = "results/run_".to_owned();
    path.append(timestamp);
    path.append("_merged.json");
    path
}

/// What a worker writes is found by the controller: the name of the file that a
/// worker's result is written to, below the results directory, is that of a result.
pub proof fn law_worker_file_is_found(worker_id: Seq<char>, run_id: Seq<char>)
    ensures
        ({
            let path = output_path_of(worker_id, run_id);
            &&& has_prefix(path, "results/"@)
            &&& is_worker_file(path.skip("results/"@.len() as int))
        }),
        forall|timestamp: Seq<char>|
            has_prefix(#[trigger] merged_path_of(timestamp), "results/"@) && !is_worker_file(
                merged_path_of(timestamp).skip("results/"@.len() as int),
            ),
{
    reveal_strlit("results/");
    reveal_strlit("results/worker_");
    reveal_strlit("results/run_");
    reveal_strlit("worker_");
    reveal_strlit(".json");
    let path = output_path_of(worker_id, run_id);
    assert(path.take(8) =~= "results/"@);
    let name = path.skip(8);
    assert(name.take(7) =~= "worker_"@);
    assert(name.skip(name.len() - 5) =~= ".json"@);
    assert forall|timestamp: Seq<char>|
        has_prefix(#[trigger] merged_path_of(timestamp), "results/"@) && !is_worker_file(
            merged_path_of(timestamp).skip("results/"@.len() as int),
        ) by {
        let p = merged_path_of(timestamp);
        assert(p.take(8) =~= "results/"@);
        let n = p.skip(8);
        if has_prefix(n, "worker_"@) {
            assert(n.take(7)[0] == n[0] == p[8] == "results/run_"@[8]);
        }
    }
}

/// The command that starts the worker with this number on `host`.
pub open spec fn ssh_command_of(host: Seq<char>, idx: nat) -> Seq<char> {
    "  ssh "@ + host + " 'cd /path/to/worker && ./worker --worker-id worker-"@ + decimal(idx)
        + " --config config.toml --mode http'"@
}

/// The commands that a run would execute, one for each host.
pub fn dry_run_commands(config: &ControllerConfig) -> (lines: Vec<String>)
    ensures
        lines@.len() == config.worker_hosts@.len(),
        forall|i: int|
            0 <= i < lines@.len() ==> (#[trigger] lines@[i])@ == ssh_command_of(
                config.worker_hosts@[i]@,
                i as nat,
            ),
{
    let mut lines: Vec<String> = Vec::new();
    let mut i: usize = 0;
    while i < config.worker_hosts.len()
        invariant
            i <= config.worker_hosts@.len(),
            lines@.len() == i,
            forall|k: int|
                0 <= k < i ==> (#[trigger] lines@[k])@ == ssh_command_of(
                    config.worker_hosts@[k]@,
                    k as nat,
                ),
        decreases config.worker_hosts@.len() - i,
    {
        let mut line = "  ssh ".to_owned();
        line.append(config.worker_hosts[i].as_str());
        line.append(" 'cd /path/to/worker && ./worker --worker-id worker-");
        line.append(to_decimal(i as u128).as_str());
        line.append(" --config config.toml --mode http'");
        lines.push(line);
        i = i + 1;
    }
    lines
}

/// One line of the ramp schedule.
pub open spec fn schedule_line_of(idx: nat, step: RampStep) -> Seq<char> {
    "Step "@ + decimal(idx) + ": "@ + decimal(step.tps as nat) + " TPS for "@ + decimal(
        step.hold_ms as nat,
    ) + "ms"@
}

/// The ramp schedule: its total duration and a line for each step.
pub open spec fn schedule_of(steps: Seq<RampStep>) -> Seq<Seq<char>> {
    seq!["=== Ramp Schedule ==="@, labelled_of("Total duration: "@, total_ms(steps), "ms"@), ""@]
        + Seq::new(steps.len(), |i: int| schedule_line_of(i as nat, steps[i]))
}

/// The ramp schedule as it is printed.
pub fn ramp_schedule(planner: &RampPlanner) -> (lines: Vec<String>)
    requires
        total_ms(planner@) <= u64::MAX,
    ensures
        texts(lines@) == schedule_of(planner@),
{
    let mut lines: Vec<String> = Vec::new();
    push_line(&mut lines, "=== Ramp Schedule ===".to_owned());
    push_line(&mut lines, labelled("Total duration: ", planner.total_duration_ms() as u128, "ms"));
    push_line(&mut lines, "".to_owned());
    let steps: &[RampStep] = planner.steps();
    let ghost all = Seq::new(steps@.len(), |i: int| schedule_line_of(i as nat, steps@[i]));
    let ghost head = seq![
        "=== Ramp Schedule ==="@,
        labelled_of("Total duration: "@, total_ms(planner@), "ms"@),
        ""@,
    ];
    assert(texts(lines@) =~= head + all.take(0));
    let mut i: usize = 0;
    while i < steps.len()
        invariant
            i <= steps@.len(),
            all == Seq::new(steps@.len(), |i: int| schedule_line_of(i as nat, steps@[i])),
            texts(lines@) == head + all.take(i as int),
        decreases steps@.len() - i,
    {
        let step: RampStep = steps[i];
        let mut line = labelled("Step ", i as u128, ": ");
        line.append(to_decimal(step.tps as u128).as_str());
        line.append(" TPS for ");
        line.append(to_decimal(step.hold_ms as u128).as_str());
        line.append("ms");
        assert(line@ == all[i as int]);
        push_line(&mut lines, line);
        assert(texts(lines@) =~= head + all.take(i + 1));
        i = i + 1;
    }
    assert(all.take(all.len() as int) =~= all);
    lines
}

/// The line of one worker in the summary of merged results.
pub open spec fn breakdown_of(w: WorkerResult) -> Seq<char> {
    "  "@ + w.worker_id@ + ": accepted="@ + decimal(w.accepted as nat) + " tps="@ + decimal(
        w.achieved_tps as nat,
    ) + " p95="@ + decimal(w.latency_p95_ms as nat) + "ms"@
}

/// The head of the summary of merged results.
pub open spec fn merged_head_of(m: MergedResult) -> Seq<Seq<char>> {
    seq![
        labelled_of("=== Merged Results ("@, m.worker_count as nat, " workers) ==="@),
        labelled_of("Total duration: "@, m.total_duration_ms as nat, "ms"@),
        labelled_of("Total attempted: "@, m.total_attempted as nat, ""@),
        labelled_of("Total sent: "@, m.total_sent as nat, ""@),
        labelled_of("Total accepted: "@, m.total_accepted as nat, ""@),
        labelled_of("Total rejected: "@, m.total_rejected as nat, ""@),
        labelled_of("Total errors: "@, m.total_errors as nat, ""@),
        labelled_of("Total timeouts: "@, m.total_timeouts as nat, ""@),
        labelled_of("Total achieved TPS: "@, m.total_achieved_tps as nat, ""@),
        labelled_of("Avg latency p50: "@, m.avg_latency_p50_ms as nat, "ms"@),
        labelled_of("Avg latency p95: "@, m.avg_latency_p95_ms as nat, "ms"@),
        labelled_of("Avg latency p99: "@, m.avg_latency_p99_ms as nat, "ms"@),
        ""@,
        "=== Per-Worker Breakdown ==="@,
    ]
}

/// The summary of merged results as it is printed.
pub fn merged_summary(m: &MergedResult) -> (lines: Vec<String>)
    ensures
        texts(lines@) == merged_head_of(*m) + Seq::new(
            m.workers@.len(),
            |i: int| breakdown_of(m.workers@[i]),
        ),
{
    let mut lines: Vec<String> = Vec::new();
    push_line(
        &mut lines,
        labelled("=== Merged Results (", m.worker_count as u128, " workers) ==="),
    );
    push_line(&mut lines, labelled("Total duration: ", m.total_duration_ms as u128, "ms"));
    push_line(&mut lines, labelled("Total attempted: ", m.total_attempted as u128, ""));
    push_line(&mut lines, labelled("Total sent: ", m.total_sent as u128, ""));
    push_line(&mut lines, labelled("Total accepted: ", m.total_accepted as u128, ""));
    push_line(&mut lines, labelled("Total rejected: ", m.total_rejected as u128, ""));
    push_line(&mut lines, labelled("Total errors: ", m.total_errors as u128, ""));
    push_line(&mut lines, labelled("Total timeouts: ", m.total_timeouts as u128, ""));
    push_line(&mut lines, labelled("Total achieved TPS: ", m.total_achieved_tps as u128, ""));
    push_line(&mut lines, labelled("Avg latency p50: ", m.avg_latency_p50_ms as u128, "ms"));
    push_line(&mut lines, labelled("Avg latency p95: ", m.avg_latency_p95_ms as u128, "ms"));
    push_line(&mut lines, labelled("Avg latency p99: ", m.avg_latency_p99_ms as u128, "ms"));
    push_line(&mut lines, "".to_owned());
    push_line(&mut lines, "=== Per-Worker Breakdown ===".to_owned());
    let ghost all = Seq::new(m.workers@.len(), |i: int| breakdown_of(m.workers@[i]));
    assert(texts(lines@) =~= merged_head_of(*m) + all.take(0));
    let mut i: usize = 0;
    while i < m.workers.len()
        invariant
            i <= m.workers@.len(),
            all == Seq::new(m.workers@.len(), |i: int| breakdown_of(m.workers@[i])),
            texts(lines@) == merged_head_of(*m) + all.take(i as int),
        decreases m.workers@.len() - i,
    {
        let w: &WorkerResult = &m.workers[i];
        let mut line = "  ".to_owned();
        line.append(w.worker_id.as_str());
        line.append(": accepted=");
        line.append(to_decimal(w.accepted as u128).as_str());
        line.append(" tps=");
        line.append(to_decimal(w.achieved_tps as u128).as_str());
        line.append(" p95=");
        line.append(to_decimal(w.latency_p95_ms as u128).as_str());
        line.append("ms");
        assert(line@ == all[i as int]);
        push_line(&mut lines, line);
        assert(texts(lines@) =~= merged_head_of(*m) + all.take(i + 1));
        i = i + 1;
    }
    assert(all.take(all.len() as int) =~= all);
    lines
}

/// One worker alone is its own total.
pub proof fn law_one_worker_is_its_own_total(w: WorkerResult)
    ensures
        ({
            let t = totals(seq![w]);
            &&& t.longest_ms == w.duration_ms
            &&& t.attempted == w.attempted
            &&& t.sent == w.sent
            &&& t.accepted == w.accepted
            &&& t.rejected == w.rejected
            &&& t.errors == w.errors
            &&& t.timeouts == w.timeouts
            &&& t.p50_ms == w.latency_p50_ms
            &&& t.p95_ms == w.latency_p95_ms
            &&& t.p99_ms == w.latency_p99_ms
            &&& t.tps == w.achieved_tps
        }),
{
    assert(seq![w].drop_last() =~= Seq::<WorkerResult>::empty());
    assert(totals(seq![w].drop_last()).attempted == 0);
}

/// An average is rounded down: so much for each worker is no more than the sum, and one
/// more for each would be too much.
pub proof fn law_average_is_rounded_down(sum: nat, n: nat)
    ensures
        n > 0 ==> average(sum, n) * n <= sum < (average(sum, n) + 1) * n,
        n == 0 ==> average(sum, n) == 0,
{
    if n > 0 {
        vstd::arithmetic::div_mod::lemma_fundamental_div_mod(sum as int, n as int);
        let q = sum as int / n as int;
        assert(q * n <= sum < (q + 1) * n) by (nonlinear_arith)
            requires
                sum == n * q + sum as int % n as int,
                0 <= sum as int % n as int,
                (sum as int % n as int) < n,
        ;
    }
}

/// The longest run is that of some worker, and none ran longer.
pub proof fn law_longest_run_is_that_of_a_worker(ws: Seq<WorkerResult>, i: int)
    ensures
        0 <= i < ws.len() ==> ws[i].duration_ms <= totals(ws).longest_ms,
        ws.len() > 0 ==> exists|k: int|
            0 <= k < ws.len() && (#[trigger] ws[k]).duration_ms == totals(ws).longest_ms,
        ws.len() == 0 ==> totals(ws).longest_ms == 0,
    decreases ws.len(),
{
    if ws.len() > 0 {
        let before = ws.drop_last();
        law_longest_run_is_that_of_a_worker(before, i);
        if ws.last().duration_ms > totals(before).longest_ms || before.len() == 0 {
            assert(ws[ws.len() - 1].duration_ms == totals(ws).longest_ms);
        } else {
            let k = choose|k: int|
                0 <= k < before.len() && (#[trigger] before[k]).duration_ms == totals(
                    before,
                ).longest_ms;
            assert(ws[k].duration_ms == totals(ws).longest_ms);
        }
    }
}

/// A result file is a name between `worker_` and `.json`, and no other file is one.
pub proof fn law_result_files_are_told_by_their_ends(name: Seq<char>)
    ensures
        is_worker_file(name) <==> exists|middle: Seq<char>|
            name == #[trigger] ("worker_"@ + middle + ".json"@),
{
    reveal_strlit("worker_");
    reveal_strlit(".json");
    if is_worker_file(name) {
        if name.len() < 12 {
            let at = name.len() - 5;
            assert(name.skip(at)[0] == '.');
            assert(name[at] == '.');
            assert(name.take(7)[at] == "worker_"@[at]);
        }
        let middle = name.subrange(7, name.len() - 5);
        assert(name =~= name.take(7) + middle + name.skip(name.len() - 5));
        assert(name == "worker_"@ + middle + ".json"@);
    }
    if exists|middle: Seq<char>| name == #[trigger] ("worker_"@ + middle + ".json"@) {
        let middle = choose|middle: Seq<char>| name == #[trigger] ("worker_"@ + middle + ".json"@);
        assert(name.take(7) =~= "worker_"@);
        assert(name.skip(name.len() - 5) =~= ".json"@);
    }
}

/// Merged results of different times are written to different files.
pub proof fn law_merged_results_have_their_own_files(a: Seq<char>, b: Seq<char>)
    requires
        merged_path_of(a) == merged_path_of(b),
    ensures
        a == b,
{
    let (x, y) = (merged_path_of(a), merged_path_of(b));
    let (head, tail) = ("results/run_"@.len() as int, "_merged.json"@.len() as int);
    assert(x.subrange(head, x.len() - tail) =~= a);
    assert(y.subrange(head, y.len() - tail) =~= b);
}

/// A command names its host and the number of its worker: no two of a dry run are the
/// same, and the host stands behind `ssh`.
pub proof fn law_commands_name_host_and_worker(host: Seq<char>, i: nat, j: nat)
    ensures
        has_prefix(ssh_command_of(host, i), "  ssh "@ + host),
        ssh_command_of(host, i) == ssh_command_of(host, j) ==> i == j,
{
    let (x, y) = (ssh_command_of(host, i), ssh_command_of(host, j));
    let start = "  ssh "@ + host;
    let head = start + " 'cd /path/to/worker && ./worker --worker-id worker-"@;
    let tail = " --config config.toml --mode http'"@;
    assert(x.take(start.len() as int) =~= start);
    if x == y {
        assert(x.subrange(head.len() as int, x.len() - tail.len()) =~= decimal(i));
        assert(y.subrange(head.len() as int, y.len() - tail.len()) =~= decimal(j));
        law_decimal_is_injective(i, j);
    }
}

/// The schedule shows the total duration, and a line for each step from which its number,
/// its rate and its length read back.
pub proof fn law_schedule_reads_back(steps: Seq<RampStep>, i: int)
    requires
        total_ms(steps) <= u64::MAX,
        0 <= i < steps.len(),
    ensures
        schedule_of(steps).len() == steps.len() + 3,
        shows(
            schedule_of(steps)[1],
            "Total duration: "@,
            total_ms(steps) as u64,
            "ms"@,
        ),
        steps.len() <= u64::MAX ==> shows(
            schedule_of(steps)[i + 3],
            "Step "@,
            i as u64,
            ": "@ + decimal(steps[i].tps as nat) + " TPS for "@ + decimal(steps[i].hold_ms as nat)
                + "ms"@,
        ),
        shows(
            schedule_of(steps)[i + 3],
            "Step "@ + decimal(i as nat) + ": "@,
            steps[i].tps,
            " TPS for "@ + decimal(steps[i].hold_ms as nat) + "ms"@,
        ),
        shows(
            schedule_of(steps)[i + 3],
            "Step "@ + decimal(i as nat) + ": "@ + decimal(steps[i].tps as nat) + " TPS for "@,
            steps[i].hold_ms,
            "ms"@,
        ),
{
    let s = steps[i];
    let line = schedule_line_of(i as nat, s);
    assert(schedule_of(steps)[i + 3] == line);
    lemma_shows("Total duration: "@, total_ms(steps) as u64, "ms"@);
    let (d0, d1, d2) = (decimal(i as nat), decimal(s.tps as nat), decimal(s.hold_ms as nat));
    let unit0 = ": "@ + d1 + " TPS for "@ + d2 + "ms"@;
    assert(line =~= labelled_of("Step "@, i as nat, unit0));
    lemma_shows("Step "@, i as u64, unit0);
    let label1 = "Step "@ + d0 + ": "@;
    let unit1 = " TPS for "@ + d2 + "ms"@;
    assert(line =~= labelled_of(label1, s.tps as nat, unit1));
    lemma_shows(label1, s.tps, unit1);
    let label2 = label1 + d1 + " TPS for "@;
    assert(line =~= labelled_of(label2, s.hold_ms as nat, "ms"@));
    lemma_shows(label2, s.hold_ms, "ms"@);
}

/// Every number of merged results reads back from its own line of the summary.
pub proof fn law_merged_summary_reads_back(m: MergedResult)
    ensures
        ({
            let lines = merged_head_of(m);
            &&& lines.len() == 14
            &&& shows(lines[0], "=== Merged Results ("@, m.worker_count as u64, " workers) ==="@)
            &&& shows(lines[1], "Total duration: "@, m.total_duration_ms, "ms"@)
            &&& shows(lines[2], "Total attempted: "@, m.total_attempted, ""@)
            &&& shows(lines[3], "Total sent: "@, m.total_sent, ""@)
            &&& shows(lines[4], "Total accepted: "@, m.total_accepted, ""@)
            &&& shows(lines[5], "Total rejected: "@, m.total_rejected, ""@)
            &&& shows(lines[6], "Total errors: "@, m.total_errors, ""@)
            &&& shows(lines[7], "Total timeouts: "@, m.total_timeouts, ""@)
            &&& shows(lines[8], "Total achieved TPS: "@, m.total_achieved_tps, ""@)
            &&& shows(lines[9], "Avg latency p50: "@, m.avg_latency_p50_ms, "ms"@)
            &&& shows(lines[10], "Avg latency p95: "@, m.avg_latency_p95_ms, "ms"@)
            &&& shows(lines[11], "Avg latency p99: "@, m.avg_latency_p99_ms, "ms"@)
        }),
{
    lemma_shows("=== Merged Results ("@, m.worker_count as u64, " workers) ==="@);
    lemma_shows("Total duration: "@, m.total_duration_ms, "ms"@);
    lemma_shows("Total attempted: "@, m.total_attempted, ""@);
    lemma_shows("Total sent: "@, m.total_sent, ""@);
    lemma_shows("Total accepted: "@, m.total_accepted, ""@);
    lemma_shows("Total rejected: "@, m.total_rejected, ""@);
    lemma_shows("Total errors: "@, m.total_errors, ""@);
    lemma_shows("Total timeouts: "@, m.total_timeouts, ""@);
    lemma_shows("Total achieved TPS: "@, m.total_achieved_tps, ""@);
    lemma_shows("Avg latency p50: "@, m.avg_latency_p50_ms, "ms"@);
    lemma_shows("Avg latency p95: "@, m.avg_latency_p95_ms, "ms"@);
    lemma_shows("Avg latency p99: "@, m.avg_latency_p99_ms, "ms"@);
}

/// The numbers of a worker read back from its line of the breakdown.
pub proof fn law_breakdown_reads_back(w: WorkerResult)
    ensures
        has_prefix(breakdown_of(w), "  "@ + w.worker_id@ + ": accepted="@),
        shows(
            breakdown_of(w),
            "  "@ + w.worker_id@ + ": accepted="@,
            w.accepted,
            " tps="@ + decimal(w.achieved_tps as nat) + " p95="@ + decimal(
                w.latency_p95_ms as nat,
            ) + "ms"@,
        ),
        shows(
            breakdown_of(w),
            "  "@ + w.worker_id@ + ": accepted="@ + decimal(w.accepted as nat) + " tps="@,
            w.achieved_tps,
            " p95="@ + decimal(w.latency_p95_ms as nat) + "ms"@,
        ),
        shows(
            breakdown_of(w),
            "  "@ + w.worker_id@ + ": accepted="@ + decimal(w.accepted as nat) + " tps="@
                + decimal(w.achieved_tps as nat) + " p95="@,
            w.latency_p95_ms,
            "ms"@,
        ),
{
    let line = breakdown_of(w);
    let (d0, d1) = (decimal(w.accepted as nat), decimal(w.achieved_tps as nat));
    let d2 = decimal(w.latency_p95_ms as nat);
    let label0 = "  "@ + w.worker_id@ + ": accepted="@;
    let unit0 = " tps="@ + d1 + " p95="@ + d2 + "ms"@;
    assert(line.take(label0.len() as int) =~= label0);
    assert(line =~= labelled_of(label0, w.accepted as nat, unit0));
    lemma_shows(label0, w.accepted, unit0);
    let label1 = label0 + d0 + " tps="@;
    let unit1 = " p95="@ + d2 + "ms"@;
    assert(line =~= labelled_of(label1, w.achieved_tps as nat, unit1));
    lemma_shows(label1, w.achieved_tps, unit1);
    let label2 = label1 + d1 + " p95="@;
    assert(line =~= labelled_of(label2, w.latency_p95_ms as nat, "ms"@));
    lemma_shows(label2, w.latency_p95_ms, "ms"@);
}

} // verus!
