//! The result of a worker's run.

use vstd::prelude::*;
use crate::decimal::{decimal, labelled, labelled_of, law_labelled_number_reads_back};
use crate::decimal::{to_decimal, unsigned_of, IntError};
use crate::math::saturated;
use crate::text::{has_prefix, has_suffix, push_line, same_text, texts};
use crate::worker::stats::WorkerSummary;

verus! {

/// How payments are submitted.
#[derive(Debug, Clone, Copy, PartialEq, Eq, Structural)]
pub enum Mode {
    /// To the real endpoint.
    Http,
    /// Nowhere, with a fixed delay.
    Mock,
}

/// The mode with that name, where there is one.
pub fn parse_mode(name: &str) -> (mode: Option<Mode>)
    ensures
        mode == (if name@ == "mock"@ {
            Some(Mode::Mock)
        } else if name@ == "http"@ {
            Some(Mode::Http)
        } else {
            None
        }),
{
    if same_text(name, "mock") {
        Some(Mode::Mock)
    } else if same_text(name, "http") {
        Some(Mode::Http)
    } else {
        None
    }
}

/// The result of a run, as it is written to a file.
#[derive(Debug)]
pub struct WorkerResult {
    pub worker_id: String,
    pub timestamp: String,
    pub seed: u64,
    pub mode: String,
    pub duration_ms: u64,
    pub attempted: u64,
    pub sent: u64,
    pub accepted: u64,
    pub rejected: u64,
    pub backpressure_429: u64,
    pub backpressure_503: u64,
    pub errors: u64,
    pub timeouts: u64,
    pub latency_p50_ms: u64,
    pub latency_p95_ms: u64,
    pub latency_p99_ms: u64,
    pub achieved_tps: u64,
}

/// Accepted payments per second over a run of `elapsed_ms`, rounded down.
pub open spec fn tps_of(accepted: nat, elapsed_ms: nat) -> nat {
    if elapsed_ms > 0 {
        accepted * 1000 / elapsed_ms
    } else {
        0
    }
}

/// Accepted payments per second over the whole run, rounded down.
pub fn achieved_tps(accepted: u64, elapsed_ms: u64) -> (tps: u64)
    requires
        elapsed_ms > 0 ==> accepted * 1000 <= u64::MAX,
    ensures
        tps == tps_of(accepted as nat, elapsed_ms as nat),
{
    if elapsed_ms > 0 {
        (accepted * 1000) / elapsed_ms
    } else {
        0
    }
}

/// Accepted payments per second so far, held in range: a run of less than a millisecond
/// counts as one.
pub open spec fn progress_of(accepted: nat, elapsed_ms: nat) -> nat {
    saturated((accepted * 1000) as int) as nat / (if elapsed_ms < 1 {
        1
    } else {
        elapsed_ms
    })
}

/// Accepted payments per second so far, for a progress line.
pub fn progress_tps(accepted: u64, elapsed_ms: u64) -> (tps: u64)
    ensures
        tps == progress_of(accepted as nat, elapsed_ms as nat),
{
    let elapsed: u64 = if elapsed_ms < 1 {
        1
    } else {
        elapsed_ms
    };
    let scaled: u64 = if accepted > u64::MAX / 1000 {
        u64::MAX
    } else {
        accepted * 1000
    };
    scaled / elapsed
}

/// The result of a run that took `elapsed_ms` and counted what `summary` says.
pub fn worker_result(
    worker_id: String,
    timestamp: String,
    seed: u64,
    mode: String,
    elapsed_ms: u64,
    summary: &WorkerSummary,
) -> (r: WorkerResult)
    requires
        elapsed_ms > 0 ==> summary.accepted * 1000 <= u64::MAX,
    ensures
        r.worker_id@ == worker_id@,
        r.timestamp@ == timestamp@,
        r.seed == seed,
        r.mode@ == mode@,
        r.duration_ms == elapsed_ms,
        r.attempted == summary.attempted,
        r.sent == summary.sent,
        r.accepted == summary.accepted,
        r.rejected == summary.rejected,
        r.backpressure_429 == summary.backpressure_429,
        r.backpressure_503 == summary.backpressure_503,
        r.errors == summary.errors,
        r.timeouts == summary.timeouts,
        r.latency_p50_ms == summary.latency_p50_ms,
        r.latency_p95_ms == summary.latency_p95_ms,
        r.latency_p99_ms == summary.latency_p99_ms,
        r.achieved_tps == tps_of(summary.accepted as nat, elapsed_ms as nat),
{
    WorkerResult {
        worker_id,
        timestamp,
        seed,
        mode,
        duration_ms: elapsed_ms,
        attempted: summary.attempted,
        sent: summary.sent,
        accepted: summary.accepted,
        rejected: summary.rejected,
        backpressure_429: summary.backpressure_429,
        backpressure_503: summary.backpressure_503,
        errors: summary.errors,
        timeouts: summary.timeouts,
        latency_p50_ms: summary.latency_p50_ms,
        latency_p95_ms: summary.latency_p95_ms,
        latency_p99_ms: summary.latency_p99_ms,
        achieved_tps: achieved_tps(summary.accepted, elapsed_ms),
    }
}

/// The name of a run, from the seconds since the epoch; a clock that stands before the
/// epoch counts as standing at it.
pub fn now_id(secs_since_epoch: Option<u64>) -> (id: String)
    ensures
        id@ == decimal(
            match secs_since_epoch {
                Some(s) => s as nat,
                None => 0,
            },
        ),
{
    match secs_since_epoch {
        Some(s) => to_decimal(s as u128),
        None => to_decimal(0),
    }
}

/// The file that the result of a worker is written to.
pub open spec fn output_path_of(worker_id: Seq<char>, run_id: Seq<char>) -> Seq<char> {
    "results/worker_"@ + worker_id + "_"@ + run_id + ".json"@
}

/// The file that the result of a worker is written to.
pub fn output_path(worker_id: &str, run_id: &str) -> (path: String)
    ensures
        path@ == output_path_of(worker_id@, run_id@),
{
    let mut path = "results/worker_".to_owned();
    path.append(worker_id);
    path.append("_");
    path.append(run_id);
    path.append(".json");
    path
}

/// The summary of a run as it is printed.
pub open spec fn summary_of(r: WorkerResult) -> Seq<Seq<char>> {
    seq![
        "=== Worker "@ + r.worker_id@ + " Summary ==="@,
        labelled_of("Duration: "@, r.duration_ms as nat, "ms"@),
        labelled_of("Seed: "@, r.seed as nat, ""@),
        "Mode: "@ + r.mode@,
        labelled_of("Attempted: "@, r.attempted as nat, ""@),
        labelled_of("Sent: "@, r.sent as nat, ""@),
        labelled_of("Accepted: "@, r.accepted as nat, ""@),
        labelled_of("Rejected: "@, r.rejected as nat, ""@),
        labelled_of("Backpressure 429: "@, r.backpressure_429 as nat, ""@),
        labelled_of("Backpressure 503: "@, r.backpressure_503 as nat, ""@),
        labelled_of("Errors: "@, r.errors as nat, ""@),
        labelled_of("Timeouts: "@, r.timeouts as nat, ""@),
        labelled_of("Achieved TPS: "@, r.achieved_tps as nat, ""@),
        labelled_of("Latency p50: "@, r.latency_p50_ms as nat, "ms"@),
        labelled_of("Latency p95: "@, r.latency_p95_ms as nat, "ms"@),
        labelled_of("Latency p99: "@, r.latency_p99_ms as nat, "ms"@),
    ]
}

/// The summary of a run as it is printed.
pub fn summary_lines(r: &WorkerResult) -> (lines: Vec<String>)
    ensures
        texts(lines@) == summary_of(*r),
{
    let mut lines: Vec<String> = Vec::new();
    let mut title = "=== Worker ".to_owned();
    title.append(r.worker_id.as_str());
    title.append(" Summary ===");
    push_line(&mut lines, title);
    push_line(&mut lines, labelled("Duration: ", r.duration_ms as u128, "ms"));
    push_line(&mut lines, labelled("Seed: ", r.seed as u128, ""));
    let mut mode = "Mode: ".to_owned();
    mode.append(r.mode.as_str());
    push_line(&mut lines, mode);
    push_line(&mut lines, labelled("Attempted: ", r.attempted as u128, ""));
    push_line(&mut lines, labelled("Sent: ", r.sent as u128, ""));
    push_line(&mut lines, labelled("Accepted: ", r.accepted as u128, ""));
    push_line(&mut lines, labelled("Rejected: ", r.rejected as u128, ""));
    push_line(&mut lines, labelled("Backpressure 429: ", r.backpressure_429 as u128, ""));
    push_line(&mut lines, labelled("Backpressure 503: ", r.backpressure_503 as u128, ""));
    push_line(&mut lines, labelled("Errors: ", r.errors as u128, ""));
    push_line(&mut lines, labelled("Timeouts: ", r.timeouts as u128, ""));
    push_line(&mut lines, labelled("Achieved TPS: ", r.achieved_tps as u128, ""));
    push_line(&mut lines, labelled("Latency p50: ", r.latency_p50_ms as u128, "ms"));
    push_line(&mut lines, labelled("Latency p95: ", r.latency_p95_ms as u128, "ms"));
    push_line(&mut lines, labelled("Latency p99: ", r.latency_p99_ms as u128, "ms"));
    assert(texts(lines@) =~= summary_of(*r));
    lines
}

/// While the counts are in range, the progress of a run that ended is its result.
pub proof fn law_progress_ends_at_result(accepted: u64, elapsed_ms: u64)
    requires
        elapsed_ms > 0,
        accepted * 1000 <= u64::MAX,
    ensures
        progress_of(accepted as nat, elapsed_ms as nat) == tps_of(
            accepted as nat,
            elapsed_ms as nat,
        ),
{
}

/// The rate of a run is the largest whole number of payments per second that it reached:
/// `tps` of them in each second of the run come to no more than were accepted, and one more
/// would be too many.
pub proof fn law_rate_is_rounded_down(accepted: nat, elapsed_ms: nat)
    ensures
        elapsed_ms == 0 ==> tps_of(accepted, elapsed_ms) == 0,
        elapsed_ms > 0 ==> tps_of(accepted, elapsed_ms) * elapsed_ms <= accepted * 1000 < (tps_of(
            accepted,
            elapsed_ms,
        ) + 1) * elapsed_ms,
{
    if elapsed_ms > 0 {
        lemma_quotient((accepted * 1000) as int, elapsed_ms as int);
    }
}

/// The progress of a run is its rate so far, rounded down, as long as the counts are in
/// range; a run of less than a millisecond counts as one.
pub proof fn law_progress_is_rounded_down(accepted: nat, elapsed_ms: nat)
    requires
        accepted * 1000 <= u64::MAX,
    ensures
        elapsed_ms > 0 ==> progress_of(accepted, elapsed_ms) * elapsed_ms <= accepted * 1000 < (
        progress_of(accepted, elapsed_ms) + 1) * elapsed_ms,
        elapsed_ms == 0 ==> progress_of(accepted, elapsed_ms) == accepted * 1000,
{
    if elapsed_ms > 0 {
        lemma_quotient((accepted * 1000) as int, elapsed_ms as int);
    }
}

/// Out of range the progress is that of the largest count that is in range.
pub proof fn law_progress_saturates(accepted: nat, elapsed_ms: nat)
    requires
        accepted * 1000 > u64::MAX,
    ensures
        elapsed_ms > 0 ==> progress_of(accepted, elapsed_ms) * elapsed_ms <= u64::MAX < (
        progress_of(accepted, elapsed_ms) + 1) * elapsed_ms,
        elapsed_ms == 0 ==> progress_of(accepted, elapsed_ms) == u64::MAX,
{
    if elapsed_ms > 0 {
        lemma_quotient(u64::MAX as int, elapsed_ms as int);
    }
}

proof fn lemma_quotient(n: int, d: int)
    requires
        n >= 0,
        d > 0,
    ensures
        (n / d) * d <= n < (n / d + 1) * d,
{
    vstd::arithmetic::div_mod::lemma_fundamental_div_mod(n, d);
    let q = n / d;
    assert(q * d <= n < (q + 1) * d) by (nonlinear_arith)
        requires
            n == d * q + n % d,
            0 <= n % d < d,
    ;
}

/// Results do not overwrite each other: two runs of a worker, and two workers of a run,
/// write to different files.
pub proof fn law_results_have_their_own_files(
    worker1: Seq<char>,
    run1: Seq<char>,
    worker2: Seq<char>,
    run2: Seq<char>,
)
    requires
        output_path_of(worker1, run1) == output_path_of(worker2, run2),
    ensures
        worker1 == worker2 <==> run1 == run2,
        worker1 + "_"@ + run1 == worker2 + "_"@ + run2,
{
    reveal_strlit("results/worker_");
    reveal_strlit("_");
    reveal_strlit(".json");
    let (a, b) = (output_path_of(worker1, run1), output_path_of(worker2, run2));
    let (x, y) = (worker1 + "_"@ + run1, worker2 + "_"@ + run2);
    assert(a.len() == 15 + x.len() + 5);
    assert(b.len() == 15 + y.len() + 5);
    assert(a.subrange(15, a.len() - 5) =~= x);
    assert(b.subrange(15, b.len() - 5) =~= y);
    if worker1 == worker2 {
        assert(x.skip(worker1.len() as int + 1) =~= run1);
        assert(y.skip(worker1.len() as int + 1) =~= run2);
    }
    if run1 == run2 {
        assert(x.take(x.len() - run1.len() - 1) =~= worker1);
        assert(y.take(x.len() - run1.len() - 1) =~= worker2);
    }
}

/// Whether a line of a summary is the label, the number and the unit: the number that
/// stands between the two reads back as `n`.
pub open spec fn shows(line: Seq<char>, label: Seq<char>, n: u64, unit: Seq<char>) -> bool {
    &&& line.len() >= label.len() + unit.len()
    &&& line.take(label.len() as int) == label
    &&& line.skip(line.len() - unit.len()) == unit
    &&& unsigned_of(
        line.subrange(label.len() as int, line.len() - unit.len()),
        u64::MAX as nat,
    ) == Ok::<nat, IntError>(n as nat)
}

/// Every number of a result reads back from its own line of the summary.
pub proof fn law_summary_reads_back(r: WorkerResult)
    ensures
        ({
            let lines = summary_of(r);
            &&& lines.len() == 16
            &&& shows(lines[1], "Duration: "@, r.duration_ms, "ms"@)
            &&& shows(lines[2], "Seed: "@, r.seed, ""@)
            &&& shows(lines[4], "Attempted: "@, r.attempted, ""@)
            &&& shows(lines[5], "Sent: "@, r.sent, ""@)
            &&& shows(lines[6], "Accepted: "@, r.accepted, ""@)
            &&& shows(lines[7], "Rejected: "@, r.rejected, ""@)
            &&& shows(lines[8], "Backpressure 429: "@, r.backpressure_429, ""@)
            &&& shows(lines[9], "Backpressure 503: "@, r.backpressure_503, ""@)
            &&& shows(lines[10], "Errors: "@, r.errors, ""@)
            &&& shows(lines[11], "Timeouts: "@, r.timeouts, ""@)
            &&& shows(lines[12], "Achieved TPS: "@, r.achieved_tps, ""@)
            &&& shows(lines[13], "Latency p50: "@, r.latency_p50_ms, "ms"@)
            &&& shows(lines[14], "Latency p95: "@, r.latency_p95_ms, "ms"@)
            &&& shows(lines[15], "Latency p99: "@, r.latency_p99_ms, "ms"@)
        }),
        has_prefix(summary_of(r)[0], "=== Worker "@ + r.worker_id@),
        has_suffix(summary_of(r)[3], r.mode@),
{
    lemma_shows("Duration: "@, r.duration_ms, "ms"@);
    lemma_shows("Seed: "@, r.seed, ""@);
    lemma_shows("Attempted: "@, r.attempted, ""@);
    lemma_shows("Sent: "@, r.sent, ""@);
    lemma_shows("Accepted: "@, r.accepted, ""@);
    lemma_shows("Rejected: "@, r.rejected, ""@);
    lemma_shows("Backpressure 429: "@, r.backpressure_429, ""@);
    lemma_shows("Backpressure 503: "@, r.backpressure_503, ""@);
    lemma_shows("Errors: "@, r.errors, ""@);
    lemma_shows("Timeouts: "@, r.timeouts, ""@);
    lemma_shows("Achieved TPS: "@, r.achieved_tps, ""@);
    lemma_shows("Latency p50: "@, r.latency_p50_ms, "ms"@);
    lemma_shows("Latency p95: "@, r.latency_p95_ms, "ms"@);
    lemma_shows("Latency p99: "@, r.latency_p99_ms, "ms"@);
    let title = "=== Worker "@ + r.worker_id@;
    assert(summary_of(r)[0].take(title.len() as int) =~= title);
    let mode = summary_of(r)[3];
    assert(mode.skip(mode.len() - r.mode@.len()) =~= r.mode@);
}

pub proof fn lemma_shows(label: Seq<char>, n: u64, unit: Seq<char>)
    ensures
        shows(labelled_of(label, n as nat, unit), label, n, unit),
{
    law_labelled_number_reads_back(label, n as nat, unit, u64::MAX as nat);
}

} // verus!
