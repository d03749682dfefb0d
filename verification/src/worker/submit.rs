//! Submitting one payment: bounded retries and the reading of the reply.
//!
//! - Network errors/timeouts: retry up to 2 times (10ms then 30ms backoff).
//! - HTTP 429/503: count as backpressure signals and retry once (10ms backoff).
//! - HTTP 4xx (except 429): do not retry.

use vstd::prelude::*;
use crate::json::{entry, get, json_of_bytes, parse_bytes, JsonTree};
use crate::text::{law_strip_takes_the_run, strip_end, trim_end_matches};

verus! {

/// How a submission ended.
#[derive(Debug, Clone, Copy, PartialEq, Eq, Structural)]
pub enum OutcomeKind {
    Accepted,
    Rejected,
    Timeout,
}

/// The end of one submission, with the backpressure seen on the way.
#[derive(Debug, Clone, Copy, PartialEq, Eq, Structural)]
pub struct SubmitOutcome {
    pub kind: OutcomeKind,
    pub latency_ms: u64,
    pub backpressure_429: u64,
    pub backpressure_503: u64,
}

/// What a single request came back with.
#[derive(Debug, Clone, Copy, PartialEq, Eq, Structural)]
pub enum Reply {
    /// A response with this HTTP status.
    Status(u16),
    /// No response in time.
    Timeout,
    /// Any other network error: no connection, or one that broke.
    Network,
    /// A failure of the request that is no network error.
    Failed,
}

/// What to do after a reply.
#[derive(Debug, Clone, Copy, PartialEq, Eq, Structural)]
pub enum Action {
    /// Sleep, then send the request again.
    Retry { backoff_ms: u64 },
    /// Read the body of the response and conclude.
    ReadBody,
    /// The submission is over.
    Finish(SubmitOutcome),
    /// The submission failed with the error of the last request.
    Fail,
}

/// A submission under way.
#[derive(Debug, Clone, Copy, PartialEq, Eq, Structural)]
pub struct Submission {
    pub timeout_ms: u64,
    pub backpressure_429: u64,
    pub backpressure_503: u64,
    /// 0..=2
    pub network_retry_used: u8,
    /// 0..=1
    pub backpressure_retry_used: u8,
}

/// Whether the status asks the sender to slow down.
pub open spec fn is_backpressure(status: u16) -> bool {
    status == 429 || status == 503
}

/// A submission before its first request.
pub open spec fn fresh(timeout_ms: u64) -> Submission {
    Submission {
        timeout_ms,
        backpressure_429: 0,
        backpressure_503: 0,
        network_retry_used: 0,
        backpressure_retry_used: 0,
    }
}

impl Reply {
    /// The reply that a failed request is, from what is known of its error. An
    /// error that is a timeout counts as one, whatever else it is.
    pub fn of_error(is_timeout: bool, is_network: bool) -> (r: Reply)
        ensures
            is_timeout ==> r == Reply::Timeout,
            !is_timeout && is_network ==> r == Reply::Network,
            !is_timeout && !is_network ==> r == Reply::Failed,
    {
        if is_timeout {
            Reply::Timeout
        } else if is_network {
            Reply::Network
        } else {
            Reply::Failed
        }
    }
}

impl Submission {
    /// No more retries are used than there are, and every backpressure signal was
    /// answered by a retry, but for one that may have ended the submission.
    pub open spec fn wf(&self) -> bool {
        &&& self.network_retry_used <= 2
        &&& self.backpressure_retry_used <= 1
        &&& self.backpressure_429 + self.backpressure_503 <= self.backpressure_retry_used + 1
    }

    /// The next request is still to be sent: every signal so far led to a retry.
    pub open spec fn is_open(&self) -> bool {
        &&& self.wf()
        &&& self.backpressure_429 + self.backpressure_503 <= self.backpressure_retry_used
    }

    /// How many retries are left.
    pub open spec fn retries_left(&self) -> int {
        (2 - self.network_retry_used) + (1 - self.backpressure_retry_used)
    }

    /// How long to wait before the next try, where the reply leaves one.
    pub open spec fn backoff(&self, reply: Reply) -> Option<u64> {
        match reply {
            Reply::Status(status) => if is_backpressure(status) && self.backpressure_retry_used
                < 1 {
                Some(10u64)
            } else {
                None
            },
            Reply::Timeout | Reply::Network => if self.network_retry_used == 0 {
                Some(10u64)
            } else if self.network_retry_used == 1 {
                Some(30u64)
            } else {
                None
            },
            Reply::Failed => None,
        }
    }

    /// The submission after the reply: backpressure is counted, and a retry used
    /// where there is one.
    pub open spec fn after(&self, reply: Reply) -> Submission {
        let retry: int = if self.backoff(reply) is Some {
            1
        } else {
            0
        };
        let signal = reply is Status && is_backpressure(reply->Status_0);
        Submission {
            timeout_ms: self.timeout_ms,
            backpressure_429: (self.backpressure_429 + if reply == Reply::Status(429u16) {
                1int
            } else {
                0
            }) as u64,
            backpressure_503: (self.backpressure_503 + if reply == Reply::Status(503u16) {
                1int
            } else {
                0
            }) as u64,
            network_retry_used: (self.network_retry_used + if signal {
                0
            } else {
                retry
            }) as u8,
            backpressure_retry_used: (self.backpressure_retry_used + if signal {
                retry
            } else {
                0
            }) as u8,
        }
    }

    /// The outcome of this submission when it ends now.
    pub open spec fn outcome(&self, kind: OutcomeKind, latency_ms: u64) -> SubmitOutcome {
        SubmitOutcome {
            kind,
            latency_ms,
            backpressure_429: self.backpressure_429,
            backpressure_503: self.backpressure_503,
        }
    }

    /// A submission before its first request.
    pub fn new(timeout_ms: u64) -> (s: Submission)
        ensures
            s == fresh(timeout_ms),
            s.is_open(),
    {
        Submission {
            timeout_ms,
            backpressure_429: 0,
            backpressure_503: 0,
            network_retry_used: 0,
            backpressure_retry_used: 0,
        }
    }

    /// Takes the reply to the last request and says what to do next.
    ///
    /// A submission that ran out of network retries reports the configured timeout
    /// as its latency.
    pub fn on_reply(&mut self, reply: Reply) -> (action: Action)
        requires
            old(self).is_open(),
        ensures
            *final(self) == old(self).after(reply),
            final(self).wf(),
            action is Retry ==> final(self).is_open(),
            action == match old(self).backoff(reply) {
                Some(ms) => Action::Retry { backoff_ms: ms },
                None => match reply {
                    Reply::Status(_) => Action::ReadBody,
                    Reply::Timeout => Action::Finish(
                        final(self).outcome(OutcomeKind::Timeout, final(self).timeout_ms),
                    ),
                    Reply::Network | Reply::Failed => Action::Fail,
                },
            },
    {
        match reply {
            Reply::Status(status) => {
                if status == 429 {
                    self.backpressure_429 = self.backpressure_429.saturating_add(1);
                } else if status == 503 {
                    self.backpressure_503 = self.backpressure_503.saturating_add(1);
                } else {
                    return Action::ReadBody;
                }
                if self.backpressure_retry_used < 1 {
                    self.backpressure_retry_used = self.backpressure_retry_used + 1;
                    return Action::Retry { backoff_ms: 10 };
                }
                Action::ReadBody
            },
            Reply::Timeout | Reply::Network => {
                if self.network_retry_used < 2 {
                    let backoff_ms: u64 = if self.network_retry_used == 0 {
                        10
                    } else {
                        30
                    };
                    self.network_retry_used = self.network_retry_used + 1;
                    return Action::Retry { backoff_ms };
                }
                match reply {
                    Reply::Timeout => Action::Finish(
                        SubmitOutcome {
                            kind: OutcomeKind::Timeout,
                            latency_ms: self.timeout_ms,
                            backpressure_429: self.backpressure_429,
                            backpressure_503: self.backpressure_503,
                        },
                    ),
                    _ => Action::Fail,
                }
            },
            Reply::Failed => Action::Fail,
        }
    }

    /// Ends the submission with a response: its status, and its body as far as it
    /// could be read.
    pub fn conclude(&self, status: u16, body: Option<&[u8]>, latency_ms: u64) -> (outcome:
        SubmitOutcome)
        ensures
            outcome == self.outcome(
                if is_success(
                    status,
                    match body {
                        Some(bytes) => json_of_bytes(bytes@),
                        None => None,
                    },
                ) {
                    OutcomeKind::Accepted
                } else {
                    OutcomeKind::Rejected
                },
                latency_ms,
            ),
    {
        let mut has_tx_hash = false;
        let mut has_code = false;
        let mut has_message = false;
        let mut has_error = false;
        if let Some(bytes) = body {
            if let Ok(doc) = parse_bytes(bytes) {
                if let Some(hash) = get(&doc, "tx_hash") {
                    has_tx_hash = hash.as_str().is_some();
                }
                has_code = get(&doc, "code").is_some();
                has_message = get(&doc, "message").is_some();
                has_error = get(&doc, "error").is_some();
            }
        }
        SubmitOutcome {
            kind: judge(status, has_tx_hash, has_code, has_message, has_error),
            latency_ms,
            backpressure_429: self.backpressure_429,
            backpressure_503: self.backpressure_503,
        }
    }
}

/// Success is HTTP 200 with a `tx_hash` text, unless the document also looks like
/// an error, with a `code` and a `message` or an `error`.
pub open spec fn is_success(status: u16, doc: Option<JsonTree>) -> bool {
    &&& status == 200
    &&& doc is Some
    &&& entry(doc->0, "tx_hash"@) is Some
    &&& entry(doc->0, "tx_hash"@)->0 is Text
    &&& !(entry(doc->0, "code"@) is Some && (entry(doc->0, "message"@) is Some || entry(
        doc->0,
        "error"@,
    ) is Some))
}

/// The verdict on a response, from its status and from what its document holds.
pub fn judge(
    status: u16,
    has_tx_hash: bool,
    has_code: bool,
    has_message: bool,
    has_error: bool,
) -> (kind: OutcomeKind)
    ensures
        kind == (if status == 200 && has_tx_hash && !(has_code && (has_message || has_error)) {
            OutcomeKind::Accepted
        } else {
            OutcomeKind::Rejected
        }),
{
    let looks_like_error = has_code && (has_message || has_error);
    if status == 200 && has_tx_hash && !looks_like_error {
        OutcomeKind::Accepted
    } else {
        OutcomeKind::Rejected
    }
}

/// The URL that a payment is posted to.
pub open spec fn endpoint_of(base_url: Seq<char>) -> Seq<char> {
    strip_end(base_url, '/') + "/tx/payment"@
}

/// The URL that a payment is posted to: the base without trailing slashes, and
/// the path of the payment endpoint.
pub fn endpoint(base_url: &str) -> (url: String)
    ensures
        url@ == endpoint_of(base_url@),
{
    let mut url = trim_end_matches(base_url, '/');
    url.append("/tx/payment");
    url
}

/// A stand-in for an endpoint, which accepts every payment after a fixed delay.
#[derive(Debug, Clone, Copy, PartialEq, Eq, Structural)]
pub struct MockPaymentSubmitter {
    pub delay_ms: u64,
}

impl MockPaymentSubmitter {
    pub fn new(delay_ms: u64) -> (m: MockPaymentSubmitter)
        ensures
            m.delay_ms == delay_ms,
    {
        MockPaymentSubmitter { delay_ms }
    }

    /// The outcome of every submission, once the delay is over.
    pub fn outcome(&self) -> (outcome: SubmitOutcome)
        ensures
            outcome == fresh(0).outcome(OutcomeKind::Accepted, self.delay_ms),
    {
        SubmitOutcome {
            kind: OutcomeKind::Accepted,
            latency_ms: self.delay_ms,
            backpressure_429: 0,
            backpressure_503: 0,
        }
    }
}

/// How many requests a submission sends when it is answered with `replies`, one
/// after the other.
pub open spec fn requests(s: Submission, replies: Seq<Reply>) -> nat
    decreases replies.len(),
{
    if replies.len() == 0 {
        0
    } else if s.backoff(replies[0]) is Some {
        1 + requests(s.after(replies[0]), replies.drop_first())
    } else {
        1
    }
}

/// How long a submission that is answered with `replies` sleeps between requests.
pub open spec fn slept_ms(s: Submission, replies: Seq<Reply>) -> nat
    decreases replies.len(),
{
    if replies.len() == 0 {
        0
    } else {
        match s.backoff(replies[0]) {
            Some(ms) => ms as nat + slept_ms(s.after(replies[0]), replies.drop_first()),
            None => 0,
        }
    }
}

/// The submission after it was answered with `replies`, up to the one that ends it.
pub open spec fn settled(s: Submission, replies: Seq<Reply>) -> Submission
    decreases replies.len(),
{
    if replies.len() == 0 {
        s
    } else if s.backoff(replies[0]) is Some {
        settled(s.after(replies[0]), replies.drop_first())
    } else {
        s.after(replies[0])
    }
}

/// A submission sends at most four requests and sleeps at most 50ms in between,
/// whatever it is answered, and sees at most two backpressure signals.
pub proof fn law_retries_are_bounded(timeout_ms: u64, replies: Seq<Reply>)
    ensures
        requests(fresh(timeout_ms), replies) <= 4,
        slept_ms(fresh(timeout_ms), replies) <= 50,
        ({
            let end = settled(fresh(timeout_ms), replies);
            end.backpressure_429 + end.backpressure_503 <= 2
        }),
{
    lemma_retries_are_bounded(fresh(timeout_ms), replies);
}

proof fn lemma_retries_are_bounded(s: Submission, replies: Seq<Reply>)
    requires
        s.is_open(),
    ensures
        requests(s, replies) <= s.retries_left() + 1,
        slept_ms(s, replies) <= (1 - s.backpressure_retry_used) * 10 + (
        if s.network_retry_used == 0 {
            40int
        } else if s.network_retry_used == 1 {
            30
        } else {
            0
        }),
        settled(s, replies).wf(),
    decreases replies.len(),
{
    if replies.len() > 0 && s.backoff(replies[0]) is Some {
        lemma_retries_are_bounded(s.after(replies[0]), replies.drop_first());
    }
}

/// Network errors and timeouts are retried twice, after 10ms and then after 30ms, and
/// end the submission when they come again.
pub proof fn law_network_faults_are_retried_twice(timeout_ms: u64, a: Reply, b: Reply, c: Reply)
    requires
        a is Timeout || a is Network,
        b is Timeout || b is Network,
        c is Timeout || c is Network,
    ensures
        ({
            let s = fresh(timeout_ms);
            &&& s.backoff(a) == Some(10u64)
            &&& s.after(a).backoff(b) == Some(30u64)
            &&& s.after(a).after(b).backoff(c) is None
            &&& requests(s, seq![a, b, c]) == 3
        }),
{
    let s = fresh(timeout_ms);
    let all = seq![a, b, c];
    assert(all.drop_first() =~= seq![b, c]);
    assert(seq![b, c].drop_first() =~= seq![c]);
    assert(requests(s.after(a).after(b), seq![c]) == 1);
    assert(requests(s.after(a), seq![b, c]) == 2);
}

/// Only backpressure and network faults are retried: any other status ends the
/// submission, a 4xx other than 429 among them.
pub proof fn law_other_statuses_are_final(s: Submission, status: u16)
    requires
        status != 429,
        status != 503,
    ensures
        s.backoff(Reply::Status(status)) is None,
        s.after(Reply::Status(status)) == s,
{
}

/// Slashes at the end of a base URL do not change where payments are posted to.
pub proof fn law_trailing_slash_is_ignored(base_url: Seq<char>)
    ensures
        endpoint_of(base_url.push('/')) == endpoint_of(base_url),
{
    assert(base_url.push('/').drop_last() =~= base_url);
}

/// Backpressure is retried once, after 10ms, whichever of its two signals comes; a second
/// signal ends the submission.
pub proof fn law_backpressure_is_retried_once(timeout_ms: u64, a: u16, b: u16)
    requires
        a == 429 || a == 503,
        b == 429 || b == 503,
    ensures
        ({
            let s = fresh(timeout_ms);
            &&& s.backoff(Reply::Status(a)) == Some(10u64)
            &&& s.after(Reply::Status(a)).backoff(Reply::Status(b)) is None
            &&& requests(s, seq![Reply::Status(a), Reply::Status(b)]) == 2
        }),
{
    let s = fresh(timeout_ms);
    let all = seq![Reply::Status(a), Reply::Status(b)];
    assert(all.drop_first() =~= seq![Reply::Status(b)]);
    assert(requests(s.after(Reply::Status(a)), seq![Reply::Status(b)]) == 1);
}

/// The two kinds of retries are counted apart: a backpressure signal uses up no retry for
/// network faults, and a network fault none for backpressure.
pub proof fn law_retries_are_counted_apart(s: Submission, status: u16, fault: Reply)
    requires
        s.is_open(),
        status == 429 || status == 503,
        fault is Timeout || fault is Network,
    ensures
        s.after(Reply::Status(status)).backoff(fault) == s.backoff(fault),
        s.after(fault).backoff(Reply::Status(status)) == s.backoff(Reply::Status(status)),
        s.backoff(Reply::Timeout) == s.backoff(Reply::Network),
        s.backoff(Reply::Failed) is None,
{
}

/// How many of the replies have this status.
pub open spec fn with_status(replies: Seq<Reply>, status: u16) -> nat
    decreases replies.len(),
{
    if replies.len() == 0 {
        0
    } else {
        with_status(replies.drop_first(), status) + if replies[0] == Reply::Status(status) {
            1nat
        } else {
            0
        }
    }
}

/// Every backpressure signal is counted, by its status: a submission ends with as many as
/// were among the replies that it got.
pub proof fn law_signals_are_counted(timeout_ms: u64, replies: Seq<Reply>)
    ensures
        ({
            let s = fresh(timeout_ms);
            let got = replies.take(requests(s, replies) as int);
            let end = settled(s, replies);
            &&& requests(s, replies) <= replies.len()
            &&& end.backpressure_429 == with_status(got, 429)
            &&& end.backpressure_503 == with_status(got, 503)
            &&& end.timeout_ms == timeout_ms
        }),
{
    lemma_signals_are_counted(fresh(timeout_ms), replies);
}

proof fn lemma_signals_are_counted(s: Submission, replies: Seq<Reply>)
    requires
        s.is_open(),
    ensures
        ({
            let got = replies.take(requests(s, replies) as int);
            let end = settled(s, replies);
            &&& requests(s, replies) <= replies.len()
            &&& end.backpressure_429 == s.backpressure_429 + with_status(got, 429)
            &&& end.backpressure_503 == s.backpressure_503 + with_status(got, 503)
            &&& end.timeout_ms == s.timeout_ms
        }),
    decreases replies.len(),
{
    let n = requests(s, replies) as int;
    if replies.len() == 0 {
        assert(replies.take(0) =~= Seq::<Reply>::empty());
    } else if s.backoff(replies[0]) is Some {
        lemma_signals_are_counted(s.after(replies[0]), replies.drop_first());
        assert(replies.take(n).drop_first() =~= replies.drop_first().take(n - 1));
    } else {
        assert(replies.take(1).drop_first() =~= Seq::<Reply>::empty());
        assert(with_status(replies.take(1).drop_first(), 429) == 0);
        assert(with_status(replies.take(1).drop_first(), 503) == 0);
    }
}

/// An outcome says what it is told, and the signals of the submission.
pub proof fn law_outcome_tells_the_submission(s: Submission, kind: OutcomeKind, latency_ms: u64)
    ensures
        ({
            let o = s.outcome(kind, latency_ms);
            &&& o.kind == kind
            &&& o.latency_ms == latency_ms
            &&& o.backpressure_429 == s.backpressure_429
            &&& o.backpressure_503 == s.backpressure_503
        }),
{
}

/// A payment is accepted for its hash: a 200 with a `tx_hash` text is enough, another
/// status or a missing hash never is, and what else the document holds does not matter
/// unless it is an error.
pub proof fn law_hash_is_success(
    status: u16,
    m: Map<Seq<char>, JsonTree>,
    hash: Seq<char>,
    key: Seq<char>,
    v: JsonTree,
)
    ensures
        status == 200 <==> is_success(
            status,
            Some(
                JsonTree::Table(
                    Map::<Seq<char>, JsonTree>::empty().insert("tx_hash"@, JsonTree::Text(hash)),
                ),
            ),
        ),
        !is_success(status, None),
        !m.contains_key("tx_hash"@) ==> !is_success(status, Some(JsonTree::Table(m))),
        !(v is Text) ==> !is_success(status, Some(JsonTree::Table(m.insert("tx_hash"@, v)))),
        key != "tx_hash"@ && key != "code"@ && key != "message"@ && key != "error"@ ==> is_success(
            status,
            Some(JsonTree::Table(m.insert(key, v))),
        ) == is_success(status, Some(JsonTree::Table(m))),
        !(v is Table) ==> !is_success(status, Some(v)),
{
    lemma_keys_differ();
}

/// A document with a `code` and a `message`, or a `code` and an `error`, is never a
/// success; one without a `code` is not spoilt by the other two.
pub proof fn law_error_is_no_success(
    status: u16,
    m: Map<Seq<char>, JsonTree>,
    code: JsonTree,
    v: JsonTree,
)
    ensures
        !is_success(
            status,
            Some(JsonTree::Table(m.insert("code"@, code).insert("message"@, v))),
        ),
        !is_success(status, Some(JsonTree::Table(m.insert("code"@, code).insert("error"@, v)))),
        !m.contains_key("code"@) ==> {
            &&& is_success(status, Some(JsonTree::Table(m.insert("message"@, v)))) == is_success(
                status,
                Some(JsonTree::Table(m)),
            )
            &&& is_success(status, Some(JsonTree::Table(m.insert("error"@, v)))) == is_success(
                status,
                Some(JsonTree::Table(m)),
            )
        },
        !m.contains_key("message"@) && !m.contains_key("error"@) ==> is_success(
            status,
            Some(JsonTree::Table(m.insert("code"@, code))),
        ) == is_success(status, Some(JsonTree::Table(m))),
{
    lemma_keys_differ();
}

proof fn lemma_keys_differ()
    ensures
        "tx_hash"@ != "code"@,
        "tx_hash"@ != "message"@,
        "tx_hash"@ != "error"@,
        "code"@ != "message"@,
        "code"@ != "error"@,
        "message"@ != "error"@,
{
    reveal_strlit("tx_hash");
    reveal_strlit("code");
    reveal_strlit("message");
    reveal_strlit("error");
    assert("tx_hash"@.len() == 7);
    assert("code"@.len() == 4);
    assert("message"@.len() == 7);
    assert("error"@.len() == 5);
    assert("tx_hash"@[0] == 't');
    assert("message"@[0] == 'm');
}

/// Payments are posted to the payment path below the base URL, whatever number of slashes
/// the base ends with.
pub proof fn law_endpoint_is_below_the_base(base_url: Seq<char>, n: nat)
    requires
        base_url.len() > 0 ==> base_url[0] != '/' && base_url.last() != '/',
    ensures
        endpoint_of(base_url + Seq::new(n, |i: int| '/')) == base_url + "/tx/payment"@,
{
    law_strip_takes_the_run(base_url, '/', n);
}

} // verus!
