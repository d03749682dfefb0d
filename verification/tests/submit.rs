use bots_core::worker::submit::{
    endpoint, judge, Action, MockPaymentSubmitter, OutcomeKind, Reply, Submission, SubmitOutcome,
};

/// Answers a submission with `replies` and returns what it does after each.
fn drive(replies: &[Reply]) -> Vec<Action> {
    let mut s = Submission::new(3_000);
    let mut actions = Vec::new();
    for reply in replies {
        let action = s.on_reply(*reply);
        actions.push(action);
        if !matches!(action, Action::Retry { .. }) {
            break;
        }
    }
    actions
}

#[test]
fn backpressure_is_retried_once() {
    assert_eq!(
        drive(&[Reply::Status(429), Reply::Status(503), Reply::Status(200)]),
        vec![Action::Retry { backoff_ms: 10 }, Action::ReadBody]
    );
    assert_eq!(
        drive(&[Reply::Status(503), Reply::Status(200)]),
        vec![Action::Retry { backoff_ms: 10 }, Action::ReadBody]
    );
}

#[test]
fn backpressure_signals_are_counted() {
    let mut s = Submission::new(3_000);
    s.on_reply(Reply::Status(429));
    s.on_reply(Reply::Status(503));
    let outcome = s.conclude(503, None, 17);
    assert_eq!(
        outcome,
        SubmitOutcome {
            kind: OutcomeKind::Rejected,
            latency_ms: 17,
            backpressure_429: 1,
            backpressure_503: 1,
        }
    );
}

#[test]
fn timeouts_are_retried_twice() {
    assert_eq!(
        drive(&[Reply::Timeout, Reply::Timeout, Reply::Timeout]),
        vec![
            Action::Retry { backoff_ms: 10 },
            Action::Retry { backoff_ms: 30 },
            Action::Finish(SubmitOutcome {
                kind: OutcomeKind::Timeout,
                latency_ms: 3_000,
                backpressure_429: 0,
                backpressure_503: 0,
            })
        ]
    );
}

#[test]
fn network_errors_are_retried_twice() {
    assert_eq!(
        drive(&[Reply::Network, Reply::Network, Reply::Network]),
        vec![
            Action::Retry { backoff_ms: 10 },
            Action::Retry { backoff_ms: 30 },
            Action::Fail
        ]
    );
    assert_eq!(
        drive(&[Reply::Network, Reply::Timeout, Reply::Network]),
        vec![
            Action::Retry { backoff_ms: 10 },
            Action::Retry { backoff_ms: 30 },
            Action::Fail
        ]
    );
}

#[test]
fn other_errors_and_statuses_are_final() {
    assert_eq!(drive(&[Reply::Failed]), vec![Action::Fail]);
    for status in [200, 201, 400, 404, 428, 430, 500, 502, 504] {
        assert_eq!(drive(&[Reply::Status(status)]), vec![Action::ReadBody]);
    }
}

#[test]
fn a_submission_sends_at_most_four_requests() {
    let kinds = [
        Reply::Status(429),
        Reply::Status(503),
        Reply::Timeout,
        Reply::Network,
    ];
    let mut most = 0;
    let mut longest = 0;
    for n in 0..4usize.pow(5) {
        let replies: Vec<Reply> = (0..5u32).map(|k| kinds[n / 4usize.pow(k) % 4]).collect();
        let actions = drive(&replies);
        let slept: u64 = actions
            .iter()
            .map(|a| match a {
                Action::Retry { backoff_ms } => *backoff_ms,
                _ => 0,
            })
            .sum();
        most = most.max(actions.len());
        longest = longest.max(slept);
        assert!(!matches!(actions[actions.len() - 1], Action::Retry { .. }));
    }
    assert_eq!(most, 4);
    assert_eq!(longest, 50);
}

#[test]
fn an_error_that_is_a_timeout_counts_as_one() {
    assert_eq!(Reply::of_error(true, true), Reply::Timeout);
    assert_eq!(Reply::of_error(true, false), Reply::Timeout);
    assert_eq!(Reply::of_error(false, true), Reply::Network);
    assert_eq!(Reply::of_error(false, false), Reply::Failed);
}

fn kind_of(status: u16, body: &str) -> OutcomeKind {
    Submission::new(1)
        .conclude(status, Some(body.as_bytes()), 0)
        .kind
}

#[test]
fn a_response_is_read_for_a_hash_or_an_error() {
    let ok = OutcomeKind::Accepted;
    let no = OutcomeKind::Rejected;
    assert_eq!(kind_of(200, r#"{"tx_hash":"abc"}"#), ok);
    assert_eq!(kind_of(200, r#"{"tx_hash":"","code":1}"#), ok);
    assert_eq!(kind_of(200, r#"{"tx_hash":"a","message":"m"}"#), ok);
    assert_eq!(kind_of(200, r#"{"tx_hash":"a","code":1,"message":"m"}"#), no);
    assert_eq!(kind_of(200, r#"{"tx_hash":"a","code":null,"message":null}"#), no);
    assert_eq!(kind_of(200, r#"{"tx_hash":"h","code":1,"error":"x"}"#), no);
    assert_eq!(kind_of(200, r#"{"tx_hash":"h","error":"x"}"#), ok);
    assert_eq!(kind_of(200, r#"{"tx_hash":"h","error":"x","message":"m"}"#), ok);
    assert_eq!(kind_of(200, r#"{"tx_hash":5}"#), no);
    assert_eq!(kind_of(200, r#"["tx_hash"]"#), no);
    assert_eq!(kind_of(200, "{}"), no);
    assert_eq!(kind_of(200, "no json"), no);
    assert_eq!(kind_of(201, r#"{"tx_hash":"abc"}"#), no);
    assert_eq!(kind_of(400, r#"{"tx_hash":"abc"}"#), no);
    assert_eq!(Submission::new(1).conclude(200, None, 0).kind, no);
    assert_eq!(
        Submission::new(1).conclude(200, Some(&[0xff, 0xfe]), 0).kind,
        no
    );
}

#[test]
fn the_verdict_needs_a_hash_and_no_error() {
    assert_eq!(judge(200, true, false, false, false), OutcomeKind::Accepted);
    assert_eq!(judge(200, true, true, false, false), OutcomeKind::Accepted);
    assert_eq!(judge(200, true, false, true, true), OutcomeKind::Accepted);
    assert_eq!(judge(200, true, true, true, false), OutcomeKind::Rejected);
    assert_eq!(judge(200, true, true, false, true), OutcomeKind::Rejected);
    assert_eq!(judge(200, false, false, false, false), OutcomeKind::Rejected);
    assert_eq!(judge(204, true, false, false, false), OutcomeKind::Rejected);
}

#[test]
fn payments_are_posted_below_the_base_url() {
    assert_eq!(
        endpoint("https://api1.ippan.uk"),
        "https://api1.ippan.uk/tx/payment"
    );
    assert_eq!(
        endpoint("https://api1.ippan.uk//"),
        endpoint("https://api1.ippan.uk")
    );
    assert_eq!(endpoint(""), "/tx/payment");
}

#[test]
fn the_mock_accepts_after_its_delay() {
    let outcome = MockPaymentSubmitter::new(5).outcome();
    assert_eq!(outcome.kind, OutcomeKind::Accepted);
    assert_eq!(outcome.latency_ms, 5);
    assert_eq!(outcome.backpressure_429, 0);
    assert_eq!(outcome.backpressure_503, 0);
}
