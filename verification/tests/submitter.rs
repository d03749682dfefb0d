use bots_core::submitter::{BatchReply, HttpJsonSubmitter, MockSubmitter, SubmitResult};

#[test]
fn the_mock_accepts_whole_batches() {
    let mock = MockSubmitter::new(12);
    assert_eq!(mock.name(), "mock");
    assert_eq!(mock.delay_ms(), 12);
    assert_eq!(
        mock.result(3),
        SubmitResult {
            accepted: 3,
            rejected: 0,
            timeouts: 0,
            latency_ms: 12
        }
    );
}

#[test]
fn urls_are_taken_in_turn() {
    let mut s = HttpJsonSubmitter::new(vec!["a".to_string(), "b".to_string()], 5);
    assert_eq!(s.name(), "http");
    assert_eq!(s.next_url(), "a");
    assert_eq!(s.next_url(), "b");
    assert_eq!(s.next_url(), "a");
    assert_eq!(HttpJsonSubmitter::endpoint("http://h"), "http://h/rpc");
}

#[test]
fn a_batch_is_accepted_rejected_or_timed_out_as_a_whole() {
    let s = HttpJsonSubmitter::new(vec!["a".to_string()], 700);
    let r = |accepted, rejected, timeouts, latency_ms| {
        Some(SubmitResult {
            accepted,
            rejected,
            timeouts,
            latency_ms,
        })
    };
    let reply = |status| BatchReply::Status {
        status,
        latency_ms: 9,
    };
    assert_eq!(s.result(4, reply(200)), r(4, 0, 0, 9));
    assert_eq!(s.result(4, reply(299)), r(4, 0, 0, 9));
    assert_eq!(s.result(4, reply(199)), r(0, 4, 0, 9));
    assert_eq!(s.result(4, reply(300)), r(0, 4, 0, 9));
    assert_eq!(s.result(4, BatchReply::Timeout), r(0, 0, 4, 700));
    assert_eq!(s.result(4, BatchReply::Failed), None);
}
