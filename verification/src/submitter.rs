//! Submitting batches of raw transactions.

use vstd::prelude::*;
use crate::worker::payment::{in_turn, next_index};

verus! {

/// How a batch fared.
#[derive(Debug, Clone, Copy, PartialEq, Eq, Structural)]
pub struct SubmitResult {
    pub accepted: u64,
    pub rejected: u64,
    pub timeouts: u64,
    pub latency_ms: u64,
}

/// Mock submitter for testing (always accepts with configurable delay)
#[derive(Debug)]
pub struct MockSubmitter {
    delay_ms: u64,
}

impl MockSubmitter {
    /// How long a submission takes.
    pub closed spec fn delay(&self) -> u64 {
        self.delay_ms
    }

    pub fn new(delay_ms: u64) -> (s: Self)
        ensures
            s.delay() == delay_ms,
    {
        MockSubmitter { delay_ms }
    }

    pub fn name(&self) -> (s: &'static str)
        ensures
            s@ == "mock"@,
    {
        "mock"
    }

    /// How long to sleep before the result.
    pub fn delay_ms(&self) -> (ms: u64)
        ensures
            ms == self.delay(),
    {
        self.delay_ms
    }

    /// The result of a batch of this many transactions.
    pub fn result(&self, batch_len: usize) -> (r: SubmitResult)
        ensures
            r == (SubmitResult {
                accepted: batch_len as u64,
                rejected: 0,
                timeouts: 0,
                latency_ms: self.delay(),
            }),
            r.accepted == batch_len,
    {
        SubmitResult {
            accepted: batch_len as u64,
            rejected: 0,
            timeouts: 0,
            latency_ms: self.delay_ms,
        }
    }
}

/// What a batch request came back with.
#[derive(Debug, Clone, Copy, PartialEq, Eq, Structural)]
pub enum BatchReply {
    /// A response with this HTTP status, after this time.
    Status { status: u16, latency_ms: u64 },
    /// No response in time.
    Timeout,
    /// Any other failure of the request.
    Failed,
}

/// What a batch comes to, by the reply: nothing where the request failed.
pub open spec fn batch_result(batch_len: usize, reply: BatchReply, timeout_ms: u64) -> Option<
    SubmitResult,
> {
    match reply {
        BatchReply::Status { status, latency_ms } => Some(
            SubmitResult {
                accepted: if 200 <= status < 300 {
                    batch_len as u64
                } else {
                    0
                },
                rejected: if 200 <= status < 300 {
                    0
                } else {
                    batch_len as u64
                },
                timeouts: 0,
                latency_ms,
            },
        ),
        BatchReply::Timeout => Some(
            SubmitResult {
                accepted: 0,
                rejected: 0,
                timeouts: batch_len as u64,
                latency_ms: timeout_ms,
            },
        ),
        BatchReply::Failed => None,
    }
}

/// HTTP/JSON submitter: takes its URLs in turn, and reads the replies.
#[derive(Debug)]
pub struct HttpJsonSubmitter {
    urls: Vec<String>,
    current_url_idx: usize,
    timeout_ms: u64,
}

impl HttpJsonSubmitter {
    pub closed spec fn urls(&self) -> Seq<String> {
        self.urls@
    }

    pub closed spec fn turn(&self) -> usize {
        self.current_url_idx
    }

    pub closed spec fn timeout(&self) -> u64 {
        self.timeout_ms
    }

    pub fn new(urls: Vec<String>, timeout_ms: u64) -> (s: Self)
        ensures
            s.urls() == urls@,
            s.turn() == 0,
            s.timeout() == timeout_ms,
    {
        HttpJsonSubmitter { urls, current_url_idx: 0, timeout_ms }
    }

    pub fn name(&self) -> (s: &'static str)
        ensures
            s@ == "http"@,
    {
        "http"
    }

    /// The next URL in turn.
    pub fn next_url(&mut self) -> (url: String)
        requires
            old(self).urls().len() > 0,
        ensures
            url@ == in_turn(old(self).urls(), old(self).turn()),
            final(self).turn() == next_index(old(self).turn()),
            final(self).urls() == old(self).urls(),
            final(self).timeout() == old(self).timeout(),
    {
        let idx: usize = self.current_url_idx;
        self.current_url_idx = if idx == usize::MAX {
            0
        } else {
            idx + 1
        };
        let k: usize = idx % self.urls.len();
        self.urls[k].clone()
    }

    /// The URL that batches are posted to.
    pub fn endpoint(url: &str) -> (e: String)
        ensures
            e@ == url@ + "/rpc"@,
    {
        let mut e = url.to_owned();
        e.append("/rpc");
        e
    }

    /// The result of a batch: all accepted on a 2xx status, all rejected on any other,
    /// all timed out where there was no response in time, and none where the request
    /// failed.
    pub fn result(&self, batch_len: usize, reply: BatchReply) -> (r: Option<SubmitResult>)
        ensures
            r == batch_result(batch_len, reply, self.timeout()),
            r matches Some(r) ==> r.accepted + r.rejected + r.timeouts == batch_len,
    {
        let n: u64 = batch_len as u64;
        match reply {
            BatchReply::Status { status, latency_ms } => {
                if 200 <= status && status < 300 {
                    Some(SubmitResult { accepted: n, rejected: 0, timeouts: 0, latency_ms })
                } else {
                    Some(SubmitResult { accepted: 0, rejected: n, timeouts: 0, latency_ms })
                }
            },
            BatchReply::Timeout => Some(
                SubmitResult {
                    accepted: 0,
                    rejected: 0,
                    timeouts: n,
                    latency_ms: self.timeout_ms,
                },
            ),
            BatchReply::Failed => None,
        }
    }
}

/// A batch is accepted, rejected or timed out as a whole, and every transaction of it is
/// accounted for: accepted on a 2xx status and on no other, with the latency that was
/// measured, and after the timeout where there was no response.
pub proof fn law_batches_are_settled_as_a_whole(
    batch_len: usize,
    reply: BatchReply,
    timeout_ms: u64,
)
    ensures
        reply is Failed <==> batch_result(batch_len, reply, timeout_ms) is None,
        batch_result(batch_len, reply, timeout_ms) matches Some(r) ==> {
            &&& r.accepted + r.rejected + r.timeouts == batch_len
            &&& r.accepted == batch_len || r.accepted == 0
            &&& r.rejected == batch_len || r.rejected == 0
            &&& reply is Timeout ==> r.timeouts == batch_len && r.latency_ms == timeout_ms
            &&& reply matches BatchReply::Status { status, latency_ms } ==> {
                &&& r.timeouts == 0
                &&& r.latency_ms == latency_ms
                &&& batch_len > 0 ==> (r.accepted > 0 <==> 200 <= status <= 299)
            }
        },
{
}

} // verus!
