//! Checks of the configuration before a run.

use vstd::prelude::*;
use crate::config::Config;
use crate::decimal::{decimal, is_digit, law_decimal_round_trip, law_large_numbers_are_refused};
use crate::decimal::{lemma_decimal_reads_back, parse_unsigned, unsigned_of, IntError};
use crate::text::{from_chars, has_prefix, law_prefix_is_followed_by_the_rest, same_text};
use crate::text::{stands_at, to_chars};

verus! {

/// The fee of a payment is zero, though fees are mandatory.
#[derive(Debug, Clone, Copy, PartialEq, Eq, Structural)]
pub struct ZeroFee;

/// Fees are mandatory.
pub fn validate_fee_nonzero(fee_atomic: u128) -> (r: Result<(), ZeroFee>)
    ensures
        r == (if fee_atomic == 0 {
            Err::<(), ZeroFee>(ZeroFee)
        } else {
            Ok::<(), ZeroFee>(())
        }),
{
    if fee_atomic == 0 {
        return Err(ZeroFee);
    }
    Ok(())
}

/// What is wrong with an RPC URL.
#[derive(Debug, Clone, Copy, PartialEq, Eq, Structural)]
pub enum UrlFault {
    /// It does not start with `https://`.
    NotHttps,
    /// What stands for its port is no port.
    InvalidPort(IntError),
    /// It names a port other than 443 (node ports).
    NodePort,
}

/// Why a list of RPC URLs is refused.
#[derive(Debug)]
pub enum UrlsError {
    /// There is no URL at all.
    Empty,
    /// The first URL with a fault, and the fault.
    Faulty { url: String, fault: UrlFault },
}

/// Whether the character ends the authority of a URL: path, query or fragment follow. In
/// an HTTPS URL a backslash stands for a slash.
pub open spec fn ends_authority(c: char) -> bool {
    c == '/' || c == '\\' || c == '?' || c == '#'
}

/// Whether a URL parser passes over the character on its way to the authority: further
/// slashes, and the tabs and line ends that it drops anywhere.
pub open spec fn is_passed_over(c: char) -> bool {
    c == '/' || c == '\\' || c == '\t' || c == '\n' || c == '\r'
}

/// `s` from where its authority starts.
pub open spec fn from_authority(s: Seq<char>) -> Seq<char>
    decreases s.len(),
{
    if s.len() > 0 && is_passed_over(s[0]) {
        from_authority(s.drop_first())
    } else {
        s
    }
}

/// The authority that `s` starts with: host and port, and whatever stands before them.
pub open spec fn authority_of(s: Seq<char>) -> Seq<char>
    decreases s.len(),
{
    if s.len() == 0 || ends_authority(s[0]) {
        Seq::empty()
    } else {
        seq![s[0]] + authority_of(s.drop_first())
    }
}

/// The rest of `s` behind its last `c`, where there is one.
pub open spec fn behind_last(s: Seq<char>, c: char) -> Option<Seq<char>>
    decreases s.len(),
{
    if s.len() == 0 {
        None
    } else if s.last() == c {
        Some(Seq::empty())
    } else {
        match behind_last(s.drop_last(), c) {
            Some(t) => Some(t.push(s.last())),
            None => None,
        }
    }
}

/// What is wrong with an RPC URL. Accepted are `https://host` and `https://host:443`,
/// with any path, query or fragment.
pub open spec fn fault_of(url: Seq<char>) -> Option<UrlFault> {
    let authority = authority_of(from_authority(url.skip("https://"@.len() as int)));
    if !has_prefix(url, "https://"@) {
        Some(UrlFault::NotHttps)
    } else {
        match behind_last(authority, ':') {
            None => None,
            Some(port) => if port.len() == 0 {
                None
            } else {
                match unsigned_of(port, u16::MAX as nat) {
                    Err(e) => Some(UrlFault::InvalidPort(e)),
                    Ok(n) => if n == 443 {
                        None
                    } else {
                        Some(UrlFault::NodePort)
                    },
                }
            },
        }
    }
}

proof fn lemma_authority(s: Seq<char>, n: int)
    requires
        0 <= n <= s.len(),
        forall|k: int| 0 <= k < n ==> !ends_authority(#[trigger] s[k]),
        n == s.len() || ends_authority(s[n]),
    ensures
        authority_of(s) == s.take(n),
    decreases n,
{
    if n > 0 {
        assert(!ends_authority(s[0]));
        lemma_authority(s.drop_first(), n - 1);
        assert(seq![s[0]] + s.drop_first().take(n - 1) =~= s.take(n));
    } else {
        assert(s.take(0) =~= Seq::<char>::empty());
    }
}

proof fn lemma_from_authority(s: Seq<char>, n: int)
    requires
        0 <= n <= s.len(),
        forall|k: int| 0 <= k < n ==> is_passed_over(#[trigger] s[k]),
        n == s.len() || !is_passed_over(s[n]),
    ensures
        from_authority(s) == s.skip(n),
    decreases n,
{
    if n > 0 {
        assert(is_passed_over(s[0]));
        lemma_from_authority(s.drop_first(), n - 1);
        assert(s.drop_first().skip(n - 1) =~= s.skip(n));
    } else {
        assert(s.skip(0) =~= s);
    }
}

proof fn lemma_behind_last(s: Seq<char>, c: char, n: int)
    requires
        0 <= n <= s.len(),
        forall|k: int| n <= k < s.len() ==> s[k] != c,
        n == 0 || s[n - 1] == c,
    ensures
        behind_last(s, c) == (if n == 0 {
            None
        } else {
            Some(s.skip(n))
        }),
    decreases s.len(),
{
    if s.len() == 0 {
    } else if n == s.len() {
        assert(s.skip(n) =~= Seq::<char>::empty());
    } else {
        lemma_behind_last(s.drop_last(), c, n);
        if n > 0 {
            assert(s.drop_last().skip(n).push(s.last()) =~= s.skip(n));
        }
    }
}

fn authority_end(c: char) -> (b: bool)
    ensures
        b == ends_authority(c),
{
    c == '/' || c == '\\' || c == '?' || c == '#'
}

fn passed_over(c: char) -> (b: bool)
    ensures
        b == is_passed_over(c),
{
    c == '/' || c == '\\' || c == '\t' || c == '\n' || c == '\r'
}

/// What is wrong with an RPC URL, if anything.
pub fn url_fault(url: &str) -> (fault: Option<UrlFault>)
    ensures
        fault == fault_of(url@),
{
    let chars = to_chars(url);
    assert(url@.skip(0) =~= url@);
    if !stands_at(chars.as_slice(), "https://", 0) {
        return Some(UrlFault::NotHttps);
    }
    proof {
        reveal_strlit("https://");
    }
    let n: usize = chars.len();
    let ghost rest = url@.skip(8);
    let mut from: usize = 8;
    while from < n && passed_over(chars[from])
        invariant
            chars@ == url@,
            n == url@.len(),
            8 <= from <= n,
            rest == url@.skip(8),
            forall|k: int| 0 <= k < from - 8 ==> is_passed_over(#[trigger] rest[k]),
        decreases n - from,
    {
        from = from + 1;
    }
    proof {
        assert(from < n ==> !is_passed_over(rest[from - 8]));
        lemma_from_authority(rest, from - 8);
        assert(rest.skip(from - 8) =~= url@.skip(from as int));
    }
    let ghost tail = url@.skip(from as int);
    let mut end: usize = from;
    while end < n && !authority_end(chars[end])
        invariant
            chars@ == url@,
            n == url@.len(),
            from <= end <= n,
            tail == url@.skip(from as int),
            forall|k: int| 0 <= k < end - from ==> !ends_authority(#[trigger] tail[k]),
        decreases n - end,
    {
        end = end + 1;
    }
    let ghost authority = tail.take(end - from);
    proof {
        assert(end < n ==> ends_authority(tail[end - from]));
        lemma_authority(tail, end - from);
    }
    let mut at: usize = end;
    while at > from && chars[at - 1] != ':'
        invariant
            chars@ == url@,
            n == url@.len(),
            from <= at <= end <= n,
            authority == url@.skip(from as int).take(end - from),
            forall|k: int| at - from <= k < authority.len() ==> authority[k] != ':',
        decreases at,
    {
        assert(authority[at - from - 1] == url@[at - 1]);
        at = at - 1;
    }
    proof {
        assert(at > from ==> authority[at - from - 1] == ':');
        lemma_behind_last(authority, ':', at - from);
    }
    if at == from || at == end {
        return None;
    }
    let port = from_chars(chars.as_slice(), at, end);
    assert(port@ =~= authority.skip(at - from));
    match parse_unsigned(port.as_str(), 65535) {
        Err(e) => Some(UrlFault::InvalidPort(e)),
        Ok(p) => {
            if p == 443 {
                None
            } else {
                Some(UrlFault::NodePort)
            }
        },
    }
}

/// What the check of a list of RPC URLs comes to: at least one is needed, and the first
/// with a fault is told.
pub open spec fn urls_verdict(rpc_urls: Seq<String>, r: Result<(), UrlsError>) -> bool {
    match r {
        Ok(_) => rpc_urls.len() > 0 && forall|i: int|
            0 <= i < rpc_urls.len() ==> fault_of(#[trigger] rpc_urls[i]@) is None,
        Err(UrlsError::Empty) => rpc_urls.len() == 0,
        Err(UrlsError::Faulty { url, fault }) => exists|i: int|
            {
                &&& 0 <= i < rpc_urls.len()
                &&& url@ == rpc_urls[i]@
                &&& fault_of(#[trigger] rpc_urls[i]@) == Some(fault)
                &&& forall|k: int| 0 <= k < i ==> fault_of(#[trigger] rpc_urls[k]@) is None
            },
    }
}

/// Only HTTPS on its own port is accepted, and at least one URL is needed.
pub fn validate_https_only(rpc_urls: &[String]) -> (r: Result<(), UrlsError>)
    ensures
        urls_verdict(rpc_urls@, r),
{
    if rpc_urls.len() == 0 {
        return Err(UrlsError::Empty);
    }
    let mut i: usize = 0;
    while i < rpc_urls.len()
        invariant
            i <= rpc_urls@.len(),
            forall|k: int| 0 <= k < i ==> fault_of(#[trigger] rpc_urls@[k]@) is None,
        decreases rpc_urls@.len() - i,
    {
        match url_fault(rpc_urls[i].as_str()) {
            Some(fault) => {
                assert(fault_of(rpc_urls@[i as int]@) == Some(fault));
                return Err(UrlsError::Faulty { url: rpc_urls[i].clone(), fault });
            },
            None => {},
        }
        i = i + 1;
    }
    Ok(())
}

/// Why a run does not start.
#[derive(Debug)]
pub enum StartError {
    Urls(UrlsError),
    ZeroFee,
}

/// Checks a configuration before a run. The URLs matter only to a run over HTTP, and
/// are checked first.
pub fn validate_start(mode: &str, config: &Config) -> (r: Result<(), StartError>)
    ensures
        match r {
            Ok(_) => {
                &&& mode@ == "http"@ ==> urls_verdict(config.target.rpc_urls@, Ok(()))
                &&& config.payment.fee_atomic != 0
            },
            Err(StartError::Urls(e)) => mode@ == "http"@ && urls_verdict(
                config.target.rpc_urls@,
                Err(e),
            ),
            Err(StartError::ZeroFee) => {
                &&& mode@ == "http"@ ==> urls_verdict(config.target.rpc_urls@, Ok(()))
                &&& config.payment.fee_atomic == 0
            },
        },
{
    if same_text(mode, "http") {
        match validate_https_only(config.target.rpc_urls.as_slice()) {
            Ok(_) => {},
            Err(e) => {
                return Err(StartError::Urls(e));
            },
        }
    }
    match validate_fee_nonzero(config.payment.fee_atomic) {
        Ok(_) => Ok(()),
        Err(_) => Err(StartError::ZeroFee),
    }
}

/// What stands behind the authority does not matter: no path, query or fragment makes a
/// URL acceptable, or spoils one.
pub proof fn law_only_the_authority_matters(url: Seq<char>, c: char, rest: Seq<char>)
    requires
        has_prefix(url, "https://"@),
        ({
            let a = from_authority(url.skip("https://"@.len() as int));
            a.len() > 0 && authority_of(a) == a
        }),
        c == '/' || c == '\\' || c == '?' || c == '#',
    ensures
        fault_of(url + seq![c] + rest) == fault_of(url),
{
    reveal_strlit("https://");
    let whole = url + seq![c] + rest;
    let before = url.skip(8);
    let a = from_authority(before);
    let more = seq![c] + rest;
    assert(whole.take(8) =~= url.take(8));
    assert(whole.skip(8) =~= before + more);
    lemma_passing_over_stops(before, more);
    lemma_authority_ends_nowhere(a);
    let b = a + more;
    assert forall|k: int| 0 <= k < a.len() implies !ends_authority(#[trigger] b[k]) by {
        assert(b[k] == a[k]);
    }
    assert(b[a.len() as int] == c);
    lemma_authority(b, a.len() as int);
    assert(b.take(a.len() as int) =~= a);
}

proof fn lemma_passing_over_stops(s: Seq<char>, more: Seq<char>)
    requires
        from_authority(s).len() > 0,
    ensures
        from_authority(s + more) == from_authority(s) + more,
    decreases s.len(),
{
    if is_passed_over(s[0]) {
        lemma_passing_over_stops(s.drop_first(), more);
        assert((s + more).drop_first() =~= s.drop_first() + more);
    }
}

proof fn lemma_authority_ends_nowhere(s: Seq<char>)
    requires
        authority_of(s) == s,
    ensures
        forall|k: int| 0 <= k < s.len() ==> !ends_authority(#[trigger] s[k]),
    decreases s.len(),
{
    if s.len() > 0 {
        let t = s.drop_first();
        let head = seq![s[0]] + authority_of(t);
        assert(head == s);
        assert(authority_of(t) =~= head.drop_first());
        lemma_authority_ends_nowhere(t);
        assert forall|k: int| 0 <= k < s.len() implies !ends_authority(#[trigger] s[k]) by {
            if k > 0 {
                assert(s[k] == t[k - 1]);
            }
        }
    }
}

/// The verdict on a list of RPC URLs is fixed by the list: one that may be accepted is not
/// refused, and for any other there is an error to refuse it with.
pub proof fn law_urls_are_accepted_or_refused(rpc_urls: Seq<String>)
    ensures
        urls_verdict(rpc_urls, Ok(())) <==> !exists|e: UrlsError| urls_verdict(rpc_urls, Err(e)),
{
    if !urls_verdict(rpc_urls, Ok(())) {
        if rpc_urls.len() == 0 {
            assert(urls_verdict(rpc_urls, Err(UrlsError::Empty)));
        } else {
            let i = choose|i: int|
                0 <= i < rpc_urls.len() && fault_of(#[trigger] rpc_urls[i]@) is Some;
            lemma_first_fault(rpc_urls, i);
        }
    }
}

proof fn lemma_first_fault(rpc_urls: Seq<String>, i: int)
    requires
        0 <= i < rpc_urls.len(),
        fault_of(rpc_urls[i]@) is Some,
    ensures
        exists|e: UrlsError| urls_verdict(rpc_urls, Err(e)),
    decreases i,
{
    if exists|k: int| 0 <= k < i && fault_of(#[trigger] rpc_urls[k]@) is Some {
        let k = choose|k: int| 0 <= k < i && fault_of(#[trigger] rpc_urls[k]@) is Some;
        lemma_first_fault(rpc_urls, k);
    } else {
        let fault = fault_of(rpc_urls[i]@)->0;
        assert(fault_of(rpc_urls[i]@) == Some(fault));
        assert(urls_verdict(rpc_urls, Err(UrlsError::Faulty { url: rpc_urls[i], fault })));
    }
}

/// Whether a text can stand for a host: something that neither ends the authority nor
/// names a port, and nothing that a URL parser drops.
pub open spec fn is_plain_host(host: Seq<char>) -> bool {
    &&& host.len() > 0
    &&& forall|i: int|
        0 <= i < host.len() ==> {
            let c = #[trigger] host[i];
            &&& c != '/' && c != '\\' && c != '?' && c != '#' && c != ':'
            &&& c != '\t' && c != '\n' && c != '\r'
        }
}

/// On any host, HTTPS is accepted without a port and on port 443, and on no other: a
/// higher or lower port is a node port, and a number beyond all ports is none. Any number
/// of slashes before the host changes nothing.
pub proof fn law_only_port_443_is_accepted(slashes: nat, host: Seq<char>, port: nat)
    requires
        is_plain_host(host),
    ensures
        ({
            let url = "https://"@ + Seq::new(slashes, |i: int| '/') + host;
            let with_port = url + ":"@ + decimal(port);
            &&& fault_of(url) is None
            &&& fault_of(url + ":"@) is None
            &&& port == 443 ==> fault_of(with_port) is None
            &&& port != 443 && port <= 65535 ==> fault_of(with_port) == Some(UrlFault::NodePort)
            &&& port > 65535 ==> fault_of(with_port) == Some(
                UrlFault::InvalidPort(IntError::TooLarge),
            )
        }),
{
    reveal_strlit("https://");
    reveal_strlit(":");
    let run = Seq::new(slashes, |i: int| '/');
    let url = "https://"@ + run + host;
    let d = decimal(port);
    lemma_decimal_reads_back(port);
    if port <= 65535 {
        law_decimal_round_trip(port, 65535);
    } else {
        law_large_numbers_are_refused(port, 65535);
    }
    let empty = Seq::<char>::empty();
    assert(url =~= "https://"@ + run + (host + empty));
    lemma_authority_of_plain(run, host, empty);
    assert(url + ":"@ =~= "https://"@ + run + (host + ":"@));
    lemma_authority_of_plain(run, host, ":"@);
    let tail = ":"@ + d;
    assert forall|i: int| 0 <= i < tail.len() implies !ends_authority(#[trigger] tail[i]) by {
        if i > 0 {
            assert(is_digit(d[i - 1]));
        }
    }
    assert(url + ":"@ + d =~= "https://"@ + run + (host + tail));
    lemma_authority_of_plain(run, host, tail);
    let n = host.len() as int;
    lemma_behind_last(host + empty, ':', 0);
    lemma_behind_last(host + ":"@, ':', n + 1);
    assert((host + ":"@).skip(n + 1) =~= empty);
    let a = host + tail;
    assert(a[n] == ':');
    assert forall|k: int| n + 1 <= k < a.len() implies a[k] != ':' by {
        assert(a[k] == d[k - n - 1]);
        assert(is_digit(d[k - n - 1]));
    }
    lemma_behind_last(a, ':', n + 1);
    assert(a.skip(n + 1) =~= d);
}

proof fn lemma_authority_of_plain(run: Seq<char>, host: Seq<char>, tail: Seq<char>)
    requires
        is_plain_host(host),
        forall|i: int| 0 <= i < run.len() ==> run[i] == '/',
        forall|i: int| 0 <= i < tail.len() ==> !ends_authority(#[trigger] tail[i]),
    ensures
        ({
            let url = "https://"@ + run + (host + tail);
            &&& has_prefix(url, "https://"@)
            &&& authority_of(from_authority(url.skip("https://"@.len() as int))) == host + tail
        }),
{
    reveal_strlit("https://");
    let rest = host + tail;
    let url = "https://"@ + run + rest;
    assert(url.take(8) =~= "https://"@);
    let s = url.skip(8);
    assert(s =~= run + rest);
    assert(s[run.len() as int] == host[0]);
    lemma_from_authority(s, run.len() as int);
    assert(s.skip(run.len() as int) =~= rest);
    assert forall|k: int| 0 <= k < rest.len() implies !ends_authority(#[trigger] rest[k]) by {
        if k < host.len() {
            assert(rest[k] == host[k]);
        } else {
            assert(rest[k] == tail[k - host.len()]);
        }
    }
    lemma_authority(rest, rest.len() as int);
    assert(rest.take(rest.len() as int) =~= rest);
}

/// Every other scheme is refused, and only that is refused as one.
pub proof fn law_only_https_is_accepted(url: Seq<char>)
    ensures
        fault_of(url) == Some(UrlFault::NotHttps) <==> !exists|rest: Seq<char>|
            url == #[trigger] ("https://"@ + rest),
{
    law_prefix_is_followed_by_the_rest(url, "https://"@);
}

/// Every URL of a list is checked, and the first fault is told: a list is accepted for all
/// of its URLs, and refused for one of them, behind which nothing matters.
pub proof fn law_every_url_is_checked(rpc_urls: Seq<String>, url: String, r: Result<(), UrlsError>)
    requires
        rpc_urls.len() > 0,
        urls_verdict(rpc_urls, r),
    ensures
        r is Ok ==> (urls_verdict(rpc_urls.push(url), Ok(())) <==> fault_of(url@) is None),
        r is Ok ==> (forall|fault: UrlFault|
            fault_of(url@) == Some(fault) ==> #[trigger] urls_verdict(
                rpc_urls.push(url),
                Err(UrlsError::Faulty { url, fault }),
            )),
        r is Err ==> urls_verdict(rpc_urls.push(url), r),
        urls_verdict(seq![url], Ok(())) <==> fault_of(url@) is None,
{
    let more = rpc_urls.push(url);
    let last = rpc_urls.len() as int;
    assert(more[last] == url);
    if r is Ok {
        assert forall|i: int| 0 <= i < rpc_urls.len() implies fault_of(
            #[trigger] more[i]@,
        ) is None by {
            assert(fault_of(rpc_urls[i]@) is None);
        }
        assert forall|fault: UrlFault| fault_of(url@) == Some(fault) implies #[trigger] urls_verdict(
            more,
            Err(UrlsError::Faulty { url, fault }),
        ) by {
            assert(fault_of(more[last]@) == Some(fault));
        }
        if fault_of(url@) is None {
            assert forall|i: int| 0 <= i < more.len() implies fault_of(#[trigger] more[i]@) is None by {
                if i < last {
                    assert(fault_of(rpc_urls[i]@) is None);
                }
            }
        } else {
            assert(fault_of(more[last]@) is Some);
        }
    } else if let Err(UrlsError::Faulty { url: told, fault }) = r {
        let i = choose|i: int|
            {
                &&& 0 <= i < rpc_urls.len()
                &&& told@ == rpc_urls[i]@
                &&& fault_of(#[trigger] rpc_urls[i]@) == Some(fault)
                &&& forall|k: int| 0 <= k < i ==> fault_of(#[trigger] rpc_urls[k]@) is None
            };
        assert(fault_of(more[i]@) == Some(fault));
        assert forall|k: int| 0 <= k < i implies fault_of(#[trigger] more[k]@) is None by {
            assert(fault_of(rpc_urls[k]@) is None);
        }
    }
    assert(seq![url][0] == url);
    if fault_of(url@) is Some {
        assert(fault_of(seq![url][0]@) is Some);
    }
}

/// Whether no character of a text ends the authority, or is dropped by a URL parser.
pub open spec fn stays_in_authority(s: Seq<char>) -> bool {
    forall|i: int|
        0 <= i < s.len() ==> {
            let c = #[trigger] s[i];
            &&& c != '/' && c != '\\' && c != '?' && c != '#'
            &&& c != '\t' && c != '\n' && c != '\r'
        }
}

/// The port is what stands behind the last colon of the authority, and is read as a number:
/// 443 is accepted in whatever way it is written, any other number is a node port, and what
/// is no number of a port is refused with what is wrong with it.
pub proof fn law_port_is_read_behind_the_last_colon(before: Seq<char>, port: Seq<char>)
    requires
        stays_in_authority(before),
        stays_in_authority(port),
        port.len() > 0,
        forall|i: int| 0 <= i < port.len() ==> port[i] != ':',
    ensures
        fault_of("https://"@ + before + ":"@ + port) == match unsigned_of(port, 65535) {
            Ok(n) => if n == 443 {
                None
            } else {
                Some(UrlFault::NodePort)
            },
            Err(e) => Some(UrlFault::InvalidPort(e)),
        },
{
    reveal_strlit("https://");
    reveal_strlit(":");
    let a = before + ":"@ + port;
    let url = "https://"@ + before + ":"@ + port;
    let n = before.len() as int;
    assert(url.take(8) =~= "https://"@);
    assert(url.skip(8) =~= a);
    assert forall|k: int| 0 <= k < a.len() implies !ends_authority(#[trigger] a[k])
        && !is_passed_over(a[k]) by {
        if k < n {
            assert(a[k] == before[k]);
        } else if k > n {
            assert(a[k] == port[k - n - 1]);
        } else {
            assert(a[k] == ':');
        }
    }
    assert(!is_passed_over(a[0]));
    lemma_from_authority(a, 0);
    assert(a.skip(0) =~= a);
    lemma_authority(a, a.len() as int);
    assert(a.take(a.len() as int) =~= a);
    assert(a[n] == ':');
    assert forall|k: int| n + 1 <= k < a.len() implies a[k] != ':' by {
        assert(a[k] == port[k - n - 1]);
    }
    lemma_behind_last(a, ':', n + 1);
    assert(a.skip(n + 1) =~= port);
}

} // verus!
