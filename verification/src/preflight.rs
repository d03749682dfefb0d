//! Preflight checks: which RPC URLs may be used, and what their answers mean.

use vstd::prelude::*;
use crate::text::{same_text, strip_end, strip_start, trim_end_matches, trim_start_matches};

verus! {

/// The parts of a URL, as plain values.
pub struct UrlModel {
    pub scheme: Seq<char>,
    pub username: Seq<char>,
    pub password: Option<Seq<char>>,
    pub host: Option<Seq<char>>,
    pub host_is_ipv4: bool,
    pub port: Option<u16>,
    pub path: Seq<char>,
    pub query: Option<Seq<char>>,
    pub fragment: Option<Seq<char>>,
    pub text: Seq<char>,
}

/// The parts of a URL.
#[derive(Debug, Clone)]
pub struct UrlParts {
    pub scheme: String,
    pub username: String,
    pub password: Option<String>,
    pub host: Option<String>,
    /// The host is an IPv4 address. (An IPv6 address stands in brackets, so its text
    /// is no raw address.)
    pub host_is_ipv4: bool,
    /// The port, unless it is the one that goes with the scheme.
    pub port: Option<u16>,
    pub path: String,
    pub query: Option<String>,
    pub fragment: Option<String>,
    /// The whole URL.
    pub text: String,
}

/// The text of a string, where there is one.
pub open spec fn text_of(s: Option<String>) -> Option<Seq<char>> {
    match s {
        Some(s) => Some(s@),
        None => None,
    }
}

impl View for UrlParts {
    type V = UrlModel;

    open spec fn view(&self) -> UrlModel {
        UrlModel {
            scheme: self.scheme@,
            username: self.username@,
            password: text_of(self.password),
            host: text_of(self.host),
            host_is_ipv4: self.host_is_ipv4,
            port: self.port,
            path: self.path@,
            query: text_of(self.query),
            fragment: text_of(self.fragment),
            text: self.text@,
        }
    }
}

/// What `Url::parse` makes of a text: the parts of the URL, or the words of its error
/// where the text is no URL.
pub uninterp spec fn url_of(raw: Seq<char>) -> Result<UrlModel, Seq<char>>;

/// What `Url::join` makes of a base URL and a reference: the text of the joined URL, or
/// the words of the error where the base is no URL or the two cannot be joined.
pub uninterp spec fn joined_url(base: Seq<char>, reference: Seq<char>) -> Result<
    Seq<char>,
    Seq<char>,
>;

/// `Url::parse`, with the parts that its accessors return and its error in words: whether
/// the text is a URL, its parts, and what is said of it where it is none, depend on the
/// text alone.
#[verifier::external_body]
fn parse_url(raw: &str) -> (r: Result<UrlParts, String>)
    ensures
        match r {
            Ok(parts) => url_of(raw@) == Ok::<UrlModel, Seq<char>>(parts@),
            Err(words) => url_of(raw@) == Err::<UrlModel, Seq<char>>(words@),
        },
{
    let u = url::Url::parse(raw).map_err(|e| e.to_string())?;
    Ok(UrlParts {
        scheme: u.scheme().to_string(),
        username: u.username().to_string(),
        password: u.password().map(String::from),
        host: u.host_str().map(String::from),
        host_is_ipv4: matches!(u.host(), Some(url::Host::Ipv4(_))),
        port: u.port(),
        path: u.path().to_string(),
        query: u.query().map(String::from),
        fragment: u.fragment().map(String::from),
        text: u.to_string(),
    })
}

/// `Url::join` of a base URL, given as text, and a reference, with its error in words: the
/// text of the joined URL, or what is said of the two, depends on the two alone.
#[verifier::external_body]
fn join_url(base: &str, reference: &str) -> (r: Result<String, String>)
    ensures
        match r {
            Ok(joined) => joined_url(base@, reference@) == Ok::<Seq<char>, Seq<char>>(joined@),
            Err(words) => joined_url(base@, reference@) == Err::<Seq<char>, Seq<char>>(words@),
        },
{
    match url::Url::parse(base) {
        Ok(u) => match u.join(reference) {
            Ok(joined) => Ok(joined.to_string()),
            Err(e) => Err(e.to_string()),
        },
        Err(e) => Err(e.to_string()),
    }
}

/// What is wrong with an RPC URL.
#[derive(Debug, Clone, Copy, PartialEq, Eq, Structural)]
pub enum RpcUrlFault {
    /// It is no URL.
    Invalid,
    /// Its scheme is not `https`.
    NotHttps,
    /// It holds a user name or a password.
    Credentials,
    /// It has no host.
    NoHost,
    /// Its host is not on the list.
    HostNotAllowed,
    /// Its host is a raw IP address.
    RawIp,
    /// It names port 9000.
    NodePort,
    /// It names another port than 443.
    OtherPort,
    /// It has a path; the worker appends its own.
    HasPath,
    /// It has a query or a fragment.
    QueryOrFragment,
}

/// A fault, and the host or the path that it is about, or what the URL parser said.
#[derive(Debug)]
pub struct RpcUrlError {
    pub fault: RpcUrlFault,
    pub detail: String,
}

/// Whether a host is on the list.
pub open spec fn is_listed(allowed: Seq<String>, host: Seq<char>) -> bool {
    exists|i: int| 0 <= i < allowed.len() && (#[trigger] allowed[i])@ == host
}

/// What is wrong with a URL, if anything. Of several faults the first is told.
pub open spec fn rpc_fault(u: UrlModel, allowed: Seq<String>) -> Option<RpcUrlFault> {
    if u.scheme != "https"@ {
        Some(RpcUrlFault::NotHttps)
    } else if u.username.len() > 0 || u.password is Some {
        Some(RpcUrlFault::Credentials)
    } else if u.host is None {
        Some(RpcUrlFault::NoHost)
    } else if !is_listed(allowed, u.host->0) {
        Some(RpcUrlFault::HostNotAllowed)
    } else if u.host_is_ipv4 {
        Some(RpcUrlFault::RawIp)
    } else if u.port == Some(9000u16) {
        Some(RpcUrlFault::NodePort)
    } else if u.port is Some && u.port != Some(443u16) {
        Some(RpcUrlFault::OtherPort)
    } else if u.path != "/"@ {
        Some(RpcUrlFault::HasPath)
    } else if u.query is Some || u.fragment is Some {
        Some(RpcUrlFault::QueryOrFragment)
    } else {
        None
    }
}

/// The host or the path that a fault is about.
pub open spec fn fault_detail(u: UrlModel, fault: RpcUrlFault) -> Seq<char> {
    match fault {
        RpcUrlFault::HostNotAllowed => u.host->0,
        RpcUrlFault::HasPath => u.path,
        _ => Seq::empty(),
    }
}

/// The fixed list of API hosts.
pub fn allowed_hosts() -> (hosts: Vec<String>)
    ensures
        hosts@.len() == 4,
        hosts@[0]@ == "api1.ippan.uk"@,
        hosts@[1]@ == "api2.ippan.uk"@,
        hosts@[2]@ == "api3.ippan.uk"@,
        hosts@[3]@ == "api4.ippan.uk"@,
{
    let mut hosts: Vec<String> = Vec::new();
    hosts.push("api1.ippan.uk".to_owned());
    hosts.push("api2.ippan.uk".to_owned());
    hosts.push("api3.ippan.uk".to_owned());
    hosts.push("api4.ippan.uk".to_owned());
    hosts
}

fn listed(allowed: &[String], host: &str) -> (b: bool)
    ensures
        b == is_listed(allowed@, host@),
{
    let mut i: usize = 0;
    while i < allowed.len()
        invariant
            i <= allowed@.len(),
            forall|k: int| 0 <= k < i ==> (#[trigger] allowed@[k])@ != host@,
        decreases allowed@.len() - i,
    {
        if same_text(allowed[i].as_str(), host) {
            return true;
        }
        i = i + 1;
    }
    false
}

fn fail(fault: RpcUrlFault) -> (r: Result<(), RpcUrlError>)
    ensures
        r is Err,
        r->Err_0.fault == fault,
        r->Err_0.detail@ == Seq::<char>::empty(),
{
    Err(RpcUrlError { fault, detail: String::new() })
}

/// Checks the parts of a URL: HTTPS on its own port, on a listed host that is no raw
/// address, and nothing but the base URL.
pub fn check_url_parts(url: &UrlParts, allowed: &[String]) -> (r: Result<(), RpcUrlError>)
    ensures
        match rpc_fault(url@, allowed@) {
            None => r is Ok,
            Some(fault) => r is Err && r->Err_0.fault == fault && r->Err_0.detail@ == fault_detail(
                url@,
                fault,
            ),
        },
{
    if !same_text(url.scheme.as_str(), "https") {
        return fail(RpcUrlFault::NotHttps);
    }
    if !url.username.as_str().is_empty() || url.password.is_some() {
        return fail(RpcUrlFault::Credentials);
    }
    let host: &String = match &url.host {
        Some(host) => host,
        None => {
            return fail(RpcUrlFault::NoHost);
        },
    };
    if !listed(allowed, host.as_str()) {
        return Err(RpcUrlError { fault: RpcUrlFault::HostNotAllowed, detail: host.clone() });
    }
    if url.host_is_ipv4 {
        return fail(RpcUrlFault::RawIp);
    }
    if let Some(port) = url.port {
        if port == 9000 {
            return fail(RpcUrlFault::NodePort);
        }
        if port != 443 {
            return fail(RpcUrlFault::OtherPort);
        }
    }
    // Enforce base URL only; worker will append `/tx/payment`.
    if !same_text(url.path.as_str(), "/") {
        return Err(RpcUrlError { fault: RpcUrlFault::HasPath, detail: url.path.clone() });
    }
    if url.query.is_some() || url.fragment.is_some() {
        return fail(RpcUrlFault::QueryOrFragment);
    }
    Ok(())
}

/// What is wrong with the text of a URL, if anything.
pub open spec fn raw_fault(raw: Seq<char>, allowed: Seq<String>) -> Option<RpcUrlFault> {
    match url_of(raw) {
        Err(_) => Some(RpcUrlFault::Invalid),
        Ok(u) => rpc_fault(u, allowed),
    }
}

/// The host or the path that a fault of the text is about, or what the URL parser said.
pub open spec fn raw_detail(raw: Seq<char>, fault: RpcUrlFault) -> Seq<char> {
    match url_of(raw) {
        Err(words) => words,
        Ok(u) => fault_detail(u, fault),
    }
}

/// Reads a URL and checks it.
pub fn validate_rpc_url(raw: &str, allowed: &[String]) -> (r: Result<UrlParts, RpcUrlError>)
    ensures
        match raw_fault(raw@, allowed@) {
            None => r is Ok && url_of(raw@) == Ok::<UrlModel, Seq<char>>(r->Ok_0@),
            Some(fault) => {
                &&& r is Err
                &&& r->Err_0.fault == fault
                &&& r->Err_0.detail@ == raw_detail(raw@, fault)
            },
        },
{
    match parse_url(raw) {
        Err(detail) => Err(RpcUrlError { fault: RpcUrlFault::Invalid, detail }),
        Ok(url) => match check_url_parts(&url, allowed) {
            Ok(_) => Ok(url),
            Err(e) => Err(e),
        },
    }
}

/// Reads URLs and checks them, up to the first one with a fault.
pub fn validate_rpc_urls(urls: &[String], allowed: &[String]) -> (r: Result<
    Vec<UrlParts>,
    (usize, RpcUrlError),
>)
    ensures
        match r {
            Ok(parts) => {
                &&& parts@.len() == urls@.len()
                &&& forall|i: int|
                    0 <= i < urls@.len() ==> {
                        &&& raw_fault(#[trigger] urls@[i]@, allowed@) is None
                        &&& url_of(urls@[i]@) == Ok::<UrlModel, Seq<char>>(parts@[i]@)
                    }
            },
            Err((at, e)) => {
                &&& at < urls@.len()
                &&& raw_fault(urls@[at as int]@, allowed@) == Some(e.fault)
                &&& e.detail@ == raw_detail(urls@[at as int]@, e.fault)
                &&& forall|i: int|
                    0 <= i < at ==> raw_fault(#[trigger] urls@[i]@, allowed@) is None
            },
        },
{
    let mut parts: Vec<UrlParts> = Vec::new();
    let mut i: usize = 0;
    while i < urls.len()
        invariant
            i <= urls@.len(),
            parts@.len() == i,
            forall|k: int|
                0 <= k < i ==> {
                    &&& raw_fault(#[trigger] urls@[k]@, allowed@) is None
                    &&& url_of(urls@[k]@) == Ok::<UrlModel, Seq<char>>(parts@[k]@)
                },
        decreases urls@.len() - i,
    {
        match validate_rpc_url(urls[i].as_str(), allowed) {
            Ok(p) => parts.push(p),
            Err(e) => {
                return Err((i, e));
            },
        }
        i = i + 1;
    }
    Ok(parts)
}

/// The URL as it is shown, and as paths are appended to it: without trailing slashes.
pub fn shown_base(url: &UrlParts) -> (s: String)
    ensures
        s@ == strip_end(url.text@, '/'),
{
    trim_end_matches(url.text.as_str(), '/')
}

/// The URL of a path below a base URL, or what the URL parser said.
pub fn check_url(base: &UrlParts, path: &str) -> (r: Result<String, String>)
    ensures
        joined_url(base.text@, strip_start(path@, '/')) == match r {
            Ok(joined) => Ok::<Seq<char>, Seq<char>>(joined@),
            Err(words) => Err::<Seq<char>, Seq<char>>(words@),
        },
{
    let reference = trim_start_matches(path, '/');
    join_url(base.text.as_str(), reference.as_str())
}

/// Whether a required endpoint answered as it must, with status 200. No status means
/// that the request failed.
pub fn required_ok(status: Option<u16>) -> (ok: bool)
    ensures
        ok == (status == Some(200u16)),
{
    match status {
        Some(s) => s == 200,
        None => false,
    }
}

/// The time from which on the status endpoint is slow.
pub const SLOW_STATUS_WARN_MS: u64 = 1_000;

/// What to warn of after a look at the status endpoint.
#[derive(Debug, Clone, Copy, PartialEq, Eq, Structural)]
pub struct StatusWarnings {
    pub slow: bool,
    pub non_200: bool,
    pub failed: bool,
}

/// Slow status should warn but never fail the preflight. No status means that the
/// request failed.
pub fn status_warnings(status: Option<u16>, latency_ms: u64) -> (w: StatusWarnings)
    ensures
        w.failed == (status is None),
        w.slow == (status is Some && latency_ms > SLOW_STATUS_WARN_MS),
        w.non_200 == (status is Some && status != Some(200u16)),
{
    match status {
        Some(s) => StatusWarnings {
            slow: latency_ms > SLOW_STATUS_WARN_MS,
            non_200: s != 200,
            failed: false,
        },
        None => StatusWarnings { slow: false, non_200: false, failed: true },
    }
}

/// The outcome of the required checks.
#[derive(Debug, Clone, Copy, PartialEq, Eq, Structural)]
pub struct Preflight {
    pub failures: u64,
}

impl Preflight {
    pub fn new() -> (p: Preflight)
        ensures
            p.failures == 0,
    {
        Preflight { failures: 0 }
    }

    /// The outcome after one more required check.
    pub open spec fn after(self, ok: bool) -> Preflight {
        if ok || self.failures == u64::MAX {
            self
        } else {
            Preflight { failures: (self.failures + 1) as u64 }
        }
    }

    /// The outcome after these required checks.
    pub open spec fn of(checks: Seq<bool>) -> Preflight
        decreases checks.len(),
    {
        if checks.len() == 0 {
            Preflight { failures: 0 }
        } else {
            Preflight::of(checks.drop_last()).after(checks.last())
        }
    }

    /// Counts a required check.
    pub fn record(&mut self, ok: bool)
        ensures
            *final(self) == old(self).after(ok),
    {
        if !ok {
            self.failures = self.failures.saturating_add(1);
        }
    }

    /// The preflight fails with the number of failed checks, if any failed.
    pub fn verdict(&self) -> (r: Result<(), u64>)
        ensures
            r == (if self.failures > 0 {
                Err::<(), u64>(self.failures)
            } else {
                Ok::<(), u64>(())
            }),
    {
        if self.failures > 0 {
            return Err(self.failures);
        }
        Ok(())
    }
}

/// A URL that passes is HTTPS on port 443, on a listed host, without credentials,
/// path, query or fragment.
pub proof fn law_accepted_url(u: UrlModel, allowed: Seq<String>)
    requires
        rpc_fault(u, allowed) is None,
    ensures
        u.scheme == "https"@,
        u.username.len() == 0,
        u.password is None,
        u.host is Some,
        is_listed(allowed, u.host->0),
        !u.host_is_ipv4,
        u.port is None || u.port == Some(443u16),
        u.path == "/"@,
        u.query is None,
        u.fragment is None,
{
}

/// The preflight passes exactly where no required check failed.
pub proof fn law_one_failure_is_enough(checks: Seq<bool>)
    ensures
        Preflight::of(checks).failures == 0 <==> forall|i: int|
            0 <= i < checks.len() ==> checks[i],
    decreases checks.len(),
{
    if checks.len() > 0 {
        law_one_failure_is_enough(checks.drop_last());
        if forall|i: int| 0 <= i < checks.len() ==> checks[i] {
            assert(checks.last());
            assert forall|i: int| 0 <= i < checks.drop_last().len() implies checks.drop_last()[i] by {
                assert(checks[i]);
            }
        }
        if Preflight::of(checks).failures == 0 {
            assert forall|i: int| 0 <= i < checks.len() implies checks[i] by {
                if i < checks.len() - 1 {
                    assert(checks.drop_last()[i]);
                }
            }
        }
    }
}

/// A URL that is HTTPS on port 443, on a listed host that is no raw address, and nothing
/// but a base URL, is not refused; whatever is refused lacks something of that.
pub proof fn law_refused_url(u: UrlModel, allowed: Seq<String>, i: int)
    ensures
        ({
            &&& u.scheme == "https"@
            &&& u.username.len() == 0
            &&& u.password is None
            &&& 0 <= i < allowed.len()
            &&& u.host == Some(allowed[i]@)
            &&& !u.host_is_ipv4
            &&& u.port is None || u.port == Some(443u16)
            &&& u.path == "/"@
            &&& u.query is None
            &&& u.fragment is None
        }) ==> rpc_fault(u, allowed) is None,
        rpc_fault(u, allowed) matches Some(fault) ==> match fault {
            RpcUrlFault::Invalid => false,
            RpcUrlFault::NotHttps => u.scheme != "https"@,
            RpcUrlFault::Credentials => u.username.len() > 0 || u.password is Some,
            RpcUrlFault::NoHost => u.host is None,
            RpcUrlFault::HostNotAllowed => u.host is Some && !(exists|k: int|
                0 <= k < allowed.len() && u.host == Some((#[trigger] allowed[k])@)),
            RpcUrlFault::RawIp => u.host_is_ipv4,
            RpcUrlFault::NodePort => u.port == Some(9000u16),
            RpcUrlFault::OtherPort => u.port is Some && u.port->0 != 443 && u.port->0 != 9000,
            RpcUrlFault::HasPath => u.path != "/"@,
            RpcUrlFault::QueryOrFragment => u.query is Some || u.fragment is Some,
        },
        rpc_fault(u, allowed) == Some(RpcUrlFault::HostNotAllowed) ==> Some(
            fault_detail(u, RpcUrlFault::HostNotAllowed),
        ) == u.host,
        fault_detail(u, RpcUrlFault::HasPath) == u.path,
{
}

/// Of several faults the one that comes first in this order is told: the scheme, then
/// credentials, the host, a raw address, the port, the path, and the query or fragment.
pub proof fn law_first_fault_is_told(u: UrlModel, allowed: Seq<String>)
    ensures
        u.scheme != "https"@ ==> rpc_fault(u, allowed) == Some(RpcUrlFault::NotHttps),
        u.scheme == "https"@ && (u.username.len() > 0 || u.password is Some) ==> rpc_fault(
            u,
            allowed,
        ) == Some(RpcUrlFault::Credentials),
        rpc_fault(u, allowed) matches Some(fault) ==> {
            let secure = u.scheme == "https"@ && u.username.len() == 0 && u.password is None;
            &&& fault is NoHost || fault is HostNotAllowed ==> secure
            &&& fault is RawIp || fault is NodePort || fault is OtherPort || fault is HasPath
                || fault is QueryOrFragment ==> secure && u.host is Some && is_listed(
                allowed,
                u.host->0,
            )
            &&& fault is NodePort || fault is OtherPort || fault is HasPath
                || fault is QueryOrFragment ==> !u.host_is_ipv4
            &&& fault is HasPath || fault is QueryOrFragment ==> u.port is None || u.port == Some(
                443u16,
            )
            &&& fault is QueryOrFragment ==> u.path == "/"@
        },
{
}

/// A text is refused as no URL exactly where the URL parser refuses it, and with its words;
/// else it is judged by its parts.
pub proof fn law_text_is_judged_by_its_parts(raw: Seq<char>, allowed: Seq<String>)
    ensures
        raw_fault(raw, allowed) == Some(RpcUrlFault::Invalid) <==> url_of(raw) is Err,
        url_of(raw) matches Err(words) ==> raw_detail(raw, RpcUrlFault::Invalid) == words,
        url_of(raw) matches Ok(u) ==> raw_fault(raw, allowed) == rpc_fault(u, allowed),
{
    if let Ok(u) = url_of(raw) {
        law_refused_url(u, allowed, 0);
    }
}

/// The verdict counts the checks that failed: one more for each of them, in whatever order
/// they come, and none for the others.
pub proof fn law_failures_are_counted(checks: Seq<bool>)
    requires
        checks.len() <= u64::MAX,
    ensures
        Preflight::of(checks).failures == checks.to_multiset().count(false),
    decreases checks.len(),
{
    checks.to_multiset_ensures();
    if checks.len() > 0 {
        let before = checks.drop_last();
        before.to_multiset_ensures();
        law_failures_are_counted(before);
        assert(before.push(checks.last()) =~= checks);
    }
}

} // verus!
