//! Check outcomes: error kinds, the result of one check, how each probe's raw
//! observation becomes an outcome, and the retry driver's decisions.

use vstd::prelude::*;

use crate::config::{clone_opt_str, clone_str_list, opt_view, strs_view, substitute_spec, CheckType, Endpoint, Env};
use crate::text::{decimal, decimal_spec, lower_of, lowercase, seq_contains, str_contains};

verus! {

/// Kind of failure of a check.
#[derive(Debug, Clone, Copy, PartialEq, Eq, Structural)]
pub enum ErrorType {
    Timeout,
    Dns,
    Tls,
    Connection,
    StatusMismatch,
    TcpRefused,
    DnsNxdomain,
    DnsMismatch,
    ClientBuild,
    Unknown,
}

pub open spec fn error_kind_text(e: ErrorType) -> Seq<char> {
    match e {
        ErrorType::Timeout => "timeout"@,
        ErrorType::Dns => "dns"@,
        ErrorType::Tls => "tls"@,
        ErrorType::Connection => "connection"@,
        ErrorType::StatusMismatch => "status_mismatch"@,
        ErrorType::TcpRefused => "tcp_refused"@,
        ErrorType::DnsNxdomain => "dns_nxdomain"@,
        ErrorType::DnsMismatch => "dns_mismatch"@,
        ErrorType::ClientBuild => "client_build"@,
        ErrorType::Unknown => "unknown"@,
    }
}

impl ErrorType {
    /// The stable snake-case name of the kind.
    pub fn as_str(&self) -> (r: &'static str)
        ensures
            r@ == error_kind_text(*self),
    {
        match self {
            ErrorType::Timeout => "timeout",
            ErrorType::Dns => "dns",
            ErrorType::Tls => "tls",
            ErrorType::Connection => "connection",
            ErrorType::StatusMismatch => "status_mismatch",
            ErrorType::TcpRefused => "tcp_refused",
            ErrorType::DnsNxdomain => "dns_nxdomain",
            ErrorType::DnsMismatch => "dns_mismatch",
            ErrorType::ClientBuild => "client_build",
            ErrorType::Unknown => "unknown",
        }
    }
}

/// Result of checking an endpoint's availability.
#[derive(Debug, Clone)]
pub struct CheckResult {
    pub name: String,
    pub description: Option<String>,
    pub group: Option<String>,
    pub tags: Vec<String>,
    /// The address with its placeholders expanded at check time.
    pub addr: String,
    pub check_type: CheckType,
    pub is_up: bool,
    pub status_code: Option<u16>,
    pub response_time_ms: Option<u64>,
    pub error: Option<String>,
    pub error_type: Option<ErrorType>,
}

/// What a check result says, as mathematical values.
pub struct CheckResultView {
    pub name: Seq<char>,
    pub description: Option<Seq<char>>,
    pub group: Option<Seq<char>>,
    pub tags: Seq<Seq<char>>,
    pub addr: Seq<char>,
    pub check_type: CheckType,
    pub is_up: bool,
    pub status_code: Option<u16>,
    pub response_time_ms: Option<u64>,
    pub error: Option<Seq<char>>,
    pub error_type: Option<ErrorType>,
}

impl View for CheckResult {
    type V = CheckResultView;

    open spec fn view(&self) -> CheckResultView {
        CheckResultView {
            name: self.name@,
            description: opt_view(self.description),
            group: opt_view(self.group),
            tags: strs_view(self.tags@),
            addr: self.addr@,
            check_type: self.check_type,
            is_up: self.is_up,
            status_code: self.status_code,
            response_time_ms: self.response_time_ms,
            error: opt_view(self.error),
            error_type: self.error_type,
        }
    }
}

/// `r` is the starting point of a check of endpoint `e` named `name`: the endpoint's
/// metadata and expanded address, down, and nothing observed yet.
pub open spec fn is_base_result(r: CheckResult, name: Seq<char>, e: Endpoint, env: Seq<(Seq<char>, Seq<char>)>) -> bool {
    &&& r.name@ == name
    &&& opt_view(r.description) == opt_view(e.description)
    &&& opt_view(r.group) == opt_view(e.group)
    &&& strs_view(r.tags@) == strs_view(e.tags@)
    &&& r.addr@ == substitute_spec(e.addr@, env)
    &&& r.check_type == e.check_type
    &&& !r.is_up
    &&& r.status_code is None
    &&& r.response_time_ms is None
    &&& r.error is None
    &&& r.error_type is None
}

/// `r` keeps what `base` says of the endpoint (name, metadata, address, check type).
pub open spec fn same_identity(r: CheckResult, base: CheckResult) -> bool {
    &&& r.name == base.name
    &&& r.description == base.description
    &&& r.group == base.group
    &&& r.tags == base.tags
    &&& r.addr == base.addr
    &&& r.check_type == base.check_type
}

/// Creates the starting result of a check of `endpoint` named `name`.
pub fn base_result(name: &str, endpoint: &Endpoint, env: &Env) -> (r: CheckResult)
    ensures
        is_base_result(r, name@, *endpoint, env@),
{
    CheckResult {
        name: String::from_str(name),
        description: clone_opt_str(&endpoint.description),
        group: clone_opt_str(&endpoint.group),
        tags: clone_str_list(&endpoint.tags),
        addr: endpoint.resolved_addr(env),
        check_type: endpoint.check_type,
        is_up: false,
        status_code: None,
        response_time_ms: None,
        error: None,
        error_type: None,
    }
}

impl CheckResult {
    /// A copy of this result.
    pub fn duplicate(&self) -> (r: CheckResult)
        ensures
            r@ == self@,
    {
        CheckResult {
            name: self.name.clone(),
            description: clone_opt_str(&self.description),
            group: clone_opt_str(&self.group),
            tags: clone_str_list(&self.tags),
            addr: self.addr.clone(),
            check_type: self.check_type,
            is_up: self.is_up,
            status_code: self.status_code,
            response_time_ms: self.response_time_ms,
            error: clone_opt_str(&self.error),
            error_type: self.error_type,
        }
    }
}

/// The kind of a transport failure of an HTTP request, from whether it was a timeout,
/// whether it happened while connecting, and the lowercase text of the error.
pub open spec fn transport_kind(is_timeout: bool, is_connect: bool, lowered: Seq<char>) -> ErrorType {
    if is_timeout {
        ErrorType::Timeout
    } else if is_connect {
        if seq_contains(lowered, "dns"@) || seq_contains(lowered, "resolve"@) {
            ErrorType::Dns
        } else if seq_contains(lowered, "tls"@) || seq_contains(lowered, "ssl"@) || seq_contains(
            lowered,
            "certificate"@,
        ) {
            ErrorType::Tls
        } else {
            ErrorType::Connection
        }
    } else {
        ErrorType::Unknown
    }
}

/// Classifies a transport failure whose error text, already in lowercase, is `lowered`.
pub fn classify_lowered(is_timeout: bool, is_connect: bool, lowered: &str) -> (r: ErrorType)
    ensures
        r == transport_kind(is_timeout, is_connect, lowered@),
{
    if is_timeout {
        ErrorType::Timeout
    } else if is_connect {
        if str_contains(lowered, "dns") || str_contains(lowered, "resolve") {
            ErrorType::Dns
        } else if str_contains(lowered, "tls") || str_contains(lowered, "ssl") || str_contains(
            lowered,
            "certificate",
        ) {
            ErrorType::Tls
        } else {
            ErrorType::Connection
        }
    } else {
        ErrorType::Unknown
    }
}

/// Classifies a transport failure of an HTTP request with error text `message`.
pub fn classify_transport_error(is_timeout: bool, is_connect: bool, message: &str) -> (r: ErrorType)
    ensures
        r == transport_kind(is_timeout, is_connect, lower_of(message@)),
{
    let lowered = lowercase(message);
    classify_lowered(is_timeout, is_connect, lowered.as_str())
}

pub open spec fn status_mismatch_message(expected: u16, got: u16) -> Seq<char> {
    "expected status "@ + decimal_spec(expected as nat) + ", got "@ + decimal_spec(got as nat)
}

/// The outcome of an HTTP check that received a response with `status` after
/// `elapsed_ms`: up exactly when the status is the expected one.
pub fn http_response_outcome(base: CheckResult, expected_status: u16, status: u16, elapsed_ms: u64) -> (r:
    CheckResult)
    ensures
        same_identity(r, base),
        r.is_up == (status == expected_status),
        r.status_code == Some(status),
        r.response_time_ms == Some(elapsed_ms),
        r.is_up ==> r.error is None && r.error_type is None,
        !r.is_up ==> r.error_type == Some(ErrorType::StatusMismatch) && opt_view(r.error) == Some(
            status_mismatch_message(expected_status, status),
        ),
{
    let mut r = base;
    let up = status == expected_status;
    r.is_up = up;
    r.status_code = Some(status);
    r.response_time_ms = Some(elapsed_ms);
    if up {
        r.error = None;
        r.error_type = None;
    } else {
        let mut m = String::from_str("expected status ");
        m.append(decimal(expected_status as u64).as_str());
        m.append(", got ");
        m.append(decimal(status as u64).as_str());
        r.error = Some(m);
        r.error_type = Some(ErrorType::StatusMismatch);
    }
    r
}

/// The outcome of an HTTP request that failed in transport after `elapsed_ms`.
pub fn http_failure_outcome(
    base: CheckResult,
    is_timeout: bool,
    is_connect: bool,
    message: String,
    elapsed_ms: u64,
) -> (r: CheckResult)
    ensures
        same_identity(r, base),
        !r.is_up,
        r.status_code == base.status_code,
        r.response_time_ms == Some(elapsed_ms),
        opt_view(r.error) == Some(message@),
        r.error_type == Some(transport_kind(is_timeout, is_connect, lower_of(message@))),
{
    let kind = classify_transport_error(is_timeout, is_connect, message.as_str());
    let mut r = base;
    r.is_up = false;
    r.response_time_ms = Some(elapsed_ms);
    r.error = Some(message);
    r.error_type = Some(kind);
    r
}

/// The outcome of an HTTP check whose client could not be built.
pub fn client_build_outcome(base: CheckResult, message: &str) -> (r: CheckResult)
    ensures
        same_identity(r, base),
        !r.is_up,
        r.status_code == base.status_code,
        r.response_time_ms == base.response_time_ms,
        opt_view(r.error) == Some("failed to build HTTP client: "@ + message@),
        r.error_type == Some(ErrorType::ClientBuild),
{
    let mut m = String::from_str("failed to build HTTP client: ");
    m.append(message);
    let mut r = base;
    r.is_up = false;
    r.error = Some(m);
    r.error_type = Some(ErrorType::ClientBuild);
    r
}

/// What a TCP probe observed.
#[derive(Debug, Clone)]
pub enum TcpProbe {
    /// The address resolved to no socket address.
    NoAddresses,
    /// Resolving the address failed with this error text.
    ResolveFailed(String),
    /// The connection was made; `write_ok` tells whether the empty write succeeded.
    Connected { write_ok: bool },
    /// Connecting failed with this error text.
    ConnectFailed(String),
    /// Connecting took longer than the timeout.
    TimedOut,
}

/// The outcome of a TCP check of the address `addr` (without its `tcp://` prefix) that
/// observed `probe` after `elapsed_ms`.
pub fn tcp_outcome(base: CheckResult, addr: &str, probe: TcpProbe, elapsed_ms: u64) -> (r: CheckResult)
    ensures
        same_identity(r, base),
        r.status_code == base.status_code,
        r.response_time_ms == Some(elapsed_ms),
        r.is_up == (probe matches TcpProbe::Connected { write_ok } && write_ok),
        r.is_up ==> r.error is None && r.error_type is None,
        match probe {
            TcpProbe::NoAddresses => {
                &&& r.error_type == Some(ErrorType::Dns)
                &&& opt_view(r.error) == Some("no addresses found for '"@ + addr@ + "'"@)
            },
            TcpProbe::ResolveFailed(m) => {
                &&& r.error_type == Some(ErrorType::Dns)
                &&& opt_view(r.error) == Some("failed to resolve address: "@ + m@)
            },
            TcpProbe::Connected { write_ok } => {
                &&& !write_ok ==> r.error_type == Some(ErrorType::Connection) && opt_view(r.error)
                    == Some("connection established but write failed"@)
            },
            TcpProbe::ConnectFailed(m) => {
                &&& opt_view(r.error) == Some(m@)
                &&& r.error_type == Some(
                    if seq_contains(lower_of(m@), "refused"@) {
                        ErrorType::TcpRefused
                    } else {
                        ErrorType::Connection
                    },
                )
            },
            TcpProbe::TimedOut => {
                &&& r.error_type == Some(ErrorType::Timeout)
                &&& opt_view(r.error) == Some("connection timed out"@)
            },
        },
{
    let mut r = base;
    r.is_up = false;
    r.error = None;
    r.error_type = None;
    r.response_time_ms = Some(elapsed_ms);
    match probe {
        TcpProbe::NoAddresses => {
            let mut m = String::from_str("no addresses found for '");
            m.append(addr);
            m.append("'");
            r.error = Some(m);
            r.error_type = Some(ErrorType::Dns);
        },
        TcpProbe::ResolveFailed(e) => {
            let mut m = String::from_str("failed to resolve address: ");
            m.append(e.as_str());
            r.error = Some(m);
            r.error_type = Some(ErrorType::Dns);
        },
        TcpProbe::Connected { write_ok } => {
            if write_ok {
                r.is_up = true;
            } else {
                r.error = Some(String::from_str("connection established but write failed"));
                r.error_type = Some(ErrorType::Connection);
            }
        },
        TcpProbe::ConnectFailed(e) => {
            let lowered = lowercase(e.as_str());
            let kind = if str_contains(lowered.as_str(), "refused") {
                ErrorType::TcpRefused
            } else {
                ErrorType::Connection
            };
            r.error = Some(e);
            r.error_type = Some(kind);
        },
        TcpProbe::TimedOut => {
            r.error = Some(String::from_str("connection timed out"));
            r.error_type = Some(ErrorType::Timeout);
        },
    }
    r
}

/// What a DNS probe observed.
#[derive(Debug, Clone)]
pub enum DnsProbe {
    /// The lookup succeeded with these addresses, as text.
    Resolved(Vec<String>),
    /// The lookup failed with this error text.
    Failed(String),
    /// The lookup took longer than the timeout.
    TimedOut,
}

/// What std's `Debug` writes for a list of texts (`["a", "b"]`, with escapes); it
/// depends on the texts alone.
pub uninterp spec fn debug_list_text(items: Seq<Seq<char>>) -> Seq<char>;

/// Relies on std's `Debug` for `Vec<String>`, through `format!`: the bracketed,
/// quoted and escaped list of the texts.
#[verifier::external_body]
fn debug_list(items: &Vec<String>) -> (r: String)
    ensures
        r@ == debug_list_text(strs_view(items@)),
{
    format!("{:?}", items)
}

/// Every expected record is among the resolved ones.
pub open spec fn all_found(expected: Seq<Seq<char>>, resolved: Seq<Seq<char>>) -> bool {
    forall|i: int| 0 <= i < expected.len() ==> resolved.contains(#[trigger] expected[i])
}

fn contains_str(v: &Vec<String>, s: &String) -> (r: bool)
    ensures
        r == strs_view(v@).contains(s@),
{
    let mut j: usize = 0;
    while j < v.len()
        invariant
            j <= v@.len(),
            forall|m: int| 0 <= m < j ==> v@[m]@ != s@,
        decreases v@.len() - j,
    {
        if String::eq(&v[j], s) {
            assert(strs_view(v@)[j as int] == s@);
            return true;
        }
        j = j + 1;
    }
    assert forall|m: int| 0 <= m < strs_view(v@).len() implies strs_view(v@)[m] != s@ by {
        assert(v@[m]@ != s@);
    }
    false
}

fn all_found_exec(expected: &Vec<String>, resolved: &Vec<String>) -> (r: bool)
    ensures
        r == all_found(strs_view(expected@), strs_view(resolved@)),
{
    let mut i: usize = 0;
    while i < expected.len()
        invariant
            i <= expected@.len(),
            forall|k: int| 0 <= k < i ==> strs_view(resolved@).contains(#[trigger] strs_view(expected@)[k]),
        decreases expected@.len() - i,
    {
        if !contains_str(resolved, &expected[i]) {
            assert(!strs_view(resolved@).contains(strs_view(expected@)[i as int]));
            return false;
        }
        i = i + 1;
    }
    true
}

pub open spec fn dns_mismatch_message(expected: Seq<Seq<char>>, resolved: Seq<Seq<char>>) -> Seq<char> {
    "expected records "@ + debug_list_text(expected) + ", got "@ + debug_list_text(resolved)
}

/// The outcome of a DNS check expecting `expected_records` that observed `probe` after
/// `elapsed_ms`. A lookup with no address fails as a DNS error; otherwise the check is up
/// when every expected record is among the resolved addresses (any address will do where
/// none is expected).
pub fn dns_outcome(base: CheckResult, expected_records: &Vec<String>, probe: DnsProbe, elapsed_ms: u64) -> (r:
    CheckResult)
    ensures
        same_identity(r, base),
        r.status_code == base.status_code,
        r.response_time_ms == Some(elapsed_ms),
        r.is_up ==> r.error is None && r.error_type is None,
        match probe {
            DnsProbe::Resolved(ips) => {
                let got = strs_view(ips@);
                let want = strs_view(expected_records@);
                &&& r.is_up == (got.len() > 0 && all_found(want, got))
                &&& got.len() == 0 ==> r.error_type == Some(ErrorType::Dns) && opt_view(r.error)
                    == Some("DNS resolution returned no records"@)
                &&& got.len() > 0 && !r.is_up ==> r.error_type == Some(ErrorType::DnsMismatch)
                    && opt_view(r.error) == Some(dns_mismatch_message(want, got))
            },
            DnsProbe::Failed(m) => {
                &&& !r.is_up
                &&& opt_view(r.error) == Some(m@)
                &&& r.error_type == Some(
                    if seq_contains(lower_of(m@), "nxdomain"@) || seq_contains(lower_of(m@), "no such"@) {
                        ErrorType::DnsNxdomain
                    } else {
                        ErrorType::Dns
                    },
                )
            },
            DnsProbe::TimedOut => {
                &&& !r.is_up
                &&& r.error_type == Some(ErrorType::Timeout)
                &&& opt_view(r.error) == Some("DNS lookup timed out"@)
            },
        },
{
    let mut r = base;
    r.is_up = false;
    r.error = None;
    r.error_type = None;
    r.response_time_ms = Some(elapsed_ms);
    match probe {
        DnsProbe::Resolved(ips) => {
            if ips.len() == 0 {
                r.error = Some(String::from_str("DNS resolution returned no records"));
                r.error_type = Some(ErrorType::Dns);
            } else if all_found_exec(expected_records, &ips) {
                r.is_up = true;
            } else {
                let mut m = String::from_str("expected records ");
                m.append(debug_list(expected_records).as_str());
                m.append(", got ");
                m.append(debug_list(&ips).as_str());
                r.error = Some(m);
                r.error_type = Some(ErrorType::DnsMismatch);
            }
        },
        DnsProbe::Failed(e) => {
            let lowered = lowercase(e.as_str());
            let kind = if str_contains(lowered.as_str(), "nxdomain") || str_contains(
                lowered.as_str(),
                "no such",
            ) {
                ErrorType::DnsNxdomain
            } else {
                ErrorType::Dns
            };
            r.error = Some(e);
            r.error_type = Some(kind);
        },
        DnsProbe::TimedOut => {
            r.error = Some(String::from_str("DNS lookup timed out"));
            r.error_type = Some(ErrorType::Timeout);
        },
    }
    r
}


/// After `attempts` attempts of a tick, the last of which came out `is_up`, the driver
/// makes another attempt: only after a failure, and at most `retries + 1` in all.
pub open spec fn retry_continues(attempts: nat, retries: nat, is_up: bool) -> bool {
    !is_up && attempts <= retries
}

/// Decisions of the retry driver within one tick: each attempt is reported, and the
/// driver says whether another one follows.
#[derive(Debug)]
pub struct RetryDriver {
    retries: u32,
    attempts: u64,
}

impl RetryDriver {
    pub closed spec fn retries_spec(&self) -> nat {
        self.retries as nat
    }

    pub closed spec fn attempts_spec(&self) -> nat {
        self.attempts as nat
    }

    /// A driver for an endpoint with `retries` retries, before its first attempt.
    pub fn new(retries: u32) -> (r: RetryDriver)
        ensures
            r.retries_spec() == retries,
            r.attempts_spec() == 0,
    {
        RetryDriver { retries, attempts: 0 }
    }

    /// Attempts made so far.
    pub fn attempts(&self) -> (r: u64)
        ensures
            r == self.attempts_spec(),
    {
        self.attempts
    }

    /// Reports that an attempt came out `is_up`; returns whether another attempt follows
    /// (after the retry delay).
    pub fn record(&mut self, is_up: bool) -> (more: bool)
        requires
            old(self).attempts_spec() <= old(self).retries_spec(),
        ensures
            final(self).retries_spec() == old(self).retries_spec(),
            final(self).attempts_spec() == old(self).attempts_spec() + 1,
            more == retry_continues(final(self).attempts_spec(), final(self).retries_spec(), is_up),
            more ==> final(self).attempts_spec() <= final(self).retries_spec(),
    {
        self.attempts = self.attempts + 1;
        !is_up && self.attempts <= self.retries as u64
    }
}

/// Number of attempts the driver makes from attempt `k` (counting from zero) on, when
/// attempt `i` would come out `ups[i]`.
pub open spec fn attempts_from(ups: Seq<bool>, retries: nat, k: nat) -> nat
    decreases retries + 1 - k,
{
    if k > retries {
        k
    } else if retry_continues(k + 1, retries, ups[k as int]) {
        attempts_from(ups, retries, k + 1)
    } else {
        k + 1
    }
}

/// Number of attempts of one tick when attempt `i` would come out `ups[i]`.
pub open spec fn driver_attempts(ups: Seq<bool>, retries: nat) -> nat {
    attempts_from(ups, retries, 0)
}

proof fn lemma_attempts_from_bounds(ups: Seq<bool>, retries: nat, k: nat)
    requires
        k <= retries,
    ensures
        k + 1 <= attempts_from(ups, retries, k) <= retries + 1,
    decreases retries + 1 - k,
{
    if retry_continues(k + 1, retries, ups[k as int]) {
        lemma_attempts_from_bounds(ups, retries, k + 1);
    }
}

/// The retry driver makes at least one and at most `retries + 1` attempts in a tick, and
/// exactly one when the first attempt succeeds.
pub proof fn lemma_retry_short_circuit(ups: Seq<bool>, retries: nat)
    requires
        ups.len() > retries,
    ensures
        1 <= driver_attempts(ups, retries) <= retries + 1,
        ups[0] ==> driver_attempts(ups, retries) == 1,
{
    lemma_attempts_from_bounds(ups, retries, 0);
}

} // verus!
