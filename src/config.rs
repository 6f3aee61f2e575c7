//! Endpoint descriptors, `${NAME}` placeholder expansion, descriptor equality and
//! configuration validation.

use vstd::prelude::*;

use crate::text::{chars_of, decimal, decimal_spec, seq_contains, str_contains, strip_prefix_or_self, strip_prefix_spec};

verus! {

/// Kind of check performed against an endpoint.
#[derive(Debug, Clone, Copy, PartialEq, Eq, Structural)]
pub enum CheckType {
    Http,
    Tcp,
    Dns,
}

impl Default for CheckType {
    fn default() -> (r: Self)
        ensures
            r == CheckType::Http,
    {
        CheckType::Http
    }
}

/// HTTP method of an HTTP check.
#[derive(Debug, Clone, Copy, PartialEq, Eq, Structural)]
pub enum HttpMethod {
    Get,
    Post,
    Put,
    Patch,
    Delete,
    Head,
    Options,
}

impl Default for HttpMethod {
    fn default() -> (r: Self)
        ensures
            r == HttpMethod::Get,
    {
        HttpMethod::Get
    }
}

pub open spec fn method_text(m: HttpMethod) -> Seq<char> {
    match m {
        HttpMethod::Get => "GET"@,
        HttpMethod::Post => "POST"@,
        HttpMethod::Put => "PUT"@,
        HttpMethod::Patch => "PATCH"@,
        HttpMethod::Delete => "DELETE"@,
        HttpMethod::Head => "HEAD"@,
        HttpMethod::Options => "OPTIONS"@,
    }
}

impl HttpMethod {
    /// The method's name as it stands on the request line.
    pub fn as_str(&self) -> (r: &'static str)
        ensures
            r@ == method_text(*self),
    {
        match self {
            HttpMethod::Get => "GET",
            HttpMethod::Post => "POST",
            HttpMethod::Put => "PUT",
            HttpMethod::Patch => "PATCH",
            HttpMethod::Delete => "DELETE",
            HttpMethod::Head => "HEAD",
            HttpMethod::Options => "OPTIONS",
        }
    }
}

/// Values of the variables that `${NAME}` placeholders refer to. Where a name is bound
/// more than once, the binding made last counts.
#[derive(Debug, Clone)]
pub struct Env {
    vars: Vec<(String, String)>,
}

impl View for Env {
    type V = Seq<(Seq<char>, Seq<char>)>;

    closed spec fn view(&self) -> Seq<(Seq<char>, Seq<char>)> {
        self.vars@.map_values(|p: (String, String)| (p.0@, p.1@))
    }
}

/// The value bound to `name` (the first binding in `env`), or the empty text when unbound.
pub open spec fn env_lookup(env: Seq<(Seq<char>, Seq<char>)>, name: Seq<char>) -> Seq<char>
    decreases env.len(),
{
    if env.len() == 0 {
        Seq::empty()
    } else if env[0].0 == name {
        env[0].1
    } else {
        env_lookup(env.skip(1), name)
    }
}

/// `env` binds `name`.
pub open spec fn env_binds(env: Seq<(Seq<char>, Seq<char>)>, name: Seq<char>) -> bool
    decreases env.len(),
{
    env.len() > 0 && (env[0].0 == name || env_binds(env.skip(1), name))
}

impl Env {
    /// Whether `name` is bound.
    pub fn binds(&self, name: &str) -> (r: bool)
        ensures
            r == env_binds(self@, name@),
    {
        let key = String::from_str(name);
        let mut i: usize = 0;
        assert(self@.skip(0) =~= self@);
        while i < self.vars.len()
            invariant
                i <= self.vars@.len(),
                key@ == name@,
                env_binds(self@, name@) == env_binds(self@.skip(i as int), name@),
            decreases self.vars@.len() - i,
        {
            if self.vars[i].0 == key {
                return true;
            }
            assert(self@.skip(i as int).skip(1) =~= self@.skip(i + 1));
            i = i + 1;
        }
        false
    }

    /// An environment that binds no variable.
    pub fn new() -> (r: Env)
        ensures
            r@ == Seq::<(Seq<char>, Seq<char>)>::empty(),
    {
        let r = Env { vars: Vec::new() };
        assert(r@ =~= Seq::<(Seq<char>, Seq<char>)>::empty());
        r
    }

    /// Binds `name` to `value`, hiding any earlier binding of `name`.
    pub fn set(&mut self, name: &str, value: &str)
        ensures
            final(self)@ == seq![(name@, value@)] + old(self)@,
    {
        self.vars.insert(0, (String::from_str(name), String::from_str(value)));
        assert(self@ =~= seq![(name@, value@)] + old(self)@);
    }

    /// The value bound to `name`, or the empty text when it is unbound.
    pub fn lookup(&self, name: &str) -> (r: String)
        ensures
            r@ == env_lookup(self@, name@),
    {
        let key = String::from_str(name);
        let mut i: usize = 0;
        assert(self@.skip(0) =~= self@);
        while i < self.vars.len()
            invariant
                i <= self.vars@.len(),
                key@ == name@,
                env_lookup(self@, name@) == env_lookup(self@.skip(i as int), name@),
            decreases self.vars@.len() - i,
        {
            if self.vars[i].0 == key {
                return self.vars[i].1.clone();
            }
            assert(self@.skip(i as int).skip(1) =~= self@.skip(i + 1));
            i = i + 1;
        }
        String::new()
    }
}

pub open spec fn is_name_start(c: char) -> bool {
    (65 <= (c as u32) && (c as u32) <= 90) || c == '_'
}

pub open spec fn is_name_char(c: char) -> bool {
    is_name_start(c) || (48 <= (c as u32) && (c as u32) <= 57)
}

/// Number of leading characters of `s` that may stand in a variable name.
pub open spec fn name_run(s: Seq<char>) -> nat
    decreases s.len(),
{
    if s.len() > 0 && is_name_char(s[0]) {
        1 + name_run(s.skip(1))
    } else {
        0
    }
}

pub proof fn lemma_name_run_bound(s: Seq<char>)
    ensures
        name_run(s) <= s.len(),
    decreases s.len(),
{
    if s.len() > 0 && is_name_char(s[0]) {
        lemma_name_run_bound(s.skip(1));
    }
}

/// Length of the placeholder `${NAME}` at the front of `s`, with `NAME` made of an
/// uppercase letter or `_` followed by uppercase letters, digits and `_`; zero where
/// `s` does not start with one.
pub open spec fn placeholder_len(s: Seq<char>) -> nat {
    if s.len() >= 3 && s[0] == '$' && s[1] == '{' && is_name_start(s[2]) {
        let j = 2 + name_run(s.skip(2));
        if j < s.len() && s[j as int] == '}' {
            (j + 1) as nat
        } else {
            0
        }
    } else {
        0
    }
}

/// `s` with every placeholder replaced by the value `env` binds to its name, scanning
/// from the left; text that is not a placeholder stays as it is.
pub open spec fn substitute_spec(s: Seq<char>, env: Seq<(Seq<char>, Seq<char>)>) -> Seq<char>
    decreases s.len(),
{
    if s.len() == 0 {
        Seq::empty()
    } else if 0 < placeholder_len(s) <= s.len() {
        env_lookup(env, s.subrange(2, placeholder_len(s) - 1)) + substitute_spec(
            s.skip(placeholder_len(s) as int),
            env,
        )
    } else {
        seq![s[0]] + substitute_spec(s.skip(1), env)
    }
}

pub proof fn lemma_placeholder_len_bound(s: Seq<char>)
    ensures
        placeholder_len(s) <= s.len(),
        placeholder_len(s) > 0 ==> placeholder_len(s) >= 4,
{
    if s.len() >= 3 {
        lemma_name_run_bound(s.skip(2));
    }
}

/// Length of the placeholder that starts at position `i` of `s`, or zero.
fn placeholder_len_at(s: &Vec<char>, i: usize) -> (r: usize)
    requires
        i <= s@.len(),
    ensures
        r == placeholder_len(s@.skip(i as int)),
{
    let n = s.len();
    if n - i < 3 {
        return 0;
    }
    let c2 = s[i + 2];
    if !(s[i] == '$' && s[i + 1] == '{' && ((c2 as u32 >= 65 && c2 as u32 <= 90) || c2 == '_')) {
        return 0;
    }
    let ghost t = s@.skip(i as int);
    let mut j: usize = i + 2;
    assert(t.skip(2) =~= s@.skip(j as int));
    while j < n && ((s[j] as u32 >= 65 && s[j] as u32 <= 90) || s[j] == '_' || (s[j] as u32 >= 48
        && s[j] as u32 <= 57))
        invariant
            n == s@.len(),
            i + 2 <= j <= n,
            t == s@.skip(i as int),
            name_run(t.skip(2)) == (j - (i + 2)) + name_run(s@.skip(j as int)),
        decreases n - j,
    {
        assert(s@.skip(j as int).skip(1) =~= s@.skip(j + 1));
        j = j + 1;
    }
    assert(name_run(s@.skip(j as int)) == 0);
    if j < n && s[j] == '}' {
        j + 1 - i
    } else {
        0
    }
}

/// Expands every `${NAME}` placeholder of `input` with the value `env` binds to `NAME`
/// (the empty text for an unbound name). Other uses of `$`, such as `$VAR`, `${}`,
/// `${lowercase}` or `${123}`, are left as they are.
pub fn substitute_env_vars(input: &str, env: &Env) -> (r: String)
    ensures
        r@ == substitute_spec(input@, env@),
{
    let s = chars_of(input);
    let n = s.len();
    let mut out = String::new();
    let mut seg: usize = 0;
    let mut i: usize = 0;
    assert(input@.skip(0) =~= input@);
    while i < n
        invariant
            s@ == input@,
            n == input@.len(),
            seg <= i <= n,
            out@ + input@.subrange(seg as int, i as int) + substitute_spec(
                input@.skip(i as int),
                env@,
            ) == substitute_spec(input@, env@),
        decreases n - i,
    {
        let p = placeholder_len_at(&s, i);
        let ghost t = input@.skip(i as int);
        proof {
            lemma_placeholder_len_bound(t);
        }
        if p > 0 {
            out.append(input.substring_char(seg, i));
            let name = input.substring_char(i + 2, i + p - 1);
            assert(name@ =~= t.subrange(2, p - 1));
            let value = env.lookup(name);
            out.append(value.as_str());
            assert(t.skip(p as int) =~= input@.skip(i + p));
            i = i + p;
            seg = i;
            assert(input@.subrange(seg as int, i as int) =~= Seq::<char>::empty());
        } else {
            assert(t.skip(1) =~= input@.skip(i + 1));
            assert(input@.subrange(seg as int, i + 1) =~= input@.subrange(seg as int, i as int)
                + seq![input@[i as int]]);
            i = i + 1;
        }
    }
    out.append(input.substring_char(seg, n));
    assert(input@.skip(n as int) =~= Seq::<char>::empty());
    out
}


/// Description of one monitored endpoint.
#[derive(Debug, Clone)]
pub struct Endpoint {
    /// URL or address to check; may hold `${NAME}` placeholders.
    pub addr: String,
    pub check_type: CheckType,
    pub description: Option<String>,
    pub group: Option<String>,
    pub tags: Vec<String>,
    /// Seconds between two checks.
    pub interval: u64,
    /// Seconds one attempt may take.
    pub timeout: u64,
    pub expected_status: u16,
    pub skip_tls_verification: bool,
    pub method: HttpMethod,
    /// Header names with their value templates; each name appears once.
    pub headers: Vec<(String, String)>,
    /// Request body template.
    pub body: Option<String>,
    /// Attempts made after a failed first attempt.
    pub retries: u32,
    /// Seconds between two attempts.
    pub retry_delay: u64,
    pub alert_after_failures: u32,
    pub alert_channels: Vec<String>,
    /// Addresses a DNS check expects among the resolved ones.
    pub expected_records: Vec<String>,
}

/// Seconds between automatic reloads when the configuration does not say.
pub fn default_reload_config_interval() -> (r: u64)
    ensures
        r == 60,
{
    60
}

/// Seconds between checks when the configuration does not say.
pub fn default_interval() -> (r: u64)
    ensures
        r == 60,
{
    60
}

/// Seconds one attempt may take when the configuration does not say.
pub fn default_timeout() -> (r: u64)
    ensures
        r == 10,
{
    10
}

/// Status an HTTP check expects when the configuration does not say.
pub fn default_expected_status() -> (r: u16)
    ensures
        r == 200,
{
    200
}

/// Seconds between attempts when the configuration does not say.
pub fn default_retry_delay() -> (r: u64)
    ensures
        r == 5,
{
    5
}

/// Consecutive failures before alerting when the configuration does not say.
pub fn default_alert_after_failures() -> (r: u32)
    ensures
        r == 3,
{
    3
}

pub open spec fn opt_view(o: Option<String>) -> Option<Seq<char>> {
    match o {
        Some(s) => Some(s@),
        None => None,
    }
}

pub open spec fn strs_view(v: Seq<String>) -> Seq<Seq<char>> {
    v.map_values(|s: String| s@)
}

/// The pair (`n`, `v`) is one of the headers `h`.
pub open spec fn pair_in(n: Seq<char>, v: Seq<char>, h: Seq<(String, String)>) -> bool {
    exists|j: int| 0 <= j < h.len() && (#[trigger] h[j]).0@ == n && h[j].1@ == v
}

/// The headers as a set of (name, value) pairs.
pub open spec fn header_set(h: Seq<(String, String)>) -> Set<(Seq<char>, Seq<char>)> {
    Set::new(|p: (Seq<char>, Seq<char>)| pair_in(p.0, p.1, h))
}

/// Two descriptors are the same: every field is equal, lists element by element and
/// headers as maps.
pub open spec fn same_endpoint(a: Endpoint, b: Endpoint) -> bool {
    &&& a.addr@ == b.addr@
    &&& a.check_type == b.check_type
    &&& opt_view(a.description) == opt_view(b.description)
    &&& opt_view(a.group) == opt_view(b.group)
    &&& strs_view(a.tags@) == strs_view(b.tags@)
    &&& a.interval == b.interval
    &&& a.timeout == b.timeout
    &&& a.expected_status == b.expected_status
    &&& a.skip_tls_verification == b.skip_tls_verification
    &&& a.method == b.method
    &&& header_set(a.headers@) == header_set(b.headers@)
    &&& opt_view(a.body) == opt_view(b.body)
    &&& a.retries == b.retries
    &&& a.retry_delay == b.retry_delay
    &&& a.alert_after_failures == b.alert_after_failures
    &&& strs_view(a.alert_channels@) == strs_view(b.alert_channels@)
    &&& strs_view(a.expected_records@) == strs_view(b.expected_records@)
}

fn opt_str_eq(a: &Option<String>, b: &Option<String>) -> (r: bool)
    ensures
        r == (opt_view(*a) == opt_view(*b)),
{
    match a {
        Some(x) => match b {
            Some(y) => String::eq(x, y),
            None => false,
        },
        None => b.is_none(),
    }
}

fn strs_eq(a: &Vec<String>, b: &Vec<String>) -> (r: bool)
    ensures
        r == (strs_view(a@) == strs_view(b@)),
{
    if a.len() != b.len() {
        assert(strs_view(a@).len() != strs_view(b@).len());
        return false;
    }
    let mut i: usize = 0;
    while i < a.len()
        invariant
            a@.len() == b@.len(),
            i <= a@.len(),
            forall|j: int| 0 <= j < i ==> a@[j]@ == b@[j]@,
        decreases a@.len() - i,
    {
        if a[i] != b[i] {
            assert(strs_view(a@)[i as int] != strs_view(b@)[i as int]);
            return false;
        }
        i = i + 1;
    }
    assert(strs_view(a@) =~= strs_view(b@));
    true
}

/// Every header pair of `a` is a header pair of `b`.
pub open spec fn headers_within(a: Seq<(String, String)>, b: Seq<(String, String)>) -> bool {
    forall|i: int| 0 <= i < a.len() ==> pair_in((#[trigger] a[i]).0@, a[i].1@, b)
}

fn pair_in_exec(n: &String, v: &String, h: &Vec<(String, String)>) -> (r: bool)
    ensures
        r == pair_in(n@, v@, h@),
{
    let mut j: usize = 0;
    while j < h.len()
        invariant
            j <= h@.len(),
            forall|m: int| 0 <= m < j ==> !((#[trigger] h@[m]).0@ == n@ && h@[m].1@ == v@),
        decreases h@.len() - j,
    {
        if String::eq(&h[j].0, n) && String::eq(&h[j].1, v) {
            return true;
        }
        j = j + 1;
    }
    false
}

fn headers_within_exec(a: &Vec<(String, String)>, b: &Vec<(String, String)>) -> (r: bool)
    ensures
        r == headers_within(a@, b@),
{
    let mut i: usize = 0;
    while i < a.len()
        invariant
            i <= a@.len(),
            forall|k: int| 0 <= k < i ==> pair_in((#[trigger] a@[k]).0@, a@[k].1@, b@),
        decreases a@.len() - i,
    {
        if !pair_in_exec(&a[i].0, &a[i].1, b) {
            return false;
        }
        i = i + 1;
    }
    true
}

proof fn lemma_header_sets(a: Seq<(String, String)>, b: Seq<(String, String)>)
    ensures
        (header_set(a) == header_set(b)) <==> (headers_within(a, b) && headers_within(b, a)),
{
    if headers_within(a, b) && headers_within(b, a) {
        assert forall|p: (Seq<char>, Seq<char>)| header_set(a).contains(p) implies header_set(b).contains(p) by {
            let i = choose|i: int| 0 <= i < a.len() && (#[trigger] a[i]).0@ == p.0 && a[i].1@ == p.1;
            assert(pair_in(a[i].0@, a[i].1@, b));
        }
        assert forall|p: (Seq<char>, Seq<char>)| header_set(b).contains(p) implies header_set(a).contains(p) by {
            let i = choose|i: int| 0 <= i < b.len() && (#[trigger] b[i]).0@ == p.0 && b[i].1@ == p.1;
            assert(pair_in(b[i].0@, b[i].1@, a));
        }
        assert(header_set(a) =~= header_set(b));
    }
    if header_set(a) == header_set(b) {
        assert forall|i: int| 0 <= i < a.len() implies pair_in((#[trigger] a[i]).0@, a[i].1@, b) by {
            assert(pair_in(a[i].0@, a[i].1@, a));
            assert(header_set(a).contains((a[i].0@, a[i].1@)));
            assert(header_set(b).contains((a[i].0@, a[i].1@)));
        }
        assert forall|i: int| 0 <= i < b.len() implies pair_in((#[trigger] b[i]).0@, b[i].1@, a) by {
            assert(pair_in(b[i].0@, b[i].1@, b));
            assert(header_set(b).contains((b[i].0@, b[i].1@)));
            assert(header_set(a).contains((b[i].0@, b[i].1@)));
        }
    }
}

/// Whether two descriptors are the same, as `same_endpoint` states it.
pub fn endpoints_equal(a: &Endpoint, b: &Endpoint) -> (r: bool)
    ensures
        r == same_endpoint(*a, *b),
{
    proof {
        lemma_header_sets(a.headers@, b.headers@);
    }
    a.addr == b.addr && a.check_type == b.check_type && opt_str_eq(&a.description, &b.description)
        && opt_str_eq(&a.group, &b.group) && strs_eq(&a.tags, &b.tags) && a.interval == b.interval
        && a.timeout == b.timeout && a.expected_status == b.expected_status
        && a.skip_tls_verification == b.skip_tls_verification && a.method == b.method
        && headers_within_exec(&a.headers, &b.headers) && headers_within_exec(&b.headers, &a.headers)
        && opt_str_eq(&a.body, &b.body) && a.retries == b.retries && a.retry_delay == b.retry_delay
        && a.alert_after_failures == b.alert_after_failures && strs_eq(
        &a.alert_channels,
        &b.alert_channels,
    ) && strs_eq(&a.expected_records, &b.expected_records)
}

impl PartialEq for Endpoint {
    fn eq(&self, other: &Endpoint) -> (r: bool) {
        endpoints_equal(self, other)
    }
}

impl vstd::std_specs::cmp::PartialEqSpecImpl for Endpoint {
    open spec fn obeys_eq_spec() -> bool {
        true
    }

    open spec fn eq_spec(&self, other: &Endpoint) -> bool {
        same_endpoint(*self, *other)
    }
}

pub open spec fn resolved_headers_spec(h: Seq<(String, String)>, env: Seq<(Seq<char>, Seq<char>)>) -> Seq<
    (Seq<char>, Seq<char>),
> {
    Seq::new(h.len(), |i: int| (h[i].0@, substitute_spec(h[i].1@, env)))
}

impl Endpoint {
    /// The headers with placeholders expanded in their values.
    pub fn resolved_headers(&self, env: &Env) -> (r: Vec<(String, String)>)
        ensures
            r@.len() == self.headers@.len(),
            forall|i: int|
                0 <= i < r@.len() ==> (#[trigger] r@[i]).0@ == resolved_headers_spec(
                    self.headers@,
                    env@,
                )[i].0 && r@[i].1@ == resolved_headers_spec(self.headers@, env@)[i].1,
    {
        let mut out: Vec<(String, String)> = Vec::new();
        let mut i: usize = 0;
        while i < self.headers.len()
            invariant
                i <= self.headers@.len(),
                out@.len() == i,
                forall|k: int|
                    0 <= k < i ==> (#[trigger] out@[k]).0@ == self.headers@[k].0@ && out@[k].1@
                        == substitute_spec(self.headers@[k].1@, env@),
            decreases self.headers@.len() - i,
        {
            let name = self.headers[i].0.clone();
            let value = substitute_env_vars(self.headers[i].1.as_str(), env);
            out.push((name, value));
            i = i + 1;
        }
        out
    }

    /// The body with placeholders expanded, if there is a body.
    pub fn resolved_body(&self, env: &Env) -> (r: Option<String>)
        ensures
            opt_view(r) == match self.body {
                Some(b) => Some(substitute_spec(b@, env@)),
                None => None::<Seq<char>>,
            },
    {
        match &self.body {
            Some(b) => Some(substitute_env_vars(b.as_str(), env)),
            None => None,
        }
    }

    /// The address with placeholders expanded.
    pub fn resolved_addr(&self, env: &Env) -> (r: String)
        ensures
            r@ == substitute_spec(self.addr@, env@),
    {
        substitute_env_vars(self.addr.as_str(), env)
    }
}


/// Server section of the configuration.
#[derive(Debug, Clone)]
pub struct ServerConfig {
    /// Address the dashboard listens on, as `host:port`.
    pub addr: String,
    /// Seconds between two automatic reloads of the configuration; zero turns them off.
    pub reload_config_interval: u64,
}

impl ServerConfig {
    /// The period of automatic reloads, or `None` where they are turned off.
    pub fn auto_reload_period(&self) -> (r: Option<u64>)
        ensures
            r == (if self.reload_config_interval == 0 {
                None
            } else {
                Some(self.reload_config_interval)
            }),
    {
        if self.reload_config_interval == 0 {
            None
        } else {
            Some(self.reload_config_interval)
        }
    }
}

/// A whole configuration: the server section and the endpoints by name.
#[derive(Debug, Clone)]
pub struct Config {
    pub server: ServerConfig,
    pub endpoints: Vec<(String, Endpoint)>,
}

/// A finding of validation, about one endpoint.
#[derive(Debug, Clone)]
pub struct ValidationWarning {
    pub endpoint: String,
    pub message: String,
}

/// What `url::Url::parse` reports for a text: `None` where it parses, else the text of
/// its error. It depends on the text alone.
pub uninterp spec fn url_parse_error(s: Seq<char>) -> Option<Seq<char>>;

/// Relies on `url::Url::parse`: whether the text is an absolute URL, and the `Display`
/// text of the error where it is not.
#[verifier::external_body]
fn url_error(s: &str) -> (r: Option<String>)
    ensures
        opt_view(r) == url_parse_error(s@),
{
    match url::Url::parse(s) {
        Ok(_) => None,
        Err(e) => Some(e.to_string()),
    }
}

pub open spec fn timeout_message(timeout: u64, interval: u64) -> Seq<char> {
    "timeout ("@ + decimal_spec(timeout as nat) + ") must be less than interval ("@
        + decimal_spec(interval as nat) + ")"@
}

pub open spec fn url_message(addr: Seq<char>, err: Seq<char>) -> Seq<char> {
    "invalid URL '"@ + addr + "': "@ + err
}

pub open spec fn tcp_message(addr: Seq<char>) -> Seq<char> {
    "TCP address '"@ + addr + "' must include port (e.g., 'host:port')"@
}

pub open spec fn dns_message(addr: Seq<char>) -> Seq<char> {
    "DNS address '"@ + addr + "' should be a hostname, not a URL"@
}

pub open spec fn interval_message(interval: u64) -> Seq<char> {
    "interval ("@ + decimal_spec(interval as nat) + ") is very aggressive, consider >= 10 seconds"@
}

pub open spec fn retry_message() -> Seq<char> {
    "retries configured but retry_delay is 0"@
}

/// The errors validation finds in the endpoint `e` named `name`, in order.
pub open spec fn endpoint_errors(name: Seq<char>, e: Endpoint, env: Seq<(Seq<char>, Seq<char>)>) -> Seq<
    (Seq<char>, Seq<char>),
> {
    (if e.timeout >= e.interval {
        seq![(name, timeout_message(e.timeout, e.interval))]
    } else {
        Seq::empty()
    }) + match e.check_type {
        CheckType::Http => {
            let r = substitute_spec(e.addr@, env);
            match url_parse_error(r) {
                Some(m) => seq![(name, url_message(r, m))],
                None => Seq::empty(),
            }
        },
        CheckType::Tcp => if !seq_contains(strip_prefix_spec(e.addr@, "tcp://"@), ":"@) {
            seq![(name, tcp_message(e.addr@))]
        } else {
            Seq::empty()
        },
        CheckType::Dns => if seq_contains(strip_prefix_spec(e.addr@, "dns://"@), "://"@) {
            seq![(name, dns_message(e.addr@))]
        } else {
            Seq::empty()
        },
    }
}

/// The warnings validation gives for the endpoint `e` named `name`, in order.
pub open spec fn endpoint_warnings(name: Seq<char>, e: Endpoint) -> Seq<(Seq<char>, Seq<char>)> {
    (if e.interval < 10 {
        seq![(name, interval_message(e.interval))]
    } else {
        Seq::empty()
    }) + (if e.retries > 0 && e.retry_delay == 0 {
        seq![(name, retry_message())]
    } else {
        Seq::empty()
    })
}

pub open spec fn all_errors(eps: Seq<(String, Endpoint)>, env: Seq<(Seq<char>, Seq<char>)>) -> Seq<
    (Seq<char>, Seq<char>),
>
    decreases eps.len(),
{
    if eps.len() == 0 {
        Seq::empty()
    } else {
        all_errors(eps.drop_last(), env) + endpoint_errors(eps.last().0@, eps.last().1, env)
    }
}

pub open spec fn all_warnings(eps: Seq<(String, Endpoint)>) -> Seq<(Seq<char>, Seq<char>)>
    decreases eps.len(),
{
    if eps.len() == 0 {
        Seq::empty()
    } else {
        all_warnings(eps.drop_last()) + endpoint_warnings(eps.last().0@, eps.last().1)
    }
}

/// The (endpoint, message) pairs of a list of findings.
pub open spec fn notes_view(v: Seq<ValidationWarning>) -> Seq<(Seq<char>, Seq<char>)> {
    v.map_values(|w: ValidationWarning| (w.endpoint@, w.message@))
}

fn push_note(notes: &mut Vec<ValidationWarning>, name: &String, message: String)
    ensures
        notes_view(final(notes)@) == notes_view(old(notes)@) + seq![(name@, message@)],
{
    notes.push(ValidationWarning { endpoint: name.clone(), message });
    assert(notes_view(notes@) =~= notes_view(old(notes)@) + seq![(name@, message@)]);
}

fn timeout_text(timeout: u64, interval: u64) -> (r: String)
    ensures
        r@ == timeout_message(timeout, interval),
{
    let mut m = String::from_str("timeout (");
    m.append(decimal(timeout).as_str());
    m.append(") must be less than interval (");
    m.append(decimal(interval).as_str());
    m.append(")");
    m
}

fn interval_text(interval: u64) -> (r: String)
    ensures
        r@ == interval_message(interval),
{
    let mut m = String::from_str("interval (");
    m.append(decimal(interval).as_str());
    m.append(") is very aggressive, consider >= 10 seconds");
    m
}

fn quoted_text(before: &str, addr: &str, after: &str) -> (r: String)
    ensures
        r@ == before@ + addr@ + after@,
{
    let mut m = String::from_str(before);
    m.append(addr);
    m.append(after);
    m
}

/// Appends the errors and warnings of one endpoint.
fn check_endpoint_config(
    name: &String,
    e: &Endpoint,
    env: &Env,
    errors: &mut Vec<ValidationWarning>,
    warnings: &mut Vec<ValidationWarning>,
)
    ensures
        notes_view(final(errors)@) == notes_view(old(errors)@) + endpoint_errors(name@, *e, env@),
        notes_view(final(warnings)@) == notes_view(old(warnings)@) + endpoint_warnings(name@, *e),
{
    let ghost e0 = notes_view(errors@);
    let ghost w0 = notes_view(warnings@);
    if e.timeout >= e.interval {
        push_note(errors, name, timeout_text(e.timeout, e.interval));
    }
    let ghost e1 = notes_view(errors@);
    match e.check_type {
        CheckType::Http => {
            let resolved = e.resolved_addr(env);
            match url_error(resolved.as_str()) {
                Some(err) => {
                    let mut m = quoted_text("invalid URL '", resolved.as_str(), "': ");
                    m.append(err.as_str());
                    push_note(errors, name, m);
                },
                None => {},
            }
        },
        CheckType::Tcp => {
            let addr = strip_prefix_or_self(e.addr.as_str(), "tcp://");
            if !str_contains(addr, ":") {
                push_note(
                    errors,
                    name,
                    quoted_text("TCP address '", e.addr.as_str(), "' must include port (e.g., 'host:port')"),
                );
            }
        },
        CheckType::Dns => {
            let addr = strip_prefix_or_self(e.addr.as_str(), "dns://");
            if str_contains(addr, "://") {
                push_note(
                    errors,
                    name,
                    quoted_text("DNS address '", e.addr.as_str(), "' should be a hostname, not a URL"),
                );
            }
        },
    }
    assert(notes_view(errors@) =~= e0 + endpoint_errors(name@, *e, env@));
    if e.interval < 10 {
        push_note(warnings, name, interval_text(e.interval));
    }
    if e.retries > 0 && e.retry_delay == 0 {
        push_note(warnings, name, String::from_str("retries configured but retry_delay is 0"));
    }
    assert(notes_view(warnings@) =~= w0 + endpoint_warnings(name@, *e));
}

impl Config {
    /// Validates every endpoint, returning the errors and the warnings found, endpoint by
    /// endpoint in the order of `endpoints`. An error is a timeout not below the interval,
    /// an HTTP address that is no URL once expanded, a TCP address without `:` or a DNS
    /// address holding `://` (each after its optional scheme prefix). A warning is an
    /// interval under ten seconds, or retries with no delay between them.
    pub fn validate(&self, env: &Env) -> (r: (Vec<ValidationWarning>, Vec<ValidationWarning>))
        ensures
            notes_view(r.0@) == all_errors(self.endpoints@, env@),
            notes_view(r.1@) == all_warnings(self.endpoints@),
    {
        let mut errors: Vec<ValidationWarning> = Vec::new();
        let mut warnings: Vec<ValidationWarning> = Vec::new();
        let mut i: usize = 0;
        assert(notes_view(errors@) =~= all_errors(self.endpoints@.subrange(0, 0), env@));
        assert(notes_view(warnings@) =~= all_warnings(self.endpoints@.subrange(0, 0)));
        while i < self.endpoints.len()
            invariant
                i <= self.endpoints@.len(),
                notes_view(errors@) == all_errors(self.endpoints@.subrange(0, i as int), env@),
                notes_view(warnings@) == all_warnings(self.endpoints@.subrange(0, i as int)),
            decreases self.endpoints@.len() - i,
        {
            let ghost prefix = self.endpoints@.subrange(0, i + 1);
            assert(prefix.drop_last() =~= self.endpoints@.subrange(0, i as int));
            check_endpoint_config(&self.endpoints[i].0, &self.endpoints[i].1, env, &mut errors, &mut warnings);
            i = i + 1;
        }
        assert(self.endpoints@.subrange(0, i as int) =~= self.endpoints@);
        (errors, warnings)
    }
}

pub open spec fn report_line(w: (Seq<char>, Seq<char>)) -> Seq<char> {
    "["@ + w.0 + "] "@ + w.1
}

pub open spec fn report_lines(v: Seq<(Seq<char>, Seq<char>)>) -> Seq<char>
    decreases v.len(),
{
    if v.len() == 0 {
        Seq::empty()
    } else if v.len() == 1 {
        report_line(v[0])
    } else {
        report_lines(v.drop_last()) + "\n  "@ + report_line(v.last())
    }
}

/// The message that refuses a configuration with the given errors: a heading, then one
/// indented `[endpoint] message` line per error.
pub fn error_report(errors: &Vec<ValidationWarning>) -> (r: String)
    ensures
        r@ == "configuration errors:\n  "@ + report_lines(notes_view(errors@)),
{
    let mut body = String::new();
    let mut i: usize = 0;
    while i < errors.len()
        invariant
            i <= errors@.len(),
            body@ == report_lines(notes_view(errors@.subrange(0, i as int))),
        decreases errors@.len() - i,
    {
        let ghost prev = notes_view(errors@.subrange(0, i as int));
        let ghost next = notes_view(errors@.subrange(0, i + 1));
        assert(next.drop_last() =~= prev);
        if i > 0 {
            body.append("\n  ");
        }
        body.append("[");
        body.append(errors[i].endpoint.as_str());
        body.append("] ");
        body.append(errors[i].message.as_str());
        proof {
            if i == 0 {
                assert(body@ =~= report_line(next[0]));
            } else {
                assert(body@ =~= report_lines(prev) + "\n  "@ + report_line(next.last()));
            }
        }
        i = i + 1;
    }
    assert(errors@.subrange(0, i as int) =~= errors@);
    let mut r = String::from_str("configuration errors:\n  ");
    r.append(body.as_str());
    r
}


pub(crate) fn clone_opt_str(o: &Option<String>) -> (r: Option<String>)
    ensures
        r == *o,
{
    match o {
        Some(s) => Some(s.clone()),
        None => None,
    }
}

pub(crate) fn clone_str_list(v: &Vec<String>) -> (r: Vec<String>)
    ensures
        r@ == v@,
{
    let mut out: Vec<String> = Vec::new();
    let mut i: usize = 0;
    while i < v.len()
        invariant
            i <= v@.len(),
            out@ == v@.subrange(0, i as int),
        decreases v@.len() - i,
    {
        out.push(v[i].clone());
        i = i + 1;
    }
    assert(v@.subrange(0, i as int) =~= v@);
    out
}

fn clone_pairs(v: &Vec<(String, String)>) -> (r: Vec<(String, String)>)
    ensures
        r@ == v@,
{
    let mut out: Vec<(String, String)> = Vec::new();
    let mut i: usize = 0;
    while i < v.len()
        invariant
            i <= v@.len(),
            out@ == v@.subrange(0, i as int),
        decreases v@.len() - i,
    {
        out.push((v[i].0.clone(), v[i].1.clone()));
        i = i + 1;
    }
    assert(v@.subrange(0, i as int) =~= v@);
    out
}

impl Endpoint {
    /// A copy of this descriptor.
    pub fn duplicate(&self) -> (r: Endpoint)
        ensures
            same_endpoint(r, *self),
    {
        let r = Endpoint {
            addr: self.addr.clone(),
            check_type: self.check_type,
            description: clone_opt_str(&self.description),
            group: clone_opt_str(&self.group),
            tags: clone_str_list(&self.tags),
            interval: self.interval,
            timeout: self.timeout,
            expected_status: self.expected_status,
            skip_tls_verification: self.skip_tls_verification,
            method: self.method,
            headers: clone_pairs(&self.headers),
            body: clone_opt_str(&self.body),
            retries: self.retries,
            retry_delay: self.retry_delay,
            alert_after_failures: self.alert_after_failures,
            alert_channels: clone_str_list(&self.alert_channels),
            expected_records: clone_str_list(&self.expected_records),
        };
        assert(header_set(r.headers@) =~= header_set(self.headers@));
        r
    }
}


/// The names of the placeholders of `s` that `env` does not bind, in order of appearance.
pub open spec fn unbound_spec(s: Seq<char>, env: Seq<(Seq<char>, Seq<char>)>) -> Seq<Seq<char>>
    decreases s.len(),
{
    if s.len() == 0 {
        Seq::empty()
    } else if 0 < placeholder_len(s) <= s.len() {
        let name = s.subrange(2, placeholder_len(s) - 1);
        (if env_binds(env, name) {
            Seq::empty()
        } else {
            seq![name]
        }) + unbound_spec(s.skip(placeholder_len(s) as int), env)
    } else {
        unbound_spec(s.skip(1), env)
    }
}

/// The names of the placeholders of `input` that `env` leaves unbound, in order; each of
/// them expands to the empty text.
pub fn unbound_placeholders(input: &str, env: &Env) -> (r: Vec<String>)
    ensures
        strs_view(r@) == unbound_spec(input@, env@),
{
    let s = chars_of(input);
    let n = s.len();
    let mut out: Vec<String> = Vec::new();
    let mut i: usize = 0;
    assert(input@.skip(0) =~= input@);
    while i < n
        invariant
            s@ == input@,
            n == input@.len(),
            i <= n,
            strs_view(out@) + unbound_spec(input@.skip(i as int), env@) == unbound_spec(input@, env@),
        decreases n - i,
    {
        let p = placeholder_len_at(&s, i);
        let ghost t = input@.skip(i as int);
        proof {
            lemma_placeholder_len_bound(t);
        }
        if p > 0 {
            let name = input.substring_char(i + 2, i + p - 1);
            assert(name@ =~= t.subrange(2, p - 1));
            let ghost before = out@;
            if !env.binds(name) {
                out.push(String::from_str(name));
                assert(strs_view(out@) =~= strs_view(before) + seq![name@]);
            }
            assert(t.skip(p as int) =~= input@.skip(i + p));
            i = i + p;
        } else {
            assert(t.skip(1) =~= input@.skip(i + 1));
            i = i + 1;
        }
    }
    assert(input@.skip(n as int) =~= Seq::<char>::empty());
    assert(strs_view(out@) + Seq::<Seq<char>>::empty() =~= strs_view(out@));
    out
}

} // verus!
