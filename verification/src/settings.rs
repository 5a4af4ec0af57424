//! Benchmark settings: targets, HTTP operations, authentication and the
//! checks a configuration must pass before a run.

use std::time::Duration;

use vstd::prelude::*;
use vstd::utf8::encode_utf8;

use crate::text::{
    blank, chars_eq, chars_of, dec, is_blank, push_dec, lemma_not_blank_has_word, push_str, split_whitespace, split_ws,
    string_of, to_lowercase, to_uppercase, unicode_lower, unicode_upper,
};

verus! {

// ---------------------------------------------------------------------------
// OutputFormat
// ---------------------------------------------------------------------------

/// How a report is written out.
#[derive(Clone, Copy, PartialEq, Eq, Structural, Debug)]
pub enum OutputFormat {
    Text,
    Json,
    Csv,
}

impl Default for OutputFormat {
    fn default() -> (f: OutputFormat)
        ensures
            f == OutputFormat::Text,
    {
        OutputFormat::Text
    }
}

/// An output format name that is not one of `text`, `plain`, `json`, `csv`.
#[derive(Clone, PartialEq, Eq, Debug)]
pub struct FormatError {
    /// The rejected name, lower-cased.
    pub name: String,
}

/// The format a lower-cased name selects.
pub open spec fn format_named(name: Seq<char>) -> Option<OutputFormat> {
    if name == "json"@ {
        Some(OutputFormat::Json)
    } else if name == "csv"@ {
        Some(OutputFormat::Csv)
    } else if name == "text"@ || name == "plain"@ {
        Some(OutputFormat::Text)
    } else {
        None
    }
}

impl FormatError {
    /// `Unknown format '<name>'. Valid options: text, json, csv`
    pub fn message(&self) -> (m: String)
        ensures
            m@ == "Unknown format '"@ + self.name@ + "'. Valid options: text, json, csv"@,
    {
        let mut v: Vec<char> = Vec::new();
        push_str(&mut v, "Unknown format '");
        push_str(&mut v, self.name.as_str());
        push_str(&mut v, "'. Valid options: text, json, csv");
        string_of(&v)
    }
}

impl OutputFormat {
    /// Parses a format name, ignoring case: `json`, `csv`, and `text` or `plain`.
    pub fn parse(s: &str) -> (r: Result<OutputFormat, FormatError>)
        ensures
            match r {
                Ok(f) => format_named(unicode_lower(s@)) == Some(f),
                Err(e) => format_named(unicode_lower(s@)) is None && e.name@ == unicode_lower(s@),
            },
    {
        let lower = to_lowercase(s);
        let v = chars_of(lower.as_str());
        if chars_eq(&v, &chars_of("json")) {
            Ok(OutputFormat::Json)
        } else if chars_eq(&v, &chars_of("csv")) {
            Ok(OutputFormat::Csv)
        } else if chars_eq(&v, &chars_of("text")) || chars_eq(&v, &chars_of("plain")) {
            Ok(OutputFormat::Text)
        } else {
            Err(FormatError { name: lower })
        }
    }
}

impl std::str::FromStr for OutputFormat {
    type Err = FormatError;

    fn from_str(s: &str) -> (r: Result<OutputFormat, FormatError>)
        ensures
            match r {
                Ok(f) => format_named(unicode_lower(s@)) == Some(f),
                Err(e) => format_named(unicode_lower(s@)) is None && e.name@ == unicode_lower(s@),
            },
    {
        OutputFormat::parse(s)
    }
}

} // verus!

verus! {

// ---------------------------------------------------------------------------
// Auth
// ---------------------------------------------------------------------------

/// Built-in authentication, sent as an `Authorization` header.
#[derive(Clone, PartialEq, Eq, Debug)]
pub enum Auth {
    Bearer { token: String },
    Basic { user: String, password: String },
}

/// The base64 alphabet: `A`..`Z`, `a`..`z`, `0`..`9`, `+`, `/`.
pub open spec fn b64_char(n: nat) -> char {
    if n < 26 {
        (('A' as nat) + n) as char
    } else if n < 52 {
        (('a' as nat) + (n - 26)) as char
    } else if n < 62 {
        (('0' as nat) + (n - 52)) as char
    } else if n == 62 {
        '+'
    } else {
        '/'
    }
}

/// The `k`-th 6-bit group (from the left) of a 24-bit value.
pub open spec fn sextet(n: nat, k: nat) -> nat {
    if k == 0 {
        (n / 262144) % 64
    } else if k == 1 {
        (n / 4096) % 64
    } else if k == 2 {
        (n / 64) % 64
    } else {
        n % 64
    }
}

/// Standard base64 with `=` padding, three bytes to four characters.
pub open spec fn base64(s: Seq<u8>) -> Seq<char>
    decreases s.len(),
{
    if s.len() == 0 {
        seq![]
    } else if s.len() == 1 {
        let n = (s[0] as nat) * 65536;
        seq![b64_char(sextet(n, 0)), b64_char(sextet(n, 1)), '=', '=']
    } else if s.len() == 2 {
        let n = (s[0] as nat) * 65536 + (s[1] as nat) * 256;
        seq![b64_char(sextet(n, 0)), b64_char(sextet(n, 1)), b64_char(sextet(n, 2)), '=']
    } else {
        let n = (s[0] as nat) * 65536 + (s[1] as nat) * 256 + (s[2] as nat);
        seq![
            b64_char(sextet(n, 0)),
            b64_char(sextet(n, 1)),
            b64_char(sextet(n, 2)),
            b64_char(sextet(n, 3)),
        ] + base64(s.skip(3))
    }
}

fn b64_of(n: usize) -> (c: char)
    requires
        n < 64,
    ensures
        c == b64_char(n as nat),
{
    if n < 26 {
        (('A' as u8) + (n as u8)) as char
    } else if n < 52 {
        (('a' as u8) + ((n - 26) as u8)) as char
    } else if n < 62 {
        (('0' as u8) + ((n - 52) as u8)) as char
    } else if n == 62 {
        '+'
    } else {
        '/'
    }
}

/// The four characters encoding the first (up to three) bytes of `t`.
pub open spec fn b64_chunk(t: Seq<u8>) -> Seq<char> {
    let b0 = t[0] as nat;
    let b1 = if t.len() > 1 { t[1] as nat } else { 0 };
    let b2 = if t.len() > 2 { t[2] as nat } else { 0 };
    let n = b0 * 65536 + b1 * 256 + b2;
    seq![
        b64_char(sextet(n, 0)),
        b64_char(sextet(n, 1)),
        if t.len() > 1 { b64_char(sextet(n, 2)) } else { '=' },
        if t.len() > 2 { b64_char(sextet(n, 3)) } else { '=' },
    ]
}

proof fn lemma_base64_unfold(t: Seq<u8>)
    requires
        t.len() > 0,
    ensures
        t.len() <= 3 ==> base64(t) == b64_chunk(t),
        t.len() > 3 ==> base64(t) == b64_chunk(t) + base64(t.skip(3)),
{
    if t.len() <= 3 {
        if t.len() == 3 {
            assert(t.skip(3) =~= Seq::<u8>::empty());
            assert(base64(t.skip(3)) == Seq::<char>::empty());
        }
        assert(base64(t) =~= b64_chunk(t));
    } else {
        assert(base64(t) =~= b64_chunk(t) + base64(t.skip(3)));
    }
}

fn push_b64_chunk(v: &mut Vec<char>, input: &[u8], i: usize)
    requires
        i < input@.len(),
    ensures
        final(v)@ == old(v)@ + b64_chunk(input@.skip(i as int)),
{
    let ghost t = input@.skip(i as int);
    let rest = input.len() - i;
    let b0 = input[i] as usize;
    let b1: usize = if rest > 1 { input[i + 1] as usize } else { 0 };
    let b2: usize = if rest > 2 { input[i + 2] as usize } else { 0 };
    assert(b0 == t[0] as nat);
    assert(rest > 1 ==> b1 == t[1] as nat);
    assert(rest > 2 ==> b2 == t[2] as nat);
    let n: usize = b0 * 65536 + b1 * 256 + b2;
    let c0 = b64_of((n / 262144) % 64);
    let c1 = b64_of((n / 4096) % 64);
    let c2 = if rest > 1 { b64_of((n / 64) % 64) } else { '=' };
    let c3 = if rest > 2 { b64_of(n % 64) } else { '=' };
    v.push(c0);
    v.push(c1);
    v.push(c2);
    v.push(c3);
    assert(final(v)@ =~= old(v)@ + b64_chunk(t));
}

/// Encodes bytes as standard base64 with `=` padding.
pub fn base64_encode(input: &[u8]) -> (out: String)
    ensures
        out@ == base64(input@),
{
    let mut v: Vec<char> = Vec::new();
    let mut i: usize = 0;
    assert(input@.skip(0) =~= input@);
    while i < input.len()
        invariant
            i <= input.len(),
            v@ + base64(input@.skip(i as int)) == base64(input@),
        decreases input.len() - i,
    {
        let ghost t = input@.skip(i as int);
        let ghost before = v@;
        proof {
            lemma_base64_unfold(t);
        }
        push_b64_chunk(&mut v, input, i);
        if input.len() - i > 3 {
            assert(t.skip(3) =~= input@.skip(i + 3));
            i += 3;
        } else {
            i = input.len();
        }
        assert(input@.skip(input.len() as int) =~= seq![]);
        assert(v@ + base64(input@.skip(i as int)) =~= before + base64(t));
    }
    assert(input@.skip(i as int) =~= seq![]);
    string_of(&v)
}

/// The value of the `Authorization` header for an auth method.
pub open spec fn auth_header(a: Auth) -> Seq<char> {
    match a {
        Auth::Bearer { token } => "Bearer "@ + token@,
        Auth::Basic { user, password } => "Basic "@ + base64(
            encode_utf8(user@ + seq![':'] + password@),
        ),
    }
}

impl Auth {
    /// Returns the value of the `Authorization` header for this auth method.
    pub fn header_value(&self) -> (h: String)
        ensures
            h@ == auth_header(*self),
    {
        match self {
            Auth::Bearer { token } => {
                let mut v: Vec<char> = Vec::new();
                push_str(&mut v, "Bearer ");
                push_str(&mut v, token.as_str());
                string_of(&v)
            },
            Auth::Basic { user, password } => {
                let mut joined: Vec<char> = Vec::new();
                push_str(&mut joined, user.as_str());
                joined.push(':');
                push_str(&mut joined, password.as_str());
                let credentials = string_of(&joined);
                let encoded = base64_encode(credentials.as_str().as_bytes());
                let mut v: Vec<char> = Vec::new();
                push_str(&mut v, "Basic ");
                push_str(&mut v, encoded.as_str());
                assert(joined@ =~= user@ + seq![':'] + password@);
                string_of(&v)
            },
        }
    }
}

} // verus!

verus! {

// ---------------------------------------------------------------------------
// Header, Operation, Step
// ---------------------------------------------------------------------------

/// An HTTP request header.
#[derive(Clone, PartialEq, Eq, Debug)]
pub struct Header {
    pub key: String,
    pub value: String,
}

/// The HTTP methods a target may name.
#[derive(Clone, Copy, PartialEq, Eq, Structural, Debug)]
pub enum Operation {
    Get,
    Post,
    Head,
    Patch,
    Put,
    Delete,
}

/// The method an upper-case method name selects.
pub open spec fn operation_named(name: Seq<char>) -> Option<Operation> {
    if name == "GET"@ {
        Some(Operation::Get)
    } else if name == "POST"@ {
        Some(Operation::Post)
    } else if name == "HEAD"@ {
        Some(Operation::Head)
    } else if name == "PATCH"@ {
        Some(Operation::Patch)
    } else if name == "PUT"@ {
        Some(Operation::Put)
    } else if name == "DELETE"@ {
        Some(Operation::Delete)
    } else {
        None
    }
}

impl Operation {
    /// Looks up a method by its upper-case name.
    pub fn from_name(name: &Vec<char>) -> (r: Option<Operation>)
        ensures
            r == operation_named(name@),
    {
        if chars_eq(name, &chars_of("GET")) {
            Some(Operation::Get)
        } else if chars_eq(name, &chars_of("POST")) {
            Some(Operation::Post)
        } else if chars_eq(name, &chars_of("HEAD")) {
            Some(Operation::Head)
        } else if chars_eq(name, &chars_of("PATCH")) {
            Some(Operation::Patch)
        } else if chars_eq(name, &chars_of("PUT")) {
            Some(Operation::Put)
        } else if chars_eq(name, &chars_of("DELETE")) {
            Some(Operation::Delete)
        } else {
            None
        }
    }
}

/// The method of a `[METHOD] <url>` target: the first word, upper-cased, when
/// the target has more than one word and that word names a method; `Get`
/// otherwise.
pub open spec fn target_operation(target: Seq<char>) -> Operation {
    let words = split_ws(target);
    if words.len() <= 1 {
        Operation::Get
    } else {
        match operation_named(unicode_upper(words[0])) {
            Some(op) => op,
            None => Operation::Get,
        }
    }
}

/// The URL of a `[METHOD] <url>` target: its only word, or its second word.
pub open spec fn target_url_of(target: Seq<char>) -> Seq<char> {
    let words = split_ws(target);
    if words.len() == 1 {
        words[0]
    } else {
        words[1]
    }
}

fn parse_operation(target: &str) -> (op: Operation)
    ensures
        op == target_operation(target@),
{
    let words = split_whitespace(&chars_of(target));
    if words.len() <= 1 {
        return Operation::Get;
    }
    let first = string_of(&words[0]);
    let upper = to_uppercase(first.as_str());
    match Operation::from_name(&chars_of(upper.as_str())) {
        Some(op) => op,
        None => Operation::Get,
    }
}

fn parse_url(target: &str) -> (url: String)
    requires
        !is_blank(target@),
    ensures
        url@ == target_url_of(target@),
{
    proof {
        lemma_not_blank_has_word(target@);
    }
    let words = split_whitespace(&chars_of(target));
    if words.len() == 1 {
        string_of(&words[0])
    } else {
        string_of(&words[1])
    }
}

/// One step inside a multi-step sequential scenario.
/// Each worker will execute all steps in order, repeating the sequence.
#[derive(Clone, PartialEq, Debug)]
pub struct Step {
    /// Same format as `Settings::target`: `[METHOD] <url>`
    pub target: String,
    pub body: Option<String>,
    pub headers: Option<Vec<Header>>,
}

impl Step {
    pub fn operation(&self) -> (op: Operation)
        ensures
            op == target_operation(self.target@),
    {
        parse_operation(self.target.as_str())
    }

    pub fn url(&self) -> (url: String)
        requires
            !is_blank(self.target@),
        ensures
            url@ == target_url_of(self.target@),
    {
        parse_url(self.target.as_str())
    }
}

} // verus!

verus! {

// ---------------------------------------------------------------------------
// Settings
// ---------------------------------------------------------------------------

/// Everything a benchmark run is configured by.
#[derive(Clone, PartialEq, Debug)]
pub struct Settings {
    /// Number of concurrent workers.
    pub clients: u32,
    /// Total number of requests (ignored when `duration` is set).
    pub requests: u32,
    /// Primary target in `[METHOD] <url>` format. Required when `steps` is empty.
    pub target: String,
    pub keep_alive: Option<Duration>,
    pub body: Option<String>,
    pub headers: Option<Vec<Header>>,
    /// Test duration in seconds (alternative to `requests`).
    pub duration: Option<u64>,
    pub verbose: bool,
    pub timeout: Duration,
    pub http2: bool,
    pub ramp_up: Option<u64>,
    pub output: OutputFormat,
    /// Accept invalid/self-signed TLS certificates.
    pub insecure: bool,
    /// Maximum requests per second across all clients (0 = unlimited).
    pub rps: Option<u32>,
    /// Built-in authentication.
    pub auth: Option<Auth>,
    /// Write results to this file path instead of stdout.
    pub output_file: Option<String>,
    /// Write per-request log (timestamp_ms, status, latency_ms) to this file.
    pub results_log: Option<String>,
    /// Sequential steps for multi-target scenarios. When non-empty, `target`/`body`/`headers` are ignored.
    pub steps: Vec<Step>,
    /// Print live stats every N seconds during the test.
    pub live_stats: Option<u64>,
    /// Idle timeout for pooled connections in seconds.
    pub pool_idle_timeout: Option<u64>,
    /// Disable HTTP keep-alive / connection reuse.
    pub disable_keepalive: bool,
}

/// `Duration` is `Copy`: its `clone` gives the same duration back.
pub assume_specification[ <Duration as Clone>::clone ](d: &Duration) -> (r: Duration)
    ensures
        r == *d,
;

/// The `Duration` that `Duration::from_millis(ms)` gives.
pub uninterp spec fn millis_duration(ms: u64) -> Duration;

/// `std::time::Duration::from_millis`: a duration of `ms` milliseconds.
#[verifier::external_body]
pub(crate) fn duration_from_millis(ms: u64) -> (d: Duration)
    ensures
        d == millis_duration(ms),
{
    Duration::from_millis(ms)
}

/// The default request timeout: 30 seconds.
pub fn default_timeout() -> (d: Duration)
    ensures
        d == millis_duration(30_000),
{
    duration_from_millis(30_000)
}

/// The requests each worker executes: `requests / clients`, floored, and 0
/// when there are no clients.
pub open spec fn spec_requests_by_client(clients: u32, requests: u32) -> u32 {
    if clients == 0 {
        0
    } else {
        (requests / clients) as u32
    }
}

impl Settings {
    /// Requests each worker should execute (floored integer division).
    pub fn requests_by_client(&self) -> (n: u32)
        ensures
            n == spec_requests_by_client(self.clients, self.requests),
    {
        if self.clients == 0 {
            return 0;
        }
        self.requests / self.clients
    }

    /// HTTP operation derived from the primary `target` string.
    pub fn operation(&self) -> (op: Operation)
        ensures
            op == target_operation(self.target@),
    {
        parse_operation(self.target.as_str())
    }

    /// URL derived from the primary `target` string.
    pub fn target_url(&self) -> (url: String)
        requires
            !is_blank(self.target@),
        ensures
            url@ == target_url_of(self.target@),
    {
        parse_url(self.target.as_str())
    }
}

/// The requests worker `id` of `clients` sends: the floored share, plus one
/// for each of the first `requests % clients` workers, so that the shares
/// add up to `requests`; none when there are no workers.
pub open spec fn client_share(clients: u32, requests: u32, id: nat) -> nat {
    if clients == 0 {
        0
    } else {
        (requests / clients) as nat + if id < requests % clients {
            1nat
        } else {
            0nat
        }
    }
}

/// The shares of the first `k` workers, added up.
pub open spec fn shares_total(clients: u32, requests: u32, k: nat) -> nat
    decreases k,
{
    if k == 0 {
        0
    } else {
        shares_total(clients, requests, (k - 1) as nat) + client_share(
            clients,
            requests,
            (k - 1) as nat,
        )
    }
}

proof fn lemma_shares_total(clients: u32, requests: u32, k: nat)
    requires
        clients > 0,
    ensures
        shares_total(clients, requests, k) == k * ((requests / clients) as nat) + if k
            < requests % clients {
            k
        } else {
            (requests % clients) as nat
        },
    decreases k,
{
    let r = (requests % clients) as nat;
    if k == 0 {
        assert(k * ((requests / clients) as nat) == 0);
    } else {
        lemma_shares_total(clients, requests, (k - 1) as nat);
        let q = (requests / clients) as nat;
        let j = (k - 1) as nat;
        assert(k * q == j * q + q) by (nonlinear_arith)
            requires
                k == j + 1,
        ;
        assert(client_share(clients, requests, j) == q + if j < r {
            1nat
        } else {
            0nat
        });
        assert(shares_total(clients, requests, k) == shares_total(clients, requests, j)
            + client_share(clients, requests, j));
        assert(shares_total(clients, requests, j) == j * q + if j < r {
            j
        } else {
            r
        });
    }
}

/// The workers' shares add up to the requested total: every request is
/// sent once.
pub proof fn law_shares_sum_to_requests(clients: u32, requests: u32)
    requires
        clients > 0,
    ensures
        shares_total(clients, requests, clients as nat) == requests,
{
    lemma_shares_total(clients, requests, clients as nat);
    vstd::arithmetic::div_mod::lemma_fundamental_div_mod(requests as int, clients as int);
    assert(clients * ((requests / clients) as nat) == (clients as int) * (requests as int
        / clients as int)) by (nonlinear_arith);
}

impl Settings {
    /// The requests worker `id` sends: the floored share, plus one for each
    /// of the first `requests % clients` workers.
    pub fn requests_for_client(&self, id: usize) -> (n: u32)
        ensures
            n == client_share(self.clients, self.requests, id as nat),
    {
        if self.clients == 0 {
            return 0;
        }
        let q = self.requests / self.clients;
        let r = self.requests % self.clients;
        if (id as u64) < (r as u64) {
            proof {
                vstd::arithmetic::div_mod::lemma_fundamental_div_mod(
                    self.requests as int,
                    self.clients as int,
                );
                assert(q <= q * self.clients) by (nonlinear_arith)
                    requires
                        self.clients >= 1,
                ;
            }
            q + 1
        } else {
            q
        }
    }
}

/// Each worker's share never adds up to more than the requested total.
pub proof fn law_requests_by_client_bounded(clients: u32, requests: u32)
    ensures
        spec_requests_by_client(clients, requests) * clients <= requests,
        clients > 0 ==> requests < (spec_requests_by_client(clients, requests) + 1) * clients,
{
    if clients > 0 {
        let q = requests / clients;
        let r = requests % clients;
        assert(requests == q * clients + r) by (nonlinear_arith)
            requires
                clients > 0,
                q == requests / clients,
                r == requests % clients,
        ;
        assert((q + 1) * clients == q * clients + clients) by (nonlinear_arith);
    }
}

} // verus!

verus! {

// ---------------------------------------------------------------------------
// Validation
// ---------------------------------------------------------------------------

/// How `reqwest::Url::parse` treats a string: `Ok` with the parsed URL's
/// serialization (`Url::as_str`) and its scheme, or `Err` with the text of
/// the parse error.
pub uninterp spec fn url_parse_outcome(url: Seq<char>) -> Result<(Seq<char>, Seq<char>), Seq<char>>;

/// `reqwest::Url::parse`, reduced to the serialization and scheme of the
/// parsed URL, or the text of the parse error.
#[verifier::external_body]
pub(crate) fn url_parse(url: &str) -> (r: Result<(String, String), String>)
    ensures
        match r {
            Ok((text, scheme)) => url_parse_outcome(url@) == Ok::<(Seq<char>, Seq<char>), Seq<char>>(
                (text@, scheme@),
            ),
            Err(reason) => url_parse_outcome(url@) == Err::<(Seq<char>, Seq<char>), Seq<char>>(
                reason@,
            ),
        },
{
    match reqwest::Url::parse(url) {
        Ok(parsed) => Ok((parsed.as_str().to_string(), parsed.scheme().to_string())),
        Err(e) => Err(e.to_string()),
    }
}

/// Why a configuration is refused. `step` is the 1-based number of the
/// scenario step at fault, or `None` for the primary target.
#[derive(Clone, PartialEq, Eq, Debug)]
pub enum SettingsError {
    NoClients,
    NoIterations,
    EmptyTarget,
    EmptyStepTarget { step: usize },
    InvalidUrl { url: String, step: Option<usize>, reason: String },
    UnsupportedScheme { scheme: String, url: String, step: Option<usize> },
    RampUpTooLong { ramp_up: u64, duration: u64 },
}

/// `SettingsError` with its text as character sequences.
pub enum SettingsProblem {
    NoClients,
    NoIterations,
    EmptyTarget,
    EmptyStepTarget { step: usize },
    InvalidUrl { url: Seq<char>, step: Option<usize>, reason: Seq<char> },
    UnsupportedScheme { scheme: Seq<char>, url: Seq<char>, step: Option<usize> },
    RampUpTooLong { ramp_up: u64, duration: u64 },
}

impl View for SettingsError {
    type V = SettingsProblem;

    open spec fn view(&self) -> SettingsProblem {
        match self {
            SettingsError::NoClients => SettingsProblem::NoClients,
            SettingsError::NoIterations => SettingsProblem::NoIterations,
            SettingsError::EmptyTarget => SettingsProblem::EmptyTarget,
            SettingsError::EmptyStepTarget { step } => SettingsProblem::EmptyStepTarget {
                step: *step,
            },
            SettingsError::InvalidUrl { url, step, reason } => SettingsProblem::InvalidUrl {
                url: url@,
                step: *step,
                reason: reason@,
            },
            SettingsError::UnsupportedScheme { scheme, url, step } =>
                SettingsProblem::UnsupportedScheme { scheme: scheme@, url: url@, step: *step },
            SettingsError::RampUpTooLong { ramp_up, duration } => SettingsProblem::RampUpTooLong {
                ramp_up: *ramp_up,
                duration: *duration,
            },
        }
    }
}

/// The outcome of checking a configuration: it passes, or it fails with a
/// problem.
pub enum Check {
    Pass,
    Fail(SettingsProblem),
}

/// What is wrong with a URL, if anything: it does not parse, or its scheme
/// is neither `http` nor `https`.
pub open spec fn url_problem(url: Seq<char>, step: Option<usize>) -> Option<SettingsProblem> {
    match url_parse_outcome(url) {
        Err(reason) => Some(SettingsProblem::InvalidUrl { url, step, reason }),
        Ok((_, scheme)) => if scheme == "http"@ || scheme == "https"@ {
            None
        } else {
            Some(SettingsProblem::UnsupportedScheme { scheme, url, step })
        },
    }
}

/// The steps from index `i` on, checked in order.
pub open spec fn steps_check(steps: Seq<Step>, i: int) -> Check
    decreases steps.len() - i,
{
    if i < 0 || i >= steps.len() {
        Check::Pass
    } else if is_blank(steps[i].target@) {
        Check::Fail(SettingsProblem::EmptyStepTarget { step: (i + 1) as usize })
    } else {
        match url_problem(target_url_of(steps[i].target@), Some((i + 1) as usize)) {
            Some(p) => Check::Fail(p),
            None => steps_check(steps, i + 1),
        }
    }
}

/// The targets of a configuration: the steps when there are any, the primary
/// target otherwise.
pub open spec fn targets_check(s: Settings) -> Check {
    if s.steps.len() == 0 {
        if is_blank(s.target@) {
            Check::Fail(SettingsProblem::EmptyTarget)
        } else {
            match url_problem(target_url_of(s.target@), None) {
                Some(p) => Check::Fail(p),
                None => Check::Pass,
            }
        }
    } else {
        steps_check(s.steps@, 0)
    }
}

/// Everything a configuration must satisfy before a run, in the order it is
/// checked: workers, request count, targets, ramp-up against duration.
pub open spec fn validation(s: Settings) -> Check {
    if s.clients == 0 {
        Check::Fail(SettingsProblem::NoClients)
    } else if s.duration is None && s.requests == 0 {
        Check::Fail(SettingsProblem::NoIterations)
    } else {
        match targets_check(s) {
            Check::Pass => match (s.ramp_up, s.duration) {
                (Some(r), Some(d)) => if r >= d {
                    Check::Fail(SettingsProblem::RampUpTooLong { ramp_up: r, duration: d })
                } else {
                    Check::Pass
                },
                _ => Check::Pass,
            },
            other => other,
        }
    }
}

fn check_url(url: String, step: Option<usize>) -> (r: Option<SettingsError>)
    ensures
        match r {
            Some(e) => url_problem(url@, step) == Some(e@),
            None => url_problem(url@, step) is None,
        },
{
    match url_parse(url.as_str()) {
        Err(reason) => Some(SettingsError::InvalidUrl { url, step, reason }),
        Ok((_, scheme)) => {
            let v = chars_of(scheme.as_str());
            if chars_eq(&v, &chars_of("http")) || chars_eq(&v, &chars_of("https")) {
                None
            } else {
                Some(SettingsError::UnsupportedScheme { scheme, url, step })
            }
        },
    }
}

impl Settings {
    /// Validate settings before starting the benchmark: workers, request
    /// count, targets (a blank scenario step is refused too), ramp-up against
    /// duration, in that order.
    pub fn validate(&self) -> (r: Result<(), SettingsError>)
        ensures
            match r {
                Ok(()) => validation(*self) is Pass,
                Err(e) => validation(*self) == Check::Fail(e@),
            },
    {
        if self.clients == 0 {
            return Err(SettingsError::NoClients);
        }
        if self.duration.is_none() && self.requests == 0 {
            return Err(SettingsError::NoIterations);
        }
        if self.steps.len() == 0 {
            if blank(&chars_of(self.target.as_str())) {
                return Err(SettingsError::EmptyTarget);
            }
            let url = self.target_url();
            match check_url(url, None) {
                Some(e) => {
                    return Err(e);
                },
                None => {},
            }
        } else {
            let mut i: usize = 0;
            while i < self.steps.len()
                invariant
                    i <= self.steps.len(),
                    self.steps.len() > 0,
                    self.clients != 0,
                    !(self.duration is None && self.requests == 0),
                    steps_check(self.steps@, i as int) == steps_check(self.steps@, 0),
                decreases self.steps.len() - i,
            {
                let step = &self.steps[i];
                if blank(&chars_of(step.target.as_str())) {
                    return Err(SettingsError::EmptyStepTarget { step: i + 1 });
                }
                let url = step.url();
                match check_url(url, Some(i + 1)) {
                    Some(e) => {
                        return Err(e);
                    },
                    None => {},
                }
                i += 1;
            }
        }
        match (self.ramp_up, self.duration) {
            (Some(r), Some(d)) => {
                if r >= d {
                    return Err(SettingsError::RampUpTooLong { ramp_up: r, duration: d });
                }
            },
            _ => {},
        }
        Ok(())
    }
}

} // verus!

verus! {

/// The text a refused configuration is reported with.
pub open spec fn problem_message(p: SettingsProblem) -> Seq<char> {
    match p {
        SettingsProblem::NoClients => "--clients must be greater than 0"@,
        SettingsProblem::NoIterations => "--iterations must be greater than 0"@,
        SettingsProblem::EmptyTarget => "--target cannot be empty"@,
        SettingsProblem::EmptyStepTarget { step } => "Empty target in step "@ + dec(step as nat)
            + " of scenario"@,
        SettingsProblem::InvalidUrl { url, step, reason } => match step {
            None => "Invalid URL '"@ + url
                + "'. Make sure to include the scheme (http:// or https://)"@,
            Some(n) => "Invalid URL '"@ + url + "' in step "@ + dec(n as nat)
                + " of scenario. Make sure to include the scheme (http:// or https://)"@,
        },
        SettingsProblem::UnsupportedScheme { scheme, url, step } => match step {
            None => "Invalid URL scheme '"@ + scheme + "' in '"@ + url
                + "'. Only http and https are supported."@,
            Some(n) => "Invalid URL scheme '"@ + scheme + "' in step "@ + dec(n as nat)
                + ". Only http and https are supported."@,
        },
        SettingsProblem::RampUpTooLong { ramp_up, duration } => "--ramp-up ("@ + dec(
            ramp_up as nat,
        ) + "s) must be shorter than --duration ("@ + dec(duration as nat) + "s)"@,
    }
}

impl SettingsError {
    /// The text this error is reported with.
    pub fn message(&self) -> (m: String)
        ensures
            m@ == problem_message(self@),
    {
        let mut v: Vec<char> = Vec::new();
        match self {
            SettingsError::NoClients => push_str(&mut v, "--clients must be greater than 0"),
            SettingsError::NoIterations => push_str(&mut v, "--iterations must be greater than 0"),
            SettingsError::EmptyTarget => push_str(&mut v, "--target cannot be empty"),
            SettingsError::EmptyStepTarget { step } => {
                push_str(&mut v, "Empty target in step ");
                push_dec(&mut v, *step as u64);
                push_str(&mut v, " of scenario");
            },
            SettingsError::InvalidUrl { url, step, reason: _ } => {
                push_str(&mut v, "Invalid URL '");
                push_str(&mut v, url.as_str());
                match step {
                    None => push_str(
                        &mut v,
                        "'. Make sure to include the scheme (http:// or https://)",
                    ),
                    Some(n) => {
                        push_str(&mut v, "' in step ");
                        push_dec(&mut v, *n as u64);
                        push_str(
                            &mut v,
                            " of scenario. Make sure to include the scheme (http:// or https://)",
                        );
                    },
                }
            },
            SettingsError::UnsupportedScheme { scheme, url, step } => {
                push_str(&mut v, "Invalid URL scheme '");
                push_str(&mut v, scheme.as_str());
                match step {
                    None => {
                        push_str(&mut v, "' in '");
                        push_str(&mut v, url.as_str());
                        push_str(&mut v, "'. Only http and https are supported.");
                    },
                    Some(n) => {
                        push_str(&mut v, "' in step ");
                        push_dec(&mut v, *n as u64);
                        push_str(&mut v, ". Only http and https are supported.");
                    },
                }
            },
            SettingsError::RampUpTooLong { ramp_up, duration } => {
                push_str(&mut v, "--ramp-up (");
                push_dec(&mut v, *ramp_up);
                push_str(&mut v, "s) must be shorter than --duration (");
                push_dec(&mut v, *duration);
                push_str(&mut v, "s)");
            },
        }
        string_of(&v)
    }
}

} // verus!

verus! {

/// The ramp-up check: settings that pass every other check pass exactly
/// when their ramp-up is shorter than their duration, and otherwise fail
/// with both values; without a ramp-up or without a duration they pass.
pub proof fn law_ramp_up_shorter_than_duration(s: Settings)
    requires
        s.clients > 0,
        s.duration is Some || s.requests > 0,
        targets_check(s) is Pass,
    ensures
        match (s.ramp_up, s.duration) {
            (Some(r), Some(d)) => {
                &&& (validation(s) is Pass <==> r < d)
                &&& (r >= d ==> validation(s) == Check::Fail(
                    SettingsProblem::RampUpTooLong { ramp_up: r, duration: d },
                ))
            },
            _ => validation(s) is Pass,
        },
{
}

} // verus!
