//! The command line of the benchmark tool: its flags, and how they become
//! `Settings`.

use vstd::prelude::*;

use crate::settings::{
    duration_from_millis, format_named, millis_duration, Auth, Header,
    OutputFormat, Settings,
};
use crate::text::{
    chars_of, push_str, split_once, split_once_at, string_of, trim, trimmed, unicode_lower,
};

verus! {

/// Goku — high-performance HTTP load testing tool
#[derive(Debug, Clone, PartialEq, Eq)]
pub struct Cli {
    pub command: Option<Command>,
    /// Runs in verbose mode
    pub verbose: bool,
    /// URL to request. Format: [METHOD] <url>  (default method: GET)
    pub target: Option<String>,
    /// Path to a file whose contents will be used as the request body
    pub request_body: Option<String>,
    /// Number of concurrent workers
    pub clients: u32,
    /// Total number of requests (ignored when --duration is set)
    pub iterations: u32,
    /// Duration of the test in seconds (alternative to --iterations)
    pub duration: Option<u64>,
    /// Headers in "Name:Value" format (repeatable)
    pub headers: Option<Vec<String>>,
    /// Path to a YAML scenario file
    pub scenario: Option<String>,
    /// Request timeout in milliseconds
    pub timeout: u64,
    /// Use HTTP/2 prior knowledge
    pub http2: bool,
    /// Seconds over which to spread the start of workers (ramp-up)
    pub ramp_up: Option<u64>,
    /// Output format: text (default) | json | csv
    pub output: String,
    /// Accept invalid/self-signed TLS certificates (insecure mode)
    pub insecure: bool,
    /// Maximum requests per second across all clients (0 = unlimited)
    pub rps: Option<u32>,
    /// Bearer token for Authorization header (e.g. --auth-bearer mytoken)
    pub auth_bearer: Option<String>,
    /// Basic auth credentials in user:password format
    pub auth_basic: Option<String>,
    /// Write results output to this file instead of stdout
    pub output_file: Option<String>,
    /// Write per-request log (timestamp_ms,status,latency_ms) to this CSV file
    pub results_log: Option<String>,
    /// Print live stats every N seconds during the test
    pub live_stats: Option<u64>,
    /// Idle timeout for pooled connections in seconds (default: 90)
    pub pool_idle_timeout: Option<u64>,
    /// Disable HTTP keep-alive / connection reuse
    pub disable_keepalive: bool,
}

/// Subcommands.
#[derive(Debug, Clone, PartialEq, Eq)]
pub enum Command {
    /// Compare two benchmark result JSON files and show a diff table
    Compare {
        /// First result file (baseline)
        baseline: String,
        /// Second result file (candidate)
        candidate: String,
    },
}

/// Why command-line flags are refused.
#[derive(Debug, Clone, PartialEq, Eq)]
pub enum ArgsError {
    /// A `--headers` entry whose name is empty.
    EmptyHeaderName { header: String },
    /// `--auth-basic` without a user name.
    AuthBasicFormat,
    /// Both `--auth-bearer` and `--auth-basic`.
    AuthConflict,
}

impl ArgsError {
    /// The text this error is reported with.
    pub fn message(&self) -> (m: String)
        ensures
            m@ == match *self {
                ArgsError::EmptyHeaderName { header } => "Invalid header '"@ + header@
                    + "': header name cannot be empty"@,
                ArgsError::AuthBasicFormat => "--auth-basic requires format 'user:password'"@,
                ArgsError::AuthConflict => "Cannot use --auth-bearer and --auth-basic together"@,
            },
    {
        let mut v: Vec<char> = Vec::new();
        match self {
            ArgsError::EmptyHeaderName { header } => {
                push_str(&mut v, "Invalid header '");
                push_str(&mut v, header.as_str());
                push_str(&mut v, "': header name cannot be empty");
            },
            ArgsError::AuthBasicFormat => {
                push_str(&mut v, "--auth-basic requires format 'user:password'");
            },
            ArgsError::AuthConflict => {
                push_str(&mut v, "Cannot use --auth-bearer and --auth-basic together");
            },
        }
        string_of(&v)
    }
}

// ---------------------------------------------------------------------------
// Headers and auth
// ---------------------------------------------------------------------------

/// The name and value a `Name:Value` header flag gives: the text before the
/// first `:` and the text after it (empty when there is no `:`), each trimmed.
pub open spec fn header_parts(raw: Seq<char>) -> (Seq<char>, Seq<char>) {
    let p = split_once(raw, ':');
    (
        trim(p.0),
        match p.1 {
            Some(v) => trim(v),
            None => seq![],
        },
    )
}

/// The headers parsed from the flags `raws`, one per flag, in order.
pub open spec fn headers_parsed(hs: Seq<Header>, raws: Seq<String>) -> bool {
    &&& hs.len() == raws.len()
    &&& forall|i: int|
        0 <= i < raws.len() ==> (#[trigger] hs[i]).key@ == header_parts(raws[i]@).0
            && hs[i].value@ == header_parts(raws[i]@).1
}

/// The index of the first flag whose header name is empty, if any.
pub open spec fn first_empty_header(raws: Seq<String>) -> Option<int> {
    if exists|i: int| 0 <= i < raws.len() && header_parts(#[trigger] raws[i]@).0.len() == 0 {
        Some(
            choose|i: int|
                0 <= i < raws.len() && header_parts(#[trigger] raws[i]@).0.len() == 0 && forall|
                    j: int,
                | 0 <= j < i ==> header_parts(#[trigger] raws[j]@).0.len() > 0,
        )
    } else {
        None
    }
}

fn parse_header(raw: &String) -> (h: Header)
    ensures
        h.key@ == header_parts(raw@).0,
        h.value@ == header_parts(raw@).1,
{
    let (k, v) = split_once_at(&chars_of(raw.as_str()), ':');
    let key = string_of(&trimmed(&k));
    let value = match v {
        Some(v) => string_of(&trimmed(&v)),
        None => String::new(),
    };
    Header { key, value }
}

/// Parses `Name:Value` header flags. Each is split at its first `:`, and both
/// parts are trimmed; a flag with an empty name is refused.
pub fn parse_headers(raw: Option<&[String]>) -> (r: Result<Option<Vec<Header>>, ArgsError>)
    ensures
        raw is None ==> r == Ok::<Option<Vec<Header>>, ArgsError>(None),
        raw matches Some(raws) ==> match r {
            Ok(Some(hs)) => first_empty_header(raws@) is None && headers_parsed(hs@, raws@),
            Ok(None) => false,
            Err(e) => first_empty_header(raws@) matches Some(i) && e == (ArgsError::EmptyHeaderName {
                header: raws@[i],
            }),
        },
{
    let raws = match raw {
        None => {
            return Ok(None);
        },
        Some(raws) => raws,
    };
    let mut headers: Vec<Header> = Vec::new();
    let mut i: usize = 0;
    while i < raws.len()
        invariant
            raw == Some(raws),
            i <= raws@.len(),
            headers@.len() == i,
            forall|t: int|
                0 <= t < i ==> (#[trigger] headers@[t]).key@ == header_parts(raws@[t]@).0
                    && headers@[t].value@ == header_parts(raws@[t]@).1,
            forall|t: int| 0 <= t < i ==> header_parts(#[trigger] raws@[t]@).0.len() > 0,
        decreases raws@.len() - i,
    {
        let h = parse_header(&raws[i]);
        if h.key.as_str().is_empty() {
            let header = raws[i].clone();
            assert(first_empty_header(raws@) == Some(i as int)) by {
                assert(header_parts(raws@[i as int]@).0.len() == 0);
                let c = choose|c: int|
                    0 <= c < raws@.len() && header_parts(#[trigger] raws@[c]@).0.len() == 0
                        && forall|j: int|
                        0 <= j < c ==> header_parts(#[trigger] raws@[j]@).0.len() > 0;
                assert(c == i) by {
                    if c < i {
                        assert(header_parts(raws@[c]@).0.len() > 0);
                    }
                    if c > i {
                        assert(header_parts(raws@[i as int]@).0.len() > 0);
                    }
                }
            }
            return Err(ArgsError::EmptyHeaderName { header });
        }
        headers.push(h);
        i += 1;
    }
    Ok(Some(headers))
}

/// The authentication `--auth-bearer` and `--auth-basic` ask for: a bearer
/// token as given; basic credentials split at their first `:` (the password
/// empty when there is none), refused without a user name; refused when both
/// flags are given.
pub open spec fn auth_from_flags(bearer: Option<Seq<char>>, basic: Option<Seq<char>>) -> Result<
    Option<(Seq<char>, Option<Seq<char>>)>,
    ArgsError,
> {
    match (bearer, basic) {
        (Some(token), None) => Ok(Some((token, None))),
        (None, Some(credentials)) => {
            let p = split_once(credentials, ':');
            let password = match p.1 {
                Some(pw) => pw,
                None => seq![],
            };
            if p.0.len() == 0 {
                Err(ArgsError::AuthBasicFormat)
            } else {
                Ok(Some((p.0, Some(password))))
            }
        },
        (None, None) => Ok(None),
        (Some(_), Some(_)) => Err(ArgsError::AuthConflict),
    }
}

/// An auth method as the pair `auth_from_flags` describes it: a token alone,
/// or a user with a password.
pub open spec fn auth_shape(a: Auth) -> (Seq<char>, Option<Seq<char>>) {
    match a {
        Auth::Bearer { token } => (token@, None),
        Auth::Basic { user, password } => (user@, Some(password@)),
    }
}

/// Builds the auth method from the `--auth-bearer` and `--auth-basic` flags.
pub fn parse_auth(bearer: Option<&str>, basic: Option<&str>) -> (r: Result<Option<Auth>, ArgsError>)
    ensures
        ({
            let want = auth_from_flags(
                match bearer {
                    Some(b) => Some(b@),
                    None => None,
                },
                match basic {
                    Some(b) => Some(b@),
                    None => None,
                },
            );
            match r {
                Ok(None) => want == Ok::<Option<(Seq<char>, Option<Seq<char>>)>, ArgsError>(None),
                Ok(Some(a)) => want == Ok::<Option<(Seq<char>, Option<Seq<char>>)>, ArgsError>(
                    Some(auth_shape(a)),
                ),
                Err(e) => want == Err::<Option<(Seq<char>, Option<Seq<char>>)>, ArgsError>(e),
            }
        }),
{
    match (bearer, basic) {
        (Some(token), None) => {
            let token = string_of(&chars_of(token));
            Ok(Some(Auth::Bearer { token }))
        },
        (None, Some(credentials)) => {
            let (u, p) = split_once_at(&chars_of(credentials), ':');
            let user = string_of(&u);
            let password = match p {
                Some(p) => string_of(&p),
                None => String::new(),
            };
            if u.len() == 0 {
                return Err(ArgsError::AuthBasicFormat);
            }
            Ok(Some(Auth::Basic { user, password }))
        },
        (None, None) => Ok(None),
        (Some(_), Some(_)) => Err(ArgsError::AuthConflict),
    }
}

} // verus!

verus! {

// ---------------------------------------------------------------------------
// Conversion to Settings
// ---------------------------------------------------------------------------

/// The output format a `--output` value selects; `text` for a name it does
/// not know.
pub open spec fn output_choice(name: Seq<char>) -> OutputFormat {
    match format_named(unicode_lower(name)) {
        Some(f) => f,
        None => OutputFormat::Text,
    }
}

/// The value a flag gives when it is set, the file's value otherwise.
pub open spec fn flag_or<T>(flag: Option<T>, file: Option<T>) -> Option<T> {
    match flag {
        Some(v) => Some(v),
        None => file,
    }
}

/// `a` is the auth method the flags describe.
pub open spec fn auth_is(a: Option<Auth>, want: Option<(Seq<char>, Option<Seq<char>>)>) -> bool {
    match a {
        None => want is None,
        Some(x) => want == Some(auth_shape(x)),
    }
}

/// The flags as given, with the auth flags as plain values.
pub open spec fn auth_flags(cli: Cli) -> Result<Option<(Seq<char>, Option<Seq<char>>)>, ArgsError> {
    auth_from_flags(
        match cli.auth_bearer {
            Some(b) => Some(b@),
            None => None,
        },
        match cli.auth_basic {
            Some(b) => Some(b@),
            None => None,
        },
    )
}

/// The settings a run from flags (no scenario file) has, but for the four
/// fields that flags always set (`output`, `output_file`, `results_log`,
/// `live_stats`).
pub open spec fn settings_from_flags(s: Settings, cli: Cli, body: Option<String>) -> bool {
    &&& s.clients == cli.clients
    &&& s.requests == cli.iterations
    &&& cli.target matches Some(t) && s.target == t
    &&& s.keep_alive is None
    &&& s.body == body
    &&& match cli.headers {
        None => s.headers is None,
        Some(raws) => s.headers matches Some(hs) && headers_parsed(hs@, raws@),
    }
    &&& s.duration == cli.duration
    &&& s.verbose == cli.verbose
    &&& s.timeout == millis_duration(cli.timeout)
    &&& s.http2 == cli.http2
    &&& s.ramp_up == cli.ramp_up
    &&& s.insecure == cli.insecure
    &&& s.rps == cli.rps
    &&& s.steps@.len() == 0
    &&& s.pool_idle_timeout == cli.pool_idle_timeout
    &&& s.disable_keepalive == cli.disable_keepalive
}

/// `e` refuses the first header flag with an empty name.
pub open spec fn header_error(headers: Option<Vec<String>>, e: ArgsError) -> bool {
    headers matches Some(raws) && first_empty_header(raws@) matches Some(i) && e == (
    ArgsError::EmptyHeaderName { header: raws@[i] })
}

impl Cli {
    /// Builds the settings of a run. `scenario` holds the settings read from
    /// the `--scenario` file when there is one, and `body` the contents of
    /// the `--request-body` file. With a scenario the file's settings are
    /// used, `--output-file`, `--results-log` and `--live-stats` replacing the
    /// file's values when they are given.
    pub fn to_settings(self, scenario: Option<Settings>, body: Option<String>) -> (r: Result<
        Settings,
        ArgsError,
    >)
        requires
            self.scenario is Some <==> scenario is Some,
            self.scenario is None ==> self.target is Some,
            self.scenario is None ==> (body is Some <==> self.request_body is Some),
        ensures
            match r {
                Err(e) => auth_flags(self) == Err::<Option<(Seq<char>, Option<Seq<char>>)>, ArgsError>(e)
                    || (auth_flags(self) is Ok && scenario is None && header_error(self.headers, e)),
                Ok(s) => {
                    &&& auth_flags(self) is Ok
                    &&& match scenario {
                        Some(file) => s == (Settings {
                            output_file: flag_or(self.output_file, file.output_file),
                            results_log: flag_or(self.results_log, file.results_log),
                            live_stats: flag_or(self.live_stats, file.live_stats),
                            ..file
                        }),
                        None => {
                            &&& s.output == output_choice(self.output@)
                            &&& s.output_file == self.output_file
                            &&& s.results_log == self.results_log
                            &&& s.live_stats == self.live_stats
                            &&& settings_from_flags(s, self, body)
                            &&& auth_is(s.auth, auth_flags(self)->Ok_0)
                            &&& (self.headers matches Some(raws) ==> first_empty_header(raws@) is None)
                        },
                    }
                },
            },
    {
        let output_format = match OutputFormat::parse(self.output.as_str()) {
            Ok(f) => f,
            Err(_) => OutputFormat::default(),
        };
        let auth = match parse_auth(
            match &self.auth_bearer {
                Some(b) => Some(b.as_str()),
                None => None,
            },
            match &self.auth_basic {
                Some(b) => Some(b.as_str()),
                None => None,
            },
        ) {
            Ok(a) => a,
            Err(e) => {
                return Err(e);
            },
        };
        match scenario {
            None => {
                let mut settings = match Self::from_args(&self, auth, body) {
                    Ok(s) => s,
                    Err(e) => {
                        return Err(e);
                    },
                };
                settings.output = output_format;
                settings.output_file = self.output_file;
                settings.results_log = self.results_log;
                settings.live_stats = self.live_stats;
                Ok(settings)
            },
            Some(file) => {
                let mut settings = file;
                if self.output_file.is_some() {
                    settings.output_file = self.output_file;
                }
                if self.results_log.is_some() {
                    settings.results_log = self.results_log;
                }
                if self.live_stats.is_some() {
                    settings.live_stats = self.live_stats;
                }
                Ok(settings)
            },
        }
    }

    fn from_args(args: &Cli, auth: Option<Auth>, body: Option<String>) -> (r: Result<Settings, ArgsError>)
        requires
            args.target is Some,
        ensures
            match r {
                Err(e) => header_error(args.headers, e),
                Ok(s) => {
                    &&& settings_from_flags(s, *args, body)
                    &&& s.auth == auth
                    &&& (args.headers matches Some(raws) ==> first_empty_header(raws@) is None)
                },
            },
    {
        let headers = match parse_headers(
            match &args.headers {
                Some(h) => Some(h.as_slice()),
                None => None,
            },
        ) {
            Ok(h) => h,
            Err(e) => {
                return Err(e);
            },
        };
        let target = match &args.target {
            Some(t) => t.clone(),
            None => String::new(),
        };
        Ok(Settings {
            clients: args.clients,
            requests: args.iterations,
            target,
            keep_alive: None,
            body,
            headers,
            duration: args.duration,
            verbose: args.verbose,
            timeout: duration_from_millis(args.timeout),
            http2: args.http2,
            ramp_up: args.ramp_up,
            output: OutputFormat::default(),
            insecure: args.insecure,
            rps: args.rps,
            auth,
            output_file: None,
            results_log: None,
            steps: Vec::new(),
            live_stats: None,
            pool_idle_timeout: args.pool_idle_timeout,
            disable_keepalive: args.disable_keepalive,
        })
    }
}

} // verus!
