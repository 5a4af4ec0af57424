//! The benchmark request of the Model Context Protocol tool, and the
//! settings it runs with.

use vstd::prelude::*;

use crate::args::header_parts;
use crate::settings::{
    duration_from_millis, millis_duration, validation, Check, Header, OutputFormat, Settings,
    SettingsError,
};
use crate::text::{chars_of, split_once_at, string_of, trimmed};

verus! {

/// Input parameters for the unified benchmark tool.
#[derive(Debug, Clone, PartialEq, Eq)]
pub struct BenchmarkRequest {
    /// Target URL including optional HTTP method prefix.
    /// Examples: "http://localhost:3000/" or "POST http://api.example.com/users"
    pub target: String,
    /// Number of concurrent workers sending requests in parallel.
    pub clients: u32,
    /// Total number of requests to perform (ignored when `duration_secs` is set).
    pub requests: Option<u32>,
    /// Duration of the test in seconds (alternative to `requests`).
    pub duration_secs: Option<u64>,
    /// Request body (e.g. JSON payload for POST/PUT requests).
    pub body: Option<String>,
    /// HTTP headers in 'Name:Value' format.
    pub headers: Option<Vec<String>>,
    /// Use HTTP/2 prior knowledge (bypass HTTP/1.1 upgrade).
    pub http2: Option<bool>,
    /// Ramp-up duration in seconds (spread worker start over this period).
    pub ramp_up: Option<u64>,
    /// Request timeout in milliseconds (default: 30000).
    pub timeout_ms: Option<u64>,
    /// Accept invalid/self-signed TLS certificates.
    pub insecure: Option<bool>,
    /// Maximum requests per second (rate limiting).
    pub rps: Option<u32>,
}

/// The settings a benchmark request runs with: its own values, 1 request and
/// a 30 s timeout when not given, headers split at their first `:` and
/// trimmed (empty names are kept), and everything else at its default.
pub open spec fn request_settings(s: Settings, req: BenchmarkRequest) -> bool {
    &&& s.clients == req.clients
    &&& s.requests == match req.requests {
        Some(n) => n,
        None => 1,
    }
    &&& s.target == req.target
    &&& s.keep_alive is None
    &&& s.body == req.body
    &&& match req.headers {
        None => s.headers is None,
        Some(raws) => s.headers matches Some(hs) && hs@.len() == raws@.len() && forall|i: int|
            0 <= i < raws@.len() ==> (#[trigger] hs@[i]).key@ == header_parts(raws@[i]@).0
                && hs@[i].value@ == header_parts(raws@[i]@).1,
    }
    &&& s.duration == req.duration_secs
    &&& !s.verbose
    &&& s.timeout == millis_duration(
        match req.timeout_ms {
            Some(t) => t,
            None => 30_000,
        },
    )
    &&& s.http2 == (req.http2 == Some(true))
    &&& s.ramp_up == req.ramp_up
    &&& s.output == OutputFormat::Text
    &&& s.insecure == (req.insecure == Some(true))
    &&& s.rps == req.rps
    &&& s.auth is None
    &&& s.output_file is None
    &&& s.results_log is None
    &&& s.steps@.len() == 0
    &&& s.live_stats is None
    &&& s.pool_idle_timeout is None
    &&& !s.disable_keepalive
}

fn split_header(raw: &String) -> (h: Header)
    ensures
        h.key@ == header_parts(raw@).0,
        h.value@ == header_parts(raw@).1,
{
    let (k, v) = split_once_at(&chars_of(raw.as_str()), ':');
    let value = match v {
        Some(v) => string_of(&trimmed(&v)),
        None => String::new(),
    };
    Header { key: string_of(&trimmed(&k)), value }
}

impl BenchmarkRequest {
    /// The settings this request runs with.
    pub fn to_settings(self) -> (s: Settings)
        ensures
            request_settings(s, self),
    {
        let headers = match &self.headers {
            None => None,
            Some(raws) => {
                let mut hs: Vec<Header> = Vec::new();
                let mut i: usize = 0;
                while i < raws.len()
                    invariant
                        i <= raws@.len(),
                        hs@.len() == i,
                        forall|t: int|
                            0 <= t < i ==> (#[trigger] hs@[t]).key@ == header_parts(raws@[t]@).0
                                && hs@[t].value@ == header_parts(raws@[t]@).1,
                    decreases raws@.len() - i,
                {
                    hs.push(split_header(&raws[i]));
                    i += 1;
                }
                Some(hs)
            },
        };
        let requests = match self.requests {
            Some(n) => n,
            None => 1,
        };
        let timeout = duration_from_millis(
            match self.timeout_ms {
                Some(t) => t,
                None => 30_000,
            },
        );
        Settings {
            clients: self.clients,
            requests,
            target: self.target,
            keep_alive: None,
            body: self.body,
            headers,
            duration: self.duration_secs,
            verbose: false,
            timeout,
            http2: match self.http2 {
                Some(b) => b,
                None => false,
            },
            ramp_up: self.ramp_up,
            output: OutputFormat::default(),
            insecure: match self.insecure {
                Some(b) => b,
                None => false,
            },
            rps: self.rps,
            auth: None,
            output_file: None,
            results_log: None,
            steps: Vec::new(),
            live_stats: None,
            pool_idle_timeout: None,
            disable_keepalive: false,
        }
    }
}

impl BenchmarkRequest {
    /// The settings this request runs with, once they pass the checks made
    /// before every run; the first check they fail otherwise.
    pub fn checked_settings(self) -> (r: Result<Settings, SettingsError>)
        ensures
            match r {
                Ok(s) => request_settings(s, self) && validation(s) is Pass,
                Err(e) => exists|s: Settings|
                    request_settings(s, self) && #[trigger] validation(s) == Check::Fail(e@),
            },
    {
        let settings = self.to_settings();
        match settings.validate() {
            Ok(()) => Ok(settings),
            Err(e) => Err(e),
        }
    }
}

} // verus!
