//! Settings of a basic run and the flags they come from.

use std::time::Duration;

use vstd::prelude::*;

use crate::settings::target_url_of;
use crate::text::{
    chars_eq, chars_of, dec, first_index, is_blank, lemma_not_blank_has_word, push_dec, push_str,
    split_once, split_once_at, split_whitespace, split_ws, string_of, to_uppercase, unicode_upper,
};

verus! {

/// a HTTP benchmarking tool
#[derive(Debug, Clone, PartialEq, Eq)]
pub struct Args {
    /// Runs in verbose mode
    pub verbose: bool,
    /// URL to be requested using an operation [default: GET] Ex. GET http://localhost:3000/
    pub target: Option<String>,
    /// File path for the request body
    pub request_body: Option<String>,
    /// Number of concurrent clients
    pub clients: usize,
    /// Total number of iterations
    pub iterations: usize,
    /// Duration of the test in seconds
    pub duration: Option<u64>,
    /// Headers, multi value in format headerName:HeaderValue
    pub headers: Option<Vec<String>>,
    /// Scenario file
    pub scenario: Option<String>,
}

impl Default for Args {
    fn default() -> (a: Args)
        ensures
            a == (Args {
                verbose: false,
                target: None,
                request_body: None,
                clients: 0,
                iterations: 0,
                duration: None,
                headers: None,
                scenario: None,
            }),
    {
        Args {
            verbose: false,
            target: None,
            request_body: None,
            clients: 0,
            iterations: 0,
            duration: None,
            headers: None,
            scenario: None,
        }
    }
}

} // verus!

verus! {

/// The HTTP methods of a basic run.
#[derive(Clone, Copy, PartialEq, Eq, Structural, Debug)]
pub enum Operation {
    Get,
    Post,
    Head,
    Patch,
    Put,
    Delete,
}

/// The method an upper-case name selects: `GET`, `POST`, `HEAD`, `PATCH`,
/// `PUT` or `DELETE`.
pub open spec fn operation_named(name: Seq<char>) -> Option<Operation> {
    if name == "GET"@ {
        Some(Operation::Get)
    } else if name == "POST"@ {
        Some(Operation::Post)
    } else if name == "HEAD"@ {
        Some(Operation::Head)
    } else if name == "PATCH"@ {
        Some(Operation::Patch)
    } else if name == "PUT"@ {
        Some(Operation::Put)
    } else if name == "DELETE"@ {
        Some(Operation::Delete)
    } else {
        None
    }
}

impl Operation {
    /// Looks up a method by its name.
    pub fn from_name(name: &Vec<char>) -> (r: Option<Operation>)
        ensures
            r == operation_named(name@),
    {
        if chars_eq(name, &chars_of("GET")) {
            Some(Operation::Get)
        } else if chars_eq(name, &chars_of("POST")) {
            Some(Operation::Post)
        } else if chars_eq(name, &chars_of("HEAD")) {
            Some(Operation::Head)
        } else if chars_eq(name, &chars_of("PATCH")) {
            Some(Operation::Patch)
        } else if chars_eq(name, &chars_of("PUT")) {
            Some(Operation::Put)
        } else if chars_eq(name, &chars_of("DELETE")) {
            Some(Operation::Delete)
        } else {
            None
        }
    }
}

/// An HTTP request header.
#[derive(Clone, PartialEq, Eq, Debug)]
pub struct Header {
    pub key: String,
    pub value: String,
}

/// Everything a basic run is configured by.
#[derive(Clone, PartialEq, Debug)]
pub struct Settings {
    pub clients: usize,
    pub requests: usize,
    pub target: String,
    pub keep_alive: Option<Duration>,
    pub body: Option<String>,
    pub headers: Option<Vec<Header>>,
    pub duration: Option<u64>,
    pub verbose: bool,
}

/// The method of a target: the first word, upper-cased, when the target has
/// more than one word and that word names a method; `Get` otherwise.
pub open spec fn target_operation(target: Seq<char>) -> Operation {
    let words = split_ws(target);
    if words.len() <= 1 {
        Operation::Get
    } else {
        match operation_named(unicode_upper(words[0])) {
            Some(op) => op,
            None => Operation::Get,
        }
    }
}

/// The name and value of a `name:value` header flag: the text before the
/// first `:`, and all the text after it.
pub open spec fn flag_header(raw: Seq<char>) -> (Seq<char>, Seq<char>) {
    (split_once(raw, ':').0, split_once(raw, ':').1->0)
}

/// A header flag holds a `:`.
pub open spec fn has_colon(raw: Seq<char>) -> bool {
    first_index(raw, ':') < raw.len()
}

/// The settings a basic run from flags has.
pub open spec fn settings_from_args(s: Settings, args: Args, body: Option<String>) -> bool {
    &&& s.clients == args.clients
    &&& s.requests == args.iterations
    &&& args.target matches Some(t) && s.target == t
    &&& s.keep_alive is None
    &&& s.body == body
    &&& match args.headers {
        None => s.headers is None,
        Some(raws) => s.headers matches Some(hs) && hs@.len() == raws@.len() && forall|i: int|
            0 <= i < raws@.len() ==> (#[trigger] hs@[i]).key@ == flag_header(raws@[i]@).0
                && hs@[i].value@ == flag_header(raws@[i]@).1,
    }
    &&& s.duration == args.duration
    &&& s.verbose == args.verbose
}

fn flag_to_header(raw: &String) -> (h: Header)
    requires
        has_colon(raw@),
    ensures
        h.key@ == flag_header(raw@).0,
        h.value@ == flag_header(raw@).1,
{
    let (k, rest) = split_once_at(&chars_of(raw.as_str()), ':');
    let v = match rest {
        Some(r) => r,
        None => Vec::new(),
    };
    Header { key: string_of(&k), value: string_of(&v) }
}

impl Args {
    /// The settings of a run. `scenario` holds the settings read from the
    /// `--scenario` file when there is one, and `body` the contents of the
    /// `--request-body` file.
    pub fn to_settings(self, scenario: Option<Settings>, body: Option<String>) -> (s: Settings)
        requires
            self.scenario is Some <==> scenario is Some,
            self.scenario is None ==> self.target is Some,
            self.scenario is None ==> (body is Some <==> self.request_body is Some),
            self.scenario is None && self.headers is Some ==> forall|i: int|
                0 <= i < self.headers->0@.len() ==> has_colon(#[trigger] self.headers->0@[i]@),
        ensures
            match scenario {
                Some(file) => s == file,
                None => settings_from_args(s, self, body),
            },
    {
        match scenario {
            None => Settings::from_args(self, body),
            Some(file) => file,
        }
    }
}

impl Settings {
    /// The requests each client executes (floored).
    pub fn requests_by_client(&self) -> (n: usize)
        requires
            self.clients > 0,
        ensures
            n == self.requests / self.clients,
    {
        self.requests / self.clients
    }

    /// The settings of a run from flags, with `body` the contents of the
    /// request body file.
    pub fn from_args(args: Args, body: Option<String>) -> (s: Settings)
        requires
            args.target is Some,
            args.headers is Some ==> forall|i: int|
                0 <= i < args.headers->0@.len() ==> has_colon(#[trigger] args.headers->0@[i]@),
        ensures
            settings_from_args(s, args, body),
    {
        let headers = match &args.headers {
            None => None,
            Some(raws) => {
                let mut hs: Vec<Header> = Vec::new();
                let mut i: usize = 0;
                while i < raws.len()
                    invariant
                        i <= raws@.len(),
                        hs@.len() == i,
                        forall|t: int| 0 <= t < raws@.len() ==> has_colon(#[trigger] raws@[t]@),
                        forall|t: int|
                            0 <= t < i ==> (#[trigger] hs@[t]).key@ == flag_header(raws@[t]@).0
                                && hs@[t].value@ == flag_header(raws@[t]@).1,
                    decreases raws@.len() - i,
                {
                    hs.push(flag_to_header(&raws[i]));
                    i += 1;
                }
                Some(hs)
            },
        };
        let target = match args.target {
            Some(t) => t,
            None => String::new(),
        };
        Settings {
            clients: args.clients,
            requests: args.iterations,
            target,
            keep_alive: None,
            body,
            headers,
            duration: args.duration,
            verbose: args.verbose,
        }
    }

    /// The HTTP method of the target.
    pub fn operation(&self) -> (op: Operation)
        ensures
            op == target_operation(self.target@),
    {
        let words = split_whitespace(&chars_of(self.target.as_str()));
        if words.len() <= 1 {
            return Operation::Get;
        }
        let first = string_of(&words[0]);
        let upper = to_uppercase(first.as_str());
        match Operation::from_name(&chars_of(upper.as_str())) {
            Some(op) => op,
            None => Operation::Get,
        }
    }

    /// The URL of the target: its only word, or its second word.
    pub fn target(&self) -> (url: String)
        requires
            !is_blank(self.target@),
        ensures
            url@ == target_url_of(self.target@),
    {
        proof {
            lemma_not_blank_has_word(self.target@);
        }
        let words = split_whitespace(&chars_of(self.target.as_str()));
        if words.len() == 1 {
            string_of(&words[0])
        } else {
            string_of(&words[1])
        }
    }

    /// The banner line of a run.
    pub fn banner(&self) -> (b: String)
        ensures
            b@ == match self.duration {
                None => "kamehameha to "@ + self.target@ + " with "@ + dec(self.clients as nat)
                    + " concurrent clients and "@ + dec(self.requests as nat)
                    + " total iterations"@,
                Some(d) => "kamehameha to "@ + self.target@ + " with "@ + dec(self.clients as nat)
                    + " concurrent clients for "@ + dec(d as nat) + " seconds"@,
            },
    {
        let mut v: Vec<char> = Vec::new();
        push_str(&mut v, "kamehameha to ");
        push_str(&mut v, self.target.as_str());
        push_str(&mut v, " with ");
        push_dec(&mut v, self.clients as u64);
        match self.duration {
            None => {
                push_str(&mut v, " concurrent clients and ");
                push_dec(&mut v, self.requests as u64);
                push_str(&mut v, " total iterations");
            },
            Some(d) => {
                push_str(&mut v, " concurrent clients for ");
                push_dec(&mut v, d);
                push_str(&mut v, " seconds");
            },
        }
        string_of(&v)
    }
}

} // verus!
