//! The request-side logic of a run: template variables in URLs and bodies,
//! pseudo-random values, and the timing of workers.

use std::time::{Duration, SystemTime, UNIX_EPOCH};

use vstd::prelude::*;

use reqwest::header::HeaderMap;

use crate::headers::{
    build_step_headers, build_headers, global_pairs, global_problem, header_map_entries,
    insert_all, list_pairs, list_problem, listed, new_header_map, run_headers, HeaderError,
    HeaderProblem, MAP_ENTRY_LIMIT,
};
use crate::settings::{
    client_share, target_operation, target_url_of, url_parse, url_parse_outcome,
    Operation, Settings, Step,
};
use crate::benchmark::{status_class, StatusClass};
use crate::text::{digit_char, is_blank, pow16, 
    chars_of, contains_chars, contains_seq, dec, dec_int, find_seq_from, hex_padded, matches_at,
    occurs_at, find_from, lemma_find_from_some, parse_i64, parse_i64_chars, push_dec, push_dec_i64, push_hex_padded,
    push_str, replace_all, replace_chars, slice_chars, split_once, split_once_at, string_of, trim,
    trimmed,
};

verus! {

// ---------------------------------------------------------------------------
// Clock
// ---------------------------------------------------------------------------

#[verifier::external_type_specification]
#[verifier::external_body]
pub struct ExSystemTime(SystemTime);

/// `SystemTime::now()`: the current wall-clock time.
#[verifier::external_body]
fn system_time_now() -> SystemTime {
    SystemTime::now()
}

/// `SystemTime::duration_since(UNIX_EPOCH)`: the time elapsed since the Unix
/// epoch, or `None` for a time before it. Depends on the clock reading only.
#[verifier::external_body]
fn since_unix_epoch(t: &SystemTime) -> Option<Duration> {
    t.duration_since(UNIX_EPOCH).ok()
}

/// The number of whole milliseconds in a duration (`Duration::as_millis`).
pub uninterp spec fn duration_millis(d: Duration) -> u128;

/// `Duration::as_millis`: the whole milliseconds of a duration.
#[verifier::external_body]
fn duration_as_millis(d: Duration) -> (ms: u128)
    ensures
        ms == duration_millis(d),
{
    d.as_millis()
}

/// The whole milliseconds of a time since the Unix epoch, truncated to 64
/// bits; 0 for a time before the epoch (`None`).
pub fn millis_or_zero(o: Option<Duration>) -> (r: u64)
    ensures
        r == match o {
            Some(d) => duration_millis(d) as u64,
            None => 0,
        },
{
    match o {
        Some(d) => duration_as_millis(d) as u64,
        None => 0,
    }
}

/// The current Unix time in milliseconds (truncated to 64 bits), or 0 when the
/// clock reads a time before the epoch.
pub fn now_ms() -> (r: u64)
    ensures
        r == 0 || exists|d: Duration| r == #[trigger] (duration_millis(d) as u64),
{
    let now = system_time_now();
    millis_or_zero(since_unix_epoch(&now))
}

// ---------------------------------------------------------------------------
// Pseudo-random values
// ---------------------------------------------------------------------------

/// One step of a linear congruential generator modulo 2^64.
pub open spec fn lcg(seed: u64) -> u64 {
    ((((seed as nat) * 6364136223846793005) % 0x1_0000_0000_0000_0000 + 1442695040888963407)
        % 0x1_0000_0000_0000_0000) as u64
}

/// Very simple LCG random (no external deps, good enough for test data generation).
pub fn lcg_rand(seed: u64) -> (r: u64)
    ensures
        r == lcg(seed),
{
    seed.wrapping_mul(6_364_136_223_846_793_005).wrapping_add(1_442_695_040_888_963_407)
}

/// A pseudo-UUID v4-shaped string: five groups of hex digits.
pub open spec fn uuid_text(ts: u64, seq: u32, client: usize) -> Seq<char> {
    let a = lcg(ts ^ (seq as u64));
    let b = lcg(a ^ (client as u64));
    hex_padded((a & 0xFFFF_FFFF) as nat, 8) + "-"@ + hex_padded(((a >> 32) & 0xFFFF) as nat, 4)
        + "-4"@ + hex_padded(((a >> 48) & 0xFFF) as nat, 3) + "-"@ + hex_padded(
        ((b & 0x3FFF) | 0x8000) as nat,
        4,
    ) + "-"@ + hex_padded(((b >> 16) & 0xFFFF_FFFF_FFFF) as nat, 12)
}

/// Generates a pseudo-UUID v4-shaped string (not cryptographically random).
pub fn pseudo_uuid(ts: u64, seq: u32, client: usize) -> (u: String)
    ensures
        u@ == uuid_text(ts, seq, client),
{
    let a = lcg_rand(ts ^ (seq as u64));
    let b = lcg_rand(a ^ (client as u64));
    let mut v: Vec<char> = Vec::new();
    push_hex_padded(&mut v, a & 0xFFFF_FFFF, 8);
    push_str(&mut v, "-");
    push_hex_padded(&mut v, (a >> 32) & 0xFFFF, 4);
    push_str(&mut v, "-4");
    push_hex_padded(&mut v, (a >> 48) & 0xFFF, 3);
    push_str(&mut v, "-");
    push_hex_padded(&mut v, (b & 0x3FFF) | 0x8000, 4);
    push_str(&mut v, "-");
    push_hex_padded(&mut v, (b >> 16) & 0xFFFF_FFFF_FFFF, 12);
    string_of(&v)
}

} // verus!

verus! {

// ---------------------------------------------------------------------------
// Variable substitution
// ---------------------------------------------------------------------------

/// The seed every `{{random_int(min,max)}}` of one request draws from.
pub open spec fn random_seed(ts: u64, seq: u32, client: usize) -> u64 {
    ts ^ (seq as u64) ^ (client as u64)
}

/// The value `{{random_int(lo,hi)}}` takes for a seed: `lo` plus the random
/// number modulo `|hi - lo| + 1`; `None` where that arithmetic overflows an
/// `i64` (a difference outside the `i64` range or equal to `i64::MIN`, or a
/// sum past `i64::MAX`).
pub open spec fn random_value(lo: i64, hi: i64, seed: u64) -> Option<i64> {
    let d = hi - lo;
    if d <= i64::MIN || d > i64::MAX {
        None
    } else {
        let range: nat = (if d < 0 {
            -d
        } else {
            d
        }) as nat + 1;
        let v = lo + ((lcg(seed) as nat) % range) as int;
        if v > i64::MAX {
            None
        } else {
            Some(v as i64)
        }
    }
}

/// A `{{random_int(lo,hi)}}` template starting at index `i`: its bounds and
/// the index just past its closing `)}}`. The bounds are the parts of the
/// text between the parentheses before and after the first comma, trimmed,
/// each parsed as an `i64`.
pub open spec fn random_template_at(s: Seq<char>, i: int) -> Option<(i64, i64, int)> {
    if occurs_at(s, "{{random_int("@, i) {
        match find_from(s, ")}}"@, i) {
            Some(e) => if e >= i + 13 {
                let inner = s.subrange(i + 13, e);
                let parts = split_once(inner, ',');
                match parts.1 {
                    Some(second) => match (parse_i64(trim(parts.0)), parse_i64(trim(second))) {
                        (Some(lo), Some(hi)) => Some((lo, hi, e + 3)),
                        _ => None,
                    },
                    None => None,
                }
            } else {
                None
            },
            None => None,
        }
    } else {
        None
    }
}

/// Expands every `{{random_int(lo,hi)}}` in `s` from index `i` on, left to
/// right, copying every other character as it is; `None` where a value
/// overflows.
pub open spec fn expand_random(s: Seq<char>, i: int, seed: u64) -> Option<Seq<char>>
    decreases s.len() - i,
{
    if i < 0 || i >= s.len() {
        Some(seq![])
    } else {
        match random_template_at(s, i) {
            Some((lo, hi, next)) => if i < next <= s.len() {
                match random_value(lo, hi, seed) {
                    Some(v) => match expand_random(s, next, seed) {
                        Some(rest) => Some(dec_int(v as int) + rest),
                        None => None,
                    },
                    None => None,
                }
            } else {
                None
            },
            None => match expand_random(s, i + 1, seed) {
                Some(rest) => Some(seq![s[i]] + rest),
                None => None,
            },
        }
    }
}

/// The text of `input` with its template variables filled in for request
/// number `seq` of worker `client` at Unix time `ts` (ms):
/// `{{seq}}`, `{{client}}`, `{{timestamp}}`, `{{uuid}}` and
/// `{{random_int(min,max)}}`. Text without `{{` is kept as it is. `None`
/// marks the inputs on which the expansion cannot be carried out (see
/// `expand_random`).
pub open spec fn substituted(input: Seq<char>, seq: u32, client: usize, ts: u64) -> Option<Seq<char>> {
    if !contains_seq(input, "{{"@) {
        Some(input)
    } else {
        let r1 = replace_all(input, "{{seq}}"@, dec(seq as nat));
        let r2 = replace_all(r1, "{{client}}"@, dec(client as nat));
        let r3 = replace_all(r2, "{{timestamp}}"@, dec(ts as nat));
        let r4 = replace_all(r3, "{{uuid}}"@, uuid_text(ts, seq, client));
        expand_random(r4, 0, random_seed(ts, seq, client))
    }
}

fn random_int_value(lo: i64, hi: i64, seed: u64) -> (r: Option<i64>)
    ensures
        r == random_value(lo, hi, seed),
{
    let d: i128 = hi as i128 - lo as i128;
    if d <= i64::MIN as i128 || d > i64::MAX as i128 {
        return None;
    }
    let abs: i128 = if d < 0 {
        -d
    } else {
        d
    };
    let range: u64 = abs as u64 + 1;
    let offset: u64 = lcg_rand(seed) % range;
    let v: i128 = lo as i128 + offset as i128;
    if v > i64::MAX as i128 {
        None
    } else {
        Some(v as i64)
    }
}

fn random_template(s: &Vec<char>, i: usize) -> (r: Option<(i64, i64, usize)>)
    ensures
        match r {
            Some((lo, hi, next)) => random_template_at(s@, i as int) == Some(
                (lo, hi, next as int),
            ),
            None => random_template_at(s@, i as int) is None,
        },
        r matches Some((_, _, next)) ==> i < next <= s.len(),
{
    proof {
        reveal_strlit("{{random_int(");
        reveal_strlit(")}}");
    }
    let prefix = chars_of("{{random_int(");
    assert(prefix@.len() == 13);
    if !matches_at(s, &prefix, i) {
        return None;
    }
    assert(i + 13 <= s.len());
    let close = chars_of(")}}");
    let e = match find_seq_from(s, &close, i) {
        Some(e) => e,
        None => {
            return None;
        },
    };
    proof {
        lemma_find_from_some(s@, close@, i as int);
    }
    assert(close@.len() == 3);
    if e < i + 13 {
        return None;
    }
    let inner = slice_chars(s, i + 13, e);
    let (a, b) = split_once_at(&inner, ',');
    let b = match b {
        Some(b) => b,
        None => {
            return None;
        },
    };
    let lo = parse_i64_chars(&trimmed(&a));
    let hi = parse_i64_chars(&trimmed(&b));
    match (lo, hi) {
        (Some(lo), Some(hi)) => {
            assert(e + 3 <= s.len()) by {
                assert(occurs_at(s@, close@, e as int));
            }
            Some((lo, hi, e + 3))
        },
        _ => None,
    }
}

} // verus!

verus! {

/// `rest` with `prefix` in front of it, when there is a `rest`.
pub open spec fn prepend(prefix: Seq<char>, rest: Option<Seq<char>>) -> Option<Seq<char>> {
    match rest {
        Some(r) => Some(prefix + r),
        None => None,
    }
}

fn expand_random_chars(s: &Vec<char>, seed: u64) -> (r: Option<Vec<char>>)
    ensures
        r is Some <==> expand_random(s@, 0, seed) is Some,
        r matches Some(v) ==> expand_random(s@, 0, seed) == Some(v@),
{
    let mut out: Vec<char> = Vec::new();
    let mut i: usize = 0;
    assert(prepend(out@, expand_random(s@, 0, seed)) =~= expand_random(s@, 0, seed)) by {
        match expand_random(s@, 0, seed) {
            Some(r) => {
                assert(out@ + r =~= r);
            },
            None => {},
        }
    }
    while i < s.len()
        invariant
            i <= s.len(),
            prepend(out@, expand_random(s@, i as int, seed)) == expand_random(s@, 0, seed),
        decreases s.len() - i,
    {
        let ghost before = out@;
        match random_template(s, i) {
            Some((lo, hi, next)) => {
                match random_int_value(lo, hi, seed) {
                    None => {
                        return None;
                    },
                    Some(v) => {
                        push_dec_i64(&mut out, v);
                        assert(prepend(out@, expand_random(s@, next as int, seed))
                            =~= prepend(before, expand_random(s@, i as int, seed))) by {
                            match expand_random(s@, next as int, seed) {
                                Some(r) => {
                                    assert(out@ + r =~= before + (dec_int(v as int) + r));
                                },
                                None => {},
                            }
                        }
                        i = next;
                    },
                }
            },
            None => {
                let c = s[i];
                out.push(c);
                assert(prepend(out@, expand_random(s@, i + 1, seed)) =~= prepend(
                    before,
                    expand_random(s@, i as int, seed),
                )) by {
                    match expand_random(s@, i + 1, seed) {
                        Some(r) => {
                            assert(out@ + r =~= before + (seq![c] + r));
                        },
                        None => {},
                    }
                }
                i += 1;
            },
        }
    }
    assert(out@ + seq![] =~= out@);
    Some(out)
}

/// Fills in the template variables of `input` for request `seq` of worker
/// `client` at Unix time `ts` (ms); all other text, non-ASCII included, is
/// kept as it is. `None` where a `random_int` value overflows an `i64`.
pub fn substitute_variables_at(input: &str, seq: u32, client: usize, ts: u64) -> (r: Option<String>)
    ensures
        r is Some <==> substituted(input@, seq, client, ts) is Some,
        r matches Some(t) ==> substituted(input@, seq, client, ts) == Some(t@),
{
    let text = chars_of(input);
    proof {
        reveal_strlit("{{");
        reveal_strlit("{{seq}}");
        reveal_strlit("{{client}}");
        reveal_strlit("{{timestamp}}");
        reveal_strlit("{{uuid}}");
    }
    if !contains_chars(&text, &chars_of("{{")) {
        return Some(string_of(&text));
    }
    let mut seq_text: Vec<char> = Vec::new();
    push_dec(&mut seq_text, seq as u64);
    let mut client_text: Vec<char> = Vec::new();
    push_dec(&mut client_text, client as u64);
    let mut ts_text: Vec<char> = Vec::new();
    push_dec(&mut ts_text, ts);
    let uuid = chars_of(pseudo_uuid(ts, seq, client).as_str());
    let r1 = replace_chars(&text, &chars_of("{{seq}}"), &seq_text);
    let r2 = replace_chars(&r1, &chars_of("{{client}}"), &client_text);
    let r3 = replace_chars(&r2, &chars_of("{{timestamp}}"), &ts_text);
    let r4 = replace_chars(&r3, &chars_of("{{uuid}}"), &uuid);
    let seed = ts ^ (seq as u64) ^ (client as u64);
    match expand_random_chars(&r4, seed) {
        Some(out) => Some(string_of(&out)),
        None => None,
    }
}

/// Fills in the template variables of `input` for request `seq` of worker
/// `client`, reading the clock for `{{timestamp}}`, `{{uuid}}` and
/// `{{random_int(..)}}`; text without `{{` is returned as it is.
pub fn substitute_variables(input: &str, seq: u32, client: usize) -> (r: Option<String>)
    ensures
        !contains_seq(input@, "{{"@) ==> (r matches Some(t) && t@ == input@),
        exists|ts: u64|
            {
                &&& (r is Some <==> #[trigger] substituted(input@, seq, client, ts) is Some)
                &&& (r matches Some(t) ==> substituted(input@, seq, client, ts) == Some(t@))
            },
{
    let text = chars_of(input);
    proof {
        reveal_strlit("{{");
    }
    if !contains_chars(&text, &chars_of("{{")) {
        let t = string_of(&text);
        assert(substituted(input@, seq, client, 0) == Some(t@));
        return Some(t);
    }
    let ts = now_ms();
    let r = substitute_variables_at(input, seq, client, ts);
    assert(r is Some <==> substituted(input@, seq, client, ts) is Some);
    r
}

} // verus!

verus! {

/// `{{random_int(min,max)}}` yields an integer in `[min, max]` whenever
/// `min <= max` and the width of the range fits in an `i64`.
pub proof fn law_random_int_in_range(lo: i64, hi: i64, seed: u64)
    requires
        lo <= hi,
        hi - lo <= i64::MAX,
    ensures
        random_value(lo, hi, seed) matches Some(v) && lo <= v <= hi,
{
    let d = hi - lo;
    let range: nat = d as nat + 1;
    let m = (lcg(seed) as nat) % range;
    assert(m < range);
}

proof fn lemma_hex_padded_len(n: nat, w: nat)
    requires
        w >= 1,
        n < pow16(w),
    ensures
        hex_padded(n, w).len() == w,
{
    crate::text::lemma_hex_len(n, w);
}

/// A pseudo-UUID has the shape of a version-4 UUID: 36 characters, dashes at
/// positions 8, 13, 18 and 23, and the version digit `4` at position 14.
pub proof fn law_uuid_shape(ts: u64, seq: u32, client: usize)
    ensures
        uuid_text(ts, seq, client).len() == 36,
        uuid_text(ts, seq, client)[8] == '-',
        uuid_text(ts, seq, client)[13] == '-',
        uuid_text(ts, seq, client)[14] == '4',
        uuid_text(ts, seq, client)[18] == '-',
        uuid_text(ts, seq, client)[23] == '-',
{
    let a = lcg(ts ^ (seq as u64));
    let b = lcg(a ^ (client as u64));
    let g1 = (a & 0xFFFF_FFFF) as nat;
    let g2 = ((a >> 32) & 0xFFFF) as nat;
    let g3 = ((a >> 48) & 0xFFF) as nat;
    let g4 = ((b & 0x3FFF) | 0x8000) as nat;
    let g5 = ((b >> 16) & 0xFFFF_FFFF_FFFF) as nat;
    assert(a & 0xFFFF_FFFF <= 0xFFFF_FFFF) by (bit_vector);
    assert((a >> 32) & 0xFFFF <= 0xFFFF) by (bit_vector);
    assert((a >> 48) & 0xFFF <= 0xFFF) by (bit_vector);
    assert((b & 0x3FFF) | 0x8000 <= 0xFFFF) by (bit_vector);
    assert((b >> 16) & 0xFFFF_FFFF_FFFF <= 0xFFFF_FFFF_FFFF) by (bit_vector);
    reveal_with_fuel(pow16, 13);
    lemma_hex_padded_len(g1, 8);
    lemma_hex_padded_len(g2, 4);
    lemma_hex_padded_len(g3, 3);
    lemma_hex_padded_len(g4, 4);
    lemma_hex_padded_len(g5, 12);
    reveal_strlit("-");
    reveal_strlit("-4");
    let u = uuid_text(ts, seq, client);
    let h1 = hex_padded(g1, 8);
    let h2 = hex_padded(g2, 4);
    let h3 = hex_padded(g3, 3);
    let h4 = hex_padded(g4, 4);
    let h5 = hex_padded(g5, 12);
    assert(u == h1 + "-"@ + h2 + "-4"@ + h3 + "-"@ + h4 + "-"@ + h5);
    assert(u.len() == 36);
    assert(u[8] == '-');
    assert(u[13] == '-');
    assert(u[14] == '4');
    assert(u[18] == '-');
    assert(u[23] == '-');
}

} // verus!

verus! {

// ---------------------------------------------------------------------------
// Worker start-up
// ---------------------------------------------------------------------------

/// The delay between the starts of two consecutive workers (ms): the ramp-up
/// period spread evenly over the workers (at least one).
pub open spec fn ramp_up_delay(ramp_up: Option<u64>, clients: u32) -> Option<u64> {
    match ramp_up {
        Some(secs) => Some(((secs * 1000) / (if clients == 0 {
            1
        } else {
            clients as int
        })) as u64),
        None => None,
    }
}

/// The delay (ms) between the starts of consecutive workers, when a ramp-up
/// period is set.
pub fn ramp_up_delay_ms(ramp_up: Option<u64>, clients: u32) -> (d: Option<u64>)
    requires
        ramp_up matches Some(secs) ==> secs * 1000 <= u64::MAX,
    ensures
        d == ramp_up_delay(ramp_up, clients),
{
    match ramp_up {
        Some(secs) => {
            let total_ms = secs * 1000;
            let clients: u64 = if clients == 0 {
                1
            } else {
                clients as u64
            };
            Some(total_ms / clients)
        },
        None => None,
    }
}

/// All workers have started by the end of the ramp-up period: the last of
/// `clients` workers starts `clients - 1` delays after the first.
pub proof fn law_ramp_up_fits_period(secs: u64, clients: u32)
    requires
        secs * 1000 <= u64::MAX,
        clients > 0,
    ensures
        ramp_up_delay(Some(secs), clients) matches Some(d) && (clients - 1) * d <= secs * 1000,
{
    let t = (secs * 1000) as int;
    let c = clients as int;
    let d = t / c;
    assert((c - 1) * d <= t) by (nonlinear_arith)
        requires
            c > 0,
            t >= 0,
            d == t / c,
    {
        assert(c * d <= t) by {
            vstd::arithmetic::div_mod::lemma_fundamental_div_mod(t, c);
        }
        assert((c - 1) * d <= c * d);
    }
}

/// The idle timeout of pooled connections (s): the configured value, 90 by
/// default.
pub fn pool_idle_secs(pool_idle_timeout: Option<u64>) -> (s: u64)
    ensures
        s == match pool_idle_timeout {
            Some(t) => t,
            None => 90,
        },
{
    match pool_idle_timeout {
        Some(t) => t,
        None => 90,
    }
}

} // verus!

verus! {

// ---------------------------------------------------------------------------
// Planning a run
// ---------------------------------------------------------------------------

/// A step ready to be sent: its operation, its URL text (template variables
/// are filled in for each request, before the URL is parsed), its body and
/// its own headers.
#[derive(Debug)]
pub struct ResolvedStep {
    pub operation: Operation,
    pub url: String,
    pub body: Option<String>,
    pub extra_headers: HeaderMap,
}

/// Why a run cannot start.
#[derive(Debug)]
pub enum RunError {
    Headers { cause: HeaderError },
    InvalidUrl { url: String },
    InvalidStepUrl { url: String },
    InvalidStepHeaders { target: String, cause: HeaderError },
}

/// `RunError` with its text as character sequences.
pub enum RunProblem {
    Headers { cause: HeaderProblem },
    InvalidUrl { url: Seq<char> },
    InvalidStepUrl { url: Seq<char> },
    InvalidStepHeaders { target: Seq<char>, cause: HeaderProblem },
}

impl View for RunError {
    type V = RunProblem;

    open spec fn view(&self) -> RunProblem {
        match self {
            RunError::Headers { cause } => RunProblem::Headers { cause: cause@ },
            RunError::InvalidUrl { url } => RunProblem::InvalidUrl { url: url@ },
            RunError::InvalidStepUrl { url } => RunProblem::InvalidStepUrl { url: url@ },
            RunError::InvalidStepHeaders { target, cause } => RunProblem::InvalidStepHeaders {
                target: target@,
                cause: cause@,
            },
        }
    }
}

/// The serialized form of a URL, when it parses.
pub open spec fn serialized_url(url: Seq<char>) -> Option<Seq<char>> {
    match url_parse_outcome(url) {
        Ok((text, _)) => Some(text),
        Err(_) => None,
    }
}

/// The first step from index `i` on that cannot be resolved, and why: its
/// URL does not parse, or one of its headers is refused.
pub open spec fn step_problem(steps: Seq<Step>, i: int) -> Option<RunProblem>
    decreases steps.len() - i,
{
    if i < 0 || i >= steps.len() {
        None
    } else if serialized_url(target_url_of(steps[i].target@)) is None {
        Some(RunProblem::InvalidStepUrl { url: target_url_of(steps[i].target@) })
    } else {
        match list_problem(listed(steps[i].headers), 0) {
            Some(p) => Some(RunProblem::InvalidStepHeaders { target: steps[i].target@, cause: p }),
            None => step_problem(steps, i + 1),
        }
    }
}

/// A resolved step carries what its configured step says.
pub open spec fn resolves(r: ResolvedStep, s: Step) -> bool {
    &&& r.operation == target_operation(s.target@)
    &&& serialized_url(target_url_of(s.target@)) is Some
    &&& r.url@ == target_url_of(s.target@)
    &&& r.body == s.body
    &&& header_map_entries(r.extra_headers) == insert_all(seq![], list_pairs(listed(s.headers)))
}

/// The steps a run can resolve: targets that are not blank, with fewer
/// headers each than a header map takes.
pub open spec fn steps_resolvable(steps: Seq<Step>) -> bool {
    forall|i: int|
        0 <= i < steps.len() ==> !is_blank(#[trigger] steps[i].target@) && listed(
            steps[i].headers,
        ).len() < MAP_ENTRY_LIMIT
}

/// Resolves the steps of a scenario, in order, stopping at the first step
/// whose URL does not parse or whose headers are refused.
pub fn resolve_steps(steps: &Vec<Step>) -> (r: Result<Vec<ResolvedStep>, RunError>)
    requires
        steps_resolvable(steps@),
    ensures
        match r {
            Ok(v) => step_problem(steps@, 0) is None && v.len() == steps.len() && forall|i: int|
                0 <= i < steps.len() ==> resolves(#[trigger] v@[i], steps@[i]),
            Err(e) => step_problem(steps@, 0) == Some(e@),
        },
{
    let mut resolved: Vec<ResolvedStep> = Vec::new();
    let mut i: usize = 0;
    while i < steps.len()
        invariant
            i <= steps.len(),
            steps_resolvable(steps@),
            step_problem(steps@, 0) == step_problem(steps@, i as int),
            resolved.len() == i,
            forall|j: int| 0 <= j < i ==> resolves(#[trigger] resolved@[j], steps@[j]),
        decreases steps.len() - i,
    {
        let step = &steps[i];
        assert(!is_blank(steps@[i as int].target@));
        let url = step.url();
        match url_parse(url.as_str()) {
            Ok(_) => {},
            Err(_) => {
                return Err(RunError::InvalidStepUrl { url });
            },
        }
        let extra_headers = match build_step_headers(step) {
            Ok(m) => m,
            Err(cause) => {
                return Err(RunError::InvalidStepHeaders { target: step.target.clone(), cause });
            },
        };
        let r = ResolvedStep {
            operation: step.operation(),
            url,
            body: step.body.clone(),
            extra_headers,
        };
        resolved.push(r);
        i += 1;
    }
    Ok(resolved)
}

/// What a run sends when it has no scenario: the primary target, its body,
/// and no headers of its own.
pub open spec fn single_target(r: ResolvedStep, s: Settings) -> bool {
    &&& r.operation == target_operation(s.target@)
    &&& serialized_url(target_url_of(s.target@)) is Some
    &&& r.url@ == target_url_of(s.target@)
    &&& r.body == s.body
    &&& header_map_entries(r.extra_headers) == Seq::<(Seq<char>, Seq<Seq<u8>>)>::empty()
}

/// The first reason a run cannot start, if any: its headers, then its
/// target or the first step that cannot be resolved.
pub open spec fn run_problem(s: Settings) -> Option<RunProblem> {
    match global_problem(s) {
        Some(p) => Some(RunProblem::Headers { cause: p }),
        None => if s.steps.len() == 0 {
            if serialized_url(target_url_of(s.target@)) is None {
                Some(RunProblem::InvalidUrl { url: target_url_of(s.target@) })
            } else {
                None
            }
        } else {
            step_problem(s.steps@, 0)
        },
    }
}

/// What a run needs before its workers start.
pub open spec fn run_plan_ok(s: Settings) -> bool {
    &&& run_headers(s).len() + 1 < MAP_ENTRY_LIMIT
    &&& s.steps.len() == 0 ==> !is_blank(s.target@)
    &&& steps_resolvable(s.steps@)
}

/// Prepares a run: the headers every request carries, and the steps the
/// workers cycle through (the primary target alone when there is no
/// scenario).
pub fn plan_run(settings: &Settings) -> (r: Result<(HeaderMap, Vec<ResolvedStep>), RunError>)
    requires
        run_plan_ok(*settings),
    ensures
        match r {
            Ok((headers, steps)) => {
                &&& run_problem(*settings) is None
                &&& header_map_entries(headers) == insert_all(seq![], global_pairs(*settings))
                &&& if settings.steps.len() == 0 {
                    steps.len() == 1 && single_target(steps@[0], *settings)
                } else {
                    steps.len() == settings.steps.len() && forall|i: int|
                        0 <= i < steps.len() ==> resolves(#[trigger] steps@[i], settings.steps@[i])
                }
            },
            Err(e) => run_problem(*settings) == Some(e@),
        },
{
    let headers = match build_headers(settings) {
        Ok(m) => m,
        Err(cause) => {
            return Err(RunError::Headers { cause });
        },
    };
    if settings.steps.len() == 0 {
        let url = settings.target_url();
        match url_parse(url.as_str()) {
            Ok(_) => {},
            Err(_) => {
                return Err(RunError::InvalidUrl { url });
            },
        }
        let step = ResolvedStep {
            operation: settings.operation(),
            url,
            body: settings.body.clone(),
            extra_headers: new_header_map(),
        };
        let mut steps: Vec<ResolvedStep> = Vec::new();
        steps.push(step);
        Ok((headers, steps))
    } else {
        let steps = resolve_steps(&settings.steps)?;
        Ok((headers, steps))
    }
}

} // verus!

verus! {

/// The text a run that cannot start is reported with.
pub open spec fn run_problem_message(p: RunProblem) -> Seq<char> {
    match p {
        RunProblem::Headers { .. } => "Failed to build request headers"@,
        RunProblem::InvalidUrl { url } => "Invalid URL: "@ + url,
        RunProblem::InvalidStepUrl { url } => "Invalid URL in step: "@ + url,
        RunProblem::InvalidStepHeaders { target, .. } => "Invalid headers in step '"@ + target
            + "'"@,
    }
}

impl RunError {
    /// The text this error is reported with; a header problem's own text is
    /// its cause.
    pub fn message(&self) -> (m: String)
        ensures
            m@ == run_problem_message(self@),
    {
        let mut v: Vec<char> = Vec::new();
        match self {
            RunError::Headers { .. } => push_str(&mut v, "Failed to build request headers"),
            RunError::InvalidUrl { url } => {
                push_str(&mut v, "Invalid URL: ");
                push_str(&mut v, url.as_str());
            },
            RunError::InvalidStepUrl { url } => {
                push_str(&mut v, "Invalid URL in step: ");
                push_str(&mut v, url.as_str());
            },
            RunError::InvalidStepHeaders { target, .. } => {
                push_str(&mut v, "Invalid headers in step '");
                push_str(&mut v, target.as_str());
                push_str(&mut v, "'");
            },
        }
        string_of(&v)
    }
}

// ---------------------------------------------------------------------------
// One request
// ---------------------------------------------------------------------------

/// An optional string as an optional character sequence.
pub open spec fn opt_text(o: Option<String>) -> Option<Seq<char>> {
    match o {
        Some(s) => Some(s@),
        None => None,
    }
}

/// What a request carries once its URL and body are filled in: the
/// serialized URL and the body, or the status it is recorded with when the
/// filled-in URL does not parse.
pub open spec fn request_outcome(
    r: Option<Result<(String, Option<String>), String>>,
    url: Seq<char>,
    body: Option<Seq<char>>,
) -> bool {
    match url_parse_outcome(url) {
        Ok((text, _)) => r matches Some(Ok((u, b))) && u@ == text && opt_text(b) == body,
        Err(reason) => r matches Some(Err(status)) && status@ == "Invalid URL after substitution: "@
            + reason,
    }
}

/// How request `seq` of worker `client` is prepared from a step whose URL
/// is filled in at time `t_url` and whose body at time `t_body`: `None`
/// where the filling in cannot be carried out.
pub open spec fn prepared_as(
    r: Option<Result<(String, Option<String>), String>>,
    step: ResolvedStep,
    seq: u32,
    client: usize,
    t_url: u64,
    t_body: u64,
) -> bool {
    match substituted(step.url@, seq, client, t_url) {
        None => r is None,
        Some(url) => match step.body {
            None => request_outcome(r, url, None),
            Some(b) => match substituted(b@, seq, client, t_body) {
                None => r is None,
                Some(body) => request_outcome(r, url, Some(body)),
            },
        },
    }
}

/// Prepares request `seq` of worker `client` from a step, with the template
/// variables of the URL filled in at time `t_url` and those of the body at
/// `t_body`.
pub fn prepare_request_at(
    step: &ResolvedStep,
    seq: u32,
    client: usize,
    t_url: u64,
    t_body: u64,
) -> (r: Option<Result<(String, Option<String>), String>>)
    ensures
        prepared_as(r, *step, seq, client, t_url, t_body),
{
    let url = match substitute_variables_at(step.url.as_str(), seq, client, t_url) {
        Some(u) => u,
        None => {
            return None;
        },
    };
    let body = match &step.body {
        None => None,
        Some(b) => match substitute_variables_at(b.as_str(), seq, client, t_body) {
            Some(t) => Some(t),
            None => {
                return None;
            },
        },
    };
    match url_parse(url.as_str()) {
        Ok((text, _)) => Some(Ok((text, body))),
        Err(reason) => {
            let mut v: Vec<char> = Vec::new();
            push_str(&mut v, "Invalid URL after substitution: ");
            push_str(&mut v, reason.as_str());
            Some(Err(string_of(&v)))
        },
    }
}

/// Prepares request `seq` of worker `client` from a step, reading the clock
/// for the URL and again for the body.
pub fn prepare_request(step: &ResolvedStep, seq: u32, client: usize) -> (r: Option<
    Result<(String, Option<String>), String>,
>)
    ensures
        exists|t_url: u64, t_body: u64| prepared_as(r, *step, seq, client, t_url, t_body),
{
    let t_url = now_ms();
    let t_body = now_ms();
    prepare_request_at(step, seq, client, t_url, t_body)
}

/// The reason phrase `StatusCode`'s `Display` writes after a code: the
/// code's canonical reason, or `<unknown status code>`.
pub uninterp spec fn status_reason(code: u16) -> Seq<char>;

/// The text a status code is shown with: the code, a space, its reason.
pub open spec fn status_line(code: u16) -> Seq<char> {
    dec(code as nat) + " "@ + status_reason(code)
}

/// `StatusCode::from_u16` shown with `Display`: a code from 100 to 999 as
/// its status line, `None` for any other number.
#[verifier::external_body]
fn status_code_text(code: u16) -> (r: Option<String>)
    ensures
        r is Some <==> 100 <= code <= 999,
        r matches Some(t) ==> t@ == dec(code as nat) + " "@ + status_reason(code),
{
    match reqwest::StatusCode::from_u16(code) {
        Ok(s) => Some(s.to_string()),
        Err(_) => None,
    }
}

/// How a request ended: with a response and its status code, or with an
/// error that may carry a status code.
#[derive(Clone, Copy, PartialEq, Eq, Debug)]
pub enum RequestOutcome {
    Response { code: u16 },
    Failure { code: Option<u16> },
}

/// A status code as the `http` crate holds one.
pub open spec fn valid_code(code: u16) -> bool {
    100 <= code <= 999
}

/// The codes of an outcome are ones the `http` crate holds.
pub open spec fn outcome_codes_valid(o: RequestOutcome) -> bool {
    match o {
        RequestOutcome::Response { code } => valid_code(code),
        RequestOutcome::Failure { code: Some(c) } => valid_code(c),
        RequestOutcome::Failure { code: None } => true,
    }
}

/// The status a request is recorded with.
pub open spec fn outcome_status(o: RequestOutcome) -> Seq<char> {
    match o {
        RequestOutcome::Response { code } => status_line(code),
        RequestOutcome::Failure { code: Some(c) } => status_line(c),
        RequestOutcome::Failure { code: None } => "Failed to connect"@,
    }
}

/// The status a request is recorded with: its status line, or
/// `Failed to connect` for an error without a status.
pub fn response_status(o: &RequestOutcome) -> (s: String)
    requires
        outcome_codes_valid(*o),
    ensures
        s@ == outcome_status(*o),
{
    match o {
        RequestOutcome::Response { code } | RequestOutcome::Failure { code: Some(code) } => {
            match status_code_text(*code) {
                Some(t) => t,
                None => String::new(),
            }
        },
        RequestOutcome::Failure { code: None } => {
            let v = chars_of("Failed to connect");
            string_of(&v)
        },
    }
}

/// The class a status code falls in, by its first digit.
pub open spec fn code_class(code: u16) -> StatusClass {
    let d = code / 100;
    if d == 2 {
        StatusClass::Success
    } else if d == 4 {
        StatusClass::ClientError
    } else if d == 5 {
        StatusClass::ServerError
    } else {
        StatusClass::Other
    }
}

/// A result recorded from a status code is counted under that code's class.
pub proof fn law_status_line_class(code: u16)
    requires
        valid_code(code),
    ensures
        status_class(status_line(code)) == code_class(code),
{
    reveal_with_fuel(dec, 3);
    let n = code as nat;
    assert(n / 10 >= 10);
    assert(n / 10 / 10 == n / 100);
    assert(dec(n)[0] == digit_char(n / 100));
    assert(status_line(code)[0] == dec(n)[0]);
}

} // verus!

verus! {

// ---------------------------------------------------------------------------
// Worker schedule
// ---------------------------------------------------------------------------

/// How long a worker runs: a fixed number of requests, or a number of
/// seconds.
#[derive(Clone, Copy, PartialEq, Eq, Debug)]
pub enum WorkerMode {
    Iterations { total: u32 },
    Timed { secs: u64 },
}

/// What a worker does next: send a request for a step with its execution
/// number, or finish.
#[derive(Clone, Copy, PartialEq, Eq, Debug)]
pub enum WorkerAction {
    Send { step: usize, execution: u32 },
    Finish,
}

/// One worker's progress through the steps of a run.
#[derive(Clone, Copy, PartialEq, Eq, Debug)]
pub struct Worker {
    pub mode: WorkerMode,
    pub steps: usize,
    pub execution: u32,
    pub next_step: usize,
    pub stopped: bool,
}

/// A worker's state and what it does, `elapsed_secs` after it started.
pub open spec fn worker_next(w: Worker, elapsed_secs: u64) -> (Worker, WorkerAction) {
    let send = !w.stopped && match w.mode {
        WorkerMode::Iterations { total } => w.execution < total,
        WorkerMode::Timed { secs } => elapsed_secs < secs,
    };
    if send {
        let after = Worker {
            execution: if w.execution == u32::MAX {
                0
            } else {
                (w.execution + 1) as u32
            },
            next_step: if w.next_step + 1 == w.steps {
                0
            } else {
                (w.next_step + 1) as usize
            },
            ..w
        };
        (after, WorkerAction::Send { step: w.next_step, execution: w.execution })
    } else {
        (w, WorkerAction::Finish)
    }
}

/// The mode of worker `id` of a run: timed when the run has a duration,
/// otherwise its share of the requests, the remainder going one each to the
/// first workers.
pub open spec fn mode_of(s: Settings, id: nat) -> WorkerMode {
    match s.duration {
        Some(secs) => WorkerMode::Timed { secs },
        None => WorkerMode::Iterations { total: client_share(s.clients, s.requests, id) as u32 },
    }
}

impl Worker {
    /// A worker that cycles through `steps` steps is well formed: it has a
    /// step to send and, counting requests, it has sent its execution number
    /// of them.
    pub open spec fn wf(&self) -> bool {
        &&& 0 < self.steps
        &&& self.next_step < self.steps
        &&& self.mode is Iterations ==> self.next_step == self.execution as nat % self.steps as nat
    }

    /// A worker of a run that has not sent anything yet.
    pub fn new(settings: &Settings, steps: usize, id: usize) -> (w: Worker)
        requires
            steps > 0,
        ensures
            w.wf(),
            w == (Worker {
                mode: mode_of(*settings, id as nat),
                steps,
                execution: 0,
                next_step: 0,
                stopped: false,
            }),
    {
        let mode = match settings.duration {
            Some(secs) => WorkerMode::Timed { secs },
            None => WorkerMode::Iterations { total: settings.requests_for_client(id) },
        };
        proof {
            vstd::arithmetic::div_mod::lemma_small_mod(0, steps as nat);
        }
        Worker { mode, steps, execution: 0, next_step: 0, stopped: false }
    }

    /// Decides what the worker does `elapsed_secs` after it started: send
    /// the next step, cycling through the steps in order, or finish once it
    /// was stopped, has sent its share, or its time is up.
    pub fn next(&mut self, elapsed_secs: u64) -> (a: WorkerAction)
        requires
            old(self).wf(),
        ensures
            final(self).wf(),
            (*final(self), a) == worker_next(*old(self), elapsed_secs),
    {
        let send = !self.stopped && match self.mode {
            WorkerMode::Iterations { total } => self.execution < total,
            WorkerMode::Timed { secs } => elapsed_secs < secs,
        };
        if !send {
            return WorkerAction::Finish;
        }
        let action = WorkerAction::Send { step: self.next_step, execution: self.execution };
        proof {
            if self.mode is Iterations {
                let n = self.steps as nat;
                let e = self.execution as nat;
                    lemma_mod_succ(e, n);
            }
        }
        self.execution = if self.execution == u32::MAX {
            0
        } else {
            self.execution + 1
        };
        self.next_step = if self.next_step + 1 == self.steps {
            0
        } else {
            self.next_step + 1
        };
        action
    }

    /// Tells the worker to stop: it sends nothing more.
    pub fn stop(&mut self)
        ensures
            *final(self) == (Worker { stopped: true, ..*old(self) }),
    {
        self.stopped = true;
    }
}

proof fn lemma_mod_succ(e: nat, n: nat)
    requires
        n > 0,
    ensures
        (e + 1) % n == if e % n + 1 == n { 0 } else { e % n + 1 },
{
    vstd::arithmetic::div_mod::lemma_add_mod_noop(e as int, 1, n as int);
    vstd::arithmetic::div_mod::lemma_mod_bound(e as int, n as int);
    if n == 1 {
        vstd::arithmetic::div_mod::lemma_mod_self_0(1);
        vstd::arithmetic::div_mod::lemma_mod_bound((e + 1) as int, 1);
    } else {
        vstd::arithmetic::div_mod::lemma_small_mod(1, n);
        if e % n + 1 == n {
            vstd::arithmetic::div_mod::lemma_mod_self_0(n as int);
        } else {
            vstd::arithmetic::div_mod::lemma_small_mod((e % n + 1) as nat, n);
        }
    }
}

/// A worker after `k` decisions, each taken before its time is up.
pub open spec fn worker_after(w: Worker, k: nat) -> Worker
    decreases k,
{
    if k == 0 {
        w
    } else {
        worker_next(worker_after(w, (k - 1) as nat), 0).0
    }
}

/// A worker counting requests sends exactly its share, cycling through the
/// steps in order: its `k`-th decision sends step `k % steps` with
/// execution number `k` while `k` is below its share, and finishes after.
pub proof fn law_worker_sends_its_share(total: u32, steps: usize, k: nat)
    requires
        steps > 0,
    ensures
        ({
            let w0 = Worker {
                mode: WorkerMode::Iterations { total },
                steps,
                execution: 0,
                next_step: 0,
                stopped: false,
            };
            &&& worker_after(w0, k).execution == if k <= total { k } else { total as nat }
            &&& worker_next(worker_after(w0, k), 0).1 == if k < total {
                WorkerAction::Send { step: (k % steps as nat) as usize, execution: k as u32 }
            } else {
                WorkerAction::Finish
            }
        }),
    decreases k,
{
    let w0 = Worker {
        mode: WorkerMode::Iterations { total },
        steps,
        execution: 0,
        next_step: 0,
        stopped: false,
    };
    if k > 0 {
        law_worker_sends_its_share(total, steps, (k - 1) as nat);
    }
    lemma_worker_after_cycles(w0, k);
}

proof fn lemma_worker_after_cycles(w0: Worker, k: nat)
    requires
        w0.wf(),
        w0.mode is Iterations,
        w0.execution == 0,
        !w0.stopped,
    ensures
        worker_after(w0, k).wf(),
        worker_after(w0, k).mode == w0.mode,
        worker_after(w0, k).steps == w0.steps,
        !worker_after(w0, k).stopped,
    decreases k,
{
    if k > 0 {
        lemma_worker_after_cycles(w0, (k - 1) as nat);
        let w = worker_after(w0, (k - 1) as nat);
        if worker_next(w, 0).1 is Send {
            let n = w.steps as nat;
            let e = w.execution as nat;
            lemma_mod_succ(e, n);
        }
    }
}

} // verus!

verus! {

/// The capacity of the channel that carries results from the workers: two
/// slots per worker, at most 4096.
pub fn channel_capacity(clients: u32) -> (c: usize)
    ensures
        c == if 2 * clients < 4096 { 2 * clients } else { 4096 },
{
    let doubled: u64 = clients as u64 * 2;
    if doubled < 4096 {
        doubled as usize
    } else {
        4096
    }
}

} // verus!

verus! {

/// A timed worker, asked before its time is up, repeats the steps in order:
/// its `k`-th decision sends step `k % steps` with execution number `k`
/// modulo 2^32.
pub proof fn law_timed_worker_cycles_steps(secs: u64, steps: usize, k: nat)
    requires
        steps > 0,
        secs > 0,
    ensures
        ({
            let w0 = Worker {
                mode: WorkerMode::Timed { secs },
                steps,
                execution: 0,
                next_step: 0,
                stopped: false,
            };
            &&& worker_after(w0, k).next_step == k % (steps as nat)
            &&& worker_after(w0, k).execution == k % 0x1_0000_0000
            &&& worker_next(worker_after(w0, k), 0).1 == WorkerAction::Send {
                step: (k % steps as nat) as usize,
                execution: (k % 0x1_0000_0000) as u32,
            }
        }),
    decreases k,
{
    let w0 = Worker {
        mode: WorkerMode::Timed { secs },
        steps,
        execution: 0,
        next_step: 0,
        stopped: false,
    };
    if k == 0 {
        vstd::arithmetic::div_mod::lemma_small_mod(0, steps as nat);
        vstd::arithmetic::div_mod::lemma_small_mod(0, 0x1_0000_0000);
    } else {
        law_timed_worker_cycles_steps(secs, steps, (k - 1) as nat);
        let w = worker_after(w0, (k - 1) as nat);
        lemma_timed_worker_after(w0, (k - 1) as nat);
        lemma_mod_succ((k - 1) as nat, steps as nat);
        lemma_mod_succ((k - 1) as nat, 0x1_0000_0000);
        assert(w.execution == u32::MAX <==> (k - 1) % 0x1_0000_0000 + 1 == 0x1_0000_0000);
    }
}

proof fn lemma_timed_worker_after(w0: Worker, k: nat)
    requires
        w0.mode is Timed,
        !w0.stopped,
    ensures
        worker_after(w0, k).mode == w0.mode,
        worker_after(w0, k).steps == w0.steps,
        !worker_after(w0, k).stopped,
    decreases k,
{
    if k > 0 {
        lemma_timed_worker_after(w0, (k - 1) as nat);
    }
}

} // verus!

verus! {

/// How the HTTP client of a run is set up.
#[derive(Clone, Copy, PartialEq, Eq, Debug)]
pub struct ClientConfig {
    pub timeout: Duration,
    pub accept_invalid_certs: bool,
    pub max_idle_per_host: u32,
    pub tcp_keepalive: Option<Duration>,
    pub pool_idle_secs: u64,
    pub http2_prior_knowledge: bool,
}

/// The client setup of a run: its timeout and TLS choice, one idle
/// connection per worker kept per host, and either no keep-alive and no idle
/// pooling, or the configured keep-alive with the pool idle timeout (90 s by
/// default).
pub open spec fn client_config_of(s: Settings) -> ClientConfig {
    ClientConfig {
        timeout: s.timeout,
        accept_invalid_certs: s.insecure,
        max_idle_per_host: s.clients,
        tcp_keepalive: if s.disable_keepalive {
            None
        } else {
            s.keep_alive
        },
        pool_idle_secs: if s.disable_keepalive {
            0
        } else {
            match s.pool_idle_timeout {
                Some(t) => t,
                None => 90,
            }
        },
        http2_prior_knowledge: s.http2,
    }
}

/// The client setup of a run.
pub fn client_config(settings: &Settings) -> (c: ClientConfig)
    ensures
        c == client_config_of(*settings),
{
    let keepalive = if settings.disable_keepalive {
        None
    } else {
        settings.keep_alive
    };
    let idle = if settings.disable_keepalive {
        0
    } else {
        pool_idle_secs(settings.pool_idle_timeout)
    };
    ClientConfig {
        timeout: settings.timeout,
        accept_invalid_certs: settings.insecure,
        max_idle_per_host: settings.clients,
        tcp_keepalive: keepalive,
        pool_idle_secs: idle,
        http2_prior_knowledge: settings.http2,
    }
}

} // verus!

verus! {

/// How often live statistics are printed, in seconds: never when not asked
/// for or when asked for every 0 seconds (0 disables them).
pub fn live_stats_interval(live_stats: Option<u64>) -> (r: Option<u64>)
    ensures
        r == match live_stats {
            Some(0) => None,
            other => other,
        },
{
    match live_stats {
        Some(0) => None,
        other => other,
    }
}

} // verus!

verus! {

/// A worker that was not stopped: a timed one sends exactly while fewer
/// seconds than its duration have passed, whatever the time asked at; one
/// counting requests sends exactly while it has sent fewer than its share.
/// A send is for the worker's next step and carries its execution number.
pub proof fn law_worker_sends_while_time_or_share_remains(w: Worker, elapsed_secs: u64)
    requires
        !w.stopped,
    ensures
        (worker_next(w, elapsed_secs).1 is Send) <==> match w.mode {
            WorkerMode::Timed { secs } => elapsed_secs < secs,
            WorkerMode::Iterations { total } => w.execution < total,
        },
        worker_next(w, elapsed_secs).1 is Send ==> worker_next(w, elapsed_secs).1
            == (WorkerAction::Send { step: w.next_step, execution: w.execution }),
        worker_next(w, elapsed_secs).1 is Finish ==> worker_next(w, elapsed_secs).0 == w,
{
}

/// A stopped worker sends nothing more, at any time.
pub proof fn law_stopped_worker_finishes(w: Worker, elapsed_secs: u64)
    requires
        w.stopped,
    ensures
        worker_next(w, elapsed_secs) == (w, WorkerAction::Finish),
{
}

} // verus!

verus! {

// ---------------------------------------------------------------------------
// Expansion is compositional
// ---------------------------------------------------------------------------

proof fn lemma_occurs_prefix(a: Seq<char>, b: Seq<char>, pat: Seq<char>, k: int)
    requires
        0 <= k,
        k + pat.len() <= a.len(),
    ensures
        occurs_at(a + b, pat, k) == occurs_at(a, pat, k),
{
    assert((a + b).subrange(k, k + pat.len()) =~= a.subrange(k, k + pat.len()));
}

proof fn lemma_find_prefix(a: Seq<char>, b: Seq<char>, pat: Seq<char>, k: int, e: int)
    requires
        0 <= k <= e,
        e + pat.len() <= a.len(),
        find_from(a, pat, k) == Some(e) || find_from(a + b, pat, k) == Some(e),
    ensures
        find_from(a, pat, k) == Some(e),
        find_from(a + b, pat, k) == Some(e),
    decreases e - k,
{
    lemma_occurs_prefix(a, b, pat, k);
    if !occurs_at(a, pat, k) {
        if k == e {
            if find_from(a, pat, k + 1) is Some {
                lemma_find_from_some(a, pat, k + 1);
            }
            if find_from(a + b, pat, k + 1) is Some {
                lemma_find_from_some(a + b, pat, k + 1);
            }
        } else {
            lemma_find_prefix(a, b, pat, k + 1, e);
        }
    }
}

proof fn lemma_template_prefix(a: Seq<char>, b: Seq<char>, i: int)
    requires
        0 <= i < a.len(),
        random_template_at(a, i) is Some || (random_template_at(a + b, i) matches Some(t) && t.2
            <= a.len()),
    ensures
        random_template_at(a, i) == random_template_at(a + b, i),
{
    reveal_strlit("{{random_int(");
    reveal_strlit(")}}");
    let open = "{{random_int("@;
    let close = ")}}"@;
    if random_template_at(a, i) is Some {
        let e = find_from(a, close, i)->0;
        lemma_find_from_some(a, close, i);
        lemma_occurs_prefix(a, b, open, i);
        lemma_find_prefix(a, b, close, i, e);
        assert((a + b).subrange(i + 13, e) =~= a.subrange(i + 13, e));
    } else {
        let e = find_from(a + b, close, i)->0;
        lemma_find_from_some(a + b, close, i);
        lemma_occurs_prefix(a, b, open, i);
        lemma_find_prefix(a, b, close, i, e);
        assert((a + b).subrange(i + 13, e) =~= a.subrange(i + 13, e));
    }
}

proof fn lemma_find_shift(p: Seq<char>, b: Seq<char>, pat: Seq<char>, j: int)
    requires
        0 <= j,
    ensures
        find_from(p + b, pat, p.len() + j) == match find_from(b, pat, j) {
            Some(e) => Some(e + p.len()),
            None => None::<int>,
        },
    decreases b.len() + 1 - j,
{
    if j + pat.len() <= b.len() {
        assert((p + b).subrange(p.len() + j, p.len() + j + pat.len()) =~= b.subrange(
            j,
            j + pat.len(),
        ));
        lemma_find_shift(p, b, pat, j + 1);
        assert(p.len() + (j + 1) == p.len() + j + 1);
    }
}

proof fn lemma_template_shift(p: Seq<char>, b: Seq<char>, j: int)
    requires
        0 <= j,
    ensures
        random_template_at(p + b, p.len() + j) == match random_template_at(b, j) {
            Some((lo, hi, n)) => Some((lo, hi, n + p.len())),
            None => None::<(i64, i64, int)>,
        },
{
    reveal_strlit("{{random_int(");
    reveal_strlit(")}}");
    let open = "{{random_int("@;
    let close = ")}}"@;
    let k = p.len() + j;
    if j + 13 <= b.len() {
        assert((p + b).subrange(k, k + 13) =~= b.subrange(j, j + 13));
    }
    lemma_find_shift(p, b, close, j);
    match find_from(b, close, j) {
        Some(e) => {
            lemma_find_from_some(b, close, j);
            if e >= j + 13 {
                assert((p + b).subrange(k + 13, e + p.len()) =~= b.subrange(j + 13, e));
            }
        },
        None => {},
    }
}

proof fn lemma_expand_shift(p: Seq<char>, b: Seq<char>, j: int, seed: u64)
    requires
        0 <= j,
    ensures
        expand_random(p + b, p.len() + j, seed) == expand_random(b, j, seed),
    decreases b.len() - j,
{
    if j < b.len() {
        lemma_template_shift(p, b, j);
        match random_template_at(b, j) {
            Some((lo, hi, next)) => {
                if j < next <= b.len() {
                    lemma_expand_shift(p, b, next, seed);
                    assert(p.len() + next == next + p.len());
                }
            },
            None => {
                assert((p + b)[p.len() + j] == b[j]);
                lemma_expand_shift(p, b, j + 1, seed);
                assert(p.len() + (j + 1) == p.len() + j + 1);
            },
        }
    }
}

/// Two optional texts one after the other; `None` when either is.
pub open spec fn opt_concat(x: Option<Seq<char>>, y: Option<Seq<char>>) -> Option<Seq<char>> {
    match (x, y) {
        (Some(u), Some(v)) => Some(u + v),
        _ => None,
    }
}

/// No template of `a + b` that starts inside `a` runs past its end.
pub open spec fn cut_between_templates(a: Seq<char>, b: Seq<char>) -> bool {
    forall|i: int|
        0 <= i < a.len() ==> (#[trigger] random_template_at(a + b, i) matches Some(t) ==> t.2
            <= a.len())
}

proof fn lemma_expand_concat_from(a: Seq<char>, b: Seq<char>, i: int, seed: u64)
    requires
        0 <= i <= a.len(),
        cut_between_templates(a, b),
    ensures
        expand_random(a + b, i, seed) == opt_concat(
            expand_random(a, i, seed),
            expand_random(b, 0, seed),
        ),
    decreases a.len() - i,
{
    if i == a.len() {
        lemma_expand_shift(a, b, 0, seed);
        assert(a.len() + 0 == a.len());
        match expand_random(b, 0, seed) {
            Some(v) => {
                assert(Seq::<char>::empty() + v =~= v);
            },
            None => {},
        }
    } else {
        if random_template_at(a, i) is Some || random_template_at(a + b, i) is Some {
            assert(random_template_at(a + b, i) matches Some(t) ==> t.2 <= a.len());
            lemma_template_prefix(a, b, i);
        }
        match random_template_at(a, i) {
            Some((lo, hi, next)) => {
                if i < next <= a.len() {
                    lemma_expand_concat_from(a, b, next, seed);
                    match (random_value(lo, hi, seed), expand_random(a, next, seed), expand_random(
                        b,
                        0,
                        seed,
                    )) {
                        (Some(v), Some(x), Some(y)) => {
                            assert(dec_int(v as int) + (x + y) =~= (dec_int(v as int) + x) + y);
                        },
                        _ => {},
                    }
                }
            },
            None => {
                assert((a + b)[i] == a[i]);
                lemma_expand_concat_from(a, b, i + 1, seed);
                match (expand_random(a, i + 1, seed), expand_random(b, 0, seed)) {
                    (Some(x), Some(y)) => {
                        assert(seq![a[i]] + (x + y) =~= (seq![a[i]] + x) + y);
                    },
                    _ => {},
                }
            },
        }
    }
}

/// Expansion is compositional: cutting a text anywhere that is not inside a
/// `{{random_int(..)}}` template, expanding the whole gives the expansion of
/// the first part followed by that of the second. So every template is
/// expanded, wherever it stands, not only the first one.
pub proof fn law_expand_concat(a: Seq<char>, b: Seq<char>, seed: u64)
    requires
        cut_between_templates(a, b),
    ensures
        expand_random(a + b, 0, seed) == opt_concat(
            expand_random(a, 0, seed),
            expand_random(b, 0, seed),
        ),
{
    lemma_expand_concat_from(a, b, 0, seed);
}

} // verus!
