//! Request headers: the names and values a request carries, checked and
//! collected in an `http` header map.

use std::str::FromStr;

use reqwest::header::{HeaderMap, HeaderName, HeaderValue, AUTHORIZATION};
use vstd::prelude::*;
use vstd::utf8::encode_utf8;

use crate::settings::{auth_header, Header, Settings, Step};
use crate::text::{ascii_lower_char, push_str, string_of};

verus! {

// ---------------------------------------------------------------------------
// The outside types
// ---------------------------------------------------------------------------

#[verifier::external_type_specification]
#[verifier::external_body]
pub struct ExHeaderName(HeaderName);

#[verifier::external_type_specification]
#[verifier::external_body]
pub struct ExHeaderValue(HeaderValue);

#[verifier::external_type_specification]
#[verifier::external_body]
#[verifier::reject_recursive_types(T)]
pub struct ExHeaderMap<T>(HeaderMap<T>);

/// The text of a header name, as `HeaderName::as_str` gives it.
pub uninterp spec fn header_name_text(n: HeaderName) -> Seq<char>;

/// The bytes of a header value, as `HeaderValue::as_bytes` gives them.
pub uninterp spec fn header_value_bytes(v: HeaderValue) -> Seq<u8>;

/// What a header map holds: its entries in the order the map keeps them,
/// each a name with its values in order.
pub uninterp spec fn header_map_entries(m: HeaderMap) -> Seq<(Seq<char>, Seq<Seq<u8>>)>;

// ---------------------------------------------------------------------------
// What the `http` crate accepts
// ---------------------------------------------------------------------------

/// A character allowed in a header name (an RFC 9110 token character).
pub open spec fn is_token_char(c: char) -> bool {
    ||| 'a' <= c <= 'z'
    ||| 'A' <= c <= 'Z'
    ||| '0' <= c <= '9'
    ||| c == '!' || c == '#' || c == '$' || c == '%' || c == '&' || c == '\''
    ||| c == '*' || c == '+' || c == '-' || c == '.' || c == '^' || c == '_'
    ||| c == '`' || c == '|' || c == '~'
}

/// The longest header name the `http` crate takes, in bytes.
pub const MAX_HEADER_NAME_LEN: usize = 65535;

/// A string `HeaderName::from_str` accepts: one to 65535 token characters.
pub open spec fn valid_header_name(s: Seq<char>) -> bool {
    &&& 0 < s.len() <= MAX_HEADER_NAME_LEN
    &&& forall|i: int| 0 <= i < s.len() ==> is_token_char(#[trigger] s[i])
}

/// A header name with its ASCII capitals lowered, as the map keeps it.
pub open spec fn lowered(s: Seq<char>) -> Seq<char> {
    s.map_values(|c: char| ascii_lower_char(c))
}

/// A byte allowed in a header value: visible ASCII, space, tab, or any byte
/// from 128 up.
pub open spec fn is_value_byte(b: u8) -> bool {
    (b >= 32 && b != 127) || b == 9
}

/// Bytes `HeaderValue::from_str` accepts.
pub open spec fn valid_header_value(b: Seq<u8>) -> bool {
    forall|i: int| 0 <= i < b.len() ==> is_value_byte(#[trigger] b[i])
}

// ---------------------------------------------------------------------------
// Entries of a header map
// ---------------------------------------------------------------------------

/// The position of the first entry from `i` on named `n`.
pub open spec fn find_name(es: Seq<(Seq<char>, Seq<Seq<u8>>)>, n: Seq<char>, i: int) -> Option<int>
    decreases es.len() - i,
{
    if i < 0 || i >= es.len() {
        None
    } else if es[i].0 == n {
        Some(i)
    } else {
        find_name(es, n, i + 1)
    }
}

/// The values stored under a name, if it is present.
pub open spec fn entry_values(es: Seq<(Seq<char>, Seq<Seq<u8>>)>, n: Seq<char>) -> Option<Seq<Seq<u8>>> {
    match find_name(es, n, 0) {
        Some(i) => Some(es[i].1),
        None => None,
    }
}

/// `HeaderMap::insert`: the name's entry keeps its place and holds the new
/// value alone; a new name is added at the end.
pub open spec fn entries_insert(
    es: Seq<(Seq<char>, Seq<Seq<u8>>)>,
    n: Seq<char>,
    v: Seq<u8>,
) -> Seq<(Seq<char>, Seq<Seq<u8>>)> {
    match find_name(es, n, 0) {
        Some(i) => es.update(i, (n, seq![v])),
        None => es.push((n, seq![v])),
    }
}

/// Every name and value of the entries, in order, as a map's iterator yields
/// them.
pub open spec fn flat_entries(es: Seq<(Seq<char>, Seq<Seq<u8>>)>) -> Seq<(Seq<char>, Seq<u8>)>
    decreases es.len(),
{
    if es.len() == 0 {
        seq![]
    } else {
        let last = es.last();
        flat_entries(es.drop_last()) + last.1.map_values(|b: Seq<u8>| (last.0, b))
    }
}

/// The entries after inserting each pair in turn.
pub open spec fn insert_all(
    es: Seq<(Seq<char>, Seq<Seq<u8>>)>,
    pairs: Seq<(Seq<char>, Seq<u8>)>,
) -> Seq<(Seq<char>, Seq<Seq<u8>>)>
    decreases pairs.len(),
{
    if pairs.len() == 0 {
        es
    } else {
        let last = pairs.last();
        entries_insert(insert_all(es, pairs.drop_last()), last.0, last.1)
    }
}

/// Names and values of header pairs, as text and bytes.
pub open spec fn pair_texts(v: Seq<(HeaderName, HeaderValue)>) -> Seq<(Seq<char>, Seq<u8>)> {
    v.map_values(|p: (HeaderName, HeaderValue)| (header_name_text(p.0), header_value_bytes(p.1)))
}

/// The most entries a map may hold before an insert: past this many, the
/// `http` crate's table can outgrow its limit and `HeaderMap::insert` panics.
pub const MAP_ENTRY_LIMIT: usize = 6000;

// ---------------------------------------------------------------------------
// Calls into the `http` crate
// ---------------------------------------------------------------------------

/// `HeaderName::from_str`: accepts one to 65535 token characters and keeps
/// them with capitals lowered.
#[verifier::external_body]
pub(crate) fn header_name_from(s: &str) -> (r: Option<HeaderName>)
    ensures
        r is Some <==> valid_header_name(s@),
        r matches Some(n) ==> header_name_text(n) == lowered(s@),
{
    HeaderName::from_str(s).ok()
}

/// `HeaderValue::from_str`: accepts a string whose bytes are all allowed in
/// a value and keeps those bytes.
#[verifier::external_body]
pub(crate) fn header_value_from(s: &str) -> (r: Option<HeaderValue>)
    ensures
        r is Some <==> valid_header_value(encode_utf8(s@)),
        r matches Some(v) ==> header_value_bytes(v) == encode_utf8(s@),
{
    HeaderValue::from_str(s).ok()
}

/// The `AUTHORIZATION` constant, named `authorization`.
#[verifier::external_body]
fn authorization() -> (n: HeaderName)
    ensures
        header_name_text(n) == "authorization"@,
{
    AUTHORIZATION
}

/// `HeaderMap::new`: a map with no entries.
#[verifier::external_body]
pub(crate) fn new_header_map() -> (m: HeaderMap)
    ensures
        header_map_entries(m) == Seq::<(Seq<char>, Seq<Seq<u8>>)>::empty(),
{
    HeaderMap::new()
}

/// `HeaderMap::insert`: replaces every value under the name by the new one,
/// or adds the name at the end.
#[verifier::external_body]
pub(crate) fn insert_header(m: &mut HeaderMap, name: HeaderName, value: HeaderValue)
    requires
        header_map_entries(*old(m)).len() < MAP_ENTRY_LIMIT,
    ensures
        header_map_entries(*final(m)) == entries_insert(
            header_map_entries(*old(m)),
            header_name_text(name),
            header_value_bytes(value),
        ),
{
    m.insert(name, value);
}

/// `HeaderMap::clone`: a map with the same entries.
#[verifier::external_body]
fn clone_header_map(m: &HeaderMap) -> (c: HeaderMap)
    ensures
        header_map_entries(c) == header_map_entries(*m),
{
    m.clone()
}

/// `HeaderMap::iter`: every name with each of its values, entry by entry.
#[verifier::external_body]
fn header_pairs(m: &HeaderMap) -> (v: Vec<(HeaderName, HeaderValue)>)
    ensures
        pair_texts(v@) == flat_entries(header_map_entries(*m)),
{
    m.iter().map(|(k, v)| (k.clone(), v.clone())).collect()
}

// ---------------------------------------------------------------------------
// Facts about entries
// ---------------------------------------------------------------------------

proof fn lemma_find_name_found(es: Seq<(Seq<char>, Seq<Seq<u8>>)>, n: Seq<char>, i: int)
    requires
        0 <= i,
    ensures
        match find_name(es, n, i) {
            Some(k) => i <= k < es.len() && es[k].0 == n && forall|m: int| i <= m < k ==> es[m].0 != n,
            None => forall|m: int| i <= m < es.len() ==> es[m].0 != n,
        },
    decreases es.len() - i,
{
    if i < es.len() && es[i].0 != n {
        lemma_find_name_found(es, n, i + 1);
    }
}

proof fn lemma_find_name_update(
    es: Seq<(Seq<char>, Seq<Seq<u8>>)>,
    j: int,
    e: (Seq<char>, Seq<Seq<u8>>),
    n: Seq<char>,
    i: int,
)
    requires
        0 <= j < es.len(),
        es[j].0 == e.0,
    ensures
        find_name(es.update(j, e), n, i) == find_name(es, n, i),
    decreases es.len() - i,
{
    if 0 <= i < es.len() {
        lemma_find_name_update(es, j, e, n, i + 1);
    }
}

proof fn lemma_find_name_push(
    es: Seq<(Seq<char>, Seq<Seq<u8>>)>,
    e: (Seq<char>, Seq<Seq<u8>>),
    n: Seq<char>,
    i: int,
)
    requires
        0 <= i <= es.len(),
    ensures
        find_name(es.push(e), n, i) == match find_name(es, n, i) {
            Some(k) => Some(k),
            None => if e.0 == n { Some(es.len() as int) } else { None::<int> },
        },
    decreases es.len() - i,
{
    assert(es.push(e)[i] == if i < es.len() { es[i] } else { e });
    if i < es.len() {
        lemma_find_name_push(es, e, n, i + 1);
    } else {
        assert(find_name(es.push(e), n, i + 1) is None);
    }
}

/// Looking a name up after an insert: the inserted name holds the new value
/// alone; every other name is as it was.
pub proof fn lemma_entry_values_insert(
    es: Seq<(Seq<char>, Seq<Seq<u8>>)>,
    k: Seq<char>,
    v: Seq<u8>,
    n: Seq<char>,
)
    ensures
        entry_values(entries_insert(es, k, v), n) == if n == k {
            Some(seq![v])
        } else {
            entry_values(es, n)
        },
        entries_insert(es, k, v).len() <= es.len() + 1,
{
    lemma_find_name_found(es, k, 0);
    lemma_find_name_found(es, n, 0);
    match find_name(es, k, 0) {
        Some(j) => {
            lemma_find_name_update(es, j, (k, seq![v]), n, 0);
        },
        None => {
            lemma_find_name_push(es, (k, seq![v]), n, 0);
        },
    }
}

/// The last value paired with a name, if any.
pub open spec fn last_value(pairs: Seq<(Seq<char>, Seq<u8>)>, n: Seq<char>) -> Option<Seq<u8>>
    decreases pairs.len(),
{
    if pairs.len() == 0 {
        None
    } else if pairs.last().0 == n {
        Some(pairs.last().1)
    } else {
        last_value(pairs.drop_last(), n)
    }
}

/// Inserting pairs one by one: a name that occurs among the pairs ends with
/// its last value alone; any other name keeps what it had.
pub proof fn lemma_insert_all_values(
    es: Seq<(Seq<char>, Seq<Seq<u8>>)>,
    pairs: Seq<(Seq<char>, Seq<u8>)>,
    n: Seq<char>,
)
    ensures
        entry_values(insert_all(es, pairs), n) == match last_value(pairs, n) {
            Some(v) => Some(seq![v]),
            None => entry_values(es, n),
        },
        insert_all(es, pairs).len() <= es.len() + pairs.len(),
    decreases pairs.len(),
{
    if pairs.len() > 0 {
        lemma_insert_all_values(es, pairs.drop_last(), n);
        lemma_entry_values_insert(insert_all(es, pairs.drop_last()), pairs.last().0, pairs.last().1, n);
    }
}

proof fn lemma_insert_all_push(
    es: Seq<(Seq<char>, Seq<Seq<u8>>)>,
    pairs: Seq<(Seq<char>, Seq<u8>)>,
    p: (Seq<char>, Seq<u8>),
)
    ensures
        insert_all(es, pairs.push(p)) == entries_insert(insert_all(es, pairs), p.0, p.1),
{
    assert(pairs.push(p).drop_last() =~= pairs);
}

// ---------------------------------------------------------------------------
// Building header maps
// ---------------------------------------------------------------------------

/// Why a set of headers cannot be sent.
#[derive(Clone, PartialEq, Eq, Debug)]
pub enum HeaderError {
    InvalidName { name: String },
    InvalidValue { name: String, value: String },
    InvalidAuth,
}

/// `HeaderError` with its text as character sequences.
pub enum HeaderProblem {
    InvalidName { name: Seq<char> },
    InvalidValue { name: Seq<char>, value: Seq<char> },
    InvalidAuth,
}

impl View for HeaderError {
    type V = HeaderProblem;

    open spec fn view(&self) -> HeaderProblem {
        match self {
            HeaderError::InvalidName { name } => HeaderProblem::InvalidName { name: name@ },
            HeaderError::InvalidValue { name, value } => HeaderProblem::InvalidValue {
                name: name@,
                value: value@,
            },
            HeaderError::InvalidAuth => HeaderProblem::InvalidAuth,
        }
    }
}

/// What is wrong with one header, if anything.
pub open spec fn header_problem(h: Header) -> Option<HeaderProblem> {
    if !valid_header_name(h.key@) {
        Some(HeaderProblem::InvalidName { name: h.key@ })
    } else if !valid_header_value(encode_utf8(h.value@)) {
        Some(HeaderProblem::InvalidValue { name: h.key@, value: h.value@ })
    } else {
        None
    }
}

/// The first problem among the headers from index `i` on.
pub open spec fn list_problem(hs: Seq<Header>, i: int) -> Option<HeaderProblem>
    decreases hs.len() - i,
{
    if i < 0 || i >= hs.len() {
        None
    } else {
        match header_problem(hs[i]) {
            Some(p) => Some(p),
            None => list_problem(hs, i + 1),
        }
    }
}

/// The name and value each header is stored under.
pub open spec fn list_pairs(hs: Seq<Header>) -> Seq<(Seq<char>, Seq<u8>)> {
    hs.map_values(|h: Header| (lowered(h.key@), encode_utf8(h.value@)))
}

/// The headers of an optional list.
pub open spec fn listed(hs: Option<Vec<Header>>) -> Seq<Header> {
    match hs {
        Some(v) => v@,
        None => seq![],
    }
}

/// The configured headers that every request of a run carries: those of
/// the settings when the run has no scenario steps, none otherwise (each
/// step carries its own).
pub open spec fn run_headers(s: Settings) -> Seq<Header> {
    if s.steps.len() == 0 {
        listed(s.headers)
    } else {
        seq![]
    }
}

/// The pairs every request of a run carries: the run's configured headers,
/// then the `Authorization` header when auth is set.
pub open spec fn global_pairs(s: Settings) -> Seq<(Seq<char>, Seq<u8>)> {
    match s.auth {
        Some(a) => list_pairs(run_headers(s)).push(
            ("authorization"@, encode_utf8(auth_header(a))),
        ),
        None => list_pairs(run_headers(s)),
    }
}

/// The first reason the run's headers cannot be sent.
pub open spec fn global_problem(s: Settings) -> Option<HeaderProblem> {
    match list_problem(run_headers(s), 0) {
        Some(p) => Some(p),
        None => match s.auth {
            Some(a) => if valid_header_value(encode_utf8(auth_header(a))) {
                None
            } else {
                Some(HeaderProblem::InvalidAuth)
            },
            None => None,
        },
    }
}

/// Checks each header of a list and inserts it into the map, stopping at the
/// first one that is refused.
fn insert_header_list(map: &mut HeaderMap, hs: &Vec<Header>) -> (r: Result<(), HeaderError>)
    requires
        header_map_entries(*old(map)).len() + hs.len() < MAP_ENTRY_LIMIT,
    ensures
        match r {
            Ok(()) => list_problem(hs@, 0) is None && header_map_entries(*final(map)) == insert_all(
                header_map_entries(*old(map)),
                list_pairs(hs@),
            ),
            Err(e) => list_problem(hs@, 0) == Some(e@),
        },
{
    let ghost start = header_map_entries(*map);
    let mut i: usize = 0;
    while i < hs.len()
        invariant
            i <= hs.len(),
            start.len() + hs.len() < MAP_ENTRY_LIMIT,
            list_problem(hs@, 0) == list_problem(hs@, i as int),
            header_map_entries(*map) == insert_all(start, list_pairs(hs@.take(i as int))),
        decreases hs.len() - i,
    {
        let h = &hs[i];
        let name = match header_name_from(h.key.as_str()) {
            Some(n) => n,
            None => {
                return Err(HeaderError::InvalidName { name: h.key.clone() });
            },
        };
        let value = match header_value_from(h.value.as_str()) {
            Some(v) => v,
            None => {
                return Err(HeaderError::InvalidValue { name: h.key.clone(), value: h.value.clone() });
            },
        };
        proof {
            let done = list_pairs(hs@.take(i as int));
            lemma_insert_all_values(start, done, seq![]);
            assert(list_pairs(hs@.take(i as int + 1)) =~= done.push(
                (lowered(h.key@), encode_utf8(h.value@)),
            ));
            lemma_insert_all_push(start, done, (lowered(h.key@), encode_utf8(h.value@)));
        }
        insert_header(map, name, value);
        i += 1;
    }
    proof {
        assert(hs@.take(hs.len() as int) =~= hs@);
    }
    Ok(())
}

/// Builds the headers every request of a run carries: the configured
/// headers (left out when the run has scenario steps, which carry their
/// own), then `Authorization` when auth is set.
pub fn build_headers(settings: &Settings) -> (r: Result<HeaderMap, HeaderError>)
    requires
        run_headers(*settings).len() + 1 < MAP_ENTRY_LIMIT,
    ensures
        match r {
            Ok(m) => global_problem(*settings) is None && header_map_entries(m) == insert_all(
                seq![],
                global_pairs(*settings),
            ),
            Err(e) => global_problem(*settings) == Some(e@),
        },
{
    let mut map = new_header_map();
    if settings.steps.len() == 0 {
        match &settings.headers {
            Some(hs) => {
                insert_header_list(&mut map, hs)?;
            },
            None => {},
        }
    }
    proof {
        if run_headers(*settings).len() == 0 {
            assert(list_pairs(seq![]) =~= seq![]);
        }
        lemma_insert_all_values(seq![], list_pairs(run_headers(*settings)), seq![]);
    }
    match &settings.auth {
        Some(auth) => {
            let text = auth.header_value();
            let value = match header_value_from(text.as_str()) {
                Some(v) => v,
                None => {
                    return Err(HeaderError::InvalidAuth);
                },
            };
            proof {
                lemma_insert_all_push(
                    seq![],
                    list_pairs(run_headers(*settings)),
                    ("authorization"@, encode_utf8(auth_header(*auth))),
                );
            }
            insert_header(&mut map, authorization(), value);
        },
        None => {},
    }
    Ok(map)
}

/// Builds the headers of one scenario step.
pub fn build_step_headers(step: &Step) -> (r: Result<HeaderMap, HeaderError>)
    requires
        listed(step.headers).len() < MAP_ENTRY_LIMIT,
    ensures
        match r {
            Ok(m) => list_problem(listed(step.headers), 0) is None && header_map_entries(m)
                == insert_all(seq![], list_pairs(listed(step.headers))),
            Err(e) => list_problem(listed(step.headers), 0) == Some(e@),
        },
{
    let mut map = new_header_map();
    match &step.headers {
        Some(hs) => {
            insert_header_list(&mut map, hs)?;
        },
        None => {
            assert(list_pairs(seq![]) =~= seq![]);
        },
    }
    Ok(map)
}

/// The headers of one request: those of the run, with the step's own
/// headers replacing any of the same name.
pub fn merge_headers(global: &HeaderMap, extra: &HeaderMap) -> (m: HeaderMap)
    requires
        header_map_entries(*global).len() + flat_entries(header_map_entries(*extra)).len()
            < MAP_ENTRY_LIMIT,
    ensures
        header_map_entries(m) == insert_all(
            header_map_entries(*global),
            flat_entries(header_map_entries(*extra)),
        ),
{
    let mut merged = clone_header_map(global);
    let mut pairs = header_pairs(extra);
    let ghost start = header_map_entries(*global);
    let ghost all = flat_entries(header_map_entries(*extra));
    let ghost mut done: int = 0;
    while pairs.len() > 0
        invariant
            0 <= done <= all.len(),
            start.len() + all.len() < MAP_ENTRY_LIMIT,
            pair_texts(pairs@) == all.skip(done),
            header_map_entries(merged) == insert_all(start, all.take(done)),
        decreases pairs.len(),
    {
        let ghost before = pairs@;
        let (k, v) = pairs.remove(0);
        proof {
            assert(pair_texts(before).len() == before.len());
            assert(all.skip(done).len() == all.len() - done);
            assert(pair_texts(before)[0] == all.skip(done)[0]);
            assert(pair_texts(before)[0] == all[done]);
            assert(pairs@ =~= before.subrange(1, before.len() as int));
            assert forall|j: int| 0 <= j < pairs@.len() implies #[trigger] pair_texts(pairs@)[j]
                == all.skip(done + 1)[j] by {
                assert(pairs@[j] == before[j + 1]);
                assert(pair_texts(before)[j + 1] == all.skip(done)[j + 1]);
            }
            assert(pair_texts(pairs@) =~= all.skip(done + 1));
            lemma_insert_all_values(start, all.take(done), seq![]);
            assert(all.take(done + 1) =~= all.take(done).push(all[done]));
            lemma_insert_all_push(start, all.take(done), all[done]);
            done = done + 1;
        }
        insert_header(&mut merged, k, v);
    }
    proof {
        assert(all.take(done) =~= all);
    }
    merged
}

/// The headers of a request, by name: a name the step sets holds the step's
/// last value for it alone; any other name holds what the run's headers
/// hold.
pub proof fn law_step_headers_override(
    global: Seq<(Seq<char>, Seq<Seq<u8>>)>,
    extra: Seq<(Seq<char>, Seq<Seq<u8>>)>,
    n: Seq<char>,
)
    ensures
        entry_values(insert_all(global, flat_entries(extra)), n) == match last_value(
            flat_entries(extra),
            n,
        ) {
            Some(v) => Some(seq![v]),
            None => entry_values(global, n),
        },
{
    lemma_insert_all_values(global, flat_entries(extra), n);
}

/// The text a refused header is reported with.
pub open spec fn header_problem_message(p: HeaderProblem) -> Seq<char> {
    match p {
        HeaderProblem::InvalidName { name } => "Invalid header name: '"@ + name + "'"@,
        HeaderProblem::InvalidValue { name, value } => "Invalid header value for '"@ + name
            + "': '"@ + value + "'"@,
        HeaderProblem::InvalidAuth => "Invalid Authorization header value"@,
    }
}

impl HeaderError {
    /// The text this error is reported with.
    pub fn message(&self) -> (m: String)
        ensures
            m@ == header_problem_message(self@),
    {
        let mut v: Vec<char> = Vec::new();
        match self {
            HeaderError::InvalidName { name } => {
                push_str(&mut v, "Invalid header name: '");
                push_str(&mut v, name.as_str());
                push_str(&mut v, "'");
            },
            HeaderError::InvalidValue { name, value } => {
                push_str(&mut v, "Invalid header value for '");
                push_str(&mut v, name.as_str());
                push_str(&mut v, "': '");
                push_str(&mut v, value.as_str());
                push_str(&mut v, "'");
            },
            HeaderError::InvalidAuth => {
                push_str(&mut v, "Invalid Authorization header value");
            },
        }
        string_of(&v)
    }
}

} // verus!

verus! {

/// With auth set and every header accepted, the run's headers hold the
/// `Authorization` value alone under `authorization`, whatever the
/// configured headers hold.
pub proof fn law_auth_header_sent(s: Settings)
    requires
        s.auth is Some,
    ensures
        entry_values(insert_all(seq![], global_pairs(s)), "authorization"@) == Some(
            seq![encode_utf8(auth_header(s.auth->0))],
        ),
{
    lemma_insert_all_values(seq![], global_pairs(s), "authorization"@);
}

} // verus!
