//! The request side of a basic run: the headers every request carries and
//! the status code a result is recorded with.

use reqwest::header::HeaderMap;
use vstd::prelude::*;
use vstd::utf8::encode_utf8;

use crate::basic::settings::{Header, Settings};
use crate::headers::{
    header_map_entries, header_name_from, header_value_from, insert_all, insert_header, lowered,
    new_header_map, valid_header_name, valid_header_value, MAP_ENTRY_LIMIT,
};

verus! {

/// The headers of a basic run, as the map stores them.
pub open spec fn header_pairs_of(hs: Seq<Header>) -> Seq<(Seq<char>, Seq<u8>)> {
    hs.map_values(|h: Header| (lowered(h.key@), encode_utf8(h.value@)))
}

/// The configured headers of a basic run.
pub open spec fn configured(s: Settings) -> Seq<Header> {
    match s.headers {
        Some(hs) => hs@,
        None => seq![],
    }
}

/// Headers a basic run can send: every name and value accepted, and fewer
/// of them than a header map takes.
pub open spec fn headers_sendable(hs: Seq<Header>) -> bool {
    &&& hs.len() < MAP_ENTRY_LIMIT
    &&& forall|i: int|
        0 <= i < hs.len() ==> valid_header_name(#[trigger] hs[i].key@) && valid_header_value(
            encode_utf8(hs[i].value@),
        )
}

/// The headers every request of a basic run carries, inserted in order.
pub fn request_headers(settings: &Settings) -> (m: HeaderMap)
    requires
        headers_sendable(configured(*settings)),
    ensures
        header_map_entries(m) == insert_all(seq![], header_pairs_of(configured(*settings))),
{
    let mut map = new_header_map();
    match &settings.headers {
        None => {
            assert(header_pairs_of(seq![]) =~= seq![]);
        },
        Some(hs) => {
            let mut i: usize = 0;
            while i < hs.len()
                invariant
                    i <= hs.len(),
                    settings.headers == Some(*hs),
                    headers_sendable(hs@),
                    header_map_entries(map) == insert_all(seq![], header_pairs_of(hs@.take(i as int))),
                    header_map_entries(map).len() <= i,
                decreases hs.len() - i,
            {
                let h = &hs[i];
                let name = match header_name_from(h.key.as_str()) {
                    Some(n) => n,
                    None => {
                        assert(false);
                        return map;
                    },
                };
                let value = match header_value_from(h.value.as_str()) {
                    Some(v) => v,
                    None => {
                        assert(false);
                        return map;
                    },
                };
                proof {
                    let done = header_pairs_of(hs@.take(i as int));
                    let p = (lowered(h.key@), encode_utf8(h.value@));
                    assert(header_pairs_of(hs@.take(i as int + 1)) =~= done.push(p));
                    assert(done.push(p).drop_last() =~= done);
                    crate::headers::lemma_entry_values_insert(
                        header_map_entries(map),
                        p.0,
                        p.1,
                        seq![],
                    );
                }
                insert_header(&mut map, name, value);
                i += 1;
            }
            assert(hs@.take(hs.len() as int) =~= hs@);
        },
    }
    map
}

/// How a basic request ended: a response with its code, or an error that
/// may carry one.
#[derive(Clone, Copy, PartialEq, Eq, Debug)]
pub enum Outcome {
    Response { code: u16 },
    Failure { code: Option<u16> },
}

/// The status code a basic result is recorded with: the response's code,
/// the error's code, or 0 for an error without one.
pub fn status_code(o: Outcome) -> (c: u16)
    ensures
        c == match o {
            Outcome::Response { code } => code,
            Outcome::Failure { code: Some(code) } => code,
            Outcome::Failure { code: None } => 0,
        },
{
    match o {
        Outcome::Response { code } => code,
        Outcome::Failure { code: Some(code) } => code,
        Outcome::Failure { code: None } => 0,
    }
}

} // verus!
