//! The banner printed when a run starts.

use vstd::prelude::*;

use crate::settings::Settings;
use crate::text::{dec, push_dec, push_str, string_of};

verus! {

/// What the run is aimed at: the target, or the number of scenario steps.
pub open spec fn target_display(s: Settings) -> Seq<char> {
    if s.steps@.len() == 0 {
        s.target@
    } else {
        dec(s.steps@.len()) + " steps"@
    }
}

/// The banner line of a run.
pub open spec fn banner_text(s: Settings) -> Seq<char> {
    match s.duration {
        None => "kamehameha to "@ + target_display(s) + " with "@ + dec(s.clients as nat)
            + " concurrent clients and "@ + dec(s.requests as nat) + " total iterations"@,
        Some(d) => "kamehameha to "@ + target_display(s) + " with "@ + dec(s.clients as nat)
            + " concurrent clients for "@ + dec(d as nat) + " seconds"@,
    }
}

/// The banner line of a run, naming its target, workers and length.
pub fn banner_line(settings: &Settings) -> (b: String)
    ensures
        b@ == banner_text(*settings),
{
    let mut v: Vec<char> = Vec::new();
    push_str(&mut v, "kamehameha to ");
    if settings.steps.len() == 0 {
        push_str(&mut v, settings.target.as_str());
    } else {
        push_dec(&mut v, settings.steps.len() as u64);
        push_str(&mut v, " steps");
    }
    push_str(&mut v, " with ");
    push_dec(&mut v, settings.clients as u64);
    match settings.duration {
        None => {
            push_str(&mut v, " concurrent clients and ");
            push_dec(&mut v, settings.requests as u64);
            push_str(&mut v, " total iterations");
        },
        Some(d) => {
            push_str(&mut v, " concurrent clients for ");
            push_dec(&mut v, d);
            push_str(&mut v, " seconds");
        },
    }
    string_of(&v)
}

/// A note shown after the banner line.
#[derive(Debug, Clone, Copy, PartialEq, Eq, Structural)]
pub enum BannerTag {
    Http2,
    Insecure,
    RpsLimit(u32),
    Auth,
}

/// The notes of a run: HTTP/2, insecure TLS, a rate limit, authentication.
pub open spec fn banner_tag_list(s: Settings) -> Seq<BannerTag> {
    (if s.http2 {
        seq![BannerTag::Http2]
    } else {
        seq![]
    }) + (if s.insecure {
        seq![BannerTag::Insecure]
    } else {
        seq![]
    }) + (match s.rps {
        Some(n) => seq![BannerTag::RpsLimit(n)],
        None => seq![],
    }) + (if s.auth is Some {
        seq![BannerTag::Auth]
    } else {
        seq![]
    })
}

/// The notes shown after the banner line, in order.
pub fn banner_tags(settings: &Settings) -> (tags: Vec<BannerTag>)
    ensures
        tags@ == banner_tag_list(*settings),
{
    let mut tags: Vec<BannerTag> = Vec::new();
    if settings.http2 {
        tags.push(BannerTag::Http2);
    }
    let ghost a = tags@;
    if settings.insecure {
        tags.push(BannerTag::Insecure);
    }
    let ghost b = tags@;
    match settings.rps {
        Some(n) => tags.push(BannerTag::RpsLimit(n)),
        None => {},
    }
    let ghost c = tags@;
    if settings.auth.is_some() {
        tags.push(BannerTag::Auth);
    }
    assert(tags@ =~= banner_tag_list(*settings));
    tags
}

impl BannerTag {
    /// The text of a note: `HTTP/2`, `insecure`, `<n>rps limit`, `auth`.
    pub fn text(&self) -> (t: String)
        ensures
            t@ == match *self {
                BannerTag::Http2 => "HTTP/2"@,
                BannerTag::Insecure => "insecure"@,
                BannerTag::RpsLimit(n) => dec(n as nat) + "rps limit"@,
                BannerTag::Auth => "auth"@,
            },
    {
        let mut v: Vec<char> = Vec::new();
        match self {
            BannerTag::Http2 => push_str(&mut v, "HTTP/2"),
            BannerTag::Insecure => push_str(&mut v, "insecure"),
            BannerTag::RpsLimit(n) => {
                push_dec(&mut v, *n as u64);
                push_str(&mut v, "rps limit");
            },
            BannerTag::Auth => push_str(&mut v, "auth"),
        }
        string_of(&v)
    }
}

} // verus!
