use vstd::prelude::*;

use crate::urls::{build_url, host_of, host_of_text, resolve_spec, scheme_of, text_eq, UrlParts};

verus! {

/// One classification of a checked address. Exactly one of these is produced
/// for every claimed address, and one `Malformed` for an address that could
/// not be resolved at all.
#[derive(Debug)]
pub enum UrlState {
    Accessible(String),
    BadStatus(String, u16),
    ConnectionFailed(String),
    TimedOut(String),
    Malformed(String),
}

/// Classifies the outcome of a network attempt on `url`: a 200 response is
/// reachable, any other response is an error status, and the absence of a
/// response is a transport failure.
pub fn classify(url: String, status: Option<u16>) -> (r: UrlState)
    ensures
        r == (match status {
            Some(code) => if code == 200 {
                UrlState::Accessible(url)
            } else {
                UrlState::BadStatus(url, code)
            },
            None => UrlState::ConnectionFailed(url),
        }),
{
    match status {
        Some(code) => {
            if code == 200 {
                UrlState::Accessible(url)
            } else {
                UrlState::BadStatus(url, code)
            }
        }
        None => UrlState::ConnectionFailed(url),
    }
}

/// Resolves the address a worker is about to check against the crawl
/// domain. An input that does not resolve is malformed and is reported
/// immediately, without any network attempt.
pub fn resolve_target(domain: &str, path: &str) -> (r: Result<UrlParts, UrlState>)
    ensures
        match r {
            Ok(p) => {
                &&& resolve_spec(domain@, path@) == Some(p.text@)
                &&& (match p.host {
                    Some(h) => host_of(p.text@) == Some(h@),
                    None => host_of(p.text@) is None,
                })
                &&& p.scheme@ == scheme_of(p.text@)
            },
            Err(s) => {
                &&& resolve_spec(domain@, path@) is None
                &&& (s matches UrlState::Malformed(t) && t@ == path@)
            },
        },
{
    match build_url(domain, path) {
        Some(p) => Ok(p),
        None => Err(UrlState::Malformed(path.to_string())),
    }
}

/// Whether the frontier may be expanded from a checked page: only a
/// reachable page whose host is the crawl domain is followed; off-domain
/// pages are leaves.
pub fn should_expand(state: &UrlState, domain: &str) -> (r: bool)
    ensures
        r == (match state {
            UrlState::Accessible(u) => host_of(u@) == Some(domain@),
            _ => false,
        }),
{
    match state {
        UrlState::Accessible(u) => {
            match host_of_text(u.as_str()) {
                Some(h) => text_eq(h.as_str(), domain),
                None => false,
            }
        },
        _ => false,
    }
}

} // verus!
