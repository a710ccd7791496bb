use vstd::prelude::*;

verus! {

/// Most DNS resolutions in flight at once.
pub const DNS_CONCURRENCY: usize = 200;

/// Most HTTP probes in flight at once.
pub const HTTP_CONCURRENCY: usize = 50;

/// Per-request timeout of an HTTP probe, in seconds.
pub const HTTP_TIMEOUT_SECS: u64 = 8;

/// Most redirects followed by one HTTP probe.
pub const MAX_REDIRECTS: usize = 3;

/// The fingerprint of one resolved host.
#[derive(Debug)]
pub struct SubdomainResult {
    pub subdomain: String,
    pub ip: Option<String>,
    pub status_code: Option<u16>,
    pub title: Option<String>,
    pub server: Option<String>,
    pub content_length: Option<u64>,
}

/// What a host that does not exist looks like under a wildcard zone.
#[derive(Debug)]
pub struct WildcardProfile {
    pub ip: Option<String>,
    pub status_code: Option<u16>,
    pub title: Option<String>,
    pub content_length: Option<u64>,
}

/// The character content of an optional string.
pub open spec fn opt_view(o: Option<String>) -> Option<Seq<char>> {
    match o {
        Some(s) => Some(s@),
        None => None,
    }
}

/// Compares two optional strings by content.
pub fn opt_str_eq(a: &Option<String>, b: &Option<String>) -> (r: bool)
    ensures
        r == (opt_view(*a) == opt_view(*b)),
{
    match a {
        Some(x) => match b {
            Some(y) => {
                let same: bool = *x == *y;
                same
            },
            None => false,
        },
        None => b.is_none(),
    }
}

} // verus!
