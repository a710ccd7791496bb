use vstd::prelude::*;
use vstd::string::*;
use vstd::utf8::encode_utf8;

use crate::model::{opt_view, SubdomainResult};
use crate::text::{trim, trimmed};

verus! {

/// The page title: the first `<title>...</title>` on one line, in any case.
pub const TITLE_PATTERN: &'static str = "(?i)<title>(.*?)</title>";

/// What the regex crate returns as the first capture group of `pattern` in
/// `text` (none where the pattern is invalid or does not match).
pub uninterp spec fn first_group_of(pattern: Seq<char>, text: Seq<char>) -> Option<Seq<char>>;

/// Relies on `regex::Regex::new`, `Regex::captures` and `Captures::get`: the
/// first capture group of the leftmost match; the result depends on the
/// pattern and the text alone.
#[verifier::external_body]
fn first_capture(pattern: &str, text: &str) -> (r: Option<String>)
    ensures
        opt_view(r) == first_group_of(pattern@, text@),
{
    let re = regex::Regex::new(pattern).ok()?;
    let caps = re.captures(text)?;
    caps.get(1).map(|m| m.as_str().to_string())
}

/// One completed HTTP response, as the transport reports it.
#[derive(Debug)]
pub struct HttpReply {
    pub status: u16,
    /// The length that the response declares, if any.
    pub content_length: Option<u64>,
    /// The `Server` header, if present and readable.
    pub server: Option<String>,
    /// The decoded body, if it could be read.
    pub body: Option<String>,
}

/// The title that a page body shows: the trimmed first capture, if any.
pub open spec fn title_in(body: Seq<char>) -> Option<Seq<char>> {
    match first_group_of(TITLE_PATTERN@, body) {
        Some(t) => Some(trimmed(t)),
        None => None,
    }
}

/// Extracts the trimmed page title from a body.
pub fn extract_title(body: &str) -> (r: Option<String>)
    ensures
        opt_view(r) == title_in(body@),
{
    match first_capture(TITLE_PATTERN, body) {
        Some(t) => Some(trim(t.as_str())),
        None => None,
    }
}

/// The content length recorded for a reply: the declared one, else the byte
/// length of the body.
pub open spec fn reply_length(h: HttpReply) -> Option<u64> {
    match h.content_length {
        Some(n) => Some(n),
        None => match h.body {
            Some(b) => Some(encode_utf8(b@).len() as usize as u64),
            None => None,
        },
    }
}

/// `r` is the fingerprint of `host` at `ip` after `reply` (none when every
/// protocol failed).
pub open spec fn is_fingerprint(r: SubdomainResult, host: Seq<char>, ip: Seq<char>, reply: Option<HttpReply>) -> bool {
    &&& r.subdomain@ == host
    &&& opt_view(r.ip) == Some(ip)
    &&& match reply {
        None => r.status_code is None && r.title is None && r.server is None && r.content_length is None,
        Some(h) => {
            &&& r.status_code == Some(h.status)
            &&& opt_view(r.server) == opt_view(h.server)
            &&& r.content_length == reply_length(h)
            &&& opt_view(r.title) == match h.body {
                Some(b) => title_in(b@),
                None => None,
            }
        },
    }
}

/// Builds the fingerprint of `host` at `ip` from the reply of the first
/// protocol that answered, or from none.
pub fn fingerprint_of(host: String, ip: String, reply: Option<HttpReply>) -> (r: SubdomainResult)
    ensures
        is_fingerprint(r, host@, ip@, reply),
{
    match reply {
        None => SubdomainResult {
            subdomain: host,
            ip: Some(ip),
            status_code: None,
            title: None,
            server: None,
            content_length: None,
        },
        Some(h) => {
            let (content_length, title) = match &h.body {
                Some(b) => {
                    let n = b.as_str().len() as u64;
                    let len = match h.content_length {
                        Some(c) => Some(c),
                        None => Some(n),
                    };
                    (len, extract_title(b.as_str()))
                },
                None => (h.content_length, None),
            };
            SubdomainResult {
                subdomain: host,
                ip: Some(ip),
                status_code: Some(h.status),
                title,
                server: h.server,
                content_length,
            }
        },
    }
}

/// Number of protocols tried per host.
pub const PROTOCOL_COUNT: usize = 2;

/// The URL tried at a given attempt: https first, then http.
pub open spec fn url_spec(host: Seq<char>, attempt: int) -> Seq<char> {
    let scheme = if attempt == 0 {
        seq!['h', 't', 't', 'p', 's']
    } else {
        seq!['h', 't', 't', 'p']
    };
    scheme.add(seq![':', '/', '/']).add(host)
}

/// The URL to try at `attempt`, or none once every protocol was tried.
pub fn probe_url(host: &str, attempt: usize) -> (r: Option<String>)
    ensures
        attempt < PROTOCOL_COUNT <==> r is Some,
        r is Some ==> r->Some_0@ == url_spec(host@, attempt as int),
{
    if attempt >= PROTOCOL_COUNT {
        return None;
    }
    proof {
        reveal_strlit("https://");
        reveal_strlit("http://");
    }
    let mut url = if attempt == 0 {
        String::from_str("https://")
    } else {
        String::from_str("http://")
    };
    url.append(host);
    assert(url@ =~= url_spec(host@, attempt as int));
    Some(url)
}

/// What to do next while probing one host.
pub enum ProbeAction {
    /// Request this URL and report the outcome.
    Fetch(String),
    /// The probe of the host is over.
    Finish(SubdomainResult),
}

/// The first action of a probe: request the first protocol's URL.
pub fn probe_start(host: &str) -> (r: ProbeAction)
    ensures
        r matches ProbeAction::Fetch(u) && u@ == url_spec(host@, 0),
{
    match probe_url(host, 0) {
        Some(u) => ProbeAction::Fetch(u),
        None => ProbeAction::Fetch(String::new()),
    }
}

/// Decides the next action after attempt `attempt` came back with `reply`:
/// any completed response ends the probe; a failed attempt falls through to
/// the next protocol; once all failed, the fingerprint holds only the address.
pub fn probe_step(host: String, ip: String, attempt: usize, reply: Option<HttpReply>) -> (r: ProbeAction)
    ensures
        reply is Some ==> (r matches ProbeAction::Finish(f) && is_fingerprint(f, host@, ip@, reply)),
        reply is None && attempt + 1 < PROTOCOL_COUNT ==> (r matches ProbeAction::Fetch(u) && u@ == url_spec(
            host@,
            attempt + 1,
        )),
        reply is None && attempt + 1 >= PROTOCOL_COUNT ==> (r matches ProbeAction::Finish(f) && is_fingerprint(
            f,
            host@,
            ip@,
            None,
        )),
{
    if reply.is_some() {
        return ProbeAction::Finish(fingerprint_of(host, ip, reply));
    }
    if attempt < PROTOCOL_COUNT - 1 {
        match probe_url(host.as_str(), attempt + 1) {
            Some(u) => ProbeAction::Fetch(u),
            None => ProbeAction::Finish(fingerprint_of(host, ip, None)),
        }
    } else {
        ProbeAction::Finish(fingerprint_of(host, ip, None))
    }
}

} // verus!
