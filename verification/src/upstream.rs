//! Corporate/upstream proxy chaining: the choices made around detecting the
//! system proxy and fetching a PAC file. The reads (environment, registry,
//! network) happen outside; these functions compute on what was read.

use vstd::prelude::*;

use crate::rules::opt_view;
use crate::text::{
    chars_to_string, contains_exec, contains_seq, extend_chars, find_char, first_index,
    first_occurrence, find_seq, split, split_chars, starts_with, starts_with_exec, sub_chars,
    to_chars, trim, trim_chars, views,
};

verus! {

/// The environment variables consulted for a proxy, in order.
pub open spec fn spec_proxy_env_keys() -> Seq<Seq<char>> {
    seq![
        "HTTPS_PROXY"@,
        "https_proxy"@,
        "HTTP_PROXY"@,
        "http_proxy"@,
        "ALL_PROXY"@,
        "all_proxy"@,
    ]
}

/// The names of the environment variables that may name a proxy, in the
/// order they are consulted.
pub fn proxy_env_keys() -> (r: Vec<String>)
    ensures
        r@.map_values(|s: String| s@) == spec_proxy_env_keys(),
{
    let mut v: Vec<String> = Vec::new();
    v.push(String::from_str("HTTPS_PROXY"));
    v.push(String::from_str("https_proxy"));
    v.push(String::from_str("HTTP_PROXY"));
    v.push(String::from_str("http_proxy"));
    v.push(String::from_str("ALL_PROXY"));
    v.push(String::from_str("all_proxy"));
    assert(v@.map_values(|s: String| s@) =~= spec_proxy_env_keys());
    v
}

/// The first value that is not blank, trimmed.
pub open spec fn first_set(values: Seq<Option<Seq<char>>>) -> Option<Seq<char>>
    decreases values.len(),
{
    if values.len() == 0 {
        None
    } else {
        match values[0] {
            Some(v) => if trim(v).len() > 0 {
                Some(trim(v))
            } else {
                first_set(values.drop_first())
            },
            None => first_set(values.drop_first()),
        }
    }
}

/// The views of optional strings.
pub open spec fn opts_view(v: Seq<Option<String>>) -> Seq<Option<Seq<char>>> {
    v.map_values(|o: Option<String>| opt_view(o))
}

/// Picks the proxy from the values of the proxy environment variables (in
/// the order of `proxy_env_keys`, `None` for an unset one): the first value
/// that is not blank, trimmed.
pub fn pick_env_proxy(values: &Vec<Option<String>>) -> (r: Option<String>)
    ensures
        opt_view(r) == first_set(opts_view(values@)),
{
    let ghost all = opts_view(values@);
    let mut i: usize = 0;
    assert(all.skip(0) =~= all);
    while i < values.len()
        invariant
            i <= values@.len(),
            all == opts_view(values@),
            first_set(all) == first_set(all.skip(i as int)),
        decreases values@.len() - i,
    {
        let ghost s = all.skip(i as int);
        assert(s[0] == opt_view(values@[i as int]));
        assert(s.drop_first() =~= all.skip(i + 1));
        match &values[i] {
            Some(v) => {
                let t = trim_chars(&to_chars(v.as_str()));
                if t.len() > 0 {
                    return Some(chars_to_string(&t));
                }
            },
            None => {},
        }
        i = i + 1;
    }
    assert(all.skip(i as int) =~= Seq::<Option<Seq<char>>>::empty());
    None
}

/// A proxy address as a URL: trimmed, with `http://` put in front unless
/// it already has a scheme (`://`).
pub open spec fn spec_normalize(s: Seq<char>) -> Seq<char> {
    let t = trim(s);
    if contains_seq(t, "://"@) {
        t
    } else {
        "http://"@ + t
    }
}

/// Turns a proxy address (`host:port` or a full URL) into a URL.
pub fn normalize(s: &str) -> (r: String)
    ensures
        r@ == spec_normalize(s@),
{
    let t = trim_chars(&to_chars(s));
    if contains_exec(&t, &to_chars("://")) {
        chars_to_string(&t)
    } else {
        let mut v = to_chars("http://");
        extend_chars(&mut v, &t);
        chars_to_string(&v)
    }
}

/// Where to fetch a PAC file from.
pub struct PacRequest {
    /// The host, for the `Host` header.
    pub host: String,
    /// `host:port` to connect to.
    pub addr: String,
    /// The path to request.
    pub path: String,
}

/// A PAC request as plain values.
pub struct PacRequestView {
    pub host: Seq<char>,
    pub addr: Seq<char>,
    pub path: Seq<char>,
}

impl View for PacRequest {
    type V = PacRequestView;

    open spec fn view(&self) -> PacRequestView {
        PacRequestView { host: self.host@, addr: self.addr@, path: self.path@ }
    }
}

/// What an `http://` PAC URL asks for: the part before the first `/` is
/// `host[:port]` (port 80 by default), the rest the path (`/` by default).
/// Other URLs are not fetched.
pub open spec fn spec_pac_request(url: Seq<char>) -> Option<PacRequestView> {
    if !starts_with(url, "http://"@) {
        None
    } else {
        let rest = url.skip(7);
        let (hostport, path) = match first_index(rest, '/') {
            Some(i) => (rest.take(i), rest.skip(i)),
            None => (rest, "/"@),
        };
        Some(
            PacRequestView {
                host: split(hostport, ':')[0],
                addr: if hostport.contains(':') {
                    hostport
                } else {
                    hostport + ":80"@
                },
                path,
            },
        )
    }
}

/// Splits a PAC URL into what to connect to and what to request; `None`
/// unless it is a plain `http://` URL.
pub fn pac_request(url: &str) -> (r: Option<PacRequest>)
    ensures
        match r {
            Some(p) => spec_pac_request(url@) == Some(p@),
            None => spec_pac_request(url@) is None,
        },
{
    let u = to_chars(url);
    let prefix = to_chars("http://");
    if !starts_with_exec(&u, &prefix) {
        return None;
    }
    proof {
        reveal_strlit("http://");
    }
    let rest = sub_chars(&u, 7, u.len());
    assert(rest@ =~= u@.skip(7));
    let (hostport, path) = match find_char(&rest, '/') {
        Some(i) => {
            let a = sub_chars(&rest, 0, i);
            let b = sub_chars(&rest, i, rest.len());
            assert(a@ =~= rest@.take(i as int));
            assert(b@ =~= rest@.skip(i as int));
            (a, b)
        },
        None => (rest, to_chars("/")),
    };
    let pieces = split_chars(&hostport, ':');
    proof {
        crate::text::lemma_split_nonempty(hostport@, ':');
    }
    let host = chars_to_string(&pieces[0]);
    let addr = if crate::text::contains_char(&hostport, ':') {
        chars_to_string(&hostport)
    } else {
        let mut v = sub_chars(&hostport, 0, hostport.len());
        assert(hostport@.subrange(0, hostport@.len() as int) =~= hostport@);
        extend_chars(&mut v, &to_chars(":80"));
        chars_to_string(&v)
    };
    Some(PacRequest { host, addr, path: chars_to_string(&path) })
}

/// The HTTP/1.0 request text for a PAC fetch.
pub open spec fn spec_get_request(p: PacRequestView) -> Seq<char> {
    "GET "@ + p.path + " HTTP/1.0\r\nHost: "@ + p.host + "\r\nConnection: close\r\n\r\n"@
}

/// Builds the HTTP/1.0 `GET` request for a PAC fetch.
pub fn get_request(p: &PacRequest) -> (r: String)
    ensures
        r@ == spec_get_request(p@),
{
    let mut v = to_chars("GET ");
    extend_chars(&mut v, &to_chars(p.path.as_str()));
    extend_chars(&mut v, &to_chars(" HTTP/1.0\r\nHost: "));
    extend_chars(&mut v, &to_chars(p.host.as_str()));
    extend_chars(&mut v, &to_chars("\r\nConnection: close\r\n\r\n"));
    chars_to_string(&v)
}

/// The body of an HTTP response: everything after the first blank line.
pub open spec fn spec_response_body(resp: Seq<char>) -> Option<Seq<char>> {
    match first_occurrence(resp, "\r\n\r\n"@) {
        Some(i) => Some(resp.skip(i + 4)),
        None => None,
    }
}

/// Extracts the body of an HTTP response read in full.
pub fn response_body(resp: &str) -> (r: Option<String>)
    ensures
        opt_view(r) == spec_response_body(resp@),
{
    let v = to_chars(resp);
    let sep = to_chars("\r\n\r\n");
    proof {
        reveal_strlit("\r\n\r\n");
    }
    match find_seq(&v, &sep) {
        Some(i) => {
            assert(i + sep@.len() <= v.len());
            let body = sub_chars(&v, i + 4, v.len());
            assert(body@ =~= v@.skip(i + 4));
            Some(chars_to_string(&body))
        },
        None => None,
    }
}

} // verus!
