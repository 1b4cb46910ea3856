//! Parsers for system-proxy auto-detection. They take the raw text that the
//! platform reports (a PAC script, the Windows `ProxyServer` registry string,
//! the output of `scutil --proxy`) and pick the upstream proxy out of it.

use vstd::prelude::*;

use crate::pattern::{compile_pattern, pattern_captures, regex_captures, regex_error};
use crate::rules::opt_view;
use crate::text::{
    ascii_lower, ascii_lowercase, chars_eq, opt_str, chars_to_string, extend_chars, lemma_split_nonempty,
    split, split_chars, split_once, split_once_chars, to_chars, trim, trim_chars, trim_start, views,
    is_white, first_index, is_first_index, lemma_first_index,
};

verus! {

/// What a platform proxy setting points at.
#[derive(Debug, Clone, PartialEq, Eq)]
pub enum Detected {
    /// A concrete `host:port` upstream proxy.
    Server(String),
    /// A proxy auto-config (PAC) URL that must be fetched and scanned.
    Pac(String),
}

/// A detected setting as plain values.
pub enum DetectedView {
    Server(Seq<char>),
    Pac(Seq<char>),
}

impl View for Detected {
    type V = DetectedView;

    open spec fn view(&self) -> DetectedView {
        match self {
            Detected::Server(s) => DetectedView::Server(s@),
            Detected::Pac(s) => DetectedView::Pac(s@),
        }
    }
}

/// The view of an optional detected setting.
pub open spec fn opt_detected(o: Option<Detected>) -> Option<DetectedView> {
    match o {
        Some(d) => Some(d@),
        None => None,
    }
}

// ---------------------------------------------------------------------------
// PAC scripts
// ---------------------------------------------------------------------------

/// The expression that finds a `PROXY host:port` or `HTTPS host:port` entry.
pub open spec fn pac_pattern() -> Seq<char> {
    "(?i)\\b(?:PROXY|HTTPS)\\s+([A-Za-z0-9_.\\-]+:\\d{1,5})"@
}

/// The `host:port` of the first proxy entry the expression finds in a PAC
/// body: the text of its capture group 1.
pub open spec fn spec_scan_pac(body: Seq<char>) -> Option<Seq<char>> {
    if regex_error(pac_pattern()) is Some {
        None
    } else {
        match regex_captures(pac_pattern(), body) {
            Some(g) => if g.len() > 1 && g[1] is Some {
                Some(g[1]->0)
            } else {
                None
            },
            None => None,
        }
    }
}

/// Extracts the first usable `host:port` from a PAC file's body. PAC scripts
/// are JavaScript, but the proxy targets appear as `PROXY host:port` /
/// `HTTPS host:port` string literals, which is enough to fill the field.
pub fn scan_pac(body: &str) -> (r: Option<String>)
    ensures
        opt_view(r) == spec_scan_pac(body@),
{
    match compile_pattern("(?i)\\b(?:PROXY|HTTPS)\\s+([A-Za-z0-9_.\\-]+:\\d{1,5})") {
        Err(_) => None,
        Ok(re) => match pattern_captures(&re, body) {
            None => None,
            Some(g) => {
                if g.len() > 1 {
                    match &g[1] {
                        Some(m) => Some(m.clone()),
                        None => None,
                    }
                } else {
                    None
                }
            },
        },
    }
}

/// The PAC scan runs exactly the expression
/// `(?i)\b(?:PROXY|HTTPS)\s+([A-Za-z0-9_.\-]+:\d{1,5})`: a `PROXY` or
/// `HTTPS` keyword in any case, whitespace, then a host of letters, digits,
/// `_`, `.` and `-`, a colon and a port of one to five digits; the result is
/// that host and port, as the `regex` crate captures it, for the first such
/// entry.
pub proof fn lemma_scan_pac_expression(body: Seq<char>)
    ensures
        spec_scan_pac(body) == (if regex_error(
            "(?i)\\b(?:PROXY|HTTPS)\\s+([A-Za-z0-9_.\\-]+:\\d{1,5})"@,
        ) is Some {
            None
        } else {
            match regex_captures(
                "(?i)\\b(?:PROXY|HTTPS)\\s+([A-Za-z0-9_.\\-]+:\\d{1,5})"@,
                body,
            ) {
                Some(g) => if g.len() > 1 && g[1] is Some {
                    Some(g[1]->0)
                } else {
                    None
                },
                None => None,
            }
        }),
{
}

// ---------------------------------------------------------------------------
// The Windows `ProxyServer` string
// ---------------------------------------------------------------------------

/// The per-protocol entries seen so far.
pub struct WinPick {
    pub https: Option<Seq<char>>,
    pub http: Option<Seq<char>>,
    pub other: Option<Seq<char>>,
}

/// One `scheme=addr` entry: `https` and `http` take the latest address,
/// any other scheme only the first; entries without `=` or with an empty
/// address are skipped.
pub open spec fn win_step(acc: WinPick, part: Seq<char>) -> WinPick {
    match split_once(part, '=') {
        None => acc,
        Some(sa) => {
            let addr = trim(sa.1);
            let scheme = ascii_lower(trim(sa.0));
            if addr.len() == 0 {
                acc
            } else if scheme == "https"@ {
                WinPick { https: Some(addr), ..acc }
            } else if scheme == "http"@ {
                WinPick { http: Some(addr), ..acc }
            } else if acc.other is None {
                WinPick { other: Some(addr), ..acc }
            } else {
                acc
            }
        },
    }
}

/// The entries of all parts, in order.
pub open spec fn win_fold(parts: Seq<Seq<char>>) -> WinPick
    decreases parts.len(),
{
    if parts.len() == 0 {
        WinPick { https: None, http: None, other: None }
    } else {
        win_step(win_fold(parts.drop_last()), parts.last())
    }
}

/// The proxy a Windows `ProxyServer` string names: the trimmed string itself
/// when it has no `=`, else the HTTPS entry, then the HTTP entry, then the
/// first other one.
pub open spec fn spec_win_proxy(raw: Seq<char>) -> Option<Seq<char>> {
    let t = trim(raw);
    if t.len() == 0 {
        None
    } else if !t.contains('=') {
        Some(t)
    } else {
        let w = win_fold(split(t, ';'));
        if w.https is Some {
            w.https
        } else if w.http is Some {
            w.http
        } else {
            w.other
        }
    }
}

/// Parses the Windows `ProxyServer` registry string. It is either a bare
/// `host:port`, or per-protocol pairs like `http=h:80;https=h:443;socks=h:1080`.
/// Prefers the HTTPS entry (most traffic), then HTTP, then any.
pub fn parse_win_proxy_server(raw: &str) -> (r: Option<String>)
    ensures
        opt_view(r) == spec_win_proxy(raw@),
{
    let t = trim_chars(&to_chars(raw));
    if t.len() == 0 {
        return None;
    }
    if !crate::text::contains_char(&t, '=') {
        return Some(chars_to_string(&t));
    }
    let parts = split_chars(&t, ';');
    let https_lit = to_chars("https");
    let http_lit = to_chars("http");
    let mut https: Option<Vec<char>> = None;
    let mut http: Option<Vec<char>> = None;
    let mut other: Option<Vec<char>> = None;
    let ghost ps = views(parts@);
    let mut i: usize = 0;
    assert(ps.take(0) =~= Seq::<Seq<char>>::empty());
    while i < parts.len()
        invariant
            i <= parts@.len(),
            ps == views(parts@),
            https_lit@ == "https"@,
            http_lit@ == "http"@,
            win_fold(ps.take(i as int)) == (WinPick {
                https: opt_chars(https),
                http: opt_chars(http),
                other: opt_chars(other),
            }),
        decreases parts@.len() - i,
    {
        proof {
            assert(ps.take(i + 1).drop_last() =~= ps.take(i as int));
            assert(ps.take(i + 1).last() == parts@[i as int]@);
        }
        match split_once_chars(&parts[i], '=') {
            None => {},
            Some(sa) => {
                let addr = trim_chars(&sa.1);
                if addr.len() > 0 {
                    let scheme = ascii_lowercase(&trim_chars(&sa.0));
                    if chars_eq(&scheme, &https_lit) {
                        https = Some(addr);
                    } else if chars_eq(&scheme, &http_lit) {
                        http = Some(addr);
                    } else if other.is_none() {
                        other = Some(addr);
                    }
                }
            },
        }
        i = i + 1;
    }
    assert(ps.take(parts@.len() as int) =~= ps);
    let pick = if https.is_some() {
        https
    } else if http.is_some() {
        http
    } else {
        other
    };
    match pick {
        Some(v) => Some(chars_to_string(&v)),
        None => None,
    }
}

/// The view of an optional character vector.
pub open spec fn opt_chars(o: Option<Vec<char>>) -> Option<Seq<char>> {
    match o {
        Some(v) => Some(v@),
        None => None,
    }
}

// ---------------------------------------------------------------------------
// `scutil --proxy` output
// ---------------------------------------------------------------------------

/// A line without the `\r` of a `\r\n` ending.
pub open spec fn strip_cr(l: Seq<char>) -> Seq<char> {
    if l.len() > 0 && l.last() == '\r' {
        l.drop_last()
    } else {
        l
    }
}

/// Every line without the `\r` of a `\r\n` ending.
pub open spec fn strip_all(ls: Seq<Seq<char>>) -> Seq<Seq<char>> {
    ls.map_values(|l: Seq<char>| strip_cr(l))
}

/// `str::lines`: the pieces between `\n`s, each ended line without a
/// trailing `\r`, and no empty piece after a final `\n`.
pub open spec fn lines(s: Seq<char>) -> Seq<Seq<char>> {
    let parts = split(s, '\n');
    let body = strip_all(parts.take(parts.len() - 1));
    if parts.last().len() == 0 {
        body
    } else {
        body.push(parts.last())
    }
}

/// The lines of `v`.
pub fn lines_of(v: &[char]) -> (r: Vec<Vec<char>>)
    ensures
        views(r@) == lines(v@),
{
    let parts = split_chars(v, '\n');
    proof {
        lemma_split_nonempty(v@, '\n');
    }
    let ghost ps = views(parts@);
    let n = parts.len() - 1;
    let mut out: Vec<Vec<char>> = Vec::new();
    let mut i: usize = 0;
    while i < n
        invariant
            n + 1 == parts@.len(),
            i <= n,
            ps == views(parts@),
            views(out@) =~= strip_all(ps.take(i as int)),
        decreases n - i,
    {
        let l = &parts[i];
        let piece = if l.len() > 0 && l[l.len() - 1] == '\r' {
            crate::text::sub_chars(l, 0, l.len() - 1)
        } else {
            crate::text::sub_chars(l, 0, l.len())
        };
        assert(ps[i as int] == l@);
        assert(piece@ =~= strip_cr(ps[i as int]));
        let ghost before = views(out@);
        out.push(piece);
        assert(views(out@) =~= before.push(piece@));
        assert(strip_all(ps.take(i + 1)) =~= strip_all(ps.take(i as int)).push(
            strip_cr(ps[i as int]),
        ));
        i = i + 1;
    }
    let last = &parts[n];
    assert(ps.last() == last@);
    if last.len() > 0 {
        out.push(crate::text::sub_chars(last, 0, last.len()));
        assert(last@.subrange(0, last@.len() as int) =~= last@);
    }
    assert(views(out@) =~= lines(v@));
    out
}

/// The value of the first line of the form `key : value` (both sides
/// trimmed) whose key is `key`.
pub open spec fn field_in(ls: Seq<Seq<char>>, key: Seq<char>) -> Option<Seq<char>>
    decreases ls.len(),
{
    if ls.len() == 0 {
        None
    } else {
        match split_once(ls[0], ':') {
            Some(kv) => if trim(kv.0) == key {
                Some(trim(kv.1))
            } else {
                field_in(ls.drop_first(), key)
            },
            None => field_in(ls.drop_first(), key),
        }
    }
}

fn field_exec(ls: &Vec<Vec<char>>, key: &str) -> (r: Option<Vec<char>>)
    ensures
        opt_chars(r) == field_in(views(ls@), key@),
{
    let k = to_chars(key);
    let ghost all = views(ls@);
    let mut i: usize = 0;
    assert(all.skip(0) =~= all);
    while i < ls.len()
        invariant
            i <= ls@.len(),
            k@ == key@,
            all == views(ls@),
            field_in(all, key@) == field_in(all.skip(i as int), key@),
        decreases ls@.len() - i,
    {
        let ghost s = all.skip(i as int);
        assert(s[0] == ls@[i as int]@);
        assert(s.drop_first() =~= all.skip(i + 1));
        match split_once_chars(&ls[i], ':') {
            Some(kv) => {
                if chars_eq(&trim_chars(&kv.0), &k) {
                    return Some(trim_chars(&kv.1));
                }
            },
            None => {},
        }
        i = i + 1;
    }
    assert(all.skip(i as int) =~= Seq::<Seq<char>>::empty());
    None
}

/// The setting `key` is present with value `1`.
pub open spec fn field_enabled(ls: Seq<Seq<char>>, key: Seq<char>) -> bool {
    field_in(ls, key) == Some("1"@)
}

/// The proxy that `scutil --proxy` output describes: the HTTPS proxy when
/// enabled and complete, else the HTTP proxy likewise, else a non-empty
/// auto-config URL when enabled.
pub open spec fn spec_scutil(text: Seq<char>) -> Option<DetectedView> {
    let ls = lines(text);
    if field_enabled(ls, "HTTPSEnable"@) && field_in(ls, "HTTPSProxy"@) is Some && field_in(
        ls,
        "HTTPSPort"@,
    ) is Some {
        Some(
            DetectedView::Server(
                field_in(ls, "HTTPSProxy"@)->0 + ":"@ + field_in(ls, "HTTPSPort"@)->0,
            ),
        )
    } else if field_enabled(ls, "HTTPEnable"@) && field_in(ls, "HTTPProxy"@) is Some && field_in(
        ls,
        "HTTPPort"@,
    ) is Some {
        Some(
            DetectedView::Server(field_in(ls, "HTTPProxy"@)->0 + ":"@ + field_in(ls, "HTTPPort"@)->0),
        )
    } else if field_enabled(ls, "ProxyAutoConfigEnable"@) && field_in(
        ls,
        "ProxyAutoConfigURLString"@,
    ) is Some && (field_in(ls, "ProxyAutoConfigURLString"@)->0).len() > 0 {
        Some(DetectedView::Pac(field_in(ls, "ProxyAutoConfigURLString"@)->0))
    } else {
        None
    }
}

fn is_one(v: &Option<Vec<char>>) -> (r: bool)
    ensures
        r == (opt_chars(*v) == Some("1"@)),
{
    let one = to_chars("1");
    match v {
        Some(x) => chars_eq(x, &one),
        None => false,
    }
}

fn host_port(h: &Vec<char>, p: &Vec<char>) -> (r: String)
    ensures
        r@ == h@ + ":"@ + p@,
{
    let mut v: Vec<char> = Vec::new();
    extend_chars(&mut v, h);
    extend_chars(&mut v, &to_chars(":"));
    extend_chars(&mut v, p);
    chars_to_string(&v)
}

/// Parses `scutil --proxy` output on macOS into a proxy server or PAC URL.
pub fn parse_scutil(text: &str) -> (r: Option<Detected>)
    ensures
        opt_detected(r) == spec_scutil(text@),
{
    let ls = lines_of(&to_chars(text));
    if is_one(&field_exec(&ls, "HTTPSEnable")) {
        let h = field_exec(&ls, "HTTPSProxy");
        let p = field_exec(&ls, "HTTPSPort");
        match (h, p) {
            (Some(h), Some(p)) => {
                return Some(Detected::Server(host_port(&h, &p)));
            },
            _ => {},
        }
    }
    if is_one(&field_exec(&ls, "HTTPEnable")) {
        let h = field_exec(&ls, "HTTPProxy");
        let p = field_exec(&ls, "HTTPPort");
        match (h, p) {
            (Some(h), Some(p)) => {
                return Some(Detected::Server(host_port(&h, &p)));
            },
            _ => {},
        }
    }
    if is_one(&field_exec(&ls, "ProxyAutoConfigEnable")) {
        match field_exec(&ls, "ProxyAutoConfigURLString") {
            Some(url) => {
                if url.len() > 0 {
                    return Some(Detected::Pac(chars_to_string(&url)));
                }
            },
            None => {},
        }
    }
    None
}

// ---------------------------------------------------------------------------
// Windows Internet Settings
// ---------------------------------------------------------------------------

/// What the Windows Internet Settings point at: with `ProxyEnable` equal to 1,
/// the proxy `ProxyServer` names, if it names one; otherwise a non-blank
/// `AutoConfigURL`, as it stands; otherwise nothing.
pub open spec fn spec_win_settings(
    enabled: u32,
    server: Option<Seq<char>>,
    auto_config_url: Option<Seq<char>>,
) -> Option<DetectedView> {
    let from_server = if enabled == 1 {
        match server {
            Some(s) => spec_win_proxy(s),
            None => None,
        }
    } else {
        None
    };
    match from_server {
        Some(s) => Some(DetectedView::Server(s)),
        None => match auto_config_url {
            Some(u) => if trim(u).len() > 0 {
                Some(DetectedView::Pac(u))
            } else {
                None
            },
            None => None,
        },
    }
}

/// Decides from the Windows Internet Settings values (`ProxyEnable`, and
/// `ProxyServer` and `AutoConfigURL` where they are set) which proxy or PAC
/// URL is configured.
pub fn win_settings(enabled: u32, server: Option<&str>, auto_config_url: Option<&str>) -> (r:
    Option<Detected>)
    ensures
        opt_detected(r) == spec_win_settings(enabled, opt_str(server), opt_str(
            auto_config_url,
        )),
{
    if enabled == 1 {
        match server {
            Some(s) => match parse_win_proxy_server(s) {
                Some(p) => {
                    return Some(Detected::Server(p));
                },
                None => {},
            },
            None => {},
        }
    }
    match auto_config_url {
        Some(u) => {
            if trim_chars(&to_chars(u)).len() > 0 {
                Some(Detected::Pac(String::from_str(u)))
            } else {
                None
            }
        },
        None => None,
    }
}

// ---------------------------------------------------------------------------
// Laws of field lookup
// ---------------------------------------------------------------------------

/// Leading whitespace does not count in a trimmed text.
pub proof fn lemma_trim_ignores_leading_white(w: Seq<char>, k: Seq<char>)
    requires
        forall|i: int| 0 <= i < w.len() ==> is_white(#[trigger] w[i]),
    ensures
        trim(w + k) == trim(k),
    decreases w.len(),
{
    if w.len() > 0 {
        let t = w.drop_first();
        assert forall|i: int| 0 <= i < t.len() implies is_white(#[trigger] t[i]) by {
            assert(t[i] == w[i + 1]);
        }
        lemma_trim_ignores_leading_white(t, k);
        assert((w + k)[0] == w[0]);
        assert((w + k).drop_first() =~= t + k);
        assert(trim_start(w + k) == trim_start(t + k));
    } else {
        assert(w + k =~= k);
    }
}

/// A prefix without `:` moves the first `:` but keeps what follows it.
proof fn lemma_split_once_after_prefix(w: Seq<char>, l: Seq<char>)
    requires
        !w.contains(':'),
    ensures
        split_once(w + l, ':') == match split_once(l, ':') {
            Some(kv) => Some((w + kv.0, kv.1)),
            None => None,
        },
{
    let s = w + l;
    if l.contains(':') {
        let i = first_index(l, ':')->0;
        crate::text::lemma_first_index_is_first(l, ':');
        assert(is_first_index(s, ':', w.len() + i)) by {
            assert(s[w.len() + i] == l[i]);
            assert forall|j: int| 0 <= j < w.len() + i implies s[j] != ':' by {
                if j < w.len() {
                    assert(s[j] == w[j]);
                } else {
                    assert(s[j] == l[j - w.len()]);
                }
            }
        }
        lemma_first_index(s, ':', w.len() + i);
        assert(s.take(w.len() + i) =~= w + l.take(i));
        assert(s.skip(w.len() + i + 1) =~= l.skip(i + 1));
    } else {
        assert(!s.contains(':')) by {
            if s.contains(':') {
                let j = choose|j: int| 0 <= j < s.len() && s[j] == ':';
                if j < w.len() {
                    assert(s[j] == w[j]);
                } else {
                    assert(s[j] == l[j - w.len()]);
                }
            }
        }
    }
}

/// Indentation does not matter to field lookup: keys are compared trimmed on
/// both sides, so the same whitespace put before every line finds the same
/// value (`scutil` prints its keys indented).
pub proof fn lemma_field_ignores_indentation(ls: Seq<Seq<char>>, w: Seq<char>, key: Seq<char>)
    requires
        forall|i: int| 0 <= i < w.len() ==> is_white(#[trigger] w[i]),
    ensures
        field_in(ls.map_values(|l: Seq<char>| w + l), key) == field_in(ls, key),
    decreases ls.len(),
{
    if ls.len() > 0 {
        let ms = ls.map_values(|l: Seq<char>| w + l);
        assert(!w.contains(':')) by {
            if w.contains(':') {
                let j = choose|j: int| 0 <= j < w.len() && w[j] == ':';
                assert(is_white(w[j]));
            }
        }
        lemma_field_ignores_indentation(ls.drop_first(), w, key);
        assert(ms.drop_first() =~= ls.drop_first().map_values(|l: Seq<char>| w + l));
        assert(ms[0] == w + ls[0]);
        lemma_split_once_after_prefix(w, ls[0]);
        match split_once(ls[0], ':') {
            Some(kv) => {
                lemma_trim_ignores_leading_white(w, kv.0);
            },
            None => {},
        }
    }
}

} // verus!
