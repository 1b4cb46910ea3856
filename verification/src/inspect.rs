//! What the proxy decides per request, apart from moving bytes: the URL that
//! rules are matched against, the host of a request, the summary header of
//! verify mode, and the inspector page served for the built-in echo host.

use vstd::prelude::*;
use vstd::utf8::{decode_utf8, encode_utf8, valid_utf8};

use crate::rules::{
    actions_view, ActionView, Compiled, HeaderAction, HeaderOp, Plan, PlanView,
};
use crate::text::{
    ascii_lower, ascii_lowercase, chars_eq, chars_to_string, ends_with, ends_with_exec,
    extend_chars, join, join_chars, split, split_chars, split_once, split_once_chars, sub_chars,
    opt_str, to_chars, views,
};

verus! {

// ---------------------------------------------------------------------------
// The verify-mode summary
// ---------------------------------------------------------------------------

/// How one edit is listed: `name=value`, or `-name` for a removal.
pub open spec fn summary_item(a: ActionView) -> Seq<char> {
    match a.op {
        HeaderOp::Assign => a.name + "="@ + a.value,
        HeaderOp::Remove => "-"@ + a.name,
    }
}

/// The listing of a sequence of edits, separated by `, `.
pub open spec fn summary_list(s: Seq<ActionView>) -> Seq<char> {
    join(summary_items(s), ", "@)
}

/// The listing of each edit.
pub open spec fn summary_items(s: Seq<ActionView>) -> Seq<Seq<char>> {
    s.map_values(|a: ActionView| summary_item(a))
}

/// The `X-ReHeader-Applied` value: `req[...] resp[...]`.
pub open spec fn spec_verify_summary(p: PlanView) -> Seq<char> {
    "req["@ + summary_list(p.request_headers) + "] resp["@ + summary_list(p.response_headers)
        + "]"@
}

fn summary_list_exec(ops: &Vec<HeaderAction>) -> (r: Vec<char>)
    ensures
        r@ == summary_list(actions_view(ops@)),
{
    let mut items: Vec<Vec<char>> = Vec::new();
    let mut i: usize = 0;
    while i < ops.len()
        invariant
            i <= ops@.len(),
            views(items@) =~= summary_items(actions_view(ops@).take(i as int)),
        decreases ops@.len() - i,
    {
        let op = &ops[i];
        let mut item: Vec<char> = Vec::new();
        match op.op {
            HeaderOp::Assign => {
                extend_chars(&mut item, &to_chars(op.name.as_str()));
                extend_chars(&mut item, &to_chars("="));
                extend_chars(&mut item, &to_chars(op.value.as_str()));
            },
            HeaderOp::Remove => {
                extend_chars(&mut item, &to_chars("-"));
                extend_chars(&mut item, &to_chars(op.name.as_str()));
            },
        }
        assert(item@ =~= summary_item(ops@[i as int]@));
        let ghost before = views(items@);
        items.push(item);
        assert(views(items@) =~= before.push(item@));
        assert(summary_items(actions_view(ops@).take(i + 1)) =~= summary_items(
            actions_view(ops@).take(i as int),
        ).push(summary_item(ops@[i as int]@)));
        i = i + 1;
    }
    assert(actions_view(ops@).take(ops@.len() as int) =~= actions_view(ops@));
    join_chars(&items, &to_chars(", "))
}

/// Builds the `X-ReHeader-Applied` value: what request and response header
/// changes this exchange applied. `req[]`/`resp[]` empty means no rule
/// matched (for example a URL filter excluded this request).
pub fn verify_summary(plan: &Plan) -> (r: String)
    ensures
        r@ == spec_verify_summary(plan@),
{
    let mut v: Vec<char> = Vec::new();
    extend_chars(&mut v, &to_chars("req["));
    extend_chars(&mut v, &summary_list_exec(&plan.request_headers));
    extend_chars(&mut v, &to_chars("] resp["));
    extend_chars(&mut v, &summary_list_exec(&plan.response_headers));
    extend_chars(&mut v, &to_chars("]"));
    chars_to_string(&v)
}

// ---------------------------------------------------------------------------
// HTML escaping
// ---------------------------------------------------------------------------

/// How one character is written in HTML text.
pub open spec fn escape_char(c: char) -> Seq<char> {
    if c == '&' {
        "&amp;"@
    } else if c == '<' {
        "&lt;"@
    } else if c == '>' {
        "&gt;"@
    } else if c == '"' {
        "&quot;"@
    } else {
        seq![c]
    }
}

/// `s` with `&`, `<`, `>` and `"` replaced by their entities.
pub open spec fn escaped(s: Seq<char>) -> Seq<char>
    decreases s.len(),
{
    if s.len() == 0 {
        Seq::<char>::empty()
    } else {
        escaped(s.drop_last()) + escape_char(s.last())
    }
}

/// A character that HTML text must not hold raw.
pub open spec fn html_special(c: char) -> bool {
    c == '<' || c == '>' || c == '"'
}

/// Escaped text holds no raw `<`, `>` or `"`.
pub proof fn lemma_escaped_has_no_markup(s: Seq<char>)
    ensures
        forall|i: int| 0 <= i < escaped(s).len() ==> !html_special(#[trigger] escaped(s)[i]),
    decreases s.len(),
{
    if s.len() > 0 {
        let d = escaped(s.drop_last());
        let e = escape_char(s.last());
        lemma_escaped_has_no_markup(s.drop_last());
        reveal_strlit("&amp;");
        reveal_strlit("&lt;");
        reveal_strlit("&gt;");
        reveal_strlit("&quot;");
        assert forall|i: int| 0 <= i < e.len() implies !html_special(#[trigger] e[i]) by {}
        assert forall|i: int| 0 <= i < escaped(s).len() implies !html_special(
            #[trigger] escaped(s)[i],
        ) by {
            if i < d.len() {
                assert(escaped(s)[i] == d[i]);
            } else {
                assert(escaped(s)[i] == e[i - d.len()]);
            }
        }
    }
}

fn escape_chars(v: &[char]) -> (r: Vec<char>)
    ensures
        r@ == escaped(v@),
{
    let mut out: Vec<char> = Vec::new();
    let mut i: usize = 0;
    assert(v@.take(0) =~= Seq::<char>::empty());
    while i < v.len()
        invariant
            i <= v@.len(),
            out@ == escaped(v@.take(i as int)),
        decreases v@.len() - i,
    {
        proof {
            assert(v@.take(i + 1).drop_last() =~= v@.take(i as int));
        }
        let c = v[i];
        if c == '&' {
            extend_chars(&mut out, &to_chars("&amp;"));
        } else if c == '<' {
            extend_chars(&mut out, &to_chars("&lt;"));
        } else if c == '>' {
            extend_chars(&mut out, &to_chars("&gt;"));
        } else if c == '"' {
            extend_chars(&mut out, &to_chars("&quot;"));
        } else {
            out.push(c);
        }
        assert(out@ =~= escaped(v@.take(i + 1)));
        i = i + 1;
    }
    assert(v@.take(v@.len() as int) =~= v@);
    out
}

/// Escapes `&`, `<`, `>` and `"` for HTML.
pub fn html_escape(s: &str) -> (r: String)
    ensures
        r@ == escaped(s@),
        forall|i: int| 0 <= i < r@.len() ==> !html_special(#[trigger] r@[i]),
{
    proof {
        lemma_escaped_has_no_markup(s@);
    }
    chars_to_string(&escape_chars(&to_chars(s)))
}

// ---------------------------------------------------------------------------
// Query strings
// ---------------------------------------------------------------------------

/// `s` with every `+` turned into a space.
pub open spec fn plus_to_space(s: Seq<char>) -> Seq<char> {
    s.map_values(|c: char| if c == '+' { ' ' } else { c })
}

/// `b` is the byte of an ASCII hexadecimal digit.
pub open spec fn is_hex_byte(b: u8) -> bool {
    (0x30 <= b <= 0x39) || (0x41 <= b <= 0x46) || (0x61 <= b <= 0x66)
}

/// The value of a hexadecimal digit byte.
pub open spec fn hex_value(b: u8) -> int {
    if 0x30 <= b <= 0x39 {
        b - 0x30
    } else if 0x41 <= b <= 0x46 {
        b - 0x41 + 10
    } else {
        b - 0x61 + 10
    }
}

/// The bytes with each `%XX` (two hexadecimal digits, followed by at least
/// nothing) replaced by the byte it names; a `%` with fewer than two bytes
/// after it, or not followed by two hexadecimal digits, stays as it is.
pub open spec fn unescape_bytes(b: Seq<u8>) -> Seq<u8>
    decreases b.len(),
{
    if b.len() == 0 {
        Seq::<u8>::empty()
    } else if b[0] == 0x25 && b.len() >= 3 && is_hex_byte(b[1]) && is_hex_byte(b[2]) {
        seq![(hex_value(b[1]) * 16 + hex_value(b[2])) as u8] + unescape_bytes(b.skip(3))
    } else {
        seq![b[0]] + unescape_bytes(b.drop_first())
    }
}

/// What `String::from_utf8_lossy` yields for `b`: the decoded text, with
/// each invalid sequence replaced by U+FFFD.
pub uninterp spec fn utf8_lossy(b: Seq<u8>) -> Seq<char>;

/// `String::from_utf8_lossy`. std documents that valid UTF-8 comes back
/// as the text it encodes; the replacement of invalid sequences is named by
/// `utf8_lossy` and not stated further.
#[verifier::external_body]
fn from_utf8_lossy(b: &[u8]) -> (r: String)
    ensures
        r@ == utf8_lossy(b@),
        valid_utf8(b@) ==> r@ == decode_utf8(b@),
{
    String::from_utf8_lossy(b).into_owned()
}

/// The bytes a query value stands for: `+` is a space and `%XX` the byte XX.
pub open spec fn percent_bytes(s: Seq<char>) -> Seq<u8> {
    unescape_bytes(encode_utf8(plus_to_space(s)))
}

/// Percent-decoding of a query value: its bytes read as UTF-8, the text they
/// encode when they are valid UTF-8, else with invalid sequences replaced.
pub open spec fn spec_percent_decode(s: Seq<char>) -> Seq<char> {
    let b = percent_bytes(s);
    if valid_utf8(b) {
        decode_utf8(b)
    } else {
        utf8_lossy(b)
    }
}

fn is_hex_exec(b: u8) -> (r: bool)
    ensures
        r == is_hex_byte(b),
{
    (0x30 <= b && b <= 0x39) || (0x41 <= b && b <= 0x46) || (0x61 <= b && b <= 0x66)
}

fn hex_exec(b: u8) -> (r: u8)
    requires
        is_hex_byte(b),
    ensures
        r == hex_value(b),
        r < 16,
{
    if 0x30 <= b && b <= 0x39 {
        b - 0x30
    } else if 0x41 <= b && b <= 0x46 {
        b - 0x41 + 10
    } else {
        b - 0x61 + 10
    }
}

/// Decodes a percent-encoded query value (`+` as space).
pub fn percent_decode(s: &str) -> (r: String)
    ensures
        r@ == spec_percent_decode(s@),
        valid_utf8(percent_bytes(s@)) ==> r@ == decode_utf8(percent_bytes(s@)),
{
    let v = to_chars(s);
    let mut w: Vec<char> = Vec::new();
    let mut k: usize = 0;
    while k < v.len()
        invariant
            k <= v@.len(),
            w@ =~= plus_to_space(v@.take(k as int)),
        decreases v@.len() - k,
    {
        if v[k] == '+' {
            w.push(' ');
        } else {
            w.push(v[k]);
        }
        k = k + 1;
    }
    assert(v@.take(v@.len() as int) =~= v@);
    let replaced = chars_to_string(&w);
    let bytes = replaced.as_str().as_bytes();
    let ghost b = bytes@;
    assert(b == encode_utf8(plus_to_space(s@)));
    let mut out: Vec<u8> = Vec::new();
    let mut i: usize = 0;
    assert(b.skip(0) =~= b);
    while i < bytes.len()
        invariant
            i <= b.len(),
            b == bytes@,
            unescape_bytes(b) == out@ + unescape_bytes(b.skip(i as int)),
        decreases b.len() - i,
    {
        let ghost t = b.skip(i as int);
        let ghost before = out@;
        assert(t[0] == b[i as int]);
        if bytes[i] == 0x25 && bytes.len() - i > 2 && is_hex_exec(bytes[i + 1]) && is_hex_exec(
            bytes[i + 2],
        ) {
            let hi = hex_exec(bytes[i + 1]);
            let lo = hex_exec(bytes[i + 2]);
            out.push(hi * 16 + lo);
            assert(t[1] == b[i + 1] && t[2] == b[i + 2]);
            assert(t.skip(3) =~= b.skip(i + 3));
            assert(out@ + unescape_bytes(b.skip(i + 3)) =~= before + unescape_bytes(t));
            i = i + 3;
        } else {
            out.push(bytes[i]);
            assert(t.drop_first() =~= b.skip(i + 1));
            assert(t.len() >= 3 ==> t[1] == b[i + 1] && t[2] == b[i + 2]);
            assert(out@ + unescape_bytes(b.skip(i + 1)) =~= before + unescape_bytes(t));
            i = i + 1;
        }
    }
    assert(b.skip(i as int) =~= Seq::<u8>::empty());
    assert(out@ =~= unescape_bytes(b));
    from_utf8_lossy(out.as_slice())
}

/// The decoded value of the first `key=value` pair (pairs separated by `&`)
/// whose key is `key`.
pub open spec fn param_in(pairs: Seq<Seq<char>>, key: Seq<char>) -> Option<Seq<char>>
    decreases pairs.len(),
{
    if pairs.len() == 0 {
        None
    } else {
        match split_once(pairs[0], '=') {
            Some(kv) => if kv.0 == key {
                Some(spec_percent_decode(kv.1))
            } else {
                param_in(pairs.drop_first(), key)
            },
            None => param_in(pairs.drop_first(), key),
        }
    }
}

/// The value of parameter `key` in a query string.
pub open spec fn spec_query_param(query: Seq<char>, key: Seq<char>) -> Option<Seq<char>> {
    param_in(split(query, '&'), key)
}

/// Looks up parameter `key` in a query string and percent-decodes its value.
pub fn query_param(query: &str, key: &str) -> (r: Option<String>)
    ensures
        crate::rules::opt_view(r) == spec_query_param(query@, key@),
{
    let pairs = split_chars(&to_chars(query), '&');
    let k = to_chars(key);
    let ghost all = views(pairs@);
    let mut i: usize = 0;
    assert(all.skip(0) =~= all);
    while i < pairs.len()
        invariant
            i <= pairs@.len(),
            k@ == key@,
            all == views(pairs@),
            spec_query_param(query@, key@) == param_in(all.skip(i as int), key@),
        decreases pairs@.len() - i,
    {
        let ghost s = all.skip(i as int);
        assert(s[0] == pairs@[i as int]@);
        assert(s.drop_first() =~= all.skip(i + 1));
        match split_once_chars(&pairs[i], '=') {
            Some(kv) => {
                if chars_eq(&kv.0, &k) {
                    let value = chars_to_string(&kv.1);
                    return Some(percent_decode(value.as_str()));
                }
            },
            None => {},
        }
        i = i + 1;
    }
    assert(all.skip(i as int) =~= Seq::<Seq<char>>::empty());
    None
}

// ---------------------------------------------------------------------------
// The URL and host of a request
// ---------------------------------------------------------------------------

/// `s` without the suffix `p` when it ends with it.
pub open spec fn strip_suffix_or_keep(s: Seq<char>, p: Seq<char>) -> Seq<char> {
    if ends_with(s, p) {
        s.take(s.len() - p.len())
    } else {
        s
    }
}

/// The absolute URL rules are matched against: `scheme://host/path?query`
/// with the scheme defaulting to `https`, the authority taken from the URI or
/// else the `Host` header, the default port (`:443` for https, `:80`
/// otherwise) dropped, and the path defaulting to `/`.
pub open spec fn spec_full_url(
    scheme: Option<Seq<char>>,
    authority: Option<Seq<char>>,
    host_header: Option<Seq<char>>,
    path_and_query: Option<Seq<char>>,
) -> Seq<char> {
    let sch = match scheme {
        Some(s) => s,
        None => "https"@,
    };
    let auth = match authority {
        Some(a) => a,
        None => match host_header {
            Some(h) => h,
            None => Seq::<char>::empty(),
        },
    };
    let port = if sch == "https"@ {
        ":443"@
    } else {
        ":80"@
    };
    let path = match path_and_query {
        Some(p) => p,
        None => "/"@,
    };
    sch + "://"@ + strip_suffix_or_keep(auth, port) + path
}

/// Reconstructs the absolute URL used for filter and redirect matching from
/// the parts of a request: its URI's scheme, authority and path-and-query,
/// and its `Host` header.
pub fn full_url(
    scheme: Option<&str>,
    authority: Option<&str>,
    host_header: Option<&str>,
    path_and_query: Option<&str>,
) -> (r: String)
    ensures
        r@ == spec_full_url(
            opt_str(scheme),
            opt_str(authority),
            opt_str(host_header),
            opt_str(path_and_query),
        ),
{
    let sch = match scheme {
        Some(s) => to_chars(s),
        None => to_chars("https"),
    };
    let auth = match authority {
        Some(a) => to_chars(a),
        None => match host_header {
            Some(h) => to_chars(h),
            None => Vec::new(),
        },
    };
    let port = if chars_eq(&sch, &to_chars("https")) {
        to_chars(":443")
    } else {
        to_chars(":80")
    };
    let host = if ends_with_exec(&auth, &port) {
        sub_chars(&auth, 0, auth.len() - port.len())
    } else {
        sub_chars(&auth, 0, auth.len())
    };
    assert(auth@.subrange(0, auth@.len() as int) =~= auth@);
    assert(auth@.subrange(0, auth@.len() - port@.len()) =~= auth@.take(
        auth@.len() - port@.len(),
    ));
    let path = match path_and_query {
        Some(p) => to_chars(p),
        None => to_chars("/"),
    };
    let mut v: Vec<char> = Vec::new();
    extend_chars(&mut v, &sch);
    extend_chars(&mut v, &to_chars("://"));
    extend_chars(&mut v, &host);
    extend_chars(&mut v, &path);
    chars_to_string(&v)
}

/// The host a request is for, in lower case: the URI's host, or else the
/// `Host` header up to its first `:`.
pub open spec fn spec_request_host(uri_host: Option<Seq<char>>, host_header: Option<Seq<char>>) -> Option<
    Seq<char>,
> {
    match uri_host {
        Some(h) => Some(ascii_lower(h)),
        None => match host_header {
            Some(h) => Some(ascii_lower(split(h, ':')[0])),
            None => None,
        },
    }
}

/// The lower-cased host of a request, from its URI host or its `Host` header.
pub fn request_host(uri_host: Option<&str>, host_header: Option<&str>) -> (r: Option<String>)
    ensures
        crate::rules::opt_view(r) == spec_request_host(opt_str(uri_host), opt_str(host_header)),
{
    match uri_host {
        Some(h) => Some(chars_to_string(&ascii_lowercase(&to_chars(h)))),
        None => match host_header {
            Some(h) => {
                let pieces = split_chars(&to_chars(h), ':');
                proof {
                    crate::text::lemma_split_nonempty(h@, ':');
                }
                Some(chars_to_string(&ascii_lowercase(&pieces[0])))
            },
            None => None,
        },
    }
}

// ---------------------------------------------------------------------------
// The inspector page
// ---------------------------------------------------------------------------

/// The inspector page up to the description of its scope.
pub const PAGE_HEAD: &'static str = "<!doctype html><html><head><meta charset=utf-8><title>ReHeader inspector</title>\n<style>\nbody{font:14px/1.5 -apple-system,Segoe UI,Roboto,sans-serif;background:#0f1116;color:#e6e9ee;max-width:820px;margin:32px auto;padding:0 16px}\nh1{font-size:18px} h2{font-size:14px;margin:22px 0 8px;color:#8b93a1;text-transform:uppercase;letter-spacing:.5px}\n.tag{color:#6d5ef2;font-weight:700}\ntable{width:100%;border-collapse:collapse;font-size:13px}\ntd{padding:6px 8px;border-bottom:1px solid #2d323c;vertical-align:top;word-break:break-all}\ntr.hl td{background:#6d5ef21f} tr.hl td:first-child::after{content:' ← added by ReHeader';color:#6d5ef2;font-size:11px}\ntd.add{color:#10b981;font-weight:700} td.rem{color:#ef4444;font-weight:700} td.none{color:#8b93a1}\n.note{color:#8b93a1;font-size:12.5px;margin-top:18px;border-top:1px solid #2d323c;padding-top:12px}\ncode{background:#1e2128;padding:1px 5px;border-radius:4px}\n</style></head><body>\n<h1><span class=tag>ReHeader</span> request inspector</h1>\n<p>Showing header changes for ";

/// The inspector page between the scope and the change rows.
pub const PAGE_AFTER_SCOPE: &'static str = ".</p>\n<h2>Changes ReHeader applies</h2>\n<table>";

/// The inspector page between the change rows and the outgoing-header rows.
pub const PAGE_AFTER_CHANGES: &'static str = "</table>\n<h2>Outgoing request headers (this page)</h2>\n<p style=\"color:#8b93a1;font-size:12.5px;margin:0 0 8px\">This is what ReHeader actually sends upstream for this request — the highlighted rows are your injected headers. The server receives exactly this.</p>\n<table>";

/// The end of the inspector page.
pub const PAGE_TAIL: &'static str = "</table>\n<p class=note>Your browser's DevTools shows the headers the browser sent to ReHeader, so it can't display request headers ReHeader adds afterward — that's why they appear here instead. To check a specific site (respecting URL filters), visit <code>http://reheader.echo/?url=https://your-site.com/path</code>. Response-header changes are visible normally in DevTools.</p>\n</body></html>";

/// The table row listing one request-header change.
pub open spec fn change_row(a: ActionView) -> Seq<char> {
    match a.op {
        HeaderOp::Assign => "<tr><td class=add>ADD</td><td>"@ + escaped(a.name) + "</td><td>"@
            + escaped(a.value) + "</td></tr>"@,
        HeaderOp::Remove => "<tr><td class=rem>REMOVE</td><td>"@ + escaped(a.name)
            + "</td><td>—</td></tr>"@,
    }
}

/// The rows of all changes, in order.
pub open spec fn change_rows(ops: Seq<ActionView>) -> Seq<char>
    decreases ops.len(),
{
    if ops.len() == 0 {
        Seq::<char>::empty()
    } else {
        change_rows(ops.drop_last()) + change_row(ops.last())
    }
}

/// The change table's rows, or a note that nothing changes.
pub open spec fn changes_html(ops: Seq<ActionView>) -> Seq<char> {
    if ops.len() == 0 {
        "<tr><td colspan=3 class=none>No request-header changes apply here.</td></tr>"@
    } else {
        change_rows(ops)
    }
}

/// One outgoing header as shown: name, value and whether it was injected.
#[verifier::ext_equal]
pub struct EchoRow {
    pub name: Seq<char>,
    pub value: Seq<char>,
    pub injected: bool,
}

/// Some change concerns header `name`.
pub open spec fn changed_name(ops: Seq<ActionView>, name: Seq<char>) -> bool {
    exists|i: int| 0 <= i < ops.len() && crate::text::ci_eq(#[trigger] ops[i].name, name)
}

/// The incoming headers that no change concerns, in order.
pub open spec fn kept_rows(incoming: Seq<(Seq<char>, Seq<char>)>, ops: Seq<ActionView>) -> Seq<
    EchoRow,
>
    decreases incoming.len(),
{
    if incoming.len() == 0 {
        Seq::<EchoRow>::empty()
    } else {
        let prev = kept_rows(incoming.drop_last(), ops);
        let h = incoming.last();
        if changed_name(ops, h.0) {
            prev
        } else {
            prev.push(EchoRow { name: h.0, value: h.1, injected: false })
        }
    }
}

/// The headers the changes set, in order.
pub open spec fn injected_rows(ops: Seq<ActionView>) -> Seq<EchoRow>
    decreases ops.len(),
{
    if ops.len() == 0 {
        Seq::<EchoRow>::empty()
    } else {
        let prev = injected_rows(ops.drop_last());
        let a = ops.last();
        if a.op == HeaderOp::Assign {
            prev.push(EchoRow { name: a.name, value: a.value, injected: true })
        } else {
            prev
        }
    }
}

/// `a` comes no later than `b` in lexicographic order of code points (the
/// order of `String` comparison).
pub open spec fn lex_le(a: Seq<char>, b: Seq<char>) -> bool
    decreases a.len(),
{
    if a.len() == 0 {
        true
    } else if b.len() == 0 {
        false
    } else if (a[0] as u32) < (b[0] as u32) {
        true
    } else if (a[0] as u32) > (b[0] as u32) {
        false
    } else {
        lex_le(a.drop_first(), b.drop_first())
    }
}

/// The key rows are ordered by: the lower-cased name.
pub open spec fn row_key(r: EchoRow) -> Seq<char> {
    ascii_lower(r.name)
}

/// `t` with `x` inserted after every row whose key is not greater than its key.
pub open spec fn insert_row(t: Seq<EchoRow>, x: EchoRow) -> Seq<EchoRow>
    decreases t.len(),
{
    if t.len() == 0 {
        seq![x]
    } else if lex_le(row_key(t.last()), row_key(x)) {
        t.push(x)
    } else {
        insert_row(t.drop_last(), x).push(t.last())
    }
}

/// The rows stably sorted by key: rows with equal keys keep their order.
pub open spec fn sort_rows(s: Seq<EchoRow>) -> Seq<EchoRow>
    decreases s.len(),
{
    if s.len() == 0 {
        s
    } else {
        insert_row(sort_rows(s.drop_last()), s.last())
    }
}

/// The rows are in order of their keys.
pub open spec fn rows_sorted(t: Seq<EchoRow>) -> bool {
    forall|i: int, j: int|
        0 <= i < j < t.len() ==> lex_le(row_key(#[trigger] t[i]), row_key(#[trigger] t[j]))
}

/// Any two sequences of code points are ordered one way or the other.
pub proof fn lemma_lex_le_total(a: Seq<char>, b: Seq<char>)
    ensures
        lex_le(a, b) || lex_le(b, a),
    decreases a.len(),
{
    if a.len() > 0 && b.len() > 0 && (a[0] as u32) == (b[0] as u32) {
        lemma_lex_le_total(a.drop_first(), b.drop_first());
    }
}

/// The order of code-point sequences is transitive.
pub proof fn lemma_lex_le_transitive(a: Seq<char>, b: Seq<char>, c: Seq<char>)
    requires
        lex_le(a, b),
        lex_le(b, c),
    ensures
        lex_le(a, c),
    decreases a.len(),
{
    if a.len() > 0 && b.len() > 0 && c.len() > 0 && (a[0] as u32) == (b[0] as u32) && (b[0]
        as u32) == (c[0] as u32) {
        lemma_lex_le_transitive(a.drop_first(), b.drop_first(), c.drop_first());
    }
}

/// Inserting a row into sorted rows keeps them sorted, and adds just that row.
proof fn lemma_insert_row_sorted(t: Seq<EchoRow>, x: EchoRow)
    requires
        rows_sorted(t),
    ensures
        rows_sorted(insert_row(t, x)),
        insert_row(t, x).to_multiset() == t.to_multiset().insert(x),
    decreases t.len(),
{
    broadcast use vstd::seq_lib::group_to_multiset_ensures;

    let r = insert_row(t, x);
    if t.len() == 0 {
        assert(seq![x] =~= Seq::<EchoRow>::empty().push(x));
        assert(t =~= Seq::<EchoRow>::empty());
    } else if lex_le(row_key(t.last()), row_key(x)) {
        assert forall|i: int, j: int| 0 <= i < j < r.len() implies lex_le(
            row_key(#[trigger] r[i]),
            row_key(#[trigger] r[j]),
        ) by {
            if j == t.len() {
                if i < t.len() - 1 {
                    lemma_lex_le_transitive(row_key(t[i]), row_key(t.last()), row_key(x));
                }
            } else {
                assert(r[i] == t[i] && r[j] == t[j]);
            }
        }
    } else {
        let d = t.drop_last();
        let last = t.last();
        assert(rows_sorted(d)) by {
            assert forall|i: int, j: int| 0 <= i < j < d.len() implies lex_le(
                row_key(#[trigger] d[i]),
                row_key(#[trigger] d[j]),
            ) by {
                assert(d[i] == t[i] && d[j] == t[j]);
            }
        }
        lemma_insert_row_sorted(d, x);
        let m = insert_row(d, x);
        lemma_lex_le_total(row_key(last), row_key(x));
        assert(t =~= d.push(last));
        assert forall|k: int| 0 <= k < m.len() implies lex_le(
            row_key(#[trigger] m[k]),
            row_key(last),
        ) by {
            assert(m.to_multiset().count(m[k]) > 0);
            if m[k] != x {
                assert(d.to_multiset().count(m[k]) > 0);
                let w = choose|w: int| 0 <= w < d.len() && d[w] == m[k];
                assert(t[w] == d[w] && t[t.len() - 1] == last);
            }
        }
        assert forall|i: int, j: int| 0 <= i < j < r.len() implies lex_le(
            row_key(#[trigger] r[i]),
            row_key(#[trigger] r[j]),
        ) by {
            if j == m.len() {
                assert(r[i] == m[i]);
            } else {
                assert(r[i] == m[i] && r[j] == m[j]);
            }
        }
        assert(r.to_multiset() =~= m.to_multiset().insert(last));
        assert(t.to_multiset() =~= d.to_multiset().insert(last));
    }
}

/// Sorting gives the same rows, in order of their keys.
pub proof fn lemma_sort_rows(s: Seq<EchoRow>)
    ensures
        rows_sorted(sort_rows(s)),
        sort_rows(s).to_multiset() == s.to_multiset(),
    decreases s.len(),
{
    broadcast use vstd::seq_lib::group_to_multiset_ensures;

    if s.len() > 0 {
        lemma_sort_rows(s.drop_last());
        lemma_insert_row_sorted(sort_rows(s.drop_last()), s.last());
        assert(s =~= s.drop_last().push(s.last()));
    }
}

/// The inspector lists the outgoing headers in order of their lower-cased
/// names, each of them exactly once: the incoming headers that no change
/// concerns and the headers the changes set.
pub proof fn lemma_outgoing_sorted(incoming: Seq<(Seq<char>, Seq<char>)>, ops: Seq<ActionView>)
    ensures
        rows_sorted(outgoing(incoming, ops)),
        outgoing(incoming, ops).to_multiset() == (kept_rows(incoming, ops) + injected_rows(
            ops,
        )).to_multiset(),
{
    lemma_sort_rows(kept_rows(incoming, ops) + injected_rows(ops));
}

/// The table row of one outgoing header.
pub open spec fn outgoing_row(r: EchoRow) -> Seq<char> {
    "<tr class="@ + (if r.injected {
        "hl"@
    } else {
        ""@
    }) + "><td>"@ + escaped(r.name) + "</td><td>"@ + escaped(r.value) + "</td></tr>"@
}

/// The rows of outgoing headers, in order.
pub open spec fn outgoing_rows(rows: Seq<EchoRow>) -> Seq<char>
    decreases rows.len(),
{
    if rows.len() == 0 {
        Seq::<char>::empty()
    } else {
        outgoing_rows(rows.drop_last()) + outgoing_row(rows.last())
    }
}

/// The headers actually sent for the page load: the incoming ones no change
/// concerns, and the ones the changes set, sorted by lower-cased name.
pub open spec fn outgoing(incoming: Seq<(Seq<char>, Seq<char>)>, ops: Seq<ActionView>) -> Seq<
    EchoRow,
> {
    sort_rows(kept_rows(incoming, ops) + injected_rows(ops))
}

/// The inspector page for a scope description, a plan and the incoming
/// request headers.
pub open spec fn spec_render_echo(
    scope: Seq<char>,
    ops: Seq<ActionView>,
    incoming: Seq<(Seq<char>, Seq<char>)>,
) -> Seq<char> {
    PAGE_HEAD@ + scope + PAGE_AFTER_SCOPE@ + changes_html(ops) + PAGE_AFTER_CHANGES@
        + outgoing_rows(outgoing(incoming, ops)) + PAGE_TAIL@
}

/// The views of (name, value) pairs.
pub open spec fn pairs_view(v: Seq<(String, String)>) -> Seq<(Seq<char>, Seq<char>)> {
    v.map_values(|p: (String, String)| (p.0@, p.1@))
}

struct OutRow {
    name: Vec<char>,
    value: Vec<char>,
    injected: bool,
}

impl View for OutRow {
    type V = EchoRow;

    closed spec fn view(&self) -> EchoRow {
        EchoRow { name: self.name@, value: self.value@, injected: self.injected }
    }
}

spec fn rows_view(v: Seq<OutRow>) -> Seq<EchoRow> {
    v.map_values(|r: OutRow| r@)
}

fn copy_chars(v: &Vec<char>) -> (r: Vec<char>)
    ensures
        r@ == v@,
{
    let r = sub_chars(v, 0, v.len());
    assert(v@.subrange(0, v@.len() as int) =~= v@);
    r
}

fn copy_row(r: &OutRow) -> (o: OutRow)
    ensures
        o@ == r@,
{
    OutRow { name: copy_chars(&r.name), value: copy_chars(&r.value), injected: r.injected }
}

fn change_rows_exec(ops: &Vec<HeaderAction>) -> (r: Vec<char>)
    ensures
        r@ == changes_html(actions_view(ops@)),
{
    if ops.len() == 0 {
        return to_chars("<tr><td colspan=3 class=none>No request-header changes apply here.</td></tr>");
    }
    let ghost all = actions_view(ops@);
    let mut out: Vec<char> = Vec::new();
    let mut i: usize = 0;
    assert(all.take(0) =~= Seq::<ActionView>::empty());
    while i < ops.len()
        invariant
            i <= ops@.len(),
            all == actions_view(ops@),
            out@ == change_rows(all.take(i as int)),
        decreases ops@.len() - i,
    {
        proof {
            assert(all.take(i + 1).drop_last() =~= all.take(i as int));
            assert(all.take(i + 1).last() == ops@[i as int]@);
        }
        let op = &ops[i];
        let name = escape_chars(&to_chars(op.name.as_str()));
        let ghost before = out@;
        match op.op {
            HeaderOp::Assign => {
                extend_chars(&mut out, &to_chars("<tr><td class=add>ADD</td><td>"));
                extend_chars(&mut out, &name);
                extend_chars(&mut out, &to_chars("</td><td>"));
                extend_chars(&mut out, &escape_chars(&to_chars(op.value.as_str())));
                extend_chars(&mut out, &to_chars("</td></tr>"));
            },
            HeaderOp::Remove => {
                extend_chars(&mut out, &to_chars("<tr><td class=rem>REMOVE</td><td>"));
                extend_chars(&mut out, &name);
                extend_chars(&mut out, &to_chars("</td><td>—</td></tr>"));
            },
        }
        assert(out@ =~= before + change_row(ops@[i as int]@));
        i = i + 1;
    }
    assert(all.take(ops@.len() as int) =~= all);
    out
}

fn changed_name_exec(ops: &Vec<HeaderAction>, name: &[char]) -> (r: bool)
    ensures
        r == changed_name(actions_view(ops@), name@),
{
    let mut i: usize = 0;
    while i < ops.len()
        invariant
            i <= ops@.len(),
            forall|j: int|
                0 <= j < i ==> !crate::text::ci_eq(
                    #[trigger] actions_view(ops@)[j].name,
                    name@,
                ),
        decreases ops@.len() - i,
    {
        if crate::text::eq_ignore_ascii_case(&to_chars(ops[i].name.as_str()), name) {
            assert(crate::text::ci_eq(actions_view(ops@)[i as int].name, name@));
            return true;
        }
        i = i + 1;
    }
    false
}

fn kept_rows_exec(incoming: &Vec<(String, String)>, ops: &Vec<HeaderAction>) -> (r: Vec<OutRow>)
    ensures
        rows_view(r@) == kept_rows(pairs_view(incoming@), actions_view(ops@)),
{
    let ghost all = pairs_view(incoming@);
    let mut out: Vec<OutRow> = Vec::new();
    let mut i: usize = 0;
    assert(all.take(0) =~= Seq::<(Seq<char>, Seq<char>)>::empty());
    while i < incoming.len()
        invariant
            i <= incoming@.len(),
            all == pairs_view(incoming@),
            rows_view(out@) =~= kept_rows(all.take(i as int), actions_view(ops@)),
        decreases incoming@.len() - i,
    {
        proof {
            assert(all.take(i + 1).drop_last() =~= all.take(i as int));
            assert(all.take(i + 1).last() == all[i as int]);
        }
        let name = to_chars(incoming[i].0.as_str());
        if !changed_name_exec(ops, &name) {
            let row = OutRow { name, value: to_chars(incoming[i].1.as_str()), injected: false };
            out.push(row);
        }
        i = i + 1;
    }
    assert(all.take(incoming@.len() as int) =~= all);
    out
}

fn injected_rows_exec(ops: &Vec<HeaderAction>, out: &mut Vec<OutRow>)
    ensures
        rows_view(final(out)@) == rows_view(old(out)@) + injected_rows(actions_view(ops@)),
{
    let ghost all = actions_view(ops@);
    let ghost start = rows_view(out@);
    let mut i: usize = 0;
    assert(all.take(0) =~= Seq::<ActionView>::empty());
    assert(rows_view(out@) =~= start + injected_rows(all.take(0)));
    while i < ops.len()
        invariant
            i <= ops@.len(),
            all == actions_view(ops@),
            start == rows_view(old(out)@),
            rows_view(out@) =~= start + injected_rows(all.take(i as int)),
        decreases ops@.len() - i,
    {
        proof {
            assert(all.take(i + 1).drop_last() =~= all.take(i as int));
            assert(all.take(i + 1).last() == ops@[i as int]@);
        }
        let op = &ops[i];
        let ghost before = rows_view(out@);
        if op.op == HeaderOp::Assign {
            let row = OutRow {
                name: to_chars(op.name.as_str()),
                value: to_chars(op.value.as_str()),
                injected: true,
            };
            out.push(row);
            assert(rows_view(out@) =~= before.push(
                EchoRow { name: op.name@, value: op.value@, injected: true },
            ));
        }
        i = i + 1;
    }
    assert(all.take(ops@.len() as int) =~= all);
}

fn lex_le_exec(a: &[char], b: &[char]) -> (r: bool)
    ensures
        r == lex_le(a@, b@),
{
    let mut i: usize = 0;
    assert(a@.skip(0) =~= a@);
    assert(b@.skip(0) =~= b@);
    while i < a.len() && i < b.len() && a[i] == b[i]
        invariant
            i <= a@.len(),
            i <= b@.len(),
            lex_le(a@, b@) == lex_le(a@.skip(i as int), b@.skip(i as int)),
        decreases a@.len() - i,
    {
        assert(a@.skip(i as int).drop_first() =~= a@.skip(i + 1));
        assert(b@.skip(i as int).drop_first() =~= b@.skip(i + 1));
        i = i + 1;
    }
    if i == a.len() {
        return true;
    }
    if i == b.len() {
        return false;
    }
    assert(a@.skip(i as int)[0] == a@[i as int]);
    assert(b@.skip(i as int)[0] == b@[i as int]);
    let x = a[i];
    let y = b[i];
    proof {
        vstd::utf8::char_u32_cast(x, x as u32);
        vstd::utf8::char_u32_cast(y, y as u32);
    }
    (x as u32) < (y as u32)
}

proof fn lemma_insert_at(t: Seq<EchoRow>, x: EchoRow, j: int)
    requires
        0 <= j <= t.len(),
        j == 0 || lex_le(row_key(t[j - 1]), row_key(x)),
        forall|k: int| j <= k < t.len() ==> !lex_le(row_key(#[trigger] t[k]), row_key(x)),
    ensures
        insert_row(t, x) == t.insert(j, x),
    decreases t.len(),
{
    if j == t.len() {
        if t.len() == 0 {
            assert(t.insert(j, x) =~= seq![x]);
        } else {
            assert(t.last() == t[j - 1]);
            assert(t.insert(j, x) =~= t.push(x));
        }
    } else {
        assert(t.last() == t[t.len() - 1]);
        let d = t.drop_last();
        assert forall|k: int| j <= k < d.len() implies !lex_le(row_key(#[trigger] d[k]), row_key(x)) by {
            assert(d[k] == t[k]);
        }
        if j > 0 {
            assert(d[j - 1] == t[j - 1]);
        }
        lemma_insert_at(d, x, j);
        assert(t.insert(j, x) =~= d.insert(j, x).push(t.last()));
    }
}

fn sort_rows_exec(rows: &Vec<OutRow>) -> (r: Vec<OutRow>)
    ensures
        rows_view(r@) == sort_rows(rows_view(rows@)),
{
    let ghost all = rows_view(rows@);
    let mut out: Vec<OutRow> = Vec::new();
    let mut i: usize = 0;
    assert(all.take(0) =~= Seq::<EchoRow>::empty());
    while i < rows.len()
        invariant
            i <= rows@.len(),
            all == rows_view(rows@),
            rows_view(out@) == sort_rows(all.take(i as int)),
        decreases rows@.len() - i,
    {
        proof {
            assert(all.take(i + 1).drop_last() =~= all.take(i as int));
            assert(all.take(i + 1).last() == rows@[i as int]@);
        }
        let x = copy_row(&rows[i]);
        let xkey = ascii_lowercase(&x.name);
        let ghost t = rows_view(out@);
        let mut j: usize = out.len();
        while j > 0 && !lex_le_exec(&ascii_lowercase(&out[j - 1].name), &xkey)
            invariant
                j <= out@.len(),
                t == rows_view(out@),
                xkey@ == row_key(x@),
                forall|k: int| j <= k < t.len() ==> !lex_le(row_key(#[trigger] t[k]), row_key(x@)),
            decreases j,
        {
            assert(t[j - 1] == out@[j - 1]@);
            j = j - 1;
        }
        proof {
            if j > 0 {
                assert(t[j - 1] == out@[j - 1]@);
            }
            lemma_insert_at(t, x@, j as int);
        }
        out.insert(j, x);
        assert(rows_view(out@) =~= t.insert(j as int, x@));
        i = i + 1;
    }
    assert(all.take(rows@.len() as int) =~= all);
    out
}

fn outgoing_rows_exec(rows: &Vec<OutRow>) -> (r: Vec<char>)
    ensures
        r@ == outgoing_rows(rows_view(rows@)),
{
    let ghost all = rows_view(rows@);
    let mut out: Vec<char> = Vec::new();
    let mut i: usize = 0;
    assert(all.take(0) =~= Seq::<EchoRow>::empty());
    while i < rows.len()
        invariant
            i <= rows@.len(),
            all == rows_view(rows@),
            out@ == outgoing_rows(all.take(i as int)),
        decreases rows@.len() - i,
    {
        proof {
            assert(all.take(i + 1).drop_last() =~= all.take(i as int));
            assert(all.take(i + 1).last() == rows@[i as int]@);
        }
        let row = &rows[i];
        let ghost before = out@;
        extend_chars(&mut out, &to_chars("<tr class="));
        if row.injected {
            extend_chars(&mut out, &to_chars("hl"));
        } else {
            extend_chars(&mut out, &to_chars(""));
        }
        extend_chars(&mut out, &to_chars("><td>"));
        extend_chars(&mut out, &escape_chars(&row.name));
        extend_chars(&mut out, &to_chars("</td><td>"));
        extend_chars(&mut out, &escape_chars(&row.value));
        extend_chars(&mut out, &to_chars("</td></tr>"));
        assert(out@ =~= before + outgoing_row(rows@[i as int]@));
        i = i + 1;
    }
    assert(all.take(rows@.len() as int) =~= all);
    out
}

/// Renders the inspector page: the request-header changes of `plan`, and
/// the headers actually sent for this page load (`incoming`, the request's
/// own headers, with the changes applied), sorted by lower-cased name.
pub fn render_echo(scope: &str, plan: &Plan, incoming: &Vec<(String, String)>) -> (r: String)
    ensures
        r@ == spec_render_echo(scope@, plan@.request_headers, pairs_view(incoming@)),
{
    let ops = &plan.request_headers;
    let changes = change_rows_exec(ops);
    let mut merged = kept_rows_exec(incoming, ops);
    injected_rows_exec(ops, &mut merged);
    let sorted = sort_rows_exec(&merged);
    let rows = outgoing_rows_exec(&sorted);
    let mut v: Vec<char> = Vec::new();
    extend_chars(&mut v, &to_chars(PAGE_HEAD));
    extend_chars(&mut v, &to_chars(scope));
    extend_chars(&mut v, &to_chars(PAGE_AFTER_SCOPE));
    extend_chars(&mut v, &changes);
    extend_chars(&mut v, &to_chars(PAGE_AFTER_CHANGES));
    extend_chars(&mut v, &rows);
    extend_chars(&mut v, &to_chars(PAGE_TAIL));
    chars_to_string(&v)
}

/// How the inspector page describes what it shows.
pub open spec fn spec_echo_scope(target: Option<Seq<char>>) -> Seq<char> {
    match target {
        Some(u) => "requests matching <code>"@ + escaped(u) + "</code>"@,
        None => "all requests (URL filters ignored here)"@,
    }
}

/// The inspector page for a request with the given query string: with
/// `?url=<target>`, the changes that apply to that URL (filters respected);
/// without, every configured change (filters ignored).
pub open spec fn spec_echo_report(
    c: crate::rules::RuleSet,
    query: Option<Seq<char>>,
    incoming: Seq<(Seq<char>, Seq<char>)>,
) -> Seq<char> {
    let target = match query {
        Some(q) => spec_query_param(q, "url"@),
        None => None,
    };
    let plan = match target {
        Some(u) => crate::rules::spec_plan(c, u),
        None => crate::rules::spec_global_plan(c),
    };
    spec_render_echo(spec_echo_scope(target), plan.request_headers, incoming)
}

/// Builds the inspector page for a request with query string `query` and
/// request headers `incoming`.
pub fn echo_report(compiled: &Compiled, query: Option<&str>, incoming: &Vec<(String, String)>) -> (r:
    String)
    ensures
        r@ == spec_echo_report(compiled@, opt_str(query), pairs_view(incoming@)),
{
    let target = match query {
        Some(q) => query_param(q, "url"),
        None => None,
    };
    match target {
        Some(u) => {
            let mut scope = String::from_str("requests matching <code>");
            let esc = html_escape(u.as_str());
            scope.append(esc.as_str());
            scope.append("</code>");
            let plan = compiled.plan_for(u.as_str());
            render_echo(scope.as_str(), &plan, incoming)
        },
        None => {
            let scope = String::from_str("all requests (URL filters ignored here)");
            let plan = compiled.global_plan();
            render_echo(scope.as_str(), &plan, incoming)
        },
    }
}

// ---------------------------------------------------------------------------
// Deciding what to do with a request
// ---------------------------------------------------------------------------

/// The host the browser can visit to see what the proxy does.
pub const ECHO_HOST: &'static str = "reheader.echo";

/// What the proxy knows of a request before it decides.
pub struct RequestParts {
    /// The method is `CONNECT` (tunnel setup).
    pub is_connect: bool,
    /// The URI's scheme.
    pub scheme: Option<String>,
    /// The URI's authority.
    pub authority: Option<String>,
    /// The URI's host.
    pub uri_host: Option<String>,
    /// The `Host` header, when it is readable text.
    pub host_header: Option<String>,
    /// The URI's path and query.
    pub path_and_query: Option<String>,
    /// The URI's query.
    pub query: Option<String>,
    /// The request headers as (name, value) pairs.
    pub headers: Vec<(String, String)>,
}

/// What to do with a request.
pub enum Decision {
    /// Pass it on unchanged.
    PassThrough,
    /// Answer with this inspector page.
    Echo(String),
    /// Answer with a temporary redirect to this URL.
    Redirect(String),
    /// Forward it with the request edits applied; apply the response edits
    /// to the answer, and in verify mode add the summary header.
    Forward { request_headers: Vec<HeaderAction>, response_headers: Vec<HeaderAction>, applied: Option<String> },
}

/// A decision as plain values.
pub enum DecisionView {
    PassThrough,
    Echo(Seq<char>),
    Redirect(Seq<char>),
    Forward {
        request_headers: Seq<ActionView>,
        response_headers: Seq<ActionView>,
        applied: Option<Seq<char>>,
    },
}

impl View for Decision {
    type V = DecisionView;

    open spec fn view(&self) -> DecisionView {
        match self {
            Decision::PassThrough => DecisionView::PassThrough,
            Decision::Echo(s) => DecisionView::Echo(s@),
            Decision::Redirect(s) => DecisionView::Redirect(s@),
            Decision::Forward { request_headers, response_headers, applied } => DecisionView::Forward {
                request_headers: actions_view(request_headers@),
                response_headers: actions_view(response_headers@),
                applied: crate::rules::opt_view(*applied),
            },
        }
    }
}

/// The URL a request is matched by.
pub open spec fn request_url(r: RequestParts) -> Seq<char> {
    spec_full_url(
        crate::rules::opt_view(r.scheme),
        crate::rules::opt_view(r.authority),
        crate::rules::opt_view(r.host_header),
        crate::rules::opt_view(r.path_and_query),
    )
}

/// The decision for a request: `CONNECT` passes untouched; the echo host gets
/// the inspector page; a matching redirect answers with a redirect; anything
/// else is forwarded with the plan's edits, and in verify mode with the
/// summary of what was applied.
pub open spec fn spec_decide(c: crate::rules::RuleSet, verify: bool, r: RequestParts) -> DecisionView {
    if r.is_connect {
        DecisionView::PassThrough
    } else if spec_request_host(crate::rules::opt_view(r.uri_host), crate::rules::opt_view(r.host_header))
        == Some(ECHO_HOST@) {
        DecisionView::Echo(spec_echo_report(c, crate::rules::opt_view(r.query), pairs_view(r.headers@)))
    } else {
        let plan = crate::rules::spec_plan(c, request_url(r));
        match plan.redirect_to {
            Some(t) => DecisionView::Redirect(t),
            None => DecisionView::Forward {
                request_headers: plan.request_headers,
                response_headers: plan.response_headers,
                applied: if verify {
                    Some(spec_verify_summary(plan))
                } else {
                    None
                },
            },
        }
    }
}

fn as_opt_str(o: &Option<String>) -> (r: Option<&str>)
    ensures
        opt_str(r) == crate::rules::opt_view(*o),
{
    match o {
        Some(s) => Some(s.as_str()),
        None => None,
    }
}

/// Decides what to do with a request, given the current ruleset and whether
/// verify mode is on.
pub fn decide_request(compiled: &Compiled, verify: bool, req: &RequestParts) -> (r: Decision)
    ensures
        r@ == spec_decide(compiled@, verify, *req),
{
    if req.is_connect {
        return Decision::PassThrough;
    }
    let host = request_host(as_opt_str(&req.uri_host), as_opt_str(&req.host_header));
    let is_echo = match &host {
        Some(h) => chars_eq(&to_chars(h.as_str()), &to_chars(ECHO_HOST)),
        None => false,
    };
    if is_echo {
        return Decision::Echo(echo_report(compiled, as_opt_str(&req.query), &req.headers));
    }
    let url = full_url(
        as_opt_str(&req.scheme),
        as_opt_str(&req.authority),
        as_opt_str(&req.host_header),
        as_opt_str(&req.path_and_query),
    );
    let plan = compiled.plan_for(url.as_str());
    let applied = if verify {
        Some(verify_summary(&plan))
    } else {
        None
    };
    match plan.redirect_to {
        Some(t) => Decision::Redirect(t),
        None => Decision::Forward {
            request_headers: plan.request_headers,
            response_headers: plan.response_headers,
            applied,
        },
    }
}

/// The decision for a request when the ruleset cannot be read: `CONNECT`
/// and every other request pass untouched, except that the echo host gets an
/// inspector page that says the rules are unavailable and lists no change.
pub open spec fn spec_decide_without_rules(r: RequestParts) -> DecisionView {
    if !r.is_connect && spec_request_host(
        crate::rules::opt_view(r.uri_host),
        crate::rules::opt_view(r.host_header),
    ) == Some(ECHO_HOST@) {
        DecisionView::Echo(
            spec_render_echo(
                "rules unavailable"@,
                Seq::<ActionView>::empty(),
                pairs_view(r.headers@),
            ),
        )
    } else {
        DecisionView::PassThrough
    }
}

/// Decides what to do with a request when the ruleset cannot be read.
pub fn decide_without_rules(req: &RequestParts) -> (r: Decision)
    ensures
        r@ == spec_decide_without_rules(*req),
{
    if req.is_connect {
        return Decision::PassThrough;
    }
    let host = request_host(as_opt_str(&req.uri_host), as_opt_str(&req.host_header));
    let is_echo = match &host {
        Some(h) => chars_eq(&to_chars(h.as_str()), &to_chars(ECHO_HOST)),
        None => false,
    };
    if is_echo {
        let plan = crate::rules::new_empty_plan();
        Decision::Echo(render_echo("rules unavailable", &plan, &req.headers))
    } else {
        Decision::PassThrough
    }
}

/// With `?url=<u>` the inspector lists the request-header changes planned
/// for `u`, its URL filters respected, under a scope line naming `u`.
pub proof fn lemma_echo_for_url_shows_its_plan(
    c: crate::rules::RuleSet,
    q: Seq<char>,
    incoming: Seq<(Seq<char>, Seq<char>)>,
    u: Seq<char>,
)
    requires
        spec_query_param(q, "url"@) == Some(u),
    ensures
        spec_echo_report(c, Some(q), incoming) == spec_render_echo(
            "requests matching <code>"@ + escaped(u) + "</code>"@,
            crate::rules::spec_plan(c, u).request_headers,
            incoming,
        ),
{
}

/// Without a `url` parameter the inspector lists every configured
/// request-header change, URL filters ignored.
pub proof fn lemma_echo_without_url_shows_every_change(
    c: crate::rules::RuleSet,
    query: Option<Seq<char>>,
    incoming: Seq<(Seq<char>, Seq<char>)>,
)
    requires
        query is None || spec_query_param(query->0, "url"@) is None,
    ensures
        spec_echo_report(c, query, incoming) == spec_render_echo(
            "all requests (URL filters ignored here)"@,
            crate::rules::spec_global_plan(c).request_headers,
            incoming,
        ),
{
}

/// With `?url=<u>`, when nothing is planned for `u` (every profile's filters
/// pass it by, say) the change table holds only the note that no change
/// applies, whatever the profiles would do elsewhere.
pub proof fn lemma_echo_for_unplanned_url_lists_nothing(
    c: crate::rules::RuleSet,
    q: Seq<char>,
    incoming: Seq<(Seq<char>, Seq<char>)>,
    u: Seq<char>,
)
    requires
        spec_query_param(q, "url"@) == Some(u),
        crate::rules::spec_plan(c, u).request_headers.len() == 0,
    ensures
        spec_echo_report(c, Some(q), incoming) == PAGE_HEAD@ + ("requests matching <code>"@
            + escaped(u) + "</code>"@) + PAGE_AFTER_SCOPE@
            + "<tr><td colspan=3 class=none>No request-header changes apply here.</td></tr>"@
            + PAGE_AFTER_CHANGES@ + outgoing_rows(outgoing(incoming, Seq::<ActionView>::empty()))
            + PAGE_TAIL@,
{
    assert(crate::rules::spec_plan(c, u).request_headers =~= Seq::<ActionView>::empty());
}

} // verus!
