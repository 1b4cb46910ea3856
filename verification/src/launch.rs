//! Choosing and configuring a Chromium-family browser to launch against the
//! proxy, trusting only the proxy's certificate (by its SPKI pin). Whether a
//! candidate is installed is found out outside; these functions decide with
//! what was found.

use vstd::prelude::*;

use crate::text::{chars_eq, chars_to_string, extend_chars, to_chars};

verus! {

/// A browser that can be launched.
#[derive(Debug, Clone)]
pub struct Browser {
    /// Short id (`chrome`, `edge`, ...).
    pub id: String,
    /// Display name.
    pub name: String,
    /// Path of the executable.
    pub path: String,
}

/// A browser as plain values.
#[verifier::ext_equal]
pub struct BrowserView {
    pub id: Seq<char>,
    pub name: Seq<char>,
    pub path: Seq<char>,
}

impl View for Browser {
    type V = BrowserView;

    open spec fn view(&self) -> BrowserView {
        BrowserView { id: self.id@, name: self.name@, path: self.path@ }
    }
}

/// The views of browsers.
pub open spec fn browsers_view(v: Seq<Browser>) -> Seq<BrowserView> {
    v.map_values(|b: Browser| b@)
}

fn browser(id: &str, name: &str, path: &str) -> (r: Browser)
    ensures
        r@ == (BrowserView { id: id@, name: name@, path: path@ }),
{
    Browser { id: String::from_str(id), name: String::from_str(name), path: String::from_str(path) }
}

/// The view of a candidate.
pub open spec fn bv(id: Seq<char>, name: Seq<char>, path: Seq<char>) -> BrowserView {
    BrowserView { id, name, path }
}

/// Where browsers are looked for on Linux, in order of preference.
pub open spec fn spec_linux_candidates() -> Seq<BrowserView> {
    seq![
        bv("chrome"@, "Google Chrome"@, "/usr/bin/google-chrome"@),
        bv("chrome"@, "Google Chrome"@, "/usr/bin/google-chrome-stable"@),
        bv("chromium"@, "Chromium"@, "/usr/bin/chromium"@),
        bv("chromium"@, "Chromium"@, "/usr/bin/chromium-browser"@),
        bv("chromium"@, "Chromium"@, "/snap/bin/chromium"@),
        bv("edge"@, "Microsoft Edge"@, "/usr/bin/microsoft-edge"@),
        bv("brave"@, "Brave"@, "/usr/bin/brave-browser"@),
    ]
}

/// The browsers looked for on Linux.
pub fn linux_candidates() -> (r: Vec<Browser>)
    ensures
        browsers_view(r@) == spec_linux_candidates(),
{
    let mut v: Vec<Browser> = Vec::new();
    v.push(browser("chrome", "Google Chrome", "/usr/bin/google-chrome"));
    v.push(browser("chrome", "Google Chrome", "/usr/bin/google-chrome-stable"));
    v.push(browser("chromium", "Chromium", "/usr/bin/chromium"));
    v.push(browser("chromium", "Chromium", "/usr/bin/chromium-browser"));
    v.push(browser("chromium", "Chromium", "/snap/bin/chromium"));
    v.push(browser("edge", "Microsoft Edge", "/usr/bin/microsoft-edge"));
    v.push(browser("brave", "Brave", "/usr/bin/brave-browser"));
    assert(browsers_view(v@) =~= spec_linux_candidates());
    v
}

/// Where browsers are looked for on macOS, in order of preference.
pub open spec fn spec_macos_candidates() -> Seq<BrowserView> {
    seq![
        bv("chrome"@, "Google Chrome"@, "/Applications/Google Chrome.app/Contents/MacOS/Google Chrome"@),
        bv("edge"@, "Microsoft Edge"@, "/Applications/Microsoft Edge.app/Contents/MacOS/Microsoft Edge"@),
        bv("brave"@, "Brave"@, "/Applications/Brave Browser.app/Contents/MacOS/Brave Browser"@),
        bv("arc"@, "Arc"@, "/Applications/Arc.app/Contents/MacOS/Arc"@),
        bv("chromium"@, "Chromium"@, "/Applications/Chromium.app/Contents/MacOS/Chromium"@),
    ]
}

/// The browsers looked for on macOS.
pub fn macos_candidates() -> (r: Vec<Browser>)
    ensures
        browsers_view(r@) == spec_macos_candidates(),
{
    let mut v: Vec<Browser> = Vec::new();
    v.push(
        browser(
            "chrome",
            "Google Chrome",
            "/Applications/Google Chrome.app/Contents/MacOS/Google Chrome",
        ),
    );
    v.push(
        browser(
            "edge",
            "Microsoft Edge",
            "/Applications/Microsoft Edge.app/Contents/MacOS/Microsoft Edge",
        ),
    );
    v.push(
        browser("brave", "Brave", "/Applications/Brave Browser.app/Contents/MacOS/Brave Browser"),
    );
    v.push(browser("arc", "Arc", "/Applications/Arc.app/Contents/MacOS/Arc"));
    v.push(browser("chromium", "Chromium", "/Applications/Chromium.app/Contents/MacOS/Chromium"));
    assert(browsers_view(v@) =~= spec_macos_candidates());
    v
}

/// Where browsers are looked for on Windows, given the `ProgramFiles`,
/// `ProgramFiles(x86)` and `LOCALAPPDATA` directories.
pub open spec fn spec_windows_candidates(pf: Seq<char>, pf86: Seq<char>, local: Seq<char>) -> Seq<
    BrowserView,
> {
    seq![
        bv("chrome"@, "Google Chrome"@, pf + "\\Google\\Chrome\\Application\\chrome.exe"@),
        bv("chrome"@, "Google Chrome"@, pf86 + "\\Google\\Chrome\\Application\\chrome.exe"@),
        bv("chrome"@, "Google Chrome"@, local + "\\Google\\Chrome\\Application\\chrome.exe"@),
        bv("edge"@, "Microsoft Edge"@, pf86 + "\\Microsoft\\Edge\\Application\\msedge.exe"@),
        bv("edge"@, "Microsoft Edge"@, pf + "\\Microsoft\\Edge\\Application\\msedge.exe"@),
        bv("brave"@, "Brave"@, pf + "\\BraveSoftware\\Brave-Browser\\Application\\brave.exe"@),
    ]
}

fn under(dir: &str, rel: &str) -> (r: String)
    ensures
        r@ == dir@ + rel@,
{
    let mut s = String::from_str(dir);
    s.append(rel);
    s
}

/// The browsers looked for on Windows.
pub fn windows_candidates(pf: &str, pf86: &str, local: &str) -> (r: Vec<Browser>)
    ensures
        browsers_view(r@) == spec_windows_candidates(pf@, pf86@, local@),
{
    let chrome = "\\Google\\Chrome\\Application\\chrome.exe";
    let edge = "\\Microsoft\\Edge\\Application\\msedge.exe";
    let brave = "\\BraveSoftware\\Brave-Browser\\Application\\brave.exe";
    let mut v: Vec<Browser> = Vec::new();
    v.push(browser("chrome", "Google Chrome", under(pf, chrome).as_str()));
    v.push(browser("chrome", "Google Chrome", under(pf86, chrome).as_str()));
    v.push(browser("chrome", "Google Chrome", under(local, chrome).as_str()));
    v.push(browser("edge", "Microsoft Edge", under(pf86, edge).as_str()));
    v.push(browser("edge", "Microsoft Edge", under(pf, edge).as_str()));
    v.push(browser("brave", "Brave", under(pf, brave).as_str()));
    assert(browsers_view(v@) =~= spec_windows_candidates(pf@, pf86@, local@));
    v
}

/// Some browser in `bs` has id `id`.
pub open spec fn has_id(bs: Seq<BrowserView>, id: Seq<char>) -> bool {
    exists|i: int| 0 <= i < bs.len() && (#[trigger] bs[i]).id == id
}

/// The installed candidates, in order, keeping only the first of each id.
pub open spec fn spec_available(found: Seq<(BrowserView, bool)>) -> Seq<BrowserView>
    decreases found.len(),
{
    if found.len() == 0 {
        Seq::<BrowserView>::empty()
    } else {
        let prev = spec_available(found.drop_last());
        let (b, present) = found.last();
        if present && !has_id(prev, b.id) {
            prev.push(b)
        } else {
            prev
        }
    }
}

/// The views of candidates with whether they are installed.
pub open spec fn found_view(v: Seq<(Browser, bool)>) -> Seq<(BrowserView, bool)> {
    v.map_values(|p: (Browser, bool)| (p.0@, p.1))
}

fn copy_browser(b: &Browser) -> (r: Browser)
    ensures
        r@ == b@,
{
    Browser { id: b.id.clone(), name: b.name.clone(), path: b.path.clone() }
}

/// Every installed Chromium-family browser among the candidates (each paired
/// with whether its executable exists), de-duplicated by id.
pub fn available(found: &Vec<(Browser, bool)>) -> (r: Vec<Browser>)
    ensures
        browsers_view(r@) == spec_available(found_view(found@)),
{
    let ghost all = found_view(found@);
    let mut out: Vec<Browser> = Vec::new();
    let mut i: usize = 0;
    assert(all.take(0) =~= Seq::<(BrowserView, bool)>::empty());
    while i < found.len()
        invariant
            i <= found@.len(),
            all == found_view(found@),
            browsers_view(out@) =~= spec_available(all.take(i as int)),
        decreases found@.len() - i,
    {
        proof {
            assert(all.take(i + 1).drop_last() =~= all.take(i as int));
            assert(all.take(i + 1).last() == all[i as int]);
        }
        let b = &found[i].0;
        if found[i].1 {
            let id = to_chars(b.id.as_str());
            let mut seen = false;
            let mut k: usize = 0;
            while k < out.len()
                invariant
                    k <= out@.len(),
                    id@ == b.id@,
                    seen == exists|j: int| 0 <= j < k && out@[j].id@ == b.id@,
                decreases out@.len() - k,
            {
                if chars_eq(&to_chars(out[k].id.as_str()), &id) {
                    seen = true;
                }
                k = k + 1;
            }
            proof {
                let bs = browsers_view(out@);
                if seen {
                    let j = choose|j: int| 0 <= j < out@.len() && out@[j].id@ == b.id@;
                    assert(bs[j].id == b.id@);
                } else {
                    assert forall|j: int| 0 <= j < bs.len() implies (#[trigger] bs[j]).id != b.id@ by {
                        assert(bs[j] == out@[j]@);
                    }
                }
            }
            if !seen {
                let ghost before = browsers_view(out@);
                out.push(copy_browser(b));
                assert(browsers_view(out@) =~= before.push(b@));
            }
        }
        i = i + 1;
    }
    assert(all.take(found@.len() as int) =~= all);
    out
}

/// The first position of a browser with id `id`.
pub open spec fn find_id(bs: Seq<BrowserView>, id: Seq<char>) -> Option<int>
    decreases bs.len(),
{
    if bs.len() == 0 {
        None
    } else {
        match find_id(bs.drop_last(), id) {
            Some(i) => Some(i),
            None => if bs.last().id == id {
                Some(bs.len() - 1)
            } else {
                None
            },
        }
    }
}

proof fn lemma_find_id_prefix(bs: Seq<BrowserView>, id: Seq<char>, k: int)
    requires
        0 <= k <= bs.len(),
        find_id(bs.take(k), id) is Some,
    ensures
        find_id(bs, id) == find_id(bs.take(k), id),
    decreases bs.len(),
{
    if k < bs.len() {
        assert(bs.drop_last().take(k) =~= bs.take(k));
        lemma_find_id_prefix(bs.drop_last(), id, k);
    } else {
        assert(bs.take(k) =~= bs);
    }
}

/// Which browser to launch: the first with the requested id, or else the
/// first one; none when there is no browser.
pub open spec fn spec_pick(bs: Seq<BrowserView>, id: Seq<char>) -> Option<int> {
    if bs.len() == 0 {
        None
    } else {
        match find_id(bs, id) {
            Some(i) => Some(i),
            None => Some(0),
        }
    }
}

/// The position of the browser to launch for `browser_id` (the first
/// available one when the id is empty or unknown); `None` when no browser
/// is available.
pub fn pick_browser(browsers: &Vec<Browser>, browser_id: &str) -> (r: Option<usize>)
    ensures
        match r {
            Some(i) => spec_pick(browsers_view(browsers@), browser_id@) == Some(i as int),
            None => spec_pick(browsers_view(browsers@), browser_id@) is None,
        },
{
    if browsers.len() == 0 {
        return None;
    }
    let ghost bs = browsers_view(browsers@);
    let id = to_chars(browser_id);
    let mut i: usize = 0;
    assert(bs.take(0) =~= Seq::<BrowserView>::empty());
    while i < browsers.len()
        invariant
            i <= browsers@.len(),
            bs == browsers_view(browsers@),
            id@ == browser_id@,
            find_id(bs.take(i as int), browser_id@) is None,
        decreases browsers@.len() - i,
    {
        proof {
            assert(bs.take(i + 1).drop_last() =~= bs.take(i as int));
            assert(bs.take(i + 1).last() == bs[i as int]);
        }
        if chars_eq(&to_chars(browsers[i].id.as_str()), &id) {
            proof {
                lemma_find_id_prefix(bs, browser_id@, i + 1);
            }
            return Some(i);
        }
        i = i + 1;
    }
    assert(bs.take(browsers@.len() as int) =~= bs);
    Some(0)
}

/// The decimal digit for `d < 10`.
pub open spec fn digit_char(d: nat) -> char {
    (('0' as u32) + d) as char
}

/// The decimal writing of `n`.
pub open spec fn decimal(n: nat) -> Seq<char>
    decreases n,
{
    if n < 10 {
        seq![digit_char(n)]
    } else {
        decimal(n / 10).push(digit_char(n % 10))
    }
}

/// The decimal writing of `n`.
pub fn decimal_chars(n: u32) -> (r: Vec<char>)
    ensures
        r@ == decimal(n as nat),
    decreases n,
{
    let d = (n % 10) as u8;
    let c = (0x30u8 + d) as char;
    assert(c == digit_char((n % 10) as nat));
    if n < 10 {
        let mut v: Vec<char> = Vec::new();
        v.push(c);
        v
    } else {
        let mut v = decimal_chars(n / 10);
        v.push(c);
        v
    }
}

/// The command-line arguments a browser is launched with: use the proxy on
/// `proxy_port`, trust only the certificate with pin `spki`, keep its own
/// profile in `profile_dir`, skip first-run screens, and open the control
/// panel on `ui_port`.
pub open spec fn spec_launch_args(proxy_port: u16, ui_port: u16, spki: Seq<char>, profile_dir: Seq<
    char,
>) -> Seq<Seq<char>> {
    seq![
        "--proxy-server=127.0.0.1:"@ + decimal(proxy_port as nat),
        "--ignore-certificate-errors-spki-list="@ + spki,
        "--user-data-dir="@ + profile_dir,
        "--no-first-run"@,
        "--no-default-browser-check"@,
        "http://127.0.0.1:"@ + decimal(ui_port as nat) + "/"@,
    ]
}

/// Builds the command-line arguments to launch a browser with.
pub fn launch_args(proxy_port: u16, ui_port: u16, spki: &str, profile_dir: &str) -> (r: Vec<String>)
    ensures
        r@.map_values(|s: String| s@) == spec_launch_args(proxy_port, ui_port, spki@, profile_dir@),
{
    let mut a = to_chars("--proxy-server=127.0.0.1:");
    extend_chars(&mut a, &decimal_chars(proxy_port as u32));
    let mut b = to_chars("--ignore-certificate-errors-spki-list=");
    extend_chars(&mut b, &to_chars(spki));
    let mut c = to_chars("--user-data-dir=");
    extend_chars(&mut c, &to_chars(profile_dir));
    let mut f = to_chars("http://127.0.0.1:");
    extend_chars(&mut f, &decimal_chars(ui_port as u32));
    extend_chars(&mut f, &to_chars("/"));
    let mut v: Vec<String> = Vec::new();
    v.push(chars_to_string(&a));
    v.push(chars_to_string(&b));
    v.push(chars_to_string(&c));
    v.push(String::from_str("--no-first-run"));
    v.push(String::from_str("--no-default-browser-check"));
    v.push(chars_to_string(&f));
    assert(v@.map_values(|s: String| s@) =~= spec_launch_args(
        proxy_port,
        ui_port,
        spki@,
        profile_dir@,
    ));
    v
}

/// The browsers looked for on the operating system named `os` (as
/// `std::env::consts::OS` names it); none on other systems.
pub open spec fn spec_candidates(os: Seq<char>, pf: Seq<char>, pf86: Seq<char>, local: Seq<char>) -> Seq<
    BrowserView,
> {
    if os == "macos"@ {
        spec_macos_candidates()
    } else if os == "linux"@ {
        spec_linux_candidates()
    } else if os == "windows"@ {
        spec_windows_candidates(pf, pf86, local)
    } else {
        Seq::<BrowserView>::empty()
    }
}

/// The browsers looked for on the operating system `os`, in order of
/// preference; `pf`, `pf86` and `local` are the Windows program and local
/// data directories (unused elsewhere).
pub fn candidates(os: &str, pf: &str, pf86: &str, local: &str) -> (r: Vec<Browser>)
    ensures
        browsers_view(r@) == spec_candidates(os@, pf@, pf86@, local@),
{
    let o = to_chars(os);
    if chars_eq(&o, &to_chars("macos")) {
        macos_candidates()
    } else if chars_eq(&o, &to_chars("linux")) {
        linux_candidates()
    } else if chars_eq(&o, &to_chars("windows")) {
        windows_candidates(pf, pf86, local)
    } else {
        let v: Vec<Browser> = Vec::new();
        assert(browsers_view(v@) =~= Seq::<BrowserView>::empty());
        v
    }
}

/// The number a sequence of decimal digits writes, most significant first.
pub open spec fn digits_value(s: Seq<char>) -> int
    decreases s.len(),
{
    if s.len() == 0 {
        0
    } else {
        digits_value(s.drop_last()) * 10 + ((s.last() as int) - ('0' as int))
    }
}

/// `decimal` is the usual decimal writing: it is made of ASCII digits, has
/// no leading zero unless `n` is 0, and the digits write `n`.
pub proof fn lemma_decimal_writes_n(n: nat)
    ensures
        decimal(n).len() >= 1,
        forall|i: int| 0 <= i < decimal(n).len() ==> '0' <= #[trigger] decimal(n)[i] <= '9',
        decimal(n)[0] == '0' ==> n == 0,
        digits_value(decimal(n)) == n,
    decreases n,
{
    if n < 10 {
        let s = decimal(n);
        assert(s.drop_last() =~= Seq::<char>::empty());
        assert(s.last() == digit_char(n));
        assert((digit_char(n) as int) == ('0' as int) + n);
        assert(digits_value(s.drop_last()) == 0);
        assert(digits_value(s) == n);
    } else {
        let m = n / 10;
        let d = n % 10;
        lemma_decimal_writes_n(m);
        let p = decimal(m);
        let s = decimal(n);
        assert(s == p.push(digit_char(d)));
        assert(s.drop_last() =~= p);
        assert(s[0] == p[0]);
        assert(m >= 1);
        assert(n == m * 10 + d);
        assert((digit_char(d) as int) == ('0' as int) + d);
        assert(digits_value(s) == digits_value(p) * 10 + d);
        assert forall|i: int| 0 <= i < s.len() implies '0' <= #[trigger] s[i] <= '9' by {
            if i < p.len() {
                assert(s[i] == p[i]);
            }
        }
    }
}

} // verus!
