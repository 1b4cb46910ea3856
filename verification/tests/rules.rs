use reheader_core::rules::{
    compile, default_state, expand_backrefs, is_valid_header_name, AppState, Filter, Header,
    HeaderAction, HeaderOp, Profile, Redirect,
};

fn header(name: &str, value: &str) -> Header {
    Header {
        enabled: true,
        name: name.into(),
        value: value.into(),
        comment: String::new(),
    }
}

fn profile(headers: Vec<Header>) -> Profile {
    Profile {
        title: "T".into(),
        color: "#fff".into(),
        enabled: true,
        headers,
        resp_headers: vec![],
        redirects: vec![],
        filters: vec![],
    }
}

fn state(p: Profile) -> AppState {
    AppState {
        profiles: vec![p],
        selected_profile: 0,
        paused: false,
        theme: "auto".into(),
    }
}

fn find<'a>(v: &'a [HeaderAction], name: &str) -> Option<&'a HeaderAction> {
    v.iter().find(|a| a.name.eq_ignore_ascii_case(name))
}

#[test]
fn sets_and_removes_request_headers() {
    let p = profile(vec![header("X-Api-Key", "abc"), header("Referer", "")]);
    let c = compile(&state(p));
    let plan = c.plan_for("https://example.com/");
    let set = find(&plan.request_headers, "X-Api-Key").unwrap();
    assert_eq!(set.op, HeaderOp::Assign);
    assert_eq!(set.value, "abc");
    let rm = find(&plan.request_headers, "Referer").unwrap();
    assert_eq!(rm.op, HeaderOp::Remove);
    assert_eq!(c.active_count(), 2);
}

#[test]
fn response_headers_are_separate() {
    let mut p = profile(vec![]);
    p.resp_headers = vec![header("Access-Control-Allow-Origin", "*")];
    let c = compile(&state(p));
    let plan = c.plan_for("https://example.com/");
    assert!(plan.request_headers.is_empty());
    assert_eq!(
        find(&plan.response_headers, "Access-Control-Allow-Origin")
            .unwrap()
            .value,
        "*"
    );
}

#[test]
fn disabled_rows_and_invalid_names_skipped() {
    let mut p = profile(vec![
        Header { enabled: false, ..header("X-A", "1") },
        header("", "x"),
        header("bad name", "x"),
    ]);
    p.headers.push(header("  ", "y"));
    let c = compile(&state(p));
    assert_eq!(c.active_count(), 0);
    assert!(c.plan_for("https://x/").request_headers.is_empty());
}

#[test]
fn paused_and_disabled_produce_nothing() {
    let mut s = state(profile(vec![header("X-A", "1")]));
    s.paused = true;
    assert!(compile(&s).plan_for("https://x/").is_empty());
    s.paused = false;
    s.profiles[0].enabled = false;
    assert!(compile(&s).plan_for("https://x/").is_empty());
}

#[test]
fn include_filter_gates_matching() {
    let mut p = profile(vec![header("X-A", "1")]);
    p.filters = vec![Filter {
        enabled: true,
        kind: "include".into(),
        value: r"://api\.example\.com/".into(),
    }];
    let c = compile(&state(p));
    assert!(c.plan_for("https://other.com/").request_headers.is_empty());
    assert_eq!(c.plan_for("https://api.example.com/v1").request_headers.len(), 1);
}

#[test]
fn exclude_filter_blocks_matching() {
    let mut p = profile(vec![header("X-A", "1")]);
    p.filters = vec![Filter {
        enabled: true,
        kind: "exclude".into(),
        value: r"\.png$".into(),
    }];
    let c = compile(&state(p));
    assert!(c.plan_for("https://x/a.png").request_headers.is_empty());
    assert!(!c.plan_for("https://x/a.js").request_headers.is_empty());
}

#[test]
fn all_invalid_includes_disable_profile_not_widen() {
    let mut p = profile(vec![header("X-A", "1")]);
    p.filters = vec![Filter {
        enabled: true,
        kind: "include".into(),
        value: "(unclosed".into(),
    }];
    let c = compile(&state(p));
    assert!(c.plan_for("https://anything/").request_headers.is_empty());
    assert!(!c.errors.is_empty());
}

#[test]
fn redirect_with_backrefs() {
    let mut p = profile(vec![]);
    p.redirects = vec![Redirect {
        enabled: true,
        from: r"^https://prod\.example\.com/(.*)$".into(),
        to: r"http://localhost:3000/\1".into(),
    }];
    let c = compile(&state(p));
    let plan = c.plan_for("https://prod.example.com/api/users?id=5");
    assert_eq!(
        plan.redirect_to.as_deref(),
        Some("http://localhost:3000/api/users?id=5")
    );
}

fn groups(pattern: &str, text: &str) -> Vec<Option<String>> {
    let re = regex::Regex::new(pattern).unwrap();
    let caps = re.captures(text).unwrap();
    caps.iter().map(|m| m.map(|m| m.as_str().to_string())).collect()
}

#[test]
fn expand_backrefs_handles_literals() {
    let caps = groups(r"^(a)(b)$", "ab");
    // \1 \2 expand; literal $ and unknown groups are preserved/empty.
    assert_eq!(expand_backrefs(r"x\1y\2z$5", &caps), "xaybz$5");
    assert_eq!(expand_backrefs(r"a\\b", &caps), r"a\b");
}

#[test]
fn later_profile_overrides_header() {
    let mut s = state(profile(vec![header("X-Env", "staging")]));
    s.profiles.push(profile(vec![header("x-env", "prod")]));
    let c = compile(&s);
    let plan = c.plan_for("https://x/");
    let hits: Vec<_> = plan
        .request_headers
        .iter()
        .filter(|a| a.name.eq_ignore_ascii_case("x-env"))
        .collect();
    assert_eq!(hits.len(), 1);
    assert_eq!(hits[0].value, "prod");
}

// --- further cases -------------------------------------------------------

#[test]
fn default_state_has_one_blank_profile() {
    let s = default_state();
    assert_eq!(s.profiles.len(), 1);
    assert_eq!(s.profiles[0].title, "Profile 1");
    assert_eq!(s.profiles[0].color, "#6d5ef2");
    assert!(s.profiles[0].enabled);
    assert_eq!(s.profiles[0].headers.len(), 1);
    assert!(s.profiles[0].headers[0].name.is_empty());
    assert_eq!(s.theme, "auto");
    assert!(!s.paused);
    assert_eq!(s.selected_profile, 0);
    // The blank row compiles to nothing.
    let c = compile(&s);
    assert_eq!(c.active_count(), 0);
    assert!(c.errors.is_empty());
}

#[test]
fn header_names_follow_rfc7230_tokens() {
    assert!(is_valid_header_name("X-Api-Key"));
    assert!(is_valid_header_name("a!#$%&'*+-.^_`|~9"));
    assert!(!is_valid_header_name(""));
    assert!(!is_valid_header_name("bad name"));
    assert!(!is_valid_header_name("x:y"));
    assert!(!is_valid_header_name("é"));
}

#[test]
fn names_are_trimmed_and_invalid_names_reported() {
    let p = profile(vec![header("  X-Trim \t", "v"), header("bad name", "x")]);
    let c = compile(&state(p));
    let plan = c.plan_for("https://x/");
    assert_eq!(plan.request_headers.len(), 1);
    assert_eq!(plan.request_headers[0].name, "X-Trim");
    assert_eq!(c.errors, vec!["Invalid header name: \"bad name\"".to_string()]);
}

#[test]
fn filter_and_redirect_errors_are_reported_in_order() {
    let mut p = profile(vec![header("X-A", "1")]);
    p.filters = vec![
        Filter { enabled: true, kind: "exclude".into(), value: "(x".into() },
        Filter { enabled: true, kind: "types".into(), value: "(ignored".into() },
    ];
    p.redirects = vec![Redirect { enabled: true, from: "[".into(), to: "y".into() }];
    let c = compile(&state(p));
    assert_eq!(c.errors.len(), 2);
    assert!(c.errors[0].starts_with("Bad exclude filter \"(x\": "));
    assert!(c.errors[1].starts_with("Bad redirect \"[\": "));
    // The profile still applies: the exclude filter was dropped.
    assert_eq!(c.plan_for("https://x/").request_headers.len(), 1);
    assert_eq!(c.active_count(), 1);
}

#[test]
fn disabled_profile_message_names_the_profile() {
    let mut p = profile(vec![header("X-A", "1")]);
    p.title = "Work".into();
    p.filters = vec![Filter { enabled: true, kind: "include".into(), value: "(".into() }];
    let c = compile(&state(p));
    assert_eq!(c.errors.len(), 2);
    assert_eq!(
        c.errors[1],
        "Profile \"Work\": all include filters invalid — profile disabled"
    );
    assert_eq!(c.active_count(), 0);
}

#[test]
fn one_valid_include_keeps_profile() {
    let mut p = profile(vec![header("X-A", "1")]);
    p.filters = vec![
        Filter { enabled: true, kind: "include".into(), value: "(".into() },
        Filter { enabled: true, kind: "include".into(), value: "good".into() },
    ];
    let c = compile(&state(p));
    assert_eq!(c.errors.len(), 1);
    assert!(c.plan_for("https://good/").request_headers.len() == 1);
    assert!(c.plan_for("https://bad/").request_headers.is_empty());
}

#[test]
fn first_matching_redirect_wins_across_profiles() {
    let mut a = profile(vec![]);
    a.redirects = vec![
        Redirect { enabled: true, from: "nomatch".into(), to: "n".into() },
        Redirect { enabled: true, from: "^https://a/(.*)$".into(), to: r"http://first/\1".into() },
    ];
    let mut b = profile(vec![]);
    b.redirects = vec![Redirect { enabled: true, from: "a".into(), to: "http://second/".into() }];
    let mut s = state(a);
    s.profiles.push(b);
    let c = compile(&s);
    assert_eq!(c.active_count(), 3);
    assert_eq!(c.plan_for("https://a/p").redirect_to.as_deref(), Some("http://first/p"));
}

#[test]
fn empty_redirect_sides_are_skipped() {
    let mut p = profile(vec![]);
    p.redirects = vec![
        Redirect { enabled: true, from: "".into(), to: "x".into() },
        Redirect { enabled: true, from: "x".into(), to: "".into() },
        Redirect { enabled: false, from: "x".into(), to: "y".into() },
    ];
    let c = compile(&state(p));
    assert_eq!(c.active_count(), 0);
    assert_eq!(c.plan_for("x").redirect_to, None);
}

#[test]
fn merge_replaces_in_place_order_and_keeps_others() {
    let a = profile(vec![header("A", "1"), header("B", "2")]);
    let b = profile(vec![header("a", "3"), header("C", "")]);
    let mut s = state(a);
    s.profiles.push(b);
    let plan = compile(&s).plan_for("u");
    let names: Vec<_> = plan.request_headers.iter().map(|h| h.name.as_str()).collect();
    assert_eq!(names, vec!["B", "a", "C"]);
    assert_eq!(plan.request_headers[1].value, "3");
    assert_eq!(plan.request_headers[2].op, HeaderOp::Remove);
}

#[test]
fn expand_backrefs_edge_cases() {
    let caps = groups(r"^(a)(x)?$", "a");
    assert_eq!(expand_backrefs(r"\0-\1-\2-\9", &caps), "a-a--");
    assert_eq!(expand_backrefs(r"end\", &caps), r"end\");
    assert_eq!(expand_backrefs(r"\q", &caps), r"\q");
    assert_eq!(expand_backrefs("plain/$1", &caps), "plain/$1");
}

#[test]
fn global_plan_ignores_filters() {
    let mut p = profile(vec![header("X-A", "1")]);
    p.filters = vec![Filter { enabled: true, kind: "include".into(), value: "only-here".into() }];
    let c = compile(&state(p));
    assert!(c.plan_for("https://elsewhere/").request_headers.is_empty());
    assert_eq!(c.global_plan().request_headers.len(), 1);
}

#[test]
fn resource_type_filters_are_ignored() {
    let mut p = profile(vec![header("X-A", "1")]);
    p.filters = vec![Filter { enabled: true, kind: "types".into(), value: "(xhr".into() }];
    let c = compile(&state(p));
    assert!(c.errors.is_empty());
    assert_eq!(c.plan_for("https://any/").request_headers.len(), 1);
    assert_eq!(c.active_count(), 1);
}

#[test]
fn disabled_profiles_colors_and_comments_do_not_change_the_ruleset() {
    let mut p = profile(vec![header("X-A", "1")]);
    p.filters = vec![Filter { enabled: true, kind: "include".into(), value: "(bad".into() }];
    let a = compile(&state(p.clone()));
    let mut q = p.clone();
    q.color = "#000".into();
    q.headers[0].comment = "note".into();
    q.filters.push(Filter { enabled: true, kind: "types".into(), value: "xhr".into() });
    let mut off = profile(vec![header("X-B", "2")]);
    off.enabled = false;
    let mut s2 = state(q);
    s2.profiles.insert(0, off);
    s2.theme = "dark".into();
    s2.selected_profile = 1;
    let b = compile(&s2);
    assert_eq!(a.errors(), b.errors());
    assert_eq!(a.active_count(), b.active_count());
    for url in ["https://x/", "https://bad/"] {
        assert_eq!(a.plan_for(url), b.plan_for(url));
    }
}

#[test]
fn first_redirect_across_applying_profiles_is_kept() {
    let mut p1 = profile(vec![]);
    p1.redirects = vec![
        Redirect { enabled: true, from: "^nomatch$".into(), to: "n".into() },
        Redirect { enabled: true, from: "^u".into(), to: "first".into() },
    ];
    let mut p2 = profile(vec![]);
    p2.redirects = vec![Redirect { enabled: true, from: "u".into(), to: "second".into() }];
    let mut s = state(p1);
    s.profiles.push(p2);
    assert_eq!(compile(&s).plan_for("u").redirect_to.as_deref(), Some("first"));
}

#[test]
fn plan_keeps_last_write_of_each_name_in_order() {
    let a = profile(vec![header("X", "1"), header("Y", "2"), header("x", "3")]);
    let b = profile(vec![header("Z", "4"), header("y", "")]);
    let mut s = state(a);
    s.profiles.push(b);
    let plan = compile(&s).plan_for("u");
    let got: Vec<(&str, &str)> =
        plan.request_headers.iter().map(|h| (h.name.as_str(), h.value.as_str())).collect();
    assert_eq!(got, vec![("x", "3"), ("Z", "4"), ("y", "")]);
}
