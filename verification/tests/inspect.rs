use reheader_core::inspect::{
    decide_request, decide_without_rules, echo_report, full_url, html_escape, percent_decode, query_param,
    render_echo, request_host, verify_summary, Decision, RequestParts, PAGE_AFTER_CHANGES,
    PAGE_AFTER_SCOPE, PAGE_HEAD, PAGE_TAIL,
};
use reheader_core::rules::{compile, AppState, Header, HeaderAction, HeaderOp, Plan, Profile};

fn action(op: HeaderOp, name: &str, value: &str) -> HeaderAction {
    HeaderAction { op, name: name.into(), value: value.into() }
}

fn state_with(headers: Vec<(&str, &str)>) -> AppState {
    AppState {
        profiles: vec![Profile {
            title: "T".into(),
            color: "#fff".into(),
            enabled: true,
            headers: headers
                .into_iter()
                .map(|(n, v)| Header { enabled: true, name: n.into(), value: v.into(), comment: String::new() })
                .collect(),
            resp_headers: vec![],
            redirects: vec![],
            filters: vec![],
        }],
        selected_profile: 0,
        paused: false,
        theme: "auto".into(),
    }
}

#[test]
fn verify_summary_lists_edits() {
    let plan = Plan {
        redirect_to: None,
        request_headers: vec![
            action(HeaderOp::Assign, "Authorization", "Bearer x"),
            action(HeaderOp::Remove, "Referer", ""),
        ],
        response_headers: vec![action(HeaderOp::Assign, "X-Frame-Options", "ALLOW")],
    };
    assert_eq!(
        verify_summary(&plan),
        "req[Authorization=Bearer x, -Referer] resp[X-Frame-Options=ALLOW]"
    );
    assert_eq!(verify_summary(&Plan::default()), "req[] resp[]");
}

#[test]
fn html_escape_entities() {
    assert_eq!(html_escape(r#"<a href="x">&</a>"#), "&lt;a href=&quot;x&quot;&gt;&amp;&lt;/a&gt;");
    assert_eq!(html_escape("plain"), "plain");
}

#[test]
fn percent_decoding() {
    assert_eq!(percent_decode("a%41b+c"), "aAb c");
    assert_eq!(percent_decode("%e2%82%ac"), "€");
    assert_eq!(percent_decode("%zz%4"), "%zz%4");
    assert_eq!(percent_decode("100%"), "100%");
    assert_eq!(percent_decode("%ff"), "\u{fffd}");
    assert_eq!(percent_decode("a%20b+c%2Fd"), "a b c/d");
    assert_eq!(percent_decode("caf%C3%A9"), "café");
    assert_eq!(percent_decode("%41"), "A");
}

#[test]
fn query_param_lookup() {
    assert_eq!(
        query_param("a=1&url=https%3A%2F%2Fx.com%2Fp&url=2", "url").as_deref(),
        Some("https://x.com/p")
    );
    assert_eq!(query_param("flag&url", "url"), None);
    assert_eq!(query_param("", "url"), None);
    assert_eq!(query_param("url=", "url").as_deref(), Some(""));
    assert_eq!(query_param("url=a%3Ab&url=c", "url").as_deref(), Some("a:b"));
    assert_eq!(query_param("URL=x", "url"), None);
}

#[test]
fn full_url_strips_default_ports() {
    assert_eq!(
        full_url(Some("https"), Some("example.com:443"), None, Some("/a?b=1")),
        "https://example.com/a?b=1"
    );
    assert_eq!(full_url(Some("http"), Some("h:80"), None, None), "http://h/");
    assert_eq!(full_url(Some("http"), Some("h:443"), None, None), "http://h:443/");
    assert_eq!(full_url(None, None, Some("host.test:8443"), Some("/x")), "https://host.test:8443/x");
    assert_eq!(full_url(None, None, None, None), "https:///");
}

#[test]
fn request_host_lowercases() {
    assert_eq!(request_host(Some("ReHeader.Echo"), Some("x")).as_deref(), Some("reheader.echo"));
    assert_eq!(request_host(None, Some("Host.Test:8080")).as_deref(), Some("host.test"));
    assert_eq!(request_host(None, None), None);
}

#[test]
fn render_echo_rows() {
    let plan = Plan {
        redirect_to: None,
        request_headers: vec![
            action(HeaderOp::Assign, "X-New", "<v>"),
            action(HeaderOp::Remove, "cookie", ""),
        ],
        response_headers: vec![],
    };
    let incoming = vec![
        ("user-agent".to_string(), "UA".to_string()),
        ("Cookie".to_string(), "c=1".to_string()),
        ("accept".to_string(), "*/*".to_string()),
    ];
    let page = render_echo("S", &plan, &incoming);
    let changes = "<tr><td class=add>ADD</td><td>X-New</td><td>&lt;v&gt;</td></tr><tr><td class=rem>REMOVE</td><td>cookie</td><td>—</td></tr>";
    let outgoing = "<tr class=><td>accept</td><td>*/*</td></tr><tr class=><td>user-agent</td><td>UA</td></tr><tr class=hl><td>X-New</td><td>&lt;v&gt;</td></tr>";
    let expected = format!("{PAGE_HEAD}S{PAGE_AFTER_SCOPE}{changes}{PAGE_AFTER_CHANGES}{outgoing}{PAGE_TAIL}");
    assert_eq!(page, expected);
    let empty = render_echo("S", &Plan::default(), &vec![]);
    assert!(empty.contains("No request-header changes apply here."));
}

#[test]
fn echo_report_scopes() {
    let c = compile(&state_with(vec![("X-A", "1")]));
    let page = echo_report(&c, Some("url=https%3A%2F%2Fa%2F%3Cb%3E"), &vec![]);
    assert!(page.contains("Showing header changes for requests matching <code>https://a/&lt;b&gt;</code>."));
    let all = echo_report(&c, None, &vec![]);
    assert!(all.contains("all requests (URL filters ignored here)"));
    assert!(all.contains("<td>X-A</td>"));
}

fn parts(host: &str, path: &str) -> RequestParts {
    RequestParts {
        is_connect: false,
        scheme: Some("https".into()),
        authority: Some(format!("{host}:443")),
        uri_host: Some(host.into()),
        host_header: None,
        path_and_query: Some(path.into()),
        query: None,
        headers: vec![],
    }
}

#[test]
fn decisions() {
    let mut s = state_with(vec![("X-A", "1")]);
    s.profiles[0].redirects = vec![reheader_core::rules::Redirect {
        enabled: true,
        from: "^https://old/(.*)$".into(),
        to: r"https://new/\1".into(),
    }];
    let c = compile(&s);
    let mut connect = parts("old", "/x");
    connect.is_connect = true;
    assert!(matches!(decide_request(&c, false, &connect), Decision::PassThrough));
    assert!(matches!(decide_request(&c, false, &parts("REHEADER.echo", "/")), Decision::Echo(_)));
    match decide_request(&c, false, &parts("old", "/x")) {
        Decision::Redirect(t) => assert_eq!(t, "https://new/x"),
        _ => panic!("expected a redirect"),
    }
    match decide_request(&c, true, &parts("other", "/")) {
        Decision::Forward { request_headers, response_headers, applied } => {
            assert_eq!(request_headers.len(), 1);
            assert!(response_headers.is_empty());
            assert_eq!(applied.as_deref(), Some("req[X-A=1] resp[]"));
        }
        _ => panic!("expected forwarding"),
    }
    match decide_request(&c, false, &parts("other", "/")) {
        Decision::Forward { applied, .. } => assert_eq!(applied, None),
        _ => panic!("expected forwarding"),
    }
}

#[test]
fn outgoing_rows_sorted_case_insensitively_and_stably() {
    let plan = Plan {
        redirect_to: None,
        request_headers: vec![action(HeaderOp::Assign, "B-Set", "x")],
        response_headers: vec![],
    };
    let incoming = vec![
        ("c".to_string(), "1".to_string()),
        ("A".to_string(), "2".to_string()),
        ("a".to_string(), "3".to_string()),
        ("b-set".to_string(), "old".to_string()),
    ];
    let page = render_echo("S", &plan, &incoming);
    let outgoing = "<tr class=><td>A</td><td>2</td></tr><tr class=><td>a</td><td>3</td></tr><tr class=hl><td>B-Set</td><td>x</td></tr><tr class=><td>c</td><td>1</td></tr>";
    assert!(page.contains(outgoing));
    assert_eq!(html_escape("<a href=\"x\">&</a>"), "&lt;a href=&quot;x&quot;&gt;&amp;&lt;/a&gt;");
}

#[test]
fn echo_page_when_rules_are_unavailable() {
    let echo = parts("reheader.echo", "/");
    match decide_without_rules(&echo) {
        Decision::Echo(html) => {
            assert!(html.contains("Showing header changes for rules unavailable."));
            assert!(html.contains("No request-header changes apply here."));
        }
        _ => panic!("expected the inspector page"),
    }
    assert!(matches!(decide_without_rules(&parts("example.com", "/")), Decision::PassThrough));
}
