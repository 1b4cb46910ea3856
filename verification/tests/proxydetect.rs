use reheader_core::proxydetect::{parse_scutil, parse_win_proxy_server, scan_pac, win_settings, Detected};

#[test]
fn scan_pac_finds_proxy() {
    let pac = r#"
        function FindProxyForURL(url, host) {
          if (isPlainHostName(host)) return "DIRECT";
          return "PROXY proxy.corp.example.com:8080; DIRECT";
        }"#;
    assert_eq!(scan_pac(pac).as_deref(), Some("proxy.corp.example.com:8080"));
}

#[test]
fn scan_pac_handles_https_keyword_and_none() {
    assert_eq!(scan_pac("return 'HTTPS gw.corp:443';").as_deref(), Some("gw.corp:443"));
    assert_eq!(scan_pac("return 'DIRECT';"), None);
}

#[test]
fn win_proxy_bare_and_pairs() {
    assert_eq!(parse_win_proxy_server("10.1.2.3:8080").as_deref(), Some("10.1.2.3:8080"));
    assert_eq!(
        parse_win_proxy_server("http=h:80;https=s:443;socks=x:1080").as_deref(),
        Some("s:443")
    );
    assert_eq!(parse_win_proxy_server("http=only:80").as_deref(), Some("only:80"));
    assert_eq!(parse_win_proxy_server(""), None);
}

#[test]
fn scutil_prefers_https_then_pac() {
    let with_https = "HTTPSEnable : 1\nHTTPSProxy : 10.0.0.1\nHTTPSPort : 3128\n";
    assert_eq!(parse_scutil(with_https), Some(Detected::Server("10.0.0.1:3128".into())));

    let pac = "HTTPSEnable : 0\nProxyAutoConfigEnable : 1\nProxyAutoConfigURLString : http://wpad/wpad.dat\n";
    assert_eq!(parse_scutil(pac), Some(Detected::Pac("http://wpad/wpad.dat".into())));

    assert_eq!(parse_scutil("HTTPSEnable : 0\nHTTPEnable : 0\n"), None);
}

// --- further cases -------------------------------------------------------

#[test]
fn scan_pac_is_case_insensitive_and_takes_first() {
    assert_eq!(
        scan_pac("proxy a.b:1; PROXY c.d:2").as_deref(),
        Some("a.b:1")
    );
    assert_eq!(scan_pac("PROXY nohostport"), None);
}

#[test]
fn win_proxy_edge_cases() {
    assert_eq!(parse_win_proxy_server("   "), None);
    assert_eq!(parse_win_proxy_server("  h:1  ").as_deref(), Some("h:1"));
    // Other schemes: the first wins; https/http: the last wins.
    assert_eq!(parse_win_proxy_server("socks=a:1;ftp=b:2").as_deref(), Some("a:1"));
    assert_eq!(parse_win_proxy_server("https=a:1;https=b:2").as_deref(), Some("b:2"));
    // Scheme is case-insensitive and trimmed; empty addresses are skipped.
    assert_eq!(parse_win_proxy_server(" HTTPS = s:1 ;http=h:2").as_deref(), Some("s:1"));
    assert_eq!(parse_win_proxy_server("https=;http=h:2").as_deref(), Some("h:2"));
    assert_eq!(parse_win_proxy_server("junk;=").as_deref(), None);
}

#[test]
fn scutil_falls_back_to_http_and_needs_both_fields() {
    let http = "HTTPSEnable : 1\nHTTPSProxy : only-host\nHTTPEnable : 1\nHTTPProxy : h\nHTTPPort : 80\n";
    assert_eq!(parse_scutil(http), Some(Detected::Server("h:80".into())));
    let empty_pac = "ProxyAutoConfigEnable : 1\nProxyAutoConfigURLString :   \n";
    assert_eq!(parse_scutil(empty_pac), None);
    // CRLF line endings and the first occurrence of a key.
    let crlf = "HTTPSEnable : 1\r\nHTTPSProxy : p\r\nHTTPSPort : 1\r\nHTTPSPort : 2\r\n";
    assert_eq!(parse_scutil(crlf), Some(Detected::Server("p:1".into())));
    assert_eq!(parse_scutil(""), None);
}

#[test]
fn windows_settings_prefer_enabled_server_then_pac() {
    assert_eq!(
        win_settings(1, Some("http=h:80;https=s:443"), Some("http://pac/x.pac")),
        Some(Detected::Server("s:443".into()))
    );
    assert_eq!(
        win_settings(0, Some("h:80"), Some("http://pac/x.pac")),
        Some(Detected::Pac("http://pac/x.pac".into()))
    );
    assert_eq!(win_settings(1, Some("  "), Some(" \t")), None);
    assert_eq!(win_settings(1, None, Some(" http://p ")), Some(Detected::Pac(" http://p ".into())));
    assert_eq!(win_settings(0, None, None), None);
}
