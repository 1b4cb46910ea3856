use reheader_core::ca::spki_pin;
use reheader_core::headers::{apply, finish_response};
use reheader_core::launch::{
    available, candidates, launch_args, pick_browser, Browser,
};
use reheader_core::rules::{HeaderAction, HeaderOp};
use reheader_core::upstream::{
    get_request, normalize, pac_request, pick_env_proxy, proxy_env_keys, response_body,
};

fn b(id: &str, path: &str) -> Browser {
    Browser { id: id.into(), name: id.to_uppercase(), path: path.into() }
}

#[test]
fn available_keeps_first_installed_of_each_id() {
    let found = vec![
        (b("chrome", "/a"), false),
        (b("chrome", "/b"), true),
        (b("chrome", "/c"), true),
        (b("edge", "/d"), true),
    ];
    let got = available(&found);
    let paths: Vec<_> = got.iter().map(|b| b.path.as_str()).collect();
    assert_eq!(paths, vec!["/b", "/d"]);
}

#[test]
fn pick_browser_by_id_or_first() {
    let bs = vec![b("chrome", "/a"), b("edge", "/b")];
    assert_eq!(pick_browser(&bs, "edge"), Some(1));
    assert_eq!(pick_browser(&bs, ""), Some(0));
    assert_eq!(pick_browser(&bs, "arc"), Some(0));
    assert_eq!(pick_browser(&vec![], "edge"), None);
}

#[test]
fn candidate_lists() {
    let linux = candidates("linux", "", "", "");
    assert_eq!(linux.len(), 7);
    assert_eq!(linux[0].path, "/usr/bin/google-chrome");
    let mac = candidates("macos", "", "", "");
    assert_eq!(mac[3].id, "arc");
    let win = candidates("windows", r"C:\PF", r"C:\PF86", r"C:\L");
    assert_eq!(win[1].path, r"C:\PF86\Google\Chrome\Application\chrome.exe");
    assert!(candidates("plan9", "", "", "").is_empty());
}

#[test]
fn launch_arguments() {
    let args = launch_args(8888, 8889, "PIN=", "/tmp/p");
    assert_eq!(
        args,
        vec![
            "--proxy-server=127.0.0.1:8888",
            "--ignore-certificate-errors-spki-list=PIN=",
            "--user-data-dir=/tmp/p",
            "--no-first-run",
            "--no-default-browser-check",
            "http://127.0.0.1:8889/",
        ]
    );
    assert_eq!(launch_args(0, 65535, "", "")[5], "http://127.0.0.1:65535/");
}

#[test]
fn env_proxy_and_normalize() {
    assert_eq!(proxy_env_keys()[0], "HTTPS_PROXY");
    assert_eq!(proxy_env_keys().len(), 6);
    let vals = vec![None, Some("   ".to_string()), Some(" p:1 ".to_string()), Some("q:2".to_string())];
    assert_eq!(pick_env_proxy(&vals).as_deref(), Some("p:1"));
    assert_eq!(pick_env_proxy(&vec![None, None]), None);
    assert_eq!(normalize(" h:3128 "), "http://h:3128");
    assert_eq!(normalize("https://h:1"), "https://h:1");
}

#[test]
fn pac_fetch_parts() {
    let p = pac_request("http://wpad.corp/wpad.dat").unwrap();
    assert_eq!((p.host.as_str(), p.addr.as_str(), p.path.as_str()), ("wpad.corp", "wpad.corp:80", "/wpad.dat"));
    let q = pac_request("http://h:8080").unwrap();
    assert_eq!((q.host.as_str(), q.addr.as_str(), q.path.as_str()), ("h", "h:8080", "/"));
    assert!(pac_request("https://h/x").is_none());
    assert_eq!(get_request(&p), "GET /wpad.dat HTTP/1.0\r\nHost: wpad.corp\r\nConnection: close\r\n\r\n");
    assert_eq!(response_body("HTTP/1.0 200 OK\r\nA: b\r\n\r\nbody\r\n\r\nmore").as_deref(), Some("body\r\n\r\nmore"));
    assert_eq!(response_body("no header end"), None);
}

#[test]
fn spki_pin_of_pem() {
    // base64("abc") is "YWJj"; sha256("abc") is known.
    let pem = "-----BEGIN PUBLIC KEY-----\nYW\nJj\n-----END PUBLIC KEY-----\n";
    assert_eq!(spki_pin(pem), "ungWv48Bz+pBQUDeXa4iI7ADYaOWF3qctBD/YfIAFa0=");
    // Undecodable text hashes the empty input.
    assert_eq!(spki_pin("-----X\n!!!\n"), "47DEQpj8HBSa+/TImW+5JCeuQeRkm5NMpJWZG3hSuFU=");
}

#[test]
fn header_map_edits() {
    let mut map = http::HeaderMap::new();
    map.insert("referer", "r".parse().unwrap());
    map.append("x-multi", "1".parse().unwrap());
    map.append("x-multi", "2".parse().unwrap());
    let ops = vec![
        HeaderAction { op: HeaderOp::Remove, name: "Referer".into(), value: String::new() },
        HeaderAction { op: HeaderOp::Assign, name: "X-Multi".into(), value: "3".into() },
        HeaderAction { op: HeaderOp::Assign, name: "X-Bad".into(), value: "a\nb".into() },
    ];
    assert!(apply(&mut map, &ops));
    assert!(map.get("referer").is_none());
    let multi: Vec<_> = map.get_all("x-multi").iter().map(|v| v.to_str().unwrap()).collect();
    assert_eq!(multi, vec!["3"]);
    assert!(map.get("x-bad").is_none());
    assert!(finish_response(&mut map, &vec![], &Some("req[] resp[]".to_string())));
    assert_eq!(map.get("x-reheader-applied").unwrap(), "req[] resp[]");
}

#[test]
fn header_map_edits_reach_large_maps() {
    let mut map = http::HeaderMap::new();
    map.insert("a", "1".parse().unwrap());
    let ops = vec![HeaderAction { op: HeaderOp::Assign, name: "b".into(), value: "2".into() }];
    assert!(apply(&mut map, &ops));
    assert_eq!(map.get("b").unwrap(), "2");
    assert!(finish_response(&mut map, &vec![], &Some("s".to_string())));
    assert_eq!(map.get("x-reheader-applied").unwrap(), "s");

    // A map with thousands of names is still edited.
    let mut big = http::HeaderMap::new();
    for i in 0..6600 {
        let name: http::HeaderName = format!("h{i}").parse().unwrap();
        big.insert(name, "v".parse().unwrap());
    }
    assert!(apply(&mut big, &ops));
    assert_eq!(big.get("b").unwrap(), "2");
    assert!(finish_response(&mut big, &ops, &None));
    assert_eq!(big.keys_len(), 6601);
}
