use postgrest::health::ErrorLog;
use postgrest::http::{have_one_origin, value_text, HEADER_ROOM};
use postgrest::proxy::{
    conclude_at, default_method, error_kind, reply_location, request_host, split_cookies, start,
    start_with, Forward, ForwardError, HopReply, HopRequest, Landing, Next, ProxyRequest, ProxyResponse,
    TransportError, MAX_REDIRECTS,
};

fn request(method: &str, url: &str, headers: &[(&str, &str)], body: Option<&str>) -> ProxyRequest {
    ProxyRequest {
        url: url.to_string(),
        method: method.to_string(),
        headers: Some(headers.iter().map(|(k, v)| (k.to_string(), v.to_string())).collect()),
        body: body.map(String::from),
    }
}

fn begin(method: &str, url: &str, headers: &[(&str, &str)], body: Option<&str>) -> Forward {
    match start(request(method, url, headers, body)) {
        Ok(f) => f,
        Err(e) => panic!("{}", e.message()),
    }
}

fn send(f: &Forward) -> HopRequest {
    match f.next_request() {
        Ok(r) => r,
        Err(e) => panic!("{}", e.message()),
    }
}

fn reply(status: u16, headers: &[(&str, &str)]) -> HopReply {
    HopReply {
        status,
        headers: headers.iter().map(|(k, v)| (k.to_string(), v.as_bytes().to_vec())).collect(),
    }
}

fn again(f: Forward, status: u16, location: &str) -> Forward {
    match f.receive(reply(status, &[("location", location)])) {
        Ok(Next::Again(f)) => f,
        _ => panic!("no redirect"),
    }
}

fn landing(f: Forward, r: HopReply) -> Landing {
    match f.receive(r) {
        Ok(Next::Landed(l)) => l,
        _ => panic!("no end"),
    }
}

fn message(r: Result<Forward, ForwardError>) -> String {
    match r {
        Ok(_) => panic!("no error"),
        Err(e) => {
            assert_eq!(error_kind(&e), "invalid_request");
            e.message()
        }
    }
}

#[test]
fn a_request_is_taken_over() {
    let f = begin(
        "post",
        "HTTP://Example.com",
        &[("Content-Type", "text/plain"), ("X-A", "1"), ("x-a", "zwei ä")],
        Some("body"),
    );
    let r = send(&f);
    assert_eq!(r.method, "POST");
    assert_eq!(r.url, "http://example.com/");
    assert_eq!(r.body, Some("body".to_string()));
    assert_eq!(r.headers.len(), 2);
    assert_eq!(r.headers["content-type"], "text/plain");
    assert_eq!(r.headers["x-a"].as_bytes(), "zwei ä".as_bytes());
    assert_eq!(default_method(), "GET");
}

#[test]
fn a_request_without_headers_has_none() {
    let f = match start(ProxyRequest {
        url: "http://a/".to_string(),
        method: default_method(),
        headers: None,
        body: None,
    }) {
        Ok(f) => f,
        Err(_) => panic!("no forward"),
    };
    let r = send(&f);
    assert!(r.headers.is_empty());
    assert_eq!(r.body, None);
}

#[test]
fn methods_are_put_in_upper_case() {
    assert_eq!(send(&begin("straße", "http://a/", &[], None)).method, "STRASSE");
    assert_eq!(send(&begin("m-search", "http://a/", &[], None)).method, "M-SEARCH");
}

#[test]
fn faulty_requests_are_refused() {
    assert_eq!(message(start(request("G ET", "http://a/", &[], None))), "invalid HTTP method: G ET");
    assert_eq!(message(start(request("", "no url", &[], None))), "invalid HTTP method: ");
    assert_eq!(message(start(request("GET", "no url", &[], None))), "invalid URL: no url");
    assert_eq!(
        message(start(request("GET", "http://a/", &[("a b", "\n"), ("b", "\n")], None))),
        "invalid header name: a b"
    );
    assert_eq!(
        message(start(request("GET", "http://a/", &[("A", "1"), ("B", "\n"), ("", "x")], None))),
        "invalid header value for B"
    );
    let long = "a".repeat(65536);
    assert_eq!(
        message(start(request("GET", "http://a/", &[(&long, "1")], None))),
        format!("invalid header name: {}", long)
    );
    assert!(start(request("GET", "http://a/", &[(&long[1..], "1")], None)).is_ok());
}

#[test]
fn a_start_uses_what_it_is_given() {
    let r = start_with(request("x", "y", &[], None), "PUT".to_string(), Some("http://z/".to_string()));
    match r {
        Ok(f) => {
            let r = send(&f);
            assert_eq!((&*r.method, &*r.url), ("PUT", "http://z/"));
        }
        Err(_) => panic!("no forward"),
    }
    assert_eq!(
        message(start_with(request("x", "y", &[], None), "PUT".to_string(), None)),
        "invalid URL: y"
    );
}

#[test]
fn cookies_are_split() {
    assert_eq!(split_cookies(" a=1 ;; b=2; "), ["a=1", "b=2"]);
    assert!(split_cookies(" ; ").is_empty());
}

#[test]
fn the_callers_cookies_go_through_the_jar() {
    let f = begin("GET", "http://a.example/", &[("COOKIE", "x=1;;  y=2 ")], None);
    let sent = send(&f).headers["cookie"].to_str().unwrap().to_string();
    let mut pairs: Vec<&str> = sent.split("; ").collect();
    pairs.sort();
    assert_eq!(pairs, ["x=1", "y=2"]);
    let f = again(f, 302, "http://b.example/");
    assert!(send(&f).headers.get("cookie").is_none());
}

#[test]
fn cookies_of_a_reply_are_sent_back() {
    let f = begin("GET", "http://a.example/", &[("cookie", "x=1")], None);
    let f = match f.receive(reply(
        302,
        &[("set-cookie", "x=2"), ("location", "/next"), ("set-cookie", "z=3; Path=/other")],
    )) {
        Ok(Next::Again(f)) => f,
        _ => panic!("no redirect"),
    };
    let r = send(&f);
    assert_eq!(r.url, "http://a.example/next");
    assert_eq!(r.headers["cookie"], "x=2");
    let l = landing(f, reply(200, &[("set-cookie", "x=3")]));
    assert_eq!(l.cookie, Some("x=3".to_string()));
}

#[test]
fn a_header_can_be_given_to_a_hop() {
    let f = begin("GET", "http://a/", &[("a", "1")], None);
    match f.request_with(Some(b"k=v".to_vec())) {
        Ok(r) => {
            assert_eq!(r.headers.len(), 2);
            assert_eq!(r.headers["cookie"], "k=v");
        }
        Err(_) => panic!("no request"),
    }
    match f.request_with(None) {
        Ok(r) => assert_eq!(r.headers.len(), 1),
        Err(_) => panic!("no request"),
    }
}

#[test]
fn post_becomes_get() {
    for status in [300, 301, 302, 303, 304] {
        let f = begin(
            "POST",
            "http://a/",
            &[("content-type", "t"), ("content-length", "1"), ("x", "y")],
            Some("b"),
        );
        let r = send(&again(f, status, "/n"));
        assert_eq!((&*r.method, &*r.url), ("GET", "http://a/n"));
        assert_eq!(r.body, None);
        assert_eq!(r.headers.len(), 1);
        assert_eq!(r.headers["x"], "y");
    }
}

#[test]
fn replays_keep_method_and_body() {
    for status in [307, 308] {
        let f = begin("POST", "http://a/", &[("content-type", "t")], Some("b"));
        let r = send(&again(f, status, "/n"));
        assert_eq!(r.method, "POST");
        assert_eq!(r.body, Some("b".to_string()));
        assert_eq!(r.headers["content-type"], "t");
    }
}

#[test]
fn see_other_turns_anything_but_head_into_get() {
    let r = send(&again(begin("PUT", "http://a/", &[], Some("b")), 303, "/n"));
    assert_eq!((&*r.method, r.body), ("GET", None));
    let r = send(&again(begin("HEAD", "http://a/", &[], Some("b")), 303, "/n"));
    assert_eq!((&*r.method, r.body), ("HEAD", Some("b".to_string())));
    let r = send(&again(begin("PUT", "http://a/", &[], Some("b")), 302, "/n"));
    assert_eq!((&*r.method, r.body), ("PUT", Some("b".to_string())));
}

#[test]
fn credentials_do_not_leave_their_origin() {
    let headers = [("Authorization", "s"), ("Proxy-Authorization", "t"), ("x", "y")];
    let f = again(begin("GET", "http://a/", &headers, None), 302, "http://a:80/n");
    assert_eq!(send(&f).headers.len(), 3);
    for other in ["http://b/", "https://a/", "http://a:81/", "//b"] {
        let f = again(begin("GET", "http://a/", &headers, None), 302, other);
        let h = send(&f).headers;
        assert_eq!(h.len(), 1);
        assert_eq!(h["x"], "y");
        let h = send(&again(f, 302, "http://a/")).headers;
        assert_eq!(h.len(), 1);
    }
}

#[test]
fn redirects_are_bounded() {
    let mut f = begin("GET", "http://a/0", &[], None);
    for i in 1..=MAX_REDIRECTS {
        f = again(f, 302, &format!("/{}", i));
    }
    assert_eq!(send(&f).url, "http://a/10");
    match f.receive(reply(302, &[("location", "/11")])) {
        Err(e) => {
            assert_eq!(e.message(), "too many redirects (>10)");
            assert_eq!(error_kind(&e), "too_many_redirects");
        }
        Ok(_) => panic!("no limit"),
    }
}

#[test]
fn only_redirects_are_followed() {
    for (status, headers) in [
        (200, vec![("location", "/n")]),
        (299, vec![("location", "/n")]),
        (400, vec![("location", "/n")]),
        (302, vec![]),
        (302, vec![("location", "http://[bad")]),
        (302, vec![("location", "/\u{e4}"), ("location", "/n")]),
    ] {
        let l = landing(begin("GET", "http://a/x", &[], None), reply(status, &headers));
        assert_eq!(l.status, status);
        assert_eq!(l.url, "http://a/x");
        assert_eq!(l.cookie, None);
    }
    assert_eq!(reply_location(&reply(1, &[("x", "y"), ("location", "a")]).headers), Some("a".to_string()));
    assert_eq!(reply_location(&Vec::new()), None);
}

#[test]
fn a_reply_is_shown_to_the_caller() {
    let f = begin("GET", "http://a/x", &[], None);
    let mut r = reply(201, &[("a", "1"), ("b", "2"), ("a", "3")]);
    r.headers.push(("b".to_string(), vec![0xff]));
    r.headers.push(("c".to_string(), vec![0xc3, 0xa4]));
    let mut l = landing(f, r);
    l.headers.sort();
    let shown = [("a".to_string(), "3".to_string()), ("b".to_string(), "2".to_string())];
    assert_eq!(l.headers, shown);
    let response = l.finish(b"light w".to_vec());
    assert_eq!(response.status, 201);
    assert_eq!(response.headers, shown);
    assert_eq!(response.body, "bGlnaHQgdw==");
    assert_eq!(response.url, "http://a/x");
    assert_eq!(response.cookie, None);
}

#[test]
fn a_forward_can_be_ended_with_given_cookies() {
    let l = begin("GET", "http://a/x", &[], None).land(reply(204, &[]), Some(b"k=v".to_vec()));
    assert_eq!(l.cookie, Some("k=v".to_string()));
    let l = begin("GET", "http://a/x", &[], None).land(reply(204, &[]), Some(vec![0xff]));
    assert_eq!(l.cookie, None);
}

fn base64_of(bytes: &[u8]) -> String {
    Landing { status: 200, headers: Vec::new(), url: String::new(), cookie: None }
        .finish(bytes.to_vec())
        .body
}

#[test]
fn bodies_are_in_base64() {
    assert_eq!(base64_of(b""), "");
    assert_eq!(base64_of(b"f"), "Zg==");
    assert_eq!(base64_of(b"fo"), "Zm8=");
    assert_eq!(base64_of(b"foo"), "Zm9v");
    assert_eq!(base64_of(&[0xfb, 0xff, 0xfe]), "+//+");
    assert_eq!(base64_of(&[0, 0x10, 0x83, 0x10, 0x51, 0x87]), "ABCDEFGH");
    assert_ne!(base64_of(b"a"), base64_of(b"a\0"));
}

/// The same text, written down digit by digit.
fn base64_by_hand(s: &[u8]) -> String {
    let byte = |i: usize| if i < s.len() { s[i] as usize } else { 0 };
    let symbols: Vec<char> = ('A'..='Z').chain('a'..='z').chain('0'..='9').chain(['+', '/']).collect();
    (0..4 * ((s.len() + 2) / 3))
        .map(|j| {
            let (g, k) = (j / 4, j % 4);
            let n = byte(3 * g) * 65536 + byte(3 * g + 1) * 256 + byte(3 * g + 2);
            if 3 * g + k > s.len() {
                '='
            } else {
                symbols[[n / 262144, n / 4096 % 64, n / 64 % 64, n % 64][k]]
            }
        })
        .collect()
}

#[test]
fn base64_is_written_digit_by_digit() {
    let mut bytes = Vec::new();
    for i in 0..600usize {
        assert_eq!(base64_of(&bytes), base64_by_hand(&bytes));
        bytes.push((i * 89 + i / 3) as u8);
    }
}

#[test]
fn only_visible_values_are_text() {
    assert_eq!(value_text(&b"a\tb~ ".to_vec()), Some("a\tb~ ".to_string()));
    assert_eq!(value_text(&Vec::new()), Some(String::new()));
    for b in [0u8, 31, 127, 128, 255] {
        assert_eq!(value_text(&vec![b'a', b]), None);
    }
}

#[test]
fn hosts_are_found() {
    assert_eq!(
        request_host(&request("GET", "https://User:pw@Example.com:8443/x", &[], None)),
        Some("example.com".to_string())
    );
    assert_eq!(request_host(&request("GET", "mailto:a@b", &[], None)), None);
    assert_eq!(request_host(&request("GET", "x", &[], None)), None);
}

fn transport(timeout: bool, connect: bool, body: bool, decode: bool) -> ForwardError {
    ForwardError::Transport(TransportError {
        message: "https://secret/".to_string(),
        timeout,
        connect,
        body,
        decode,
    })
}

#[test]
fn failures_have_labels() {
    assert_eq!(error_kind(&transport(true, true, true, true)), "timeout");
    assert_eq!(error_kind(&transport(false, true, true, true)), "connect");
    assert_eq!(error_kind(&transport(false, false, true, false)), "body");
    assert_eq!(error_kind(&transport(false, false, false, true)), "body");
    assert_eq!(error_kind(&transport(false, false, false, false)), "request");
    assert_eq!(transport(true, false, false, false).message(), "https://secret/");
}

#[test]
fn a_failure_is_noted_and_told() {
    let mut log = ErrorLog::new();
    let host = Some("a.example".to_string());
    let answer = conclude_at(&mut log, 9, host.clone(), Err(transport(false, true, false, false)));
    assert_eq!(answer.status, 502);
    match answer.body {
        Err(m) => assert_eq!(m, "https://secret/"),
        Ok(_) => panic!("no error"),
    }
    assert_eq!(log.len(), 1);
    let e = log.get(0);
    assert_eq!((e.at, e.source, e.kind), (9, "proxy", "connect"));
    assert_eq!((&e.host, &e.code), (&host, &None));
}

#[test]
fn a_response_is_handed_on() {
    let mut log = ErrorLog::new();
    let response = ProxyResponse {
        status: 404,
        headers: Vec::new(),
        body: "Zm9v".to_string(),
        url: "http://a/".to_string(),
        cookie: None,
    };
    let answer = conclude_at(&mut log, 9, None, Ok(response));
    assert_eq!(answer.status, 200);
    match answer.body {
        Ok(r) => assert_eq!((r.status, &*r.body), (404, "Zm9v")),
        Err(_) => panic!("no response"),
    }
    assert_eq!(log.len(), 0);
}

fn many_headers(n: usize) -> Result<Forward, ForwardError> {
    let names: Vec<String> = (0..n).map(|i| format!("x-{}", i)).collect();
    let mut headers: Vec<(&str, &str)> = names.iter().map(|n| (&**n, "v")).collect();
    headers[0] = ("cookie", "a=b");
    start(request("GET", "http://a/", &headers, None))
}

#[test]
fn a_header_map_has_its_room() {
    for n in [HEADER_ROOM, 20000] {
        match many_headers(n) {
            Ok(f) => {
                let r = send(&f);
                assert_eq!(r.headers.len(), n);
                assert_eq!(r.headers["cookie"], "a=b");
            }
            Err(e) => panic!("{}", e.message()),
        }
    }
}

#[test]
fn a_header_map_can_be_full() {
    match many_headers(40000) {
        Err(e) => {
            assert!(matches!(e, ForwardError::TooManyHeaders));
            assert_eq!(e.message(), "too many headers");
        }
        Ok(_) => panic!("no limit"),
    }
}

#[test]
fn plain_cookies_stay_with_their_host() {
    let f = begin("GET", "http://a.example/x", &[("Cookie", "p=1")], None);
    assert_eq!(send(&f).headers["cookie"], "p=1");
    let f = again(f, 302, "http://sub.a.example/");
    assert!(send(&f).headers.is_empty());
    let f = again(f, 302, "https://a.example:8443/y");
    assert_eq!(send(&f).headers["cookie"], "p=1");
}

fn sent_cookies(f: &Forward) -> Vec<String> {
    let r = send(f);
    let mut items: Vec<String> = match r.headers.get("cookie") {
        Some(v) => v.to_str().unwrap().split("; ").map(String::from).collect(),
        None => Vec::new(),
    };
    items.sort();
    items
}

fn redirect_with(f: Forward, cookies: &[&str], location: &str) -> Forward {
    let mut headers = vec![("location", location)];
    headers.extend(cookies.iter().map(|c| ("set-cookie", *c)));
    match f.receive(reply(302, &headers)) {
        Ok(Next::Again(f)) => f,
        _ => panic!("no redirect"),
    }
}

#[test]
fn cookies_of_caller_and_hops_are_merged() {
    let f = begin("GET", "http://my-host1.example/d/x", &[("Cookie", "a=1; b=x=y z;;c=")], None);
    assert_eq!(sent_cookies(&f), ["a=1", "b=x=y z", "c="]);
    let f = redirect_with(f, &["s=9", "b=2"], "/d/e/y");
    assert_eq!(sent_cookies(&f), ["a=1", "b=2", "c=", "s=9"]);
    let f = redirect_with(f, &["a=3"], "http://other.example/d/x");
    assert!(sent_cookies(&f).is_empty());
    let f = redirect_with(f, &["o=5", "q=6; Path=/"], "/d/z");
    assert_eq!(sent_cookies(&f), ["o=5", "q=6"]);
    let f = redirect_with(f, &[], "https://my-host1.example/d");
    assert_eq!(sent_cookies(&f), ["a=1", "b=2", "c=", "s=9"]);
    let f = redirect_with(f, &[], "/elsewhere");
    assert!(sent_cookies(&f).is_empty());
    let f = redirect_with(f, &[], "/d/e/f");
    assert_eq!(sent_cookies(&f), ["a=1", "a=3", "b=2", "c=", "s=9"]);
}

#[test]
fn cookies_are_kept_for_addresses() {
    let f = begin("GET", "http://127.0.0.1:8080/", &[("cookie", "a=1;b=2")], None);
    assert_eq!(sent_cookies(&f), ["a=1", "b=2"]);
    let f = again(f, 302, "http://127.0.0.2:8080/");
    assert!(sent_cookies(&f).is_empty());
}

#[test]
fn all_cookies_reach_the_caller() {
    let f = begin("GET", "http://a.example/", &[("cookie", "a=1")], None);
    let l = landing(f, reply(200, &[("set-cookie", "b=2"), ("set-cookie", "c=3; HttpOnly")]));
    let text = l.cookie.unwrap();
    let mut items: Vec<&str> = text.split("; ").collect();
    items.sort();
    assert_eq!(items, ["a=1", "b=2", "c=3"]);
}

#[test]
fn cookies_that_cannot_be_sent_are_left_out() {
    let f = begin("GET", "http://a.example/", &[("cookie", "a=1; b=\u{1}")], None);
    assert!(sent_cookies(&f).is_empty());
}

#[test]
fn origins_are_those_of_the_innermost_urls() {
    assert!(have_one_origin("http://a/x", "http://a:80/y"));
    assert!(!have_one_origin("http://a/", "https://a/"));
    assert!(have_one_origin("blob:http://a/1", "http://a/"));
    assert!(have_one_origin("blob:BLOB: blob:https://a/1", "https://a:443/"));
    assert!(!have_one_origin("blob:x", "blob:x"));
    assert!(!have_one_origin("data:x", "data:x"));
    assert!(!have_one_origin("x", "x"));
    let deep = "blob:".repeat(3000) + "http://a/";
    assert!(have_one_origin(&deep, "http://a/"));
}

#[test]
fn deep_destinations_are_followed() {
    let f = begin("GET", "http://a/", &[("authorization", "s")], None);
    let f = again(f, 302, &("blob:".repeat(3000) + "http://a/"));
    assert_eq!(send(&f).headers.len(), 1);
}

#[test]
fn cookies_with_attributes_keep_to_them() {
    let f = begin("GET", "http://a.example/d/x", &[], None);
    let f = redirect_with(
        f,
        &["p=1; Path=/", "q=2;path = /d/e ;Path", "h=3; HttpOnly; SameSite=Lax", "s=4; Secure", "b=5; Path=rel"],
        "/d/e/y",
    );
    assert_eq!(sent_cookies(&f), ["b=5", "h=3", "p=1", "q=2"]);
    let f = redirect_with(f, &[], "https://a.example/d/z");
    assert_eq!(sent_cookies(&f), ["b=5", "h=3", "p=1", "s=4"]);
    let f = redirect_with(f, &["p=6; path=/"], "http://a.example/other");
    assert_eq!(sent_cookies(&f), ["p=6"]);
    let f = redirect_with(f, &["p=; Path=/; Max-Age=0"], "http://a.example/other");
    assert!(sent_cookies(&f).is_empty());
}
