use miniproxy::http::{classify_request, route_head, tunnel_established_reply, HttpHead, HttpHeader, Route};

#[test]
fn connect_request_is_tunnelled() {
    let r = classify_request(b"CONNECT example.com:443 HTTP/1.1\r\nHost: example.com:443\r\n\r\n");
    assert_eq!(r, Route::Proxy { host: "example.com:443".to_string(), connect: true });
}

#[test]
fn plain_get_is_tunnelled_and_passed_on() {
    let r = classify_request(b"GET http://example.com/ HTTP/1.1\r\nHost: example.com\r\nAccept: */*\r\n\r\n");
    assert_eq!(r, Route::Proxy { host: "example.com".to_string(), connect: false });
}

#[test]
fn last_host_header_wins() {
    let r = classify_request(b"GET / HTTP/1.1\r\nHost: first.org\r\nHost: second.org\r\n\r\n");
    assert_eq!(r, Route::Proxy { host: "second.org".to_string(), connect: false });
}

#[test]
fn partial_request_still_routes() {
    // the header block is not finished, but the parser has seen the Host line
    let r = classify_request(b"GET / HTTP/1.1\r\nHost: example.com\r\n");
    assert_eq!(r, Route::Proxy { host: "example.com".to_string(), connect: false });
}

#[test]
fn socks5_greeting_is_forwarded() {
    assert_eq!(classify_request(&[5, 1, 0]), Route::Forward);
}

#[test]
fn missing_host_is_dropped() {
    assert_eq!(classify_request(b"GET / HTTP/1.1\r\nAccept: */*\r\n\r\n"), Route::NoHost);
}

#[test]
fn pac_request_is_served_locally() {
    assert_eq!(classify_request(b"GET /pac HTTP/1.1\r\nHost: 127.0.0.1:9998\r\n\r\n"), Route::ServePac);
}

#[test]
fn pac_needs_a_host() {
    assert_eq!(classify_request(b"GET /pac HTTP/1.1\r\n\r\n"), Route::NoHost);
}

#[test]
fn loopback_host_is_dropped() {
    assert_eq!(classify_request(b"GET / HTTP/1.1\r\nHost: 127.0.0.1:8080\r\n\r\n"), Route::Loopback);
    assert_eq!(classify_request(b"GET / HTTP/1.1\r\nHost: x127.0.0.12\r\n\r\n"), Route::Loopback);
}

#[test]
fn host_must_be_utf8() {
    let head = HttpHead {
        method: Some(b"GET".to_vec()),
        path: Some(b"/".to_vec()),
        headers: vec![
            HttpHeader { name: b"Host".to_vec(), value: vec![0xff, 0xfe] },
            HttpHeader { name: b"Host".to_vec(), value: b"fine.org".to_vec() },
        ],
    };
    assert_eq!(route_head(&head), Route::BadHost);
}

#[test]
fn header_name_case_matters() {
    let head = HttpHead {
        method: Some(b"CONNECT".to_vec()),
        path: None,
        headers: vec![HttpHeader { name: b"host".to_vec(), value: b"a.org".to_vec() }],
    };
    assert_eq!(route_head(&head), Route::NoHost);
}

#[test]
fn non_ascii_host_is_kept() {
    let head = HttpHead {
        method: None,
        path: None,
        headers: vec![HttpHeader { name: b"Host".to_vec(), value: "bücher.de".as_bytes().to_vec() }],
    };
    assert_eq!(route_head(&head), Route::Proxy { host: "bücher.de".to_string(), connect: false });
}

#[test]
fn tunnel_reply_text() {
    assert_eq!(tunnel_established_reply(), b"HTTP/1.1 200 Tunnel established\r\n\r\n".to_vec());
}
