use miniproxy::socks5::{
    client_greeting, connect_request, connect_success_reply, method_selection_reply,
    parse_request, req_socks5_request, request_is_short, SocketTarget, Socks5Request,
};

fn buffer(bytes: &[u8]) -> (Vec<u8>, usize) {
    let mut buf = vec![0u8; 1024];
    buf[..bytes.len()].copy_from_slice(bytes);
    (buf, bytes.len())
}

#[test]
fn fixed_messages() {
    assert_eq!(client_greeting(), vec![5, 1, 0]);
    assert_eq!(method_selection_reply(), vec![5, 0]);
    assert_eq!(connect_success_reply(), vec![5, 0, 0, 1, 0, 0, 0, 0, 0, 0]);
}

#[test]
fn domain_request_with_port() {
    let r = req_socks5_request(None, "example.com:443").unwrap();
    let mut expected = vec![5, 1, 0, 3, 11];
    expected.extend_from_slice(b"example.com");
    expected.extend_from_slice(&[1, 187]);
    assert_eq!(r, expected);
}

#[test]
fn domain_request_defaults_to_port_80() {
    let r = req_socks5_request(None, "example.com").unwrap();
    assert_eq!(&r[r.len() - 2..], &[0, 80]);
    assert_eq!(r[4], 11);
}

#[test]
fn domain_request_reads_port_up_to_next_colon() {
    let r = req_socks5_request(None, "a:8080:junk").unwrap();
    assert_eq!(r, vec![5, 1, 0, 3, 1, b'a', 0x1f, 0x90]);
}

#[test]
fn domain_request_with_bad_port_is_refused() {
    assert_eq!(req_socks5_request(None, "example.com:http"), None);
    assert_eq!(req_socks5_request(None, "example.com:70000"), None);
    assert_eq!(req_socks5_request(None, "example.com:"), None);
}

#[test]
fn long_domain_length_is_cut_to_a_byte() {
    let host = "x".repeat(300);
    let r = req_socks5_request(None, &host).unwrap();
    assert_eq!(r[4], (300 % 256) as u8);
    assert_eq!(r.len(), 5 + 300 + 2);
}

#[test]
fn ipv4_request() {
    let r = connect_request(Some(SocketTarget::V4([10, 0, 0, 1], 8080)), "10.0.0.1:8080");
    assert_eq!(r, vec![5, 1, 0, 1, 10, 0, 0, 1, 0x1f, 0x90]);
}

#[test]
fn ipv6_request_uses_address_type_4() {
    let mut ip = [0u8; 16];
    ip[15] = 1;
    let r = req_socks5_request(Some(SocketTarget::V6(ip, 443)), "[::1]:443").unwrap();
    let mut expected = vec![5, 1, 0, 4];
    expected.extend_from_slice(&ip);
    expected.extend_from_slice(&[1, 187]);
    assert_eq!(r, expected);
}

#[test]
fn server_parses_ipv4() {
    let (buf, n) = buffer(&[5, 1, 0, 1, 192, 168, 1, 2, 0, 80]);
    assert!(!request_is_short(&buf, n));
    assert_eq!(parse_request(&buf, n), Socks5Request::Ipv4 { ip: [192, 168, 1, 2], port: 80 });
}

#[test]
fn server_parses_domain() {
    let (buf, n) = buffer(&[5, 1, 0, 3, 3, b'a', b'b', b'c', 0x1f, 0x90]);
    assert_eq!(
        parse_request(&buf, n),
        Socks5Request::Domain { name: b"abc".to_vec(), port: 8080 }
    );
}

#[test]
fn server_parses_ipv6() {
    let mut req = vec![5, 1, 0, 4];
    req.extend_from_slice(&[0x20, 0x01, 0x0d, 0xb8, 0, 0, 0, 0, 0, 0, 0, 0, 0, 0, 0, 1]);
    req.extend_from_slice(&[0, 22]);
    let (buf, n) = buffer(&req);
    assert_eq!(
        parse_request(&buf, n),
        Socks5Request::Ipv6 { segments: [0x2001, 0x0db8, 0, 0, 0, 0, 0, 1], port: 22 }
    );
}

#[test]
fn server_refuses_unknown_command_and_address_type() {
    let (buf, n) = buffer(&[5, 9, 0, 1, 1, 2, 3, 4, 0, 80]);
    assert_eq!(parse_request(&buf, n), Socks5Request::Unsupported);
    let (buf, n) = buffer(&[5, 1, 0, 5, 1, 2, 3, 4, 0, 80]);
    assert_eq!(parse_request(&buf, n), Socks5Request::Unsupported);
    // an unknown command is refused before anything else is read
    let (buf, n) = buffer(&[5, 9]);
    assert!(!request_is_short(&buf, n));
    assert_eq!(parse_request(&buf, n), Socks5Request::Unsupported);
}

#[test]
fn short_requests_are_recognised() {
    let (buf, _) = buffer(&[5, 1, 0, 1]);
    assert!(request_is_short(&buf, 1));
    let (buf, _) = buffer(&[5, 1, 0, 3, 0, 0]);
    assert!(request_is_short(&buf, 6));
    assert!(!request_is_short(&buf, 7));
}

#[test]
fn server_reads_back_what_local_sends() {
    for host in ["example.com:443", "example.com", "a.b:1", ":9"] {
        let r = req_socks5_request(None, host).unwrap();
        let (buf, n) = buffer(&r);
        let (name, port) = match host.split_once(':') {
            Some((d, p)) => (d, p.parse::<u16>().unwrap()),
            None => (host, 80),
        };
        assert_eq!(
            parse_request(&buf, n),
            Socks5Request::Domain { name: name.as_bytes().to_vec(), port }
        );
    }
    let r = connect_request(Some(SocketTarget::V4([1, 2, 3, 4], 65535)), "1.2.3.4:65535");
    let (buf, n) = buffer(&r);
    assert_eq!(parse_request(&buf, n), Socks5Request::Ipv4 { ip: [1, 2, 3, 4], port: 65535 });
    let mut ip = [0u8; 16];
    ip[0] = 0xfe;
    ip[1] = 0x80;
    ip[15] = 0x01;
    let r = connect_request(Some(SocketTarget::V6(ip, 443)), "[fe80::1]:443");
    let (buf, n) = buffer(&r);
    assert_eq!(
        parse_request(&buf, n),
        Socks5Request::Ipv6 { segments: [0xfe80, 0, 0, 0, 0, 0, 0, 1], port: 443 }
    );
}
