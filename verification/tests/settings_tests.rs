use miniproxy::config::{listen_address, ArgError, LocalConfig, ServerConfig};
use miniproxy::daemon::set_daemon;
use miniproxy::numbers::{append_decimal, parse_port, push_decimal};
use miniproxy::pac::pac_response_head;
use miniproxy::password::decode_password;

#[test]
fn local_defaults() {
    let c = LocalConfig::default();
    assert_eq!(c.host.as_deref(), Some("127.0.0.0"));
    assert_eq!(c.port, Some(9998));
    assert!(c.server.is_none());
    assert!(c.password.is_none());
}

#[test]
fn server_defaults() {
    let c = ServerConfig::default();
    assert_eq!(c.host.as_deref(), Some("0.0.0.0"));
    assert_eq!(c.port, Some(59999));
    let table = decode_password(c.password.as_deref().unwrap()).unwrap();
    assert_eq!(table.len(), 256);
}

#[test]
fn addresses() {
    assert_eq!(listen_address("127.0.0.1", 9998), "127.0.0.1:9998");
    assert_eq!(listen_address("0.0.0.0", 0), "0.0.0.0:0");
    assert_eq!(listen_address("h", 65535), "h:65535");
}

#[test]
fn decimal_text() {
    let mut out = b"n=".to_vec();
    push_decimal(&mut out, 1234567890);
    assert_eq!(out, b"n=1234567890".to_vec());
    let mut s = String::from("v");
    append_decimal(&mut s, 7);
    assert_eq!(s, "v7");
}

#[test]
fn ports() {
    assert_eq!(parse_port(b"80"), Some(80));
    assert_eq!(parse_port(b"+443"), Some(443));
    assert_eq!(parse_port(b"00065535"), Some(65535));
    assert_eq!(parse_port(b"65536"), None);
    assert_eq!(parse_port(b"99999999999999999999"), None);
    assert_eq!(parse_port(b""), None);
    assert_eq!(parse_port(b"+"), None);
    assert_eq!(parse_port(b"-1"), None);
    assert_eq!(parse_port(b"8o"), None);
    for p in [0u16, 9, 10, 99, 100, 9998, 59999, 65535] {
        assert_eq!(parse_port(p.to_string().as_bytes()), Some(p));
        assert_eq!(parse_port(p.to_string().as_bytes()), p.to_string().parse::<u16>().ok());
    }
}

#[test]
fn pac_head() {
    let head = pac_response_head(1234);
    assert_eq!(
        head,
        b"HTTP/1.1 200 OK\r\nContent-Length: 1234\r\nServer: minilocalConnection: closeContent-Type: application/x-ns-proxy-autoconfig\r\n\r\n".to_vec()
    );
}

#[test]
fn daemon_plan() {
    let plan = set_daemon("minilocal");
    assert_eq!(plan.stdout_path, "/tmp/minilocal.out");
    assert_eq!(plan.stderr_path, "/tmp/minilocal.err");
    assert_eq!(plan.pid_file, "/tmp/minilocal.pid");
    assert!(plan.chown_pid_file);
    assert_eq!(plan.working_directory, "/tmp");
    assert_eq!(plan.group, 2);
    assert_eq!(plan.umask, 0o777);
}

#[test]
fn local_args_override_settings() {
    let c = LocalConfig::default().apply_args(Some("0.0.0.0"), Some("1080"), Some("1.2.3.4:59999")).unwrap();
    assert_eq!(c.host.as_deref(), Some("0.0.0.0"));
    assert_eq!(c.port, Some(1080));
    assert_eq!(c.server.as_deref(), Some("1.2.3.4:59999"));
    let c = LocalConfig::default().apply_args(None, None, Some("s:1")).unwrap();
    assert_eq!(c.host.as_deref(), Some("127.0.0.0"));
    assert_eq!(c.port, Some(9998));
    assert_eq!(LocalConfig::default().apply_args(None, Some("x"), Some("s:1")).unwrap_err(), ArgError::InvalidPort);
    assert_eq!(LocalConfig::default().apply_args(None, None, None).unwrap_err(), ArgError::ServerRequired);
    // a bad port is reported before a missing server
    assert_eq!(LocalConfig::default().apply_args(None, Some("99999"), None).unwrap_err(), ArgError::InvalidPort);
}

#[test]
fn server_args_override_settings() {
    let c = ServerConfig::default().apply_args(Some("::"), Some("+8000")).unwrap();
    assert_eq!(c.host.as_deref(), Some("::"));
    assert_eq!(c.port, Some(8000));
    assert!(c.password.is_some());
    assert_eq!(ServerConfig::default().apply_args(None, Some("")).unwrap_err(), ArgError::InvalidPort);
}
