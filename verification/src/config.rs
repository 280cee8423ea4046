//! The settings of the local proxy and of the server, with their defaults.
use crate::numbers::{
    append_decimal, ascii_chars, decimal_bytes, lemma_decimal_digits, lemma_port_round_trip,
    parse_port, parse_u16_text,
};
use crate::password::{self, is_password};
use vstd::prelude::*;
use vstd::string::*;

verus! {

/// The settings of the local proxy.
#[derive(Debug)]
pub struct LocalConfig {
    /// The address to listen on.
    pub host: Option<String>,
    /// The port to listen on.
    pub port: Option<u16>,
    /// The server to tunnel through, as `host:port`.
    pub server: Option<String>,
    /// The password shared with the server.
    pub password: Option<String>,
}

/// The settings of the server.
#[derive(Debug)]
pub struct ServerConfig {
    /// The address to listen on.
    pub host: Option<String>,
    /// The port to listen on.
    pub port: Option<u16>,
    /// The password shared with the local proxies.
    pub password: Option<String>,
}

impl Default for LocalConfig {
    /// Listens on 127.0.0.0:9998, with no server and no password set.
    fn default() -> (res: Self)
        ensures
            res.host matches Some(h) && h@ == "127.0.0.0"@,
            res.port == Some(9998u16),
            res.server is None,
            res.password is None,
    {
        LocalConfig {
            host: Some(String::from_str("127.0.0.0")),
            port: Some(9998),
            server: None,
            password: None,
        }
    }
}

impl Default for ServerConfig {
    /// Listens on 0.0.0.0:59999 with a fresh random password.
    fn default() -> (res: Self)
        ensures
            res.host matches Some(h) && h@ == "0.0.0.0"@,
            res.port == Some(59999u16),
            res.password matches Some(p) && is_password(p@),
    {
        ServerConfig {
            host: Some(String::from_str("0.0.0.0")),
            port: Some(59999),
            password: Some(password::new()),
        }
    }
}

/// The `host:port` text a listener binds to.
pub open spec fn address_text(host: Seq<char>, port: u16) -> Seq<char> {
    host + ":"@ + ascii_chars(decimal_bytes(port as nat))
}

/// The `host:port` text to listen on.
pub fn listen_address(host: &str, port: u16) -> (res: String)
    ensures
        res@ == address_text(host@, port),
        res@.take(host@.len() as int) == host@,
        res@[host@.len() as int] == ':',
        exists|digits: Seq<u8>|
            #[trigger] ascii_chars(digits) == res@.skip(host@.len() as int + 1) && parse_u16_text(digits)
                == Some(port) && (digits.len() == 1 || digits[0] != 48),
{
    proof {
        lemma_address_text_parts(host@, port);
    }
    let mut text = String::from_str(host);
    text.append(":");
    append_decimal(&mut text, port as u64);
    text
}

/// Why the command line could not be applied.
#[derive(Debug, Clone, Copy, PartialEq, Eq)]
pub enum ArgError {
    /// The port given is no valid port number.
    InvalidPort,
    /// No server address was given, neither in the settings nor on the
    /// command line.
    ServerRequired,
}

/// The view of an optional string.
pub open spec fn optional_text(s: Option<String>) -> Option<Seq<char>> {
    match s {
        Some(t) => Some(t@),
        None => None,
    }
}

/// The view of an optional string slice.
pub open spec fn optional_str(s: Option<&str>) -> Option<Seq<char>> {
    match s {
        Some(t) => Some(t@),
        None => None,
    }
}

/// A setting overridden by a command line value, where one was given.
pub open spec fn overridden(setting: Option<String>, arg: Option<&str>) -> Option<Seq<char>> {
    match arg {
        Some(a) => Some(a@),
        None => optional_text(setting),
    }
}

/// Copies a command line value into an owned string.
fn owned(arg: Option<&str>) -> (res: Option<String>)
    ensures
        optional_text(res) == optional_str(arg),
{
    match arg {
        Some(a) => Some(String::from_str(a)),
        None => None,
    }
}

impl LocalConfig {
    /// Applies the `--host`, `--port` and `--server` values of the command
    /// line: each given value replaces the setting; a port that is no valid
    /// port number is refused, and so is a configuration left without a
    /// server.
    pub fn apply_args(self, host: Option<&str>, port: Option<&str>, server: Option<&str>) -> (res:
        Result<LocalConfig, ArgError>)
        ensures
            port matches Some(p) && parse_u16_text(p.spec_bytes()) is None ==> res == Err::<
                LocalConfig,
                ArgError,
            >(ArgError::InvalidPort),
            !(port matches Some(p) && parse_u16_text(p.spec_bytes()) is None) && server is None
                && self.server is None ==> res == Err::<LocalConfig, ArgError>(
                ArgError::ServerRequired,
            ),
            res matches Ok(c) ==> {
                &&& optional_text(c.host) == overridden(self.host, host)
                &&& c.port == match port {
                    Some(p) => parse_u16_text(p.spec_bytes()),
                    None => self.port,
                }
                &&& optional_text(c.server) == overridden(self.server, server)
                &&& optional_text(c.password) == optional_text(self.password)
                &&& c.server is Some
            },
            res is Ok <==> !(port matches Some(p) && parse_u16_text(p.spec_bytes()) is None) && (
            server is Some || self.server is Some),
    {
        let mut config = self;
        if host.is_some() {
            config.host = owned(host);
        }
        match port {
            Some(p) => match parse_port(p.as_bytes()) {
                Some(v) => {
                    config.port = Some(v);
                },
                None => {
                    return Err(ArgError::InvalidPort);
                },
            },
            None => {},
        }
        if server.is_some() {
            config.server = owned(server);
        }
        if config.server.is_none() {
            return Err(ArgError::ServerRequired);
        }
        Ok(config)
    }
}

impl ServerConfig {
    /// Applies the `--host` and `--port` values of the command line: each
    /// given value replaces the setting; a port that is no valid port number
    /// is refused.
    pub fn apply_args(self, host: Option<&str>, port: Option<&str>) -> (res: Result<
        ServerConfig,
        ArgError,
    >)
        ensures
            res is Ok <==> !(port matches Some(p) && parse_u16_text(p.spec_bytes()) is None),
            res is Err ==> res == Err::<ServerConfig, ArgError>(ArgError::InvalidPort),
            res matches Ok(c) ==> {
                &&& optional_text(c.host) == overridden(self.host, host)
                &&& c.port == match port {
                    Some(p) => parse_u16_text(p.spec_bytes()),
                    None => self.port,
                }
                &&& optional_text(c.password) == optional_text(self.password)
            },
    {
        let mut config = self;
        if host.is_some() {
            config.host = owned(host);
        }
        match port {
            Some(p) => match parse_port(p.as_bytes()) {
                Some(v) => {
                    config.port = Some(v);
                },
                None => {
                    return Err(ArgError::InvalidPort);
                },
            },
            None => {},
        }
        Ok(config)
    }
}

/// A listen address is the whole host text, a colon, and then the port in
/// plain decimal (no sign, no leading zero) that reads back as the port.
pub proof fn lemma_address_text_parts(host: Seq<char>, port: u16)
    ensures
        address_text(host, port).take(host.len() as int) == host,
        address_text(host, port)[host.len() as int] == ':',
        exists|digits: Seq<u8>|
            #[trigger] ascii_chars(digits) == address_text(host, port).skip(host.len() as int + 1)
                && parse_u16_text(digits) == Some(port) && (digits.len() == 1 || digits[0] != 48),
{
    reveal_strlit(":");
    let t = address_text(host, port);
    let d = decimal_bytes(port as nat);
    lemma_decimal_digits(port as nat);
    lemma_port_round_trip(port);
    assert(t.take(host.len() as int) =~= host);
    assert(t.skip(host.len() as int + 1) =~= ascii_chars(d));
    if d.len() != 1 {
        assert(port as nat >= 10);
    }
}

} // verus!
