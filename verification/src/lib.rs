//! A small proxy that speaks HTTP, HTTPS and SOCKS5 on the local side and a
//! byte-substitution ciphered SOCKS5 towards the remote server.
//!
//! The library holds the protocol logic: the substitution cipher, the
//! password tables, the SOCKS5 request framing and parsing, the routing of
//! the first HTTP request of a connection, the configuration defaults and the
//! plan for daemonizing. Sockets, files and the async runtime live in the
//! program around it.
pub mod cipher;
pub mod password;
pub mod numbers;
pub mod socks5;
pub mod http;
pub mod config;
pub mod daemon;
pub mod pac;
