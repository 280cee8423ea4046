# miniproxy

A small proxy in two parts. `minilocal` runs on the user's machine and
accepts HTTP, HTTPS (CONNECT) and SOCKS5 clients; `miniserver` runs on a
remote host. Between them every byte goes through a substitution cipher whose
table is a random permutation of the 256 byte values, shared as base64 text.

Layout:

- `src/` — the verified library (Verus):
  - `cipher.rs` — the substitution cipher and its round-trip laws;
  - `password.rs` — making and decoding password tables;
  - `socks5.rs` — SOCKS5 requests as the local side builds them and as the
    server reads them, with the law that the server reads back what was sent;
  - `http.rs` — routing the first request of a local connection;
  - `numbers.rs` — decimal text for ports and lengths;
  - `config.rs`, `pac.rs`, `daemon.rs` — settings, the PAC answer, the
    daemon plan.
- `app/` — the programs: sockets, the async runtime, command lines, config
  files, daemonizing.
- `tests/` — tests of the library.
