//! SOCKS5 framing: the request the local proxy sends for a host, and what the
//! server reads out of the request it receives.
use crate::numbers::{parse_port, parse_u16_text};
use byteorder::{BigEndian, ByteOrder, WriteBytesExt};
use vstd::prelude::*;
use vstd::string::*;

verus! {

/// A 16-bit number from its big-endian bytes.
pub open spec fn be_u16(hi: u8, lo: u8) -> u16 {
    (hi as nat * 256 + lo as nat) as u16
}

/// The big-endian bytes of a 16-bit number.
pub open spec fn be_bytes(v: u16) -> Seq<u8> {
    seq![(v / 256) as u8, (v % 256) as u8]
}

/// Calls `ByteOrder::read_u16` for `BigEndian`, which reads the first two
/// bytes as a big-endian number and panics on fewer than two.
#[verifier::external_body]
fn read_u16_be(bytes: &[u8]) -> (res: u16)
    requires
        bytes@.len() >= 2,
    ensures
        res == be_u16(bytes@[0], bytes@[1]),
{
    BigEndian::read_u16(bytes)
}

/// Calls `WriteBytesExt::write_u16` for `BigEndian` on a vector, which
/// appends the two big-endian bytes of `v`; writing into a vector does not
/// fail.
#[verifier::external_body]
fn push_u16_be(data: &mut Vec<u8>, v: u16)
    ensures
        final(data)@ == old(data)@ + be_bytes(v),
{
    data.write_u16::<BigEndian>(v).unwrap()
}

/// The big-endian bytes read back give the number they were written from.
pub proof fn lemma_be_round_trip(v: u16)
    ensures
        be_u16(be_bytes(v)[0], be_bytes(v)[1]) == v,
{
    assert(v == (v / 256) * 256 + v % 256);
}

// ---------------------------------------------------------------------------
// The server side
// ---------------------------------------------------------------------------
/// What the server reads out of a request.
pub enum RequestView {
    Unsupported,
    Ipv4(Seq<u8>, u16),
    Domain(Seq<u8>, u16),
    Ipv6(Seq<u16>, u16),
}

/// What the server makes of a SOCKS5 request.
#[derive(Debug, PartialEq, Eq)]
pub enum Socks5Request {
    /// A command or address type that is not served: the connection ends.
    Unsupported,
    /// Connect to an IPv4 address.
    Ipv4 { ip: [u8; 4], port: u16 },
    /// Connect to a host name, still to be resolved.
    Domain { name: Vec<u8>, port: u16 },
    /// Connect to an IPv6 address given as eight 16-bit groups.
    Ipv6 { segments: [u16; 8], port: u16 },
}

impl View for Socks5Request {
    type V = RequestView;

    open spec fn view(&self) -> RequestView {
        match self {
            Socks5Request::Unsupported => RequestView::Unsupported,
            Socks5Request::Ipv4 { ip, port } => RequestView::Ipv4(ip@, *port),
            Socks5Request::Domain { name, port } => RequestView::Domain(name@, *port),
            Socks5Request::Ipv6 { segments, port } => RequestView::Ipv6(segments@, *port),
        }
    }
}

/// The commands the server answers: CONNECT, BIND and UDP ASSOCIATE.
pub open spec fn command_served(cmd: u8) -> bool {
    cmd == 1 || cmd == 2 || cmd == 3
}

/// A request that is too short for the fields the server goes on to read:
/// a served command with fewer than two bytes, or a host name request with
/// fewer than seven.
pub open spec fn request_is_short_spec(buf: Seq<u8>, n: int) -> bool {
    command_served(buf[1]) && (n < 2 || (buf[3] == 3 && n < 7))
}

/// What the server reads out of the first `n` bytes of `buf`: the command
/// in byte 1, the address type in byte 3, the address from byte 4 (a host
/// name from byte 5 on) and the port in the last two bytes.
pub open spec fn parse_request_spec(buf: Seq<u8>, n: int) -> RequestView {
    if !command_served(buf[1]) {
        RequestView::Unsupported
    } else {
        let port = be_u16(buf[n - 2], buf[n - 1]);
        if buf[3] == 1 {
            RequestView::Ipv4(buf.subrange(4, 8), port)
        } else if buf[3] == 3 {
            RequestView::Domain(buf.subrange(5, n - 2), port)
        } else if buf[3] == 4 {
            RequestView::Ipv6(Seq::new(8, |k: int| be_u16(buf[4 + 2 * k], buf[5 + 2 * k])), port)
        } else {
            RequestView::Unsupported
        }
    }
}

/// The server's answer to the greeting: version 5, no authentication.
pub fn method_selection_reply() -> (res: Vec<u8>)
    ensures
        res@ == seq![5u8, 0],
{
    vec![5u8, 0]
}

/// The server's answer to a request it serves: success, with a zero IPv4
/// address and port.
pub fn connect_success_reply() -> (res: Vec<u8>)
    ensures
        res@ == seq![5u8, 0, 0, 1, 0, 0, 0, 0, 0, 0],
{
    vec![5u8, 0, 0, 1, 0, 0, 0, 0, 0, 0]
}

/// Whether the server would run past the end of the `n` bytes it received.
pub fn request_is_short(buf: &[u8], n: usize) -> (res: bool)
    requires
        4 <= buf@.len(),
    ensures
        res == request_is_short_spec(buf@, n as int),
{
    let cmd = buf[1];
    (cmd == 1 || cmd == 2 || cmd == 3) && (n < 2 || (buf[3] == 3 && n < 7))
}

/// Reads the request out of the first `n` bytes of the buffer it was
/// received into.
pub fn parse_request(buf: &[u8], n: usize) -> (res: Socks5Request)
    requires
        20 <= buf@.len(),
        n <= buf@.len(),
        !request_is_short_spec(buf@, n as int),
    ensures
        res@ == parse_request_spec(buf@, n as int),
        command_served(buf@[1]) && buf@[3] == 4 ==> (res matches Socks5Request::Ipv6 {
            segments,
            port,
        } && (forall|k: int|
            0 <= k < 8 ==> #[trigger] segments@[k] as int == buf@[4 + 2 * k] as int * 256
                + buf@[5 + 2 * k] as int) && port as int == buf@[n - 2] as int * 256
            + buf@[n - 1] as int),
{
    proof {
        if command_served(buf@[1]) && buf@[3] == 4 {
            lemma_ipv6_request_read(buf@, n as int);
        }
    }
    let cmd = buf[1];
    if !(cmd == 1 || cmd == 2 || cmd == 3) {
        return Socks5Request::Unsupported;
    }
    let port = read_u16_be(vstd::slice::slice_subrange(buf, n - 2, n));
    let atyp = buf[3];
    if atyp == 1 {
        let ip = [buf[4], buf[5], buf[6], buf[7]];
        let res = Socks5Request::Ipv4 { ip, port };
        assert(res@ == parse_request_spec(buf@, n as int)) by {
            assert(ip@ =~= buf@.subrange(4, 8));
        }
        res
    } else if atyp == 3 {
        let name = vstd::slice::slice_to_vec(vstd::slice::slice_subrange(buf, 5, n - 2));
        Socks5Request::Domain { name, port }
    } else if atyp == 4 {
        let segments = [
            read_u16_be(vstd::slice::slice_subrange(buf, 4, 6)),
            read_u16_be(vstd::slice::slice_subrange(buf, 6, 8)),
            read_u16_be(vstd::slice::slice_subrange(buf, 8, 10)),
            read_u16_be(vstd::slice::slice_subrange(buf, 10, 12)),
            read_u16_be(vstd::slice::slice_subrange(buf, 12, 14)),
            read_u16_be(vstd::slice::slice_subrange(buf, 14, 16)),
            read_u16_be(vstd::slice::slice_subrange(buf, 16, 18)),
            read_u16_be(vstd::slice::slice_subrange(buf, 18, 20)),
        ];
        let res = Socks5Request::Ipv6 { segments, port };
        assert(res@ == parse_request_spec(buf@, n as int)) by {
            assert(segments@ =~= Seq::new(
                8,
                |k: int| be_u16(buf@[4 + 2 * k], buf@[5 + 2 * k]),
            ));
        }
        res
    } else {
        Socks5Request::Unsupported
    }
}

// ---------------------------------------------------------------------------
// The local side
// ---------------------------------------------------------------------------
/// The greeting the local proxy opens with: version 5, one method, no
/// authentication.
pub fn client_greeting() -> (res: Vec<u8>)
    ensures
        res@ == seq![5u8, 1, 0],
{
    vec![5u8, 1, 0]
}

/// A socket address: its IP bytes (4 for IPv4, 16 for IPv6) and port.
#[derive(Debug, Clone, Copy, PartialEq, Eq)]
pub enum SocketTarget {
    V4([u8; 4], u16),
    V6([u8; 16], u16),
}

impl View for SocketTarget {
    type V = (Seq<u8>, u16);

    open spec fn view(&self) -> (Seq<u8>, u16) {
        match self {
            SocketTarget::V4(ip, port) => (ip@, *port),
            SocketTarget::V6(ip, port) => (ip@, *port),
        }
    }
}

/// The view of an optional socket address.
pub open spec fn target_view(target: Option<SocketTarget>) -> Option<(Seq<u8>, u16)> {
    match target {
        Some(t) => Some(t@),
        None => None,
    }
}

/// Where the first `:` stands in `b`, or its length where there is none.
pub open spec fn first_colon(b: Seq<u8>) -> int
    decreases b.len(),
{
    if b.len() == 0 {
        0
    } else if b[0] == 58 {
        0
    } else {
        1 + first_colon(b.drop_first())
    }
}

/// The host name of a `name:port` text: all before the first `:`.
pub open spec fn domain_part(host: Seq<u8>) -> Seq<u8> {
    host.take(first_colon(host))
}

/// The port text of a `name:port` text: what stands between the first `:`
/// and the next one, or `80` where there is no `:`.
pub open spec fn port_text(host: Seq<u8>) -> Seq<u8> {
    if first_colon(host) == host.len() {
        seq![56u8, 48]
    } else {
        let rest = host.skip(first_colon(host) + 1);
        rest.take(first_colon(rest))
    }
}

/// The SOCKS5 request the local proxy sends for `host`: after version 5,
/// CONNECT and a reserved byte, an IPv4 address (type 1) or an IPv6 address
/// (type 4), or else a host name (type 3) with its length cut to one byte;
/// then the port, big-endian.
pub open spec fn connect_request_spec(target: Option<(Seq<u8>, u16)>, host: Seq<u8>) -> Seq<u8> {
    seq![5u8, 1, 0] + match target {
        Some((ip, port)) => seq![if ip.len() == 4 { 1u8 } else { 4u8 }] + ip + be_bytes(port),
        None => {
            let d = domain_part(host);
            seq![3u8, d.len() as u8] + d + be_bytes(parse_u16_text(port_text(host)).unwrap())
        },
    }
}

/// `first_colon` lies within the text, on a `:` unless at its end, with no
/// `:` before it.
pub proof fn lemma_first_colon(b: Seq<u8>)
    ensures
        0 <= first_colon(b) <= b.len(),
        first_colon(b) < b.len() ==> b[first_colon(b)] == 58,
        forall|i: int| 0 <= i < first_colon(b) ==> b[i] != 58,
    decreases b.len(),
{
    if b.len() > 0 && b[0] != 58 {
        let rest = b.drop_first();
        lemma_first_colon(rest);
        assert forall|i: int| 0 <= i < first_colon(b) implies b[i] != 58 by {
            if i > 0 {
                assert(b[i] == rest[i - 1]);
            }
        }
    }
}

/// Finds the first `:` in `b` at or after `from`.
fn find_colon(b: &[u8], from: usize) -> (res: usize)
    requires
        from <= b@.len(),
    ensures
        from <= res <= b@.len(),
        res == from + first_colon(b@.skip(from as int)),
{
    let mut i = from;
    while i < b.len()
        invariant
            from <= i <= b@.len(),
            forall|j: int| from <= j < i ==> b@[j] != 58,
        ensures
            from <= i <= b@.len(),
            forall|j: int| from <= j < i ==> b@[j] != 58,
            i < b@.len() ==> b@[i as int] == 58,
        decreases b@.len() - i,
    {
        if b[i] == 58 {
            break;
        }
        i = i + 1;
    }
    proof {
        let s = b@.skip(from as int);
        lemma_first_colon(s);
        let f = first_colon(s);
        if f < i - from {
            assert(s[f] == b@[from + f]);
        }
        if i - from < f {
            assert(s[i - from] == b@[i as int]);
        }
    }
    i
}

/// Builds the SOCKS5 request for `host`, given what parsing it as a socket
/// address gave.
pub fn connect_request(target: Option<SocketTarget>, host: &str) -> (res: Vec<u8>)
    requires
        target is Some || parse_u16_text(port_text(host.spec_bytes())) is Some,
    ensures
        res@ == connect_request_spec(target_view(target), host.spec_bytes()),
        target matches Some(SocketTarget::V6(ip, port)) ==> {
            &&& res@.len() == 22
            &&& res@.take(4) == seq![5u8, 1, 0, 4]
            &&& forall|i: int| 0 <= i < 16 ==> #[trigger] res@[4 + i] == ip@[i]
            &&& res@[20] as int * 256 + res@[21] as int == port
        },
        target matches Some(SocketTarget::V4(ip, port)) ==> {
            &&& res@.len() == 10
            &&& res@.take(4) == seq![5u8, 1, 0, 1]
            &&& forall|i: int| 0 <= i < 4 ==> #[trigger] res@[4 + i] == ip@[i]
            &&& res@[8] as int * 256 + res@[9] as int == port
        },
{
    proof {
        if let Some(t) = target {
            lemma_ip_request_layout(t@.0, t@.1, host.spec_bytes());
        }
    }
    let mut data: Vec<u8> = vec![5u8, 1, 0];
    match target {
        Some(SocketTarget::V4(ip, port)) => {
            data.push(1u8);
            data.push(ip[0]);
            data.push(ip[1]);
            data.push(ip[2]);
            data.push(ip[3]);
            push_u16_be(&mut data, port);
            assert(data@ =~= connect_request_spec(target_view(target), host.spec_bytes()));
        },
        Some(SocketTarget::V6(ip, port)) => {
            data.push(4u8);
            let mut k: usize = 0;
            while k < 16
                invariant
                    k <= 16,
                    data@ =~= seq![5u8, 1, 0, 4] + ip@.take(k as int),
                decreases 16 - k,
            {
                data.push(ip[k]);
                k = k + 1;
            }
            push_u16_be(&mut data, port);
            assert(ip@.take(16) =~= ip@);
            assert(data@ =~= connect_request_spec(target_view(target), host.spec_bytes()));
        },
        None => {
            let b = host.as_bytes();
            let colon = find_colon(b, 0);
            assert(b@.skip(0) =~= b@);
            let port = if colon == b.len() {
                parse_port(&[56u8, 48])
            } else {
                let after = colon + 1;
                let end = find_colon(b, after);
                proof {
                    let rest = b@.skip(after as int);
                    assert(rest.take(end - after) =~= b@.subrange(after as int, end as int));
                }
                parse_port(vstd::slice::slice_subrange(b, after, end))
            };
            let port = match port {
                Some(p) => p,
                None => {
                    assert(false);
                    0
                },
            };
            data.push(3u8);
            data.push(colon as u8);
            let mut k: usize = 0;
            while k < colon
                invariant
                    k <= colon <= b@.len(),
                    data@ =~= seq![5u8, 1, 0, 3, colon as u8] + b@.take(k as int),
                decreases colon - k,
            {
                data.push(b[k]);
                k = k + 1;
            }
            push_u16_be(&mut data, port);
            assert(data@ =~= connect_request_spec(target_view(target), host.spec_bytes()));
        },
    }
    data
}

/// The SOCKS5 request for `host`, given what parsing it as a socket address
/// gave, or `None` where it is no socket address and its port text is no
/// valid port.
pub fn req_socks5_request(target: Option<SocketTarget>, host: &str) -> (res: Option<Vec<u8>>)
    ensures
        match res {
            Some(r) => r@ == connect_request_spec(target_view(target), host.spec_bytes()),
            None => target is None && parse_u16_text(port_text(host.spec_bytes())) is None,
        },
{
    let port_ok = match target {
        Some(_) => true,
        None => {
            let b = host.as_bytes();
            let colon = find_colon(b, 0);
            assert(b@.skip(0) =~= b@);
            if colon == b.len() {
                parse_port(&[56u8, 48]).is_some()
            } else {
                let after = colon + 1;
                let end = find_colon(b, after);
                proof {
                    let rest = b@.skip(after as int);
                    assert(rest.take(end - after) =~= b@.subrange(after as int, end as int));
                }
                parse_port(vstd::slice::slice_subrange(b, after, end)).is_some()
            }
        },
    };
    if port_ok {
        Some(connect_request(target, host))
    } else {
        None
    }
}

/// The big-endian 16-bit groups of a 16-byte IPv6 address.
pub open spec fn ipv6_groups(ip: Seq<u8>) -> Seq<u16> {
    Seq::new(8, |k: int| be_u16(ip[2 * k], ip[2 * k + 1]))
}

/// The server reads back the host name, IPv4 address or IPv6 address and
/// the port that the local proxy put into its request, whatever else its
/// buffer holds past the request.
pub proof fn lemma_server_reads_local_request(
    target: Option<(Seq<u8>, u16)>,
    host: Seq<u8>,
    buf: Seq<u8>,
)
    requires
        match target {
            Some((ip, _)) => ip.len() == 4 || ip.len() == 16,
            None => parse_u16_text(port_text(host)) is Some,
        },
        20 <= buf.len(),
        connect_request_spec(target, host).len() <= buf.len(),
        buf.take(connect_request_spec(target, host).len() as int) == connect_request_spec(
            target,
            host,
        ),
    ensures
        !request_is_short_spec(buf, connect_request_spec(target, host).len() as int),
        parse_request_spec(buf, connect_request_spec(target, host).len() as int) == match target {
            Some((ip, port)) => if ip.len() == 4 {
                RequestView::Ipv4(ip, port)
            } else {
                RequestView::Ipv6(ipv6_groups(ip), port)
            },
            None => RequestView::Domain(
                domain_part(host),
                parse_u16_text(port_text(host)).unwrap(),
            ),
        },
{
    let r = connect_request_spec(target, host);
    let n = r.len() as int;
    assert forall|i: int| 0 <= i < n implies buf[i] == r[i] by {
        assert(buf.take(n)[i] == buf[i]);
    }
    match target {
        Some((ip, port)) => {
            lemma_be_round_trip(port);
            if ip.len() == 4 {
                assert(buf.subrange(4, 8) =~= ip);
            } else {
                let groups = Seq::new(8, |k: int| be_u16(buf[4 + 2 * k], buf[5 + 2 * k]));
                assert forall|k: int| 0 <= k < 8 implies #[trigger] groups[k] == ipv6_groups(ip)[k] by {
                    assert(r[4 + 2 * k] == ip[2 * k]);
                    assert(r[5 + 2 * k] == ip[2 * k + 1]);
                }
                assert(groups =~= ipv6_groups(ip));
            }
        },
        None => {
            let d = domain_part(host);
            let port = parse_u16_text(port_text(host)).unwrap();
            lemma_be_round_trip(port);
            assert(buf.subrange(5, n - 2) =~= d);
        },
    }
}

/// The server reads an IPv6 request off the wire in order: group `k` of the
/// address is the big-endian number in bytes `4 + 2k` and `5 + 2k`, and the
/// port is the big-endian number in the last two bytes.
pub proof fn lemma_ipv6_request_read(buf: Seq<u8>, n: int)
    requires
        20 <= buf.len(),
        2 <= n <= buf.len(),
        command_served(buf[1]),
        buf[3] == 4,
    ensures
        parse_request_spec(buf, n) matches RequestView::Ipv6(segments, port) && segments.len() == 8
            && (forall|k: int|
            0 <= k < 8 ==> #[trigger] segments[k] as int == buf[4 + 2 * k] as int * 256 + buf[5 + 2
                * k] as int) && port as int == buf[n - 2] as int * 256 + buf[n - 1] as int,
{
}

/// The request for an IP address carries the version, CONNECT, a reserved
/// zero and the address type (1 for IPv4, 4 for IPv6), then the address
/// bytes in order, then the port big-endian.
pub proof fn lemma_ip_request_layout(ip: Seq<u8>, port: u16, host: Seq<u8>)
    ensures
        ip.len() == 16 ==> {
            let r = connect_request_spec(Some((ip, port)), host);
            &&& r.len() == 22
            &&& r.take(4) == seq![5u8, 1, 0, 4]
            &&& forall|i: int| 0 <= i < 16 ==> #[trigger] r[4 + i] == ip[i]
            &&& r[20] as int * 256 + r[21] as int == port
        },
        ip.len() == 4 ==> {
            let r = connect_request_spec(Some((ip, port)), host);
            &&& r.len() == 10
            &&& r.take(4) == seq![5u8, 1, 0, 1]
            &&& forall|i: int| 0 <= i < 4 ==> #[trigger] r[4 + i] == ip[i]
            &&& r[8] as int * 256 + r[9] as int == port
        },
{
    let r = connect_request_spec(Some((ip, port)), host);
    assert(r.take(4) =~= seq![5u8, 1, 0, if ip.len() == 4 { 1u8 } else { 4u8 }]);
    assert(port == (port / 256) * 256 + port % 256);
}

} // verus!
