//! What the local proxy does with the first bytes a client sends: an HTTP
//! request is tunnelled through the server to its `Host`, a request for the
//! proxy auto-config file is answered locally, and anything that is not HTTP
//! is taken for SOCKS5 and passed on as it came.
use vstd::prelude::*;
use vstd::string::*;
use vstd::utf8::*;

verus! {

/// One header of a request: its name and its raw value.
pub struct HttpHeader {
    pub name: Vec<u8>,
    pub value: Vec<u8>,
}

/// The start of a request as the HTTP parser leaves it: method, path and the
/// header slots it holds.
pub struct HttpHead {
    pub method: Option<Vec<u8>>,
    pub path: Option<Vec<u8>>,
    pub headers: Vec<HttpHeader>,
}

/// Method, path, and header names with values.
pub type HeadView = (Option<Seq<u8>>, Option<Seq<u8>>, Seq<(Seq<u8>, Seq<u8>)>);

/// The view of optional bytes.
pub open spec fn optional_bytes(b: Option<Vec<u8>>) -> Option<Seq<u8>> {
    match b {
        Some(v) => Some(v@),
        None => None,
    }
}

impl View for HttpHead {
    type V = HeadView;

    open spec fn view(&self) -> HeadView {
        (
            optional_bytes(self.method),
            optional_bytes(self.path),
            Seq::new(
                self.headers@.len(),
                |i: int| (self.headers@[i].name@, self.headers@[i].value@),
            ),
        )
    }
}

/// What `httparse::Request::parse` leaves of `bytes` in a request with 16
/// header slots: `None` where it reports an error, else the method, the path
/// and the header slots (complete or partial).
pub uninterp spec fn http_request_head(bytes: Seq<u8>) -> Option<HeadView>;

/// Calls `httparse::Request::parse` with 16 header slots and copies out the
/// method, the path and the header slots as bytes. Claims only that the
/// result is the one named by `http_request_head`; the HTTP grammar is left
/// unsaid.
#[verifier::external_body]
fn parse_request_head(data: &[u8]) -> (res: Option<HttpHead>)
    ensures
        match res {
            Some(h) => http_request_head(data@) == Some(h@),
            None => http_request_head(data@) is None,
        },
{
    let mut headers = [httparse::EMPTY_HEADER; 16];
    let mut req = httparse::Request::new(&mut headers);
    match req.parse(data) {
        Ok(_) => Some(HttpHead {
            method: req.method.map(|m| m.as_bytes().to_vec()),
            path: req.path.map(|p| p.as_bytes().to_vec()),
            headers: req.headers.iter().map(
                |h| HttpHeader { name: h.name.as_bytes().to_vec(), value: h.value.to_vec() },
            ).collect(),
        }),
        Err(_) => None,
    }
}

/// Calls `std::str::from_utf8`, which succeeds exactly on valid UTF-8 and
/// then hands back a string slice over the same bytes.
#[verifier::external_body]
fn utf8_text(bytes: &[u8]) -> (res: Option<&str>)
    ensures
        res is Some <==> valid_utf8(bytes@),
        res matches Some(s) ==> s.spec_bytes() == bytes@,
{
    std::str::from_utf8(bytes).ok()
}

/// What the local proxy does with a connection.
pub enum RouteView {
    Forward,
    BadHost,
    NoHost,
    ServePac,
    Loopback,
    Proxy(Seq<char>, bool),
}

/// What the local proxy does with a connection, judged by its first bytes.
#[derive(Debug, PartialEq, Eq)]
pub enum Route {
    /// Not HTTP: the bytes go to the server as they came.
    Forward,
    /// A `Host` header that is not UTF-8: the connection fails.
    BadHost,
    /// No `Host` header: the connection is dropped.
    NoHost,
    /// A request for `/pac`: the auto-config file is served.
    ServePac,
    /// The host is this machine: the connection is dropped.
    Loopback,
    /// Tunnel to `host` through the server. `connect` tells a CONNECT
    /// request (answered locally) from any other (passed on as it came).
    Proxy { host: String, connect: bool },
}

impl View for Route {
    type V = RouteView;

    open spec fn view(&self) -> RouteView {
        match self {
            Route::Forward => RouteView::Forward,
            Route::BadHost => RouteView::BadHost,
            Route::NoHost => RouteView::NoHost,
            Route::ServePac => RouteView::ServePac,
            Route::Loopback => RouteView::Loopback,
            Route::Proxy { host, connect } => RouteView::Proxy(host@, *connect),
        }
    }
}

/// `Host`
pub open spec fn host_header() -> Seq<u8> {
    seq![72u8, 111, 115, 116]
}

/// `/pac`
pub open spec fn pac_path() -> Seq<u8> {
    seq![47u8, 112, 97, 99]
}

/// `CONNECT`
pub open spec fn connect_method() -> Seq<u8> {
    seq![67u8, 79, 78, 78, 69, 67, 84]
}

/// `127.0.0.1`
pub open spec fn loopback_address() -> Seq<u8> {
    seq![49u8, 50, 55, 46, 48, 46, 48, 46, 49]
}

/// `needle` occurs somewhere in `hay`.
pub open spec fn contains_bytes(hay: Seq<u8>, needle: Seq<u8>) -> bool {
    exists|i: int|
        0 <= i && i + needle.len() <= hay.len() && #[trigger] hay.subrange(i, i + needle.len())
            == needle
}

/// The value of the last `Host` header, if there is one.
pub open spec fn last_host(headers: Seq<(Seq<u8>, Seq<u8>)>) -> Option<Seq<u8>>
    decreases headers.len(),
{
    if headers.len() == 0 {
        None
    } else if headers.last().0 == host_header() {
        Some(headers.last().1)
    } else {
        last_host(headers.drop_last())
    }
}

/// Some `Host` header is not valid UTF-8.
pub open spec fn has_bad_host(headers: Seq<(Seq<u8>, Seq<u8>)>) -> bool {
    exists|i: int|
        0 <= i < headers.len() && (#[trigger] headers[i]).0 == host_header() && !valid_utf8(
            headers[i].1,
        )
}

/// The route for a parsed request head (`None`: not HTTP).
pub open spec fn route_spec(head: Option<HeadView>) -> RouteView {
    match head {
        None => RouteView::Forward,
        Some((method, path, headers)) => if has_bad_host(headers) {
            RouteView::BadHost
        } else {
            match last_host(headers) {
                None => RouteView::NoHost,
                Some(host) => if path == Some(pac_path()) {
                    RouteView::ServePac
                } else if contains_bytes(host, loopback_address()) {
                    RouteView::Loopback
                } else {
                    RouteView::Proxy(decode_utf8(host), method == Some(connect_method()))
                },
            }
        },
    }
}

/// Whether two byte strings are equal.
fn bytes_equal(a: &[u8], b: &[u8]) -> (res: bool)
    ensures
        res == (a@ == b@),
{
    if a.len() != b.len() {
        return false;
    }
    let mut i: usize = 0;
    while i < a.len()
        invariant
            a@.len() == b@.len(),
            i <= a@.len(),
            forall|j: int| 0 <= j < i ==> a@[j] == b@[j],
        decreases a@.len() - i,
    {
        if a[i] != b[i] {
            return false;
        }
        i = i + 1;
    }
    assert(a@ =~= b@);
    true
}

/// Whether `needle` occurs in `hay`.
fn find_bytes(hay: &[u8], needle: &[u8]) -> (res: bool)
    ensures
        res == contains_bytes(hay@, needle@),
{
    if needle.len() > hay.len() {
        return false;
    }
    let m = needle.len();
    let last = hay.len() - m;
    let mut i: usize = 0;
    loop
        invariant
            m == needle@.len(),
            last + m == hay@.len(),
            hay@.len() <= usize::MAX,
            needle@.len() <= hay@.len(),
            last == hay@.len() - needle@.len(),
            i <= last,
            forall|j: int|
                0 <= j < i ==> #[trigger] hay@.subrange(j, j + needle@.len()) != needle@,
        decreases last - i,
    {
        if bytes_equal(vstd::slice::slice_subrange(hay, i, i + m), needle) {
            return true;
        }
        if i == last {
            return false;
        }
        i = i + 1;
    }
}

/// Decides the route for a parsed request head.
pub fn route_head(head: &HttpHead) -> (res: Route)
    ensures
        res@ == route_spec(Some(head@)),
        res matches Route::Proxy { connect, .. } ==> (connect <==> head@.0 == Some(
            seq![67u8, 79, 78, 78, 69, 67, 84],
        )),
{
    proof {
        lemma_tunnel_only_for_connect(Some(head@));
    }
    let ghost headers = head@.2;
    let host_name: Vec<u8> = vec![72u8, 111, 115, 116];
    let mut host: Option<&str> = None;
    let mut host_bytes: Option<&[u8]> = None;
    let n = head.headers.len();
    let mut i: usize = 0;
    while i < n
        invariant
            n == head.headers@.len(),
            headers == head@.2,
            host_name@ == host_header(),
            i <= n,
            !has_bad_host(headers.take(i as int)),
            match host_bytes {
                Some(v) => last_host(headers.take(i as int)) == Some(v@) && host is Some
                    && host.unwrap().spec_bytes() == v@,
                None => last_host(headers.take(i as int)) is None,
            },
        decreases n - i,
    {
        let h = &head.headers[i];
        proof {
            let next = headers.take(i + 1);
            assert(next.drop_last() =~= headers.take(i as int));
            assert(next.last() == (h.name@, h.value@));
        }
        if bytes_equal(h.name.as_slice(), host_name.as_slice()) {
            match utf8_text(h.value.as_slice()) {
                Some(s) => {
                    host = Some(s);
                    host_bytes = Some(h.value.as_slice());
                },
                None => {
                    assert(has_bad_host(headers)) by {
                        assert(headers[i as int] == (h.name@, h.value@));
                    }
                    return Route::BadHost;
                },
            }
        }
        assert(!has_bad_host(headers.take(i + 1))) by {
            let next = headers.take(i + 1);
            if has_bad_host(next) {
                let j = choose|j: int|
                    0 <= j < next.len() && (#[trigger] next[j]).0 == host_header() && !valid_utf8(
                        next[j].1,
                    );
                if j < i {
                    assert(headers.take(i as int)[j] == next[j]);
                }
            }
        }
        i = i + 1;
    }
    assert(headers.take(n as int) =~= headers);
    match host_bytes {
        None => Route::NoHost,
        Some(value) => {
            let text = host.unwrap();
            let pac: Vec<u8> = vec![47u8, 112, 97, 99];
            let is_pac = match &head.path {
                Some(p) => bytes_equal(p.as_slice(), pac.as_slice()),
                None => false,
            };
            if is_pac {
                return Route::ServePac;
            }
            let loopback: Vec<u8> = vec![49u8, 50, 55, 46, 48, 46, 48, 46, 49];
            if find_bytes(value, loopback.as_slice()) {
                return Route::Loopback;
            }
            let connect_name: Vec<u8> = vec![67u8, 79, 78, 78, 69, 67, 84];
            let connect = match &head.method {
                Some(m) => bytes_equal(m.as_slice(), connect_name.as_slice()),
                None => false,
            };
            proof {
                broadcast use encode_utf8_decode_utf8;

                assert(decode_utf8(encode_utf8(text@)) == text@);
            }
            Route::Proxy { host: text.to_owned(), connect }
        },
    }
}

/// Decides the route for a connection from the first bytes it sent.
pub fn classify_request(data: &[u8]) -> (res: Route)
    ensures
        res@ == route_spec(http_request_head(data@)),
        res matches Route::Proxy { connect, .. } ==> http_request_head(data@) is Some && (connect
            <==> http_request_head(data@).unwrap().0 == Some(seq![67u8, 79, 78, 78, 69, 67, 84])),
{
    proof {
        lemma_tunnel_only_for_connect(http_request_head(data@));
    }
    match parse_request_head(data) {
        Some(head) => route_head(&head),
        None => Route::Forward,
    }
}

/// The answer to a CONNECT request once the tunnel stands.
pub fn tunnel_established_reply() -> (res: Vec<u8>)
    ensures
        res@ == "HTTP/1.1 200 Tunnel established\r\n\r\n".spec_bytes(),
{
    vstd::slice::slice_to_vec("HTTP/1.1 200 Tunnel established\r\n\r\n".as_bytes())
}

/// The value `last_host` picks is the value of some `Host` header.
pub proof fn lemma_last_host(headers: Seq<(Seq<u8>, Seq<u8>)>)
    ensures
        last_host(headers) matches Some(v) ==> exists|i: int|
            0 <= i < headers.len() && (#[trigger] headers[i]).0 == host_header() && headers[i].1
                == v,
    decreases headers.len(),
{
    if headers.len() > 0 && headers.last().0 != host_header() {
        let rest = headers.drop_last();
        lemma_last_host(rest);
        if let Some(v) = last_host(rest) {
            let i = choose|i: int|
                0 <= i < rest.len() && (#[trigger] rest[i]).0 == host_header() && rest[i].1 == v;
            assert(headers[i] == rest[i]);
        }
    } else if headers.len() > 0 {
        assert(headers[headers.len() - 1] == headers.last());
    }
}

/// A connection is never tunnelled to this machine: the host of a tunnel
/// never holds `127.0.0.1`, and its bytes are those the client sent.
pub proof fn lemma_loopback_never_tunnelled(head: Option<HeadView>)
    ensures
        route_spec(head) matches RouteView::Proxy(host, _) ==> {
            &&& !contains_bytes(encode_utf8(host), loopback_address())
            &&& last_host(head.unwrap().2) == Some(encode_utf8(host))
        },
{
    if let Some((method, path, headers)) = head {
        if let RouteView::Proxy(host, _) = route_spec(head) {
            lemma_last_host(headers);
            let v = last_host(headers).unwrap();
            assert(valid_utf8(v));
            decode_utf8_encode_utf8(v);
        }
    }
}

/// Only a CONNECT request is answered as a tunnel: a request that is
/// tunnelled is marked `connect` exactly when its method is `CONNECT`, so a
/// GET, POST or any other request is passed on to the server as it came.
pub proof fn lemma_tunnel_only_for_connect(head: Option<HeadView>)
    ensures
        route_spec(head) matches RouteView::Proxy(_, connect) ==> head is Some && (connect
            <==> head.unwrap().0 == Some(seq![67u8, 79, 78, 78, 69, 67, 84])),
{
}

} // verus!
