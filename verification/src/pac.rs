//! The answer that carries the proxy auto-config file.
use crate::numbers::{decimal_bytes, digits_value, is_digit, lemma_decimal_digits, push_decimal};
use vstd::prelude::*;
use vstd::string::*;

verus! {

/// The bytes of the answer that go before the file itself, for a file of
/// `len` bytes. The `Server` and `Connection` lines go out without line
/// ends.
pub open spec fn pac_head_spec(len: nat) -> Seq<u8> {
    "HTTP/1.1 200 OK\r\n".spec_bytes() + "Content-Length: ".spec_bytes() + decimal_bytes(len)
        + "\r\n".spec_bytes() + "Server: minilocal".spec_bytes() + "Connection: close".spec_bytes()
        + "Content-Type: application/x-ns-proxy-autoconfig\r\n".spec_bytes() + "\r\n".spec_bytes()
}

/// Appends the bytes of `text` to `out`.
fn push_text(out: &mut Vec<u8>, text: &str)
    ensures
        final(out)@ == old(out)@ + text.spec_bytes(),
{
    let b = text.as_bytes();
    let mut i: usize = 0;
    while i < b.len()
        invariant
            i <= b@.len(),
            b@ == text.spec_bytes(),
            out@ =~= old(out)@ + b@.take(i as int),
        decreases b@.len() - i,
    {
        out.push(b[i]);
        i = i + 1;
    }
    assert(b@.take(b@.len() as int) =~= b@);
}

/// The head of the answer that serves an auto-config file of
/// `content_length` bytes.
pub fn pac_response_head(content_length: usize) -> (res: Vec<u8>)
    ensures
        res@ == pac_head_spec(content_length as nat),
        res@.take(33) == "HTTP/1.1 200 OK\r\nContent-Length: ".spec_bytes(),
        exists|k: int|
            0 < k && 33 + k + 2 <= res@.len() && (forall|i: int|
                33 <= i < 33 + k ==> is_digit(#[trigger] res@[i])) && digits_value(
                #[trigger] res@.subrange(33, 33 + k),
            ) == content_length && res@[33 + k] == 13 && res@[34 + k] == 10,
{
    proof {
        lemma_pac_content_length(content_length as nat);
    }
    let mut out: Vec<u8> = Vec::new();
    push_text(&mut out, "HTTP/1.1 200 OK\r\n");
    push_text(&mut out, "Content-Length: ");
    push_decimal(&mut out, content_length as u64);
    push_text(&mut out, "\r\n");
    push_text(&mut out, "Server: minilocal");
    push_text(&mut out, "Connection: close");
    push_text(&mut out, "Content-Type: application/x-ns-proxy-autoconfig\r\n");
    push_text(&mut out, "\r\n");
    assert(out@ =~= pac_head_spec(content_length as nat));
    out
}

/// The `Content-Length` field of the answer holds the file's length: after
/// the status line and `Content-Length: ` (33 bytes) come decimal digits that
/// spell exactly `len`, and then CR LF.
pub proof fn lemma_pac_content_length(len: nat)
    ensures
        pac_head_spec(len).take(33) == "HTTP/1.1 200 OK\r\nContent-Length: ".spec_bytes(),
        exists|k: int|
            0 < k && 33 + k + 2 <= pac_head_spec(len).len() && (forall|i: int|
                33 <= i < 33 + k ==> is_digit(#[trigger] pac_head_spec(len)[i])) && digits_value(
                #[trigger] pac_head_spec(len).subrange(33, 33 + k),
            ) == len && pac_head_spec(len)[33 + k] == 13 && pac_head_spec(len)[34 + k] == 10,
{
    broadcast use vstd::string::is_ascii_spec_bytes;

    reveal_strlit("HTTP/1.1 200 OK\r\n");
    reveal_strlit("Content-Length: ");
    reveal_strlit("HTTP/1.1 200 OK\r\nContent-Length: ");
    reveal_strlit("\r\n");
    assert(vstd::string::is_ascii("HTTP/1.1 200 OK\r\n"));
    assert(vstd::string::is_ascii("Content-Length: "));
    assert(vstd::string::is_ascii("HTTP/1.1 200 OK\r\nContent-Length: "));
    assert(vstd::string::is_ascii("\r\n"));
    let a = "HTTP/1.1 200 OK\r\n".spec_bytes();
    let b = "Content-Length: ".spec_bytes();
    let c = "\r\n".spec_bytes();
    let d = decimal_bytes(len);
    let h = pac_head_spec(len);
    lemma_decimal_digits(len);
    assert(a.len() == 17);
    assert(b.len() == 16);
    assert(c.len() == 2 && c[0] == 13 && c[1] == 10);
    let k = d.len() as int;
    assert(h.take(33) =~= a + b);
    assert(a + b =~= "HTTP/1.1 200 OK\r\nContent-Length: ".spec_bytes());
    assert(h.subrange(33, 33 + k) =~= d);
    assert(h[33 + k] == c[0]);
    assert(h[34 + k] == c[1]);
    assert(forall|i: int| 33 <= i < 33 + k ==> h[i] == d[i - 33]);
}

} // verus!
