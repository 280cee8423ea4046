//! Passwords: a random permutation of the 256 byte values, carried around as
//! standard base64 text.
use crate::cipher::{
    byte_identity, covers, inverse_table, is_byte_permutation, lemma_decode_undoes_encode,
    lemma_encode_undoes_decode, lemma_permutation_facts, substitute,
};
use rand::rngs::ThreadRng;
use rand::seq::SliceRandom;
use vstd::prelude::*;

verus! {

#[verifier::external_type_specification]
#[verifier::external_body]
pub struct ExThreadRng(ThreadRng);

/// Why a password text could not be decoded.
#[derive(Debug, Clone, Copy, PartialEq, Eq)]
pub enum PasswordError {
    /// A byte outside the base64 alphabet, with its offset.
    InvalidByte(usize, u8),
    /// The text has a length no base64 text can have.
    InvalidLength,
    /// The last symbol carries bits that would be thrown away.
    InvalidLastSymbol(usize, u8),
}

/// The character of a 6-bit value in the standard base64 alphabet.
pub open spec fn base64_symbol(v: u8) -> char {
    if v < 26 {
        (65 + v) as char
    } else if v < 52 {
        (97 + v - 26) as char
    } else if v < 62 {
        (48 + v - 52) as char
    } else if v == 62 {
        '+'
    } else {
        '/'
    }
}

/// Standard base64 with padding (RFC 4648): every three bytes become four
/// symbols of six bits each; a last group of one or two bytes is filled with
/// zero bits and padded with `=` to four characters.
pub open spec fn base64_standard(bytes: Seq<u8>) -> Seq<char>
    decreases bytes.len(),
{
    if bytes.len() == 0 {
        Seq::empty()
    } else {
        let b0 = bytes[0];
        let b1: u8 = if bytes.len() > 1 { bytes[1] } else { 0 };
        let b2: u8 = if bytes.len() > 2 { bytes[2] } else { 0 };
        let group = seq![
            base64_symbol(b0 >> 2),
            base64_symbol(((b0 & 3) << 4) | (b1 >> 4)),
            if bytes.len() > 1 { base64_symbol(((b1 & 15) << 2) | (b2 >> 6)) } else { '=' },
            if bytes.len() > 2 { base64_symbol(b2 & 63) } else { '=' },
        ];
        if bytes.len() <= 3 {
            group
        } else {
            group + base64_standard(bytes.skip(3))
        }
    }
}

/// How many `=` end the encoding of `n` bytes.
pub open spec fn base64_padding(n: nat) -> int {
    (3 - n % 3) % 3
}

/// The encoding of `n` bytes has 4 characters for every started group of
/// three, and exactly its last `base64_padding(n)` characters are `=`.
pub proof fn lemma_base64_shape(bytes: Seq<u8>)
    ensures
        base64_standard(bytes).len() == 4 * ((bytes.len() + 2) / 3),
        forall|i: int|
            0 <= i < base64_standard(bytes).len() ==> ((#[trigger] base64_standard(bytes)[i])
                == '=' <==> i >= base64_standard(bytes).len() - base64_padding(bytes.len())),
    decreases bytes.len(),
{
    let text = base64_standard(bytes);
    let n = bytes.len();
    if n > 0 {
        let b0 = bytes[0];
        let b1: u8 = if n > 1 { bytes[1] } else { 0 };
        let b2: u8 = if n > 2 { bytes[2] } else { 0 };
        assert(base64_symbol(b0 >> 2) != '=');
        assert(base64_symbol(((b0 & 3) << 4) | (b1 >> 4)) != '=');
        assert(base64_symbol(((b1 & 15) << 2) | (b2 >> 6)) != '=');
        assert(base64_symbol(b2 & 63) != '=');
        if n > 3 {
            let rest = bytes.skip(3);
            lemma_base64_shape(rest);
            let tail = base64_standard(rest);
            assert(base64_padding(n) == base64_padding(rest.len()));
            assert forall|i: int| 0 <= i < text.len() implies ((#[trigger] text[i]) == '=' <==> i
                >= text.len() - base64_padding(n)) by {
                if i >= 4 {
                    assert(text[i] == tail[i - 4]);
                }
            }
        }
    }
}

/// What `base64::decode` makes of `text` (standard alphabet): the bytes, or
/// `None` where it reports an error.
pub uninterp spec fn base64_decoding(text: Seq<char>) -> Option<Seq<u8>>;

/// Calls `rand::thread_rng`. Nothing is claimed of the generator it hands
/// out.
#[verifier::external_body]
fn thread_rng() -> ThreadRng {
    rand::thread_rng()
}

/// Calls `SliceRandom::shuffle`, which only swaps elements: the bytes after
/// the call are those before it, in some order that the generator chose.
#[verifier::external_body]
fn shuffle(bytes: &mut Vec<u8>, rng: &mut ThreadRng)
    ensures
        final(bytes)@.to_multiset() == old(bytes)@.to_multiset(),
{
    bytes.shuffle(rng)
}

/// Calls `base64::encode`. Claims that the text is the standard padded
/// base64 encoding of `bytes` (the crate's `STANDARD` configuration) and
/// that `base64::decode` gives `bytes` back from it, as the crate's
/// round-trip tests check. The crate panics exactly when the encoded length
/// overflows `usize`, which the precondition rules out.
#[verifier::external_body]
fn base64_encode(bytes: &[u8]) -> (res: String)
    requires
        4 * ((bytes@.len() + 2) / 3) <= usize::MAX,
    ensures
        res@ == base64_standard(bytes@),
        base64_decoding(res@) == Some(bytes@),
{
    base64::encode(bytes)
}

/// Calls `base64::decode` and carries its error over variant by variant.
/// Claims that it succeeds exactly where `base64_decoding` does, with those
/// bytes, and that the standard padded encoding of any bytes decodes back to
/// them (the crate's round-trip tests check this); which error variant comes
/// back is left unsaid.
#[verifier::external_body]
fn base64_decode(text: &str) -> (res: Result<Vec<u8>, PasswordError>)
    ensures
        match res {
            Ok(v) => base64_decoding(text@) == Some(v@),
            Err(_) => base64_decoding(text@) is None,
        },
        forall|v: Seq<u8>|
            #[trigger] base64_standard(v) == text@ ==> res is Ok && res.unwrap()@ == v,
{
    match base64::decode(text) {
        Ok(v) => Ok(v),
        Err(base64::DecodeError::InvalidByte(at, b)) => Err(PasswordError::InvalidByte(at, b)),
        Err(base64::DecodeError::InvalidLength) => Err(PasswordError::InvalidLength),
        Err(base64::DecodeError::InvalidLastSymbol(at, b)) => Err(
            PasswordError::InvalidLastSymbol(at, b),
        ),
    }
}

/// A password text that decodes to a byte permutation and is that
/// permutation's encoding.
pub open spec fn is_password(text: Seq<char>) -> bool {
    match base64_decoding(text) {
        Some(table) => is_byte_permutation(table) && text == base64_standard(table),
        None => false,
    }
}

/// Makes a fresh random password.
pub fn new() -> (res: String)
    ensures
        is_password(res@),
        res@.len() == 344,
        res@[342] == '=' && res@[343] == '=',
        forall|i: int| 0 <= i < 342 ==> #[trigger] res@[i] != '=',
{
    let mut table: Vec<u8> = Vec::with_capacity(256);
    let mut i: u16 = 0;
    while i < 256
        invariant
            i <= 256,
            table@ =~= byte_identity().take(i as int),
        decreases 256 - i,
    {
        table.push(i as u8);
        i = i + 1;
    }
    assert(table@ =~= byte_identity());
    let mut rng = thread_rng();
    shuffle(&mut table, &mut rng);
    proof {
        broadcast use vstd::seq_lib::group_to_multiset_ensures;

        assert(table@.len() == table@.to_multiset().len());
        assert(byte_identity().len() == byte_identity().to_multiset().len());
    }
    password_text(table.as_slice())
}

/// The password text of a table: its standard padded base64 encoding, which
/// decodes back to the table.
pub fn password_text(table: &[u8]) -> (res: String)
    requires
        4 * ((table@.len() + 2) / 3) <= usize::MAX,
    ensures
        res@ == base64_standard(table@),
        base64_decoding(res@) == Some(table@),
        res@.len() == 4 * ((table@.len() + 2) / 3),
        forall|i: int|
            0 <= i < res@.len() ==> ((#[trigger] res@[i]) == '=' <==> i >= res@.len()
                - base64_padding(table@.len())),
{
    proof {
        lemma_base64_shape(table@);
    }
    base64_encode(table)
}

/// Turns a password text into its substitution table. The standard padded
/// base64 encoding of any bytes gives those bytes back.
pub fn decode_password(password: &str) -> (res: Result<Vec<u8>, PasswordError>)
    ensures
        match res {
            Ok(v) => base64_decoding(password@) == Some(v@),
            Err(_) => base64_decoding(password@) is None,
        },
        forall|v: Seq<u8>|
            #[trigger] base64_standard(v) == password@ ==> res is Ok && res.unwrap()@ == v,
{
    base64_decode(password)
}

/// Every password that `new` makes decodes to a table under which both ends
/// agree: what one end enciphers the other deciphers unchanged, and the
/// other way round.
pub proof fn lemma_password_round_trip(text: Seq<char>, data: Seq<u8>)
    requires
        is_password(text),
    ensures
        base64_decoding(text) is Some,
        covers(base64_decoding(text).unwrap(), data),
        substitute(
            inverse_table(base64_decoding(text).unwrap()),
            substitute(base64_decoding(text).unwrap(), data),
        ) == data,
        substitute(
            base64_decoding(text).unwrap(),
            substitute(inverse_table(base64_decoding(text).unwrap()), data),
        ) == data,
{
    let table = base64_decoding(text).unwrap();
    lemma_permutation_facts(table);
    assert(covers(table, data));
    lemma_decode_undoes_encode(table, data);
    lemma_encode_undoes_decode(table, data);
}

} // verus!
