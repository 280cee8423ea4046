//! The byte-substitution cipher that guards the link between the local proxy
//! and the remote server.
//!
//! Each side holds the same 256-entry password table. A byte `b` travels as
//! `table[b]`; the receiver maps it back through the inverse table.
use vstd::prelude::*;

verus! {

broadcast use vstd::seq_lib::group_to_multiset_ensures;

/// Where `b` last occurs in `table`, if it occurs at all.
pub open spec fn last_position(table: Seq<u8>, b: u8) -> Option<int>
    decreases table.len(),
{
    if table.len() == 0 {
        None
    } else if table.last() == b {
        Some(table.len() - 1)
    } else {
        last_position(table.drop_last(), b)
    }
}

/// The decoding table derived from an encoding table: entry `x` holds the
/// last index at which `x` occurs in `table`, cut to its low eight bits, and
/// 0 where `x` does not occur.
pub open spec fn inverse_table(table: Seq<u8>) -> Seq<u8> {
    Seq::new(
        256,
        |x: int|
            match last_position(table, x as u8) {
                Some(i) => i as u8,
                None => 0u8,
            },
    )
}

/// Every byte of `data` has an entry in `table`.
pub open spec fn covers(table: Seq<u8>, data: Seq<u8>) -> bool {
    forall|k: int| 0 <= k < data.len() ==> (#[trigger] data[k]) < table.len()
}

/// `data` with every byte `b` replaced by `table[b]`.
pub open spec fn substitute(table: Seq<u8>, data: Seq<u8>) -> Seq<u8> {
    Seq::new(data.len(), |k: int| table[data[k] as int])
}

/// The bytes 0, 1, ..., 255 in order.
pub open spec fn byte_identity() -> Seq<u8> {
    Seq::new(256, |i: int| i as u8)
}

/// `table` holds every byte value exactly once.
pub open spec fn is_byte_permutation(table: Seq<u8>) -> bool {
    table.to_multiset() == byte_identity().to_multiset()
}

/// A stream whose traffic is enciphered with a substitution table.
pub struct CiperTcpStream<S> {
    stream: S,
    decode_password: Vec<u8>,
    encode_password: Vec<u8>,
}

impl<S> CiperTcpStream<S> {
    #[verifier::type_invariant]
    spec fn well_formed(&self) -> bool {
        self.decode_password@.len() == 256
    }

    /// The table used on the way out.
    pub closed spec fn encode_table(&self) -> Seq<u8> {
        self.encode_password@
    }

    /// The table used on the way in.
    pub closed spec fn decode_table(&self) -> Seq<u8> {
        self.decode_password@
    }

    /// The stream the cipher runs over.
    pub closed spec fn inner(&self) -> S {
        self.stream
    }

    /// Wraps `stream`, enciphering with `encode_password` and deciphering
    /// with its inverse table.
    pub fn new(stream: S, encode_password: Vec<u8>) -> (res: Self)
        ensures
            res.inner() == stream,
            res.encode_table() == encode_password@,
            res.decode_table() == inverse_table(encode_password@),
    {
        let mut decode_password: Vec<u8> = vec![0u8; 256];
        let n = encode_password.len();
        let mut i: usize = 0;
        while i < n
            invariant
                n == encode_password@.len(),
                i <= n,
                decode_password@.len() == 256,
                forall|x: int|
                    0 <= x < 256 ==> #[trigger] decode_password@[x] == match last_position(
                        encode_password@.take(i as int),
                        x as u8,
                    ) {
                        Some(j) => j as u8,
                        None => 0u8,
                    },
            decreases n - i,
        {
            let b = encode_password[i];
            decode_password.set(b as usize, i as u8);
            proof {
                let prefix = encode_password@.take(i + 1);
                assert(prefix.drop_last() =~= encode_password@.take(i as int));
                assert(prefix.last() == b);
            }
            i = i + 1;
        }
        proof {
            assert(encode_password@.take(n as int) =~= encode_password@);
        }
        let res = CiperTcpStream { stream, decode_password, encode_password };
        assert(res.decode_table() =~= inverse_table(res.encode_table()));
        res
    }

    /// The stream the cipher runs over.
    pub fn stream(&self) -> (res: &S)
        ensures
            *res == self.inner(),
    {
        &self.stream
    }

    /// Whether every byte of `data` can be enciphered.
    pub fn encodes_all(&self, data: &[u8]) -> (res: bool)
        ensures
            res == covers(self.encode_table(), data@),
    {
        let mut i: usize = 0;
        while i < data.len()
            invariant
                i <= data@.len(),
                forall|k: int| 0 <= k < i ==> (#[trigger] data@[k]) < self.encode_password@.len(),
            decreases data@.len() - i,
        {
            if data[i] as usize >= self.encode_password.len() {
                assert(!covers(self.encode_table(), data@)) by {
                    assert(data@[i as int] >= self.encode_password@.len());
                }
                return false;
            }
            i = i + 1;
        }
        true
    }

    /// Enciphers `data` for sending.
    pub fn encode(&self, data: &[u8]) -> (res: Vec<u8>)
        requires
            covers(self.encode_table(), data@),
        ensures
            res@ == substitute(self.encode_table(), data@),
    {
        let mut out: Vec<u8> = Vec::with_capacity(data.len());
        let mut i: usize = 0;
        while i < data.len()
            invariant
                i <= data@.len(),
                covers(self.encode_password@, data@),
                out@ =~= substitute(self.encode_password@, data@).take(i as int),
            decreases data@.len() - i,
        {
            let b = data[i];
            assert(data@[i as int] < self.encode_password@.len());
            out.push(self.encode_password[b as usize]);
            i = i + 1;
        }
        out
    }

    /// Deciphers received bytes in place.
    pub fn decode_in_place(&self, buf: &mut [u8])
        ensures
            final(buf)@ == substitute(self.decode_table(), old(buf)@),
    {
        proof {
            use_type_invariant(self);
        }
        let n = buf.len();
        let mut i: usize = 0;
        while i < n
            invariant
                n == old(buf)@.len(),
                buf@.len() == n,
                i <= n,
                self.decode_password@.len() == 256,
                forall|k: int|
                    0 <= k < i ==> #[trigger] buf@[k] == self.decode_password@[old(buf)@[k] as int],
                forall|k: int| i <= k < n ==> #[trigger] buf@[k] == old(buf)@[k],
            decreases n - i,
        {
            let b = buf[i];
            buf[i] = self.decode_password[b as usize];
            i = i + 1;
        }
        assert(buf@ =~= substitute(self.decode_password@, old(buf)@));
    }
}

/// `last_position` names an occurrence of `b`, and no later one exists.
pub proof fn lemma_last_position(table: Seq<u8>, b: u8)
    ensures
        match last_position(table, b) {
            Some(i) => 0 <= i < table.len() && table[i] == b && forall|j: int|
                i < j < table.len() ==> table[j] != b,
            None => forall|j: int| 0 <= j < table.len() ==> table[j] != b,
        },
    decreases table.len(),
{
    if table.len() > 0 && table.last() != b {
        let rest = table.drop_last();
        lemma_last_position(rest, b);
        assert forall|j: int| 0 <= j < rest.len() implies table[j] == rest[j] by {}
    }
}

/// Under a table in which no byte repeats, deciphering undoes enciphering:
/// whatever one end sends, the other end reads back unchanged.
pub proof fn lemma_decode_undoes_encode(table: Seq<u8>, data: Seq<u8>)
    requires
        table.no_duplicates(),
        covers(table, data),
    ensures
        substitute(inverse_table(table), substitute(table, data)) == data,
{
    let sent = substitute(table, data);
    let back = substitute(inverse_table(table), sent);
    assert forall|k: int| 0 <= k < data.len() implies back[k] == data[k] by {
        let b = data[k];
        let y = table[b as int];
        lemma_last_position(table, y);
        assert(last_position(table, y) == Some(b as int));
    }
    assert(back =~= data);
}

/// A permutation table has no repeated byte and holds every byte value.
pub proof fn lemma_permutation_facts(table: Seq<u8>)
    requires
        is_byte_permutation(table),
    ensures
        table.len() == 256,
        table.no_duplicates(),
        forall|b: u8| table.contains(b),
{
    let id = byte_identity();
    assert(id.no_duplicates());
    id.lemma_multiset_has_no_duplicates();
    assert(table.len() == table.to_multiset().len());
    assert(id.len() == id.to_multiset().len());
    table.lemma_multiset_has_no_duplicates_conv();
    assert forall|b: u8| table.contains(b) by {
        assert(id[b as int] == b);
        assert(id.contains(b));
        assert(id.to_multiset().count(b) > 0);
        assert(table.to_multiset().count(b) > 0);
    }
}

/// Under a permutation table, enciphering also undoes deciphering.
pub proof fn lemma_encode_undoes_decode(table: Seq<u8>, data: Seq<u8>)
    requires
        is_byte_permutation(table),
    ensures
        covers(table, substitute(inverse_table(table), data)),
        substitute(table, substitute(inverse_table(table), data)) == data,
{
    lemma_permutation_facts(table);
    let inv = inverse_table(table);
    let plain = substitute(inv, data);
    let back = substitute(table, plain);
    assert forall|k: int| 0 <= k < data.len() implies back[k] == data[k] by {
        let y = data[k];
        assert(table.contains(y));
        lemma_last_position(table, y);
        let i = choose|i: int| 0 <= i < table.len() && table[i] == y;
        assert(last_position(table, y) == Some(i));
        assert(plain[k] == i as u8);
    }
    assert(back =~= data);
}

} // verus!
