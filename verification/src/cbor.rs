//! The CBOR encoding that the blockchain's hashes are taken over: definite-length
//! heads with the shortest argument, text keys, arrays and maps (RFC 8949).

use vstd::prelude::*;
use crate::u256::{pow256, U256};

verus! {

/// The `k` low-order bytes of `n`, most significant first.
pub open spec fn be_fixed(n: nat, k: nat) -> Seq<u8> {
    Seq::new(k, |i: int| ((n / pow256((k - 1 - i) as nat)) % 256) as u8)
}

/// The head of a CBOR item: major type `major` with argument `n`, in its shortest form.
pub open spec fn cbor_head(major: u8, n: nat) -> Seq<u8> {
    if n < 24 {
        seq![(major * 32 + n) as u8]
    } else if n < 0x100 {
        seq![(major * 32 + 24) as u8] + be_fixed(n, 1)
    } else if n < 0x1_0000 {
        seq![(major * 32 + 25) as u8] + be_fixed(n, 2)
    } else if n < 0x1_0000_0000 {
        seq![(major * 32 + 26) as u8] + be_fixed(n, 4)
    } else {
        seq![(major * 32 + 27) as u8] + be_fixed(n, 8)
    }
}

/// An unsigned integer.
pub open spec fn cbor_uint(n: nat) -> Seq<u8> {
    cbor_head(0, n)
}

/// A text string whose UTF-8 bytes are `s`.
pub open spec fn cbor_text(s: Seq<u8>) -> Seq<u8> {
    cbor_head(3, s.len()) + s
}

/// A byte string.
pub open spec fn cbor_bytes(s: Seq<u8>) -> Seq<u8> {
    cbor_head(2, s.len()) + s
}

/// The concatenation of encoded items.
pub open spec fn concat_all(items: Seq<Seq<u8>>) -> Seq<u8>
    decreases items.len(),
{
    if items.len() == 0 {
        seq![]
    } else {
        concat_all(items.drop_last()) + items.last()
    }
}

/// An array of already encoded items.
pub open spec fn cbor_array(items: Seq<Seq<u8>>) -> Seq<u8> {
    cbor_head(4, items.len()) + concat_all(items)
}

/// A 256-bit integer as its serialized form: an array of its four limbs, least significant first.
pub open spec fn cbor_u256(x: U256) -> Seq<u8> {
    cbor_head(4, 4) + cbor_uint(x.l0 as nat) + cbor_uint(x.l1 as nat) + cbor_uint(x.l2 as nat)
        + cbor_uint(x.l3 as nat)
}

fn pow256_u64(e: usize) -> (r: u64)
    requires
        e < 8,
    ensures
        r == pow256(e as nat),
{
    proof {
        reveal_with_fuel(pow256, 8);
    }
    if e == 0 {
        1
    } else if e == 1 {
        0x100
    } else if e == 2 {
        0x1_0000
    } else if e == 3 {
        0x100_0000
    } else if e == 4 {
        0x1_0000_0000
    } else if e == 5 {
        0x100_0000_0000
    } else if e == 6 {
        0x1_0000_0000_0000
    } else {
        0x100_0000_0000_0000
    }
}

/// Appends the `k` low-order bytes of `n`, most significant first.
pub(crate) fn push_be_fixed(buf: &mut Vec<u8>, n: u64, k: usize)
    requires
        1 <= k <= 8,
    ensures
        final(buf)@ == old(buf)@ + be_fixed(n as nat, k as nat),
{
    let ghost start = old(buf)@;
    let mut i: usize = 0;
    while i < k
        invariant
            1 <= k <= 8,
            i <= k,
            buf@ == start + be_fixed(n as nat, k as nat).take(i as int),
        decreases k - i,
    {
        let p = pow256_u64(k - 1 - i);
        proof {
            crate::u256::lemma_pow256_positive((k - 1 - i) as nat);
        }
        let byte = ((n / p) % 256) as u8;
        buf.push(byte);
        proof {
            assert(be_fixed(n as nat, k as nat).take(i + 1) =~= be_fixed(n as nat, k as nat).take(
                i as int,
            ).push(byte));
        }
        i = i + 1;
    }
    assert(be_fixed(n as nat, k as nat).take(k as int) =~= be_fixed(n as nat, k as nat));
}

/// Appends the head of an item of major type `major` with argument `n`.
pub fn push_head(buf: &mut Vec<u8>, major: u8, n: u64)
    requires
        major < 8,
    ensures
        final(buf)@ == old(buf)@ + cbor_head(major, n as nat),
{
    if n < 24 {
        buf.push(major * 32 + n as u8);
        assert(final(buf)@ =~= old(buf)@ + cbor_head(major, n as nat));
    } else if n < 0x100 {
        buf.push(major * 32 + 24);
        push_be_fixed(buf, n, 1);
        assert(final(buf)@ =~= old(buf)@ + cbor_head(major, n as nat));
    } else if n < 0x1_0000 {
        buf.push(major * 32 + 25);
        push_be_fixed(buf, n, 2);
        assert(final(buf)@ =~= old(buf)@ + cbor_head(major, n as nat));
    } else if n < 0x1_0000_0000 {
        buf.push(major * 32 + 26);
        push_be_fixed(buf, n, 4);
        assert(final(buf)@ =~= old(buf)@ + cbor_head(major, n as nat));
    } else {
        buf.push(major * 32 + 27);
        push_be_fixed(buf, n, 8);
        assert(final(buf)@ =~= old(buf)@ + cbor_head(major, n as nat));
    }
}

/// Appends an unsigned integer.
pub fn push_uint(buf: &mut Vec<u8>, n: u64)
    ensures
        final(buf)@ == old(buf)@ + cbor_uint(n as nat),
{
    push_head(buf, 0, n);
}

/// Appends raw bytes.
pub fn push_all(buf: &mut Vec<u8>, s: &[u8])
    ensures
        final(buf)@ == old(buf)@ + s@,
{
    let ghost start = old(buf)@;
    let mut i: usize = 0;
    while i < s.len()
        invariant
            i <= s@.len(),
            buf@ == start + s@.take(i as int),
        decreases s@.len() - i,
    {
        buf.push(s[i]);
        assert(s@.take(i + 1) =~= s@.take(i as int).push(s@[i as int]));
        i = i + 1;
    }
    assert(s@.take(s@.len() as int) =~= s@);
}

/// Appends a text string whose UTF-8 bytes are `s`.
pub fn push_text(buf: &mut Vec<u8>, s: &[u8])
    ensures
        final(buf)@ == old(buf)@ + cbor_text(s@),
{
    push_head(buf, 3, s.len() as u64);
    push_all(buf, s);
    assert(final(buf)@ =~= old(buf)@ + cbor_text(s@));
}

/// Appends a 256-bit integer in its serialized form.
pub fn push_u256(buf: &mut Vec<u8>, x: &U256)
    ensures
        final(buf)@ == old(buf)@ + cbor_u256(*x),
{
    push_head(buf, 4, 4);
    push_uint(buf, x.l0);
    push_uint(buf, x.l1);
    push_uint(buf, x.l2);
    push_uint(buf, x.l3);
    assert(final(buf)@ =~= old(buf)@ + cbor_u256(*x));
}

} // verus!
