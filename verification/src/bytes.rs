//! Big-endian views of machine integers.
//!
//! Hash preimages and the transactions log store numbers as big-endian
//! bytes; these helpers build and read that form.

use vstd::prelude::*;

verus! {

/// The eight big-endian bytes of a 64-bit number.
pub open spec fn u64_be(x: u64) -> Seq<u8> {
    seq![
        ((x >> 56) & 0xff) as u8,
        ((x >> 48) & 0xff) as u8,
        ((x >> 40) & 0xff) as u8,
        ((x >> 32) & 0xff) as u8,
        ((x >> 24) & 0xff) as u8,
        ((x >> 16) & 0xff) as u8,
        ((x >> 8) & 0xff) as u8,
        (x & 0xff) as u8,
    ]
}

/// The two big-endian bytes of a 16-bit number.
pub open spec fn u16_be(x: u16) -> Seq<u8> {
    seq![((x >> 8) & 0xff) as u8, (x & 0xff) as u8]
}

/// The 64-bit number read from eight big-endian bytes.
pub open spec fn u64_from_be(s: Seq<u8>) -> u64
    recommends
        s.len() == 8,
{
    (((s[0] as u64) << 56) | ((s[1] as u64) << 48) | ((s[2] as u64) << 40) | ((s[3] as u64) << 32)
        | ((s[4] as u64) << 24) | ((s[5] as u64) << 16) | ((s[6] as u64) << 8) | (s[7] as u64)) as u64
}

/// The 16-bit number read from two big-endian bytes.
pub open spec fn u16_from_be(s: Seq<u8>) -> u16
    recommends
        s.len() == 2,
{
    (((s[0] as u16) << 8) | (s[1] as u16)) as u16
}

/// Append the big-endian bytes of `x` to `out`.
pub fn push_u64_be(out: &mut Vec<u8>, x: u64)
    ensures
        final(out)@ == old(out)@ + u64_be(x),
{
    let b0: u64 = (x >> 56) & 0xff;
    let b1: u64 = (x >> 48) & 0xff;
    let b2: u64 = (x >> 40) & 0xff;
    let b3: u64 = (x >> 32) & 0xff;
    let b4: u64 = (x >> 24) & 0xff;
    let b5: u64 = (x >> 16) & 0xff;
    let b6: u64 = (x >> 8) & 0xff;
    let b7: u64 = x & 0xff;
    assert(b0 <= 0xff && b1 <= 0xff && b2 <= 0xff && b3 <= 0xff && b4 <= 0xff && b5 <= 0xff && b6
        <= 0xff && b7 <= 0xff) by (bit_vector)
        requires
            b0 == (x >> 56) & 0xff && b1 == (x >> 48) & 0xff && b2 == (x >> 40) & 0xff && b3 == (x
                >> 32) & 0xff && b4 == (x >> 24) & 0xff && b5 == (x >> 16) & 0xff && b6 == (x >> 8)
                & 0xff && b7 == x & 0xff,
    ;
    out.push(b0 as u8);
    out.push(b1 as u8);
    out.push(b2 as u8);
    out.push(b3 as u8);
    out.push(b4 as u8);
    out.push(b5 as u8);
    out.push(b6 as u8);
    out.push(b7 as u8);
    assert(out@ =~= old(out)@ + u64_be(x));
}

/// Append the big-endian bytes of `x` to `out`.
pub fn push_u16_be(out: &mut Vec<u8>, x: u16)
    ensures
        final(out)@ == old(out)@ + u16_be(x),
{
    let b0: u16 = (x >> 8) & 0xff;
    let b1: u16 = x & 0xff;
    assert(b0 <= 0xff && b1 <= 0xff) by (bit_vector)
        requires
            b0 == (x >> 8) & 0xff && b1 == x & 0xff,
    ;
    out.push(b0 as u8);
    out.push(b1 as u8);
    assert(out@ =~= old(out)@ + u16_be(x));
}

/// Read the 64-bit number stored big-endian at `at`.
pub fn read_u64_be(data: &[u8], at: usize) -> (r: u64)
    requires
        at + 8 <= data@.len(),
    ensures
        r == u64_from_be(data@.subrange(at as int, at + 8)),
{
    let r: u64 = ((data[at] as u64) << 56) | ((data[at + 1] as u64) << 48) | ((data[at + 2] as u64)
        << 40) | ((data[at + 3] as u64) << 32) | ((data[at + 4] as u64) << 24) | ((data[at
        + 5] as u64) << 16) | ((data[at + 6] as u64) << 8) | (data[at + 7] as u64);
    proof {
        let s = data@.subrange(at as int, at + 8);
        assert(s[0] == data@[at as int] && s[1] == data@[at + 1] && s[2] == data@[at + 2] && s[3]
            == data@[at + 3] && s[4] == data@[at + 4] && s[5] == data@[at + 5] && s[6] == data@[at
            + 6] && s[7] == data@[at + 7]);
    }
    r
}

/// Read the 16-bit number stored big-endian at `at`.
pub fn read_u16_be(data: &[u8], at: usize) -> (r: u16)
    requires
        at + 2 <= data@.len(),
    ensures
        r == u16_from_be(data@.subrange(at as int, at + 2)),
{
    let r: u16 = ((data[at] as u16) << 8) | (data[at + 1] as u16);
    proof {
        let s = data@.subrange(at as int, at + 2);
        assert(s[0] == data@[at as int] && s[1] == data@[at + 1]);
    }
    r
}

/// A copy of a byte vector.
pub fn clone_bytes(v: &Vec<u8>) -> (r: Vec<u8>)
    ensures
        r@ == v@,
{
    let mut r: Vec<u8> = Vec::new();
    let n = v.len();
    let mut i: usize = 0;
    while i < n
        invariant
            n == v@.len(),
            i <= n,
            r@ == v@.subrange(0, i as int),
        decreases n - i,
    {
        r.push(v[i]);
        proof {
            assert(r@ =~= v@.subrange(0, i + 1));
        }
        i = i + 1;
    }
    proof {
        assert(v@.subrange(0, n as int) =~= v@);
    }
    r
}

/// Append a byte slice to a vector.
pub fn push_bytes(out: &mut Vec<u8>, s: &[u8])
    ensures
        final(out)@ == old(out)@ + s@,
{
    let n = s.len();
    let mut i: usize = 0;
    while i < n
        invariant
            n == s@.len(),
            i <= n,
            out@ == old(out)@ + s@.subrange(0, i as int),
        decreases n - i,
    {
        out.push(s[i]);
        proof {
            assert(old(out)@ + s@.subrange(0, i as int) + seq![s@[i as int]] =~= old(out)@
                + s@.subrange(0, i + 1));
        }
        i = i + 1;
    }
    proof {
        assert(s@.subrange(0, n as int) =~= s@);
    }
}

/// Writing a number and reading it back is the identity.
pub proof fn lemma_u64_be_roundtrip(x: u64)
    ensures
        u64_from_be(u64_be(x)) == x,
{
    assert(((((((x >> 56) & 0xff) as u8) as u64) << 56) | (((((x >> 48) & 0xff) as u8) as u64)
        << 48) | (((((x >> 40) & 0xff) as u8) as u64) << 40) | (((((x >> 32) & 0xff) as u8) as u64)
        << 32) | (((((x >> 24) & 0xff) as u8) as u64) << 24) | (((((x >> 16) & 0xff) as u8) as u64)
        << 16) | (((((x >> 8) & 0xff) as u8) as u64) << 8) | (((x & 0xff) as u8) as u64)) as u64
        == x) by (bit_vector);
}

} // verus!
