//! Big-endian encodings of the fixed-width integers used by the wire
//! protocol, with proofs that decoding inverts encoding.

use vstd::prelude::*;

verus! {

/// The four bytes of `x` in big-endian order.
pub open spec fn u32_be(x: u32) -> Seq<u8> {
    seq![
        (((x >> 24) & 0xff) as u8),
        (((x >> 16) & 0xff) as u8),
        (((x >> 8) & 0xff) as u8),
        ((x & 0xff) as u8),
    ]
}

/// The eight bytes of `x` in big-endian order.
pub open spec fn u64_be(x: u64) -> Seq<u8> {
    seq![
        (((x >> 56) & 0xff) as u8),
        (((x >> 48) & 0xff) as u8),
        (((x >> 40) & 0xff) as u8),
        (((x >> 32) & 0xff) as u8),
        (((x >> 24) & 0xff) as u8),
        (((x >> 16) & 0xff) as u8),
        (((x >> 8) & 0xff) as u8),
        ((x & 0xff) as u8),
    ]
}

/// The `u32` read from four big-endian bytes.
pub open spec fn u32_from_be(s: Seq<u8>) -> u32
    recommends
        s.len() == 4,
{
    ((s[0] as u32) << 24) | ((s[1] as u32) << 16) | ((s[2] as u32) << 8) | (s[3] as u32)
}

/// The `u64` read from eight big-endian bytes.
pub open spec fn u64_from_be(s: Seq<u8>) -> u64
    recommends
        s.len() == 8,
{
    ((s[0] as u64) << 56) | ((s[1] as u64) << 48) | ((s[2] as u64) << 40) | ((s[3] as u64) << 32)
        | ((s[4] as u64) << 24) | ((s[5] as u64) << 16) | ((s[6] as u64) << 8) | (s[7] as u64)
}

/// Decoding the big-endian bytes of a `u32` gives the number back.
pub proof fn lemma_u32_be_round_trip(x: u32)
    ensures
        u32_from_be(u32_be(x)) == x,
{
    assert(((((x >> 24) & 0xff) as u8) as u32) << 24 | ((((x >> 16) & 0xff) as u8) as u32) << 16
        | ((((x >> 8) & 0xff) as u8) as u32) << 8 | (((x & 0xff) as u8) as u32) == x)
        by (bit_vector);
}

/// Decoding the big-endian bytes of a `u64` gives the number back.
pub proof fn lemma_u64_be_round_trip(x: u64)
    ensures
        u64_from_be(u64_be(x)) == x,
{
    assert(((((x >> 56) & 0xff) as u8) as u64) << 56 | ((((x >> 48) & 0xff) as u8) as u64) << 48
        | ((((x >> 40) & 0xff) as u8) as u64) << 40 | ((((x >> 32) & 0xff) as u8) as u64) << 32
        | ((((x >> 24) & 0xff) as u8) as u64) << 24 | ((((x >> 16) & 0xff) as u8) as u64) << 16
        | ((((x >> 8) & 0xff) as u8) as u64) << 8 | (((x & 0xff) as u8) as u64) == x)
        by (bit_vector);
}

/// Appends the big-endian bytes of `x` to `v`.
pub fn push_u32_be(v: &mut Vec<u8>, x: u32)
    ensures
        final(v)@ == old(v)@ + u32_be(x),
{
    proof {
        assert((x >> 24) & 0xff < 256 && (x >> 16) & 0xff < 256 && (x >> 8) & 0xff < 256 && x
            & 0xff < 256) by (bit_vector);
    }
    v.push(((x >> 24) & 0xff) as u8);
    v.push(((x >> 16) & 0xff) as u8);
    v.push(((x >> 8) & 0xff) as u8);
    v.push((x & 0xff) as u8);
    proof {
        assert(v@ =~= old(v)@ + u32_be(x));
    }
}

/// Appends the big-endian bytes of `x` to `v`.
pub fn push_u64_be(v: &mut Vec<u8>, x: u64)
    ensures
        final(v)@ == old(v)@ + u64_be(x),
{
    proof {
        assert((x >> 56) & 0xff < 256 && (x >> 48) & 0xff < 256 && (x >> 40) & 0xff < 256 && (x
            >> 32) & 0xff < 256 && (x >> 24) & 0xff < 256 && (x >> 16) & 0xff < 256 && (x >> 8)
            & 0xff < 256 && x & 0xff < 256) by (bit_vector);
    }
    v.push(((x >> 56) & 0xff) as u8);
    v.push(((x >> 48) & 0xff) as u8);
    v.push(((x >> 40) & 0xff) as u8);
    v.push(((x >> 32) & 0xff) as u8);
    v.push(((x >> 24) & 0xff) as u8);
    v.push(((x >> 16) & 0xff) as u8);
    v.push(((x >> 8) & 0xff) as u8);
    v.push((x & 0xff) as u8);
    proof {
        assert(v@ =~= old(v)@ + u64_be(x));
    }
}

/// Reads the big-endian `u32` starting at `off`.
pub fn read_u32_be(s: &[u8], off: usize) -> (r: u32)
    requires
        off + 4 <= s@.len(),
    ensures
        r == u32_from_be(s@.subrange(off as int, off as int + 4)),
{
    let r = ((s[off] as u32) << 24) | ((s[off + 1] as u32) << 16) | ((s[off + 2] as u32) << 8) | (
    s[off + 3] as u32);
    proof {
        let t = s@.subrange(off as int, off as int + 4);
        assert(t[0] == s@[off as int] && t[1] == s@[off as int + 1] && t[2] == s@[off as int + 2]
            && t[3] == s@[off as int + 3]);
    }
    r
}

/// Reads the big-endian `u64` starting at `off`.
pub fn read_u64_be(s: &[u8], off: usize) -> (r: u64)
    requires
        off + 8 <= s@.len(),
    ensures
        r == u64_from_be(s@.subrange(off as int, off as int + 8)),
{
    let r = ((s[off] as u64) << 56) | ((s[off + 1] as u64) << 48) | ((s[off + 2] as u64) << 40) | (
    (s[off + 3] as u64) << 32) | ((s[off + 4] as u64) << 24) | ((s[off + 5] as u64) << 16) | ((s[off
        + 6] as u64) << 8) | (s[off + 7] as u64);
    proof {
        let t = s@.subrange(off as int, off as int + 8);
        assert(t[0] == s@[off as int] && t[1] == s@[off as int + 1] && t[2] == s@[off as int + 2]
            && t[3] == s@[off as int + 3] && t[4] == s@[off as int + 4] && t[5] == s@[off as int
            + 5] && t[6] == s@[off as int + 6] && t[7] == s@[off as int + 7]);
    }
    r
}

} // verus!
