//! Byte-order helpers shared by the body codec (big-endian, as MessagePack
//! fixes it) and the frame header (little-endian, as the envelope fixes it).

use vstd::prelude::*;

verus! {

broadcast use vstd::std_specs::vec::group_vec_axioms;

/// The four big-endian bytes of a 32-bit number.
pub open spec fn be32(n: u32) -> Seq<u8> {
    seq![(n >> 24) as u8, (n >> 16) as u8, (n >> 8) as u8, n as u8]
}

/// The eight big-endian bytes of a 64-bit number.
pub open spec fn be64(n: u64) -> Seq<u8> {
    seq![
        (n >> 56) as u8,
        (n >> 48) as u8,
        (n >> 40) as u8,
        (n >> 32) as u8,
        (n >> 24) as u8,
        (n >> 16) as u8,
        (n >> 8) as u8,
        n as u8,
    ]
}

/// The four little-endian bytes of a 32-bit number.
pub open spec fn le32(n: u32) -> Seq<u8> {
    seq![n as u8, (n >> 8) as u8, (n >> 16) as u8, (n >> 24) as u8]
}

/// The 16-bit number read from two big-endian bytes.
pub open spec fn from_be16(b0: u8, b1: u8) -> u16 {
    ((b0 as u16) << 8) | (b1 as u16)
}

/// The 32-bit number read from four big-endian bytes.
pub open spec fn from_be32(b0: u8, b1: u8, b2: u8, b3: u8) -> u32 {
    ((b0 as u32) << 24) | ((b1 as u32) << 16) | ((b2 as u32) << 8) | (b3 as u32)
}

/// The 64-bit number read from eight big-endian bytes.
pub open spec fn from_be64(b0: u8, b1: u8, b2: u8, b3: u8, b4: u8, b5: u8, b6: u8, b7: u8) -> u64 {
    ((b0 as u64) << 56) | ((b1 as u64) << 48) | ((b2 as u64) << 40) | ((b3 as u64) << 32) | ((
    b4 as u64) << 24) | ((b5 as u64) << 16) | ((b6 as u64) << 8) | (b7 as u64)
}

/// The 32-bit number read from four little-endian bytes.
pub open spec fn from_le32(b0: u8, b1: u8, b2: u8, b3: u8) -> u32 {
    ((b3 as u32) << 24) | ((b2 as u32) << 16) | ((b1 as u32) << 8) | (b0 as u32)
}

/// Reading back the four big-endian bytes of `n` gives `n` again.
pub proof fn lemma_be32_roundtrip(n: u32)
    ensures
        from_be32((n >> 24) as u8, (n >> 16) as u8, (n >> 8) as u8, n as u8) == n,
{
    assert((((n >> 24) as u8 as u32) << 24) | (((n >> 16) as u8 as u32) << 16) | (((n
        >> 8) as u8 as u32) << 8) | (n as u8 as u32) == n) by (bit_vector);
}

/// Reading back the eight big-endian bytes of `n` gives `n` again.
pub proof fn lemma_be64_roundtrip(n: u64)
    ensures
        from_be64(
            (n >> 56) as u8,
            (n >> 48) as u8,
            (n >> 40) as u8,
            (n >> 32) as u8,
            (n >> 24) as u8,
            (n >> 16) as u8,
            (n >> 8) as u8,
            n as u8,
        ) == n,
{
    assert((((n >> 56) as u8 as u64) << 56) | (((n >> 48) as u8 as u64) << 48) | (((n
        >> 40) as u8 as u64) << 40) | (((n >> 32) as u8 as u64) << 32) | (((n
        >> 24) as u8 as u64) << 24) | (((n >> 16) as u8 as u64) << 16) | (((n
        >> 8) as u8 as u64) << 8) | (n as u8 as u64) == n) by (bit_vector);
}

/// Reading back the four little-endian bytes of `n` gives `n` again.
pub proof fn lemma_le32_roundtrip(n: u32)
    ensures
        from_le32(n as u8, (n >> 8) as u8, (n >> 16) as u8, (n >> 24) as u8) == n,
{
    assert((((n >> 24) as u8 as u32) << 24) | (((n >> 16) as u8 as u32) << 16) | (((n
        >> 8) as u8 as u32) << 8) | (n as u8 as u32) == n) by (bit_vector);
}

/// A signed 64-bit number survives the trip through its bit pattern.
pub proof fn lemma_i64_bits_roundtrip(n: i64)
    ensures
        (n as u64) as i64 == n,
{
    assert((n as u64) as i64 == n) by (bit_vector);
}

/// Appends the four big-endian bytes of `n`.
pub fn push_be32(out: &mut Vec<u8>, n: u32)
    ensures
        final(out)@ == old(out)@ + be32(n),
{
    out.push(#[verifier::truncate] ((n >> 24) as u8));
    out.push(#[verifier::truncate] ((n >> 16) as u8));
    out.push(#[verifier::truncate] ((n >> 8) as u8));
    out.push(#[verifier::truncate] (n as u8));
    proof {
        assert(out@ =~= old(out)@ + be32(n));
    }
}

/// Appends the eight big-endian bytes of `n`.
pub fn push_be64(out: &mut Vec<u8>, n: u64)
    ensures
        final(out)@ == old(out)@ + be64(n),
{
    out.push(#[verifier::truncate] ((n >> 56) as u8));
    out.push(#[verifier::truncate] ((n >> 48) as u8));
    out.push(#[verifier::truncate] ((n >> 40) as u8));
    out.push(#[verifier::truncate] ((n >> 32) as u8));
    out.push(#[verifier::truncate] ((n >> 24) as u8));
    out.push(#[verifier::truncate] ((n >> 16) as u8));
    out.push(#[verifier::truncate] ((n >> 8) as u8));
    out.push(#[verifier::truncate] (n as u8));
    proof {
        assert(out@ =~= old(out)@ + be64(n));
    }
}

/// Appends the four little-endian bytes of `n`.
pub fn push_le32(out: &mut Vec<u8>, n: u32)
    ensures
        final(out)@ == old(out)@ + le32(n),
{
    out.push(#[verifier::truncate] (n as u8));
    out.push(#[verifier::truncate] ((n >> 8) as u8));
    out.push(#[verifier::truncate] ((n >> 16) as u8));
    out.push(#[verifier::truncate] ((n >> 24) as u8));
    proof {
        assert(out@ =~= old(out)@ + le32(n));
    }
}

/// Reads the 16-bit big-endian number at `pos`.
pub fn read_be16(s: &Vec<u8>, pos: usize) -> (n: u16)
    requires
        pos + 2 <= s.len(),
    ensures
        n == from_be16(s@[pos as int], s@[pos + 1]),
{
    ((s[pos] as u16) << 8) | (s[pos + 1] as u16)
}

/// Reads the 32-bit big-endian number at `pos`.
pub fn read_be32(s: &Vec<u8>, pos: usize) -> (n: u32)
    requires
        pos + 4 <= s.len(),
    ensures
        n == from_be32(s@[pos as int], s@[pos + 1], s@[pos + 2], s@[pos + 3]),
{
    ((s[pos] as u32) << 24) | ((s[pos + 1] as u32) << 16) | ((s[pos + 2] as u32) << 8) | (s[pos
        + 3] as u32)
}

/// Reads the 64-bit big-endian number at `pos`.
pub fn read_be64(s: &Vec<u8>, pos: usize) -> (n: u64)
    requires
        pos + 8 <= s.len(),
    ensures
        n == from_be64(
            s@[pos as int],
            s@[pos + 1],
            s@[pos + 2],
            s@[pos + 3],
            s@[pos + 4],
            s@[pos + 5],
            s@[pos + 6],
            s@[pos + 7],
        ),
{
    ((s[pos] as u64) << 56) | ((s[pos + 1] as u64) << 48) | ((s[pos + 2] as u64) << 40) | ((s[pos
        + 3] as u64) << 32) | ((s[pos + 4] as u64) << 24) | ((s[pos + 5] as u64) << 16) | ((s[pos
        + 6] as u64) << 8) | (s[pos + 7] as u64)
}

/// Reads the 32-bit little-endian number at `pos`.
pub fn read_le32(s: &Vec<u8>, pos: usize) -> (n: u32)
    requires
        pos + 4 <= s.len(),
    ensures
        n == from_le32(s@[pos as int], s@[pos + 1], s@[pos + 2], s@[pos + 3]),
{
    ((s[pos + 3] as u32) << 24) | ((s[pos + 2] as u32) << 16) | ((s[pos + 1] as u32) << 8) | (
    s[pos] as u32)
}

/// Dropping `a` and then `b` leading members drops `a + b` of them.
pub proof fn lemma_skip_skip<T>(s: Seq<T>, a: int, b: int)
    requires
        0 <= a,
        0 <= b,
        a + b <= s.len(),
    ensures
        s.skip(a).skip(b) =~= s.skip(a + b),
{
}

/// Appends a copy of every byte of `src`.
pub fn push_bytes(out: &mut Vec<u8>, src: &Vec<u8>)
    ensures
        final(out)@ == old(out)@ + src@,
{
    let mut i: usize = 0;
    while i < src.len()
        invariant
            i <= src@.len(),
            out@ == old(out)@ + src@.subrange(0, i as int),
        decreases src@.len() - i,
    {
        out.push(src[i]);
        proof {
            assert(old(out)@ + src@.subrange(0, i as int) + seq![src@[i as int]] =~= old(out)@
                + src@.subrange(0, i + 1));
        }
        i = i + 1;
    }
    proof {
        assert(src@.subrange(0, src@.len() as int) =~= src@);
    }
}

/// Whether two byte vectors hold the same bytes.
pub fn bytes_eq(a: &Vec<u8>, b: &Vec<u8>) -> (r: bool)
    ensures
        r <==> a@ == b@,
{
    if a.len() != b.len() {
        proof {
            assert(a@.len() != b@.len());
        }
        return false;
    }
    let mut i: usize = 0;
    while i < a.len()
        invariant
            i <= a@.len(),
            a@.len() == b@.len(),
            forall|j: int| 0 <= j < i ==> a@[j] == b@[j],
        decreases a@.len() - i,
    {
        if a[i] != b[i] {
            return false;
        }
        i = i + 1;
    }
    proof {
        assert(a@ =~= b@);
    }
    true
}

} // verus!
