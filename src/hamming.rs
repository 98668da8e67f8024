//! Bit-level Hamming distance between byte sequences.
use vstd::prelude::*;

verus! {

/// Bit `k` of `x`, as 0 or 1.
pub open spec fn bit(x: u8, k: u8) -> nat {
    ((x >> k) & 1u8) as nat
}

/// Number of set bits of a byte.
pub open spec fn popcount(x: u8) -> nat {
    bit(x, 0) + bit(x, 1) + bit(x, 2) + bit(x, 3) + bit(x, 4) + bit(x, 5) + bit(x, 6) + bit(x, 7)
}

/// Number of differing bits between two sequences, position by position over
/// the length of `a`.
pub open spec fn bit_distance(a: Seq<u8>, b: Seq<u8>) -> nat
    decreases a.len(),
{
    if a.len() == 0 {
        0
    } else {
        bit_distance(a.drop_last(), b.subrange(0, a.len() - 1)) + popcount(
            a.last() ^ b[a.len() - 1],
        )
    }
}

/// Set bits of one byte, counted bit by bit.
pub fn count_bits(x: u8) -> (r: u32)
    ensures
        r == popcount(x),
        r <= 8,
{
    let mut r: u32 = 0;
    let mut k: u8 = 0;
    while k < 8
        invariant
            k <= 8,
            r as nat == popcount_below(x, k),
            r <= k,
        decreases 8 - k,
    {
        let b: u8 = (x >> k) & 1u8;
        assert(b <= 1) by (bit_vector)
            requires
                b == (x >> k) & 1u8,
        ;
        r = r + b as u32;
        k = k + 1;
    }
    proof {
        reveal_with_fuel(popcount_below, 9);
    }
    r
}

/// Set bits of `x` among its `k` lowest bits.
pub open spec fn popcount_below(x: u8, k: u8) -> nat
    decreases k,
{
    if k == 0 {
        0
    } else {
        popcount_below(x, (k - 1) as u8) + bit(x, (k - 1) as u8)
    }
}

/// Bit-level Hamming distance: the number of differing bits between two
/// equal-length byte sequences.
pub fn hamming(a: &[u8], b: &[u8]) -> (r: usize)
    requires
        a@.len() == b@.len(),
        a@.len() <= usize::MAX / 8,
    ensures
        r == bit_distance(a@, b@),
{
    let mut result: usize = 0;
    let mut i: usize = 0;
    while i < a.len()
        invariant
            a@.len() == b@.len(),
            a@.len() <= usize::MAX / 8,
            i <= a@.len(),
            result == bit_distance(a@.subrange(0, i as int), b@.subrange(0, i as int)),
            result <= 8 * i,
        decreases a@.len() - i,
    {
        let n = count_bits(a[i] ^ b[i]);
        proof {
            let a2 = a@.subrange(0, i + 1);
            let b2 = b@.subrange(0, i + 1);
            assert(a2.drop_last() =~= a@.subrange(0, i as int));
            assert(b2.subrange(0, i as int) =~= b@.subrange(0, i as int));
        }
        result = result + n as usize;
        i += 1;
    }
    assert(a@.subrange(0, i as int) =~= a@);
    assert(b@.subrange(0, i as int) =~= b@);
    result
}

proof fn lemma_bit_xor_self(x: u8, k: u8)
    ensures
        bit(x ^ x, k) == 0,
{
    assert(((x ^ x) >> k) & 1u8 == 0u8) by (bit_vector);
}

proof fn lemma_popcount_xor_self(x: u8)
    ensures
        popcount(x ^ x) == 0,
{
    lemma_bit_xor_self(x, 0);
    lemma_bit_xor_self(x, 1);
    lemma_bit_xor_self(x, 2);
    lemma_bit_xor_self(x, 3);
    lemma_bit_xor_self(x, 4);
    lemma_bit_xor_self(x, 5);
    lemma_bit_xor_self(x, 6);
    lemma_bit_xor_self(x, 7);
}

proof fn lemma_bit_triangle(x: u8, y: u8, z: u8, k: u8)
    requires
        k < 8,
    ensures
        bit(x ^ z, k) <= bit(x ^ y, k) + bit(y ^ z, k),
{
    assert(((x ^ z) >> k) & 1u8 == 1u8 ==> ((x ^ y) >> k) & 1u8 == 1u8 || ((y ^ z) >> k) & 1u8
        == 1u8) by (bit_vector);
    assert(((x ^ z) >> k) & 1u8 <= 1u8 && ((x ^ y) >> k) & 1u8 <= 1u8 && ((y ^ z) >> k) & 1u8
        <= 1u8) by (bit_vector);
}

proof fn lemma_popcount_triangle(x: u8, y: u8, z: u8)
    ensures
        popcount(x ^ z) <= popcount(x ^ y) + popcount(y ^ z),
{
    lemma_bit_triangle(x, y, z, 0);
    lemma_bit_triangle(x, y, z, 1);
    lemma_bit_triangle(x, y, z, 2);
    lemma_bit_triangle(x, y, z, 3);
    lemma_bit_triangle(x, y, z, 4);
    lemma_bit_triangle(x, y, z, 5);
    lemma_bit_triangle(x, y, z, 6);
    lemma_bit_triangle(x, y, z, 7);
}

/// The bit distance is a metric on sequences of one length: it is zero from a
/// sequence to itself, symmetric, and obeys the triangle inequality.
pub proof fn lemma_bit_distance_metric(a: Seq<u8>, b: Seq<u8>, c: Seq<u8>)
    requires
        a.len() == b.len(),
        b.len() == c.len(),
    ensures
        bit_distance(a, a) == 0,
        bit_distance(a, b) == bit_distance(b, a),
        bit_distance(a, c) <= bit_distance(a, b) + bit_distance(b, c),
    decreases a.len(),
{
    if a.len() > 0 {
        let n = a.len() - 1;
        assert(a.subrange(0, n) =~= a.drop_last());
        assert(b.subrange(0, n) =~= b.drop_last());
        assert(c.subrange(0, n) =~= c.drop_last());
        lemma_bit_distance_metric(a.drop_last(), b.drop_last(), c.drop_last());
        lemma_popcount_xor_self(a.last());
        let x = a.last();
        let y = b.last();
        assert(x ^ y == y ^ x) by (bit_vector);
        lemma_popcount_triangle(a.last(), b.last(), c.last());
    }
}

/// Each byte contributes at most eight differing bits.
pub proof fn lemma_bit_distance_le(a: Seq<u8>, b: Seq<u8>)
    requires
        a.len() == b.len(),
    ensures
        bit_distance(a, b) <= 8 * a.len(),
    decreases a.len(),
{
    if a.len() > 0 {
        lemma_bit_distance_le(a.drop_last(), b.subrange(0, a.len() - 1));
        lemma_popcount_le(a.last() ^ b[a.len() - 1]);
    }
}

proof fn lemma_bit_le(x: u8, k: u8)
    ensures
        bit(x, k) <= 1,
{
    assert((x >> k) & 1u8 <= 1u8) by (bit_vector);
}

proof fn lemma_popcount_le(x: u8)
    ensures
        popcount(x) <= 8,
{
    lemma_bit_le(x, 0);
    lemma_bit_le(x, 1);
    lemma_bit_le(x, 2);
    lemma_bit_le(x, 3);
    lemma_bit_le(x, 4);
    lemma_bit_le(x, 5);
    lemma_bit_le(x, 6);
    lemma_bit_le(x, 7);
}

} // verus!
