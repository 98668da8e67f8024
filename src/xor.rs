//! Byte-wise exclusive-or primitives.
use vstd::prelude::*;

verus! {

/// Each byte of `p` XOR-ed with the key byte at the same position, the key
/// repeated cyclically.
pub open spec fn repeating_xor(p: Seq<u8>, k: Seq<u8>) -> Seq<u8>
    recommends
        k.len() > 0,
{
    Seq::new(p.len(), |i: int| p[i] ^ k[i % (k.len() as int)])
}

/// Each byte of `s` XOR-ed with the single byte `b`.
pub open spec fn single_xor(s: Seq<u8>, b: u8) -> Seq<u8> {
    Seq::new(s.len(), |i: int| s[i] ^ b)
}

/// XOR of two equal-length sequences, position by position; `None` when the
/// lengths differ.
pub fn fixed_xor(a: &[u8], b: &[u8]) -> (r: Option<Vec<u8>>)
    ensures
        r.is_none() <==> a@.len() != b@.len(),
        r matches Some(v) ==> v@ == Seq::new(a@.len(), |i: int| a@[i] ^ b@[i]),
{
    if a.len() != b.len() {
        return None;
    }
    let mut result: Vec<u8> = Vec::with_capacity(a.len());
    let mut i: usize = 0;
    while i < a.len()
        invariant
            a@.len() == b@.len(),
            i <= a@.len(),
            result@ == Seq::new(i as nat, |j: int| a@[j] ^ b@[j]),
        decreases a@.len() - i,
    {
        result.push(a[i] ^ b[i]);
        i += 1;
        assert(result@ =~= Seq::new(i as nat, |j: int| a@[j] ^ b@[j]));
    }
    Some(result)
}

/// XOR of every byte of `s` with `b`.
pub fn byte_xor(s: &[u8], b: u8) -> (r: Vec<u8>)
    ensures
        r@ == single_xor(s@, b),
{
    let mut result: Vec<u8> = Vec::with_capacity(s.len());
    let mut i: usize = 0;
    while i < s.len()
        invariant
            i <= s@.len(),
            result@ == single_xor(s@.subrange(0, i as int), b),
        decreases s@.len() - i,
    {
        result.push(s[i] ^ b);
        i += 1;
        assert(result@ =~= single_xor(s@.subrange(0, i as int), b));
    }
    assert(s@.subrange(0, s@.len() as int) =~= s@);
    result
}

/// Repeating-key XOR of `bytes` with `key`: encrypts and decrypts alike.
/// An empty key yields an empty result.
pub fn repeating_key_xor(bytes: &[u8], key: &[u8]) -> (r: Vec<u8>)
    ensures
        key@.len() == 0 ==> r@.len() == 0,
        key@.len() > 0 ==> r@ == repeating_xor(bytes@, key@),
{
    let mut result: Vec<u8> = Vec::with_capacity(bytes.len());
    if key.len() == 0 {
        return result;
    }
    let mut i: usize = 0;
    while i < bytes.len()
        invariant
            key@.len() > 0,
            i <= bytes@.len(),
            result@ == repeating_xor(bytes@.subrange(0, i as int), key@),
        decreases bytes@.len() - i,
    {
        result.push(bytes[i] ^ key[i % key.len()]);
        i += 1;
        assert(result@ =~= repeating_xor(bytes@.subrange(0, i as int), key@));
    }
    assert(bytes@.subrange(0, bytes@.len() as int) =~= bytes@);
    result
}

/// Repeating-key XOR undoes itself: for any bytes `p` and any non-empty key
/// `k`, applying it twice with `k` gives back `p`.
pub proof fn lemma_repeating_xor_involution(p: Seq<u8>, k: Seq<u8>)
    requires
        k.len() > 0,
    ensures
        repeating_xor(repeating_xor(p, k), k) == p,
{
    assert forall|i: int| 0 <= i < p.len() implies #[trigger] repeating_xor(
        repeating_xor(p, k),
        k,
    )[i] == p[i] by {
        let x = p[i];
        let y = k[i % (k.len() as int)];
        assert((x ^ y) ^ y == x) by (bit_vector);
    }
    assert(repeating_xor(repeating_xor(p, k), k) =~= p);
}

} // verus!
