//! Estimation of the length of a repeating XOR key from the bit distance
//! between the first two blocks of each candidate length.
use vstd::prelude::*;
use vstd::slice::slice_subrange;
use crate::hamming::{bit_distance, hamming, lemma_bit_distance_le};
use crate::ratio::{Score, lemma_lt_trans, lemma_trichotomy};

verus! {

/// Longest key length that the estimator considers.
pub const MAX_KEYSIZE: usize = 40;

/// Most block pairs that `ManyPairs` averages over.
pub const MAX_PAIRS: usize = 20;

/// How the distance of a candidate key length is measured.
#[derive(Debug, Clone, Copy, PartialEq, Eq, Structural)]
pub enum Method {
    /// The first pair of blocks only.
    FirstPair,
    /// The mean of the first two pairs of blocks, where the ciphertext holds
    /// four blocks; else the first pair.
    TwoPairs,
    /// The mean over up to `MAX_PAIRS` consecutive non-overlapping pairs.
    ManyPairs,
}

/// Largest candidate key length for a ciphertext of `len` bytes: the first
/// two blocks must fit.
pub open spec fn max_keysize(len: nat) -> nat {
    if len / 2 < MAX_KEYSIZE {
        len / 2
    } else {
        MAX_KEYSIZE as nat
    }
}

/// Bit distance between blocks `2n` and `2n + 1` of `k` bytes.
pub open spec fn pair_dist(bytes: Seq<u8>, k: nat, n: nat) -> nat {
    let start = 2 * n * k;
    bit_distance(
        bytes.subrange(start as int, start + k as int),
        bytes.subrange(start + k as int, start + 2 * k as int),
    )
}

/// Bit distance between bytes `[0, k)` and `[k, 2k)` of `bytes`.
pub open spec fn keysize_dist(bytes: Seq<u8>, k: nat) -> nat {
    pair_dist(bytes, k, 0)
}

/// Sum of the distances of the first `c` block pairs.
pub open spec fn pairs_sum(bytes: Seq<u8>, k: nat, c: nat) -> nat
    decreases c,
{
    if c == 0 {
        0
    } else {
        pairs_sum(bytes, k, (c - 1) as nat) + pair_dist(bytes, k, (c - 1) as nat)
    }
}

/// Number of block pairs that `m` averages over for key length `k`.
pub open spec fn pair_count(len: nat, k: nat, m: Method) -> nat {
    match m {
        Method::FirstPair => 1,
        Method::TwoPairs => if len >= 4 * k {
            2
        } else {
            1
        },
        Method::ManyPairs => if len / (2 * k) < MAX_PAIRS {
            len / (2 * k)
        } else {
            MAX_PAIRS as nat
        },
    }
}

/// Numerator of the normalized distance of key length `k` under `m`: the
/// summed distance of the pairs.
#[verifier::opaque]
pub open spec fn method_num(bytes: Seq<u8>, k: nat, m: Method) -> nat {
    pairs_sum(bytes, k, pair_count(bytes.len(), k, m))
}

/// Denominator of the normalized distance: pairs times key length, so that
/// the quotient is the mean pair distance divided by `k`.
#[verifier::opaque]
pub open spec fn method_den(bytes: Seq<u8>, k: nat, m: Method) -> nat {
    pair_count(bytes.len(), k, m) * k
}

/// Key length `k1` ranks before `k2` under `m`: its normalized distance is
/// strictly smaller, or they are equal and `k1 < k2`.
pub open spec fn ranks_before(bytes: Seq<u8>, m: Method, k1: nat, k2: nat) -> bool {
    let l = method_num(bytes, k1, m) * method_den(bytes, k2, m);
    let r = method_num(bytes, k2, m) * method_den(bytes, k1, m);
    l < r || (l == r && k1 < k2)
}

/// Key length `k1` ranks before `k2` on the first pair of blocks.
pub open spec fn keysize_before(bytes: Seq<u8>, k1: nat, k2: nat) -> bool {
    ranks_before(bytes, Method::FirstPair, k1, k2)
}

/// Some entry of `r` has key length `k`.
pub open spec fn lists_keysize(r: Seq<(usize, Score)>, k: nat) -> bool {
    exists|i: int| 0 <= i < r.len() && r[i].0 == k
}

/// `r` ranks the key lengths of `bytes` under `m`: each from 2 to
/// `max_keysize` once, with its normalized distance, most likely first.
pub open spec fn ranked_keysizes(bytes: Seq<u8>, m: Method, r: Seq<(usize, Score)>) -> bool {
    &&& forall|i: int|
        0 <= i < r.len() ==> 2 <= (#[trigger] r[i]).0 <= max_keysize(bytes.len()) && r[i].1.wf()
            && r[i].1.num == method_num(bytes, r[i].0 as nat, m) && r[i].1.den == method_den(
            bytes,
            r[i].0 as nat,
            m,
        )
    &&& forall|i: int, j: int|
        0 <= i < j < r.len() ==> ranks_before(
            bytes,
            m,
            (#[trigger] r[i]).0 as nat,
            (#[trigger] r[j]).0 as nat,
        )
    &&& forall|k: nat| 2 <= k <= max_keysize(bytes.len()) ==> #[trigger] lists_keysize(r, k)
}

/// Bit distance between blocks `2n` and `2n + 1` of `keysize` bytes.
fn pair_distance(bytes: &[u8], keysize: usize, n: usize) -> (r: usize)
    requires
        1 <= keysize <= usize::MAX / 8,
        n < MAX_PAIRS,
        2 * (n + 1) * keysize <= bytes@.len(),
    ensures
        r == pair_dist(bytes@, keysize as nat, n as nat),
        r <= 8 * keysize,
{
    assert(2 * (n + 1) * keysize == 2 * n * keysize + 2 * keysize) by (nonlinear_arith);
    assert(2 * n * keysize >= 0) by (nonlinear_arith)
        requires
            n >= 0,
            keysize >= 0,
    ;
    let len = bytes.len();
    assert(2 * n * keysize + 2 * keysize <= len);
    let start = 2 * n * keysize;
    let first = slice_subrange(bytes, start, start + keysize);
    let second = slice_subrange(bytes, start + keysize, start + 2 * keysize);
    proof {
        lemma_bit_distance_le(first@, second@);
    }
    hamming(first, second)
}

/// The bit distance between the first two blocks of `keysize` bytes, divided
/// by `keysize`.
pub fn normalized_hamming_for_keysize(bytes: &[u8], keysize: usize) -> (r: Score)
    requires
        1 <= keysize <= usize::MAX / 8,
        2 * keysize <= bytes@.len(),
    ensures
        r.wf(),
        r.num == keysize_dist(bytes@, keysize as nat),
        r.den == keysize,
        r.num == method_num(bytes@, keysize as nat, Method::FirstPair),
        r.den == method_den(bytes@, keysize as nat, Method::FirstPair),
{
    reveal(method_num);
    reveal(method_den);
    let dist = pair_distance(bytes, keysize, 0);
    proof {
        reveal_with_fuel(pairs_sum, 2);
    }
    assert(pair_count(bytes@.len(), keysize as nat, Method::FirstPair) * keysize == keysize);
    Score { num: dist as u128, den: keysize as u128 }
}

/// The mean bit distance of the first two block pairs, where the ciphertext
/// holds four blocks of `keysize` bytes (else the first pair's distance),
/// divided by `keysize`.
pub fn normalized_hamming_for_keysize_twice(bytes: &[u8], keysize: usize) -> (r: Score)
    requires
        1 <= keysize <= usize::MAX / 8,
        2 * keysize <= bytes@.len(),
    ensures
        r.wf(),
        r.num == method_num(bytes@, keysize as nat, Method::TwoPairs),
        r.den == method_den(bytes@, keysize as nat, Method::TwoPairs),
{
    reveal(method_num);
    reveal(method_den);
    let d1 = pair_distance(bytes, keysize, 0);
    proof {
        reveal_with_fuel(pairs_sum, 3);
        vstd::arithmetic::div_mod::lemma_fundamental_div_mod(bytes@.len() as int, 4);
        vstd::arithmetic::div_mod::lemma_mod_pos_bound(bytes@.len() as int, 4);
    }
    if bytes.len() / 4 >= keysize {
        assert(2 * (1 + 1) * keysize <= bytes@.len()) by (nonlinear_arith)
            requires
                bytes@.len() == 4 * (bytes@.len() as int / 4) + bytes@.len() as int % 4,
                bytes@.len() as int % 4 >= 0,
                bytes@.len() as int / 4 >= keysize,
        ;
        let d2 = pair_distance(bytes, keysize, 1);
        Score { num: d1 as u128 + d2 as u128, den: 2 * keysize as u128 }
    } else {
        assert(bytes@.len() < 4 * keysize) by (nonlinear_arith)
            requires
                bytes@.len() == 4 * (bytes@.len() as int / 4) + bytes@.len() as int % 4,
                bytes@.len() as int % 4 < 4,
                bytes@.len() as int / 4 < keysize,
        ;
        Score { num: d1 as u128, den: keysize as u128 }
    }
}

/// The mean bit distance over up to `MAX_PAIRS` consecutive non-overlapping
/// pairs of `keysize`-byte blocks, divided by `keysize`.
pub fn many_average_normalized_hamming_for_keysize(bytes: &[u8], keysize: usize) -> (r: Score)
    requires
        1 <= keysize <= usize::MAX / 8,
        2 * keysize <= bytes@.len(),
    ensures
        r.wf(),
        r.num == method_num(bytes@, keysize as nat, Method::ManyPairs),
        r.den == method_den(bytes@, keysize as nat, Method::ManyPairs),
{
    reveal(method_num);
    reveal(method_den);
    let fit = bytes.len() / (2 * keysize);
    let count = if fit < MAX_PAIRS {
        fit
    } else {
        MAX_PAIRS
    };
    proof {
        vstd::arithmetic::div_mod::lemma_div_is_ordered(
            2 * keysize as int,
            bytes@.len() as int,
            2 * keysize as int,
        );
        vstd::arithmetic::div_mod::lemma_div_by_self(2 * keysize as int);
        vstd::arithmetic::div_mod::lemma_fundamental_div_mod(bytes@.len() as int, 2 * keysize as int);
        vstd::arithmetic::div_mod::lemma_mod_pos_bound(bytes@.len() as int, 2 * keysize as int);
        assert(bytes@.len() >= (2 * keysize) * fit);
    }
    let mut sum: u128 = 0;
    let mut n: usize = 0;
    while n < count
        invariant
            1 <= keysize <= usize::MAX / 8,
            1 <= count <= MAX_PAIRS,
            count <= fit,
            fit == bytes@.len() as int / (2 * keysize as int),
            bytes@.len() >= (2 * keysize) * fit,
            n <= count,
            sum == pairs_sum(bytes@, keysize as nat, n as nat),
            sum <= n * 8 * keysize,
        decreases count - n,
    {
        assert(2 * (n + 1) * keysize <= bytes@.len()) by (nonlinear_arith)
            requires
                n + 1 <= fit,
                bytes@.len() >= (2 * keysize) * fit,
                keysize >= 1,
        ;
        let d = pair_distance(bytes, keysize, n);
        proof {
            assert(sum + d <= (n + 1) * 8 * keysize) by (nonlinear_arith)
                requires
                    sum <= n * 8 * keysize,
                    d <= 8 * keysize,
            ;
            assert((n + 1) * 8 * keysize <= 20 * usize::MAX) by (nonlinear_arith)
                requires
                    n + 1 <= 20,
                    8 * keysize <= usize::MAX,
            ;
        }
        sum = sum + d as u128;
        n += 1;
    }
    assert(count * keysize <= 20 * usize::MAX && count * keysize >= 1) by (nonlinear_arith)
        requires
            1 <= count <= 20,
            1 <= keysize <= usize::MAX,
    ;
    Score { num: sum, den: count as u128 * keysize as u128 }
}

/// Normalized distance of key length `k` under `m`.
fn keysize_score(bytes: &[u8], k: usize, m: Method) -> (r: Score)
    requires
        1 <= k <= usize::MAX / 8,
        2 * k <= bytes@.len(),
    ensures
        r.wf(),
        r.num == method_num(bytes@, k as nat, m),
        r.den == method_den(bytes@, k as nat, m),
{
    match m {
        Method::FirstPair => normalized_hamming_for_keysize(bytes, k),
        Method::TwoPairs => normalized_hamming_for_keysize_twice(bytes, k),
        Method::ManyPairs => many_average_normalized_hamming_for_keysize(bytes, k),
    }
}

/// Candidate key lengths from 2 to `min(40, len / 2)`, each with its
/// normalized distance under `m`, most likely first: ascending by normalized
/// distance, equal distances by ascending length. Empty when the ciphertext
/// is shorter than four bytes.
pub fn rank_by(bytes: &[u8], m: Method) -> (r: Vec<(usize, Score)>)
    ensures
        ranked_keysizes(bytes@, m, r@),
{
    let half = bytes.len() / 2;
    let max = if half < MAX_KEYSIZE {
        half
    } else {
        MAX_KEYSIZE
    };
    let mut result: Vec<(usize, Score)> = Vec::new();
    let mut k: usize = 2;
    while k <= max
        invariant
            max == max_keysize(bytes@.len()),
            2 <= k <= max + 1 || (k == 2 && max < 2),
            forall|i: int|
                0 <= i < result@.len() ==> 2 <= (#[trigger] result@[i]).0 < k && result@[i].1.wf()
                    && result@[i].1.num == method_num(bytes@, result@[i].0 as nat, m)
                    && result@[i].1.den == method_den(bytes@, result@[i].0 as nat, m),
            forall|i: int, j: int|
                0 <= i < j < result@.len() ==> ranks_before(
                    bytes@,
                    m,
                    (#[trigger] result@[i]).0 as nat,
                    (#[trigger] result@[j]).0 as nat,
                ),
            forall|kk: nat| 2 <= kk < k ==> #[trigger] lists_keysize(result@, kk),
        decreases max + 1 - k,
    {
        let sc = keysize_score(bytes, k, m);
        let mut p: usize = 0;
        while p < result.len() && !sc.less_than(&result[p].1)
            invariant
                sc.wf(),
                p <= result@.len(),
                forall|i: int| 0 <= i < result@.len() ==> (#[trigger] result@[i]).1.wf(),
                forall|q: int| 0 <= q < p ==> !sc.lt(#[trigger] result@[q].1),
            decreases result@.len() - p,
        {
            p += 1;
        }
        let ghost old_r = result@;
        proof {
            assert forall|q: int| 0 <= q < old_r.len() implies (q < p ==> ranks_before(
                bytes@,
                m,
                #[trigger] old_r[q].0 as nat,
                k as nat,
            )) && (q >= p ==> ranks_before(bytes@, m, k as nat, old_r[q].0 as nat)) by {
                if q < p {
                    lemma_trichotomy(sc, old_r[q].1);
                } else {
                    if q > p {
                        assert(ranks_before(bytes@, m, old_r[p as int].0 as nat, old_r[q].0 as nat));
                        lemma_lt_trans(sc, old_r[p as int].1, old_r[q].1);
                    }
                }
            }
        }
        result.insert(p, (k, sc));
        proof {
            assert forall|i: int, j: int| 0 <= i < j < result@.len() implies ranks_before(
                bytes@,
                m,
                (#[trigger] result@[i]).0 as nat,
                (#[trigger] result@[j]).0 as nat,
            ) by {
                if j < p {
                } else if j == p {
                } else if i < p {
                    assert(result@[j] == old_r[j - 1]);
                } else if i == p {
                    assert(result@[j] == old_r[j - 1]);
                } else {
                    assert(result@[j] == old_r[j - 1]);
                    assert(result@[i] == old_r[i - 1]);
                }
            }
            assert forall|kk: nat| 2 <= kk < k + 1 implies #[trigger] lists_keysize(result@, kk) by {
                if kk == k {
                    assert(result@[p as int].0 == kk);
                } else {
                    assert(lists_keysize(old_r, kk));
                    let i0 = choose|i: int| 0 <= i < old_r.len() && #[trigger] old_r[i].0 == kk;
                    if i0 < p {
                        assert(result@[i0].0 == kk);
                    } else {
                        assert(result@[i0 + 1].0 == kk);
                    }
                }
            }
        }
        k += 1;
    }
    result
}

/// Key lengths ranked on the distance of the first pair of blocks.
pub fn rank_keysizes(bytes: &[u8]) -> (r: Vec<(usize, Score)>)
    ensures
        ranked_keysizes(bytes@, Method::FirstPair, r@),
{
    rank_by(bytes, Method::FirstPair)
}

/// Key lengths ranked on the mean distance of the first two pairs of blocks.
pub fn rank_keysizes2(bytes: &[u8]) -> (r: Vec<(usize, Score)>)
    ensures
        ranked_keysizes(bytes@, Method::TwoPairs, r@),
{
    rank_by(bytes, Method::TwoPairs)
}

/// Key lengths ranked on the mean distance of up to `MAX_PAIRS` pairs of
/// blocks.
pub fn many_rank(bytes: &[u8]) -> (r: Vec<(usize, Score)>)
    ensures
        ranked_keysizes(bytes@, Method::ManyPairs, r@),
{
    rank_by(bytes, Method::ManyPairs)
}

} // verus!
