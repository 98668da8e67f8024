//! Block transposition: splitting bytes into interleaved columns and
//! weaving columns back together.
use vstd::prelude::*;
use vstd::arithmetic::div_mod::lemma_fundamental_div_mod_converse;
use crate::error::CrackError;

verus! {

/// The contents of a sequence of byte vectors.
pub open spec fn views(v: Seq<Vec<u8>>) -> Seq<Seq<u8>> {
    v.map_values(|c: Vec<u8>| c@)
}

/// Number of indices below `len` that are congruent to `j` modulo `n`.
pub open spec fn column_len(len: nat, n: nat, j: nat) -> nat
    recommends
        j < n,
{
    ((len + n - 1 - j) / (n as int)) as nat
}

/// The `n` columns of `s`: byte `i` goes to column `i % n`, in order.
pub open spec fn columns(s: Seq<u8>, n: nat) -> Seq<Seq<u8>> {
    Seq::new(
        n,
        |j: int| Seq::new(column_len(s.len(), n, j as nat), |r: int| s[r * n + j]),
    )
}

/// The least of `n * blocks[k].len() + k` over `k < j`, where `n` is the
/// number of blocks: the first round-robin position, among the first `j`
/// blocks, at which a block has run out.
pub open spec fn first_gap_upto(blocks: Seq<Seq<u8>>, j: nat) -> int
    decreases j,
{
    let n = blocks.len() as int;
    if j <= 1 {
        n * blocks[0].len()
    } else {
        let prev = first_gap_upto(blocks, (j - 1) as nat);
        let here = n * blocks[j - 1].len() + (j - 1);
        if here < prev {
            here
        } else {
            prev
        }
    }
}

/// Length of the round-robin reading of `blocks`: the first position whose
/// block has no byte left for that round (zero when there are no blocks).
pub open spec fn interleaved_len(blocks: Seq<Seq<u8>>) -> nat {
    if blocks.len() == 0 {
        0
    } else {
        first_gap_upto(blocks, blocks.len()) as nat
    }
}

/// Round-robin reading of `blocks`: one byte from each block per round,
/// stopping at the first block that has none left.
pub open spec fn interleaved(blocks: Seq<Seq<u8>>) -> Seq<u8> {
    let n = blocks.len() as int;
    Seq::new(interleaved_len(blocks), |i: int| blocks[i % n][i / n])
}

proof fn lemma_first_gap_bounds(blocks: Seq<Seq<u8>>, j: nat)
    requires
        1 <= j <= blocks.len(),
    ensures
        forall|k: int|
            0 <= k < j ==> first_gap_upto(blocks, j) <= blocks.len() * blocks[k].len() + k,
        exists|k: int|
            0 <= k < j && first_gap_upto(blocks, j) == blocks.len() * blocks[k].len() + k,
    decreases j,
{
    if j > 1 {
        lemma_first_gap_bounds(blocks, (j - 1) as nat);
        let n = blocks.len() as int;
        let here = n * blocks[j - 1].len() + (j - 1);
        if here < first_gap_upto(blocks, (j - 1) as nat) {
            assert(first_gap_upto(blocks, j) == blocks.len() * blocks[j - 1].len() + (j - 1));
        }
    } else {
        assert(first_gap_upto(blocks, j) == blocks.len() * blocks[0].len() + 0);
    }
}

/// The round-robin reading stops at `m` when no block runs out before `m`
/// and one runs out exactly there.
proof fn lemma_interleaved_len_is(blocks: Seq<Seq<u8>>, m: int, k0: int)
    requires
        blocks.len() >= 1,
        forall|k: int| 0 <= k < blocks.len() ==> m <= blocks.len() * blocks[k].len() + k,
        0 <= k0 < blocks.len(),
        m == blocks.len() * blocks[k0].len() + k0,
    ensures
        interleaved_len(blocks) == m,
{
    lemma_first_gap_bounds(blocks, blocks.len());
}

/// Splits `bytes` into `n` columns: byte `i` goes to column `i % n`.
/// Fails with `InvalidArgument` when `n` is zero.
pub fn collate(bytes: &[u8], n: usize) -> (r: Result<Vec<Vec<u8>>, CrackError>)
    ensures
        n == 0 <==> r is Err,
        r matches Err(e) ==> e == CrackError::InvalidArgument,
        r matches Ok(cols) ==> views(cols@) == columns(bytes@, n as nat),
{
    if n == 0 {
        return Err(CrackError::InvalidArgument);
    }
    let len = bytes.len();
    let mut result: Vec<Vec<u8>> = Vec::with_capacity(n);
    let mut j: usize = 0;
    while j < n
        invariant
            len == bytes@.len(),
            j <= n,
            views(result@) == columns(bytes@, n as nat).subrange(0, j as int),
        decreases n - j,
    {
        let mut col: Vec<u8> = Vec::new();
        let mut i: usize = j;
        if i < len {
            loop
                invariant_except_break
                    i == col@.len() * n + j,
                invariant
                    len == bytes@.len(),
                    j < n,
                    i < len,
                    col@ == Seq::new(col@.len(), |q: int| bytes@[q * n + j]),
                ensures
                    col@.len() > 0,
                    i == (col@.len() - 1) * n + j,
                    i < len,
                    len <= i + n,
                    col@ == Seq::new(col@.len(), |q: int| bytes@[q * n + j]),
                decreases len - i,
            {
                let ghost q = col@.len();
                col.push(bytes[i]);
                assert(col@ =~= Seq::new(col@.len(), |q: int| bytes@[q * n + j]));
                if len - i <= n {
                    break;
                }
                i = i + n;
                assert(i == col@.len() * n + j) by (nonlinear_arith)
                    requires
                        i == q * n + j + n,
                        col@.len() == q + 1,
                ;
            }
        }
        proof {
            let c = col@.len() as int;
            let x = len + n - 1 - j;
            if c == 0 {
                lemma_fundamental_div_mod_converse(x, n as int, 0, x);
            } else {
                assert((c - 1) * n == c * n - n) by (nonlinear_arith);
                lemma_fundamental_div_mod_converse(x, n as int, c, x - c * n);
            }
            assert(col@ =~= columns(bytes@, n as nat)[j as int]);
        }
        let ghost before = result@;
        let ghost colv = col@;
        result.push(col);
        assert(views(result@) =~= views(before).push(colv));
        j += 1;
        assert(views(result@) =~= columns(bytes@, n as nat).subrange(0, j as int));
    }
    assert(views(result@) =~= columns(bytes@, n as nat));
    Ok(result)
}

/// Weaves blocks back together: round by round, one byte from each block in
/// order, stopping at the first block that has no byte left for the round.
pub fn interleave(input: &[Vec<u8>]) -> (r: Vec<u8>)
    ensures
        r@ == interleaved(views(input@)),
{
    let mut result: Vec<u8> = Vec::new();
    let n = input.len();
    if n == 0 {
        assert(result@ =~= interleaved(views(input@)));
        return result;
    }
    let ghost bl = views(input@);
    let first_len = input[0].len();
    let mut round: usize = 0;
    loop
        invariant
            first_len == bl[0].len(),
            n == input@.len(),
            n >= 1,
            bl == views(input@),
            forall|k: int| 0 <= k < n ==> round <= #[trigger] bl[k].len(),
            result@ == Seq::new((round * n) as nat, |i: int| bl[i % (n as int)][i / (n as int)]),
        decreases input@[0]@.len() - round,
    {
        let mut j: usize = 0;
        while j < n
            invariant
                n == input@.len(),
                n >= 1,
                bl == views(input@),
                j <= n,
                forall|k: int| 0 <= k < n ==> round <= #[trigger] bl[k].len(),
                forall|k: int| 0 <= k < j ==> round < #[trigger] bl[k].len(),
                result@ == Seq::new(
                    (round * n + j) as nat,
                    |i: int| bl[i % (n as int)][i / (n as int)],
                ),
            decreases n - j,
        {
            let block = &input[j];
            assert(block@ == bl[j as int]);
            if round < block.len() {
                proof {
                    lemma_fundamental_div_mod_converse(
                        round * n + j,
                        n as int,
                        round as int,
                        j as int,
                    );
                }
                result.push(block[round]);
                j += 1;
                assert(result@ =~= Seq::new(
                    (round * n + j) as nat,
                    |i: int| bl[i % (n as int)][i / (n as int)],
                ));
            } else {
                proof {
                    assert forall|k: int| 0 <= k < n implies round * n + j <= n * bl[k].len()
                        + k by {
                        if k < j {
                            assert(round * n + j <= n * bl[k].len() + k) by (nonlinear_arith)
                                requires
                                    round + 1 <= bl[k].len(),
                                    j <= n,
                                    k >= 0,
                            ;
                        } else {
                            assert(round * n + j <= n * bl[k].len() + k) by (nonlinear_arith)
                                requires
                                    round <= bl[k].len(),
                                    j <= k,
                                    n >= 1,
                            ;
                        }
                    }
                    assert(n * bl[j as int].len() + j == round * n + j) by (nonlinear_arith)
                        requires
                            bl[j as int].len() == round,
                    ;
                    lemma_interleaved_len_is(bl, round * n + j, j as int);
                    assert(result@ =~= interleaved(bl));
                }
                return result;
            }
        }
        assert(round < first_len);
        round += 1;
        assert((round - 1) * n + n == round * n) by (nonlinear_arith);
    }
}

/// Splitting bytes into columns and weaving the columns back together gives
/// back the bytes: for every `s` and every `n >= 1` (in particular every `n`
/// from 1 to the length of `s`), `interleave(collate(s, n)) == s`.
pub proof fn lemma_collate_interleave_round_trip(s: Seq<u8>, n: nat)
    requires
        n >= 1,
    ensures
        interleaved(columns(s, n)) == s,
{
    let cols = columns(s, n);
    let len = s.len() as int;
    let nn = n as int;
    assert forall|k: int| 0 <= k < nn implies len <= nn * cols[k].len() + k by {
        let x = len + nn - 1 - k;
        let c = cols[k].len() as int;
        vstd::arithmetic::div_mod::lemma_fundamental_div_mod(x, nn);
        vstd::arithmetic::div_mod::lemma_mod_pos_bound(x, nn);
        assert(c == x / nn);
    }
    let k0 = len % nn;
    proof_len_gap(len, nn);
    assert(cols[k0].len() == len / nn);
    assert(len == nn * cols[k0].len() + k0) by {
        vstd::arithmetic::div_mod::lemma_fundamental_div_mod(len, nn);
    }
    lemma_interleaved_len_is(cols, len, k0);
    assert forall|i: int| 0 <= i < len implies #[trigger] interleaved(cols)[i] == s[i] by {
        let q = i / nn;
        let j = i % nn;
        vstd::arithmetic::div_mod::lemma_fundamental_div_mod(i, nn);
        vstd::arithmetic::div_mod::lemma_mod_pos_bound(i, nn);
        assert(q < cols[j].len()) by (nonlinear_arith)
            requires
                i == nn * q + j,
                i < len,
                len <= nn * cols[j].len() + j,
                nn >= 1,
        ;
        assert(q * nn == nn * q) by (nonlinear_arith);
    }
    assert(interleaved(cols) =~= s);
}

/// The column holding the last byte has exactly `len / n` bytes.
proof fn proof_len_gap(len: int, n: int)
    requires
        len >= 0,
        n >= 1,
    ensures
        (len + n - 1 - len % n) / n == len / n,
{
    vstd::arithmetic::div_mod::lemma_fundamental_div_mod(len, n);
    vstd::arithmetic::div_mod::lemma_mod_pos_bound(len, n);
    let q = len / n;
    assert(len + n - 1 - len % n == q * n + (n - 1)) by (nonlinear_arith)
        requires
            len == n * q + len % n,
    ;
    lemma_fundamental_div_mod_converse(len + n - 1 - len % n, n, q, n - 1);
}

} // verus!
