//! Recovery of a repeating XOR key: estimate the key length, split the
//! ciphertext into one column per key byte, solve each column as a
//! single-byte XOR, then decrypt with the recovered key.
use vstd::prelude::*;
use crate::error::CrackError;
use crate::keysize::{rank_keysizes, max_keysize, keysize_before, lists_keysize};
use crate::score::MAX_TEXT_LEN;
use crate::single::{best_score_byte_xor, best_key, candidate_ok};
use crate::transpose::{collate, columns, column_len, views};
use crate::xor::{repeating_key_xor, repeating_xor};

verus! {

/// `k` is the best-ranked key length for `bytes`.
pub open spec fn best_keysize(bytes: Seq<u8>, k: nat) -> bool {
    &&& 2 <= k <= max_keysize(bytes.len())
    &&& forall|k2: nat|
        2 <= k2 <= max_keysize(bytes.len()) && k2 != k ==> keysize_before(bytes, k, k2)
}

/// Some single-byte key turns `col` into text with a score.
pub open spec fn solvable(col: Seq<u8>) -> bool {
    exists|k: u8| candidate_ok(col, k)
}

/// With `k` bytes of key, every column of `bytes` is solvable.
pub open spec fn all_solvable(bytes: Seq<u8>, k: nat) -> bool {
    forall|j: int| 0 <= j < k ==> #[trigger] solvable(columns(bytes, k)[j])
}

/// `key` is what the pipeline recovers from `bytes`: its length is the best
/// key length, and each byte is the best single-byte key of its column.
pub open spec fn recovered_key(bytes: Seq<u8>, key: Seq<u8>) -> bool {
    &&& best_keysize(bytes, key.len())
    &&& forall|j: int|
        0 <= j < key.len() ==> best_key(#[trigger] columns(bytes, key.len())[j], key[j])
}

proof fn lemma_column_len_le(len: nat, n: nat, j: nat)
    requires
        n >= 1,
        j < n,
    ensures
        column_len(len, n, j) <= len,
{
    let x = len + n - 1 - j;
    assert(x <= len * n + (n - 1)) by (nonlinear_arith)
        requires
            x == len + n - 1 - j,
            n >= 1,
            j >= 0,
    ;
    vstd::arithmetic::div_mod::lemma_fundamental_div_mod_converse(
        len * n + (n - 1),
        n as int,
        len as int,
        n - 1,
    );
    vstd::arithmetic::div_mod::lemma_div_is_ordered(x, len * n + (n - 1), n as int);
}

/// Recovers a repeating XOR key and the plaintext from `ciphertext`: the key
/// length is the best-ranked one, each key byte the best single-byte key of
/// its column, and the plaintext the ciphertext XOR-ed with the key.
/// Fails with `NoKeysizeFound` when the ciphertext is shorter than four bytes,
/// and with `UnsolvableBlock(j)` when column `j` is the first that no key
/// turns into scorable text.
pub fn break_repeating_key_xor(ciphertext: &[u8]) -> (r: Result<(Vec<u8>, Vec<u8>), CrackError>)
    requires
        ciphertext@.len() <= MAX_TEXT_LEN,
    ensures
        r is Ok <==> ciphertext@.len() >= 4 && forall|k: nat|
            best_keysize(ciphertext@, k) ==> all_solvable(ciphertext@, k),
        r matches Err(e) ==> (e == CrackError::NoKeysizeFound <==> ciphertext@.len() < 4),
        r matches Err(CrackError::UnsolvableBlock(j)) ==> exists|k: nat|
            best_keysize(ciphertext@, k) && j < k && !solvable(columns(ciphertext@, k)[j as int])
                && forall|j2: int| 0 <= j2 < j ==> #[trigger] solvable(columns(ciphertext@, k)[j2]),
        r matches Err(e) ==> e is NoKeysizeFound || e is UnsolvableBlock,
        r matches Ok((key, plain)) ==> recovered_key(ciphertext@, key@) && plain@ == repeating_xor(
            ciphertext@,
            key@,
        ),
{
    let ranks = rank_keysizes(ciphertext);
    if ranks.len() == 0 {
        proof {
            if ciphertext@.len() >= 4 {
                assert(lists_keysize(ranks@, 2));
            }
        }
        return Err(CrackError::NoKeysizeFound);
    }
    let keysize = ranks[0].0;
    proof {
        assert(2 <= ranks@[0].0);
        assert forall|k2: nat|
            2 <= k2 <= max_keysize(ciphertext@.len()) && k2 != keysize implies keysize_before(
            ciphertext@,
            keysize as nat,
            k2,
        ) by {
            assert(lists_keysize(ranks@, k2));
            let i = choose|i: int| 0 <= i < ranks@.len() && ranks@[i].0 == k2;
            assert(keysize_before(ciphertext@, ranks@[0].0 as nat, ranks@[i].0 as nat));
        }
        assert(best_keysize(ciphertext@, keysize as nat));
        assert forall|k: nat| best_keysize(ciphertext@, k) implies k == keysize by {
            if k != keysize {
                assert(keysize_before(ciphertext@, keysize as nat, k));
                assert(keysize_before(ciphertext@, k, keysize as nat));
            }
        }
    }
    let cols = match collate(ciphertext, keysize) {
        Ok(c) => c,
        Err(e) => {
            return Err(e);
        },
    };
    let ghost colsv = columns(ciphertext@, keysize as nat);
    assert(cols@.len() == views(cols@).len());
    let mut key: Vec<u8> = Vec::with_capacity(keysize);
    let mut j: usize = 0;
    while j < keysize
        invariant
            ciphertext@.len() <= MAX_TEXT_LEN,
            keysize >= 2,
            views(cols@) == colsv,
            cols@.len() == keysize,
            best_keysize(ciphertext@, keysize as nat),
            ciphertext@.len() >= 4,
            colsv == columns(ciphertext@, keysize as nat),
            j <= keysize,
            key@.len() == j,
            forall|i: int| 0 <= i < j ==> best_key(#[trigger] colsv[i], key@[i]),
        decreases keysize - j,
    {
        proof {
            lemma_column_len_le(ciphertext@.len(), keysize as nat, j as nat);
            assert(views(cols@)[j as int] == cols@[j as int]@);
        }
        match best_score_byte_xor(cols[j].as_slice()) {
            Ok(c) => {
                key.push(c.1);
                j += 1;
            },
            Err(_) => {
                proof {
                    assert forall|j2: int| 0 <= j2 < j implies #[trigger] solvable(colsv[j2]) by {
                        assert(candidate_ok(colsv[j2], key@[j2]));
                    }
                    assert(!solvable(colsv[j as int]));
                    assert(!all_solvable(ciphertext@, keysize as nat));
                }
                return Err(CrackError::UnsolvableBlock(j));
            },
        }
    }
    let plain = repeating_key_xor(ciphertext, key.as_slice());
    proof {
        assert forall|i: int| 0 <= i < keysize implies #[trigger] solvable(colsv[i]) by {
            assert(candidate_ok(colsv[i], key@[i]));
        }
        assert(all_solvable(ciphertext@, keysize as nat));
    }
    Ok((key, plain))
}

} // verus!
