//! Brute-force recovery of a single-byte XOR key.
use vstd::prelude::*;
use vstd::utf8::{valid_utf8, decode_utf8, pop_first_scalar, length_of_first_scalar};
use crate::xor::{single_xor, byte_xor};
use crate::score::{score_text, letters, is_score_of, tally_of, sq_dev_sum, score_den, MAX_TEXT_LEN};
use crate::ratio::{Score, lemma_lt_trans, lemma_frac_trans};
use crate::error::CrackError;

verus! {

/// Valid UTF-8 never decodes to more characters than it has bytes.
pub proof fn lemma_decode_len(b: Seq<u8>)
    requires
        valid_utf8(b),
    ensures
        decode_utf8(b).len() <= b.len(),
    decreases b.len(),
{
    if b.len() > 0 {
        assert(length_of_first_scalar(b) >= 1);
        assert(pop_first_scalar(b).len() == b.len() - length_of_first_scalar(b));
        lemma_decode_len(pop_first_scalar(b));
    }
}

/// The text that key `k` decodes `input` to, when that is valid UTF-8.
pub open spec fn candidate_text(input: Seq<u8>, k: u8) -> Seq<char> {
    decode_utf8(single_xor(input, k))
}

/// Key `k` turns `input` into valid UTF-8 text with at least one supported
/// character, so that the text has a score.
pub open spec fn candidate_ok(input: Seq<u8>, k: u8) -> bool {
    valid_utf8(single_xor(input, k)) && letters(candidate_text(input, k)) > 0
}

/// Numerator of the score of the text that key `k` gives.
pub open spec fn key_num(input: Seq<u8>, k: u8) -> int {
    let t = candidate_text(input, k);
    sq_dev_sum(tally_of(t), letters(t) as int, 128)
}

/// Denominator of the score of the text that key `k` gives.
pub open spec fn key_den(input: Seq<u8>, k: u8) -> int {
    score_den(letters(candidate_text(input, k)) as int)
}

/// Key `k1` ranks before key `k2`: its text scores strictly lower, or the
/// scores are equal and `k1 < k2`.
pub open spec fn key_before(input: Seq<u8>, k1: u8, k2: u8) -> bool {
    let l = key_num(input, k1) * key_den(input, k2);
    let r = key_num(input, k2) * key_den(input, k1);
    l < r || (l == r && k1 < k2)
}

/// Key `k` is the best one for `input`: it has a score, and ranks before every
/// other key that has one.
pub open spec fn best_key(input: Seq<u8>, k: u8) -> bool {
    &&& candidate_ok(input, k)
    &&& forall|k2: u8| k2 != k && candidate_ok(input, k2) ==> key_before(input, k, k2)
}

/// A ranked candidate is key `c.1` with its decoded text `c.0` and the text's
/// score `c.2`.
pub open spec fn is_candidate(input: Seq<u8>, c: (String, u8, Score)) -> bool {
    &&& candidate_ok(input, c.1)
    &&& c.0@ == candidate_text(input, c.1)
    &&& c.2.wf()
    &&& is_score_of(c.2, c.0@)
}

/// `r` lists candidates of `input`, best first, in strict ranking order.
pub open spec fn ranked(input: Seq<u8>, r: Seq<(String, u8, Score)>) -> bool {
    &&& forall|i: int| 0 <= i < r.len() ==> is_candidate(input, #[trigger] r[i])
    &&& forall|i: int, j: int|
        0 <= i < j < r.len() ==> key_before(input, #[trigger] r[i].1, #[trigger] r[j].1)
}

/// Relies on `String::from_utf8`: it succeeds exactly on valid UTF-8 and then
/// holds the decoded characters.
#[verifier::external_body]
fn text_from_bytes(b: Vec<u8>) -> (r: Option<String>)
    ensures
        r is Some <==> valid_utf8(b@),
        r matches Some(s) ==> s@ == decode_utf8(b@),
{
    String::from_utf8(b).ok()
}

/// Tries all 256 single-byte keys on `input` and returns every key whose
/// result is valid text with a score, with that text and score, best first:
/// ascending by score, equal scores by ascending key.
pub fn byte_xor_solutions(input: &[u8]) -> (r: Vec<(String, u8, Score)>)
    requires
        input@.len() <= MAX_TEXT_LEN,
    ensures
        ranked(input@, r@),
        forall|k: u8|
            candidate_ok(input@, k) ==> exists|i: int|
                0 <= i < r@.len() && #[trigger] r@[i].1 == k,
{
    let mut result: Vec<(String, u8, Score)> = Vec::new();
    let mut c: u16 = 0;
    while c < 256
        invariant
            input@.len() <= MAX_TEXT_LEN,
            c <= 256,
            ranked(input@, result@),
            forall|i: int| 0 <= i < result@.len() ==> #[trigger] result@[i].1 < c,
            forall|k: u8|
                k < c && candidate_ok(input@, k) ==> exists|i: int|
                    0 <= i < result@.len() && #[trigger] result@[i].1 == k,
        decreases 256 - c,
    {
        let k = c as u8;
        let rotated = byte_xor(input, k);
        let decoded = text_from_bytes(rotated);
        if let Some(text) = decoded {
            proof {
                lemma_decode_len(single_xor(input@, k));
            }
            if let Some(sc) = score_text(text.as_str()) {
                let mut p: usize = 0;
                while p < result.len() && !sc.less_than(&result[p].2)
                    invariant
                        ranked(input@, result@),
                        sc.wf(),
                        p <= result@.len(),
                        forall|q: int| 0 <= q < p ==> !sc.lt(#[trigger] result@[q].2),
                    decreases result@.len() - p,
                {
                    p += 1;
                }
                let ghost old_r = result@;
                let ghost entry = (text, k, sc);
                proof {
                    assert(is_candidate(input@, entry));
                    assert forall|q: int| 0 <= q < old_r.len() implies (q < p ==> key_before(
                        input@,
                        #[trigger] old_r[q].1,
                        k,
                    )) && (q >= p ==> key_before(input@, k, old_r[q].1)) by {
                        assert(is_candidate(input@, old_r[q]));
                        if q < p {
                            crate::ratio::lemma_trichotomy(sc, old_r[q].2);
                        } else {
                            assert(sc.lt(old_r[p as int].2));
                            if q > p {
                                assert(key_before(input@, old_r[p as int].1, old_r[q].1));
                                assert(is_candidate(input@, old_r[p as int]));
                                lemma_lt_trans(sc, old_r[p as int].2, old_r[q].2);
                            }
                        }
                    }
                }
                result.insert(p, (text, k, sc));
                proof {
                    assert(result@ == old_r.insert(p as int, entry));
                    assert forall|i: int, j: int| 0 <= i < j < result@.len() implies key_before(
                        input@,
                        #[trigger] result@[i].1,
                        #[trigger] result@[j].1,
                    ) by {
                        if j < p {
                        } else if j == p {
                        } else if i < p {
                            assert(result@[j] == old_r[j - 1]);
                        } else if i == p {
                            assert(result@[j] == old_r[j - 1]);
                        } else {
                            assert(result@[j] == old_r[j - 1]);
                            assert(result@[i] == old_r[i - 1]);
                        }
                    }
                    assert forall|kk: u8|
                        kk < c + 1 && candidate_ok(input@, kk) implies exists|i: int|
                        0 <= i < result@.len() && #[trigger] result@[i].1 == kk by {
                        if kk == k {
                            assert(result@[p as int].1 == kk);
                        } else {
                            let i0 = choose|i: int|
                                0 <= i < old_r.len() && #[trigger] old_r[i].1 == kk;
                            if i0 < p {
                                assert(result@[i0].1 == kk);
                            } else {
                                assert(result@[i0 + 1].1 == kk);
                            }
                        }
                    }
                }
            }
        }
        c += 1;
    }
    result
}

/// The best-ranked candidate of `byte_xor_solutions`; fails with
/// `EmptyResult` when no key yields valid text with a score.
pub fn best_score_byte_xor(input: &[u8]) -> (r: Result<(String, u8, Score), CrackError>)
    requires
        input@.len() <= MAX_TEXT_LEN,
    ensures
        r is Err <==> forall|k: u8| !candidate_ok(input@, k),
        r matches Err(e) ==> e == CrackError::EmptyResult,
        r matches Ok(c) ==> is_candidate(input@, c) && best_key(input@, c.1),
{
    let mut all = byte_xor_solutions(input);
    if all.len() == 0 {
        proof {
            assert forall|k: u8| !candidate_ok(input@, k) by {
                if candidate_ok(input@, k) {
                    let i = choose|i: int| 0 <= i < all@.len() && #[trigger] all@[i].1 == k;
                }
            }
        }
        return Err(CrackError::EmptyResult);
    }
    let ghost ranked_all = all@;
    let best = all.swap_remove(0);
    proof {
        assert(best == ranked_all[0]);
        assert(is_candidate(input@, ranked_all[0]));
        assert forall|k2: u8| k2 != best.1 && candidate_ok(input@, k2) implies key_before(
            input@,
            best.1,
            k2,
        ) by {
            let i = choose|i: int| 0 <= i < ranked_all.len() && #[trigger] ranked_all[i].1 == k2;
            assert(i != 0);
            assert(key_before(input@, ranked_all[0].1, ranked_all[i].1));
        }
    }
    Ok(best)
}

/// The best key `k` of `line` scores strictly lower than `c`.
pub open spec fn beats(line: Seq<u8>, k: u8, c: Score) -> bool {
    key_num(line, k) * c.den < c.num * key_den(line, k)
}

/// `c` is the best candidate of line `l` of `inputs`, every earlier line's
/// best candidate scores strictly higher, and none of the first `n` lines
/// after it scores strictly lower.
pub open spec fn best_line(inputs: Seq<Seq<u8>>, n: int, l: int, c: (String, u8, Score)) -> bool {
    &&& 0 <= l < n
    &&& is_candidate(inputs[l], c)
    &&& best_key(inputs[l], c.1)
    &&& forall|l2: int, k2: u8|
        0 <= l2 < l && best_key(inputs[l2], k2) ==> !beats(inputs[l2], k2, c.2) && !(
        key_num(inputs[l2], k2) * c.2.den == c.2.num * key_den(inputs[l2], k2))
    &&& forall|l2: int, k2: u8|
        l < l2 < n && best_key(inputs[l2], k2) ==> !beats(inputs[l2], k2, c.2)
}

proof fn lemma_best_key_unique(line: Seq<u8>, k1: u8, k2: u8)
    requires
        best_key(line, k1),
        best_key(line, k2),
    ensures
        k1 == k2,
{
    if k1 != k2 {
        assert(key_before(line, k1, k2));
        assert(key_before(line, k2, k1));
    }
}

proof fn lemma_key_den_pos(line: Seq<u8>, k: u8)
    requires
        candidate_ok(line, k),
    ensures
        key_den(line, k) > 0,
{
    let t = letters(candidate_text(line, k)) as int;
    assert(score_den(t) > 0) by (nonlinear_arith)
        requires
            t > 0,
            score_den(t) == crate::freq::ALPHABET_SIZE * (crate::freq::REFERENCE_TOTAL
                * crate::freq::REFERENCE_TOTAL) * (t * t),
            crate::freq::ALPHABET_SIZE > 0,
            crate::freq::REFERENCE_TOTAL > 0,
    ;
}

proof fn lemma_candidate_score(line: Seq<u8>, c: (String, u8, Score))
    requires
        is_candidate(line, c),
    ensures
        key_den(line, c.1) > 0,
        c.2.num == key_num(line, c.1),
        c.2.den == key_den(line, c.1),
{
}

/// Among several ciphertexts, the best single-byte candidate of the one whose
/// best candidate scores lowest (the first such on equal scores); `None` when
/// no ciphertext has a key that yields scorable text.
pub fn best_score_of_all(inputs: &[Vec<u8>]) -> (r: Option<(String, u8, Score)>)
    requires
        forall|i: int| 0 <= i < inputs@.len() ==> (#[trigger] inputs@[i])@.len() <= MAX_TEXT_LEN,
    ensures
        r is None <==> forall|l: int, k: u8|
            0 <= l < inputs@.len() ==> !#[trigger] candidate_ok(inputs@[l]@, k),
        r matches Some(c) ==> exists|l: int|
            best_line(crate::transpose::views(inputs@), inputs@.len() as int, l, c),
{
    let ghost lines = crate::transpose::views(inputs@);
    let mut result: Option<(String, u8, Score)> = None;
    let mut i: usize = 0;
    while i < inputs.len()
        invariant
            lines == crate::transpose::views(inputs@),
            lines.len() == inputs@.len(),
            forall|j: int| 0 <= j < inputs@.len() ==> #[trigger] lines[j] == inputs@[j]@,
            forall|i: int|
                0 <= i < inputs@.len() ==> (#[trigger] inputs@[i])@.len() <= MAX_TEXT_LEN,
            i <= inputs@.len(),
            result is None <==> forall|l: int, k: u8|
                0 <= l < i ==> !#[trigger] candidate_ok(inputs@[l]@, k),
            result matches Some(c) ==> exists|l: int| best_line(lines, i as int, l, c),
        decreases inputs@.len() - i,
    {
        assert(lines[i as int] == inputs@[i as int]@);
        match best_score_byte_xor(inputs[i].as_slice()) {
            Ok(t) => {
                let take = match &result {
                    None => true,
                    Some(c) => t.2.less_than(&c.2),
                };
                if take {
                    proof {
                        if result is Some {
                            let c = result->0;
                            let l = choose|l: int| best_line(lines, i as int, l, c);
                            lemma_candidate_score(lines[l], c);
                            lemma_candidate_score(lines[i as int], t);
                            assert forall|l2: int, k2: u8|
                                0 <= l2 < i && best_key(lines[l2], k2) implies !beats(
                                lines[l2],
                                k2,
                                t.2,
                            ) && !(key_num(lines[l2], k2) * t.2.den == t.2.num * key_den(
                                lines[l2],
                                k2,
                            )) by {
                                assert(candidate_ok(lines[l2], k2));
                                lemma_key_den_pos(lines[l2], k2);
                                if l2 == l {
                                    lemma_best_key_unique(lines[l], k2, c.1);
                                }
                                lemma_frac_trans(
                                    t.2.num as int,
                                    t.2.den as int,
                                    c.2.num as int,
                                    c.2.den as int,
                                    key_num(lines[l2], k2),
                                    key_den(lines[l2], k2),
                                );
                            }
                        }
                        assert(best_line(lines, i + 1, i as int, t));
                    }
                    let ghost tg = t;
                    result = Some(t);
                    assert(result->0 == tg);
                    assert(best_line(lines, i + 1, i as int, tg));
                } else {
                    proof {
                        let c = result->0;
                        let l = choose|l: int| best_line(lines, i as int, l, c);
                        lemma_candidate_score(lines[i as int], t);
                        assert forall|l2: int, k2: u8|
                            l < l2 < i + 1 && best_key(lines[l2], k2) implies !beats(
                            lines[l2],
                            k2,
                            c.2,
                        ) by {
                            if l2 == i {
                                lemma_best_key_unique(lines[l2], k2, t.1);
                            }
                        }
                        assert(best_line(lines, i + 1, l, c));
                    }
                }
            },
            Err(_) => {
                proof {
                    if result is Some {
                            let c = result->0;
                        let l = choose|l: int| best_line(lines, i as int, l, c);
                        assert(best_line(lines, i + 1, l, c));
                    }
                }
            },
        }
        i += 1;
    }
    result
}

} // verus!
