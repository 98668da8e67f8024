//! Distance of a text from English: the mean squared difference between the
//! text's character frequencies and the reference frequencies.
use vstd::prelude::*;
use crate::freq::{
    ref_count, in_alphabet, reference_count, lemma_ref_count_bounds, REFERENCE_TOTAL, ALPHABET_SIZE,
};
use crate::ratio::Score;

verus! {

/// Longest text, in characters, that the scorer takes: its exact score then
/// fits in 128-bit integers.
pub const MAX_TEXT_LEN: usize = 0xffff_ffff;

/// The character is printable ASCII, which the reference model covers once
/// letters are folded to lower case.
pub open spec fn supported(c: char) -> bool {
    0x20 <= c as u32 <= 0x7e
}

/// Code of `c` with ASCII upper-case letters folded to lower case.
pub open spec fn fold_code(c: char) -> u8 {
    if 0x41 <= c as u32 <= 0x5a {
        (c as u32 + 32) as u8
    } else {
        c as u32 as u8
    }
}

/// Number of supported characters of `s` that fold to code `x`.
pub open spec fn count_of(s: Seq<char>, x: u8) -> nat
    decreases s.len(),
{
    if s.len() == 0 {
        0
    } else {
        count_of(s.drop_last(), x) + if supported(s.last()) && fold_code(s.last()) == x {
            1nat
        } else {
            0nat
        }
    }
}

/// Number of supported characters of `s`.
pub open spec fn letters(s: Seq<char>) -> nat
    decreases s.len(),
{
    if s.len() == 0 {
        0
    } else {
        letters(s.drop_last()) + if supported(s.last()) {
            1nat
        } else {
            0nat
        }
    }
}

/// The tally of `s` by folded code, for the codes below 128.
pub open spec fn tally_of(s: Seq<char>) -> Seq<int> {
    Seq::new(128, |x: int| count_of(s, x as u8) as int)
}

/// `counts[x] * REFERENCE_TOTAL - ref_count(x) * t`: the difference between
/// observed frequency `counts[x] / t` and reference frequency, scaled by
/// `t * REFERENCE_TOTAL`.
pub open spec fn deviation(counts: Seq<int>, t: int, x: int) -> int {
    counts[x] * REFERENCE_TOTAL - ref_count(x as u8) * t
}

/// Sum of the squared scaled deviations over the codes of the model below `k`.
pub open spec fn sq_dev_sum(counts: Seq<int>, t: int, k: nat) -> int
    decreases k,
{
    if k == 0 {
        0
    } else {
        let x = k - 1;
        sq_dev_sum(counts, t, (k - 1) as nat) + if in_alphabet(x as u8) {
            deviation(counts, t, x) * deviation(counts, t, x)
        } else {
            0
        }
    }
}

/// Denominator of the mean squared error for a text with `t` supported
/// characters.
pub open spec fn score_den(t: int) -> int {
    ALPHABET_SIZE * (REFERENCE_TOTAL * REFERENCE_TOTAL) * (t * t)
}

/// The score of `s` is the mean squared error `num / den` of its character
/// frequencies against the reference frequencies, over the model's alphabet.
pub open spec fn is_score_of(r: Score, s: Seq<char>) -> bool {
    &&& r.num == sq_dev_sum(tally_of(s), letters(s) as int, 128)
    &&& r.den == score_den(letters(s) as int)
}

/// Tally of a text: occurrences of each folded code below 128 and the number
/// of supported characters; the frequency of code `x` is `counts[x] / total`.
pub struct LetterFreqs {
    pub counts: Vec<u64>,
    pub total: u64,
}

proof fn lemma_count_le_letters(s: Seq<char>, x: u8)
    ensures
        count_of(s, x) <= letters(s),
        letters(s) <= s.len(),
    decreases s.len(),
{
    if s.len() > 0 {
        lemma_count_le_letters(s.drop_last(), x);
    }
}

/// Relies on `str::chars`: the characters of a string, in order.
#[verifier::external_body]
fn chars_of(s: &str) -> (r: Vec<char>)
    ensures
        r@ == s@,
{
    s.chars().collect()
}

/// Tallies the supported characters of `s`, upper-case letters counted as
/// lower-case; `None` when `s` has no supported character.
pub fn calc_letter_freqs(s: &str) -> (r: Option<LetterFreqs>)
    requires
        s@.len() <= MAX_TEXT_LEN,
    ensures
        r is None <==> letters(s@) == 0,
        r matches Some(f) ==> f.counts@.len() == 128 && f.total == letters(s@) && (forall|x: int|
            0 <= x < 128 ==> #[trigger] f.counts@[x] == count_of(s@, x as u8)),
{
    let chars = chars_of(s);
    let mut counts: Vec<u64> = vec![0u64; 128];
    let mut total: u64 = 0;
    let mut i: usize = 0;
    while i < chars.len()
        invariant
            chars@ == s@,
            s@.len() <= MAX_TEXT_LEN,
            i <= chars@.len(),
            counts@.len() == 128,
            total == letters(chars@.subrange(0, i as int)),
            forall|x: int|
                0 <= x < 128 ==> #[trigger] counts@[x] == count_of(
                    chars@.subrange(0, i as int),
                    x as u8,
                ),
        decreases chars@.len() - i,
    {
        let c = chars[i];
        let v = c as u32;
        let ghost pre = chars@.subrange(0, i as int);
        let ghost post = chars@.subrange(0, i + 1);
        proof {
            assert(post.drop_last() =~= pre);
            lemma_count_le_letters(pre, 0);
        }
        if 0x20 <= v && v <= 0x7e {
            let x: usize = if 0x41 <= v && v <= 0x5a {
                (v + 32) as usize
            } else {
                v as usize
            };
            proof {
                lemma_count_le_letters(pre, x as u8);
            }
            let n = counts[x];
            counts.set(x, n + 1);
            total = total + 1;
        }
        i += 1;
        proof {
            assert forall|y: int| 0 <= y < 128 implies #[trigger] counts@[y] == count_of(
                post,
                y as u8,
            ) by {}
        }
    }
    assert(chars@.subrange(0, i as int) =~= s@);
    if total == 0 {
        None
    } else {
        Some(LetterFreqs { counts, total })
    }
}

/// The tally as integers.
pub open spec fn counts_int(v: Seq<u64>) -> Seq<int> {
    Seq::new(v.len(), |x: int| v[x] as int)
}

/// Largest value of one squared scaled deviation for `t` supported characters.
spec fn dev_bound(t: int) -> int {
    (t * REFERENCE_TOTAL) * (t * REFERENCE_TOTAL)
}

proof fn lemma_dev_bound(t: int)
    requires
        0 <= t <= MAX_TEXT_LEN,
    ensures
        128 * dev_bound(t) <= u128::MAX,
        score_den(t) <= u128::MAX,
{
    let m: int = 4294967295int * 2360979int;
    vstd::arithmetic::mul::lemma_mul_inequality(t, 4294967295int, 2360979int);
    assert(dev_bound(t) <= m * m) by (nonlinear_arith)
        requires
            0 <= t * REFERENCE_TOTAL <= m,
    ;
    assert(t * t <= 4294967295int * 4294967295int) by (nonlinear_arith)
        requires
            0 <= t <= 4294967295int,
    ;
    assert(score_den(t) <= ALPHABET_SIZE * (REFERENCE_TOTAL * REFERENCE_TOTAL) * (
    4294967295int * 4294967295int)) by (nonlinear_arith)
        requires
            0 <= t * t <= 4294967295int * 4294967295int,
    ;
}

/// Mean squared difference between the tallied frequencies and the reference
/// frequencies, over the model's alphabet, as an exact fraction.
pub fn mean_square(f: &LetterFreqs) -> (r: Score)
    requires
        f.counts@.len() == 128,
        0 < f.total <= MAX_TEXT_LEN,
        forall|x: int| 0 <= x < 128 ==> #[trigger] f.counts@[x] <= f.total,
    ensures
        r.wf(),
        r.num == sq_dev_sum(counts_int(f.counts@), f.total as int, 128),
        r.den == score_den(f.total as int),
{
    let t = f.total;
    let ghost ci = counts_int(f.counts@);
    proof {
        lemma_dev_bound(t as int);
    }
    let mut sum: u128 = 0;
    let mut x: usize = 0;
    while x < 128
        invariant
            f.counts@.len() == 128,
            t == f.total,
            0 < t <= MAX_TEXT_LEN,
            forall|y: int| 0 <= y < 128 ==> #[trigger] f.counts@[y] <= t,
            ci == counts_int(f.counts@),
            128 * dev_bound(t as int) <= u128::MAX,
            x <= 128,
            sum == sq_dev_sum(ci, t as int, x as nat),
            sum <= x * dev_bound(t as int),
        decreases 128 - x,
    {
        let rc = reference_count(x as u8);
        proof {
            lemma_ref_count_bounds(x as u8);
        }
        if rc > 0 {
            proof {
                assert(rc * t <= 407934 * 4294967295int) by (nonlinear_arith)
                    requires
                        rc <= 407934,
                        t <= 4294967295int,
                ;
                assert(f.counts@[x as int] * REFERENCE_TOTAL <= 4294967295int * 2360979)
                    by (nonlinear_arith)
                    requires
                        f.counts@[x as int] <= t,
                        t <= 4294967295int,
                        REFERENCE_TOTAL == 2360979,
                ;
            }
            let observed: u128 = f.counts[x] as u128 * REFERENCE_TOTAL as u128;
            let expected: u128 = rc as u128 * t as u128;
            let diff: u128 = if observed >= expected {
                observed - expected
            } else {
                expected - observed
            };
            proof {
                let c = f.counts@[x as int] as int;
                assert(observed <= t * REFERENCE_TOTAL) by (nonlinear_arith)
                    requires
                        observed == c * REFERENCE_TOTAL,
                        c <= t,
                ;
                assert(expected <= t * REFERENCE_TOTAL) by (nonlinear_arith)
                    requires
                        expected == rc * t,
                        rc <= REFERENCE_TOTAL,
                        t >= 0,
                ;
                assert(diff * diff <= dev_bound(t as int)) by (nonlinear_arith)
                    requires
                        0 <= diff <= t * REFERENCE_TOTAL,
                ;
                assert(diff * diff == deviation(ci, t as int, x as int) * deviation(
                    ci,
                    t as int,
                    x as int,
                )) by (nonlinear_arith)
                    requires
                        diff == observed - expected || diff == expected - observed,
                        deviation(ci, t as int, x as int) == observed - expected,
                ;
                assert((x + 1) * dev_bound(t as int) == x * dev_bound(t as int) + dev_bound(
                    t as int,
                )) by (nonlinear_arith);
                assert(x * dev_bound(t as int) <= 127 * dev_bound(t as int)) by (nonlinear_arith)
                    requires
                        x <= 127,
                        dev_bound(t as int) >= 0,
                ;
            }
            sum = sum + diff * diff;
        } else {
            proof {
                assert((x + 1) * dev_bound(t as int) == x * dev_bound(t as int) + dev_bound(
                    t as int,
                )) by (nonlinear_arith);
                assert(dev_bound(t as int) >= 0) by (nonlinear_arith);
            }
        }
        x += 1;
    }
    proof {
        assert(t * t <= 4294967295int * 4294967295int) by (nonlinear_arith)
            requires
                t <= 4294967295int,
        ;
    }
    let tt: u128 = t as u128 * t as u128;
    let rt: u128 = REFERENCE_TOTAL as u128 * REFERENCE_TOTAL as u128;
    proof {
        assert(tt > 0) by (nonlinear_arith)
            requires
                tt == t * t,
                t > 0,
        ;
        assert(ALPHABET_SIZE * rt * tt == score_den(t as int)) by (nonlinear_arith)
            requires
                tt == t * t,
                rt == REFERENCE_TOTAL * REFERENCE_TOTAL,
        ;
        assert(ALPHABET_SIZE * rt * tt > 0) by (nonlinear_arith)
            requires
                tt > 0,
                rt > 0,
        ;
    }
    Score { num: sum, den: ALPHABET_SIZE as u128 * rt * tt }
}

/// Distance of `s` from English text: the mean squared error of its
/// character frequencies against the reference frequencies (lower is closer);
/// `None` when `s` has no supported character.
pub fn score_text(s: &str) -> (r: Option<Score>)
    requires
        s@.len() <= MAX_TEXT_LEN,
    ensures
        r is None <==> letters(s@) == 0,
        r matches Some(sc) ==> sc.wf() && is_score_of(sc, s@),
{
    match calc_letter_freqs(s) {
        None => None,
        Some(f) => {
            proof {
                assert forall|x: int| 0 <= x < 128 implies #[trigger] f.counts@[x] <= f.total by {
                    lemma_count_le_letters(s@, x as u8);
                }
                lemma_count_le_letters(s@, 0);
                assert(counts_int(f.counts@) =~= tally_of(s@));
            }
            Some(mean_square(&f))
        },
    }
}

/// Numerator of the score of `s`.
pub open spec fn text_num(s: Seq<char>) -> int {
    sq_dev_sum(tally_of(s), letters(s) as int, 128)
}

/// Denominator of the score of `s`.
pub open spec fn text_den(s: Seq<char>) -> int {
    score_den(letters(s) as int)
}

/// `s1` scores strictly better (lower) than `s2`.
pub open spec fn scores_better(s1: Seq<char>, s2: Seq<char>) -> bool {
    text_num(s1) * text_den(s2) < text_num(s2) * text_den(s1)
}

/// `m` copies of `c`.
pub open spec fn repeated(c: char, m: nat) -> Seq<char> {
    Seq::new(m, |i: int| c)
}

/// Sum over the codes of the model below `k` of the squared scaled deviation
/// of a text made only of the character with code `y`.
spec fn uniform_dev_sum(y: u8, k: nat) -> int
    decreases k,
{
    if k == 0 {
        0
    } else {
        let x = (k - 1) as u8;
        let d: int = (if x == y {
            REFERENCE_TOTAL as int
        } else {
            0
        }) - ref_count(x);
        uniform_dev_sum(y, (k - 1) as nat) + if in_alphabet(x) {
            d * d
        } else {
            0
        }
    }
}

/// Sum of the squared reference counts of the codes below `k`.
spec fn ref_sq_sum(k: nat) -> int
    decreases k,
{
    if k == 0 {
        0
    } else {
        ref_sq_sum((k - 1) as nat) + ref_count((k - 1) as u8) * ref_count((k - 1) as u8)
    }
}

proof fn lemma_repeated_counts(c: char, m: nat, x: u8)
    requires
        supported(c),
    ensures
        letters(repeated(c, m)) == m,
        count_of(repeated(c, m), x) == if x == fold_code(c) {
            m
        } else {
            0
        },
    decreases m,
{
    if m > 0 {
        assert(repeated(c, m).drop_last() =~= repeated(c, (m - 1) as nat));
        lemma_repeated_counts(c, (m - 1) as nat, x);
    }
}

proof fn lemma_uniform_sum(c: char, m: nat, k: nat)
    requires
        supported(c),
        k <= 128,
    ensures
        sq_dev_sum(tally_of(repeated(c, m)), m as int, k) == (m * m) * uniform_dev_sum(
            fold_code(c),
            k,
        ),
    decreases k,
{
    if k > 0 {
        lemma_uniform_sum(c, m, (k - 1) as nat);
        let x = (k - 1) as u8;
        lemma_repeated_counts(c, m, x);
        let t = tally_of(repeated(c, m));
        let d: int = (if x == fold_code(c) {
            REFERENCE_TOTAL as int
        } else {
            0
        }) - ref_count(x);
        assert(deviation(t, m as int, k - 1) == m * d) by (nonlinear_arith)
            requires
                t[k - 1] == (if x == fold_code(c) {
                    m
                } else {
                    0
                }),
                deviation(t, m as int, k - 1) == t[k - 1] * REFERENCE_TOTAL - ref_count(x) * m,
                d == (if x == fold_code(c) {
                    REFERENCE_TOTAL as int
                } else {
                    0
                }) - ref_count(x),
        ;
        assert((m * d) * (m * d) == (m * m) * (d * d)) by (nonlinear_arith);
        assert((m * m) * uniform_dev_sum(fold_code(c), (k - 1) as nat) + (m * m) * (d * d) == (m
            * m) * (uniform_dev_sum(fold_code(c), (k - 1) as nat) + d * d)) by (nonlinear_arith);
    }
}

proof fn lemma_uniform_dev_sum(y: u8, k: nat)
    requires
        k <= 128,
    ensures
        uniform_dev_sum(y, k) == ref_sq_sum(k) + if y < k && in_alphabet(y) {
            REFERENCE_TOTAL * REFERENCE_TOTAL - 2 * REFERENCE_TOTAL * ref_count(y)
        } else {
            0
        },
    decreases k,
{
    if k > 0 {
        lemma_uniform_dev_sum(y, (k - 1) as nat);
        let x = (k - 1) as u8;
        let r = ref_count(x) as int;
        let tt = REFERENCE_TOTAL as int;
        assert((tt - r) * (tt - r) == r * r + (tt * tt - 2 * tt * r)) by (nonlinear_arith);
        assert((0 - r) * (0 - r) == r * r) by (nonlinear_arith);
        if !in_alphabet(x) {
            assert(r == 0);
        }
    }
}

proof fn lemma_space_is_most_frequent(x: u8)
    ensures
        x != 0x20 ==> ref_count(x) < ref_count(0x20),
        0x20 <= x <= 0x7e && !(0x41 <= x <= 0x5a) ==> in_alphabet(x),
{
}

/// Scores compare as the reference counts of their single character do:
/// for any `m1, m2 >= 1` and any printable character `c` other than the space
/// (the most frequent character of the model), a text of `m1` spaces scores
/// strictly better than a text of `m2` copies of `c`. In particular this holds
/// for the least frequent characters of the model.
pub proof fn lemma_space_scores_best(c: char, m1: nat, m2: nat)
    requires
        supported(c),
        fold_code(c) != 0x20,
        m1 >= 1,
        m2 >= 1,
    ensures
        forall|x: u8| #[trigger] ref_count(x) <= ref_count(0x20),
        scores_better(repeated(' ', m1), repeated(c, m2)),
{
    assert forall|x: u8| #[trigger] ref_count(x) <= ref_count(0x20) by {
        lemma_space_is_most_frequent(x);
    }
    let s1 = repeated(' ', m1);
    let s2 = repeated(c, m2);
    let y = fold_code(c);
    lemma_repeated_counts(' ', m1, 0);
    lemma_repeated_counts(c, m2, 0);
    lemma_uniform_sum(' ', m1, 128);
    lemma_uniform_sum(c, m2, 128);
    lemma_uniform_dev_sum(0x20, 128);
    lemma_uniform_dev_sum(y, 128);
    lemma_space_is_most_frequent(y);
    assert(fold_code(' ') == 0x20);
    assert(y < 128);
    assert(in_alphabet(y));
    let tt = REFERENCE_TOTAL as int;
    let u1 = uniform_dev_sum(0x20, 128);
    let u2 = uniform_dev_sum(y, 128);
    assert(u1 < u2) by (nonlinear_arith)
        requires
            u1 == ref_sq_sum(128) + (tt * tt - 2 * tt * ref_count(0x20)),
            u2 == ref_sq_sum(128) + (tt * tt - 2 * tt * ref_count(y)),
            ref_count(y) < ref_count(0x20),
            tt > 0,
    ;
    let a1 = (m1 * m1) as int;
    let a2 = (m2 * m2) as int;
    let k = ALPHABET_SIZE * (tt * tt);
    assert(a1 > 0 && a2 > 0) by (nonlinear_arith)
        requires
            a1 == m1 * m1,
            a2 == m2 * m2,
            m1 >= 1,
            m2 >= 1,
    ;
    assert(a1 * u1 * (k * a2) < a2 * u2 * (k * a1)) by (nonlinear_arith)
        requires
            u1 < u2,
            a1 > 0,
            a2 > 0,
            k > 0,
    ;
    assert(text_den(s2) == k * a2);
    assert(text_den(s1) == k * a1);
}

} // verus!
