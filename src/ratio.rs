//! Exact non-negative rational scores.
use vstd::prelude::*;

verus! {

/// A non-negative rational number `num / den`, used for every score so that
/// rankings compare exact values.
#[derive(Debug, Clone, Copy, PartialEq, Eq, Structural)]
pub struct Score {
    pub num: u128,
    pub den: u128,
}

impl Score {
    /// The denominator is positive.
    pub open spec fn wf(self) -> bool {
        self.den > 0
    }

    /// `self` is strictly less than `other` as a rational number.
    pub open spec fn lt(self, other: Score) -> bool {
        self.num * other.den < other.num * self.den
    }

    /// `self` and `other` are the same rational number.
    pub open spec fn same(self, other: Score) -> bool {
        self.num * other.den == other.num * self.den
    }

    /// Exact comparison `self < other`, without overflow.
    pub fn less_than(&self, other: &Score) -> (r: bool)
        requires
            self.wf(),
            other.wf(),
        ensures
            r == self.lt(*other),
    {
        frac_lt(self.num, self.den, other.num, other.den)
    }
}

/// `a / b < c / d`, decided by comparing integer parts and then, when they
/// agree, the reciprocals of the fractional parts.
fn frac_lt(a: u128, b: u128, c: u128, d: u128) -> (r: bool)
    requires
        b > 0,
        d > 0,
    ensures
        r == (a * d < c * b),
    decreases b + d,
{
    let q1 = a / b;
    let q2 = c / d;
    let r1 = a % b;
    let r2 = c % d;
    proof {
        vstd::arithmetic::div_mod::lemma_fundamental_div_mod(a as int, b as int);
        vstd::arithmetic::div_mod::lemma_fundamental_div_mod(c as int, d as int);
    }
    if q1 != q2 {
        proof {
            if q1 < q2 {
                assert(a * d < c * b) by (nonlinear_arith)
                    requires
                        a == b * q1 + r1,
                        c == d * q2 + r2,
                        r1 < b,
                        q1 + 1 <= q2,
                        d > 0,
                        b > 0,
                ;
            } else {
                assert(c * b < a * d) by (nonlinear_arith)
                    requires
                        a == b * q1 + r1,
                        c == d * q2 + r2,
                        r2 < d,
                        q2 + 1 <= q1,
                        d > 0,
                        b > 0,
                ;
            }
        }
        return q1 < q2;
    }
    proof {
        assert((a * d < c * b) == (r1 * d < r2 * b)) by (nonlinear_arith)
            requires
                a == b * q1 + r1,
                c == d * q1 + r2,
        ;
    }
    if r2 == 0 {
        assert(r1 * d >= 0 && r2 * b == 0) by (nonlinear_arith)
            requires
                d > 0,
                r2 == 0,
        ;
        return false;
    }
    if r1 == 0 {
        assert(r2 * b > 0 && r1 * d == 0) by (nonlinear_arith)
            requires
                r2 > 0,
                b > 0,
                r1 == 0,
        ;
        return true;
    }
    let r = frac_lt(d, r2, b, r1);
    assert(d * r1 == r1 * d && b * r2 == r2 * b) by (nonlinear_arith);
    r
}

/// `<` on scores chains with `<=`: if `a < b` and `b <= c` then `a < c`;
/// and if `a <= b` and `b < c` then `a < c`.
pub proof fn lemma_lt_trans(a: Score, b: Score, c: Score)
    requires
        a.wf(),
        b.wf(),
        c.wf(),
    ensures
        a.lt(b) && (b.lt(c) || b.same(c)) ==> a.lt(c),
        (a.lt(b) || a.same(b)) && b.lt(c) ==> a.lt(c),
        a.same(b) && b.same(c) ==> a.same(c),
{
    let (an, ad, bn, bd, cn, cd) = (
        a.num as int,
        a.den as int,
        b.num as int,
        b.den as int,
        c.num as int,
        c.den as int,
    );
    assert(an * bd <= bn * ad && bn * cd <= cn * bd ==> an * cd * bd <= cn * ad * bd)
        by (nonlinear_arith)
        requires
            ad > 0,
            bd > 0,
            cd > 0,
            an >= 0,
            bn >= 0,
            cn >= 0,
    ;
    assert((an * bd < bn * ad && bn * cd <= cn * bd) || (an * bd <= bn * ad && bn * cd < cn * bd)
        ==> an * cd * bd < cn * ad * bd) by (nonlinear_arith)
        requires
            ad > 0,
            bd > 0,
            cd > 0,
            an >= 0,
            bn >= 0,
            cn >= 0,
    ;
    assert(an * cd * bd < cn * ad * bd ==> an * cd < cn * ad) by (nonlinear_arith)
        requires
            bd > 0,
    ;
    assert(an * bd == bn * ad && bn * cd == cn * bd ==> an * cd == cn * ad) by (nonlinear_arith)
        requires
            ad > 0,
            bd > 0,
            cd > 0,
    ;
}

/// Two scores are related one way or the other: `a < b`, `a == b` or `b < a`.
pub proof fn lemma_trichotomy(a: Score, b: Score)
    ensures
        a.lt(b) || a.same(b) || b.lt(a),
{
}

/// Comparisons of fractions `an / ad`, `bn / bd`, `cn / cd` with positive
/// denominators chain: `<` then `<=`, `<=` then `<`, and `<=` then `<=`.
pub proof fn lemma_frac_trans(an: int, ad: int, bn: int, bd: int, cn: int, cd: int)
    requires
        ad > 0,
        bd > 0,
        cd > 0,
    ensures
        an * bd < bn * ad && bn * cd <= cn * bd ==> an * cd < cn * ad,
        an * bd <= bn * ad && bn * cd < cn * bd ==> an * cd < cn * ad,
        an * bd <= bn * ad && bn * cd <= cn * bd ==> an * cd <= cn * ad,
{
    assert(an * bd <= bn * ad && bn * cd <= cn * bd ==> an * bd * cd <= cn * ad * bd)
        by (nonlinear_arith)
        requires
            ad > 0,
            bd > 0,
            cd > 0,
    ;
    assert((an * bd < bn * ad && bn * cd <= cn * bd) || (an * bd <= bn * ad && bn * cd < cn * bd)
        ==> an * bd * cd < cn * ad * bd) by (nonlinear_arith)
        requires
            ad > 0,
            bd > 0,
            cd > 0,
    ;
    assert(an * bd * cd < cn * ad * bd ==> an * cd < cn * ad) by (nonlinear_arith)
        requires
            bd > 0,
    ;
    assert(an * bd * cd <= cn * ad * bd ==> an * cd <= cn * ad) by (nonlinear_arith)
        requires
            bd > 0,
    ;
}

} // verus!
