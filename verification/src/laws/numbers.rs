//! What holds of scores.

#[allow(unused_imports)]
use crate::score::{binary_width, nearest, Score};
#[allow(unused_imports)]
use vstd::arithmetic::power2::{lemma2_to64, lemma2_to64_rest, lemma_pow2_pos, pow2};
use vstd::prelude::*;

verus! {

/// How two scores compare, by their bits: what is not a number compares with nothing; what has no
/// sign orders as its bits do and what has one the other way round; the negative ones are below
/// the others, but for the two zeros, which are the same.
pub proof fn law_comparison(a: Score, b: Score, less: bool, more: bool, no_less: bool)
    requires
        call_ensures(Score::lt, (a, b), less),
        call_ensures(Score::gt, (a, b), more),
        call_ensures(Score::ge, (a, b), no_less),
    ensures
        ({
            let sign = 0x8000_0000_0000_0000u64;
            let odd = a.bits % sign > 0x7ff0_0000_0000_0000 || b.bits % sign
                > 0x7ff0_0000_0000_0000;
            &&& odd ==> !less && !more && !no_less
            &&& !odd ==> (no_less <==> !less)
            &&& !odd && a.bits < sign && b.bits < sign ==> (less <==> a.bits < b.bits) && (more
                <==> a.bits > b.bits)
            &&& !odd && a.bits >= sign && b.bits >= sign ==> (less <==> a.bits > b.bits) && (more
                <==> a.bits < b.bits)
            &&& !odd && a.bits >= sign && b.bits < sign ==> !more && (less <==> !(a.bits == sign
                && b.bits == 0))
            &&& !odd && a.bits < sign && b.bits >= sign ==> !less && (more <==> !(b.bits == sign
                && a.bits == 0))
        }),
{
}

/// What is below and at most in words of each other, for numbers: one of two is below the other or
/// both are at most the other.
pub proof fn law_numbers_are_ordered(a: Score, b: Score, c: Score)
    requires
        !a.nan() && !b.nan() && !c.nan(),
    ensures
        a.below(b) <==> !b.at_most(a),
        a.at_most(b) || b.at_most(a),
        a.at_most(b) && b.at_most(c) ==> a.at_most(c),
        a.below(b) && b.at_most(c) ==> a.below(c),
        a.at_most(a),
{
}

/// The total order places every pattern: those with a sign before those without, the former by
/// falling bits and the latter by rising ones.
pub proof fn law_total_order(a: Score, b: Score, above: bool)
    requires
        call_ensures(Score::above_in_order, (a, b), above),
    ensures
        ({
            let sign = 0x8000_0000_0000_0000u64;
            &&& a.bits < sign && b.bits < sign ==> (above <==> a.bits > b.bits)
            &&& a.bits >= sign && b.bits >= sign ==> (above <==> a.bits < b.bits)
            &&& a.bits < sign && b.bits >= sign ==> above
            &&& a.bits >= sign && b.bits < sign ==> !above
        }),
        above <==> a.total_key() > b.total_key(),
{
}

/// A score is held between zero and one: what is below zero becomes zero, what is above one
/// becomes one, and everything else stays.
pub proof fn law_clamp(s: Score, r: Score)
    requires
        call_ensures(Score::clamp_unit, (s,), r),
    ensures
        ({
            let sign = 0x8000_0000_0000_0000u64;
            let odd = s.bits % sign > 0x7ff0_0000_0000_0000;
            &&& odd ==> r == s
            &&& !odd && s.bits > sign ==> r.bits == 0
            &&& !odd && s.bits < sign && s.bits > 0x3ff0_0000_0000_0000 ==> r.bits
                == 0x3ff0_0000_0000_0000
            &&& s.bits <= 0x3ff0_0000_0000_0000 ==> r == s
            &&& s.bits == sign ==> r == s
        }),
{
}

/// A quotient is rounded to the nearest whole number: it is off by no more than a half, and even
/// where it is off by a half.
pub proof fn law_nearest(a: nat, b: nat)
    requires
        b > 0,
    ensures
        2 * (nearest(a, b) * b - a) <= b,
        2 * (a - nearest(a, b) * b) <= b,
        2 * (nearest(a, b) * b - a) == b || 2 * (a - nearest(a, b) * b) == b ==> nearest(a, b) % 2
            == 0,
{
    let q = a / b;
    let r = a % b;
    assert(a == q * b + r && 0 <= r < b) by (nonlinear_arith)
        requires
            b > 0,
            q == a / b,
            r == a % b,
    ;
    assert((q + 1) * b == q * b + b) by (nonlinear_arith);
    if 2 * r > b || (2 * r == b && q % 2 == 1) {
        assert(nearest(a, b) * b == q * b + b);
    }
}

/// One part in `n` is the double nearest to it: a whole number of parts of a power of two, off by
/// no more than half of one.
pub proof fn law_reciprocal(n: u64, r: Score) -> (parts: (nat, nat))
    requires
        call_ensures(Score::reciprocal, (n,), r),
        1 <= n,
    ensures
        ({
            let (k, q) = parts;
            &&& r.bits == (1022 - k) * 0x0010_0000_0000_0000 + q
            &&& 2 * (q * n - pow2(52 + k)) <= n
            &&& 2 * (pow2(52 + k) - q * n) <= n
            &&& k == binary_width((n - 1) as nat)
        }),
{
    let k = binary_width((n - 1) as nat);
    let q = nearest(pow2(52 + k), n as nat);
    law_nearest(pow2(52 + k), n as nat);
    (k, q)
}

/// The width of a number in binary: it lies between two powers of two.
pub proof fn law_binary_width(n: nat)
    ensures
        n < pow2(binary_width(n)),
        n > 0 ==> pow2((binary_width(n) - 1) as nat) <= n,
    decreases n,
{
    lemma2_to64();
    if n > 0 {
        law_binary_width(n / 2);
        let w = binary_width(n / 2);
        vstd::arithmetic::power2::lemma_pow2_unfold(w + 1);
        if n / 2 > 0 {
            vstd::arithmetic::power2::lemma_pow2_unfold(w);
        }
    }
}

/// A sum does not depend on which comes first.
pub proof fn law_sum_either_way(a: Score, b: Score)
    ensures
        Score::sum_bits(a, b) == Score::sum_bits(b, a),
{
    if a.bits == b.bits {
        assert(a == b);
    }
}

/// Twice a score is the score one step of the exponent up.
pub proof fn law_double(a: Score)
    requires
        a.positive(),
        a.bits + 0x0010_0000_0000_0000 < 0x7ff0_0000_0000_0000,
    ensures
        Score::sum_bits(a, a) == a.bits + 0x0010_0000_0000_0000,
{
    lemma2_to64();
    lemma2_to64_rest();
    let m = a.significand();
    assert(m * pow2(0) + m == 2 * m);
    assert(nearest(2 * m, pow2(1)) == m) by {
        assert((2 * m) / 2 == m && (2 * m) % 2 == 0);
    }
    assert(a.exponent() * 0x0010_0000_0000_0000 + a.bits % 0x0010_0000_0000_0000 == a.bits);
}

/// The whole part of a score: nothing of what is below zero or not a number, all that fits of what
/// is too large, and else the largest whole number that is not above it.
pub proof fn law_whole(s: Score, r: u64)
    requires
        call_ensures(Score::whole, (s,), r),
    ensures
        s.bits >= 0x8000_0000_0000_0000 || s.bits > 0x7ff0_0000_0000_0000 ==> r == 0,
        s.bits <= 0x7ff0_0000_0000_0000 && s.exponent() < 1075 ==> r * pow2(
            (1075 - s.exponent()) as nat,
        ) <= s.significand() < (r + 1) * pow2((1075 - s.exponent()) as nat),
        s.bits <= 0x7ff0_0000_0000_0000 && s.exponent() >= 1075 ==> r == if s.significand() * pow2(
            (s.exponent() - 1075) as nat,
        ) <= u64::MAX {
            s.significand() * pow2((s.exponent() - 1075) as nat)
        } else {
            u64::MAX as nat
        },
{
    if s.bits <= 0x7ff0_0000_0000_0000 && s.exponent() < 1075 {
        let p = pow2((1075 - s.exponent()) as nat);
        let m = s.significand();
        lemma_pow2_pos((1075 - s.exponent()) as nat);
        let q = m / p;
        assert(q * p <= m < (q + 1) * p) by (nonlinear_arith)
            requires
                q == m / p,
                p > 0,
        ;
        assert(s.truncated() == q);
        assert(r == q);
    }
}

} // verus!
