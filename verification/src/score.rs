//! Scores: double-precision numbers held by their IEEE 754 bit pattern.
//!
//! Model scores arrive as doubles and leave as doubles. In between they are compared, ordered,
//! clamped, cut to whole numbers and, in rank fusion, added up. All of that is integer
//! arithmetic on the 64 bits, stated here over the sign, the magnitude, the exponent field and
//! the significand.

use vstd::arithmetic::power2::{lemma2_to64, lemma2_to64_rest, lemma_pow2_adds, lemma_pow2_pos, lemma_pow2_strictly_increases, lemma_pow2_unfold, pow2};
use vstd::prelude::*;

verus! {

/// Two to the sixty-third: the sign bit.
pub const SIGN_BIT: u64 = 0x8000_0000_0000_0000;

/// Two to the fifty-second: one step of the exponent field.
pub const UNIT: u64 = 0x0010_0000_0000_0000;

/// The pattern of positive infinity.
pub const INFINITE: u64 = 0x7ff0_0000_0000_0000;

/// The pattern of `1.0`.
pub const ONE_BITS: u64 = 0x3ff0_0000_0000_0000;

/// The largest count that a double holds exactly along with every smaller one.
pub const EXACT_LIMIT: u64 = 0x0020_0000_0000_0000;

/// A double by its bit pattern.
#[derive(Debug, Clone, Copy, PartialEq, Eq, Structural)]
pub struct Score {
    pub bits: u64,
}

/// `a / b` to the nearest whole number, a tie going to the even one.
pub open spec fn nearest(a: nat, b: nat) -> nat {
    let q = a / b;
    let r = a % b;
    if 2 * r > b || (2 * r == b && q % 2 == 1) {
        q + 1
    } else {
        q
    }
}

/// The number of binary digits of `n`.
pub open spec fn binary_width(n: nat) -> nat
    decreases n,
{
    if n == 0 {
        0
    } else {
        1 + binary_width(n / 2)
    }
}

impl Score {
    /// Everything but the sign.
    pub open spec fn magnitude(self) -> int {
        self.bits as int % SIGN_BIT as int
    }

    pub open spec fn negative(self) -> bool {
        self.bits >= SIGN_BIT
    }

    pub open spec fn nan(self) -> bool {
        self.magnitude() > INFINITE
    }

    /// Neither infinite nor something that is not a number.
    pub open spec fn finite(self) -> bool {
        self.magnitude() < INFINITE
    }

    /// The pattern as a signed integer. On numbers it orders as the numbers do, with both zeros
    /// at zero.
    pub open spec fn signed(self) -> int {
        if self.negative() {
            -self.magnitude()
        } else {
            self.magnitude()
        }
    }

    /// `self < other` as doubles: false where either is not a number.
    pub open spec fn below(self, other: Score) -> bool {
        !self.nan() && !other.nan() && self.signed() < other.signed()
    }

    /// `self <= other` as doubles: false where either is not a number.
    pub open spec fn at_most(self, other: Score) -> bool {
        !self.nan() && !other.nan() && self.signed() <= other.signed()
    }

    /// The place of a pattern in the IEEE total order.
    pub open spec fn total_key(self) -> int {
        if self.negative() {
            -1 - self.magnitude()
        } else {
            self.magnitude()
        }
    }

    /// The exponent field of a pattern without sign.
    pub open spec fn exponent(self) -> nat {
        (self.bits / UNIT) as nat
    }

    /// The significand of a normal number, as a whole number.
    pub open spec fn significand(self) -> nat {
        (self.bits % UNIT + UNIT) as nat
    }

    /// A positive normal number or positive infinity.
    pub open spec fn positive(self) -> bool {
        UNIT <= self.bits <= INFINITE
    }

    /// What a cast to a 64-bit whole number gives: nothing for what is not a number or negative,
    /// the largest number for what does not fit, else what stands before the point.
    pub open spec fn truncated(self) -> nat {
        if self.negative() || self.nan() {
            0
        } else if self.exponent() >= 1075 {
            let n = self.significand() * pow2((self.exponent() - 1075) as nat);
            if n <= u64::MAX {
                n
            } else {
                u64::MAX as nat
            }
        } else {
            self.significand() / pow2((1075 - self.exponent()) as nat)
        }
    }

    /// `self` held between zero and one; what is not a number stays as it is.
    pub open spec fn unit_clamped(self) -> Score {
        if self.below(Score { bits: 0 }) {
            Score { bits: 0 }
        } else if (Score { bits: ONE_BITS }).below(self) {
            Score { bits: ONE_BITS }
        } else {
            self
        }
    }

    /// The double nearest to `1 / n`.
    pub open spec fn reciprocal_bits(n: nat) -> int {
        let k = binary_width((n - 1) as nat);
        (1022 - k) * UNIT + nearest(pow2(52 + k), n)
    }

    /// The double nearest to `n`.
    pub open spec fn count_bits(n: nat) -> int {
        if n == 0 {
            0
        } else {
            let w = binary_width(n);
            (1021 + w) * UNIT + nearest(n * pow2(53), pow2(w))
        }
    }

    /// The double nearest to the sum of two positive ones, infinite where it is too large.
    pub open spec fn sum_bits(a: Score, b: Score) -> int {
        let x = if a.bits >= b.bits {
            a
        } else {
            b
        };
        let y = if a.bits >= b.bits {
            b
        } else {
            a
        };
        if x.bits == INFINITE {
            INFINITE as int
        } else {
            let d = (x.exponent() - y.exponent()) as nat;
            let s = x.significand() * pow2(d) + y.significand();
            let sum = if s < pow2(53 + d) {
                (x.exponent() - 1) * UNIT + nearest(s, pow2(d))
            } else {
                x.exponent() * UNIT + nearest(s, pow2(d + 1))
            };
            if sum < INFINITE {
                sum
            } else {
                INFINITE as int
            }
        }
    }

    /// `self < other` as doubles.
    pub fn lt(self, other: Score) -> (r: bool)
        ensures
            r == self.below(other),
    {
        let a: u64 = self.bits % SIGN_BIT;
        let b: u64 = other.bits % SIGN_BIT;
        if a > INFINITE || b > INFINITE {
            return false;
        }
        if self.bits >= SIGN_BIT {
            if other.bits >= SIGN_BIT {
                b < a
            } else {
                a > 0 || b > 0
            }
        } else {
            other.bits < SIGN_BIT && a < b
        }
    }

    /// `self > other` as doubles.
    pub fn gt(self, other: Score) -> (r: bool)
        ensures
            r == other.below(self),
    {
        other.lt(self)
    }

    /// Whether the score is neither infinite nor something that is not a number.
    pub fn is_finite(self) -> (r: bool)
        ensures
            r == self.finite(),
    {
        self.bits % SIGN_BIT < INFINITE
    }

    /// `self >= other` as doubles.
    pub fn ge(self, other: Score) -> (r: bool)
        ensures
            r == other.at_most(self),
    {
        let a: u64 = self.bits % SIGN_BIT;
        let b: u64 = other.bits % SIGN_BIT;
        a <= INFINITE && b <= INFINITE && !self.lt(other)
    }

    /// Whether `self` stands after `other` in the IEEE total order.
    pub fn above_in_order(self, other: Score) -> (r: bool)
        ensures
            r == (self.total_key() > other.total_key()),
    {
        if self.bits >= SIGN_BIT {
            other.bits >= SIGN_BIT && self.bits < other.bits
        } else {
            other.bits >= SIGN_BIT || self.bits > other.bits
        }
    }

    /// `self` held between zero and one.
    pub fn clamp_unit(self) -> (r: Score)
        ensures
            r == self.unit_clamped(),
    {
        let zero = Score { bits: 0 };
        let one = Score { bits: ONE_BITS };
        if self.lt(zero) {
            zero
        } else if one.lt(self) {
            one
        } else {
            self
        }
    }

    /// `self` cast to a whole number.
    pub fn whole(self) -> (r: u64)
        ensures
            r == self.truncated(),
    {
        if self.bits >= SIGN_BIT || self.bits > INFINITE {
            return 0;
        }
        let e: u64 = self.bits / UNIT;
        let m: u64 = self.bits % UNIT + UNIT;
        if e >= 1075 {
            if e >= 1087 {
                proof {
                    let k = (e - 1075) as nat;
                    lemma2_to64();
                    if k > 12 {
                        lemma_pow2_strictly_increases(12, k);
                    }
                    assert(m * pow2(k) > u64::MAX) by (nonlinear_arith)
                        requires
                            m >= 0x10_0000_0000_0000,
                            pow2(k) >= 4096,
                    ;
                }
                return u64::MAX;
            }
            let p: u128 = two_to((e - 1075) as u32);
            proof {
                let k = (e - 1075) as nat;
                lemma2_to64();
                if k < 11 {
                    lemma_pow2_strictly_increases(k, 11);
                }
                assert(m * p <= u64::MAX) by (nonlinear_arith)
                    requires
                        m < 0x20_0000_0000_0000,
                        p <= 2048,
                ;
            }
            m * p as u64
        } else if e >= 1000 {
            let p: u128 = two_to((1075 - e) as u32);
            (m as u128 / p) as u64
        } else {
            proof {
                let k = (1075 - e) as nat;
                lemma2_to64();
                lemma_pow2_strictly_increases(64, k);
                assert(m as nat / pow2(k) == 0) by (nonlinear_arith)
                    requires
                        m < pow2(k),
                ;
            }
            0
        }
    }
}

/// What the number of binary digits says of `n`.
proof fn lemma_binary_width(n: nat)
    ensures
        n < pow2(binary_width(n)),
        n > 0 ==> binary_width(n) > 0 && pow2((binary_width(n) - 1) as nat) <= n,
    decreases n,
{
    lemma2_to64();
    if n > 0 {
        lemma_binary_width(n / 2);
        lemma_pow2_unfold(binary_width(n));
        if n / 2 > 0 {
            lemma_pow2_unfold((binary_width(n) - 1) as nat);
        }
    }
}

/// `a / b` to the nearest whole number, a tie going to the even one.
fn nearest_quotient(a: u128, b: u128) -> (r: u128)
    requires
        0 < b,
        b <= 0x4000_0000_0000_0000_0000_0000_0000_0000,
        a < 0x8000_0000_0000_0000_0000_0000_0000_0000,
    ensures
        r == nearest(a as nat, b as nat),
{
    let q: u128 = a / b;
    let r: u128 = a % b;
    assert(q <= a) by (nonlinear_arith)
        requires
            q == a / b,
            b > 0,
    ;
    if 2 * r > b || (2 * r == b && q % 2 == 1) {
        q + 1
    } else {
        q
    }
}

/// The quotient lies between two bounds that the division by `b` respects.
proof fn lemma_nearest_bounds(a: nat, b: nat, lo: nat, hi: nat)
    requires
        b > 0,
        lo * b <= a,
        a < hi * b,
    ensures
        lo <= nearest(a, b) <= hi,
{
    let q = a / b;
    assert(lo <= q && q < hi) by (nonlinear_arith)
        requires
            q == a / b,
            b > 0,
            lo * b <= a,
            a < hi * b,
    ;
}

impl Score {
    /// The double nearest to `1 / n`.
    pub fn reciprocal(n: u64) -> (r: Score)
        requires
            1 <= n <= EXACT_LIMIT,
        ensures
            r.bits == Score::reciprocal_bits(n as nat),
            r.positive(),
            r.bits <= ONE_BITS,
    {
        let mut k: u32 = 0;
        let mut m: u64 = n - 1;
        proof {
            lemma2_to64();
            lemma2_to64_rest();
        }
        while m > 0
            invariant
                m <= EXACT_LIMIT,
                k + binary_width(m as nat) == binary_width((n - 1) as nat),
                k <= 64,
                m as nat * pow2(k as nat) <= n - 1,
                n <= EXACT_LIMIT,
            decreases m,
        {
            proof {
                lemma_pow2_unfold((k + 1) as nat);
                let h = m as nat / 2;
                let p = pow2(k as nat);
                assert(h * (2 * p) <= m as nat * p) by (nonlinear_arith)
                    requires
                        h == m as nat / 2,
                ;
                lemma_pow2_pos(k as nat);
                assert(p <= n - 1) by (nonlinear_arith)
                    requires
                        m as nat * p <= n - 1,
                        m >= 1,
                ;
                lemma2_to64();
                if k >= 64 {
                    if k > 64 {
                        lemma_pow2_strictly_increases(64, k as nat);
                    }
                }
            }
            m = m / 2;
            k = k + 1;
        }
        proof {
            lemma_binary_width((n - 1) as nat);
            assert(k == binary_width((n - 1) as nat));
            lemma_reciprocal(n as nat);
            lemma_two_to_127();
            lemma_pow2_strictly_increases((52 + k) as nat, 127);
        }
        let p: u128 = two_to(52 + k);
        let q: u64 = nearest_quotient(p, n as u128) as u64;
        Score { bits: (1022 - k as u64) * UNIT + q }
    }

    /// The double nearest to `n`.
    pub fn of_count(n: u64) -> (r: Score)
        ensures
            r.bits == Score::count_bits(n as nat),
            r.bits < INFINITE,
    {
        if n == 0 {
            return Score { bits: 0 };
        }
        let mut w: u32 = 0;
        let mut m: u64 = n;
        proof {
            lemma_count(n as nat);
        }
        while m > 0
            invariant
                w + binary_width(m as nat) == binary_width(n as nat),
                binary_width(n as nat) <= 64,
            decreases m,
        {
            m = m / 2;
            w = w + 1;
        }
        let p: u128 = two_to(w);
        proof {
            lemma2_to64_rest();
            lemma_two_to_127();
            lemma_pow2_strictly_increases(w as nat, 126);
            lemma_pow2_adds(63, 63);
            assert(n as u128 * 0x20_0000_0000_0000 <= 0xffff_ffff_ffff_ffff * 0x20_0000_0000_0000)
                by (nonlinear_arith)
                requires
                    n <= 0xffff_ffff_ffff_ffff,
            ;
        }
        let q: u64 = nearest_quotient(n as u128 * 0x20_0000_0000_0000, p) as u64;
        Score { bits: (1021 + w as u64) * UNIT + q }
    }

    /// The sum of two positive scores.
    pub fn plus(self, other: Score) -> (r: Score)
        requires
            self.positive(),
            other.positive(),
        ensures
            r.bits == Score::sum_bits(self, other),
            r.positive(),
            r.bits >= self.bits,
            r.bits >= other.bits,
    {
        let x = if self.bits >= other.bits {
            self
        } else {
            other
        };
        let y = if self.bits >= other.bits {
            other
        } else {
            self
        };
        if x.bits == INFINITE {
            return x;
        }
        let ex: u64 = x.bits / UNIT;
        let ey: u64 = y.bits / UNIT;
        let mx: u64 = x.bits % UNIT + UNIT;
        let my: u64 = y.bits % UNIT + UNIT;
        let d: u64 = ex - ey;
        proof {
            lemma_sum_terms(mx as nat, my as nat, d as nat);
        }
        if d >= 55 {
            return x;
        }
        let p: u128 = two_to(d as u32);
        proof {
            lemma2_to64();
            lemma2_to64_rest();
            lemma_pow2_strictly_increases(d as nat, 55);
            lemma_pow2_adds(53, d as nat);
            lemma_pow2_unfold((d + 1) as nat);
            assert(mx as nat * p <= 0x20_0000_0000_0000 * 0x80_0000_0000_0000) by (nonlinear_arith)
                requires
                    mx < 0x20_0000_0000_0000,
                    p <= 0x80_0000_0000_0000,
            ;
        }
        let s: u128 = mx as u128 * p + my as u128;
        let limit: u128 = two_to(53 + d as u32);
        let bits: u64 = if s < limit {
            (ex - 1) * UNIT + nearest_quotient(s, p) as u64
        } else {
            ex * UNIT + nearest_quotient(s, p * 2) as u64
        };
        if bits < INFINITE {
            Score { bits }
        } else {
            Score { bits: INFINITE }
        }
    }
}

/// Where the significand of `n` lies.
proof fn lemma_count(n: nat)
    requires
        1 <= n <= u64::MAX,
    ensures
        1 <= binary_width(n) <= 64,
        pow2(53) == 0x20_0000_0000_0000,
        UNIT <= nearest(n * pow2(53), pow2(binary_width(n))) <= 2 * UNIT,
{
    let w = binary_width(n);
    lemma_binary_width(n);
    lemma2_to64();
    lemma2_to64_rest();
    if w > 64 {
        lemma_pow2_strictly_increases(63, (w - 1) as nat);
        if w > 65 {
            lemma_pow2_strictly_increases(64, (w - 1) as nat);
        }
    }
    let p = pow2(w);
    let a = n * pow2(53);
    lemma_pow2_unfold(w);
    assert(UNIT * p <= a) by (nonlinear_arith)
        requires
            a == n * pow2(53),
            pow2(53) == 2 * UNIT,
            p <= 2 * n,
    ;
    assert(a < 2 * UNIT * p) by (nonlinear_arith)
        requires
            a == n * pow2(53),
            pow2(53) == 2 * UNIT,
            n < p,
    ;
    lemma_nearest_bounds(a, p, UNIT as nat, (2 * UNIT) as nat);
}

/// Where the significand of `1 / n` lies.
proof fn lemma_reciprocal(n: nat)
    requires
        1 <= n <= EXACT_LIMIT,
    ensures
        binary_width((n - 1) as nat) <= 53,
        UNIT <= nearest(pow2(52 + binary_width((n - 1) as nat)), n) <= 2 * UNIT,
        UNIT <= Score::reciprocal_bits(n) <= ONE_BITS,
{
    let k = binary_width((n - 1) as nat);
    lemma_binary_width((n - 1) as nat);
    lemma2_to64();
    lemma2_to64_rest();
    if k > 53 {
        lemma_pow2_strictly_increases(53, k);
        if k > 54 {
            lemma_pow2_strictly_increases(53, (k - 1) as nat);
        }
    }
    assert(k <= 53);
    let p = pow2(52 + k);
    let pk = pow2(k);
    lemma_pow2_adds(52, k);
    if k > 0 {
        lemma_pow2_unfold(k);
    }
    assert(pow2(52) * n <= p) by (nonlinear_arith)
        requires
            p == pow2(52) * pk,
            n <= pk,
    ;
    assert(p < pow2(53) * n) by (nonlinear_arith)
        requires
            p == pow2(52) * pk,
            pow2(53) == 2 * pow2(52),
            pow2(52) > 0,
            pk < 2 * n,
    ;
    lemma_nearest_bounds(p, n, pow2(52), pow2(53));
    if k == 0 {
        assert(n == 1);
        assert(nearest(p, 1) == p) by (nonlinear_arith)
            requires
                p >= 0,
        ;
    }
}

/// The larger the divisor, the smaller the quotient, rounding aside or not.
proof fn lemma_nearest_decreases(a: nat, b: nat, c: nat)
    requires
        0 < b <= c,
    ensures
        nearest(a, b) >= nearest(a, c),
{
    let q = a / b;
    let t = a / c;
    assert(q >= t) by (nonlinear_arith)
        requires
            q == a / b,
            t == a / c,
            0 < b <= c,
    ;
    if q == t {
        assert(a % b >= a % c) by (nonlinear_arith)
            requires
                a / b == a / c,
                0 < b <= c,
        ;
    }
}

/// The width of a number does not shrink as the number grows.
proof fn lemma_width_grows(m: nat, n: nat)
    requires
        m <= n,
    ensures
        binary_width(m) <= binary_width(n),
    decreases n,
{
    if m > 0 {
        lemma_width_grows(m / 2, n / 2);
    }
}

/// One part in fewer is not less.
pub proof fn law_reciprocal_decreases(m: nat, n: nat)
    requires
        1 <= m <= n <= EXACT_LIMIT,
    ensures
        Score::reciprocal_bits(m) >= Score::reciprocal_bits(n),
        UNIT <= Score::reciprocal_bits(n),
        Score::reciprocal_bits(m) <= ONE_BITS,
{
    lemma_reciprocal(m);
    lemma_reciprocal(n);
    lemma_width_grows((m - 1) as nat, (n - 1) as nat);
    let j = binary_width((m - 1) as nat);
    let k = binary_width((n - 1) as nat);
    if j == k {
        lemma_nearest_decreases(pow2(52 + k), m, n);
    }
}

/// The largest number for which one part in it is known to be told apart from one part in any
/// other.
pub const TOLD_APART: u64 = 0x0400_0000;

/// Two quotients that are two apart stay apart when rounded.
proof fn lemma_nearest_apart(a: nat, b: nat, c: nat)
    requires
        0 < b,
        0 < c,
        a / b >= a / c + 2,
    ensures
        nearest(a, b) > nearest(a, c),
{
}

/// One part in fewer is more, as far as doubles tell them apart.
pub proof fn law_reciprocal_strictly_decreases(m: nat, n: nat)
    requires
        1 <= m < n <= TOLD_APART,
    ensures
        Score::reciprocal_bits(m) > Score::reciprocal_bits(n),
{
    lemma_reciprocal(m);
    lemma_reciprocal(n);
    lemma_width_grows((m - 1) as nat, (n - 1) as nat);
    lemma2_to64();
    lemma2_to64_rest();
    let j = binary_width((m - 1) as nat);
    let k = binary_width((n - 1) as nat);
    let p = pow2(52 + k);
    let pk = pow2(k);
    lemma_binary_width((n - 1) as nat);
    lemma_pow2_adds(52, k);
    lemma_pow2_unfold(k);
    let half = pow2((k - 1) as nat);
    if j == k {
        let q = p / m;
        let t = p / n;
        assert(q >= t + 2) by (nonlinear_arith)
            requires
                q == p / m,
                t == p / n,
                1 <= m < n <= 0x0400_0000,
                p == 0x10_0000_0000_0000 * pk,
                n <= pk,
        {
            assert(p == n * t + p % n);
            assert(n * t <= p);
            assert(m * (t + 2) <= (n - 1) * (t + 2));
            assert((n - 1) * (t + 2) == n * t + 2 * n - t - 2);
            assert(t * n > p - n);
            assert(p >= 0x10_0000_0000_0000 * n);
            assert(t >= 0x10_0000_0000_0000 - 1);
            assert(m * (t + 2) <= p);
            assert(p / m >= t + 2);
        }
        lemma_nearest_apart(p, m, n);
    } else {
        assert(nearest(p, n) < 2 * UNIT) by {
            let t = p / n;
            assert(t <= 0x20_0000_0000_0000 - 2) by (nonlinear_arith)
                requires
                    t == p / n,
                    p == 0x10_0000_0000_0000 * pk,
                    pk == 2 * half,
                    half <= n - 1,
                    1 <= n <= 0x0400_0000,
            {
                assert(p <= 0x20_0000_0000_0000 * (n - 1));
                assert(p < (0x20_0000_0000_0000 - 1) * n);
            }
        }
        assert((1022 - j) * UNIT >= (1022 - k) * UNIT + UNIT) by (nonlinear_arith)
            requires
                j < k,
        ;
    }
}

/// A count that a double holds exactly is read back from it.
pub proof fn law_count_reads_back(n: nat)
    requires
        n <= EXACT_LIMIT,
    ensures
        (Score { bits: Score::count_bits(n) as u64 }).truncated() == n,
{
    lemma2_to64();
    lemma2_to64_rest();
    let s = Score { bits: Score::count_bits(n) as u64 };
    if n == 0 {
        lemma_pow2_pos(1075);
        lemma_pow2_strictly_increases(53, 1075);
        assert(s.significand() / pow2(1075) == 0) by (nonlinear_arith)
            requires
                s.significand() < pow2(1075),
        ;
    } else {
        let w = binary_width(n);
        lemma_count(n);
        lemma_binary_width(n);
        if w > 54 {
            lemma_pow2_strictly_increases(53, (w - 1) as nat);
        }
        lemma_pow2_pos(w);
        if w <= 53 {
            let d = (53 - w) as nat;
            let m = n * pow2(d);
            lemma_pow2_adds(w, d);
            lemma_pow2_pos(d);
            assert(n * pow2(53) == m * pow2(w) + 0) by (nonlinear_arith)
                requires
                    pow2(53) == pow2(w) * pow2(d),
                    m == n * pow2(d),
            ;
            lemma_exact_quotient(m, pow2(w));
            assert(m < 2 * UNIT) by (nonlinear_arith)
                requires
                    m == n * pow2(d),
                    n < pow2(w),
                    pow2(53) == pow2(w) * pow2(d),
                    pow2(53) == 2 * UNIT,
                    pow2(d) > 0,
            ;
            assert(s.bits == (1021 + w) * UNIT + m);
            assert(s.exponent() == 1022 + w);
            assert(s.significand() == m);
            if w < 53 {
                lemma_exact_quotient(n, pow2(d));
            } else {
                assert(pow2(0) == 1);
                assert(m == n) by (nonlinear_arith)
                    requires
                        m == n * pow2(d),
                        pow2(d) == 1,
                ;
                assert(m * 1 == m);
            }
        } else {
            assert(n == EXACT_LIMIT);
            assert(pow2(54) == 2 * EXACT_LIMIT);
            assert(EXACT_LIMIT * EXACT_LIMIT == UNIT * (2 * EXACT_LIMIT)) by (nonlinear_arith);
            lemma_exact_quotient(UNIT as nat, pow2(54));
            assert(s.bits == 1075 * UNIT + UNIT);
            assert(s.exponent() == 1076);
            assert(s.significand() == UNIT);
        }
    }
}

/// A multiple is divided exactly.
proof fn lemma_exact_quotient(q: nat, b: nat)
    requires
        b > 0,
    ensures
        nearest(q * b, b) == q,
        (q * b) / b == q,
{
    assert((q * b) / b == q && (q * b) % b == 0) by (nonlinear_arith)
        requires
            b > 0,
    ;
}

/// A sum of positive scores is a positive score, and is not below either of them.
pub proof fn law_sum_not_below(a: Score, b: Score)
    requires
        a.positive(),
        b.positive(),
    ensures
        UNIT <= Score::sum_bits(a, b) <= INFINITE,
        Score::sum_bits(a, b) >= a.bits,
        Score::sum_bits(a, b) >= b.bits,
{
    let x = if a.bits >= b.bits {
        a
    } else {
        b
    };
    let y = if a.bits >= b.bits {
        b
    } else {
        a
    };
    if x.bits != INFINITE {
        lemma_sum_terms(
            x.significand(),
            y.significand(),
            (x.exponent() - y.exponent()) as nat,
        );
    }
}

/// Where the sum of two aligned significands lies, and what it rounds to.
proof fn lemma_sum_terms(mx: nat, my: nat, d: nat)
    requires
        UNIT <= mx < 2 * UNIT,
        UNIT <= my < 2 * UNIT,
        d > 0 || my <= mx,
    ensures
        ({
            let s = mx * pow2(d) + my;
            &&& s < pow2(53 + d) ==> mx <= nearest(s, pow2(d)) <= 2 * UNIT
            &&& s >= pow2(53 + d) ==> UNIT <= nearest(s, pow2(d + 1)) <= 2 * UNIT
            &&& d >= 55 ==> s < pow2(53 + d) && nearest(s, pow2(d)) == mx
        }),
{
    let p = pow2(d);
    let s = mx * p + my;
    lemma2_to64();
    lemma2_to64_rest();
    lemma_pow2_pos(d);
    lemma_pow2_adds(53, d);
    lemma_pow2_unfold(d + 1);
    assert(my < 2 * UNIT * p) by (nonlinear_arith)
        requires
            my < 2 * UNIT,
            p >= 1,
    ;
    assert(s < 2 * UNIT * (2 * p)) by (nonlinear_arith)
        requires
            s == mx * p + my,
            mx < 2 * UNIT,
            my < 2 * UNIT * p,
    ;
    if s < pow2(53 + d) {
        lemma_nearest_bounds(s, p, mx, (2 * UNIT) as nat);
    } else {
        assert(UNIT * (2 * p) == 2 * UNIT * p) by (nonlinear_arith);
        lemma_nearest_bounds(s, pow2(d + 1), UNIT as nat, (2 * UNIT) as nat);
    }
    if d >= 55 {
        if d > 55 {
            lemma_pow2_strictly_increases(55, d);
        }
        assert(s < 2 * UNIT * p) by (nonlinear_arith)
            requires
                s == mx * p + my,
                mx + 1 <= 2 * UNIT,
                my < p,
        ;
        assert(s / p == mx && s % p == my) by (nonlinear_arith)
            requires
                s == mx * p + my,
                my < p,
        ;
    }
}

/// Two to the `k`.
fn two_to(k: u32) -> (r: u128)
    requires
        k < 128,
    ensures
        r == pow2(k as nat),
        r > 0,
{
    let mut p: u128 = 1;
    let mut i: u32 = 0;
    proof {
        lemma2_to64();
    }
    while i < k
        invariant
            i <= k < 128,
            p == pow2(i as nat),
            p > 0,
        decreases k - i,
    {
        proof {
            lemma_pow2_unfold((i + 1) as nat);
            lemma_two_to_127();
            if i < 126 {
                lemma_pow2_strictly_increases((i + 1) as nat, 127);
            }
        }
        p = p * 2;
        i = i + 1;
    }
    p
}

proof fn lemma_two_to_127()
    ensures
        pow2(127) == 0x8000_0000_0000_0000_0000_0000_0000_0000,
{
    lemma2_to64();
    lemma2_to64_rest();
    lemma_pow2_adds(63, 64);
    assert(0x8000_0000_0000_0000 * 0x1_0000_0000_0000_0000
        == 0x8000_0000_0000_0000_0000_0000_0000_0000) by (nonlinear_arith);
}

} // verus!
