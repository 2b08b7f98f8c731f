//! Arithmetic as doubles do it, in whole numbers.
//!
//! Sizes, times and shares are worked out in double precision.  A double has
//! 53 significant bits; every operation yields the double nearest to the
//! exact result, and of two that are equally near the even one.

use vstd::arithmetic::power2::{
    lemma2_to64, lemma2_to64_rest, lemma_pow2_adds, lemma_pow2_pos, lemma_pow2_strictly_increases,
    lemma_pow2_unfold, pow2,
};
use vstd::prelude::*;

verus! {

/// Two to the power of 52: the least mantissa.
pub const LEAST_MANTISSA: u128 = 4_503_599_627_370_496;

/// `n / d`, rounded to the nearest whole number; halves go to the even one.
pub open spec fn rounded(n: int, d: int) -> int {
    let (q, r) = (n / d, n % d);
    if 2 * r < d {
        q
    } else if 2 * r > d {
        q + 1
    } else {
        q + q % 2
    }
}

/// Two to the power of `e`, and 1 below zero.
pub open spec fn grown(e: int) -> int {
    if e > 0 {
        pow2(e as nat) as int
    } else {
        1
    }
}

/// Whether `n / d` is at least two to the power of `j`.
pub open spec fn reaches(n: int, d: int, j: int) -> bool {
    n * grown(-j) >= d * grown(j)
}

/// Whether the doubles around `n / d` are the multiples of two to the power
/// of `k`: with 53 significant bits, those from 2^(k + 52) to 2^(k + 53).
pub open spec fn spaced_by(n: int, d: int, k: int) -> bool {
    reaches(n, d, k + 52) && !reaches(n, d, k + 53)
}

/// A double that is not negative: `mantissa` times two to the power of
/// `exponent`.
#[verifier::ext_equal]
pub struct DoubleView {
    pub mantissa: int,
    pub exponent: int,
}

/// Nothing, as a double.
pub open spec fn zero() -> DoubleView {
    DoubleView { mantissa: 0, exponent: 0 }
}

/// The double nearest to `n / d` times two to the power of `e`.
pub open spec fn nearest(n: int, d: int, e: int) -> DoubleView {
    if n == 0 {
        zero()
    } else {
        let k = choose|k: int| spaced_by(n, d, k);
        DoubleView { mantissa: rounded(n * grown(-k), d * grown(k)), exponent: k + e }
    }
}

/// A count as a double.
pub open spec fn count(n: int) -> DoubleView {
    nearest(n, 1, 0)
}

impl DoubleView {
    /// The quotient of two doubles.
    pub open spec fn over(self, other: DoubleView) -> DoubleView {
        nearest(self.mantissa, other.mantissa, self.exponent - other.exponent)
    }

    /// The product of two doubles.
    pub open spec fn times(self, other: DoubleView) -> DoubleView {
        nearest(self.mantissa * other.mantissa, 1, self.exponent + other.exponent)
    }

    /// The sum of two doubles.
    pub open spec fn plus(self, other: DoubleView) -> DoubleView {
        let e = if self.exponent < other.exponent {
            self.exponent
        } else {
            other.exponent
        };
        nearest(
            self.mantissa * grown(self.exponent - e) + other.mantissa * grown(other.exponent - e),
            1,
            e,
        )
    }

    /// Whether the double is less than the whole number `c`.
    pub open spec fn below(self, c: int) -> bool {
        self.mantissa * grown(self.exponent) < c * grown(-self.exponent)
    }

    /// Whether the double is more than the whole number `c`.
    pub open spec fn above(self, c: int) -> bool {
        self.mantissa * grown(self.exponent) > c * grown(-self.exponent)
    }

    /// The double without its fraction.
    pub open spec fn floor(self) -> int {
        self.mantissa * grown(self.exponent) / grown(-self.exponent)
    }

    /// The double times `scale`, rounded to the nearest whole number.
    pub open spec fn scaled(self, scale: int) -> int {
        rounded(self.mantissa * scale * grown(self.exponent), grown(-self.exponent))
    }
}

proof fn lemma_grown_pos(e: int)
    ensures
        grown(e) >= 1,
{
    if e > 0 {
        lemma_pow2_pos(e as nat);
    }
}

/// `n / d` reaches a power of two exactly if, over another power, it reaches
/// the quotient of the two.
proof fn lemma_reaches_over(n: int, d: int, k: int, s: int)
    requires
        d > 0,
        n >= 0,
        s >= 0,
    ensures
        reaches(n, d, k + s) <==> n * grown(-k) >= pow2(s as nat) * (d * grown(k)),
{
    let p = pow2(s as nat) as int;
    lemma_pow2_pos(s as nat);
    lemma_grown_pos(k);
    lemma_grown_pos(-k);
    lemma2_to64();
    if k >= 0 {
        lemma_pow2_adds(k as nat, s as nat);
        let g = grown(k);
        assert(pow2((k + s) as nat) == g * p) by {
            if k == 0 {
                assert(g == 1);
            }
        }
        assert(grown(k + s) == g * p) by {
            if k + s == 0 {
                assert(p == 1);
            }
        }
        assert(d * (g * p) == p * (d * g)) by (nonlinear_arith);
    } else if k + s >= 0 {
        let a = pow2((k + s) as nat) as int;
        let b = pow2((-k) as nat) as int;
        lemma_pow2_adds((k + s) as nat, (-k) as nat);
        lemma_pow2_pos((k + s) as nat);
        assert(p == a * b);
        assert(grown(k + s) == a) by {
            if k + s == 0 {
                assert(a == 1);
            }
        }
        assert(grown(-(k + s)) == 1);
        assert(n * b >= (a * b) * (d * 1) <==> n * 1 >= d * a) by (nonlinear_arith)
            requires
                b > 0,
        ;
    } else {
        let a = pow2((-k - s) as nat) as int;
        lemma_pow2_adds((-k - s) as nat, s as nat);
        lemma_pow2_pos((-k - s) as nat);
        assert(grown(-k) == a * p);
        assert(grown(-(k + s)) == a);
        assert(n * (a * p) >= p * (d * 1) <==> n * a >= d * 1) by (nonlinear_arith)
            requires
                p > 0,
        ;
    }
}

proof fn lemma_reaches_less(n: int, d: int, i: int, j: int)
    requires
        d > 0,
        n >= 0,
        i <= j,
        reaches(n, d, j),
    ensures
        reaches(n, d, i),
{
    lemma_reaches_over(n, d, i, j - i);
    lemma_pow2_pos((j - i) as nat);
    lemma_grown_pos(i);
    let p = pow2((j - i) as nat) as int;
    assert(p * (d * grown(i)) >= d * grown(i)) by (nonlinear_arith)
        requires
            p >= 1,
            d > 0,
            grown(i) >= 1,
    ;
}

proof fn lemma_pow2_exceeds(n: nat)
    ensures
        pow2(n) > n,
    decreases n,
{
    lemma2_to64();
    if n > 0 {
        lemma_pow2_exceeds((n - 1) as nat);
        lemma_pow2_unfold(n);
    }
}

proof fn lemma_last_reached(n: int, d: int, low: int, high: int)
    requires
        low < high,
        reaches(n, d, low),
        !reaches(n, d, high),
    ensures
        exists|k: int| spaced_by(n, d, k),
    decreases high - low,
{
    if reaches(n, d, low + 1) {
        lemma_last_reached(n, d, low + 1, high);
    } else {
        assert(spaced_by(n, d, low - 52));
    }
}

/// There is one spacing of the doubles around a number.
proof fn lemma_spacing(n: int, d: int, k: int)
    requires
        n > 0,
        d > 0,
    ensures
        exists|k: int| spaced_by(n, d, k),
        spaced_by(n, d, k) ==> k == choose|k: int| spaced_by(n, d, k),
        spaced_by(n, d, choose|k: int| spaced_by(n, d, k)),
{
    lemma_pow2_exceeds(n as nat);
    lemma_pow2_exceeds(d as nat);
    assert(reaches(n, d, -d)) by {
        assert(n * grown(d) >= d) by (nonlinear_arith)
            requires
                n > 0,
                grown(d) > d,
                d > 0,
        ;
    }
    assert(!reaches(n, d, n)) by {
        assert(d * grown(n) > n) by (nonlinear_arith)
            requires
                n > 0,
                grown(n) > n,
                d > 0,
        ;
    }
    lemma_last_reached(n, d, -d, n);
    let other = choose|k: int| spaced_by(n, d, k);
    if spaced_by(n, d, k) && k != other {
        if k < other {
            lemma_reaches_less(n, d, k + 53, other + 52);
        } else {
            lemma_reaches_less(n, d, other + 53, k + 52);
        }
    }
}

/// `n / d` rounded; see [`rounded`].
pub(crate) fn divide_rounded(n: u128, d: u128) -> (q: u128)
    requires
        0 < d <= u128::MAX / 4,
        n <= u128::MAX / 4,
    ensures
        q == rounded(n as int, d as int),
        q <= n,
{
    let q: u128 = n / d;
    let r: u128 = n % d;
    proof {
        vstd::arithmetic::div_mod::lemma_fundamental_div_mod(n as int, d as int);
        assert(d * q >= q) by (nonlinear_arith)
            requires
                d > 0,
                q >= 0,
        ;
        assert(r > 0 ==> q + 1 <= n) by (nonlinear_arith)
            requires
                n == d * q + r,
                d > 0,
                q >= 0,
                r >= 0,
        ;
        assert(q <= n) by (nonlinear_arith)
            requires
                n == d * q + r,
                d > 0,
                q >= 0,
                r >= 0,
        ;
    }
    if 2 * r < d {
        q
    } else if 2 * r > d {
        q + 1
    } else {
        q + q % 2
    }
}

/// What a quotient rounds to lies between the bounds that the quotient has.
proof fn lemma_rounded_between(n: int, d: int, low: int, high: int)
    requires
        d > 0,
        low * d <= n,
        n <= high * d,
    ensures
        low <= rounded(n, d) <= high,
{
    vstd::arithmetic::div_mod::lemma_fundamental_div_mod(n, d);
    let (q, r) = (n / d, n % d);
    assert(low <= q) by (nonlinear_arith)
        requires
            low * d <= n,
            n == d * q + r,
            r < d,
            d > 0,
    ;
    assert(q <= high) by (nonlinear_arith)
        requires
            n <= high * d,
            n == d * q + r,
            r >= 0,
            d > 0,
    ;
    assert(q == high ==> r == 0) by (nonlinear_arith)
        requires
            n <= high * d,
            n == d * q + r,
            r >= 0,
            d > 0,
    ;
}

/// A double that is not negative.
#[derive(Debug, Clone, Copy)]
pub struct Double {
    pub mantissa: u64,
    pub exponent: i32,
}

impl View for Double {
    type V = DoubleView;

    open spec fn view(&self) -> DoubleView {
        DoubleView { mantissa: self.mantissa as int, exponent: self.exponent as int }
    }
}

/// The double nearest to `n / d` times two to the power of `e`.
fn nearest_to(n: u128, d: u128, e: i32) -> (double: Double)
    requires
        n < 0x100_0000_0000_0000_0000_0000_0000_0000,
        0 < d < 0x1_0000_0000_0000_0000,
        -10_000 <= e <= 10_000,
    ensures
        double@ == nearest(n as int, d as int, e as int),
        n == 0 <==> double.mantissa == 0,
        n > 0 ==> {
            &&& LEAST_MANTISSA <= double.mantissa <= 2 * LEAST_MANTISSA
            &&& spaced_by(n as int, d as int, double.exponent - e)
            &&& -200 <= double.exponent - e <= 200
        },
{
    if n == 0 {
        return Double { mantissa: 0, exponent: 0 };
    }
    let mut a: u128 = n;
    let mut b: u128 = d;
    let mut k: i32 = 0;
    proof {
        lemma2_to64();
        lemma2_to64_rest();
        lemma_pow2_adds(60, 60);
    }
    while a < LEAST_MANTISSA * b
        invariant
            0 < d < 0x1_0000_0000_0000_0000,
            b == d,
            0 < a < 0x100_0000_0000_0000_0000_0000_0000_0000,
            -120 <= k <= 0,
            n > 0,
            a == n * grown(-k),
            k < 0 ==> a < 2 * (LEAST_MANTISSA * b),
            pow2(120) == 0x100_0000_0000_0000_0000_0000_0000_0000,
            pow2(0) == 1,
        decreases 2 * (LEAST_MANTISSA * b) - a,
    {
        proof {
            let g = grown(-k);
            lemma_pow2_unfold((1 - k) as nat);
            assert(grown(1 - k) == 2 * g);
            assert(n * (2 * g) == 2 * (n * g)) by (nonlinear_arith);
            assert(grown(1 - k) <= 2 * a) by (nonlinear_arith)
                requires
                    2 * a == n * grown(1 - k),
                    n >= 1,
                    grown(1 - k) >= 0,
            ;
            if k == -120 {
                lemma_pow2_strictly_increases(120, 121);
            }
        }
        a = 2 * a;
        k = k - 1;
    }
    while a >= 2 * (LEAST_MANTISSA * b)
        invariant
            0 < d < 0x1_0000_0000_0000_0000,
            0 < a < 0x100_0000_0000_0000_0000_0000_0000_0000,
            b > 0,
            LEAST_MANTISSA * b <= a,
            -120 <= k <= 120,
            a == n * grown(-k),
            b == d * grown(k as int),
            k < 0 ==> a < 2 * (LEAST_MANTISSA * b),
            pow2(120) == 0x100_0000_0000_0000_0000_0000_0000_0000,
            pow2(0) == 1,
        decreases a - b,
    {
        proof {
            let g = grown(k as int);
            lemma_pow2_unfold((k + 1) as nat);
            assert(grown(k + 1) == 2 * g);
            assert(d * (2 * g) == 2 * (d * g)) by (nonlinear_arith);
            assert(grown(k + 1) <= 2 * b) by (nonlinear_arith)
                requires
                    2 * b == d * grown(k + 1),
                    d >= 1,
                    grown(k + 1) >= 0,
            ;
            if k == 120 {
                lemma_pow2_strictly_increases(120, 121);
            }
        }
        b = 2 * b;
        k = k + 1;
    }
    let m: u128 = divide_rounded(a, b);
    proof {
        lemma2_to64_rest();
        lemma_reaches_over(n as int, d as int, k as int, 52);
        lemma_reaches_over(n as int, d as int, k as int, 53);
        assert(a == n * grown(-k as int) && b == d * grown(k as int));
        assert(a >= pow2(52) * b && a < pow2(53) * b) by (nonlinear_arith)
            requires
                pow2(52) == LEAST_MANTISSA,
                pow2(53) == 2 * LEAST_MANTISSA,
                a >= LEAST_MANTISSA * b,
                a < 2 * (LEAST_MANTISSA * b),
        ;
        lemma_spacing(n as int, d as int, k as int);
        assert(a <= (2 * LEAST_MANTISSA) * b) by (nonlinear_arith)
            requires
                a < 2 * (LEAST_MANTISSA * b),
        ;
        lemma_rounded_between(
            a as int,
            b as int,
            LEAST_MANTISSA as int,
            2 * LEAST_MANTISSA as int,
        );
    }
    let double = Double { mantissa: m as u64, exponent: k + e };
    proof {
        let spacing = choose|k: int| spaced_by(n as int, d as int, k);
        assert(spaced_by(n as int, d as int, k as int));
        assert(spacing == k);
        assert(m == rounded(n * grown(-spacing), d * grown(spacing)));
        assert(double@ =~= nearest(n as int, d as int, e as int));
    }
    double
}

proof fn lemma_spacing_below(n: int, d: int, k: int, j: int)
    requires
        n > 0,
        d > 0,
        spaced_by(n, d, k),
        !reaches(n, d, j),
    ensures
        k + 52 < j,
{
    if k + 52 >= j {
        lemma_reaches_less(n, d, j, k + 52);
    }
}

proof fn lemma_spacing_from(n: int, d: int, k: int, j: int)
    requires
        n > 0,
        d > 0,
        spaced_by(n, d, k),
        reaches(n, d, j),
    ensures
        k + 53 > j,
{
    if k + 53 <= j {
        lemma_reaches_less(n, d, k + 53, j);
    }
}

/// The spacing around a whole number, from the powers of two around it.
pub(crate) proof fn lemma_count_spacing(n: int, k: int, low: nat, high: nat)
    requires
        spaced_by(n, 1, k),
        0 < pow2(low) <= n < pow2(high),
    ensures
        low - 52 <= k < high - 52,
{
    lemma2_to64();
    assert(grown(low as int) == pow2(low));
    assert(grown(high as int) == pow2(high));
    lemma_spacing_from(n, 1, k, low as int);
    lemma_spacing_below(n, 1, k, high as int);
}

/// Two to the power of `e`.
fn power(e: u32) -> (p: u128)
    requires
        e <= 120,
    ensures
        p == pow2(e as nat),
        0 < p <= 0x100_0000_0000_0000_0000_0000_0000_0000,
{
    let mut p: u128 = 1;
    let mut i: u32 = 0;
    proof {
        lemma2_to64();
        lemma2_to64_rest();
        lemma_pow2_adds(60, 60);
        if e < 120 {
            lemma_pow2_strictly_increases(e as nat, 120);
        }
    }
    while i < e
        invariant
            i <= e <= 120,
            p == pow2(i as nat),
            pow2(e as nat) <= 0x100_0000_0000_0000_0000_0000_0000_0000,
        decreases e - i,
    {
        proof {
            lemma_pow2_unfold((i + 1) as nat);
            if i + 1 < e {
                lemma_pow2_strictly_increases((i + 1) as nat, e as nat);
            }
        }
        p = 2 * p;
        i = i + 1;
    }
    proof {
        lemma_pow2_pos(e as nat);
    }
    p
}

impl Double {
    /// The mantissa has 53 bits, or the double is zero.
    pub open spec fn wf(self) -> bool {
        ||| LEAST_MANTISSA <= self.mantissa <= 2 * LEAST_MANTISSA
        ||| self.mantissa == 0 && self.exponent == 0
    }

    /// A count as a double.
    pub fn of(n: u64) -> (double: Self)
        ensures
            double@ == count(n as int),
            double.wf(),
            double.mantissa == 0 <==> n == 0,
            -52 <= double.exponent <= 11,
            n > 0 ==> spaced_by(n as int, 1, double.exponent as int),
    {
        let double = nearest_to(n as u128, 1, 0);
        proof {
            if n > 0 {
                lemma2_to64();
                lemma2_to64_rest();
                lemma_count_spacing(n as int, double.exponent as int, 0, 64);
            }
        }
        double
    }

    /// The quotient of two doubles.
    pub fn over(self, other: Self) -> (quotient: Self)
        requires
            self.wf(),
            other.wf(),
            other.mantissa > 0,
            -1000 <= self.exponent <= 1000,
            -1000 <= other.exponent <= 1000,
        ensures
            quotient@ == self@.over(other@),
            quotient.wf(),
            quotient.mantissa == 0 <==> self.mantissa == 0,
            self.mantissa > 0 ==> self.exponent - other.exponent - 53 <= quotient.exponent
                <= self.exponent - other.exponent - 51,
    {
        let e: i32 = self.exponent - other.exponent;
        let quotient = nearest_to(self.mantissa as u128, other.mantissa as u128, e);
        proof {
            if self.mantissa > 0 {
                lemma2_to64();
                let k = quotient.exponent - e;
                let (n, d) = (self.mantissa as int, other.mantissa as int);
                assert(grown(1) == 2 && grown(2) == 4 && grown(-1) == 1 && grown(-2) == 1);
                assert(n * 2 >= d * 1 && n * 1 < d * 4);
                assert(reaches(n, d, -1)) by {
                    assert(grown(-(-1int)) == 2);
                }
                assert(!reaches(n, d, 2));
                lemma_spacing_from(n, d, k, -1);
                lemma_spacing_below(n, d, k, 2);
            }
        }
        quotient
    }

    /// The product of two doubles.
    pub fn times(self, other: Self) -> (product: Self)
        requires
            self.wf(),
            other.wf(),
            -1000 <= self.exponent <= 1000,
            -1000 <= other.exponent <= 1000,
        ensures
            product@ == self@.times(other@),
            product.wf(),
            product.mantissa == 0 <==> self.mantissa == 0 || other.mantissa == 0,
            product.mantissa > 0 ==> self.exponent + other.exponent + 52 <= product.exponent
                <= self.exponent + other.exponent + 54,
    {
        let ghost (a, b) = (self.mantissa as int, other.mantissa as int);
        let ghost least = LEAST_MANTISSA as int;
        proof {
            assert(0 <= a * b <= (2 * least) * (2 * least)) by (nonlinear_arith)
                requires
                    0 <= a <= 2 * least,
                    0 <= b <= 2 * least,
            ;
            assert(a > 0 && b > 0 ==> a * b > 0) by (nonlinear_arith);
            assert(a == 0 || b == 0 ==> a * b == 0) by (nonlinear_arith);
        }
        let n: u128 = self.mantissa as u128 * other.mantissa as u128;
        let e: i32 = self.exponent + other.exponent;
        let product = nearest_to(n, 1, e);
        proof {
            if n > 0 {
                lemma2_to64();
                lemma2_to64_rest();
                lemma_pow2_adds(52, 52);
                lemma_pow2_adds(53, 54);
                assert(a * b >= least * least) by (nonlinear_arith)
                    requires
                        a >= least,
                        b >= least,
                        least > 0,
                ;
                lemma_count_spacing(n as int, product.exponent - e, 104, 107);
            }
        }
        product
    }

    /// The sum of two doubles.
    pub fn plus(self, other: Self) -> (sum: Self)
        requires
            self.wf(),
            other.wf(),
            -1000 <= self.exponent <= 1000,
            -1000 <= other.exponent <= 1000,
            self.mantissa == 0 || self.exponent - other.exponent <= 65,
            other.mantissa == 0 || other.exponent - self.exponent <= 65,
        ensures
            sum@ == self@.plus(other@),
            sum.wf(),
            sum.mantissa == 0 <==> self.mantissa == 0 && other.mantissa == 0,
            sum.mantissa > 0 ==> {
                let e = if self.exponent < other.exponent {
                    self.exponent
                } else {
                    other.exponent
                };
                e <= sum.exponent <= e + 66
            },
    {
        let e: i32 = if self.exponent < other.exponent {
            self.exponent
        } else {
            other.exponent
        };
        let a: u128 = shifted(self.mantissa, self.exponent - e);
        let b: u128 = shifted(other.mantissa, other.exponent - e);
        let sum = nearest_to(a + b, 1, e);
        proof {
            if a + b > 0 {
                lemma2_to64();
                lemma2_to64_rest();
                lemma_pow2_adds(60, 59);
                lemma_count_spacing(a + b, sum.exponent - e, 52, 119);
            }
        }
        sum
    }

    /// Two numbers that compare as the double and the whole number `c` do.
    fn beside(self, c: u32) -> (pair: (u128, u128))
        requires
            self.wf(),
            self.exponent <= 60,
        ensures
            pair.0 < pair.1 <==> self@.below(c as int),
            pair.0 > pair.1 <==> self@.above(c as int),
    {
        let m: u128 = self.mantissa as u128;
        let ghost (g, h) = (grown(self.exponent as int), grown(-self.exponent as int));
        proof {
            lemma2_to64();
            lemma2_to64_rest();
        }
        if self.exponent >= 0 {
            let p: u128 = power(self.exponent as u32);
            proof {
                lemma_at_most_60(self.exponent as nat);
                assert(p == g && h == 1);
                assert(0 <= m * p <= 0x20_0000_0000_0000 * 0x1000_0000_0000_0000)
                    by (nonlinear_arith)
                    requires
                        0 <= m <= 0x20_0000_0000_0000,
                        0 <= p <= 0x1000_0000_0000_0000,
                ;
                assert(c * h == c);
            }
            (m * p, c as u128)
        } else if self.exponent >= -64 {
            let p: u128 = power((-self.exponent) as u32);
            proof {
                lemma_at_most_64((-self.exponent) as nat);
                assert(p == h && g == 1);
                assert(0 <= c * p <= 0xffff_ffff * 0x1_0000_0000_0000_0000) by (nonlinear_arith)
                    requires
                        0 <= c <= 0xffff_ffff,
                        0 <= p <= 0x1_0000_0000_0000_0000,
                ;
                assert(m * g == m);
            }
            (m, c as u128 * p)
        } else {
            proof {
                lemma_over_64((-self.exponent) as nat);
                assert(g == 1);
                assert(m * g == m);
                assert(c > 0 ==> c * h >= h) by (nonlinear_arith)
                    requires
                        h >= 0,
                        c >= 0,
                ;
                assert(c == 0 ==> c * h == 0) by (nonlinear_arith);
            }
            (m, if c == 0 {
                0
            } else {
                0x1_0000_0000_0000_0000
            })
        }
    }

    /// Whether the double is less than the whole number `c`.
    pub fn below(self, c: u32) -> (yes: bool)
        requires
            self.wf(),
            self.exponent <= 60,
        ensures
            yes == self@.below(c as int),
    {
        let pair = self.beside(c);
        pair.0 < pair.1
    }

    /// Whether the double is more than the whole number `c`.
    pub fn above(self, c: u32) -> (yes: bool)
        requires
            self.wf(),
            self.exponent <= 60,
        ensures
            yes == self@.above(c as int),
    {
        let pair = self.beside(c);
        pair.0 > pair.1
    }

    /// A double that is no more than a number has no larger exponent.
    pub proof fn lemma_at_most(self, c: int, bits: nat)
        requires
            self.wf(),
            self.mantissa > 0,
            !self@.above(c),
            0 <= c < pow2(bits),
            bits <= 52,
        ensures
            self.exponent <= bits as int - 52,
    {
        lemma2_to64();
        lemma2_to64_rest();
        let (m, e) = (self.mantissa as int, self.exponent as int);
        if bits < 52 {
            lemma_pow2_strictly_increases(bits, 52);
        }
        if e >= 0 {
            lemma_grown_pos(e);
            assert(m * grown(e) >= m) by (nonlinear_arith)
                requires
                    grown(e) >= 1,
                    m > 0,
            ;
            assert(c * grown(-e) == c);
        } else if e > bits as int - 52 {
            let g = grown(-e);
            lemma_pow2_adds(bits, (-e) as nat);
            if bits - e < 52 {
                lemma_pow2_strictly_increases((bits - e) as nat, 52);
            }
            assert(c * g < pow2(bits) * g) by (nonlinear_arith)
                requires
                    c < pow2(bits),
                    g > 0,
            ;
            assert(g == pow2((-e) as nat));
            assert(pow2((bits - e) as nat) == pow2(bits) * g);
            assert(m * grown(e) == m) by (nonlinear_arith)
                requires
                    grown(e) == 1,
            ;
        }
    }

    /// The double without its fraction.
    pub fn floor(self) -> (whole: u128)
        requires
            self.wf(),
            self.exponent <= 60,
        ensures
            whole == self@.floor(),
    {
        let m: u128 = self.mantissa as u128;
        let ghost (g, h) = (grown(self.exponent as int), grown(-self.exponent as int));
        proof {
            lemma2_to64();
            lemma2_to64_rest();
        }
        if self.exponent >= 0 {
            let p: u128 = power(self.exponent as u32);
            proof {
                lemma_at_most_60(self.exponent as nat);
                assert(p == g && h == 1);
                assert(0 <= m * p <= 0x20_0000_0000_0000 * 0x1000_0000_0000_0000)
                    by (nonlinear_arith)
                    requires
                        0 <= m <= 0x20_0000_0000_0000,
                        0 <= p <= 0x1000_0000_0000_0000,
                ;
                assert(m * g / 1 == m * g);
            }
            m * p
        } else {
            assert(g == 1 && m * g == m);
            if self.exponent >= -64 {
                let p: u128 = power((-self.exponent) as u32);
                assert(p == h);
                m / p
            } else {
                proof {
                    lemma_over_64((-self.exponent) as nat);
                    vstd::arithmetic::div_mod::lemma_basic_div(m as int, h);
                }
                0
            }
        }
    }

    /// The double times `scale`, rounded to the nearest whole number.
    pub fn scaled(self, scale: u16) -> (whole: u128)
        requires
            self.wf(),
            self.exponent <= 50,
        ensures
            whole == self@.scaled(scale as int),
    {
        let ghost (g, h) = (grown(self.exponent as int), grown(-self.exponent as int));
        proof {
            lemma2_to64();
            lemma2_to64_rest();
            assert(0 <= self.mantissa * scale <= 0x20_0000_0000_0000 * 0xffff) by (nonlinear_arith)
                requires
                    0 <= self.mantissa <= 0x20_0000_0000_0000,
                    0 <= scale <= 0xffff,
            ;
        }
        let m: u128 = self.mantissa as u128 * scale as u128;
        if self.exponent >= 0 {
            let p: u128 = power(self.exponent as u32);
            proof {
                if self.exponent < 50 {
                    lemma_pow2_strictly_increases(self.exponent as nat, 50);
                }
                assert(p == g && h == 1);
                assert(0 <= m * p <= 0x20_0000_0000_0000 * 0xffff * 0x4_0000_0000_0000)
                    by (nonlinear_arith)
                    requires
                        0 <= m <= 0x20_0000_0000_0000 * 0xffff,
                        0 <= p <= 0x4_0000_0000_0000,
                ;
                lemma_whole(m * g);
            }
            m * p
        } else {
            assert(g == 1 && m * g == m);
            if self.exponent >= -100 {
                let p: u128 = power((-self.exponent) as u32);
                assert(p == h);
                divide_rounded(m, p)
            } else {
                proof {
                    lemma_pow2_adds(60, 40);
                    lemma_pow2_strictly_increases(100, (-self.exponent) as nat);
                    vstd::arithmetic::div_mod::lemma_basic_div(m as int, h);
                    vstd::arithmetic::div_mod::lemma_small_mod(m as nat, h as nat);
                    assert(rounded(m as int, h) == 0);
                }
                0
            }
        }
    }
}

/// `m` times two to the power of `e`.
fn shifted(m: u64, e: i32) -> (product: u128)
    requires
        m <= 2 * LEAST_MANTISSA,
        0 <= e,
        m == 0 || e <= 65,
    ensures
        product == m * grown(e as int),
        product >= m,
        product <= 0x40_0000_0000_0000_0000_0000_0000_0000,
{
    proof {
        lemma_grown_pos(e as int);
        lemma2_to64();
        lemma2_to64_rest();
        lemma_pow2_adds(60, 5);
    }
    if m == 0 {
        return 0;
    }
    let p: u128 = power(e as u32);
    proof {
        if e < 65 {
            lemma_pow2_strictly_increases(e as nat, 65);
        }
        assert(m <= m * p <= 0x20_0000_0000_0000 * 0x2_0000_0000_0000_0000) by (nonlinear_arith)
            requires
                0 <= m <= 0x20_0000_0000_0000,
                1 <= p <= 0x2_0000_0000_0000_0000,
        ;
    }
    m as u128 * p
}

proof fn lemma_at_most_60(e: nat)
    requires
        e <= 60,
    ensures
        pow2(e) <= 0x1000_0000_0000_0000,
{
    lemma2_to64_rest();
    if e < 60 {
        lemma_pow2_strictly_increases(e, 60);
    }
}

proof fn lemma_at_most_64(e: nat)
    requires
        e <= 64,
    ensures
        pow2(e) <= 0x1_0000_0000_0000_0000,
{
    lemma2_to64_rest();
    if e < 64 {
        lemma_pow2_strictly_increases(e, 64);
    }
}

proof fn lemma_over_64(e: nat)
    requires
        e > 64,
    ensures
        pow2(e) > 0x1_0000_0000_0000_0000,
{
    lemma2_to64_rest();
    lemma_pow2_strictly_increases(64, e);
}

/// Whether one double is at least another.
pub open spec fn at_least(a: DoubleView, b: DoubleView) -> bool {
    a.mantissa * grown(a.exponent - b.exponent) >= b.mantissa * grown(b.exponent - a.exponent)
}

/// The double nearest to a number that is not zero has 53 bits, at the
/// spacing of the doubles around that number.
pub proof fn lemma_nearest(n: int, d: int, e: int)
    requires
        n > 0,
        d > 0,
    ensures
        ({
            let x = nearest(n, d, e);
            let k = x.exponent - e;
            &&& LEAST_MANTISSA <= x.mantissa <= 2 * LEAST_MANTISSA
            &&& spaced_by(n, d, k)
            &&& x.mantissa == rounded(n * grown(-k), d * grown(k))
        }),
{
    let k = choose|k: int| spaced_by(n, d, k);
    lemma_spacing(n, d, k);
    lemma2_to64_rest();
    lemma_reaches_over(n, d, k, 52);
    lemma_reaches_over(n, d, k, 53);
    lemma_grown_pos(k);
    let (a, b) = (n * grown(-k), d * grown(k));
    assert(b > 0) by (nonlinear_arith)
        requires
            b == d * grown(k),
            d > 0,
            grown(k) >= 1,
    ;
    lemma_rounded_between(a, b, LEAST_MANTISSA as int, 2 * LEAST_MANTISSA as int);
}

proof fn lemma_whole(n: int)
    ensures
        rounded(n, 1) == n,
{
}

proof fn lemma_rounded_monotone(n: int, m: int, d: int)
    requires
        d > 0,
        m <= n,
    ensures
        rounded(m, d) <= rounded(n, d),
{
    vstd::arithmetic::div_mod::lemma_fundamental_div_mod(n, d);
    vstd::arithmetic::div_mod::lemma_fundamental_div_mod(m, d);
    let (p, r) = (m / d, m % d);
    let (q, s) = (n / d, n % d);
    assert(p <= q) by (nonlinear_arith)
        requires
            m == d * p + r,
            n == d * q + s,
            m <= n,
            r >= 0,
            s < d,
            d > 0,
    ;
    if p == q {
        assert(r <= s) by (nonlinear_arith)
            requires
                m == d * p + r,
                n == d * q + s,
                m <= n,
                p == q,
        ;
    }
}

/// A larger count is no smaller as a double.
pub proof fn law_counts_keep_their_order(n: int, m: int)
    requires
        0 < m <= n,
    ensures
        at_least(count(n), count(m)),
{
    let (x, y) = (count(n), count(m));
    lemma_nearest(n, 1, 0);
    lemma_nearest(m, 1, 0);
    lemma2_to64();
    let j = y.exponent + 52;
    lemma_grown_pos(-j);
    assert(reaches(n, 1, j)) by {
        assert(n * grown(-j) >= m * grown(-j)) by (nonlinear_arith)
            requires
                n >= m,
                grown(-j) >= 1,
        ;
    }
    lemma_spacing_from(n, 1, x.exponent, j);
    if x.exponent == y.exponent {
        let k = x.exponent;
        lemma_grown_pos(-k);
        lemma_grown_pos(k);
        assert(m * grown(-k) <= n * grown(-k)) by (nonlinear_arith)
            requires
                m <= n,
                grown(-k) >= 1,
        ;
        lemma_rounded_monotone(n * grown(-k), m * grown(-k), 1 * grown(k));
        assert(grown(0) == 1);
        assert(x.mantissa >= y.mantissa);
        assert(x.mantissa * 1 >= y.mantissa * 1);
    } else {
        let g = grown(x.exponent - y.exponent);
        lemma_pow2_unfold((x.exponent - y.exponent) as nat);
        lemma_pow2_pos((x.exponent - y.exponent - 1) as nat);
        assert(x.mantissa * g >= y.mantissa) by (nonlinear_arith)
            requires
                g >= 2,
                x.mantissa >= LEAST_MANTISSA,
                y.mantissa <= 2 * LEAST_MANTISSA,
        ;
        assert(grown(y.exponent - x.exponent) == 1);
        assert(y.mantissa * grown(y.exponent - x.exponent) == y.mantissa) by (nonlinear_arith)
            requires
                grown(y.exponent - x.exponent) == 1,
        ;
    }
}

/// Counts below 2^53 are exact.
pub proof fn law_small_counts_are_exact(n: int)
    requires
        0 <= n < 2 * LEAST_MANTISSA,
    ensures
        count(n).exponent <= 0,
        count(n).mantissa == n * grown(-count(n).exponent),
        count(n).mantissa < 2 * LEAST_MANTISSA,
        count(n).floor() == n,
{
    let x = count(n);
    lemma2_to64();
    lemma2_to64_rest();
    if n > 0 {
        lemma_nearest(n, 1, 0);
        lemma_count_spacing(n, x.exponent, 0, 53);
        let g = grown(-x.exponent);
        lemma_grown_pos(-x.exponent);
        lemma_whole(n * g);
        lemma_reaches_over(n, 1, x.exponent, 53);
        assert(x.mantissa == n * g);
        vstd::arithmetic::div_mod::lemma_div_multiples_vanish(n, g);
        assert(n * g == g * n) by (nonlinear_arith);
        assert(x.mantissa * grown(x.exponent) == x.mantissa) by (nonlinear_arith)
            requires
                grown(x.exponent) == 1,
        ;
    }
}

/// A double over itself is one.
pub proof fn law_double_over_itself_is_one(x: DoubleView)
    requires
        LEAST_MANTISSA <= x.mantissa <= 2 * LEAST_MANTISSA,
    ensures
        x.over(x) == (DoubleView { mantissa: LEAST_MANTISSA as int, exponent: -52 }),
{
    lemma2_to64();
    lemma2_to64_rest();
    let m = x.mantissa;
    assert(grown(1) == 2);
    assert(reaches(m, m, 0));
    assert(!reaches(m, m, 1));
    assert(spaced_by(m, m, -52));
    lemma_spacing(m, m, -52);
    assert(grown(52) == LEAST_MANTISSA);
    assert(m * LEAST_MANTISSA == LEAST_MANTISSA * (m * 1)) by (nonlinear_arith);
    lemma_rounded_between(
        m * grown(52),
        m * grown(-52),
        LEAST_MANTISSA as int,
        LEAST_MANTISSA as int,
    );
}

/// One times a double is the double.
pub proof fn law_one_times_a_double_is_the_double(x: DoubleView)
    requires
        LEAST_MANTISSA <= x.mantissa < 2 * LEAST_MANTISSA,
    ensures
        (DoubleView { mantissa: LEAST_MANTISSA as int, exponent: -52 }).times(x) == x,
{
    lemma2_to64();
    lemma2_to64_rest();
    lemma_pow2_adds(52, 52);
    lemma_pow2_adds(52, 53);
    let n = LEAST_MANTISSA * x.mantissa;
    assert(LEAST_MANTISSA * LEAST_MANTISSA <= n < LEAST_MANTISSA * (2 * LEAST_MANTISSA))
        by (nonlinear_arith)
        requires
            n == LEAST_MANTISSA * x.mantissa,
            LEAST_MANTISSA <= x.mantissa < 2 * LEAST_MANTISSA,
            LEAST_MANTISSA > 0,
    ;
    lemma_nearest(n, 1, x.exponent - 52);
    let product = nearest(n, 1, x.exponent - 52);
    lemma_count_spacing(n, product.exponent - (x.exponent - 52), 104, 105);
    assert(grown(52) == LEAST_MANTISSA);
    assert(x.mantissa * LEAST_MANTISSA == n) by (nonlinear_arith)
        requires
            n == LEAST_MANTISSA * x.mantissa,
    ;
    lemma_rounded_between(n * grown(-52), 1 * grown(52), x.mantissa, x.mantissa);
}

/// The quotient of a double by one that is no larger is at least one.
pub proof fn lemma_quotient_from_one(a: DoubleView, b: DoubleView)
    requires
        LEAST_MANTISSA <= a.mantissa,
        LEAST_MANTISSA <= b.mantissa,
        at_least(a, b),
    ensures
        a.over(b).mantissa >= LEAST_MANTISSA,
        a.over(b).mantissa <= 2 * LEAST_MANTISSA,
        a.over(b).exponent >= -52,
{
    let e = a.exponent - b.exponent;
    lemma_nearest(a.mantissa, b.mantissa, e);
    assert(reaches(a.mantissa, b.mantissa, -e));
    lemma_spacing_from(a.mantissa, b.mantissa, a.over(b).exponent - e, -e);
}

pub proof fn lemma_zero_times(x: DoubleView)
    ensures
        zero().times(x) == zero(),
{
    assert(0 * x.mantissa == 0) by (nonlinear_arith);
}

impl DoubleView {
    pub proof fn lemma_positive(self)
        requires
            self.mantissa > 0,
        ensures
            self.above(0),
            self.floor() >= 0,
    {
        let (g, h) = (grown(self.exponent), grown(-self.exponent));
        lemma_grown_pos(self.exponent);
        lemma_grown_pos(-self.exponent);
        assert(self.mantissa * g > 0) by (nonlinear_arith)
            requires
                self.mantissa > 0,
                g >= 1,
        ;
        assert(0 * h == 0) by (nonlinear_arith);
        vstd::arithmetic::div_mod::lemma_div_pos_is_pos(self.mantissa * g, h);
    }
}

/// One hundred as a double.
pub proof fn lemma_hundred()
    ensures
        count(100) == (DoubleView { mantissa: 7_036_874_417_766_400, exponent: -46 }),
{
    let x = count(100);
    lemma2_to64();
    lemma2_to64_rest();
    lemma_nearest(100, 1, 0);
    lemma_count_spacing(100, x.exponent, 6, 7);
    lemma_whole(100 * grown(46));
}

/// A hundred times what is at least one is at least a hundred.
pub proof fn lemma_hundredfold(q: DoubleView)
    requires
        LEAST_MANTISSA <= q.mantissa <= 2 * LEAST_MANTISSA,
        q.exponent >= -52,
    ensures
        q.times(count(100)).above(100) || q.times(count(100)) == count(100),
{
    lemma2_to64();
    lemma2_to64_rest();
    lemma_hundred();
    let h = count(100);
    let n = q.mantissa * h.mantissa;
    lemma_pow2_adds(52, 52);
    lemma_pow2_adds(53, 54);
    assert(LEAST_MANTISSA * h.mantissa <= n <= (2 * LEAST_MANTISSA) * h.mantissa)
        by (nonlinear_arith)
        requires
            n == q.mantissa * h.mantissa,
            LEAST_MANTISSA <= q.mantissa <= 2 * LEAST_MANTISSA,
            h.mantissa > 0,
    ;
    let p = q.times(h);
    let e = q.exponent - 46;
    let k = p.exponent - e;
    lemma_nearest(n, 1, e);
    lemma_count_spacing(n, k, 104, 107);
    if p.exponent == -46 {
        assert(k == 52);
        assert(grown(52) == LEAST_MANTISSA);
        lemma_rounded_below(n * grown(-52), 1 * grown(52), h.mantissa);
        assert(p.mantissa >= h.mantissa);
        assert(grown(46) == 0x4000_0000_0000);
        assert(p.mantissa * grown(-46) == p.mantissa);
        assert(p.mantissa > h.mantissa ==> p.above(100));
    } else if p.exponent >= 0 {
        lemma_grown_pos(p.exponent);
        assert(p.mantissa * grown(p.exponent) >= p.mantissa) by (nonlinear_arith)
            requires
                grown(p.exponent) >= 1,
                p.mantissa > 0,
        ;
        assert(100 * grown(-p.exponent) == 100);
    } else {
        let g = grown(-p.exponent);
        if -p.exponent < 45 {
            lemma_pow2_strictly_increases((-p.exponent) as nat, 45);
        }
        assert(g <= 0x2000_0000_0000);
        assert(p.mantissa * grown(p.exponent) == p.mantissa) by (nonlinear_arith)
            requires
                grown(p.exponent) == 1,
        ;
    }
}

proof fn lemma_rounded_below(n: int, d: int, low: int)
    requires
        d > 0,
        low * d <= n,
    ensures
        low <= rounded(n, d),
{
    vstd::arithmetic::div_mod::lemma_fundamental_div_mod(n, d);
    let (q, r) = (n / d, n % d);
    assert(low <= q) by (nonlinear_arith)
        requires
            low * d <= n,
            n == d * q + r,
            r < d,
            d > 0,
    ;
}

/// Rounding gives the whole number that is nearest, and of two that are equally
/// near the even one.
pub proof fn law_rounding_is_to_the_nearest_even(n: int, d: int)
    requires
        d > 0,
    ensures
        ({
            let q = rounded(n, d);
            &&& 2 * (n - q * d) <= d && 2 * (q * d - n) <= d
            &&& 2 * (n - q * d) == d || 2 * (q * d - n) == d ==> q % 2 == 0
        }),
{
    let (q, r) = (n / d, n % d);
    assert(n == d * q + r && 0 <= r < d) by (nonlinear_arith)
        requires
            d > 0,
            q == n / d,
            r == n % d,
    ;
    assert(q * d == d * q) by (nonlinear_arith);
    assert((q + 1) * d == d * q + d) by (nonlinear_arith);
    assert((q + q % 2) * d == d * q || (q + q % 2) * d == d * q + d) by (nonlinear_arith)
        requires
            q % 2 == 0 || q % 2 == 1,
    ;
    if 2 * r == d {
        assert((q + q % 2) % 2 == 0) by {
            if q % 2 == 1 {
                assert((q + 1) % 2 == 0);
            }
        }
    }
}

/// Small counts are told apart from whole numbers as they are: below, above or
/// equal.
pub proof fn law_small_counts_lie_where_they_are(n: int, c: int)
    requires
        0 <= n < 2 * LEAST_MANTISSA,
    ensures
        count(n).below(c) <==> n < c,
        count(n).above(c) <==> n > c,
{
    law_small_counts_are_exact(n);
    lemma_grown_pos(-count(n).exponent);
    let g = grown(-count(n).exponent);
    assert(n * g < c * g <==> n < c) by (nonlinear_arith)
        requires
            g > 0,
    ;
    assert(n * g > c * g <==> n > c) by (nonlinear_arith)
        requires
            g > 0,
    ;
}

/// Scaled to whole numbers, a double is the nearest one; its floor is the
/// largest whole number that is not above it.
pub proof fn law_doubles_come_to_whole_numbers(x: DoubleView, scale: int)
    ensures
        ({
            let (g, h) = (grown(x.exponent), grown(-x.exponent));
            let (q, f) = (x.scaled(scale), x.floor());
            &&& 2 * (x.mantissa * scale * g - q * h) <= h
            &&& 2 * (q * h - x.mantissa * scale * g) <= h
            &&& f * h <= x.mantissa * g < (f + 1) * h
        }),
{
    let (g, h) = (grown(x.exponent), grown(-x.exponent));
    lemma_grown_pos(-x.exponent);
    law_rounding_is_to_the_nearest_even(x.mantissa * scale * g, h);
    let n = x.mantissa * g;
    let f = n / h;
    assert(f * h <= n < (f + 1) * h) by (nonlinear_arith)
        requires
            h > 0,
            f == n / h,
    ;
}

/// A quotient and a product are the nearest doubles to the exact ones.
pub proof fn law_results_are_the_nearest_doubles(x: DoubleView, y: DoubleView)
    requires
        x.mantissa > 0,
        y.mantissa > 0,
    ensures
        ({
            let q = x.over(y);
            let k = q.exponent - (x.exponent - y.exponent);
            &&& LEAST_MANTISSA <= q.mantissa <= 2 * LEAST_MANTISSA
            &&& 2 * (x.mantissa * grown(-k) - q.mantissa * (y.mantissa * grown(k))) <= y.mantissa
                * grown(k)
            &&& 2 * (q.mantissa * (y.mantissa * grown(k)) - x.mantissa * grown(-k)) <= y.mantissa
                * grown(k)
        }),
        ({
            let p = x.times(y);
            let k = p.exponent - (x.exponent + y.exponent);
            &&& LEAST_MANTISSA <= p.mantissa <= 2 * LEAST_MANTISSA
            &&& 2 * (x.mantissa * y.mantissa * grown(-k) - p.mantissa * grown(k)) <= grown(k)
            &&& 2 * (p.mantissa * grown(k) - x.mantissa * y.mantissa * grown(-k)) <= grown(k)
        }),
{
    let q = x.over(y);
    lemma_nearest(x.mantissa, y.mantissa, x.exponent - y.exponent);
    let k = q.exponent - (x.exponent - y.exponent);
    lemma_grown_pos(k);
    assert(y.mantissa * grown(k) > 0) by (nonlinear_arith)
        requires
            y.mantissa > 0,
            grown(k) > 0,
    ;
    law_rounding_is_to_the_nearest_even(x.mantissa * grown(-k), y.mantissa * grown(k));
    let p = x.times(y);
    assert(x.mantissa * y.mantissa > 0) by (nonlinear_arith)
        requires
            x.mantissa > 0,
            y.mantissa > 0,
    ;
    lemma_nearest(x.mantissa * y.mantissa, 1, x.exponent + y.exponent);
    let j = p.exponent - (x.exponent + y.exponent);
    lemma_grown_pos(j);
    assert(1 * grown(j) == grown(j));
    law_rounding_is_to_the_nearest_even(x.mantissa * y.mantissa * grown(-j), 1 * grown(j));
}

/// A sum is the nearest double to the exact one.
pub proof fn law_sums_are_the_nearest_doubles(x: DoubleView, y: DoubleView)
    requires
        x.mantissa > 0,
        y.mantissa >= 0,
    ensures
        ({
            let s = x.plus(y);
            let e = if x.exponent < y.exponent {
                x.exponent
            } else {
                y.exponent
            };
            let k = s.exponent - e;
            let exact = x.mantissa * grown(x.exponent - e) + y.mantissa * grown(y.exponent - e);
            &&& LEAST_MANTISSA <= s.mantissa <= 2 * LEAST_MANTISSA
            &&& 2 * (exact * grown(-k) - s.mantissa * grown(k)) <= grown(k)
            &&& 2 * (s.mantissa * grown(k) - exact * grown(-k)) <= grown(k)
        }),
{
    let s = x.plus(y);
    let e = if x.exponent < y.exponent {
        x.exponent
    } else {
        y.exponent
    };
    let k = s.exponent - e;
    let (a, b) = (grown(x.exponent - e), grown(y.exponent - e));
    let exact = x.mantissa * a + y.mantissa * b;
    lemma_grown_pos(x.exponent - e);
    lemma_grown_pos(y.exponent - e);
    lemma_grown_pos(k);
    assert(exact > 0) by (nonlinear_arith)
        requires
            exact == x.mantissa * a + y.mantissa * b,
            x.mantissa > 0,
            y.mantissa >= 0,
            a > 0,
            b > 0,
    ;
    lemma_nearest(exact, 1, e);
    assert(1 * grown(k) == grown(k));
    law_rounding_is_to_the_nearest_even(exact * grown(-k), 1 * grown(k));
}

} // verus!
