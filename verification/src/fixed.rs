//! Signed fixed-point scalars with 32 fractional bits.
//!
//! Every scalar of the library (weights, biases, activations, rewards,
//! fitness, probabilities) is a `Fixed`: a 64-bit integer `raw` that stands
//! for the number `raw / 2^32`. Arithmetic saturates at the ends of the
//! 64-bit range and rounds products toward zero, so every operation is a
//! total, deterministic function with an exact integer specification.
use vstd::prelude::*;
use vstd::arithmetic::power2::{pow2, lemma_pow2_pos, lemma2_to64};
use vstd::bits::lemma_u64_shr_is_div;

verus! {

/// The raw value that stands for the number one.
pub const ONE_RAW: i64 = 0x1_0000_0000;

/// A fixed-point number: `raw / 2^32`.
#[derive(Clone, Copy, Debug, PartialEq, Eq, Structural)]
pub struct Fixed {
    pub raw: i64,
}

/// The nearest 64-bit value to `x`.
pub open spec fn saturate(x: int) -> i64 {
    if x < i64::MIN as int {
        i64::MIN
    } else if x > i64::MAX as int {
        i64::MAX
    } else {
        x as i64
    }
}

/// The quotient `n / d` rounded toward zero, for a positive divisor.
pub open spec fn quotient_toward_zero(n: int, d: int) -> int {
    if n >= 0 {
        n / d
    } else {
        -((-n) / d)
    }
}

fn saturate_wide(x: i128) -> (r: i64)
    ensures
        r == saturate(x as int),
{
    if x < i64::MIN as i128 {
        i64::MIN
    } else if x > i64::MAX as i128 {
        i64::MAX
    } else {
        x as i64
    }
}

fn wide_product(a: i64, b: i64) -> (p: i128)
    ensures
        p == a * b,
{
    assert(-0x4000_0000_0000_0000_0000_0000_0000_0000 <= a * b
        <= 0x4000_0000_0000_0000_0000_0000_0000_0000) by (nonlinear_arith)
        requires
            -0x8000_0000_0000_0000 <= a <= 0x8000_0000_0000_0000,
            -0x8000_0000_0000_0000 <= b <= 0x8000_0000_0000_0000,
    ;
    let x: i128 = a as i128;
    let y: i128 = b as i128;
    x * y
}

impl Fixed {
    /// Zero.
    pub open spec fn zero_spec() -> Fixed {
        Fixed { raw: 0 }
    }

    /// One.
    pub open spec fn one_spec() -> Fixed {
        Fixed { raw: ONE_RAW }
    }

    /// The saturating sum.
    pub open spec fn add_spec(self, rhs: Fixed) -> Fixed {
        Fixed { raw: saturate(self.raw + rhs.raw) }
    }

    /// The saturating difference.
    pub open spec fn sub_spec(self, rhs: Fixed) -> Fixed {
        Fixed { raw: saturate(self.raw - rhs.raw) }
    }

    /// The product, rounded toward zero and saturated.
    pub open spec fn mul_spec(self, rhs: Fixed) -> Fixed {
        Fixed { raw: saturate(quotient_toward_zero(self.raw * rhs.raw, ONE_RAW as int)) }
    }

    /// The arithmetic mean, rounded toward zero.
    pub open spec fn mean_spec(self, rhs: Fixed) -> Fixed {
        Fixed { raw: quotient_toward_zero(self.raw + rhs.raw, 2) as i64 }
    }

    /// The scalar with the given raw value.
    pub fn from_raw(raw: i64) -> (r: Fixed)
        ensures
            r.raw == raw,
    {
        Fixed { raw }
    }

    /// The scalar that stands for the whole number `n`.
    pub fn from_int(n: i32) -> (r: Fixed)
        ensures
            r.raw == n * ONE_RAW,
    {
        let wide: i64 = n as i64;
        Fixed { raw: wide * ONE_RAW }
    }

    /// Zero.
    pub fn zero() -> (r: Fixed)
        ensures
            r == Fixed::zero_spec(),
    {
        Fixed { raw: 0 }
    }

    /// One.
    pub fn one() -> (r: Fixed)
        ensures
            r == Fixed::one_spec(),
    {
        Fixed { raw: ONE_RAW }
    }

    /// Adds, saturating at the ends of the range.
    pub fn saturating_add(self, rhs: Fixed) -> (r: Fixed)
        ensures
            r == self.add_spec(rhs),
    {
        let wide: i128 = self.raw as i128 + rhs.raw as i128;
        Fixed { raw: saturate_wide(wide) }
    }

    /// Subtracts, saturating at the ends of the range.
    pub fn saturating_sub(self, rhs: Fixed) -> (r: Fixed)
        ensures
            r == self.sub_spec(rhs),
    {
        let wide: i128 = self.raw as i128 - rhs.raw as i128;
        Fixed { raw: saturate_wide(wide) }
    }

    /// Multiplies, rounding toward zero and saturating.
    pub fn saturating_mul(self, rhs: Fixed) -> (r: Fixed)
        ensures
            r == self.mul_spec(rhs),
    {
        let p: i128 = wide_product(self.raw, rhs.raw);
        let q: i128 = p / (ONE_RAW as i128);
        Fixed { raw: saturate_wide(q) }
    }

    /// The arithmetic mean of two scalars, rounded toward zero. It never
    /// saturates: the mean of two 64-bit values is a 64-bit value.
    pub fn mean(self, rhs: Fixed) -> (r: Fixed)
        ensures
            r == self.mean_spec(rhs),
    {
        let wide: i128 = self.raw as i128 + rhs.raw as i128;
        let half: i128 = wide / 2;
        Fixed { raw: half as i64 }
    }
}

/// The raw value of the natural logarithm of two, rounded to nearest.
pub const LN2_RAW: u64 = 2977044472;

/// How many terms of the exponential series are summed.
pub const SERIES_TERMS: u64 = 12;

/// The series of `e^-r` from its `n`-th term on, in nested form:
/// `1 - r/n * (1 - r/(n+1) * (...))`, cut after `SERIES_TERMS` terms.
/// Raw values; each product and quotient is rounded down.
pub open spec fn exp_series(r: int, n: int) -> int
    decreases SERIES_TERMS + 1 - n,
{
    if n < 1 || n > SERIES_TERMS {
        ONE_RAW as int
    } else {
        ONE_RAW - (r * exp_series(r, n + 1) / (ONE_RAW as int)) / n
    }
}

/// The raw value of `e^-m` for a raw magnitude `m >= 0`: the magnitude is
/// split into a multiple `k` of `ln 2` and a remainder `r`, and the result is
/// the series at `r` halved `k` times.
pub open spec fn exp_neg_raw(m: int) -> int {
    let k = m / (LN2_RAW as int);
    let r = m % (LN2_RAW as int);
    if k > 32 {
        0
    } else {
        exp_series(r, 1) / (pow2(k as nat) as int)
    }
}

/// The raw value of the logistic function `1 / (1 + e^-x)` at the raw
/// argument `x`, kept strictly between zero and one.
pub open spec fn logistic_raw(x: int) -> int {
    let m = if x >= 0 { x } else { -x };
    let upper = (ONE_RAW * ONE_RAW) / (ONE_RAW + exp_neg_raw(m));
    let s = if x >= 0 { upper } else { ONE_RAW - upper };
    if s < 1 {
        1
    } else if s > ONE_RAW - 1 {
        ONE_RAW - 1
    } else {
        s
    }
}

/// Each tail of the series lies between zero and one.
pub proof fn lemma_exp_series_bounds(r: int, n: int)
    requires
        0 <= r < ONE_RAW,
    ensures
        0 <= exp_series(r, n) <= ONE_RAW,
    decreases SERIES_TERMS + 1 - n,
{
    if 1 <= n <= SERIES_TERMS {
        lemma_exp_series_bounds(r, n + 1);
        let h = exp_series(r, n + 1);
        let one = ONE_RAW as int;
        assert(0 <= r * h <= r * one) by (nonlinear_arith)
            requires
                0 <= r,
                0 <= h <= one,
        ;
        assert(0 <= (r * h) / one <= r) by (nonlinear_arith)
            requires
                0 <= r * h <= r * one,
                one > 0,
        ;
        let q = (r * h) / one;
        assert(0 <= q / n <= q) by (nonlinear_arith)
            requires
                0 <= q,
                n >= 1,
        ;
    }
}

/// At zero the series is exactly one.
pub proof fn lemma_exp_series_at_zero(n: int)
    ensures
        exp_series(0, n) == ONE_RAW,
    decreases SERIES_TERMS + 1 - n,
{
    if 1 <= n <= SERIES_TERMS {
        lemma_exp_series_at_zero(n + 1);
        assert(0 * exp_series(0, n + 1) == 0);
        assert((0int / (ONE_RAW as int)) / n == 0) by (nonlinear_arith)
            requires
                n >= 1,
        ;
    }
}

/// The exponential of a non-negative magnitude lies between zero and one.
pub proof fn lemma_exp_neg_bounds(m: int)
    requires
        0 <= m,
    ensures
        0 <= exp_neg_raw(m) <= ONE_RAW,
{
    let k = m / (LN2_RAW as int);
    let r = m % (LN2_RAW as int);
    if k <= 32 {
        lemma_exp_series_bounds(r, 1);
        let t = exp_series(r, 1);
        let d = pow2(k as nat) as int;
        lemma_pow2_pos(k as nat);
        assert(0 <= t / d <= t) by (nonlinear_arith)
            requires
                0 <= t,
                d >= 1,
        ;
    }
}

/// The logistic value lies strictly between zero and one.
pub proof fn lemma_logistic_range(x: int)
    ensures
        0 < logistic_raw(x) < ONE_RAW,
{
}

/// The logistic function at zero is one half.
pub proof fn lemma_logistic_at_zero()
    ensures
        logistic_raw(0) == ONE_RAW / 2,
{
    lemma_exp_series_at_zero(1);
    lemma2_to64();
    assert(0int / (LN2_RAW as int) == 0 && 0int % (LN2_RAW as int) == 0);
    assert(pow2(0) == 1);
    assert(exp_series(0, 1) / 1 == ONE_RAW);
    assert(exp_neg_raw(0) == ONE_RAW);
    assert((ONE_RAW * ONE_RAW) / (ONE_RAW + ONE_RAW) == ONE_RAW / 2) by (nonlinear_arith)
        requires
            ONE_RAW == 0x1_0000_0000,
    ;
}

/// The logistic values at `x` and at `-x` add up to one.
pub proof fn lemma_logistic_symmetric(x: int)
    ensures
        logistic_raw(x) + logistic_raw(-x) == ONE_RAW,
{
    if x == 0 {
        lemma_logistic_at_zero();
    } else {
        let m = if x >= 0 { x } else { -x };
        lemma_exp_neg_bounds(m);
        let e = exp_neg_raw(m);
        let one = ONE_RAW as int;
        let upper = (one * one) / (one + e);
        assert(one / 2 <= upper <= one) by (nonlinear_arith)
            requires
                upper == (one * one) / (one + e),
                0 <= e <= one,
                one == 0x1_0000_0000,
        ;
    }
}

fn exp_series_sum(r: u64) -> (t: u64)
    requires
        r < ONE_RAW,
    ensures
        t == exp_series(r as int, 1),
        t <= ONE_RAW,
{
    let one: u64 = ONE_RAW as u64;
    let mut h: u64 = one;
    let mut n: u64 = SERIES_TERMS;
    while n >= 1
        invariant
            n <= SERIES_TERMS,
            one == ONE_RAW,
            r < ONE_RAW,
            h == exp_series(r as int, n + 1),
            h <= ONE_RAW,
        decreases n,
    {
        proof {
            lemma_exp_series_bounds(r as int, n as int);
            assert(0 <= r * h <= r * ONE_RAW) by (nonlinear_arith)
                requires
                    0 <= r,
                    0 <= h <= ONE_RAW,
            ;
            assert(r * ONE_RAW < 0x1_0000_0000 * 0x1_0000_0000) by (nonlinear_arith)
                requires
                    r < ONE_RAW,
                    ONE_RAW == 0x1_0000_0000,
            ;
        }
        let p: u128 = (r as u128) * (h as u128);
        let q: u128 = p / (one as u128);
        let step: u128 = q / (n as u128);
        assert(step <= one) by {
            assert(step == ONE_RAW - exp_series(r as int, n as int));
        }
        h = one - (step as u64);
        n = n - 1;
    }
    h
}

fn exp_neg(m: u64) -> (e: u64)
    ensures
        e == exp_neg_raw(m as int),
        e <= ONE_RAW,
{
    let k: u64 = m / LN2_RAW;
    let r: u64 = m % LN2_RAW;
    proof {
        lemma_exp_neg_bounds(m as int);
    }
    if k > 32 {
        0
    } else {
        let t: u64 = exp_series_sum(r);
        proof {
            lemma_u64_shr_is_div(t, k);
        }
        t >> k
    }
}

fn logistic(x: i64) -> (s: i64)
    ensures
        s == logistic_raw(x as int),
        0 < s < ONE_RAW,
{
    let wide: i128 = x as i128;
    let m: u64 = if x >= 0 {
        x as u64
    } else {
        (-wide) as u64
    };
    let e: u64 = exp_neg(m);
    let one: u128 = ONE_RAW as u128;
    let upper: u128 = (one * one) / (one + e as u128);
    assert(upper <= one) by (nonlinear_arith)
        requires
            upper == (one * one) / (one + e),
            0 <= e,
            one == 0x1_0000_0000,
    ;
    let top: i64 = upper as i64;
    let s: i64 = if x >= 0 {
        top
    } else {
        ONE_RAW - top
    };
    if s < 1 {
        1
    } else if s > ONE_RAW - 1 {
        ONE_RAW - 1
    } else {
        s
    }
}

impl Fixed {
    /// The logistic sigmoid `1 / (1 + e^-x)`.
    pub open spec fn sigmoid_spec(self) -> Fixed {
        Fixed { raw: logistic_raw(self.raw as int) as i64 }
    }

    /// The slope of the sigmoid: `s * (1 - s)` with `s` the sigmoid.
    pub open spec fn sigmoid_derivative_spec(self) -> Fixed {
        self.sigmoid_spec().mul_spec(Fixed::one_spec().sub_spec(self.sigmoid_spec()))
    }

    /// One step of exponentiation by squaring, with the running product
    /// `acc` and the running square `base`.
    pub open spec fn powi_from(acc: Fixed, base: Fixed, n: nat) -> Fixed
        decreases n,
    {
        if n == 0 {
            acc
        } else {
            Fixed::powi_from(
                if n % 2 == 1 {
                    acc.mul_spec(base)
                } else {
                    acc
                },
                base.mul_spec(base),
                n / 2,
            )
        }
    }

    /// The `n`-th power, by squaring.
    pub open spec fn powi_spec(self, n: nat) -> Fixed {
        Fixed::powi_from(Fixed::one_spec(), self, n)
    }

    /// Whether the scalar is a probability: from zero to one.
    pub open spec fn is_probability_spec(self) -> bool {
        0 <= self.raw <= ONE_RAW
    }

    /// Whether the scalar is a probability: from zero to one.
    pub fn is_probability(self) -> (b: bool)
        ensures
            b == self.is_probability_spec(),
    {
        0 <= self.raw && self.raw <= ONE_RAW
    }

    /// The logistic sigmoid. The result is strictly between zero and one
    /// for every argument, and it never falls as the argument rises.
    pub fn sigmoid(self) -> (r: Fixed)
        ensures
            r == self.sigmoid_spec(),
            0 < r.raw < ONE_RAW,
    {
        Fixed { raw: logistic(self.raw) }
    }

    /// The slope of the sigmoid at `self`, from zero to one quarter.
    pub fn sigmoid_derivative(self) -> (r: Fixed)
        ensures
            r == self.sigmoid_derivative_spec(),
            0 <= r.raw <= ONE_RAW / 4,
    {
        let s: Fixed = self.sigmoid();
        proof {
            lemma_slope_range(self);
        }
        s.saturating_mul(Fixed::one().saturating_sub(s))
    }

    /// The `n`-th power, by squaring.
    pub fn powi(self, n: usize) -> (r: Fixed)
        ensures
            r == self.powi_spec(n as nat),
    {
        let mut acc: Fixed = Fixed::one();
        let mut base: Fixed = self;
        let mut left: usize = n;
        while left > 0
            invariant
                Fixed::powi_from(acc, base, left as nat) == self.powi_spec(n as nat),
            decreases left,
        {
            if left % 2 == 1 {
                acc = acc.saturating_mul(base);
            }
            base = base.saturating_mul(base);
            left = left / 2;
        }
        acc
    }
}

/// The slope of the sigmoid lies from zero to one quarter.
pub proof fn lemma_slope_range(x: Fixed)
    ensures
        0 <= x.sigmoid_derivative_spec().raw <= ONE_RAW / 4,
{
    let one = ONE_RAW as int;
    let s = x.sigmoid_spec().raw as int;
    lemma_logistic_range(x.raw as int);
    assert(0 <= s * (one - s) && (s * (one - s)) / one <= one / 4 && 0 <= (s * (one - s)) / one)
        by (nonlinear_arith)
        requires
            0 < s < one,
            one == 0x1_0000_0000,
    ;
}

/// The product of two scalars from zero to one lies from zero to the
/// smaller of them.
pub proof fn lemma_product_of_fractions(a: Fixed, b: Fixed)
    requires
        a.is_probability_spec(),
        b.is_probability_spec(),
    ensures
        0 <= a.mul_spec(b).raw <= a.raw,
        a.mul_spec(b).raw <= b.raw,
{
    let one = ONE_RAW as int;
    let x = a.raw as int;
    let y = b.raw as int;
    assert(0 <= x * y && (x * y) / one <= x && (x * y) / one <= y && 0 <= (x * y) / one)
        by (nonlinear_arith)
        requires
            0 <= x <= one,
            0 <= y <= one,
            one > 0,
    ;
}

/// A power of a scalar from zero to one lies from zero to one.
pub proof fn lemma_power_of_fraction(acc: Fixed, base: Fixed, n: nat)
    requires
        acc.is_probability_spec(),
        base.is_probability_spec(),
    ensures
        Fixed::powi_from(acc, base, n).is_probability_spec(),
    decreases n,
{
    if n > 0 {
        lemma_product_of_fractions(acc, base);
        lemma_product_of_fractions(base, base);
        lemma_power_of_fraction(
            if n % 2 == 1 {
                acc.mul_spec(base)
            } else {
                acc
            },
            base.mul_spec(base),
            n / 2,
        );
    }
}

/// The mean of a scalar with itself is that scalar.
pub proof fn lemma_mean_idempotent(a: Fixed)
    ensures
        a.mean_spec(a) == a,
{
}

} // verus!
