//! The sigmoid never falls as its argument rises.
//!
//! The proof follows the way the sigmoid is computed. Within one multiple of
//! `ln 2` the series of `e^-r` falls by at most one raw unit for each raw
//! unit by which `r` rises; where the multiple changes, the series at the
//! end of its range is still above one half, which is what the next multiple
//! starts from.
use vstd::prelude::*;
use vstd::arithmetic::div_mod::lemma_div_denominator;
use vstd::arithmetic::div_mod::lemma_div_is_ordered;
use vstd::arithmetic::div_mod::lemma_div_is_ordered_by_denominator;
use vstd::arithmetic::power2::pow2;
use vstd::arithmetic::power2::lemma2_to64;
use vstd::arithmetic::power2::lemma_pow2_pos;
use vstd::arithmetic::power2::lemma_pow2_strictly_increases;
use vstd::arithmetic::power2::lemma_pow2_unfold;
use crate::fixed::Fixed;
use crate::fixed::ONE_RAW;
use crate::fixed::LN2_RAW;
use crate::fixed::SERIES_TERMS;
use crate::fixed::exp_series;
use crate::fixed::exp_neg_raw;
use crate::fixed::logistic_raw;
use crate::fixed::lemma_exp_series_bounds;
use crate::fixed::lemma_exp_neg_bounds;

verus! {

/// From its third term on, the series is above its argument by two at
/// least.
proof fn lemma_tail_above_argument(r: int, n: int)
    requires
        0 <= r < LN2_RAW,
        n >= 3,
    ensures
        exp_series(r, n) >= r + 2,
{
    if n <= SERIES_TERMS {
        lemma_exp_series_bounds(r, n + 1);
        let h = exp_series(r, n + 1);
        let one = ONE_RAW as int;
        assert(0 <= r * h <= r * one) by (nonlinear_arith)
            requires
                0 <= r,
                0 <= h <= one,
        ;
        let q = (r * h) / one;
        assert(0 <= q <= r);
        assert(q / n <= r / 3) by (nonlinear_arith)
            requires
                0 <= q <= r,
                n >= 3,
        ;
    }
}

/// From its second term on, the series is above its argument by two at
/// least.
proof fn lemma_second_above_argument(r: int)
    requires
        0 <= r < LN2_RAW,
    ensures
        exp_series(r, 2) >= r + 2,
{
    let one = ONE_RAW as int;
    lemma_exp_series_bounds(r, 3);
    lemma_exp_series_bounds(r, 4);
    lemma_exp_series_bounds(r, 5);
    let h3 = exp_series(r, 3);
    let h4 = exp_series(r, 4);
    let h5 = exp_series(r, 5);
    if r <= 2863311528 {
        assert(0 <= r * h3 <= r * one) by (nonlinear_arith)
            requires
                0 <= r,
                0 <= h3 <= one,
        ;
        let q = (r * h3) / one;
        assert(0 <= q <= r);
    } else {
        assert(0 <= r * h5 <= r * one) by (nonlinear_arith)
            requires
                0 <= r,
                0 <= h5 <= one,
        ;
        let q5 = (r * h5) / one;
        assert(0 <= q5 <= r);
        assert(h4 == one - q5 / 4);
        assert(h4 >= 3550706178);
        assert(r * h4 >= 2863311528 * 3550706178) by (nonlinear_arith)
            requires
                r >= 2863311528,
                h4 >= 3550706178,
        ;
        let q4 = (r * h4) / one;
        assert(q4 >= 2367137449);
        assert(h3 == one - q4 / 3);
        assert(h3 <= 3505921480);
        assert(0 <= r * h3 <= 2977044472 * 3505921480) by (nonlinear_arith)
            requires
                0 <= r <= 2977044472,
                0 <= h3 <= 3505921480,
        ;
        let q3 = (r * h3) / one;
        assert(q3 <= 2430119589);
        assert(exp_series(r, 2) == one - q3 / 2);
    }
}

/// From its second term on, the series is above its argument by two at
/// least.
proof fn lemma_above_argument(r: int, n: int)
    requires
        0 <= r < LN2_RAW,
        n >= 2,
    ensures
        exp_series(r, n) >= r + 2,
{
    if n == 2 {
        lemma_second_above_argument(r);
    } else {
        lemma_tail_above_argument(r, n);
    }
}

/// Where the argument rises by one raw unit, each tail of the series falls
/// by one raw unit at most, and does not rise.
proof fn lemma_series_step(r: int, n: int)
    requires
        0 <= r,
        r + 1 < LN2_RAW,
        n >= 1,
    ensures
        exp_series(r, n) - 1 <= exp_series(r + 1, n) <= exp_series(r, n),
    decreases SERIES_TERMS + 1 - n,
{
    if n <= SERIES_TERMS {
        let one = ONE_RAW as int;
        lemma_series_step(r, n + 1);
        lemma_above_argument(r, n + 1);
        lemma_exp_series_bounds(r, n + 1);
        lemma_exp_series_bounds(r + 1, n + 1);
        let a = exp_series(r, n + 1);
        let b = exp_series(r + 1, n + 1);
        let p1 = r * a;
        let p2 = (r + 1) * b;
        assert(0 <= p1 <= p2 <= p1 + one) by (nonlinear_arith)
            requires
                p1 == r * a,
                p2 == (r + 1) * b,
                a - 1 <= b <= a,
                a >= r + 2,
                a <= one,
                0 <= r,
        ;
        let q1 = p1 / one;
        let q2 = p2 / one;
        assert(0 <= q1 <= q2 <= q1 + 1);
        assert(q1 / n <= q2 / n <= q1 / n + 1) by {
            lemma_div_is_ordered(q1, q2, n);
            lemma_div_is_ordered(q2, q1 + n, n);
            assert((q1 + n) / n == q1 / n + 1) by (nonlinear_arith)
                requires
                    n >= 1,
                    q1 >= 0,
            ;
        }
    }
}

/// The series does not rise with its argument.
proof fn lemma_series_never_rises(r1: int, r2: int)
    requires
        0 <= r1 <= r2 < LN2_RAW,
    ensures
        exp_series(r2, 1) <= exp_series(r1, 1),
    decreases r2 - r1,
{
    if r1 < r2 {
        lemma_series_never_rises(r1, r2 - 1);
        lemma_series_step(r2 - 1, 1);
    }
}

/// At the end of its range the series is one raw unit above one half.
proof fn lemma_series_at_the_end()
    ensures
        exp_series(LN2_RAW - 1, 1) == 2147483649,
{
    let r: int = LN2_RAW - 1;
    let one = ONE_RAW as int;
    assert(exp_series(r, 13) == one);
    assert(exp_series(r, 12) == 4046880257) by {
        assert(r * one == 12786308641682620416);
        assert(12786308641682620416int / one == 2977044471);
    }
    assert(exp_series(r, 11) == 4039959693) by {
        assert(r * 4046880257 == 12047742493900909047);
        assert(12047742493900909047int / one == 2805083639);
    }
    assert(exp_series(r, 10) == 4014938629) by {
        assert(r * 4039959693 == 12027139667108507403);
        assert(12027139667108507403int / one == 2800286670);
    }
    assert(exp_series(r, 9) == 3985751364) by {
        assert(r * 4014938629 == 11952650846868770259);
        assert(11952650846868770259int / one == 2782943390);
    }
    assert(exp_series(r, 8) == 3949628257) by {
        assert(r * 3985751364 == 11865759060976908444);
        assert(11865759060976908444int / one == 2762712319);
    }
    assert(exp_series(r, 7) == 3903871055) by {
        assert(r * 3949628257 == 11758218965007217047);
        assert(11758218965007217047int / one == 2737673689);
    }
    assert(exp_series(r, 6) == 3843974427) by {
        assert(r * 3903871055 == 11621997739784686905);
        assert(11621997739784686905int / one == 2705957214);
    }
    assert(exp_series(r, 5) == 3762079289) by {
        assert(r * 3843974427 == 11443682814565743117);
        assert(11443682814565743117int / one == 2664440035);
    }
    assert(exp_series(r, 4) == 3643048634) by {
        assert(r * 3762079289 == 11199877346781061119);
        assert(11199877346781061119int / one == 2607674651);
    }
    assert(exp_series(r, 3) == 3453244334) by {
        assert(r * 3643048634 == 10845517793433802614);
        assert(10845517793433802614int / one == 2525168888);
    }
    assert(exp_series(r, 2) == 3098164010) by {
        assert(r * 3453244334 == 10280461951546777314);
        assert(10280461951546777314int / one == 2393606573);
    }
    assert(exp_series(r, 1) == 2147483649) by {
        assert(r * 3098164010 == 9223372036221688710);
        assert(9223372036221688710int / one == 2147483647);
    }
}

/// All over its range the series is above one half.
pub proof fn lemma_series_above_one_half(r: int)
    requires
        0 <= r < LN2_RAW,
    ensures
        exp_series(r, 1) > ONE_RAW / 2,
{
    lemma_series_never_rises(r, LN2_RAW - 1);
    lemma_series_at_the_end();
}

/// The exponential of a greater magnitude is not greater.
pub proof fn lemma_exp_neg_never_rises(m1: int, m2: int)
    requires
        0 <= m1 <= m2,
    ensures
        exp_neg_raw(m2) <= exp_neg_raw(m1),
{
    let l = LN2_RAW as int;
    let one = ONE_RAW as int;
    let k1 = m1 / l;
    let k2 = m2 / l;
    let r1 = m1 % l;
    let r2 = m2 % l;
    lemma_exp_neg_bounds(m1);
    lemma_exp_neg_bounds(m2);
    lemma_div_is_ordered(m1, m2, l);
    if k2 <= 32 {
        let t1 = exp_series(r1, 1);
        let t2 = exp_series(r2, 1);
        lemma_exp_series_bounds(r1, 1);
        lemma_exp_series_bounds(r2, 1);
        lemma_pow2_pos(k1 as nat);
        lemma_pow2_pos(k2 as nat);
        let d1 = pow2(k1 as nat) as int;
        let d2 = pow2(k2 as nat) as int;
        if k1 == k2 {
            assert(r1 <= r2);
            lemma_series_never_rises(r1, r2);
            lemma_div_is_ordered(t2, t1, d1);
        } else {
            lemma_series_above_one_half(r1);
            let next = pow2((k1 + 1) as nat) as int;
            lemma_pow2_unfold((k1 + 1) as nat);
            assert(next == 2 * d1);
            if k1 + 1 < k2 {
                lemma_pow2_strictly_increases((k1 + 1) as nat, k2 as nat);
            }
            assert(d2 >= 2 * d1);
            // e2 <= one / d2 <= one / (2 * d1) == (one / 2) / d1 <= t1 / d1
            lemma_div_is_ordered(t2, one, d2);
            lemma_div_is_ordered_by_denominator(one, 2 * d1, d2);
            lemma_div_denominator(one, 2, d1);
            lemma_div_is_ordered(one / 2, t1, d1);
        }
    }
}

/// The quotient that the sigmoid is read from: one over one plus the
/// exponential of the magnitude.
pub open spec fn upper_half(m: int) -> int {
    (ONE_RAW * ONE_RAW) / (ONE_RAW + exp_neg_raw(m))
}

/// The quotient lies from one half to one, and does not fall as the
/// magnitude rises.
pub proof fn lemma_upper_half_never_falls(m1: int, m2: int)
    requires
        0 <= m1 <= m2,
    ensures
        ONE_RAW / 2 <= upper_half(m1) <= upper_half(m2) <= ONE_RAW,
{
    let one = ONE_RAW as int;
    lemma_exp_neg_bounds(m1);
    lemma_exp_neg_bounds(m2);
    lemma_exp_neg_never_rises(m1, m2);
    let e1 = exp_neg_raw(m1);
    let e2 = exp_neg_raw(m2);
    lemma_div_is_ordered_by_denominator(one * one, one + e2, one + e1);
    lemma_div_is_ordered_by_denominator(one * one, one + e1, one + one);
    lemma_div_is_ordered_by_denominator(one * one, one, one + e2);
    assert((one * one) / (one + one) == one / 2 && (one * one) / one == one) by (nonlinear_arith)
        requires
            one == 0x1_0000_0000,
    ;
}

/// The logistic value does not fall as the argument rises.
pub proof fn lemma_logistic_never_falls(x: int, y: int)
    requires
        x <= y,
    ensures
        logistic_raw(x) <= logistic_raw(y),
{
    if x >= 0 {
        lemma_upper_half_never_falls(x, y);
    } else if y < 0 {
        lemma_upper_half_never_falls(-y, -x);
    } else {
        lemma_upper_half_never_falls(-x, -x);
        lemma_upper_half_never_falls(y, y);
    }
}

/// The sigmoid never falls as its argument rises.
pub proof fn lemma_sigmoid_never_falls(x: Fixed, y: Fixed)
    requires
        x.raw <= y.raw,
    ensures
        x.sigmoid_spec().raw <= y.sigmoid_spec().raw,
{
    lemma_logistic_never_falls(x.raw as int, y.raw as int);
    crate::fixed::lemma_logistic_range(x.raw as int);
    crate::fixed::lemma_logistic_range(y.raw as int);
}

} // verus!
