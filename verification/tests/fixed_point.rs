use neurocontrol::fixed::Fixed;
use neurocontrol::fixed::ONE_RAW;

fn fx(v: f64) -> Fixed {
    Fixed::from_raw((v * 4294967296.0).round() as i64)
}

fn as_float(x: Fixed) -> f64 {
    x.raw as f64 / 4294967296.0
}

fn logistic(x: f64) -> f64 {
    1.0 / (1.0 + (-x).exp())
}

#[test]
fn one_is_two_to_the_thirty_second() {
    assert_eq!(ONE_RAW, 4294967296);
    assert_eq!(Fixed::one().raw, ONE_RAW);
    assert_eq!(Fixed::zero().raw, 0);
}

#[test]
fn whole_numbers_scale_by_one() {
    assert_eq!(Fixed::from_int(3).raw, 3 * ONE_RAW);
    assert_eq!(Fixed::from_int(-7).raw, -7 * ONE_RAW);
    assert_eq!(Fixed::from_int(i32::MAX).raw, (i32::MAX as i64) * ONE_RAW);
    assert_eq!(Fixed::from_int(i32::MIN).raw, (i32::MIN as i64) * ONE_RAW);
}

#[test]
fn addition_is_exact_within_range() {
    let a = fx(1.5);
    let b = fx(-0.25);
    assert_eq!(a.saturating_add(b), fx(1.25));
    assert_eq!(a.saturating_sub(b), fx(1.75));
}

#[test]
fn addition_saturates_at_both_ends() {
    let top = Fixed::from_raw(i64::MAX);
    let bottom = Fixed::from_raw(i64::MIN);
    assert_eq!(top.saturating_add(Fixed::from_raw(1)).raw, i64::MAX);
    assert_eq!(bottom.saturating_add(Fixed::from_raw(-1)).raw, i64::MIN);
    assert_eq!(top.saturating_sub(bottom).raw, i64::MAX);
    assert_eq!(bottom.saturating_sub(top).raw, i64::MIN);
    assert_eq!(top.saturating_add(bottom).raw, -1);
}

#[test]
fn product_is_exact_for_representable_results() {
    assert_eq!(fx(1.5).saturating_mul(Fixed::from_int(2)), Fixed::from_int(3));
    assert_eq!(fx(-1.5).saturating_mul(Fixed::from_int(2)), Fixed::from_int(-3));
    assert_eq!(fx(0.5).saturating_mul(fx(0.5)), fx(0.25));
    assert_eq!(fx(-0.5).saturating_mul(fx(-0.5)), fx(0.25));
}

#[test]
fn product_rounds_toward_zero() {
    let tiny = Fixed::from_raw(1);
    assert_eq!(tiny.saturating_mul(tiny).raw, 0);
    assert_eq!(Fixed::from_raw(3).saturating_mul(fx(0.5)).raw, 1);
    assert_eq!(Fixed::from_raw(-3).saturating_mul(fx(0.5)).raw, -1);
    assert_eq!(Fixed::from_raw(-1).saturating_mul(fx(0.5)).raw, 0);
}

#[test]
fn product_saturates() {
    let big = Fixed::from_raw(i64::MAX);
    assert_eq!(big.saturating_mul(Fixed::from_int(2)).raw, i64::MAX);
    assert_eq!(big.saturating_mul(Fixed::from_int(-2)).raw, i64::MIN);
    assert_eq!(Fixed::from_raw(i64::MIN).saturating_mul(Fixed::from_raw(i64::MIN)).raw, i64::MAX);
}

#[test]
fn mean_is_exact_and_rounds_toward_zero() {
    assert_eq!(Fixed::from_int(1).mean(Fixed::from_int(3)), Fixed::from_int(2));
    assert_eq!(Fixed::from_raw(3).mean(Fixed::from_raw(0)).raw, 1);
    assert_eq!(Fixed::from_raw(-3).mean(Fixed::from_raw(0)).raw, -1);
    assert_eq!(Fixed::from_raw(i64::MAX).mean(Fixed::from_raw(i64::MAX)).raw, i64::MAX);
    assert_eq!(Fixed::from_raw(i64::MIN).mean(Fixed::from_raw(i64::MIN)).raw, i64::MIN);
    assert_eq!(Fixed::from_raw(i64::MIN).mean(Fixed::from_raw(i64::MAX)).raw, 0);
}

#[test]
fn mean_of_a_value_with_itself_is_the_value() {
    for raw in [0, 1, -1, 12345, -98765, ONE_RAW, -ONE_RAW, i64::MAX, i64::MIN, i64::MAX - 1] {
        let a = Fixed::from_raw(raw);
        assert_eq!(a.mean(a), a);
    }
}

#[test]
fn power_by_squaring() {
    assert_eq!(Fixed::from_int(2).powi(10), Fixed::from_int(1024));
    assert_eq!(fx(0.5).powi(3), fx(0.125));
    assert_eq!(fx(0.995).powi(0), Fixed::one());
    assert_eq!(fx(0.995).powi(1), fx(0.995));
    assert_eq!(Fixed::from_int(-1).powi(7), Fixed::from_int(-1));
    assert_eq!(Fixed::zero().powi(5), Fixed::zero());
    let p = as_float(fx(0.995).powi(1000));
    assert!((p - 0.995f64.powi(1000)).abs() < 1e-6);
}

#[test]
fn sigmoid_at_zero_is_one_half() {
    assert_eq!(Fixed::zero().sigmoid().raw, ONE_RAW / 2);
}

#[test]
fn sigmoid_follows_the_logistic_function() {
    let mut x = -24.0;
    while x <= 24.0 {
        let got = as_float(fx(x).sigmoid());
        assert!((got - logistic(x)).abs() < 1e-8, "at {}: {} against {}", x, got, logistic(x));
        x += 0.37;
    }
}

#[test]
fn sigmoid_known_values() {
    assert!((as_float(Fixed::from_int(1).sigmoid()) - 0.7310585786300049).abs() < 1e-8);
    assert!((as_float(Fixed::from_int(-1).sigmoid()) - 0.2689414213699951).abs() < 1e-8);
    assert!((as_float(Fixed::from_int(5).sigmoid()) - 0.9933071490757153).abs() < 1e-8);
}

#[test]
fn sigmoid_stays_strictly_between_zero_and_one() {
    for raw in [i64::MIN, i64::MIN + 1, -1000 * ONE_RAW, -1, 0, 1, 1000 * ONE_RAW, i64::MAX] {
        let s = Fixed::from_raw(raw).sigmoid();
        assert!(s.raw > 0 && s.raw < ONE_RAW);
    }
    assert_eq!(Fixed::from_raw(i64::MAX).sigmoid().raw, ONE_RAW - 1);
    assert_eq!(Fixed::from_raw(i64::MIN).sigmoid().raw, 1);
}

#[test]
fn sigmoid_is_symmetric_about_one_half() {
    for raw in [1, 77, ONE_RAW, 3 * ONE_RAW + 17, 40 * ONE_RAW, i64::MAX] {
        let up = Fixed::from_raw(raw).sigmoid();
        let down = Fixed::from_raw(-raw).sigmoid();
        assert_eq!(up.raw + down.raw, ONE_RAW);
    }
}

#[test]
fn sigmoid_does_not_decrease_on_a_grid() {
    let mut last = Fixed::from_int(-30).sigmoid();
    let mut x = -30.0;
    while x <= 30.0 {
        let now = fx(x).sigmoid();
        assert!(now.raw >= last.raw);
        last = now;
        x += 0.05;
    }
}

#[test]
fn sigmoid_slope_is_s_times_one_minus_s() {
    assert_eq!(Fixed::zero().sigmoid_derivative(), fx(0.25));
    for x in [-3.0, -0.5, 0.25, 2.0] {
        let s = fx(x).sigmoid();
        let expected = s.saturating_mul(Fixed::one().saturating_sub(s));
        assert_eq!(fx(x).sigmoid_derivative(), expected);
        let l = logistic(x);
        assert!((as_float(fx(x).sigmoid_derivative()) - l * (1.0 - l)).abs() < 1e-8);
    }
}

#[test]
fn sigmoid_does_not_fall_where_the_multiple_of_ln_two_changes() {
    let ln2: i64 = 2977044472;
    for k in 0..35i64 {
        let base = k * ln2;
        let mut last = Fixed::from_raw(base - 300).sigmoid();
        let mut last_down = Fixed::from_raw(-(base - 300)).sigmoid();
        for x in (base - 299)..(base + 300) {
            let now = Fixed::from_raw(x).sigmoid();
            assert!(now.raw >= last.raw, "falls at {}", x);
            last = now;
            let down = Fixed::from_raw(-x).sigmoid();
            assert!(down.raw <= last_down.raw, "falls at {}", -x);
            last_down = down;
        }
    }
}
