use keyell::scalar::{integer_sqrt, Scalar, INFINITY_RAW, ONE_RAW};
use keyell::trig::{cos_half_turns, sin_half_turns, tan, tan_half_turns, HALF_RAW, PI_RAW, TWO_RAW};

fn ratio(n: i64, d: i64) -> Scalar {
    Scalar::from_ratio(n, d)
}

#[test]
fn one_times_one_is_one() {
    assert_eq!(Scalar::one().mul(Scalar::one()), Scalar::one());
}

#[test]
fn constants_have_their_raw_values() {
    assert_eq!(Scalar::zero().raw, 0);
    assert_eq!(Scalar::one().raw, 1 << 32);
    assert_eq!(ONE_RAW, 1 << 32);
    assert_eq!(Scalar::infinity().raw, i64::MAX);
    assert_eq!(INFINITY_RAW, i64::MAX);
    assert_eq!(HALF_RAW, 1 << 31);
    assert_eq!(TWO_RAW, 1 << 33);
    assert_eq!(Scalar::from_raw(77).raw, 77);
}

#[test]
fn whole_numbers_are_exact() {
    assert_eq!(Scalar::from_int(3).raw, 3 << 32);
    assert_eq!(Scalar::from_int(-3).raw, -(3 << 32));
    assert_eq!(Scalar::from_int(i32::MIN).raw, i64::MIN);
    assert_eq!(Scalar::from_int(i32::MAX).raw, (i32::MAX as i64) << 32);
}

#[test]
fn counts_saturate_beyond_the_range() {
    assert_eq!(Scalar::from_count(0), Scalar::zero());
    assert_eq!(Scalar::from_count(10), Scalar::from_int(10));
    assert_eq!(Scalar::from_count(0x7fff_ffff).raw, 0x7fff_ffff << 32);
    assert_eq!(Scalar::from_count(0x8000_0000).raw, i64::MAX);
    assert_eq!(Scalar::from_count(usize::MAX).raw, i64::MAX);
}

#[test]
fn ratios_round_toward_zero() {
    assert_eq!(ratio(1, 2).raw, 1 << 31);
    assert_eq!(ratio(1, 3).raw, 1431655765);
    assert_eq!(ratio(-1, 3).raw, -1431655765);
    assert_eq!(ratio(1, -3).raw, -1431655765);
    assert_eq!(ratio(-1, -3).raw, 1431655765);
    assert_eq!(ratio(1, 1000).raw, 0x41_8937);
}

#[test]
fn sums_and_differences_saturate() {
    assert_eq!(ratio(1, 2).add(ratio(1, 4)), ratio(3, 4));
    assert_eq!(ratio(1, 2).sub(ratio(3, 4)), ratio(-1, 4));
    assert_eq!(Scalar::infinity().add(Scalar::one()).raw, i64::MAX);
    assert_eq!(Scalar::from_raw(i64::MIN).sub(Scalar::one()).raw, i64::MIN);
    assert_eq!(Scalar::from_raw(i64::MIN).add(Scalar::infinity()).raw, -1);
}

#[test]
fn negation_and_magnitude_saturate_at_the_lowest_value() {
    assert_eq!(ratio(1, 2).neg(), ratio(-1, 2));
    assert_eq!(ratio(-1, 2).neg(), ratio(1, 2));
    assert_eq!(Scalar::zero().neg(), Scalar::zero());
    assert_eq!(Scalar::from_raw(i64::MIN).neg().raw, i64::MAX);
    assert_eq!(ratio(-3, 4).abs(), ratio(3, 4));
    assert_eq!(ratio(3, 4).abs(), ratio(3, 4));
    assert_eq!(Scalar::from_raw(i64::MIN).abs().raw, i64::MAX);
}

#[test]
fn products_round_toward_zero_and_saturate() {
    assert_eq!(ratio(1, 2).mul(ratio(1, 2)), ratio(1, 4));
    assert_eq!(ratio(-1, 2).mul(ratio(1, 2)), ratio(-1, 4));
    assert_eq!(ratio(-1, 2).mul(ratio(-1, 2)), ratio(1, 4));
    assert_eq!(Scalar::from_int(3).mul(Scalar::from_int(-7)), Scalar::from_int(-21));
    assert_eq!(Scalar::from_raw(1).mul(Scalar::from_raw(1)).raw, 0);
    assert_eq!(Scalar::from_raw(-1).mul(Scalar::from_raw(1)).raw, 0);
    assert_eq!(Scalar::from_raw(3).mul(ratio(1, 2)).raw, 1);
    assert_eq!(Scalar::from_raw(-3).mul(ratio(1, 2)).raw, -1);
    assert_eq!(Scalar::infinity().mul(Scalar::from_int(2)).raw, i64::MAX);
    assert_eq!(Scalar::infinity().mul(Scalar::from_int(-2)).raw, i64::MIN);
    assert_eq!(Scalar::infinity().mul(Scalar::zero()).raw, 0);
    assert_eq!(Scalar::from_raw(i64::MIN).mul(Scalar::from_raw(i64::MIN)).raw, i64::MAX);
}

#[test]
fn quotients_round_toward_zero_and_saturate() {
    assert_eq!(Scalar::one().div(Scalar::from_int(2)), ratio(1, 2));
    assert_eq!(Scalar::from_int(7).div(Scalar::from_int(-2)), ratio(-7, 2));
    assert_eq!(Scalar::from_raw(5).div(Scalar::from_int(2)).raw, 2);
    assert_eq!(Scalar::from_raw(-5).div(Scalar::from_int(2)).raw, -2);
    assert_eq!(Scalar::from_int(1000).div(Scalar::from_raw(1)).raw, i64::MAX);
    assert_eq!(Scalar::from_int(-1000).div(Scalar::from_raw(1)).raw, i64::MIN);
}

#[test]
fn division_by_zero_gives_the_end_of_the_range() {
    assert_eq!(Scalar::one().div(Scalar::zero()).raw, i64::MAX);
    assert_eq!(Scalar::one().neg().div(Scalar::zero()).raw, i64::MIN);
    assert_eq!(Scalar::zero().div(Scalar::zero()).raw, 0);
}

#[test]
fn square_root_of_a_quarter_is_a_half() {
    assert_eq!(ratio(1, 4).sqrt(), ratio(1, 2));
}

#[test]
fn square_roots_round_down() {
    assert_eq!(Scalar::from_int(4).sqrt(), Scalar::from_int(2));
    assert_eq!(Scalar::from_int(2).sqrt().raw, 6074000999);
    assert_eq!(Scalar::zero().sqrt(), Scalar::zero());
    assert_eq!(Scalar::from_int(-4).sqrt(), Scalar::zero());
    assert_eq!(Scalar::from_raw(1).sqrt().raw, 65536);
    let top = Scalar::infinity().sqrt().raw as i128;
    let n = (i64::MAX as i128) << 32;
    assert!(top * top <= n && n < (top + 1) * (top + 1));
}

#[test]
fn integer_square_root_is_the_floor() {
    assert_eq!(integer_sqrt(0), 0);
    assert_eq!(integer_sqrt(1), 1);
    assert_eq!(integer_sqrt(3), 1);
    assert_eq!(integer_sqrt(4), 2);
    assert_eq!(integer_sqrt(99), 9);
    assert_eq!(integer_sqrt(100), 10);
    assert_eq!(integer_sqrt(u128::MAX), u64::MAX as u128);
    assert_eq!(integer_sqrt(1 << 126), 1 << 63);
}

#[test]
fn sine_is_exact_at_the_quarter_turns() {
    assert_eq!(sin_half_turns(Scalar::zero()), Scalar::zero());
    assert_eq!(sin_half_turns(ratio(1, 2)), Scalar::one());
    assert_eq!(sin_half_turns(Scalar::one()), Scalar::zero());
    assert_eq!(sin_half_turns(ratio(3, 2)), Scalar::one().neg());
    assert_eq!(sin_half_turns(Scalar::from_int(2)), Scalar::zero());
    assert_eq!(sin_half_turns(ratio(5, 2)), Scalar::one());
    assert_eq!(sin_half_turns(ratio(-1, 2)), Scalar::one().neg());
    assert_eq!(sin_half_turns(ratio(-3, 2)), Scalar::one());
}

#[test]
fn sine_of_thirty_degrees_is_a_half() {
    let s = sin_half_turns(ratio(1, 6));
    assert!((s.raw - (1 << 31)).abs() <= 8);
}

#[test]
fn sine_stays_close_to_the_true_sine() {
    for k in 0..=200 {
        let x = ratio(k - 100, 50);
        let got = sin_half_turns(x).raw as f64 / 4294967296.0;
        let want = (std::f64::consts::PI * (k - 100) as f64 / 50.0).sin();
        assert!((got - want).abs() < 0.002);
        assert!(got.abs() <= 1.0);
    }
}

#[test]
fn sine_is_odd() {
    for k in 0..100 {
        let x = ratio(k, 37);
        assert_eq!(sin_half_turns(x.neg()), sin_half_turns(x).neg());
    }
}

#[test]
fn cosine_is_the_sine_a_quarter_turn_on() {
    assert_eq!(cos_half_turns(Scalar::zero()), Scalar::one());
    assert_eq!(cos_half_turns(ratio(1, 2)), Scalar::zero());
    assert_eq!(cos_half_turns(Scalar::one()), Scalar::one().neg());
    assert_eq!(cos_half_turns(ratio(1, 4)), sin_half_turns(ratio(1, 4)));
}

#[test]
fn tangent_of_an_eighth_turn_is_one() {
    assert_eq!(tan_half_turns(ratio(1, 4)), Scalar::one());
    assert_eq!(tan_half_turns(Scalar::zero()), Scalar::zero());
    assert_eq!(tan_half_turns(ratio(1, 2)).raw, i64::MAX);
}

#[test]
fn tangent_in_radians_of_a_quarter_of_pi_is_about_one() {
    let quarter_pi = Scalar::from_raw(PI_RAW).div(Scalar::from_int(4));
    let t = tan(quarter_pi);
    assert!((t.raw - ONE_RAW).abs() < 64);
    assert_eq!(PI_RAW, 13493037704);
}
