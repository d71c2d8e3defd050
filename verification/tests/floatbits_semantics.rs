//! The bit-level predicates against real `f64` behaviour.

use std::cmp::Ordering;

use acmi_rewriter::floatbits::feq_exec;
use acmi_rewriter::floatbits::fle_exec;
use acmi_rewriter::floatbits::fmin_exec;
use acmi_rewriter::floatbits::fpos_exec;
use acmi_rewriter::floatbits::is_nan_exec;

fn sample_values() -> Vec<f64> {
    vec![
        0.0,
        -0.0,
        1.5,
        -1.5,
        10.0,
        1.0e300,
        -1.0e300,
        5e-324,
        -5e-324,
        f64::INFINITY,
        f64::NEG_INFINITY,
        f64::NAN,
        -f64::NAN,
        f64::MAX,
        f64::MIN,
    ]
}

#[test]
fn ieee_equality_matches_f64() {
    for &a in &sample_values() {
        for &b in &sample_values() {
            assert_eq!(feq_exec(a.to_bits(), b.to_bits()), a == b, "feq on {a} and {b}");
        }
    }
}

#[test]
fn nan_test_matches_f64() {
    for &a in &sample_values() {
        assert_eq!(is_nan_exec(a.to_bits()), a.is_nan(), "is_nan on {a}");
    }
}

#[test]
fn strict_positivity_matches_f64() {
    for &a in &sample_values() {
        assert_eq!(fpos_exec(a.to_bits()), a > 0.0, "fpos on {a}");
    }
}

#[test]
fn total_order_matches_total_cmp() {
    for &a in &sample_values() {
        for &b in &sample_values() {
            assert_eq!(
                fle_exec(a.to_bits(), b.to_bits()),
                a.total_cmp(&b) != Ordering::Greater,
                "fle on {a} and {b}"
            );
        }
    }
}

#[test]
fn total_minimum_places_nans_at_the_extremes() {
    // the raw total order puts a positive NaN above every real...
    let m = fmin_exec(5.0f64.to_bits(), f64::NAN.to_bits());
    assert_eq!(m, 5.0f64.to_bits());
    let m = fmin_exec(f64::NAN.to_bits(), (-3.0f64).to_bits());
    assert_eq!(m, (-3.0f64).to_bits());
    // ...but a NEGATIVE NaN below every real: the raw order alone would let
    // it displace a real minimum, which is why the scanner filters NaNs out
    // before comparing
    let m = fmin_exec((-f64::NAN).to_bits(), (-3.0f64).to_bits());
    assert_eq!(m, (-f64::NAN).to_bits());
    let m = fmin_exec(5.0f64.to_bits(), (-f64::NAN).to_bits());
    assert_eq!(m, (-f64::NAN).to_bits());
}
