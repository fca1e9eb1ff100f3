//! Validation of distribution parameters: the standard deviation must be a
//! positive finite number; the mean is unrestricted.

use datapool::{NormalParams32, NormalParams64, SampleError};

#[test]
fn rejects_nonpositive_and_nonfinite_std_dev_f64() {
    for bad in [
        -1.0f64,
        0.0,
        -0.0,
        f64::NAN,
        f64::INFINITY,
        f64::NEG_INFINITY,
        -f64::MIN_POSITIVE,
        f64::MIN,
    ] {
        let r = NormalParams64::new(0.0f64.to_bits(), bad.to_bits());
        assert!(matches!(r, Err(SampleError::InvalidDistributionParameters)));
    }
}

#[test]
fn rejects_nonpositive_and_nonfinite_std_dev_f32() {
    for bad in [-1.0f32, 0.0, -0.0, f32::NAN, f32::INFINITY, f32::NEG_INFINITY, f32::MIN] {
        let r = NormalParams32::new(0.0f32.to_bits(), bad.to_bits());
        assert!(matches!(r, Err(SampleError::InvalidDistributionParameters)));
    }
}

#[test]
fn accepts_positive_finite_std_dev_f64() {
    for good in [1.0f64, 0.5, 42.0, f64::MIN_POSITIVE, 5e-324, f64::MAX] {
        let p = NormalParams64::new(2.5f64.to_bits(), good.to_bits()).unwrap();
        assert_eq!(p.mean_bits, 2.5f64.to_bits());
        assert_eq!(p.std_dev_bits, good.to_bits());
    }
}

#[test]
fn accepts_positive_finite_std_dev_f32() {
    for good in [1.0f32, 0.5, 42.0, f32::MIN_POSITIVE, f32::MAX] {
        let p = NormalParams32::new(2.5f32.to_bits(), good.to_bits()).unwrap();
        assert_eq!(p.mean_bits, 2.5f32.to_bits());
        assert_eq!(p.std_dev_bits, good.to_bits());
    }
}

#[test]
fn any_mean_is_accepted() {
    for mean in [0.0f64, -1.0e308, f64::NAN, f64::INFINITY, f64::NEG_INFINITY] {
        assert!(NormalParams64::new(mean.to_bits(), 1.0f64.to_bits()).is_ok());
    }
    for mean in [0.0f32, -1.0e38, f32::NAN, f32::INFINITY] {
        assert!(NormalParams32::new(mean.to_bits(), 1.0f32.to_bits()).is_ok());
    }
}
