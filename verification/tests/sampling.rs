//! Generation scenarios: the draws are made with the same generators the
//! front end uses (a ChaCha8 stream when seeded, ambient entropy when not),
//! validated and serialized by the library.

use datapool::{to_u8_f64, Endianess, NormalParams64, SampleError};
use rand::SeedableRng;
use rand_distr::Distribution;

fn draw_f64(
    mean: f64,
    std_dev: f64,
    count: usize,
    seed: Option<u64>,
) -> Result<Vec<u64>, SampleError> {
    let params = NormalParams64::new(mean.to_bits(), std_dev.to_bits())?;
    let normal = rand_distr::Normal::new(
        f64::from_bits(params.mean_bits),
        f64::from_bits(params.std_dev_bits),
    )
    .expect("a positive finite standard deviation is finite");
    let values: Vec<f64> = match seed {
        Some(s) => {
            let mut rng = rand_chacha::ChaCha8Rng::seed_from_u64(s);
            (0..count).map(|_| normal.sample(&mut rng)).collect()
        }
        None => {
            let mut rng = rand::thread_rng();
            (0..count).map(|_| normal.sample(&mut rng)).collect()
        }
    };
    Ok(values.iter().map(|v| v.to_bits()).collect())
}

#[test]
fn zero_count_yields_empty_sequence_and_empty_buffer() {
    let bits = draw_f64(3.5, 0.25, 0, Some(7)).unwrap();
    assert!(bits.is_empty());
    assert!(to_u8_f64(&bits, Endianess::Little).is_empty());
    let bits = draw_f64(3.5, 0.25, 0, None).unwrap();
    assert!(bits.is_empty());
}

#[test]
fn seeded_runs_are_byte_identical() {
    let first = draw_f64(0.0, 1.0, 5, Some(42)).unwrap();
    let second = draw_f64(0.0, 1.0, 5, Some(42)).unwrap();
    assert_eq!(first, second);
    let first_bytes = to_u8_f64(&first, Endianess::Little);
    let second_bytes = to_u8_f64(&second, Endianess::Little);
    assert_eq!(first_bytes.len(), 40);
    assert_eq!(first_bytes, second_bytes);
}

#[test]
fn distinct_seeds_give_distinct_sequences() {
    let a = draw_f64(0.0, 1.0, 8, Some(1)).unwrap();
    let b = draw_f64(0.0, 1.0, 8, Some(2)).unwrap();
    assert_ne!(a, b);
}

#[test]
fn unseeded_runs_are_not_reproducible() {
    let a = draw_f64(0.0, 1.0, 16, None).unwrap();
    let b = draw_f64(0.0, 1.0, 16, None).unwrap();
    assert_ne!(a, b);
}

#[test]
fn invalid_std_dev_fails_before_any_sampling() {
    let r = draw_f64(0.0, -1.0, 5, None);
    assert!(matches!(r, Err(SampleError::InvalidDistributionParameters)));
    let r = draw_f64(0.0, f64::NAN, 5, Some(3));
    assert!(matches!(r, Err(SampleError::InvalidDistributionParameters)));
}
