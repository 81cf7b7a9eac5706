use caprand::calibrate::{best_low_time, max_bucket, CALIBRATION_TRIALS, CALIBRATION_WARMUP};
use caprand::error::RngError;
use rand_chacha::rand_core::{RngCore, SeedableRng};
use rand_chacha::ChaCha20Rng;

/// A run for one candidate: warm-up values that would skew the histogram,
/// then trials drawn from `dist` (value, weight) pairs.
fn run_from(dist: &[(u8, u32)], rng: &mut ChaCha20Rng) -> Vec<u8> {
    let total: u32 = dist.iter().map(|d| d.1).sum();
    let mut run = vec![0u8; CALIBRATION_WARMUP];
    for _ in 0..CALIBRATION_TRIALS {
        let mut x = rng.next_u32() % total;
        for &(v, w) in dist {
            if x < w {
                run.push(v);
                break;
            }
            x -= w;
        }
    }
    run
}

#[test]
fn max_bucket_counts() {
    assert_eq!(max_bucket(&[]), 0);
    assert_eq!(max_bucket(&[7]), 1);
    assert_eq!(max_bucket(&[1, 2, 2, 3, 2, 1]), 3);
    assert_eq!(max_bucket(&[255, 255, 0]), 2);
    let all: Vec<u8> = (0..=255u8).collect();
    assert_eq!(max_bucket(&all), 1);
}

#[test]
fn best_low_time_picks_smallest_fullest_bucket() {
    let mut rng = ChaCha20Rng::from_seed([7; 32]);
    // a nearly constant source, a skewed one, and a flat one over 32 values
    let skewed: Vec<(u8, u32)> = vec![(63, 4), (32, 1), (48, 1), (56, 1), (60, 1), (62, 1)];
    let flat: Vec<(u8, u32)> = (0..32u8).map(|v| (v, 1)).collect();
    let stuck: Vec<(u8, u32)> = vec![(63, 97), (62, 3)];
    let candidates = vec![30u32, 40, 50];
    let runs = vec![run_from(&stuck, &mut rng), run_from(&flat, &mut rng), run_from(&skewed, &mut rng)];
    let scores: Vec<usize> = runs.iter().map(|r| max_bucket(&r[CALIBRATION_WARMUP..])).collect();
    assert!(scores[1] < scores[2] && scores[2] < scores[0], "{:?}", scores);
    assert_eq!(best_low_time(&candidates, &runs), Ok(40));
}

#[test]
fn best_low_time_ignores_warmup() {
    // the second candidate's warm-up is constant, its trials are not
    let mut second = vec![9u8; CALIBRATION_WARMUP];
    second.extend((0..CALIBRATION_TRIALS).map(|i| (i % 50) as u8));
    let mut first = vec![0u8; CALIBRATION_WARMUP];
    first.extend((0..CALIBRATION_TRIALS).map(|i| (i % 10) as u8));
    assert_eq!(best_low_time(&vec![11, 22], &vec![first, second]), Ok(22));
}

#[test]
fn best_low_time_keeps_first_on_ties() {
    let run: Vec<u8> = (0..(CALIBRATION_WARMUP + CALIBRATION_TRIALS)).map(|i| (i % 4) as u8).collect();
    assert_eq!(best_low_time(&vec![5, 6, 7], &vec![run.clone(), run.clone(), run]), Ok(5));
}

#[test]
fn best_low_time_without_candidates() {
    assert_eq!(best_low_time(&vec![], &vec![]), Err(RngError::CapacitorOutOfRange));
}

#[test]
fn best_low_time_constant_sources_tie_and_keep_first() {
    let run = vec![63u8; CALIBRATION_WARMUP + CALIBRATION_TRIALS];
    assert_eq!(best_low_time(&vec![10, 20], &vec![run.clone(), run]), Ok(10));
    // only warm-up samples: every candidate scores 0
    assert_eq!(best_low_time(&vec![10, 20], &vec![vec![1, 2, 3], vec![4]]), Ok(10));
}
