use bram_engine::error::AudioError;
use bram_engine::reduce::reduce;

#[test]
fn zero_target_is_invalid_whatever_the_input() {
    assert_eq!(reduce(&vec![], 0), Err(AudioError::InvalidArgument));
    assert_eq!(reduce(&vec![1, 2, 3], 0), Err(AudioError::InvalidArgument));
    assert_eq!(reduce(&vec![5; 100_000], 0), Err(AudioError::InvalidArgument));
}

#[test]
fn no_samples_give_zero_points() {
    assert_eq!(reduce(&vec![], 5).unwrap(), vec![0, 0, 0, 0, 0]);
}

#[test]
fn even_windows_keep_their_peaks() {
    assert_eq!(reduce(&vec![1, -5, 3, 2, -7, 0], 3).unwrap(), vec![5, 3, 7]);
}

#[test]
fn uneven_windows_use_floor_boundaries() {
    assert_eq!(reduce(&vec![1, 2, 3, 4, -9], 2).unwrap(), vec![2, 9]);
    assert_eq!(reduce(&vec![9, 1, 1, 1, 1, 1, 8], 3).unwrap(), vec![9, 1, 8]);
}

#[test]
fn more_points_than_samples_duplicate_samples() {
    assert_eq!(reduce(&vec![3, -8], 4).unwrap(), vec![3, 3, 8, 8]);
    assert_eq!(reduce(&vec![-4], 3).unwrap(), vec![4, 4, 4]);
}

#[test]
fn most_negative_sample_has_full_magnitude() {
    assert_eq!(reduce(&vec![i32::MIN, i32::MAX], 1).unwrap(), vec![2_147_483_648]);
}

#[test]
fn length_always_matches_target() {
    for n in [0usize, 1, 7, 100, 1000] {
        for t in [1usize, 2, 3, 99, 100, 101, 2500] {
            let samples: Vec<i32> = (0..n as i32).collect();
            assert_eq!(reduce(&samples, t).unwrap().len(), t);
        }
    }
}

#[test]
fn reduction_is_repeatable() {
    let samples: Vec<i32> = (0..1000).map(|i| (i * 7919 % 2001) - 1000).collect();
    assert_eq!(reduce(&samples, 37).unwrap(), reduce(&samples, 37).unwrap());
}

#[test]
fn a_spike_is_never_attenuated() {
    let mut samples = vec![10i32; 1000];
    samples[513] = -30_000;
    let points = reduce(&samples, 10).unwrap();
    assert_eq!(points[5], 30_000);
    assert!(points.iter().all(|&p| p >= 10));
}

#[test]
fn last_window_absorbs_the_remainder() {
    let mut samples = vec![0i32; 8];
    samples[4] = 9;
    assert_eq!(reduce(&samples, 3).unwrap(), vec![0, 0, 9]);
    let ramp: Vec<i32> = (1..=10).collect();
    assert_eq!(reduce(&ramp, 3).unwrap(), vec![3, 6, 10]);
    assert_eq!(reduce(&vec![5, 0, 0, 0, 0, 7, 0], 2).unwrap(), vec![5, 7]);
}
