use fdn_reverb::utils::{
    clamp, coprime, coprime_with_progression, coprime_with_series, gcd, max, Ratio,
};

#[test]
fn clamp_brings_values_into_range() {
    assert_eq!(clamp(5, 1, 3), 3);
    assert_eq!(clamp(-5, 1, 3), 1);
    assert_eq!(clamp(2, 1, 3), 2);
    assert_eq!(clamp(1, 1, 3), 1);
    assert_eq!(clamp(3, 1, 3), 3);
    assert_eq!(clamp(0.25f32, 0.0, 0.6), 0.25);
    assert_eq!(clamp(0.0f32, 0.0, 0.6), 0.0);
    assert_eq!(clamp(0.6f32, 0.0, 0.6), 0.6);
    assert_eq!(clamp(-0.5f32, 0.0, 0.6), 0.0);
}

#[test]
fn decay_of_two_is_clamped_to_the_stable_gain() {
    let gain: f32 = clamp(2.0f32, 0.0, 0.6);
    assert_eq!(gain, 0.6);
    assert!(gain < 1.0);
}

#[test]
fn max_picks_the_greater() {
    assert_eq!(max(1, 2), 2);
    assert_eq!(max(2, 1), 2);
    assert_eq!(max(2, 2), 2);
    assert_eq!(max(0.5f32, 1.0), 1.0);
    assert_eq!(max(1.5f32, 1.0), 1.5);
}

#[test]
fn gcd_of_known_pairs() {
    assert_eq!(gcd(12, 18), 6);
    assert_eq!(gcd(18, 12), 6);
    assert_eq!(gcd(17, 5), 1);
    assert_eq!(gcd(0, 9), 9);
    assert_eq!(gcd(9, 0), 9);
    assert_eq!(gcd(0, 0), 0);
    assert_eq!(gcd(1, 1), 1);
    assert_eq!(gcd(48000, 44100), 300);
    assert_eq!(gcd(u64::MAX, u64::MAX), u64::MAX);
    assert_eq!(gcd(u64::MAX, 2), 1);
}

#[test]
fn coprime_of_known_pairs() {
    assert!(coprime(14400, 16709));
    assert!(!coprime(14400, 16704));
    assert!(coprime(1, 1));
    assert!(coprime(0, 1));
    assert!(!coprime(0, 0));
    assert!(!coprime(0, 2));
    assert!(!coprime(7, 7));
}

#[test]
fn coprime_with_series_checks_every_member() {
    assert!(coprime_with_series(7, &[2, 3, 5]));
    assert!(!coprime_with_series(9, &[2, 3, 5]));
    assert!(!coprime_with_series(10, &[3, 7, 5]));
    assert!(coprime_with_series(10, &[]));
    assert!(coprime_with_series(1, &[1, 1]));
}

fn ratio(numer: u64, denom: u64) -> Ratio {
    Ratio { numer, denom }
}

#[test]
fn progression_for_the_default_room() {
    assert_eq!(
        coprime_with_progression(14400, ratio(116, 100), 4),
        Some(vec![14400, 16709, 19387, 22489])
    );
    assert_eq!(
        coprime_with_progression(13230, ratio(29, 25), 4),
        Some(vec![13230, 15347, 17803, 20651])
    );
    assert_eq!(
        coprime_with_progression(29090, ratio(116, 100), 4),
        Some(vec![29090, 33747, 39149, 45413])
    );
}

#[test]
fn progression_small_cases() {
    assert_eq!(coprime_with_progression(2, ratio(3, 2), 6), Some(vec![2, 3, 5, 7, 11, 17]));
    assert_eq!(coprime_with_progression(10, ratio(2, 1), 5), Some(vec![10, 21, 43, 89, 179]));
    assert_eq!(
        coprime_with_progression(100, ratio(1, 1), 5),
        Some(vec![100, 101, 103, 107, 109])
    );
    assert_eq!(coprime_with_progression(7, ratio(1, 2), 4), Some(vec![7, 3, 1, 1]));
    assert_eq!(coprime_with_progression(5, ratio(3, 2), 1), Some(vec![5]));
    assert_eq!(coprime_with_progression(5, ratio(3, 2), 0), Some(vec![]));
}

#[test]
fn progression_from_zero_or_one_does_not_grow() {
    assert_eq!(coprime_with_progression(1, ratio(3, 2), 3), Some(vec![1, 1, 1]));
    assert_eq!(coprime_with_progression(0, ratio(3, 2), 3), Some(vec![0, 1, 1]));
}

#[test]
fn progression_is_increasing_and_pairwise_coprime() {
    for start in [2u64, 3, 10, 97, 1000, 14400, 48000] {
        for (numer, denom) in [(1u64, 1u64), (11, 10), (29, 25), (3, 2), (2, 1), (7, 3)] {
            let series = coprime_with_progression(start, ratio(numer, denom), 6).unwrap();
            assert_eq!(series.len(), 6);
            assert_eq!(series[0], start);
            for i in 0..series.len() {
                for j in i + 1..series.len() {
                    assert!(series[i] < series[j]);
                    assert_eq!(gcd(series[i], series[j]), 1);
                }
            }
            for i in 1..series.len() {
                let floor = (series[i - 1] as u128 * numer as u128 / denom as u128) as u64;
                assert!(series[i] >= floor);
                for skipped in floor..series[i] {
                    assert!(!coprime_with_series(skipped, &series[..i]));
                }
            }
        }
    }
}

#[test]
fn progression_after_a_zero_is_refused_where_it_must_grow() {
    assert_eq!(coprime_with_progression(0, ratio(4, 1), 2), Some(vec![0, 1]));
    assert_eq!(coprime_with_progression(0, ratio(4, 1), 3), None);
    assert_eq!(coprime_with_progression(0, ratio(2, 1), 4), None);
    assert_eq!(coprime_with_progression(1, ratio(1, 2), 4), Some(vec![1, 0, 1, 1]));
    assert_eq!(coprime_with_progression(0, ratio(3, 2), 4), Some(vec![0, 1, 1, 1]));
}

#[test]
fn progression_that_does_not_fit_is_refused() {
    assert_eq!(coprime_with_progression(1 << 63, ratio(2, 1), 2), None);
    assert_eq!(coprime_with_progression(u64::MAX, ratio(1, 1), 2), None);
    assert_eq!(coprime_with_progression(u64::MAX, ratio(1, 1), 1), Some(vec![u64::MAX]));
}

#[test]
fn progression_by_a_ratio_over_zero_is_refused() {
    assert_eq!(coprime_with_progression(5, ratio(1, 0), 2), None);
    assert_eq!(coprime_with_progression(5, ratio(1, 0), 1), Some(vec![5]));
}
