use macd_tracker::{calculate_ema, EngineError};

#[test]
fn ema_of_single_sample_is_that_sample() {
    for period in [1usize, 2, 9, 12, 26, 1000, usize::MAX] {
        for price in [0i64, 1, -1, 123_456_789, i64::MAX, i64::MIN] {
            assert_eq!(calculate_ema(&[price], period), Ok(vec![price]));
        }
    }
}

#[test]
fn ema_starts_at_first_sample() {
    let ema = calculate_ema(&[731, 12, 9_000, -4], 12).unwrap();
    assert_eq!(ema[0], 731);
}

#[test]
fn ema_has_one_value_per_sample() {
    for n in 1usize..60 {
        let prices: Vec<i64> = (0..n).map(|i| 1_000 + 37 * (i as i64 % 7)).collect();
        assert_eq!(calculate_ema(&prices, 12).unwrap().len(), n);
        assert_eq!(calculate_ema(&prices, 1).unwrap().len(), n);
    }
}

#[test]
fn ema_exact_values_for_period_three() {
    // period 3: each step closes 2/4 of the gap
    assert_eq!(calculate_ema(&[100, 200, 300], 3), Ok(vec![100, 150, 225]));
}

#[test]
fn ema_exact_values_for_period_four() {
    // period 4: each step closes 2/5 of the gap, rounded toward zero
    assert_eq!(calculate_ema(&[10, 20, 40, 30, -15], 4), Ok(vec![10, 14, 24, 26, 10]));
}

#[test]
fn ema_rounds_the_step_toward_zero_in_both_directions() {
    // 2 * 5 / 3 = 3.33..
    assert_eq!(calculate_ema(&[0, 5], 2), Ok(vec![0, 3]));
    assert_eq!(calculate_ema(&[0, -5], 2), Ok(vec![0, -3]));
}

#[test]
fn ema_of_mirrored_series_is_mirrored() {
    let up: Vec<i64> = vec![0, 7, 19, 4, 250, 249, 3];
    let down: Vec<i64> = up.iter().map(|p| -p).collect();
    let ema_up = calculate_ema(&up, 5).unwrap();
    let ema_down = calculate_ema(&down, 5).unwrap();
    let mirrored: Vec<i64> = ema_up.iter().map(|p| -p).collect();
    assert_eq!(ema_down, mirrored);
}

#[test]
fn ema_with_period_one_follows_the_samples() {
    let prices = vec![5, -3, 1_000_000, 0, i64::MAX, i64::MIN];
    assert_eq!(calculate_ema(&prices, 1), Ok(prices.clone()));
}

#[test]
fn ema_of_constant_series_is_constant() {
    for value in [0i64, 1, -1, 4_200, i64::MAX, i64::MIN] {
        let prices = vec![value; 200];
        assert_eq!(calculate_ema(&prices, 12), Ok(prices.clone()));
        assert_eq!(calculate_ema(&prices, 26), Ok(prices.clone()));
    }
}

#[test]
fn ema_approaches_a_level_without_ever_moving_away() {
    let mut prices = vec![0i64];
    prices.extend(std::iter::repeat(1_000).take(12));
    let ema = calculate_ema(&prices, 3).unwrap();
    assert_eq!(ema, vec![0, 500, 750, 875, 937, 968, 984, 992, 996, 998, 999, 999, 999]);
    for i in 1..ema.len() {
        assert!((1_000 - ema[i]).abs() <= (1_000 - ema[i - 1]).abs());
    }
}

#[test]
fn ema_stays_within_the_range_of_the_samples() {
    let prices = vec![40, 90, 10, 75, 75, 20, 99, 10];
    for period in [1usize, 2, 5, 12, 26] {
        for value in calculate_ema(&prices, period).unwrap() {
            assert!((10..=99).contains(&value));
        }
    }
}

#[test]
fn ema_of_empty_input_is_invalid_input() {
    assert_eq!(calculate_ema(&[], 12), Err(EngineError::InvalidInput));
}

#[test]
fn ema_with_period_zero_is_invalid_input() {
    assert_eq!(calculate_ema(&[1, 2, 3], 0), Err(EngineError::InvalidInput));
    assert_eq!(calculate_ema(&[], 0), Err(EngineError::InvalidInput));
}

#[test]
fn ema_handles_the_widest_gap() {
    assert_eq!(
        calculate_ema(&[i64::MAX, i64::MIN], 2),
        Ok(vec![i64::MAX, -3_074_457_345_618_258_603])
    );
    assert_eq!(calculate_ema(&[i64::MIN, i64::MAX], 1), Ok(vec![i64::MIN, i64::MAX]));
}

#[test]
fn ema_handles_the_longest_period() {
    let ema = calculate_ema(&[0, 1_000_000], usize::MAX).unwrap();
    assert_eq!(ema, vec![0, 0]);
}

#[test]
fn ema_updated_sample_by_sample_equals_recomputed() {
    let prices: Vec<i64> = vec![300, 310, 290, 305, 400, 120, 121, 122, 500, 0];
    let whole = calculate_ema(&prices, 4).unwrap();
    for n in 1..=prices.len() {
        let part = calculate_ema(&prices[..n], 4).unwrap();
        assert_eq!(part[..], whole[..n]);
    }
}
