use macd_tracker::{calculate_ema, calculate_macd, EngineError};

fn rising_prices() -> Vec<i64> {
    // 1.0, 1.1, ... 4.9 in thousandths
    (0..40).map(|i| 1_000 + 100 * i).collect()
}

#[test]
fn macd_lines_are_as_long_as_the_prices() {
    for n in 1usize..50 {
        let prices: Vec<i64> = (0..n).map(|i| 500 + 13 * ((i * i) as i64 % 11)).collect();
        let (macd, signal) = calculate_macd(&prices, 12, 26, 9).unwrap();
        assert_eq!(macd.len(), n);
        assert_eq!(signal.len(), n);
    }
}

#[test]
fn macd_exact_values_for_small_periods() {
    // fast 1 follows the prices; slow 3 gives 100, 150, 225
    assert_eq!(calculate_macd(&[100, 200, 300], 1, 3, 3), Ok((vec![0, 50, 75], vec![0, 25, 50])));
    assert_eq!(calculate_macd(&[100, 200, 300], 1, 3, 1), Ok((vec![0, 50, 75], vec![0, 50, 75])));
}

#[test]
fn macd_exact_values_for_default_periods() {
    let (macd, signal) = calculate_macd(&rising_prices(), 12, 26, 9).unwrap();
    assert_eq!(macd[33..], [608, 615, 622, 628, 634, 639, 644]);
    assert_eq!(signal[33..], [564, 574, 583, 592, 600, 607, 614]);
}

#[test]
fn macd_is_fast_average_minus_slow_average() {
    let prices = rising_prices();
    let fast = calculate_ema(&prices, 12).unwrap();
    let slow = calculate_ema(&prices, 26).unwrap();
    let (macd, signal) = calculate_macd(&prices, 12, 26, 9).unwrap();
    for i in 0..prices.len() {
        assert_eq!(macd[i], fast[i] - slow[i]);
    }
    assert_eq!(signal, calculate_ema(&macd, 9).unwrap());
}

#[test]
fn macd_starts_at_zero() {
    let (macd, signal) = calculate_macd(&[777, 780, 790], 12, 26, 9).unwrap();
    assert_eq!(macd[0], 0);
    assert_eq!(signal[0], 0);
}

#[test]
fn macd_of_single_price() {
    assert_eq!(calculate_macd(&[5_000], 12, 26, 9), Ok((vec![0], vec![0])));
}

#[test]
fn macd_of_constant_prices_is_zero() {
    let prices = vec![123_456i64; 60];
    assert_eq!(calculate_macd(&prices, 12, 26, 9), Ok((vec![0; 60], vec![0; 60])));
}

#[test]
fn macd_with_equal_periods_is_zero() {
    assert_eq!(calculate_macd(&[5, 900, -40, 12], 7, 7, 3), Ok((vec![0; 4], vec![0; 4])));
}

#[test]
fn macd_of_empty_prices_is_invalid_input() {
    assert_eq!(calculate_macd(&[], 12, 26, 9), Err(EngineError::InvalidInput));
}

#[test]
fn macd_with_a_zero_period_is_invalid_input() {
    assert_eq!(calculate_macd(&[1, 2, 3], 0, 26, 9), Err(EngineError::InvalidInput));
    assert_eq!(calculate_macd(&[1, 2, 3], 12, 0, 9), Err(EngineError::InvalidInput));
    assert_eq!(calculate_macd(&[1, 2, 3], 12, 26, 0), Err(EngineError::InvalidInput));
}

#[test]
fn macd_value_beyond_64_bits_is_overflow() {
    // the fast average jumps to the top at once, the slow one barely moves
    assert_eq!(calculate_macd(&[i64::MIN, i64::MAX], 1, 1000, 9), Err(EngineError::Overflow));
    assert_eq!(calculate_macd(&[i64::MAX, i64::MIN], 1, 1000, 9), Err(EngineError::Overflow));
}

#[test]
fn macd_invalid_input_is_reported_before_overflow() {
    assert_eq!(calculate_macd(&[i64::MIN, i64::MAX], 1, 1000, 0), Err(EngineError::InvalidInput));
}

#[test]
fn macd_of_the_widest_jump_with_default_periods() {
    assert_eq!(
        calculate_macd(&[i64::MIN, i64::MAX], 12, 26, 9),
        Ok((vec![0, 1_471_535_139_783_098_135], vec![0, 294_307_027_956_619_627]))
    );
}

#[test]
fn macd_of_nonnegative_prices_never_overflows() {
    let prices = vec![0, i64::MAX, 0, i64::MAX, i64::MAX, 0, 0, 0, i64::MAX];
    for (fast, slow) in [(1usize, 1000usize), (1000, 1), (12, 26), (1, usize::MAX)] {
        assert!(calculate_macd(&prices, fast, slow, 9).is_ok());
    }
}
