use rsi_processor::rsi::{rsi, Rsi};

fn value(r: Rsi) -> f64 {
    100.0 * r.num as f64 / r.den as f64
}

#[test]
fn short_history_reads_sentinel() {
    for n in 0..15 {
        let prices: Vec<i64> = (1..=n).collect();
        assert_eq!(rsi(&prices), Rsi { num: 0, den: 1 });
    }
}

#[test]
fn ascending_reads_hundred() {
    let prices: Vec<i64> = (1..=15).collect();
    let r = rsi(&prices);
    assert_eq!(r, Rsi { num: 1, den: 1 });
    assert_eq!(value(r), 100.0);
}

#[test]
fn descending_reads_zero() {
    let prices: Vec<i64> = (1..=15).rev().collect();
    let r = rsi(&prices);
    assert_eq!(r.num, 0);
    assert!(r.den > 0);
    assert_eq!(value(r), 0.0);
}

#[test]
fn flat_prices_read_hundred() {
    let prices: Vec<i64> = vec![7; 15];
    assert_eq!(rsi(&prices), Rsi { num: 1, den: 1 });
}

#[test]
fn mixed_moves_give_exact_fraction() {
    // Gains: 2 + 3 + 1 = 6; losses: 1 + 2 + 1 = 4.
    let prices: Vec<i64> = vec![10, 12, 11, 11, 14, 12, 12, 12, 13, 12, 12, 12, 12, 12, 12];
    let r = rsi(&prices);
    assert_eq!(r, Rsi { num: 6, den: 10 });
    assert!((value(r) - 60.0).abs() < 1e-9);
    // Same as the textbook form 100 - 100 / (1 + avg_gain / avg_loss).
    let rs = (6.0 / 14.0) / (4.0 / 14.0);
    assert!((value(r) - (100.0 - 100.0 / (1.0 + rs))).abs() < 1e-9);
}

#[test]
fn older_prices_are_ignored() {
    let recent: Vec<i64> = vec![10, 12, 11, 11, 14, 12, 12, 12, 13, 12, 12, 12, 12, 12, 12];
    let mut longer: Vec<i64> = vec![500, -3, 80, 1, 2];
    longer.extend(recent.iter().copied());
    assert_eq!(rsi(&longer), rsi(&recent));
}

#[test]
fn extreme_prices_do_not_overflow() {
    let mut prices: Vec<i64> = Vec::new();
    for i in 0..15 {
        prices.push(if i % 2 == 0 { i64::MIN } else { i64::MAX });
    }
    let r = rsi(&prices);
    let step = (i64::MAX as i128 - i64::MIN as i128) as u128;
    assert_eq!(r, Rsi { num: 7 * step, den: 14 * step });
}
