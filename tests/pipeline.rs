use rsi_processor::pipeline::{process_payload, process_trade, Trade};
use rsi_processor::rsi::Rsi;
use rsi_processor::window::PriceWindows;

const TICKS: i64 = 1_000_000_000_000;

fn trade(token: &str, price: i64, time: &str) -> Trade {
    Trade { token_address: token.to_string(), price, block_time: time.to_string() }
}

#[test]
fn fifteen_rising_trades_read_hundred() {
    let mut store = PriceWindows::new();
    for k in 1..=15i64 {
        let t = trade("X", k * TICKS, &format!("t{}", k - 1));
        let r = process_payload(&mut store, Some(t)).unwrap();
        assert_eq!(r.token, "X");
        assert_eq!(r.time, format!("t{}", k - 1));
        assert_eq!(r.price, k * TICKS);
        if k < 15 {
            assert_eq!(r.rsi, Rsi { num: 0, den: 1 });
        } else {
            assert_eq!(r.rsi, Rsi { num: 1, den: 1 });
            assert_eq!(100.0 * r.rsi.num as f64 / r.rsi.den as f64, 100.0);
            assert_eq!(r.price, 15 * TICKS);
        }
    }
}

#[test]
fn undecodable_payload_is_dropped() {
    let mut store = PriceWindows::new();
    let x = String::from("X");
    process_trade(&mut store, &trade("X", 3, "t0"));
    assert!(process_payload(&mut store, None).is_none());
    assert_eq!(store.window(&x), vec![3]);
}

#[test]
fn reading_copies_trade_fields() {
    let mut store = PriceWindows::new();
    let r = process_trade(&mut store, &trade("So11", -5, "2024-01-01T00:00:00Z"));
    assert_eq!(r.token, "So11");
    assert_eq!(r.time, "2024-01-01T00:00:00Z");
    assert_eq!(r.price, -5);
    assert_eq!(r.rsi, Rsi { num: 0, den: 1 });
}
