use crypto_in_one_rs::decimal::{dec_from_str, Dec};
use crypto_in_one_rs::exchanges::binance::{binance_subscription, is_binance_depth_text};
use crypto_in_one_rs::exchanges::bybit::{bybit_subscription, is_bybit_depth_text, Pong};
use crypto_in_one_rs::exchanges::okx::okx_subscription;
use crypto_in_one_rs::text::contains_substr;

#[test]
fn parse_reads_mantissa_and_scale() {
    let d = dec_from_str("100.5").unwrap();
    assert_eq!(d, Dec { mantissa: 1005, scale: 1 });
    let d = dec_from_str("0.10").unwrap();
    assert_eq!(d, Dec { mantissa: 10, scale: 2 });
    let d = dec_from_str("-3").unwrap();
    assert_eq!(d, Dec { mantissa: -3, scale: 0 });
}

#[test]
fn parse_rejects_malformed_strings() {
    assert!(dec_from_str("abc").is_none());
    assert!(dec_from_str("").is_none());
    assert!(dec_from_str("1.2.3").is_none());
}

#[test]
fn value_equality_ignores_trailing_zeros() {
    let a = dec_from_str("100.5").unwrap();
    let b = dec_from_str("100.50").unwrap();
    assert_ne!(a, b);
    assert!(a.eq_val(&b));
    assert!(!a.lt(&b));
    assert!(!b.lt(&a));
}

#[test]
fn order_is_numeric_across_scales() {
    let a = dec_from_str("10.05").unwrap();
    let b = dec_from_str("100.5").unwrap();
    assert!(a.lt(&b));
    assert!(!b.lt(&a));
    let neg = dec_from_str("-1.5").unwrap();
    let small = dec_from_str("0.1").unwrap();
    assert!(neg.lt(&small));
    assert!(!small.lt(&neg));
    let negger = dec_from_str("-2").unwrap();
    assert!(negger.lt(&neg));
}

#[test]
fn order_handles_large_mantissas() {
    let big = dec_from_str("79228162514264337593543950335").unwrap();
    let small = dec_from_str("79228162514264337593543950334").unwrap();
    assert!(small.lt(&big));
    let frac = dec_from_str("7.9228162514264337593543950335").unwrap();
    assert!(frac.lt(&small));
}

#[test]
fn zero_test_is_numeric() {
    assert!(dec_from_str("0.000").unwrap().is_zero());
    assert!(dec_from_str("0").unwrap().is_zero());
    assert!(!dec_from_str("0.001").unwrap().is_zero());
    assert!(Dec::zero().is_zero());
}

#[test]
fn substring_search_finds_topics() {
    assert!(contains_substr("abcdef", "cde"));
    assert!(contains_substr("abc", ""));
    assert!(!contains_substr("abc", "abcd"));
    assert!(!contains_substr("orderbook.5x", "orderbook.50"));
}

#[test]
fn depth_text_classification() {
    assert!(is_bybit_depth_text(
        "{\"topic\":\"orderbook.50.BTCUSDT\",\"type\":\"snapshot\"}"
    ));
    assert!(!is_bybit_depth_text("{\"op\":\"subscribe\"}"));
    assert!(is_binance_depth_text("{\"e\":\"depthUpdate\",\"s\":\"BTCUSDT\"}"));
    assert!(!is_binance_depth_text("{\"result\":null,\"id\":1}"));
}

#[test]
fn bybit_subscription_uppercases_channels() {
    let sub = bybit_subscription(&vec!["btcusdt".to_string(), "ethusdt".to_string()]);
    assert_eq!(sub.op, "subscribe");
    assert_eq!(sub.args, vec!["orderbook.50.BTCUSDT", "orderbook.50.ETHUSDT"]);
}

#[test]
fn binance_subscription_lowercases_channels() {
    let sub = binance_subscription(&vec!["BTCUSDT".to_string()]);
    assert_eq!(sub.method, "SUBSCRIBE");
    assert_eq!(sub.id, 1);
    assert_eq!(sub.params, vec!["btcusdt@depth20@100ms"]);
}

#[test]
fn okx_subscription_names_book_channel() {
    let sub = okx_subscription(&vec!["btc-usdt".to_string()]);
    assert_eq!(sub.op, "subscribe");
    assert_eq!(sub.args.len(), 1);
    assert_eq!(sub.args[0].channel, "books");
    assert_eq!(sub.args[0].inst_id, "BTC-USDT");
}

#[test]
fn bybit_pong_frame() {
    assert_eq!(Pong::new().op, "pong");
}
