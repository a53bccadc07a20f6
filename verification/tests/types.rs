use block_model::decimal::Decimal;
use block_model::types::{BboRecord, Exchange, FeatureVector};

fn d(s: &str) -> Decimal {
    Decimal::parse(s).unwrap()
}

fn quote(bid: &str, bid_qty: &str, ask: &str, ask_qty: &str) -> BboRecord {
    BboRecord {
        exchange: Exchange::Okx,
        symbol: "btc/usd".to_string(),
        ts_ex: 1,
        recv_ms: 2,
        bid: d(bid),
        bid_qty: d(bid_qty),
        ask: d(ask),
        ask_qty: d(ask_qty),
    }
}

#[test]
fn names_of_exchanges() {
    assert_eq!(Exchange::Binance.as_str(), "binance");
    assert_eq!(Exchange::Okx.as_str(), "okx");
    assert_eq!(Exchange::Bybit.as_str(), "bybit");
    assert_eq!(Exchange::Coinbase.as_str(), "coinbase");
    assert_eq!(Exchange::Kraken.as_str(), "kraken");
}

#[test]
fn mid_is_half_the_sum() {
    let q = quote("111999.5", "2.1", "112000.5", "0.9");
    assert_eq!(q.mid(), d("112000"));
    assert_eq!(q.checked_mid(), Some(d("112000")));
}

#[test]
fn mid_of_an_odd_sum_is_exact() {
    assert_eq!(quote("0.22001", "1", "0.220", "1").mid(), d("0.220005"));
    assert_eq!(quote("-1", "1", "0", "1").mid(), d("-0.5"));
    let long = "0.9223372036854775807";
    assert_eq!(quote(long, "1", "0", "1").mid(), d("0.46116860184273879035"));
    assert_eq!(quote("9223372036854775807", "1", "9223372036854775806", "1").mid(),
        d("9223372036854775806.5"));
}

#[test]
fn spread_is_exact() {
    let q = quote("0.2200145", "1", "0.22002", "1");
    assert_eq!(q.spread(), d("0.0000055"));
    assert_eq!(q.checked_spread().unwrap().text(), "0.0000055");
}

#[test]
fn imbalance_is_the_part_that_is_bid() {
    assert_eq!(quote("1", "3", "2", "1").imbalance(), Some(d("0.75")));
    assert_eq!(quote("1", "0", "2", "0.00").imbalance(), None);
    assert_eq!(quote("1", "0", "2", "0").checked_imbalance(), Some(None));
}

#[test]
fn sums_that_do_not_fit_are_told() {
    let max = "79228162514264337593543950335";
    let q = quote(max, max, max, max);
    assert!(q.checked_mid().is_none());
    assert!(q.checked_imbalance().is_none());
    assert_eq!(q.checked_spread(), Some(d("0")));
    let q = quote(&format!("-{max}"), "1", max, "1");
    assert!(q.checked_spread().is_none());
}

#[test]
fn feature_vector_holds_its_parts() {
    let v = FeatureVector {
        symbol: "btc/usd".to_string(),
        snap_ms: 7,
        features: vec![0.5f64],
        feature_names: vec!["x".to_string()],
    };
    assert_eq!(v.features.len(), v.feature_names.len());
    assert_eq!((v.symbol.as_str(), v.snap_ms), ("btc/usd", 7));
}

#[test]
fn differences_of_zeros_have_the_sign_of_the_second() {
    let q = quote("-0.1e-28", "1", "0", "1");
    assert_eq!(q.spread().text(), "-0.0000000000000000000000000000");
    let q = quote("0", "1", "-0.1e-28", "1");
    assert_eq!(q.spread().text(), "0");
}
