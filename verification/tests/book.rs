use block_model::decimal::Decimal;
use block_model::features::book::OrderBook;
use block_model::types::{BookRecord, Exchange};

fn d(s: &str) -> Decimal {
    Decimal::parse(s).unwrap()
}

fn ladder(list: &[(&str, &str)]) -> Vec<[Decimal; 2]> {
    list.iter().map(|(p, q)| [d(p), d(q)]).collect()
}

fn record(snapshot: bool, seq: u64, bids: &[(&str, &str)], asks: &[(&str, &str)]) -> BookRecord {
    BookRecord {
        exchange: Exchange::Bybit,
        symbol: "btc/usd".to_string(),
        ts_ex: seq as i64 * 10,
        recv_ms: 0,
        bids: ladder(bids),
        asks: ladder(asks),
        is_snapshot: snapshot,
        seq: Some(seq),
        first_seq: None,
    }
}

fn texts(side: &[[Decimal; 2]]) -> Vec<String> {
    side.iter().map(|[p, q]| format!("{}x{}", p.text(), q.text())).collect()
}

#[test]
fn best_prices_are_the_extremes() {
    let mut b = OrderBook::new("btc/usd", 10);
    assert!(b.best_bid().is_none() && b.best_ask().is_none() && !b.is_ready());
    b.apply(&record(true, 1, &[("9", "1"), ("10", "2"), ("8", "3")], &[("12", "1"), ("11", "4")]));
    assert_eq!(b.best_bid(), Some((d("10"), d("2"))));
    assert_eq!(b.best_ask(), Some((d("11"), d("4"))));
    assert_eq!(b.level_count(), (3, 2));
    assert_eq!((b.last_seq, b.last_ts), (Some(1), 10));
    assert!(b.is_ready());
}

#[test]
fn changes_replace_and_zero_removes() {
    let mut b = OrderBook::new("btc/usd", 10);
    b.apply(&record(true, 1, &[("9", "1"), ("10", "2")], &[]));
    b.apply(&record(false, 2, &[("10.0", "5"), ("9", "0"), ("7", "0"), ("8.5", "1")], &[]));
    // The price keeps the spelling that it had first.
    assert_eq!(texts(&b.bids), ["8.5x1", "10x5"]);
    assert!(!b.is_ready());
}

#[test]
fn zero_with_a_minus_removes_too() {
    let mut b = OrderBook::new("btc/usd", 10);
    b.apply(&record(true, 1, &[("9", "1"), ("10", "2")], &[]));
    b.apply(&record(false, 2, &[("10", "-0.1e-28")], &[]));
    assert_eq!(b.best_bid(), Some((d("9"), d("1"))));
    assert_eq!(b.level_count(), (1, 0));
}

#[test]
fn snapshot_starts_anew() {
    let mut b = OrderBook::new("btc/usd", 10);
    b.apply(&record(true, 1, &[("9", "1")], &[("10", "1")]));
    b.apply(&record(true, 2, &[("5", "1")], &[]));
    assert_eq!(texts(&b.bids), ["5x1"]);
    assert!(b.asks.is_empty());
}

#[test]
fn only_the_nearest_levels_are_kept() {
    let mut b = OrderBook::new("btc/usd", 2);
    let r = record(
        true,
        1,
        &[("1", "1"), ("3", "1"), ("2", "1")],
        &[("6", "1"), ("4", "1"), ("5", "1")],
    );
    b.apply(&r);
    assert_eq!(texts(&b.bids), ["2x1", "3x1"]);
    assert_eq!(texts(&b.asks), ["4x1", "5x1"]);
}

#[test]
fn prices_are_ordered_as_numbers() {
    let mut b = OrderBook::new("btc/usd", 10);
    b.apply(&record(true, 1, &[("100", "1"), ("20", "1"), ("9.99", "1")], &[]));
    assert_eq!(texts(&b.bids), ["9.99x1", "20x1", "100x1"]);
}

#[test]
fn ladders_rebuild_the_book() {
    let mut b = OrderBook::new("btc/usd", 3);
    b.apply(&record(true, 1, &[("1", "1"), ("3", "2"), ("2", "3")], &[("6", "4"), ("4", "5")]));
    let (bids, asks) = b.to_ladders();
    assert_eq!(texts(&bids), ["3x2", "2x3", "1x1"]);
    assert_eq!(texts(&asks), ["4x5", "6x4"]);
    let mut other = OrderBook::new("btc/usd", 3);
    other.apply(&record(true, 9, &[("77", "1")], &[("78", "1")]));
    other.apply(&BookRecord { bids, asks, ..record(true, 10, &[], &[]) });
    assert_eq!(texts(&other.bids), texts(&b.bids));
    assert_eq!(texts(&other.asks), texts(&b.asks));
}

#[test]
fn depth_counts_what_is_near() {
    let mut b = OrderBook::new("btc/usd", 10);
    assert_eq!(b.depth_bid(&d("1")), []);
    assert_eq!(b.checked_depth_ask(&d("1")), Some(vec![]));
    b.apply(&record(
        true,
        1,
        &[("10", "1"), ("9.5", "2"), ("9", "4")],
        &[("11", "8"), ("11.5", "16"), ("12.01", "32")],
    ));
    assert_eq!(b.depth_bid(&d("0.5")), [d("2"), d("1")]);
    assert_eq!(b.depth_bid(&d("0")), [d("1")]);
    assert_eq!(b.depth_ask(&d("1")), [d("8"), d("16")]);
    assert_eq!(b.checked_depth_bid(&d("5")), Some(vec![d("4"), d("2"), d("1")]));
    let max = d("79228162514264337593543950335");
    assert_eq!(b.checked_depth_ask(&max), None);
}
