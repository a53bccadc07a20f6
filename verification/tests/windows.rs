use block_model::decimal::Decimal;
use block_model::features::bbo::BboWindow;
use block_model::features::trades::TradeWindow;
use block_model::features::window::is_too_old;
use block_model::types::{BboRecord, Exchange, TradeRecord, TradeSide};

fn d(s: &str) -> Decimal {
    Decimal::parse(s).unwrap()
}

fn quote(recv_ms: i64, bid: &str, bid_qty: &str, ask: &str, ask_qty: &str) -> BboRecord {
    BboRecord {
        exchange: Exchange::Okx,
        symbol: "btc/usd".to_string(),
        ts_ex: 0,
        recv_ms,
        bid: d(bid),
        bid_qty: d(bid_qty),
        ask: d(ask),
        ask_qty: d(ask_qty),
    }
}

fn trade(recv_ms: i64, qty: &str, side: TradeSide) -> TradeRecord {
    TradeRecord {
        exchange: Exchange::Okx,
        symbol: "btc/usd".to_string(),
        ts_ex: 0,
        recv_ms,
        price: d("1"),
        qty: d(qty),
        side,
        trade_id: String::new(),
    }
}

#[test]
fn old_quotes_leave_the_window() {
    let mut w = BboWindow::new("btc/usd", 100);
    assert!(w.latest().is_none());
    for t in [0, 50, 100, 101, 200] {
        w.push(quote(t, "1", "1", "3", "1"));
    }
    assert_eq!(w.tick_count(), 3);
    assert_eq!(w.latest().unwrap().recv_ms, 200);
    assert_eq!(w.symbol, "btc/usd");
}

#[test]
fn only_the_front_is_looked_at() {
    let mut w = BboWindow::new("btc/usd", 10);
    w.push(quote(100, "1", "1", "3", "1"));
    w.push(quote(0, "1", "1", "3", "1"));
    w.push(quote(105, "1", "1", "3", "1"));
    assert_eq!(w.tick_count(), 3);
}

#[test]
fn negative_window_keeps_nothing() {
    let mut w = BboWindow::new("btc/usd", -1);
    w.push(quote(100, "1", "1", "3", "1"));
    assert_eq!(w.tick_count(), 0);
}

#[test]
fn times_far_apart_do_not_overflow() {
    assert!(is_too_old(i64::MAX, i64::MIN, i64::MAX));
    assert!(!is_too_old(i64::MIN, i64::MAX, 0));
}

#[test]
fn mids_and_imbalances_of_a_window() {
    let mut w = BboWindow::new("btc/usd", 1000);
    w.push(quote(1, "1", "3", "2", "1"));
    w.push(quote(2, "4", "0", "6", "0"));
    assert_eq!(w.mids(), Some(vec![d("1.5"), d("5")]));
    assert_eq!(w.imbalances(), Some(vec![d("0.75")]));
    let max = "79228162514264337593543950335";
    w.push(quote(3, max, max, max, max));
    assert!(w.mids().is_none() && w.imbalances().is_none());
}

#[test]
fn volumes_by_side() {
    let mut w = TradeWindow::new("btc/usd", 100);
    w.push(trade(0, "9", TradeSide::Buy));
    w.push(trade(150, "1", TradeSide::Buy));
    w.push(trade(160, "2", TradeSide::Sell));
    w.push(trade(170, "4", TradeSide::Buy));
    assert_eq!(w.trade_count(), 3);
    assert_eq!(w.qtys(TradeSide::Buy), [d("1"), d("4")]);
    assert_eq!(w.qtys(TradeSide::Sell), [d("2")]);
}
