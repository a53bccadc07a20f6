use block_model::decimal::Decimal;
use block_model::features::builder::{AnswerError, BuildError, SnapshotBuilder};
use block_model::features::rows::{
    is_sound_deal, is_sound_quote, json_i64, read_bbo_ticks, read_rows, read_trade_ticks,
    read_twap_ticks, DealText, Problem, QuoteText, RowError,
};
use block_model::features::snapshot::{
    win_start, BboTick, TradeTick, TwapTick, WindowSnapshot,
};
use block_model::json::parse_json;

fn d(s: &str) -> Decimal {
    Decimal::parse(s).unwrap()
}

type Snapshot = WindowSnapshot<(), (), f64>;

fn make_snap(win_start_ms: i64, snap_ms: i64, ticks: Vec<(i64, Decimal)>) -> Snapshot {
    WindowSnapshot {
        snap_ms,
        symbol: "btc/usd".to_string(),
        win_start_ms,
        twap_ticks: ticks.into_iter().map(|(obs_ms, price)| TwapTick { obs_ms, price }).collect(),
        bbo_ticks: Vec::new(),
        trade_ticks: Vec::new(),
        fx_usdt_premium: None,
    }
}

fn quote(exchange: &str, recv_ms: i64) -> BboTick<()> {
    BboTick { exchange: exchange.to_string(), recv_ms, quote: () }
}

#[test]
fn no_future_ticks() {
    let snap_ms = 1_786_403_590_000_i64;
    let start = (snap_ms / 300_000) * 300_000;
    let ticks = vec![
        (start, d("63000.0")),
        (start + 1000, d("63010.0")),
        (start + 60_000, d("63020.0")),
        (snap_ms - 1000, d("63025.0")),
        (snap_ms, d("63030.0")),
    ];
    let snap = make_snap(start, snap_ms, ticks);
    for t in &snap.twap_ticks {
        assert!(t.obs_ms <= snap_ms, "{} is later than {}", t.obs_ms, snap_ms);
    }
}

#[test]
fn open_is_first_tick() {
    let start = 1_786_401_600_000_i64;
    let snap_ms = start + 190_000;
    let snap = make_snap(
        start,
        snap_ms,
        vec![
            (start, d("63888.7231")),
            (start + 1000, d("63890.0")),
            (start + 60_000, d("63920.0")),
        ],
    );
    assert_eq!(snap.open_price(), Some(d("63888.7231")));
}

#[test]
fn current_is_last_tick() {
    let start = 1_786_401_600_000_i64;
    let snap_ms = start + 190_000;
    let snap = make_snap(
        start,
        snap_ms,
        vec![
            (start, d("63888.7231")),
            (start + 60_000, d("63920.0")),
            (snap_ms - 1000, d("63928.1637")),
        ],
    );
    assert_eq!(snap.current_price(), Some(d("63928.1637")));
}

#[test]
fn timing_at_pred_point() {
    let start = 1_786_401_600_000_i64;
    let snap_ms = start + 190_000;
    let snap = make_snap(start, snap_ms, vec![]);
    assert_eq!(snap.elapsed_ms(), 190_000);
    assert_eq!(snap.remaining_ms(), 110_000);
}

#[test]
fn win_start_aligns_to_5min_boundary() {
    let snap_ms = 1_786_401_737_000_i64;
    let start = win_start(snap_ms);
    assert_eq!(start, (snap_ms / 300_000) * 300_000);
    assert_eq!(start % 300_000, 0, "a window starts at a multiple of its length");
    assert!(start <= snap_ms);
    assert!(snap_ms < start + 300_000);
}

#[test]
fn windows_before_the_epoch() {
    for t in [-1i64, -299_999, -300_000, -300_001, i64::MIN, i64::MAX, 0] {
        assert_eq!(win_start(t), (t / 300_000) * 300_000);
    }
}

#[test]
fn empty_window() {
    let snap = make_snap(0, 0, vec![]);
    assert_eq!(snap.open_price(), None);
    assert_eq!(snap.current_price(), None);
    assert_eq!(snap.tick_count(), 0);
    assert_eq!(snap.price_range(), None);
    assert_eq!(snap.staleness_ms(), None);
    assert_eq!(snap.price_n_ms_ago(0), None);
    assert!(snap.basis_pairs().is_empty());
}

#[test]
fn prices_of_the_past() {
    let snap = make_snap(
        0,
        100_000,
        vec![(0, d("5")), (70_000, d("3.0")), (70_001, d("9")), (99_000, d("3"))],
    );
    assert_eq!(snap.price_n_ms_ago(30_000), Some(d("3.0")));
    assert_eq!(snap.price_n_ms_ago(29_999), Some(d("9")));
    assert_eq!(snap.price_n_ms_ago(100_001), None);
    assert_eq!(snap.price_n_ms_ago(i64::MIN), Some(d("3")));
    let (lo, hi) = snap.price_range().unwrap();
    assert_eq!((lo.text().as_str(), hi.text().as_str()), ("3.0", "9"));
    assert_eq!(snap.staleness_ms(), Some(1000));
    let recent: Vec<i64> = snap.ticks_in_last(30_000).iter().map(|t| t.obs_ms).collect();
    assert_eq!(recent, [70_000, 70_001, 99_000]);
    let late = make_snap(0, 5, vec![(7, d("1"))]);
    assert_eq!(late.staleness_ms(), Some(0));
}

#[test]
fn newest_quote_of_each_exchange() {
    let mut snap = make_snap(0, 10_000, vec![]);
    snap.bbo_ticks = vec![
        quote("kraken", 1_000),
        quote("okx", 8_000),
        quote("binance", 9_000),
        quote("okx", 9_500),
    ];
    let raw: Vec<(&str, i64)> = snap
        .latest_bbo_per_exchange_raw()
        .iter()
        .map(|t| (t.exchange.as_str(), t.recv_ms))
        .collect();
    assert_eq!(raw, [("okx", 9_500), ("binance", 9_000), ("kraken", 1_000)]);
    assert_eq!(snap.latest_bbo_per_exchange().len(), 2);
    assert_eq!(snap.active_exchange_count(), 2);
    snap.snap_ms = 12_500;
    assert_eq!(snap.active_exchange_count(), 1, "exactly three seconds still count");
    assert_eq!(snap.bbo_in_last(3_500).len(), 2);
}

#[test]
fn quotes_go_with_the_last_known_value() {
    let mut snap = make_snap(0, 100, vec![(10, d("1")), (20, d("2")), (30, d("3"))]);
    for t in [5, 10, 19, 25, 99] {
        snap.bbo_ticks.push(quote("okx", t));
    }
    assert_eq!(snap.basis_pairs(), [(0, 1), (0, 2), (1, 3), (2, 4)]);
}

#[test]
fn trades_of_the_last_while() {
    let mut snap = make_snap(0, 100, vec![]);
    for t in [10, 40, 70, 101] {
        snap.trade_ticks.push(TradeTick {
            exchange: "okx".to_string(),
            recv_ms: t,
            is_buy: true,
            deal: (),
        });
    }
    assert_eq!(snap.trade_count_in_last(60), 2);
    assert_eq!(snap.trades_in_last(30)[0].recv_ms, 70);
    assert_eq!(snap.trade_count_in_last(i64::MAX), 3);
    assert_eq!(snap.trade_count_in_last(i64::MIN), 0);
    snap.trade_ticks[3].recv_ms = 100;
    assert_eq!(snap.trade_count_in_last(0), 1, "both ends belong to the window");
    for t in [69, 70, 100, 101] {
        snap.bbo_ticks.push(quote("okx", t));
    }
    let times: Vec<i64> = snap.bbo_in_last(30).iter().map(|t| t.recv_ms).collect();
    assert_eq!(times, [70, 100]);
}

#[test]
fn queries_stop_at_the_snapshot() {
    let q = SnapshotBuilder::new("http://db:8123/").queries("btc/usd", 600_005);
    assert_eq!(q.url, "http://db:8123/?default_format=JSONEachRow");
    assert_eq!(
        q.twap,
        "SELECT obs_ms, price FROM pm.twap WHERE symbol = 'btc/usd' AND window_s = 30 \
         AND obs_ms >= 600000 AND obs_ms <= 600005 ORDER BY obs_ms ASC FORMAT JSONEachRow"
    );
    assert_eq!(
        q.bbo,
        "SELECT exchange, recv_ms, bid, bid_qty, ask, ask_qty FROM pm.ex_bbo \
         WHERE symbol = 'btc/usd' AND recv_ms >= 600000 AND recv_ms <= 600005 \
         ORDER BY recv_ms ASC FORMAT JSONEachRow"
    );
    assert_eq!(
        q.trades,
        "SELECT exchange, recv_ms, price, qty, side FROM pm.ex_trades \
         WHERE symbol = 'btc/usd' AND recv_ms >= 600000 AND recv_ms <= 600005 \
         ORDER BY recv_ms ASC FORMAT JSONEachRow"
    );
}

#[test]
fn answers_are_read_line_by_line() {
    let rows = read_rows("{\"a\":1}\r\n\n  \n[2]\n").unwrap();
    assert_eq!(rows.len(), 2);
    assert_eq!(json_i64(rows[0].at("a")), Some(1));
    assert_eq!(read_rows("1\nbad\nworse").unwrap_err(), "bad");
    assert!(read_rows("").unwrap().is_empty());
}

#[test]
fn numbers_come_in_quotes_or_bare() {
    let j = |s: &str| json_i64(&parse_json(s).unwrap());
    assert_eq!(j("\"1786403590000\""), Some(1_786_403_590_000));
    assert_eq!(j("-5"), Some(-5));
    assert_eq!(j("\"x\""), None);
    assert_eq!(j("1.5"), None);
    assert_eq!(j("null"), None);
    assert_eq!(j("18446744073709551615"), None);
}

#[test]
fn rows_that_cannot_be_used() {
    let read = |s: &str| read_twap_ticks(&read_rows(s).unwrap(), 100).map(|v| v.len());
    let ok = r#"{"obs_ms":"50","price":"1.5"}"#;
    let bad = |p: Problem| Err(RowError { index: 1, problem: p });
    assert_eq!(read(ok), Ok(1));
    assert_eq!(read(&format!("{ok}\n{{\"price\":1}}")), bad(Problem::ObsMs));
    assert_eq!(read(&format!("{ok}\n{{\"obs_ms\":1}}")), bad(Problem::PriceKind));
    assert_eq!(read(&format!("{ok}\n{{\"obs_ms\":1,\"price\":\"x\"}}")), bad(Problem::PriceText));
    assert_eq!(
        read(&format!("{ok}\n{{\"obs_ms\":101,\"price\":2}}")),
        bad(Problem::Future(101))
    );
    let rows = read_rows(r#"{"recv_ms":true}"#).unwrap();
    let problem = |e: RowError| e.problem;
    assert_eq!(read_bbo_ticks(&rows, 1).map_err(problem).unwrap_err(), Problem::RecvMs);
    assert_eq!(read_trade_ticks(&rows, 1).map_err(problem).unwrap_err(), Problem::RecvMs);
    let rows = read_rows(r#"{"recv_ms":"2"}"#).unwrap();
    assert_eq!(read_bbo_ticks(&rows, 1).map_err(problem).unwrap_err(), Problem::Future(2));
    assert_eq!(read_trade_ticks(&rows, 1).map_err(problem).unwrap_err(), Problem::Future(2));
}

#[test]
fn snapshot_is_built_from_the_answers() {
    let b = SnapshotBuilder::new("");
    let twap = "{\"obs_ms\":\"600001\",\"price\":\"63888.7231\"}\n{\"obs_ms\":600002,\"price\":5.25}";
    let bbo = r#"{"exchange":"okx","recv_ms":"600003","bid":"1.0","bid_qty":"2","ask":3}"#;
    let trades = "{\"recv_ms\":\"600003\",\"price\":\"1\",\"qty\":\"2\",\"side\":\"buy\"}\n\
                  {\"exchange\":\"bybit\",\"recv_ms\":1,\"side\":\"sell\"}";
    let s: WindowSnapshot<QuoteText, DealText, f64> =
        b.build("btc/usd", 600_005, twap, bbo, trades).unwrap();
    assert_eq!((s.snap_ms, s.win_start_ms, s.symbol.as_str()), (600_005, 600_000, "btc/usd"));
    assert_eq!(s.open_price(), Some(d("63888.7231")));
    assert_eq!(s.current_price(), Some(d("5.25")));
    let q = &s.bbo_ticks[0];
    assert_eq!((q.exchange.as_str(), q.recv_ms), ("okx", 600_003));
    assert_eq!(q.quote.bid.as_deref(), Some("1.0"));
    assert_eq!(q.quote.bid_qty.as_deref(), Some("2"));
    assert_eq!((q.quote.ask.as_deref(), q.quote.ask_qty.as_deref()), (None, None));
    assert_eq!((s.trade_ticks[0].exchange.as_str(), s.trade_ticks[0].is_buy), ("?", true));
    assert_eq!(s.trade_ticks[0].deal.qty.as_deref(), Some("2"));
    assert!(!s.trade_ticks[1].is_buy);

    let n = s.with_numbers(vec![Some(1.5f64)], vec![None, Some(7.0f64)]);
    assert_eq!(n.bbo_ticks[0].quote, 1.5);
    assert_eq!(n.trade_ticks.len(), 1);
    assert_eq!((n.trade_ticks[0].exchange.as_str(), n.trade_ticks[0].deal), ("bybit", 7.0));
    assert_eq!(n.twap_ticks.len(), 2);
}

#[test]
fn answer_that_spoils_the_snapshot_is_named() {
    let b = SnapshotBuilder::new("");
    let build = |t: &str, q: &str, d: &str| {
        b.build::<f64>("btc/usd", 10, t, q, d).map(|_| ()).unwrap_err()
    };
    match build("x", "", "") {
        BuildError::Twap(AnswerError::Line(l)) => assert_eq!(l, "x"),
        other => panic!("{other:?}"),
    }
    match build("", r#"{"recv_ms":11}"#, "y") {
        BuildError::Bbo(AnswerError::Row(e)) => assert_eq!(e.problem, Problem::Future(11)),
        other => panic!("{other:?}"),
    }
    match build("", "", "{}") {
        BuildError::Trades(AnswerError::Row(e)) => assert_eq!(e.problem, Problem::RecvMs),
        other => panic!("{other:?}"),
    }
}

#[test]
fn damaged_quotes_and_trades() {
    let quote = |bid: f64, ask: f64| is_sound_quote(bid.to_bits(), ask.to_bits());
    assert!(quote(63899.0, 63901.0));
    assert!(quote(63900.0, 63900.0));
    assert!(!quote(63901.0, 63899.0), "crossed");
    assert!(!quote(0.0, 1.0));
    assert!(!quote(-2.0, -1.0));
    assert!(!quote(f64::NAN, 1.0));
    assert!(!quote(1.0, f64::NAN));
    assert!(!quote(1.0, f64::INFINITY));
    let deal = |price: f64, qty: f64| is_sound_deal(price.to_bits(), qty.to_bits());
    assert!(deal(63900.0, 0.001));
    assert!(!deal(63900.0, 0.0));
    assert!(!deal(f64::NAN, 1.0));
    assert!(!deal(1.0, f64::INFINITY));
}
