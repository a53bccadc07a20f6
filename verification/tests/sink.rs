use block_model::collector::config::Config;
use block_model::collector::sink::{
    ladder_json, side_str, spill_file, BboRow, BookRow, NotAnInteger, Sink, TradeRow, TwapRow,
    WriteMsg,
};
use block_model::decimal::Decimal;
use block_model::types::{BboRecord, BookRecord, Exchange, TradeRecord, TradeSide, TwapRecord};

fn d(s: &str) -> Decimal {
    Decimal::parse(s).unwrap()
}

fn twap(value_e18: &str) -> TwapRecord {
    TwapRecord {
        symbol: "btc/usd".into(),
        window_s: 30,
        obs_ms: 1_754_899_999_000,
        pub_ms: 1_754_899_999_500,
        recv_ms: 1_754_900_000_000,
        value_e18: value_e18.into(),
        price: Decimal::zero(),
    }
}

#[test]
fn twap_price_is_the_raw_scaled_integer() {
    let row = TwapRow::try_from(&twap("112345670000000000000000")).unwrap();
    assert_eq!(row.price, 112_345_670_000_000_000_000_000i128);
    assert_eq!(row.value_e18, "112345670000000000000000");
}

#[test]
fn twap_handles_values_beyond_u64() {
    let v = "112345670000000000000000";
    assert!(v.parse::<u64>().is_err(), "the value must not fit in 64 bits");
    assert!(TwapRow::try_from(&twap(v)).is_ok());
}

#[test]
fn twap_rejects_unparseable_value() {
    assert!(TwapRow::try_from(&twap("1.5e18")).is_err());
    assert!(TwapRow::try_from(&twap("")).is_err());
}

#[test]
fn ladder_json_preserves_decimal_text() {
    let levels = [[d("0.0024"), d("10")], [d("0.0023"), Decimal::zero()]];
    assert_eq!(ladder_json(&levels), r#"[["0.0024","10"],["0.0023","0"]]"#);
    assert_eq!(ladder_json(&[]), "[]");
}

#[test]
fn rows_keep_the_minus_of_a_zero() {
    let zero = "-0.0000000000000000000000000000";
    let levels = [[d("1.5"), d("-0.1e-28")]];
    assert_eq!(ladder_json(&levels), format!(r#"[["1.5","{zero}"]]"#));
    let r = BboRecord { bid_qty: d("-0.1e-28"), ..quote(1) };
    assert_eq!(BboRow::from(&r).bid_qty, zero);
}

#[test]
fn bbo_row_normalises_negative_timestamps() {
    let r = BboRecord {
        exchange: Exchange::Binance,
        symbol: "btc/usd".into(),
        ts_ex: -1,
        recv_ms: 1_754_900_000_000,
        bid: d("111999.5"),
        bid_qty: d("2.1"),
        ask: d("112000.5"),
        ask_qty: d("0.9"),
    };
    let row = BboRow::from(&r);
    assert_eq!(row.ts_ex, 0);
    assert_eq!(row.exchange, "binance");
    assert_eq!(row.bid, "111999.5");
}

#[test]
fn book_row_flattens_snapshot_flag_and_missing_seq() {
    let r = BookRecord {
        exchange: Exchange::Okx,
        symbol: "eth/usd".into(),
        ts_ex: 1,
        recv_ms: 2,
        bids: vec![[d("3011.4"), d("3")]],
        asks: vec![],
        is_snapshot: true,
        seq: None,
        first_seq: None,
    };
    let row = BookRow::from(&r);
    assert_eq!(row.is_snapshot, 1);
    assert_eq!(row.seq, 0, "a missing number becomes zero");
    assert_eq!(row.first_seq, 0);
    assert_eq!(row.asks_json, "[]");
}

#[test]
fn trade_side_serialises_lowercase() {
    assert_eq!(side_str(TradeSide::Buy), "buy");
    assert_eq!(side_str(TradeSide::Sell), "sell");
}

fn quote(ts_ex: i64) -> BboRecord {
    BboRecord {
        exchange: Exchange::Binance,
        symbol: "btc/usd".into(),
        ts_ex,
        recv_ms: 7,
        bid: d("1.0"),
        bid_qty: d("2"),
        ask: d("3"),
        ask_qty: d("4"),
    }
}

fn trade() -> TradeRecord {
    TradeRecord {
        exchange: Exchange::Kraken,
        symbol: "eth/usd".into(),
        ts_ex: 5,
        recv_ms: 6,
        price: d("3011.50"),
        qty: d("0.480"),
        side: TradeSide::Sell,
        trade_id: "12345".into(),
    }
}

fn book(seq: Option<u64>) -> BookRecord {
    BookRecord {
        exchange: Exchange::Bybit,
        symbol: "eth/usd".into(),
        ts_ex: 1,
        recv_ms: 2,
        bids: vec![],
        asks: vec![[d("5"), d("6.0")]],
        is_snapshot: false,
        seq,
        first_seq: Some(3),
    }
}

fn sink(batch: usize) -> Sink {
    let env = vec![("CH_BATCH_SIZE".to_string(), batch.to_string())];
    Sink::new(&Config::from_env(&env))
}

#[test]
fn trade_row_keeps_every_field() {
    let row = TradeRow::from(&trade());
    assert_eq!(row.exchange, "kraken");
    assert_eq!(row.symbol, "eth/usd");
    assert_eq!((row.ts_ex, row.recv_ms), (5, 6));
    assert_eq!((row.price.as_str(), row.qty.as_str()), ("3011.50", "0.480"));
    assert_eq!((row.side.as_str(), row.trade_id.as_str()), ("sell", "12345"));
}

#[test]
fn book_row_keeps_numbers_that_are_there() {
    let row = BookRow::from(&book(Some(9)));
    assert_eq!((row.is_snapshot, row.seq, row.first_seq), (0, 9, 3));
    assert_eq!(row.bids_json, "[]");
    assert_eq!(row.asks_json, r#"[["5","6.0"]]"#);
}

#[test]
fn twap_row_takes_signed_and_long_numbers() {
    assert_eq!(TwapRow::try_from(&twap("-5")).unwrap().price, -5);
    assert_eq!(TwapRow::try_from(&twap("+5")).unwrap().price, 5);
    let max = "170141183460469231731687303715884105727";
    assert_eq!(TwapRow::try_from(&twap(max)).unwrap().price, i128::MAX);
    let min = "-170141183460469231731687303715884105728";
    assert_eq!(TwapRow::try_from(&twap(min)).unwrap().price, i128::MIN);
    let over = "170141183460469231731687303715884105728";
    assert_eq!(TwapRow::try_from(&twap(over)).unwrap_err(), NotAnInteger);
}

#[test]
fn rows_wait_for_a_whole_batch() {
    let mut s = sink(2);
    s.push_bbo(&quote(1));
    s.push_trade(&trade());
    s.push_book(&book(None));
    assert!(s.push_twap(&twap("7")));
    assert!(!s.push_twap(&twap("x")));
    let none = s.maybe_flush();
    assert!(none.bbo.is_empty() && none.trades.is_empty() && none.book.is_empty());
    s.push_bbo(&quote(2));
    let full = s.maybe_flush();
    assert_eq!(full.bbo.iter().map(|r| r.ts_ex).collect::<Vec<_>>(), [1, 2]);
    assert!(full.trades.is_empty() && full.book.is_empty() && full.twap.is_empty());
    let rest = s.flush_all();
    assert_eq!((rest.bbo.len(), rest.trades.len(), rest.book.len(), rest.twap.len()), (0, 1, 1, 1));
}

#[test]
fn no_row_is_lost_on_the_way() {
    let mut s = sink(3);
    let mut written: Vec<u64> = Vec::new();
    for t in 0..8 {
        let b = s.handle(WriteMsg::Bbo(BboRow::from(&quote(t))));
        assert!(b.bbo.is_empty() || b.bbo.len() == 3);
        written.extend(b.bbo.iter().map(|r| r.ts_ex));
    }
    assert_eq!(s.rows.bbo.len(), 2);
    let b = s.handle(WriteMsg::Flush);
    written.extend(b.bbo.iter().map(|r| r.ts_ex));
    assert_eq!(written, [0, 1, 2, 3, 4, 5, 6, 7]);
    assert!(s.rows.bbo.is_empty());
}

#[test]
fn other_messages_go_to_their_tables() {
    let mut s = sink(1);
    assert_eq!(s.handle(WriteMsg::Trade(TradeRow::from(&trade()))).trades.len(), 1);
    assert_eq!(s.handle(WriteMsg::Book(BookRow::from(&book(None)))).book.len(), 1);
    let row = TwapRow::try_from(&twap("7")).unwrap();
    assert_eq!(s.handle(WriteMsg::Twap(row)).twap.len(), 1);
}

#[test]
fn batches_that_fail_are_kept() {
    let mut s = sink(1);
    assert!(!s.written(5, true));
    assert!(s.written(3, false));
    assert!(!s.written(0, false));
    assert_eq!((s.ok_rows, s.fail_rows), (5, 3));
    assert_eq!(spill_file("ex_bbo"), "ex_bbo.failed.jsonl");
}
