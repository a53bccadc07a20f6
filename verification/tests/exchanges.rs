use block_model::collector::exchanges::binance::{depth_url, parse_snapshot, BinanceCollector};
use block_model::collector::exchanges::bybit::BybitCollector;
use block_model::collector::exchanges::coinbase::CoinbaseCollector;
use block_model::collector::exchanges::kraken::KrakenCollector;
use block_model::collector::exchanges::okx::OkxCollector;
use block_model::collector::exchanges::util::{
    dec, dec_or_zero, iso_ms, ladder, s, side, sym_lookup, top_level, ts,
};
use block_model::collector::exchanges::{ExchangeSpec, ParsedRecord};
use block_model::decimal::Decimal;
use block_model::json::{parse_json, Json};
use block_model::types::{Exchange, TradeSide};

fn j(s: &str) -> Json {
    parse_json(s).unwrap()
}

fn d(s: &str) -> Decimal {
    Decimal::parse(s).unwrap()
}

#[test]
fn numbers_keep_their_digits() {
    assert_eq!(dec(&j("\"1.50\"")).unwrap().text(), "1.50");
    assert_eq!(dec(&j("0.75")), Some(d("0.75")));
    assert_eq!(dec(&j("null")), None);
    assert_eq!(dec_or_zero(&j("\"x\"")), Decimal::zero());
}

#[test]
fn levels_that_cannot_be_read_are_left_out() {
    let l = ladder(Some(&j(r#"[["1","2"],["x","2"],["3"],["4","y"],5]"#)));
    assert_eq!(l, vec![[d("1"), d("2")], [d("4"), d("0")]]);
    assert!(ladder(None).is_empty() && ladder(Some(&j("7"))).is_empty());
    assert_eq!(top_level(Some(&j(r#"[["1","2"]]"#))), Some((d("1"), d("2"))));
    assert_eq!(top_level(Some(&j("[]"))), None);
}

#[test]
fn times_come_in_several_forms() {
    assert_eq!(ts(Some(&j("5")), 9), 5);
    assert_eq!(ts(Some(&j("\"5\"")), 9), 5);
    assert_eq!(ts(Some(&j("5.5")), 9), 9);
    assert_eq!(ts(None, 9), 9);
    assert_eq!(iso_ms(Some(&j("\"1970-01-01T00:00:01.5Z\"")), 9), 1500);
    assert_eq!(iso_ms(Some(&j("\"1970-01-01T01:00:00+01:00\"")), 9), 0);
    assert_eq!(iso_ms(Some(&j("\"yesterday\"")), 9), 9);
    assert_eq!(iso_ms(None, 9), 9);
}

#[test]
fn texts_sides_and_symbols() {
    assert_eq!(s(Some(&j("42"))), "42");
    assert_eq!(s(Some(&j("\"x\""))), "x");
    assert_eq!(s(Some(&j("true"))), "");
    for w in ["buy", "BUY", "b", "Bid"] {
        assert_eq!(side(w), Some(TradeSide::Buy));
    }
    for w in ["sell", "S", "ask", "Offer"] {
        assert_eq!(side(w), Some(TradeSide::Sell));
    }
    assert_eq!(side("both"), None);
    let table = [("A", "a"), ("B", "b"), ("A", "c")];
    assert_eq!(sym_lookup(&table, "A"), Some("a"));
    assert_eq!(sym_lookup(&table, "C"), None);
}

#[test]
fn requests() {
    let list = |items: &[String]| format!("[{}]", items.join(","));
    let quoted = |names: &[&str], before: &str, after: &str| -> Vec<String> {
        names.iter().map(|n| format!("\"{before}{n}{after}\"")).collect()
    };

    let names = ["btcusdt", "ethusdt", "solusdt", "xrpusdt", "dogeusdt"];
    let streams = [
        quoted(&names, "", "@bookTicker"),
        quoted(&names, "", "@aggTrade"),
        quoted(&names, "", "@depth@100ms"),
    ]
    .concat();
    assert_eq!(
        BinanceCollector::new().subscribe_msgs(),
        [format!(r#"{{"id":1,"method":"SUBSCRIBE","params":{}}}"#, list(&streams))]
    );

    let names = ["BTCUSDT", "ETHUSDT", "SOLUSDT", "XRPUSDT", "DOGEUSDT"];
    let first =
        [quoted(&names, "orderbook.1.", ""), quoted(&names, "publicTrade.", "")].concat();
    let second = quoted(&names, "orderbook.50.", "");
    assert_eq!(
        BybitCollector::new().subscribe_msgs(),
        [
            format!(r#"{{"args":{},"op":"subscribe"}}"#, list(&first)),
            format!(r#"{{"args":{},"op":"subscribe"}}"#, list(&second)),
        ]
    );

    let products = r#"["BTC-USD","ETH-USD","SOL-USD","XRP-USD","DOGE-USD"]"#;
    let of = |c: &str| {
        format!(r#"{{"channel":"{c}","product_ids":{products},"type":"subscribe"}}"#)
    };
    assert_eq!(
        CoinbaseCollector::new().subscribe_msgs(),
        [of("ticker"), of("market_trades"), of("level2")]
    );

    let symbols = r#"["BTC/USD","ETH/USD","SOL/USD","XRP/USD","DOGE/USD"]"#;
    let of = |c: &str, options: &str| {
        format!(
            r#"{{"method":"subscribe","params":{{"channel":"{c}",{options}"symbol":{symbols}}}}}"#
        )
    };
    assert_eq!(
        KrakenCollector::new().subscribe_msgs(),
        [of("ticker", ""), of("trade", ""), of("book", r#""depth":10,"snapshot":true,"#)]
    );

    let args: Vec<String> = ["BTC", "ETH", "SOL", "XRP", "DOGE"]
        .iter()
        .flat_map(|coin| {
            ["bbo-tbt", "trades", "books5"]
                .map(|c| format!(r#"{{"channel":"{c}","instId":"{coin}-USDT"}}"#))
        })
        .collect();
    assert_eq!(
        OkxCollector::new().subscribe_msgs(),
        [format!(r#"{{"args":{},"op":"subscribe"}}"#, list(&args))]
    );
    for m in BybitCollector::new().subscribe_msgs() {
        let args = j(&m).at("args").as_list().unwrap().len();
        assert!(args > 0 && args <= 10);
    }
}

#[test]
fn pings() {
    assert_eq!(BinanceCollector::new().ping_msg(), None);
    assert_eq!(CoinbaseCollector::new().ping_msg(), None);
    assert_eq!(OkxCollector::new().ping_msg().as_deref(), Some("ping"));
    assert_eq!(BybitCollector::new().ping_msg().as_deref(), Some(r#"{"op":"ping"}"#));
    assert_eq!(KrakenCollector::new().ping_msg().as_deref(), Some(r#"{"method":"ping"}"#));
}

#[test]
fn names_and_addresses() {
    assert_eq!(BinanceCollector::new().name(), "binance");
    assert_eq!(BinanceCollector::new().ws_url(), "wss://stream.binance.com:9443/stream");
    assert_eq!(KrakenCollector::new().ws_url(), "wss://ws.kraken.com/v2");
    assert_eq!(OkxCollector::new().name(), "okx");
    assert_eq!(BybitCollector::new().max_frame_size(), 1 << 21);
    assert_eq!(CoinbaseCollector::new().max_frame_size(), 1 << 23);
}

#[test]
fn binance_whole_book() {
    assert_eq!(
        depth_url("btcusdt"),
        "https://api.binance.com/api/v3/depth?symbol=BTCUSDT&limit=1000"
    );
    let body = r#"{"lastUpdateId":1027024,"bids":[["4.0","431.0"]],"asks":[["4.000002","12"]]}"#;
    let b = parse_snapshot("btc/usd", body, 5).unwrap();
    assert_eq!((b.exchange, b.symbol.as_str()), (Exchange::Binance, "btc/usd"));
    assert_eq!((b.ts_ex, b.recv_ms, b.is_snapshot), (5, 5, true));
    assert_eq!((b.seq, b.first_seq), (Some(1_027_024), Some(1_027_024)));
    assert_eq!(b.asks, vec![[d("4.000002"), d("12")]]);
    assert!(parse_snapshot("btc/usd", r#"{"bids":[]}"#, 5).is_none());
    assert!(parse_snapshot("btc/usd", "oops", 5).is_none());
}

#[test]
fn binance_changes_carry_both_sequence_numbers() {
    let raw = r#"{"stream":"btcusdt@depth@100ms","data":{"T":9,"U":157,"u":160,"b":[],"a":[]}}"#;
    match &BinanceCollector::new().parse(raw, 5)[..] {
        [ParsedRecord::Book(b)] => assert_eq!((b.first_seq, b.seq), (Some(157), Some(160))),
        other => panic!("{other:?}"),
    }
}

#[test]
fn records_bear_the_time_of_receipt() {
    let raw = r#"{"channel":"ticker","data":[{"symbol":"BTC/USD","bid":1,"ask":2},
        {"symbol":"ETH/USD","bid":1,"ask":2},{"symbol":"ADA/USD","bid":1,"ask":2},{"symbol":"SOL/USD"}]}"#;
    let recs = KrakenCollector::new().parse(raw, 77);
    assert_eq!(recs.len(), 2);
    for r in recs {
        match r {
            ParsedRecord::Bbo(b) => assert_eq!((b.recv_ms, b.ts_ex), (77, 77)),
            other => panic!("{other:?}"),
        }
    }
}
