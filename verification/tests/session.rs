use block_model::collector::config::Config;
use block_model::collector::exchanges::bybit::BybitCollector;
use block_model::collector::exchanges::coinbase::CoinbaseCollector;
use block_model::collector::exchanges::{ExchangeSpec, ParsedRecord};
use block_model::collector::session::{
    Action, Backoff, Books, Event, Session, Stage, Tick, Watch, BOOK_DEPTH,
};
use block_model::collector::sink::{BookRow, WriteMsg};
use block_model::decimal::Decimal;
use block_model::types::{BookRecord, Exchange};

fn d(s: &str) -> Decimal {
    Decimal::parse(s).unwrap()
}

fn config() -> Config {
    Config::from_env(&vec![])
}

fn record(symbol: &str, snapshot: bool, bids: &[(&str, &str)], asks: &[(&str, &str)]) -> BookRecord {
    let ladder = |l: &[(&str, &str)]| l.iter().map(|(p, q)| [d(p), d(q)]).collect::<Vec<_>>();
    BookRecord {
        exchange: Exchange::Bybit,
        symbol: symbol.to_string(),
        ts_ex: 1,
        recv_ms: 2,
        bids: ladder(bids),
        asks: ladder(asks),
        is_snapshot: snapshot,
        seq: Some(42),
        first_seq: None,
    }
}

fn book_rows(msgs: Vec<WriteMsg>) -> Vec<BookRow> {
    msgs.into_iter()
        .map(|m| match m {
            WriteMsg::Book(r) => r,
            other => panic!("{other:?}"),
        })
        .collect()
}

/// A session that is open, without books.
fn open<S: ExchangeSpec>(spec: &S, cfg: &Config) -> Session {
    let mut s = Session::new(cfg, 0);
    while let Action::Send(_) = s.handle(Event::Proceed, spec, cfg) {}
    let recs = vec![];
    s.handle(Event::Fetched { recs: &recs, now_ns: 0 }, spec, cfg);
    assert_eq!(s.stage, Stage::Open);
    s
}

#[test]
fn waits_double_up_to_the_longest() {
    let mut b = Backoff::new(1, 60);
    let waits: Vec<u64> = (0..8).map(|_| b.after(0)).collect();
    assert_eq!(waits, [1, 2, 4, 8, 16, 32, 60, 60]);
}

#[test]
fn healthy_session_starts_the_waits_anew() {
    let mut b = Backoff::new(1, 60);
    for _ in 0..5 {
        b.after(59_999_999_999);
    }
    assert_eq!(b.after(60_000_000_000), 1);
    assert_eq!(b.after(0), 2);
}

#[test]
fn long_waits_do_not_overflow() {
    let mut b = Backoff::new(u64::MAX, u64::MAX);
    assert_eq!(b.after(0), u64::MAX);
    assert_eq!(b.after(0), u64::MAX);
    let mut b = Backoff::new(100, 60);
    assert_eq!((b.after(0), b.after(0)), (100, 60));
}

#[test]
fn silence_ends_a_session() {
    let mut w = Watch::new(20, 0);
    assert_eq!(w.second(20_000_000_000), Tick::Quiet);
    assert_eq!(w.second(20_000_000_001), Tick::Stale(20));
    w.touch(25_000_000_000);
    assert_eq!(w.second(26_000_000_000), Tick::Quiet);
    // A clock that seems to go back is no silence.
    assert_eq!(w.second(0), Tick::Quiet);
    assert_eq!(Watch::new(0, 0).stale_s, 1);
}

#[test]
fn every_minute_is_reported() {
    let mut w = Watch::new(1000, 0);
    let ticks: Vec<Tick> = (0..120).map(|_| w.second(0)).collect();
    let reports: Vec<usize> =
        ticks.iter().enumerate().filter(|(_, t)| **t == Tick::Report).map(|(i, _)| i + 1).collect();
    assert_eq!(reports, [60, 120]);
}

#[test]
fn books_are_kept_by_symbol() {
    let mut b = Books::new();
    b.track_book(&record("btc/usd", true, &[("1", "1")], &[("2", "1")]));
    b.track_book(&record("eth/usd", true, &[("3", "1")], &[]));
    b.track_book(&record("btc/usd", false, &[("1.5", "1")], &[]));
    assert_eq!(b.list.len(), 2);
    assert_eq!(b.list[0].1.best_bid(), Some((d("1.5"), d("1"))));
    assert_eq!(b.list[0].1.max_levels, BOOK_DEPTH);
}

#[test]
fn whole_books_are_replayed_when_both_sides_are_there() {
    let mut b = Books::new();
    b.track_book(&record("btc/usd", true, &[("1", "1"), ("1.5", "2")], &[("2", "1")]));
    b.track_book(&record("eth/usd", true, &[("3", "1")], &[]));
    let rows = book_rows(b.replay_books(77));
    assert_eq!(rows.len(), 1);
    let r = &rows[0];
    assert_eq!((r.exchange.as_str(), r.symbol.as_str()), ("bybit", "btc/usd"));
    assert_eq!((r.ts_ex, r.recv_ms, r.is_snapshot), (77, 77, 1));
    assert_eq!((r.seq, r.first_seq), (42, 42));
    assert_eq!(r.bids_json, r#"[["1.5","2"],["1","1"]]"#);
    assert_eq!(r.asks_json, r#"[["2","1"]]"#);
}

#[test]
fn only_targets_are_written_and_kept() {
    let cfg = config();
    let spec = BybitCollector::new();
    let mut s = Session::new(&cfg, 0);
    while let Action::Send(_) = s.handle(Event::Proceed, &spec, &cfg) {}
    let recs = vec![
        ParsedRecord::Book(record("btc/usd", true, &[("1", "1")], &[])),
        ParsedRecord::Book(record("ada/usd", true, &[("1", "1")], &[])),
    ];
    match s.handle(Event::Fetched { recs: &recs, now_ns: 7 }, &spec, &cfg) {
        Action::Write(msgs) => assert_eq!(book_rows(msgs).len(), 1),
        other => panic!("{other:?}"),
    }
    assert_eq!(s.books.list.len(), 1);
    assert_eq!((s.stage, s.watch.last_ns), (Stage::Open, 7));
}

#[test]
fn session_opens_in_order() {
    let cfg = config();
    let spec = CoinbaseCollector::new();
    let mut s = Session::new(&cfg, 0);
    let raw = r#"{"channel":"ticker","timestamp":"2025-08-11T08:13:19Z","events":[{"tickers":[
        {"product_id":"BTC-USD","best_bid":"1","best_ask":"2"}]}]}"#;
    let text = Event::Text { raw, recv_ms: 3, now_ns: 4 };
    let recs = vec![ParsedRecord::Book(record("btc/usd", true, &[("1", "1")], &[("2", "1")]))];
    let fetched = Event::Fetched { recs: &recs, now_ns: 5 };

    let mut sent = Vec::new();
    loop {
        // Neither the stream nor books that were not asked for are taken in.
        assert!(matches!(s.handle(text, &spec, &cfg), Action::Wait));
        assert!(matches!(s.handle(fetched, &spec, &cfg), Action::Wait));
        match s.handle(Event::Proceed, &spec, &cfg) {
            Action::Send(frame) => sent.push(frame),
            Action::Fetch => break,
            other => panic!("{other:?}"),
        }
    }
    assert_eq!(sent, spec.subscribe_msgs());
    assert_eq!(sent.len(), 3);
    assert!(matches!(s.handle(text, &spec, &cfg), Action::Wait));
    assert!(matches!(s.handle(Event::Proceed, &spec, &cfg), Action::Wait));
    assert_eq!((s.watch.msgs, s.books.list.len()), (0, 0));
    assert!(matches!(s.handle(fetched, &spec, &cfg), Action::Write(m) if m.len() == 1));
    assert!(matches!(s.handle(text, &spec, &cfg), Action::Write(m) if m.len() == 1));
    assert!(matches!(s.handle(fetched, &spec, &cfg), Action::Wait));
    assert_eq!((s.watch.msgs, s.books.list.len()), (1, 1));
}

#[test]
fn text_frames_are_read_counted_and_written() {
    let cfg = config();
    let mut s = open(&BybitCollector::new(), &cfg);
    let raw = r#"{"topic":"orderbook.50.XRPUSDT","type":"snapshot","ts":1754899999000,
        "data":{"s":"XRPUSDT","b":[["2.50","100"]],"a":[["2.51","200"]],"u":5,"seq":9}}"#;
    let e = Event::Text { raw, recv_ms: 3, now_ns: 4 };
    match s.handle(e, &BybitCollector::new(), &cfg) {
        Action::Write(msgs) => {
            let rows = book_rows(msgs);
            assert_eq!(rows[0].symbol, "xrp/usd");
            assert_eq!(rows[0].recv_ms, 3);
        }
        other => panic!("{other:?}"),
    }
    assert_eq!((s.watch.msgs, s.watch.last_ns), (1, 4));
    match s.handle(Event::ReplayDue { now_ms: 8 }, &BybitCollector::new(), &cfg) {
        Action::Write(msgs) => assert_eq!(book_rows(msgs)[0].bids_json, r#"[["2.50","100"]]"#),
        other => panic!("{other:?}"),
    }
}

#[test]
fn pings_are_texts_or_of_the_protocol() {
    let cfg = config();
    let mut s = open(&BybitCollector::new(), &cfg);
    match s.handle(Event::PingDue, &BybitCollector::new(), &cfg) {
        Action::Ping(Some(t)) => assert_eq!(t, r#"{"op":"ping"}"#),
        other => panic!("{other:?}"),
    }
    assert!(matches!(s.handle(Event::PingDue, &CoinbaseCollector::new(), &cfg), Action::Ping(None)));
}

#[test]
fn reasons_for_the_end() {
    let cfg = config();
    let spec = BybitCollector::new();
    let mut s = open(&BybitCollector::new(), &cfg);
    let mut end = |e: Event<'_>| match s.handle(e, &spec, &cfg) {
        Action::End(t) => t,
        other => panic!("{other:?}"),
    };
    assert_eq!(end(Event::StreamClosed), "stream closed");
    assert_eq!(end(Event::CloseFrame { detail: "None" }), "close frame: None");
    assert_eq!(end(Event::PingFailed { error: "broken" }), "ping send failed: broken");
    let e = Event::Second { now_ns: 21_000_000_000, dropped: 0 };
    assert_eq!(end(e), "stale: no frame for 21s");
}

#[test]
fn other_events_change_little() {
    let cfg = config();
    let spec = BybitCollector::new();
    let mut s = open(&BybitCollector::new(), &cfg);
    assert!(matches!(s.handle(Event::Fragment, &spec, &cfg), Action::Wait));
    assert!(matches!(s.handle(Event::Alive { now_ns: 5 }, &spec, &cfg), Action::Wait));
    assert_eq!((s.watch.last_ns, s.watch.msgs), (5, 0));
    for i in 1..=60u64 {
        let a = s.handle(Event::Second { now_ns: 5, dropped: 9 }, &spec, &cfg);
        if i == 60 {
            assert!(matches!(a, Action::Report { msgs: 0, dropped: 9 }));
        } else {
            assert!(matches!(a, Action::Wait));
        }
    }
}
