use block_model::collector::config::Config;
use block_model::collector::rtds::{
    handle, parse_frame, read_update, store, subscribe_msg, RtdsAction, WINDOW_S_DEFAULT,
};
use block_model::collector::session::{Event, Watch};
use block_model::decimal::Decimal;
use block_model::json::parse_json;

const RECV: i64 = 1_754_900_000_000;

fn d(s: &str) -> Decimal {
    Decimal::parse(s).unwrap()
}

fn frame(sym: &str, val: &str) -> String {
    format!(
        r#"{{"topic":"crypto_prices_twap_thirty","type":"update","timestamp":1754899999500,
            "payload":{{"symbol":"{sym}","full_accuracy_value":"{val}",
                        "timestamp":1754899999000,"window_s":30}}}}"#
    )
}

#[test]
fn parses_a_twap_update() {
    let r = parse_frame(&frame("BTC/USD", "112345670000000000000000"), RECV).unwrap();
    assert_eq!(r.symbol, "btc/usd", "the symbol must be in small letters");
    assert_eq!(r.window_s, 30);
    assert_eq!(r.obs_ms, 1_754_899_999_000, "obs_ms is the time of the payload");
    assert_eq!(r.pub_ms, 1_754_899_999_500, "pub_ms is the time of the envelope");
    assert_eq!(r.recv_ms, RECV);
    assert_eq!(r.value_e18, "112345670000000000000000");
    assert_eq!(r.price, d("112345.67"));
}

#[test]
fn price_keeps_sub_cent_precision() {
    let r = parse_frame(&frame("DOGE/USD", "220145678900000000"), RECV).unwrap();
    assert_eq!(r.price, d("0.2201456789"));
}

#[test]
fn rejects_bad_payloads() {
    assert!(parse_frame(&frame("BTC/USD", "not-a-number"), RECV).is_none());
    assert!(parse_frame(&frame("BTC/USD", "0"), RECV).is_none());
    assert!(parse_frame(&frame("BTC/USD", "-1"), RECV).is_none());
    assert!(parse_frame(&frame("BTC/USD", ""), RECV).is_none());
}

#[test]
fn ignores_other_topics_and_types() {
    let other_topic = r#"{"topic":"crypto_prices","type":"update","timestamp":1,
            "payload":{"symbol":"btc/usd","full_accuracy_value":"1","timestamp":1}}"#;
    assert!(parse_frame(other_topic, RECV).is_none());

    let other_type = r#"{"topic":"crypto_prices_twap_thirty","type":"subscribed","timestamp":1,
            "payload":{"symbol":"btc/usd","full_accuracy_value":"1","timestamp":1}}"#;
    assert!(parse_frame(other_type, RECV).is_none());
}

#[test]
fn missing_timestamps_fall_back_to_recv() {
    let raw = r#"{"topic":"crypto_prices_twap_thirty","type":"update",
            "payload":{"symbol":"eth/usd","full_accuracy_value":"3000000000000000000000"}}"#;
    let r = parse_frame(raw, RECV).unwrap();
    assert_eq!(r.obs_ms, RECV);
    assert_eq!(r.pub_ms, RECV);
    assert_eq!(r.window_s, WINDOW_S_DEFAULT, "30 seconds unless it is said");
}

#[test]
fn malformed_input_never_panics() {
    for j in ["", "{", "null", "[]", "\"PONG\"", "{\"topic\":123}", "{\"payload\":[]}"] {
        assert!(parse_frame(j, RECV).is_none(), "{j:?}");
    }
}

#[test]
fn value_is_trimmed_and_window_is_cut_to_16_bits() {
    let raw = r#"{"topic":"crypto_prices_twap_thirty","type":"update",
        "payload":{"symbol":"x","full_accuracy_value":" 5 ","window_s":65546}}"#;
    let r = read_update(&parse_json(raw).unwrap(), RECV).unwrap();
    assert_eq!(r.value_e18, "5");
    assert_eq!(r.window_s, 10);
    assert_eq!(r.price.text(), "0.000000000000000005");
}

#[test]
fn value_too_long_for_a_decimal_has_no_price() {
    let long = "79228162514264337593543950336000";
    let r = parse_frame(&frame("BTC/USD", long), RECV).unwrap();
    assert_eq!(r.value_e18, long);
    assert!(r.price.is_zero());
}

#[test]
fn subscription_names_the_topic() {
    assert_eq!(
        subscribe_msg(),
        r#"{"action":"subscribe","subscriptions":[{"topic":"crypto_prices_twap_thirty","type":"update"}]}"#
    );
}

#[test]
fn every_value_is_mirrored_and_targets_are_written() {
    let cfg = Config::from_env(&vec![]);
    match store(parse_frame(&frame("BTC/USD", "7"), RECV), &cfg) {
        RtdsAction::Store { record, row } => {
            assert_eq!(record.symbol, "btc/usd");
            assert_eq!(row.unwrap().price, 7);
        }
        other => panic!("{other:?}"),
    }
    match store(parse_frame(&frame("ADA/USD", "7"), RECV), &cfg) {
        RtdsAction::Store { record, row } => {
            assert_eq!(record.symbol, "ada/usd");
            assert!(row.is_none());
        }
        other => panic!("{other:?}"),
    }
    assert!(matches!(store(None, &cfg), RtdsAction::Wait));
}

#[test]
fn session_counts_frames_but_not_pongs() {
    let cfg = Config::from_env(&vec![]);
    let mut w = Watch::new(30, 0);
    for raw in ["PONG", "  \n", ""] {
        let e = Event::Text { raw, recv_ms: RECV, now_ns: 5 };
        assert!(matches!(handle(&mut w, e, &cfg), RtdsAction::Wait));
    }
    assert_eq!((w.msgs, w.last_ns), (0, 5));
    let raw = frame("ETH/USD", "9");
    let e = Event::Text { raw: &raw, recv_ms: RECV, now_ns: 6 };
    assert!(matches!(handle(&mut w, e, &cfg), RtdsAction::Store { .. }));
    assert_eq!((w.msgs, w.last_ns), (1, 6));
}

#[test]
fn session_pings_and_ends() {
    let cfg = Config::from_env(&vec![]);
    let mut w = Watch::new(30, 0);
    match handle(&mut w, Event::PingDue, &cfg) {
        RtdsAction::Ping(t) => assert_eq!(t, "PING"),
        other => panic!("{other:?}"),
    }
    let end = |w: &mut Watch, e: Event<'_>| match handle(w, e, &cfg) {
        RtdsAction::End(t) => t,
        other => panic!("{other:?}"),
    };
    assert_eq!(end(&mut w, Event::StreamClosed), "stream closed");
    assert_eq!(end(&mut w, Event::CloseFrame { detail: "None" }), "close frame: None");
    assert_eq!(end(&mut w, Event::PingFailed { error: "x" }), "ping failed: x");
    let e = Event::Second { now_ns: 31_500_000_000, dropped: 0 };
    assert_eq!(end(&mut w, e), "stale: no frame for 31s");
    assert!(matches!(handle(&mut w, Event::Fragment, &cfg), RtdsAction::Wait));
    assert!(matches!(handle(&mut w, Event::ReplayDue { now_ms: 1 }, &cfg), RtdsAction::Wait));
    assert!(matches!(handle(&mut w, Event::Alive { now_ns: 9 }, &cfg), RtdsAction::Wait));
    assert_eq!(w.last_ns, 9);
}

#[test]
fn prices_are_exact_as_far_as_decimals_go() {
    for (value, price) in [
        ("1", "0.000000000000000001"),
        ("999999999999999999999999999", "999999999.999999999999999999"),
        ("123456789012345678901234567", "123456789.012345678901234567"),
        ("1000000000000000000", "1"),
        ("+5000000000000000000", "5"),
        ("79228162514264337593543950335", "79228162514.264337593543950335"),
        ("79228162514264337593543950334", "79228162514.264337593543950334"),
        ("79228162514264337593000000000", "79228162514.264337593"),
        ("10000000000000000000000000001", "10000000000.000000000000000001"),
        ("79228162514264337593543950336", "0"),
        ("170141183460469231731687303715884105727", "0"),
    ] {
        let r = parse_frame(&frame("BTC/USD", value), RECV).unwrap();
        assert_eq!(r.price, d(price), "{value}");
    }
}
