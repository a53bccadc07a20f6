use block_model::json::{parse_json, quote, quoted_list, write_list};
use block_model::numbers::{parse_i128, parse_i64, parse_unsigned, push_int};
use block_model::text::{
    before, chars, contains, is_empty, lines, same, split, strip_prefix, to_ascii_lower, trim,
};

#[test]
fn texts_are_compared_and_searched() {
    assert!(same("grüße", "grüße") && !same("a", "b") && !same("a", "ab"));
    assert_eq!(chars("aß"), ['a', 'ß']);
    assert!(contains("btcusdt@depth@100ms", "depth") && !contains("x", "depth"));
    assert!(contains("abc", "") && contains("", "") && !contains("", "a"));
    assert_eq!(strip_prefix("orderbook.1.BTC", "orderbook.1."), Some("BTC"));
    assert_eq!(strip_prefix("trade.BTC", "orderbook.1."), None);
    assert_eq!(before("btcusdt@depth@100ms", '@'), "btcusdt");
    assert_eq!(before("btcusdt", '@'), "btcusdt");
    assert!(is_empty("") && !is_empty(" "));
}

#[test]
fn texts_are_split() {
    assert_eq!(split("a,b,,c", ','), ["a", "b", "", "c"]);
    assert_eq!(split("", ','), [""]);
    assert_eq!(split(",", ','), ["", ""]);
    assert_eq!(lines("a\r\nb\nc\r"), ["a", "b", "c\r"]);
    assert_eq!(lines("a\n"), ["a", ""]);
}

#[test]
fn white_space_is_trimmed_as_unicode_has_it() {
    for s in [" a b ", "\u{a0}x\u{3000}", "\t\n", "", "x", "\u{200b}x", "\u{85}y\u{2028}"] {
        assert_eq!(trim(s), s.trim(), "{s:?}");
    }
}

#[test]
fn capitals_become_small() {
    assert_eq!(to_ascii_lower("SeLL"), "sell");
    assert_eq!(to_ascii_lower("ÄZ"), "Äz");
}

#[test]
fn numbers_are_read_as_std_reads_them() {
    for s in [
        "0", "-0", "+5", "-5", "", "+", "-", "1_000", " 1", "1 ", "00012", "1.0", "１",
        "170141183460469231731687303715884105727",
        "170141183460469231731687303715884105728",
        "-170141183460469231731687303715884105728",
        "-170141183460469231731687303715884105729",
        "9223372036854775807", "9223372036854775808", "-9223372036854775808",
        "18446744073709551615", "18446744073709551616", "65535", "65536", "--1", "+-1",
        "340282366920938463463374607431768211456",
    ] {
        assert_eq!(parse_i128(s), s.parse::<i128>().ok(), "{s:?}");
        assert_eq!(parse_i64(s), s.parse::<i64>().ok(), "{s:?}");
        assert_eq!(parse_unsigned(s, u64::MAX), s.parse::<u64>().ok(), "{s:?}");
        assert_eq!(parse_unsigned(s, 65535), s.parse::<u16>().ok().map(|n| n as u64), "{s:?}");
    }
}

#[test]
fn numbers_are_written_as_std_writes_them() {
    for n in [0, 7, -7, 10, 99, 100, -1000, i128::MAX, i128::MIN] {
        let mut s = "x".to_string();
        push_int(&mut s, n);
        assert_eq!(s, format!("x{n}"));
    }
}

#[test]
fn json_is_read() {
    let j = parse_json(r#"{"b":true,"n":-5,"u":18446744073709551615,"f":1.50,"t":"x","l":[1,null]}"#)
        .unwrap();
    assert_eq!(j.at("b").as_bool(), Some(true));
    assert_eq!((j.at("n").as_i64(), j.at("n").as_u64()), (Some(-5), None));
    assert_eq!((j.at("u").as_i64(), j.at("u").as_u64()), (None, Some(u64::MAX)));
    assert_eq!((j.at("f").as_i64(), j.at("t").as_str()), (None, Some("x")));
    assert_eq!(j.at("l").as_list().unwrap().len(), 2);
    assert_eq!(j.at("missing").as_str(), None);
    assert_eq!(j.at("t").at("x").as_bool(), None);
    assert!(parse_json("{").is_none() && parse_json("").is_none());
}

#[test]
fn json_is_written() {
    assert_eq!(quote("btc/usd"), "\"btc/usd\"");
    assert_eq!(quote("a\"\\\n"), "\"a\\\"\\\\\\n\"");
    assert_eq!(quoted_list(&["a", "b"]), r#"["a","b"]"#);
    assert_eq!(quoted_list(&[]), "[]");
    assert_eq!(write_list(&vec!["1".to_string(), "[]".to_string()]), "[1,[]]");
}
