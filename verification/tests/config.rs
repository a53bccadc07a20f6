use block_model::collector::ch::{conn_event_sql, escape};
use block_model::collector::config::{env_u16, read_symbols, Config};
use block_model::inference::config::Config as ServiceConfig;

fn env(list: &[(&str, &str)]) -> Vec<(String, String)> {
    list.iter().map(|(k, v)| (k.to_string(), v.to_string())).collect()
}

#[test]
fn defaults() {
    let c = Config::from_env(&env(&[]));
    assert_eq!(c.ch_host, "localhost");
    assert_eq!(c.ch_port, 9000);
    assert_eq!(c.ch_user, "default");
    assert_eq!(c.ch_password, "");
    assert_eq!(c.ch_database, "pm");
    assert_eq!(c.ch_batch_sz, 200);
    assert_eq!(c.rtds_url, "wss://ws-live-data.polymarket.com");
    assert_eq!((c.rtds_ping_s, c.rtds_stale_s), (5, 30));
    assert_eq!((c.rtds_backoff_init, c.rtds_backoff_max), (1, 60));
    assert_eq!((c.ex_stale_s, c.ex_ping_s), (20, 15));
    assert_eq!((c.ex_backoff_init, c.ex_backoff_max), (1, 60));
    assert_eq!(c.target_symbols, ["btc/usd", "eth/usd", "sol/usd", "xrp/usd", "doge/usd"]);
    assert_eq!(c.backup_dir, "./data/raw");
}

#[test]
fn variables_override_defaults() {
    let c = Config::from_env(&env(&[
        ("CH_HOST", "db"),
        ("CH_PORT", "8124"),
        ("CH_BATCH_SIZE", "+7"),
        ("EX_STALE_TIMEOUT", "nonsense"),
        ("TARGET_SYMBOLS", " BTC/USD ,eth/usd,btc/usd"),
    ]));
    assert_eq!(c.ch_host, "db");
    assert_eq!(c.ch_port, 8124);
    assert_eq!(c.ch_batch_sz, 7);
    assert_eq!(c.ex_stale_s, 20);
    assert_eq!(c.target_symbols, ["btc/usd", "eth/usd"]);
}

#[test]
fn numbers_that_do_not_fit_leave_the_default() {
    let e = env(&[("A", "65535"), ("B", "65536"), ("C", "-1"), ("D", "")]);
    assert_eq!(env_u16(&e, "A", 1), 65535);
    assert_eq!(env_u16(&e, "B", 1), 1);
    assert_eq!(env_u16(&e, "C", 1), 1);
    assert_eq!(env_u16(&e, "D", 1), 1);
}

#[test]
fn symbols_of_an_empty_list() {
    assert_eq!(read_symbols(""), [""]);
    assert_eq!(read_symbols("a,,A, b"), ["a", "", "b"]);
}

#[test]
fn targets_are_compared_in_small_letters() {
    let c = Config::from_env(&env(&[]));
    assert!(c.is_target("BTC/USD"));
    assert!(c.is_target("doge/usd"));
    assert!(!c.is_target("ada/usd"));
    assert!(!c.is_target(" btc/usd"));
}

#[test]
fn addresses() {
    let c = Config::from_env(&env(&[("CH_USER", "u"), ("CH_PASSWORD", "p")]));
    assert_eq!(c.ch_url(), "tcp://u:p@localhost:9000/pm");
    assert_eq!(c.http_url(), "http://localhost:8123");
    let c = Config::from_env(&env(&[("CH_PORT", "8124")]));
    assert_eq!(c.http_url(), "http://localhost:8124");
}

#[test]
fn service_settings() {
    let c = ServiceConfig::from_env(&env(&[]));
    assert_eq!(c.bind_addr(), "127.0.0.1:8765");
    assert_eq!(c.ch_url(), "http://localhost:8123/");
    assert_eq!(c.model_path, "./models/model.onnx");
    assert_eq!(c.calibration_path, "./models/calibration.json");
    let c = ServiceConfig::from_env(&env(&[("CH_PORT", "1"), ("INFERENCE_PORT", "80")]));
    assert_eq!((c.ch_port, c.bind_port), (1, 80));
    assert_eq!((c.ch_user.as_str(), c.ch_database.as_str()), ("default", "pm"));
}

#[test]
fn quotes_are_escaped() {
    assert_eq!(escape("it's"), "it\\'s");
    assert_eq!(escape("plain"), "plain");
    assert_eq!(escape("a\\b"), "a\\\\b");
    assert_eq!(escape("\\'"), "\\\\\\'", "the quote stays behind a backslash of its own");
    assert_eq!(
        conn_event_sql(5, "okx", "error", "can't"),
        "INSERT INTO conn_events (ts_ms, source, event, detail) VALUES (5, 'okx', 'error', 'can\\'t')"
    );
}

#[test]
fn no_detail_closes_its_quotes() {
    let head = "INSERT INTO conn_events (ts_ms, source, event, detail) VALUES (5, 'okx', 'error', '";
    for detail in ["", "\\", "'", "\\'", "\\\\'", "'); DROP TABLE twap; --", "x\\'); --"] {
        let sql = conn_event_sql(5, "okx", "error", detail);
        let body: Vec<char> = sql.strip_prefix(head).unwrap().chars().collect();
        let (mut i, mut read) = (0, String::new());
        while body[i] != '\'' {
            if body[i] == '\\' {
                i += 1;
            }
            read.push(body[i]);
            i += 1;
        }
        assert_eq!(read, detail);
        assert_eq!(i, body.len() - 2, "{sql}");
    }
}
