use block_model::features::dataset::{
    complete_window, csv_header, labels_sql, read_labels, LabelField, PRED_OFFSET_MS,
};
use block_model::features::rows::read_rows;

const ROW: &str = r#"{"symbol":"btc/usd","win_start_ms":"600000","pred_ms":790000,
"label_up":1,"rel_move":-0.00012,"near_tie":"0"}"#;

fn row() -> String {
    ROW.replace('\n', "")
}

#[test]
fn labels_are_read() {
    let labels = read_labels(&read_rows(&row()).unwrap()).unwrap();
    let l = &labels[0];
    assert_eq!(l.symbol, "btc/usd");
    assert_eq!((l.win_start_ms, l.pred_ms), (600_000, 790_000));
    assert_eq!(l.pred_ms - l.win_start_ms, PRED_OFFSET_MS);
    assert_eq!((l.label_up, l.near_tie), (1, 0));
    assert_eq!(l.rel_move.parse::<f64>().unwrap(), -0.00012);
}

#[test]
fn numbers_are_cut_to_a_byte() {
    let s = row().replace("\"label_up\":1", "\"label_up\":257").replace("\"0\"", "\"-1\"");
    let labels = read_labels(&read_rows(&s).unwrap()).unwrap();
    assert_eq!((labels[0].label_up, labels[0].near_tie), (1, 255));
}

#[test]
fn fields_to_blame() {
    let cases = [
        ("\"symbol\":\"btc/usd\"", "\"symbol\":1", LabelField::Symbol),
        ("\"600000\"", "\"x\"", LabelField::WinStartMs),
        ("790000", "null", LabelField::PredMs),
        ("\"label_up\":1", "\"label_up\":1.5", LabelField::LabelUp),
        ("-0.00012", "[]", LabelField::RelMove),
        ("\"0\"", "{}", LabelField::NearTie),
    ];
    for (from, to, field) in cases {
        let s = format!("{}\n{}", row(), row().replace(from, to));
        let e = read_labels(&read_rows(&s).unwrap()).map(|_| ()).unwrap_err();
        assert_eq!(e, (1, field));
    }
}

#[test]
fn query_asks_for_windows_that_ended() {
    assert_eq!(
        labels_sql(17),
        "SELECT symbol, win_start_ms, pred_ms, label_up, rel_move, near_tie \
         FROM pm.training_windows WHERE win_end_ms <= 17 \
         ORDER BY win_start_ms ASC, symbol ASC FORMAT JSONEachRow"
    );
}

#[test]
fn header_names_every_feature() {
    let h = csv_header();
    assert!(h.starts_with("symbol,win_start_ms,ret_so_far,price_position,"));
    assert!(h.ends_with(",log_trades_30s,symbol_id,label_up,rel_move,near_tie"));
    assert_eq!(h.split(',').count(), 38);
}

#[test]
fn complete_window_is_two_back() {
    assert_eq!(complete_window(1_000_000), 300_000);
    let now = 1_786_401_737_000_i64;
    assert_eq!(complete_window(now), ((now / 300_000) - 2) * 300_000);
}
