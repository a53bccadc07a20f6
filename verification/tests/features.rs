use block_model::decimal::Decimal;
use block_model::features::median::{median, Median};
use block_model::features::snapshot::{
    BboTick, TradeTick, TwapTick, WindowSnapshot, BBO_STALE_MS,
};
use block_model::features::vector::{
    compute_features, feature_inputs, missing_features, symbol_id, Features, FEATURE_COUNT,
    FEATURE_NAMES,
};
use block_model::numbers::order_key;

/// Bid, quantity bid, ask, quantity asked.
type Quote = [f64; 4];
/// Price and quantity.
type Deal = [f64; 2];
type Snapshot = WindowSnapshot<Quote, Deal, f64>;

fn d(s: &str) -> Decimal {
    Decimal::parse(s).unwrap()
}

fn float(d: Decimal) -> f64 {
    d.text().parse().unwrap()
}

fn make_snap(win_start_ms: i64, snap_ms: i64, ticks: Vec<(i64, Decimal)>) -> Snapshot {
    make_snap_with_ex(win_start_ms, snap_ms, ticks, vec![], vec![])
}

fn make_snap_with_ex(
    win_start_ms: i64,
    snap_ms: i64,
    ticks: Vec<(i64, Decimal)>,
    bbo_ticks: Vec<BboTick<Quote>>,
    trade_ticks: Vec<TradeTick<Deal>>,
) -> Snapshot {
    WindowSnapshot {
        snap_ms,
        symbol: "btc/usd".to_string(),
        win_start_ms,
        twap_ticks: ticks.into_iter().map(|(obs_ms, price)| TwapTick { obs_ms, price }).collect(),
        bbo_ticks,
        trade_ticks,
        fx_usdt_premium: None,
    }
}

fn bbo(ex: &str, recv_ms: i64, bid: f64, bid_qty: f64, ask: f64, ask_qty: f64) -> BboTick<Quote> {
    BboTick { exchange: ex.to_string(), recv_ms, quote: [bid, bid_qty, ask, ask_qty] }
}

fn trade(ex: &str, recv_ms: i64, price: f64, qty: f64, is_buy: bool) -> TradeTick<Deal> {
    TradeTick { exchange: ex.to_string(), recv_ms, is_buy, deal: [price, qty] }
}

fn mid(t: &BboTick<Quote>) -> f64 {
    (t.quote[0] + t.quote[2]) / 2.0
}

fn consensus_mid(snap: &Snapshot) -> Option<f64> {
    let mids: Vec<f64> = snap.latest_bbo_per_exchange().into_iter().map(mid).collect();
    let keys = mids.iter().map(|m| order_key(m.to_bits()).unwrap()).collect();
    Some(match median(&keys)? {
        Median::One(i) => mids[i],
        Median::Two(i, j) => (mids[i] + mids[j]) / 2.0,
    })
}

fn basis(snap: &Snapshot) -> Option<f64> {
    let twap = float(snap.current_price()?);
    Some((consensus_mid(snap)? - twap) / twap)
}

fn basis_series(snap: &Snapshot) -> Vec<f64> {
    snap.basis_pairs()
        .into_iter()
        .map(|(t, q)| {
            let twap = float(snap.twap_ticks[t].price);
            (mid(&snap.bbo_ticks[q]) - twap) / twap
        })
        .collect()
}

fn flow_imbalance(snap: &Snapshot, window_ms: i64) -> f64 {
    let (mut buy, mut sell) = (0.0, 0.0);
    for t in snap.trades_in_last(window_ms) {
        if t.is_buy {
            buy += t.deal[1];
        } else {
            sell += t.deal[1];
        }
    }
    (buy - sell) / (buy + sell)
}

/// Features that hold their own place.
fn numbered() -> Features<f64> {
    Features {
        ret_so_far: 0.0,
        price_position: 1.0,
        spot_ret_from_open: 2.0,
        twap_norm_dist: 3.0,
        spot_norm_dist: 4.0,
        basis_dev: 5.0,
        basis_dev_z: 6.0,
        basis_slope_30s: 7.0,
        basis_slope_60s: 8.0,
        twap_spot_gap_norm: 9.0,
        ofi_10s: 10.0,
        ofi_30s: 11.0,
        ofi_60s: 12.0,
        ofi_agreement: 13.0,
        flow_imb_30s: 14.0,
        flow_imb_60s: 15.0,
        large_flow_imb_60s: 16.0,
        vwap_dev: 17.0,
        slope_all: 18.0,
        slope_recent: 19.0,
        slope_ratio: 20.0,
        ret_30s: 21.0,
        spot_slope_30s: 22.0,
        rel_vol: 23.0,
        vol_ratio: 24.0,
        spot_vol_rel: 25.0,
        rel_spread: 26.0,
        xex_dispersion: 27.0,
        tick_density: 28.0,
        staleness_s: 29.0,
        n_exchanges: 30.0,
        log_trades_30s: 31.0,
        symbol_id: 32.0,
    }
}

#[test]
fn feature_vector_length_matches_count() {
    let start = 1_786_401_600_000_i64;
    let snap_ms = start + 190_000;
    let snap = make_snap(
        start,
        snap_ms,
        vec![
            (start, d("63800.0")),
            (start + 30_000, d("63820.0")),
            (start + 60_000, d("63840.0")),
            (start + 90_000, d("63860.0")),
            (start + 120_000, d("63880.0")),
            (start + 150_000, d("63900.0")),
            (snap_ms - 1_000, d("63920.0")),
        ],
    );
    let fv = compute_features(&snap, numbered());
    assert_eq!(fv.features.len(), FEATURE_COUNT);
    assert_eq!(fv.feature_names.len(), FEATURE_COUNT);
    assert_eq!((fv.symbol.as_str(), fv.snap_ms), ("btc/usd", snap_ms));
}

#[test]
fn feature_names_match_registry() {
    let start = 1_786_401_600_000_i64;
    let snap_ms = start + 190_000;
    let snap = make_snap(start, snap_ms, vec![(start, d("63900.0")), (snap_ms, d("63920.0"))]);
    let fv = compute_features(&snap, numbered());
    for (i, name) in fv.feature_names.iter().enumerate() {
        assert_eq!(name.as_str(), FEATURE_NAMES[i], "name {i}");
        assert_eq!(fv.features[i], i as f64, "feature {i}");
    }
}

#[test]
fn quality_features() {
    let start = 1_786_401_600_000_i64;
    let snap_ms = start + 60_000;
    let ticks: Vec<_> = (0..60).map(|i| (start + i * 1000, d("63900.0"))).collect();
    let snap = make_snap(start, snap_ms, ticks);
    let inputs = feature_inputs(&snap);
    let density = inputs.tick_count as f64 / (inputs.elapsed_ms as f64 / 1000.0);
    assert!((density - 1.0).abs() < 0.01, "{density}");
    let stale = inputs.staleness_ms.unwrap() as f64 / 1000.0;
    assert!((stale - 1.0).abs() < 0.01, "{stale}");
}

#[test]
fn spot_basis_positive_when_spot_leads_up() {
    let start = 1_786_401_600_000_i64;
    let snap_ms = start + 190_000;
    let snap = make_snap_with_ex(
        start,
        snap_ms,
        vec![(start, d("63890.0")), (snap_ms, d("63900.0"))],
        vec![
            bbo("binance", snap_ms - 100, 63949.0, 1.0, 63951.0, 1.0),
            bbo("okx", snap_ms - 200, 63948.0, 1.0, 63952.0, 1.0),
            bbo("coinbase", snap_ms - 300, 63950.0, 1.0, 63952.0, 1.0),
        ],
        vec![],
    );
    let basis = basis(&snap).unwrap();
    assert!(basis > 0.0, "{basis}");
    assert!((basis - 50.0 / 63900.0).abs() < 1e-5, "{basis}");
}

#[test]
fn spot_basis_negative_when_spot_leads_down() {
    let start = 1_786_401_600_000_i64;
    let snap_ms = start + 190_000;
    let snap = make_snap_with_ex(
        start,
        snap_ms,
        vec![(start, d("63900.0")), (snap_ms, d("63900.0"))],
        vec![
            bbo("binance", snap_ms - 100, 63849.0, 1.0, 63851.0, 1.0),
            bbo("okx", snap_ms - 200, 63848.0, 1.0, 63852.0, 1.0),
        ],
        vec![],
    );
    assert!(basis(&snap).unwrap() < 0.0);
}

#[test]
fn constant_basis_yields_zero_deviation() {
    let start = 1_786_401_600_000_i64;
    let snap_ms = start + 190_000;
    let mut twaps = Vec::new();
    let mut bbos = Vec::new();
    for i in 0..=38 {
        let t = start + i * 5_000;
        let px = 63_900.0 + i as f64 * 2.0;
        twaps.push((t, d(&format!("{px}"))));
        let mid = px * 1.0009;
        bbos.push(bbo("binance", t, mid - 0.5, 1.0, mid + 0.5, 1.0));
    }
    let snap = make_snap_with_ex(start, snap_ms, twaps, bbos, vec![]);
    let raw = basis(&snap).unwrap();
    assert!((raw - 0.0009).abs() < 1e-5, "{raw}");
    let series = basis_series(&snap);
    let dev = raw - series.iter().sum::<f64>() / series.len() as f64;
    assert!(dev.abs() < 1e-6, "{dev}");
}

#[test]
fn basis_deviation_captures_late_spot_move() {
    let start = 1_786_401_600_000_i64;
    let snap_ms = start + 190_000;
    let mut twaps = Vec::new();
    let mut bbos = Vec::new();
    for i in 0..=38 {
        let t = start + i * 5_000;
        twaps.push((t, d("63900.0")));
        let bp = if i < 30 { 0.0009 } else { 0.0020 };
        let mid = 63_900.0 * (1.0 + bp);
        bbos.push(bbo("binance", t, mid - 0.5, 1.0, mid + 0.5, 1.0));
    }
    let snap = make_snap_with_ex(start, snap_ms, twaps, bbos, vec![]);
    let series = basis_series(&snap);
    let n = series.len() as f64;
    let mean = series.iter().sum::<f64>() / n;
    let dev = basis(&snap).unwrap() - mean;
    assert!(dev > 0.0, "{dev}");
    let var = series.iter().map(|x| (x - mean).powi(2)).sum::<f64>() / (n - 1.0);
    let z = dev / var.sqrt();
    assert!(z > 0.5, "{z}");
}

#[test]
fn stale_quotes_are_excluded() {
    let start = 1_786_401_600_000_i64;
    let snap_ms = start + 190_000;
    let snap = make_snap_with_ex(
        start,
        snap_ms,
        vec![(start, d("63900.0"))],
        vec![
            bbo("kraken", snap_ms - 12_000, 63839.0, 1.0, 63841.0, 1.0),
            bbo("binance", snap_ms - 100, 63899.0, 1.0, 63901.0, 1.0),
            bbo("okx", snap_ms - 100, 63900.0, 1.0, 63902.0, 1.0),
        ],
        vec![],
    );
    assert!(BBO_STALE_MS < 12_000, "twelve seconds must be too old");
    assert_eq!(snap.active_exchange_count(), 2, "kraken does not count");
    let mids: Vec<f64> = snap.latest_bbo_per_exchange().into_iter().map(mid).collect();
    let mean = mids.iter().sum::<f64>() / mids.len() as f64;
    let var = mids.iter().map(|m| (m - mean).powi(2)).sum::<f64>() / (mids.len() - 1) as f64;
    let disp = var.sqrt() / mean;
    assert!(disp < 5e-5, "{disp}");
}

#[test]
fn consensus_mid_resists_one_bad_exchange() {
    let start = 1_786_401_600_000_i64;
    let snap_ms = start + 190_000;
    let snap = make_snap_with_ex(
        start,
        snap_ms,
        vec![(start, d("63900.0"))],
        vec![
            bbo("binance", snap_ms - 100, 63899.0, 1.0, 63901.0, 1.0),
            bbo("okx", snap_ms - 100, 63900.0, 1.0, 63902.0, 1.0),
            bbo("bybit", snap_ms - 100, 63898.0, 1.0, 63902.0, 1.0),
            bbo("kraken", snap_ms - 100, 57000.0, 1.0, 57010.0, 1.0),
        ],
        vec![],
    );
    let mid = consensus_mid(&snap).unwrap();
    assert!((mid - 63900.0).abs() < 50.0, "{mid}");
}

#[test]
fn latest_bbo_dedups_per_exchange() {
    let start = 1_786_401_600_000_i64;
    let snap_ms = start + 190_000;
    let snap = make_snap_with_ex(
        start,
        snap_ms,
        vec![(start, d("63900.0"))],
        vec![
            bbo("binance", snap_ms - 5000, 63800.0, 1.0, 63801.0, 1.0),
            bbo("binance", snap_ms - 100, 63900.0, 1.0, 63901.0, 1.0),
            bbo("okx", snap_ms - 200, 63899.0, 1.0, 63902.0, 1.0),
        ],
        vec![],
    );
    let latest = snap.latest_bbo_per_exchange();
    assert_eq!(latest.len(), 2, "one for each exchange");
    let binance = latest.iter().find(|t| t.exchange == "binance").unwrap();
    assert_eq!(binance.recv_ms, snap_ms - 100, "the newest one");
}

#[test]
fn trade_flow_imbalance_range() {
    let start = 1_786_401_600_000_i64;
    let snap_ms = start + 190_000;
    let with = |trades| {
        make_snap_with_ex(start, snap_ms, vec![(start, d("63900.0"))], vec![], trades)
    };
    let all_buy = with(vec![
        trade("binance", snap_ms - 5_000, 63900.0, 1.0, true),
        trade("binance", snap_ms - 3_000, 63900.0, 2.0, true),
    ]);
    assert_eq!(flow_imbalance(&all_buy, 30_000), 1.0);
    let all_sell = with(vec![trade("binance", snap_ms - 5_000, 63900.0, 1.0, false)]);
    assert_eq!(flow_imbalance(&all_sell, 30_000), -1.0);
    let balanced = with(vec![
        trade("binance", snap_ms - 5_000, 63900.0, 1.0, true),
        trade("binance", snap_ms - 4_000, 63900.0, 1.0, false),
    ]);
    assert_eq!(flow_imbalance(&balanced, 30_000), 0.0);
}

#[test]
fn trade_flow_respects_window() {
    let start = 1_786_401_600_000_i64;
    let snap_ms = start + 190_000;
    let snap = make_snap_with_ex(
        start,
        snap_ms,
        vec![(start, d("63900.0"))],
        vec![],
        vec![
            trade("binance", snap_ms - 40_000, 63900.0, 100.0, false),
            trade("binance", snap_ms - 10_000, 63900.0, 1.0, true),
        ],
    );
    assert_eq!(flow_imbalance(&snap, 30_000), 1.0, "the trade of 40 seconds ago is out");
    let imb60 = flow_imbalance(&snap, 60_000);
    assert!(imb60 < -0.9, "{imb60}");
}

#[test]
fn book_imbalance_reflects_depth() {
    let start = 1_786_401_600_000_i64;
    let snap_ms = start + 190_000;
    let snap = make_snap_with_ex(
        start,
        snap_ms,
        vec![(start, d("63900.0"))],
        vec![
            bbo("binance", snap_ms - 100, 63899.0, 3.0, 63901.0, 1.0),
            bbo("okx", snap_ms - 100, 63899.0, 3.0, 63901.0, 1.0),
        ],
        vec![],
    );
    let vals: Vec<f64> = snap
        .latest_bbo_per_exchange()
        .iter()
        .map(|t| t.quote[1] / (t.quote[1] + t.quote[3]))
        .collect();
    let imb = vals.iter().sum::<f64>() / vals.len() as f64;
    assert!((imb - 0.75).abs() < 1e-9, "{imb}");
}

#[test]
fn inputs_without_exchange_data() {
    let start = 1_786_401_600_000_i64;
    let snap_ms = start + 190_000;
    let snap = make_snap(start, snap_ms, vec![(start, d("63900.0")), (snap_ms, d("63910.0"))]);
    let i = feature_inputs(&snap);
    assert_eq!((i.n_exchanges, i.trades_30s), (0, 0));
    assert_eq!((i.open, i.current), (Some(d("63900.0")), Some(d("63910.0"))));
    assert_eq!(i.past_30s, Some(d("63900.0")));
    assert_eq!(i.range, Some((d("63900.0"), d("63910.0"))));
    assert_eq!(i.recent.len(), 1);
    assert_eq!((i.elapsed_ms, i.tick_count, i.staleness_ms), (190_000, 2, Some(0)));
    assert_eq!(i.symbol_id, 0);
}

#[test]
fn numbers_of_symbols() {
    let ids: Vec<i32> = ["btc/usd", "eth/usd", "sol/usd", "xrp/usd", "doge/usd", "ada/usd"]
        .iter()
        .map(|s| symbol_id(s))
        .collect();
    assert_eq!(ids, [0, 1, 2, 3, 4, -1]);
}

#[test]
fn missing_features_are_named() {
    let names: Vec<String> = ["a", "b", "c"].iter().map(|s| s.to_string()).collect();
    assert_eq!(missing_features(&names, &vec![true, false, true]), ["a", "c"]);
    assert!(missing_features(&vec![], &vec![]).is_empty());
}

#[test]
fn medians() {
    assert_eq!(median(&vec![]), None);
    assert_eq!(median(&vec![7]), Some(Median::One(0)));
    assert_eq!(median(&vec![5, 1, 3]), Some(Median::One(2)));
    assert_eq!(median(&vec![4, 1, 3, 2]), Some(Median::Two(3, 2)));
    match median(&vec![2, 2, 2, 9]).unwrap() {
        Median::Two(i, j) => assert!(i < 3 && j < 3),
        other => panic!("{other:?}"),
    }
}
