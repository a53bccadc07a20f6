//! The features that a model takes, their names and their order.

use vstd::prelude::*;
use vstd::string::*;

use super::snapshot::{
    fresh_quotes, highest_price, last_not_after, law_ends_of_the_range_are_prices,
    law_past_value_is_the_last_one, law_prices_lie_in_the_range, law_recent_is_all_that_is_recent,
    lowest_price, recent_ticks, recent_trades, TradeTick, TwapTick, WindowSnapshot,
};
use crate::decimal::Decimal;
use crate::json::texts_of;
use crate::seqs::views;
use crate::text::same;
use crate::types::FeatureVector;

verus! {

/// How many features there are.
pub const FEATURE_COUNT: usize = 33;

/// The names of the features, in the order in which a model takes them.
pub const FEATURE_NAMES: [&'static str; FEATURE_COUNT] = [
    "ret_so_far",
    "price_position",
    "spot_ret_from_open",
    "twap_norm_dist",
    "spot_norm_dist",
    "basis_dev",
    "basis_dev_z",
    "basis_slope_30s",
    "basis_slope_60s",
    "twap_spot_gap_norm",
    "ofi_10s",
    "ofi_30s",
    "ofi_60s",
    "ofi_agreement",
    "flow_imb_30s",
    "flow_imb_60s",
    "large_flow_imb_60s",
    "vwap_dev",
    "slope_all",
    "slope_recent",
    "slope_ratio",
    "ret_30s",
    "spot_slope_30s",
    "rel_vol",
    "vol_ratio",
    "spot_vol_rel",
    "rel_spread",
    "xex_dispersion",
    "tick_density",
    "staleness_s",
    "n_exchanges",
    "log_trades_30s",
    "symbol_id",
];

/// The features of a snapshot, by name.
#[derive(Debug)]
pub struct Features<F> {
    /// How much the oracle price has changed since the window opened.
    pub ret_so_far: F,
    /// Where the oracle price stands between its lowest and its highest, from
    /// 0 to 1.
    pub price_position: F,
    /// How much the spot price, without the premium of the coin, is off the
    /// opening price.
    pub spot_ret_from_open: F,
    /// The distance of the oracle price from the opening price, in units of
    /// the move to be expected in the time that is left.
    pub twap_norm_dist: F,
    /// The same distance for the spot price.
    pub spot_norm_dist: F,
    /// How far the basis is off its mean over the window.
    pub basis_dev: F,
    /// The same, in units of its standard deviation.
    pub basis_dev_z: F,
    /// The slope of the basis over the last 30 seconds.
    pub basis_slope_30s: F,
    /// The slope of the basis over the last 60 seconds.
    pub basis_slope_60s: F,
    /// The gap that the oracle price still has to close, in units of the move
    /// to be expected.
    pub twap_spot_gap_norm: F,
    /// Order flow imbalance over the last 10 seconds.
    pub ofi_10s: F,
    /// Order flow imbalance over the last 30 seconds.
    pub ofi_30s: F,
    /// Order flow imbalance over the last 60 seconds.
    pub ofi_60s: F,
    /// The share of the exchanges whose order flow has the same sign.
    pub ofi_agreement: F,
    /// Trade flow imbalance over the last 30 seconds.
    pub flow_imb_30s: F,
    /// Trade flow imbalance over the last 60 seconds.
    pub flow_imb_60s: F,
    /// Trade flow imbalance of the large trades.
    pub large_flow_imb_60s: F,
    /// How far the mean price of the trades is off the opening price.
    pub vwap_dev: F,
    /// The slope of the oracle price over the window.
    pub slope_all: F,
    /// The slope of the oracle price over the last 60 seconds.
    pub slope_recent: F,
    /// The second slope divided by the first.
    pub slope_ratio: F,
    /// How much the oracle price has changed in the last 30 seconds.
    pub ret_30s: F,
    /// The slope of the spot price over the last 30 seconds.
    pub spot_slope_30s: F,
    /// The standard deviation of the oracle price, relative to the opening
    /// price.
    pub rel_vol: F,
    /// The standard deviation over the last 60 seconds divided by that over
    /// the window.
    pub vol_ratio: F,
    /// The volatility of the spot price over the last 60 seconds.
    pub spot_vol_rel: F,
    /// The mean of the spreads, relative to the mids.
    pub rel_spread: F,
    /// How far the exchanges are apart.
    pub xex_dispersion: F,
    /// Oracle values per second.
    pub tick_density: F,
    /// The seconds since the last oracle value.
    pub staleness_s: F,
    /// How many exchanges have a quote that counts.
    pub n_exchanges: F,
    /// The logarithm of one more than the trades of the last 30 seconds.
    pub log_trades_30s: F,
    /// The number of the symbol.
    pub symbol_id: F,
}

impl<F> Features<F> {
    /// The features in the order of their names.
    pub open spec fn list(self) -> Seq<F> {
        seq![
            self.ret_so_far,
            self.price_position,
            self.spot_ret_from_open,
            self.twap_norm_dist,
            self.spot_norm_dist,
            self.basis_dev,
            self.basis_dev_z,
            self.basis_slope_30s,
            self.basis_slope_60s,
            self.twap_spot_gap_norm,
            self.ofi_10s,
            self.ofi_30s,
            self.ofi_60s,
            self.ofi_agreement,
            self.flow_imb_30s,
            self.flow_imb_60s,
            self.large_flow_imb_60s,
            self.vwap_dev,
            self.slope_all,
            self.slope_recent,
            self.slope_ratio,
            self.ret_30s,
            self.spot_slope_30s,
            self.rel_vol,
            self.vol_ratio,
            self.spot_vol_rel,
            self.rel_spread,
            self.xex_dispersion,
            self.tick_density,
            self.staleness_s,
            self.n_exchanges,
            self.log_trades_30s,
            self.symbol_id,
        ]
    }

    /// The features in the order of their names.
    pub fn into_list(self) -> (r: Vec<F>)
        ensures
            r@ == self.list(),
            r@.len() == FEATURE_COUNT,
    {
        let mut list: Vec<F> = Vec::new();
        list.push(self.ret_so_far);
        list.push(self.price_position);
        list.push(self.spot_ret_from_open);
        list.push(self.twap_norm_dist);
        list.push(self.spot_norm_dist);
        list.push(self.basis_dev);
        list.push(self.basis_dev_z);
        list.push(self.basis_slope_30s);
        list.push(self.basis_slope_60s);
        list.push(self.twap_spot_gap_norm);
        list.push(self.ofi_10s);
        list.push(self.ofi_30s);
        list.push(self.ofi_60s);
        list.push(self.ofi_agreement);
        list.push(self.flow_imb_30s);
        list.push(self.flow_imb_60s);
        list.push(self.large_flow_imb_60s);
        list.push(self.vwap_dev);
        list.push(self.slope_all);
        list.push(self.slope_recent);
        list.push(self.slope_ratio);
        list.push(self.ret_30s);
        list.push(self.spot_slope_30s);
        list.push(self.rel_vol);
        list.push(self.vol_ratio);
        list.push(self.spot_vol_rel);
        list.push(self.rel_spread);
        list.push(self.xex_dispersion);
        list.push(self.tick_density);
        list.push(self.staleness_s);
        list.push(self.n_exchanges);
        list.push(self.log_trades_30s);
        list.push(self.symbol_id);
        assert(list@ =~= self.list());
        list
    }
}

/// Each feature stands where its name stands.
pub proof fn law_features_stand_where_their_names_stand<F>(f: Features<F>)
    ensures
        ({
            let list = f.list();
            let names = texts_of(FEATURE_NAMES@);
            &&& list.len() == 33 && names.len() == 33
            &&& list[0] == f.ret_so_far && names[0] == "ret_so_far"@
            &&& list[1] == f.price_position && names[1] == "price_position"@
            &&& list[2] == f.spot_ret_from_open && names[2] == "spot_ret_from_open"@
            &&& list[3] == f.twap_norm_dist && names[3] == "twap_norm_dist"@
            &&& list[4] == f.spot_norm_dist && names[4] == "spot_norm_dist"@
            &&& list[5] == f.basis_dev && names[5] == "basis_dev"@
            &&& list[6] == f.basis_dev_z && names[6] == "basis_dev_z"@
            &&& list[7] == f.basis_slope_30s && names[7] == "basis_slope_30s"@
            &&& list[8] == f.basis_slope_60s && names[8] == "basis_slope_60s"@
            &&& list[9] == f.twap_spot_gap_norm && names[9] == "twap_spot_gap_norm"@
            &&& list[10] == f.ofi_10s && names[10] == "ofi_10s"@
            &&& list[11] == f.ofi_30s && names[11] == "ofi_30s"@
            &&& list[12] == f.ofi_60s && names[12] == "ofi_60s"@
            &&& list[13] == f.ofi_agreement && names[13] == "ofi_agreement"@
            &&& list[14] == f.flow_imb_30s && names[14] == "flow_imb_30s"@
            &&& list[15] == f.flow_imb_60s && names[15] == "flow_imb_60s"@
            &&& list[16] == f.large_flow_imb_60s && names[16] == "large_flow_imb_60s"@
            &&& list[17] == f.vwap_dev && names[17] == "vwap_dev"@
            &&& list[18] == f.slope_all && names[18] == "slope_all"@
            &&& list[19] == f.slope_recent && names[19] == "slope_recent"@
            &&& list[20] == f.slope_ratio && names[20] == "slope_ratio"@
            &&& list[21] == f.ret_30s && names[21] == "ret_30s"@
            &&& list[22] == f.spot_slope_30s && names[22] == "spot_slope_30s"@
            &&& list[23] == f.rel_vol && names[23] == "rel_vol"@
            &&& list[24] == f.vol_ratio && names[24] == "vol_ratio"@
            &&& list[25] == f.spot_vol_rel && names[25] == "spot_vol_rel"@
            &&& list[26] == f.rel_spread && names[26] == "rel_spread"@
            &&& list[27] == f.xex_dispersion && names[27] == "xex_dispersion"@
            &&& list[28] == f.tick_density && names[28] == "tick_density"@
            &&& list[29] == f.staleness_s && names[29] == "staleness_s"@
            &&& list[30] == f.n_exchanges && names[30] == "n_exchanges"@
            &&& list[31] == f.log_trades_30s && names[31] == "log_trades_30s"@
            &&& list[32] == f.symbol_id && names[32] == "symbol_id"@
        }),
{
}

/// The features of `snap` as a model takes them. There are always as many of
/// them, in the same order, and each with its name.
pub fn compute_features<Q, T, F>(snap: &WindowSnapshot<Q, T, F>, features: Features<F>) -> (r:
    FeatureVector<F>)
    ensures
        r.symbol@ == snap.symbol@,
        r.snap_ms == snap.snap_ms,
        r.features@ == features.list(),
        r.features@.len() == FEATURE_COUNT,
        views(r.feature_names@) == texts_of(FEATURE_NAMES@),
        r.feature_names@.len() == FEATURE_COUNT,
{
    FeatureVector {
        symbol: snap.symbol.clone(),
        snap_ms: snap.snap_ms,
        features: features.into_list(),
        feature_names: names(),
    }
}

fn names() -> (r: Vec<String>)
    ensures
        views(r@) == texts_of(FEATURE_NAMES@),
        r@.len() == FEATURE_COUNT,
{
    let mut out: Vec<String> = Vec::new();
    let mut i: usize = 0;
    while i < FEATURE_COUNT
        invariant
            i <= FEATURE_COUNT,
            FEATURE_NAMES@.len() == FEATURE_COUNT,
            views(out@) == texts_of(FEATURE_NAMES@).take(i as int),
        decreases FEATURE_COUNT - i,
    {
        let ghost before = out@;
        let list: &[&'static str] = &FEATURE_NAMES;
        let name: String = list[i].to_owned();
        out.push(name);
        assert(views(out@) =~= views(before).push(name@));
        assert(texts_of(FEATURE_NAMES@).take(i + 1) =~= texts_of(FEATURE_NAMES@).take(
            i as int,
        ).push(name@));
        i = i + 1;
    }
    assert(texts_of(FEATURE_NAMES@).take(FEATURE_COUNT as int) =~= texts_of(FEATURE_NAMES@));
    assert(views(out@).len() == out@.len());
    out
}

/// The number of a symbol; -1 for one without a number.
pub open spec fn symbol_id_of(symbol: Seq<char>) -> int {
    if symbol == "btc/usd"@ {
        0
    } else if symbol == "eth/usd"@ {
        1
    } else if symbol == "sol/usd"@ {
        2
    } else if symbol == "xrp/usd"@ {
        3
    } else if symbol == "doge/usd"@ {
        4
    } else {
        -1
    }
}

/// The symbols are numbered from zero on, each with a number of its own; what is
/// none of them has the number -1.
pub proof fn law_numbers_of_the_symbols(symbol: Seq<char>)
    ensures
        symbol_id_of(symbol) == 0 <==> symbol == "btc/usd"@,
        symbol_id_of(symbol) == 1 <==> symbol == "eth/usd"@,
        symbol_id_of(symbol) == 2 <==> symbol == "sol/usd"@,
        symbol_id_of(symbol) == 3 <==> symbol == "xrp/usd"@,
        symbol_id_of(symbol) == 4 <==> symbol == "doge/usd"@,
        -1 <= symbol_id_of(symbol) <= 4,
{
    reveal_strlit("btc/usd");
    reveal_strlit("eth/usd");
    reveal_strlit("sol/usd");
    reveal_strlit("xrp/usd");
    reveal_strlit("doge/usd");
    assert("btc/usd"@[0] == 'b' && "eth/usd"@[0] == 'e' && "sol/usd"@[0] == 's' && "xrp/usd"@[0]
        == 'x' && "doge/usd"@[0] == 'd');
}

/// The number of a symbol; -1 for one without a number.
pub fn symbol_id(symbol: &str) -> (r: i32)
    ensures
        r == symbol_id_of(symbol@),
{
    if same(symbol, "btc/usd") {
        0
    } else if same(symbol, "eth/usd") {
        1
    } else if same(symbol, "sol/usd") {
        2
    } else if same(symbol, "xrp/usd") {
        3
    } else if same(symbol, "doge/usd") {
        4
    } else {
        -1
    }
}

/// What the features are computed from, as far as it is exact.
#[derive(Debug)]
pub struct FeatureInputs {
    /// The price that the window opened with.
    pub open: Option<Decimal>,
    /// The price now.
    pub current: Option<Decimal>,
    /// The lowest and the highest price.
    pub range: Option<(Decimal, Decimal)>,
    /// The price 30 seconds ago.
    pub past_30s: Option<Decimal>,
    /// The oracle values of the last 60 seconds.
    pub recent: Vec<TwapTick>,
    /// The milliseconds since the window began.
    pub elapsed_ms: i128,
    /// How many oracle values there are.
    pub tick_count: usize,
    /// The milliseconds since the last oracle value.
    pub staleness_ms: Option<i128>,
    /// How many exchanges have a quote that counts.
    pub n_exchanges: usize,
    /// How many trades came in the last 30 seconds.
    pub trades_30s: usize,
    /// The number of the symbol.
    pub symbol_id: i32,
}

impl FeatureInputs {
    /// These are the inputs of the features of `snap`.
    pub open spec fn are_of<Q, T, F>(self, snap: WindowSnapshot<Q, T, F>) -> bool {
        let ticks = snap.twap_ticks@;
        &&& self.open == (if ticks.len() == 0 {
            None
        } else {
            Some(ticks[0].price)
        })
        &&& self.current == (if ticks.len() == 0 {
            None
        } else {
            Some(ticks.last().price)
        })
        &&& (match self.range {
            Some(p) => Some((p.0@, p.1@)),
            None => None,
        }) == (if ticks.len() == 0 {
            None
        } else {
            Some((lowest_price(ticks), highest_price(ticks)))
        })
        &&& self.past_30s == (match last_not_after(ticks, snap.snap_ms - 30_000) {
            Some(t) => Some(t.price),
            None => None,
        })
        &&& self.recent@ == recent_ticks(ticks, snap.snap_ms, 60_000)
        &&& self.elapsed_ms == snap.snap_ms - snap.win_start_ms
        &&& self.tick_count == ticks.len()
        &&& self.staleness_ms == (if ticks.len() == 0 {
            None
        } else if ticks.last().obs_ms > snap.snap_ms {
            Some(0)
        } else {
            Some((snap.snap_ms - ticks.last().obs_ms) as i128)
        })
        &&& self.n_exchanges == fresh_quotes(snap.bbo_ticks@, snap.snap_ms).len()
        &&& self.trades_30s == recent_trades(snap.trade_ticks@, snap.snap_ms, 30_000).len()
        &&& self.symbol_id == symbol_id_of(snap.symbol@)
    }
}

/// What the features of a snapshot with oracle values are computed from: the
/// first price and the last, a price above which none is and one below which
/// none is, the price of 30 seconds before and the values of the last minute,
/// the time since the start of the window and since the last value, and the
/// trades of the last 30 seconds.
pub proof fn law_inputs_are_what_the_snapshot_holds<Q, T, F>(
    r: FeatureInputs,
    snap: WindowSnapshot<Q, T, F>,
)
    requires
        r.are_of(snap),
        snap.twap_ticks@.len() > 0,
        snap.twap_ticks@.last().obs_ms <= snap.snap_ms,
    ensures
        ({
            let ticks = snap.twap_ticks@;
            let last = ticks[ticks.len() - 1];
            let now = snap.snap_ms;
            &&& r.open == Some(ticks[0].price)
            &&& r.current == Some(last.price)
            &&& r.range is Some
            &&& exists|i: int|
                0 <= i < ticks.len() && (#[trigger] ticks[i]).price@ == r.range.unwrap().0@
            &&& exists|i: int|
                0 <= i < ticks.len() && (#[trigger] ticks[i]).price@ == r.range.unwrap().1@
            &&& forall|i: int|
                0 <= i < ticks.len() ==> r.range.unwrap().0@.value() <= (
                #[trigger] ticks[i]).price@.value() <= r.range.unwrap().1@.value()
            &&& r.past_30s is None <==> forall|i: int|
                0 <= i < ticks.len() ==> (#[trigger] ticks[i]).obs_ms > now - 30_000
            &&& r.past_30s matches Some(p) ==> exists|i: int|
                0 <= i < ticks.len() && (#[trigger] ticks[i]).price == p && ticks[i].obs_ms <= now
                    - 30_000 && forall|j: int|
                    i < j < ticks.len() ==> (#[trigger] ticks[j]).obs_ms > now - 30_000
            &&& r.recent@ == ticks.filter(|t: TwapTick| now - t.obs_ms <= 60_000)
            &&& r.elapsed_ms + snap.win_start_ms == now
            &&& r.staleness_ms is Some && r.staleness_ms.unwrap() + last.obs_ms == now
            &&& r.tick_count == ticks.len()
            &&& r.trades_30s == snap.trade_ticks@.filter(
                |t: TradeTick<T>| 0 <= now - t.recv_ms <= 30_000,
            ).len()
        }),
{
    let ticks = snap.twap_ticks@;
    law_ends_of_the_range_are_prices(ticks);
    law_past_value_is_the_last_one(ticks, snap.snap_ms - 30_000);
    law_recent_is_all_that_is_recent(
        snap.bbo_ticks@,
        snap.trade_ticks@,
        ticks,
        snap.snap_ms,
        60_000,
    );
    law_recent_is_all_that_is_recent(
        snap.bbo_ticks@,
        snap.trade_ticks@,
        ticks,
        snap.snap_ms,
        30_000,
    );
    assert forall|i: int| 0 <= i < ticks.len() implies lowest_price(ticks).value() <= (
    #[trigger] ticks[i]).price@.value() <= highest_price(ticks).value() by {
        law_prices_lie_in_the_range(ticks, i);
    }
}

/// Gathers what the features are computed from.
pub fn feature_inputs<Q, T, F>(snap: &WindowSnapshot<Q, T, F>) -> (r: FeatureInputs)
    ensures
        ({
            let ticks = snap.twap_ticks@;
            &&& r.open == (if ticks.len() == 0 {
                None
            } else {
                Some(ticks[0].price)
            })
            &&& r.current == (if ticks.len() == 0 {
                None
            } else {
                Some(ticks.last().price)
            })
            &&& (match r.range {
                Some(p) => Some((p.0@, p.1@)),
                None => None,
            }) == (if ticks.len() == 0 {
                None
            } else {
                Some((lowest_price(ticks), highest_price(ticks)))
            })
            &&& r.past_30s == (match last_not_after(ticks, snap.snap_ms - 30_000) {
                Some(t) => Some(t.price),
                None => None,
            })
            &&& r.recent@ == recent_ticks(ticks, snap.snap_ms, 60_000)
            &&& r.elapsed_ms == snap.snap_ms - snap.win_start_ms
            &&& r.tick_count == ticks.len()
            &&& r.staleness_ms == (if ticks.len() == 0 {
                None
            } else if ticks.last().obs_ms > snap.snap_ms {
                Some(0)
            } else {
                Some((snap.snap_ms - ticks.last().obs_ms) as i128)
            })
            &&& r.n_exchanges == fresh_quotes(snap.bbo_ticks@, snap.snap_ms).len()
            &&& r.trades_30s == recent_trades(snap.trade_ticks@, snap.snap_ms, 30_000).len()
            &&& r.symbol_id == symbol_id_of(snap.symbol@)
        }),
        r.are_of(*snap),
{
    FeatureInputs {
        open: snap.open_price(),
        current: snap.current_price(),
        range: snap.price_range(),
        past_30s: snap.price_n_ms_ago(30_000),
        recent: snap.ticks_in_last(60_000),
        elapsed_ms: snap.snap_ms as i128 - snap.win_start_ms as i128,
        tick_count: snap.tick_count(),
        staleness_ms: snap.staleness_ms(),
        n_exchanges: snap.active_exchange_count(),
        trades_30s: snap.trade_count_in_last(30_000),
        symbol_id: symbol_id(snap.symbol.as_str()),
    }
}

/// The names of those features that are missing.
pub open spec fn missing_of(names: Seq<Seq<char>>, missing: Seq<bool>) -> Seq<Seq<char>>
    decreases missing.len(),
{
    if missing.len() == 0 || names.len() < missing.len() {
        Seq::empty()
    } else {
        let head = missing_of(names.take(missing.len() - 1), missing.drop_last());
        if missing.last() {
            head.push(names[missing.len() - 1])
        } else {
            head
        }
    }
}

/// The name of a feature is listed, behind those before it, exactly if the
/// feature is missing.
pub proof fn law_missing_features_are_named(
    names: Seq<Seq<char>>,
    missing: Seq<bool>,
    name: Seq<char>,
)
    requires
        names.len() == missing.len(),
    ensures
        missing_of(names.push(name), missing.push(true)) == missing_of(names, missing).push(name),
        missing_of(names.push(name), missing.push(false)) == missing_of(names, missing),
        missing.len() == 0 ==> missing_of(names, missing).len() == 0,
{
    assert(names.push(name).take(missing.len() as int) =~= names);
    assert(missing.push(true).drop_last() =~= missing);
    assert(missing.push(false).drop_last() =~= missing);
}

/// The names of the features that are missing, in order. There are as many of
/// them as there are missing features.
pub fn missing_features(names: &Vec<String>, missing: &Vec<bool>) -> (r: Vec<String>)
    requires
        names@.len() == missing@.len(),
    ensures
        views(r@) == missing_of(views(names@), missing@),
        r@.len() == missing@.filter(|m: bool| m).len(),
{
    let ghost all = views(names@);
    let ghost yes = |m: bool| m;
    let mut out: Vec<String> = Vec::new();
    assert(views(out@) =~= missing_of(all.take(0), missing@.take(0)));
    proof {
        reveal(Seq::filter);
    }
    assert(missing@.take(0).filter(yes).len() == 0);
    let mut i: usize = 0;
    while i < missing.len()
        invariant
            all == views(names@),
            yes == (|m: bool| m),
            names@.len() == missing@.len(),
            i <= missing@.len(),
            views(out@) == missing_of(all.take(i as int), missing@.take(i as int)),
            out@.len() == missing@.take(i as int).filter(yes).len(),
        decreases missing@.len() - i,
    {
        let ghost before = out@;
        assert(missing@.take(i + 1).drop_last() =~= missing@.take(i as int));
        assert(all.take(i + 1).take(i as int) =~= all.take(i as int));
        assert(all.take(i + 1)[i as int] == names@[i as int]@);
        proof {
            reveal(Seq::filter);
        }
        if missing[i] {
            let name: String = names[i].clone();
            out.push(name);
            assert(views(out@) =~= views(before).push(name@));
        }
        i = i + 1;
    }
    assert(missing@.take(missing@.len() as int) =~= missing@);
    assert(all.take(all.len() as int) =~= all);
    out
}

} // verus!
