//! Records that pass from the collectors to the feature code.

use vstd::arithmetic::power::{lemma_pow_increases, lemma_pow_positive, pow};
use vstd::prelude::*;

use crate::decimal::{
    decimal_difference, decimal_quotient, decimal_sum, halves, longer_scale, parts, short, two,
    Decimal, DecimalView, MAX_MANTISSA, MAX_SCALE,
};

verus! {

/// The symbol of a market in the form that the whole project uses, for example
/// `btc/usd`.
pub type Symbol = String;

/// An exchange.
#[derive(Debug, Clone, Copy, PartialEq, Eq, Hash, Structural)]
pub enum Exchange {
    Binance,
    Okx,
    Bybit,
    Coinbase,
    Kraken,
}

impl Exchange {
    /// The name of the exchange in small letters.
    pub open spec fn name(self) -> Seq<char> {
        match self {
            Exchange::Binance => "binance"@,
            Exchange::Okx => "okx"@,
            Exchange::Bybit => "bybit"@,
            Exchange::Coinbase => "coinbase"@,
            Exchange::Kraken => "kraken"@,
        }
    }

    /// The name of the exchange in small letters.
    pub fn as_str(&self) -> (r: &'static str)
        ensures
            r@ == self.name(),
    {
        match self {
            Exchange::Binance => "binance",
            Exchange::Okx => "okx",
            Exchange::Bybit => "bybit",
            Exchange::Coinbase => "coinbase",
            Exchange::Kraken => "kraken",
        }
    }
}

/// No two exchanges have the same name.
pub proof fn law_exchange_names_differ(a: Exchange, b: Exchange)
    ensures
        a.name() == b.name() ==> a == b,
{
    reveal_strlit("binance");
    reveal_strlit("okx");
    reveal_strlit("bybit");
    reveal_strlit("coinbase");
    reveal_strlit("kraken");
    assert("binance"@[0] == 'b' && "binance"@[1] == 'i');
    assert("bybit"@[0] == 'b' && "bybit"@[1] == 'y');
    assert("okx"@[0] == 'o');
    assert("coinbase"@[0] == 'c');
    assert("kraken"@[0] == 'k');
}

/// An exchange is called by its own name, in small letters.
pub proof fn law_exchanges_are_called_by_their_names(e: Exchange)
    ensures
        e.name() == "binance"@ <==> e == Exchange::Binance,
        e.name() == "okx"@ <==> e == Exchange::Okx,
        e.name() == "bybit"@ <==> e == Exchange::Bybit,
        e.name() == "coinbase"@ <==> e == Exchange::Coinbase,
        e.name() == "kraken"@ <==> e == Exchange::Kraken,
{
    law_exchange_names_differ(e, Exchange::Binance);
    law_exchange_names_differ(e, Exchange::Okx);
    law_exchange_names_differ(e, Exchange::Bybit);
    law_exchange_names_differ(e, Exchange::Coinbase);
    law_exchange_names_differ(e, Exchange::Kraken);
}

/// Which side took the trade.
#[derive(Debug, Clone, Copy, PartialEq, Eq, Structural)]
pub enum TradeSide {
    Buy,
    Sell,
}

/// The best bid and the best ask of one exchange.
#[derive(Debug)]
pub struct BboRecord {
    pub exchange: Exchange,
    pub symbol: Symbol,
    /// The time of the exchange, in milliseconds.
    pub ts_ex: i64,
    /// The local time of receipt, in milliseconds.
    pub recv_ms: i64,
    pub bid: Decimal,
    pub bid_qty: Decimal,
    pub ask: Decimal,
    pub ask_qty: Decimal,
}

/// What a [`BboRecord`] holds.
pub struct BboView {
    pub exchange: Exchange,
    pub symbol: Seq<char>,
    pub ts_ex: i64,
    pub recv_ms: i64,
    pub bid: DecimalView,
    pub bid_qty: DecimalView,
    pub ask: DecimalView,
    pub ask_qty: DecimalView,
}

impl View for BboRecord {
    type V = BboView;

    open spec fn view(&self) -> BboView {
        BboView {
            exchange: self.exchange,
            symbol: self.symbol@,
            ts_ex: self.ts_ex,
            recv_ms: self.recv_ms,
            bid: self.bid@,
            bid_qty: self.bid_qty@,
            ask: self.ask@,
            ask_qty: self.ask_qty@,
        }
    }
}

/// The view of a [`BboRecord`] shows each field under its own name.
pub proof fn law_view_of_bbo_record(v: BboRecord)
    ensures
        v@.exchange == v.exchange,
        v@.symbol == v.symbol@,
        v@.ts_ex == v.ts_ex,
        v@.recv_ms == v.recv_ms,
        v@.bid == v.bid@,
        v@.bid_qty == v.bid_qty@,
        v@.ask == v.ask@,
        v@.ask_qty == v.ask_qty@,
{
}

impl BboView {
    /// Half the sum of bid and ask, where it fits in a decimal.
    pub open spec fn mid(self) -> Option<DecimalView> {
        match decimal_sum(self.bid, self.ask) {
            Some(sum) => decimal_quotient(sum, two()),
            None => None,
        }
    }

    /// The ask less the bid, where it fits in a decimal.
    pub open spec fn spread(self) -> Option<DecimalView> {
        decimal_difference(self.ask, self.bid)
    }

    /// The part of the quantities that is bid, where the arithmetic fits in
    /// decimals; no part where both quantities add up to nothing.
    pub open spec fn imbalance(self) -> Option<Option<DecimalView>> {
        match decimal_sum(self.bid_qty, self.ask_qty) {
            Some(total) if total.magnitude == 0 => Some(None),
            Some(total) => match decimal_quotient(self.bid_qty, total) {
                Some(share) => Some(Some(share)),
                None => None,
            },
            None => None,
        }
    }
}

/// The mid lies halfway between bid and ask, the spread is what the ask is above
/// the bid, and the imbalance is the part of both quantities together that is
/// bid; quantities that add up to nothing have none.
pub proof fn law_mid_spread_and_imbalance(
    q: BboView,
    sum: DecimalView,
    total: DecimalView,
)
    ensures
        decimal_sum(q.bid, q.ask) == Some(sum) ==> q.mid() == decimal_quotient(
            sum,
            DecimalView { negative: false, magnitude: 2, scale: 0 },
        ),
        q.spread() == decimal_difference(q.ask, q.bid),
        decimal_sum(q.bid_qty, q.ask_qty) == Some(total) && total.magnitude != 0
            ==> q.imbalance() == (match decimal_quotient(q.bid_qty, total) {
            Some(share) => Some(Some(share)),
            None => None,
        }),
        decimal_sum(q.bid_qty, q.ask_qty) == Some(total) && total.magnitude == 0
            ==> q.imbalance() == Some(None::<DecimalView>),
        decimal_sum(q.bid, q.ask) is None ==> q.mid() is None,
        decimal_sum(q.bid_qty, q.ask_qty) is None ==> q.imbalance() is None,
{
}

/// Bid and ask are of 64 bits with at most 19 digits behind the point, and so is
/// their sum.
pub open spec fn ordinary(bid: DecimalView, ask: DecimalView) -> bool {
    let unit = pow(10, (MAX_SCALE - longer_scale(bid, ask)) as nat);
    &&& halves(bid)
    &&& halves(ask)
    &&& -u64::MAX * unit <= bid.value() + ask.value() <= u64::MAX * unit
}

proof fn lemma_ordinary(bid: DecimalView, ask: DecimalView, sum: DecimalView)
    requires
        ordinary(bid, ask),
        sum.value() == bid.value() + ask.value(),
        sum.scale <= longer_scale(bid, ask),
    ensures
        halves(sum),
{
    let unit = pow(10, (MAX_SCALE - longer_scale(bid, ask)) as nat);
    let more = pow(10, (MAX_SCALE - sum.scale) as nat);
    lemma_pow_positive(10, (MAX_SCALE - longer_scale(bid, ask)) as nat);
    lemma_pow_increases(
        10,
        (MAX_SCALE - longer_scale(bid, ask)) as nat,
        (MAX_SCALE - sum.scale) as nat,
    );
    let m = sum.mantissa();
    let top = u64::MAX as int;
    assert(-top <= m <= top) by (nonlinear_arith)
        requires
            0 < unit <= more,
            -top * unit <= m * more <= top * unit,
            top > 0,
    ;
}

proof fn lemma_ordinary_is_short(bid: DecimalView, ask: DecimalView)
    requires
        ordinary(bid, ask),
    ensures
        short(bid, ask, bid.value() + ask.value()),
{
    let unit = pow(10, (MAX_SCALE - longer_scale(bid, ask)) as nat);
    lemma_pow_positive(10, (MAX_SCALE - longer_scale(bid, ask)) as nat);
    let top = u64::MAX as int;
    let max = MAX_MANTISSA as int;
    assert(top * unit <= max * unit && -max * unit <= -top * unit) by (nonlinear_arith)
        requires
            unit > 0,
            0 < top <= max,
    ;
}

impl BboRecord {
    /// The middle between bid and ask. Of ordinary prices it is exact.
    pub fn mid(&self) -> (r: Decimal)
        requires
            self@.mid() is Some,
        ensures
            Some(r@) == self@.mid(),
            ordinary(self.bid@, self.ask@) ==> 2 * r@.value() == self.bid@.value()
                + self.ask@.value(),
    {
        let sum: Decimal = self.bid.plus(&self.ask).unwrap();
        proof {
            if ordinary(self.bid@, self.ask@) {
                lemma_ordinary_is_short(self.bid@, self.ask@);
                lemma_ordinary(self.bid@, self.ask@, sum@);
            }
        }
        sum.over(&Decimal::two()).unwrap()
    }

    /// The middle between bid and ask; `None` where it does not fit in a
    /// decimal. Of ordinary prices it always fits.
    pub fn checked_mid(&self) -> (r: Option<Decimal>)
        ensures
            parts(r) == self@.mid(),
            ordinary(self.bid@, self.ask@) ==> r is Some && 2 * r.unwrap()@.value()
                == self.bid@.value() + self.ask@.value(),
    {
        proof {
            if ordinary(self.bid@, self.ask@) {
                lemma_ordinary_is_short(self.bid@, self.ask@);
            }
        }
        match self.bid.plus(&self.ask) {
            Some(sum) => {
                proof {
                    if ordinary(self.bid@, self.ask@) {
                        lemma_ordinary(self.bid@, self.ask@, sum@);
                    }
                }
                match sum.over(&Decimal::two()) {
                    Some(_) => Some(self.mid()),
                    None => None,
                }
            },
            None => None,
        }
    }

    /// How far the ask is above the bid. Of prices of 64 bits the spread is
    /// exact.
    pub fn spread(&self) -> (r: Decimal)
        requires
            self@.spread() is Some,
        ensures
            Some(r@) == self@.spread(),
            short(self.ask@, self.bid@, self.ask@.value() - self.bid@.value()) ==> r@.value()
                == self.ask@.value() - self.bid@.value(),
    {
        self.ask.minus(&self.bid).unwrap()
    }

    /// How far the ask is above the bid; `None` where that does not fit in a
    /// decimal.
    pub fn checked_spread(&self) -> (r: Option<Decimal>)
        ensures
            parts(r) == self@.spread(),
            short(self.ask@, self.bid@, self.ask@.value() - self.bid@.value()) ==> r is Some
                && r.unwrap()@.value() == self.ask@.value() - self.bid@.value(),
    {
        match self.ask.minus(&self.bid) {
            Some(_) => Some(self.spread()),
            None => None,
        }
    }

    /// The part of the quantities at the best prices that is bid; `None` where
    /// there are none.
    pub fn imbalance(&self) -> (r: Option<Decimal>)
        requires
            self@.imbalance() is Some,
        ensures
            Some(parts(r)) == self@.imbalance(),
    {
        let total: Decimal = self.bid_qty.plus(&self.ask_qty).unwrap();
        if total.is_zero() {
            None
        } else {
            Some(self.bid_qty.over(&total).unwrap())
        }
    }

    /// As [`BboRecord::imbalance`]; `None` where the arithmetic does not fit in
    /// decimals.
    pub fn checked_imbalance(&self) -> (r: Option<Option<Decimal>>)
        ensures
            (match r {
                Some(share) => Some(parts(share)),
                None => None,
            }) == self@.imbalance(),
    {
        match self.bid_qty.plus(&self.ask_qty) {
            Some(total) => {
                if total.is_zero() {
                    return Some(self.imbalance());
                }
                match self.bid_qty.over(&total) {
                    Some(_) => Some(self.imbalance()),
                    None => None,
                }
            },
            None => None,
        }
    }
}

/// One trade on an exchange.
#[derive(Debug)]
pub struct TradeRecord {
    pub exchange: Exchange,
    pub symbol: Symbol,
    pub ts_ex: i64,
    pub recv_ms: i64,
    pub price: Decimal,
    pub qty: Decimal,
    pub side: TradeSide,
    pub trade_id: String,
}

/// What a [`TradeRecord`] holds.
pub struct TradeView {
    pub exchange: Exchange,
    pub symbol: Seq<char>,
    pub ts_ex: i64,
    pub recv_ms: i64,
    pub price: DecimalView,
    pub qty: DecimalView,
    pub side: TradeSide,
    pub trade_id: Seq<char>,
}

impl View for TradeRecord {
    type V = TradeView;

    open spec fn view(&self) -> TradeView {
        TradeView {
            exchange: self.exchange,
            symbol: self.symbol@,
            ts_ex: self.ts_ex,
            recv_ms: self.recv_ms,
            price: self.price@,
            qty: self.qty@,
            side: self.side,
            trade_id: self.trade_id@,
        }
    }
}

/// The view of a [`TradeRecord`] shows each field under its own name.
pub proof fn law_view_of_trade_record(v: TradeRecord)
    ensures
        v@.exchange == v.exchange,
        v@.symbol == v.symbol@,
        v@.ts_ex == v.ts_ex,
        v@.recv_ms == v.recv_ms,
        v@.price == v.price@,
        v@.qty == v.qty@,
        v@.side == v.side,
        v@.trade_id == v.trade_id@,
{
}

/// The price and the quantity of one level of a ladder.
pub type Level = (DecimalView, DecimalView);

/// What the levels of a ladder are.
pub open spec fn levels(v: Seq<[Decimal; 2]>) -> Seq<Level> {
    v.map_values(|l: [Decimal; 2]| (l@[0]@, l@[1]@))
}

/// A level of a ladder is its price and then its quantity.
pub proof fn law_levels_are_price_and_quantity(v: Seq<[Decimal; 2]>, i: int)
    requires
        0 <= i < v.len(),
    ensures
        levels(v).len() == v.len(),
        levels(v)[i].0 == v[i]@[0]@,
        levels(v)[i].1 == v[i]@[1]@,
{
}

/// A change of an order book, or the whole of it.
#[derive(Debug)]
pub struct BookRecord {
    pub exchange: Exchange,
    pub symbol: Symbol,
    pub ts_ex: i64,
    pub recv_ms: i64,
    /// Pairs of price and quantity; a quantity of zero removes the level.
    pub bids: Vec<[Decimal; 2]>,
    pub asks: Vec<[Decimal; 2]>,
    pub is_snapshot: bool,
    pub seq: Option<u64>,
    /// The first sequence number that the record covers.
    pub first_seq: Option<u64>,
}

/// What a [`BookRecord`] holds.
pub struct BookView {
    pub exchange: Exchange,
    pub symbol: Seq<char>,
    pub ts_ex: i64,
    pub recv_ms: i64,
    pub bids: Seq<Level>,
    pub asks: Seq<Level>,
    pub is_snapshot: bool,
    pub seq: Option<u64>,
    pub first_seq: Option<u64>,
}

impl View for BookRecord {
    type V = BookView;

    open spec fn view(&self) -> BookView {
        BookView {
            exchange: self.exchange,
            symbol: self.symbol@,
            ts_ex: self.ts_ex,
            recv_ms: self.recv_ms,
            bids: levels(self.bids@),
            asks: levels(self.asks@),
            is_snapshot: self.is_snapshot,
            seq: self.seq,
            first_seq: self.first_seq,
        }
    }
}

/// The view of a [`BookRecord`] shows each field under its own name.
pub proof fn law_view_of_book_record(v: BookRecord)
    ensures
        v@.exchange == v.exchange,
        v@.symbol == v.symbol@,
        v@.ts_ex == v.ts_ex,
        v@.recv_ms == v.recv_ms,
        v@.bids == levels(v.bids@),
        v@.asks == levels(v.asks@),
        v@.is_snapshot == v.is_snapshot,
        v@.seq == v.seq,
        v@.first_seq == v.first_seq,
{
}

/// One value of the price oracle.
#[derive(Debug)]
pub struct TwapRecord {
    pub symbol: Symbol,
    pub window_s: u16,
    /// When the oracle observed the value, in milliseconds.
    pub obs_ms: i64,
    /// When the value was published.
    pub pub_ms: i64,
    /// When it was received here.
    pub recv_ms: i64,
    /// The value times ten to the 18, as the oracle wrote it.
    pub value_e18: String,
    pub price: Decimal,
}

/// What a [`TwapRecord`] holds.
pub struct TwapView {
    pub symbol: Seq<char>,
    pub window_s: u16,
    pub obs_ms: i64,
    pub pub_ms: i64,
    pub recv_ms: i64,
    pub value_e18: Seq<char>,
    pub price: DecimalView,
}

impl View for TwapRecord {
    type V = TwapView;

    open spec fn view(&self) -> TwapView {
        TwapView {
            symbol: self.symbol@,
            window_s: self.window_s,
            obs_ms: self.obs_ms,
            pub_ms: self.pub_ms,
            recv_ms: self.recv_ms,
            value_e18: self.value_e18@,
            price: self.price@,
        }
    }
}

/// The view of a [`TwapRecord`] shows each field under its own name.
pub proof fn law_view_of_twap_record(v: TwapRecord)
    ensures
        v@.symbol == v.symbol@,
        v@.window_s == v.window_s,
        v@.obs_ms == v.obs_ms,
        v@.pub_ms == v.pub_ms,
        v@.recv_ms == v.recv_ms,
        v@.value_e18 == v.value_e18@,
        v@.price == v.price@,
{
}

/// The features of a snapshot, in the order in which a model takes them.
#[derive(Debug)]
pub struct FeatureVector<F> {
    pub symbol: Symbol,
    /// The time of the snapshot, in milliseconds.
    pub snap_ms: i64,
    pub features: Vec<F>,
    /// The names of the features, in the same order.
    pub feature_names: Vec<String>,
}

} // verus!
