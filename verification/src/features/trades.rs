//! Trades over a sliding window.

use std::collections::VecDeque;

use vstd::prelude::*;

use super::window::{is_too_old, kept, law_only_the_old_leave};
use crate::decimal::{Decimal, DecimalView};
use crate::seqs::{at_most_one, gather, lemma_gather_is_map_of_filter, lemma_gather_step, views};
use crate::types::{TradeRecord, TradeSide, TradeView};

verus! {

/// The trades of the last `window_ms` milliseconds.
#[derive(Debug)]
pub struct TradeWindow {
    pub symbol: String,
    /// The trades, the oldest first.
    pub trades: VecDeque<TradeRecord>,
    pub window_ms: i64,
}

/// The quantity of a trade on `side`.
pub open spec fn qty_on(side: TradeSide, t: TradeView) -> Option<DecimalView> {
    if t.side == side {
        Some(t.qty)
    } else {
        None
    }
}

/// The quantities of the trades on `side`, in order.
pub open spec fn qtys_of(side: TradeSide, trades: Seq<TradeView>) -> Seq<DecimalView> {
    gather(trades, |t: TradeView| at_most_one(qty_on(side, t)))
}

/// What a [`TradeWindow`] holds.
#[verifier::ext_equal]
pub struct TradeWindowView {
    pub symbol: Seq<char>,
    pub window_ms: i64,
    /// The trades, the oldest first.
    pub trades: Seq<TradeView>,
}

impl View for TradeWindow {
    type V = TradeWindowView;

    open spec fn view(&self) -> TradeWindowView {
        TradeWindowView {
            symbol: self.symbol@,
            window_ms: self.window_ms,
            trades: views(self.trades@),
        }
    }
}

/// The view of a [`TradeWindow`] shows each field under its own name.
pub proof fn law_view_of_trade_window(v: TradeWindow)
    ensures
        v@.symbol == v.symbol@,
        v@.window_ms == v.window_ms,
        v@.trades == views(v.trades@),
{
}

/// The window after a trade came.
pub open spec fn pushed(w: TradeWindowView, t: TradeView) -> TradeWindowView {
    TradeWindowView {
        trades: kept(w.trades.push(t), |r: TradeView| r.recv_ms, w.window_ms),
        ..w
    }
}

/// A trade that comes joins the window at its end, and those leave at the front
/// that were received more than `window_ms` before it, up to the first that was
/// not.
pub proof fn law_trade_joins_and_old_ones_leave(w: TradeWindowView, t: TradeView)
    ensures
        ({
            let after = pushed(w, t);
            let all = w.trades.push(t);
            let k = all.len() - after.trades.len();
            &&& after.symbol == w.symbol
            &&& after.window_ms == w.window_ms
            &&& 0 <= k <= all.len()
            &&& after.trades == all.skip(k)
            &&& forall|i: int|
                0 <= i < k ==> t.recv_ms - (#[trigger] all[i]).recv_ms > w.window_ms
            &&& k < all.len() ==> t.recv_ms - all[k].recv_ms <= w.window_ms
        }),
{
    law_only_the_old_leave(w.trades.push(t), |r: TradeView| r.recv_ms, w.window_ms);
}

/// The quantities on a side are those of the trades of this side, each of them
/// once and in order.
pub proof fn law_quantities_of_a_side(side: TradeSide, trades: Seq<TradeView>)
    ensures
        qtys_of(side, trades) == trades.filter(|t: TradeView| t.side == side).map_values(
            |t: TradeView| t.qty,
        ),
{
    lemma_gather_is_map_of_filter(
        trades,
        |t: TradeView| at_most_one(qty_on(side, t)),
        |t: TradeView| t.side == side,
        |t: TradeView| t.qty,
    );
}

impl TradeWindow {
    /// An empty window.
    pub fn new(symbol: &str, window_ms: i64) -> (r: TradeWindow)
        ensures
            r@ == (TradeWindowView { symbol: symbol@, window_ms, trades: Seq::empty() }),
    {
        let r: TradeWindow = TradeWindow {
            symbol: symbol.to_owned(),
            trades: VecDeque::new(),
            window_ms,
        };
        assert(r@.trades =~= Seq::empty());
        r
    }

    /// Adds a trade, and drops those at the front that are too old beside it.
    pub fn push(&mut self, rec: TradeRecord)
        ensures
            final(self)@ == (TradeWindowView {
                trades: kept(
                    old(self)@.trades.push(rec@),
                    |r: TradeView| r.recv_ms,
                    old(self).window_ms,
                ),
                ..old(self)@
            }),
            final(self)@ == pushed(old(self)@, rec@),
    {
        self.trades.push_back(rec);
        assert(self@.trades =~= old(self)@.trades.push(rec@));
        self.evict();
    }

    fn evict(&mut self)
        ensures
            final(self)@ == (TradeWindowView {
                trades: kept(old(self)@.trades, |r: TradeView| r.recv_ms, old(self).window_ms),
                ..old(self)@
            }),
    {
        let ghost at = |r: TradeView| r.recv_ms;
        if self.trades.len() == 0 {
            return;
        }
        let newest: i64 = self.trades[self.trades.len() - 1].recv_ms;
        while self.trades.len() > 0 && is_too_old(newest, self.trades[0].recv_ms, self.window_ms)
            invariant
                at == (|r: TradeView| r.recv_ms),
                self.symbol@ == old(self).symbol@,
                self.window_ms == old(self).window_ms,
                self.trades@.len() > 0 ==> self.trades@.last().recv_ms == newest,
                kept(self@.trades, at, self.window_ms) == kept(old(self)@.trades, at, self.window_ms),
            decreases self.trades@.len(),
        {
            let ghost before = self@.trades;
            assert(before.last() == self.trades@.last()@);
            self.trades.pop_front();
            assert(self@.trades =~= before.drop_first());
        }
        assert(self@.trades.len() > 0 ==> self@.trades.last() == self.trades@.last()@);
    }

    /// The quantities that were traded on `side`, of which the volume is the
    /// sum.
    pub fn qtys(&self, side: TradeSide) -> (r: Vec<Decimal>)
        ensures
            views(r@) == qtys_of(side, self@.trades),
    {
        let ghost f = |t: TradeView| at_most_one(qty_on(side, t));
        let mut out: Vec<Decimal> = Vec::new();
        assert(views(out@) =~= Seq::empty());
        assert(self@.trades.take(0) =~= Seq::empty());
        let n: usize = self.trades.len();
        let mut i: usize = 0;
        while i < n
            invariant
                f == (|t: TradeView| at_most_one(qty_on(side, t))),
                n == self.trades@.len(),
                i <= n,
                views(out@) == gather(self@.trades.take(i as int), f),
            decreases n - i,
        {
            let ghost before = out@;
            proof {
                lemma_gather_step(self@.trades, f, i as int);
            }
            let t: &TradeRecord = &self.trades[i];
            if t.side == side {
                out.push(t.qty);
            }
            assert(self@.trades[i as int] == t@);
            assert(views(out@) =~= views(before) + f(t@));
            i = i + 1;
        }
        assert(self@.trades.take(n as int) =~= self@.trades);
        out
    }

    /// How many trades are in the window.
    pub fn trade_count(&self) -> (r: usize)
        ensures
            r == self@.trades.len(),
    {
        self.trades.len()
    }
}

} // verus!
