//! Best quotes over a sliding window.

use std::collections::VecDeque;

use vstd::prelude::*;

use super::window::{is_too_old, kept, law_only_the_old_leave};
use crate::decimal::{Decimal, DecimalView};
use crate::seqs::views;
use crate::types::{BboRecord, BboView};

verus! {

/// The best quotes of the last `window_ms` milliseconds.
#[derive(Debug)]
pub struct BboWindow {
    pub symbol: String,
    /// The quotes, the oldest first.
    pub ticks: VecDeque<BboRecord>,
    pub window_ms: i64,
}

/// The mids of the quotes, in order, where all of them fit in decimals.
pub open spec fn mids_of(ticks: Seq<BboView>) -> Option<Seq<DecimalView>>
    decreases ticks.len(),
{
    if ticks.len() == 0 {
        Some(Seq::empty())
    } else {
        match (mids_of(ticks.drop_last()), ticks.last().mid()) {
            (Some(head), Some(mid)) => Some(head.push(mid)),
            _ => None,
        }
    }
}

/// The imbalances of the quotes that have one, in order, where the arithmetic
/// fits in decimals.
pub open spec fn imbalances_of(ticks: Seq<BboView>) -> Option<Seq<DecimalView>>
    decreases ticks.len(),
{
    if ticks.len() == 0 {
        Some(Seq::empty())
    } else {
        match (imbalances_of(ticks.drop_last()), ticks.last().imbalance()) {
            (Some(head), Some(Some(share))) => Some(head.push(share)),
            (Some(head), Some(None)) => Some(head),
            _ => None,
        }
    }
}

/// What numbers that may be missing are.
pub open spec fn numbers(v: Option<Vec<Decimal>>) -> Option<Seq<DecimalView>> {
    match v {
        Some(list) => Some(views(list@)),
        None => None,
    }
}

proof fn lemma_none_stays(ticks: Seq<BboView>, i: int)
    requires
        0 <= i <= ticks.len(),
    ensures
        mids_of(ticks.take(i)) is None ==> mids_of(ticks) is None,
        imbalances_of(ticks.take(i)) is None ==> imbalances_of(ticks) is None,
    decreases ticks.len(),
{
    if i == ticks.len() {
        assert(ticks.take(i) =~= ticks);
    } else {
        lemma_none_stays(ticks.drop_last(), i);
        assert(ticks.drop_last().take(i) =~= ticks.take(i));
    }
}

/// What a [`BboWindow`] holds.
#[verifier::ext_equal]
pub struct BboWindowView {
    pub symbol: Seq<char>,
    pub window_ms: i64,
    /// The quotes, the oldest first.
    pub ticks: Seq<BboView>,
}

impl View for BboWindow {
    type V = BboWindowView;

    open spec fn view(&self) -> BboWindowView {
        BboWindowView {
            symbol: self.symbol@,
            window_ms: self.window_ms,
            ticks: views(self.ticks@),
        }
    }
}

/// The view of a [`BboWindow`] shows each field under its own name.
pub proof fn law_view_of_bbo_window(v: BboWindow)
    ensures
        v@.symbol == v.symbol@,
        v@.window_ms == v.window_ms,
        v@.ticks == views(v.ticks@),
{
}

/// The window after a quote came.
pub open spec fn pushed(w: BboWindowView, t: BboView) -> BboWindowView {
    BboWindowView { ticks: kept(w.ticks.push(t), |r: BboView| r.recv_ms, w.window_ms), ..w }
}

/// A quote that comes joins the window at its end, and those leave at the front
/// that were received more than `window_ms` before it, up to the first that was
/// not.
pub proof fn law_quote_joins_and_old_ones_leave(w: BboWindowView, t: BboView)
    ensures
        ({
            let after = pushed(w, t);
            let all = w.ticks.push(t);
            let k = all.len() - after.ticks.len();
            &&& after.symbol == w.symbol
            &&& after.window_ms == w.window_ms
            &&& 0 <= k <= all.len()
            &&& after.ticks == all.skip(k)
            &&& forall|i: int|
                0 <= i < k ==> t.recv_ms - (#[trigger] all[i]).recv_ms > w.window_ms
            &&& k < all.len() ==> t.recv_ms - all[k].recv_ms <= w.window_ms
        }),
{
    law_only_the_old_leave(w.ticks.push(t), |r: BboView| r.recv_ms, w.window_ms);
}

/// There is one mid for each quote, in order, and there are none at all where
/// that of one quote does not fit in a decimal.
pub proof fn law_every_quote_has_its_mid(ticks: Seq<BboView>)
    ensures
        mids_of(ticks) is Some <==> forall|i: int|
            0 <= i < ticks.len() ==> (#[trigger] ticks[i]).mid() is Some,
        mids_of(ticks) matches Some(mids) ==> mids.len() == ticks.len() && forall|i: int|
            0 <= i < ticks.len() ==> ticks[i].mid() == Some(#[trigger] mids[i]),
    decreases ticks.len(),
{
    if ticks.len() > 0 {
        let head = ticks.drop_last();
        law_every_quote_has_its_mid(head);
        if forall|i: int| 0 <= i < ticks.len() ==> (#[trigger] ticks[i]).mid() is Some {
            assert forall|i: int| 0 <= i < head.len() implies (
            #[trigger] head[i]).mid() is Some by {
                assert(head[i] == ticks[i]);
            }
            assert(ticks[ticks.len() - 1].mid() is Some);
        }
        if mids_of(ticks) is Some {
            let mids = mids_of(ticks).unwrap();
            assert forall|i: int| 0 <= i < ticks.len() implies (#[trigger] ticks[i]).mid() is Some
                && ticks[i].mid() == Some(mids[i]) by {
                if i < head.len() {
                    assert(head[i] == ticks[i]);
                    assert(mids_of(head).unwrap()[i] == mids[i]);
                }
            }
        }
    }
}

/// The imbalances are those of the quotes that have one, in order, and there
/// are none at all where the arithmetic of one quote does not fit in decimals.
pub proof fn law_quotes_with_an_imbalance(ticks: Seq<BboView>)
    ensures
        imbalances_of(ticks) is Some <==> forall|i: int|
            0 <= i < ticks.len() ==> (#[trigger] ticks[i]).imbalance() is Some,
        imbalances_of(ticks) matches Some(shares) ==> shares == ticks.filter(
            |t: BboView| t.imbalance().unwrap() is Some,
        ).map_values(|t: BboView| t.imbalance().unwrap().unwrap()),
    decreases ticks.len(),
{
    let has = |t: BboView| t.imbalance().unwrap() is Some;
    let share = |t: BboView| t.imbalance().unwrap().unwrap();
    reveal(Seq::filter);
    if ticks.len() == 0 {
        assert(ticks.filter(has).map_values(share) =~= Seq::empty());
    } else {
        let head = ticks.drop_last();
        law_quotes_with_an_imbalance(head);
        if forall|i: int| 0 <= i < ticks.len() ==> (#[trigger] ticks[i]).imbalance() is Some {
            assert forall|i: int| 0 <= i < head.len() implies (
            #[trigger] head[i]).imbalance() is Some by {
                assert(head[i] == ticks[i]);
            }
            assert(ticks[ticks.len() - 1].imbalance() is Some);
        }
        if imbalances_of(ticks) is Some {
            assert forall|i: int| 0 <= i < ticks.len() implies (
            #[trigger] ticks[i]).imbalance() is Some by {
                if i < head.len() {
                    assert(head[i] == ticks[i]);
                }
            }
            if has(ticks.last()) {
                assert(ticks.filter(has) =~= head.filter(has).push(ticks.last()));
                assert(ticks.filter(has).map_values(share) =~= head.filter(has).map_values(
                    share,
                ).push(share(ticks.last())));
            } else {
                assert(ticks.filter(has) =~= head.filter(has));
            }
        }
    }
}

impl BboWindow {
    /// An empty window.
    pub fn new(symbol: &str, window_ms: i64) -> (r: BboWindow)
        ensures
            r@ == (BboWindowView { symbol: symbol@, window_ms, ticks: Seq::empty() }),
    {
        let r: BboWindow = BboWindow {
            symbol: symbol.to_owned(),
            ticks: VecDeque::new(),
            window_ms,
        };
        assert(r@.ticks =~= Seq::empty());
        r
    }

    /// Adds a quote, and drops those at the front that are too old beside it.
    pub fn push(&mut self, rec: BboRecord)
        ensures
            final(self)@ == (BboWindowView {
                ticks: kept(
                    old(self)@.ticks.push(rec@),
                    |r: BboView| r.recv_ms,
                    old(self).window_ms,
                ),
                ..old(self)@
            }),
            final(self)@ == pushed(old(self)@, rec@),
    {
        self.ticks.push_back(rec);
        assert(self@.ticks =~= old(self)@.ticks.push(rec@));
        self.evict();
    }

    fn evict(&mut self)
        ensures
            final(self)@ == (BboWindowView {
                ticks: kept(old(self)@.ticks, |r: BboView| r.recv_ms, old(self).window_ms),
                ..old(self)@
            }),
    {
        let ghost at = |r: BboView| r.recv_ms;
        if self.ticks.len() == 0 {
            return;
        }
        let newest: i64 = self.ticks[self.ticks.len() - 1].recv_ms;
        while self.ticks.len() > 0 && is_too_old(newest, self.ticks[0].recv_ms, self.window_ms)
            invariant
                at == (|r: BboView| r.recv_ms),
                self.symbol@ == old(self).symbol@,
                self.window_ms == old(self).window_ms,
                self.ticks@.len() > 0 ==> self.ticks@.last().recv_ms == newest,
                kept(self@.ticks, at, self.window_ms) == kept(old(self)@.ticks, at, self.window_ms),
            decreases self.ticks@.len(),
        {
            let ghost before = self@.ticks;
            assert(before.last() == self.ticks@.last()@);
            self.ticks.pop_front();
            assert(self@.ticks =~= before.drop_first());
        }
        assert(self@.ticks.len() > 0 ==> self@.ticks.last() == self.ticks@.last()@);
    }

    /// The newest quote.
    pub fn latest(&self) -> (r: Option<&BboRecord>)
        ensures
            (match r {
                Some(t) => Some(t@),
                None => None,
            }) == (if self@.ticks.len() == 0 {
                None
            } else {
                Some(self@.ticks.last())
            }),
    {
        if self.ticks.len() == 0 {
            None
        } else {
            Some(&self.ticks[self.ticks.len() - 1])
        }
    }

    /// The mids of the quotes, of which the mean is taken; `None` where one of
    /// them does not fit in a decimal.
    pub fn mids(&self) -> (r: Option<Vec<Decimal>>)
        ensures
            numbers(r) == mids_of(self@.ticks),
    {
        let mut out: Vec<Decimal> = Vec::new();
        assert(views(out@) =~= Seq::empty());
        assert(self@.ticks.take(0) =~= Seq::empty());
        let n: usize = self.ticks.len();
        let mut i: usize = 0;
        while i < n
            invariant
                n == self.ticks@.len(),
                i <= n,
                Some(views(out@)) == mids_of(self@.ticks.take(i as int)),
            decreases n - i,
        {
            let ghost before = out@;
            assert(self@.ticks.take(i + 1).drop_last() =~= self@.ticks.take(i as int));
            proof {
                lemma_none_stays(self@.ticks, i + 1);
            }
            match self.ticks[i].checked_mid() {
                Some(mid) => {
                    out.push(mid);
                    assert(views(out@) =~= views(before).push(mid@));
                },
                None => {
                    return None;
                },
            }
            i = i + 1;
        }
        assert(self@.ticks.take(n as int) =~= self@.ticks);
        Some(out)
    }

    /// The imbalances of the quotes that have one, of which the mean is taken;
    /// `None` where the arithmetic does not fit in decimals.
    pub fn imbalances(&self) -> (r: Option<Vec<Decimal>>)
        ensures
            numbers(r) == imbalances_of(self@.ticks),
    {
        let mut out: Vec<Decimal> = Vec::new();
        assert(views(out@) =~= Seq::empty());
        assert(self@.ticks.take(0) =~= Seq::empty());
        let n: usize = self.ticks.len();
        let mut i: usize = 0;
        while i < n
            invariant
                n == self.ticks@.len(),
                i <= n,
                Some(views(out@)) == imbalances_of(self@.ticks.take(i as int)),
            decreases n - i,
        {
            let ghost before = out@;
            assert(self@.ticks.take(i + 1).drop_last() =~= self@.ticks.take(i as int));
            proof {
                lemma_none_stays(self@.ticks, i + 1);
            }
            match self.ticks[i].checked_imbalance() {
                Some(Some(share)) => {
                    out.push(share);
                    assert(views(out@) =~= views(before).push(share@));
                },
                Some(None) => {},
                None => {
                    return None;
                },
            }
            i = i + 1;
        }
        assert(self@.ticks.take(n as int) =~= self@.ticks);
        Some(out)
    }

    /// How many quotes are in the window.
    pub fn tick_count(&self) -> (r: usize)
        ensures
            r == self@.ticks.len(),
    {
        self.ticks.len()
    }
}

} // verus!
