//! Everything that was known of a market at one time.

use vstd::prelude::*;
use vstd::string::*;

use crate::decimal::{Decimal, DecimalView};
use crate::seqs::{
    at_most_one, gather, lemma_gather_all, lemma_gather_is_filter, lemma_gather_step,
};
use crate::text::same;

verus! {

/// After how many milliseconds without news a quote does not count any more: an
/// exchange whose quote is that old has no opinion at the moment.
pub const BBO_STALE_MS: i64 = 3_000;

/// The length of a market's window, in milliseconds.
pub const WINDOW_MS: i64 = 300_000;

/// A value of the price oracle.
#[derive(Debug, Clone, Copy)]
pub struct TwapTick {
    pub obs_ms: i64,
    pub price: Decimal,
}

/// What a [`TwapTick`] holds.
pub struct TwapTickView {
    pub obs_ms: i64,
    pub price: DecimalView,
}

impl View for TwapTick {
    type V = TwapTickView;

    open spec fn view(&self) -> TwapTickView {
        TwapTickView { obs_ms: self.obs_ms, price: self.price@ }
    }
}

/// The view of a [`TwapTick`] shows each field under its own name.
pub proof fn law_view_of_twap_tick(v: TwapTick)
    ensures
        v@.obs_ms == v.obs_ms,
        v@.price == v.price@,
{
}

/// The best quotes of an exchange. The time is that of receipt: before it the
/// quote could not be known here, whatever the clock of the exchange says.
#[derive(Debug, Clone)]
pub struct BboTick<Q> {
    pub exchange: String,
    pub recv_ms: i64,
    pub quote: Q,
}

/// What a [`BboTick`] holds.
pub struct BboTickView<V> {
    pub exchange: Seq<char>,
    pub recv_ms: i64,
    pub quote: V,
}

impl<Q: View> View for BboTick<Q> {
    type V = BboTickView<Q::V>;

    open spec fn view(&self) -> BboTickView<Q::V> {
        BboTickView { exchange: self.exchange@, recv_ms: self.recv_ms, quote: self.quote@ }
    }
}

/// The view of a [`BboTick`] shows each field under its own name.
pub proof fn law_view_of_bbo_tick<Q: View>(v: BboTick<Q>)
    ensures
        v@.exchange == v.exchange@,
        v@.recv_ms == v.recv_ms,
        v@.quote == v.quote@,
{
}

/// A trade on an exchange, with the time of receipt.
#[derive(Debug, Clone)]
pub struct TradeTick<T> {
    pub exchange: String,
    pub recv_ms: i64,
    /// Whether the buyer took the trade.
    pub is_buy: bool,
    pub deal: T,
}

/// What a [`TradeTick`] holds.
pub struct TradeTickView<V> {
    pub exchange: Seq<char>,
    pub recv_ms: i64,
    pub is_buy: bool,
    pub deal: V,
}

impl<T: View> View for TradeTick<T> {
    type V = TradeTickView<T::V>;

    open spec fn view(&self) -> TradeTickView<T::V> {
        TradeTickView {
            exchange: self.exchange@,
            recv_ms: self.recv_ms,
            is_buy: self.is_buy,
            deal: self.deal@,
        }
    }
}

/// The view of a [`TradeTick`] shows each field under its own name.
pub proof fn law_view_of_trade_tick<T: View>(v: TradeTick<T>)
    ensures
        v@.exchange == v.exchange@,
        v@.recv_ms == v.recv_ms,
        v@.is_buy == v.is_buy,
        v@.deal == v.deal@,
{
}

/// Everything that was known of a market at the time `snap_ms`. `Q` holds the
/// prices and quantities of a quote, `T` the price and the quantity of a trade,
/// and `F` is the kind of number that features are.
#[derive(Debug)]
pub struct WindowSnapshot<Q, T, F> {
    /// The time of the snapshot, in milliseconds.
    pub snap_ms: i64,
    pub symbol: String,
    /// When the window of the market began.
    pub win_start_ms: i64,
    /// The oracle values of the window, by time.
    pub twap_ticks: Vec<TwapTick>,
    /// The quotes of all exchanges in the window, by time of receipt.
    pub bbo_ticks: Vec<BboTick<Q>>,
    /// The trades on all exchanges in the window, by time of receipt.
    pub trade_ticks: Vec<TradeTick<T>>,
    /// By how much a stable coin is dearer than its currency.
    pub fx_usdt_premium: Option<F>,
}

// ── Windows ─────────────────────────────────────────────────────────────────

/// The start of the window that `snap_ms` lies in: the multiple of the window's
/// length next to it on the side of zero.
pub open spec fn win_start_of(snap_ms: i64) -> i64 {
    if snap_ms >= 0 {
        (snap_ms as int / WINDOW_MS as int * WINDOW_MS as int) as i64
    } else {
        (-((-snap_ms) / WINDOW_MS as int * WINDOW_MS as int)) as i64
    }
}

/// A window starts at a multiple of its length, and a time that is not negative
/// lies in its window.
pub proof fn law_windows_are_aligned(snap_ms: i64)
    ensures
        win_start_of(snap_ms) as int % WINDOW_MS as int == 0,
        snap_ms >= 0 ==> win_start_of(snap_ms) <= snap_ms < win_start_of(snap_ms) + WINDOW_MS,
        snap_ms < 0 ==> win_start_of(snap_ms) - WINDOW_MS < snap_ms <= win_start_of(snap_ms),
{
}

/// A window lasts five minutes, and starts at a full five minutes: of all of
/// these starts that are not later than a time, it is the last.
pub proof fn law_window_is_the_last_to_start(snap_ms: i64, start: int)
    requires
        snap_ms >= 0,
    ensures
        win_start_of(snap_ms) as int % 300_000 == 0,
        snap_ms - 300_000 < win_start_of(snap_ms) <= snap_ms,
        start % 300_000 == 0 && start <= snap_ms ==> start <= win_start_of(snap_ms),
{
    let n = snap_ms as int / 300_000;
    let k = start / 300_000;
    assert(win_start_of(snap_ms) == n * 300_000);
    if start % 300_000 == 0 && start <= snap_ms {
        assert(start == k * 300_000);
        assert(k <= n);
    }
}

/// Before zero the starts are counted from the other side: of all full five
/// minutes that are not earlier than a time, the window starts at the first.
pub proof fn law_window_before_zero(snap_ms: i64, start: int)
    requires
        snap_ms < 0,
    ensures
        win_start_of(snap_ms) as int % 300_000 == 0,
        snap_ms <= win_start_of(snap_ms) < snap_ms + 300_000,
        start % 300_000 == 0 && start >= snap_ms ==> start >= win_start_of(snap_ms),
{
    let n = (-snap_ms) / 300_000;
    let k = start / 300_000;
    assert(win_start_of(snap_ms) == -(n * 300_000));
    if start % 300_000 == 0 && start >= snap_ms {
        assert(start == k * 300_000);
        assert(k >= -n);
    }
}

/// The start of the window that `snap_ms` lies in.
#[verifier::rlimit(30)]
pub fn win_start(snap_ms: i64) -> (r: i64)
    ensures
        r == win_start_of(snap_ms),
{
    if snap_ms >= 0 {
        (snap_ms / 300_000) * 300_000
    } else {
        let n: i128 = -(snap_ms as i128);
        (-(n / 300_000 * 300_000)) as i64
    }
}

// ── Selections ──────────────────────────────────────────────────────────────

/// No quote after `i` is of the same exchange.
pub open spec fn is_newest<Q>(ticks: Seq<BboTick<Q>>, i: int) -> bool {
    forall|j: int|
        i < j < ticks.len() ==> (#[trigger] ticks[j]).exchange@ != ticks[i].exchange@
}

/// Of the quotes from `i` on, the newest one of each exchange, the newest of all
/// first.
pub open spec fn newest_from<Q>(ticks: Seq<BboTick<Q>>, i: int) -> Seq<BboTick<Q>>
    decreases ticks.len() - i,
{
    if i >= ticks.len() {
        Seq::empty()
    } else {
        let later = newest_from(ticks, i + 1);
        if is_newest(ticks, i) {
            later.push(ticks[i])
        } else {
            later
        }
    }
}

/// The quote, unless it is too old to count at the time `snap_ms`.
pub open spec fn if_fresh<Q>(t: BboTick<Q>, snap_ms: i64) -> Option<BboTick<Q>> {
    if snap_ms - t.recv_ms <= BBO_STALE_MS {
        Some(t)
    } else {
        None
    }
}

/// The newest quote of each exchange, where it is not too old.
pub open spec fn fresh_quotes<Q>(ticks: Seq<BboTick<Q>>, snap_ms: i64) -> Seq<BboTick<Q>> {
    gather(newest_from(ticks, 0), |t: BboTick<Q>| at_most_one(if_fresh(t, snap_ms)))
}

/// What the references refer to.
pub open spec fn targets<A>(v: Seq<&A>) -> Seq<A> {
    v.map_values(|a: &A| *a)
}

proof fn lemma_newest_members<Q>(ticks: Seq<BboTick<Q>>, i: int)
    requires
        0 <= i <= ticks.len(),
    ensures
        forall|k: int|
            0 <= k < newest_from(ticks, i).len() ==> exists|j: int|
                i <= j < ticks.len() && #[trigger] ticks[j] == (#[trigger] newest_from(
                    ticks,
                    i,
                )[k]) && is_newest(ticks, j),
        forall|j: int|
            i <= j < ticks.len() && is_newest(ticks, j) ==> newest_from(ticks, i).contains(
                #[trigger] ticks[j],
            ),
    decreases ticks.len() - i,
{
    let all = newest_from(ticks, i);
    if i < ticks.len() {
        lemma_newest_members(ticks, i + 1);
        let later = newest_from(ticks, i + 1);
        assert forall|k: int| 0 <= k < all.len() implies exists|j: int|
            i <= j < ticks.len() && #[trigger] ticks[j] == (#[trigger] all[k]) && is_newest(
                ticks,
                j,
            ) by {
            if k < later.len() {
                assert(all[k] == later[k]);
                let j = choose|j: int|
                    i + 1 <= j < ticks.len() && #[trigger] ticks[j] == later[k] && is_newest(
                        ticks,
                        j,
                    );
                assert(ticks[j] == all[k]);
            } else {
                assert(ticks[i] == all[k]);
            }
        }
        assert forall|j: int| i <= j < ticks.len() && is_newest(ticks, j) implies all.contains(
            #[trigger] ticks[j],
        ) by {
            if j == i {
                assert(all[later.len() as int] == ticks[i]);
            } else {
                assert(later.contains(ticks[j]));
                let k = choose|k: int| 0 <= k < later.len() && later[k] == ticks[j];
                assert(all[k] == ticks[j]);
            }
        }
    }
}

proof fn lemma_some_newest<Q>(ticks: Seq<BboTick<Q>>, i: int) -> (j: int)
    requires
        0 <= i < ticks.len(),
    ensures
        i <= j < ticks.len(),
        is_newest(ticks, j),
        ticks[j].exchange@ == ticks[i].exchange@,
    decreases ticks.len() - i,
{
    if is_newest(ticks, i) {
        i
    } else {
        let next = choose|j: int|
            i < j < ticks.len() && (#[trigger] ticks[j]).exchange@ == ticks[i].exchange@;
        lemma_some_newest(ticks, next)
    }
}

/// Every exchange that quoted at all has exactly one newest quote: each of the
/// quotes is of an exchange of its own, and none is left out.
pub proof fn law_one_quote_for_each_exchange<Q>(ticks: Seq<BboTick<Q>>)
    ensures
        forall|a: int, b: int|
            0 <= a < b < newest_from(ticks, 0).len() ==> (#[trigger] newest_from(
                ticks,
                0,
            )[a]).exchange@ != (#[trigger] newest_from(ticks, 0)[b]).exchange@,
        forall|i: int|
            0 <= i < ticks.len() ==> exists|a: int|
                0 <= a < newest_from(ticks, 0).len() && (#[trigger] newest_from(
                    ticks,
                    0,
                )[a]).exchange@ == (#[trigger] ticks[i]).exchange@,
{
    lemma_newest_differ(ticks, 0);
    lemma_newest_members(ticks, 0);
    let all = newest_from(ticks, 0);
    assert forall|i: int| 0 <= i < ticks.len() implies exists|a: int|
        0 <= a < all.len() && (#[trigger] all[a]).exchange@ == (#[trigger] ticks[i]).exchange@ by {
        let j = lemma_some_newest(ticks, i);
        assert(all.contains(ticks[j]));
        let a = choose|a: int| 0 <= a < all.len() && all[a] == ticks[j];
        assert(all[a].exchange@ == ticks[i].exchange@);
    }
}

proof fn lemma_newest_differ<Q>(ticks: Seq<BboTick<Q>>, i: int)
    requires
        0 <= i <= ticks.len(),
    ensures
        forall|a: int, b: int|
            0 <= a < b < newest_from(ticks, i).len() ==> (#[trigger] newest_from(
                ticks,
                i,
            )[a]).exchange@ != (#[trigger] newest_from(ticks, i)[b]).exchange@,
    decreases ticks.len() - i,
{
    if i < ticks.len() {
        lemma_newest_differ(ticks, i + 1);
        lemma_newest_members(ticks, i + 1);
        let later = newest_from(ticks, i + 1);
        let all = newest_from(ticks, i);
        assert forall|a: int, b: int| 0 <= a < b < all.len() implies (
        #[trigger] all[a]).exchange@ != (#[trigger] all[b]).exchange@ by {
            assert(all[a] == later[a]);
            if b < later.len() {
                assert(all[b] == later[b]);
            } else {
                let j = choose|j: int|
                    i + 1 <= j < ticks.len() && #[trigger] ticks[j] == later[a] && is_newest(
                        ticks,
                        j,
                    );
                assert(ticks[j].exchange@ != ticks[i].exchange@);
            }
        }
    }
}

/// The quotes of an exchange that came last are of the exchange's last time, if
/// quotes are held by time: no quote of the same exchange is newer.
pub proof fn law_newest_is_latest<Q>(ticks: Seq<BboTick<Q>>, a: int, i: int)
    requires
        forall|x: int, y: int|
            0 <= x <= y < ticks.len() ==> (#[trigger] ticks[x]).recv_ms <= (
            #[trigger] ticks[y]).recv_ms,
        0 <= a < newest_from(ticks, 0).len(),
        0 <= i < ticks.len(),
        ticks[i].exchange@ == newest_from(ticks, 0)[a].exchange@,
    ensures
        ticks[i].recv_ms <= newest_from(ticks, 0)[a].recv_ms,
{
    lemma_newest_members(ticks, 0);
    let j = choose|j: int|
        0 <= j < ticks.len() && #[trigger] ticks[j] == newest_from(ticks, 0)[a] && is_newest(
            ticks,
            j,
        );
    assert(i <= j);
}

/// A quote that is older than the limit never counts.
pub proof fn law_old_quotes_do_not_count<Q>(ticks: Seq<BboTick<Q>>, snap_ms: i64, a: int)
    requires
        0 <= a < fresh_quotes(ticks, snap_ms).len(),
    ensures
        snap_ms - fresh_quotes(ticks, snap_ms)[a].recv_ms <= BBO_STALE_MS,
{
    lemma_gather_all(
        newest_from(ticks, 0),
        |t: BboTick<Q>| at_most_one(if_fresh(t, snap_ms)),
        |t: BboTick<Q>| snap_ms - t.recv_ms <= BBO_STALE_MS,
    );
}

/// The quotes that count are exactly the last quotes of their exchanges that are
/// at most three seconds old.
pub proof fn law_quotes_that_count<Q>(ticks: Seq<BboTick<Q>>, snap_ms: i64)
    ensures
        forall|j: int|
            0 <= j < ticks.len() && (forall|k: int|
                j < k < ticks.len() ==> (#[trigger] ticks[k]).exchange@ != ticks[j].exchange@)
                && snap_ms - ticks[j].recv_ms <= 3_000 ==> fresh_quotes(ticks, snap_ms).contains(
                #[trigger] ticks[j],
            ),
        forall|a: int|
            #![trigger fresh_quotes(ticks, snap_ms)[a]]
            0 <= a < fresh_quotes(ticks, snap_ms).len() ==> snap_ms - fresh_quotes(
                ticks,
                snap_ms,
            )[a].recv_ms <= 3_000 && exists|j: int|
                0 <= j < ticks.len() && #[trigger] ticks[j] == fresh_quotes(ticks, snap_ms)[a]
                    && forall|k: int|
                    j < k < ticks.len() ==> (#[trigger] ticks[k]).exchange@ != ticks[j].exchange@,
        forall|a: int, b: int|
            0 <= a < b < fresh_quotes(ticks, snap_ms).len() ==> (#[trigger] fresh_quotes(
                ticks,
                snap_ms,
            )[a]).exchange@ != (#[trigger] fresh_quotes(ticks, snap_ms)[b]).exchange@,
        quotes_in_order(ticks) ==> forall|a: int, b: int|
            0 <= a < b < fresh_quotes(ticks, snap_ms).len() ==> (#[trigger] fresh_quotes(
                ticks,
                snap_ms,
            )[a]).recv_ms >= (#[trigger] fresh_quotes(ticks, snap_ms)[b]).recv_ms,
{
    let newest = newest_from(ticks, 0);
    let fresh = fresh_quotes(ticks, snap_ms);
    let keep = |t: BboTick<Q>| snap_ms - t.recv_ms <= 3_000;
    lemma_newest_members(ticks, 0);
    lemma_newest_differ(ticks, 0);
    lemma_newest_by_place(ticks, 0);
    lemma_gather_is_filter(
        newest,
        |t: BboTick<Q>| at_most_one(if_fresh(t, snap_ms)),
        keep,
    );
    lemma_filter_in_order(newest, keep);
    assert forall|j: int|
        0 <= j < ticks.len() && (forall|k: int|
            j < k < ticks.len() ==> (#[trigger] ticks[k]).exchange@ != ticks[j].exchange@)
            && snap_ms - ticks[j].recv_ms <= 3_000 implies fresh.contains(#[trigger] ticks[j]) by {
        assert(is_newest(ticks, j));
        assert(newest.contains(ticks[j]));
        let n = choose|n: int| 0 <= n < newest.len() && newest[n] == ticks[j];
        newest.lemma_filter_contains(keep, n);
    }
    assert forall|a: int| #![trigger fresh[a]] 0 <= a < fresh.len() implies snap_ms
        - fresh[a].recv_ms <= 3_000 && exists|j: int|
        0 <= j < ticks.len() && #[trigger] ticks[j] == fresh[a] && forall|k: int|
            j < k < ticks.len() ==> (#[trigger] ticks[k]).exchange@ != ticks[j].exchange@ by {
        newest.lemma_filter_pred(keep, a);
        let n = choose|n: int| 0 <= n < newest.len() && #[trigger] newest[n] == fresh[a];
        let j = choose|j: int|
            0 <= j < ticks.len() && #[trigger] ticks[j] == newest[n] && is_newest(ticks, j);
        assert(ticks[j] == fresh[a]);
    }
    assert forall|a: int, b: int| 0 <= a < b < fresh.len() implies (#[trigger] fresh[a]).exchange@
        != (#[trigger] fresh[b]).exchange@ by {
        let (x, y) = choose|x: int, y: int|
            0 <= x < y < newest.len() && #[trigger] newest[x] == fresh[a] && #[trigger] newest[y]
                == fresh[b];
        assert(newest[x].exchange@ != newest[y].exchange@);
    }
    if quotes_in_order(ticks) {
        assert forall|a: int, b: int| 0 <= a < b < fresh.len() implies (
        #[trigger] fresh[a]).recv_ms >= (#[trigger] fresh[b]).recv_ms by {
            let (x, y) = choose|x: int, y: int|
                0 <= x < y < newest.len() && #[trigger] newest[x] == fresh[a]
                    && #[trigger] newest[y] == fresh[b];
            assert(newest[x].recv_ms >= newest[y].recv_ms);
        }
    }
}

proof fn lemma_newest_by_place<Q>(ticks: Seq<BboTick<Q>>, i: int)
    requires
        0 <= i <= ticks.len(),
    ensures
        quotes_in_order(ticks) ==> forall|a: int, b: int|
            0 <= a < b < newest_from(ticks, i).len() ==> (#[trigger] newest_from(
                ticks,
                i,
            )[a]).recv_ms >= (#[trigger] newest_from(ticks, i)[b]).recv_ms,
    decreases ticks.len() - i,
{
    if i < ticks.len() {
        lemma_newest_by_place(ticks, i + 1);
        lemma_newest_members(ticks, i + 1);
        let later = newest_from(ticks, i + 1);
        let all = newest_from(ticks, i);
        if quotes_in_order(ticks) {
            assert forall|a: int, b: int| 0 <= a < b < all.len() implies (
            #[trigger] all[a]).recv_ms >= (#[trigger] all[b]).recv_ms by {
                assert(all[a] == later[a]);
                if b < later.len() {
                    assert(all[b] == later[b]);
                } else {
                    let j = choose|j: int|
                        i + 1 <= j < ticks.len() && #[trigger] ticks[j] == later[a] && is_newest(
                            ticks,
                            j,
                        );
                    assert(ticks[i].recv_ms <= ticks[j].recv_ms);
                }
            }
        }
    }
}

/// What a filter keeps stands in the order in which it stood.
proof fn lemma_filter_in_order<A>(s: Seq<A>, keep: spec_fn(A) -> bool)
    ensures
        forall|a: int, b: int|
            #![trigger s.filter(keep)[a], s.filter(keep)[b]]
            0 <= a < b < s.filter(keep).len() ==> exists|x: int, y: int|
                0 <= x < y < s.len() && #[trigger] s[x] == s.filter(keep)[a] && #[trigger] s[y]
                    == s.filter(keep)[b],
        forall|a: int|
            #![trigger s.filter(keep)[a]]
            0 <= a < s.filter(keep).len() ==> exists|x: int|
                0 <= x < s.len() && #[trigger] s[x] == s.filter(keep)[a],
    decreases s.len(),
{
    reveal(Seq::filter);
    if s.len() > 0 {
        let head = s.drop_last();
        lemma_filter_in_order(head, keep);
        let all = s.filter(keep);
        let before = head.filter(keep);
        assert forall|a: int| #![trigger all[a]] 0 <= a < all.len() implies exists|x: int|
            0 <= x < s.len() && #[trigger] s[x] == all[a] by {
            if a < before.len() {
                assert(all[a] == before[a]);
                let x = choose|x: int| 0 <= x < head.len() && #[trigger] head[x] == before[a];
                assert(s[x] == all[a]);
            } else {
                assert(s[s.len() - 1] == all[a]);
            }
        }
        assert forall|a: int, b: int|
            #![trigger all[a], all[b]]
            0 <= a < b < all.len() implies exists|x: int, y: int|
            0 <= x < y < s.len() && #[trigger] s[x] == all[a] && #[trigger] s[y] == all[b] by {
            assert(all[a] == before[a]);
            if b < before.len() {
                assert(all[b] == before[b]);
                let (x, y) = choose|x: int, y: int|
                    0 <= x < y < head.len() && #[trigger] head[x] == before[a]
                        && #[trigger] head[y] == before[b];
                assert(s[x] == all[a] && s[y] == all[b]);
            } else {
                let x = choose|x: int| 0 <= x < head.len() && #[trigger] head[x] == before[a];
                assert(s[x] == all[a] && s[s.len() - 1] == all[b]);
            }
        }
    }
}

// ── Quotes and oracle values ────────────────────────────────────────────────

/// From `i` on, the last oracle value before the first one that is later than
/// `t`.
pub open spec fn advanced(ticks: Seq<TwapTick>, i: int, t: i64) -> int
    decreases ticks.len() - i,
{
    if i + 1 < ticks.len() && ticks[i + 1].obs_ms <= t {
        advanced(ticks, i + 1, t)
    } else {
        i
    }
}

/// Where the walk through the oracle values stands after the first `k` quotes.
pub open spec fn cursor<Q>(ticks: Seq<TwapTick>, quotes: Seq<BboTick<Q>>, k: int) -> int
    decreases k,
{
    if k <= 0 {
        0
    } else {
        advanced(ticks, cursor(ticks, quotes, k - 1), quotes[k - 1].recv_ms)
    }
}

/// The pairs of an oracle value and a quote, of the first `k` quotes: with each
/// quote goes the oracle value that was the last one known when it came.
pub open spec fn pairs_upto<Q>(ticks: Seq<TwapTick>, quotes: Seq<BboTick<Q>>, k: int) -> Seq<
    (int, int),
>
    decreases k,
{
    if k <= 0 || ticks.len() == 0 {
        Seq::empty()
    } else {
        let head = pairs_upto(ticks, quotes, k - 1);
        let i = cursor(ticks, quotes, k);
        if ticks[i].obs_ms <= quotes[k - 1].recv_ms {
            head.push((i, k - 1))
        } else {
            head
        }
    }
}

/// The oracle values stand by time.
pub open spec fn ticks_in_order(ticks: Seq<TwapTick>) -> bool {
    forall|i: int, j: int|
        0 <= i <= j < ticks.len() ==> (#[trigger] ticks[i]).obs_ms <= (#[trigger] ticks[j]).obs_ms
}

/// The quotes stand by time of receipt.
pub open spec fn quotes_in_order<Q>(quotes: Seq<BboTick<Q>>) -> bool {
    forall|i: int, j: int|
        0 <= i <= j < quotes.len() ==> (#[trigger] quotes[i]).recv_ms <= (
        #[trigger] quotes[j]).recv_ms
}

proof fn lemma_advanced(ticks: Seq<TwapTick>, i: int, t: i64)
    requires
        0 <= i < ticks.len(),
    ensures
        i <= advanced(ticks, i, t) < ticks.len(),
        advanced(ticks, i, t) > i ==> ticks[advanced(ticks, i, t)].obs_ms <= t,
        advanced(ticks, i, t) + 1 < ticks.len() ==> ticks[advanced(ticks, i, t) + 1].obs_ms > t,
    decreases ticks.len() - i,
{
    if i + 1 < ticks.len() && ticks[i + 1].obs_ms <= t {
        lemma_advanced(ticks, i + 1, t);
    }
}

proof fn lemma_cursor<Q>(ticks: Seq<TwapTick>, quotes: Seq<BboTick<Q>>, k: int)
    requires
        ticks.len() > 0,
        0 <= k <= quotes.len(),
    ensures
        0 <= cursor(ticks, quotes, k) < ticks.len(),
    decreases k,
{
    if k > 0 {
        lemma_cursor(ticks, quotes, k - 1);
        lemma_advanced(ticks, cursor(ticks, quotes, k - 1), quotes[k - 1].recv_ms);
    }
}

/// A quote is never paired with an oracle value of a later time.
pub proof fn law_pairs_know_no_future<Q>(ticks: Seq<TwapTick>, quotes: Seq<BboTick<Q>>, k: int)
    requires
        0 <= k <= quotes.len(),
    ensures
        forall|p: int|
            #![trigger pairs_upto(ticks, quotes, k)[p]]
            0 <= p < pairs_upto(ticks, quotes, k).len() ==> {
                let (i, j) = pairs_upto(ticks, quotes, k)[p];
                0 <= i < ticks.len() && 0 <= j < k && ticks[i].obs_ms <= quotes[j].recv_ms
            },
    decreases k,
{
    if k > 0 && ticks.len() > 0 {
        law_pairs_know_no_future(ticks, quotes, k - 1);
        lemma_cursor(ticks, quotes, k);
        let head = pairs_upto(ticks, quotes, k - 1);
        let all = pairs_upto(ticks, quotes, k);
        assert forall|p: int| #![trigger all[p]] 0 <= p < all.len() implies {
            let (i, j) = all[p];
            0 <= i < ticks.len() && 0 <= j < k && ticks[i].obs_ms <= quotes[j].recv_ms
        } by {
            if p < head.len() {
                assert(all[p] == head[p]);
            }
        }
    }
}

/// Where values and quotes stand by time, a quote is paired with the last value
/// that was there when it came, and a quote goes without a value only if there
/// was none.
pub proof fn law_pairs_take_the_last_known<Q>(
    ticks: Seq<TwapTick>,
    quotes: Seq<BboTick<Q>>,
    k: int,
)
    requires
        ticks_in_order(ticks),
        quotes_in_order(quotes),
        0 < k <= quotes.len(),
        ticks.len() > 0,
    ensures
        ({
            let i = cursor(ticks, quotes, k);
            let t = quotes[k - 1].recv_ms;
            &&& 0 <= i < ticks.len()
            &&& forall|j: int| i < j < ticks.len() ==> (#[trigger] ticks[j]).obs_ms > t
            &&& ticks[i].obs_ms > t ==> forall|j: int|
                0 <= j < ticks.len() ==> (#[trigger] ticks[j]).obs_ms > t
        }),
    decreases k,
{
    let before = cursor(ticks, quotes, k - 1);
    let t = quotes[k - 1].recv_ms;
    lemma_cursor(ticks, quotes, k - 1);
    lemma_advanced(ticks, before, t);
    let i = cursor(ticks, quotes, k);
    assert forall|j: int| i < j < ticks.len() implies (#[trigger] ticks[j]).obs_ms > t by {
        assert(ticks[i + 1].obs_ms <= ticks[j].obs_ms);
    }
    if ticks[i].obs_ms > t {
        assert(i == before);
        if k > 1 {
            law_pairs_take_the_last_known(ticks, quotes, k - 1);
            assert(quotes[k - 2].recv_ms <= t);
        }
        assert forall|j: int| 0 <= j < ticks.len() implies (#[trigger] ticks[j]).obs_ms > t by {
            if i > 0 && j < i {
                lemma_moved_cursor_is_known(ticks, quotes, k - 1);
            }
        }
    }
}

proof fn lemma_moved_cursor_is_known<Q>(
    ticks: Seq<TwapTick>,
    quotes: Seq<BboTick<Q>>,
    k: int,
)
    requires
        ticks.len() > 0,
        quotes_in_order(quotes),
        0 <= k <= quotes.len(),
    ensures
        cursor(ticks, quotes, k) > 0 ==> k > 0 && ticks[cursor(ticks, quotes, k)].obs_ms
            <= quotes[k - 1].recv_ms,
    decreases k,
{
    if k > 0 {
        lemma_cursor(ticks, quotes, k - 1);
        let before = cursor(ticks, quotes, k - 1);
        lemma_moved_cursor_is_known(ticks, quotes, k - 1);
        lemma_advanced(ticks, before, quotes[k - 1].recv_ms);
        if k > 1 {
            assert(quotes[k - 2].recv_ms <= quotes[k - 1].recv_ms);
        }
    }
}

/// The oracle value at `i` is the last one that was there at the time `t`.
pub open spec fn is_last_known(ticks: Seq<TwapTick>, i: int, t: i64) -> bool {
    &&& 0 <= i < ticks.len()
    &&& ticks[i].obs_ms <= t
    &&& forall|k: int| i < k < ticks.len() ==> (#[trigger] ticks[k]).obs_ms > t
}

/// No quote is left out and none is paired twice: where oracle values and quotes
/// stand by time, every quote that came when there was an oracle value has
/// exactly one pair, with the last value that was there; a quote that came
/// before all of them has none; and the pairs stand in the order of the quotes.
pub proof fn law_every_quote_has_its_pair<Q>(ticks: Seq<TwapTick>, quotes: Seq<BboTick<Q>>, j: int)
    requires
        ticks_in_order(ticks),
        quotes_in_order(quotes),
        0 <= j < quotes.len(),
    ensures
        ({
            let pairs = pairs_upto(ticks, quotes, quotes.len() as int);
            let t = quotes[j].recv_ms;
            &&& forall|i: int| #[trigger]
                is_last_known(ticks, i, t) ==> pairs.contains((i, j))
            &&& forall|p: int|
                0 <= p < pairs.len() && (#[trigger] pairs[p]).1 == j ==> is_last_known(
                    ticks,
                    pairs[p].0,
                    t,
                )
            &&& (exists|i: int| 0 <= i < ticks.len() && (#[trigger] ticks[i]).obs_ms <= t)
                <==> (exists|p: int| 0 <= p < pairs.len() && (#[trigger] pairs[p]).1 == j)
            &&& forall|p: int, q: int|
                0 <= p < q < pairs.len() ==> (#[trigger] pairs[p]).1 < (#[trigger] pairs[q]).1
        }),
{
    lemma_pairs_of_the_first(ticks, quotes, quotes.len() as int, j);
}

proof fn lemma_pairs_of_the_first<Q>(
    ticks: Seq<TwapTick>,
    quotes: Seq<BboTick<Q>>,
    k: int,
    j: int,
)
    requires
        ticks_in_order(ticks),
        quotes_in_order(quotes),
        0 <= k <= quotes.len(),
        0 <= j < quotes.len(),
    ensures
        ({
            let pairs = pairs_upto(ticks, quotes, k);
            let t = quotes[j].recv_ms;
            &&& forall|i: int| #[trigger]
                is_last_known(ticks, i, t) && j < k ==> pairs.contains((i, j))
            &&& forall|p: int|
                0 <= p < pairs.len() && (#[trigger] pairs[p]).1 == j ==> is_last_known(
                    ticks,
                    pairs[p].0,
                    t,
                )
            &&& j < k ==> ((exists|i: int|
                0 <= i < ticks.len() && (#[trigger] ticks[i]).obs_ms <= t) <==> (exists|p: int|
                0 <= p < pairs.len() && (#[trigger] pairs[p]).1 == j))
            &&& forall|p: int| 0 <= p < pairs.len() ==> 0 <= (#[trigger] pairs[p]).1 < k
            &&& forall|p: int, q: int|
                0 <= p < q < pairs.len() ==> (#[trigger] pairs[p]).1 < (#[trigger] pairs[q]).1
        }),
    decreases k,
{
    let pairs = pairs_upto(ticks, quotes, k);
    let t = quotes[j].recv_ms;
    if k > 0 && ticks.len() > 0 {
        lemma_pairs_of_the_first(ticks, quotes, k - 1, j);
        law_pairs_take_the_last_known(ticks, quotes, k);
        let head = pairs_upto(ticks, quotes, k - 1);
        let c = cursor(ticks, quotes, k);
        let known = ticks[c].obs_ms <= quotes[k - 1].recv_ms;
        if known {
            assert(pairs == head.push((c, k - 1)));
            assert(is_last_known(ticks, c, quotes[k - 1].recv_ms));
        } else {
            assert(pairs == head);
        }
        assert forall|i: int| #[trigger] is_last_known(ticks, i, t) && j < k implies pairs.contains(
            (i, j),
        ) by {
            if j < k - 1 {
                assert(head.contains((i, j)));
                let p = choose|p: int| 0 <= p < head.len() && head[p] == (i, j);
                assert(pairs[p] == (i, j));
            } else {
                if i < c {
                    assert(ticks[c].obs_ms > t);
                    assert(ticks[i].obs_ms > t);
                }
                if c < i {
                    assert(ticks[i].obs_ms > t);
                }
                if !known {
                    assert(ticks[i].obs_ms > t);
                }
                assert(pairs[head.len() as int] == (i, j));
            }
        }
        assert forall|p: int|
            0 <= p < pairs.len() && (#[trigger] pairs[p]).1 == j implies is_last_known(
            ticks,
            pairs[p].0,
            t,
        ) by {
            if p < head.len() {
                assert(pairs[p] == head[p]);
            }
        }
        if j < k {
            if exists|i: int| 0 <= i < ticks.len() && (#[trigger] ticks[i]).obs_ms <= t {
                let i = choose|i: int| 0 <= i < ticks.len() && (#[trigger] ticks[i]).obs_ms <= t;
                if j < k - 1 {
                    let p = choose|p: int| 0 <= p < head.len() && (#[trigger] head[p]).1 == j;
                    assert(pairs[p].1 == j);
                } else {
                    assert(known);
                    assert(pairs[head.len() as int].1 == j);
                }
            }
            if exists|p: int| 0 <= p < pairs.len() && (#[trigger] pairs[p]).1 == j {
                let p = choose|p: int| 0 <= p < pairs.len() && (#[trigger] pairs[p]).1 == j;
                assert(is_last_known(ticks, pairs[p].0, t));
                assert(ticks[pairs[p].0].obs_ms <= t);
            }
        }
        assert forall|p: int| 0 <= p < pairs.len() implies 0 <= (#[trigger] pairs[p]).1 < k by {
            if p < head.len() {
                assert(pairs[p] == head[p]);
            }
        }
        assert forall|p: int, q: int| 0 <= p < q < pairs.len() implies (#[trigger] pairs[p]).1 < (
        #[trigger] pairs[q]).1 by {
            assert(pairs[p] == head[p]);
            if q < head.len() {
                assert(pairs[q] == head[q]);
            }
        }
    }
}

// ── Parts of a window ───────────────────────────────────────────────────────

/// The trade, if it came within `window_ms` before `snap_ms`, both ends included.
pub open spec fn if_recent_trade<T>(t: TradeTick<T>, snap_ms: i64, window_ms: i64) -> Option<
    TradeTick<T>,
> {
    if snap_ms - window_ms <= t.recv_ms <= snap_ms {
        Some(t)
    } else {
        None
    }
}

/// The trades that came within `window_ms` before `snap_ms`, both ends included.
pub open spec fn recent_trades<T>(
    trades: Seq<TradeTick<T>>,
    snap_ms: i64,
    window_ms: i64,
) -> Seq<TradeTick<T>> {
    gather(trades, |t: TradeTick<T>| at_most_one(if_recent_trade(t, snap_ms, window_ms)))
}

/// The quote, if it came within `window_ms` before `snap_ms`, both ends included.
pub open spec fn if_recent_quote<Q>(t: BboTick<Q>, snap_ms: i64, window_ms: i64) -> Option<
    BboTick<Q>,
> {
    if snap_ms - window_ms <= t.recv_ms <= snap_ms {
        Some(t)
    } else {
        None
    }
}

/// The quotes that came within `window_ms` before `snap_ms`, both ends included.
pub open spec fn recent_quotes<Q>(
    quotes: Seq<BboTick<Q>>,
    snap_ms: i64,
    window_ms: i64,
) -> Seq<BboTick<Q>> {
    gather(quotes, |t: BboTick<Q>| at_most_one(if_recent_quote(t, snap_ms, window_ms)))
}

/// Trades and quotes of the last while lie between its ends, whatever else the
/// snapshot holds: none of them is later than the snapshot.
pub proof fn law_recent_is_not_later<Q, T>(
    quotes: Seq<BboTick<Q>>,
    trades: Seq<TradeTick<T>>,
    snap_ms: i64,
    window_ms: i64,
)
    ensures
        forall|i: int|
            0 <= i < recent_trades(trades, snap_ms, window_ms).len() ==> snap_ms - window_ms <= (
            #[trigger] recent_trades(trades, snap_ms, window_ms)[i]).recv_ms <= snap_ms,
        forall|i: int|
            0 <= i < recent_quotes(quotes, snap_ms, window_ms).len() ==> snap_ms - window_ms <= (
            #[trigger] recent_quotes(quotes, snap_ms, window_ms)[i]).recv_ms <= snap_ms,
{
    lemma_gather_all(
        trades,
        |t: TradeTick<T>| at_most_one(if_recent_trade(t, snap_ms, window_ms)),
        |t: TradeTick<T>| snap_ms - window_ms <= t.recv_ms <= snap_ms,
    );
    lemma_gather_all(
        quotes,
        |t: BboTick<Q>| at_most_one(if_recent_quote(t, snap_ms, window_ms)),
        |t: BboTick<Q>| snap_ms - window_ms <= t.recv_ms <= snap_ms,
    );
}

/// The oracle value, unless it is older than `window_ms` at the time `snap_ms`.
pub open spec fn if_recent_tick(t: TwapTick, snap_ms: i64, window_ms: i64) -> Option<TwapTick> {
    if t.obs_ms >= snap_ms - window_ms {
        Some(t)
    } else {
        None
    }
}

/// The oracle values that are not older than `window_ms` at the time `snap_ms`.
pub open spec fn recent_ticks(ticks: Seq<TwapTick>, snap_ms: i64, window_ms: i64) -> Seq<
    TwapTick,
> {
    gather(ticks, |t: TwapTick| at_most_one(if_recent_tick(t, snap_ms, window_ms)))
}

/// Trades, quotes and oracle values of the last while are all those that are of
/// it, in the order in which they stand, and no others.
pub proof fn law_recent_is_all_that_is_recent<Q, T>(
    quotes: Seq<BboTick<Q>>,
    trades: Seq<TradeTick<T>>,
    ticks: Seq<TwapTick>,
    snap_ms: i64,
    window_ms: i64,
)
    ensures
        recent_trades(trades, snap_ms, window_ms) == trades.filter(
            |t: TradeTick<T>| 0 <= snap_ms - t.recv_ms <= window_ms,
        ),
        recent_quotes(quotes, snap_ms, window_ms) == quotes.filter(
            |t: BboTick<Q>| 0 <= snap_ms - t.recv_ms <= window_ms,
        ),
        recent_ticks(ticks, snap_ms, window_ms) == ticks.filter(
            |t: TwapTick| snap_ms - t.obs_ms <= window_ms,
        ),
{
    lemma_gather_is_filter(
        trades,
        |t: TradeTick<T>| at_most_one(if_recent_trade(t, snap_ms, window_ms)),
        |t: TradeTick<T>| 0 <= snap_ms - t.recv_ms <= window_ms,
    );
    lemma_gather_is_filter(
        quotes,
        |t: BboTick<Q>| at_most_one(if_recent_quote(t, snap_ms, window_ms)),
        |t: BboTick<Q>| 0 <= snap_ms - t.recv_ms <= window_ms,
    );
    lemma_gather_is_filter(
        ticks,
        |t: TwapTick| at_most_one(if_recent_tick(t, snap_ms, window_ms)),
        |t: TwapTick| snap_ms - t.obs_ms <= window_ms,
    );
}

/// The oracle value of a past time is one that was there then, and every value
/// behind it is later; there is none only if all values are later.
pub proof fn law_past_value_is_the_last_one(ticks: Seq<TwapTick>, cutoff: int)
    ensures
        last_not_after(ticks, cutoff) is None <==> forall|i: int|
            0 <= i < ticks.len() ==> (#[trigger] ticks[i]).obs_ms > cutoff,
        last_not_after(ticks, cutoff) matches Some(t) ==> exists|i: int|
            0 <= i < ticks.len() && #[trigger] ticks[i] == t && t.obs_ms <= cutoff && forall|j: int|
                i < j < ticks.len() ==> (#[trigger] ticks[j]).obs_ms > cutoff,
    decreases ticks.len(),
{
    if ticks.len() > 0 {
        let head = ticks.drop_last();
        let last = ticks.len() - 1;
        assert(ticks[last] == ticks.last());
        if ticks.last().obs_ms > cutoff {
            law_past_value_is_the_last_one(head, cutoff);
            assert forall|i: int| 0 <= i < head.len() implies head[i] == ticks[i] by {}
            if let Some(t) = last_not_after(ticks, cutoff) {
                let i = choose|i: int|
                    0 <= i < head.len() && #[trigger] head[i] == t && t.obs_ms <= cutoff
                        && forall|j: int|
                        i < j < head.len() ==> (#[trigger] head[j]).obs_ms > cutoff;
                assert(ticks[i] == t);
                assert forall|j: int| i < j < ticks.len() implies (#[trigger] ticks[j]).obs_ms
                    > cutoff by {
                    if j < last {
                        assert(head[j] == ticks[j]);
                    }
                }
            } else {
                assert forall|i: int| 0 <= i < ticks.len() implies (#[trigger] ticks[i]).obs_ms
                    > cutoff by {
                    if i < last {
                        assert(head[i] == ticks[i]);
                    }
                }
            }
        }
    }
}

/// The last oracle value that is not later than `cutoff`.
pub open spec fn last_not_after(ticks: Seq<TwapTick>, cutoff: int) -> Option<TwapTick>
    decreases ticks.len(),
{
    if ticks.len() == 0 {
        None
    } else if ticks.last().obs_ms <= cutoff {
        Some(ticks.last())
    } else {
        last_not_after(ticks.drop_last(), cutoff)
    }
}

/// The lowest price; the first of those that are equal.
pub open spec fn lowest_price(ticks: Seq<TwapTick>) -> DecimalView
    decreases ticks.len(),
{
    if ticks.len() <= 1 {
        ticks[0].price@
    } else {
        let head = lowest_price(ticks.drop_last());
        if ticks.last().price@.value() < head.value() {
            ticks.last().price@
        } else {
            head
        }
    }
}

/// The highest price; the first of those that are equal.
pub open spec fn highest_price(ticks: Seq<TwapTick>) -> DecimalView
    decreases ticks.len(),
{
    if ticks.len() <= 1 {
        ticks[0].price@
    } else {
        let head = highest_price(ticks.drop_last());
        if head.value() < ticks.last().price@.value() {
            ticks.last().price@
        } else {
            head
        }
    }
}

/// Every price lies between the lowest and the highest.
pub proof fn law_prices_lie_in_the_range(ticks: Seq<TwapTick>, i: int)
    requires
        0 <= i < ticks.len(),
    ensures
        lowest_price(ticks).value() <= ticks[i].price@.value() <= highest_price(ticks).value(),
    decreases ticks.len(),
{
    if ticks.len() > 1 {
        let head = ticks.drop_last();
        if i < head.len() {
            law_prices_lie_in_the_range(head, i);
            assert(head[i] == ticks[i]);
        }
    }
}

/// The lowest and the highest price are prices of the window.
pub proof fn law_ends_of_the_range_are_prices(ticks: Seq<TwapTick>)
    requires
        ticks.len() > 0,
    ensures
        exists|i: int| 0 <= i < ticks.len() && (#[trigger] ticks[i]).price@ == lowest_price(ticks),
        exists|i: int| 0 <= i < ticks.len() && (#[trigger] ticks[i]).price@ == highest_price(ticks),
    decreases ticks.len(),
{
    let last = ticks.len() - 1;
    assert(ticks[last] == ticks.last());
    if ticks.len() == 1 {
        assert(ticks[0].price@ == lowest_price(ticks));
        assert(ticks[0].price@ == highest_price(ticks));
    } else {
        let head = ticks.drop_last();
        law_ends_of_the_range_are_prices(head);
        let i = choose|i: int|
            0 <= i < head.len() && (#[trigger] head[i]).price@ == lowest_price(head);
        let j = choose|j: int|
            0 <= j < head.len() && (#[trigger] head[j]).price@ == highest_price(head);
        assert(ticks[i] == head[i] && ticks[j] == head[j]);
    }
}

impl<Q, T, F> WindowSnapshot<Q, T, F> {
    /// Nothing in the snapshot is of a time after it.
    pub open spec fn knows_no_future(&self) -> bool {
        &&& forall|i: int|
            0 <= i < self.twap_ticks@.len() ==> (#[trigger] self.twap_ticks@[i]).obs_ms
                <= self.snap_ms
        &&& forall|i: int|
            0 <= i < self.bbo_ticks@.len() ==> (#[trigger] self.bbo_ticks@[i]).recv_ms
                <= self.snap_ms
        &&& forall|i: int|
            0 <= i < self.trade_ticks@.len() ==> (#[trigger] self.trade_ticks@[i]).recv_ms
                <= self.snap_ms
    }

    /// The price that the window opened with: that of the first oracle value.
    pub fn open_price(&self) -> (r: Option<Decimal>)
        ensures
            r == (if self.twap_ticks@.len() == 0 {
                None
            } else {
                Some(self.twap_ticks@[0].price)
            }),
    {
        if self.twap_ticks.len() == 0 {
            None
        } else {
            Some(self.twap_ticks[0].price)
        }
    }

    /// The price now: that of the last oracle value.
    pub fn current_price(&self) -> (r: Option<Decimal>)
        ensures
            r == (if self.twap_ticks@.len() == 0 {
                None
            } else {
                Some(self.twap_ticks@.last().price)
            }),
    {
        if self.twap_ticks.len() == 0 {
            None
        } else {
            Some(self.twap_ticks[self.twap_ticks.len() - 1].price)
        }
    }

    /// The milliseconds since the window began.
    pub fn elapsed_ms(&self) -> (r: i64)
        requires
            i64::MIN <= self.snap_ms - self.win_start_ms <= i64::MAX,
        ensures
            r == self.snap_ms - self.win_start_ms,
    {
        (self.snap_ms as i128 - self.win_start_ms as i128) as i64
    }

    /// The milliseconds until the window ends.
    pub fn remaining_ms(&self) -> (r: i64)
        requires
            i64::MIN <= self.snap_ms - self.win_start_ms <= i64::MAX,
            WINDOW_MS - (self.snap_ms - self.win_start_ms) <= i64::MAX,
        ensures
            r == WINDOW_MS - (self.snap_ms - self.win_start_ms),
    {
        (300_000 - self.elapsed_ms() as i128) as i64
    }

    /// How many oracle values there are.
    pub fn tick_count(&self) -> (r: usize)
        ensures
            r == self.twap_ticks@.len(),
    {
        self.twap_ticks.len()
    }

    /// The newest quote of each exchange, however old, the newest of all first.
    pub fn latest_bbo_per_exchange_raw(&self) -> (r: Vec<&BboTick<Q>>)
        ensures
            targets(r@) == newest_from(self.bbo_ticks@, 0),
    {
        let ghost ticks = self.bbo_ticks@;
        let mut out: Vec<&BboTick<Q>> = Vec::new();
        let mut i: usize = self.bbo_ticks.len();
        assert(targets(out@) =~= newest_from(ticks, i as int));
        while i > 0
            invariant
                ticks == self.bbo_ticks@,
                i <= ticks.len(),
                targets(out@) == newest_from(ticks, i as int),
            decreases i,
        {
            i = i - 1;
            let ghost before = out@;
            let t: &BboTick<Q> = &self.bbo_ticks[i];
            let mut seen: bool = false;
            let mut k: usize = 0;
            while k < out.len()
                invariant
                    k <= out@.len(),
                    seen == exists|m: int|
                        0 <= m < k && (#[trigger] out@[m]).exchange@ == t.exchange@,
                decreases out@.len() - k,
            {
                if same(out[k].exchange.as_str(), t.exchange.as_str()) {
                    assert(out@[k as int].exchange@ == t.exchange@);
                    seen = true;
                }
                k = k + 1;
            }
            proof {
                lemma_newest_members(ticks, i + 1);
                let later = newest_from(ticks, i + 1);
                assert(later == targets(out@));
                if seen {
                    let m = choose|m: int|
                        0 <= m < out@.len() && (#[trigger] out@[m]).exchange@ == t.exchange@;
                    assert(later[m] == *out@[m]);
                    let j = choose|j: int|
                        i + 1 <= j < ticks.len() && #[trigger] ticks[j] == later[m] && is_newest(
                            ticks,
                            j,
                        );
                    assert(ticks[j].exchange@ == ticks[i as int].exchange@);
                    assert(!is_newest(ticks, i as int));
                } else {
                    assert forall|j: int| i < j < ticks.len() implies (
                    #[trigger] ticks[j]).exchange@ != ticks[i as int].exchange@ by {
                        let n = lemma_some_newest(ticks, j);
                        assert(later.contains(ticks[n]));
                        let m = choose|m: int| 0 <= m < later.len() && later[m] == ticks[n];
                        assert(*out@[m] == later[m]);
                    }
                    assert(is_newest(ticks, i as int));
                }
            }
            if !seen {
                out.push(t);
                assert(targets(out@) =~= targets(before).push(*t));
            }
        }
        out
    }

    /// The newest quote of each exchange, where it is not too old: an exchange
    /// that has been silent has no opinion, and must not look as if it had
    /// another one.
    pub fn latest_bbo_per_exchange(&self) -> (r: Vec<&BboTick<Q>>)
        ensures
            targets(r@) == fresh_quotes(self.bbo_ticks@, self.snap_ms),
    {
        let raw: Vec<&BboTick<Q>> = self.latest_bbo_per_exchange_raw();
        let ghost all = targets(raw@);
        let ghost f = |t: BboTick<Q>| at_most_one(if_fresh(t, self.snap_ms));
        let mut out: Vec<&BboTick<Q>> = Vec::new();
        assert(targets(out@) =~= Seq::empty());
        assert(all.take(0) =~= Seq::empty());
        let mut i: usize = 0;
        while i < raw.len()
            invariant
                all == targets(raw@),
                f == (|t: BboTick<Q>| at_most_one(if_fresh(t, self.snap_ms))),
                i <= raw@.len(),
                targets(out@) == gather(all.take(i as int), f),
            decreases raw@.len() - i,
        {
            let ghost before = out@;
            proof {
                lemma_gather_step(all, f, i as int);
            }
            let t: &BboTick<Q> = raw[i];
            assert(all[i as int] == *t);
            if self.snap_ms as i128 - t.recv_ms as i128 <= BBO_STALE_MS as i128 {
                out.push(t);
            }
            assert(targets(out@) =~= targets(before) + f(*t));
            i = i + 1;
        }
        assert(all.take(all.len() as int) =~= all);
        out
    }

    /// How many exchanges have a quote that counts.
    pub fn active_exchange_count(&self) -> (r: usize)
        ensures
            r == fresh_quotes(self.bbo_ticks@, self.snap_ms).len(),
    {
        let v: Vec<&BboTick<Q>> = self.latest_bbo_per_exchange();
        assert(targets(v@).len() == v@.len());
        v.len()
    }

    /// With each quote the oracle value that was the last one known when it
    /// came: pairs of a place among the oracle values and one among the quotes.
    pub fn basis_pairs(&self) -> (r: Vec<(usize, usize)>)
        ensures
            r@.map_values(|p: (usize, usize)| (p.0 as int, p.1 as int)) == pairs_upto(
                self.twap_ticks@,
                self.bbo_ticks@,
                self.bbo_ticks@.len() as int,
            ),
    {
        let ghost ticks = self.twap_ticks@;
        let ghost quotes = self.bbo_ticks@;
        let mut out: Vec<(usize, usize)> = Vec::new();
        let n: usize = self.twap_ticks.len();
        if n == 0 {
            assert(out@.map_values(|p: (usize, usize)| (p.0 as int, p.1 as int)) =~= Seq::empty());
            return out;
        }
        assert(out@.map_values(|p: (usize, usize)| (p.0 as int, p.1 as int)) =~= pairs_upto(
            ticks,
            quotes,
            0,
        ));
        let mut ti: usize = 0;
        let mut k: usize = 0;
        while k < self.bbo_ticks.len()
            invariant
                ticks == self.twap_ticks@,
                quotes == self.bbo_ticks@,
                n == ticks.len(),
                n > 0,
                k <= quotes.len(),
                ti < n,
                ti == cursor(ticks, quotes, k as int),
                out@.map_values(|p: (usize, usize)| (p.0 as int, p.1 as int)) == pairs_upto(
                    ticks,
                    quotes,
                    k as int,
                ),
            decreases quotes.len() - k,
        {
            let ghost before = out@;
            let t: i64 = self.bbo_ticks[k].recv_ms;
            while ti + 1 < n && self.twap_ticks[ti + 1].obs_ms <= t
                invariant
                    ticks == self.twap_ticks@,
                    n == ticks.len(),
                    ti < n,
                    advanced(ticks, ti as int, t) == advanced(
                        ticks,
                        cursor(ticks, quotes, k as int),
                        t,
                    ),
                decreases n - ti,
            {
                ti = ti + 1;
            }
            assert(ti == cursor(ticks, quotes, k + 1));
            if self.twap_ticks[ti].obs_ms <= t {
                out.push((ti, k));
                assert(out@.map_values(|p: (usize, usize)| (p.0 as int, p.1 as int))
                    =~= before.map_values(|p: (usize, usize)| (p.0 as int, p.1 as int)).push(
                    (ti as int, k as int),
                ));
            }
            k = k + 1;
        }
        out
    }

    /// The trades that came within `window_ms` before the snapshot, both ends
    /// included. A trade that is later than the snapshot is left out.
    pub fn trades_in_last(&self, window_ms: i64) -> (r: Vec<&TradeTick<T>>)
        ensures
            targets(r@) == recent_trades(self.trade_ticks@, self.snap_ms, window_ms),
    {
        let ghost all = self.trade_ticks@;
        let ghost f = |t: TradeTick<T>|
            at_most_one(if_recent_trade(t, self.snap_ms, window_ms));
        let cutoff: i128 = self.snap_ms as i128 - window_ms as i128;
        let mut out: Vec<&TradeTick<T>> = Vec::new();
        assert(targets(out@) =~= Seq::empty());
        assert(all.take(0) =~= Seq::empty());
        let mut i: usize = 0;
        while i < self.trade_ticks.len()
            invariant
                all == self.trade_ticks@,
                f == (|t: TradeTick<T>| at_most_one(if_recent_trade(t, self.snap_ms, window_ms))),
                cutoff == self.snap_ms - window_ms,
                i <= all.len(),
                targets(out@) == gather(all.take(i as int), f),
            decreases all.len() - i,
        {
            let ghost before = out@;
            proof {
                lemma_gather_step(all, f, i as int);
            }
            let t: &TradeTick<T> = &self.trade_ticks[i];
            if t.recv_ms as i128 >= cutoff && t.recv_ms <= self.snap_ms {
                out.push(t);
            }
            assert(targets(out@) =~= targets(before) + f(*t));
            i = i + 1;
        }
        assert(all.take(all.len() as int) =~= all);
        out
    }

    /// How many trades came within `window_ms` before the snapshot, both ends
    /// included.
    pub fn trade_count_in_last(&self, window_ms: i64) -> (r: usize)
        ensures
            r == recent_trades(self.trade_ticks@, self.snap_ms, window_ms).len(),
    {
        let v: Vec<&TradeTick<T>> = self.trades_in_last(window_ms);
        assert(targets(v@).len() == v@.len());
        v.len()
    }

    /// The quotes that came within `window_ms` before the snapshot, both ends
    /// included. A quote that is later than the snapshot is left out.
    pub fn bbo_in_last(&self, window_ms: i64) -> (r: Vec<&BboTick<Q>>)
        ensures
            targets(r@) == recent_quotes(self.bbo_ticks@, self.snap_ms, window_ms),
    {
        let ghost all = self.bbo_ticks@;
        let ghost f = |t: BboTick<Q>| at_most_one(if_recent_quote(t, self.snap_ms, window_ms));
        let cutoff: i128 = self.snap_ms as i128 - window_ms as i128;
        let mut out: Vec<&BboTick<Q>> = Vec::new();
        assert(targets(out@) =~= Seq::empty());
        assert(all.take(0) =~= Seq::empty());
        let mut i: usize = 0;
        while i < self.bbo_ticks.len()
            invariant
                all == self.bbo_ticks@,
                f == (|t: BboTick<Q>| at_most_one(if_recent_quote(t, self.snap_ms, window_ms))),
                cutoff == self.snap_ms - window_ms,
                i <= all.len(),
                targets(out@) == gather(all.take(i as int), f),
            decreases all.len() - i,
        {
            let ghost before = out@;
            proof {
                lemma_gather_step(all, f, i as int);
            }
            let t: &BboTick<Q> = &self.bbo_ticks[i];
            if t.recv_ms as i128 >= cutoff && t.recv_ms <= self.snap_ms {
                out.push(t);
            }
            assert(targets(out@) =~= targets(before) + f(*t));
            i = i + 1;
        }
        assert(all.take(all.len() as int) =~= all);
        out
    }

    /// The oracle values that are not older than `window_ms` at the time of the
    /// snapshot. There is no later end: a snapshot that knows no future has no
    /// oracle value after its own time.
    pub fn ticks_in_last(&self, window_ms: i64) -> (r: Vec<TwapTick>)
        ensures
            r@ == recent_ticks(self.twap_ticks@, self.snap_ms, window_ms),
    {
        let ghost all = self.twap_ticks@;
        let ghost f = |t: TwapTick| at_most_one(if_recent_tick(t, self.snap_ms, window_ms));
        let cutoff: i128 = self.snap_ms as i128 - window_ms as i128;
        let mut out: Vec<TwapTick> = Vec::new();
        assert(all.take(0) =~= Seq::empty());
        let mut i: usize = 0;
        while i < self.twap_ticks.len()
            invariant
                all == self.twap_ticks@,
                f == (|t: TwapTick| at_most_one(if_recent_tick(t, self.snap_ms, window_ms))),
                cutoff == self.snap_ms - window_ms,
                i <= all.len(),
                out@ == gather(all.take(i as int), f),
            decreases all.len() - i,
        {
            let ghost before = out@;
            proof {
                lemma_gather_step(all, f, i as int);
            }
            let t: TwapTick = self.twap_ticks[i];
            if t.obs_ms as i128 >= cutoff {
                out.push(t);
            }
            assert(out@ =~= before + f(t));
            i = i + 1;
        }
        assert(all.take(all.len() as int) =~= all);
        out
    }

    /// The price `lookback_ms` before the snapshot: that of the last oracle
    /// value that was there then.
    pub fn price_n_ms_ago(&self, lookback_ms: i64) -> (r: Option<Decimal>)
        ensures
            r == (match last_not_after(self.twap_ticks@, self.snap_ms - lookback_ms) {
                Some(t) => Some(t.price),
                None => None,
            }),
    {
        let cutoff: i128 = self.snap_ms as i128 - lookback_ms as i128;
        let ghost all = self.twap_ticks@;
        let mut i: usize = self.twap_ticks.len();
        assert(all.take(i as int) =~= all);
        while i > 0
            invariant
                all == self.twap_ticks@,
                cutoff == self.snap_ms - lookback_ms,
                i <= all.len(),
                last_not_after(all, cutoff as int) == last_not_after(
                    all.take(i as int),
                    cutoff as int,
                ),
            decreases i,
        {
            assert(all.take(i as int).last() == all[i - 1]);
            assert(all.take(i as int).drop_last() =~= all.take(i - 1));
            if self.twap_ticks[i - 1].obs_ms as i128 <= cutoff {
                return Some(self.twap_ticks[i - 1].price);
            }
            i = i - 1;
        }
        None
    }

    /// The lowest and the highest price of the window.
    pub fn price_range(&self) -> (r: Option<(Decimal, Decimal)>)
        ensures
            (match r {
                Some(p) => Some((p.0@, p.1@)),
                None => None,
            }) == (if self.twap_ticks@.len() == 0 {
                None
            } else {
                Some((lowest_price(self.twap_ticks@), highest_price(self.twap_ticks@)))
            }),
    {
        if self.twap_ticks.len() == 0 {
            return None;
        }
        let ghost all = self.twap_ticks@;
        let mut lo: Decimal = self.twap_ticks[0].price;
        let mut hi: Decimal = lo;
        let mut i: usize = 1;
        while i < self.twap_ticks.len()
            invariant
                all == self.twap_ticks@,
                1 <= i <= all.len(),
                lo@ == lowest_price(all.take(i as int)),
                hi@ == highest_price(all.take(i as int)),
            decreases all.len() - i,
        {
            assert(all.take(i + 1).drop_last() =~= all.take(i as int));
            assert(all.take(i + 1).last() == all[i as int]);
            let p: Decimal = self.twap_ticks[i].price;
            if p.less(&lo) {
                lo = p;
            }
            if hi.less(&p) {
                hi = p;
            }
            i = i + 1;
        }
        assert(all.take(all.len() as int) =~= all);
        Some((lo, hi))
    }

    /// How long before the snapshot the last oracle value was, in milliseconds.
    pub fn staleness_ms(&self) -> (r: Option<i128>)
        ensures
            r == (if self.twap_ticks@.len() == 0 {
                None
            } else if self.twap_ticks@.last().obs_ms > self.snap_ms {
                Some(0)
            } else {
                Some((self.snap_ms - self.twap_ticks@.last().obs_ms) as i128)
            }),
    {
        if self.twap_ticks.len() == 0 {
            return None;
        }
        let d: i128 = self.snap_ms as i128
            - self.twap_ticks[self.twap_ticks.len() - 1].obs_ms as i128;
        if d < 0 {
            Some(0)
        } else {
            Some(d)
        }
    }
}

// ── Numbers for texts ───────────────────────────────────────────────────────

/// The quotes for which there are numbers, with them in the place of what they
/// were written as.
pub open spec fn quotes_with<A, Q>(ticks: Seq<BboTick<A>>, numbers: Seq<Option<Q>>) -> Seq<
    (Seq<char>, i64, Q),
>
    decreases ticks.len(),
{
    if ticks.len() == 0 {
        Seq::empty()
    } else {
        let head = quotes_with(ticks.drop_last(), numbers.drop_last());
        match numbers.last() {
            Some(q) => head.push((ticks.last().exchange@, ticks.last().recv_ms, q)),
            None => head,
        }
    }
}

/// The trades for which there are numbers, with them in the place of what they
/// were written as.
pub open spec fn trades_with<A, T>(ticks: Seq<TradeTick<A>>, numbers: Seq<Option<T>>) -> Seq<
    (Seq<char>, i64, bool, T),
>
    decreases ticks.len(),
{
    if ticks.len() == 0 {
        Seq::empty()
    } else {
        let head = trades_with(ticks.drop_last(), numbers.drop_last());
        match numbers.last() {
            Some(d) => head.push(
                (ticks.last().exchange@, ticks.last().recv_ms, ticks.last().is_buy, d),
            ),
            None => head,
        }
    }
}

/// What the quotes are, with their numbers as they are.
pub open spec fn quote_parts<Q>(ticks: Seq<BboTick<Q>>) -> Seq<(Seq<char>, i64, Q)> {
    ticks.map_values(|t: BboTick<Q>| (t.exchange@, t.recv_ms, t.quote))
}

/// What the trades are, with their numbers as they are.
pub open spec fn trade_parts<T>(ticks: Seq<TradeTick<T>>) -> Seq<(Seq<char>, i64, bool, T)> {
    ticks.map_values(|t: TradeTick<T>| (t.exchange@, t.recv_ms, t.is_buy, t.deal))
}

/// A quote for which there are numbers comes behind those before it, with its
/// exchange and its time; one without numbers is left out. So with trades.
pub proof fn law_numbers_go_with_their_ticks<A, B, Q, T>(
    quotes: Seq<BboTick<A>>,
    q: BboTick<A>,
    quote_numbers: Seq<Option<Q>>,
    trades: Seq<TradeTick<B>>,
    t: TradeTick<B>,
    trade_numbers: Seq<Option<T>>,
    n: Q,
    m: T,
)
    requires
        quotes.len() == quote_numbers.len(),
        trades.len() == trade_numbers.len(),
    ensures
        quotes_with(quotes.push(q), quote_numbers.push(Some(n))) == quotes_with(
            quotes,
            quote_numbers,
        ).push((q.exchange@, q.recv_ms, n)),
        quotes_with(quotes.push(q), quote_numbers.push(None)) == quotes_with(
            quotes,
            quote_numbers,
        ),
        quotes_with(Seq::<BboTick<A>>::empty(), Seq::<Option<Q>>::empty()).len() == 0,
        trades_with(trades.push(t), trade_numbers.push(Some(m))) == trades_with(
            trades,
            trade_numbers,
        ).push((t.exchange@, t.recv_ms, t.is_buy, m)),
        trades_with(trades.push(t), trade_numbers.push(None)) == trades_with(
            trades,
            trade_numbers,
        ),
        trades_with(Seq::<TradeTick<B>>::empty(), Seq::<Option<T>>::empty()).len() == 0,
{
    assert(quotes.push(q).drop_last() =~= quotes);
    assert(trades.push(t).drop_last() =~= trades);
    assert forall|n: Option<Q>| #[trigger] quote_numbers.push(n).drop_last() == quote_numbers by {
        assert(quote_numbers.push(n).drop_last() =~= quote_numbers);
    }
    assert forall|n: Option<T>| #[trigger] trade_numbers.push(n).drop_last() == trade_numbers by {
        assert(trade_numbers.push(n).drop_last() =~= trade_numbers);
    }
}

fn number_quotes<A, Q>(ticks: &Vec<BboTick<A>>, numbers: Vec<Option<Q>>, latest: i64) -> (r: Vec<
    BboTick<Q>,
>)
    requires
        ticks@.len() == numbers@.len(),
        forall|i: int| 0 <= i < ticks@.len() ==> (#[trigger] ticks@[i]).recv_ms <= latest,
    ensures
        quote_parts(r@) == quotes_with(ticks@, numbers@),
        forall|i: int| 0 <= i < r@.len() ==> (#[trigger] r@[i]).recv_ms <= latest,
{
    let mut out: Vec<BboTick<Q>> = Vec::new();
    let n: usize = ticks.len();
    let mut i: usize = 0;
    assert(quote_parts(out@) =~= quotes_with(ticks@.take(0), numbers@.take(0)));
    for number in it: numbers.into_iter()
        invariant
            it.seq() == numbers@,
            i == it.index(),
            i <= n,
            n == ticks@.len(),
            ticks@.len() == numbers@.len(),
            forall|i: int| 0 <= i < ticks@.len() ==> (#[trigger] ticks@[i]).recv_ms <= latest,
            quote_parts(out@) == quotes_with(ticks@.take(i as int), numbers@.take(i as int)),
            forall|i: int| 0 <= i < out@.len() ==> (#[trigger] out@[i]).recv_ms <= latest,
    {
        let ghost before = out@;
        assert(ticks@.take(i + 1).drop_last() =~= ticks@.take(i as int));
        assert(numbers@.take(i + 1).drop_last() =~= numbers@.take(i as int));
        assert(numbers@.take(i + 1).last() == number);
        assert(ticks@.take(i + 1).last() == ticks@[i as int]);
        if let Some(quote) = number {
            let t: BboTick<Q> = BboTick {
                exchange: ticks[i].exchange.clone(),
                recv_ms: ticks[i].recv_ms,
                quote,
            };
            out.push(t);
            assert(quote_parts(out@) =~= quote_parts(before).push(
                (ticks@[i as int].exchange@, t.recv_ms, quote),
            ));
        }
        i = i + 1;
    }
    assert(ticks@.take(ticks@.len() as int) =~= ticks@);
    assert(numbers@.take(numbers@.len() as int) =~= numbers@);
    out
}

fn number_trades<A, T>(ticks: &Vec<TradeTick<A>>, numbers: Vec<Option<T>>, latest: i64) -> (r: Vec<
    TradeTick<T>,
>)
    requires
        ticks@.len() == numbers@.len(),
        forall|i: int| 0 <= i < ticks@.len() ==> (#[trigger] ticks@[i]).recv_ms <= latest,
    ensures
        trade_parts(r@) == trades_with(ticks@, numbers@),
        forall|i: int| 0 <= i < r@.len() ==> (#[trigger] r@[i]).recv_ms <= latest,
{
    let mut out: Vec<TradeTick<T>> = Vec::new();
    let n: usize = ticks.len();
    let mut i: usize = 0;
    assert(trade_parts(out@) =~= trades_with(ticks@.take(0), numbers@.take(0)));
    for number in it: numbers.into_iter()
        invariant
            it.seq() == numbers@,
            i == it.index(),
            i <= n,
            n == ticks@.len(),
            ticks@.len() == numbers@.len(),
            forall|i: int| 0 <= i < ticks@.len() ==> (#[trigger] ticks@[i]).recv_ms <= latest,
            trade_parts(out@) == trades_with(ticks@.take(i as int), numbers@.take(i as int)),
            forall|i: int| 0 <= i < out@.len() ==> (#[trigger] out@[i]).recv_ms <= latest,
    {
        let ghost before = out@;
        assert(ticks@.take(i + 1).drop_last() =~= ticks@.take(i as int));
        assert(numbers@.take(i + 1).drop_last() =~= numbers@.take(i as int));
        assert(numbers@.take(i + 1).last() == number);
        assert(ticks@.take(i + 1).last() == ticks@[i as int]);
        if let Some(deal) = number {
            let t: TradeTick<T> = TradeTick {
                exchange: ticks[i].exchange.clone(),
                recv_ms: ticks[i].recv_ms,
                is_buy: ticks[i].is_buy,
                deal,
            };
            out.push(t);
            assert(trade_parts(out@) =~= trade_parts(before).push(
                (ticks@[i as int].exchange@, t.recv_ms, t.is_buy, deal),
            ));
        }
        i = i + 1;
    }
    assert(ticks@.take(ticks@.len() as int) =~= ticks@);
    assert(numbers@.take(numbers@.len() as int) =~= numbers@);
    out
}

impl<A, B, F> WindowSnapshot<A, B, F> {
    /// Puts numbers in the place of what quotes and trades were written as.
    /// Quotes and trades for which there are none, since what was written is
    /// damaged, are left out; nothing else changes.
    pub fn with_numbers<Q, T>(self, quotes: Vec<Option<Q>>, deals: Vec<Option<T>>) -> (r:
        WindowSnapshot<Q, T, F>)
        requires
            quotes@.len() == self.bbo_ticks@.len(),
            deals@.len() == self.trade_ticks@.len(),
            self.knows_no_future(),
        ensures
            r.snap_ms == self.snap_ms,
            r.symbol@ == self.symbol@,
            r.win_start_ms == self.win_start_ms,
            r.twap_ticks@ == self.twap_ticks@,
            quote_parts(r.bbo_ticks@) == quotes_with(self.bbo_ticks@, quotes@),
            trade_parts(r.trade_ticks@) == trades_with(self.trade_ticks@, deals@),
            r.fx_usdt_premium == self.fx_usdt_premium,
            r.knows_no_future(),
    {
        WindowSnapshot {
            bbo_ticks: number_quotes(&self.bbo_ticks, quotes, self.snap_ms),
            trade_ticks: number_trades(&self.trade_ticks, deals, self.snap_ms),
            snap_ms: self.snap_ms,
            symbol: self.symbol,
            win_start_ms: self.win_start_ms,
            twap_ticks: self.twap_ticks,
            fx_usdt_premium: self.fx_usdt_premium,
        }
    }
}

} // verus!
