//! An order book, kept from snapshots and changes.

use vstd::prelude::*;

use crate::decimal::{decimal_difference, decimal_sum, short, Decimal, DecimalView};
use crate::seqs::{
    at_most_one, gather, lemma_gather_is_map_of_filter, lemma_gather_step, views,
};
use crate::types::{levels, BookRecord, BookView, Level};

verus! {

/// The levels stand in the order of their prices, and no price twice.
pub open spec fn sorted(side: Seq<Level>) -> bool {
    forall|i: int, j: int|
        0 <= i < j < side.len() ==> (#[trigger] side[i]).0.value() < (#[trigger] side[j]).0.value()
}

/// `side` with the quantity at the price of `l` set: the level is replaced where
/// the price is there, in the spelling that it has there, else it is put in.
pub open spec fn put(side: Seq<Level>, l: Level) -> Seq<Level>
    decreases side.len(),
{
    if side.len() == 0 || side.last().0.value() < l.0.value() {
        side.push(l)
    } else if side.last().0.value() == l.0.value() {
        side.drop_last().push((side.last().0, l.1))
    } else {
        put(side.drop_last(), l).push(side.last())
    }
}

/// `side` without the level at `price`.
pub open spec fn cut(side: Seq<Level>, price: DecimalView) -> Seq<Level>
    decreases side.len(),
{
    if side.len() == 0 || side.last().0.value() < price.value() {
        side
    } else if side.last().0.value() == price.value() {
        side.drop_last()
    } else {
        cut(side.drop_last(), price).push(side.last())
    }
}

/// `side` after one change: a quantity of zero removes the level.
pub open spec fn changed(side: Seq<Level>, l: Level) -> Seq<Level> {
    if l.1.magnitude == 0 {
        cut(side, l.0)
    } else {
        put(side, l)
    }
}

/// `side` after the changes, one after the other.
pub open spec fn changed_by(side: Seq<Level>, changes: Seq<Level>) -> Seq<Level>
    decreases changes.len(),
{
    if changes.len() == 0 {
        side
    } else {
        changed(changed_by(side, changes.drop_last()), changes.last())
    }
}

/// The last `n` levels.
pub open spec fn highest(side: Seq<Level>, n: nat) -> Seq<Level> {
    if side.len() <= n {
        side
    } else {
        side.skip(side.len() - n)
    }
}

/// The first `n` levels.
pub open spec fn lowest(side: Seq<Level>, n: nat) -> Seq<Level> {
    if side.len() <= n {
        side
    } else {
        side.take(n as int)
    }
}

/// The quantity at a price; `None` where there is no such level.
pub open spec fn qty_at(side: Seq<Level>, price: int) -> Option<DecimalView>
    decreases side.len(),
{
    if side.len() == 0 {
        None
    } else if side.last().0.value() == price {
        Some(side.last().1)
    } else {
        qty_at(side.drop_last(), price)
    }
}

/// A side in order stays so without its last level.
proof fn lemma_head_is_sorted(side: Seq<Level>)
    requires
        sorted(side),
        side.len() > 0,
    ensures
        sorted(side.drop_last()),
{
    let head = side.drop_last();
    assert forall|a: int, b: int| 0 <= a < b < head.len() implies (#[trigger] head[a]).0.value() < (
    #[trigger] head[b]).0.value() by {
        assert(head[a] == side[a] && head[b] == side[b]);
    }
}

proof fn lemma_put(side: Seq<Level>, l: Level, i: int)
    requires
        sorted(side),
        0 <= i <= side.len(),
        forall|k: int| 0 <= k < i ==> (#[trigger] side[k]).0.value() < l.0.value(),
        i < side.len() ==> side[i].0.value() >= l.0.value(),
    ensures
        put(side, l) == (if i < side.len() && side[i].0.value() == l.0.value() {
            side.update(i, (side[i].0, l.1))
        } else {
            side.insert(i, l)
        }),
        cut(side, l.0) == (if i < side.len() && side[i].0.value() == l.0.value() {
            side.remove(i)
        } else {
            side
        }),
    decreases side.len(),
{
    if i < side.len() {
        let last = side.last();
        let head = side.drop_last();
        if i < side.len() - 1 {
            assert(side[i].0.value() < side[side.len() - 1].0.value());
            lemma_head_is_sorted(side);
            lemma_put(head, l, i);
            if side[i].0.value() == l.0.value() {
                assert(put(side, l) =~= side.update(i, (side[i].0, l.1)));
                assert(cut(side, l.0) =~= side.remove(i));
            } else {
                assert(put(side, l) =~= side.insert(i, l));
                assert(cut(side, l.0) =~= side);
            }
        } else if last.0.value() == l.0.value() {
            assert(put(side, l) =~= side.update(i, (side[i].0, l.1)));
            assert(cut(side, l.0) =~= side.remove(i));
        } else {
            assert forall|k: int| 0 <= k < head.len() implies (#[trigger] head[k]).0.value()
                < l.0.value() by {
                assert(head[k] == side[k]);
            }
            assert(put(head, l) =~= head.push(l));
            assert(cut(head, l.0) =~= head);
            assert(put(side, l) =~= side.insert(i, l));
            assert(cut(side, l.0) =~= side);
        }
    } else {
        assert(side.len() > 0 ==> side.last() == side[side.len() - 1]);
        assert(put(side, l) =~= side.insert(i, l));
    }
}

// ── What holds of a side ────────────────────────────────────────────────────

/// Every level has a quantity.
pub open spec fn live(side: Seq<Level>) -> bool {
    forall|i: int| 0 <= i < side.len() ==> (#[trigger] side[i]).1.magnitude != 0
}

/// Where the level at `price` stands or would stand.
spec fn spot(side: Seq<Level>, price: int, i: int) -> bool {
    &&& 0 <= i <= side.len()
    &&& forall|k: int| 0 <= k < i ==> (#[trigger] side[k]).0.value() < price
    &&& i < side.len() ==> side[i].0.value() >= price
}

proof fn lemma_spot(side: Seq<Level>, price: int) -> (i: int)
    requires
        sorted(side),
    ensures
        spot(side, price, i),
    decreases side.len(),
{
    if side.len() == 0 {
        0
    } else if side.last().0.value() < price {
        assert forall|k: int| 0 <= k < side.len() implies (#[trigger] side[k]).0.value() < price by {
            if k < side.len() - 1 {
                assert(side[k].0.value() < side[side.len() - 1].0.value());
            }
        }
        side.len() as int
    } else {
        let head = side.drop_last();
        lemma_head_is_sorted(side);
        let i = lemma_spot(head, price);
        assert forall|k: int| 0 <= k < i implies (#[trigger] side[k]).0.value() < price by {
            assert(side[k] == head[k]);
        }
        if i < head.len() {
            assert(side[i] == head[i]);
        }
        i
    }
}

proof fn lemma_qty_at(side: Seq<Level>, price: int, i: int)
    requires
        sorted(side),
        spot(side, price, i),
    ensures
        qty_at(side, price) == (if i < side.len() && side[i].0.value() == price {
            Some(side[i].1)
        } else {
            None
        }),
    decreases side.len(),
{
    if side.len() > 0 {
        let head = side.drop_last();
        lemma_head_is_sorted(side);
        let j = if i < side.len() {
            i
        } else {
            side.len() - 1
        };
        if i < side.len() - 1 {
            assert(side[i].0.value() < side[side.len() - 1].0.value());
            assert(head[i] == side[i]);
        }
        assert(spot(head, price, j)) by {
            assert forall|k: int| 0 <= k < j implies (#[trigger] head[k]).0.value() < price by {
                assert(head[k] == side[k]);
            }
        }
        lemma_qty_at(head, price, j);
    }
}

/// A change keeps the order of the prices and leaves no level without a
/// quantity.
pub proof fn law_change_keeps_order(side: Seq<Level>, l: Level)
    requires
        sorted(side),
        live(side),
    ensures
        sorted(changed(side, l)),
        live(changed(side, l)),
{
    let i = lemma_spot(side, l.0.value());
    lemma_put(side, l, i);
    let new = changed(side, l);
    let there = i < side.len() && side[i].0.value() == l.0.value();
    assert forall|a: int, b: int| 0 <= a < b < new.len() implies (#[trigger] new[a]).0.value() < (
    #[trigger] new[b]).0.value() by {
        if l.1.magnitude == 0 {
            if there {
                let x = if a < i {
                    a
                } else {
                    a + 1
                };
                let y = if b < i {
                    b
                } else {
                    b + 1
                };
                assert(new[a] == side[x] && new[b] == side[y]);
            }
        } else if there {
            assert(new[a].0.value() == side[a].0.value());
            assert(new[b].0.value() == side[b].0.value());
        } else {
            let x = if a < i {
                a
            } else {
                a - 1
            };
            let y = if b < i {
                b
            } else {
                b - 1
            };
            if a != i {
                assert(new[a] == side[x]);
            }
            if b != i {
                assert(new[b] == side[y]);
            }
            if a == i {
                assert(side[i].0.value() <= side[y].0.value());
            }
        }
    }
    assert forall|a: int| 0 <= a < new.len() implies (#[trigger] new[a]).1.magnitude != 0 by {
        if l.1.magnitude == 0 {
            if there {
                let x = if a < i {
                    a
                } else {
                    a + 1
                };
                assert(new[a] == side[x]);
            }
        } else if !there && a != i {
            let x = if a < i {
                a
            } else {
                a - 1
            };
            assert(new[a] == side[x]);
        } else if a != i {
            assert(new[a] == side[a]);
        }
    }
}

/// After a change, the price that it names has its quantity, or no level where
/// the quantity is zero, and every other price has what it had.
pub proof fn law_last_change_counts(side: Seq<Level>, l: Level, price: int)
    requires
        sorted(side),
        live(side),
    ensures
        qty_at(changed(side, l), price) == (if price != l.0.value() {
            qty_at(side, price)
        } else if l.1.magnitude == 0 {
            None
        } else {
            Some(l.1)
        }),
{
    let i = lemma_spot(side, l.0.value());
    lemma_put(side, l, i);
    law_change_keeps_order(side, l);
    let new = changed(side, l);
    let there = i < side.len() && side[i].0.value() == l.0.value();
    let j = lemma_spot(side, price);
    lemma_qty_at(side, price, j);
    let grown = l.1.magnitude != 0 && !there;
    let shrunk = l.1.magnitude == 0 && there;
    // Where the price stands in the side as it is now.
    let at = if grown && price > l.0.value() {
        j + 1
    } else if shrunk && price > l.0.value() {
        j - 1
    } else {
        j
    };
    if price > l.0.value() {
        assert(i <= j) by {
            if j < i {
                assert(side[j].0.value() < l.0.value());
            }
        }
        if there {
            assert(i < j) by {
                if i == j && j < side.len() {
                    assert(side[j].0.value() >= price);
                }
            }
        }
    } else {
        assert(j <= i) by {
            if i < j {
                assert(side[i].0.value() < price);
            }
        }
        if price == l.0.value() {
            assert(i == j) by {
                if j < i {
                    assert(side[j].0.value() < l.0.value());
                }
            }
        }
    }
    assert(spot(new, price, at)) by {
        assert forall|k: int| 0 <= k < at implies (#[trigger] new[k]).0.value() < price by {
            if grown && k > i {
                assert(new[k] == side[k - 1]);
            } else if shrunk && k >= i {
                assert(new[k] == side[k + 1]);
            } else if grown && k == i {
                assert(new[k] == l);
            } else {
                assert(new[k].0.value() == side[k].0.value());
            }
        }
        if at < new.len() {
            if grown && at > i {
                assert(new[at] == side[at - 1]);
            } else if shrunk && at >= i {
                assert(new[at] == side[at + 1]);
                if at == i {
                    assert(side[i].0.value() < side[at + 1].0.value());
                }
            } else if grown && at == i {
                assert(new[at] == l);
            } else {
                assert(new[at].0.value() == side[at].0.value());
            }
        }
    }
    lemma_qty_at(new, price, at);
    if at < new.len() && new[at].0.value() == price && price != l.0.value() {
        if grown && at > i {
            assert(new[at] == side[at - 1]);
        } else if shrunk && at >= i {
            assert(new[at] == side[at + 1]);
        } else {
            assert(new[at] == side[at]);
        }
    }
    if j < side.len() && side[j].0.value() == price && price != l.0.value() {
        if grown && j >= i {
            assert(new[j + 1] == side[j]);
        } else if shrunk && j > i {
            assert(new[j - 1] == side[j]);
        } else {
            assert(new[j] == side[j]);
        }
    }
}

proof fn lemma_changes_keep_order(side: Seq<Level>, changes: Seq<Level>)
    requires
        sorted(side),
        live(side),
    ensures
        sorted(changed_by(side, changes)),
        live(changed_by(side, changes)),
    decreases changes.len(),
{
    if changes.len() > 0 {
        lemma_changes_keep_order(side, changes.drop_last());
        law_change_keeps_order(changed_by(side, changes.drop_last()), changes.last());
    }
}

proof fn lemma_cut_keeps_order(side: Seq<Level>, n: nat)
    requires
        sorted(side),
        live(side),
    ensures
        sorted(highest(side, n)),
        live(highest(side, n)),
        sorted(lowest(side, n)),
        live(lowest(side, n)),
{
    if side.len() > n {
        let d = side.len() - n;
        let top = side.skip(d);
        assert forall|i: int, j: int| 0 <= i < j < top.len() implies (
        #[trigger] top[i]).0.value() < (#[trigger] top[j]).0.value() by {
            assert(top[i] == side[i + d] && top[j] == side[j + d]);
        }
        assert forall|i: int| 0 <= i < top.len() implies (#[trigger] top[i]).1.magnitude != 0 by {
            assert(top[i] == side[i + d]);
        }
        let low = side.take(n as int);
        assert forall|i: int, j: int| 0 <= i < j < low.len() implies (
        #[trigger] low[i]).0.value() < (#[trigger] low[j]).0.value() by {
            assert(low[i] == side[i] && low[j] == side[j]);
        }
        assert forall|i: int| 0 <= i < low.len() implies (#[trigger] low[i]).1.magnitude != 0 by {
            assert(low[i] == side[i]);
        }
    }
}

// ── The book ────────────────────────────────────────────────────────────────

/// An order book, kept from snapshots and changes. Each side keeps at most
/// `max_levels` levels, those nearest to the other side.
#[derive(Debug)]
pub struct OrderBook {
    pub symbol: String,
    pub max_levels: usize,
    /// Price and quantity, the lowest price first.
    pub bids: Vec<[Decimal; 2]>,
    /// Price and quantity, the lowest price first.
    pub asks: Vec<[Decimal; 2]>,
    /// The sequence number of the last record.
    pub last_seq: Option<u64>,
    /// The time of the last record.
    pub last_ts: i64,
}

/// What an [`OrderBook`] holds.
pub struct OrderBookView {
    pub symbol: Seq<char>,
    pub max_levels: nat,
    pub bids: Seq<Level>,
    pub asks: Seq<Level>,
    pub last_seq: Option<u64>,
    pub last_ts: i64,
}

impl View for OrderBook {
    type V = OrderBookView;

    open spec fn view(&self) -> OrderBookView {
        OrderBookView {
            symbol: self.symbol@,
            max_levels: self.max_levels as nat,
            bids: levels(self.bids@),
            asks: levels(self.asks@),
            last_seq: self.last_seq,
            last_ts: self.last_ts,
        }
    }
}

/// The view of an [`OrderBook`] shows each field under its own name.
pub proof fn law_view_of_order_book(v: OrderBook)
    ensures
        v@.symbol == v.symbol@,
        v@.max_levels == v.max_levels as nat,
        v@.bids == levels(v.bids@),
        v@.asks == levels(v.asks@),
        v@.last_seq == v.last_seq,
        v@.last_ts == v.last_ts,
{
}

impl OrderBookView {
    /// Both sides are in order, without empty levels, and not too long.
    pub open spec fn wf(self) -> bool {
        &&& sorted(self.bids) && live(self.bids) && self.bids.len() <= self.max_levels
        &&& sorted(self.asks) && live(self.asks) && self.asks.len() <= self.max_levels
    }

    /// The highest bid.
    pub open spec fn best_bid(self) -> Option<Level> {
        if self.bids.len() == 0 {
            None
        } else {
            Some(self.bids.last())
        }
    }

    /// The lowest ask.
    pub open spec fn best_ask(self) -> Option<Level> {
        if self.asks.len() == 0 {
            None
        } else {
            Some(self.asks[0])
        }
    }
}

/// The quantity of a level whose price is not below `floor`.
pub open spec fn not_below(l: Level, floor: DecimalView) -> Option<DecimalView> {
    if l.0.value() >= floor.value() {
        Some(l.1)
    } else {
        None
    }
}

/// The quantity of a level whose price is not above `ceiling`.
pub open spec fn not_above(l: Level, ceiling: DecimalView) -> Option<DecimalView> {
    if l.0.value() <= ceiling.value() {
        Some(l.1)
    } else {
        None
    }
}

impl OrderBookView {
    /// The lowest bid within `range` of the best one; any number will do where
    /// there are no bids.
    pub open spec fn bid_floor(self, range: DecimalView) -> Option<DecimalView> {
        match self.best_bid() {
            Some(best) => decimal_difference(best.0, range),
            None => Some(range),
        }
    }

    /// The highest ask within `range` of the best one; any number will do where
    /// there are no asks.
    pub open spec fn ask_ceiling(self, range: DecimalView) -> Option<DecimalView> {
        match self.best_ask() {
            Some(best) => decimal_sum(best.0, range),
            None => Some(range),
        }
    }

    /// The quantities of the bids that are not below `floor`, from the lowest
    /// price up.
    pub open spec fn depth_bid(self, floor: DecimalView) -> Seq<DecimalView> {
        gather(self.bids, |l: Level| at_most_one(not_below(l, floor)))
    }

    /// The quantities of the asks that are not above `ceiling`, from the lowest
    /// price up.
    pub open spec fn depth_ask(self, ceiling: DecimalView) -> Seq<DecimalView> {
        gather(self.asks, |l: Level| at_most_one(not_above(l, ceiling)))
    }
}

/// A book without levels.
pub open spec fn empty_book(symbol: Seq<char>, max_levels: nat) -> OrderBookView {
    OrderBookView {
        symbol,
        max_levels,
        bids: Seq::empty(),
        asks: Seq::empty(),
        last_seq: None,
        last_ts: 0,
    }
}

/// What the changes of a record start from: nothing if it is a snapshot.
pub open spec fn base(side: Seq<Level>, is_snapshot: bool) -> Seq<Level> {
    if is_snapshot {
        Seq::empty()
    } else {
        side
    }
}

/// The book after a record.
pub open spec fn applied(b: OrderBookView, r: BookView) -> OrderBookView {
    OrderBookView {
        symbol: b.symbol,
        max_levels: b.max_levels,
        bids: highest(changed_by(base(b.bids, r.is_snapshot), r.bids), b.max_levels),
        asks: lowest(changed_by(base(b.asks, r.is_snapshot), r.asks), b.max_levels),
        last_seq: r.seq,
        last_ts: r.ts_ex,
    }
}

/// A record keeps the book in order and within its depth.
pub proof fn law_record_keeps_the_book_in_order(b: OrderBookView, r: BookView)
    requires
        b.wf(),
    ensures
        applied(b, r).wf(),
{
    let bids = base(b.bids, r.is_snapshot);
    let asks = base(b.asks, r.is_snapshot);
    lemma_changes_keep_order(bids, r.bids);
    lemma_changes_keep_order(asks, r.asks);
    lemma_cut_keeps_order(changed_by(bids, r.bids), b.max_levels);
    lemma_cut_keeps_order(changed_by(asks, r.asks), b.max_levels);
}

/// A snapshot leaves nothing of what the book was before.
pub proof fn law_snapshot_resets(a: OrderBookView, b: OrderBookView, r: BookView)
    requires
        r.is_snapshot,
        a.symbol == b.symbol,
        a.max_levels == b.max_levels,
    ensures
        applied(a, r) == applied(b, r),
{
}

proof fn lemma_push_top(side: Seq<Level>, l: Level)
    requires
        sorted(side.push(l)),
        l.1.magnitude != 0,
    ensures
        changed(side, l) == side.push(l),
{
    if side.len() > 0 {
        let all = side.push(l);
        assert(all[side.len() - 1].0.value() < all[side.len() as int].0.value());
    }
}

proof fn lemma_push_bottom(side: Seq<Level>, l: Level)
    requires
        sorted(side),
        forall|i: int| 0 <= i < side.len() ==> l.0.value() < (#[trigger] side[i]).0.value(),
        l.1.magnitude != 0,
    ensures
        changed(side, l) == seq![l] + side,
{
    lemma_put(side, l, 0);
    assert(side.insert(0, l) =~= seq![l] + side);
}

proof fn lemma_rebuild_upwards(side: Seq<Level>)
    requires
        sorted(side),
        live(side),
    ensures
        changed_by(Seq::empty(), side) == side,
    decreases side.len(),
{
    if side.len() > 0 {
        let head = side.drop_last();
        lemma_head_is_sorted(side);
        assert forall|i: int| 0 <= i < head.len() implies (#[trigger] head[i]).1.magnitude != 0 by {
            assert(head[i] == side[i]);
        }
        lemma_rebuild_upwards(head);
        assert(head.push(side.last()) =~= side);
        assert(side[side.len() - 1].1.magnitude != 0);
        lemma_push_top(head, side.last());
    }
}

proof fn lemma_rebuild_downwards(side: Seq<Level>)
    requires
        sorted(side),
        live(side),
    ensures
        changed_by(Seq::empty(), side.reverse()) == side,
    decreases side.len(),
{
    if side.len() > 0 {
        let tail = side.drop_first();
        assert forall|i: int, j: int| 0 <= i < j < tail.len() implies (
        #[trigger] tail[i]).0.value() < (#[trigger] tail[j]).0.value() by {
            assert(tail[i] == side[i + 1] && tail[j] == side[j + 1]);
        }
        assert forall|i: int| 0 <= i < tail.len() implies (#[trigger] tail[i]).1.magnitude != 0 by {
            assert(tail[i] == side[i + 1]);
        }
        lemma_rebuild_downwards(tail);
        assert(side.reverse().drop_last() =~= tail.reverse());
        assert(side.reverse().last() == side[0]);
        assert forall|i: int| 0 <= i < tail.len() implies side[0].0.value() < (
        #[trigger] tail[i]).0.value() by {
            assert(tail[i] == side[i + 1]);
        }
        lemma_push_bottom(tail, side[0]);
        assert(seq![side[0]] + tail =~= side);
    } else {
        assert(side.reverse() =~= Seq::empty());
        assert(side =~= Seq::empty());
    }
}

/// A book can be rebuilt from its own ladders: a snapshot with the bids from the
/// best down and the asks from the best up gives the same levels.
pub proof fn law_ladders_rebuild_the_book(b: OrderBookView, other: OrderBookView, r: BookView)
    requires
        b.wf(),
        other.max_levels == b.max_levels,
        r.is_snapshot,
        r.bids == b.bids.reverse(),
        r.asks == b.asks,
    ensures
        applied(other, r).bids == b.bids,
        applied(other, r).asks == b.asks,
{
    lemma_rebuild_downwards(b.bids);
    lemma_rebuild_upwards(b.asks);
}

/// The best bid and the best ask survive the cut to `max_levels` levels.
pub proof fn law_cut_keeps_the_best(side: Seq<Level>, n: nat)
    requires
        side.len() > 0,
        n > 0,
    ensures
        highest(side, n).last() == side.last(),
        lowest(side, n)[0] == side[0],
{
}

// ── What a record makes of a book ───────────────────────────────────────────

/// The change at `k` is the last one that names the price `price`.
pub open spec fn names_last(changes: Seq<Level>, k: int, price: int) -> bool {
    &&& 0 <= k < changes.len()
    &&& changes[k].0.value() == price
    &&& forall|j: int| k < j < changes.len() ==> (#[trigger] changes[j]).0.value() != price
}

/// No change names the price `price`.
pub open spec fn names_nowhere(changes: Seq<Level>, price: int) -> bool {
    forall|j: int| 0 <= j < changes.len() ==> (#[trigger] changes[j]).0.value() != price
}

proof fn lemma_qty_after_changes(side: Seq<Level>, changes: Seq<Level>, price: int)
    requires
        sorted(side),
        live(side),
    ensures
        names_nowhere(changes, price) ==> qty_at(changed_by(side, changes), price) == qty_at(
            side,
            price,
        ),
        forall|k: int| #[trigger]
            names_last(changes, k, price) ==> qty_at(changed_by(side, changes), price) == (
            if changes[k].1.magnitude == 0 {
                None
            } else {
                Some(changes[k].1)
            }),
    decreases changes.len(),
{
    if changes.len() > 0 {
        let head = changes.drop_last();
        let l = changes.last();
        let last = changes.len() - 1;
        lemma_qty_after_changes(side, head, price);
        lemma_changes_keep_order(side, head);
        law_last_change_counts(changed_by(side, head), l, price);
        assert(changes[last] == l);
        if names_nowhere(changes, price) {
            assert forall|j: int| 0 <= j < head.len() implies (#[trigger] head[j]).0.value()
                != price by {
                assert(head[j] == changes[j]);
            }
        }
        assert forall|k: int| #[trigger] names_last(changes, k, price) implies qty_at(
            changed_by(side, changes),
            price,
        ) == (if changes[k].1.magnitude == 0 {
            None
        } else {
            Some(changes[k].1)
        }) by {
            if k < last {
                assert(changes[last].0.value() != price);
                assert(head[k] == changes[k]);
                assert forall|j: int| k < j < head.len() implies (#[trigger] head[j]).0.value()
                    != price by {
                    assert(head[j] == changes[j]);
                }
                assert(names_last(head, k, price));
            }
        }
    }
}

/// A level stands in a side at most once: the quantity at its price is its own.
proof fn lemma_level_is_found(side: Seq<Level>, i: int)
    requires
        sorted(side),
        0 <= i < side.len(),
    ensures
        qty_at(side, side[i].0.value()) == Some(side[i].1),
{
    let price = side[i].0.value();
    assert(spot(side, price, i)) by {
        assert forall|k: int| 0 <= k < i implies (#[trigger] side[k]).0.value() < price by {
            assert(side[k].0.value() < side[i].0.value());
        }
    }
    lemma_qty_at(side, price, i);
}

proof fn lemma_found_is_a_level(side: Seq<Level>, price: int) -> (i: int)
    requires
        qty_at(side, price) is Some,
    ensures
        0 <= i < side.len(),
        side[i].0.value() == price,
        qty_at(side, price) == Some(side[i].1),
    decreases side.len(),
{
    if side.last().0.value() == price {
        side.len() - 1
    } else {
        let i = lemma_found_is_a_level(side.drop_last(), price);
        assert(side.drop_last()[i] == side[i]);
        i
    }
}

/// Cutting a side to `n` levels keeps as many as there are, but not more than
/// `n`; those that are kept stand next to each other at the end of the side
/// where the best prices are; and every level that is dropped is worse than
/// every level that is kept.
pub proof fn law_cut_drops_the_worst(side: Seq<Level>, n: nat)
    requires
        sorted(side),
    ensures
        highest(side, n).len() == (if side.len() < n {
            side.len()
        } else {
            n
        }),
        lowest(side, n).len() == highest(side, n).len(),
        forall|i: int|
            0 <= i < highest(side, n).len() ==> #[trigger] highest(side, n)[i] == side[side.len()
                - highest(side, n).len() + i],
        forall|i: int|
            0 <= i < lowest(side, n).len() ==> #[trigger] lowest(side, n)[i] == side[i],
        forall|i: int, j: int|
            0 <= i < side.len() - highest(side, n).len() && 0 <= j < highest(side, n).len()
                ==> (#[trigger] side[i]).0.value() < (#[trigger] highest(side, n)[j]).0.value(),
        forall|i: int, j: int|
            lowest(side, n).len() <= i < side.len() && 0 <= j < lowest(side, n).len()
                ==> (#[trigger] lowest(side, n)[j]).0.value() < (#[trigger] side[i]).0.value(),
{
}

proof fn lemma_cut_highest(side: Seq<Level>, n: nat, price: int)
    requires
        sorted(side),
        live(side),
    ensures
        qty_at(highest(side, n), price) is Some ==> qty_at(highest(side, n), price) == qty_at(
            side,
            price,
        ),
        qty_at(side, price) is Some && qty_at(highest(side, n), price) is None ==> highest(
            side,
            n,
        ).len() == n && forall|i: int|
            0 <= i < highest(side, n).len() ==> price < (#[trigger] highest(
                side,
                n,
            )[i]).0.value(),
{
    let top = highest(side, n);
    law_cut_drops_the_worst(side, n);
    lemma_cut_keeps_order(side, n);
    let d = side.len() - top.len();
    if qty_at(top, price) is Some {
        let i = lemma_found_is_a_level(top, price);
        assert(top[i] == side[d + i]);
        lemma_level_is_found(side, d + i);
    } else if qty_at(side, price) is Some {
        let i = lemma_found_is_a_level(side, price);
        if i >= d {
            assert(top[i - d] == side[d + (i - d)]);
            lemma_level_is_found(top, i - d);
        }
    }
}

proof fn lemma_cut_lowest(side: Seq<Level>, n: nat, price: int)
    requires
        sorted(side),
        live(side),
    ensures
        qty_at(lowest(side, n), price) is Some ==> qty_at(lowest(side, n), price) == qty_at(
            side,
            price,
        ),
        qty_at(side, price) is Some && qty_at(lowest(side, n), price) is None ==> lowest(
            side,
            n,
        ).len() == n && forall|i: int|
            0 <= i < lowest(side, n).len() ==> (#[trigger] lowest(side, n)[i]).0.value() < price,
{
    let low = lowest(side, n);
    law_cut_drops_the_worst(side, n);
    lemma_cut_keeps_order(side, n);
    if qty_at(low, price) is Some {
        let i = lemma_found_is_a_level(low, price);
        assert(low[i] == side[i]);
        lemma_level_is_found(side, i);
    } else if qty_at(side, price) is Some {
        let i = lemma_found_is_a_level(side, price);
        if i < low.len() {
            assert(low[i] == side[i]);
            lemma_level_is_found(low, i);
        }
    }
}

/// The quantity at a price after a record, on a side that `b` was and that is
/// now `side`, as far as the depth of the book lets it stand: `wanted`, or no
/// level only where the side is full of better ones.
spec fn stands_or_is_outdone(
    side: Seq<Level>,
    price: int,
    wanted: Option<DecimalView>,
    depth: nat,
    bids: bool,
) -> bool {
    &&& wanted is None ==> qty_at(side, price) is None
    &&& qty_at(side, price) is Some ==> qty_at(side, price) == wanted
    &&& wanted is Some && qty_at(side, price) is None ==> side.len() == depth && forall|i: int|
        0 <= i < side.len() ==> if bids {
            price < (#[trigger] side[i]).0.value()
        } else {
            (#[trigger] side[i]).0.value() < price
        }
}

proof fn lemma_price_after_a_record(b: OrderBookView, r: BookView, price: int)
    requires
        b.wf(),
    ensures
        forall|k: int| #[trigger]
            names_last(r.bids, k, price) ==> stands_or_is_outdone(
                applied(b, r).bids,
                price,
                if r.bids[k].1.magnitude == 0 {
                    None
                } else {
                    Some(r.bids[k].1)
                },
                b.max_levels,
                true,
            ),
        names_nowhere(r.bids, price) ==> stands_or_is_outdone(
            applied(b, r).bids,
            price,
            if r.is_snapshot {
                None
            } else {
                qty_at(b.bids, price)
            },
            b.max_levels,
            true,
        ),
        forall|k: int| #[trigger]
            names_last(r.asks, k, price) ==> stands_or_is_outdone(
                applied(b, r).asks,
                price,
                if r.asks[k].1.magnitude == 0 {
                    None
                } else {
                    Some(r.asks[k].1)
                },
                b.max_levels,
                false,
            ),
        names_nowhere(r.asks, price) ==> stands_or_is_outdone(
            applied(b, r).asks,
            price,
            if r.is_snapshot {
                None
            } else {
                qty_at(b.asks, price)
            },
            b.max_levels,
            false,
        ),
{
    let bids = base(b.bids, r.is_snapshot);
    let asks = base(b.asks, r.is_snapshot);
    lemma_changes_keep_order(bids, r.bids);
    lemma_changes_keep_order(asks, r.asks);
    lemma_qty_after_changes(bids, r.bids, price);
    lemma_qty_after_changes(asks, r.asks, price);
    lemma_cut_highest(changed_by(bids, r.bids), b.max_levels, price);
    lemma_cut_lowest(changed_by(asks, r.asks), b.max_levels, price);
}

/// A price that a record names has, after it, the quantity that the last change
/// of that price gives, and no level where that is zero. It is missing otherwise
/// only if its side is full, and full of better prices.
pub proof fn law_named_price_has_its_quantity(b: OrderBookView, r: BookView, k: int)
    requires
        b.wf(),
    ensures
        ({
            let side = applied(b, r).bids;
            let price = r.bids[k].0.value();
            names_last(r.bids, k, price) ==> {
                &&& r.bids[k].1.magnitude == 0 ==> qty_at(side, price) is None
                &&& qty_at(side, price) is Some ==> qty_at(side, price) == Some(r.bids[k].1)
                &&& r.bids[k].1.magnitude != 0 && qty_at(side, price) is None ==> side.len()
                    == b.max_levels && forall|i: int|
                    0 <= i < side.len() ==> price < (#[trigger] side[i]).0.value()
            }
        }),
        ({
            let side = applied(b, r).asks;
            let price = r.asks[k].0.value();
            names_last(r.asks, k, price) ==> {
                &&& r.asks[k].1.magnitude == 0 ==> qty_at(side, price) is None
                &&& qty_at(side, price) is Some ==> qty_at(side, price) == Some(r.asks[k].1)
                &&& r.asks[k].1.magnitude != 0 && qty_at(side, price) is None ==> side.len()
                    == b.max_levels && forall|i: int|
                    0 <= i < side.len() ==> (#[trigger] side[i]).0.value() < price
            }
        }),
{
    lemma_price_after_a_record(b, r, r.bids[k].0.value());
    lemma_price_after_a_record(b, r, r.asks[k].0.value());
}

/// A price that a record does not name keeps its quantity, if the record is a
/// change, and has none after a snapshot. It is lost otherwise only if its side
/// is full, and full of better prices.
pub proof fn law_other_prices_stay(b: OrderBookView, r: BookView, price: int)
    requires
        b.wf(),
    ensures
        names_nowhere(r.bids, price) ==> {
            let side = applied(b, r).bids;
            &&& r.is_snapshot || qty_at(b.bids, price) is None ==> qty_at(side, price) is None
            &&& qty_at(side, price) is Some ==> qty_at(side, price) == qty_at(b.bids, price)
            &&& !r.is_snapshot && qty_at(b.bids, price) is Some && qty_at(side, price) is None
                ==> side.len() == b.max_levels && forall|i: int|
                0 <= i < side.len() ==> price < (#[trigger] side[i]).0.value()
        },
        names_nowhere(r.asks, price) ==> {
            let side = applied(b, r).asks;
            &&& r.is_snapshot || qty_at(b.asks, price) is None ==> qty_at(side, price) is None
            &&& qty_at(side, price) is Some ==> qty_at(side, price) == qty_at(b.asks, price)
            &&& !r.is_snapshot && qty_at(b.asks, price) is Some && qty_at(side, price) is None
                ==> side.len() == b.max_levels && forall|i: int|
                0 <= i < side.len() ==> (#[trigger] side[i]).0.value() < price
        },
{
    lemma_price_after_a_record(b, r, price);
}

/// The quantity at a price is that of the level with this price, and a price
/// without a level has none.
pub proof fn law_quantity_is_that_of_the_level(side: Seq<Level>, price: int, i: int)
    requires
        sorted(side),
    ensures
        0 <= i < side.len() && side[i].0.value() == price ==> qty_at(side, price) == Some(
            side[i].1,
        ),
        names_nowhere(side, price) ==> qty_at(side, price) is None,
{
    if 0 <= i < side.len() && side[i].0.value() == price {
        lemma_level_is_found(side, i);
    }
    if names_nowhere(side, price) && qty_at(side, price) is Some {
        let j = lemma_found_is_a_level(side, price);
        assert(side[j].0.value() != price);
    }
}

/// After a record the book is of the same market and of the same depth, and
/// bears the sequence number and the time of the record.
pub proof fn law_book_bears_the_record(b: OrderBookView, r: BookView)
    ensures
        applied(b, r).symbol == b.symbol,
        applied(b, r).max_levels == b.max_levels,
        applied(b, r).last_seq == r.seq,
        applied(b, r).last_ts == r.ts_ex,
{
}

/// A level that a record puts where there was none is written as the record
/// writes it; one that is there keeps the spelling of its price.
pub proof fn law_prices_keep_their_spelling(side: Seq<Level>, l: Level, i: int)
    requires
        sorted(side),
        live(side),
        l.1.magnitude != 0,
        0 <= i < changed(side, l).len(),
    ensures
        changed(side, l)[i].0.value() != l.0.value() ==> side.contains(changed(side, l)[i]),
        changed(side, l)[i].0.value() == l.0.value() && names_nowhere(side, l.0.value())
            ==> changed(side, l)[i] == l,
        forall|j: int|
            0 <= j < side.len() && (#[trigger] side[j]).0.value() == l.0.value() && changed(
                side,
                l,
            )[i].0.value() == l.0.value() ==> changed(side, l)[i] == (side[j].0, l.1),
{
    let at = lemma_spot(side, l.0.value());
    lemma_put(side, l, at);
    let new = changed(side, l);
    let there = at < side.len() && side[at].0.value() == l.0.value();
    if there {
        if i != at {
            assert(new[i] == side[i]);
            if i < at {
                assert(side[i].0.value() < side[at].0.value());
            } else {
                assert(side[at].0.value() < side[i].0.value());
            }
        }
        assert forall|j: int|
            0 <= j < side.len() && (#[trigger] side[j]).0.value() == l.0.value()
                && new[i].0.value() == l.0.value() implies new[i] == (side[j].0, l.1) by {
            if j < at {
                assert(side[j].0.value() < side[at].0.value());
            } else if at < j {
                assert(side[at].0.value() < side[j].0.value());
            }
        }
    } else {
        if i < at {
            assert(new[i] == side[i]);
        } else if i > at {
            assert(new[i] == side[i - 1]);
            if at < i - 1 {
                assert(side[at].0.value() < side[i - 1].0.value());
            }
        }
        assert forall|j: int| 0 <= j < side.len() implies (#[trigger] side[j]).0.value()
            != l.0.value() by {
            if j > at {
                assert(side[at].0.value() < side[j].0.value());
            }
        }
    }
}

/// The depth of a side is made of the quantities of exactly those levels that
/// are in reach of the best price, in order.
pub proof fn law_depth_counts_what_is_in_reach(b: OrderBookView, limit: DecimalView)
    ensures
        b.depth_bid(limit) == b.bids.filter(|l: Level| l.0.value() >= limit.value()).map_values(
            |l: Level| l.1,
        ),
        b.depth_ask(limit) == b.asks.filter(|l: Level| l.0.value() <= limit.value()).map_values(
            |l: Level| l.1,
        ),
{
    lemma_gather_is_map_of_filter(
        b.bids,
        |l: Level| at_most_one(not_below(l, limit)),
        |l: Level| l.0.value() >= limit.value(),
        |l: Level| l.1,
    );
    lemma_gather_is_map_of_filter(
        b.asks,
        |l: Level| at_most_one(not_above(l, limit)),
        |l: Level| l.0.value() <= limit.value(),
        |l: Level| l.1,
    );
}

/// The reach is counted down from the highest bid and up from the lowest ask.
pub proof fn law_reach_starts_at_the_best(b: OrderBookView, range: DecimalView)
    ensures
        b.bids.len() > 0 ==> b.bid_floor(range) == decimal_difference(b.bids.last().0, range),
        b.asks.len() > 0 ==> b.ask_ceiling(range) == decimal_sum(b.asks[0].0, range),
        b.bids.len() == 0 ==> b.bid_floor(range) is Some,
        b.asks.len() == 0 ==> b.ask_ceiling(range) is Some,
        b.wf() && b.best_bid() is Some ==> b.bids.contains(b.best_bid().unwrap()) && forall|i: int|
            0 <= i < b.bids.len() ==> (#[trigger] b.bids[i]).0.value()
                <= b.best_bid().unwrap().0.value(),
        b.wf() && b.best_ask() is Some ==> b.asks.contains(b.best_ask().unwrap()) && forall|i: int|
            0 <= i < b.asks.len() ==> b.best_ask().unwrap().0.value() <= (
            #[trigger] b.asks[i]).0.value(),
        b.best_bid() is None <==> b.bids.len() == 0,
        b.best_ask() is None <==> b.asks.len() == 0,
{
    if b.wf() && b.bids.len() > 0 {
        assert(b.bids[b.bids.len() - 1] == b.bids.last());
    }
    if b.wf() && b.asks.len() > 0 {
        assert(b.asks[0] == b.best_ask().unwrap());
    }
}

fn find(side: &Vec<[Decimal; 2]>, price: &Decimal) -> (r: usize)
    requires
        sorted(levels(side@)),
    ensures
        spot(levels(side@), price@.value(), r as int),
{
    let ghost all = levels(side@);
    let mut lo: usize = 0;
    let mut hi: usize = side.len();
    while lo < hi
        invariant
            all == levels(side@),
            sorted(all),
            lo <= hi <= side@.len(),
            forall|k: int| 0 <= k < lo ==> (#[trigger] all[k]).0.value() < price@.value(),
            forall|k: int| hi <= k < all.len() ==> (#[trigger] all[k]).0.value() >= price@.value(),
        decreases hi - lo,
    {
        let mid: usize = lo + (hi - lo) / 2;
        assert(all[mid as int].0 == side@[mid as int]@[0]@);
        if side[mid][0].less(price) {
            assert forall|k: int| 0 <= k <= mid implies (#[trigger] all[k]).0.value()
                < price@.value() by {
                if k < mid {
                    assert(all[k].0.value() < all[mid as int].0.value());
                }
            }
            lo = mid + 1;
        } else {
            assert forall|k: int| mid <= k < all.len() implies (#[trigger] all[k]).0.value()
                >= price@.value() by {
                if mid < k {
                    assert(all[mid as int].0.value() < all[k].0.value());
                }
            }
            hi = mid;
        }
    }
    lo
}

fn change(side: &mut Vec<[Decimal; 2]>, l: &[Decimal; 2])
    requires
        sorted(levels(old(side)@)),
        live(levels(old(side)@)),
    ensures
        levels(final(side)@) == changed(levels(old(side)@), (l@[0]@, l@[1]@)),
        sorted(levels(final(side)@)),
        live(levels(final(side)@)),
{
    let ghost before = levels(side@);
    let ghost level = (l@[0]@, l@[1]@);
    let price: Decimal = l[0];
    let qty: Decimal = l[1];
    let i: usize = find(side, &price);
    proof {
        lemma_put(before, level, i as int);
        law_change_keeps_order(before, level);
    }
    let mut there: bool = false;
    if i < side.len() {
        assert(before[i as int].0 == side@[i as int]@[0]@);
        there = side[i][0] == price;
    }
    if qty.is_zero() {
        if there {
            side.remove(i);
            assert(levels(side@) =~= before.remove(i as int));
        }
    } else if there {
        let key: Decimal = side[i][0];
        side.set(i, [key, qty]);
        assert(levels(side@) =~= before.update(i as int, (before[i as int].0, level.1)));
    } else {
        side.insert(i, [price, qty]);
        assert(levels(side@) =~= before.insert(i as int, level));
    }
}

fn change_all(side: &mut Vec<[Decimal; 2]>, list: &Vec<[Decimal; 2]>)
    requires
        sorted(levels(old(side)@)),
        live(levels(old(side)@)),
    ensures
        levels(final(side)@) == changed_by(levels(old(side)@), levels(list@)),
        sorted(levels(final(side)@)),
        live(levels(final(side)@)),
{
    let ghost all = levels(list@);
    assert(all.take(0) =~= Seq::empty());
    let mut i: usize = 0;
    while i < list.len()
        invariant
            all == levels(list@),
            i <= list@.len(),
            sorted(levels(side@)),
            live(levels(side@)),
            levels(side@) == changed_by(levels(old(side)@), all.take(i as int)),
        decreases list@.len() - i,
    {
        change(side, &list[i]);
        assert(all.take(i + 1).drop_last() =~= all.take(i as int));
        i = i + 1;
    }
    assert(all.take(all.len() as int) =~= all);
}

fn qtys_not_below(side: &Vec<[Decimal; 2]>, floor: &Decimal) -> (r: Vec<Decimal>)
    ensures
        views(r@) == gather(levels(side@), |l: Level| at_most_one(not_below(l, floor@))),
{
    let ghost all = levels(side@);
    let ghost f = |l: Level| at_most_one(not_below(l, floor@));
    let mut out: Vec<Decimal> = Vec::new();
    assert(views(out@) =~= Seq::empty());
    assert(all.take(0) =~= Seq::empty());
    let mut i: usize = 0;
    while i < side.len()
        invariant
            all == levels(side@),
            f == (|l: Level| at_most_one(not_below(l, floor@))),
            i <= side@.len(),
            views(out@) == gather(all.take(i as int), f),
        decreases side@.len() - i,
    {
        let ghost before = out@;
        proof {
            lemma_gather_step(all, f, i as int);
        }
        assert(all[i as int] == (side@[i as int]@[0]@, side@[i as int]@[1]@));
        if !side[i][0].less(floor) {
            out.push(side[i][1]);
        }
        assert(views(out@) =~= views(before) + f(all[i as int]));
        i = i + 1;
    }
    assert(all.take(all.len() as int) =~= all);
    out
}

fn qtys_not_above(side: &Vec<[Decimal; 2]>, ceiling: &Decimal) -> (r: Vec<Decimal>)
    ensures
        views(r@) == gather(levels(side@), |l: Level| at_most_one(not_above(l, ceiling@))),
{
    let ghost all = levels(side@);
    let ghost f = |l: Level| at_most_one(not_above(l, ceiling@));
    let mut out: Vec<Decimal> = Vec::new();
    assert(views(out@) =~= Seq::empty());
    assert(all.take(0) =~= Seq::empty());
    let mut i: usize = 0;
    while i < side.len()
        invariant
            all == levels(side@),
            f == (|l: Level| at_most_one(not_above(l, ceiling@))),
            i <= side@.len(),
            views(out@) == gather(all.take(i as int), f),
        decreases side@.len() - i,
    {
        let ghost before = out@;
        proof {
            lemma_gather_step(all, f, i as int);
        }
        assert(all[i as int] == (side@[i as int]@[0]@, side@[i as int]@[1]@));
        if !ceiling.less(&side[i][0]) {
            out.push(side[i][1]);
        }
        assert(views(out@) =~= views(before) + f(all[i as int]));
        i = i + 1;
    }
    assert(all.take(all.len() as int) =~= all);
    out
}

impl OrderBook {
    /// A book without levels.
    pub fn new(symbol: &str, max_levels: usize) -> (r: OrderBook)
        ensures
            r@ == empty_book(symbol@, max_levels as nat),
            r@.wf(),
    {
        let r: OrderBook = OrderBook {
            symbol: symbol.to_owned(),
            max_levels,
            bids: Vec::new(),
            asks: Vec::new(),
            last_seq: None,
            last_ts: 0,
        };
        assert(r@.bids =~= Seq::empty());
        assert(r@.asks =~= Seq::empty());
        r
    }

    /// Takes in a record: a snapshot starts the book anew, a change is laid
    /// over it.
    pub fn apply(&mut self, rec: &BookRecord)
        requires
            old(self)@.wf(),
        ensures
            final(self)@ == applied(old(self)@, rec@),
            final(self)@.wf(),
    {
        if rec.is_snapshot {
            self.bids.clear();
            self.asks.clear();
            assert(levels(self.bids@) =~= Seq::empty());
            assert(levels(self.asks@) =~= Seq::empty());
        }
        change_all(&mut self.bids, &rec.bids);
        change_all(&mut self.asks, &rec.asks);
        self.trim();
        self.last_seq = rec.seq;
        self.last_ts = rec.ts_ex;
        proof {
            law_record_keeps_the_book_in_order(old(self)@, rec@);
        }
    }

    /// Keeps the `max_levels` levels of each side that are nearest to the other
    /// side.
    fn trim(&mut self)
        ensures
            final(self)@ == (OrderBookView {
                bids: highest(old(self)@.bids, old(self)@.max_levels),
                asks: lowest(old(self)@.asks, old(self)@.max_levels),
                ..old(self)@
            }),
    {
        let n: usize = self.max_levels;
        if self.bids.len() > n {
            let d: usize = self.bids.len() - n;
            let top: Vec<[Decimal; 2]> = self.bids.split_off(d);
            self.bids = top;
        }
        self.asks.truncate(n);
        assert(self@.bids =~= highest(old(self)@.bids, n as nat));
        assert(self@.asks =~= lowest(old(self)@.asks, n as nat));
    }

    /// The highest bid and its quantity.
    pub fn best_bid(&self) -> (r: Option<(Decimal, Decimal)>)
        requires
            self@.wf(),
        ensures
            (match r {
                Some(l) => Some((l.0@, l.1@)),
                None => None,
            }) == self@.best_bid(),
            r is Some ==> forall|i: int|
                0 <= i < self@.bids.len() ==> (#[trigger] self@.bids[i]).0.value()
                    <= r.unwrap().0@.value(),
    {
        if self.bids.len() == 0 {
            None
        } else {
            let l: [Decimal; 2] = self.bids[self.bids.len() - 1];
            Some((l[0], l[1]))
        }
    }

    /// The lowest ask and its quantity.
    pub fn best_ask(&self) -> (r: Option<(Decimal, Decimal)>)
        requires
            self@.wf(),
        ensures
            (match r {
                Some(l) => Some((l.0@, l.1@)),
                None => None,
            }) == self@.best_ask(),
            r is Some ==> forall|i: int|
                0 <= i < self@.asks.len() ==> r.unwrap().0@.value() <= (
                #[trigger] self@.asks[i]).0.value(),
    {
        if self.asks.len() == 0 {
            None
        } else {
            let l: [Decimal; 2] = self.asks[0];
            Some((l[0], l[1]))
        }
    }

    /// The quantities of the bids not more than `range` below the best one, of
    /// which the depth is the sum; none if there are no bids.
    pub fn depth_bid(&self, range: &Decimal) -> (r: Vec<Decimal>)
        requires
            self@.wf(),
            self@.bid_floor(range@) is Some,
        ensures
            views(r@) == self@.depth_bid(self@.bid_floor(range@).unwrap()),
            self@.bids.len() > 0 && short(
                self@.bids.last().0,
                range@,
                self@.bids.last().0.value() - range@.value(),
            ) ==> views(r@) == self@.bids.filter(
                |l: Level| self@.bids.last().0.value() - l.0.value() <= range@.value(),
            ).map_values(|l: Level| l.1),
    {
        match self.best_bid() {
            Some((best, _)) => {
                let floor: Decimal = best.minus(range).unwrap();
                let r: Vec<Decimal> = qtys_not_below(&self.bids, &floor);
                proof {
                    if floor@.value() == best@.value() - range@.value() {
                        lemma_gather_is_map_of_filter(
                            self@.bids,
                            |l: Level| at_most_one(not_below(l, floor@)),
                            |l: Level| self@.bids.last().0.value() - l.0.value() <= range@.value(),
                            |l: Level| l.1,
                        );
                    }
                }
                r
            },
            None => {
                let r: Vec<Decimal> = Vec::new();
                assert(views(r@) =~= Seq::empty());
                r
            },
        }
    }

    /// As [`OrderBook::depth_bid`]; `None` where the lowest price that counts
    /// does not fit in a decimal.
    pub fn checked_depth_bid(&self, range: &Decimal) -> (r: Option<Vec<Decimal>>)
        requires
            self@.wf(),
        ensures
            (match r {
                Some(v) => Some(views(v@)),
                None => None,
            }) == (match self@.bid_floor(range@) {
                Some(floor) => Some(self@.depth_bid(floor)),
                None => None,
            }),
    {
        match self.best_bid() {
            Some((best, _)) => match best.minus(range) {
                Some(_) => Some(self.depth_bid(range)),
                None => None,
            },
            None => Some(self.depth_bid(range)),
        }
    }

    /// The quantities of the asks not more than `range` above the best one, of
    /// which the depth is the sum; none if there are no asks.
    pub fn depth_ask(&self, range: &Decimal) -> (r: Vec<Decimal>)
        requires
            self@.wf(),
            self@.ask_ceiling(range@) is Some,
        ensures
            views(r@) == self@.depth_ask(self@.ask_ceiling(range@).unwrap()),
            self@.asks.len() > 0 && short(
                self@.asks[0].0,
                range@,
                self@.asks[0].0.value() + range@.value(),
            ) ==> views(r@) == self@.asks.filter(
                |l: Level| l.0.value() - self@.asks[0].0.value() <= range@.value(),
            ).map_values(|l: Level| l.1),
    {
        match self.best_ask() {
            Some((best, _)) => {
                let ceiling: Decimal = best.plus(range).unwrap();
                let r: Vec<Decimal> = qtys_not_above(&self.asks, &ceiling);
                proof {
                    if ceiling@.value() == best@.value() + range@.value() {
                        lemma_gather_is_map_of_filter(
                            self@.asks,
                            |l: Level| at_most_one(not_above(l, ceiling@)),
                            |l: Level| l.0.value() - self@.asks[0].0.value() <= range@.value(),
                            |l: Level| l.1,
                        );
                    }
                }
                r
            },
            None => {
                let r: Vec<Decimal> = Vec::new();
                assert(views(r@) =~= Seq::empty());
                r
            },
        }
    }

    /// As [`OrderBook::depth_ask`]; `None` where the highest price that counts
    /// does not fit in a decimal.
    pub fn checked_depth_ask(&self, range: &Decimal) -> (r: Option<Vec<Decimal>>)
        requires
            self@.wf(),
        ensures
            (match r {
                Some(v) => Some(views(v@)),
                None => None,
            }) == (match self@.ask_ceiling(range@) {
                Some(ceiling) => Some(self@.depth_ask(ceiling)),
                None => None,
            }),
    {
        match self.best_ask() {
            Some((best, _)) => match best.plus(range) {
                Some(_) => Some(self.depth_ask(range)),
                None => None,
            },
            None => Some(self.depth_ask(range)),
        }
    }

    /// How many levels the sides have.
    pub fn level_count(&self) -> (r: (usize, usize))
        ensures
            r.0 == self@.bids.len(),
            r.1 == self@.asks.len(),
    {
        (self.bids.len(), self.asks.len())
    }

    /// Whether both sides have levels.
    pub fn is_ready(&self) -> (r: bool)
        ensures
            r == (self@.bids.len() > 0 && self@.asks.len() > 0),
    {
        self.bids.len() > 0 && self.asks.len() > 0
    }

    /// The bids and the asks, each from the best price on.
    pub fn to_ladders(&self) -> (r: (Vec<[Decimal; 2]>, Vec<[Decimal; 2]>))
        ensures
            levels(r.0@) == self@.bids.reverse(),
            levels(r.1@) == self@.asks,
    {
        let mut bids: Vec<[Decimal; 2]> = Vec::new();
        let mut i: usize = self.bids.len();
        assert(levels(bids@) =~= self@.bids.skip(i as int).reverse());
        while i > 0
            invariant
                i <= self.bids@.len(),
                levels(bids@) == self@.bids.skip(i as int).reverse(),
            decreases i,
        {
            let ghost before = bids@;
            i = i - 1;
            bids.push(self.bids[i]);
            assert(levels(bids@) =~= levels(before).push(self@.bids[i as int]));
            assert(self@.bids.skip(i as int).reverse() =~= self@.bids.skip(i + 1).reverse().push(
                self@.bids[i as int],
            ));
        }
        assert(self@.bids.skip(0) =~= self@.bids);
        let mut asks: Vec<[Decimal; 2]> = Vec::new();
        let mut j: usize = 0;
        assert(levels(asks@) =~= self@.asks.take(0));
        while j < self.asks.len()
            invariant
                j <= self.asks@.len(),
                levels(asks@) == self@.asks.take(j as int),
            decreases self.asks@.len() - j,
        {
            let ghost before = asks@;
            asks.push(self.asks[j]);
            assert(levels(asks@) =~= levels(before).push(self@.asks[j as int]));
            assert(self@.asks.take(j + 1) =~= self@.asks.take(j as int).push(self@.asks[j as int]));
            j = j + 1;
        }
        assert(self@.asks.take(self@.asks.len() as int) =~= self@.asks);
        (bids, asks)
    }
}

} // verus!
