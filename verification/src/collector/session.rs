//! One connection to an exchange, and how often to connect again.
//!
//! A session takes in what happens on the connection and says what to do about
//! it. It opens in a fixed order: all frames that subscribe, then the whole books
//! that have to be fetched, then what the stream brings. Whatever comes between
//! the subscription and the whole books waits on the connection, so that there is
//! no gap between a book and its changes.
//!
//! The session counts the frames, watches for silence, and keeps an order book of
//! each symbol, so that whole books can be written at intervals: whoever rebuilds
//! a book later starts from the last whole one.

use vstd::arithmetic::power2::{lemma2_to64, lemma_pow2_unfold, pow2};
use vstd::prelude::*;
use vstd::string::*;

use super::config::{words, Config};
use super::exchanges::{records, texts, ExchangeSpec, ParsedRecord, RecordView};
use super::sink::{
    bbo_row, book_row, trade_row, BboRow, BookRow, MsgView, TradeRow, WriteMsg,
};
use crate::features::book::{
    applied, empty_book, law_ladders_rebuild_the_book, law_record_keeps_the_book_in_order,
    OrderBook, OrderBookView,
};
use crate::numbers::{int_text, push_int};
use crate::seqs::{
    at_most_one, gather, lemma_gather_append, lemma_gather_one, lemma_gather_step, view_of, views,
};
use crate::text::{lowercase, same};
use crate::types::{BookRecord, BookView, Exchange};

verus! {

/// How often whole books are written, in seconds.
pub const BOOK_REPLAY_S: u64 = 300;

/// How many levels of each side are kept.
pub const BOOK_DEPTH: usize = 50;

/// How long a session must last to count as healthy, in seconds.
pub const HEALTHY_S: u64 = 60;

/// A second in nanoseconds.
pub const SECOND_NS: u64 = 1_000_000_000;

// ── Reconnecting ────────────────────────────────────────────────────────────

/// How long to wait before connecting again. The wait doubles from one failure
/// to the next, and starts anew after a healthy session.
#[derive(Debug, Clone, Copy)]
pub struct Backoff {
    /// The first wait, in seconds.
    pub init: u64,
    /// The longest of the waits that follow.
    pub max: u64,
    /// The next wait.
    pub next: u64,
}

/// Twice the wait, but not more than `max`.
pub open spec fn doubled(wait: u64, max: u64) -> u64 {
    if wait + wait < max {
        (wait + wait) as u64
    } else {
        max
    }
}

/// The wait after `n` failures that followed one another.
pub open spec fn nth_wait(init: u64, max: u64, n: nat) -> u64
    decreases n,
{
    if n == 0 {
        init
    } else {
        doubled(nth_wait(init, max, (n - 1) as nat), max)
    }
}

/// The waits after failures that follow one another grow as powers of two up to
/// the longest.
pub proof fn law_waits_double(init: u64, max: u64, n: nat)
    requires
        n > 0,
    ensures
        nth_wait(init, max, n) == (if init * pow2(n) < max {
            init * pow2(n)
        } else {
            max as int
        }),
    decreases n,
{
    reveal_with_fuel(nth_wait, 2);
    lemma_pow2_unfold(n);
    let half = pow2((n - 1) as nat) as int;
    let i = init as int;
    assert(i * (2 * half) == 2 * (i * half)) by (nonlinear_arith);
    if n == 1 {
        lemma2_to64();
    } else {
        law_waits_double(init, max, (n - 1) as nat);
        assert(i * half >= 0) by (nonlinear_arith)
            requires
                i >= 0,
                half >= 0,
        ;
    }
}

impl Backoff {
    /// The seconds to wait after a session that lasted `lasted_ns` nanoseconds,
    /// and the waits from then on.
    pub open spec fn after_session(self, lasted_ns: u128) -> (u64, Backoff) {
        let wait = if lasted_ns >= HEALTHY_S * SECOND_NS {
            self.init
        } else {
            self.next
        };
        (wait, Backoff { next: doubled(wait, self.max), ..self })
    }

    /// Before the first session.
    pub fn new(init: u64, max: u64) -> (r: Backoff)
        ensures
            r == (Backoff { init, max, next: nth_wait(init, max, 0) }),
    {
        Backoff { init, max, next: init }
    }

    /// The seconds to wait after a session that lasted `lasted_ns` nanoseconds.
    pub fn after(&mut self, lasted_ns: u128) -> (wait: u64)
        ensures
            wait == (if lasted_ns >= HEALTHY_S * SECOND_NS {
                old(self).init
            } else {
                old(self).next
            }),
            *final(self) == (Backoff { next: doubled(wait, old(self).max), ..*old(self) }),
            (wait, *final(self)) == old(self).after_session(lasted_ns),
    {
        if lasted_ns >= HEALTHY_S as u128 * SECOND_NS as u128 {
            self.next = self.init;
        }
        let wait: u64 = self.next;
        self.next = if wait < self.max && wait < self.max - wait {
            wait + wait
        } else {
            self.max
        };
        wait
    }
}

/// The waits after sessions that lasted so long.
pub open spec fn waits(b: Backoff, lasted: Seq<u128>) -> (Seq<u64>, Backoff)
    decreases lasted.len(),
{
    if lasted.len() == 0 {
        (Seq::empty(), b)
    } else {
        let (before, at) = waits(b, lasted.drop_last());
        let (wait, after) = at.after_session(lasted.last());
        (before.push(wait), after)
    }
}

/// A session of a minute or more is followed by the first wait. The sessions
/// after it that last less are followed by waits that double, each time, up to
/// the longest; so are those after the start.
pub proof fn law_waits_start_anew_after_a_minute(
    b: Backoff,
    long: u128,
    short: Seq<u128>,
    i: int,
)
    requires
        long >= 60_000_000_000,
        forall|k: int| 0 <= k < short.len() ==> #[trigger] short[k] < 60_000_000_000,
        0 < i <= short.len(),
    ensures
        ({
            let all = waits(b, seq![long] + short).0;
            let fresh = waits(Backoff { next: b.init, ..b }, short).0;
            let grown = b.init * pow2(i as nat);
            &&& all.len() == short.len() + 1
            &&& all[0] == b.init
            &&& all[i] == (if grown < b.max {
                grown
            } else {
                b.max as int
            })
            &&& fresh.len() == short.len()
            &&& fresh[0] == b.init
            &&& i < short.len() ==> fresh[i] == all[i]
        }),
{
    lemma_waits(b, long, short);
    lemma_fresh_waits(b, short);
    law_waits_double(b.init, b.max, i as nat);
}

proof fn lemma_waits(b: Backoff, long: u128, short: Seq<u128>)
    requires
        long >= 60_000_000_000,
        forall|k: int| 0 <= k < short.len() ==> #[trigger] short[k] < 60_000_000_000,
    ensures
        ({
            let (all, at) = waits(b, seq![long] + short);
            &&& all.len() == short.len() + 1
            &&& forall|k: int|
                0 <= k < all.len() ==> #[trigger] all[k] == nth_wait(b.init, b.max, k as nat)
            &&& at == (Backoff { next: nth_wait(b.init, b.max, all.len()), ..b })
        }),
    decreases short.len(),
{
    let lasted = seq![long] + short;
    if short.len() == 0 {
        assert(lasted.drop_last() =~= Seq::empty());
        reveal_with_fuel(nth_wait, 2);
        reveal_with_fuel(waits, 2);
    } else {
        assert(lasted.drop_last() =~= seq![long] + short.drop_last());
        assert(lasted.last() == short.last());
        assert forall|k: int| 0 <= k < short.len() - 1 implies #[trigger] short.drop_last()[k]
            < 60_000_000_000 by {
            assert(short.drop_last()[k] == short[k]);
        }
        lemma_waits(b, long, short.drop_last());
        reveal_with_fuel(nth_wait, 2);
    }
}

proof fn lemma_fresh_waits(b: Backoff, short: Seq<u128>)
    requires
        forall|k: int| 0 <= k < short.len() ==> #[trigger] short[k] < 60_000_000_000,
    ensures
        ({
            let (all, at) = waits(Backoff { next: b.init, ..b }, short);
            &&& all.len() == short.len()
            &&& forall|k: int|
                0 <= k < all.len() ==> #[trigger] all[k] == nth_wait(b.init, b.max, k as nat)
            &&& at == (Backoff { next: nth_wait(b.init, b.max, all.len()), ..b })
        }),
    decreases short.len(),
{
    if short.len() == 0 {
        reveal_with_fuel(nth_wait, 2);
    } else {
        assert forall|k: int| 0 <= k < short.len() - 1 implies #[trigger] short.drop_last()[k]
            < 60_000_000_000 by {
            assert(short.drop_last()[k] == short[k]);
        }
        lemma_fresh_waits(b, short.drop_last());
        reveal_with_fuel(nth_wait, 2);
    }
}

// ── Silence ─────────────────────────────────────────────────────────────────

/// Counts frames and seconds, and watches for silence.
#[derive(Debug, Clone, Copy)]
pub struct Watch {
    /// When the last frame came, in nanoseconds.
    pub last_ns: u128,
    /// How many text frames came.
    pub msgs: u64,
    /// How many seconds passed.
    pub secs: u64,
    /// After how many seconds without a frame the connection is given up.
    pub stale_s: u64,
}

/// What a second brings.
#[derive(Debug, Clone, Copy, PartialEq, Eq, Structural)]
pub enum Tick {
    /// Nothing to do.
    Quiet,
    /// A minute is full: time to say how many frames came.
    Report,
    /// No frame came for so many seconds.
    Stale(u128),
}

impl Watch {
    /// The time since the last frame.
    pub open spec fn idle(self, now_ns: u128) -> int {
        if now_ns > self.last_ns {
            now_ns - self.last_ns
        } else {
            0
        }
    }

    /// What the second that ends at `now_ns` brings.
    pub open spec fn at_second(self, now_ns: u128) -> (Watch, Tick) {
        if self.idle(now_ns) > self.stale_s * SECOND_NS {
            (self, Tick::Stale((self.idle(now_ns) / SECOND_NS as int) as u128))
        } else {
            (
                Watch { secs: (self.secs + 1) as u64, ..self },
                if (self.secs + 1) % 60 == 0 {
                    Tick::Report
                } else {
                    Tick::Quiet
                },
            )
        }
    }

    /// Starts at `now_ns`. Silence is never shorter than a second.
    pub fn new(stale_s: u64, now_ns: u128) -> (r: Watch)
        ensures
            r == (Watch {
                last_ns: now_ns,
                msgs: 0,
                secs: 0,
                stale_s: if stale_s < 1 {
                    1
                } else {
                    stale_s
                },
            }),
    {
        Watch {
            last_ns: now_ns,
            msgs: 0,
            secs: 0,
            stale_s: if stale_s < 1 {
                1
            } else {
                stale_s
            },
        }
    }

    /// A frame came.
    pub fn touch(&mut self, now_ns: u128)
        ensures
            *final(self) == (Watch { last_ns: now_ns, ..*old(self) }),
    {
        self.last_ns = now_ns;
    }

    /// A text frame is counted.
    pub fn count(&mut self)
        requires
            old(self).msgs < u64::MAX,
        ensures
            *final(self) == (Watch { msgs: (old(self).msgs + 1) as u64, ..*old(self) }),
    {
        self.msgs = self.msgs + 1;
    }

    /// A second passed.
    pub fn second(&mut self, now_ns: u128) -> (r: Tick)
        requires
            old(self).secs < u64::MAX,
        ensures
            (*final(self), r) == old(self).at_second(now_ns),
    {
        let idle: u128 = if now_ns > self.last_ns {
            now_ns - self.last_ns
        } else {
            0
        };
        let limit: u128 = self.stale_s as u128 * 1_000_000_000u128;
        if idle > limit {
            return Tick::Stale(idle / SECOND_NS as u128);
        }
        self.secs = self.secs + 1;
        if self.secs % 60 == 0 {
            Tick::Report
        } else {
            Tick::Quiet
        }
    }
}

/// A connection is given up at a second exactly if no frame came for longer
/// than `stale_s` seconds.
pub proof fn law_only_silence_is_stale(w: Watch, now_ns: u128)
    ensures
        (w.at_second(now_ns).1 is Stale) == (now_ns - w.last_ns > w.stale_s * SECOND_NS),
{
}

/// A second is counted unless the connection is given up, and nothing else
/// changes. Every sixtieth brings a report. Where the connection is given up,
/// the silence is told in whole seconds.
pub proof fn law_seconds_are_counted(w: Watch, now_ns: u128)
    requires
        w.secs < u64::MAX,
    ensures
        ({
            let (after, tick) = w.at_second(now_ns);
            let silence = now_ns - w.last_ns;
            &&& silence > w.stale_s * 1_000_000_000 ==> after == w && (tick matches Tick::Stale(n)
                && n * 1_000_000_000 <= silence < (n + 1) * 1_000_000_000)
            &&& silence <= w.stale_s * 1_000_000_000 ==> {
                &&& after.secs == w.secs + 1
                &&& after.last_ns == w.last_ns
                &&& after.msgs == w.msgs
                &&& after.stale_s == w.stale_s
                &&& tick == (if after.secs % 60 == 0 {
                    Tick::Report
                } else {
                    Tick::Quiet
                })
            }
        }),
{
}

/// Why a session ended that heard nothing.
pub open spec fn stale_reason(secs: u128) -> Seq<char> {
    "stale: no frame for "@ + int_text(secs as int) + "s"@
}

/// Why a session ended that heard nothing for `secs` seconds.
pub fn stale_text(secs: u128) -> (r: String)
    requires
        secs <= i128::MAX,
    ensures
        r@ == stale_reason(secs),
{
    let mut text: String = "stale: no frame for ".to_owned();
    push_int(&mut text, secs as i128);
    text.append("s");
    text
}

// ── Books ───────────────────────────────────────────────────────────────────

/// The books of a session, each with the exchange that it is of, in the order in
/// which their symbols first came.
#[derive(Debug)]
pub struct Books {
    pub list: Vec<(Exchange, OrderBook)>,
}

/// What [`Books`] hold.
pub type BooksView = Seq<(Exchange, OrderBookView)>;

impl View for Books {
    type V = BooksView;

    open spec fn view(&self) -> BooksView {
        self.list@.map_values(|b: (Exchange, OrderBook)| (b.0, b.1@))
    }
}

/// Every book is in order and has the usual depth, and no symbol has two books.
pub open spec fn books_wf(books: BooksView) -> bool {
    &&& forall|i: int|
        0 <= i < books.len() ==> (#[trigger] books[i]).1.wf() && books[i].1.max_levels == BOOK_DEPTH
    &&& forall|i: int, j: int|
        0 <= i < j < books.len() ==> (#[trigger] books[i]).1.symbol != (
        #[trigger] books[j]).1.symbol
}

/// Where the book of `symbol` stands; behind all others if there is none.
pub open spec fn place(books: BooksView, symbol: Seq<char>) -> nat
    decreases books.len(),
{
    if books.len() == 0 || books[0].1.symbol == symbol {
        0
    } else {
        1 + place(books.drop_first(), symbol)
    }
}

/// The books after a record: it is laid over the book of its symbol, or over an
/// empty one where the symbol is new.
pub open spec fn laid_over(books: BooksView, r: BookView) -> BooksView {
    let i = place(books, r.symbol) as int;
    if i < books.len() {
        books.update(i, (books[i].0, applied(books[i].1, r)))
    } else {
        books.push((r.exchange, applied(empty_book(r.symbol, BOOK_DEPTH as nat), r)))
    }
}

proof fn lemma_place(books: BooksView, symbol: Seq<char>, n: int)
    requires
        0 <= n <= books.len(),
        forall|i: int| 0 <= i < n ==> (#[trigger] books[i]).1.symbol != symbol,
        n < books.len() ==> books[n].1.symbol == symbol,
    ensures
        place(books, symbol) == n,
    decreases n,
{
    if n > 0 {
        let rest = books.drop_first();
        assert forall|i: int| 0 <= i < n - 1 implies (#[trigger] rest[i]).1.symbol != symbol by {
            assert(rest[i] == books[i + 1]);
        }
        assert(books[0].1.symbol != symbol);
        lemma_place(rest, symbol, n - 1);
    }
}

proof fn lemma_place_is_first(books: BooksView, symbol: Seq<char>)
    ensures
        place(books, symbol) <= books.len(),
        forall|i: int|
            0 <= i < place(books, symbol) ==> (#[trigger] books[i]).1.symbol != symbol,
        place(books, symbol) < books.len() ==> books[place(books, symbol) as int].1.symbol
            == symbol,
    decreases books.len(),
{
    if books.len() > 0 && books[0].1.symbol != symbol {
        let rest = books.drop_first();
        lemma_place_is_first(rest, symbol);
        assert forall|i: int| 0 <= i < place(books, symbol) implies (
        #[trigger] books[i]).1.symbol != symbol by {
            if i > 0 {
                assert(books[i] == rest[i - 1]);
            }
        }
    }
}

/// A record keeps the books in order, and gives no symbol a second book.
pub proof fn law_tracking_keeps_books_in_order(books: BooksView, r: BookView)
    requires
        books_wf(books),
    ensures
        books_wf(laid_over(books, r)),
{
    lemma_place_is_first(books, r.symbol);
    let at = place(books, r.symbol) as int;
    let new = laid_over(books, r);
    if at < books.len() {
        law_record_keeps_the_book_in_order(books[at].1, r);
    } else {
        let fresh = empty_book(r.symbol, BOOK_DEPTH as nat);
        law_record_keeps_the_book_in_order(fresh, r);
    }
    assert forall|i: int| 0 <= i < new.len() implies (#[trigger] new[i]).1.wf()
        && new[i].1.max_levels == BOOK_DEPTH by {
        if i != at {
            assert(new[i] == books[i]);
        }
    }
    assert forall|i: int, j: int| 0 <= i < j < new.len() implies (#[trigger] new[i]).1.symbol != (
    #[trigger] new[j]).1.symbol by {
        if i != at {
            assert(new[i] == books[i]);
        } else {
            assert(new[i].1.symbol == r.symbol);
        }
        if j != at {
            assert(new[j] == books[j]);
        } else {
            assert(new[j].1.symbol == r.symbol);
        }
        if at < books.len() {
            assert(books[i].1.symbol != books[j].1.symbol);
        }
    }
}

/// A record changes the book of its symbol and no other. A symbol that is new
/// gets a book behind the others, of fifty levels a side and of the exchange of
/// the record, that holds what the record says and nothing else.
pub proof fn law_record_changes_the_book_of_its_symbol(books: BooksView, r: BookView, i: int)
    requires
        books_wf(books),
        0 <= i < books.len(),
    ensures
        ({
            let after = laid_over(books, r);
            &&& books[i].1.symbol != r.symbol ==> after[i] == books[i]
            &&& books[i].1.symbol == r.symbol ==> after[i].0 == books[i].0 && after[i].1 == applied(
                books[i].1,
                r,
            ) && after.len() == books.len()
        }),
{
    lemma_place_is_first(books, r.symbol);
}

/// See [`law_record_changes_the_book_of_its_symbol`]: this is the part on a
/// symbol that is new.
pub proof fn law_new_symbol_gets_a_book(books: BooksView, r: BookView, blank: OrderBookView)
    requires
        forall|i: int| 0 <= i < books.len() ==> (#[trigger] books[i]).1.symbol != r.symbol,
        blank.symbol == r.symbol,
        blank.max_levels == 50,
        blank.bids.len() == 0,
        blank.asks.len() == 0,
        blank.last_seq is None,
        blank.last_ts == 0,
    ensures
        ({
            let after = laid_over(books, r);
            &&& after.len() == books.len() + 1
            &&& forall|i: int| 0 <= i < books.len() ==> #[trigger] after[i] == books[i]
            &&& after.last().0 == r.exchange
            &&& after.last().1 == applied(blank, r)
        }),
{
    lemma_place(books, r.symbol, books.len() as int);
    assert(blank.bids =~= Seq::empty());
    assert(blank.asks =~= Seq::empty());
}

/// The whole of a book as a record of the time `now_ms`, if both its sides have
/// levels. It bears the sequence number of the last record that the book took
/// in, from which changes can be laid over it.
pub open spec fn whole_book(b: (Exchange, OrderBookView), now_ms: i64) -> Option<BookView> {
    if b.1.bids.len() > 0 && b.1.asks.len() > 0 {
        Some(
            BookView {
                exchange: b.0,
                symbol: b.1.symbol,
                ts_ex: now_ms,
                recv_ms: now_ms,
                bids: b.1.bids.reverse(),
                asks: b.1.asks,
                is_snapshot: true,
                seq: b.1.last_seq,
                first_seq: b.1.last_seq,
            },
        )
    } else {
        None
    }
}

/// A book that was written whole is rebuilt from what was written: laid over
/// any book, the record gives the same levels and the same sequence number.
pub proof fn law_whole_book_rebuilds(
    b: (Exchange, OrderBookView),
    other: OrderBookView,
    now_ms: i64,
)
    requires
        b.1.wf(),
        other.max_levels == b.1.max_levels,
        whole_book(b, now_ms) is Some,
    ensures
        ({
            let rebuilt = applied(other, whole_book(b, now_ms).unwrap());
            &&& rebuilt.bids == b.1.bids
            &&& rebuilt.asks == b.1.asks
            &&& rebuilt.last_seq == b.1.last_seq
        }),
{
    law_ladders_rebuild_the_book(b.1, other, whole_book(b, now_ms).unwrap());
}

/// The messages that write the whole books.
pub open spec fn whole_books(books: BooksView, now_ms: i64) -> Seq<MsgView> {
    gather(books, |b: (Exchange, OrderBookView)| at_most_one(whole_msg(b, now_ms)))
}

/// The message that writes a whole book.
pub open spec fn whole_msg(b: (Exchange, OrderBookView), now_ms: i64) -> Option<MsgView> {
    match whole_book(b, now_ms) {
        Some(r) => Some(MsgView::Book(book_row(r))),
        None => None,
    }
}

/// A book is written whole exactly if both its sides have levels. What is
/// written is the row of a record of this moment with the levels of the book,
/// the best first, and with its sequence number.
pub proof fn law_whole_book_is_what_the_book_holds(
    b: (Exchange, OrderBookView),
    now_ms: i64,
    r: BookView,
)
    requires
        r.exchange == b.0,
        r.symbol == b.1.symbol,
        r.ts_ex == now_ms,
        r.recv_ms == now_ms,
        r.is_snapshot,
        r.seq == b.1.last_seq,
        r.first_seq == b.1.last_seq,
        r.asks == b.1.asks,
        r.bids.len() == b.1.bids.len(),
        forall|i: int|
            0 <= i < r.bids.len() ==> #[trigger] r.bids[i] == b.1.bids[b.1.bids.len() - 1 - i],
    ensures
        b.1.bids.len() > 0 && b.1.asks.len() > 0 ==> whole_books(seq![b], now_ms) == seq![
            MsgView::Book(book_row(r)),
        ],
        b.1.bids.len() == 0 || b.1.asks.len() == 0 ==> whole_books(seq![b], now_ms).len() == 0,
{
    lemma_gather_one(b, |b: (Exchange, OrderBookView)| at_most_one(whole_msg(b, now_ms)));
    assert(r.bids =~= b.1.bids.reverse());
}

/// The books are written one by one, in order.
pub proof fn law_whole_books_are_written_one_by_one(a: BooksView, b: BooksView, now_ms: i64)
    ensures
        whole_books(a + b, now_ms) == whole_books(a, now_ms) + whole_books(b, now_ms),
{
    lemma_gather_append(
        a,
        b,
        |b: (Exchange, OrderBookView)| at_most_one(whole_msg(b, now_ms)),
    );
}

impl Books {
    /// No books.
    pub fn new() -> (r: Books)
        ensures
            r@ == Seq::<(Exchange, OrderBookView)>::empty(),
            books_wf(r@),
    {
        let r: Books = Books { list: Vec::new() };
        assert(r@ =~= Seq::empty());
        r
    }

    /// Takes in a book record.
    pub fn track_book(&mut self, rec: &BookRecord)
        requires
            books_wf(old(self)@),
        ensures
            final(self)@ == laid_over(old(self)@, rec@),
            books_wf(final(self)@),
    {
        let ghost before = self@;
        proof {
            law_tracking_keeps_books_in_order(before, rec@);
        }
        let mut i: usize = 0;
        while i < self.list.len() && !same(self.list[i].1.symbol.as_str(), rec.symbol.as_str())
            invariant
                self@ == before,
                i <= self.list@.len(),
                forall|k: int| 0 <= k < i ==> (#[trigger] before[k]).1.symbol != rec.symbol@,
            decreases self.list@.len() - i,
        {
            assert(before[i as int].1.symbol == self.list@[i as int].1.symbol@);
            i = i + 1;
        }
        if i < self.list.len() {
            assert(before[i as int].1 == self.list@[i as int].1@);
        }
        proof {
            lemma_place(before, rec.symbol@, i as int);
        }
        if i < self.list.len() {
            self.list[i].1.apply(rec);
            assert(self@ =~= laid_over(before, rec@));
        } else {
            let mut book: OrderBook = OrderBook::new(rec.symbol.as_str(), BOOK_DEPTH);
            book.apply(rec);
            self.list.push((rec.exchange, book));
            assert(self@ =~= laid_over(before, rec@));
        }
    }

    /// The messages that write every book with levels on both sides whole.
    pub fn replay_books(&self, now_ms: i64) -> (r: Vec<WriteMsg>)
        ensures
            views(r@) == whole_books(self@, now_ms),
    {
        let ghost all = self@;
        let ghost f = |b: (Exchange, OrderBookView)| at_most_one(whole_msg(b, now_ms));
        let mut out: Vec<WriteMsg> = Vec::new();
        assert(views(out@) =~= Seq::empty());
        assert(all.take(0) =~= Seq::empty());
        let mut i: usize = 0;
        while i < self.list.len()
            invariant
                all == self@,
                f == (|b: (Exchange, OrderBookView)| at_most_one(whole_msg(b, now_ms))),
                i <= self.list@.len(),
                views(out@) == gather(all.take(i as int), f),
            decreases self.list@.len() - i,
        {
            let ghost before = out@;
            proof {
                lemma_gather_step(all, f, i as int);
            }
            let exchange: Exchange = self.list[i].0;
            let book: &OrderBook = &self.list[i].1;
            assert(all[i as int] == (exchange, book@));
            if book.is_ready() {
                let (bids, asks) = book.to_ladders();
                let rec: BookRecord = BookRecord {
                    exchange,
                    symbol: book.symbol.clone(),
                    ts_ex: now_ms,
                    recv_ms: now_ms,
                    bids,
                    asks,
                    is_snapshot: true,
                    seq: book.last_seq,
                    first_seq: book.last_seq,
                };
                assert(whole_book(all[i as int], now_ms) == Some(rec@));
                out.push(WriteMsg::Book(BookRow::from(&rec)));
            }
            assert(views(out@) =~= views(before) + f(all[i as int]));
            i = i + 1;
        }
        assert(all.take(all.len() as int) =~= all);
        out
    }
}

// ── Records ─────────────────────────────────────────────────────────────────

/// The message that writes a record.
pub open spec fn msg_of(r: RecordView) -> MsgView {
    match r {
        RecordView::Bbo(b) => MsgView::Bbo(bbo_row(b)),
        RecordView::Trade(t) => MsgView::Trade(trade_row(t)),
        RecordView::Book(b) => MsgView::Book(book_row(b)),
    }
}

/// The message that writes a record of one of the symbols `targets`.
pub open spec fn wanted_msg(r: RecordView, targets: Seq<Seq<char>>) -> Option<MsgView> {
    if targets.contains(lowercase(r.symbol())) {
        Some(msg_of(r))
    } else {
        None
    }
}

/// The messages that write the records of the symbols `targets`, in order.
pub open spec fn msgs_of(recs: Seq<RecordView>, targets: Seq<Seq<char>>) -> Seq<MsgView> {
    gather(recs, |r: RecordView| at_most_one(wanted_msg(r, targets)))
}

/// The books after the records of the symbols `targets`.
pub open spec fn books_after(
    books: BooksView,
    recs: Seq<RecordView>,
    targets: Seq<Seq<char>>,
) -> BooksView
    decreases recs.len(),
{
    if recs.len() == 0 {
        books
    } else {
        let head = books_after(books, recs.drop_last(), targets);
        match recs.last() {
            RecordView::Book(r) if targets.contains(lowercase(r.symbol)) => laid_over(head, r),
            _ => head,
        }
    }
}

/// Records are taken in one by one, in order.
pub proof fn law_records_are_taken_in_one_by_one(
    books: BooksView,
    a: Seq<RecordView>,
    b: Seq<RecordView>,
    targets: Seq<Seq<char>>,
)
    ensures
        msgs_of(a + b, targets) == msgs_of(a, targets) + msgs_of(b, targets),
        books_after(books, a + b, targets) == books_after(
            books_after(books, a, targets),
            b,
            targets,
        ),
    decreases b.len(),
{
    lemma_gather_append(a, b, |r: RecordView| at_most_one(wanted_msg(r, targets)));
    if b.len() == 0 {
        assert(a + b =~= a);
    } else {
        assert((a + b).drop_last() =~= a + b.drop_last());
        assert((a + b).last() == b.last());
        law_records_are_taken_in_one_by_one(books, a, b.drop_last(), targets);
    }
}

/// A record of a target symbol, in capitals or small letters, is written as the
/// row of its kind, and laid over the books if it is a book record. Any other
/// record is dropped.
pub proof fn law_record_of_a_target_is_written(
    books: BooksView,
    r: RecordView,
    targets: Seq<Seq<char>>,
)
    ensures
        ({
            let msgs = msgs_of(seq![r], targets);
            let after = books_after(books, seq![r], targets);
            match r {
                RecordView::Bbo(q) => {
                    &&& after == books
                    &&& if targets.contains(lowercase(q.symbol)) {
                        msgs == seq![MsgView::Bbo(bbo_row(q))]
                    } else {
                        msgs.len() == 0
                    }
                },
                RecordView::Trade(t) => {
                    &&& after == books
                    &&& if targets.contains(lowercase(t.symbol)) {
                        msgs == seq![MsgView::Trade(trade_row(t))]
                    } else {
                        msgs.len() == 0
                    }
                },
                RecordView::Book(b) => if targets.contains(lowercase(b.symbol)) {
                    msgs == seq![MsgView::Book(book_row(b))] && after == laid_over(books, b)
                } else {
                    msgs.len() == 0 && after == books
                },
            }
        }),
{
    lemma_gather_one(r, |r: RecordView| at_most_one(wanted_msg(r, targets)));
    assert(seq![r].drop_last() =~= Seq::empty());
    reveal_with_fuel(books_after, 2);
}

/// Takes in records: those of target symbols are to be written, and their book
/// records are laid over the books.
pub fn ingest(recs: &Vec<ParsedRecord>, cfg: &Config, books: &mut Books) -> (r: Vec<WriteMsg>)
    requires
        books_wf(old(books)@),
    ensures
        views(r@) == msgs_of(records(recs@), words(cfg.target_symbols@)),
        final(books)@ == books_after(old(books)@, records(recs@), words(cfg.target_symbols@)),
        books_wf(final(books)@),
{
    let ghost all = records(recs@);
    let ghost targets = words(cfg.target_symbols@);
    let ghost f = |r: RecordView| at_most_one(wanted_msg(r, targets));
    let mut out: Vec<WriteMsg> = Vec::new();
    assert(views(out@) =~= Seq::empty());
    assert(all.take(0) =~= Seq::empty());
    let mut i: usize = 0;
    while i < recs.len()
        invariant
            all == records(recs@),
            targets == words(cfg.target_symbols@),
            f == (|r: RecordView| at_most_one(wanted_msg(r, targets))),
            i <= recs@.len(),
            books_wf(books@),
            views(out@) == gather(all.take(i as int), f),
            books@ == books_after(old(books)@, all.take(i as int), targets),
        decreases recs@.len() - i,
    {
        let ghost before = out@;
        proof {
            lemma_gather_step(all, f, i as int);
        }
        assert(all[i as int] == recs@[i as int]@);
        assert(all.take(i + 1).drop_last() =~= all.take(i as int));
        match &recs[i] {
            ParsedRecord::Bbo(r) => {
                if cfg.is_target(r.symbol.as_str()) {
                    out.push(WriteMsg::Bbo(BboRow::from(r)));
                }
            },
            ParsedRecord::Trade(r) => {
                if cfg.is_target(r.symbol.as_str()) {
                    out.push(WriteMsg::Trade(TradeRow::from(r)));
                }
            },
            ParsedRecord::Book(r) => {
                if cfg.is_target(r.symbol.as_str()) {
                    books.track_book(r);
                    out.push(WriteMsg::Book(BookRow::from(r)));
                }
            },
        }
        assert(views(out@) =~= views(before) + f(all[i as int]));
        i = i + 1;
    }
    assert(all.take(all.len() as int) =~= all);
    out
}

// ── Sessions ────────────────────────────────────────────────────────────────

/// What happens on a connection. Times named `now_ns` are of a clock that only
/// goes forward, times named `recv_ms` and `now_ms` of the clock on the wall.
#[derive(Debug, Clone, Copy)]
pub enum Event<'a> {
    /// The connection is there, or the frame that was to be sent last was sent.
    Proceed,
    /// These whole books were fetched.
    Fetched { recs: &'a Vec<ParsedRecord>, now_ns: u128 },
    /// The stream is at its end.
    StreamClosed,
    /// A text frame came.
    Text { raw: &'a str, recv_ms: i64, now_ns: u128 },
    /// A frame came that shows only that the other side is there.
    Alive { now_ns: u128 },
    /// The other side closed the connection.
    CloseFrame { detail: &'a str },
    /// A part of a frame came, which says nothing.
    Fragment,
    /// It is time for a ping.
    PingDue,
    /// The ping could not be sent.
    PingFailed { error: &'a str },
    /// It is time to write the whole books.
    ReplayDue { now_ms: i64 },
    /// A second passed; so many records were dropped up to now.
    Second { now_ns: u128, dropped: u64 },
}

/// What is to be done.
#[derive(Debug)]
pub enum Action {
    /// Nothing.
    Wait,
    /// Send this frame, which subscribes.
    Send(String),
    /// Fetch the whole books of the exchange that the stream does not send.
    Fetch,
    /// Hand these to the writer, in order.
    Write(Vec<WriteMsg>),
    /// Send a ping: this text, or the ping of the protocol.
    Ping(Option<String>),
    /// Say how many frames came and how many records were dropped.
    Report { msgs: u64, dropped: u64 },
    /// End the session, for this reason; what waits is to be written at once.
    End(String),
}

/// What an [`Action`] holds.
pub enum ActionView {
    Wait,
    Send(Seq<char>),
    Fetch,
    Write(Seq<MsgView>),
    Ping(Option<Seq<char>>),
    Report { msgs: u64, dropped: u64 },
    End(Seq<char>),
}

impl View for Action {
    type V = ActionView;

    open spec fn view(&self) -> ActionView {
        match self {
            Action::Wait => ActionView::Wait,
            Action::Send(t) => ActionView::Send(t@),
            Action::Fetch => ActionView::Fetch,
            Action::Write(v) => ActionView::Write(views(v@)),
            Action::Ping(t) => ActionView::Ping(view_of(*t)),
            Action::Report { msgs, dropped } => ActionView::Report {
                msgs: *msgs,
                dropped: *dropped,
            },
            Action::End(t) => ActionView::End(t@),
        }
    }
}

/// How far a session has come.
#[derive(Debug, Clone, Copy, PartialEq, Eq, Structural)]
pub enum Stage {
    /// So many of the frames that subscribe were handed out.
    Subscribing(usize),
    /// The whole books are being fetched.
    Fetching,
    /// What the stream brings is taken in.
    Open,
}

/// A session with an exchange.
#[derive(Debug)]
pub struct Session {
    pub watch: Watch,
    pub books: Books,
    pub stage: Stage,
}

/// What a [`Session`] holds.
pub struct SessionView {
    pub watch: Watch,
    pub books: BooksView,
    pub stage: Stage,
}

impl View for Session {
    type V = SessionView;

    open spec fn view(&self) -> SessionView {
        SessionView { watch: self.watch, books: self.books@, stage: self.stage }
    }
}

/// The view of a [`Session`] shows each field under its own name.
pub proof fn law_view_of_session(v: Session)
    ensures
        v@.watch == v.watch,
        v@.books == v.books@,
        v@.stage == v.stage,
{
}

/// What the exchange of a session is asked for and how its frames are read.
pub struct Feed {
    /// The frames that subscribe.
    pub requests: Seq<Seq<char>>,
    /// The records of a text frame.
    pub frame: spec_fn(Seq<char>, i64) -> Seq<RecordView>,
    /// The text that is sent as a ping.
    pub ping: Option<Seq<char>>,
    /// The symbols that are written.
    pub targets: Seq<Seq<char>>,
}

/// What an event makes of a session that is open, and what is to be done about
/// it.
pub open spec fn next_open(s: SessionView, e: Event<'_>, feed: Feed) -> (SessionView, ActionView) {
    match e {
        Event::Proceed => (s, ActionView::Wait),
        Event::Fetched { .. } => (s, ActionView::Wait),
        Event::StreamClosed => (s, ActionView::End("stream closed"@)),
        Event::Text { raw, recv_ms, now_ns } => {
            let recs = (feed.frame)(raw@, recv_ms);
            (
                SessionView {
                    watch: Watch { last_ns: now_ns, msgs: (s.watch.msgs + 1) as u64, ..s.watch },
                    books: books_after(s.books, recs, feed.targets),
                    ..s
                },
                ActionView::Write(msgs_of(recs, feed.targets)),
            )
        },
        Event::Alive { now_ns } => (
            SessionView { watch: Watch { last_ns: now_ns, ..s.watch }, ..s },
            ActionView::Wait,
        ),
        Event::CloseFrame { detail } => (s, ActionView::End("close frame: "@ + detail@)),
        Event::Fragment => (s, ActionView::Wait),
        Event::PingDue => (s, ActionView::Ping(feed.ping)),
        Event::PingFailed { error } => (s, ActionView::End("ping send failed: "@ + error@)),
        Event::ReplayDue { now_ms } => (s, ActionView::Write(whole_books(s.books, now_ms))),
        Event::Second { now_ns, dropped } => {
            let (watch, tick) = s.watch.at_second(now_ns);
            (
                SessionView { watch, ..s },
                match tick {
                    Tick::Quiet => ActionView::Wait,
                    Tick::Report => ActionView::Report { msgs: watch.msgs, dropped },
                    Tick::Stale(secs) => ActionView::End(stale_reason(secs)),
                },
            )
        },
    }
}

/// What an event makes of a session, and what is to be done about it. While the
/// session opens, nothing of the stream is taken in: the frames that subscribe
/// are handed out one after the other, then the whole books are asked for, and
/// what was fetched opens the session.
pub open spec fn next(s: SessionView, e: Event<'_>, feed: Feed) -> (SessionView, ActionView) {
    match (s.stage, e) {
        (Stage::Subscribing(sent), Event::Proceed) => if sent < feed.requests.len() {
            (
                SessionView { stage: Stage::Subscribing((sent + 1) as usize), ..s },
                ActionView::Send(feed.requests[sent as int]),
            )
        } else {
            (SessionView { stage: Stage::Fetching, ..s }, ActionView::Fetch)
        },
        (Stage::Fetching, Event::Fetched { recs, now_ns }) => (
            SessionView {
                watch: Watch { last_ns: now_ns, ..s.watch },
                books: books_after(s.books, records(recs@), feed.targets),
                stage: Stage::Open,
            },
            ActionView::Write(msgs_of(records(recs@), feed.targets)),
        ),
        (Stage::Open, _) => next_open(s, e, feed),
        _ => (s, ActionView::Wait),
    }
}

/// Only text frames and fetched books change the books, and only they and the
/// time for whole books write anything.
pub proof fn law_only_text_changes_books(s: SessionView, e: Event<'_>, feed: Feed)
    ensures
        e !is Text && e !is Fetched ==> next(s, e, feed).0.books == s.books,
        next(s, e, feed).1 is Write ==> e is Text || e is Fetched || e is ReplayDue,
{
}

/// While a session subscribes, it hands out the frames in order, one for each
/// time it may go on, and then asks for the whole books. Nothing else moves it.
pub proof fn law_session_subscribes_frame_by_frame(
    s: SessionView,
    e: Event<'_>,
    feed: Feed,
    n: usize,
)
    requires
        s.stage == Stage::Subscribing(n),
        feed.requests.len() <= usize::MAX,
    ensures
        ({
            let (after, action) = next(s, e, feed);
            &&& after.books == s.books && after.watch == s.watch
            &&& e !is Proceed ==> after.stage == s.stage && action is Wait
            &&& e is Proceed && n < feed.requests.len() ==> action == ActionView::Send(
                feed.requests[n as int],
            ) && (after.stage matches Stage::Subscribing(m) && m == n + 1)
            &&& e is Proceed && n >= feed.requests.len() ==> action is Fetch && after.stage
                == Stage::Fetching
        }),
{
}

/// The books that were fetched open the session, whatever the stream brought
/// before: they are written and laid over the books, and the silence is counted
/// anew from there.
pub proof fn law_fetched_books_open_the_session(s: SessionView, e: Event<'_>, feed: Feed)
    requires
        s.stage == Stage::Fetching,
    ensures
        ({
            let (after, action) = next(s, e, feed);
            match e {
                Event::Fetched { recs, now_ns } => {
                    &&& after.stage == Stage::Open
                    &&& after.books == books_after(s.books, records(recs@), feed.targets)
                    &&& action == ActionView::Write(msgs_of(records(recs@), feed.targets))
                    &&& after.watch.last_ns == now_ns
                    &&& after.watch.msgs == s.watch.msgs
                    &&& after.watch.secs == s.watch.secs
                    &&& after.watch.stale_s == s.watch.stale_s
                },
                _ => after == s && action is Wait,
            }
        }),
{
}

/// A text frame that an open session takes in ends the silence, is counted, and
/// its records are written and laid over the books.
pub proof fn law_open_session_takes_text_in(
    s: SessionView,
    raw: &str,
    recv_ms: i64,
    now_ns: u128,
    feed: Feed,
)
    requires
        s.stage == Stage::Open,
        s.watch.msgs < u64::MAX,
    ensures
        ({
            let (after, action) = next(s, Event::Text { raw, recv_ms, now_ns }, feed);
            let recs = (feed.frame)(raw@, recv_ms);
            &&& after.stage == Stage::Open
            &&& after.watch.msgs == s.watch.msgs + 1
            &&& after.watch.last_ns == now_ns
            &&& after.watch.secs == s.watch.secs
            &&& after.watch.stale_s == s.watch.stale_s
            &&& after.books == books_after(s.books, recs, feed.targets)
            &&& action == ActionView::Write(msgs_of(recs, feed.targets))
        }),
{
}

/// What else an open session does: it ends, with the reason, when the stream
/// does, when the other side closes or when a ping fails; it pings and writes the
/// whole books when it is time; what shows only that the other side is there
/// ends the silence. None of this changes the books or the count of the frames.
pub proof fn law_open_session_by_event(s: SessionView, e: Event<'_>, feed: Feed)
    requires
        s.stage == Stage::Open,
        e !is Text,
        e !is Second,
    ensures
        ({
            let (after, action) = next(s, e, feed);
            &&& after.stage == Stage::Open && after.books == s.books
            &&& after.watch.msgs == s.watch.msgs && after.watch.secs == s.watch.secs
                && after.watch.stale_s == s.watch.stale_s
            &&& match e {
                Event::Alive { now_ns } => after.watch.last_ns == now_ns,
                _ => after.watch.last_ns == s.watch.last_ns,
            }
            &&& match e {
                Event::StreamClosed => action == ActionView::End("stream closed"@),
                Event::CloseFrame { detail } => action == ActionView::End(
                    "close frame: "@ + detail@,
                ),
                Event::PingFailed { error } => action == ActionView::End(
                    "ping send failed: "@ + error@,
                ),
                Event::PingDue => action == ActionView::Ping(feed.ping),
                Event::ReplayDue { now_ms } => action == ActionView::Write(
                    whole_books(s.books, now_ms),
                ),
                _ => action is Wait,
            }
        }),
{
}

/// A second ends an open session exactly if no frame came for longer than the
/// watch allows, and says for how many seconds; every sixtieth second brings a
/// report of the frames that came and the records that were dropped.
pub proof fn law_open_session_by_second(s: SessionView, now_ns: u128, dropped: u64, feed: Feed)
    requires
        s.stage == Stage::Open,
        s.watch.secs < u64::MAX,
    ensures
        ({
            let (after, action) = next(s, Event::Second { now_ns, dropped }, feed);
            let silence = now_ns - s.watch.last_ns;
            &&& after.stage == Stage::Open && after.books == s.books
            &&& after.watch.msgs == s.watch.msgs && after.watch.last_ns == s.watch.last_ns
                && after.watch.stale_s == s.watch.stale_s
            &&& if silence > s.watch.stale_s * 1_000_000_000 {
                after.watch.secs == s.watch.secs && action == ActionView::End(
                    "stale: no frame for "@ + int_text(silence / 1_000_000_000) + "s"@,
                )
            } else {
                after.watch.secs == s.watch.secs + 1 && if after.watch.secs % 60 == 0 {
                    action == ActionView::Report { msgs: s.watch.msgs, dropped }
                } else {
                    action is Wait
                }
            }
        }),
{
}

// ── The order of a session ──────────────────────────────────────────────────

/// The session after the events, and what was to be done about each of them.
pub open spec fn run(s: SessionView, events: Seq<Event<'_>>, feed: Feed) -> (
    SessionView,
    Seq<ActionView>,
)
    decreases events.len(),
{
    if events.len() == 0 {
        (s, Seq::empty())
    } else {
        let before = run(s, events.drop_last(), feed);
        let (after, action) = next(before.0, events.last(), feed);
        (after, before.1.push(action))
    }
}

/// The frames that were to be sent to subscribe, in order.
pub open spec fn sent(actions: Seq<ActionView>) -> Seq<Seq<char>>
    decreases actions.len(),
{
    if actions.len() == 0 {
        Seq::empty()
    } else {
        match actions.last() {
            ActionView::Send(t) => sent(actions.drop_last()).push(t),
            _ => sent(actions.drop_last()),
        }
    }
}

/// At `a` the whole books were asked for, and all frames that subscribe were
/// handed out before, in order.
pub open spec fn asks(actions: Seq<ActionView>, a: int, feed: Feed) -> bool {
    0 <= a < actions.len() && actions[a] is Fetch && sent(actions.take(a)) == feed.requests
}

/// At `f` the whole books that were fetched were taken in: those of the target
/// symbols, and no others, were to be written, and were laid over the books that
/// the session `s` started with.
pub open spec fn takes_books(
    s: SessionView,
    events: Seq<Event<'_>>,
    actions: Seq<ActionView>,
    f: int,
    feed: Feed,
) -> bool {
    0 <= f < actions.len() && f < events.len() && (events[f] matches Event::Fetched { recs, .. }
        && actions[f] == ActionView::Write(msgs_of(records(recs@), feed.targets)) && run(
        s,
        events.take(f + 1),
        feed,
    ).0.books == books_after(s.books, records(recs@), feed.targets))
}

/// How far a session that started as `s` has come goes with what was to be done
/// up to then.
spec fn in_order(
    s: SessionView,
    at: SessionView,
    events: Seq<Event<'_>>,
    actions: Seq<ActionView>,
    feed: Feed,
) -> bool {
    match at.stage {
        Stage::Subscribing(n) => at.books == s.books && n <= feed.requests.len() && sent(actions)
            == feed.requests.take(n as int),
        Stage::Fetching => at.books == s.books && exists|a: int| #[trigger] asks(actions, a, feed),
        Stage::Open => exists|a: int, f: int|
            a < f && #[trigger] asks(actions, a, feed) && #[trigger] takes_books(
                s,
                events,
                actions,
                f,
                feed,
            ),
    }
}

proof fn lemma_asks_stays(actions: Seq<ActionView>, action: ActionView, a: int, feed: Feed)
    requires
        asks(actions, a, feed),
    ensures
        asks(actions.push(action), a, feed),
{
    assert(actions.push(action).take(a) =~= actions.take(a));
}

#[verifier::rlimit(30)]
proof fn lemma_in_order(s: SessionView, events: Seq<Event<'_>>, feed: Feed)
    requires
        s.stage == Stage::Subscribing(0),
        feed.requests.len() <= usize::MAX,
    ensures
        run(s, events, feed).1.len() == events.len(),
        in_order(s, run(s, events, feed).0, events, run(s, events, feed).1, feed),
    decreases events.len(),
{
    if events.len() == 0 {
        assert(feed.requests.take(0) =~= Seq::empty());
    } else {
        let head = events.drop_last();
        let e = events.last();
        lemma_in_order(s, head, feed);
        let (at, acts) = run(s, head, feed);
        let (after, action) = next(at, e, feed);
        let all = acts.push(action);
        assert(all.drop_last() =~= acts);
        assert(run(s, events, feed) == (after, all));
        match at.stage {
            Stage::Subscribing(n) => {
                if e is Proceed {
                    if n < feed.requests.len() {
                        assert(feed.requests.take(n + 1) =~= feed.requests.take(n as int).push(
                            feed.requests[n as int],
                        ));
                    } else {
                        assert(feed.requests.take(n as int) =~= feed.requests);
                        assert(all.take(acts.len() as int) =~= acts);
                        assert(asks(all, acts.len() as int, feed));
                    }
                }
            },
            Stage::Fetching => {
                let a = choose|a: int| #[trigger] asks(acts, a, feed);
                lemma_asks_stays(acts, action, a, feed);
                if e is Fetched {
                    assert(events.take(acts.len() as int + 1) =~= events);
                    assert(takes_books(s, events, all, acts.len() as int, feed));
                }
            },
            Stage::Open => {
                let (a, f) = choose|a: int, f: int|
                    a < f && #[trigger] asks(acts, a, feed) && #[trigger] takes_books(
                        s,
                        head,
                        acts,
                        f,
                        feed,
                    );
                lemma_asks_stays(acts, action, a, feed);
                assert(events[f] == head[f] && all[f] == acts[f]);
                assert(events.take(f + 1) =~= head.take(f + 1));
                assert(takes_books(s, events, all, f, feed));
            },
        }
    }
}

proof fn lemma_run_of_the_first(s: SessionView, events: Seq<Event<'_>>, feed: Feed, k: int)
    requires
        0 <= k <= events.len(),
    ensures
        run(s, events.take(k), feed).1 == run(s, events, feed).1.take(k),
        run(s, events, feed).1.len() == events.len(),
    decreases events.len(),
{
    let acts = run(s, events, feed).1;
    if k == events.len() {
        assert(events.take(k) =~= events);
        if events.len() > 0 {
            lemma_run_of_the_first(s, events.drop_last(), feed, k - 1);
        }
        assert(acts.take(k) =~= acts);
    } else {
        lemma_run_of_the_first(s, events.drop_last(), feed, k);
        assert(events.drop_last().take(k) =~= events.take(k));
        assert(run(s, events.drop_last(), feed).1.take(k) =~= acts.take(k));
    }
}

/// A session opens in order, whatever comes: a text frame is taken in only after
/// the whole books that were fetched, and these are asked for only after all
/// frames that subscribe were handed out. Before that a text frame changes
/// nothing and writes nothing.
pub proof fn law_text_waits_for_the_whole_books(
    s: SessionView,
    events: Seq<Event<'_>>,
    feed: Feed,
    k: int,
)
    requires
        s.stage == Stage::Subscribing(0),
        feed.requests.len() <= usize::MAX,
        0 <= k < events.len(),
        events[k] is Text,
    ensures
        ({
            let before = run(s, events.take(k), feed).0;
            let after = run(s, events.take(k + 1), feed).0;
            let actions = run(s, events, feed).1;
            (after == before && actions[k] is Wait) || exists|a: int, f: int|
                a < f < k && #[trigger] asks(actions, a, feed) && #[trigger] takes_books(
                    s,
                    events,
                    actions,
                    f,
                    feed,
                )
        }),
{
    let head = events.take(k);
    lemma_in_order(s, head, feed);
    lemma_run_of_the_first(s, events, feed, k);
    lemma_run_of_the_first(s, events, feed, k + 1);
    let (at, acts) = run(s, head, feed);
    let actions = run(s, events, feed).1;
    let longer = events.take(k + 1);
    assert(longer.drop_last() =~= head);
    assert(longer.last() == events[k]);
    let step = next(at, events[k], feed);
    assert(run(s, longer, feed) == (step.0, acts.push(step.1)));
    assert(actions.take(k + 1)[k] == actions[k]);
    if at.stage == Stage::Open {
        let (a, f) = choose|a: int, f: int|
            a < f && #[trigger] asks(acts, a, feed) && #[trigger] takes_books(s, head, acts, f, feed);
        assert(actions.take(a) =~= acts.take(a));
        assert(asks(actions, a, feed));
        assert(events.take(f + 1) =~= head.take(f + 1));
        assert(takes_books(s, events, actions, f, feed));
    }
}

/// The feed of an exchange, for the target symbols of the settings.
pub open spec fn feed_of<S: ExchangeSpec>(spec: &S, cfg: &Config) -> Feed {
    Feed {
        requests: spec.requests(),
        frame: |raw: Seq<char>, recv_ms: i64| spec.frame(raw, recv_ms),
        ping: spec.ping(),
        targets: words(cfg.target_symbols@),
    }
}

/// A session asks, reads and pings as its exchange does, for the target symbols.
pub proof fn law_feed_is_that_of_the_exchange<S: ExchangeSpec>(
    spec: &S,
    cfg: &Config,
    raw: Seq<char>,
    recv_ms: i64,
)
    ensures
        feed_of(spec, cfg).requests == spec.requests(),
        (feed_of(spec, cfg).frame)(raw, recv_ms) == spec.frame(raw, recv_ms),
        feed_of(spec, cfg).ping == spec.ping(),
        feed_of(spec, cfg).targets == words(cfg.target_symbols@),
{
}

/// The view of an [`Action`] shows which it is, with what it holds.
pub proof fn law_view_of_action(a: Action)
    ensures
        match a {
            Action::Wait => a@ is Wait,
            Action::Send(t) => a@ == ActionView::Send(t@),
            Action::Fetch => a@ is Fetch,
            Action::Write(v) => a@ == ActionView::Write(views(v@)),
            Action::Ping(t) => a@ == ActionView::Ping(view_of(t)),
            Action::Report { msgs, dropped } => a@ == ActionView::Report { msgs, dropped },
            Action::End(t) => a@ == ActionView::End(t@),
        },
{
}

/// The books are shown in order, each with its exchange.
pub proof fn law_view_of_books(b: Books, i: int)
    requires
        0 <= i < b.list@.len(),
    ensures
        b@.len() == b.list@.len(),
        b@[i].0 == b.list@[i].0,
        b@[i].1 == b.list@[i].1@,
{
}

pub(crate) fn with_detail(what: &str, detail: &str) -> (r: String)
    ensures
        r@ == what@ + detail@,
{
    let mut text: String = what.to_owned();
    text.append(detail);
    text
}

impl Session {
    /// A session that starts at `now_ns`, without books: what was missed while
    /// there was no connection cannot be made good, so old books are of no use.
    pub fn new(cfg: &Config, now_ns: u128) -> (r: Session)
        ensures
            r.watch == (Watch {
                last_ns: now_ns,
                msgs: 0,
                secs: 0,
                stale_s: if cfg.ex_stale_s < 1 {
                    1
                } else {
                    cfg.ex_stale_s
                },
            }),
            r.books@ == Seq::<(Exchange, OrderBookView)>::empty(),
            r.stage == Stage::Subscribing(0),
            books_wf(r.books@),
    {
        Session {
            watch: Watch::new(cfg.ex_stale_s, now_ns),
            books: Books::new(),
            stage: Stage::Subscribing(0),
        }
    }

    /// Takes in an event, and says what to do about it. See [`next`].
    pub fn handle<S: ExchangeSpec>(&mut self, e: Event<'_>, spec: &S, cfg: &Config) -> (r: Action)
        requires
            books_wf(old(self).books@),
            old(self).watch.msgs < u64::MAX,
            old(self).watch.secs < u64::MAX,
        ensures
            (final(self)@, r@) == next(
                old(self)@,
                e,
                feed_of(spec, cfg),
            ),
            books_wf(final(self).books@),
    {
        match self.stage {
            Stage::Subscribing(sent) => match e {
                Event::Proceed => self.subscribe(sent, spec, cfg),
                _ => Action::Wait,
            },
            Stage::Fetching => match e {
                Event::Fetched { recs, now_ns } => {
                    self.watch.touch(now_ns);
                    self.stage = Stage::Open;
                    Action::Write(ingest(recs, cfg, &mut self.books))
                },
                _ => Action::Wait,
            },
            Stage::Open => self.handle_open(e, spec, cfg),
        }
    }

    /// Hands out the next of the frames that subscribe, or asks for the whole
    /// books when there is none left.
    fn subscribe<S: ExchangeSpec>(&mut self, sent: usize, spec: &S, cfg: &Config) -> (r: Action)
        requires
            old(self).stage == Stage::Subscribing(sent),
        ensures
            (final(self)@, r@) == next(old(self)@, Event::Proceed, feed_of(spec, cfg)),
    {
        let mut requests: Vec<String> = spec.subscribe_msgs();
        assert(texts(requests@).len() == requests@.len());
        if sent < requests.len() {
            assert(texts(requests@)[sent as int] == requests@[sent as int]@);
            self.stage = Stage::Subscribing(sent + 1);
            Action::Send(requests.swap_remove(sent))
        } else {
            self.stage = Stage::Fetching;
            Action::Fetch
        }
    }

    fn handle_open<S: ExchangeSpec>(&mut self, e: Event<'_>, spec: &S, cfg: &Config) -> (r: Action)
        requires
            books_wf(old(self).books@),
            old(self).watch.msgs < u64::MAX,
            old(self).watch.secs < u64::MAX,
        ensures
            (final(self)@, r@) == next_open(old(self)@, e, feed_of(spec, cfg)),
            books_wf(final(self).books@),
    {
        match e {
            Event::Proceed => Action::Wait,
            Event::Fetched { .. } => Action::Wait,
            Event::StreamClosed => Action::End("stream closed".to_owned()),
            Event::Text { raw, recv_ms, now_ns } => {
                self.watch.touch(now_ns);
                self.watch.count();
                let recs: Vec<ParsedRecord> = spec.parse(raw, recv_ms);
                Action::Write(ingest(&recs, cfg, &mut self.books))
            },
            Event::Alive { now_ns } => {
                self.watch.touch(now_ns);
                Action::Wait
            },
            Event::CloseFrame { detail } => Action::End(with_detail("close frame: ", detail)),
            Event::Fragment => Action::Wait,
            Event::PingDue => Action::Ping(spec.ping_msg()),
            Event::PingFailed { error } => Action::End(with_detail("ping send failed: ", error)),
            Event::ReplayDue { now_ms } => Action::Write(self.books.replay_books(now_ms)),
            Event::Second { now_ns, dropped } => match self.watch.second(now_ns) {
                Tick::Quiet => Action::Wait,
                Tick::Report => Action::Report { msgs: self.watch.msgs, dropped },
                Tick::Stale(secs) => Action::End(stale_text(secs)),
            },
        }
    }
}

} // verus!
