//! The rows that go to the database, and the batches that they are written in.
//!
//! A row waits in the buffer of its table until the buffer holds a whole batch,
//! or until a flush is asked for. What is taken out of a buffer is handed to
//! whoever writes it; a batch that cannot be inserted is to be kept on disk.

use vstd::prelude::*;
use vstd::std_specs::convert::{FromSpecImpl, TryFromSpecImpl};
use vstd::string::*;

use super::config::Config;
use crate::decimal::{
    decimal_print, law_text_keeps_every_digit, law_text_tells_the_number, spelled, spells,
    without_minus_zero, Decimal, DecimalView,
};
use crate::json::{law_lists_are_written_item_by_item, list_text, write_list};
use crate::numbers::{in_range, parse_i128, signed_text};
use crate::seqs::{view_of, views};
use crate::types::{
    law_exchange_names_differ, levels, BboRecord, BboView, BookRecord, BookView, Level,
    TradeRecord, TradeSide, TradeView,
    TwapRecord, TwapView,
};

verus! {

// ── Rows ────────────────────────────────────────────────────────────────────

/// A row of the table `ex_bbo`.
#[derive(Debug)]
pub struct BboRow {
    pub exchange: String,
    pub symbol: String,
    pub ts_ex: u64,
    pub recv_ms: u64,
    pub bid: String,
    pub bid_qty: String,
    pub ask: String,
    pub ask_qty: String,
}

/// What a [`BboRow`] holds.
pub struct BboRowView {
    pub exchange: Seq<char>,
    pub symbol: Seq<char>,
    pub ts_ex: u64,
    pub recv_ms: u64,
    pub bid: Seq<char>,
    pub bid_qty: Seq<char>,
    pub ask: Seq<char>,
    pub ask_qty: Seq<char>,
}

impl View for BboRow {
    type V = BboRowView;

    open spec fn view(&self) -> BboRowView {
        BboRowView {
            exchange: self.exchange@,
            symbol: self.symbol@,
            ts_ex: self.ts_ex,
            recv_ms: self.recv_ms,
            bid: self.bid@,
            bid_qty: self.bid_qty@,
            ask: self.ask@,
            ask_qty: self.ask_qty@,
        }
    }
}

/// The view of a [`BboRow`] shows each field under its own name.
pub proof fn law_view_of_bbo_row(v: BboRow)
    ensures
        v@.exchange == v.exchange@,
        v@.symbol == v.symbol@,
        v@.ts_ex == v.ts_ex,
        v@.recv_ms == v.recv_ms,
        v@.bid == v.bid@,
        v@.bid_qty == v.bid_qty@,
        v@.ask == v.ask@,
        v@.ask_qty == v.ask_qty@,
{
}

/// A row of the table `ex_trades`.
#[derive(Debug)]
pub struct TradeRow {
    pub exchange: String,
    pub symbol: String,
    pub ts_ex: u64,
    pub recv_ms: u64,
    pub price: String,
    pub qty: String,
    pub side: String,
    pub trade_id: String,
}

/// What a [`TradeRow`] holds.
pub struct TradeRowView {
    pub exchange: Seq<char>,
    pub symbol: Seq<char>,
    pub ts_ex: u64,
    pub recv_ms: u64,
    pub price: Seq<char>,
    pub qty: Seq<char>,
    pub side: Seq<char>,
    pub trade_id: Seq<char>,
}

impl View for TradeRow {
    type V = TradeRowView;

    open spec fn view(&self) -> TradeRowView {
        TradeRowView {
            exchange: self.exchange@,
            symbol: self.symbol@,
            ts_ex: self.ts_ex,
            recv_ms: self.recv_ms,
            price: self.price@,
            qty: self.qty@,
            side: self.side@,
            trade_id: self.trade_id@,
        }
    }
}

/// The view of a [`TradeRow`] shows each field under its own name.
pub proof fn law_view_of_trade_row(v: TradeRow)
    ensures
        v@.exchange == v.exchange@,
        v@.symbol == v.symbol@,
        v@.ts_ex == v.ts_ex,
        v@.recv_ms == v.recv_ms,
        v@.price == v.price@,
        v@.qty == v.qty@,
        v@.side == v.side@,
        v@.trade_id == v.trade_id@,
{
}

/// A row of the table `ex_book`.
#[derive(Debug)]
pub struct BookRow {
    pub exchange: String,
    pub symbol: String,
    pub ts_ex: u64,
    pub recv_ms: u64,
    pub bids_json: String,
    pub asks_json: String,
    pub is_snapshot: u8,
    pub seq: u64,
    pub first_seq: u64,
}

/// What a [`BookRow`] holds.
pub struct BookRowView {
    pub exchange: Seq<char>,
    pub symbol: Seq<char>,
    pub ts_ex: u64,
    pub recv_ms: u64,
    pub bids_json: Seq<char>,
    pub asks_json: Seq<char>,
    pub is_snapshot: u8,
    pub seq: u64,
    pub first_seq: u64,
}

impl View for BookRow {
    type V = BookRowView;

    open spec fn view(&self) -> BookRowView {
        BookRowView {
            exchange: self.exchange@,
            symbol: self.symbol@,
            ts_ex: self.ts_ex,
            recv_ms: self.recv_ms,
            bids_json: self.bids_json@,
            asks_json: self.asks_json@,
            is_snapshot: self.is_snapshot,
            seq: self.seq,
            first_seq: self.first_seq,
        }
    }
}

/// The view of a [`BookRow`] shows each field under its own name.
pub proof fn law_view_of_book_row(v: BookRow)
    ensures
        v@.exchange == v.exchange@,
        v@.symbol == v.symbol@,
        v@.ts_ex == v.ts_ex,
        v@.recv_ms == v.recv_ms,
        v@.bids_json == v.bids_json@,
        v@.asks_json == v.asks_json@,
        v@.is_snapshot == v.is_snapshot,
        v@.seq == v.seq,
        v@.first_seq == v.first_seq,
{
}

/// A row of the table `twap`.
#[derive(Debug)]
pub struct TwapRow {
    pub symbol: String,
    pub window_s: u16,
    pub obs_ms: u64,
    pub pub_ms: u64,
    pub recv_ms: u64,
    pub value_e18: String,
    /// The price times ten to the 18: the number that `value_e18` spells, so
    /// that no digit is lost.
    pub price: i128,
}

/// What a [`TwapRow`] holds.
pub struct TwapRowView {
    pub symbol: Seq<char>,
    pub window_s: u16,
    pub obs_ms: u64,
    pub pub_ms: u64,
    pub recv_ms: u64,
    pub value_e18: Seq<char>,
    pub price: i128,
}

impl View for TwapRow {
    type V = TwapRowView;

    open spec fn view(&self) -> TwapRowView {
        TwapRowView {
            symbol: self.symbol@,
            window_s: self.window_s,
            obs_ms: self.obs_ms,
            pub_ms: self.pub_ms,
            recv_ms: self.recv_ms,
            value_e18: self.value_e18@,
            price: self.price,
        }
    }
}

/// The view of a [`TwapRow`] shows each field under its own name.
pub proof fn law_view_of_twap_row(v: TwapRow)
    ensures
        v@.symbol == v.symbol@,
        v@.window_s == v.window_s,
        v@.obs_ms == v.obs_ms,
        v@.pub_ms == v.pub_ms,
        v@.recv_ms == v.recv_ms,
        v@.value_e18 == v.value_e18@,
        v@.price == v.price,
{
}

// ── Conversion ──────────────────────────────────────────────────────────────

/// A time that is not negative: zero stands for one that is.
pub open spec fn ms_of(t: i64) -> u64 {
    if t < 0 {
        0
    } else {
        t as u64
    }
}

fn ms(t: i64) -> (r: u64)
    ensures
        r == ms_of(t),
{
    if t < 0 {
        0
    } else {
        t as u64
    }
}

/// The name of a side.
pub open spec fn side_name(s: TradeSide) -> Seq<char> {
    match s {
        TradeSide::Buy => "buy"@,
        TradeSide::Sell => "sell"@,
    }
}

/// The name of a side, in small letters.
pub fn side_str(s: TradeSide) -> (r: &'static str)
    ensures
        r@ == side_name(s),
{
    match s {
        TradeSide::Buy => "buy",
        TradeSide::Sell => "sell",
    }
}

/// A level as JSON: price and quantity in quotes.
pub open spec fn level_text(l: Level) -> Seq<char> {
    "[\""@ + decimal_print(l.0) + "\",\""@ + decimal_print(l.1) + "\"]"@
}

/// The levels of a ladder as JSON, `[["price","qty"],...]`.
pub open spec fn ladder_text(ladder: Seq<Level>) -> Seq<char> {
    list_text(ladder.map_values(|l: Level| level_text(l)))
}

/// The levels of a ladder as JSON, `[["price","qty"],...]`, every digit kept.
pub fn ladder_json(ladder: &[[Decimal; 2]]) -> (r: String)
    ensures
        r@ == ladder_text(levels(ladder@)),
{
    let ghost all = levels(ladder@).map_values(|l: Level| level_text(l));
    let mut items: Vec<String> = Vec::new();
    let mut i: usize = 0;
    while i < ladder.len()
        invariant
            all == levels(ladder@).map_values(|l: Level| level_text(l)),
            i <= ladder@.len(),
            items@.map_values(|s: String| s@) == all.take(i as int),
        decreases ladder@.len() - i,
    {
        let ghost before = items@;
        let mut item: String = "[\"".to_owned();
        item.append(ladder[i][0].text().as_str());
        item.append("\",\"");
        item.append(ladder[i][1].text().as_str());
        item.append("\"]");
        assert(levels(ladder@)[i as int] == (ladder@[i as int]@[0]@, ladder@[i as int]@[1]@));
        assert(item@ == all[i as int]);
        items.push(item);
        assert(items@.map_values(|s: String| s@) =~= before.map_values(|s: String| s@).push(item@));
        assert(all.take(i + 1) =~= all.take(i as int).push(all[i as int]));
        i = i + 1;
    }
    assert(all.take(all.len() as int) =~= all);
    write_list(&items)
}

/// The row of a quote.
pub open spec fn bbo_row(r: BboView) -> BboRowView {
    BboRowView {
        exchange: r.exchange.name(),
        symbol: r.symbol,
        ts_ex: ms_of(r.ts_ex),
        recv_ms: ms_of(r.recv_ms),
        bid: decimal_print(r.bid),
        bid_qty: decimal_print(r.bid_qty),
        ask: decimal_print(r.ask),
        ask_qty: decimal_print(r.ask_qty),
    }
}

/// The row of a trade.
pub open spec fn trade_row(r: TradeView) -> TradeRowView {
    TradeRowView {
        exchange: r.exchange.name(),
        symbol: r.symbol,
        ts_ex: ms_of(r.ts_ex),
        recv_ms: ms_of(r.recv_ms),
        price: decimal_print(r.price),
        qty: decimal_print(r.qty),
        side: side_name(r.side),
        trade_id: r.trade_id,
    }
}

/// A number, or zero where there is none.
pub open spec fn or_zero(n: Option<u64>) -> u64 {
    match n {
        Some(v) => v,
        None => 0,
    }
}

/// The row of a book record.
pub open spec fn book_row(r: BookView) -> BookRowView {
    BookRowView {
        exchange: r.exchange.name(),
        symbol: r.symbol,
        ts_ex: ms_of(r.ts_ex),
        recv_ms: ms_of(r.recv_ms),
        bids_json: ladder_text(r.bids),
        asks_json: ladder_text(r.asks),
        is_snapshot: if r.is_snapshot {
            1
        } else {
            0
        },
        seq: or_zero(r.seq),
        first_seq: or_zero(r.first_seq),
    }
}

/// The row of an oracle value, where its text is a number.
pub open spec fn twap_row(r: TwapView) -> Option<TwapRowView> {
    match in_range(signed_text(r.value_e18), i128::MIN as int, i128::MAX as int) {
        Some(price) => Some(
            TwapRowView {
                symbol: r.symbol,
                window_s: r.window_s,
                obs_ms: ms_of(r.obs_ms),
                pub_ms: ms_of(r.pub_ms),
                recv_ms: ms_of(r.recv_ms),
                value_e18: r.value_e18,
                price: price as i128,
            },
        ),
        None => None,
    }
}

/// The text spells the number, digit by digit; a zero without its minus.
pub open spec fn reads_as(text: Seq<char>, d: DecimalView) -> bool {
    exists|negative: bool, whole: Seq<char>, frac: Seq<char>|
        #[trigger] spells(text, negative, whole, frac) && spelled(negative, whole, frac)
            == without_minus_zero(d)
}

/// The row of a quote gives the quote back: its four texts spell the bid, the
/// ask and their quantities, and exchange, symbol and times are those of the
/// quote. Times before 1970 have no place in a table: zero stands for them.
pub proof fn law_row_gives_the_quote_back(r: BboView)
    ensures
        reads_as(bbo_row(r).bid, r.bid),
        reads_as(bbo_row(r).bid_qty, r.bid_qty),
        reads_as(bbo_row(r).ask, r.ask),
        reads_as(bbo_row(r).ask_qty, r.ask_qty),
        bbo_row(r).exchange == r.exchange.name(),
        bbo_row(r).symbol == r.symbol,
        r.ts_ex >= 0 ==> bbo_row(r).ts_ex == r.ts_ex,
        r.recv_ms >= 0 ==> bbo_row(r).recv_ms == r.recv_ms,
        r.ts_ex < 0 ==> bbo_row(r).ts_ex == 0,
        r.recv_ms < 0 ==> bbo_row(r).recv_ms == 0,
{
    law_text_keeps_every_digit(r.bid);
    law_text_keeps_every_digit(r.bid_qty);
    law_text_keeps_every_digit(r.ask);
    law_text_keeps_every_digit(r.ask_qty);
}

/// Quotes that differ in a price, a quantity, the exchange or the symbol never
/// have the same row.
pub proof fn law_rows_of_different_quotes_differ(a: BboView, b: BboView)
    requires
        bbo_row(a) == bbo_row(b),
    ensures
        a.bid == b.bid,
        a.bid_qty == b.bid_qty,
        a.ask == b.ask,
        a.ask_qty == b.ask_qty,
        a.exchange == b.exchange,
        a.symbol == b.symbol,
        a.ts_ex >= 0 && b.ts_ex >= 0 ==> a.ts_ex == b.ts_ex,
        a.recv_ms >= 0 && b.recv_ms >= 0 ==> a.recv_ms == b.recv_ms,
{
    law_text_tells_the_number(a.bid, b.bid);
    law_text_tells_the_number(a.bid_qty, b.bid_qty);
    law_text_tells_the_number(a.ask, b.ask);
    law_text_tells_the_number(a.ask_qty, b.ask_qty);
    law_exchange_names_differ(a.exchange, b.exchange);
}

/// The row of a trade gives the trade back: its texts spell the price and the
/// quantity, and the side is that of the taker.
pub proof fn law_row_gives_the_trade_back(r: TradeView)
    ensures
        reads_as(trade_row(r).price, r.price),
        reads_as(trade_row(r).qty, r.qty),
        r.side == TradeSide::Buy ==> trade_row(r).side == "buy"@,
        r.side == TradeSide::Sell ==> trade_row(r).side == "sell"@,
        trade_row(r).trade_id == r.trade_id,
        trade_row(r).exchange == r.exchange.name(),
        trade_row(r).symbol == r.symbol,
        r.ts_ex >= 0 ==> trade_row(r).ts_ex == r.ts_ex,
        r.recv_ms >= 0 ==> trade_row(r).recv_ms == r.recv_ms,
        r.ts_ex < 0 ==> trade_row(r).ts_ex == 0,
        r.recv_ms < 0 ==> trade_row(r).recv_ms == 0,
{
    law_text_keeps_every_digit(r.price);
    law_text_keeps_every_digit(r.qty);
}

/// Trades that differ in price, quantity, side, number, exchange or symbol never
/// have the same row.
pub proof fn law_rows_of_different_trades_differ(a: TradeView, b: TradeView)
    requires
        trade_row(a) == trade_row(b),
    ensures
        a.price == b.price,
        a.qty == b.qty,
        a.side == b.side,
        a.trade_id == b.trade_id,
        a.exchange == b.exchange,
        a.symbol == b.symbol,
        a.ts_ex >= 0 && b.ts_ex >= 0 ==> a.ts_ex == b.ts_ex,
        a.recv_ms >= 0 && b.recv_ms >= 0 ==> a.recv_ms == b.recv_ms,
{
    law_text_tells_the_number(a.price, b.price);
    law_text_tells_the_number(a.qty, b.qty);
    law_exchange_names_differ(a.exchange, b.exchange);
    reveal_strlit("buy");
    reveal_strlit("sell");
    assert("buy"@.len() == 3 && "sell"@.len() == 4);
}

/// A ladder is written level by level, the price and then the quantity of each,
/// and their texts spell them.
pub proof fn law_ladder_is_written_level_by_level(ladder: Seq<Level>, a: Level, b: Level) -> (r: (
    Seq<char>,
    Seq<char>,
    Seq<char>,
    Seq<char>,
))
    ensures
        reads_as(r.0, a.0),
        reads_as(r.1, a.1),
        reads_as(r.2, b.0),
        reads_as(r.3, b.1),
        ladder_text(Seq::empty()) == seq!['[', ']'],
        ladder_text(seq![a]) == seq!['[', '[', '"'] + r.0 + seq!['"', ',', '"'] + r.1 + seq![
            '"',
            ']',
            ']',
        ],
        ladder_text(ladder.push(a).push(b)) == ladder_text(ladder.push(a)).drop_last() + seq![
            ',',
            '[',
            '"',
        ] + r.2 + seq!['"', ',', '"'] + r.3 + seq!['"', ']', ']'],
{
    lemma_ladder_texts(ladder, a, b);
    lemma_print_reads(a.0);
    lemma_print_reads(a.1);
    lemma_print_reads(b.0);
    lemma_print_reads(b.1);
    (decimal_print(a.0), decimal_print(a.1), decimal_print(b.0), decimal_print(b.1))
}

proof fn lemma_print_reads(d: DecimalView)
    ensures
        reads_as(decimal_print(d), d),
{
    law_text_keeps_every_digit(d);
}

proof fn lemma_level_text(l: Level)
    ensures
        level_text(l) == seq!['[', '"'] + decimal_print(l.0) + seq!['"', ',', '"'] + decimal_print(
            l.1,
        ) + seq!['"', ']'],
{
    reveal_strlit("[\"");
    reveal_strlit("\",\"");
    reveal_strlit("\"]");
    assert("[\""@ =~= seq!['[', '"']);
    assert("\",\""@ =~= seq!['"', ',', '"']);
    assert("\"]"@ =~= seq!['"', ']']);
}

proof fn lemma_ladder_texts(ladder: Seq<Level>, a: Level, b: Level)
    ensures
        ladder_text(Seq::empty()) == seq!['[', ']'],
        ladder_text(seq![a]) == seq!['[', '[', '"'] + decimal_print(a.0) + seq!['"', ',', '"']
            + decimal_print(a.1) + seq!['"', ']', ']'],
        ladder_text(ladder.push(a).push(b)) == ladder_text(ladder.push(a)).drop_last() + seq![
            ',',
            '[',
            '"',
        ] + decimal_print(b.0) + seq!['"', ',', '"'] + decimal_print(b.1) + seq!['"', ']', ']'],
{
    let f = |l: Level| level_text(l);
    let items = ladder.map_values(f);
    law_lists_are_written_item_by_item(items, level_text(a), level_text(b));
    lemma_level_text(a);
    lemma_level_text(b);
    assert(Seq::<Level>::empty().map_values(f) =~= Seq::empty());
    assert(seq![a].map_values(f) =~= seq![level_text(a)]);
    assert(ladder.push(a).map_values(f) =~= items.push(level_text(a)));
    assert(ladder.push(a).push(b).map_values(f) =~= items.push(level_text(a)).push(level_text(b)));
    lemma_regroup(
        Seq::empty(),
        seq!['['],
        decimal_print(a.0),
        decimal_print(a.1),
    );
    lemma_regroup(
        ladder_text(ladder.push(a)).drop_last(),
        seq![','],
        decimal_print(b.0),
        decimal_print(b.1),
    );
    assert(Seq::<char>::empty() + seq!['['] =~= seq!['[']);
    assert(Seq::<char>::empty() + seq!['[', '[', '"'] =~= seq!['[', '[', '"']);
}

proof fn lemma_regroup(start: Seq<char>, c: Seq<char>, p: Seq<char>, q: Seq<char>)
    requires
        c.len() == 1,
    ensures
        start + c + (seq!['[', '"'] + p + seq!['"', ',', '"'] + q + seq!['"', ']']) + seq![']']
            == start + seq![c[0], '[', '"'] + p + seq!['"', ',', '"'] + q + seq!['"', ']', ']'],
{
    let head = start + c;
    assert(head + seq!['[', '"'] =~= start + seq![c[0], '[', '"']);
    assert(seq!['"', ']'] + seq![']'] =~= seq!['"', ']', ']']);
    let x = seq!['[', '"'];
    let y = seq!['"', ',', '"'];
    let z = seq!['"', ']'];
    assert(head + (x + p + y + q + z) + seq![']'] =~= (head + x) + p + y + q + (z + seq![']']));
}

/// The row of a book record holds the record: the bids and the asks each in their
/// own column, whether it is the whole book, and the sequence numbers, with zero
/// for one that is missing.
pub proof fn law_row_holds_the_book_record(r: BookView)
    ensures
        book_row(r).bids_json == ladder_text(r.bids),
        book_row(r).asks_json == ladder_text(r.asks),
        book_row(r).is_snapshot == 1 <==> r.is_snapshot,
        book_row(r).is_snapshot == 0 <==> !r.is_snapshot,
        r.seq matches Some(n) ==> book_row(r).seq == n,
        r.seq is None ==> book_row(r).seq == 0,
        r.first_seq matches Some(n) ==> book_row(r).first_seq == n,
        r.first_seq is None ==> book_row(r).first_seq == 0,
        book_row(r).exchange == r.exchange.name(),
        book_row(r).symbol == r.symbol,
        r.ts_ex >= 0 ==> book_row(r).ts_ex == r.ts_ex,
        r.recv_ms >= 0 ==> book_row(r).recv_ms == r.recv_ms,
        r.ts_ex < 0 ==> book_row(r).ts_ex == 0,
        r.recv_ms < 0 ==> book_row(r).recv_ms == 0,
{
}

/// An oracle value has a row exactly where its text is a whole number of 128
/// bits; the row holds that number, its text, and the three times of the value.
pub proof fn law_row_holds_the_oracle_value(r: TwapView)
    ensures
        twap_row(r) is Some <==> (signed_text(r.value_e18) matches Some(n) && -0x8000_0000_0000_0000_0000_0000_0000_0000
            <= n < 0x8000_0000_0000_0000_0000_0000_0000_0000),
        twap_row(r) matches Some(row) ==> {
            &&& Some(row.price as int) == signed_text(r.value_e18)
            &&& row.value_e18 == r.value_e18
            &&& row.symbol == r.symbol
            &&& row.window_s == r.window_s
            &&& r.obs_ms >= 0 ==> row.obs_ms == r.obs_ms
            &&& r.pub_ms >= 0 ==> row.pub_ms == r.pub_ms
            &&& r.recv_ms >= 0 ==> row.recv_ms == r.recv_ms
            &&& r.obs_ms < 0 ==> row.obs_ms == 0
            &&& r.pub_ms < 0 ==> row.pub_ms == 0
            &&& r.recv_ms < 0 ==> row.recv_ms == 0
        },
{
}

fn some_or_zero(n: Option<u64>) -> (r: u64)
    ensures
        r == or_zero(n),
{
    match n {
        Some(v) => v,
        None => 0,
    }
}

impl<'a> From<&'a BboRecord> for BboRow {
    fn from(r: &'a BboRecord) -> (row: BboRow)
        ensures
            row@ == bbo_row(r@),
    {
        BboRow {
            exchange: r.exchange.as_str().to_owned(),
            symbol: r.symbol.clone(),
            ts_ex: ms(r.ts_ex),
            recv_ms: ms(r.recv_ms),
            bid: r.bid.text(),
            bid_qty: r.bid_qty.text(),
            ask: r.ask.text(),
            ask_qty: r.ask_qty.text(),
        }
    }
}

/// The row is stated by what it holds, in the `ensures` of `from`.
impl<'a> FromSpecImpl<&'a BboRecord> for BboRow {
    open spec fn obeys_from_spec() -> bool {
        false
    }

    open spec fn from_spec(r: &'a BboRecord) -> BboRow {
        arbitrary()
    }
}

impl<'a> From<&'a TradeRecord> for TradeRow {
    fn from(r: &'a TradeRecord) -> (row: TradeRow)
        ensures
            row@ == trade_row(r@),
    {
        TradeRow {
            exchange: r.exchange.as_str().to_owned(),
            symbol: r.symbol.clone(),
            ts_ex: ms(r.ts_ex),
            recv_ms: ms(r.recv_ms),
            price: r.price.text(),
            qty: r.qty.text(),
            side: side_str(r.side).to_owned(),
            trade_id: r.trade_id.clone(),
        }
    }
}

/// The row is stated by what it holds, in the `ensures` of `from`.
impl<'a> FromSpecImpl<&'a TradeRecord> for TradeRow {
    open spec fn obeys_from_spec() -> bool {
        false
    }

    open spec fn from_spec(r: &'a TradeRecord) -> TradeRow {
        arbitrary()
    }
}

impl<'a> From<&'a BookRecord> for BookRow {
    fn from(r: &'a BookRecord) -> (row: BookRow)
        ensures
            row@ == book_row(r@),
    {
        BookRow {
            exchange: r.exchange.as_str().to_owned(),
            symbol: r.symbol.clone(),
            ts_ex: ms(r.ts_ex),
            recv_ms: ms(r.recv_ms),
            bids_json: ladder_json(r.bids.as_slice()),
            asks_json: ladder_json(r.asks.as_slice()),
            is_snapshot: if r.is_snapshot {
                1
            } else {
                0
            },
            seq: some_or_zero(r.seq),
            first_seq: some_or_zero(r.first_seq),
        }
    }
}

/// The row is stated by what it holds, in the `ensures` of `from`.
impl<'a> FromSpecImpl<&'a BookRecord> for BookRow {
    open spec fn obeys_from_spec() -> bool {
        false
    }

    open spec fn from_spec(r: &'a BookRecord) -> BookRow {
        arbitrary()
    }
}

/// The text of an oracle value is no whole number of at most 128 bits.
#[derive(Debug, Clone, Copy, PartialEq, Eq, Structural)]
pub struct NotAnInteger;

impl<'a> TryFrom<&'a TwapRecord> for TwapRow {
    type Error = NotAnInteger;

    fn try_from(r: &'a TwapRecord) -> (row: Result<TwapRow, NotAnInteger>)
        ensures
            view_of(row.ok()) == twap_row(r@),
    {
        match parse_i128(r.value_e18.as_str()) {
            Some(price) => Ok(
                TwapRow {
                    symbol: r.symbol.clone(),
                    window_s: r.window_s,
                    obs_ms: ms(r.obs_ms),
                    pub_ms: ms(r.pub_ms),
                    recv_ms: ms(r.recv_ms),
                    value_e18: r.value_e18.clone(),
                    price,
                },
            ),
            None => Err(NotAnInteger),
        }
    }
}

/// The row is stated by what it holds, in the `ensures` of `try_from`.
impl<'a> TryFromSpecImpl<&'a TwapRecord> for TwapRow {
    open spec fn obeys_try_from_spec() -> bool {
        false
    }

    open spec fn try_from_spec(r: &'a TwapRecord) -> Result<TwapRow, NotAnInteger> {
        Err(NotAnInteger)
    }
}

// ── Buffers and batches ─────────────────────────────────────────────────────

/// Rows of each table.
#[derive(Debug)]
pub struct Batches {
    /// Rows of `ex_bbo`.
    pub bbo: Vec<BboRow>,
    /// Rows of `ex_trades`.
    pub trades: Vec<TradeRow>,
    /// Rows of `ex_book`.
    pub book: Vec<BookRow>,
    /// Rows of `twap`.
    pub twap: Vec<TwapRow>,
}

/// What [`Batches`] hold.
#[verifier::ext_equal]
pub struct Tables {
    pub bbo: Seq<BboRowView>,
    pub trades: Seq<TradeRowView>,
    pub book: Seq<BookRowView>,
    pub twap: Seq<TwapRowView>,
}

impl View for Batches {
    type V = Tables;

    open spec fn view(&self) -> Tables {
        Tables {
            bbo: views(self.bbo@),
            trades: views(self.trades@),
            book: views(self.book@),
            twap: views(self.twap@),
        }
    }
}

/// The view of a [`Batches`] shows each field under its own name.
pub proof fn law_view_of_batches(v: Batches)
    ensures
        v@.bbo == views(v.bbo@),
        v@.trades == views(v.trades@),
        v@.book == views(v.book@),
        v@.twap == views(v.twap@),
{
}

/// `s` if it holds `n` items or more, else nothing.
pub open spec fn if_full<A>(s: Seq<A>, n: nat) -> Seq<A> {
    if s.len() >= n {
        s
    } else {
        Seq::empty()
    }
}

/// `s` if it holds fewer than `n` items, else nothing.
pub open spec fn unless_full<A>(s: Seq<A>, n: nat) -> Seq<A> {
    if s.len() >= n {
        Seq::empty()
    } else {
        s
    }
}

impl Tables {
    /// No rows.
    pub open spec fn none() -> Tables {
        Tables { bbo: Seq::empty(), trades: Seq::empty(), book: Seq::empty(), twap: Seq::empty() }
    }

    /// The rows of both, table by table.
    pub open spec fn and(self, more: Tables) -> Tables {
        Tables {
            bbo: self.bbo + more.bbo,
            trades: self.trades + more.trades,
            book: self.book + more.book,
            twap: self.twap + more.twap,
        }
    }

    /// The tables that hold `n` rows or more.
    pub open spec fn full(self, n: nat) -> Tables {
        Tables {
            bbo: if_full(self.bbo, n),
            trades: if_full(self.trades, n),
            book: if_full(self.book, n),
            twap: if_full(self.twap, n),
        }
    }

    /// The tables that hold fewer than `n` rows.
    pub open spec fn partial(self, n: nat) -> Tables {
        Tables {
            bbo: unless_full(self.bbo, n),
            trades: unless_full(self.trades, n),
            book: unless_full(self.book, n),
            twap: unless_full(self.twap, n),
        }
    }

    /// No table holds `n` rows.
    pub open spec fn below(self, n: nat) -> bool {
        self.bbo.len() < n && self.trades.len() < n && self.book.len() < n && self.twap.len() < n
    }
}

/// What is handed to the writer: a row, or the wish that all rows be written.
#[derive(Debug)]
pub enum WriteMsg {
    Bbo(BboRow),
    Trade(TradeRow),
    Book(BookRow),
    Twap(TwapRow),
    /// Everything is to be written at once, so that nothing is left behind when
    /// a connection ends.
    Flush,
}

/// What a [`WriteMsg`] holds.
pub enum MsgView {
    Bbo(BboRowView),
    Trade(TradeRowView),
    Book(BookRowView),
    Twap(TwapRowView),
    Flush,
}

impl View for WriteMsg {
    type V = MsgView;

    open spec fn view(&self) -> MsgView {
        match self {
            WriteMsg::Bbo(r) => MsgView::Bbo(r@),
            WriteMsg::Trade(r) => MsgView::Trade(r@),
            WriteMsg::Book(r) => MsgView::Book(r@),
            WriteMsg::Twap(r) => MsgView::Twap(r@),
            WriteMsg::Flush => MsgView::Flush,
        }
    }
}

/// The view of a [`WriteMsg`] shows the table that its row is of.
pub proof fn law_view_of_write_msg(m: WriteMsg)
    ensures
        match m {
            WriteMsg::Bbo(r) => m@ == MsgView::Bbo(r@),
            WriteMsg::Trade(r) => m@ == MsgView::Trade(r@),
            WriteMsg::Book(r) => m@ == MsgView::Book(r@),
            WriteMsg::Twap(r) => m@ == MsgView::Twap(r@),
            WriteMsg::Flush => m@ is Flush,
        },
{
}

impl MsgView {
    /// The row that the message brings.
    pub open spec fn rows(self) -> Tables {
        match self {
            MsgView::Bbo(r) => Tables { bbo: seq![r], ..Tables::none() },
            MsgView::Trade(r) => Tables { trades: seq![r], ..Tables::none() },
            MsgView::Book(r) => Tables { book: seq![r], ..Tables::none() },
            MsgView::Twap(r) => Tables { twap: seq![r], ..Tables::none() },
            MsgView::Flush => Tables::none(),
        }
    }
}

/// What is written and what stays in the buffers when a message comes.
pub open spec fn step(buffers: Tables, msg: MsgView, batch: nat) -> (Tables, Tables) {
    let all = buffers.and(msg.rows());
    if msg is Flush {
        (all, Tables::none())
    } else {
        (all.full(batch), all.partial(batch))
    }
}

/// What is written in all and what stays in the buffers when the messages come
/// one after the other.
pub open spec fn run(buffers: Tables, msgs: Seq<MsgView>, batch: nat) -> (Tables, Tables)
    decreases msgs.len(),
{
    if msgs.len() == 0 {
        (Tables::none(), buffers)
    } else {
        let before = run(buffers, msgs.drop_last(), batch);
        let last = step(before.1, msgs.last(), batch);
        (before.0.and(last.0), last.1)
    }
}

/// The rows that the messages bring.
pub open spec fn rows_of(msgs: Seq<MsgView>) -> Tables
    decreases msgs.len(),
{
    if msgs.len() == 0 {
        Tables::none()
    } else {
        rows_of(msgs.drop_last()).and(msgs.last().rows())
    }
}

/// No row is lost, doubled or moved: what was written and what still waits is,
/// table by table, what waited before and what came, in this order.
pub proof fn law_no_row_is_lost(buffers: Tables, msgs: Seq<MsgView>, batch: nat)
    ensures
        run(buffers, msgs, batch).0.and(run(buffers, msgs, batch).1) == buffers.and(rows_of(msgs)),
    decreases msgs.len(),
{
    if msgs.len() == 0 {
        assert(Tables::none().and(buffers) =~= buffers.and(Tables::none()));
    } else {
        law_no_row_is_lost(buffers, msgs.drop_last(), batch);
        let before = run(buffers, msgs.drop_last(), batch);
        let last = step(before.1, msgs.last(), batch);
        let new = msgs.last().rows();
        assert(last.0.and(last.1) =~= before.1.and(new));
        assert(before.0.and(last.0).and(last.1) =~= before.0.and(before.1).and(new));
        assert(buffers.and(rows_of(msgs.drop_last())).and(new) =~= buffers.and(rows_of(msgs)));
    }
}

/// A buffer never keeps a whole batch, and after a flush it keeps nothing.
pub proof fn law_buffers_stay_small(buffers: Tables, msgs: Seq<MsgView>, batch: nat)
    requires
        batch > 0,
        buffers.below(batch),
    ensures
        run(buffers, msgs, batch).1.below(batch),
        msgs.len() > 0 && msgs.last() is Flush ==> run(buffers, msgs, batch).1 == Tables::none(),
    decreases msgs.len(),
{
    if msgs.len() > 0 {
        law_buffers_stay_small(buffers, msgs.drop_last(), batch);
    }
}

/// A message adds its row at the end of the buffer of its table, and touches no
/// other table: what is written and what stays is the buffer with the row behind
/// it, and the other buffers as they were.
pub proof fn law_row_goes_to_its_table(b: Tables, msg: MsgView, batch: nat)
    ensures
        ({
            let (out, left) = step(b, msg, batch);
            &&& out.bbo + left.bbo == (match msg {
                MsgView::Bbo(r) => b.bbo.push(r),
                _ => b.bbo,
            })
            &&& out.trades + left.trades == (match msg {
                MsgView::Trade(r) => b.trades.push(r),
                _ => b.trades,
            })
            &&& out.book + left.book == (match msg {
                MsgView::Book(r) => b.book.push(r),
                _ => b.book,
            })
            &&& out.twap + left.twap == (match msg {
                MsgView::Twap(r) => b.twap.push(r),
                _ => b.twap,
            })
        }),
{
    let (out, left) = step(b, msg, batch);
    assert(out.bbo + left.bbo =~= (match msg {
        MsgView::Bbo(r) => b.bbo.push(r),
        _ => b.bbo,
    }));
    assert(out.trades + left.trades =~= (match msg {
        MsgView::Trade(r) => b.trades.push(r),
        _ => b.trades,
    }));
    assert(out.book + left.book =~= (match msg {
        MsgView::Book(r) => b.book.push(r),
        _ => b.book,
    }));
    assert(out.twap + left.twap =~= (match msg {
        MsgView::Twap(r) => b.twap.push(r),
        _ => b.twap,
    }));
}

/// Rows wait for a whole batch: without a flush a table is written only if it has
/// a whole batch, and then nothing of it stays; with fewer rows all of them stay.
/// A flush writes everything.
pub proof fn law_rows_wait_for_a_batch(b: Tables, msg: MsgView, batch: nat)
    ensures
        ({
            let (out, left) = step(b, msg, batch);
            &&& msg is Flush ==> left.bbo.len() == 0 && left.trades.len() == 0 && left.book.len()
                == 0 && left.twap.len() == 0
            &&& msg !is Flush ==> {
                &&& out.bbo.len() > 0 ==> out.bbo.len() >= batch && left.bbo.len() == 0
                &&& out.trades.len() > 0 ==> out.trades.len() >= batch && left.trades.len() == 0
                &&& out.book.len() > 0 ==> out.book.len() >= batch && left.book.len() == 0
                &&& out.twap.len() > 0 ==> out.twap.len() >= batch && left.twap.len() == 0
                &&& left.bbo.len() > 0 ==> left.bbo.len() < batch
                &&& left.trades.len() > 0 ==> left.trades.len() < batch
                &&& left.book.len() > 0 ==> left.book.len() < batch
                &&& left.twap.len() > 0 ==> left.twap.len() < batch
            }
        }),
{
}

/// The buffers of the tables and the count of the rows that were written.
#[derive(Debug)]
pub struct Sink {
    /// The rows that wait.
    pub rows: Batches,
    /// How many rows make a batch.
    pub batch_size: usize,
    /// Rows that the database took.
    pub ok_rows: u64,
    /// Rows that it did not take.
    pub fail_rows: u64,
}

fn drain<T>(v: &mut Vec<T>) -> (r: Vec<T>)
    ensures
        r@ == old(v)@,
        final(v)@ == Seq::<T>::empty(),
{
    let mut out: Vec<T> = Vec::new();
    std::mem::swap(&mut out, v);
    out
}

fn drain_full<T: View>(v: &mut Vec<T>, n: usize) -> (r: Vec<T>)
    ensures
        views(r@) == if_full(views(old(v)@), n as nat),
        views(final(v)@) == unless_full(views(old(v)@), n as nat),
{
    let out: Vec<T> = if v.len() >= n {
        drain(v)
    } else {
        Vec::new()
    };
    assert(views(Seq::<T>::empty()) =~= Seq::empty());
    out
}

/// What waits in a sink are its rows, and two sinks differ in nothing but these
/// if they have the same batch size and the same counts.
pub proof fn law_sinks_differ_in_their_rows(a: Sink, b: Sink)
    ensures
        a.buffers() == a.rows@,
        a.batch() == a.batch_size,
        a.same_counts(&b) && a.rows == b.rows ==> a == b,
{
}

impl Sink {
    /// The rows that wait.
    pub open spec fn buffers(&self) -> Tables {
        self.rows@
    }

    /// How many rows make a batch.
    pub open spec fn batch(&self) -> nat {
        self.batch_size as nat
    }

    /// Empty buffers with the batch size of the settings.
    pub fn new(cfg: &Config) -> (r: Sink)
        ensures
            r.buffers() == Tables::none(),
            r.batch() == cfg.ch_batch_sz,
            r.ok_rows == 0,
            r.fail_rows == 0,
    {
        let r: Sink = Sink {
            rows: Batches { bbo: Vec::new(), trades: Vec::new(), book: Vec::new(), twap: Vec::new() },
            batch_size: cfg.ch_batch_sz,
            ok_rows: 0,
            fail_rows: 0,
        };
        assert(r.rows@ =~= Tables::none());
        r
    }

    /// Only the buffers differ.
    pub open spec fn same_counts(&self, other: &Sink) -> bool {
        self.batch() == other.batch() && self.ok_rows == other.ok_rows && self.fail_rows
            == other.fail_rows
    }

    fn put(&mut self, msg: WriteMsg)
        ensures
            final(self).buffers() == old(self).buffers().and(msg@.rows()),
            final(self).same_counts(old(self)),
    {
        match msg {
            WriteMsg::Bbo(r) => self.rows.bbo.push(r),
            WriteMsg::Trade(r) => self.rows.trades.push(r),
            WriteMsg::Book(r) => self.rows.book.push(r),
            WriteMsg::Twap(r) => self.rows.twap.push(r),
            WriteMsg::Flush => {},
        }
        assert(self.rows@ =~= old(self).rows@.and(msg@.rows()));
    }

    /// Adds the row of a quote.
    pub fn push_bbo(&mut self, r: &BboRecord)
        ensures
            final(self).buffers() == old(self).buffers().and(MsgView::Bbo(bbo_row(r@)).rows()),
            final(self).same_counts(old(self)),
    {
        self.put(WriteMsg::Bbo(BboRow::from(r)));
    }

    /// Adds the row of a trade.
    pub fn push_trade(&mut self, r: &TradeRecord)
        ensures
            final(self).buffers() == old(self).buffers().and(MsgView::Trade(trade_row(r@)).rows()),
            final(self).same_counts(old(self)),
    {
        self.put(WriteMsg::Trade(TradeRow::from(r)));
    }

    /// Adds the row of a book record.
    pub fn push_book(&mut self, r: &BookRecord)
        ensures
            final(self).buffers() == old(self).buffers().and(MsgView::Book(book_row(r@)).rows()),
            final(self).same_counts(old(self)),
    {
        self.put(WriteMsg::Book(BookRow::from(r)));
    }

    /// Adds the row of an oracle value. `false` where its text is no number: a
    /// value that cannot be read is not written as another one.
    pub fn push_twap(&mut self, r: &TwapRecord) -> (ok: bool)
        ensures
            ok == (twap_row(r@) is Some),
            final(self).buffers() == (match twap_row(r@) {
                Some(row) => old(self).buffers().and(MsgView::Twap(row).rows()),
                None => old(self).buffers(),
            }),
            final(self).same_counts(old(self)),
    {
        match TwapRow::try_from(r) {
            Ok(row) => {
                self.put(WriteMsg::Twap(row));
                true
            },
            Err(_) => false,
        }
    }

    /// Takes out the buffers that hold a whole batch.
    pub fn maybe_flush(&mut self) -> (r: Batches)
        ensures
            r@ == old(self).buffers().full(old(self).batch()),
            final(self).buffers() == old(self).buffers().partial(old(self).batch()),
            final(self).same_counts(old(self)),
    {
        let n: usize = self.batch_size;
        let r: Batches = Batches {
            bbo: drain_full(&mut self.rows.bbo, n),
            trades: drain_full(&mut self.rows.trades, n),
            book: drain_full(&mut self.rows.book, n),
            twap: drain_full(&mut self.rows.twap, n),
        };
        r
    }

    /// Takes out all buffers, so that no half batch stays in memory.
    pub fn flush_all(&mut self) -> (r: Batches)
        ensures
            r@ == old(self).buffers(),
            final(self).buffers() == Tables::none(),
            final(self).same_counts(old(self)),
    {
        let r: Batches = Batches {
            bbo: drain(&mut self.rows.bbo),
            trades: drain(&mut self.rows.trades),
            book: drain(&mut self.rows.book),
            twap: drain(&mut self.rows.twap),
        };
        assert(self.rows@ =~= Tables::none());
        r
    }

    /// Takes in a message, and hands out the batches that are now to be
    /// written.
    pub fn handle(&mut self, msg: WriteMsg) -> (r: Batches)
        ensures
            (r@, final(self).buffers()) == step(old(self).buffers(), msg@, old(self).batch()),
            final(self).same_counts(old(self)),
    {
        let flush: bool = match &msg {
            WriteMsg::Flush => true,
            _ => false,
        };
        self.put(msg);
        if flush {
            self.flush_all()
        } else {
            self.maybe_flush()
        }
    }

    /// Counts a batch of `rows` rows as taken or not, and says whether it is to
    /// be kept on disk: a batch that the database did not take always is, and
    /// an empty one never.
    pub fn written(&mut self, rows: usize, inserted: bool) -> (keep: bool)
        requires
            inserted ==> old(self).ok_rows + rows <= u64::MAX,
            !inserted ==> old(self).fail_rows + rows <= u64::MAX,
        ensures
            keep == (rows > 0 && !inserted),
            final(self).buffers() == old(self).buffers(),
            final(self).batch() == old(self).batch(),
            final(self).ok_rows == old(self).ok_rows + (if inserted {
                rows as int
            } else {
                0
            }),
            final(self).fail_rows == old(self).fail_rows + (if inserted {
                0
            } else {
                rows as int
            }),
    {
        if inserted {
            self.ok_rows = self.ok_rows + rows as u64;
            false
        } else {
            self.fail_rows = self.fail_rows + rows as u64;
            rows > 0
        }
    }
}

/// The name of the file that keeps the rows of `table` that were not inserted.
pub fn spill_file(table: &str) -> (r: String)
    ensures
        r@ == table@ + ".failed.jsonl"@,
{
    let mut name: String = table.to_owned();
    name.append(".failed.jsonl");
    name
}

} // verus!
