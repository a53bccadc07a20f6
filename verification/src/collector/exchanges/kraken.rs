//! Kraken.

use vstd::prelude::*;
use vstd::string::*;

use super::fields::{
    coin, is_iso_time, is_no_number, is_qty, is_written, law_fields_are_read_as_what_they_say,
    law_sides_are_read_from_their_names, lemma_table_of_coins, names_side, stands_for,
};
use super::util::{
    dec, dec_of, dec_or_zero, dec_or_zero_of, iso_ms, iso_ms_of, lookup, pairs, s, s_of, side,
    side_of, sym_lookup, word, word_of,
};
use super::{records, stamped, texts, ExchangeSpec, ParsedRecord, RecordView};
use crate::decimal::{Decimal, DecimalView};
use crate::json::{
    all_plain, each_in_quotes, is_plain, json_text, list_text, parse_json, quoted_list, texts_of,
    Json, JsonView,
};
use crate::seqs::{
    at_most_one, gather, lemma_gather_all, lemma_gather_append, lemma_gather_each,
    lemma_gather_one, lemma_gather_step,
};
use crate::text::same;
use crate::types::{
    levels, BboRecord, BboView, BookRecord, BookView, Exchange, Level, TradeRecord, TradeSide,
    TradeView,
};

verus! {

/// Kraken's names of the symbols.
pub const SYM: [(&'static str, &'static str); 5] = [
    ("BTC/USD", "btc/usd"),
    ("ETH/USD", "eth/usd"),
    ("SOL/USD", "sol/usd"),
    ("XRP/USD", "xrp/usd"),
    ("DOGE/USD", "doge/usd"),
];

/// The symbols that are asked for.
pub const SYMBOLS: [&'static str; 5] = ["BTC/USD", "ETH/USD", "SOL/USD", "XRP/USD", "DOGE/USD"];

/// The symbol that an item is about.
pub open spec fn symbol_of(v: JsonView) -> Option<Seq<char>> {
    lookup(pairs(SYM@), word_of(v.at("symbol"@)))
}

/// The best quotes of a ticker. It carries no time of its own.
pub open spec fn bbo_of(d: JsonView, recv_ms: i64) -> Option<RecordView> {
    match (symbol_of(d), dec_of(d.at("bid"@)), dec_of(d.at("ask"@))) {
        (Some(symbol), Some(bid), Some(ask)) => Some(
            RecordView::Bbo(
                BboView {
                    exchange: Exchange::Kraken,
                    symbol,
                    ts_ex: recv_ms,
                    recv_ms,
                    bid,
                    bid_qty: dec_or_zero_of(d.at("bid_qty"@)),
                    ask,
                    ask_qty: dec_or_zero_of(d.at("ask_qty"@)),
                },
            ),
        ),
        _ => None,
    }
}

/// A trade.
pub open spec fn trade_of(t: JsonView, recv_ms: i64) -> Option<RecordView> {
    match (symbol_of(t), side_of(word_of(t.at("side"@))), dec_of(t.at("price"@))) {
        (Some(symbol), Some(side), Some(price)) => Some(
            RecordView::Trade(
                TradeView {
                    exchange: Exchange::Kraken,
                    symbol,
                    ts_ex: iso_ms_of(t.at("timestamp"@), recv_ms),
                    recv_ms,
                    price,
                    qty: dec_or_zero_of(t.at("qty"@)),
                    side,
                    trade_id: s_of(t.at("trade_id"@)),
                },
            ),
        ),
        _ => None,
    }
}

/// A level, which is an object with `price` and `qty`.
pub open spec fn level_of(l: JsonView) -> Option<Level> {
    match dec_of(l.at("price"@)) {
        Some(p) => Some((p, dec_or_zero_of(l.at("qty"@)))),
        None => None,
    }
}

/// The levels of a side that can be read, in order.
pub open spec fn levels_of(v: JsonView) -> Seq<Level> {
    match v.as_list() {
        Some(l) => gather(l, |x: JsonView| at_most_one(level_of(x))),
        None => Seq::empty(),
    }
}

/// The book of an item. Its checksum stands for the sequence number.
pub open spec fn book_of(d: JsonView, is_snapshot: bool, recv_ms: i64) -> Option<RecordView> {
    match symbol_of(d) {
        Some(symbol) => Some(
            RecordView::Book(
                BookView {
                    exchange: Exchange::Kraken,
                    symbol,
                    ts_ex: iso_ms_of(d.at("timestamp"@), recv_ms),
                    recv_ms,
                    bids: levels_of(d.at("bids"@)),
                    asks: levels_of(d.at("asks"@)),
                    is_snapshot,
                    seq: d.at("checksum"@).as_u64(),
                    first_seq: None,
                },
            ),
        ),
        None => None,
    }
}

/// The record of an item of a channel.
pub open spec fn item_of(channel: Seq<char>, d: JsonView, is_snapshot: bool, recv_ms: i64) -> Option<
    RecordView,
> {
    if channel == "ticker"@ {
        bbo_of(d, recv_ms)
    } else if channel == "trade"@ {
        trade_of(d, recv_ms)
    } else if channel == "book"@ {
        book_of(d, is_snapshot, recv_ms)
    } else {
        None
    }
}

/// The records of a message. What answers a request has a `method`; the name of
/// the feed is in `channel`, and whether it is a snapshot in `type`.
pub open spec fn records_of(msg: JsonView, recv_ms: i64) -> Seq<RecordView> {
    let is_snapshot = msg.at("type"@).as_str() == Some("snapshot"@);
    if msg.at("method"@) is Text || msg.at("channel"@).as_str() == Some("heartbeat"@) {
        Seq::empty()
    } else {
        match (msg.at("channel"@).as_str(), msg.at("data"@).as_list()) {
            (Some(channel), Some(data)) => gather(
                data,
                |d: JsonView| at_most_one(item_of(channel, d, is_snapshot, recv_ms)),
            ),
            _ => Seq::empty(),
        }
    }
}

/// A quote of Kraken has no time of the exchange: it bears that of receipt.
pub proof fn law_quotes_bear_the_time_of_receipt(msg: JsonView, recv_ms: i64, i: int)
    requires
        0 <= i < records_of(msg, recv_ms).len(),
        records_of(msg, recv_ms)[i] is Bbo,
    ensures
        records_of(msg, recv_ms)[i]->Bbo_0.ts_ex == recv_ms,
{
    let is_snapshot = msg.at("type"@).as_str() == Some("snapshot"@);
    let channel = msg.at("channel"@).as_str().unwrap();
    lemma_gather_all(
        msg.at("data"@).as_list().unwrap(),
        |d: JsonView| at_most_one(item_of(channel, d, is_snapshot, recv_ms)),
        |r: RecordView| r is Bbo ==> r->Bbo_0.ts_ex == recv_ms,
    );
}

/// A book record is the whole book exactly where the message says so.
pub proof fn law_type_marks_the_whole_book(msg: JsonView, recv_ms: i64, i: int)
    requires
        0 <= i < records_of(msg, recv_ms).len(),
        records_of(msg, recv_ms)[i] is Book,
    ensures
        records_of(msg, recv_ms)[i]->Book_0.is_snapshot == (msg.at("type"@).as_str() == Some(
            "snapshot"@,
        )),
{
    let is_snapshot = msg.at("type"@).as_str() == Some("snapshot"@);
    let channel = msg.at("channel"@).as_str().unwrap();
    lemma_gather_all(
        msg.at("data"@).as_list().unwrap(),
        |d: JsonView| at_most_one(item_of(channel, d, is_snapshot, recv_ms)),
        |r: RecordView| r is Book ==> r->Book_0.is_snapshot == is_snapshot,
    );
}

/// Kraken's names: every coin that is followed has its symbol, and no
/// other name has one.
pub proof fn law_names_of_the_symbols(key: Seq<char>)
    ensures
        forall|up: Seq<char>, low: Seq<char>| #[trigger]
            coin(up, low) && key == up + "/USD"@ ==> lookup(pairs(SYM@), key) == Some(
                low + "/usd"@,
            ),
        lookup(pairs(SYM@), key) is Some ==> exists|up: Seq<char>, low: Seq<char>| #[trigger]
            coin(up, low) && key == up + "/USD"@ && lookup(pairs(SYM@), key) == Some(
                low + "/usd"@,
            ),
{
    let table = pairs(SYM@);
    reveal_strlit("BTC");
    reveal_strlit("ETH");
    reveal_strlit("SOL");
    reveal_strlit("XRP");
    reveal_strlit("DOGE");
    reveal_strlit("btc");
    reveal_strlit("eth");
    reveal_strlit("sol");
    reveal_strlit("xrp");
    reveal_strlit("doge");
    reveal_strlit("BTC/USD");
    reveal_strlit("ETH/USD");
    reveal_strlit("SOL/USD");
    reveal_strlit("XRP/USD");
    reveal_strlit("DOGE/USD");
    reveal_strlit("btc/usd");
    reveal_strlit("eth/usd");
    reveal_strlit("sol/usd");
    reveal_strlit("xrp/usd");
    reveal_strlit("doge/usd");
    reveal_strlit("/USD");
    reveal_strlit("/usd");
    assert("BTC/USD"@ =~= "BTC"@ + "/USD"@);
    assert("btc/usd"@ =~= "btc"@ + "/usd"@);
    assert("ETH/USD"@ =~= "ETH"@ + "/USD"@);
    assert("eth/usd"@ =~= "eth"@ + "/usd"@);
    assert("SOL/USD"@ =~= "SOL"@ + "/USD"@);
    assert("sol/usd"@ =~= "sol"@ + "/usd"@);
    assert("XRP/USD"@ =~= "XRP"@ + "/USD"@);
    assert("xrp/usd"@ =~= "xrp"@ + "/usd"@);
    assert("DOGE/USD"@ =~= "DOGE"@ + "/USD"@);
    assert("doge/usd"@ =~= "doge"@ + "/usd"@);
    assert(table[0] == ("BTC/USD"@, "btc/usd"@));
    assert(table[1] == ("ETH/USD"@, "eth/usd"@));
    assert(table[2] == ("SOL/USD"@, "sol/usd"@));
    assert(table[3] == ("XRP/USD"@, "xrp/usd"@));
    assert(table[4] == ("DOGE/USD"@, "doge/usd"@));
    lemma_table_of_coins(table, true, "/USD"@, key);
}

/// What a message is: of the channel `channel`, with the items `data`, and no
/// answer to a request.
pub open spec fn is_message(msg: JsonView, channel: Seq<char>, data: Seq<JsonView>) -> bool {
    &&& msg.at("method"@) !is Text
    &&& msg.at("channel"@) == JsonView::Text(channel)
    &&& msg.at("data"@) == JsonView::List(data)
}

/// The value is a side of the book: objects with the prices and quantities of
/// `ladder`.
pub open spec fn is_side(v: JsonView, ladder: Seq<Level>) -> bool {
    v matches JsonView::List(items) && items.len() == ladder.len() && forall|i: int|
        0 <= i < items.len() ==> stands_for((#[trigger] items[i]).at("price"@), ladder[i].0)
            && is_qty(items[i].at("qty"@), ladder[i].1)
}

proof fn lemma_channels_differ()
    ensures
        "ticker"@ != "trade"@ && "ticker"@ != "book"@ && "trade"@ != "book"@,
        "heartbeat"@ != "ticker"@ && "heartbeat"@ != "trade"@ && "heartbeat"@ != "book"@,
{
    reveal_strlit("ticker");
    reveal_strlit("trade");
    reveal_strlit("book");
    reveal_strlit("heartbeat");
    assert("ticker"@.len() == 6 && "trade"@.len() == 5 && "book"@.len() == 4 && "heartbeat"@.len()
        == 9);
}

/// A message of one item gives what the item gives.
proof fn lemma_one_item(msg: JsonView, channel: Seq<char>, d: JsonView, recv_ms: i64)
    requires
        is_message(msg, channel, seq![d]),
        channel != "heartbeat"@,
    ensures
        records_of(msg, recv_ms) == at_most_one(
            item_of(channel, d, msg.at("type"@) == JsonView::Text("snapshot"@), recv_ms),
        ),
{
    let is_snapshot = msg.at("type"@) == JsonView::Text("snapshot"@);
    lemma_gather_one(d, |d: JsonView| at_most_one(item_of(channel, d, is_snapshot, recv_ms)));
}

/// A ticker of a coin gives one quote of its symbol: the bid and its quantity
/// stand under `bid` and `bid_qty`, the ask and its quantity under `ask` and
/// `ask_qty`. Without one of the prices it gives nothing.
pub proof fn law_quote_by_its_fields(
    msg: JsonView,
    recv_ms: i64,
    up: Seq<char>,
    low: Seq<char>,
    d: JsonView,
    bid: Level,
    ask: Level,
)
    requires
        coin(up, low),
        is_message(msg, "ticker"@, seq![d]),
        d.at("symbol"@) == JsonView::Text(up + "/USD"@),
    ensures
        ({
            let v = records_of(msg, recv_ms);
            &&& is_no_number(d.at("bid"@)) || is_no_number(d.at("ask"@)) ==> v.len() == 0
            &&& stands_for(d.at("bid"@), bid.0) && is_qty(d.at("bid_qty"@), bid.1) && stands_for(
                d.at("ask"@),
                ask.0,
            ) && is_qty(d.at("ask_qty"@), ask.1) ==> v.len() == 1 && v[0] is Bbo && ({
                let q = v[0]->Bbo_0;
                &&& q.exchange == Exchange::Kraken
                &&& q.symbol == low + "/usd"@
                &&& (q.bid, q.bid_qty) == bid
                &&& (q.ask, q.ask_qty) == ask
                &&& q.recv_ms == recv_ms
                &&& q.ts_ex == recv_ms
            })
        }),
{
    lemma_channels_differ();
    lemma_one_item(msg, "ticker"@, d, recv_ms);
    law_names_of_the_symbols(up + "/USD"@);
    assert(coin(up, low));
    law_fields_are_read_as_what_they_say(d.at("bid"@), recv_ms);
    law_fields_are_read_as_what_they_say(d.at("bid_qty"@), recv_ms);
    law_fields_are_read_as_what_they_say(d.at("ask"@), recv_ms);
    law_fields_are_read_as_what_they_say(d.at("ask_qty"@), recv_ms);
    assert(stands_for(d.at("bid"@), bid.0) ==> dec_of(d.at("bid"@)) == Some(bid.0));
    assert(stands_for(d.at("ask"@), ask.0) ==> dec_of(d.at("ask"@)) == Some(ask.0));
}

/// A trade of a coin gives one trade of its symbol: at the price under `price`,
/// of the quantity under `qty`, taken by the side that `side` names, with the
/// number under `trade_id`, at the time under `timestamp`. Without a price or a
/// side it gives nothing.
pub proof fn law_trade_by_its_fields(
    msg: JsonView,
    recv_ms: i64,
    up: Seq<char>,
    low: Seq<char>,
    d: JsonView,
    price: DecimalView,
    qty: DecimalView,
    word: Seq<char>,
    side: TradeSide,
)
    requires
        coin(up, low),
        is_message(msg, "trade"@, seq![d]),
        d.at("symbol"@) == JsonView::Text(up + "/USD"@),
        d.at("side"@) == JsonView::Text(word),
    ensures
        ({
            let v = records_of(msg, recv_ms);
            &&& is_no_number(d.at("price"@)) ==> v.len() == 0
            &&& !names_side(word, TradeSide::Buy) && !names_side(word, TradeSide::Sell) ==> v.len()
                == 0
            &&& stands_for(d.at("price"@), price) && is_qty(d.at("qty"@), qty) && names_side(
                word,
                side,
            ) ==> v.len() == 1 && v[0] is Trade && ({
                let t = v[0]->Trade_0;
                &&& t.exchange == Exchange::Kraken
                &&& t.symbol == low + "/usd"@
                &&& t.price == price
                &&& t.qty == qty
                &&& t.side == side
                &&& t.recv_ms == recv_ms
                &&& is_iso_time(d.at("timestamp"@), recv_ms, t.ts_ex)
                &&& is_written(d.at("trade_id"@), t.trade_id)
            })
        }),
{
    lemma_channels_differ();
    lemma_one_item(msg, "trade"@, d, recv_ms);
    law_names_of_the_symbols(up + "/USD"@);
    assert(coin(up, low));
    law_fields_are_read_as_what_they_say(d.at("price"@), recv_ms);
    law_fields_are_read_as_what_they_say(d.at("qty"@), recv_ms);
    law_fields_are_read_as_what_they_say(d.at("timestamp"@), recv_ms);
    law_fields_are_read_as_what_they_say(d.at("trade_id"@), recv_ms);
    assert(stands_for(d.at("price"@), price) ==> dec_of(d.at("price"@)) == Some(price));
    law_sides_are_read_from_their_names(word, TradeSide::Buy);
    law_sides_are_read_from_their_names(word, TradeSide::Sell);
}

/// A side of the book is read level by level, in order.
proof fn lemma_sides_are_read(v: JsonView, ladder: Seq<Level>)
    requires
        is_side(v, ladder),
    ensures
        levels_of(v) == ladder,
{
    let items = v->List_0;
    let f = |x: JsonView| at_most_one(level_of(x));
    assert forall|i: int| 0 <= i < items.len() implies f(#[trigger] items[i])
        == seq![ladder[i]] by {
        law_fields_are_read_as_what_they_say(items[i].at("price"@), 0);
        law_fields_are_read_as_what_they_say(items[i].at("qty"@), 0);
        assert(stands_for(items[i].at("price"@), ladder[i].0));
        assert(is_qty(items[i].at("qty"@), ladder[i].1));
    }
    lemma_gather_each(items, f, ladder);
}

/// A level without a price is left out of its side, and the others stay.
pub proof fn law_levels_without_a_price_are_left_out(
    before: Seq<JsonView>,
    bad: JsonView,
    behind: Seq<JsonView>,
)
    requires
        is_no_number(bad.at("price"@)),
    ensures
        levels_of(JsonView::List(before + seq![bad] + behind)) == levels_of(
            JsonView::List(before + behind),
        ),
{
    let f = |x: JsonView| at_most_one(level_of(x));
    law_fields_are_read_as_what_they_say(bad.at("price"@), 0);
    lemma_gather_append(before + seq![bad], behind, f);
    lemma_gather_append(before, seq![bad], f);
    lemma_gather_one(bad, f);
    lemma_gather_append(before, behind, f);
    assert(gather(before, f) + f(bad) =~= gather(before, f));
}

/// A book of a coin gives one book record of its symbol, with the bids under
/// `bids` and the asks under `asks`, whole where the message says so. Its
/// checksum stands for a number.
pub proof fn law_book_by_its_fields(
    msg: JsonView,
    recv_ms: i64,
    up: Seq<char>,
    low: Seq<char>,
    d: JsonView,
    bids: Seq<Level>,
    asks: Seq<Level>,
)
    requires
        coin(up, low),
        is_message(msg, "book"@, seq![d]),
        d.at("symbol"@) == JsonView::Text(up + "/USD"@),
        is_side(d.at("bids"@), bids),
        is_side(d.at("asks"@), asks),
    ensures
        ({
            let v = records_of(msg, recv_ms);
            &&& v.len() == 1 && v[0] is Book
            &&& ({
                let b = v[0]->Book_0;
                &&& b.exchange == Exchange::Kraken
                &&& b.symbol == low + "/usd"@
                &&& b.bids == bids
                &&& b.asks == asks
                &&& b.is_snapshot <==> msg.at("type"@) == JsonView::Text("snapshot"@)
                &&& b.recv_ms == recv_ms
                &&& is_iso_time(d.at("timestamp"@), recv_ms, b.ts_ex)
                &&& d.at("checksum"@) matches JsonView::Number(_, _, n) ==> b.seq == n
                &&& d.at("checksum"@) !is Number ==> b.seq is None
                &&& b.first_seq is None
            })
        }),
{
    lemma_channels_differ();
    lemma_one_item(msg, "book"@, d, recv_ms);
    law_names_of_the_symbols(up + "/USD"@);
    assert(coin(up, low));
    law_fields_are_read_as_what_they_say(d.at("timestamp"@), recv_ms);
    lemma_sides_are_read(d.at("bids"@), bids);
    lemma_sides_are_read(d.at("asks"@), asks);
}

/// Items are read one by one: a message with the items of two others gives the
/// records of the first and behind them those of the second.
pub proof fn law_items_are_read_one_by_one(
    msg: JsonView,
    first: JsonView,
    second: JsonView,
    recv_ms: i64,
    channel: Seq<char>,
    a: Seq<JsonView>,
    b: Seq<JsonView>,
)
    requires
        is_message(msg, channel, a + b),
        is_message(first, channel, a),
        is_message(second, channel, b),
        first.at("type"@) == msg.at("type"@),
        second.at("type"@) == msg.at("type"@),
    ensures
        records_of(msg, recv_ms) == records_of(first, recv_ms) + records_of(second, recv_ms),
{
    let is_snapshot = msg.at("type"@).as_str() == Some("snapshot"@);
    lemma_gather_append(
        a,
        b,
        |d: JsonView| at_most_one(item_of(channel, d, is_snapshot, recv_ms)),
    );
    assert(records_of(msg, recv_ms) =~= records_of(first, recv_ms) + records_of(second, recv_ms));
}

/// An answer to a request gives nothing, nor does a heartbeat, nor an item of a
/// symbol that is not followed.
pub proof fn law_other_messages_give_nothing(
    msg: JsonView,
    recv_ms: i64,
    channel: Seq<char>,
    d: JsonView,
    name: Seq<char>,
)
    ensures
        msg.at("method"@) is Text ==> records_of(msg, recv_ms).len() == 0,
        msg.at("channel"@) == JsonView::Text("heartbeat"@) ==> records_of(msg, recv_ms).len() == 0,
        is_message(msg, channel, seq![d]) && d.at("symbol"@) == JsonView::Text(name) && (forall|
            up: Seq<char>,
            low: Seq<char>,
        | #[trigger]
            coin(up, low) ==> name != up + "/USD"@) ==> records_of(msg, recv_ms).len() == 0,
{
    law_names_of_the_symbols(name);
    if is_message(msg, channel, seq![d]) && channel != "heartbeat"@ {
        lemma_one_item(msg, channel, d, recv_ms);
    }
}

fn read_levels(v: &Json) -> (r: Vec<[Decimal; 2]>)
    ensures
        levels(r@) == levels_of(v@),
{
    let mut out: Vec<[Decimal; 2]> = Vec::new();
    assert(levels(out@) =~= Seq::empty());
    let list: &Vec<Json> = match v.as_list() {
        Some(l) => l,
        None => {
            return out;
        },
    };
    let ghost items = list@.map_values(|j: Json| j@);
    let ghost f = |x: JsonView| at_most_one(level_of(x));
    assert(items.take(0) =~= Seq::empty());
    let mut i: usize = 0;
    while i < list.len()
        invariant
            items == list@.map_values(|j: Json| j@),
            f == (|x: JsonView| at_most_one(level_of(x))),
            i <= list@.len(),
            levels(out@) == gather(items.take(i as int), f),
        decreases list@.len() - i,
    {
        proof {
            lemma_gather_step(items, f, i as int);
        }
        let l: &Json = &list[i];
        let ghost before = out@;
        if let Some(price) = dec(l.at("price")) {
            out.push([price, dec_or_zero(l.at("qty"))]);
        }
        assert(items[i as int] == l@);
        assert(levels(out@) =~= levels(before) + f(l@));
        i = i + 1;
    }
    assert(items.take(items.len() as int) =~= items);
    out
}

fn read_bbo(d: &Json, recv_ms: i64) -> (r: Option<ParsedRecord>)
    ensures
        (match r {
            Some(v) => Some(v@),
            None => None,
        }) == bbo_of(d@, recv_ms),
{
    match (sym_lookup(&SYM, word(d.at("symbol"))), dec(d.at("bid")), dec(d.at("ask"))) {
        (Some(symbol), Some(bid), Some(ask)) => Some(
            ParsedRecord::Bbo(
                BboRecord {
                    exchange: Exchange::Kraken,
                    symbol: symbol.to_owned(),
                    ts_ex: recv_ms,
                    recv_ms,
                    bid,
                    bid_qty: dec_or_zero(d.at("bid_qty")),
                    ask,
                    ask_qty: dec_or_zero(d.at("ask_qty")),
                },
            ),
        ),
        _ => None,
    }
}

fn read_trade(t: &Json, recv_ms: i64) -> (r: Option<ParsedRecord>)
    ensures
        (match r {
            Some(v) => Some(v@),
            None => None,
        }) == trade_of(t@, recv_ms),
{
    match (
        sym_lookup(&SYM, word(t.at("symbol"))),
        side(word(t.at("side"))),
        dec(t.at("price")),
    ) {
        (Some(symbol), Some(side), Some(price)) => Some(
            ParsedRecord::Trade(
                TradeRecord {
                    exchange: Exchange::Kraken,
                    symbol: symbol.to_owned(),
                    ts_ex: iso_ms(Some(t.at("timestamp")), recv_ms),
                    recv_ms,
                    price,
                    qty: dec_or_zero(t.at("qty")),
                    side,
                    trade_id: s(Some(t.at("trade_id"))),
                },
            ),
        ),
        _ => None,
    }
}

fn read_book(d: &Json, is_snapshot: bool, recv_ms: i64) -> (r: Option<ParsedRecord>)
    ensures
        (match r {
            Some(v) => Some(v@),
            None => None,
        }) == book_of(d@, is_snapshot, recv_ms),
{
    match sym_lookup(&SYM, word(d.at("symbol"))) {
        Some(symbol) => Some(
            ParsedRecord::Book(
                BookRecord {
                    exchange: Exchange::Kraken,
                    symbol: symbol.to_owned(),
                    ts_ex: iso_ms(Some(d.at("timestamp")), recv_ms),
                    recv_ms,
                    bids: read_levels(d.at("bids")),
                    asks: read_levels(d.at("asks")),
                    is_snapshot,
                    seq: d.at("checksum").as_u64(),
                    first_seq: None,
                },
            ),
        ),
        None => None,
    }
}

fn read_item(channel: &str, d: &Json, is_snapshot: bool, recv_ms: i64) -> (r: Option<ParsedRecord>)
    ensures
        (match r {
            Some(v) => Some(v@),
            None => None,
        }) == item_of(channel@, d@, is_snapshot, recv_ms),
{
    if same(channel, "ticker") {
        read_bbo(d, recv_ms)
    } else if same(channel, "trade") {
        read_trade(d, recv_ms)
    } else if same(channel, "book") {
        read_book(d, is_snapshot, recv_ms)
    } else {
        None
    }
}

/// Reads the records of a message.
pub fn read_message(msg: &Json, recv_ms: i64) -> (r: Vec<ParsedRecord>)
    ensures
        records(r@) == records_of(msg@, recv_ms),
        stamped(records(r@), Exchange::Kraken, recv_ms),
{
    let mut out: Vec<ParsedRecord> = Vec::new();
    assert(records(out@) =~= Seq::empty());
    if msg.at("method").as_str().is_some() {
        return out;
    }
    let channel: &str = match msg.at("channel").as_str() {
        Some(v) => v,
        None => {
            return out;
        },
    };
    if same(channel, "heartbeat") {
        return out;
    }
    let data: &Vec<Json> = match msg.at("data").as_list() {
        Some(v) => v,
        None => {
            return out;
        },
    };
    let is_snapshot: bool = match msg.at("type").as_str() {
        Some(t) => same(t, "snapshot"),
        None => false,
    };
    let ghost items = data@.map_values(|j: Json| j@);
    let ghost f = |d: JsonView| at_most_one(item_of(channel@, d, is_snapshot, recv_ms));
    assert(items.take(0) =~= Seq::empty());
    let mut i: usize = 0;
    while i < data.len()
        invariant
            items == data@.map_values(|j: Json| j@),
            f == (|d: JsonView| at_most_one(item_of(channel@, d, is_snapshot, recv_ms))),
            i <= data@.len(),
            records(out@) == gather(items.take(i as int), f),
        decreases data@.len() - i,
    {
        proof {
            lemma_gather_step(items, f, i as int);
        }
        let ghost before = out@;
        if let Some(v) = read_item(channel, &data[i], is_snapshot, recv_ms) {
            out.push(v);
        }
        assert(items[i as int] == data@[i as int]@);
        assert(records(out@) =~= records(before) + f(items[i as int]));
        i = i + 1;
    }
    assert(items.take(items.len() as int) =~= items);
    proof {
        lemma_gather_all(
            items,
            f,
            |r: RecordView| r.exchange() == Exchange::Kraken && r.recv_ms() == recv_ms,
        );
    }
    out
}

/// The request for a channel; `options` stands between the name of the channel
/// and the symbols.
pub open spec fn request_of(channel: Seq<char>, options: Seq<char>) -> Seq<char> {
    "{\"method\":\"subscribe\",\"params\":{\"channel\":\""@ + channel + options + list_text(
        each_in_quotes(texts_of(SYMBOLS@)),
    ) + "}}"@
}

/// No symbol holds anything that JSON would escape.
proof fn lemma_symbols_are_plain()
    ensures
        all_plain(texts_of(SYMBOLS@)),
{
    let v = texts_of(SYMBOLS@);
    reveal_strlit("BTC/USD");
    reveal_strlit("ETH/USD");
    reveal_strlit("SOL/USD");
    reveal_strlit("XRP/USD");
    reveal_strlit("DOGE/USD");
    assert(is_plain(v[0]) && is_plain(v[1]) && is_plain(v[2]) && is_plain(v[3]) && is_plain(v[4]));
}

fn write_request(channel: &str, options: &str) -> (r: String)
    ensures
        r@ == request_of(channel@, options@),
{
    let mut msg: String = "{\"method\":\"subscribe\",\"params\":{\"channel\":\"".to_owned();
    msg.append(channel);
    msg.append(options);
    msg.append(quoted_list(&SYMBOLS).as_str());
    msg.append("}}");
    proof {
        lemma_symbols_are_plain();
    }
    msg
}

/// The feed of Kraken.
#[derive(Debug)]
pub struct KrakenCollector {
    ws_url: String,
}

impl KrakenCollector {
    /// The feed at its usual address.
    pub fn new() -> (r: KrakenCollector)
        ensures
            r.url() == "wss://ws.kraken.com/v2"@,
    {
        KrakenCollector { ws_url: "wss://ws.kraken.com/v2".to_owned() }
    }
}

/// Every symbol that can be read is asked for.
pub proof fn law_every_symbol_is_asked_for(i: int)
    requires
        0 <= i < 5,
    ensures
        texts_of(SYMBOLS@).len() == 5,
        texts_of(SYMBOLS@)[i] == pairs(SYM@)[i].0,
{
}

/// A frame is read as JSON, and gives the records of its message; what is no JSON
/// gives nothing.
pub proof fn law_frame_gives_the_records_of_its_message(
    c: KrakenCollector,
    raw: Seq<char>,
    recv_ms: i64,
)
    ensures
        json_text(raw) matches Some(msg) ==> c.frame(raw, recv_ms) == records_of(msg, recv_ms),
        json_text(raw) is None ==> c.frame(raw, recv_ms).len() == 0,
{
}

impl ExchangeSpec for KrakenCollector {
    open spec fn exchange(&self) -> Exchange {
        Exchange::Kraken
    }

    closed spec fn url(&self) -> Seq<char> {
        self.ws_url@
    }

    open spec fn requests(&self) -> Seq<Seq<char>> {
        seq![
            request_of("ticker"@, "\",\"symbol\":"@),
            request_of("trade"@, "\",\"symbol\":"@),
            request_of("book"@, "\",\"depth\":10,\"snapshot\":true,\"symbol\":"@),
        ]
    }

    open spec fn ping(&self) -> Option<Seq<char>> {
        Some("{\"method\":\"ping\"}"@)
    }

    open spec fn frame(&self, raw: Seq<char>, recv_ms: i64) -> Seq<RecordView> {
        match json_text(raw) {
            Some(msg) => records_of(msg, recv_ms),
            None => Seq::empty(),
        }
    }

    fn name(&self) -> (r: &'static str) {
        "kraken"
    }

    fn ws_url(&self) -> (r: &str) {
        self.ws_url.as_str()
    }

    fn subscribe_msgs(&self) -> (r: Vec<String>) {
        let mut out: Vec<String> = Vec::new();
        out.push(write_request("ticker", "\",\"symbol\":"));
        out.push(write_request("trade", "\",\"symbol\":"));
        out.push(write_request("book", "\",\"depth\":10,\"snapshot\":true,\"symbol\":"));
        assert(texts(out@) =~= self.requests());
        out
    }

    fn parse(&self, raw: &str, recv_ms: i64) -> (r: Vec<ParsedRecord>) {
        match parse_json(raw) {
            Some(msg) => read_message(&msg, recv_ms),
            None => {
                let out: Vec<ParsedRecord> = Vec::new();
                assert(records(out@) =~= Seq::empty());
                out
            },
        }
    }

    fn ping_msg(&self) -> (r: Option<String>) {
        Some("{\"method\":\"ping\"}".to_owned())
    }
}

} // verus!
