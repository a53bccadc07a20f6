//! Coinbase.

use vstd::prelude::*;
use vstd::string::*;

use super::fields::{
    coin, is_iso_time, is_no_number, is_qty, is_written, law_fields_are_read_as_what_they_say,
    law_sides_are_read_from_their_names, lemma_table_of_coins, names_side, stands_for,
};
use super::util::{
    dec, dec_of, dec_or_zero, dec_or_zero_of, iso_ms, iso_ms_of, lookup, pairs, s, s_of, side,
    side_of, sym_lookup, word, word_of,
};
use super::{records, stamped, texts, ExchangeSpec, ParsedRecord, RecordView};
use crate::decimal::{Decimal, DecimalView};
use crate::json::{
    all_plain, each_in_quotes, in_quotes, is_plain, json_text, list_text, parse_json, quote,
    quoted_list, texts_of, Json, JsonView,
};
use crate::seqs::{
    at_most_one, gather, lemma_gather_all, lemma_gather_append, lemma_gather_one,
    lemma_gather_step,
};
use crate::text::same;
use crate::types::{
    levels, BboRecord, BboView, BookRecord, BookView, Exchange, Level, TradeRecord, TradeSide,
    TradeView,
};

verus! {

/// Coinbase's names of the symbols.
pub const SYM: [(&'static str, &'static str); 5] = [
    ("BTC-USD", "btc/usd"),
    ("ETH-USD", "eth/usd"),
    ("SOL-USD", "sol/usd"),
    ("XRP-USD", "xrp/usd"),
    ("DOGE-USD", "doge/usd"),
];

/// The products that are asked for.
pub const PRODUCTS: [&'static str; 5] = ["BTC-USD", "ETH-USD", "SOL-USD", "XRP-USD", "DOGE-USD"];

/// The channels that are asked for.
pub const CHANNELS: [&'static str; 3] = ["ticker", "market_trades", "level2"];

/// The symbol that a product stands for.
pub open spec fn symbol_of(v: JsonView) -> Option<Seq<char>> {
    lookup(pairs(SYM@), word_of(v.at("product_id"@)))
}

/// The elements of a member that is a list; none where it is not.
pub open spec fn items_of(v: JsonView, key: Seq<char>) -> Seq<JsonView> {
    match v.at(key).as_list() {
        Some(l) => l,
        None => Seq::empty(),
    }
}

/// The best quotes of a ticker, at the time of the message.
pub open spec fn bbo_of(t: JsonView, ts_ex: i64, recv_ms: i64) -> Option<RecordView> {
    match (symbol_of(t), dec_of(t.at("best_bid"@)), dec_of(t.at("best_ask"@))) {
        (Some(symbol), Some(bid), Some(ask)) => Some(
            RecordView::Bbo(
                BboView {
                    exchange: Exchange::Coinbase,
                    symbol,
                    ts_ex,
                    recv_ms,
                    bid,
                    bid_qty: dec_or_zero_of(t.at("best_bid_quantity"@)),
                    ask,
                    ask_qty: dec_or_zero_of(t.at("best_ask_quantity"@)),
                },
            ),
        ),
        _ => None,
    }
}

/// A trade, at its own time.
pub open spec fn trade_of(t: JsonView, recv_ms: i64) -> Option<RecordView> {
    match (symbol_of(t), side_of(word_of(t.at("side"@))), dec_of(t.at("price"@))) {
        (Some(symbol), Some(side), Some(price)) => Some(
            RecordView::Trade(
                TradeView {
                    exchange: Exchange::Coinbase,
                    symbol,
                    ts_ex: iso_ms_of(t.at("time"@), recv_ms),
                    recv_ms,
                    price,
                    qty: dec_or_zero_of(t.at("size"@)),
                    side,
                    trade_id: s_of(t.at("trade_id"@)),
                },
            ),
        ),
        _ => None,
    }
}

/// The level of an update on the bid side.
pub open spec fn bid_of(u: JsonView) -> Option<Level> {
    match dec_of(u.at("price_level"@)) {
        Some(p) if word_of(u.at("side"@)) == "bid"@ => Some(
            (p, dec_or_zero_of(u.at("new_quantity"@))),
        ),
        _ => None,
    }
}

/// The level of an update on the ask side, which Coinbase calls `offer`.
pub open spec fn ask_of(u: JsonView) -> Option<Level> {
    let side = word_of(u.at("side"@));
    match dec_of(u.at("price_level"@)) {
        Some(p) if side == "offer"@ || side == "ask"@ => Some(
            (p, dec_or_zero_of(u.at("new_quantity"@))),
        ),
        _ => None,
    }
}

/// The bids among updates.
pub open spec fn bids_of(updates: Seq<JsonView>) -> Seq<Level> {
    gather(updates, |u: JsonView| at_most_one(bid_of(u)))
}

/// The asks among updates.
pub open spec fn asks_of(updates: Seq<JsonView>) -> Seq<Level> {
    gather(updates, |u: JsonView| at_most_one(ask_of(u)))
}

/// The book of an event, at the time of the message.
pub open spec fn book_of(ev: JsonView, seq: Option<u64>, ts_ex: i64, recv_ms: i64) -> Option<
    RecordView,
> {
    match (symbol_of(ev), ev.at("updates"@).as_list()) {
        (Some(symbol), Some(updates)) => Some(
            RecordView::Book(
                BookView {
                    exchange: Exchange::Coinbase,
                    symbol,
                    ts_ex,
                    recv_ms,
                    bids: bids_of(updates),
                    asks: asks_of(updates),
                    is_snapshot: ev.at("type"@).as_str() == Some("snapshot"@),
                    seq,
                    first_seq: None,
                },
            ),
        ),
        _ => None,
    }
}

/// The records of an event of a channel.
pub open spec fn event_of(
    channel: Seq<char>,
    ev: JsonView,
    seq: Option<u64>,
    ts_ex: i64,
    recv_ms: i64,
) -> Seq<RecordView> {
    if channel == "ticker"@ {
        gather(
            items_of(ev, "tickers"@),
            |t: JsonView| at_most_one(bbo_of(t, ts_ex, recv_ms)),
        )
    } else if channel == "market_trades"@ {
        gather(items_of(ev, "trades"@), |t: JsonView| at_most_one(trade_of(t, recv_ms)))
    } else if channel == "level2"@ || channel == "l2_data"@ {
        at_most_one(book_of(ev, seq, ts_ex, recv_ms))
    } else {
        Seq::empty()
    }
}

/// The records of a message.
pub open spec fn records_of(msg: JsonView, recv_ms: i64) -> Seq<RecordView> {
    let channel = word_of(msg.at("channel"@));
    let seq = msg.at("sequence_num"@).as_u64();
    let ts_ex = iso_ms_of(msg.at("timestamp"@), recv_ms);
    gather(
        items_of(msg, "events"@),
        |ev: JsonView| event_of(channel, ev, seq, ts_ex, recv_ms),
    )
}

/// An update of the side `offer` is an ask and no bid.
pub proof fn law_an_offer_is_an_ask(u: JsonView)
    requires
        word_of(u.at("side"@)) == "offer"@,
        dec_of(u.at("price_level"@)) is Some,
    ensures
        ask_of(u) is Some,
        bid_of(u) is None,
{
    reveal_strlit("offer");
    reveal_strlit("bid");
    assert("offer"@.len() == 5);
    assert("bid"@.len() == 3);
}

/// Coinbase's names: every coin that is followed has its symbol, and no
/// other name has one.
pub proof fn law_names_of_the_symbols(key: Seq<char>)
    ensures
        forall|up: Seq<char>, low: Seq<char>| #[trigger]
            coin(up, low) && key == up + "-USD"@ ==> lookup(pairs(SYM@), key) == Some(
                low + "/usd"@,
            ),
        lookup(pairs(SYM@), key) is Some ==> exists|up: Seq<char>, low: Seq<char>| #[trigger]
            coin(up, low) && key == up + "-USD"@ && lookup(pairs(SYM@), key) == Some(
                low + "/usd"@,
            ),
{
    let table = pairs(SYM@);
    reveal_strlit("BTC");
    reveal_strlit("ETH");
    reveal_strlit("SOL");
    reveal_strlit("XRP");
    reveal_strlit("DOGE");
    reveal_strlit("btc");
    reveal_strlit("eth");
    reveal_strlit("sol");
    reveal_strlit("xrp");
    reveal_strlit("doge");
    reveal_strlit("BTC-USD");
    reveal_strlit("ETH-USD");
    reveal_strlit("SOL-USD");
    reveal_strlit("XRP-USD");
    reveal_strlit("DOGE-USD");
    reveal_strlit("btc/usd");
    reveal_strlit("eth/usd");
    reveal_strlit("sol/usd");
    reveal_strlit("xrp/usd");
    reveal_strlit("doge/usd");
    reveal_strlit("-USD");
    reveal_strlit("/usd");
    assert("BTC-USD"@ =~= "BTC"@ + "-USD"@);
    assert("btc/usd"@ =~= "btc"@ + "/usd"@);
    assert("ETH-USD"@ =~= "ETH"@ + "-USD"@);
    assert("eth/usd"@ =~= "eth"@ + "/usd"@);
    assert("SOL-USD"@ =~= "SOL"@ + "-USD"@);
    assert("sol/usd"@ =~= "sol"@ + "/usd"@);
    assert("XRP-USD"@ =~= "XRP"@ + "-USD"@);
    assert("xrp/usd"@ =~= "xrp"@ + "/usd"@);
    assert("DOGE-USD"@ =~= "DOGE"@ + "-USD"@);
    assert("doge/usd"@ =~= "doge"@ + "/usd"@);
    assert(table[0] == ("BTC-USD"@, "btc/usd"@));
    assert(table[1] == ("ETH-USD"@, "eth/usd"@));
    assert(table[2] == ("SOL-USD"@, "sol/usd"@));
    assert(table[3] == ("XRP-USD"@, "xrp/usd"@));
    assert(table[4] == ("DOGE-USD"@, "doge/usd"@));
    lemma_table_of_coins(table, true, "-USD"@, key);
}

/// What a message is: of the channel `channel`, with one event.
pub open spec fn is_message(msg: JsonView, channel: Seq<char>, event: JsonView) -> bool {
    &&& msg.at("channel"@) == JsonView::Text(channel)
    &&& msg.at("events"@) == JsonView::List(seq![event])
}

proof fn lemma_channels_differ()
    ensures
        "ticker"@ != "market_trades"@,
        "ticker"@ != "level2"@,
        "ticker"@ != "l2_data"@,
        "market_trades"@ != "level2"@,
        "market_trades"@ != "l2_data"@,
{
    reveal_strlit("ticker");
    reveal_strlit("market_trades");
    reveal_strlit("level2");
    reveal_strlit("l2_data");
    assert("ticker"@[0] == 't' && "market_trades"@[0] == 'm' && "level2"@[0] == 'l'
        && "l2_data"@[0] == 'l');
}

/// A message of one event gives what the event gives.
proof fn lemma_one_event(msg: JsonView, channel: Seq<char>, event: JsonView, recv_ms: i64)
    requires
        is_message(msg, channel, event),
    ensures
        records_of(msg, recv_ms) == event_of(
            channel,
            event,
            msg.at("sequence_num"@).as_u64(),
            iso_ms_of(msg.at("timestamp"@), recv_ms),
            recv_ms,
        ),
{
    let seq = msg.at("sequence_num"@).as_u64();
    let ts_ex = iso_ms_of(msg.at("timestamp"@), recv_ms);
    lemma_gather_one(event, |ev: JsonView| event_of(channel, ev, seq, ts_ex, recv_ms));
}

/// A ticker of a coin gives one quote of its symbol, at the time of the message:
/// the bid and its quantity stand under `best_bid` and `best_bid_quantity`, the
/// ask and its quantity under `best_ask` and `best_ask_quantity`. Without one of
/// the prices it gives nothing.
pub proof fn law_quote_by_its_fields(
    msg: JsonView,
    recv_ms: i64,
    up: Seq<char>,
    low: Seq<char>,
    event: JsonView,
    d: JsonView,
    bid: Level,
    ask: Level,
)
    requires
        coin(up, low),
        is_message(msg, "ticker"@, event),
        event.at("tickers"@) == JsonView::List(seq![d]),
        d.at("product_id"@) == JsonView::Text(up + "-USD"@),
    ensures
        ({
            let v = records_of(msg, recv_ms);
            &&& is_no_number(d.at("best_bid"@)) || is_no_number(d.at("best_ask"@)) ==> v.len() == 0
            &&& stands_for(d.at("best_bid"@), bid.0) && is_qty(
                d.at("best_bid_quantity"@),
                bid.1,
            ) && stands_for(d.at("best_ask"@), ask.0) && is_qty(
                d.at("best_ask_quantity"@),
                ask.1,
            ) ==> v.len() == 1 && v[0] is Bbo && ({
                let q = v[0]->Bbo_0;
                &&& q.exchange == Exchange::Coinbase
                &&& q.symbol == low + "/usd"@
                &&& (q.bid, q.bid_qty) == bid
                &&& (q.ask, q.ask_qty) == ask
                &&& q.recv_ms == recv_ms
                &&& is_iso_time(msg.at("timestamp"@), recv_ms, q.ts_ex)
            })
        }),
{
    lemma_one_event(msg, "ticker"@, event, recv_ms);
    let ts_ex = iso_ms_of(msg.at("timestamp"@), recv_ms);
    lemma_gather_one(d, |t: JsonView| at_most_one(bbo_of(t, ts_ex, recv_ms)));
    law_names_of_the_symbols(up + "-USD"@);
    assert(coin(up, low));
    law_fields_are_read_as_what_they_say(msg.at("timestamp"@), recv_ms);
    law_fields_are_read_as_what_they_say(d.at("best_bid"@), recv_ms);
    law_fields_are_read_as_what_they_say(d.at("best_bid_quantity"@), recv_ms);
    law_fields_are_read_as_what_they_say(d.at("best_ask"@), recv_ms);
    law_fields_are_read_as_what_they_say(d.at("best_ask_quantity"@), recv_ms);
    assert(stands_for(d.at("best_bid"@), bid.0) ==> dec_of(d.at("best_bid"@)) == Some(bid.0));
    assert(stands_for(d.at("best_ask"@), ask.0) ==> dec_of(d.at("best_ask"@)) == Some(ask.0));
}

/// A trade of a coin gives one trade of its symbol: at the price under `price`,
/// of the quantity under `size`, taken by the side that `side` names, with the
/// number under `trade_id`, at the time under `time`. Without a price or a side
/// it gives nothing.
pub proof fn law_trade_by_its_fields(
    msg: JsonView,
    recv_ms: i64,
    up: Seq<char>,
    low: Seq<char>,
    event: JsonView,
    d: JsonView,
    price: DecimalView,
    qty: DecimalView,
    word: Seq<char>,
    side: TradeSide,
)
    requires
        coin(up, low),
        is_message(msg, "market_trades"@, event),
        event.at("trades"@) == JsonView::List(seq![d]),
        d.at("product_id"@) == JsonView::Text(up + "-USD"@),
        d.at("side"@) == JsonView::Text(word),
    ensures
        ({
            let v = records_of(msg, recv_ms);
            &&& is_no_number(d.at("price"@)) ==> v.len() == 0
            &&& !names_side(word, TradeSide::Buy) && !names_side(word, TradeSide::Sell) ==> v.len()
                == 0
            &&& stands_for(d.at("price"@), price) && is_qty(d.at("size"@), qty) && names_side(
                word,
                side,
            ) ==> v.len() == 1 && v[0] is Trade && ({
                let t = v[0]->Trade_0;
                &&& t.exchange == Exchange::Coinbase
                &&& t.symbol == low + "/usd"@
                &&& t.price == price
                &&& t.qty == qty
                &&& t.side == side
                &&& t.recv_ms == recv_ms
                &&& is_iso_time(d.at("time"@), recv_ms, t.ts_ex)
                &&& is_written(d.at("trade_id"@), t.trade_id)
            })
        }),
{
    lemma_channels_differ();
    lemma_one_event(msg, "market_trades"@, event, recv_ms);
    lemma_gather_one(d, |t: JsonView| at_most_one(trade_of(t, recv_ms)));
    law_names_of_the_symbols(up + "-USD"@);
    assert(coin(up, low));
    law_fields_are_read_as_what_they_say(d.at("price"@), recv_ms);
    law_fields_are_read_as_what_they_say(d.at("size"@), recv_ms);
    law_fields_are_read_as_what_they_say(d.at("time"@), recv_ms);
    law_fields_are_read_as_what_they_say(d.at("trade_id"@), recv_ms);
    assert(stands_for(d.at("price"@), price) ==> dec_of(d.at("price"@)) == Some(price));
    law_sides_are_read_from_their_names(word, TradeSide::Buy);
    law_sides_are_read_from_their_names(word, TradeSide::Sell);
}

/// A book event of a coin gives one book record of its symbol, at the time and
/// with the number of the message, whole where the event says so. On any other
/// symbol, or without updates, it gives nothing.
pub proof fn law_book_by_its_fields(
    msg: JsonView,
    recv_ms: i64,
    channel: Seq<char>,
    name: Seq<char>,
    event: JsonView,
)
    requires
        is_message(msg, channel, event),
        channel == "level2"@ || channel == "l2_data"@,
        event.at("product_id"@) == JsonView::Text(name),
    ensures
        ({
            let v = records_of(msg, recv_ms);
            &&& event.at("updates"@) !is List ==> v.len() == 0
            &&& (forall|up: Seq<char>, low: Seq<char>| #[trigger]
                coin(up, low) ==> name != up + "-USD"@) ==> v.len() == 0
            &&& forall|up: Seq<char>, low: Seq<char>|
                {
                    &&& #[trigger] coin(up, low)
                    &&& name == up + "-USD"@
                    &&& event.at("updates"@) is List
                } ==> v.len() == 1 && v[0] is Book && ({
                    let b = v[0]->Book_0;
                    &&& b.exchange == Exchange::Coinbase
                    &&& b.symbol == low + "/usd"@
                    &&& b.is_snapshot <==> event.at("type"@) == JsonView::Text("snapshot"@)
                    &&& b.recv_ms == recv_ms
                    &&& is_iso_time(msg.at("timestamp"@), recv_ms, b.ts_ex)
                    &&& msg.at("sequence_num"@) matches JsonView::Number(_, _, n) ==> b.seq == n
                    &&& msg.at("sequence_num"@) !is Number ==> b.seq is None
                    &&& b.first_seq is None
                    &&& b.bids == bids_of(event.at("updates"@)->List_0)
                    &&& b.asks == asks_of(event.at("updates"@)->List_0)
                })
        }),
{
    lemma_channels_differ();
    lemma_one_event(msg, channel, event, recv_ms);
    law_names_of_the_symbols(name);
    law_fields_are_read_as_what_they_say(msg.at("timestamp"@), recv_ms);
}

/// An update sets the quantity under `new_quantity` at the price under
/// `price_level`: on the bids where its side is `bid`, on the asks where it is
/// `offer` or `ask`, and on neither where it is anything else or has no price.
pub proof fn law_update_goes_to_its_side(u: JsonView, level: Level, side: Seq<char>)
    requires
        u.at("side"@) == JsonView::Text(side),
    ensures
        ({
            let bids = bids_of(seq![u]);
            let asks = asks_of(seq![u]);
            let is_bid = side == "bid"@;
            let is_ask = side == "offer"@ || side == "ask"@;
            &&& is_no_number(u.at("price_level"@)) ==> bids.len() == 0 && asks.len() == 0
            &&& stands_for(u.at("price_level"@), level.0) && is_qty(
                u.at("new_quantity"@),
                level.1,
            ) ==> {
                &&& is_bid ==> bids == seq![level] && asks.len() == 0
                &&& is_ask ==> asks == seq![level] && bids.len() == 0
            }
            &&& !is_bid && !is_ask ==> bids.len() == 0 && asks.len() == 0
        }),
{
    reveal_strlit("bid");
    reveal_strlit("offer");
    reveal_strlit("ask");
    assert("bid"@[0] == 'b' && "offer"@[0] == 'o' && "ask"@[0] == 'a');
    law_fields_are_read_as_what_they_say(u.at("price_level"@), 0);
    law_fields_are_read_as_what_they_say(u.at("new_quantity"@), 0);
    assert(stands_for(u.at("price_level"@), level.0) ==> dec_of(u.at("price_level"@)) == Some(
        level.0,
    ));
    lemma_gather_one(u, |u: JsonView| at_most_one(bid_of(u)));
    lemma_gather_one(u, |u: JsonView| at_most_one(ask_of(u)));
}

/// Updates are read one by one, in order.
pub proof fn law_updates_are_read_one_by_one(a: Seq<JsonView>, b: Seq<JsonView>)
    ensures
        bids_of(a + b) == bids_of(a) + bids_of(b),
        asks_of(a + b) == asks_of(a) + asks_of(b),
{
    lemma_gather_append(a, b, |u: JsonView| at_most_one(bid_of(u)));
    lemma_gather_append(a, b, |u: JsonView| at_most_one(ask_of(u)));
}

/// Events are read one by one: a message with the events of two others gives the
/// records of the first and behind them those of the second.
pub proof fn law_events_are_read_one_by_one(
    msg: JsonView,
    first: JsonView,
    second: JsonView,
    recv_ms: i64,
    a: Seq<JsonView>,
    b: Seq<JsonView>,
)
    requires
        msg.at("events"@) == JsonView::List(a + b),
        first.at("events"@) == JsonView::List(a),
        second.at("events"@) == JsonView::List(b),
        forall|key: Seq<char>|
            key != "events"@ ==> #[trigger] first.at(key) == msg.at(key) && second.at(key)
                == msg.at(key),
    ensures
        records_of(msg, recv_ms) == records_of(first, recv_ms) + records_of(second, recv_ms),
{
    reveal_strlit("events");
    reveal_strlit("channel");
    reveal_strlit("sequence_num");
    reveal_strlit("timestamp");
    assert("events"@.len() == 6 && "channel"@.len() == 7 && "sequence_num"@.len() == 12
        && "timestamp"@.len() == 9);
    assert(first.at("channel"@) == msg.at("channel"@));
    assert(first.at("sequence_num"@) == msg.at("sequence_num"@));
    assert(first.at("timestamp"@) == msg.at("timestamp"@));
    let channel = word_of(msg.at("channel"@));
    let seq = msg.at("sequence_num"@).as_u64();
    let ts_ex = iso_ms_of(msg.at("timestamp"@), recv_ms);
    lemma_gather_append(a, b, |ev: JsonView| event_of(channel, ev, seq, ts_ex, recv_ms));
}

/// The tickers and the trades of an event are read one by one: an event with
/// those of two others gives the records of the first and behind them those of
/// the second.
pub proof fn law_items_are_read_one_by_one(
    msg: JsonView,
    first: JsonView,
    second: JsonView,
    recv_ms: i64,
    channel: Seq<char>,
    key: Seq<char>,
    events: (JsonView, JsonView, JsonView),
    a: Seq<JsonView>,
    b: Seq<JsonView>,
)
    requires
        (channel == "ticker"@ && key == "tickers"@) || (channel == "market_trades"@ && key
            == "trades"@),
        is_message(msg, channel, events.0),
        is_message(first, channel, events.1),
        is_message(second, channel, events.2),
        first.at("timestamp"@) == msg.at("timestamp"@),
        second.at("timestamp"@) == msg.at("timestamp"@),
        events.0.at(key) == JsonView::List(a + b),
        events.1.at(key) == JsonView::List(a),
        events.2.at(key) == JsonView::List(b),
    ensures
        records_of(msg, recv_ms) == records_of(first, recv_ms) + records_of(second, recv_ms),
{
    lemma_channels_differ();
    lemma_one_event(msg, channel, events.0, recv_ms);
    lemma_one_event(first, channel, events.1, recv_ms);
    lemma_one_event(second, channel, events.2, recv_ms);
    let ts_ex = iso_ms_of(msg.at("timestamp"@), recv_ms);
    lemma_gather_append(a, b, |t: JsonView| at_most_one(bbo_of(t, ts_ex, recv_ms)));
    lemma_gather_append(a, b, |t: JsonView| at_most_one(trade_of(t, recv_ms)));
}

fn items<'a>(v: &'a Json, key: &str) -> (r: &'a [Json])
    ensures
        r@.map_values(|j: Json| j@) == items_of(v@, key@),
{
    match v.at(key).as_list() {
        Some(l) => l.as_slice(),
        None => {
            let none: &[Json] = &[];
            assert(none@.map_values(|j: Json| j@) =~= Seq::empty());
            none
        },
    }
}

fn read_bbo(t: &Json, ts_ex: i64, recv_ms: i64) -> (r: Option<ParsedRecord>)
    ensures
        (match r {
            Some(v) => Some(v@),
            None => None,
        }) == bbo_of(t@, ts_ex, recv_ms),
{
    match (
        sym_lookup(&SYM, word(t.at("product_id"))),
        dec(t.at("best_bid")),
        dec(t.at("best_ask")),
    ) {
        (Some(symbol), Some(bid), Some(ask)) => Some(
            ParsedRecord::Bbo(
                BboRecord {
                    exchange: Exchange::Coinbase,
                    symbol: symbol.to_owned(),
                    ts_ex,
                    recv_ms,
                    bid,
                    bid_qty: dec_or_zero(t.at("best_bid_quantity")),
                    ask,
                    ask_qty: dec_or_zero(t.at("best_ask_quantity")),
                },
            ),
        ),
        _ => None,
    }
}

fn read_trade(t: &Json, recv_ms: i64) -> (r: Option<ParsedRecord>)
    ensures
        (match r {
            Some(v) => Some(v@),
            None => None,
        }) == trade_of(t@, recv_ms),
{
    match (
        sym_lookup(&SYM, word(t.at("product_id"))),
        side(word(t.at("side"))),
        dec(t.at("price")),
    ) {
        (Some(symbol), Some(side), Some(price)) => Some(
            ParsedRecord::Trade(
                TradeRecord {
                    exchange: Exchange::Coinbase,
                    symbol: symbol.to_owned(),
                    ts_ex: iso_ms(Some(t.at("time")), recv_ms),
                    recv_ms,
                    price,
                    qty: dec_or_zero(t.at("size")),
                    side,
                    trade_id: s(Some(t.at("trade_id"))),
                },
            ),
        ),
        _ => None,
    }
}

fn read_sides(updates: &Vec<Json>) -> (r: (Vec<[Decimal; 2]>, Vec<[Decimal; 2]>))
    ensures
        levels(r.0@) == bids_of(updates@.map_values(|j: Json| j@)),
        levels(r.1@) == asks_of(updates@.map_values(|j: Json| j@)),
{
    let mut bids: Vec<[Decimal; 2]> = Vec::new();
    let mut asks: Vec<[Decimal; 2]> = Vec::new();
    let ghost items = updates@.map_values(|j: Json| j@);
    let ghost f = |u: JsonView| at_most_one(bid_of(u));
    let ghost g = |u: JsonView| at_most_one(ask_of(u));
    assert(items.take(0) =~= Seq::empty());
    assert(levels(bids@) =~= Seq::empty());
    assert(levels(asks@) =~= Seq::empty());
    proof {
        reveal_strlit("bid");
        reveal_strlit("offer");
        reveal_strlit("ask");
        assert("bid"@[0] == 'b' && "offer"@[0] == 'o' && "ask"@[0] == 'a');
    }
    let mut i: usize = 0;
    while i < updates.len()
        invariant
            items == updates@.map_values(|j: Json| j@),
            f == (|u: JsonView| at_most_one(bid_of(u))),
            g == (|u: JsonView| at_most_one(ask_of(u))),
            "bid"@ != "offer"@ && "bid"@ != "ask"@,
            i <= updates@.len(),
            levels(bids@) == gather(items.take(i as int), f),
            levels(asks@) == gather(items.take(i as int), g),
        decreases updates@.len() - i,
    {
        let u: &Json = &updates[i];
        proof {
            lemma_gather_step(items, f, i as int);
            lemma_gather_step(items, g, i as int);
            assert(items[i as int] == u@);
        }
        let ghost old_bids = bids@;
        let ghost old_asks = asks@;
        if let Some(price) = dec(u.at("price_level")) {
            let qty: Decimal = dec_or_zero(u.at("new_quantity"));
            let which: &str = word(u.at("side"));
            if same(which, "bid") {
                bids.push([price, qty]);
            } else if same(which, "offer") || same(which, "ask") {
                asks.push([price, qty]);
            }
        }
        assert(levels(bids@) =~= levels(old_bids) + f(u@));
        assert(levels(asks@) =~= levels(old_asks) + g(u@));
        i = i + 1;
    }
    assert(items.take(items.len() as int) =~= items);
    (bids, asks)
}

fn read_book(ev: &Json, seq: Option<u64>, ts_ex: i64, recv_ms: i64) -> (r: Option<ParsedRecord>)
    ensures
        (match r {
            Some(v) => Some(v@),
            None => None,
        }) == book_of(ev@, seq, ts_ex, recv_ms),
{
    let symbol: &'static str = match sym_lookup(&SYM, word(ev.at("product_id"))) {
        Some(v) => v,
        None => {
            return None;
        },
    };
    let updates: &Vec<Json> = match ev.at("updates").as_list() {
        Some(v) => v,
        None => {
            return None;
        },
    };
    let is_snapshot: bool = match ev.at("type").as_str() {
        Some(t) => same(t, "snapshot"),
        None => false,
    };
    let (bids, asks): (Vec<[Decimal; 2]>, Vec<[Decimal; 2]>) = read_sides(updates);
    Some(
        ParsedRecord::Book(
            BookRecord {
                exchange: Exchange::Coinbase,
                symbol: symbol.to_owned(),
                ts_ex,
                recv_ms,
                bids,
                asks,
                is_snapshot,
                seq,
                first_seq: None,
            },
        ),
    )
}

fn read_tickers(out: &mut Vec<ParsedRecord>, rows: &[Json], ts_ex: i64, recv_ms: i64)
    ensures
        records(final(out)@) == records(old(out)@) + gather(
            rows@.map_values(|j: Json| j@),
            |t: JsonView| at_most_one(bbo_of(t, ts_ex, recv_ms)),
        ),
{
    let ghost start = records(out@);
    let ghost items = rows@.map_values(|j: Json| j@);
    let ghost f = |t: JsonView| at_most_one(bbo_of(t, ts_ex, recv_ms));
    assert(items.take(0) =~= Seq::empty());
    assert(start =~= start + gather(items.take(0), f));
    let mut i: usize = 0;
    while i < rows.len()
        invariant
            items == rows@.map_values(|j: Json| j@),
            f == (|t: JsonView| at_most_one(bbo_of(t, ts_ex, recv_ms))),
            i <= rows@.len(),
            records(out@) == start + gather(items.take(i as int), f),
        decreases rows@.len() - i,
    {
        proof {
            lemma_gather_step(items, f, i as int);
        }
        let ghost before = out@;
        if let Some(v) = read_bbo(&rows[i], ts_ex, recv_ms) {
            out.push(v);
        }
        assert(items[i as int] == rows@[i as int]@);
        assert(records(out@) =~= records(before) + f(items[i as int]));
        i = i + 1;
    }
    assert(items.take(items.len() as int) =~= items);
}

fn read_trades(out: &mut Vec<ParsedRecord>, rows: &[Json], recv_ms: i64)
    ensures
        records(final(out)@) == records(old(out)@) + gather(
            rows@.map_values(|j: Json| j@),
            |t: JsonView| at_most_one(trade_of(t, recv_ms)),
        ),
{
    let ghost start = records(out@);
    let ghost items = rows@.map_values(|j: Json| j@);
    let ghost f = |t: JsonView| at_most_one(trade_of(t, recv_ms));
    assert(items.take(0) =~= Seq::empty());
    assert(start =~= start + gather(items.take(0), f));
    let mut i: usize = 0;
    while i < rows.len()
        invariant
            items == rows@.map_values(|j: Json| j@),
            f == (|t: JsonView| at_most_one(trade_of(t, recv_ms))),
            i <= rows@.len(),
            records(out@) == start + gather(items.take(i as int), f),
        decreases rows@.len() - i,
    {
        proof {
            lemma_gather_step(items, f, i as int);
        }
        let ghost before = out@;
        if let Some(v) = read_trade(&rows[i], recv_ms) {
            out.push(v);
        }
        assert(items[i as int] == rows@[i as int]@);
        assert(records(out@) =~= records(before) + f(items[i as int]));
        i = i + 1;
    }
    assert(items.take(items.len() as int) =~= items);
}

fn read_event(
    out: &mut Vec<ParsedRecord>,
    channel: &str,
    ev: &Json,
    seq: Option<u64>,
    ts_ex: i64,
    recv_ms: i64,
)
    ensures
        records(final(out)@) == records(old(out)@) + event_of(channel@, ev@, seq, ts_ex, recv_ms),
{
    let ghost before = out@;
    if same(channel, "ticker") {
        read_tickers(out, items(ev, "tickers"), ts_ex, recv_ms);
    } else if same(channel, "market_trades") {
        read_trades(out, items(ev, "trades"), recv_ms);
    } else if same(channel, "level2") || same(channel, "l2_data") {
        if let Some(v) = read_book(ev, seq, ts_ex, recv_ms) {
            out.push(v);
        }
        assert(records(out@) =~= records(before) + event_of(channel@, ev@, seq, ts_ex, recv_ms));
    } else {
        assert(records(out@) =~= records(before) + Seq::empty());
    }
}

proof fn lemma_stamped(msg: JsonView, recv_ms: i64)
    ensures
        stamped(records_of(msg, recv_ms), Exchange::Coinbase, recv_ms),
{
    let channel = word_of(msg.at("channel"@));
    let seq = msg.at("sequence_num"@).as_u64();
    let ts_ex = iso_ms_of(msg.at("timestamp"@), recv_ms);
    let holds = |r: RecordView| r.exchange() == Exchange::Coinbase && r.recv_ms() == recv_ms;
    let f = |ev: JsonView| event_of(channel, ev, seq, ts_ex, recv_ms);
    assert forall|ev: JsonView, i: int| 0 <= i < f(ev).len() implies holds(#[trigger] f(ev)[i]) by {
        lemma_gather_all(
            items_of(ev, "tickers"@),
            |t: JsonView| at_most_one(bbo_of(t, ts_ex, recv_ms)),
            holds,
        );
        lemma_gather_all(
            items_of(ev, "trades"@),
            |t: JsonView| at_most_one(trade_of(t, recv_ms)),
            holds,
        );
    }
    lemma_gather_all(items_of(msg, "events"@), f, holds);
}

/// Reads the records of a message.
pub fn read_message(msg: &Json, recv_ms: i64) -> (r: Vec<ParsedRecord>)
    ensures
        records(r@) == records_of(msg@, recv_ms),
        stamped(records(r@), Exchange::Coinbase, recv_ms),
{
    let mut out: Vec<ParsedRecord> = Vec::new();
    let channel: &str = word(msg.at("channel"));
    let events: &[Json] = items(msg, "events");
    let seq: Option<u64> = msg.at("sequence_num").as_u64();
    let ts_ex: i64 = iso_ms(Some(msg.at("timestamp")), recv_ms);
    let ghost list = events@.map_values(|j: Json| j@);
    let ghost f = |ev: JsonView| event_of(channel@, ev, seq, ts_ex, recv_ms);
    assert(list.take(0) =~= Seq::empty());
    assert(records(out@) =~= Seq::empty());
    let mut i: usize = 0;
    while i < events.len()
        invariant
            list == events@.map_values(|j: Json| j@),
            f == (|ev: JsonView| event_of(channel@, ev, seq, ts_ex, recv_ms)),
            i <= events@.len(),
            records(out@) == gather(list.take(i as int), f),
        decreases events@.len() - i,
    {
        proof {
            lemma_gather_step(list, f, i as int);
        }
        assert(list[i as int] == events@[i as int]@);
        read_event(&mut out, channel, &events[i], seq, ts_ex, recv_ms);
        i = i + 1;
    }
    assert(list.take(list.len() as int) =~= list);
    proof {
        lemma_stamped(msg@, recv_ms);
    }
    out
}

/// No product holds anything that JSON would escape.
proof fn lemma_products_are_plain()
    ensures
        all_plain(texts_of(PRODUCTS@)),
{
    let v = texts_of(PRODUCTS@);
    reveal_strlit("BTC-USD");
    reveal_strlit("ETH-USD");
    reveal_strlit("SOL-USD");
    reveal_strlit("XRP-USD");
    reveal_strlit("DOGE-USD");
    assert(is_plain(v[0]) && is_plain(v[1]) && is_plain(v[2]) && is_plain(v[3]) && is_plain(v[4]));
}

/// No channel holds anything that JSON would escape.
proof fn lemma_channels_are_plain()
    ensures
        all_plain(texts_of(CHANNELS@)),
{
    let v = texts_of(CHANNELS@);
    reveal_strlit("ticker");
    reveal_strlit("market_trades");
    reveal_strlit("level2");
    assert(is_plain(v[0]) && is_plain(v[1]) && is_plain(v[2]));
}

/// The request for a channel.
pub open spec fn request_of(channel: Seq<char>) -> Seq<char> {
    "{\"channel\":"@ + in_quotes(channel) + ",\"product_ids\":"@ + list_text(
        each_in_quotes(texts_of(PRODUCTS@)),
    ) + ",\"type\":\"subscribe\"}"@
}

/// The feed of Coinbase.
#[derive(Debug)]
pub struct CoinbaseCollector {
    ws_url: String,
}

impl CoinbaseCollector {
    /// The feed at its usual address.
    pub fn new() -> (r: CoinbaseCollector)
        ensures
            r.url() == "wss://advanced-trade-ws.coinbase.com"@,
    {
        CoinbaseCollector { ws_url: "wss://advanced-trade-ws.coinbase.com".to_owned() }
    }
}

/// Every symbol that can be read is asked for.
pub proof fn law_every_symbol_is_asked_for(i: int)
    requires
        0 <= i < 5,
    ensures
        texts_of(PRODUCTS@).len() == 5,
        texts_of(PRODUCTS@)[i] == pairs(SYM@)[i].0,
{
}

/// A frame is read as JSON, and gives the records of its message; what is no JSON
/// gives nothing.
pub proof fn law_frame_gives_the_records_of_its_message(
    c: CoinbaseCollector,
    raw: Seq<char>,
    recv_ms: i64,
)
    ensures
        json_text(raw) matches Some(msg) ==> c.frame(raw, recv_ms) == records_of(msg, recv_ms),
        json_text(raw) is None ==> c.frame(raw, recv_ms).len() == 0,
{
}

impl ExchangeSpec for CoinbaseCollector {
    open spec fn exchange(&self) -> Exchange {
        Exchange::Coinbase
    }

    closed spec fn url(&self) -> Seq<char> {
        self.ws_url@
    }

    open spec fn requests(&self) -> Seq<Seq<char>> {
        texts_of(CHANNELS@).map_values(|c: Seq<char>| request_of(c))
    }

    open spec fn ping(&self) -> Option<Seq<char>> {
        None
    }

    open spec fn frame(&self, raw: Seq<char>, recv_ms: i64) -> Seq<RecordView> {
        match json_text(raw) {
            Some(msg) => records_of(msg, recv_ms),
            None => Seq::empty(),
        }
    }

    fn name(&self) -> (r: &'static str) {
        "coinbase"
    }

    fn ws_url(&self) -> (r: &str) {
        self.ws_url.as_str()
    }

    fn subscribe_msgs(&self) -> (r: Vec<String>) {
        let channels: &[&'static str] = &CHANNELS;
        let mut out: Vec<String> = Vec::new();
        let mut i: usize = 0;
        while i < channels.len()
            invariant
                channels@ == CHANNELS@,
                i <= channels@.len(),
                out@.len() == i,
                forall|k: int| 0 <= k < i ==> #[trigger] out@[k]@ == request_of(CHANNELS@[k]@),
            decreases channels@.len() - i,
        {
            proof {
                lemma_products_are_plain();
                lemma_channels_are_plain();
                assert(texts_of(CHANNELS@)[i as int] == channels@[i as int]@);
            }
            let mut msg: String = "{\"channel\":".to_owned();
            msg.append(quote(channels[i]).as_str());
            msg.append(",\"product_ids\":");
            msg.append(quoted_list(&PRODUCTS).as_str());
            msg.append(",\"type\":\"subscribe\"}");
            out.push(msg);
            i = i + 1;
        }
        assert(texts(out@) =~= self.requests());
        out
    }

    fn ping_msg(&self) -> (r: Option<String>) {
        None
    }

    fn parse(&self, raw: &str, recv_ms: i64) -> (r: Vec<ParsedRecord>) {
        match parse_json(raw) {
            Some(msg) => read_message(&msg, recv_ms),
            None => {
                let out: Vec<ParsedRecord> = Vec::new();
                assert(records(out@) =~= Seq::empty());
                out
            },
        }
    }

    // The first frame of the book is larger than the usual limit.
    fn max_frame_size(&self) -> (r: usize)
        ensures
            r == 0x80_0000,
    {
        0x80_0000
    }
}

} // verus!
