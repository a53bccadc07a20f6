//! Bybit.

use vstd::prelude::*;
use vstd::slice::slice_subrange;
use vstd::string::*;

use super::fields::{
    coin, is_ladder, is_no_number, is_qty, is_time, is_written,
    law_fields_are_read_as_what_they_say, law_ladders_are_read_level_by_level,
    law_sides_are_read_from_their_names, lemma_table_of_coins, names_side, stands_for,
};
use super::util::{
    dec, dec_of, dec_or_zero, dec_or_zero_of, ladder, ladder_of, level_or_zero, lookup, pairs, s,
    s_of, side, side_of, sym_lookup, top_level, top_of, ts, ts_of, word, word_of,
};
use super::{records, stamped, texts, ExchangeSpec, ParsedRecord, RecordView};
use crate::decimal::{Decimal, DecimalView};
use crate::json::{
    all_plain, each_in_quotes, is_plain, json_text, list_text, parse_json, quoted_list, texts_of,
    Json, JsonView,
};
use crate::seqs::{
    at_most_one, chunks, gather, lemma_gather_all, lemma_gather_append, lemma_gather_one,
    lemma_gather_step,
};
use crate::text::{after_prefix, law_prefix_and_rest, same, stands_at, strip_prefix};
use crate::types::{
    BboRecord, BboView, BookRecord, BookView, Exchange, Level, TradeRecord, TradeSide, TradeView,
};

verus! {

/// Bybit refuses a request with more topics than this.
pub const MAX_ARGS: usize = 10;

/// Bybit's names of the symbols.
pub const SYM: [(&'static str, &'static str); 5] = [
    ("BTCUSDT", "btc/usd"),
    ("ETHUSDT", "eth/usd"),
    ("SOLUSDT", "sol/usd"),
    ("XRPUSDT", "xrp/usd"),
    ("DOGEUSDT", "doge/usd"),
];

/// The topics that are asked for: quotes, trades and book changes.
pub const TOPICS: [&'static str; 15] = [
    "orderbook.1.BTCUSDT",
    "orderbook.1.ETHUSDT",
    "orderbook.1.SOLUSDT",
    "orderbook.1.XRPUSDT",
    "orderbook.1.DOGEUSDT",
    "publicTrade.BTCUSDT",
    "publicTrade.ETHUSDT",
    "publicTrade.SOLUSDT",
    "publicTrade.XRPUSDT",
    "publicTrade.DOGEUSDT",
    "orderbook.50.BTCUSDT",
    "orderbook.50.ETHUSDT",
    "orderbook.50.SOLUSDT",
    "orderbook.50.XRPUSDT",
    "orderbook.50.DOGEUSDT",
];

/// The best quotes of an `orderbook.1` frame. A frame with one side only gives
/// none: a price of zero would spoil the spread.
pub open spec fn bbo_of(symbol: Seq<char>, data: JsonView, ts_ex: i64, recv_ms: i64) -> Option<
    RecordView,
> {
    let (bid, bid_qty) = level_or_zero(top_of(data.at("b"@)));
    let (ask, ask_qty) = level_or_zero(top_of(data.at("a"@)));
    if bid.magnitude == 0 || ask.magnitude == 0 {
        None
    } else {
        Some(
            RecordView::Bbo(
                BboView {
                    exchange: Exchange::Bybit,
                    symbol,
                    ts_ex,
                    recv_ms,
                    bid,
                    bid_qty,
                    ask,
                    ask_qty,
                },
            ),
        )
    }
}

/// A trade of a `publicTrade` frame. Its own time goes before that of the frame.
pub open spec fn trade_of(symbol: Seq<char>, t: JsonView, ts_frame: i64, recv_ms: i64) -> Option<
    RecordView,
> {
    match (side_of(word_of(t.at("S"@))), dec_of(t.at("p"@))) {
        (Some(side), Some(price)) => Some(
            RecordView::Trade(
                TradeView {
                    exchange: Exchange::Bybit,
                    symbol,
                    ts_ex: ts_of(t.at("T"@), ts_frame),
                    recv_ms,
                    price,
                    qty: dec_or_zero_of(t.at("v"@)),
                    side,
                    trade_id: s_of(t.at("i"@)),
                },
            ),
        ),
        _ => None,
    }
}

/// An `orderbook.50` frame is the whole book where it says so, and where its
/// update number is 1: then the service has started anew and its book with it.
pub open spec fn is_reset(msg: JsonView) -> bool {
    msg.at("type"@).as_str() == Some("snapshot"@) || msg.at("data"@).at("u"@).as_u64() == Some(1u64)
}

/// The sequence number of an `orderbook.50` frame.
pub open spec fn seq_of(data: JsonView) -> Option<u64> {
    match data.at("seq"@).as_u64() {
        Some(n) => Some(n),
        None => data.at("u"@).as_u64(),
    }
}

/// The book of an `orderbook.50` frame.
pub open spec fn book_of(symbol: Seq<char>, msg: JsonView, ts_ex: i64, recv_ms: i64) -> RecordView {
    let data = msg.at("data"@);
    RecordView::Book(
        BookView {
            exchange: Exchange::Bybit,
            symbol,
            ts_ex,
            recv_ms,
            bids: ladder_of(data.at("b"@)),
            asks: ladder_of(data.at("a"@)),
            is_snapshot: is_reset(msg),
            seq: seq_of(data),
            first_seq: None,
        },
    )
}

/// The trades of a `publicTrade` frame that can be read.
pub open spec fn trades_of(symbol: Seq<char>, data: JsonView, ts_frame: i64, recv_ms: i64) -> Seq<
    RecordView,
> {
    match data.as_list() {
        Some(rows) => gather(
            rows,
            |t: JsonView| at_most_one(trade_of(symbol, t, ts_frame, recv_ms)),
        ),
        None => Seq::empty(),
    }
}

/// The records of a message.
pub open spec fn records_of(msg: JsonView, recv_ms: i64) -> Seq<RecordView> {
    match msg.at("topic"@).as_str() {
        Some(topic) => {
            let data = msg.at("data"@);
            let ts_frame = ts_of(msg.at("ts"@), recv_ms);
            if let Some(rest) = after_prefix(topic, "orderbook.1."@) {
                match lookup(pairs(SYM@), rest) {
                    Some(symbol) => at_most_one(bbo_of(symbol, data, ts_frame, recv_ms)),
                    None => Seq::empty(),
                }
            } else if let Some(rest) = after_prefix(topic, "publicTrade."@) {
                match lookup(pairs(SYM@), rest) {
                    Some(symbol) => trades_of(symbol, data, ts_frame, recv_ms),
                    None => Seq::empty(),
                }
            } else if let Some(rest) = after_prefix(topic, "orderbook.50."@) {
                match lookup(pairs(SYM@), rest) {
                    Some(symbol) => seq![book_of(symbol, msg, ts_frame, recv_ms)],
                    None => Seq::empty(),
                }
            } else {
                Seq::empty()
            }
        },
        None => Seq::empty(),
    }
}

/// A book record from a frame with the update number 1 is the whole book,
/// whatever the type of the frame says.
pub proof fn law_restart_resets_the_book(msg: JsonView, recv_ms: i64, i: int)
    requires
        msg.at("data"@).at("u"@).as_u64() == Some(1u64),
        0 <= i < records_of(msg, recv_ms).len(),
        records_of(msg, recv_ms)[i] is Book,
    ensures
        records_of(msg, recv_ms)[i]->Book_0.is_snapshot,
{
    lemma_trades_are_trades(msg, recv_ms);
}

proof fn lemma_trades_are_trades(msg: JsonView, recv_ms: i64)
    ensures
        ({
            let topic = msg.at("topic"@).as_str().unwrap();
            let v = records_of(msg, recv_ms);
            msg.at("topic"@).as_str() is Some && after_prefix(topic, "orderbook.1."@) is None
                && after_prefix(topic, "publicTrade."@) is Some ==> forall|i: int|
                0 <= i < v.len() ==> (#[trigger] v[i]) is Trade
        }),
{
    let topic = msg.at("topic"@).as_str().unwrap();
    if let Some(rest) = after_prefix(topic, "publicTrade."@) {
        let symbol = lookup(pairs(SYM@), rest).unwrap();
        let ts_frame = ts_of(msg.at("ts"@), recv_ms);
        lemma_gather_all(
            msg.at("data"@).as_list().unwrap(),
            |t: JsonView| at_most_one(trade_of(symbol, t, ts_frame, recv_ms)),
            |r: RecordView| r is Trade,
        );
    }
}

/// No quote of Bybit has a price of zero.
pub proof fn law_no_quote_of_zero(msg: JsonView, recv_ms: i64, i: int)
    requires
        0 <= i < records_of(msg, recv_ms).len(),
        records_of(msg, recv_ms)[i] is Bbo,
    ensures
        records_of(msg, recv_ms)[i]->Bbo_0.bid.magnitude != 0,
        records_of(msg, recv_ms)[i]->Bbo_0.ask.magnitude != 0,
{
    lemma_trades_are_trades(msg, recv_ms);
}

/// Bybit's names: every coin that is followed has its symbol, and no
/// other name has one.
pub proof fn law_names_of_the_symbols(key: Seq<char>)
    ensures
        forall|up: Seq<char>, low: Seq<char>| #[trigger]
            coin(up, low) && key == up + "USDT"@ ==> lookup(pairs(SYM@), key) == Some(
                low + "/usd"@,
            ),
        lookup(pairs(SYM@), key) is Some ==> exists|up: Seq<char>, low: Seq<char>| #[trigger]
            coin(up, low) && key == up + "USDT"@ && lookup(pairs(SYM@), key) == Some(
                low + "/usd"@,
            ),
{
    let table = pairs(SYM@);
    reveal_strlit("BTC");
    reveal_strlit("ETH");
    reveal_strlit("SOL");
    reveal_strlit("XRP");
    reveal_strlit("DOGE");
    reveal_strlit("btc");
    reveal_strlit("eth");
    reveal_strlit("sol");
    reveal_strlit("xrp");
    reveal_strlit("doge");
    reveal_strlit("BTCUSDT");
    reveal_strlit("ETHUSDT");
    reveal_strlit("SOLUSDT");
    reveal_strlit("XRPUSDT");
    reveal_strlit("DOGEUSDT");
    reveal_strlit("btc/usd");
    reveal_strlit("eth/usd");
    reveal_strlit("sol/usd");
    reveal_strlit("xrp/usd");
    reveal_strlit("doge/usd");
    reveal_strlit("USDT");
    reveal_strlit("/usd");
    assert("BTCUSDT"@ =~= "BTC"@ + "USDT"@);
    assert("btc/usd"@ =~= "btc"@ + "/usd"@);
    assert("ETHUSDT"@ =~= "ETH"@ + "USDT"@);
    assert("eth/usd"@ =~= "eth"@ + "/usd"@);
    assert("SOLUSDT"@ =~= "SOL"@ + "USDT"@);
    assert("sol/usd"@ =~= "sol"@ + "/usd"@);
    assert("XRPUSDT"@ =~= "XRP"@ + "USDT"@);
    assert("xrp/usd"@ =~= "xrp"@ + "/usd"@);
    assert("DOGEUSDT"@ =~= "DOGE"@ + "USDT"@);
    assert("doge/usd"@ =~= "doge"@ + "/usd"@);
    assert(table[0] == ("BTCUSDT"@, "btc/usd"@));
    assert(table[1] == ("ETHUSDT"@, "eth/usd"@));
    assert(table[2] == ("SOLUSDT"@, "sol/usd"@));
    assert(table[3] == ("XRPUSDT"@, "xrp/usd"@));
    assert(table[4] == ("DOGEUSDT"@, "doge/usd"@));
    lemma_table_of_coins(table, true, "USDT"@, key);
}

/// The three kinds of topics are told apart by their first letters.
proof fn lemma_kinds_of_topics(name: Seq<char>)
    ensures
        after_prefix("orderbook.1."@ + name, "orderbook.1."@) == Some(name),
        after_prefix("publicTrade."@ + name, "orderbook.1."@) is None,
        after_prefix("publicTrade."@ + name, "publicTrade."@) == Some(name),
        after_prefix("orderbook.50."@ + name, "orderbook.1."@) is None,
        after_prefix("orderbook.50."@ + name, "publicTrade."@) is None,
        after_prefix("orderbook.50."@ + name, "orderbook.50."@) == Some(name),
{
    law_prefix_and_rest("orderbook.1."@ + name, "orderbook.1."@, name);
    law_prefix_and_rest("publicTrade."@ + name, "publicTrade."@, name);
    law_prefix_and_rest("orderbook.50."@ + name, "orderbook.50."@, name);
    assert("orderbook.1."@.len() == 12 && "orderbook.1."@[0] == 'o' && "orderbook.1."@[10] == '1')
        by {
        reveal_strlit("orderbook.1.");
    }
    assert("publicTrade."@.len() == 12 && "publicTrade."@[0] == 'p') by {
        reveal_strlit("publicTrade.");
    }
    assert("orderbook.50."@.len() == 13 && "orderbook.50."@[0] == 'o' && "orderbook.50."@[10]
        == '5') by {
        reveal_strlit("orderbook.50.");
    }
    let trades = "publicTrade."@ + name;
    if stands_at(trades, "orderbook.1."@, 0) {
        assert(trades.subrange(0, 12)[0] == trades[0]);
    }
    let book = "orderbook.50."@ + name;
    if stands_at(book, "orderbook.1."@, 0) {
        assert(book.subrange(0, 12)[10] == book[10]);
    }
    if stands_at(book, "publicTrade."@, 0) {
        assert(book.subrange(0, 12)[0] == book[0]);
    }
}

/// A message of the best levels of a coin gives one quote of its symbol: the
/// first level under `b` is the bid, the first under `a` the ask. With a price of
/// zero, or with a side that has no level, it gives nothing.
pub proof fn law_quote_by_its_fields(
    msg: JsonView,
    recv_ms: i64,
    up: Seq<char>,
    low: Seq<char>,
    bids: Seq<Level>,
    asks: Seq<Level>,
)
    requires
        coin(up, low),
        msg.at("topic"@) == JsonView::Text("orderbook.1."@ + (up + "USDT"@)),
    ensures
        ({
            let v = records_of(msg, recv_ms);
            let data = msg.at("data"@);
            &&& is_ladder(data.at("b"@), bids) && is_ladder(data.at("a"@), asks) && bids.len() > 0
                && asks.len() > 0 ==> {
                &&& bids[0].0.magnitude == 0 || asks[0].0.magnitude == 0 ==> v.len() == 0
                &&& bids[0].0.magnitude != 0 && asks[0].0.magnitude != 0 ==> v.len() == 1 && v[0]
                    is Bbo && ({
                    let q = v[0]->Bbo_0;
                    &&& q.exchange == Exchange::Bybit
                    &&& q.symbol == low + "/usd"@
                    &&& (q.bid, q.bid_qty) == bids[0]
                    &&& (q.ask, q.ask_qty) == asks[0]
                    &&& q.recv_ms == recv_ms
                    &&& is_time(msg.at("ts"@), recv_ms, q.ts_ex)
                })
            }
            &&& data.at("b"@) !is List || data.at("b"@)->List_0.len() == 0 ==> v.len() == 0
            &&& data.at("a"@) !is List || data.at("a"@)->List_0.len() == 0 ==> v.len() == 0
        }),
{
    let data = msg.at("data"@);
    lemma_kinds_of_topics(up + "USDT"@);
    law_names_of_the_symbols(up + "USDT"@);
    assert(coin(up, low));
    law_fields_are_read_as_what_they_say(msg.at("ts"@), recv_ms);
    if is_ladder(data.at("b"@), bids) {
        law_ladders_are_read_level_by_level(data.at("b"@), bids);
    }
    if is_ladder(data.at("a"@), asks) {
        law_ladders_are_read_level_by_level(data.at("a"@), asks);
    }
}

/// A message with one trade of a coin gives this trade: at the price under `p`,
/// of the quantity under `v`, taken by the side that `S` names, with the number
/// under `i`, at the time under `T` or else at that of the message. Without a
/// price or a side it gives nothing.
pub proof fn law_trade_by_its_fields(
    msg: JsonView,
    recv_ms: i64,
    up: Seq<char>,
    low: Seq<char>,
    row: JsonView,
    sent_ms: i64,
    price: DecimalView,
    qty: DecimalView,
    word: Seq<char>,
    side: TradeSide,
)
    requires
        coin(up, low),
        msg.at("topic"@) == JsonView::Text("publicTrade."@ + (up + "USDT"@)),
        msg.at("data"@) == JsonView::List(seq![row]),
        is_time(msg.at("ts"@), recv_ms, sent_ms),
        row.at("S"@) == JsonView::Text(word),
    ensures
        ({
            let v = records_of(msg, recv_ms);
            &&& is_no_number(row.at("p"@)) ==> v.len() == 0
            &&& !names_side(word, TradeSide::Buy) && !names_side(word, TradeSide::Sell) ==> v.len()
                == 0
            &&& stands_for(row.at("p"@), price) && is_qty(row.at("v"@), qty) && names_side(
                word,
                side,
            ) ==> v.len() == 1 && v[0] is Trade && ({
                let t = v[0]->Trade_0;
                &&& t.exchange == Exchange::Bybit
                &&& t.symbol == low + "/usd"@
                &&& t.price == price
                &&& t.qty == qty
                &&& t.side == side
                &&& t.recv_ms == recv_ms
                &&& is_time(row.at("T"@), sent_ms, t.ts_ex)
                &&& is_written(row.at("i"@), t.trade_id)
            })
        }),
{
    lemma_kinds_of_topics(up + "USDT"@);
    law_names_of_the_symbols(up + "USDT"@);
    assert(coin(up, low));
    law_fields_are_read_as_what_they_say(msg.at("ts"@), recv_ms);
    assert(sent_ms == ts_of(msg.at("ts"@), recv_ms));
    law_fields_are_read_as_what_they_say(row.at("p"@), recv_ms);
    law_fields_are_read_as_what_they_say(row.at("v"@), recv_ms);
    law_fields_are_read_as_what_they_say(row.at("T"@), sent_ms);
    law_fields_are_read_as_what_they_say(row.at("i"@), recv_ms);
    assert(stands_for(row.at("p"@), price) ==> dec_of(row.at("p"@)) == Some(price));
    law_sides_are_read_from_their_names(word, TradeSide::Buy);
    law_sides_are_read_from_their_names(word, TradeSide::Sell);
    lemma_gather_one(
        row,
        |t: JsonView| at_most_one(trade_of(low + "/usd"@, t, sent_ms, recv_ms)),
    );
}

/// Trades are read one by one: a message with the trades of two others gives the
/// records of the first and behind them those of the second.
pub proof fn law_trades_are_read_one_by_one(
    msg: JsonView,
    first: JsonView,
    second: JsonView,
    recv_ms: i64,
    name: Seq<char>,
    a: Seq<JsonView>,
    b: Seq<JsonView>,
)
    requires
        msg.at("topic"@) == JsonView::Text("publicTrade."@ + name),
        first.at("topic"@) == msg.at("topic"@),
        second.at("topic"@) == msg.at("topic"@),
        first.at("ts"@) == msg.at("ts"@),
        second.at("ts"@) == msg.at("ts"@),
        msg.at("data"@) == JsonView::List(a + b),
        first.at("data"@) == JsonView::List(a),
        second.at("data"@) == JsonView::List(b),
    ensures
        records_of(msg, recv_ms) == records_of(first, recv_ms) + records_of(second, recv_ms),
{
    lemma_kinds_of_topics(name);
    if let Some(symbol) = lookup(pairs(SYM@), name) {
        let ts_frame = ts_of(msg.at("ts"@), recv_ms);
        lemma_gather_append(
            a,
            b,
            |t: JsonView| at_most_one(trade_of(symbol, t, ts_frame, recv_ms)),
        );
    }
}

/// A message of the book of a coin gives one book record of its symbol, with the
/// bids under `b` and the asks under `a`. It is the whole book where the message
/// says so, or where its number `u` is one, and bears the number `seq`, or else
/// `u`.
pub proof fn law_book_by_its_fields(
    msg: JsonView,
    recv_ms: i64,
    up: Seq<char>,
    low: Seq<char>,
    bids: Seq<Level>,
    asks: Seq<Level>,
)
    requires
        coin(up, low),
        msg.at("topic"@) == JsonView::Text("orderbook.50."@ + (up + "USDT"@)),
        is_ladder(msg.at("data"@).at("b"@), bids),
        is_ladder(msg.at("data"@).at("a"@), asks),
    ensures
        ({
            let v = records_of(msg, recv_ms);
            let data = msg.at("data"@);
            let whole = msg.at("type"@) == JsonView::Text("snapshot"@);
            let restart = data.at("u"@) matches JsonView::Number(_, _, Some(n)) && n == 1;
            &&& v.len() == 1 && v[0] is Book
            &&& ({
                let b = v[0]->Book_0;
                &&& b.exchange == Exchange::Bybit
                &&& b.symbol == low + "/usd"@
                &&& b.bids == bids
                &&& b.asks == asks
                &&& b.is_snapshot <==> whole || restart
                &&& b.recv_ms == recv_ms
                &&& is_time(msg.at("ts"@), recv_ms, b.ts_ex)
                &&& data.at("seq"@) matches JsonView::Number(_, _, Some(n)) ==> b.seq == Some(n)
                &&& data.at("seq"@) !is Number ==> (data.at("u"@) matches JsonView::Number(
                    _,
                    _,
                    n,
                ) ==> b.seq == n)
                &&& b.first_seq is None
            })
        }),
{
    let data = msg.at("data"@);
    lemma_kinds_of_topics(up + "USDT"@);
    law_names_of_the_symbols(up + "USDT"@);
    assert(coin(up, low));
    law_fields_are_read_as_what_they_say(msg.at("ts"@), recv_ms);
    law_ladders_are_read_level_by_level(data.at("b"@), bids);
    law_ladders_are_read_level_by_level(data.at("a"@), asks);
}

fn read_trade(symbol: &'static str, t: &Json, ts_frame: i64, recv_ms: i64) -> (r: Option<
    ParsedRecord,
>)
    ensures
        (match r {
            Some(v) => Some(v@),
            None => None,
        }) == trade_of(symbol@, t@, ts_frame, recv_ms),
{
    let side: TradeSide = match side(word(t.at("S"))) {
        Some(v) => v,
        None => {
            return None;
        },
    };
    let price: Decimal = match dec(t.at("p")) {
        Some(v) => v,
        None => {
            return None;
        },
    };
    Some(
        ParsedRecord::Trade(
            TradeRecord {
                exchange: Exchange::Bybit,
                symbol: symbol.to_owned(),
                ts_ex: ts(Some(t.at("T")), ts_frame),
                recv_ms,
                price,
                qty: dec_or_zero(t.at("v")),
                side,
                trade_id: s(Some(t.at("i"))),
            },
        ),
    )
}

fn read_trades(symbol: &'static str, data: &Json, ts_frame: i64, recv_ms: i64) -> (r: Vec<
    ParsedRecord,
>)
    ensures
        records(r@) == trades_of(symbol@, data@, ts_frame, recv_ms),
        stamped(records(r@), Exchange::Bybit, recv_ms),
{
    let mut out: Vec<ParsedRecord> = Vec::new();
    assert(records(out@) =~= Seq::empty());
    let rows: &Vec<Json> = match data.as_list() {
        Some(v) => v,
        None => {
            return out;
        },
    };
    let ghost items = rows@.map_values(|j: Json| j@);
    let ghost f = |t: JsonView| at_most_one(trade_of(symbol@, t, ts_frame, recv_ms));
    assert(items.take(0) =~= Seq::empty());
    let mut i: usize = 0;
    while i < rows.len()
        invariant
            items == rows@.map_values(|j: Json| j@),
            f == (|t: JsonView| at_most_one(trade_of(symbol@, t, ts_frame, recv_ms))),
            i <= rows@.len(),
            records(out@) == gather(items.take(i as int), f),
        decreases rows@.len() - i,
    {
        proof {
            lemma_gather_step(items, f, i as int);
        }
        let ghost before = out@;
        match read_trade(symbol, &rows[i], ts_frame, recv_ms) {
            Some(v) => {
                out.push(v);
                assert(records(out@) =~= records(before) + seq![v@]);
            },
            None => {
                assert(records(out@) =~= records(before) + Seq::empty());
            },
        }
        i = i + 1;
    }
    assert(items.take(items.len() as int) =~= items);
    proof {
        lemma_gather_all(
            items,
            f,
            |r: RecordView| r.exchange() == Exchange::Bybit && r.recv_ms() == recv_ms,
        );
    }
    out
}

/// Reads the records of a message.
pub fn read_message(msg: &Json, recv_ms: i64) -> (r: Vec<ParsedRecord>)
    ensures
        records(r@) == records_of(msg@, recv_ms),
        stamped(records(r@), Exchange::Bybit, recv_ms),
{
    let mut out: Vec<ParsedRecord> = Vec::new();
    assert(records(out@) =~= Seq::empty());
    let topic: &str = match msg.at("topic").as_str() {
        Some(v) => v,
        None => {
            return out;
        },
    };
    let data: &Json = msg.at("data");
    let ts_frame: i64 = ts(Some(msg.at("ts")), recv_ms);
    if let Some(rest) = strip_prefix(topic, "orderbook.1.") {
        let symbol: &'static str = match sym_lookup(&SYM, rest) {
            Some(v) => v,
            None => {
                return out;
            },
        };
        let (bid, bid_qty): (Decimal, Decimal) = match top_level(Some(data.at("b"))) {
            Some(l) => l,
            None => (Decimal::zero(), Decimal::zero()),
        };
        let (ask, ask_qty): (Decimal, Decimal) = match top_level(Some(data.at("a"))) {
            Some(l) => l,
            None => (Decimal::zero(), Decimal::zero()),
        };
        if bid.is_zero() || ask.is_zero() {
            return out;
        }
        out.push(
            ParsedRecord::Bbo(
                BboRecord {
                    exchange: Exchange::Bybit,
                    symbol: symbol.to_owned(),
                    ts_ex: ts_frame,
                    recv_ms,
                    bid,
                    bid_qty,
                    ask,
                    ask_qty,
                },
            ),
        );
    } else if let Some(rest) = strip_prefix(topic, "publicTrade.") {
        let symbol: &'static str = match sym_lookup(&SYM, rest) {
            Some(v) => v,
            None => {
                return out;
            },
        };
        return read_trades(symbol, data, ts_frame, recv_ms);
    } else if let Some(rest) = strip_prefix(topic, "orderbook.50.") {
        let symbol: &'static str = match sym_lookup(&SYM, rest) {
            Some(v) => v,
            None => {
                return out;
            },
        };
        let says_so: bool = match msg.at("type").as_str() {
            Some(t) => same(t, "snapshot"),
            None => false,
        };
        let restarted: bool = match data.at("u").as_u64() {
            Some(n) => n == 1,
            None => false,
        };
        let seq: Option<u64> = match data.at("seq").as_u64() {
            Some(n) => Some(n),
            None => data.at("u").as_u64(),
        };
        out.push(
            ParsedRecord::Book(
                BookRecord {
                    exchange: Exchange::Bybit,
                    symbol: symbol.to_owned(),
                    ts_ex: ts_frame,
                    recv_ms,
                    bids: ladder(Some(data.at("b"))),
                    asks: ladder(Some(data.at("a"))),
                    is_snapshot: says_so || restarted,
                    seq,
                    first_seq: None,
                },
            ),
        );
    }
    assert(records(out@) =~= records_of(msg@, recv_ms));
    out
}

/// No topic holds anything that JSON would escape.
proof fn lemma_topics_are_plain()
    ensures
        all_plain(texts_of(TOPICS@)),
{
    let v = texts_of(TOPICS@);
    reveal_strlit("orderbook.1.BTCUSDT");
    reveal_strlit("orderbook.1.ETHUSDT");
    reveal_strlit("orderbook.1.SOLUSDT");
    reveal_strlit("orderbook.1.XRPUSDT");
    reveal_strlit("orderbook.1.DOGEUSDT");
    reveal_strlit("publicTrade.BTCUSDT");
    reveal_strlit("publicTrade.ETHUSDT");
    reveal_strlit("publicTrade.SOLUSDT");
    reveal_strlit("publicTrade.XRPUSDT");
    reveal_strlit("publicTrade.DOGEUSDT");
    reveal_strlit("orderbook.50.BTCUSDT");
    reveal_strlit("orderbook.50.ETHUSDT");
    reveal_strlit("orderbook.50.SOLUSDT");
    reveal_strlit("orderbook.50.XRPUSDT");
    reveal_strlit("orderbook.50.DOGEUSDT");
    assert(is_plain(v[0]) && is_plain(v[1]) && is_plain(v[2]) && is_plain(v[3]) && is_plain(v[4]));
    assert(is_plain(v[5]) && is_plain(v[6]) && is_plain(v[7]) && is_plain(v[8]) && is_plain(v[9]));
    assert(is_plain(v[10]) && is_plain(v[11]) && is_plain(v[12]) && is_plain(v[13]) && is_plain(v[14]));
}

/// The request for a group of topics.
pub open spec fn request_of(topics: Seq<&'static str>) -> Seq<char> {
    "{\"args\":"@ + list_text(each_in_quotes(texts_of(topics))) + ",\"op\":\"subscribe\"}"@
}

/// The feed of Bybit.
#[derive(Debug)]
pub struct BybitCollector {
    ws_url: String,
}

impl BybitCollector {
    /// The feed at its usual address.
    pub fn new() -> (r: BybitCollector)
        ensures
            r.url() == "wss://stream.bybit.com/v5/public/spot"@,
    {
        BybitCollector { ws_url: "wss://stream.bybit.com/v5/public/spot".to_owned() }
    }
}

/// The topics are asked for ten at a time, all of them and in order.
pub proof fn law_topics_are_asked_for_ten_at_a_time(c: BybitCollector)
    ensures
        c.requests().len() == 2,
        c.requests()[0] == request_of(TOPICS@.subrange(0, 10)),
        c.requests()[1] == request_of(TOPICS@.subrange(10, 15)),
{
    reveal_with_fuel(chunks, 3);
    let rest = TOPICS@.skip(10);
    assert(TOPICS@.take(10) =~= TOPICS@.subrange(0, 10));
    assert(rest =~= TOPICS@.subrange(10, 15));
    assert(chunks(TOPICS@, 10) =~= seq![TOPICS@.take(10), rest]);
}

/// Every symbol that can be read is asked for: its quotes, its trades and its
/// book.
pub proof fn law_every_symbol_is_asked_for(i: int)
    requires
        0 <= i < 5,
    ensures
        texts_of(TOPICS@).len() == 15,
        texts_of(TOPICS@)[i] == "orderbook.1."@ + pairs(SYM@)[i].0,
        texts_of(TOPICS@)[i + 5] == "publicTrade."@ + pairs(SYM@)[i].0,
        texts_of(TOPICS@)[i + 10] == "orderbook.50."@ + pairs(SYM@)[i].0,
{
    assert("orderbook.1.BTCUSDT"@ =~= "orderbook.1."@ + "BTCUSDT"@) by {
        reveal_strlit("orderbook.1.BTCUSDT");
        reveal_strlit("BTCUSDT");
        reveal_strlit("orderbook.1.");
    }
    assert("orderbook.1.ETHUSDT"@ =~= "orderbook.1."@ + "ETHUSDT"@) by {
        reveal_strlit("orderbook.1.ETHUSDT");
        reveal_strlit("ETHUSDT");
        reveal_strlit("orderbook.1.");
    }
    assert("orderbook.1.SOLUSDT"@ =~= "orderbook.1."@ + "SOLUSDT"@) by {
        reveal_strlit("orderbook.1.SOLUSDT");
        reveal_strlit("SOLUSDT");
        reveal_strlit("orderbook.1.");
    }
    assert("orderbook.1.XRPUSDT"@ =~= "orderbook.1."@ + "XRPUSDT"@) by {
        reveal_strlit("orderbook.1.XRPUSDT");
        reveal_strlit("XRPUSDT");
        reveal_strlit("orderbook.1.");
    }
    assert("orderbook.1.DOGEUSDT"@ =~= "orderbook.1."@ + "DOGEUSDT"@) by {
        reveal_strlit("orderbook.1.DOGEUSDT");
        reveal_strlit("DOGEUSDT");
        reveal_strlit("orderbook.1.");
    }
    assert("publicTrade.BTCUSDT"@ =~= "publicTrade."@ + "BTCUSDT"@) by {
        reveal_strlit("publicTrade.BTCUSDT");
        reveal_strlit("BTCUSDT");
        reveal_strlit("publicTrade.");
    }
    assert("publicTrade.ETHUSDT"@ =~= "publicTrade."@ + "ETHUSDT"@) by {
        reveal_strlit("publicTrade.ETHUSDT");
        reveal_strlit("ETHUSDT");
        reveal_strlit("publicTrade.");
    }
    assert("publicTrade.SOLUSDT"@ =~= "publicTrade."@ + "SOLUSDT"@) by {
        reveal_strlit("publicTrade.SOLUSDT");
        reveal_strlit("SOLUSDT");
        reveal_strlit("publicTrade.");
    }
    assert("publicTrade.XRPUSDT"@ =~= "publicTrade."@ + "XRPUSDT"@) by {
        reveal_strlit("publicTrade.XRPUSDT");
        reveal_strlit("XRPUSDT");
        reveal_strlit("publicTrade.");
    }
    assert("publicTrade.DOGEUSDT"@ =~= "publicTrade."@ + "DOGEUSDT"@) by {
        reveal_strlit("publicTrade.DOGEUSDT");
        reveal_strlit("DOGEUSDT");
        reveal_strlit("publicTrade.");
    }
    assert("orderbook.50.BTCUSDT"@ =~= "orderbook.50."@ + "BTCUSDT"@) by {
        reveal_strlit("orderbook.50.BTCUSDT");
        reveal_strlit("BTCUSDT");
        reveal_strlit("orderbook.50.");
    }
    assert("orderbook.50.ETHUSDT"@ =~= "orderbook.50."@ + "ETHUSDT"@) by {
        reveal_strlit("orderbook.50.ETHUSDT");
        reveal_strlit("ETHUSDT");
        reveal_strlit("orderbook.50.");
    }
    assert("orderbook.50.SOLUSDT"@ =~= "orderbook.50."@ + "SOLUSDT"@) by {
        reveal_strlit("orderbook.50.SOLUSDT");
        reveal_strlit("SOLUSDT");
        reveal_strlit("orderbook.50.");
    }
    assert("orderbook.50.XRPUSDT"@ =~= "orderbook.50."@ + "XRPUSDT"@) by {
        reveal_strlit("orderbook.50.XRPUSDT");
        reveal_strlit("XRPUSDT");
        reveal_strlit("orderbook.50.");
    }
    assert("orderbook.50.DOGEUSDT"@ =~= "orderbook.50."@ + "DOGEUSDT"@) by {
        reveal_strlit("orderbook.50.DOGEUSDT");
        reveal_strlit("DOGEUSDT");
        reveal_strlit("orderbook.50.");
    }
}

/// A frame is read as JSON, and gives the records of its message; what is no JSON
/// gives nothing.
pub proof fn law_frame_gives_the_records_of_its_message(
    c: BybitCollector,
    raw: Seq<char>,
    recv_ms: i64,
)
    ensures
        json_text(raw) matches Some(msg) ==> c.frame(raw, recv_ms) == records_of(msg, recv_ms),
        json_text(raw) is None ==> c.frame(raw, recv_ms).len() == 0,
{
}

impl ExchangeSpec for BybitCollector {
    open spec fn exchange(&self) -> Exchange {
        Exchange::Bybit
    }

    closed spec fn url(&self) -> Seq<char> {
        self.ws_url@
    }

    open spec fn requests(&self) -> Seq<Seq<char>> {
        chunks(TOPICS@, MAX_ARGS as nat).map_values(|c: Seq<&'static str>| request_of(c))
    }

    open spec fn ping(&self) -> Option<Seq<char>> {
        Some("{\"op\":\"ping\"}"@)
    }

    open spec fn frame(&self, raw: Seq<char>, recv_ms: i64) -> Seq<RecordView> {
        match json_text(raw) {
            Some(msg) => records_of(msg, recv_ms),
            None => Seq::empty(),
        }
    }

    fn name(&self) -> (r: &'static str) {
        "bybit"
    }

    fn ws_url(&self) -> (r: &str) {
        self.ws_url.as_str()
    }

    fn subscribe_msgs(&self) -> (r: Vec<String>) {
        let topics: &[&'static str] = &TOPICS;
        let mut out: Vec<String> = Vec::new();
        let mut from: usize = 0;
        let ghost f = |c: Seq<&'static str>| request_of(c);
        assert(TOPICS@.skip(0) =~= TOPICS@);
        assert(texts(out@) + chunks(TOPICS@, MAX_ARGS as nat).map_values(f) =~= self.requests());
        while from < topics.len()
            invariant
                f == (|c: Seq<&'static str>| request_of(c)),
                topics@ == TOPICS@,
                from <= topics@.len(),
                topics@.len() == 15,
                texts(out@) + chunks(TOPICS@.skip(from as int), MAX_ARGS as nat).map_values(f)
                    == self.requests(),
            decreases topics@.len() - from,
        {
            let to: usize = if topics.len() - from <= MAX_ARGS {
                topics.len()
            } else {
                from + MAX_ARGS
            };
            let group: &[&'static str] = slice_subrange(topics, from, to);
            let mut msg: String = "{\"args\":".to_owned();
            msg.append(quoted_list(group).as_str());
            msg.append(",\"op\":\"subscribe\"}");
            let ghost left = TOPICS@.skip(from as int);
            let ghost before = out@;
            assert(left.take(to - from) =~= group@);
            assert(all_plain(texts_of(group@))) by {
                lemma_topics_are_plain();
                assert forall|k: int| 0 <= k < group@.len() implies is_plain(
                    #[trigger] texts_of(group@)[k],
                ) by {
                    assert(texts_of(group@)[k] == texts_of(TOPICS@)[from + k]);
                }
            }
            assert(left.skip(to - from) =~= TOPICS@.skip(to as int));
            assert(chunks(left, MAX_ARGS as nat) =~= seq![group@] + chunks(
                TOPICS@.skip(to as int),
                MAX_ARGS as nat,
            )) by {
                if left.len() <= MAX_ARGS {
                    assert(left =~= group@);
                }
            }
            out.push(msg);
            assert(texts(out@) + chunks(TOPICS@.skip(to as int), MAX_ARGS as nat).map_values(f)
                =~= texts(before) + chunks(left, MAX_ARGS as nat).map_values(f));
            from = to;
        }
        assert(texts(out@) =~= self.requests());
        out
    }

    fn parse(&self, raw: &str, recv_ms: i64) -> (r: Vec<ParsedRecord>) {
        match parse_json(raw) {
            Some(msg) => read_message(&msg, recv_ms),
            None => {
                let out: Vec<ParsedRecord> = Vec::new();
                assert(records(out@) =~= Seq::empty());
                out
            },
        }
    }

    fn ping_msg(&self) -> (r: Option<String>) {
        Some("{\"op\":\"ping\"}".to_owned())
    }
}

} // verus!
