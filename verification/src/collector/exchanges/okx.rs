//! OKX.

use vstd::prelude::*;
use vstd::string::*;

use super::fields::{
    coin, is_ladder, is_no_number, is_qty, is_time, is_written,
    law_fields_are_read_as_what_they_say, law_ladders_are_read_level_by_level,
    law_sides_are_read_from_their_names, lemma_table_of_coins, names_side, stands_for,
};
use super::util::{
    dec, dec_of, dec_or_zero, dec_or_zero_of, ladder, ladder_of, level_or_zero, lookup, pairs, s,
    s_of, side, side_of, sym_lookup, top_level, top_of, ts, ts_of, word, word_of,
};
use super::{records, stamped, texts, ExchangeSpec, ParsedRecord, RecordView};
use crate::decimal::{Decimal, DecimalView};
use crate::json::{
    all_plain, in_quotes, is_plain, json_text, list_text, parse_json, quote, texts_of, Json,
    JsonView,
};
use crate::seqs::{
    at_most_one, gather, lemma_gather_all, lemma_gather_append, lemma_gather_one,
    lemma_gather_step,
};
use crate::text::same;
use crate::types::{
    BboRecord, BboView, BookRecord, BookView, Exchange, Level, TradeRecord, TradeSide, TradeView,
};

verus! {

/// OKX's names of the symbols.
pub const SYM: [(&'static str, &'static str); 5] = [
    ("BTC-USDT", "btc/usd"),
    ("ETH-USDT", "eth/usd"),
    ("SOL-USDT", "sol/usd"),
    ("XRP-USDT", "xrp/usd"),
    ("DOGE-USDT", "doge/usd"),
];

/// The instruments that are asked for.
pub const INSTRUMENTS: [&'static str; 5] = [
    "BTC-USDT",
    "ETH-USDT",
    "SOL-USDT",
    "XRP-USDT",
    "DOGE-USDT",
];

/// The best quotes of a `bbo-tbt` frame.
pub open spec fn bbo_of(symbol: Seq<char>, d: JsonView, recv_ms: i64) -> RecordView {
    let (bid, bid_qty) = level_or_zero(top_of(d.at("bids"@)));
    let (ask, ask_qty) = level_or_zero(top_of(d.at("asks"@)));
    RecordView::Bbo(
        BboView {
            exchange: Exchange::Okx,
            symbol,
            ts_ex: ts_of(d.at("ts"@), recv_ms),
            recv_ms,
            bid,
            bid_qty,
            ask,
            ask_qty,
        },
    )
}

/// A trade of a `trades` frame.
pub open spec fn trade_of(symbol: Seq<char>, t: JsonView, recv_ms: i64) -> Option<RecordView> {
    match (side_of(word_of(t.at("side"@))), dec_of(t.at("px"@))) {
        (Some(side), Some(price)) => Some(
            RecordView::Trade(
                TradeView {
                    exchange: Exchange::Okx,
                    symbol,
                    ts_ex: ts_of(t.at("ts"@), recv_ms),
                    recv_ms,
                    price,
                    qty: dec_or_zero_of(t.at("sz"@)),
                    side,
                    trade_id: s_of(t.at("tradeId"@)),
                },
            ),
        ),
        _ => None,
    }
}

/// The book of a `books5` frame: each frame is the whole of it.
pub open spec fn book_of(symbol: Seq<char>, d: JsonView, recv_ms: i64) -> RecordView {
    RecordView::Book(
        BookView {
            exchange: Exchange::Okx,
            symbol,
            ts_ex: ts_of(d.at("ts"@), recv_ms),
            recv_ms,
            bids: ladder_of(d.at("bids"@)),
            asks: ladder_of(d.at("asks"@)),
            is_snapshot: true,
            seq: d.at("seqId"@).as_u64(),
            first_seq: None,
        },
    )
}

/// The records of a channel's data.
pub open spec fn channel_of(
    channel: Seq<char>,
    symbol: Seq<char>,
    data: Seq<JsonView>,
    recv_ms: i64,
) -> Seq<RecordView> {
    if data.len() == 0 {
        Seq::empty()
    } else if channel == "bbo-tbt"@ {
        seq![bbo_of(symbol, data[0], recv_ms)]
    } else if channel == "trades"@ {
        gather(data, |t: JsonView| at_most_one(trade_of(symbol, t, recv_ms)))
    } else if channel == "books5"@ {
        seq![book_of(symbol, data[0], recv_ms)]
    } else {
        Seq::empty()
    }
}

/// The records of a message. A message with an `event` acknowledges a request.
pub open spec fn records_of(msg: JsonView, recv_ms: i64) -> Seq<RecordView> {
    let arg = msg.at("arg"@);
    if msg.at("event"@) is Text {
        Seq::empty()
    } else {
        match (
            arg.at("channel"@).as_str(),
            lookup(pairs(SYM@), word_of(arg.at("instId"@))),
            msg.at("data"@).as_list(),
        ) {
            (Some(channel), Some(symbol), Some(data)) => channel_of(channel, symbol, data, recv_ms),
            _ => Seq::empty(),
        }
    }
}

/// Every book record of OKX is the whole book.
pub proof fn law_every_book_is_whole(msg: JsonView, recv_ms: i64, i: int)
    requires
        0 <= i < records_of(msg, recv_ms).len(),
        records_of(msg, recv_ms)[i] is Book,
    ensures
        records_of(msg, recv_ms)[i]->Book_0.is_snapshot,
{
    let arg = msg.at("arg"@);
    let symbol = lookup(pairs(SYM@), word_of(arg.at("instId"@))).unwrap();
    lemma_gather_all(
        msg.at("data"@).as_list().unwrap(),
        |t: JsonView| at_most_one(trade_of(symbol, t, recv_ms)),
        |r: RecordView| r is Trade,
    );
}

/// OKX's names: every coin that is followed has its symbol, and no
/// other name has one.
pub proof fn law_names_of_the_symbols(key: Seq<char>)
    ensures
        forall|up: Seq<char>, low: Seq<char>| #[trigger]
            coin(up, low) && key == up + "-USDT"@ ==> lookup(pairs(SYM@), key) == Some(
                low + "/usd"@,
            ),
        lookup(pairs(SYM@), key) is Some ==> exists|up: Seq<char>, low: Seq<char>| #[trigger]
            coin(up, low) && key == up + "-USDT"@ && lookup(pairs(SYM@), key) == Some(
                low + "/usd"@,
            ),
{
    let table = pairs(SYM@);
    reveal_strlit("BTC");
    reveal_strlit("ETH");
    reveal_strlit("SOL");
    reveal_strlit("XRP");
    reveal_strlit("DOGE");
    reveal_strlit("btc");
    reveal_strlit("eth");
    reveal_strlit("sol");
    reveal_strlit("xrp");
    reveal_strlit("doge");
    reveal_strlit("BTC-USDT");
    reveal_strlit("ETH-USDT");
    reveal_strlit("SOL-USDT");
    reveal_strlit("XRP-USDT");
    reveal_strlit("DOGE-USDT");
    reveal_strlit("btc/usd");
    reveal_strlit("eth/usd");
    reveal_strlit("sol/usd");
    reveal_strlit("xrp/usd");
    reveal_strlit("doge/usd");
    reveal_strlit("-USDT");
    reveal_strlit("/usd");
    assert("BTC-USDT"@ =~= "BTC"@ + "-USDT"@);
    assert("btc/usd"@ =~= "btc"@ + "/usd"@);
    assert("ETH-USDT"@ =~= "ETH"@ + "-USDT"@);
    assert("eth/usd"@ =~= "eth"@ + "/usd"@);
    assert("SOL-USDT"@ =~= "SOL"@ + "-USDT"@);
    assert("sol/usd"@ =~= "sol"@ + "/usd"@);
    assert("XRP-USDT"@ =~= "XRP"@ + "-USDT"@);
    assert("xrp/usd"@ =~= "xrp"@ + "/usd"@);
    assert("DOGE-USDT"@ =~= "DOGE"@ + "-USDT"@);
    assert("doge/usd"@ =~= "doge"@ + "/usd"@);
    assert(table[0] == ("BTC-USDT"@, "btc/usd"@));
    assert(table[1] == ("ETH-USDT"@, "eth/usd"@));
    assert(table[2] == ("SOL-USDT"@, "sol/usd"@));
    assert(table[3] == ("XRP-USDT"@, "xrp/usd"@));
    assert(table[4] == ("DOGE-USDT"@, "doge/usd"@));
    lemma_table_of_coins(table, true, "-USDT"@, key);
}

/// What a message is: of the channel `channel` of the coin, with the data `data`,
/// and no answer to a request.
pub open spec fn is_message(
    msg: JsonView,
    channel: Seq<char>,
    up: Seq<char>,
    data: Seq<JsonView>,
) -> bool {
    &&& msg.at("event"@) !is Text
    &&& msg.at("arg"@).at("channel"@) == JsonView::Text(channel)
    &&& msg.at("arg"@).at("instId"@) == JsonView::Text(up + "-USDT"@)
    &&& msg.at("data"@) == JsonView::List(data)
}

proof fn lemma_channels_differ()
    ensures
        "bbo-tbt"@ != "trades"@,
        "bbo-tbt"@ != "books5"@,
        "trades"@ != "books5"@,
{
    reveal_strlit("bbo-tbt");
    reveal_strlit("trades");
    reveal_strlit("books5");
    assert("bbo-tbt"@.len() == 7 && "trades"@.len() == 6 && "books5"@.len() == 6);
    assert("trades"@[0] == 't' && "books5"@[0] == 'b');
}

/// A message of the best levels of a coin gives one quote of its symbol: the
/// first level under `bids` is the bid, the first under `asks` the ask.
pub proof fn law_quote_by_its_fields(
    msg: JsonView,
    recv_ms: i64,
    up: Seq<char>,
    low: Seq<char>,
    data: Seq<JsonView>,
    bids: Seq<Level>,
    asks: Seq<Level>,
)
    requires
        coin(up, low),
        is_message(msg, "bbo-tbt"@, up, data),
        data.len() > 0,
        is_ladder(data[0].at("bids"@), bids),
        is_ladder(data[0].at("asks"@), asks),
        bids.len() > 0,
        asks.len() > 0,
    ensures
        ({
            let v = records_of(msg, recv_ms);
            &&& v.len() == 1 && v[0] is Bbo
            &&& ({
                let q = v[0]->Bbo_0;
                &&& q.exchange == Exchange::Okx
                &&& q.symbol == low + "/usd"@
                &&& (q.bid, q.bid_qty) == bids[0]
                &&& (q.ask, q.ask_qty) == asks[0]
                &&& q.recv_ms == recv_ms
                &&& is_time(data[0].at("ts"@), recv_ms, q.ts_ex)
            })
        }),
{
    law_names_of_the_symbols(up + "-USDT"@);
    assert(coin(up, low));
    law_fields_are_read_as_what_they_say(data[0].at("ts"@), recv_ms);
    law_ladders_are_read_level_by_level(data[0].at("bids"@), bids);
    law_ladders_are_read_level_by_level(data[0].at("asks"@), asks);
}

/// A message with one trade of a coin gives this trade: at the price under `px`,
/// of the quantity under `sz`, taken by the side that `side` names, with the
/// number under `tradeId`, at the time under `ts`. Without a price or a side it
/// gives nothing.
pub proof fn law_trade_by_its_fields(
    msg: JsonView,
    recv_ms: i64,
    up: Seq<char>,
    low: Seq<char>,
    row: JsonView,
    price: DecimalView,
    qty: DecimalView,
    word: Seq<char>,
    side: TradeSide,
)
    requires
        coin(up, low),
        is_message(msg, "trades"@, up, seq![row]),
        row.at("side"@) == JsonView::Text(word),
    ensures
        ({
            let v = records_of(msg, recv_ms);
            &&& is_no_number(row.at("px"@)) ==> v.len() == 0
            &&& !names_side(word, TradeSide::Buy) && !names_side(word, TradeSide::Sell) ==> v.len()
                == 0
            &&& stands_for(row.at("px"@), price) && is_qty(row.at("sz"@), qty) && names_side(
                word,
                side,
            ) ==> v.len() == 1 && v[0] is Trade && ({
                let t = v[0]->Trade_0;
                &&& t.exchange == Exchange::Okx
                &&& t.symbol == low + "/usd"@
                &&& t.price == price
                &&& t.qty == qty
                &&& t.side == side
                &&& t.recv_ms == recv_ms
                &&& is_time(row.at("ts"@), recv_ms, t.ts_ex)
                &&& is_written(row.at("tradeId"@), t.trade_id)
            })
        }),
{
    lemma_channels_differ();
    law_names_of_the_symbols(up + "-USDT"@);
    assert(coin(up, low));
    law_fields_are_read_as_what_they_say(row.at("px"@), recv_ms);
    law_fields_are_read_as_what_they_say(row.at("sz"@), recv_ms);
    law_fields_are_read_as_what_they_say(row.at("ts"@), recv_ms);
    law_fields_are_read_as_what_they_say(row.at("tradeId"@), recv_ms);
    assert(stands_for(row.at("px"@), price) ==> dec_of(row.at("px"@)) == Some(price));
    law_sides_are_read_from_their_names(word, TradeSide::Buy);
    law_sides_are_read_from_their_names(word, TradeSide::Sell);
    lemma_gather_one(row, |t: JsonView| at_most_one(trade_of(low + "/usd"@, t, recv_ms)));
}

/// Trades are read one by one: a message with the trades of two others gives the
/// records of the first and behind them those of the second.
pub proof fn law_trades_are_read_one_by_one(
    msg: JsonView,
    first: JsonView,
    second: JsonView,
    recv_ms: i64,
    up: Seq<char>,
    low: Seq<char>,
    a: Seq<JsonView>,
    b: Seq<JsonView>,
)
    requires
        coin(up, low),
        is_message(msg, "trades"@, up, a + b),
        is_message(first, "trades"@, up, a),
        is_message(second, "trades"@, up, b),
    ensures
        records_of(msg, recv_ms) == records_of(first, recv_ms) + records_of(second, recv_ms),
{
    lemma_channels_differ();
    law_names_of_the_symbols(up + "-USDT"@);
    assert(coin(up, low));
    let f = |t: JsonView| at_most_one(trade_of(low + "/usd"@, t, recv_ms));
    lemma_gather_append(a, b, f);
    if a.len() == 0 {
        assert(gather(a, f) =~= Seq::empty());
    }
    if b.len() == 0 {
        assert(gather(b, f) =~= Seq::empty());
    }
    assert(records_of(msg, recv_ms) =~= records_of(first, recv_ms) + records_of(second, recv_ms));
}

/// A message of the book of a coin gives one whole book of its symbol, with the
/// bids under `bids`, the asks under `asks` and the number under `seqId`.
pub proof fn law_book_by_its_fields(
    msg: JsonView,
    recv_ms: i64,
    up: Seq<char>,
    low: Seq<char>,
    data: Seq<JsonView>,
    bids: Seq<Level>,
    asks: Seq<Level>,
)
    requires
        coin(up, low),
        is_message(msg, "books5"@, up, data),
        data.len() > 0,
        is_ladder(data[0].at("bids"@), bids),
        is_ladder(data[0].at("asks"@), asks),
    ensures
        ({
            let v = records_of(msg, recv_ms);
            &&& v.len() == 1 && v[0] is Book
            &&& ({
                let b = v[0]->Book_0;
                &&& b.exchange == Exchange::Okx
                &&& b.symbol == low + "/usd"@
                &&& b.bids == bids
                &&& b.asks == asks
                &&& b.is_snapshot
                &&& b.recv_ms == recv_ms
                &&& is_time(data[0].at("ts"@), recv_ms, b.ts_ex)
                &&& data[0].at("seqId"@) matches JsonView::Number(_, _, n) ==> b.seq == n
                &&& data[0].at("seqId"@) !is Number ==> b.seq is None
                &&& b.first_seq is None
            })
        }),
{
    lemma_channels_differ();
    law_names_of_the_symbols(up + "-USDT"@);
    assert(coin(up, low));
    law_fields_are_read_as_what_they_say(data[0].at("ts"@), recv_ms);
    law_ladders_are_read_level_by_level(data[0].at("bids"@), bids);
    law_ladders_are_read_level_by_level(data[0].at("asks"@), asks);
}

/// An answer to a request gives nothing, and neither does a message without
/// data.
pub proof fn law_answers_give_nothing(msg: JsonView, recv_ms: i64)
    ensures
        msg.at("event"@) is Text ==> records_of(msg, recv_ms).len() == 0,
        msg.at("data"@) !is List || msg.at("data"@)->List_0.len() == 0 ==> records_of(
            msg,
            recv_ms,
        ).len() == 0,
        msg.at("arg"@).at("channel"@) !is Text ==> records_of(msg, recv_ms).len() == 0,
{
}

fn read_trade(symbol: &'static str, t: &Json, recv_ms: i64) -> (r: Option<ParsedRecord>)
    ensures
        (match r {
            Some(v) => Some(v@),
            None => None,
        }) == trade_of(symbol@, t@, recv_ms),
{
    let side: TradeSide = match side(word(t.at("side"))) {
        Some(v) => v,
        None => {
            return None;
        },
    };
    let price: Decimal = match dec(t.at("px")) {
        Some(v) => v,
        None => {
            return None;
        },
    };
    Some(
        ParsedRecord::Trade(
            TradeRecord {
                exchange: Exchange::Okx,
                symbol: symbol.to_owned(),
                ts_ex: ts(Some(t.at("ts")), recv_ms),
                recv_ms,
                price,
                qty: dec_or_zero(t.at("sz")),
                side,
                trade_id: s(Some(t.at("tradeId"))),
            },
        ),
    )
}

fn read_trades(symbol: &'static str, rows: &Vec<Json>, recv_ms: i64) -> (r: Vec<ParsedRecord>)
    ensures
        records(r@) == gather(
            rows@.map_values(|j: Json| j@),
            |t: JsonView| at_most_one(trade_of(symbol@, t, recv_ms)),
        ),
        stamped(records(r@), Exchange::Okx, recv_ms),
{
    let mut out: Vec<ParsedRecord> = Vec::new();
    let ghost items = rows@.map_values(|j: Json| j@);
    let ghost f = |t: JsonView| at_most_one(trade_of(symbol@, t, recv_ms));
    assert(items.take(0) =~= Seq::empty());
    assert(records(out@) =~= Seq::empty());
    let mut i: usize = 0;
    while i < rows.len()
        invariant
            items == rows@.map_values(|j: Json| j@),
            f == (|t: JsonView| at_most_one(trade_of(symbol@, t, recv_ms))),
            i <= rows@.len(),
            records(out@) == gather(items.take(i as int), f),
        decreases rows@.len() - i,
    {
        proof {
            lemma_gather_step(items, f, i as int);
        }
        let ghost before = out@;
        match read_trade(symbol, &rows[i], recv_ms) {
            Some(v) => {
                out.push(v);
                assert(records(out@) =~= records(before) + seq![v@]);
            },
            None => {
                assert(records(out@) =~= records(before) + Seq::empty());
            },
        }
        i = i + 1;
    }
    assert(items.take(items.len() as int) =~= items);
    proof {
        lemma_gather_all(
            items,
            f,
            |r: RecordView| r.exchange() == Exchange::Okx && r.recv_ms() == recv_ms,
        );
    }
    out
}

/// Reads the records of a message.
pub fn read_message(msg: &Json, recv_ms: i64) -> (r: Vec<ParsedRecord>)
    ensures
        records(r@) == records_of(msg@, recv_ms),
        stamped(records(r@), Exchange::Okx, recv_ms),
{
    let mut out: Vec<ParsedRecord> = Vec::new();
    assert(records(out@) =~= Seq::empty());
    if msg.at("event").as_str().is_some() {
        return out;
    }
    let arg: &Json = msg.at("arg");
    let channel: &str = match arg.at("channel").as_str() {
        Some(v) => v,
        None => {
            return out;
        },
    };
    let symbol: &'static str = match sym_lookup(&SYM, word(arg.at("instId"))) {
        Some(v) => v,
        None => {
            return out;
        },
    };
    let data: &Vec<Json> = match msg.at("data").as_list() {
        Some(v) => v,
        None => {
            return out;
        },
    };
    if data.len() == 0 {
        return out;
    }
    let d: &Json = &data[0];
    assert(d@ == msg@.at("data"@).as_list().unwrap()[0]);
    if same(channel, "bbo-tbt") {
        let (bid, bid_qty): (Decimal, Decimal) = match top_level(Some(d.at("bids"))) {
            Some(l) => l,
            None => (Decimal::zero(), Decimal::zero()),
        };
        let (ask, ask_qty): (Decimal, Decimal) = match top_level(Some(d.at("asks"))) {
            Some(l) => l,
            None => (Decimal::zero(), Decimal::zero()),
        };
        out.push(
            ParsedRecord::Bbo(
                BboRecord {
                    exchange: Exchange::Okx,
                    symbol: symbol.to_owned(),
                    ts_ex: ts(Some(d.at("ts")), recv_ms),
                    recv_ms,
                    bid,
                    bid_qty,
                    ask,
                    ask_qty,
                },
            ),
        );
    } else if same(channel, "trades") {
        return read_trades(symbol, data, recv_ms);
    } else if same(channel, "books5") {
        out.push(
            ParsedRecord::Book(
                BookRecord {
                    exchange: Exchange::Okx,
                    symbol: symbol.to_owned(),
                    ts_ex: ts(Some(d.at("ts")), recv_ms),
                    recv_ms,
                    bids: ladder(Some(d.at("bids"))),
                    asks: ladder(Some(d.at("asks"))),
                    is_snapshot: true,
                    seq: d.at("seqId").as_u64(),
                    first_seq: None,
                },
            ),
        );
    }
    assert(records(out@) =~= records_of(msg@, recv_ms));
    out
}

/// The request for one channel of one instrument.
pub open spec fn arg_of(channel: Seq<char>, inst: Seq<char>) -> Seq<char> {
    "{\"channel\":"@ + in_quotes(channel) + ",\"instId\":"@ + in_quotes(inst) + "}"@
}

/// The requests for quotes, trades and the book of each instrument.
pub open spec fn args_of(insts: Seq<Seq<char>>) -> Seq<Seq<char>> {
    gather(
        insts,
        |inst: Seq<char>|
            seq![arg_of("bbo-tbt"@, inst), arg_of("trades"@, inst), arg_of("books5"@, inst)],
    )
}

/// No instrument holds anything that JSON would escape.
proof fn lemma_instruments_are_plain()
    ensures
        all_plain(texts_of(INSTRUMENTS@)),
{
    let v = texts_of(INSTRUMENTS@);
    reveal_strlit("BTC-USDT");
    reveal_strlit("ETH-USDT");
    reveal_strlit("SOL-USDT");
    reveal_strlit("XRP-USDT");
    reveal_strlit("DOGE-USDT");
    assert(is_plain(v[0]) && is_plain(v[1]) && is_plain(v[2]) && is_plain(v[3]) && is_plain(v[4]));
}

fn write_arg(channel: &str, inst: &str) -> (r: String)
    requires
        is_plain(channel@),
        is_plain(inst@),
    ensures
        r@ == arg_of(channel@, inst@),
{
    let mut out: String = "{\"channel\":".to_owned();
    out.append(quote(channel).as_str());
    out.append(",\"instId\":");
    out.append(quote(inst).as_str());
    out.append("}");
    out
}

/// The feed of OKX.
#[derive(Debug)]
pub struct OkxCollector {
    ws_url: String,
}

impl OkxCollector {
    /// The feed at its usual address.
    pub fn new() -> (r: OkxCollector)
        ensures
            r.url() == "wss://ws.okx.com:8443/ws/v5/public"@,
    {
        OkxCollector { ws_url: "wss://ws.okx.com:8443/ws/v5/public".to_owned() }
    }
}

/// Every symbol that can be read is asked for.
pub proof fn law_every_symbol_is_asked_for(i: int)
    requires
        0 <= i < 5,
    ensures
        texts_of(INSTRUMENTS@).len() == 5,
        texts_of(INSTRUMENTS@)[i] == pairs(SYM@)[i].0,
{
}

/// The answer to a ping gives nothing. Any other frame is read as JSON, and gives
/// the records of its message; what is no JSON gives nothing.
pub proof fn law_frame_gives_the_records_of_its_message(
    c: OkxCollector,
    raw: Seq<char>,
    recv_ms: i64,
)
    ensures
        raw == "pong"@ ==> c.frame(raw, recv_ms).len() == 0,
        raw != "pong"@ ==> (json_text(raw) matches Some(msg) ==> c.frame(raw, recv_ms)
            == records_of(msg, recv_ms)),
        json_text(raw) is None ==> c.frame(raw, recv_ms).len() == 0,
{
}

impl ExchangeSpec for OkxCollector {
    open spec fn exchange(&self) -> Exchange {
        Exchange::Okx
    }

    closed spec fn url(&self) -> Seq<char> {
        self.ws_url@
    }

    open spec fn requests(&self) -> Seq<Seq<char>> {
        seq![
            "{\"args\":"@ + list_text(args_of(texts_of(INSTRUMENTS@))) + ",\"op\":\"subscribe\"}"@,
        ]
    }

    open spec fn ping(&self) -> Option<Seq<char>> {
        Some("ping"@)
    }

    open spec fn frame(&self, raw: Seq<char>, recv_ms: i64) -> Seq<RecordView> {
        if raw == "pong"@ {
            Seq::empty()
        } else {
            match json_text(raw) {
                Some(msg) => records_of(msg, recv_ms),
                None => Seq::empty(),
            }
        }
    }

    fn name(&self) -> (r: &'static str) {
        "okx"
    }

    fn ws_url(&self) -> (r: &str) {
        self.ws_url.as_str()
    }

    fn subscribe_msgs(&self) -> (r: Vec<String>) {
        let ghost insts = texts_of(INSTRUMENTS@);
        let ghost f = |inst: Seq<char>|
            seq![arg_of("bbo-tbt"@, inst), arg_of("trades"@, inst), arg_of("books5"@, inst)];
        let insts_exec: &[&'static str] = &INSTRUMENTS;
        let mut args: Vec<String> = Vec::new();
        assert(insts.take(0) =~= Seq::empty());
        assert(texts(args@) =~= Seq::empty());
        let mut i: usize = 0;
        while i < insts_exec.len()
            invariant
                insts == texts_of(INSTRUMENTS@),
                insts_exec@ == INSTRUMENTS@,
                f == (|inst: Seq<char>|
                    seq![
                        arg_of("bbo-tbt"@, inst),
                        arg_of("trades"@, inst),
                        arg_of("books5"@, inst),
                    ]),
                i <= insts_exec@.len(),
                texts(args@) == gather(insts.take(i as int), f),
            decreases insts_exec@.len() - i,
        {
            let inst: &'static str = insts_exec[i];
            proof {
                lemma_gather_step(insts, f, i as int);
                lemma_instruments_are_plain();
                reveal_strlit("bbo-tbt");
                reveal_strlit("trades");
                reveal_strlit("books5");
            }
            let ghost before = args@;
            assert(insts[i as int] == inst@);
            args.push(write_arg("bbo-tbt", inst));
            args.push(write_arg("trades", inst));
            args.push(write_arg("books5", inst));
            assert(texts(args@) =~= texts(before) + f(inst@));
            i = i + 1;
        }
        assert(insts.take(insts.len() as int) =~= insts);
        let mut msg: String = "{\"args\":".to_owned();
        msg.append(crate::json::write_list(&args).as_str());
        msg.append(",\"op\":\"subscribe\"}");
        let mut out: Vec<String> = Vec::new();
        out.push(msg);
        assert(texts(out@) =~= self.requests());
        out
    }

    fn parse(&self, raw: &str, recv_ms: i64) -> (r: Vec<ParsedRecord>) {
        if !same(raw, "pong") {
            if let Some(msg) = parse_json(raw) {
                return read_message(&msg, recv_ms);
            }
        }
        let out: Vec<ParsedRecord> = Vec::new();
        assert(records(out@) =~= Seq::empty());
        out
    }

    fn ping_msg(&self) -> (r: Option<String>) {
        Some("ping".to_owned())
    }
}

} // verus!
